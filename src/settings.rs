use vstd::prelude::*;

verus! {

/// An acceptable range for a value in `[0, 1]` and the value aimed at, all
/// three in hundredths.
#[derive(Clone, Copy, Debug, PartialEq, Eq, Structural, Hash)]
pub struct TargetRange {
    pub min: u32,
    pub target: u32,
    pub max: u32,
}

impl TargetRange {
    pub open spec fn wf(&self) -> bool {
        self.min <= 100 && self.target <= 100 && self.max <= 100
    }
}

/// How much each term counts when candidate swatches are scored.
#[derive(Clone, Copy, Debug, PartialEq, Eq, Structural, Hash)]
pub struct Weights {
    pub saturation: u8,
    pub luma: u8,
    pub population: u8,
}

impl Weights {
    pub open spec fn wf(&self) -> bool {
        self.saturation + self.luma + self.population > 0
    }
}

/// The target windows of the six swatches and the scoring weights.
#[derive(Clone, Copy, Debug, PartialEq, Eq, Structural, Hash)]
pub struct Settings {
    pub normal_luma: TargetRange,
    pub light_luma: TargetRange,
    pub dark_luma: TargetRange,
    pub vibrant_saturation: TargetRange,
    pub muted_saturation: TargetRange,
    pub weights: Weights,
}

impl Settings {
    pub open spec fn wf(&self) -> bool {
        &&& self.normal_luma.wf()
        &&& self.light_luma.wf()
        &&& self.dark_luma.wf()
        &&& self.vibrant_saturation.wf()
        &&& self.muted_saturation.wf()
        &&& self.weights.wf()
    }
}

/// The usual profile: normal lightness 0.30 to 0.70 aiming at 0.50, light
/// from 0.55 aiming at 0.74, dark up to 0.45 aiming at 0.26; vibrant
/// saturation from 0.35 aiming at 1, muted up to 0.40 aiming at 0.30;
/// lightness weighs 6, saturation 3 and population 1.
pub open spec fn standard_settings() -> Settings {
    Settings {
        normal_luma: TargetRange { min: 30, target: 50, max: 70 },
        light_luma: TargetRange { min: 55, target: 74, max: 100 },
        dark_luma: TargetRange { min: 0, target: 26, max: 45 },
        vibrant_saturation: TargetRange { min: 35, target: 100, max: 100 },
        muted_saturation: TargetRange { min: 0, target: 30, max: 40 },
        weights: Weights { saturation: 3, luma: 6, population: 1 },
    }
}

impl Default for Settings {
    fn default() -> (s: Settings)
        ensures
            s == standard_settings(),
            s.wf(),
    {
        Settings {
            normal_luma: TargetRange { min: 30, target: 50, max: 70 },
            light_luma: TargetRange { min: 55, target: 74, max: 100 },
            dark_luma: TargetRange { min: 0, target: 26, max: 45 },
            vibrant_saturation: TargetRange { min: 35, target: 100, max: 100 },
            muted_saturation: TargetRange { min: 0, target: 30, max: 40 },
            weights: Weights { saturation: 3, luma: 6, population: 1 },
        }
    }
}

} // verus!
