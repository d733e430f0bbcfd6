use vstd::prelude::*;
use vstd::string::StringExecFns;

use crate::color::{hex_code, Image, Rgb};
use crate::palette::{quantized_indices, training_bytes, Palette};
use crate::quantize::neuquant_table;
use crate::settings::{standard_settings, Settings};
use crate::swatch::{eligible, is_best, is_selection, select};

verus! {

/// The six swatches of an image; each is absent when no colour of the
/// palette fits its window.
#[derive(Clone, Copy, Debug, PartialEq, Eq, Structural, Hash)]
pub struct Vibrancy {
    pub primary: Option<Rgb>,
    pub dark: Option<Rgb>,
    pub light: Option<Rgb>,
    pub muted: Option<Rgb>,
    pub dark_muted: Option<Rgb>,
    pub light_muted: Option<Rgb>,
}

/// `claimed` with the colour of `slot` added, if there is one.
pub open spec fn claim(claimed: Seq<Rgb>, slot: Option<Rgb>) -> Seq<Rgb> {
    match slot {
        Some(c) => claimed.push(c),
        None => claimed,
    }
}

impl Vibrancy {
    /// The swatches in the order in which they are chosen: primary, light,
    /// dark, muted, light muted, dark muted.
    pub open spec fn slots(self) -> Seq<Option<Rgb>> {
        seq![self.primary, self.light, self.dark, self.muted, self.light_muted, self.dark_muted]
    }

    /// No two present swatches share a colour.
    pub open spec fn distinct_slots(self) -> bool {
        forall|i: int, j: int|
            0 <= i < j < 6 && self.slots()[i] is Some && self.slots()[j] is Some ==> self.slots()[i]
                != self.slots()[j]
    }

    /// Each swatch is the selection from `p` in its windows of `s`, with the
    /// colours of the swatches chosen before it excluded.
    pub open spec fn is_vibrancy_of(self, p: Palette, s: Settings) -> bool {
        let w = s.weights;
        let c1 = claim(seq![], self.primary);
        let c2 = claim(c1, self.light);
        let c3 = claim(c2, self.dark);
        let c4 = claim(c3, self.muted);
        let c5 = claim(c4, self.light_muted);
        &&& is_selection(self.primary, p, seq![], s.normal_luma, s.vibrant_saturation, w)
        &&& is_selection(self.light, p, c1, s.light_luma, s.vibrant_saturation, w)
        &&& is_selection(self.dark, p, c2, s.dark_luma, s.vibrant_saturation, w)
        &&& is_selection(self.muted, p, c3, s.normal_luma, s.muted_saturation, w)
        &&& is_selection(self.light_muted, p, c4, s.light_luma, s.muted_saturation, w)
        &&& is_selection(self.dark_muted, p, c5, s.dark_luma, s.muted_saturation, w)
    }

    /// Finds the six swatches of an image, from its palette of 256 colours
    /// (quantizer quality 10) and the standard settings.
    pub fn new(image: &Image) -> (v: Vibrancy)
        ensures
            v.distinct_slots(),
            exists|p: Palette|
                {
                    &&& p.wf()
                    &&& p.is_quantized(
                        neuquant_table(10, 256, training_bytes(image.pixels@)),
                        quantized_indices(10, 256, image.pixels@),
                    )
                    &&& v.is_vibrancy_of(p, standard_settings())
                },
    {
        let settings = Settings::default();
        let p = Palette::new(image, 256, 10);
        generate_variation_colors(&p, &settings)
    }
}

proof fn lemma_claim(claimed: Seq<Rgb>, slot: Option<Rgb>)
    ensures
        forall|c: Rgb| claimed.contains(c) ==> claim(claimed, slot).contains(c),
        slot matches Some(c) ==> claim(claimed, slot).contains(c),
{
    if let Some(x) = slot {
        assert forall|c: Rgb| claimed.contains(c) implies claimed.push(x).contains(c) by {
            let i = choose|i: int| 0 <= i < claimed.len() && claimed[i] == c;
            assert(claimed.push(x)[i] == c);
        }
        assert(claimed.push(x)[claimed.len() as int] == x);
    }
}

fn claim_into(claimed: &mut Vec<Rgb>, slot: Option<Rgb>)
    ensures
        final(claimed)@ == claim(old(claimed)@, slot),
{
    if let Some(c) = slot {
        claimed.push(c);
    }
}

/// Chooses the six swatches from a palette, in the fixed order primary,
/// light, dark, muted, light muted, dark muted; each choice excludes the
/// colours chosen before it.
pub fn generate_variation_colors(p: &Palette, settings: &Settings) -> (v: Vibrancy)
    requires
        p.wf(),
        settings.wf(),
    ensures
        v.is_vibrancy_of(*p, *settings),
        v.distinct_slots(),
{
    let w = &settings.weights;
    let mut claimed: Vec<Rgb> = Vec::new();
    let primary = select(p, &claimed, &settings.normal_luma, &settings.vibrant_saturation, w);
    claim_into(&mut claimed, primary);
    let light = select(p, &claimed, &settings.light_luma, &settings.vibrant_saturation, w);
    claim_into(&mut claimed, light);
    let dark = select(p, &claimed, &settings.dark_luma, &settings.vibrant_saturation, w);
    claim_into(&mut claimed, dark);
    let muted = select(p, &claimed, &settings.normal_luma, &settings.muted_saturation, w);
    claim_into(&mut claimed, muted);
    let light_muted = select(p, &claimed, &settings.light_luma, &settings.muted_saturation, w);
    claim_into(&mut claimed, light_muted);
    let dark_muted = select(p, &claimed, &settings.dark_luma, &settings.muted_saturation, w);
    let v = Vibrancy { primary, dark, light, muted, dark_muted, light_muted };
    proof {
        let c1 = claim(seq![], primary);
        let c2 = claim(c1, light);
        let c3 = claim(c2, dark);
        let c4 = claim(c3, muted);
        let c5 = claim(c4, light_muted);
        lemma_claim(seq![], primary);
        lemma_claim(c1, light);
        lemma_claim(c2, dark);
        lemma_claim(c3, muted);
        lemma_claim(c4, light_muted);
        assert(v.slots()[0] == primary);
        assert(v.slots()[1] == light);
        assert(v.slots()[2] == dark);
        assert(v.slots()[3] == muted);
        assert(v.slots()[4] == light_muted);
        assert(v.slots()[5] == dark_muted);
    }
    v
}

/// A palette in which no colour stands for any pixel (an empty palette
/// among them) yields no swatch at all.
pub proof fn lemma_unpopulated_palette(v: Vibrancy, p: Palette, s: Settings)
    requires
        p.wf(),
        forall|k: int| 0 <= k < p.pixel_counts@.len() ==> p.pixel_counts@[k] == 0,
        v.is_vibrancy_of(p, s),
    ensures
        forall|i: int| 0 <= i < 6 ==> v.slots()[i] is None,
{
    let w = s.weights;
    let c1 = claim(seq![], v.primary);
    let c2 = claim(c1, v.light);
    let c3 = claim(c2, v.dark);
    let c4 = claim(c3, v.muted);
    let c5 = claim(c4, v.light_muted);
    lemma_no_selection(v.primary, p, seq![], s.normal_luma, s.vibrant_saturation, w);
    lemma_no_selection(v.light, p, c1, s.light_luma, s.vibrant_saturation, w);
    lemma_no_selection(v.dark, p, c2, s.dark_luma, s.vibrant_saturation, w);
    lemma_no_selection(v.muted, p, c3, s.normal_luma, s.muted_saturation, w);
    lemma_no_selection(v.light_muted, p, c4, s.light_luma, s.muted_saturation, w);
    lemma_no_selection(v.dark_muted, p, c5, s.dark_luma, s.muted_saturation, w);
}

proof fn lemma_no_selection(
    r: Option<Rgb>,
    p: Palette,
    claimed: Seq<Rgb>,
    luma: crate::settings::TargetRange,
    saturation: crate::settings::TargetRange,
    w: crate::settings::Weights,
)
    requires
        p.wf(),
        forall|k: int| 0 <= k < p.pixel_counts@.len() ==> p.pixel_counts@[k] == 0,
        is_selection(r, p, claimed, luma, saturation, w),
    ensures
        r is None,
{
    if let Some(c) = r {
        let k = choose|k: int| is_best(p, claimed, k, luma, saturation, w) && p.palette@[k] == c;
        assert(eligible(p, claimed, k, luma, saturation));
    }
}

/// One line of the swatch listing: a tab, the name, then the colour or
/// `None`.
pub open spec fn slot_line(name: Seq<char>, slot: Option<Rgb>) -> Seq<char> {
    "\t"@ + name + match slot {
        Some(c) => " Color: "@ + hex_code(c) + "\n"@,
        None => " Color: None\n"@,
    }
}

fn append_slot(out: &mut String, name: &str, slot: Option<Rgb>)
    ensures
        final(out)@ == old(out)@ + slot_line(name@, slot),
{
    let ghost start = out@;
    out.append("\t");
    out.append(name);
    match slot {
        Some(c) => {
            out.append(" Color: ");
            let hex = c.to_hex();
            out.append(hex.as_str());
            out.append("\n");
        },
        None => {
            out.append(" Color: None\n");
        },
    }
    assert(out@ =~= start + slot_line(name@, slot));
}

impl Vibrancy {
    /// The swatches, one line each, between `Vibrant Colors {` and `}`.
    pub fn to_string(&self) -> (s: String)
        ensures
            s@ == "Vibrant Colors {\n"@ + slot_line("Primary Vibrant"@, self.primary) + slot_line(
                "Dark Vibrant"@,
                self.dark,
            ) + slot_line("Light Vibrant"@, self.light) + slot_line("Muted"@, self.muted)
                + slot_line("Dark Muted"@, self.dark_muted) + slot_line(
                "Light Muted"@,
                self.light_muted,
            ) + "}"@,
    {
        let mut s = String::from_str("Vibrant Colors {\n");
        append_slot(&mut s, "Primary Vibrant", self.primary);
        append_slot(&mut s, "Dark Vibrant", self.dark);
        append_slot(&mut s, "Light Vibrant", self.light);
        append_slot(&mut s, "Muted", self.muted);
        append_slot(&mut s, "Dark Muted", self.dark_muted);
        append_slot(&mut s, "Light Muted", self.light_muted);
        s.append("}");
        s
    }
}

} // verus!
