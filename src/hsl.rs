use vstd::prelude::*;

use crate::color::Rgb;

verus! {

/// An exact non-negative rational number `num / den`.
#[derive(Clone, Copy, Debug, PartialEq, Eq, Structural, Hash)]
pub struct Fraction {
    pub num: u32,
    pub den: u32,
}

impl View for Fraction {
    type V = (int, int);

    open spec fn view(&self) -> (int, int) {
        (self.num as int, self.den as int)
    }
}

/// A colour in the hue / saturation / lightness model, held exactly.
///
/// `h` is in degrees, in `[0, 360)`; `s` and `l` are in `[0, 1]`.
#[derive(Clone, Copy, Debug, PartialEq, Eq, Structural, Hash)]
pub struct HSL {
    pub h: Fraction,
    pub s: Fraction,
    pub l: Fraction,
}

pub open spec fn channel_max(c: Rgb) -> int {
    let m = if c.r >= c.g { c.r as int } else { c.g as int };
    if m >= c.b { m } else { c.b as int }
}

pub open spec fn channel_min(c: Rgb) -> int {
    let m = if c.r <= c.g { c.r as int } else { c.g as int };
    if m <= c.b { m } else { c.b as int }
}

/// Lightness: the mean of the largest and smallest channel, over 255.
pub open spec fn lightness_of(c: Rgb) -> (int, int) {
    (channel_max(c) + channel_min(c), 510)
}

/// Saturation: zero for greys; otherwise the channel spread over
/// `max + min` when the colour is darker than half, else over `2 - max - min`.
pub open spec fn saturation_of(c: Rgb) -> (int, int) {
    let (mx, mn) = (channel_max(c), channel_min(c));
    if mx == mn {
        (0, 1)
    } else if mx + mn < 255 {
        (mx - mn, mx + mn)
    } else {
        (mx - mn, 510 - mx - mn)
    }
}

/// Hue in degrees: zero for greys; otherwise the six-piece formula taken from
/// the channel that is largest (red first, then green), wrapped into `[0, 360)`.
pub open spec fn hue_of(c: Rgb) -> (int, int) {
    let (mx, mn) = (channel_max(c), channel_min(c));
    let d = mx - mn;
    let (r, g, b) = (c.r as int, c.g as int, c.b as int);
    if d == 0 {
        (0, 1)
    } else if mx == r {
        if g >= b {
            (60 * (g - b), d)
        } else {
            (360 * d + 60 * (g - b), d)
        }
    } else if mx == g {
        (120 * d + 60 * (b - r), d)
    } else {
        (240 * d + 60 * (r - g), d)
    }
}

impl HSL {
    /// Converts a colour to hue, saturation and lightness.
    pub fn from_pixel(pixel: &Rgb) -> (hsl: HSL)
        ensures
            hsl.h@ == hue_of(*pixel),
            hsl.s@ == saturation_of(*pixel),
            hsl.l@ == lightness_of(*pixel),
            0 <= hsl.h.num < 360 * hsl.h.den,
            0 < hsl.s.den <= 510,
            hsl.s.num <= hsl.s.den,
            hsl.l.num <= hsl.l.den,
            pixel.r == pixel.g == pixel.b ==> hsl.h.num == 0 && hsl.s.num == 0 && hsl.l.num
                * 255 == pixel.r * hsl.l.den,
    {
        let (r, g, b) = (pixel.r as u32, pixel.g as u32, pixel.b as u32);
        let mut max: u32 = if r >= g { r } else { g };
        if b > max {
            max = b;
        }
        let mut min: u32 = if r <= g { r } else { g };
        if b < min {
            min = b;
        }
        let l = Fraction { num: max + min, den: 510 };
        let delta: u32 = max - min;
        if delta == 0 {
            // a grey: no hue and no saturation
            return HSL { h: Fraction { num: 0, den: 1 }, s: Fraction { num: 0, den: 1 }, l };
        }
        let s = if max + min < 255 {
            Fraction { num: delta, den: max + min }
        } else {
            Fraction { num: delta, den: 510 - max - min }
        };
        let hue: u32 = if max == r {
            if g >= b {
                60 * (g - b)
            } else {
                360 * delta - 60 * (b - g)
            }
        } else if max == g {
            120 * delta + 60 * b - 60 * r
        } else {
            240 * delta + 60 * r - 60 * g
        };
        HSL { h: Fraction { num: hue, den: delta }, s, l }
    }
}

} // verus!
