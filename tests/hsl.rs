use vibrant::{Fraction, Rgb, HSL};

fn value(f: Fraction) -> f64 {
    f.num as f64 / f.den as f64
}

fn check_one_sided(rgb: (u8, u8, u8), expected: (f64, f64, f64)) {
    // half a percent for saturation and lightness, half a degree for hue
    let epsilon = 0.05_f64;
    let epsilon_degree = 0.5_f64;
    let hsl = HSL::from_pixel(&Rgb { r: rgb.0, g: rgb.1, b: rgb.2 });
    let (h, s, l) = (value(hsl.h), value(hsl.s), value(hsl.l));
    assert!(expected.0 - h <= epsilon_degree, "{:?}: hue {} vs {}", rgb, expected.0, h);
    assert!(expected.1 - s <= epsilon, "{:?}: saturation {} vs {}", rgb, expected.1, s);
    assert!(expected.2 - l <= epsilon, "{:?}: lightness {} vs {}", rgb, expected.2, l);
}

fn check_close(rgb: (u8, u8, u8), expected: (f64, f64, f64)) {
    let hsl = HSL::from_pixel(&Rgb { r: rgb.0, g: rgb.1, b: rgb.2 });
    let (h, s, l) = (value(hsl.h), value(hsl.s), value(hsl.l));
    assert!((expected.0 - h).abs() <= 0.5, "{:?}: hue {} vs {}", rgb, expected.0, h);
    assert!((expected.1 - s).abs() <= 0.005, "{:?}: saturation {} vs {}", rgb, expected.1, s);
    assert!((expected.2 - l).abs() <= 0.005, "{:?}: lightness {} vs {}", rgb, expected.2, l);
}

#[test]
fn rgb_to_hsl() {
    check_one_sided((0, 0, 0), (0_f64, 0_f64, 0_f64));
    check_one_sided((255, 255, 255), (0_f64, 0_f64, 1_f64));
    check_one_sided((18, 35, 67), (219_f64, 0.58_f64, 0.17_f64));
    check_one_sided((147, 198, 205), (187_f64, 0.37_f64, 0.69_f64));
    check_one_sided((186, 218, 85), (74_f64, 0.64_f64, 0.59_f64));
    check_one_sided((255, 255, 0), (60_f64, 1_f64, 0.5_f64));
    check_one_sided((198, 250, 172), (100_f64, 0.89_f64, 0.83_f64));
    check_one_sided((250, 173, 199), (340_f64, 0.89_f64, 0.83_f64));
}

#[test]
fn known_fixtures_within_tolerance() {
    check_close((0, 0, 0), (0.0, 0.0, 0.0));
    check_close((255, 255, 255), (0.0, 0.0, 1.0));
    check_close((255, 255, 0), (60.0, 1.0, 0.5));
    check_close((18, 35, 67), (219.0, 0.576, 0.1667));
    check_close((250, 173, 199), (339.74, 0.885, 0.829));
}

#[test]
fn greys_have_no_hue_or_saturation() {
    for v in [0u8, 1, 17, 127, 128, 200, 254, 255] {
        let hsl = HSL::from_pixel(&Rgb { r: v, g: v, b: v });
        assert_eq!(hsl.h.num, 0);
        assert_eq!(hsl.s.num, 0);
        assert_eq!(hsl.l.num as u64 * 255, v as u64 * hsl.l.den as u64);
    }
}

#[test]
fn exact_fractions_of_primaries() {
    let red = HSL::from_pixel(&Rgb { r: 255, g: 0, b: 0 });
    assert_eq!(red.h, Fraction { num: 0, den: 255 });
    assert_eq!(red.s, Fraction { num: 255, den: 255 });
    assert_eq!(red.l, Fraction { num: 255, den: 510 });
    let green = HSL::from_pixel(&Rgb { r: 0, g: 255, b: 0 });
    assert_eq!(green.h, Fraction { num: 120 * 255, den: 255 });
    let blue = HSL::from_pixel(&Rgb { r: 0, g: 0, b: 255 });
    assert_eq!(blue.h, Fraction { num: 240 * 255, den: 255 });
    // a dark colour: saturation over max + min
    let navy = HSL::from_pixel(&Rgb { r: 18, g: 35, b: 67 });
    assert_eq!(navy.s, Fraction { num: 49, den: 85 });
    assert_eq!(navy.l, Fraction { num: 85, den: 510 });
    assert_eq!(navy.h, Fraction { num: 240 * 49 - 60 * 17, den: 49 });
}

#[test]
fn hue_wraps_into_range() {
    // red is largest and blue exceeds green: the hue is just under 360
    let pink = HSL::from_pixel(&Rgb { r: 250, g: 173, b: 199 });
    assert_eq!(pink.h, Fraction { num: 360 * 77 - 60 * 26, den: 77 });
    assert_eq!(pink.s, Fraction { num: 77, den: 87 });
    assert!(pink.h.num < 360 * pink.h.den);
}
