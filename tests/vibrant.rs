use vibrant::{
    generate_variation_colors, select, training_stream, Image, Palette, Rgb, Rgba, Settings,
    TargetRange, Vibrancy, Weights,
};

fn rgb(r: u8, g: u8, b: u8) -> Rgb {
    Rgb { r, g, b }
}

fn palette(entries: &[(Rgb, usize)]) -> Palette {
    Palette {
        palette: entries.iter().map(|e| e.0).collect(),
        pixel_counts: entries.iter().map(|e| e.1).collect(),
    }
}

fn slots(v: &Vibrancy) -> Vec<Option<Rgb>> {
    vec![v.primary, v.light, v.dark, v.muted, v.light_muted, v.dark_muted]
}

fn normal_vibrant(p: &Palette, claimed: &Vec<Rgb>) -> Option<Rgb> {
    let s = Settings::default();
    select(p, claimed, &s.normal_luma, &s.vibrant_saturation, &s.weights)
}

#[test]
fn standard_settings() {
    let s = Settings::default();
    assert_eq!(s.normal_luma, TargetRange { min: 30, target: 50, max: 70 });
    assert_eq!(s.light_luma, TargetRange { min: 55, target: 74, max: 100 });
    assert_eq!(s.dark_luma, TargetRange { min: 0, target: 26, max: 45 });
    assert_eq!(s.vibrant_saturation, TargetRange { min: 35, target: 100, max: 100 });
    assert_eq!(s.muted_saturation, TargetRange { min: 0, target: 30, max: 40 });
    assert_eq!(s.weights, Weights { saturation: 3, luma: 6, population: 1 });
}

#[test]
fn select_skips_claimed_colours() {
    let p = palette(&[(rgb(255, 0, 0), 5), (rgb(200, 0, 0), 5)]);
    assert_eq!(normal_vibrant(&p, &vec![]), Some(rgb(255, 0, 0)));
    assert_eq!(normal_vibrant(&p, &vec![rgb(255, 0, 0)]), Some(rgb(200, 0, 0)));
    assert_eq!(normal_vibrant(&p, &vec![rgb(200, 0, 0), rgb(255, 0, 0)]), None);
}

#[test]
fn select_breaks_ties_by_palette_order() {
    // equal saturation, lightness and population: equal scores
    let p = palette(&[(rgb(200, 50, 50), 5), (rgb(50, 200, 50), 5)]);
    assert_eq!(normal_vibrant(&p, &vec![]), Some(rgb(200, 50, 50)));
    let q = palette(&[(rgb(50, 200, 50), 5), (rgb(200, 50, 50), 5)]);
    assert_eq!(normal_vibrant(&q, &vec![]), Some(rgb(50, 200, 50)));
}

#[test]
fn select_weighs_population_against_lightness() {
    // (200, 0, 0) is 5500/51000 off the target lightness; at weight 6 that
    // costs 0.647, which a population share larger by 0.8 outweighs and one
    // larger by 0.6 does not.
    let p = palette(&[(rgb(255, 0, 0), 1), (rgb(200, 0, 0), 9)]);
    assert_eq!(normal_vibrant(&p, &vec![]), Some(rgb(200, 0, 0)));
    let q = palette(&[(rgb(255, 0, 0), 2), (rgb(200, 0, 0), 8)]);
    assert_eq!(normal_vibrant(&q, &vec![]), Some(rgb(255, 0, 0)));
}

#[test]
fn select_skips_unpopulated_entries() {
    let p = palette(&[(rgb(255, 0, 0), 0), (rgb(200, 0, 0), 3)]);
    assert_eq!(normal_vibrant(&p, &vec![]), Some(rgb(200, 0, 0)));
    let q = palette(&[(rgb(255, 0, 0), 0)]);
    assert_eq!(normal_vibrant(&q, &vec![]), None);
}

#[test]
fn select_respects_windows() {
    // greys have no saturation; dark red is too dark for the normal window
    let p = palette(&[(rgb(128, 128, 128), 10), (rgb(100, 0, 0), 10), (rgb(0, 0, 0), 1)]);
    assert_eq!(normal_vibrant(&p, &vec![]), None);
    assert_eq!(normal_vibrant(&palette(&[]), &vec![]), None);
}

#[test]
fn six_swatches_from_a_palette() {
    let p = palette(&[
        (rgb(255, 0, 0), 1),
        (rgb(255, 153, 153), 1),
        (rgb(102, 0, 0), 1),
        (rgb(150, 115, 105), 1),
        (rgb(200, 190, 180), 1),
        (rgb(60, 50, 40), 1),
    ]);
    let v = generate_variation_colors(&p, &Settings::default());
    assert_eq!(v.primary, Some(rgb(255, 0, 0)));
    assert_eq!(v.light, Some(rgb(255, 153, 153)));
    assert_eq!(v.dark, Some(rgb(102, 0, 0)));
    assert_eq!(v.muted, Some(rgb(150, 115, 105)));
    assert_eq!(v.light_muted, Some(rgb(200, 190, 180)));
    assert_eq!(v.dark_muted, Some(rgb(60, 50, 40)));
}

#[test]
fn a_colour_fills_one_swatch_only() {
    // lightness 0.6 and saturation 1: fits both the primary and the light window
    let p = palette(&[(rgb(255, 51, 51), 4)]);
    let v = generate_variation_colors(&p, &Settings::default());
    assert_eq!(v.primary, Some(rgb(255, 51, 51)));
    assert_eq!(v.light, None);
    let present: Vec<Rgb> = slots(&v).into_iter().flatten().collect();
    for i in 0..present.len() {
        for j in i + 1..present.len() {
            assert_ne!(present[i], present[j]);
        }
    }
}

#[test]
fn unpopulated_palette_has_no_swatches() {
    let p = palette(&[(rgb(255, 0, 0), 0), (rgb(60, 50, 40), 0)]);
    let v = generate_variation_colors(&p, &Settings::default());
    assert!(slots(&v).iter().all(|s| s.is_none()));
}

#[test]
fn empty_image_has_no_swatches() {
    let v = Vibrancy::new(&Image { width: 0, height: 0, pixels: vec![] });
    assert!(slots(&v).iter().all(|s| s.is_none()));
}

#[test]
fn red_on_white_gives_a_red_swatch() {
    let white = Rgba { r: 255, g: 255, b: 255, a: 255 };
    let red = Rgba { r: 230, g: 20, b: 20, a: 255 };
    let mut pixels = Vec::new();
    for y in 0..40u32 {
        for x in 0..40u32 {
            pixels.push(if x < 10 && y < 10 { red } else { white });
        }
    }
    let image = Image { width: 40, height: 40, pixels };
    // the white background never reaches the quantizer
    assert_eq!(training_stream(&image.pixels).len(), 100 * 4);
    // but every pixel is counted
    let p = Palette::new(&image, 256, 10);
    assert_eq!(p.pixel_counts.iter().sum::<usize>(), 1600);
    let v = Vibrancy::new(&image);
    let chosen = v.primary.expect("a vibrant swatch");
    assert!(chosen.r > 150 && chosen.g < 90 && chosen.b < 90, "{:?}", chosen);
    assert!(p.frequency_of(&chosen) > 0);
}

#[test]
fn vibrancy_text() {
    let v = Vibrancy {
        primary: Some(rgb(255, 0, 0)),
        dark: None,
        light: Some(rgb(18, 35, 67)),
        muted: None,
        dark_muted: None,
        light_muted: None,
    };
    assert_eq!(
        v.to_string(),
        "Vibrant Colors {\n\tPrimary Vibrant Color: #FF0000\n\tDark Vibrant Color: None\n\tLight Vibrant Color: #122343\n\tMuted Color: None\n\tDark Muted Color: None\n\tLight Muted Color: None\n}"
    );
}
