use vibrant::{is_interesting, training_stream, Image, Palette, Rgb, Rgba};

fn rgb(r: u8, g: u8, b: u8) -> Rgb {
    Rgb { r, g, b }
}

fn rgba(r: u8, g: u8, b: u8, a: u8) -> Rgba {
    Rgba { r, g, b, a }
}

#[test]
fn interesting_pixels() {
    assert!(!is_interesting(&rgba(255, 255, 255, 255)));
    assert!(is_interesting(&rgba(255, 255, 255, 0)));
    assert!(is_interesting(&rgba(0, 0, 0, 255)));
}

#[test]
fn interesting_pixel_thresholds() {
    // boring only when alpha >= 125 and every channel > 250
    assert!(!is_interesting(&rgba(251, 251, 251, 125)));
    assert!(is_interesting(&rgba(251, 251, 251, 124)));
    assert!(is_interesting(&rgba(250, 251, 251, 255)));
    assert!(is_interesting(&rgba(251, 250, 251, 255)));
    assert!(is_interesting(&rgba(251, 251, 250, 255)));
}

#[test]
fn training_stream_skips_opaque_white() {
    let pixels = vec![
        rgba(255, 255, 255, 255),
        rgba(200, 10, 20, 255),
        rgba(255, 255, 255, 0),
        rgba(251, 251, 251, 124),
        rgba(252, 253, 254, 200),
    ];
    let bytes = training_stream(&pixels);
    assert_eq!(bytes, vec![200, 10, 20, 255, 255, 255, 255, 0, 251, 251, 251, 124]);
    assert!(training_stream(&vec![]).is_empty());
}

#[test]
fn duplicate_table_entries_merge_their_counts() {
    let table = vec![
        10, 20, 30, 255, // 0
        40, 50, 60, 255, // 1
        10, 20, 30, 0, // 2: same colour as 0, other alpha
        70, 80, 90, 255, // 3
    ];
    let indices = vec![0, 2, 2, 1, 3, 0];
    let p = Palette::from_quantized(&table, &indices);
    assert_eq!(p.palette, vec![rgb(10, 20, 30), rgb(40, 50, 60), rgb(70, 80, 90)]);
    assert_eq!(p.pixel_counts, vec![4, 1, 1]);
    assert_eq!(p.pixel_counts.iter().sum::<usize>(), indices.len());
}

#[test]
fn unused_table_entries_count_zero() {
    let table = vec![1, 1, 1, 255, 2, 2, 2, 255, 3, 3, 3, 255];
    let p = Palette::from_quantized(&table, &vec![2, 2]);
    assert_eq!(p.palette, vec![rgb(1, 1, 1), rgb(2, 2, 2), rgb(3, 3, 3)]);
    assert_eq!(p.pixel_counts, vec![0, 0, 2]);
    let empty = Palette::from_quantized(&vec![], &vec![]);
    assert!(empty.palette.is_empty());
    assert!(empty.pixel_counts.is_empty());
}

#[test]
fn counts_cover_every_pixel_including_background() {
    let mut pixels = vec![rgba(255, 255, 255, 255); 60];
    pixels.extend(vec![rgba(20, 120, 220, 255); 30]);
    pixels.extend(vec![rgba(250, 10, 10, 255); 10]);
    let image = Image { width: 10, height: 10, pixels };
    let p = Palette::new(&image, 64, 1);
    assert_eq!(p.pixel_counts.len(), p.palette.len());
    assert_eq!(p.pixel_counts.iter().sum::<usize>(), 100);
    assert!(p.palette.len() <= 64);
    for i in 0..p.palette.len() {
        for j in i + 1..p.palette.len() {
            assert_ne!(p.palette[i], p.palette[j]);
        }
    }
}

#[test]
fn empty_image_gives_zero_counts() {
    let image = Image { width: 0, height: 0, pixels: vec![] };
    let p = Palette::new(&image, 16, 10);
    assert!(p.palette.len() <= 16);
    assert!(p.pixel_counts.iter().all(|&c| c == 0));
}

#[test]
fn frequency_of_colours() {
    let p = Palette { palette: vec![rgb(1, 2, 3), rgb(4, 5, 6)], pixel_counts: vec![7, 0] };
    assert_eq!(p.frequency_of(&rgb(1, 2, 3)), 7);
    assert_eq!(p.frequency_of(&rgb(4, 5, 6)), 0);
    assert_eq!(p.frequency_of(&rgb(9, 9, 9)), 0);
}

#[test]
fn sort_by_frequency_is_stable_and_keeps_counts() {
    let p = Palette {
        palette: vec![rgb(1, 0, 0), rgb(2, 0, 0), rgb(3, 0, 0), rgb(4, 0, 0)],
        pixel_counts: vec![5, 1, 5, 0],
    };
    let q = p.sort_by_frequency();
    assert_eq!(q.palette, vec![rgb(4, 0, 0), rgb(2, 0, 0), rgb(1, 0, 0), rgb(3, 0, 0)]);
    assert_eq!(q.pixel_counts, vec![0, 1, 5, 5]);
}

#[test]
fn palette_text() {
    let p = Palette { palette: vec![rgb(255, 0, 16), rgb(1, 2, 171)], pixel_counts: vec![1, 2] };
    assert_eq!(p.to_string(), "Color Palette { #FF0010, #0102AB }");
    let empty = Palette { palette: vec![], pixel_counts: vec![] };
    assert_eq!(empty.to_string(), "Color Palette {  }");
}

#[test]
fn hex_code_of_colour() {
    assert_eq!(rgb(0, 0, 0).to_hex(), "#000000");
    assert_eq!(rgb(18, 35, 67).to_hex(), "#122343");
    assert_eq!(rgb(186, 218, 85).to_hex(), "#BADA55");
}
