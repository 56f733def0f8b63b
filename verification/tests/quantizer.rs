use pokepalette::quantize::{get_palette, quantize_color, QuantizeError, WeightedColor};
use pokepalette::rgb::Rgb;

fn rgb(r: u8, g: u8, b: u8) -> Rgb {
    Rgb { r, g, b }
}

#[test]
fn uniform_red_gives_one_bucket_of_full_weight() {
    let pixels = vec![rgb(255, 0, 0); 100];
    let palette = get_palette(&pixels, 1, 8, false).unwrap();
    assert_eq!(palette.len(), 1);
    assert_eq!(palette[0], WeightedColor { color: rgb(240, 16, 16), count: 100, total: 100 });
    assert_eq!(palette[0].freq(), 65536);
}

#[test]
fn frequencies_are_fractions_in_fixed_point() {
    let w = |count: u64, total: u64| WeightedColor { color: rgb(1, 2, 3), count, total };
    assert_eq!(w(0, 7).freq(), 0);
    assert_eq!(w(7, 7).freq(), 65536);
    assert_eq!(w(1, 2).freq(), 32768);
    assert_eq!(w(1, 3).freq(), 21845);
    assert_eq!(w(u64::MAX, u64::MAX).freq(), 65536);
    assert_eq!(w(u64::MAX - 1, u64::MAX).freq(), 65535);
}

#[test]
fn quantize_color_takes_bucket_midpoints() {
    assert_eq!(quantize_color(&rgb(0, 31, 32), 32), rgb(16, 16, 48));
    assert_eq!(quantize_color(&rgb(255, 128, 127), 128), rgb(192, 192, 64));
    assert_eq!(quantize_color(&rgb(200, 100, 50), 16), rgb(200, 104, 56));
}

#[test]
fn midpoint_of_the_partial_last_bucket_is_capped() {
    // 256 / 3 = 85: the values from 255 on form a bucket of their own, whose midpoint 297 is capped.
    assert_eq!(quantize_color(&rgb(255, 254, 0), 85), rgb(255, 212, 42));
}

#[test]
fn levels_out_of_range_are_refused() {
    let pixels = vec![rgb(1, 2, 3)];
    assert_eq!(get_palette(&pixels, 1, 1, false), Err(QuantizeError::InvalidConfiguration));
    assert_eq!(get_palette(&pixels, 1, 17, false), Err(QuantizeError::InvalidConfiguration));
    assert!(get_palette(&pixels, 1, 2, false).is_ok());
    assert!(get_palette(&pixels, 1, 16, false).is_ok());
}

#[test]
fn palette_size_out_of_range_is_refused() {
    let pixels = vec![rgb(1, 2, 3)];
    assert_eq!(get_palette(&pixels, 0, 8, false), Err(QuantizeError::InvalidConfiguration));
    assert_eq!(get_palette(&pixels, 11, 8, false), Err(QuantizeError::InvalidConfiguration));
    assert!(get_palette(&pixels, 10, 8, false).is_ok());
}

#[test]
fn palette_size_above_levels_cubed_is_refused() {
    let pixels = vec![rgb(1, 2, 3)];
    assert_eq!(get_palette(&pixels, 9, 2, false), Err(QuantizeError::InvalidConfiguration));
    assert!(get_palette(&pixels, 8, 2, false).is_ok());
}

#[test]
fn no_pixels_are_refused() {
    let pixels: Vec<Rgb> = Vec::new();
    assert_eq!(get_palette(&pixels, 5, 8, false), Err(QuantizeError::EmptyInput));
}

#[test]
fn configuration_is_checked_before_the_pixels() {
    let pixels: Vec<Rgb> = Vec::new();
    assert_eq!(get_palette(&pixels, 0, 8, false), Err(QuantizeError::InvalidConfiguration));
}

#[test]
fn only_black_pixels_are_refused_when_black_is_ignored() {
    let pixels = vec![rgb(0, 0, 0); 7];
    assert_eq!(get_palette(&pixels, 5, 8, true), Err(QuantizeError::EmptyInput));
    let kept = get_palette(&pixels, 5, 8, false).unwrap();
    assert_eq!(kept, vec![WeightedColor { color: rgb(16, 16, 16), count: 7, total: 7 }]);
}

#[test]
fn black_is_left_out_of_counts_and_of_the_total() {
    let mut pixels = vec![rgb(0, 0, 0); 6];
    pixels.extend(vec![rgb(200, 10, 10); 3]);
    pixels.push(rgb(1, 1, 1));
    let palette = get_palette(&pixels, 5, 8, true).unwrap();
    assert_eq!(
        palette,
        vec![
            WeightedColor { color: rgb(208, 16, 16), count: 3, total: 4 },
            WeightedColor { color: rgb(16, 16, 16), count: 1, total: 4 },
        ]
    );
}

#[test]
fn the_more_frequent_colour_comes_first() {
    let mut pixels = vec![rgb(10, 10, 10); 2];
    pixels.extend(vec![rgb(250, 250, 250); 5]);
    pixels.extend(vec![rgb(100, 100, 100); 3]);
    let palette = get_palette(&pixels, 3, 8, false).unwrap();
    let counts: Vec<u64> = palette.iter().map(|w| w.count).collect();
    assert_eq!(counts, vec![5, 3, 2]);
    assert_eq!(palette[0].color, rgb(240, 240, 240));
    assert_eq!(palette[1].color, rgb(112, 112, 112));
    assert_eq!(palette[2].color, rgb(16, 16, 16));
}

#[test]
fn equally_frequent_colours_come_in_ascending_order() {
    let pixels = vec![rgb(200, 0, 0), rgb(0, 200, 0), rgb(0, 0, 200), rgb(0, 0, 100)];
    let palette = get_palette(&pixels, 4, 8, false).unwrap();
    let colors: Vec<Rgb> = palette.iter().map(|w| w.color).collect();
    assert_eq!(colors, vec![rgb(16, 16, 112), rgb(16, 16, 208), rgb(16, 208, 16), rgb(208, 16, 16)]);
}

#[test]
fn palette_is_cut_to_its_size() {
    let mut pixels = Vec::new();
    for i in 0..8u8 {
        for _ in 0..=i {
            pixels.push(rgb(i * 32, 0, 0));
        }
    }
    let palette = get_palette(&pixels, 3, 8, false).unwrap();
    assert_eq!(palette.len(), 3);
    let counts: Vec<u64> = palette.iter().map(|w| w.count).collect();
    assert_eq!(counts, vec![8, 7, 6]);
    assert!(palette.iter().all(|w| w.total == 36));
}

#[test]
fn counts_add_up_to_the_total_when_nothing_is_cut() {
    let pixels = vec![rgb(1, 1, 1), rgb(2, 2, 2), rgb(130, 1, 1), rgb(255, 255, 255), rgb(0, 0, 0)];
    for ignore_black in [false, true] {
        let palette = get_palette(&pixels, 10, 4, ignore_black).unwrap();
        let sum: u64 = palette.iter().map(|w| w.count).sum();
        let counted = if ignore_black { 4 } else { 5 };
        assert_eq!(sum, counted);
        assert!(palette.iter().all(|w| w.total == counted));
    }
}
