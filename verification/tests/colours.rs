use pokepalette::distance::{
    compute_color_distance, delta_distance, delta_from_bits, euclidean_distance, rgb_distance,
    squared_difference, ColorMetric, Lab, DISTANCE_MAX,
};
use pokepalette::rgb::{decimal_string, Rgb};

fn rgb(r: u8, g: u8, b: u8) -> Rgb {
    Rgb { r, g, b }
}

fn close(fixed: u64, expected: f64, tolerance: f64) -> bool {
    (fixed as f64 / 65536.0 - expected).abs() <= tolerance
}

#[test]
fn ansi_color_writes_the_channels_in_decimal() {
    assert_eq!(rgb(1, 20, 255).ansi_color(), "\x1b[48;2;1;20;255m");
    assert_eq!(rgb(0, 0, 0).ansi_color(), "\x1b[48;2;0;0;0m");
    assert_eq!(rgb(100, 109, 9).ansi_color(), "\x1b[48;2;100;109;9m");
}

#[test]
fn numbers_are_written_in_decimal() {
    for n in 0..=255u8 {
        assert_eq!(decimal_string(n), n.to_string());
    }
}

#[test]
fn normalize_gives_fractions_of_255() {
    assert_eq!(rgb(255, 0, 51).normalize(), (65536, 0, 13107));
    assert_eq!(rgb(128, 1, 254).normalize(), (32896, 257, 65278));
}

#[test]
fn squared_differences_are_summed_over_the_channels() {
    assert_eq!(squared_difference(&rgb(10, 20, 30), &rgb(13, 24, 42)), 169);
    assert_eq!(squared_difference(&rgb(13, 24, 42), &rgb(10, 20, 30)), 169);
    assert_eq!(squared_difference(&rgb(255, 255, 255), &rgb(0, 0, 0)), 195075);
}

#[test]
fn rgb_distance_is_the_sum_of_squares_of_normalized_differences() {
    assert_eq!(rgb_distance(&rgb(255, 0, 0), &rgb(0, 0, 0)), 65536);
    assert_eq!(rgb_distance(&rgb(255, 255, 255), &rgb(0, 0, 0)), 3 * 65536);
    assert_eq!(rgb_distance(&rgb(10, 20, 30), &rgb(13, 24, 42)), 170);
    assert_eq!(rgb_distance(&rgb(7, 7, 7), &rgb(7, 7, 7)), 0);
}

#[test]
fn lab_coordinates_come_from_the_conversion() {
    let white = Lab::from_rgb(&rgb(255, 255, 255));
    assert!((white.l - 100 * 65536).abs() < 700);
    assert!(white.a.abs() < 700 && white.b.abs() < 700);
    let black = Lab::from_rgb(&rgb(0, 0, 0));
    assert_eq!(black, Lab { l: 0, a: 0, b: 0 });
    let red = Lab::from_rgb(&rgb(255, 0, 0));
    let expected = lab::Lab::from_rgb(&[255, 0, 0]);
    assert_eq!(red.l, (expected.l as f64 * 65536.0) as i64);
    assert_eq!(red.a, (expected.a as f64 * 65536.0) as i64);
    assert_eq!(red.b, (expected.b as f64 * 65536.0) as i64);
}

#[test]
fn lab_from_bits_reads_each_coordinate() {
    let point = Lab::from_bits(50.0f32.to_bits(), (-12.5f32).to_bits(), 0.25f32.to_bits());
    assert_eq!(point, Lab { l: 50 * 65536, a: -819200, b: 16384 });
}

#[test]
fn lab_distance_is_the_length_of_the_difference() {
    let x = Lab { l: 3 * 65536, a: 0, b: 0 };
    let y = Lab { l: 0, a: 4 * 65536, b: 0 };
    assert_eq!(x.distance(&y), 5 * 65536);
    assert_eq!(y.distance(&x), 5 * 65536);
    let z = Lab { l: 1, a: 1, b: 1 };
    assert_eq!(z.distance(&Lab { l: 0, a: 0, b: 0 }), 1);
    let far = Lab { l: 1 << 31, a: 1 << 31, b: 1 << 31 };
    let near = Lab { l: -(1 << 31), a: -(1 << 31), b: -(1 << 31) };
    assert_eq!(far.distance(&near), 7439101573);
    assert!(far.distance(&near) <= DISTANCE_MAX);
}

#[test]
fn euclidean_distance_is_measured_in_lab_space() {
    assert!(close(euclidean_distance(&rgb(0, 0, 0), &rgb(255, 255, 255)), 100.0, 0.02));
    let a = [234u8, 76, 76];
    let b = [76u8, 187, 234];
    let la = lab::Lab::from_rgb(&a);
    let lb = lab::Lab::from_rgb(&b);
    let expected =
        ((la.l - lb.l).powi(2) + (la.a - lb.a).powi(2) + (la.b - lb.b).powi(2)).sqrt() as f64;
    let got = euclidean_distance(&rgb(a[0], a[1], a[2]), &rgb(b[0], b[1], b[2]));
    assert!(close(got, expected, 0.001));
    assert_eq!(got, euclidean_distance(&rgb(b[0], b[1], b[2]), &rgb(a[0], a[1], a[2])));
}

#[test]
fn delta_distance_is_the_ciede2000_difference() {
    let a = [234u8, 76, 76];
    let b = [76u8, 187, 234];
    let expected = delta_e::DE2000::from_rgb(&a, &b);
    let got = delta_distance(&rgb(a[0], a[1], a[2]), &rgb(b[0], b[1], b[2]));
    assert_eq!(got, (expected as f64 * 65536.0) as u64);
    assert!(close(delta_distance(&rgb(0, 0, 0), &rgb(255, 255, 255)), 100.0, 0.02));
}

#[test]
fn delta_of_equal_colours_is_zero_whatever_the_bits() {
    assert_eq!(delta_from_bits(&rgb(1, 2, 3), &rgb(1, 2, 3), 5.0f32.to_bits()), 0);
    assert_eq!(delta_from_bits(&rgb(1, 2, 3), &rgb(1, 2, 4), 5.0f32.to_bits()), 5 * 65536);
    assert_eq!(delta_from_bits(&rgb(1, 2, 3), &rgb(1, 2, 4), (-5.0f32).to_bits()), 0);
    assert_eq!(delta_from_bits(&rgb(1, 2, 3), &rgb(1, 2, 4), f32::NAN.to_bits()), 0);
}

#[test]
fn every_metric_gives_zero_for_a_colour_and_itself() {
    for metric in [ColorMetric::Euclidean, ColorMetric::Lab, ColorMetric::Delta2000] {
        for c in [rgb(0, 0, 0), rgb(255, 255, 255), rgb(12, 200, 77)] {
            assert_eq!(compute_color_distance(metric, &c, &c), 0);
        }
    }
}

#[test]
fn the_metrics_are_independent() {
    let a = rgb(200, 30, 30);
    let b = rgb(30, 30, 200);
    assert_eq!(compute_color_distance(ColorMetric::Euclidean, &a, &b), rgb_distance(&a, &b));
    assert_eq!(compute_color_distance(ColorMetric::Lab, &a, &b), euclidean_distance(&a, &b));
    assert_eq!(compute_color_distance(ColorMetric::Delta2000, &a, &b), delta_distance(&a, &b));
    assert_ne!(euclidean_distance(&a, &b), delta_distance(&a, &b));
}
