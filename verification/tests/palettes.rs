use pokepalette::aligned::{
    best_diagonal, euclidean, mean_delta, ones, weighted_euclidean, DistanceError,
};
use pokepalette::colorscheme::ColorScheme;
use pokepalette::distance::{
    chamfer_distance, delta_distance, directional_distance, euclidean_distance, nearest_distance,
    palette_distance, rgb_distance, ColorMetric, DISTANCE_MAX,
};
use pokepalette::metric::{colors_of, compute_palette_distance, PaletteMetric};
use pokepalette::palette::Palette;
use pokepalette::quantize::WeightedColor;
use pokepalette::rgb::Rgb;

fn rgb(r: u8, g: u8, b: u8) -> Rgb {
    Rgb { r, g, b }
}

fn weighted(color: Rgb, count: u64, total: u64) -> WeightedColor {
    WeightedColor { color, count, total }
}

fn sample_a() -> Vec<WeightedColor> {
    vec![
        weighted(rgb(240, 16, 16), 6, 10),
        weighted(rgb(16, 16, 240), 3, 10),
        weighted(rgb(112, 112, 112), 1, 10),
    ]
}

fn sample_b() -> Vec<WeightedColor> {
    vec![weighted(rgb(208, 48, 16), 5, 8), weighted(rgb(16, 240, 16), 3, 8)]
}

#[test]
fn chamfer_distance_of_a_palette_and_itself_is_zero() {
    for metric in [ColorMetric::Euclidean, ColorMetric::Lab, ColorMetric::Delta2000] {
        assert_eq!(chamfer_distance(&sample_a(), &sample_a(), metric), 0);
        assert_eq!(chamfer_distance(&sample_b(), &sample_b(), metric), 0);
    }
    assert_eq!(palette_distance(&sample_a(), &sample_a()), 0);
}

#[test]
fn identical_single_colour_palettes_are_at_distance_zero() {
    let a = vec![weighted(rgb(10, 200, 30), 7, 7)];
    let b = vec![weighted(rgb(10, 200, 30), 7, 7)];
    assert_eq!(palette_distance(&a, &b), 0);
    assert_eq!(compute_palette_distance(&a, &b, PaletteMetric::Chamfer), Ok(0));
}

#[test]
fn chamfer_distance_is_symmetric() {
    for metric in [ColorMetric::Euclidean, ColorMetric::Lab, ColorMetric::Delta2000] {
        let ab = chamfer_distance(&sample_a(), &sample_b(), metric);
        let ba = chamfer_distance(&sample_b(), &sample_a(), metric);
        assert_eq!(ab, ba);
        assert!(ab > 0);
        assert!(ab <= DISTANCE_MAX);
    }
    assert_eq!(
        palette_distance(&sample_a(), &sample_b()),
        palette_distance(&sample_b(), &sample_a())
    );
}

#[test]
fn nearest_distance_is_the_least_distance() {
    let to = sample_a();
    let c = rgb(200, 30, 30);
    let expected = to.iter().map(|w| rgb_distance(&c, &w.color)).min().unwrap();
    assert_eq!(nearest_distance(&c, &to, ColorMetric::Euclidean), expected);
    assert_eq!(expected, rgb_distance(&c, &rgb(240, 16, 16)));
    assert_eq!(nearest_distance(&c, &Vec::new(), ColorMetric::Euclidean), DISTANCE_MAX);
}

#[test]
fn directional_distance_weights_by_frequency() {
    // From a to b under the Euclidean metric, by hand.
    let a = sample_a();
    let b = sample_b();
    let mut sum: u128 = 0;
    for w in &a {
        let nearest = b.iter().map(|v| rgb_distance(&w.color, &v.color)).min().unwrap();
        sum += w.count as u128 * nearest as u128;
    }
    let expected = (sum / 10) as u64;
    assert_eq!(directional_distance(&a, &b, ColorMetric::Euclidean), expected);
    // A single colour of full weight: the plain distance.
    let one = vec![weighted(rgb(255, 0, 0), 4, 4)];
    let other = vec![weighted(rgb(0, 0, 0), 9, 9)];
    assert_eq!(directional_distance(&one, &other, ColorMetric::Euclidean), 65536);
    // Half the weight: half the distance.
    let half = vec![weighted(rgb(255, 0, 0), 2, 4)];
    assert_eq!(directional_distance(&half, &other, ColorMetric::Euclidean), 32768);
}

#[test]
fn chamfer_distance_is_the_mean_of_the_two_directions() {
    let a = sample_a();
    let b = sample_b();
    let ab = directional_distance(&a, &b, ColorMetric::Lab);
    let ba = directional_distance(&b, &a, ColorMetric::Lab);
    assert_eq!(palette_distance(&a, &b), (ab + ba) / 2);
    let one = vec![weighted(rgb(255, 0, 0), 2, 4)];
    let other = vec![weighted(rgb(0, 0, 0), 9, 9)];
    assert_eq!(chamfer_distance(&one, &other, ColorMetric::Euclidean), (32768 + 65536) / 2);
}

#[test]
fn palette_distance_compares_in_lab_space() {
    let a = vec![weighted(rgb(0, 0, 0), 1, 1)];
    let b = vec![weighted(rgb(255, 255, 255), 1, 1)];
    assert_eq!(palette_distance(&a, &b), euclidean_distance(&rgb(0, 0, 0), &rgb(255, 255, 255)));
}

#[test]
fn palettes_of_different_lengths_have_a_chamfer_distance() {
    let d = compute_palette_distance(&sample_a(), &sample_b(), PaletteMetric::Chamfer);
    assert_eq!(d, Ok(palette_distance(&sample_a(), &sample_b())));
}

#[test]
fn index_aligned_metrics_fail_on_different_lengths() {
    let a = sample_a();
    let b = sample_b();
    assert_eq!(
        compute_palette_distance(&a, &b, PaletteMetric::IndexEuclidean),
        Err(DistanceError::LengthMismatch)
    );
    assert_eq!(
        compute_palette_distance(&a, &b, PaletteMetric::IndexPerceptual),
        Err(DistanceError::LengthMismatch)
    );
    assert!(compute_palette_distance(&a, &b, PaletteMetric::BestDiagonal).is_ok());
    let ca = colors_of(&a);
    let cb = colors_of(&b);
    assert_eq!(euclidean(&ca, &cb), Err(DistanceError::LengthMismatch));
    assert_eq!(mean_delta(&ca, &cb), Err(DistanceError::LengthMismatch));
    assert_eq!(weighted_euclidean(&ca, &cb, &ones(3)), Err(DistanceError::LengthMismatch));
    assert_eq!(
        Palette::new(ca.clone()).euclidean_distance(&Palette::new(cb.clone())),
        Err(DistanceError::LengthMismatch)
    );
    assert_eq!(
        Palette::new(ca.clone()).de2000_distance(&Palette::new(cb.clone())),
        Err(DistanceError::LengthMismatch)
    );
    assert_eq!(
        ColorScheme::new(ca).euclidean_distance(&ColorScheme::new(cb)),
        Err(DistanceError::LengthMismatch)
    );
}

#[test]
fn euclidean_distance_draws_the_root_of_the_sum() {
    let a = vec![rgb(255, 0, 0)];
    let b = vec![rgb(0, 0, 0)];
    assert_eq!(euclidean(&a, &b), Ok(65536));
    let a = vec![rgb(255, 255, 255), rgb(0, 0, 0)];
    let b = vec![rgb(0, 0, 0), rgb(255, 255, 255)];
    assert_eq!(euclidean(&a, &b), Ok(160529));
    let a = vec![rgb(255, 0, 0), rgb(0, 255, 0)];
    let b = vec![rgb(0, 0, 0), rgb(0, 0, 0)];
    assert_eq!(euclidean(&a, &b), Ok(92681));
    assert_eq!(euclidean(&a, &a), Ok(0));
    assert_eq!(euclidean(&Vec::new(), &Vec::new()), Ok(0));
}

#[test]
fn weights_scale_the_squared_differences() {
    let a = vec![rgb(255, 0, 0)];
    let b = vec![rgb(0, 0, 0)];
    assert_eq!(weighted_euclidean(&a, &b, &vec![32768]), Ok(46340));
    assert_eq!(weighted_euclidean(&a, &b, &vec![0]), Ok(0));
    assert_eq!(weighted_euclidean(&a, &b, &vec![4 * 65536]), Ok(2 * 65536));
    let a = vec![rgb(3, 0, 0), rgb(0, 4, 0)];
    let b = vec![rgb(0, 0, 0), rgb(0, 0, 0)];
    assert_eq!(weighted_euclidean(&a, &b, &vec![65536, 131072, 7]), Ok(1645));
    assert_eq!(ones(3), vec![65536, 65536, 65536]);
    assert_eq!(weighted_euclidean(&a, &b, &ones(2)), euclidean(&a, &b));
}

#[test]
fn palette_and_scheme_distances_agree_with_the_plain_functions() {
    let a = vec![rgb(255, 255, 255), rgb(0, 0, 0)];
    let b = vec![rgb(0, 0, 0), rgb(255, 255, 255)];
    let pa = Palette::new(a.clone());
    let pb = Palette::new(b.clone());
    assert_eq!(pa.len(), 2);
    assert_eq!(pa.euclidean_distance(&pb), Ok(160529));
    assert_eq!(pa.euclidean_distance_with_weights(&pb, &vec![65536, 65536]), Ok(160529));
    assert_eq!(pa.de2000_distance(&pb), mean_delta(&a, &b));
    let sa = ColorScheme::new(a.clone());
    let sb = ColorScheme::new(b.clone());
    assert_eq!(sa.len(), 2);
    assert_eq!(sa.color(1), rgb(0, 0, 0));
    assert_eq!(sa.euclidean_distance(&sb), Ok(160529));
    assert_eq!(sa.euclidean_distance_with_weights(&sb, &vec![0, 65536]), Ok(113511));
}

#[test]
fn mean_delta_is_the_arithmetic_mean() {
    let a = vec![rgb(234, 76, 76), rgb(0, 0, 0), rgb(9, 9, 9)];
    let b = vec![rgb(76, 187, 234), rgb(255, 255, 255), rgb(9, 9, 9)];
    let sum: u64 = (0..3).map(|i| delta_distance(&a[i], &b[i])).sum();
    assert_eq!(mean_delta(&a, &b), Ok(sum / 3));
    assert_eq!(mean_delta(&a, &a), Ok(0));
    assert_eq!(mean_delta(&Vec::new(), &Vec::new()), Ok(0));
}

#[test]
fn best_diagonal_is_the_least_diagonal_sum() {
    let a = vec![rgb(250, 10, 10), rgb(10, 250, 10), rgb(10, 10, 250)];
    let b = vec![rgb(200, 200, 10), rgb(10, 200, 200)];
    let d = |i: usize, j: usize| delta_distance(&a[i], &b[j]);
    let mut expected = u64::MAX;
    for i in 0..3 {
        for j in 0..2 {
            let mut total = 0;
            for k in 0..=i.min(j) {
                total += d(i - k, j - k);
            }
            expected = expected.min(total);
        }
    }
    assert_eq!(best_diagonal(&a, &b), expected);
    assert!(expected > 0);
    // The sum along a diagonal counts every entry on it.
    let c = vec![rgb(0, 0, 0)];
    let w = vec![rgb(255, 255, 255)];
    assert_eq!(best_diagonal(&c, &w), delta_distance(&c[0], &w[0]));
    assert_eq!(best_diagonal(&a, &a), 0);
}

#[test]
fn compute_palette_distance_selects_the_metric() {
    let a = vec![weighted(rgb(255, 255, 255), 1, 2), weighted(rgb(0, 0, 0), 1, 2)];
    let b = vec![weighted(rgb(0, 0, 0), 1, 2), weighted(rgb(255, 255, 255), 1, 2)];
    assert_eq!(compute_palette_distance(&a, &b, PaletteMetric::IndexEuclidean), Ok(160529));
    assert_eq!(
        compute_palette_distance(&a, &b, PaletteMetric::IndexPerceptual),
        mean_delta(&colors_of(&a), &colors_of(&b))
    );
    assert_eq!(
        compute_palette_distance(&a, &b, PaletteMetric::BestDiagonal),
        Ok(best_diagonal(&colors_of(&a), &colors_of(&b)))
    );
    assert_eq!(compute_palette_distance(&a, &b, PaletteMetric::Chamfer), Ok(0));
}
