use pokepalette::aligned::DistanceError;
use pokepalette::distance::palette_distance;
use pokepalette::metric::PaletteMetric;
use pokepalette::quantize::WeightedColor;
use pokepalette::rank::{get_pokemon_ranked, rank, sort_by_distance, top_k, Ranked};
use pokepalette::rgb::Rgb;
use pokepalette::sprite::{Form, Sprite};

fn rgb(r: u8, g: u8, b: u8) -> Rgb {
    Rgb { r, g, b }
}

fn single(color: Rgb) -> Vec<WeightedColor> {
    vec![WeightedColor { color, count: 1, total: 1 }]
}

fn sprite(name: &str, palette: Vec<WeightedColor>) -> Sprite {
    Sprite { name: name.to_string(), gen: 1, shiny: false, form: Form::Regular, palette }
}

fn indices(ranked: &Vec<Ranked>) -> Vec<usize> {
    ranked.iter().map(|r| r.index).collect()
}

#[test]
fn sort_is_ascending_by_distance() {
    let ranked = sort_by_distance(&vec![30, 10, 20, 0, 40]);
    assert_eq!(indices(&ranked), vec![3, 1, 2, 0, 4]);
    let distances: Vec<u64> = ranked.iter().map(|r| r.distance).collect();
    assert_eq!(distances, vec![0, 10, 20, 30, 40]);
}

#[test]
fn sort_is_stable() {
    let ranked = sort_by_distance(&vec![5, 1, 5, 1, 5, 0, 1]);
    assert_eq!(indices(&ranked), vec![5, 1, 3, 6, 0, 2, 4]);
}

#[test]
fn sort_of_nothing_is_nothing() {
    assert_eq!(sort_by_distance(&Vec::new()), Vec::new());
    assert_eq!(sort_by_distance(&vec![7]), vec![Ranked { index: 0, distance: 7 }]);
}

#[test]
fn the_nearer_entry_comes_strictly_first() {
    let query = single(rgb(250, 10, 10));
    let catalog = vec![
        sprite("far", single(rgb(10, 10, 250))),
        sprite("near", single(rgb(240, 20, 20))),
        sprite("middle", single(rgb(200, 100, 10))),
    ];
    let x = palette_distance(&catalog[1].palette, &query);
    let y = palette_distance(&catalog[0].palette, &query);
    assert!(x < y);
    let ranked = get_pokemon_ranked(&query, &catalog);
    let place = |i: usize| ranked.iter().position(|r| r.index == i).unwrap();
    assert!(place(1) < place(0));
    assert_eq!(indices(&ranked), vec![1, 2, 0]);
    assert_eq!(ranked[0].distance, x);
    assert_eq!(ranked[2].distance, y);
}

#[test]
fn equally_near_entries_keep_the_order_of_the_catalogue() {
    let query = single(rgb(1, 2, 3));
    let catalog = vec![
        sprite("b", single(rgb(200, 200, 200))),
        sprite("a", single(rgb(1, 2, 3))),
        sprite("c", single(rgb(200, 200, 200))),
        sprite("d", single(rgb(1, 2, 3))),
    ];
    let ranked = get_pokemon_ranked(&query, &catalog);
    assert_eq!(indices(&ranked), vec![1, 3, 0, 2]);
    assert_eq!(ranked[0].distance, 0);
}

#[test]
fn top_k_beyond_the_catalogue_returns_every_entry_once() {
    let query = single(rgb(9, 9, 9));
    let catalog: Vec<Sprite> =
        (0..6u8).map(|i| sprite("s", single(rgb(i * 40, 255 - i * 40, 7)))).collect();
    let ranked = get_pokemon_ranked(&query, &catalog);
    let top = top_k(&ranked, 100);
    assert_eq!(top, ranked);
    let mut seen = indices(&top);
    seen.sort();
    assert_eq!(seen, vec![0, 1, 2, 3, 4, 5]);
}

#[test]
fn top_k_truncates() {
    let ranked = sort_by_distance(&vec![30, 10, 20, 0, 40]);
    assert_eq!(indices(&top_k(&ranked, 2)), vec![3, 1]);
    assert_eq!(top_k(&ranked, 0), Vec::new());
    assert_eq!(top_k(&ranked, 5), ranked);
}

#[test]
fn rank_of_an_empty_catalogue_is_empty() {
    let query = single(rgb(9, 9, 9));
    assert_eq!(get_pokemon_ranked(&query, &Vec::new()), Vec::new());
    assert_eq!(rank(&query, &Vec::new(), PaletteMetric::IndexEuclidean), Ok(Vec::new()));
}

#[test]
fn rank_under_an_index_aligned_metric() {
    let query = single(rgb(255, 0, 0));
    let catalog = vec![
        sprite("white", single(rgb(255, 255, 255))),
        sprite("black", single(rgb(0, 0, 0))),
        sprite("red", single(rgb(255, 0, 0))),
    ];
    let ranked = rank(&query, &catalog, PaletteMetric::IndexEuclidean).unwrap();
    assert_eq!(
        ranked,
        vec![
            Ranked { index: 2, distance: 0 },
            Ranked { index: 1, distance: 65536 },
            Ranked { index: 0, distance: 92681 },
        ]
    );
    let by_diagonal = rank(&query, &catalog, PaletteMetric::BestDiagonal).unwrap();
    assert_eq!(by_diagonal[0].index, 2);
}

#[test]
fn rank_fails_where_lengths_differ_under_an_index_aligned_metric() {
    let query = single(rgb(255, 0, 0));
    let two = vec![
        WeightedColor { color: rgb(1, 1, 1), count: 1, total: 2 },
        WeightedColor { color: rgb(2, 2, 2), count: 1, total: 2 },
    ];
    let catalog = vec![sprite("one", single(rgb(0, 0, 0))), sprite("two", two)];
    assert_eq!(
        rank(&query, &catalog, PaletteMetric::IndexPerceptual),
        Err(DistanceError::LengthMismatch)
    );
    assert!(rank(&query, &catalog, PaletteMetric::Chamfer).is_ok());
}
