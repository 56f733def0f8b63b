//! The ranker: orders the entries of a catalogue by the distance of their
//! palettes to a query palette.
use vstd::prelude::*;
use crate::aligned::DistanceError;
use crate::distance::is_valid_palette;
use crate::metric::{comparable, compute_palette_distance, palette_distance_value, PaletteMetric};
use crate::quantize::{valid_palette, WeightedColor};
use crate::sprite::Sprite;

verus! {

/// An entry of a ranking: the place of an entry in the catalogue, and its
/// distance to the query.
#[derive(Debug, Clone, Copy, PartialEq, Eq, Structural)]
pub struct Ranked {
    pub index: usize,
    pub distance: u64,
}

impl Ranked {
    /// `self` comes before `other` in a ranking: it is nearer, or as near and
    /// earlier in the catalogue.
    pub open spec fn precedes(self, other: Ranked) -> bool {
        self.distance < other.distance || (self.distance == other.distance && self.index
            < other.index)
    }
}

/// `ranked` is the ranking of the entries whose distances are `distances`:
/// it holds each entry once, with its distance, the nearer entry first, and
/// of two that are equally near the one that is earlier in the catalogue.
pub open spec fn is_ranking(distances: Seq<u64>, ranked: Seq<Ranked>) -> bool {
    &&& ranked.len() == distances.len()
    &&& forall|i: int|
        0 <= i < ranked.len() ==> (#[trigger] ranked[i]).index < distances.len()
            && ranked[i].distance == distances[ranked[i].index as int]
    &&& forall|i: int, j: int|
        0 <= i < j < ranked.len() ==> (#[trigger] ranked[i]).precedes(#[trigger] ranked[j])
    &&& forall|k: int| 0 <= k < distances.len() ==> #[trigger] lists(ranked, k)
}

/// The ranking holds the entry whose place in the catalogue is `k`.
pub open spec fn lists(ranked: Seq<Ranked>, k: int) -> bool {
    exists|i: int| 0 <= i < ranked.len() && (#[trigger] ranked[i]).index == k
}

/// The distances of the entries of a catalogue to a query.
pub open spec fn catalog_distances(
    query: Seq<WeightedColor>,
    catalog: Seq<Sprite>,
    metric: PaletteMetric,
) -> Seq<u64> {
    Seq::new(
        catalog.len(),
        |i: int| palette_distance_value(catalog[i].palette@, query, metric) as u64,
    )
}

/// No entry occurs twice in a ranking.
pub proof fn lemma_ranking_distinct(distances: Seq<u64>, ranked: Seq<Ranked>, i: int, j: int)
    requires
        is_ranking(distances, ranked),
        0 <= i < ranked.len(),
        0 <= j < ranked.len(),
        i != j,
    ensures
        ranked[i].index != ranked[j].index,
{
    if i < j {
        assert(ranked[i].precedes(ranked[j]));
    } else {
        assert(ranked[j].precedes(ranked[i]));
    }
}

/// In a ranking the nearer of two entries comes first, and of two that are
/// equally near the one that is earlier in the catalogue.
pub proof fn lemma_ranking_order(distances: Seq<u64>, ranked: Seq<Ranked>, i: int, j: int)
    requires
        is_ranking(distances, ranked),
        0 <= i < ranked.len(),
        0 <= j < ranked.len(),
        ranked[i].precedes(ranked[j]),
    ensures
        i < j,
{
    if j < i {
        assert(ranked[j].precedes(ranked[i]));
    }
}

/// Two rankings of the same distances hold the same entry at each place.
proof fn lemma_ranking_same_at(distances: Seq<u64>, r1: Seq<Ranked>, r2: Seq<Ranked>, i: int)
    requires
        is_ranking(distances, r1),
        is_ranking(distances, r2),
        0 <= i < distances.len(),
    ensures
        r1[i] == r2[i],
    decreases i,
{
    assert(lists(r2, r1[i].index as int));
    let p = choose|p: int| 0 <= p < r2.len() && (#[trigger] r2[p]).index == r1[i].index;
    assert(r2[p] == r1[i]);
    assert(lists(r1, r2[i].index as int));
    let q = choose|q: int| 0 <= q < r1.len() && (#[trigger] r1[q]).index == r2[i].index;
    assert(r1[q] == r2[i]);
    if p < i {
        lemma_ranking_same_at(distances, r1, r2, p);
        lemma_ranking_distinct(distances, r1, p, i);
    } else if q < i {
        lemma_ranking_same_at(distances, r1, r2, q);
        lemma_ranking_distinct(distances, r2, q, i);
    } else if p > i {
        assert(r2[i].precedes(r2[p]));
        if q > i {
            assert(r1[i].precedes(r1[q]));
        } else {
            lemma_ranking_distinct(distances, r2, i, p);
        }
    }
}

/// The distances have one ranking only.
pub proof fn lemma_ranking_unique(distances: Seq<u64>, r1: Seq<Ranked>, r2: Seq<Ranked>)
    requires
        is_ranking(distances, r1),
        is_ranking(distances, r2),
    ensures
        r1 == r2,
{
    assert forall|i: int| 0 <= i < r1.len() implies r1[i] == r2[i] by {
        lemma_ranking_same_at(distances, r1, r2, i);
    }
    assert(r1 =~= r2);
}

/// The ranking of the entries whose distances are given: a stable sort by
/// ascending distance.
pub fn sort_by_distance(distances: &Vec<u64>) -> (out: Vec<Ranked>)
    ensures
        is_ranking(distances@, out@),
{
    let mut out: Vec<Ranked> = Vec::new();
    let mut k: usize = 0;
    while k < distances.len()
        invariant
            k <= distances.len(),
            is_ranking(distances@.take(k as int), out@),
        decreases distances.len() - k,
    {
        let d = distances[k];
        let mut pos: usize = out.len();
        while pos > 0 && out[pos - 1].distance > d
            invariant
                pos <= out.len(),
                out.len() == k,
                forall|i: int| pos <= i < out.len() ==> (#[trigger] out[i]).distance > d,
            decreases pos,
        {
            pos = pos - 1;
        }
        let ghost before = out@;
        let entry = Ranked { index: k, distance: d };
        out.insert(pos, entry);
        proof {
            let now = distances@.take(k + 1);
            assert(out@ == before.insert(pos as int, entry));
            assert forall|i: int| 0 <= i < out.len() implies (#[trigger] out[i]).index < now.len()
                && out[i].distance == now[out[i].index as int] by {
                if i < pos {
                    assert(out[i] == before[i]);
                } else if i > pos {
                    assert(out[i] == before[i - 1]);
                }
            }
            assert forall|i: int, j: int| 0 <= i < j < out.len() implies (#[trigger] out[i]).precedes(
                #[trigger] out[j],
            ) by {
                if j < pos {
                    assert(out[i] == before[i] && out[j] == before[j]);
                } else if j == pos {
                    assert(out[i] == before[i]);
                    if i < pos - 1 {
                        assert(before[i].precedes(before[pos - 1]));
                    }
                } else if i < pos {
                    assert(out[i] == before[i] && out[j] == before[j - 1]);
                } else if i == pos {
                    assert(out[j] == before[j - 1]);
                } else {
                    assert(out[i] == before[i - 1] && out[j] == before[j - 1]);
                }
            }
            assert forall|e: int| 0 <= e < now.len() implies #[trigger] lists(out@, e) by {
                if e == k {
                    assert(out[pos as int].index == e);
                } else {
                    assert(lists(before, e));
                    let i = choose|i: int| 0 <= i < before.len() && (#[trigger] before[i]).index == e;
                    if i < pos {
                        assert(out[i] == before[i]);
                    } else {
                        assert(out[i + 1] == before[i]);
                    }
                }
            }
        }
        k = k + 1;
    }
    assert(distances@.take(distances.len() as int) =~= distances@);
    out
}

/// The entries of a catalogue in the order of their distance to a query
/// under a metric, the nearest first; entries that are equally near keep the
/// order of the catalogue.
///
/// Fails where the metric compares place by place and an entry's palette
/// differs in length from the query, and in no other case.
pub fn rank(query: &Vec<WeightedColor>, catalog: &Vec<Sprite>, metric: PaletteMetric) -> (out:
    Result<Vec<Ranked>, DistanceError>)
    requires
        valid_palette(query@),
        forall|i: int| 0 <= i < catalog.len() ==> valid_palette((#[trigger] catalog[i]).palette@),
    ensures
        match out {
            Ok(ranked) => {
                &&& forall|i: int|
                    0 <= i < catalog.len() ==> comparable(
                        (#[trigger] catalog[i]).palette@,
                        query@,
                        metric,
                    )
                &&& is_ranking(catalog_distances(query@, catalog@, metric), ranked@)
            },
            Err(e) => e == DistanceError::LengthMismatch && exists|i: int|
                0 <= i < catalog.len() && !comparable(
                    (#[trigger] catalog[i]).palette@,
                    query@,
                    metric,
                ),
        },
{
    let mut distances: Vec<u64> = Vec::new();
    let mut i: usize = 0;
    while i < catalog.len()
        invariant
            i <= catalog.len(),
            distances.len() == i,
            valid_palette(query@),
            forall|k: int|
                0 <= k < catalog.len() ==> valid_palette((#[trigger] catalog[k]).palette@),
            forall|k: int|
                0 <= k < i ==> comparable((#[trigger] catalog[k]).palette@, query@, metric),
            forall|k: int|
                0 <= k < i ==> distances[k] == palette_distance_value(
                    (#[trigger] catalog[k]).palette@,
                    query@,
                    metric,
                ),
        decreases catalog.len() - i,
    {
        match compute_palette_distance(&catalog[i].palette, query, metric) {
            Ok(d) => {
                distances.push(d);
            },
            Err(e) => {
                return Err(e);
            },
        }
        i = i + 1;
    }
    assert(distances@ =~= catalog_distances(query@, catalog@, metric));
    Ok(sort_by_distance(&distances))
}

/// The entries of a catalogue in the order of the nearest-neighbour distance
/// of their palettes to the palette of a picture, the nearest first; entries
/// that are equally near keep the order of the catalogue.
pub fn get_pokemon_ranked(image_palette: &Vec<WeightedColor>, sprites: &Vec<Sprite>) -> (out: Vec<
    Ranked,
>)
    requires
        valid_palette(image_palette@),
        forall|i: int| 0 <= i < sprites.len() ==> valid_palette((#[trigger] sprites[i]).palette@),
    ensures
        is_ranking(catalog_distances(image_palette@, sprites@, PaletteMetric::Chamfer), out@),
{
    match rank(image_palette, sprites, PaletteMetric::Chamfer) {
        Ok(ranked) => ranked,
        Err(_) => {
            proof {
                let i = choose|i: int|
                    0 <= i < sprites.len() && !comparable(
                        (#[trigger] sprites[i]).palette@,
                        image_palette@,
                        PaletteMetric::Chamfer,
                    );
                assert(false);
            }
            Vec::new()
        },
    }
}

/// The first `k` entries of a ranking, or all of them where they are fewer.
pub fn top_k(ranked: &Vec<Ranked>, k: usize) -> (out: Vec<Ranked>)
    ensures
        out@ == ranked@.take(if k <= ranked.len() { k as int } else { ranked.len() as int }),
{
    let n = if k <= ranked.len() {
        k
    } else {
        ranked.len()
    };
    let mut out: Vec<Ranked> = Vec::new();
    let mut i: usize = 0;
    while i < n
        invariant
            i <= n <= ranked.len(),
            out@ == ranked@.take(i as int),
        decreases n - i,
    {
        out.push(ranked[i]);
        assert(out@ =~= ranked@.take(i + 1));
        i = i + 1;
    }
    out
}

/// Whether the palette of every sprite is one that the quantizer can return.
pub fn has_valid_palettes(sprites: &Vec<Sprite>) -> (out: bool)
    ensures
        out == forall|i: int|
            0 <= i < sprites.len() ==> valid_palette((#[trigger] sprites[i]).palette@),
{
    let mut i: usize = 0;
    while i < sprites.len()
        invariant
            i <= sprites.len(),
            forall|k: int| 0 <= k < i ==> valid_palette((#[trigger] sprites[k]).palette@),
        decreases sprites.len() - i,
    {
        if !is_valid_palette(&sprites[i].palette) {
            return false;
        }
        i = i + 1;
    }
    true
}

} // verus!
