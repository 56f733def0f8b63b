//! The distance of two weighted palettes under one of the four ways of
//! comparing palettes.
use vstd::prelude::*;
use crate::aligned::{
    best_diagonal, euclidean, least_total, mean_delta, mean_delta_value, unit_weights,
    weighted_euclidean_value, DistanceError,
};
use crate::distance::{chamfer, palette_distance, ColorMetric};
use crate::quantize::{valid_palette, WeightedColor};
use crate::rgb::Rgb;

verus! {

/// The ways in which two palettes are compared.
#[derive(Debug, Clone, Copy, PartialEq, Eq, Structural)]
pub enum PaletteMetric {
    /// Place by place, by the Euclidean distance of the colours. Asks for
    /// palettes of one length.
    IndexEuclidean,
    /// Place by place, by the mean perceptual difference of the colours. Asks
    /// for palettes of one length.
    IndexPerceptual,
    /// By the cheapest diagonal of the matrix of perceptual differences.
    BestDiagonal,
    /// By the nearest neighbours of the colours, weighted by frequency.
    Chamfer,
}

impl PaletteMetric {
    /// The metric compares place by place, and so asks for palettes of one length.
    pub open spec fn index_aligned(self) -> bool {
        self == PaletteMetric::IndexEuclidean || self == PaletteMetric::IndexPerceptual
    }
}

/// The colours of a palette, in their order.
pub open spec fn colors(palette: Seq<WeightedColor>) -> Seq<Rgb> {
    Seq::new(palette.len(), |i: int| palette[i].color)
}

/// The two palettes can be compared under the metric.
pub open spec fn comparable(a: Seq<WeightedColor>, b: Seq<WeightedColor>, metric: PaletteMetric) -> bool {
    metric.index_aligned() ==> a.len() == b.len()
}

/// The distance of two palettes under a metric.
pub open spec fn palette_distance_value(
    a: Seq<WeightedColor>,
    b: Seq<WeightedColor>,
    metric: PaletteMetric,
) -> int {
    match metric {
        PaletteMetric::IndexEuclidean => weighted_euclidean_value(
            colors(a),
            colors(b),
            unit_weights(a.len()),
        ),
        PaletteMetric::IndexPerceptual => mean_delta_value(colors(a), colors(b)),
        PaletteMetric::BestDiagonal => least_total(colors(a), colors(b)),
        PaletteMetric::Chamfer => chamfer(a, b, ColorMetric::Lab),
    }
}

/// The colours of a palette, in their order.
pub fn colors_of(palette: &Vec<WeightedColor>) -> (out: Vec<Rgb>)
    ensures
        out@ == colors(palette@),
{
    let mut out: Vec<Rgb> = Vec::new();
    let mut i: usize = 0;
    while i < palette.len()
        invariant
            i <= palette.len(),
            out.len() == i,
            forall|k: int| 0 <= k < i ==> out[k] == palette[k].color,
        decreases palette.len() - i,
    {
        out.push(palette[i].color);
        i = i + 1;
    }
    assert(out@ =~= colors(palette@));
    out
}

/// The distance of two palettes under a metric.
///
/// Fails where the metric compares place by place and the palettes differ in
/// length, and in no other case.
pub fn compute_palette_distance(
    a: &Vec<WeightedColor>,
    b: &Vec<WeightedColor>,
    metric: PaletteMetric,
) -> (out: Result<u64, DistanceError>)
    requires
        valid_palette(a@),
        valid_palette(b@),
    ensures
        match out {
            Ok(d) => comparable(a@, b@, metric) && d == palette_distance_value(a@, b@, metric),
            Err(e) => e == DistanceError::LengthMismatch && !comparable(a@, b@, metric),
        },
{
    match metric {
        PaletteMetric::IndexEuclidean => {
            let ca = colors_of(a);
            let cb = colors_of(b);
            euclidean(&ca, &cb)
        },
        PaletteMetric::IndexPerceptual => {
            let ca = colors_of(a);
            let cb = colors_of(b);
            match mean_delta(&ca, &cb) {
                Ok(d) => Ok(d),
                Err(e) => Err(e),
            }
        },
        PaletteMetric::BestDiagonal => {
            let ca = colors_of(a);
            let cb = colors_of(b);
            Ok(best_diagonal(&ca, &cb))
        },
        PaletteMetric::Chamfer => Ok(palette_distance(a, b)),
    }
}

} // verus!
