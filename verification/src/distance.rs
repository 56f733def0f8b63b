//! Distances between colours, and the nearest-neighbour distance between
//! weighted palettes.
//!
//! All distances are fixed-point numbers (see `fixed`): a `u64` that counts
//! multiples of 2^-16.
use vstd::prelude::*;
use crate::fixed::{
    distance_from_bits, distance_value, floor_sqrt, is_floor_sqrt, isqrt, lemma_floor_sqrt_is,
    lemma_value_bounds, signed_from_bits, signed_value, LIMIT,
};
use crate::quantize::{count_sum, valid_palette, WeightedColor};
use crate::rgb::Rgb;

verus! {

/// No distance between two colours exceeds this.
pub const DISTANCE_MAX: u64 = 0x2_0000_0000;

/// The ways in which two colours are compared.
#[derive(Debug, Clone, Copy, PartialEq, Eq, Structural)]
pub enum ColorMetric {
    /// The sum of the squared differences of the channels, each taken as a
    /// fraction of 255. No root is drawn.
    Euclidean,
    /// The straight-line distance of the two colours in L\*a\*b\* space.
    Lab,
    /// The CIEDE2000 colour difference.
    Delta2000,
}

/// A colour in L\*a\*b\* space, in fixed-point coordinates.
#[derive(Debug, Clone, Copy, PartialEq, Eq, Structural)]
pub struct Lab {
    pub l: i64,
    pub a: i64,
    pub b: i64,
}

impl Lab {
    /// Each coordinate is within the magnitude that a bit pattern is read as.
    pub open spec fn wf(self) -> bool {
        &&& -(LIMIT as int) <= self.l <= LIMIT as int
        &&& -(LIMIT as int) <= self.a <= LIMIT as int
        &&& -(LIMIT as int) <= self.b <= LIMIT as int
    }
}

/// The bit patterns of the three single-precision coordinates that
/// `lab::Lab::from_rgb` gives for a colour.
pub uninterp spec fn lab_bits(r: u8, g: u8, b: u8) -> (u32, u32, u32);

/// The bit pattern of the single-precision number that
/// `delta_e::DE2000::from_rgb` gives for two colours.
pub uninterp spec fn delta_e_bits(r1: u8, g1: u8, b1: u8, r2: u8, g2: u8, b2: u8) -> u32;

/// Calls `lab::Lab::from_rgb`, which converts an sRGB colour to L\*a\*b\*, and
/// hands back the bit patterns of `l`, `a` and `b`. Nothing is claimed of them
/// but that they depend on the colour alone.
#[verifier::external_body]
fn lab_coordinates(color: &Rgb) -> (out: (u32, u32, u32))
    ensures
        out == lab_bits(color.r, color.g, color.b),
{
    let lab = lab::Lab::from_rgb(&[color.r, color.g, color.b]);
    (lab.l.to_bits(), lab.a.to_bits(), lab.b.to_bits())
}

/// Calls `delta_e::DE2000::from_rgb`, which computes the CIEDE2000 difference
/// of two sRGB colours, and hands back the bit pattern of the result. Nothing
/// is claimed of it but that it depends on the two colours alone.
#[verifier::external_body]
fn delta_e_2000(a: &Rgb, b: &Rgb) -> (out: u32)
    ensures
        out == delta_e_bits(a.r, a.g, a.b, b.r, b.g, b.b),
{
    delta_e::DE2000::from_rgb(&[a.r, a.g, a.b], &[b.r, b.g, b.b]).to_bits()
}

/// The square of the difference of two channel values.
pub open spec fn channel_gap(a: u8, b: u8) -> int {
    (a as int - b as int) * (a as int - b as int)
}

/// The sum of the squared channel differences of two colours, which is the
/// Euclidean distance in units of 1/65025.
pub open spec fn euclidean_numerator(a: Rgb, b: Rgb) -> int {
    channel_gap(a.r, b.r) + channel_gap(a.g, b.g) + channel_gap(a.b, b.b)
}

/// The Euclidean distance of two colours, rounded down.
pub open spec fn euclidean_value(a: Rgb, b: Rgb) -> int {
    euclidean_numerator(a, b) * 65536 / 65025
}

/// The L\*a\*b\* coordinates of a colour.
pub open spec fn lab_of(color: Rgb) -> Lab {
    let bits = lab_bits(color.r, color.g, color.b);
    Lab {
        l: signed_value(bits.0) as i64,
        a: signed_value(bits.1) as i64,
        b: signed_value(bits.2) as i64,
    }
}

/// The square of the distance of two points of L\*a\*b\* space.
pub open spec fn lab_radicand(x: Lab, y: Lab) -> int {
    (x.l - y.l) * (x.l - y.l) + (x.a - y.a) * (x.a - y.a) + (x.b - y.b) * (x.b - y.b)
}

/// The distance of two points of L\*a\*b\* space, rounded down.
pub open spec fn lab_distance_value(x: Lab, y: Lab) -> int {
    floor_sqrt(lab_radicand(x, y))
}

/// The CIEDE2000 difference of two colours, rounded down: 0 for a colour and
/// itself, and otherwise what the bit pattern of the outside result is read as.
pub open spec fn delta_value(a: Rgb, b: Rgb) -> int {
    if a == b {
        0
    } else {
        distance_value(delta_e_bits(a.r, a.g, a.b, b.r, b.g, b.b))
    }
}

/// The distance of two colours under a metric.
pub open spec fn color_distance_value(metric: ColorMetric, a: Rgb, b: Rgb) -> int {
    match metric {
        ColorMetric::Euclidean => euclidean_value(a, b),
        ColorMetric::Lab => lab_distance_value(lab_of(a), lab_of(b)),
        ColorMetric::Delta2000 => delta_value(a, b),
    }
}

/// The square of the difference of two channel values.
fn gap(a: u8, b: u8) -> (out: u64)
    ensures
        out == channel_gap(a, b),
        out <= 65025,
{
    let d: u64 = if a > b {
        (a - b) as u64
    } else {
        (b - a) as u64
    };
    assert(d * d <= 65025 && d * d == channel_gap(a, b)) by (nonlinear_arith)
        requires
            0 <= d <= 255,
            d == a - b || d == b - a,
    ;
    d * d
}

/// The sum of the squared channel differences of two colours.
pub fn squared_difference(a: &Rgb, b: &Rgb) -> (out: u64)
    ensures
        out == euclidean_numerator(*a, *b),
        out <= 195075,
{
    gap(a.r, b.r) + gap(a.g, b.g) + gap(a.b, b.b)
}

/// The sum of the squared differences of the channels of two colours, each
/// channel taken as a fraction of 255.
pub fn rgb_distance(a: &Rgb, b: &Rgb) -> (out: u64)
    ensures
        out == euclidean_value(*a, *b),
        out <= DISTANCE_MAX,
{
    squared_difference(a, b) * 65536 / 65025
}

impl Lab {
    /// Reads three single-precision bit patterns as a point of L\*a\*b\* space.
    pub fn from_bits(l: u32, a: u32, b: u32) -> (out: Lab)
        ensures
            out.wf(),
            out.l == signed_value(l),
            out.a == signed_value(a),
            out.b == signed_value(b),
    {
        Lab { l: signed_from_bits(l), a: signed_from_bits(a), b: signed_from_bits(b) }
    }

    /// The L\*a\*b\* coordinates of a colour.
    pub fn from_rgb(color: &Rgb) -> (out: Lab)
        ensures
            out.wf(),
            out == lab_of(*color),
    {
        let bits = lab_coordinates(color);
        Lab::from_bits(bits.0, bits.1, bits.2)
    }

    /// The distance to another point.
    pub fn distance(&self, other: &Lab) -> (out: u64)
        requires
            self.wf(),
            other.wf(),
        ensures
            out == lab_distance_value(*self, *other),
            is_floor_sqrt(lab_radicand(*self, *other), out as int),
            out <= DISTANCE_MAX,
    {
        let dl = span(self.l, other.l);
        let da = span(self.a, other.a);
        let db = span(self.b, other.b);
        assert(dl * dl <= 0x1_0000_0000_0000_0000 && dl * dl == (self.l - other.l) * (self.l
            - other.l)) by (nonlinear_arith)
            requires
                0 <= dl <= 0x1_0000_0000,
                dl == self.l - other.l || dl == other.l - self.l,
        ;
        assert(da * da <= 0x1_0000_0000_0000_0000 && da * da == (self.a - other.a) * (self.a
            - other.a)) by (nonlinear_arith)
            requires
                0 <= da <= 0x1_0000_0000,
                da == self.a - other.a || da == other.a - self.a,
        ;
        assert(db * db <= 0x1_0000_0000_0000_0000 && db * db == (self.b - other.b) * (self.b
            - other.b)) by (nonlinear_arith)
            requires
                0 <= db <= 0x1_0000_0000,
                db == self.b - other.b || db == other.b - self.b,
        ;
        let radicand: u128 = dl * dl + da * da + db * db;
        let root = isqrt(radicand);
        assert(root <= DISTANCE_MAX) by (nonlinear_arith)
            requires
                root * root <= radicand,
                radicand <= 3 * 0x1_0000_0000_0000_0000,
                DISTANCE_MAX == 0x2_0000_0000,
        ;
        root
    }
}

/// The absolute difference of two coordinates.
fn span(x: i64, y: i64) -> (out: u128)
    requires
        -(LIMIT as int) <= x <= LIMIT as int,
        -(LIMIT as int) <= y <= LIMIT as int,
    ensures
        out == x - y || out == y - x,
        0 <= out <= 0x1_0000_0000,
{
    if x > y {
        (x - y) as u128
    } else {
        (y - x) as u128
    }
}

/// The distance of two colours in L\*a\*b\* space.
pub fn euclidean_distance(color1: &Rgb, color2: &Rgb) -> (out: u64)
    ensures
        out == color_distance_value(ColorMetric::Lab, *color1, *color2),
        out <= DISTANCE_MAX,
{
    let lab1 = Lab::from_rgb(color1);
    let lab2 = Lab::from_rgb(color2);
    lab1.distance(&lab2)
}

/// The distance that belongs to the result of the CIEDE2000 computation for
/// two colours: 0 where the colours are equal, and otherwise what the bit
/// pattern is read as.
pub fn delta_from_bits(a: &Rgb, b: &Rgb, bits: u32) -> (out: u64)
    ensures
        out as int == (if *a == *b {
            0
        } else {
            distance_value(bits)
        }),
        out <= LIMIT,
{
    if a.r == b.r && a.g == b.g && a.b == b.b {
        0
    } else {
        distance_from_bits(bits)
    }
}

/// The CIEDE2000 difference of two colours.
pub fn delta_distance(a: &Rgb, b: &Rgb) -> (out: u64)
    ensures
        out == color_distance_value(ColorMetric::Delta2000, *a, *b),
        out <= DISTANCE_MAX,
{
    let bits = delta_e_2000(a, b);
    delta_from_bits(a, b, bits)
}

/// The distance of two colours under a metric.
pub fn compute_color_distance(metric: ColorMetric, a: &Rgb, b: &Rgb) -> (out: u64)
    ensures
        out == color_distance_value(metric, *a, *b),
        out <= DISTANCE_MAX,
{
    match metric {
        ColorMetric::Euclidean => rgb_distance(a, b),
        ColorMetric::Lab => euclidean_distance(a, b),
        ColorMetric::Delta2000 => delta_distance(a, b),
    }
}

/// A distance is a number between 0 and `DISTANCE_MAX`.
pub proof fn lemma_color_distance_bounds(metric: ColorMetric, a: Rgb, b: Rgb)
    ensures
        0 <= color_distance_value(metric, a, b) <= DISTANCE_MAX,
{
    match metric {
        ColorMetric::Euclidean => {
            let n = euclidean_numerator(a, b);
            assert(0 <= channel_gap(a.r, b.r) <= 65025) by (nonlinear_arith)
                requires
                    -255 <= a.r - b.r <= 255,
            ;
            assert(0 <= channel_gap(a.g, b.g) <= 65025) by (nonlinear_arith)
                requires
                    -255 <= a.g - b.g <= 255,
            ;
            assert(0 <= channel_gap(a.b, b.b) <= 65025) by (nonlinear_arith)
                requires
                    -255 <= a.b - b.b <= 255,
            ;
            assert(0 <= n <= 195075);
            assert(0 <= n * 65536 / 65025 <= 196608);
        },
        ColorMetric::Lab => {
            let x = lab_of(a);
            let y = lab_of(b);
            lemma_lab_of_wf(a);
            lemma_lab_of_wf(b);
            lemma_lab_distance_bounds(x, y);
        },
        ColorMetric::Delta2000 => {
            lemma_value_bounds(delta_e_bits(a.r, a.g, a.b, b.r, b.g, b.b));
        },
    }
}

/// The coordinates of a colour are within bounds.
pub proof fn lemma_lab_of_wf(color: Rgb)
    ensures
        lab_of(color).wf(),
{
    let bits = lab_bits(color.r, color.g, color.b);
    lemma_value_bounds(bits.0);
    lemma_value_bounds(bits.1);
    lemma_value_bounds(bits.2);
}

/// The distance of two points within bounds exists and is within bounds.
pub proof fn lemma_lab_distance_bounds(x: Lab, y: Lab)
    requires
        x.wf(),
        y.wf(),
    ensures
        is_floor_sqrt(lab_radicand(x, y), lab_distance_value(x, y)),
        0 <= lab_distance_value(x, y) <= DISTANCE_MAX,
{
    let n = lab_radicand(x, y);
    assert(0 <= n <= 3 * 0x1_0000_0000_0000_0000) by (nonlinear_arith)
        requires
            n == (x.l - y.l) * (x.l - y.l) + (x.a - y.a) * (x.a - y.a) + (x.b - y.b) * (x.b
                - y.b),
            -0x1_0000_0000 <= x.l - y.l <= 0x1_0000_0000,
            -0x1_0000_0000 <= x.a - y.a <= 0x1_0000_0000,
            -0x1_0000_0000 <= x.b - y.b <= 0x1_0000_0000,
    ;
    lemma_floor_sqrt_exists(n);
    let r = floor_sqrt(n);
    assert(r <= DISTANCE_MAX) by (nonlinear_arith)
        requires
            0 <= r,
            r * r <= n,
            n <= 3 * 0x1_0000_0000_0000_0000,
            DISTANCE_MAX == 0x2_0000_0000,
    ;
}

/// Every natural number has an integer square root.
pub proof fn lemma_floor_sqrt_exists(n: int)
    requires
        0 <= n,
    ensures
        is_floor_sqrt(n, floor_sqrt(n)),
    decreases n,
{
    if n == 0 {
        assert(is_floor_sqrt(0, 0));
    } else {
        lemma_floor_sqrt_exists(n - 1);
        let r = floor_sqrt(n - 1);
        if n < (r + 1) * (r + 1) {
            assert(is_floor_sqrt(n, r));
        } else {
            assert((r + 1) * (r + 1) <= n < (r + 2) * (r + 2)) by (nonlinear_arith)
                requires
                    0 <= r,
                    r * r <= n - 1,
                    n - 1 < (r + 1) * (r + 1),
                    n >= (r + 1) * (r + 1),
            ;
            assert(is_floor_sqrt(n, r + 1));
        }
    }
}

/// Under every metric a colour is at distance 0 from itself.
pub proof fn lemma_color_distance_self(metric: ColorMetric, c: Rgb)
    ensures
        color_distance_value(metric, c, c) == 0,
{
    match metric {
        ColorMetric::Euclidean => {},
        ColorMetric::Lab => {
            assert(is_floor_sqrt(0, 0));
            lemma_floor_sqrt_is(0, 0);
        },
        ColorMetric::Delta2000 => {},
    }
}

/// The least distance from `color` to one of the first `n` colours of `to`,
/// or `DISTANCE_MAX` where `n` is 0.
pub open spec fn nearest(color: Rgb, to: Seq<WeightedColor>, metric: ColorMetric, n: nat) -> int
    decreases n,
{
    if n == 0 {
        DISTANCE_MAX as int
    } else {
        let rest = nearest(color, to, metric, (n - 1) as nat);
        let d = color_distance_value(metric, color, to[n - 1].color);
        if d < rest {
            d
        } else {
            rest
        }
    }
}

/// The sum, over the first `n` colours of `from`, of the count of the colour
/// times its least distance to a colour of `to`.
pub open spec fn weighted_total(
    from: Seq<WeightedColor>,
    to: Seq<WeightedColor>,
    metric: ColorMetric,
    n: nat,
) -> int
    decreases n,
{
    if n == 0 {
        0
    } else {
        weighted_total(from, to, metric, (n - 1) as nat) + from[n - 1].count * nearest(
            from[n - 1].color,
            to,
            metric,
            to.len(),
        )
    }
}

/// The directional distance from one palette to another: the least
/// distances of the colours of `from`, each weighted by the frequency of its
/// colour, added up and rounded down.
pub open spec fn directional(
    from: Seq<WeightedColor>,
    to: Seq<WeightedColor>,
    metric: ColorMetric,
) -> int {
    weighted_total(from, to, metric, from.len()) / (from[0].total as int)
}

/// The nearest-neighbour distance of two palettes: the mean of the two
/// directional distances, rounded down.
pub open spec fn chamfer(a: Seq<WeightedColor>, b: Seq<WeightedColor>, metric: ColorMetric) -> int {
    (directional(a, b, metric) + directional(b, a, metric)) / 2
}

/// The sum of the counts of the first `n` colours of a palette.
pub open spec fn count_prefix(palette: Seq<WeightedColor>, n: nat) -> int
    decreases n,
{
    if n == 0 {
        0
    } else {
        count_prefix(palette, (n - 1) as nat) + palette[n - 1].count
    }
}

/// The counts of the first colours add up to no more than all counts.
pub proof fn lemma_count_prefix(palette: Seq<WeightedColor>, n: nat)
    requires
        n <= palette.len(),
    ensures
        0 <= count_prefix(palette, n) <= count_sum(palette),
        n == palette.len() ==> count_prefix(palette, n) == count_sum(palette),
    decreases palette.len(),
{
    if palette.len() > 0 {
        let shorter = palette.drop_last();
        if n == palette.len() {
            lemma_count_prefix(shorter, (n - 1) as nat);
            lemma_count_prefix_same(palette, shorter, (n - 1) as nat);
        } else {
            lemma_count_prefix(shorter, n);
            lemma_count_prefix_same(palette, shorter, n);
        }
    }
}

/// The sum of the first counts depends on the first colours alone.
proof fn lemma_count_prefix_same(p: Seq<WeightedColor>, q: Seq<WeightedColor>, n: nat)
    requires
        n <= p.len(),
        n <= q.len(),
        forall|i: int| 0 <= i < n ==> p[i] == q[i],
    ensures
        count_prefix(p, n) == count_prefix(q, n),
    decreases n,
{
    if n > 0 {
        lemma_count_prefix_same(p, q, (n - 1) as nat);
    }
}

/// The least distance is between 0 and `DISTANCE_MAX`, and no more than the
/// distance to any colour of `to`.
pub proof fn lemma_nearest(color: Rgb, to: Seq<WeightedColor>, metric: ColorMetric, n: nat)
    requires
        n <= to.len(),
    ensures
        0 <= nearest(color, to, metric, n) <= DISTANCE_MAX,
        forall|j: int|
            0 <= j < n ==> nearest(color, to, metric, n) <= #[trigger] color_distance_value(
                metric,
                color,
                to[j].color,
            ),
    decreases n,
{
    if n > 0 {
        lemma_nearest(color, to, metric, (n - 1) as nat);
        lemma_color_distance_bounds(metric, color, to[n - 1].color);
    }
}

/// The weighted sum is between 0 and the sum of the counts times `DISTANCE_MAX`.
pub proof fn lemma_weighted_total_bounds(
    from: Seq<WeightedColor>,
    to: Seq<WeightedColor>,
    metric: ColorMetric,
    n: nat,
)
    requires
        n <= from.len(),
    ensures
        0 <= weighted_total(from, to, metric, n) <= count_prefix(from, n) * DISTANCE_MAX,
    decreases n,
{
    if n > 0 {
        lemma_weighted_total_bounds(from, to, metric, (n - 1) as nat);
        let c = from[n - 1].count as int;
        let d = nearest(from[n - 1].color, to, metric, to.len());
        lemma_nearest(from[n - 1].color, to, metric, to.len());
        let before = count_prefix(from, (n - 1) as nat);
        assert(0 <= c * d <= c * DISTANCE_MAX && (before + c) * DISTANCE_MAX == before
            * DISTANCE_MAX + c * DISTANCE_MAX) by (nonlinear_arith)
            requires
                0 <= c,
                0 <= d <= DISTANCE_MAX,
        ;
    }
}

/// The least distance from `color` to a colour of `to`, or `DISTANCE_MAX`
/// where `to` is empty.
pub fn nearest_distance(color: &Rgb, to: &Vec<WeightedColor>, metric: ColorMetric) -> (out: u64)
    ensures
        out == nearest(*color, to@, metric, to@.len()),
        out <= DISTANCE_MAX,
{
    let mut best: u64 = DISTANCE_MAX;
    let mut j: usize = 0;
    while j < to.len()
        invariant
            j <= to.len(),
            best == nearest(*color, to@, metric, j as nat),
            best <= DISTANCE_MAX,
        decreases to.len() - j,
    {
        let d = compute_color_distance(metric, color, &to[j].color);
        if d < best {
            best = d;
        }
        j = j + 1;
    }
    best
}

/// The directional distance from one palette to another.
pub fn directional_distance(
    from_palette: &Vec<WeightedColor>,
    to_palette: &Vec<WeightedColor>,
    metric: ColorMetric,
) -> (out: u64)
    requires
        valid_palette(from_palette@),
    ensures
        out == directional(from_palette@, to_palette@, metric),
        out <= DISTANCE_MAX,
{
    let mut sum: u128 = 0;
    let mut i: usize = 0;
    while i < from_palette.len()
        invariant
            i <= from_palette.len(),
            valid_palette(from_palette@),
            sum == weighted_total(from_palette@, to_palette@, metric, i as nat),
        decreases from_palette.len() - i,
    {
        let d = nearest_distance(&from_palette[i].color, to_palette, metric);
        proof {
            lemma_weighted_total_bounds(from_palette@, to_palette@, metric, (i + 1) as nat);
            lemma_weighted_total_bounds(from_palette@, to_palette@, metric, i as nat);
            lemma_count_prefix(from_palette@, (i + 1) as nat);
            let n = count_prefix(from_palette@, (i + 1) as nat);
            assert(n * DISTANCE_MAX <= 0xffff_ffff_ffff_ffff * 0x2_0000_0000) by (nonlinear_arith)
                requires
                    0 <= n <= 0xffff_ffff_ffff_ffff,
                    DISTANCE_MAX == 0x2_0000_0000,
            ;
            let c = from_palette[i as int].count as int;
            assert(0 <= c * d <= 0xffff_ffff_ffff_ffff * 0x2_0000_0000) by (nonlinear_arith)
                requires
                    0 <= c <= 0xffff_ffff_ffff_ffff,
                    0 <= d <= 0x2_0000_0000,
            ;
        }
        sum = sum + from_palette[i].count as u128 * d as u128;
        i = i + 1;
    }
    let total = from_palette[0].total as u128;
    proof {
        lemma_weighted_total_bounds(from_palette@, to_palette@, metric, from_palette@.len());
        lemma_count_prefix(from_palette@, from_palette@.len());
        let n = count_prefix(from_palette@, from_palette@.len());
        assert(sum / total <= DISTANCE_MAX) by (nonlinear_arith)
            requires
                0 <= sum <= n * DISTANCE_MAX,
                0 <= n <= total,
                0 < total,
        ;
    }
    (sum / total) as u64
}

/// The nearest-neighbour distance of two palettes under a metric.
pub fn chamfer_distance(
    palette_a: &Vec<WeightedColor>,
    palette_b: &Vec<WeightedColor>,
    metric: ColorMetric,
) -> (out: u64)
    requires
        valid_palette(palette_a@),
        valid_palette(palette_b@),
    ensures
        out == chamfer(palette_a@, palette_b@, metric),
        out <= DISTANCE_MAX,
{
    let distance_a_to_b = directional_distance(palette_a, palette_b, metric);
    let distance_b_to_a = directional_distance(palette_b, palette_a, metric);
    (distance_a_to_b + distance_b_to_a) / 2
}

/// The distance of two palettes: their nearest-neighbour distance, with the
/// colours compared in L\*a\*b\* space.
pub fn palette_distance(palette_a: &Vec<WeightedColor>, palette_b: &Vec<WeightedColor>) -> (out:
    u64)
    requires
        valid_palette(palette_a@),
        valid_palette(palette_b@),
    ensures
        out == chamfer(palette_a@, palette_b@, ColorMetric::Lab),
        out <= DISTANCE_MAX,
{
    chamfer_distance(palette_a, palette_b, ColorMetric::Lab)
}

/// The nearest-neighbour distance of a palette and itself is 0.
pub proof fn lemma_chamfer_self(a: Seq<WeightedColor>, metric: ColorMetric)
    requires
        valid_palette(a),
    ensures
        chamfer(a, a, metric) == 0,
{
    lemma_weighted_total_self(a, metric, a.len());
}

/// Every colour of a palette is at distance 0 from the palette.
proof fn lemma_weighted_total_self(a: Seq<WeightedColor>, metric: ColorMetric, n: nat)
    requires
        n <= a.len(),
    ensures
        weighted_total(a, a, metric, n) == 0,
    decreases n,
{
    if n > 0 {
        lemma_weighted_total_self(a, metric, (n - 1) as nat);
        let c = a[n - 1].color;
        lemma_nearest(c, a, metric, a.len());
        lemma_color_distance_self(metric, c);
        assert(color_distance_value(metric, c, a[n - 1].color) == 0);
        assert(nearest(c, a, metric, a.len()) == 0);
    }
}

/// The nearest-neighbour distance does not depend on the order of the two
/// palettes.
pub proof fn lemma_chamfer_symmetric(
    a: Seq<WeightedColor>,
    b: Seq<WeightedColor>,
    metric: ColorMetric,
)
    ensures
        chamfer(a, b, metric) == chamfer(b, a, metric),
{
}

/// Whether the palette is one that the quantizer can return.
pub fn is_valid_palette(palette: &Vec<WeightedColor>) -> (out: bool)
    ensures
        out == valid_palette(palette@),
{
    if palette.len() == 0 {
        return false;
    }
    let total = palette[0].total;
    if total == 0 {
        return false;
    }
    let mut sum: u64 = 0;
    let mut i: usize = 0;
    while i < palette.len()
        invariant
            i <= palette.len(),
            palette.len() > 0,
            total == palette[0].total,
            total > 0,
            sum == count_prefix(palette@, i as nat),
            sum <= total,
            forall|k: int| 0 <= k < i ==> (#[trigger] palette[k]).total == total,
        decreases palette.len() - i,
    {
        if palette[i].total != total {
            return false;
        }
        if palette[i].count > total - sum {
            proof {
                lemma_count_prefix(palette@, (i + 1) as nat);
            }
            return false;
        }
        sum = sum + palette[i].count;
        i = i + 1;
    }
    proof {
        lemma_count_prefix(palette@, palette@.len());
    }
    true
}

/// Each count is among the first counts that include it.
proof fn lemma_count_in_prefix(palette: Seq<WeightedColor>, i: int, n: nat)
    requires
        0 <= i < n <= palette.len(),
    ensures
        palette[i].count <= count_prefix(palette, n),
    decreases n,
{
    if i < n - 1 {
        lemma_count_in_prefix(palette, i, (n - 1) as nat);
    } else {
        lemma_count_prefix_nonnegative(palette, (n - 1) as nat);
    }
}

/// A sum of counts is not negative.
proof fn lemma_count_prefix_nonnegative(palette: Seq<WeightedColor>, n: nat)
    ensures
        0 <= count_prefix(palette, n),
    decreases n,
{
    if n > 0 {
        lemma_count_prefix_nonnegative(palette, (n - 1) as nat);
    }
}

/// In a valid palette the frequency of each colour is a fraction between 0
/// and 1.
pub proof fn lemma_valid_palette_wf(palette: Seq<WeightedColor>, i: int)
    requires
        valid_palette(palette),
        0 <= i < palette.len(),
    ensures
        palette[i].wf(),
{
    lemma_count_in_prefix(palette, i, palette.len());
    lemma_count_prefix(palette, palette.len());
}

} // verus!
