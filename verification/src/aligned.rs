//! Distances between sequences of colours that are compared place by place:
//! the Euclidean distance with weights, the mean perceptual difference, and
//! the cheapest diagonal of the matrix of perceptual differences.
use vstd::prelude::*;
use vstd::arithmetic::div_mod::lemma_hoist_over_denominator;
use crate::distance::{
    delta_distance, delta_e_bits, delta_value, euclidean_numerator, squared_difference,
};
use crate::fixed::{floor_sqrt, is_floor_sqrt, isqrt, lemma_value_bounds, LIMIT};
use crate::rgb::Rgb;

verus! {

/// Why two sequences of colours have no distance.
#[derive(Debug, Clone, Copy, PartialEq, Eq, Structural)]
pub enum DistanceError {
    /// The two sequences differ in length.
    LengthMismatch,
}

/// The largest term of a weighted sum: the largest weight times the largest
/// sum of squared channel differences.
pub const TERM_MAX: u128 = 837840745072125;

/// The sum, over the first `n` places, of the weight of the place times the
/// sum of the squared channel differences of the two colours there.
pub open spec fn weighted_sum(a: Seq<Rgb>, b: Seq<Rgb>, weights: Seq<u32>, n: nat) -> int
    decreases n,
{
    if n == 0 {
        0
    } else {
        weighted_sum(a, b, weights, (n - 1) as nat) + weights[n - 1] * euclidean_numerator(
            a[n - 1],
            b[n - 1],
        )
    }
}

/// The Euclidean distance of two sequences with fixed-point weights: the
/// square root of the weighted sum of the squared differences of the
/// channels, each channel taken as a fraction of 255; rounded down.
pub open spec fn weighted_euclidean_value(a: Seq<Rgb>, b: Seq<Rgb>, weights: Seq<u32>) -> int {
    floor_sqrt(weighted_sum(a, b, weights, a.len()) * 65536 / 65025)
}

/// The weight 1 at each of `n` places.
pub open spec fn unit_weights(n: nat) -> Seq<u32> {
    Seq::new(n, |i: int| 65536u32)
}

/// The sum of the perceptual differences at the first `n` places.
pub open spec fn delta_sum(a: Seq<Rgb>, b: Seq<Rgb>, n: nat) -> int
    decreases n,
{
    if n == 0 {
        0
    } else {
        delta_sum(a, b, (n - 1) as nat) + delta_value(a[n - 1], b[n - 1])
    }
}

/// The mean of the perceptual differences of two sequences place by place,
/// rounded down; 0 for empty sequences.
pub open spec fn mean_delta_value(a: Seq<Rgb>, b: Seq<Rgb>) -> int {
    if a.len() == 0 {
        0
    } else {
        delta_sum(a, b, a.len()) / (a.len() as int)
    }
}

/// The sum of the perceptual differences along the diagonal of the matrix
/// that ends at row `i` and column `j`.
pub open spec fn diagonal_total(a: Seq<Rgb>, b: Seq<Rgb>, i: int, j: int) -> int
    decreases i,
{
    if i <= 0 || j <= 0 {
        delta_value(a[i], b[j])
    } else {
        delta_value(a[i], b[j]) + diagonal_total(a, b, i - 1, j - 1)
    }
}

/// `v` is the least of the diagonal sums of the matrix.
pub open spec fn is_least_total(a: Seq<Rgb>, b: Seq<Rgb>, v: int) -> bool {
    &&& forall|i: int, j: int|
        0 <= i < a.len() && 0 <= j < b.len() ==> v <= #[trigger] diagonal_total(a, b, i, j)
    &&& exists|i: int, j: int|
        0 <= i < a.len() && 0 <= j < b.len() && v == #[trigger] diagonal_total(a, b, i, j)
}

/// The least of the diagonal sums of the matrix.
pub open spec fn least_total(a: Seq<Rgb>, b: Seq<Rgb>) -> int {
    choose|v: int| is_least_total(a, b, v)
}

/// The least diagonal sum is the one number that is a diagonal sum and no
/// more than any other.
pub proof fn lemma_least_total_is(a: Seq<Rgb>, b: Seq<Rgb>, v: int)
    requires
        is_least_total(a, b, v),
    ensures
        least_total(a, b) == v,
{
    let w = least_total(a, b);
    assert(is_least_total(a, b, w));
    let (i, j) = choose|i: int, j: int|
        0 <= i < a.len() && 0 <= j < b.len() && v == #[trigger] diagonal_total(a, b, i, j);
    let (k, l) = choose|k: int, l: int|
        0 <= k < a.len() && 0 <= l < b.len() && w == #[trigger] diagonal_total(a, b, k, l);
    assert(w <= diagonal_total(a, b, i, j));
    assert(v <= diagonal_total(a, b, k, l));
}

/// A weighted sum is between 0 and the number of places times `TERM_MAX`.
proof fn lemma_weighted_sum_bounds(a: Seq<Rgb>, b: Seq<Rgb>, weights: Seq<u32>, n: nat)
    ensures
        0 <= weighted_sum(a, b, weights, n) <= n * TERM_MAX,
    decreases n,
{
    if n > 0 {
        lemma_weighted_sum_bounds(a, b, weights, (n - 1) as nat);
        let w = weights[n - 1] as int;
        let e = euclidean_numerator(a[n - 1], b[n - 1]);
        assert(0 <= e <= 195075) by {
            lemma_numerator_bounds(a[n - 1], b[n - 1]);
        }
        assert(0 <= w * e <= TERM_MAX) by (nonlinear_arith)
            requires
                0 <= w <= 0xffff_ffff,
                0 <= e <= 195075,
                TERM_MAX == 837840745072125,
        ;
        assert(n * TERM_MAX == (n - 1) * TERM_MAX + TERM_MAX) by (nonlinear_arith);
    }
}

/// The sum of the squared channel differences is between 0 and 3 times 255 squared.
proof fn lemma_numerator_bounds(a: Rgb, b: Rgb)
    ensures
        0 <= euclidean_numerator(a, b) <= 195075,
{
    assert(0 <= (a.r - b.r) * (a.r - b.r) <= 65025) by (nonlinear_arith)
        requires
            -255 <= a.r - b.r <= 255,
    ;
    assert(0 <= (a.g - b.g) * (a.g - b.g) <= 65025) by (nonlinear_arith)
        requires
            -255 <= a.g - b.g <= 255,
    ;
    assert(0 <= (a.b - b.b) * (a.b - b.b) <= 65025) by (nonlinear_arith)
        requires
            -255 <= a.b - b.b <= 255,
    ;
}

/// A sum of perceptual differences is between 0 and the number of places
/// times `LIMIT`.
proof fn lemma_delta_sum_bounds(a: Seq<Rgb>, b: Seq<Rgb>, n: nat)
    ensures
        0 <= delta_sum(a, b, n) <= n * LIMIT,
    decreases n,
{
    if n > 0 {
        lemma_delta_sum_bounds(a, b, (n - 1) as nat);
        lemma_delta_bounds(a[n - 1], b[n - 1]);
        assert(n * LIMIT == (n - 1) * LIMIT + LIMIT) by (nonlinear_arith);
    }
}

/// A perceptual difference is between 0 and `LIMIT`.
proof fn lemma_delta_bounds(x: Rgb, y: Rgb)
    ensures
        0 <= delta_value(x, y) <= LIMIT,
{
    lemma_value_bounds(delta_e_bits(x.r, x.g, x.b, y.r, y.g, y.b));
}

/// A diagonal sum is between 0 and the number of its terms times `LIMIT`.
proof fn lemma_diagonal_bounds(a: Seq<Rgb>, b: Seq<Rgb>, i: int, j: int)
    requires
        0 <= i,
        0 <= j,
    ensures
        0 <= diagonal_total(a, b, i, j) <= (i + 1) * LIMIT,
        0 <= diagonal_total(a, b, i, j) <= (j + 1) * LIMIT,
    decreases i,
{
    lemma_delta_bounds(a[i], b[j]);
    if i > 0 && j > 0 {
        lemma_diagonal_bounds(a, b, i - 1, j - 1);
    }
    assert((i + 1) * LIMIT == i * LIMIT + LIMIT && (j + 1) * LIMIT == j * LIMIT + LIMIT && 0 <= i
        * LIMIT && 0 <= j * LIMIT) by (nonlinear_arith)
        requires
            0 <= i,
            0 <= j,
    ;
}

/// The Euclidean distance of two sequences of colours, with a weight for each
/// place: 65536 is the weight 1.
///
/// Fails where the two sequences differ in length. Weights beyond the last
/// place are not read.
pub fn weighted_euclidean(a: &Vec<Rgb>, b: &Vec<Rgb>, weights: &Vec<u32>) -> (out: Result<
    u64,
    DistanceError,
>)
    requires
        weights.len() >= a.len(),
    ensures
        match out {
            Ok(d) => a.len() == b.len() && d == weighted_euclidean_value(a@, b@, weights@)
                && is_floor_sqrt(weighted_sum(a@, b@, weights@, a@.len()) * 65536 / 65025, d as int),
            Err(e) => e == DistanceError::LengthMismatch && a.len() != b.len(),
        },
{
    if a.len() != b.len() {
        return Err(DistanceError::LengthMismatch);
    }
    let mut sum: u128 = 0;
    let mut i: usize = 0;
    while i < a.len()
        invariant
            i <= a.len(),
            a.len() == b.len(),
            weights.len() >= a.len(),
            sum == weighted_sum(a@, b@, weights@, i as nat),
        decreases a.len() - i,
    {
        let e = squared_difference(&a[i], &b[i]);
        proof {
            lemma_weighted_sum_bounds(a@, b@, weights@, i as nat);
            lemma_weighted_sum_bounds(a@, b@, weights@, (i + 1) as nat);
            let w = weights[i as int] as int;
            assert(0 <= w * e <= TERM_MAX) by (nonlinear_arith)
                requires
                    0 <= w <= 0xffff_ffff,
                    0 <= e <= 195075,
                    TERM_MAX == 837840745072125,
            ;
            assert((i + 1) * TERM_MAX <= 0xffff_ffff_ffff_ffff * 837840745072125)
                by (nonlinear_arith)
                requires
                    0 <= i + 1 <= 0xffff_ffff_ffff_ffff,
                    TERM_MAX == 837840745072125,
            ;
        }
        sum = sum + weights[i] as u128 * e as u128;
        i = i + 1;
    }
    proof {
        lemma_weighted_sum_bounds(a@, b@, weights@, a@.len());
        assert(a@.len() * TERM_MAX <= 0xffff_ffff_ffff_ffff * 837840745072125) by (nonlinear_arith)
            requires
                0 <= a@.len() <= 0xffff_ffff_ffff_ffff,
                TERM_MAX == 837840745072125,
        ;
        lemma_hoist_over_denominator(sum * 511, sum as int, 65025);
        assert(sum * 511 + sum * 65025 == sum * 65536) by (nonlinear_arith);
    }
    let radicand: u128 = sum + sum * 511 / 65025;
    Ok(isqrt(radicand))
}

/// The weight 1 for each of `n` places.
pub fn ones(n: usize) -> (out: Vec<u32>)
    ensures
        out@ == unit_weights(n as nat),
{
    let mut out: Vec<u32> = Vec::new();
    while out.len() < n
        invariant
            out.len() <= n,
            forall|i: int| 0 <= i < out.len() ==> out[i] == 65536,
        decreases n - out.len(),
    {
        out.push(65536);
    }
    assert(out@ =~= unit_weights(n as nat));
    out
}

/// The Euclidean distance of two sequences of colours.
///
/// Fails where the two sequences differ in length.
pub fn euclidean(a: &Vec<Rgb>, b: &Vec<Rgb>) -> (out: Result<u64, DistanceError>)
    ensures
        match out {
            Ok(d) => a.len() == b.len() && d == weighted_euclidean_value(
                a@,
                b@,
                unit_weights(a@.len()),
            ),
            Err(e) => e == DistanceError::LengthMismatch && a.len() != b.len(),
        },
{
    let weights = ones(a.len());
    weighted_euclidean(a, b, &weights)
}

/// The mean of the perceptual differences of two sequences of colours, place
/// by place.
///
/// Fails where the two sequences differ in length.
pub fn mean_delta(a: &Vec<Rgb>, b: &Vec<Rgb>) -> (out: Result<u64, DistanceError>)
    ensures
        match out {
            Ok(d) => a.len() == b.len() && d == mean_delta_value(a@, b@) && d <= LIMIT,
            Err(e) => e == DistanceError::LengthMismatch && a.len() != b.len(),
        },
{
    if a.len() != b.len() {
        return Err(DistanceError::LengthMismatch);
    }
    if a.len() == 0 {
        return Ok(0);
    }
    let mut sum: u128 = 0;
    let mut i: usize = 0;
    while i < a.len()
        invariant
            i <= a.len(),
            a.len() == b.len(),
            sum == delta_sum(a@, b@, i as nat),
        decreases a.len() - i,
    {
        let d = delta_distance(&a[i], &b[i]);
        proof {
            lemma_delta_sum_bounds(a@, b@, i as nat);
            lemma_delta_sum_bounds(a@, b@, (i + 1) as nat);
            assert((i + 1) * LIMIT <= 0xffff_ffff_ffff_ffff * 0x8000_0000) by (nonlinear_arith)
                requires
                    0 <= i + 1 <= 0xffff_ffff_ffff_ffff,
                    LIMIT == 0x8000_0000,
            ;
        }
        sum = sum + d as u128;
        i = i + 1;
    }
    let n = a.len() as u128;
    proof {
        lemma_delta_sum_bounds(a@, b@, a@.len());
        assert(sum / n <= LIMIT) by (nonlinear_arith)
            requires
                0 <= sum <= n * LIMIT,
                0 < n,
        ;
    }
    Ok((sum / n) as u64)
}

/// The least sum of the perceptual differences along a diagonal of the
/// matrix of the two sequences, over all the places where a diagonal can end.
pub fn best_diagonal(a: &Vec<Rgb>, b: &Vec<Rgb>) -> (out: u64)
    requires
        a.len() > 0,
        b.len() > 0,
    ensures
        is_least_total(a@, b@, out as int),
        out == least_total(a@, b@),
        out <= LIMIT,
{
    let mut best: u128 = 0;
    let ghost mut wi: int = 0;
    let ghost mut wj: int = 0;
    let mut above: Vec<u128> = Vec::new();
    let mut i: usize = 0;
    while i < a.len()
        invariant
            i <= a.len(),
            b.len() > 0,
            i > 0 ==> above.len() == b.len(),
            forall|j: int|
                0 <= j < b.len() && i > 0 ==> above[j] == #[trigger] diagonal_total(
                    a@,
                    b@,
                    i - 1,
                    j,
                ),
            forall|k: int, l: int|
                0 <= k < i && 0 <= l < b.len() ==> best <= #[trigger] diagonal_total(a@, b@, k, l),
            i > 0 ==> 0 <= wi < a.len() && 0 <= wj < b.len() && best == diagonal_total(
                a@,
                b@,
                wi,
                wj,
            ),
        decreases a.len() - i,
    {
        let mut row: Vec<u128> = Vec::new();
        let mut j: usize = 0;
        while j < b.len()
            invariant
                i < a.len(),
                j <= b.len(),
                b.len() > 0,
                row.len() == j,
                i > 0 ==> above.len() == b.len(),
                forall|l: int|
                    0 <= l < b.len() && i > 0 ==> above[l] == #[trigger] diagonal_total(
                        a@,
                        b@,
                        i - 1,
                        l,
                    ),
                forall|l: int| 0 <= l < j ==> row[l] == #[trigger] diagonal_total(a@, b@, i as int, l),
                forall|k: int, l: int|
                    0 <= k < i && 0 <= l < b.len() ==> best <= #[trigger] diagonal_total(
                        a@,
                        b@,
                        k,
                        l,
                    ),
                forall|l: int| 0 <= l < j ==> best <= #[trigger] diagonal_total(a@, b@, i as int, l),
                (i > 0 || j > 0) ==> 0 <= wi < a.len() && 0 <= wj < b.len() && best
                    == diagonal_total(a@, b@, wi, wj),
            decreases b.len() - j,
        {
            let d = delta_distance(&a[i], &b[j]) as u128;
            proof {
                lemma_diagonal_bounds(a@, b@, i as int, j as int);
                assert((i + 1) * LIMIT <= 0xffff_ffff_ffff_ffff * 0x8000_0000) by (nonlinear_arith)
                    requires
                        0 <= i + 1 <= 0xffff_ffff_ffff_ffff,
                        LIMIT == 0x8000_0000,
                ;
                if i > 0 && j > 0 {
                    assert(above[j - 1] == diagonal_total(a@, b@, i - 1, j - 1));
                }
            }
            let t: u128 = if i > 0 && j > 0 {
                d + above[j - 1]
            } else {
                d
            };
            if (i == 0 && j == 0) || t < best {
                best = t;
                proof {
                    wi = i as int;
                    wj = j as int;
                }
            }
            row.push(t);
            j = j + 1;
        }
        above = row;
        i = i + 1;
    }
    proof {
        lemma_diagonal_bounds(a@, b@, 0, 0);
        assert(best <= diagonal_total(a@, b@, 0, 0));
        lemma_delta_bounds(a@[0], b@[0]);
        lemma_least_total_is(a@, b@, best as int);
    }
    best as u64
}

} // verus!
