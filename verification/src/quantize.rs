//! The quantizer: reduces a set of pixels to a small palette of weighted colours.
//!
//! Each channel is cut into buckets of equal width, every pixel is replaced by
//! the midpoint of its bucket, and the most frequent of the resulting colours
//! are kept. Colours that occur equally often are ordered by ascending colour.
use vstd::prelude::*;
use crate::rgb::Rgb;

verus! {

/// A colour of a palette with its weight: `count` of the `total` pixels that
/// were counted have this colour, so that its frequency is `count / total`.
#[derive(Debug, Clone, Copy, PartialEq, Eq, Structural)]
pub struct WeightedColor {
    pub color: Rgb,
    pub count: u64,
    pub total: u64,
}

impl WeightedColor {
    /// The frequency is a fraction between 0 and 1.
    pub open spec fn wf(self) -> bool {
        0 < self.total && self.count <= self.total
    }

    /// The frequency in fixed point, rounded down: `count / total` in
    /// multiples of 2^-16.
    pub open spec fn freq_value(self) -> int {
        self.count * 65536 / (self.total as int)
    }

    /// The frequency in fixed point, rounded down.
    pub fn freq(&self) -> (out: u64)
        requires
            self.wf(),
        ensures
            out == self.freq_value(),
            out <= 65536,
    {
        let scaled: u128 = self.count as u128 * 65536;
        let total: u128 = self.total as u128;
        assert(scaled / total <= 65536) by (nonlinear_arith)
            requires
                0 <= scaled <= total * 65536,
                0 < total,
        ;
        (scaled / total) as u64
    }

    /// `self` comes before `other` in a palette: it is more frequent, or as
    /// frequent and of the smaller colour.
    pub open spec fn ranks_before(self, other: WeightedColor) -> bool {
        self.count > other.count || (self.count == other.count && self.color.key()
            < other.color.key())
    }
}

/// Why a palette could not be made.
#[derive(Debug, Clone, Copy, PartialEq, Eq, Structural)]
pub enum QuantizeError {
    /// `levels` or `palette_size` is out of range, or `palette_size` exceeds `levels` cubed.
    InvalidConfiguration,
    /// No pixel is left to count.
    EmptyInput,
}

/// The sum of the counts of a palette.
pub open spec fn count_sum(palette: Seq<WeightedColor>) -> nat
    decreases palette.len(),
{
    if palette.len() == 0 {
        0
    } else {
        count_sum(palette.drop_last()) + palette.last().count as nat
    }
}

/// The palette is one that the quantizer can return: it is not empty, its
/// colours share one positive total, and their counts add up to at most that.
pub open spec fn valid_palette(palette: Seq<WeightedColor>) -> bool {
    &&& palette.len() > 0
    &&& palette[0].total > 0
    &&& forall|i: int| 0 <= i < palette.len() ==> (#[trigger] palette[i]).total == palette[0].total
    &&& count_sum(palette) <= palette[0].total
}

/// The configuration is one that the quantizer accepts.
pub open spec fn valid_configuration(palette_size: usize, levels: usize) -> bool {
    &&& 2 <= levels <= 16
    &&& 1 <= palette_size <= 10
    &&& palette_size <= levels * levels * levels
}

/// The width of a bucket when a channel is cut into `levels` buckets.
pub open spec fn bucket_width(levels: usize) -> u8 {
    (256int / levels as int) as u8
}

/// The midpoint of bucket `index`, capped at the largest channel value.
pub open spec fn midpoint(index: int, bucket_size: u8) -> u8 {
    let q = index * bucket_size + bucket_size / 2;
    if q > 255 {
        255u8
    } else {
        q as u8
    }
}

/// The value that stands for a channel value: the midpoint of its bucket.
pub open spec fn quantize_channel(value: u8, bucket_size: u8) -> u8 {
    midpoint(value as int / bucket_size as int, bucket_size)
}

/// The colour that stands for a colour: each channel quantized.
pub open spec fn quantized(color: Rgb, bucket_size: u8) -> Rgb {
    Rgb {
        r: quantize_channel(color.r, bucket_size),
        g: quantize_channel(color.g, bucket_size),
        b: quantize_channel(color.b, bucket_size),
    }
}

/// The pixel is counted: it is not a black pixel that is to be ignored.
pub open spec fn considered(pixel: Rgb, ignore_black: bool) -> bool {
    !(ignore_black && pixel.is_black())
}

/// The number of pixels that are counted.
pub open spec fn considered_count(pixels: Seq<Rgb>, ignore_black: bool) -> nat
    decreases pixels.len(),
{
    if pixels.len() == 0 {
        0
    } else {
        considered_count(pixels.drop_last(), ignore_black) + if considered(
            pixels.last(),
            ignore_black,
        ) {
            1nat
        } else {
            0nat
        }
    }
}

/// The number of counted pixels that `color` stands for.
pub open spec fn bucket_count(
    pixels: Seq<Rgb>,
    ignore_black: bool,
    bucket_size: u8,
    color: Rgb,
) -> nat
    decreases pixels.len(),
{
    if pixels.len() == 0 {
        0
    } else {
        bucket_count(pixels.drop_last(), ignore_black, bucket_size, color) + if considered(
            pixels.last(),
            ignore_black,
        ) && quantized(pixels.last(), bucket_size) == color {
            1nat
        } else {
            0nat
        }
    }
}

/// Quantizes one channel value.
fn quantize_value(value: u8, bucket_size: u8) -> (out: u8)
    requires
        bucket_size > 0,
    ensures
        out == quantize_channel(value, bucket_size),
{
    let index: u8 = value / bucket_size;
    assert(index * bucket_size <= value) by (nonlinear_arith)
        requires
            index == value / bucket_size,
            bucket_size > 0,
    ;
    let q: u16 = index as u16 * bucket_size as u16 + (bucket_size / 2) as u16;
    if q > 255 {
        255
    } else {
        q as u8
    }
}

/// The colour that stands for `color` when buckets are `bucket_size` wide.
pub fn quantize_color(color: &Rgb, bucket_size: u8) -> (out: Rgb)
    requires
        bucket_size > 0,
    ensures
        out == quantized(*color, bucket_size),
{
    Rgb {
        r: quantize_value(color.r, bucket_size),
        g: quantize_value(color.g, bucket_size),
        b: quantize_value(color.b, bucket_size),
    }
}

/// The number of cells of the histogram: 16 buckets at most for each channel.
const CELLS: usize = 4096;

/// The cell of the histogram that counts a colour.
spec fn cell_index(color: Rgb, bucket_size: u8) -> int {
    (color.r as int / bucket_size as int) * 256 + (color.g as int / bucket_size as int) * 16 + (
    color.b as int / bucket_size as int)
}

/// The colour that a cell of the histogram counts.
spec fn cell_color(cell: int, bucket_size: u8) -> Rgb {
    Rgb {
        r: midpoint(cell / 256, bucket_size),
        g: midpoint((cell / 16) % 16, bucket_size),
        b: midpoint(cell % 16, bucket_size),
    }
}

/// The number of counted pixels that fall into a cell.
spec fn cell_count(pixels: Seq<Rgb>, ignore_black: bool, bucket_size: u8, cell: int) -> nat
    decreases pixels.len(),
{
    if pixels.len() == 0 {
        0
    } else {
        cell_count(pixels.drop_last(), ignore_black, bucket_size, cell) + if considered(
            pixels.last(),
            ignore_black,
        ) && cell_index(pixels.last(), bucket_size) == cell {
            1nat
        } else {
            0nat
        }
    }
}

/// The sum of a histogram.
spec fn seq_sum(s: Seq<u64>) -> nat
    decreases s.len(),
{
    if s.len() == 0 {
        0
    } else {
        seq_sum(s.drop_last()) + s.last() as nat
    }
}

/// The sum of the cells of `hist` that `cells` lists.
spec fn picked_sum(hist: Seq<u64>, cells: Seq<usize>) -> nat
    decreases cells.len(),
{
    if cells.len() == 0 {
        0
    } else {
        picked_sum(hist, cells.drop_last()) + hist[cells.last() as int] as nat
    }
}

/// `cells` lists the cell `c`.
spec fn picked(cells: Seq<usize>, c: int) -> bool {
    exists|i: int| 0 <= i < cells.len() && cells[i] == c
}

/// Cell `a` comes before cell `b`: it holds more, or as much and is the lower cell.
spec fn cell_before(hist: Seq<u64>, a: int, b: int) -> bool {
    hist[a] > hist[b] || (hist[a] == hist[b] && a < b)
}

proof fn lemma_seq_sum_update(s: Seq<u64>, i: int, v: u64)
    requires
        0 <= i < s.len(),
    ensures
        seq_sum(s.update(i, v)) == seq_sum(s) - s[i] + v,
    decreases s.len(),
{
    if i == s.len() - 1 {
        assert(s.update(i, v).drop_last() =~= s.drop_last());
    } else {
        lemma_seq_sum_update(s.drop_last(), i, v);
        assert(s.update(i, v).drop_last() =~= s.drop_last().update(i, v));
    }
}

proof fn lemma_seq_sum_zero(s: Seq<u64>)
    requires
        forall|i: int| 0 <= i < s.len() ==> s[i] == 0,
    ensures
        seq_sum(s) == 0,
    decreases s.len(),
{
    if s.len() > 0 {
        lemma_seq_sum_zero(s.drop_last());
    }
}

proof fn lemma_seq_sum_bounds(s: Seq<u64>, i: int)
    requires
        0 <= i < s.len(),
    ensures
        s[i] <= seq_sum(s),
    decreases s.len(),
{
    if i < s.len() - 1 {
        lemma_seq_sum_bounds(s.drop_last(), i);
    }
}

/// A channel value of at most 255 falls into one of 16 buckets, and the
/// midpoint of its bucket falls into the same bucket.
proof fn lemma_channel(value: u8, bucket_size: u8)
    requires
        bucket_size >= 16,
    ensures
        0 <= value as int / bucket_size as int <= 15,
        quantize_channel(value, bucket_size) as int / bucket_size as int == value as int
            / bucket_size as int,
        quantize_channel(quantize_channel(value, bucket_size), bucket_size) == quantize_channel(
            value,
            bucket_size,
        ),
{
    let bs = bucket_size as int;
    let i = value as int / bs;
    let half = bs / 2;
    assert(0 <= i <= 15 && i * bs <= value < i * bs + bs) by (nonlinear_arith)
        requires
            i == value as int / bs,
            bs >= 16,
            0 <= value <= 255,
    ;
    let q = quantize_channel(value, bucket_size) as int;
    assert(i * bs <= q < i * bs + bs);
    assert(q / bs == i) by (nonlinear_arith)
        requires
            i * bs <= q < i * bs + bs,
            bs > 0,
    ;
}

/// Quantized channel values are ordered as their buckets are.
proof fn lemma_channel_order(v1: u8, v2: u8, bucket_size: u8)
    requires
        bucket_size >= 16,
        quantize_channel(v1, bucket_size) == v1,
        quantize_channel(v2, bucket_size) == v2,
    ensures
        v1 < v2 <==> (v1 as int / bucket_size as int) < (v2 as int / bucket_size as int),
        v1 == v2 <==> (v1 as int / bucket_size as int) == (v2 as int / bucket_size as int),
{
    let bs = bucket_size as int;
    let i1 = v1 as int / bs;
    let i2 = v2 as int / bs;
    assert(i1 * bs <= v1 < i1 * bs + bs) by (nonlinear_arith)
        requires
            i1 == v1 as int / bs,
            bs > 0,
            v1 >= 0,
    ;
    assert(i2 * bs <= v2 < i2 * bs + bs) by (nonlinear_arith)
        requires
            i2 == v2 as int / bs,
            bs > 0,
            v2 >= 0,
    ;
    if i1 < i2 {
        assert(i1 * bs + bs <= i2 * bs) by (nonlinear_arith)
            requires
                i1 + 1 <= i2,
                bs > 0,
        ;
    }
    if i2 < i1 {
        assert(i2 * bs + bs <= i1 * bs) by (nonlinear_arith)
            requires
                i2 + 1 <= i1,
                bs > 0,
        ;
    }
}

/// The cell of a colour is within the histogram, it counts the quantized
/// colour, and quantizing again changes nothing.
proof fn lemma_cell(color: Rgb, bucket_size: u8)
    requires
        bucket_size >= 16,
    ensures
        0 <= cell_index(color, bucket_size) < CELLS,
        cell_color(cell_index(color, bucket_size), bucket_size) == quantized(color, bucket_size),
        cell_index(quantized(color, bucket_size), bucket_size) == cell_index(color, bucket_size),
        quantized(quantized(color, bucket_size), bucket_size) == quantized(color, bucket_size),
{
    lemma_channel(color.r, bucket_size);
    lemma_channel(color.g, bucket_size);
    lemma_channel(color.b, bucket_size);
}

/// Quantized colours are ordered as their cells are.
proof fn lemma_cell_order(c1: Rgb, c2: Rgb, bucket_size: u8)
    requires
        bucket_size >= 16,
        quantized(c1, bucket_size) == c1,
        quantized(c2, bucket_size) == c2,
    ensures
        c1.key() < c2.key() <==> cell_index(c1, bucket_size) < cell_index(c2, bucket_size),
        c1 == c2 <==> cell_index(c1, bucket_size) == cell_index(c2, bucket_size),
{
    lemma_channel(c1.r, bucket_size);
    lemma_channel(c1.g, bucket_size);
    lemma_channel(c1.b, bucket_size);
    lemma_channel(c2.r, bucket_size);
    lemma_channel(c2.g, bucket_size);
    lemma_channel(c2.b, bucket_size);
    lemma_channel_order(c1.r, c2.r, bucket_size);
    lemma_channel_order(c1.g, c2.g, bucket_size);
    lemma_channel_order(c1.b, c2.b, bucket_size);
}

/// A colour that stands for a counted pixel is a quantized colour.
proof fn lemma_bucket_is_quantized(
    pixels: Seq<Rgb>,
    ignore_black: bool,
    bucket_size: u8,
    color: Rgb,
)
    requires
        bucket_size >= 16,
        bucket_count(pixels, ignore_black, bucket_size, color) > 0,
    ensures
        quantized(color, bucket_size) == color,
    decreases pixels.len(),
{
    if pixels.len() > 0 {
        if considered(pixels.last(), ignore_black) && quantized(pixels.last(), bucket_size)
            == color {
            lemma_cell(pixels.last(), bucket_size);
        } else {
            lemma_bucket_is_quantized(pixels.drop_last(), ignore_black, bucket_size, color);
        }
    }
}

/// The cell of a quantized colour counts the pixels that the colour stands for.
proof fn lemma_bucket_is_cell(pixels: Seq<Rgb>, ignore_black: bool, bucket_size: u8, color: Rgb)
    requires
        bucket_size >= 16,
        quantized(color, bucket_size) == color,
    ensures
        bucket_count(pixels, ignore_black, bucket_size, color) == cell_count(
            pixels,
            ignore_black,
            bucket_size,
            cell_index(color, bucket_size),
        ),
    decreases pixels.len(),
{
    if pixels.len() > 0 {
        lemma_bucket_is_cell(pixels.drop_last(), ignore_black, bucket_size, color);
        let p = pixels.last();
        lemma_cell(p, bucket_size);
        lemma_cell(color, bucket_size);
        lemma_cell_order(quantized(p, bucket_size), color, bucket_size);
    }
}

/// A cell that counts a pixel is the cell of the colour that it counts.
proof fn lemma_cell_is_bucket(pixels: Seq<Rgb>, ignore_black: bool, bucket_size: u8, cell: int)
    requires
        bucket_size >= 16,
        cell_count(pixels, ignore_black, bucket_size, cell) > 0,
    ensures
        quantized(cell_color(cell, bucket_size), bucket_size) == cell_color(cell, bucket_size),
        cell_index(cell_color(cell, bucket_size), bucket_size) == cell,
    decreases pixels.len(),
{
    if pixels.len() > 0 {
        if considered(pixels.last(), ignore_black) && cell_index(pixels.last(), bucket_size)
            == cell {
            lemma_cell(pixels.last(), bucket_size);
        } else {
            lemma_cell_is_bucket(pixels.drop_last(), ignore_black, bucket_size, cell);
        }
    }
}

/// Counts the pixels into the histogram.
fn count_cells(pixels: &Vec<Rgb>, bucket_size: u8, ignore_black: bool) -> (out: (Vec<u64>, u64))
    requires
        bucket_size >= 16,
    ensures
        out.0.len() == CELLS,
        forall|c: int|
            0 <= c < CELLS ==> out.0[c] as nat == cell_count(
                pixels@,
                ignore_black,
                bucket_size,
                c,
            ),
        out.1 as nat == considered_count(pixels@, ignore_black),
        seq_sum(out.0@) == out.1,
{
    let mut hist: Vec<u64> = Vec::new();
    while hist.len() < CELLS
        invariant
            hist.len() <= CELLS,
            forall|c: int| 0 <= c < hist.len() ==> hist[c] == 0,
        decreases CELLS - hist.len(),
    {
        hist.push(0);
    }
    proof {
        lemma_seq_sum_zero(hist@);
        assert(pixels@.take(0) =~= Seq::<Rgb>::empty());
    }
    let mut seen: u64 = 0;
    let mut i: usize = 0;
    while i < pixels.len()
        invariant
            bucket_size >= 16,
            i <= pixels.len(),
            hist.len() == CELLS,
            forall|c: int|
                0 <= c < CELLS ==> hist[c] as nat == cell_count(
                    pixels@.take(i as int),
                    ignore_black,
                    bucket_size,
                    c,
                ),
            seen as nat == considered_count(pixels@.take(i as int), ignore_black),
            seq_sum(hist@) == seen,
            seen <= i,
        decreases pixels.len() - i,
    {
        let p = pixels[i];
        proof {
            assert(pixels@.take(i + 1).drop_last() =~= pixels@.take(i as int));
            assert(pixels@.take(i + 1).last() == p);
            lemma_cell(p, bucket_size);
            lemma_channel(p.r, bucket_size);
            lemma_channel(p.g, bucket_size);
            lemma_channel(p.b, bucket_size);
        }
        if !(ignore_black && p.r == 0 && p.g == 0 && p.b == 0) {
            let cell: usize = (p.r / bucket_size) as usize * 256 + (p.g / bucket_size) as usize
                * 16 + (p.b / bucket_size) as usize;
            proof {
                lemma_seq_sum_bounds(hist@, cell as int);
                lemma_seq_sum_update(hist@, cell as int, (hist[cell as int] + 1) as u64);
            }
            let n: u64 = hist[cell] + 1;
            hist.set(cell, n);
            seen = seen + 1;
        }
        i = i + 1;
    }
    proof {
        assert(pixels@.take(pixels.len() as int) =~= pixels@);
    }
    (hist, seen)
}

/// The first of the cells that hold the most.
fn fullest(work: &Vec<u64>) -> (best: usize)
    requires
        work.len() > 0,
    ensures
        best < work.len(),
        forall|c: int| 0 <= c < work.len() ==> work[c] <= work[best as int],
        forall|c: int| 0 <= c < best ==> work[c] < work[best as int],
{
    let mut best: usize = 0;
    let mut c: usize = 1;
    while c < work.len()
        invariant
            best < c <= work.len(),
            forall|d: int| 0 <= d < c ==> work[d] <= work[best as int],
            forall|d: int| 0 <= d < best ==> work[d] < work[best as int],
        decreases work.len() - c,
    {
        if work[c] > work[best] {
            best = c;
        }
        c = c + 1;
    }
    best
}

/// `cells` are the `k` cells of `hist` that come first, in their order, or
/// all the cells that hold anything where those are fewer.
spec fn is_selection(hist: Seq<u64>, cells: Seq<usize>, k: nat) -> bool {
    &&& cells.len() <= k
    &&& forall|i: int|
        0 <= i < cells.len() ==> (#[trigger] cells[i]) < CELLS && hist[cells[i] as int] > 0
    &&& forall|i: int, j: int|
        0 <= i < j < cells.len() ==> cell_before(hist, cells[i] as int, cells[j] as int)
    &&& forall|c: int|
        0 <= c < CELLS && hist[c] > 0 ==> #[trigger] picked(cells, c) || (cells.len() == k
            && cell_before(hist, cells[k - 1] as int, c))
    &&& picked_sum(hist, cells) <= seq_sum(hist)
    &&& (forall|c: int| 0 <= c < CELLS && hist[c] > 0 ==> #[trigger] picked(cells, c))
        ==> picked_sum(hist, cells) == seq_sum(hist)
}

/// The `k` cells that come first, in their order, or all the cells that hold
/// anything where those are fewer.
fn select_top(hist: &Vec<u64>, k: usize) -> (out: Vec<usize>)
    requires
        hist.len() == CELLS,
        k >= 1,
    ensures
        is_selection(hist@, out@, k as nat),
{
    let mut work: Vec<u64> = Vec::new();
    let mut n: usize = 0;
    while n < CELLS
        invariant
            n <= CELLS,
            hist.len() == CELLS,
            work.len() == n,
            forall|c: int| 0 <= c < n ==> work[c] == hist[c],
        decreases CELLS - n,
    {
        work.push(hist[n]);
        n = n + 1;
    }
    assert(work@ =~= hist@);
    let mut out: Vec<usize> = Vec::new();
    let mut exhausted = false;
    while out.len() < k && !exhausted
        invariant
            hist.len() == CELLS,
            work.len() == CELLS,
            out.len() <= k,
            forall|c: int|
                0 <= c < CELLS ==> work[c] == (if picked(out@, c) {
                    0
                } else {
                    hist[c]
                }),
            forall|i: int| 0 <= i < out.len() ==> out[i] < CELLS && hist[out[i] as int] > 0,
            forall|i: int, j: int|
                0 <= i < j < out.len() ==> cell_before(hist@, out[i] as int, out[j] as int),
            forall|i: int, c: int|
                0 <= i < out.len() && 0 <= c < CELLS && !picked(out@, c) ==> #[trigger] cell_before(
                    hist@,
                    out[i] as int,
                    c,
                ),
            picked_sum(hist@, out@) + seq_sum(work@) == seq_sum(hist@),
            exhausted ==> forall|c: int| 0 <= c < CELLS ==> work[c] == 0,
        decreases k - out.len() + if exhausted { 0int } else { 1int },
    {
        let best = fullest(&work);
        if work[best] == 0 {
            exhausted = true;
        } else {
            let ghost before = out@;
            let ghost held = work@;
            proof {
                assert(!picked(before, best as int));
                lemma_seq_sum_update(work@, best as int, 0);
            }
            out.push(best);
            work.set(best, 0);
            proof {
                assert(out@.drop_last() =~= before);
                assert(out@[before.len() as int] == best);
                assert(picked(out@, best as int));
                assert forall|c: int| 0 <= c < CELLS implies picked(out@, c) == (picked(before, c)
                    || c == best) by {
                    if picked(before, c) {
                        let i = choose|i: int| 0 <= i < before.len() && before[i] == c;
                        assert(out@[i] == c);
                    }
                    if picked(out@, c) && c != best {
                        let i = choose|i: int| 0 <= i < out@.len() && out@[i] == c;
                        assert(before[i] == c);
                    }
                }
                assert forall|i: int, c: int|
                    0 <= i < out.len() && 0 <= c < CELLS && !picked(out@, c) implies #[trigger] cell_before(
                    hist@,
                    out[i] as int,
                    c,
                ) by {
                    assert(!picked(before, c));
                    if i < before.len() {
                        assert(out[i] == before[i]);
                        assert(cell_before(hist@, before[i] as int, c));
                    } else {
                        assert(out[i] == best);
                        assert(held[c] == hist@[c]);
                        assert(held[best as int] == hist@[best as int]);
                        assert(held[c] <= held[best as int]);
                    }
                }
                assert forall|i: int, j: int| 0 <= i < j < out.len() implies cell_before(
                    hist@,
                    out[i] as int,
                    out[j] as int,
                ) by {
                    assert(out[i] == before[i]);
                    if j < before.len() {
                        assert(out[j] == before[j]);
                    } else {
                        assert(cell_before(hist@, before[i] as int, best as int));
                    }
                }
            }
        }
    }
    proof {
        if forall|c: int| 0 <= c < CELLS && hist[c] > 0 ==> picked(out@, c) {
            lemma_seq_sum_zero(work@);
        }
        assert forall|c: int| 0 <= c < CELLS && hist[c] > 0 implies picked(out@, c) || (out.len()
            == k && cell_before(hist@, out[k - 1] as int, c)) by {
            if !picked(out@, c) {
                assert(work[c] == hist[c]);
                assert(!exhausted);
            }
        }
    }
    out
}

/// `palette` is the palette of `pixels` with at most `palette_size` colours:
/// the most frequent quantized colours of the counted pixels, or all of them
/// where they are fewer, each with the number of counted pixels that it
/// stands for and the number of all counted pixels, the more frequent colour
/// first, and of two that are equally frequent the smaller.
pub open spec fn is_palette_of(
    pixels: Seq<Rgb>,
    ignore_black: bool,
    bucket_size: u8,
    palette_size: nat,
    palette: Seq<WeightedColor>,
) -> bool {
    let total = considered_count(pixels, ignore_black);
    &&& total > 0
    &&& 1 <= palette.len() <= palette_size
    &&& valid_palette(palette)
    &&& forall|i: int|
        0 <= i < palette.len() ==> {
            &&& (#[trigger] palette[i]).total == total
            &&& palette[i].count > 0
            &&& palette[i].count == bucket_count(pixels, ignore_black, bucket_size, palette[i].color)
        }
    &&& forall|i: int, j: int|
        0 <= i < j < palette.len() ==> (#[trigger] palette[i]).ranks_before(#[trigger] palette[j])
    &&& forall|c: Rgb| #[trigger]
        bucket_count(pixels, ignore_black, bucket_size, c) > 0 ==> holds(palette, c) || (
        palette.len() == palette_size && palette[palette_size - 1].ranks_before(
            (WeightedColor {
                color: c,
                count: bucket_count(pixels, ignore_black, bucket_size, c) as u64,
                total: total as u64,
            }),
        ))
    &&& count_sum(palette) <= total
    &&& covers(pixels, ignore_black, bucket_size, palette) ==> count_sum(palette) == total
}

/// The palette holds every colour that stands for a counted pixel: nothing
/// was cut off.
pub open spec fn covers(
    pixels: Seq<Rgb>,
    ignore_black: bool,
    bucket_size: u8,
    palette: Seq<WeightedColor>,
) -> bool {
    forall|c: Rgb| #[trigger]
        bucket_count(pixels, ignore_black, bucket_size, c) > 0 ==> holds(palette, c)
}

/// The palette of a set of pixels.
///
/// Returns the `palette_size` most frequent quantized colours of the counted
/// pixels, or all of them where they are fewer, each with the number of
/// counted pixels that it stands for and the number of all counted pixels.
/// The more frequent colour comes first, and of two that are equally frequent
/// the smaller. Black pixels are not counted where `ignore_black` is set.
/// A configuration out of range is refused first; then pixels of which none
/// is counted.
pub fn get_palette(
    pixels: &Vec<Rgb>,
    palette_size: usize,
    levels: usize,
    ignore_black: bool,
) -> (out: Result<Vec<WeightedColor>, QuantizeError>)
    ensures
        match out {
            Ok(palette) => valid_configuration(palette_size, levels) && is_palette_of(
                pixels@,
                ignore_black,
                bucket_width(levels),
                palette_size as nat,
                palette@,
            ),
            Err(QuantizeError::InvalidConfiguration) => !valid_configuration(palette_size, levels),
            Err(QuantizeError::EmptyInput) => valid_configuration(palette_size, levels)
                && considered_count(pixels@, ignore_black) == 0,
        },
{
    if levels < 2 || levels > 16 || palette_size < 1 || palette_size > 10 {
        return Err(QuantizeError::InvalidConfiguration);
    }
    assert(levels * levels <= 256 && levels * levels * levels <= 4096) by (nonlinear_arith)
        requires
            2 <= levels <= 16,
    ;
    if palette_size > levels * levels * levels {
        return Err(QuantizeError::InvalidConfiguration);
    }
    let width: usize = 256 / levels;
    assert(16 <= width <= 128) by (nonlinear_arith)
        requires
            width == 256int / (levels as int),
            2 <= levels <= 16,
    ;
    let bucket_size: u8 = width as u8;
    let (hist, total) = count_cells(pixels, bucket_size, ignore_black);
    if total == 0 {
        return Err(QuantizeError::EmptyInput);
    }
    let cells = select_top(&hist, palette_size);
    let palette = palette_of_cells(&hist, &cells, bucket_size, total);
    proof {
        lemma_palette(
            pixels@,
            ignore_black,
            bucket_size,
            palette_size as nat,
            hist@,
            cells@,
            palette@,
        );
    }
    Ok(palette)
}

/// The colours of the cells that were selected, each with what its cell holds.
fn palette_of_cells(hist: &Vec<u64>, cells: &Vec<usize>, bucket_size: u8, total: u64) -> (palette:
    Vec<WeightedColor>)
    requires
        hist.len() == CELLS,
        forall|j: int| 0 <= j < cells.len() ==> (#[trigger] cells[j]) < CELLS,
    ensures
        palette.len() == cells.len(),
        forall|j: int|
            0 <= j < cells.len() ==> {
                &&& (#[trigger] palette[j]).total == total
                &&& palette[j].count == hist[cells[j] as int]
                &&& palette[j].color == cell_color(cells[j] as int, bucket_size)
            },
        count_sum(palette@) == picked_sum(hist@, cells@),
{
    let mut palette: Vec<WeightedColor> = Vec::new();
    let mut i: usize = 0;
    while i < cells.len()
        invariant
            i <= cells.len(),
            palette.len() == i,
            hist.len() == CELLS,
            forall|j: int| 0 <= j < cells.len() ==> (#[trigger] cells[j]) < CELLS,
            forall|j: int|
                0 <= j < i ==> {
                    &&& (#[trigger] palette[j]).total == total
                    &&& palette[j].count == hist[cells[j] as int]
                    &&& palette[j].color == cell_color(cells[j] as int, bucket_size)
                },
            count_sum(palette@) == picked_sum(hist@, cells@.take(i as int)),
        decreases cells.len() - i,
    {
        let cell = cells[i];
        let color = Rgb {
            r: midpoint_of((cell / 256) as u8, bucket_size),
            g: midpoint_of(((cell / 16) % 16) as u8, bucket_size),
            b: midpoint_of((cell % 16) as u8, bucket_size),
        };
        let ghost before = palette@;
        palette.push(WeightedColor { color, count: hist[cell], total });
        proof {
            assert(palette@.drop_last() =~= before);
            assert(cells@.take(i + 1).drop_last() =~= cells@.take(i as int));
            assert(cells@.take(i + 1).last() == cell);
        }
        i = i + 1;
    }
    proof {
        assert(cells@.take(cells.len() as int) =~= cells@);
    }
    palette
}

/// The palette made from the cells that were selected is the palette of the pixels.
proof fn lemma_palette(
    pixels: Seq<Rgb>,
    ignore_black: bool,
    bucket_size: u8,
    k: nat,
    hist: Seq<u64>,
    cells: Seq<usize>,
    palette: Seq<WeightedColor>,
)
    requires
        bucket_size >= 16,
        k >= 1,
        hist.len() == CELLS,
        forall|c: int|
            0 <= c < CELLS ==> hist[c] as nat == cell_count(pixels, ignore_black, bucket_size, c),
        seq_sum(hist) == considered_count(pixels, ignore_black),
        0 < considered_count(pixels, ignore_black) <= u64::MAX,
        is_selection(hist, cells, k),
        palette.len() == cells.len(),
        forall|j: int|
            0 <= j < cells.len() ==> {
                &&& (#[trigger] palette[j]).total == considered_count(pixels, ignore_black)
                &&& palette[j].count == hist[cells[j] as int]
                &&& palette[j].color == cell_color(cells[j] as int, bucket_size)
            },
        count_sum(palette) == picked_sum(hist, cells),
    ensures
        is_palette_of(pixels, ignore_black, bucket_size, k, palette),
{
    let total = considered_count(pixels, ignore_black);
    lemma_palette_of_cells(pixels, ignore_black, bucket_size, hist, cells, palette);
    lemma_some_cell(pixels, ignore_black, bucket_size);
    let c0 = choose|c: int|
        0 <= c < CELLS && #[trigger] cell_count(pixels, ignore_black, bucket_size, c) > 0;
    assert(hist[c0] > 0);
    assert(picked(cells, c0) || cells.len() == k);
    assert(palette.len() >= 1);
    assert forall|i: int| 0 <= i < palette.len() implies {
        &&& (#[trigger] palette[i]).total == total
        &&& palette[i].count > 0
        &&& palette[i].count == bucket_count(pixels, ignore_black, bucket_size, palette[i].color)
    } by {
        assert(cells[i] < CELLS && hist[cells[i] as int] > 0);
    }
    assert forall|i: int, j: int| 0 <= i < j < palette.len() implies (#[trigger] palette[i]).ranks_before(
        #[trigger] palette[j],
    ) by {
        assert(cell_before(hist, cells[i] as int, cells[j] as int));
    }
    assert forall|c: Rgb| #[trigger]
        bucket_count(pixels, ignore_black, bucket_size, c) > 0 implies holds(palette, c) || (
    palette.len() == k && palette[k - 1].ranks_before(
        (WeightedColor {
            color: c,
            count: bucket_count(pixels, ignore_black, bucket_size, c) as u64,
            total: total as u64,
        }),
    )) by {
        let cell = cell_index(c, bucket_size);
        assert(0 <= cell < CELLS && hist[cell] > 0);
        if picked(cells, cell) {
            assert(holds(palette, c));
        } else {
            assert(cells.len() == k && cell_before(hist, cells[k - 1] as int, cell));
            assert(palette[k - 1].total == total);
        }
    }
    if covers(pixels, ignore_black, bucket_size, palette) {
        assert forall|c: int| 0 <= c < CELLS && hist[c] > 0 implies #[trigger] picked(cells, c) by {
            let color = cell_color(c, bucket_size);
            assert(bucket_count(pixels, ignore_black, bucket_size, color) > 0);
            assert(holds(palette, color));
        }
    }
    assert(palette[0].total == total);
}

/// The midpoint of a bucket.
fn midpoint_of(index: u8, bucket_size: u8) -> (out: u8)
    requires
        index < 16,
    ensures
        out == midpoint(index as int, bucket_size),
{
    assert(index * bucket_size <= 15 * 255) by (nonlinear_arith)
        requires
            0 <= index <= 15,
            0 <= bucket_size <= 255,
    ;
    let q: u16 = index as u16 * bucket_size as u16 + (bucket_size / 2) as u16;
    if q > 255 {
        255
    } else {
        q as u8
    }
}

/// The palette holds the colour `c`.
pub open spec fn holds(palette: Seq<WeightedColor>, c: Rgb) -> bool {
    exists|i: int| 0 <= i < palette.len() && (#[trigger] palette[i]).color == c
}

/// Where pixels are counted, one cell holds something.
proof fn lemma_some_cell(pixels: Seq<Rgb>, ignore_black: bool, bucket_size: u8)
    requires
        bucket_size >= 16,
        considered_count(pixels, ignore_black) > 0,
    ensures
        exists|c: int|
            0 <= c < CELLS && #[trigger] cell_count(pixels, ignore_black, bucket_size, c) > 0,
    decreases pixels.len(),
{
    if pixels.len() > 0 {
        if considered(pixels.last(), ignore_black) {
            lemma_cell(pixels.last(), bucket_size);
            assert(cell_count(
                pixels,
                ignore_black,
                bucket_size,
                cell_index(pixels.last(), bucket_size),
            ) > 0);
        } else {
            lemma_some_cell(pixels.drop_last(), ignore_black, bucket_size);
            let c = choose|c: int|
                0 <= c < CELLS && #[trigger] cell_count(
                    pixels.drop_last(),
                    ignore_black,
                    bucket_size,
                    c,
                ) > 0;
            assert(cell_count(pixels, ignore_black, bucket_size, c) > 0);
        }
    }
}

/// What the cells that were selected say of the palette made from them.
proof fn lemma_palette_of_cells(
    pixels: Seq<Rgb>,
    ignore_black: bool,
    bucket_size: u8,
    hist: Seq<u64>,
    cells: Seq<usize>,
    palette: Seq<WeightedColor>,
)
    requires
        bucket_size >= 16,
        hist.len() == CELLS,
        palette.len() == cells.len(),
        forall|c: int|
            0 <= c < CELLS ==> hist[c] as nat == cell_count(pixels, ignore_black, bucket_size, c),
        forall|j: int| 0 <= j < cells.len() ==> cells[j] < CELLS && hist[cells[j] as int] > 0,
        forall|j: int|
            0 <= j < cells.len() ==> {
                &&& (#[trigger] palette[j]).count == hist[cells[j] as int]
                &&& palette[j].color == cell_color(cells[j] as int, bucket_size)
            },
    ensures
        forall|j: int|
            0 <= j < cells.len() ==> {
                &&& quantized((#[trigger] palette[j]).color, bucket_size) == palette[j].color
                &&& cell_index(palette[j].color, bucket_size) == cells[j]
                &&& palette[j].count == bucket_count(
                    pixels,
                    ignore_black,
                    bucket_size,
                    palette[j].color,
                )
            },
        forall|i: int, j: int|
            0 <= i < cells.len() && 0 <= j < cells.len() && cell_before(
                hist,
                cells[i] as int,
                cells[j] as int,
            ) ==> palette[i].ranks_before(palette[j]),
        forall|c: Rgb| #[trigger]
            bucket_count(pixels, ignore_black, bucket_size, c) > 0 ==> {
                &&& quantized(c, bucket_size) == c
                &&& 0 <= cell_index(c, bucket_size) < CELLS
                &&& hist[cell_index(c, bucket_size)] == bucket_count(
                    pixels,
                    ignore_black,
                    bucket_size,
                    c,
                )
                &&& (picked(cells, cell_index(c, bucket_size)) ==> holds(palette, c))
                &&& forall|i: int|
                    0 <= i < cells.len() && cell_before(
                        hist,
                        cells[i] as int,
                        cell_index(c, bucket_size),
                    ) ==> (#[trigger] palette[i]).ranks_before(
                        (WeightedColor {
                            color: c,
                            count: bucket_count(pixels, ignore_black, bucket_size, c) as u64,
                            total: palette[i].total,
                        }),
                    )
            },
        forall|c: int|
            0 <= c < CELLS && hist[c] > 0 && holds(palette, cell_color(c, bucket_size)) ==> picked(
                cells,
                c,
            ),
        forall|c: int|
            0 <= c < CELLS && hist[c] > 0 ==> bucket_count(
                pixels,
                ignore_black,
                bucket_size,
                cell_color(c, bucket_size),
            ) > 0,
{
    assert forall|j: int| 0 <= j < cells.len() implies {
        &&& quantized((#[trigger] palette[j]).color, bucket_size) == palette[j].color
        &&& cell_index(palette[j].color, bucket_size) == cells[j]
        &&& palette[j].count == bucket_count(pixels, ignore_black, bucket_size, palette[j].color)
    } by {
        lemma_cell_is_bucket(pixels, ignore_black, bucket_size, cells[j] as int);
        lemma_bucket_is_cell(pixels, ignore_black, bucket_size, palette[j].color);
    }
    assert forall|i: int, j: int|
        0 <= i < cells.len() && 0 <= j < cells.len() && cell_before(
            hist,
            cells[i] as int,
            cells[j] as int,
        ) implies palette[i].ranks_before(palette[j]) by {
        lemma_cell_order(palette[i].color, palette[j].color, bucket_size);
    }
    assert forall|c: Rgb| #[trigger]
        bucket_count(pixels, ignore_black, bucket_size, c) > 0 implies {
        &&& quantized(c, bucket_size) == c
        &&& 0 <= cell_index(c, bucket_size) < CELLS
        &&& hist[cell_index(c, bucket_size)] == bucket_count(pixels, ignore_black, bucket_size, c)
        &&& (picked(cells, cell_index(c, bucket_size)) ==> holds(palette, c))
        &&& forall|i: int|
            0 <= i < cells.len() && cell_before(hist, cells[i] as int, cell_index(c, bucket_size))
                ==> (#[trigger] palette[i]).ranks_before(
                (WeightedColor {
                    color: c,
                    count: bucket_count(pixels, ignore_black, bucket_size, c) as u64,
                    total: palette[i].total,
                }),
            )
    } by {
        lemma_bucket_is_quantized(pixels, ignore_black, bucket_size, c);
        lemma_cell(c, bucket_size);
        lemma_bucket_is_cell(pixels, ignore_black, bucket_size, c);
        if picked(cells, cell_index(c, bucket_size)) {
            let i = choose|i: int| 0 <= i < cells.len() && cells[i] == cell_index(c, bucket_size);
            lemma_cell_order(palette[i].color, c, bucket_size);
            assert(palette[i].color == c);
        }
        assert forall|i: int|
            0 <= i < cells.len() && cell_before(
                hist,
                cells[i] as int,
                cell_index(c, bucket_size),
            ) implies (#[trigger] palette[i]).ranks_before(
            (WeightedColor {
                color: c,
                count: bucket_count(pixels, ignore_black, bucket_size, c) as u64,
                total: palette[i].total,
            }),
        ) by {
            lemma_cell_order(palette[i].color, c, bucket_size);
        }
    }
    assert forall|c: int|
        0 <= c < CELLS && hist[c] > 0 && holds(palette, cell_color(c, bucket_size)) implies picked(
        cells,
        c,
    ) by {
        lemma_cell_is_bucket(pixels, ignore_black, bucket_size, c);
        let i = choose|i: int|
            0 <= i < palette.len() && (#[trigger] palette[i]).color == cell_color(c, bucket_size);
        assert(cells[i] == c);
    }
    assert forall|c: int| 0 <= c < CELLS && hist[c] > 0 implies bucket_count(
        pixels,
        ignore_black,
        bucket_size,
        cell_color(c, bucket_size),
    ) > 0 by {
        lemma_cell_is_bucket(pixels, ignore_black, bucket_size, c);
        lemma_bucket_is_cell(pixels, ignore_black, bucket_size, cell_color(c, bucket_size));
    }
}

/// Where every pixel is counted, the number of counted pixels is the number
/// of pixels.
pub proof fn lemma_all_considered(pixels: Seq<Rgb>, ignore_black: bool)
    requires
        ignore_black ==> forall|i: int| 0 <= i < pixels.len() ==> !(#[trigger] pixels[i]).is_black(),
    ensures
        considered_count(pixels, ignore_black) == pixels.len(),
    decreases pixels.len(),
{
    if pixels.len() > 0 {
        let shorter = pixels.drop_last();
        assert forall|i: int| 0 <= i < shorter.len() implies !(ignore_black && (
        #[trigger] shorter[i]).is_black()) by {
            assert(shorter[i] == pixels[i]);
        }
        lemma_all_considered(shorter, ignore_black);
        assert(considered(pixels.last(), ignore_black)) by {
            assert(pixels.last() == pixels[pixels.len() - 1]);
        }
    }
}

/// The frequencies of a palette add up to the fraction of the pixels that
/// were counted, where nothing was cut off and no pixel was left out: the
/// counts add up to the number of pixels, and that number is the total of
/// each colour.
pub proof fn lemma_frequencies_add_up(
    pixels: Seq<Rgb>,
    ignore_black: bool,
    bucket_size: u8,
    palette_size: nat,
    palette: Seq<WeightedColor>,
)
    requires
        is_palette_of(pixels, ignore_black, bucket_size, palette_size, palette),
        covers(pixels, ignore_black, bucket_size, palette),
        ignore_black ==> forall|i: int| 0 <= i < pixels.len() ==> !(#[trigger] pixels[i]).is_black(),
    ensures
        palette.len() <= palette_size,
        count_sum(palette) == pixels.len(),
        forall|i: int| 0 <= i < palette.len() ==> (#[trigger] palette[i]).total == pixels.len(),
{
    lemma_all_considered(pixels, ignore_black);
}

/// Of two palettes of the same pixels that agree before place `i`, the
/// second holds at place `i` the colour of the first or one that comes
/// before it.
proof fn lemma_not_after(
    pixels: Seq<Rgb>,
    ignore_black: bool,
    bucket_size: u8,
    palette_size: nat,
    p1: Seq<WeightedColor>,
    p2: Seq<WeightedColor>,
    i: int,
)
    requires
        is_palette_of(pixels, ignore_black, bucket_size, palette_size, p1),
        is_palette_of(pixels, ignore_black, bucket_size, palette_size, p2),
        0 <= i < p1.len(),
        i < p2.len(),
        forall|j: int| 0 <= j < i ==> p1[j] == p2[j],
    ensures
        p1[i] == p2[i] || p2[i].ranks_before(p1[i]),
{
    let c = p1[i].color;
    assert(bucket_count(pixels, ignore_black, bucket_size, c) > 0);
    if holds(p2, c) {
        let j = choose|j: int| 0 <= j < p2.len() && (#[trigger] p2[j]).color == c;
        assert(p2[j] == p1[i]);
        if j < i {
            assert(p1[j].ranks_before(p1[i]));
        } else if j > i {
            assert(p2[i].ranks_before(p2[j]));
        }
    } else {
        assert(p2[palette_size - 1].ranks_before(p1[i]));
        if i < palette_size - 1 {
            assert(p2[i].ranks_before(p2[palette_size - 1]));
        }
    }
}

/// Two palettes of the same pixels agree at their first `n` places.
proof fn lemma_palette_prefix(
    pixels: Seq<Rgb>,
    ignore_black: bool,
    bucket_size: u8,
    palette_size: nat,
    p1: Seq<WeightedColor>,
    p2: Seq<WeightedColor>,
    n: nat,
)
    requires
        is_palette_of(pixels, ignore_black, bucket_size, palette_size, p1),
        is_palette_of(pixels, ignore_black, bucket_size, palette_size, p2),
        n <= p1.len(),
        n <= p2.len(),
    ensures
        forall|j: int| 0 <= j < n ==> p1[j] == p2[j],
    decreases n,
{
    if n > 0 {
        lemma_palette_prefix(
            pixels,
            ignore_black,
            bucket_size,
            palette_size,
            p1,
            p2,
            (n - 1) as nat,
        );
        lemma_not_after(pixels, ignore_black, bucket_size, palette_size, p1, p2, n - 1);
        lemma_not_after(pixels, ignore_black, bucket_size, palette_size, p2, p1, n - 1);
    }
}

/// Of two palettes of the same pixels the first is no shorter than the second.
proof fn lemma_no_shorter(
    pixels: Seq<Rgb>,
    ignore_black: bool,
    bucket_size: u8,
    palette_size: nat,
    p1: Seq<WeightedColor>,
    p2: Seq<WeightedColor>,
)
    requires
        is_palette_of(pixels, ignore_black, bucket_size, palette_size, p1),
        is_palette_of(pixels, ignore_black, bucket_size, palette_size, p2),
    ensures
        p1.len() >= p2.len(),
{
    if p1.len() < p2.len() {
        let n = p1.len();
        lemma_palette_prefix(pixels, ignore_black, bucket_size, palette_size, p1, p2, n);
        let c = p2[n as int].color;
        assert(bucket_count(pixels, ignore_black, bucket_size, c) > 0);
        assert(holds(p1, c));
        let j = choose|j: int| 0 <= j < p1.len() && (#[trigger] p1[j]).color == c;
        assert(p2[j] == p1[j]);
        assert(p2[j].ranks_before(p2[n as int]));
    }
}

/// The pixels have one palette only: what `get_palette` returns is
/// determined by its arguments.
pub proof fn lemma_palette_unique(
    pixels: Seq<Rgb>,
    ignore_black: bool,
    bucket_size: u8,
    palette_size: nat,
    p1: Seq<WeightedColor>,
    p2: Seq<WeightedColor>,
)
    requires
        is_palette_of(pixels, ignore_black, bucket_size, palette_size, p1),
        is_palette_of(pixels, ignore_black, bucket_size, palette_size, p2),
    ensures
        p1 == p2,
{
    lemma_no_shorter(pixels, ignore_black, bucket_size, palette_size, p1, p2);
    lemma_no_shorter(pixels, ignore_black, bucket_size, palette_size, p2, p1);
    lemma_palette_prefix(pixels, ignore_black, bucket_size, palette_size, p1, p2, p1.len());
    assert(p1 =~= p2);
}

} // verus!
