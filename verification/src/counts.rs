//! How often each colour occurs in the palettes of a catalogue.
use vstd::prelude::*;
use crate::palette::Palette;
use crate::rank::{is_ranking, sort_by_distance, Ranked};
use crate::rgb::Rgb;

verus! {

/// `i` is the place of the colour `c` in a tally, or the length of the tally
/// where it is not there.
pub open spec fn is_place(tally: Seq<(Rgb, u32)>, c: Rgb, i: int) -> bool {
    &&& 0 <= i <= tally.len()
    &&& forall|k: int| 0 <= k < i ==> (#[trigger] tally[k]).0 != c
    &&& i < tally.len() ==> tally[i].0 == c
}

/// The place of the colour `c` in a tally, or the length of the tally where
/// it is not there.
pub open spec fn place(tally: Seq<(Rgb, u32)>, c: Rgb) -> int {
    choose|i: int| is_place(tally, c, i)
}

/// The place of a colour is the one place that holds it and has none before it.
pub proof fn lemma_place_is(tally: Seq<(Rgb, u32)>, c: Rgb, i: int)
    requires
        is_place(tally, c, i),
    ensures
        place(tally, c) == i,
{
    let j = place(tally, c);
    assert(is_place(tally, c, j));
    if j < i {
        assert(tally[j].0 != c);
    } else if i < j {
        assert(tally[i].0 != c);
    }
}

/// Every colour has a place in a tally.
pub proof fn lemma_place_exists(tally: Seq<(Rgb, u32)>, c: Rgb)
    ensures
        is_place(tally, c, place(tally, c)),
    decreases tally.len(),
{
    if tally.len() == 0 {
        assert(is_place(tally, c, 0));
    } else {
        let shorter = tally.drop_last();
        lemma_place_exists(shorter, c);
        let p = place(shorter, c);
        assert forall|k: int| 0 <= k < p implies (#[trigger] tally[k]).0 != c by {
            assert(shorter[k] == tally[k]);
        }
        if p < shorter.len() {
            assert(shorter[p] == tally[p]);
            assert(is_place(tally, c, p));
        } else if tally.last().0 == c {
            assert(is_place(tally, c, tally.len() - 1));
        } else {
            assert(is_place(tally, c, tally.len() as int));
        }
    }
}

/// The tally of the first `n` colours: each colour that occurs among them,
/// in the order of its first occurrence, with the number of its occurrences.
pub open spec fn tally_of(colors: Seq<Rgb>, n: nat) -> Seq<(Rgb, u32)>
    decreases n,
{
    if n == 0 {
        Seq::empty()
    } else {
        let before = tally_of(colors, (n - 1) as nat);
        let c = colors[n - 1];
        let i = place(before, c);
        if i < before.len() {
            before.update(i, (c, (before[i].1 + 1) as u32))
        } else {
            before.push((c, 1u32))
        }
    }
}

/// No colour is counted more often than there are colours.
proof fn lemma_tally_bound(colors: Seq<Rgb>, n: nat)
    requires
        n <= u32::MAX,
    ensures
        forall|i: int|
            0 <= i < tally_of(colors, n).len() ==> (#[trigger] tally_of(colors, n)[i]).1 <= n,
    decreases n,
{
    if n > 0 {
        lemma_tally_bound(colors, (n - 1) as nat);
        let before = tally_of(colors, (n - 1) as nat);
        let now = tally_of(colors, n);
        let at = place(before, colors[n - 1]);
        lemma_place_exists(before, colors[n - 1]);
        assert forall|i: int| 0 <= i < now.len() implies (#[trigger] now[i]).1 <= n by {
            if at < before.len() {
                if i != at {
                    assert(now[i] == before[i]);
                } else {
                    assert(before[at].1 <= n - 1);
                }
            } else if i < before.len() {
                assert(now[i] == before[i]);
            }
        }
    }
}

/// The colours of the first `n` palettes, one palette after the other.
pub open spec fn all_colors(palettes: Seq<Palette>, n: nat) -> Seq<Rgb>
    decreases n,
{
    if n == 0 {
        Seq::empty()
    } else {
        all_colors(palettes, (n - 1) as nat) + palettes[n - 1].colors@
    }
}

/// The counts of a tally.
pub open spec fn keys(tally: Seq<(Rgb, u32)>) -> Seq<u64> {
    Seq::new(tally.len(), |i: int| tally[i].1 as u64)
}

/// The entries of a tally in the order of a ranking.
pub open spec fn ordered(tally: Seq<(Rgb, u32)>, ranking: Seq<Ranked>) -> Seq<(Rgb, u32)> {
    Seq::new(ranking.len(), |i: int| tally[ranking[i].index as int])
}

/// The colours of the palettes, one palette after the other.
pub fn gather(palettes: &Vec<Palette>) -> (out: Option<Vec<Rgb>>)
    ensures
        match out {
            Some(colors) => colors@ == all_colors(palettes@, palettes@.len()) && colors.len()
                <= u32::MAX,
            None => all_colors(palettes@, palettes@.len()).len() > u32::MAX,
        },
{
    let mut out: Vec<Rgb> = Vec::new();
    let mut i: usize = 0;
    while i < palettes.len()
        invariant
            i <= palettes.len(),
            out@ == all_colors(palettes@, i as nat),
            out.len() <= u32::MAX,
        decreases palettes.len() - i,
    {
        let palette = &palettes[i];
        let ghost before = out@;
        let mut j: usize = 0;
        while j < palette.colors.len()
            invariant
                j <= palette.colors.len(),
                i < palettes.len(),
                *palette == palettes[i as int],
                before == all_colors(palettes@, i as nat),
                out@ == before + palette.colors@.take(j as int),
                out.len() <= u32::MAX,
            decreases palette.colors.len() - j,
        {
            if out.len() >= u32::MAX as usize {
                proof {
                    lemma_all_colors_grow(palettes@, (i + 1) as nat, palettes@.len());
                }
                return None;
            }
            out.push(palette.colors[j]);
            assert(out@ =~= before + palette.colors@.take(j + 1));
            j = j + 1;
        }
        assert(palette.colors@.take(palette.colors@.len() as int) =~= palette.colors@);
        i = i + 1;
    }
    Some(out)
}

/// More palettes hold no fewer colours.
proof fn lemma_all_colors_grow(palettes: Seq<Palette>, n: nat, m: nat)
    requires
        n <= m,
    ensures
        all_colors(palettes, n).len() <= all_colors(palettes, m).len(),
    decreases m,
{
    if n < m {
        lemma_all_colors_grow(palettes, n, (m - 1) as nat);
    }
}

/// The tally of the colours: each colour that occurs, in the order of its
/// first occurrence, with the number of its occurrences.
pub fn tally(colors: &Vec<Rgb>) -> (out: Vec<(Rgb, u32)>)
    requires
        colors.len() <= u32::MAX,
    ensures
        out@ == tally_of(colors@, colors@.len()),
{
    let mut out: Vec<(Rgb, u32)> = Vec::new();
    let mut n: usize = 0;
    while n < colors.len()
        invariant
            n <= colors.len() <= u32::MAX,
            out@ == tally_of(colors@, n as nat),
        decreases colors.len() - n,
    {
        let c = colors[n];
        let mut i: usize = 0;
        while i < out.len() && !(out[i].0.r == c.r && out[i].0.g == c.g && out[i].0.b == c.b)
            invariant
                i <= out.len(),
                forall|k: int| 0 <= k < i ==> (#[trigger] out[k]).0 != c,
            decreases out.len() - i,
        {
            i = i + 1;
        }
        proof {
            lemma_place_is(out@, c, i as int);
            lemma_tally_bound(colors@, n as nat);
        }
        if i < out.len() {
            let count = out[i].1 + 1;
            out.set(i, (c, count));
        } else {
            out.push((c, 1));
        }
        n = n + 1;
    }
    out
}

/// The colours of the palettes with the number of their occurrences, the
/// rarest first; colours that occur equally often come in the order of their
/// first occurrence. `None` where there are more colours than a count holds.
pub fn get_color_counts(palettes: &Vec<Palette>) -> (out: Option<Vec<(Rgb, u32)>>)
    ensures
        match out {
            Some(counts) => {
                let found = tally_of(
                    all_colors(palettes@, palettes@.len()),
                    all_colors(palettes@, palettes@.len()).len(),
                );
                exists|ranking: Seq<Ranked>| #[trigger]
                    is_ranking(keys(found), ranking) && counts@ == ordered(found, ranking)
            },
            None => all_colors(palettes@, palettes@.len()).len() > u32::MAX,
        },
{
    let colors = match gather(palettes) {
        Some(colors) => colors,
        None => {
            return None;
        },
    };
    let found = tally(&colors);
    let mut counts: Vec<u64> = Vec::new();
    let mut i: usize = 0;
    while i < found.len()
        invariant
            i <= found.len(),
            counts.len() == i,
            forall|k: int| 0 <= k < i ==> counts[k] == found[k].1 as u64,
        decreases found.len() - i,
    {
        counts.push(found[i].1 as u64);
        i = i + 1;
    }
    assert(counts@ =~= keys(found@));
    let ranking = sort_by_distance(&counts);
    let mut out: Vec<(Rgb, u32)> = Vec::new();
    let mut j: usize = 0;
    while j < ranking.len()
        invariant
            j <= ranking.len(),
            out.len() == j,
            is_ranking(keys(found@), ranking@),
            forall|k: int| 0 <= k < j ==> out[k] == found[ranking[k].index as int],
        decreases ranking.len() - j,
    {
        assert(ranking[j as int].index < keys(found@).len());
        out.push(found[ranking[j].index]);
        j = j + 1;
    }
    assert(out@ =~= ordered(found@, ranking@));
    Some(out)
}

/// `out` is the run of entries with the count of the middle entry that ends
/// at the middle entry, from the middle entry downwards.
pub open spec fn is_median_run(counts: Seq<(Rgb, u32)>, out: Seq<(Rgb, u32)>) -> bool {
    let mid = counts.len() / 2;
    &&& 1 <= out.len() <= mid + 1
    &&& forall|j: int|
        0 <= j < out.len() ==> #[trigger] out[j] == counts[mid - j] && out[j].1 == counts[mid as int].1
    &&& out.len() <= mid ==> counts[mid - out.len()].1 != counts[mid as int].1
}

/// The entries that share the count of the middle entry and lie in one run
/// with it at or below the middle, from the middle downwards.
pub fn get_most_common_colors(color_counts: Vec<(Rgb, u32)>) -> (out: Vec<(Rgb, u32)>)
    requires
        color_counts.len() > 0,
    ensures
        is_median_run(color_counts@, out@),
{
    let mut median_counts: Vec<(Rgb, u32)> = Vec::new();
    let mid = color_counts.len() / 2;
    let median_value = color_counts[mid].1;
    median_counts.push(color_counts[mid]);
    let mut i: usize = mid;
    while i > 0 && color_counts[i - 1].1 == median_value
        invariant
            i <= mid < color_counts.len(),
            mid == color_counts.len() / 2,
            median_value == color_counts[mid as int].1,
            median_counts.len() == mid - i + 1,
            forall|j: int|
                0 <= j < median_counts.len() ==> #[trigger] median_counts[j] == color_counts[mid
                    - j] && median_counts[j].1 == median_value,
        decreases i,
    {
        i = i - 1;
        median_counts.push(color_counts[i]);
    }
    median_counts
}

/// Calls `rand::thread_rng` and `Rng::gen_range` for a place below `n`.
/// Claimed: the place is below `n`, as the range asks. The outside function
/// panics on an empty range.
#[verifier::external_body]
fn random_below(n: usize) -> (out: usize)
    requires
        n > 0,
    ensures
        out < n,
{
    rand::Rng::gen_range(&mut rand::thread_rng(), 0..n)
}

/// Adds to the palette the colour at place `at` of the pool.
pub fn add_from_pool(palette: &mut Palette, pool: &Vec<(Rgb, u32)>, at: usize)
    requires
        at < pool.len(),
    ensures
        final(palette).colors@ == old(palette).colors@.push(pool[at as int].0),
{
    palette.colors.push(pool[at].0);
}

/// The colour is one of the pool.
pub open spec fn in_pool(pool: Seq<(Rgb, u32)>, c: Rgb) -> bool {
    exists|i: int| 0 <= i < pool.len() && (#[trigger] pool[i]).0 == c
}

/// Fills the palette up to `size` colours with colours of the pool that are
/// picked at random; a palette that is long enough stays as it is.
pub fn pad_with_random_colors(palette: &mut Palette, size: usize, pool: &Vec<(Rgb, u32)>)
    requires
        pool.len() > 0,
    ensures
        final(palette).colors@.len() == (if old(palette).colors@.len() >= size {
            old(palette).colors@.len()
        } else {
            size as nat
        }),
        final(palette).colors@.take(old(palette).colors@.len() as int) == old(palette).colors@,
        forall|i: int|
            old(palette).colors@.len() <= i < final(palette).colors@.len() ==> in_pool(
                pool@,
                #[trigger] final(palette).colors@[i],
            ),
{
    let ghost given = palette.colors@;
    assert(palette.colors@.take(given.len() as int) =~= given);
    while palette.colors.len() < size
        invariant
            pool.len() > 0,
            given.len() <= palette.colors@.len(),
            given.len() >= size ==> palette.colors@.len() == given.len(),
            given.len() < size ==> palette.colors@.len() <= size,
            palette.colors@.take(given.len() as int) == given,
            forall|i: int|
                given.len() <= i < palette.colors@.len() ==> in_pool(
                    pool@,
                    #[trigger] palette.colors@[i],
                ),
        decreases size - palette.colors.len(),
    {
        let at = random_below(pool.len());
        let ghost before = palette.colors@;
        add_from_pool(palette, pool, at);
        proof {
            assert(palette.colors@.take(given.len() as int) =~= before.take(given.len() as int));
            assert forall|i: int| given.len() <= i < palette.colors@.len() implies in_pool(
                pool@,
                #[trigger] palette.colors@[i],
            ) by {
                if i < before.len() {
                    assert(palette.colors@[i] == before[i]);
                } else {
                    assert(pool@[at as int].0 == palette.colors@[i]);
                }
            }
        }
    }
}

} // verus!
