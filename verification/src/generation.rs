//! The generations that a user asks for: a single one (`3`), a range
//! (`1-3`) or a list (`1,2,4`).
use vstd::prelude::*;
use crate::text::{chars_of, find, number_of, parse_number, parse_trimmed, position, trim};

verus! {

/// The first generation.
pub const MIN_GEN: u8 = 1;

/// The last generation.
pub const MAX_GEN: u8 = 9;

/// Why a text names no generations.
#[derive(Debug, Clone, Copy, PartialEq, Eq, Structural)]
pub enum GenError {
    /// A range with more than one hyphen.
    TooManyParts,
    /// The start of a range is no number.
    InvalidStart,
    /// The end of a range is no number.
    InvalidEnd,
    /// The start of a range is not below its end.
    EmptyRange,
    /// A generation is no number.
    InvalidNumber,
    /// The generation is not between `MIN_GEN` and `MAX_GEN`.
    OutOfRange(u8),
}

/// The numbers of a list: the texts between the commas, each without the
/// white space around it; `None` where one of them is no number.
pub open spec fn list_of(s: Seq<char>) -> Option<Seq<u8>>
    decreases s.len(),
{
    let i = position(s, ',');
    if 0 <= i < s.len() {
        match (number_of(trim(s.take(i))), list_of(s.skip(i + 1))) {
            (Some(g), Some(rest)) => Some(seq![g] + rest),
            _ => None,
        }
    } else {
        match number_of(trim(s)) {
            Some(g) => Some(seq![g]),
            None => None,
        }
    }
}

/// The numbers from `a` to `b`, both included.
pub open spec fn span(a: u8, b: u8) -> Seq<u8> {
    Seq::new((b - a + 1) as nat, |i: int| (a + i) as u8)
}

/// The generation is one that exists.
pub open spec fn in_range(g: u8) -> bool {
    MIN_GEN <= g <= MAX_GEN
}

/// The generations, where each of them exists; else the first that does not.
pub open spec fn checked(gens: Seq<u8>) -> Result<Seq<u8>, GenError> {
    if forall|i: int| 0 <= i < gens.len() ==> in_range(#[trigger] gens[i]) {
        Ok(gens)
    } else {
        let i = choose|i: int|
            0 <= i < gens.len() && !in_range(#[trigger] gens[i]) && forall|k: int|
                0 <= k < i ==> in_range(#[trigger] gens[k]);
        Err(GenError::OutOfRange(gens[i]))
    }
}

/// The generations that a text names.
pub open spec fn generations(s: Seq<char>) -> Result<Seq<u8>, GenError> {
    let hyphen = position(s, '-');
    if hyphen < s.len() {
        let head = s.take(hyphen);
        let tail = s.skip(hyphen + 1);
        if position(tail, '-') < tail.len() {
            Err(GenError::TooManyParts)
        } else {
            match number_of(head) {
                None => Err(GenError::InvalidStart),
                Some(start) => match number_of(tail) {
                    None => Err(GenError::InvalidEnd),
                    Some(end) => if start >= end {
                        Err(GenError::EmptyRange)
                    } else {
                        checked(span(start, end))
                    },
                },
            }
        }
    } else if position(s, ',') < s.len() {
        match list_of(s) {
            None => Err(GenError::InvalidNumber),
            Some(gens) => checked(gens),
        }
    } else {
        match number_of(s) {
            None => Err(GenError::InvalidNumber),
            Some(g) => checked(seq![g]),
        }
    }
}

/// Reads the numbers of a list that starts at `from`.
pub fn parse_list(text: &Vec<char>, from: usize) -> (out: Option<Vec<u8>>)
    requires
        from <= text.len(),
    ensures
        match out {
            Some(gens) => list_of(text@.skip(from as int)) == Some(gens@),
            None => list_of(text@.skip(from as int)) is None,
        },
    decreases text.len() - from,
{
    let n = text.len();
    let ghost s = text@.skip(from as int);
    assert(s =~= text@.subrange(from as int, n as int));
    let comma = find(text, from, n, ',');
    proof {
        assert(s.take(comma - from) =~= text@.subrange(from as int, comma as int));
    }
    let first = parse_trimmed(text, from, comma);
    if comma < n {
        proof {
            assert(s.skip(comma - from + 1) =~= text@.skip(comma + 1));
        }
        match first {
            Some(g) => match parse_list(text, comma + 1) {
                Some(rest) => {
                    let mut gens: Vec<u8> = Vec::new();
                    gens.push(g);
                    let mut rest = rest;
                    let ghost tail = rest@;
                    gens.append(&mut rest);
                    assert(gens@ =~= seq![g] + tail);
                    Some(gens)
                },
                None => None,
            },
            None => None,
        }
    } else {
        proof {
            assert(s.take(comma - from) =~= s);
        }
        match first {
            Some(g) => {
                let mut gens: Vec<u8> = Vec::new();
                gens.push(g);
                assert(gens@ =~= seq![g]);
                Some(gens)
            },
            None => None,
        }
    }
}

/// The numbers from `a` to `b`, both included.
pub fn numbers(a: u8, b: u8) -> (out: Vec<u8>)
    requires
        a <= b,
    ensures
        out@ == span(a, b),
{
    let mut out: Vec<u8> = Vec::new();
    let mut g: u8 = a;
    out.push(a);
    while g < b
        invariant
            a <= g <= b,
            out.len() == g - a + 1,
            forall|i: int| 0 <= i < out.len() ==> out[i] == a + i,
        decreases b - g,
    {
        g = g + 1;
        out.push(g);
    }
    assert(out@ =~= span(a, b));
    out
}

/// The generations, where each of them exists; else the first that does not.
pub fn check(gens: Vec<u8>) -> (out: Result<Vec<u8>, GenError>)
    ensures
        match out {
            Ok(kept) => checked(gens@) == Ok::<Seq<u8>, GenError>(kept@),
            Err(e) => checked(gens@) == Err::<Seq<u8>, GenError>(e),
        },
{
    let mut i: usize = 0;
    while i < gens.len()
        invariant
            i <= gens.len(),
            forall|k: int| 0 <= k < i ==> in_range(#[trigger] gens[k]),
        decreases gens.len() - i,
    {
        let g = gens[i];
        if g < MIN_GEN || g > MAX_GEN {
            proof {
                let w = choose|w: int|
                    0 <= w < gens@.len() && !in_range(#[trigger] gens@[w]) && forall|k: int|
                        0 <= k < w ==> in_range(#[trigger] gens@[k]);
                assert(0 <= i < gens@.len() && !in_range(gens@[i as int]) && forall|k: int|
                    0 <= k < i ==> in_range(#[trigger] gens@[k]));
                if w < i {
                    assert(in_range(gens@[w]));
                } else if i < w {
                    assert(in_range(gens@[i as int]));
                }
            }
            return Err(GenError::OutOfRange(g));
        }
        i = i + 1;
    }
    Ok(gens)
}

/// The generations that a text names: a single one, a range with a hyphen,
/// or a list with commas.
pub fn parse_generation(gen_str: &str) -> (out: Result<Vec<u8>, GenError>)
    ensures
        match out {
            Ok(gens) => generations(gen_str@) == Ok::<Seq<u8>, GenError>(gens@),
            Err(e) => generations(gen_str@) == Err::<Seq<u8>, GenError>(e),
        },
{
    let text = chars_of(gen_str);
    let n = text.len();
    assert(text@.subrange(0, n as int) =~= text@);
    let hyphen = find(&text, 0, n, '-');
    if hyphen < n {
        proof {
            assert(text@.take(hyphen as int) =~= text@.subrange(0, hyphen as int));
            assert(text@.skip(hyphen + 1) =~= text@.subrange(hyphen + 1, n as int));
        }
        let second = find(&text, hyphen + 1, n, '-');
        if second < n {
            return Err(GenError::TooManyParts);
        }
        let start = match parse_number(&text, 0, hyphen) {
            Some(start) => start,
            None => {
                return Err(GenError::InvalidStart);
            },
        };
        let end = match parse_number(&text, hyphen + 1, n) {
            Some(end) => end,
            None => {
                return Err(GenError::InvalidEnd);
            },
        };
        if start >= end {
            return Err(GenError::EmptyRange);
        }
        check(numbers(start, end))
    } else {
        let comma = find(&text, 0, n, ',');
        if comma < n {
            assert(text@.skip(0) =~= text@);
            match parse_list(&text, 0) {
                Some(gens) => check(gens),
                None => Err(GenError::InvalidNumber),
            }
        } else {
            match parse_number(&text, 0, n) {
                Some(g) => {
                    let mut gens: Vec<u8> = Vec::new();
                    gens.push(g);
                    assert(gens@ =~= seq![g]);
                    check(gens)
                },
                None => Err(GenError::InvalidNumber),
            }
        }
    }
}

} // verus!
