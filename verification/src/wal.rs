//! Colour schemes that a theme generator wrote down: a text of lines, each
//! with the red, green and blue of a colour, separated by commas.
use vstd::prelude::*;
use crate::colorscheme::ColorScheme;
use crate::rgb::Rgb;
use crate::text::{chars_of, find, number_of, parse_trimmed, position, trim};

verus! {

/// The channel that a part of a line stands for: its number, or 0 where it
/// is none.
pub open spec fn channel_or_zero(part: Seq<char>) -> u8 {
    match number_of(trim(part)) {
        Some(v) => v,
        None => 0,
    }
}

/// The colour that a line stands for: its first three parts between commas
/// are the channels. `None` where the line has fewer than three parts.
pub open spec fn line_color(line: Seq<char>) -> Option<Rgb> {
    let first = position(line, ',');
    if first >= line.len() {
        None
    } else {
        let rest = line.skip(first + 1);
        let second = position(rest, ',');
        if second >= rest.len() {
            None
        } else {
            let last = rest.skip(second + 1);
            Some(
                Rgb {
                    r: channel_or_zero(line.take(first)),
                    g: channel_or_zero(rest.take(second)),
                    b: channel_or_zero(last.take(position(last, ','))),
                },
            )
        }
    }
}

/// The channel that the part of a line between `from` and `to` stands for.
fn channel(text: &Vec<char>, from: usize, to: usize) -> (out: u8)
    requires
        from <= to <= text.len(),
    ensures
        out == channel_or_zero(text@.subrange(from as int, to as int)),
{
    match parse_trimmed(text, from, to) {
        Some(v) => v,
        None => 0,
    }
}

/// The colour that the line between `from` and `to` stands for.
fn color_in(text: &Vec<char>, from: usize, to: usize) -> (out: Option<Rgb>)
    requires
        from <= to <= text.len(),
    ensures
        out == line_color(text@.subrange(from as int, to as int)),
{
    let ghost line = text@.subrange(from as int, to as int);
    let first = find(text, from, to, ',');
    if first >= to {
        return None;
    }
    let ghost rest = line.skip(first - from + 1);
    assert(rest =~= text@.subrange(first + 1, to as int));
    let second = find(text, first + 1, to, ',');
    if second >= to {
        return None;
    }
    let ghost last = rest.skip(second - first);
    assert(last =~= text@.subrange(second + 1, to as int));
    let third = find(text, second + 1, to, ',');
    proof {
        assert(line.take(first - from) =~= text@.subrange(from as int, first as int));
        assert(rest.take(second - first - 1) =~= text@.subrange(first + 1, second as int));
        assert(last.take(third - second - 1) =~= text@.subrange(second + 1, third as int));
    }
    Some(
        Rgb {
            r: channel(text, from, first),
            g: channel(text, first + 1, second),
            b: channel(text, second + 1, third),
        },
    )
}

/// The colour that a line stands for.
pub fn wal_color(line: &str) -> (out: Option<Rgb>)
    ensures
        out == line_color(line@),
{
    let text = chars_of(line);
    assert(text@.subrange(0, text@.len() as int) =~= text@);
    color_in(&text, 0, text.len())
}

/// The first line of a text: what comes before its first line feed, or all
/// of it where it has none. A carriage return stays with its line.
pub open spec fn first_line(text: Seq<char>) -> Seq<char> {
    text.take(position(text, '\n'))
}

/// What follows the first line of a text and its line feed.
pub open spec fn after_first_line(text: Seq<char>) -> Seq<char> {
    if position(text, '\n') < text.len() {
        text.skip(position(text, '\n') + 1)
    } else {
        Seq::empty()
    }
}

/// Both sequences of colours, one after the other, where both are there.
pub open spec fn joined(a: Option<Seq<Rgb>>, b: Option<Seq<Rgb>>) -> Option<Seq<Rgb>> {
    match (a, b) {
        (Some(x), Some(y)) => Some(x + y),
        _ => None,
    }
}

/// The colours that the first `n` lines of a text stand for, or those of all
/// its lines where they are fewer; `None` where one of these lines stands
/// for none. A text that ends in a line feed has no line after it.
pub open spec fn text_colors(text: Seq<char>, n: nat) -> Option<Seq<Rgb>>
    decreases n,
{
    if n == 0 || text.len() == 0 {
        Some(Seq::empty())
    } else {
        joined(
            match line_color(first_line(text)) {
                Some(c) => Some(seq![c]),
                None => None,
            },
            text_colors(after_first_line(text), (n - 1) as nat),
        )
    }
}

/// The scheme of the colours that the first `n` lines of a text stand for.
/// `None` where one of these lines has fewer than three parts.
pub fn get_wal_scheme(contents: &str, n: usize) -> (out: Option<ColorScheme>)
    ensures
        match out {
            Some(scheme) => text_colors(contents@, n as nat) == Some(scheme@),
            None => text_colors(contents@, n as nat) is None,
        },
{
    let text = chars_of(contents);
    let len = text.len();
    let mut colors: Vec<Rgb> = Vec::new();
    let mut from: usize = 0;
    let mut count: usize = 0;
    assert(text@.skip(0) =~= text@);
    assert(Seq::<Rgb>::empty() + text_colors(text@, n as nat)->0 =~= text_colors(text@, n as nat)->0);
    while count < n && from < len
        invariant
            count <= n,
            from <= len,
            len == text.len(),
            text@ == contents@,
            text_colors(contents@, n as nat) == joined(
                Some(colors@),
                text_colors(text@.skip(from as int), (n - count) as nat),
            ),
        decreases n - count,
    {
        let ghost here = text@.skip(from as int);
        assert(here =~= text@.subrange(from as int, len as int));
        let end = find(&text, from, len, '\n');
        proof {
            assert(first_line(here) =~= text@.subrange(from as int, end as int));
            if end < len {
                assert(after_first_line(here) =~= text@.skip(end + 1));
            } else {
                assert(after_first_line(here) =~= text@.skip(len as int));
            }
        }
        let next = if end < len {
            end + 1
        } else {
            len
        };
        match color_in(&text, from, end) {
            Some(c) => {
                let ghost before = colors@;
                colors.push(c);
                proof {
                    let rest = text_colors(text@.skip(next as int), (n - count - 1) as nat);
                    if rest is Some {
                        assert(before + (seq![c] + rest->0) =~= colors@ + rest->0);
                    }
                }
            },
            None => {
                return None;
            },
        }
        from = next;
        count = count + 1;
    }
    proof {
        let rest = text_colors(text@.skip(from as int), (n - count) as nat);
        assert(rest == Some(Seq::<Rgb>::empty()));
        assert(colors@ + Seq::<Rgb>::empty() =~= colors@);
    }
    Some(ColorScheme::new(colors))
}

} // verus!
