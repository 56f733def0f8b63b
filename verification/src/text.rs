//! Texts: suffixes, white space, separators, and numbers written in
//! decimal digits.
use vstd::prelude::*;
use vstd::string::{StrSliceExecFns, StringExecFns};

verus! {

/// `s` ends in `suffix`.
pub open spec fn ends_with(s: Seq<char>, suffix: Seq<char>) -> bool {
    s.len() >= suffix.len() && s.subrange(s.len() - suffix.len(), s.len() as int) == suffix
}

/// `s` without its last `n` characters.
pub open spec fn without_last(s: Seq<char>, n: nat) -> Seq<char> {
    s.subrange(0, s.len() - n)
}

/// Whether `name` ends in `suffix`.
pub fn has_suffix(name: &str, suffix: &str) -> (out: bool)
    ensures
        out == ends_with(name@, suffix@),
{
    let n = name.unicode_len();
    let m = suffix.unicode_len();
    if n < m {
        return false;
    }
    let mut k: usize = 0;
    while k < m
        invariant
            k <= m <= n,
            n == name@.len(),
            m == suffix@.len(),
            forall|i: int| 0 <= i < k ==> name@[n - m + i] == suffix@[i],
        decreases m - k,
    {
        if name.get_char(n - m + k) != suffix.get_char(k) {
            assert(name@.subrange(n - m, n as int)[k as int] != suffix@[k as int]);
            return false;
        }
        k = k + 1;
    }
    assert(name@.subrange(n - m, n as int) =~= suffix@);
    true
}

/// The name without the suffix, where it ends in the suffix.
pub fn strip(name: &str, suffix: &str) -> (out: Option<String>)
    ensures
        match out {
            Some(rest) => ends_with(name@, suffix@) && rest@ == without_last(
                name@,
                suffix@.len(),
            ),
            None => !ends_with(name@, suffix@),
        },
{
    if has_suffix(name, suffix) {
        let n = name.unicode_len();
        let m = suffix.unicode_len();
        Some(String::from_str(name.substring_char(0, n - m)))
    } else {
        None
    }
}

/// The number that a decimal digit stands for.
pub open spec fn digit_value(c: char) -> int {
    c as int - 48
}

/// The character is a decimal digit of ASCII.
pub open spec fn is_digit(c: char) -> bool {
    48 <= c as int <= 57
}

/// The number that a sequence of decimal digits stands for.
pub open spec fn digits_value(s: Seq<char>) -> int
    decreases s.len(),
{
    if s.len() == 0 {
        0
    } else {
        digits_value(s.drop_last()) * 10 + digit_value(s.last())
    }
}

/// The channel value that a text stands for: the text is made of one or more
/// decimal digits of ASCII, and the number is at most 255.
pub open spec fn channel_of(s: Seq<char>) -> Option<u8> {
    if s.len() > 0 && (forall|i: int| 0 <= i < s.len() ==> is_digit(#[trigger] s[i]))
        && digits_value(s) <= 255 {
        Some(digits_value(s) as u8)
    } else {
        None
    }
}

/// `i` is the place of the first `c` in `s`, or the length of `s` where
/// there is none.
pub open spec fn is_position(s: Seq<char>, c: char, i: int) -> bool {
    &&& 0 <= i <= s.len()
    &&& forall|k: int| 0 <= k < i ==> s[k] != c
    &&& i < s.len() ==> s[i] == c
}

/// The place of the first `c` in `s`, or the length of `s` where there is none.
pub open spec fn position(s: Seq<char>, c: char) -> int {
    choose|i: int| is_position(s, c, i)
}

/// The place of the first `c` is the one place that has a `c` and none before it.
pub proof fn lemma_position_is(s: Seq<char>, c: char, i: int)
    requires
        is_position(s, c, i),
    ensures
        position(s, c) == i,
{
    let j = position(s, c);
    assert(is_position(s, c, j));
    if j < i {
        assert(s[j] != c);
    } else if i < j {
        assert(s[i] != c);
    }
}

/// Unicode's white space.
pub open spec fn is_space(c: char) -> bool {
    let n = c as int;
    (9 <= n <= 13) || n == 0x20 || n == 0x85 || n == 0xa0 || n == 0x1680 || (0x2000 <= n
        <= 0x200a) || n == 0x2028 || n == 0x2029 || n == 0x202f || n == 0x205f || n == 0x3000
}

/// `s` without the white space at its start.
pub open spec fn trim_start(s: Seq<char>) -> Seq<char>
    decreases s.len(),
{
    if s.len() > 0 && is_space(s[0]) {
        trim_start(s.skip(1))
    } else {
        s
    }
}

/// `s` without the white space at its end.
pub open spec fn trim_end(s: Seq<char>) -> Seq<char>
    decreases s.len(),
{
    if s.len() > 0 && is_space(s.last()) {
        trim_end(s.drop_last())
    } else {
        s
    }
}

/// `s` without the white space at its start and at its end.
pub open spec fn trim(s: Seq<char>) -> Seq<char> {
    trim_end(trim_start(s))
}

/// The number that a text stands for: decimal digits of ASCII, after a plus
/// sign or without one, that give a number up to 255.
pub open spec fn number_of(s: Seq<char>) -> Option<u8> {
    if s.len() > 0 && s[0] == '+' {
        channel_of(s.skip(1))
    } else {
        channel_of(s)
    }
}

/// The characters of a text.
pub fn chars_of(text: &str) -> (out: Vec<char>)
    ensures
        out@ == text@,
{
    let mut out: Vec<char> = Vec::new();
    for c in it: text.chars()
        invariant
            it.seq() == text@,
            out@ == it.seq().take(it.index() as int),
    {
        out.push(c);
        assert(out@ =~= it.seq().take(it.index() + 1));
    }
    assert(text@.take(text@.len() as int) =~= text@);
    out
}

/// The place of the first `c` between `from` and `to`, or `to` where there is none.
pub fn find(text: &Vec<char>, from: usize, to: usize, c: char) -> (out: usize)
    requires
        from <= to <= text.len(),
    ensures
        from <= out <= to,
        out - from == position(text@.subrange(from as int, to as int), c),
{
    let mut i: usize = from;
    while i < to && text[i] != c
        invariant
            from <= i <= to <= text.len(),
            forall|k: int| from <= k < i ==> text[k] != c,
        decreases to - i,
    {
        i = i + 1;
    }
    proof {
        lemma_position_is(text@.subrange(from as int, to as int), c, i - from);
    }
    i
}

/// Whether the character is white space.
pub fn is_white(c: char) -> (out: bool)
    ensures
        out == is_space(c),
{
    let n: u32 = c as u32;
    (9 <= n && n <= 13) || n == 0x20 || n == 0x85 || n == 0xa0 || n == 0x1680 || (0x2000 <= n && n
        <= 0x200a) || n == 0x2028 || n == 0x2029 || n == 0x202f || n == 0x205f || n == 0x3000
}

/// Taking white space off the start leaves what follows the first character
/// that is none.
proof fn lemma_trim_start(s: Seq<char>, a: int)
    requires
        0 <= a <= s.len(),
        forall|k: int| 0 <= k < a ==> is_space(#[trigger] s[k]),
        a < s.len() ==> !is_space(s[a]),
    ensures
        trim_start(s) == s.skip(a),
    decreases a,
{
    if a == 0 {
        assert(s.skip(0) =~= s);
    } else {
        lemma_trim_start(s.skip(1), a - 1);
        assert(s.skip(1).skip(a - 1) =~= s.skip(a));
    }
}

/// Taking white space off the end leaves what comes before the last
/// character that is none.
proof fn lemma_trim_end(s: Seq<char>, b: int)
    requires
        0 <= b <= s.len(),
        forall|k: int| b <= k < s.len() ==> is_space(#[trigger] s[k]),
        b > 0 ==> !is_space(s[b - 1]),
    ensures
        trim_end(s) == s.take(b),
    decreases s.len() - b,
{
    if b == s.len() {
        assert(s.take(b) =~= s);
    } else {
        lemma_trim_end(s.drop_last(), b);
        assert(s.drop_last().take(b) =~= s.take(b));
    }
}

/// The number of a sequence of digits is at least that of each of its beginnings.
proof fn lemma_digits_grow(s: Seq<char>, n: int)
    requires
        0 <= n <= s.len(),
        forall|i: int| 0 <= i < s.len() ==> is_digit(#[trigger] s[i]),
    ensures
        0 <= digits_value(s.take(n)) <= digits_value(s),
    decreases s.len() - n,
{
    if n == s.len() {
        assert(s.take(n) =~= s);
        lemma_digits_nonnegative(s);
    } else {
        lemma_digits_grow(s, n + 1);
        assert(s.take(n + 1).drop_last() =~= s.take(n));
        lemma_digits_nonnegative(s.take(n));
    }
}

/// The number of a sequence of digits is not negative.
proof fn lemma_digits_nonnegative(s: Seq<char>)
    requires
        forall|i: int| 0 <= i < s.len() ==> is_digit(#[trigger] s[i]),
    ensures
        0 <= digits_value(s),
    decreases s.len(),
{
    if s.len() > 0 {
        lemma_digits_nonnegative(s.drop_last());
    }
}

/// Reads the decimal digits between `from` and `to` as a number up to 255.
pub fn parse_digits(text: &Vec<char>, from: usize, to: usize) -> (out: Option<u8>)
    requires
        from <= to <= text.len(),
    ensures
        out == channel_of(text@.subrange(from as int, to as int)),
{
    let ghost s = text@.subrange(from as int, to as int);
    if from == to {
        return None;
    }
    let mut value: u32 = 0;
    let mut i: usize = from;
    while i < to
        invariant
            from <= i <= to <= text.len(),
            s == text@.subrange(from as int, to as int),
            forall|k: int| 0 <= k < i - from ==> is_digit(#[trigger] s[k]),
            value == digits_value(s.take(i - from)),
            value <= 255,
        decreases to - i,
    {
        let c = text[i];
        assert(s[i - from] == c);
        if c < '0' || c > '9' {
            return None;
        }
        let d: u32 = c as u32 - 48;
        assert(s.take(i - from + 1).drop_last() =~= s.take(i - from));
        value = value * 10 + d;
        if value > 255 {
            proof {
                if forall|k: int| 0 <= k < s.len() ==> is_digit(#[trigger] s[k]) {
                    lemma_digits_grow(s, i - from + 1);
                }
            }
            return None;
        }
        i = i + 1;
    }
    assert(s.take(to - from) =~= s);
    Some(value as u8)
}

/// Reads the text between `from` and `to` as a number up to 255, with or
/// without a plus sign before its digits.
pub fn parse_number(text: &Vec<char>, from: usize, to: usize) -> (out: Option<u8>)
    requires
        from <= to <= text.len(),
    ensures
        out == number_of(text@.subrange(from as int, to as int)),
{
    let ghost s = text@.subrange(from as int, to as int);
    if from < to && text[from] == '+' {
        assert(s[0] == '+');
        assert(s.skip(1) =~= text@.subrange(from + 1, to as int));
        parse_digits(text, from + 1, to)
    } else {
        if from < to {
            assert(s[0] == text[from as int]);
        }
        parse_digits(text, from, to)
    }
}

/// Reads the text between `from` and `to`, without the white space around
/// it, as a number.
pub fn parse_trimmed(text: &Vec<char>, from: usize, to: usize) -> (out: Option<u8>)
    requires
        from <= to <= text.len(),
    ensures
        out == number_of(trim(text@.subrange(from as int, to as int))),
{
    let ghost s = text@.subrange(from as int, to as int);
    let mut a: usize = from;
    while a < to && is_white(text[a])
        invariant
            from <= a <= to <= text.len(),
            forall|k: int| from <= k < a ==> is_space(#[trigger] text[k]),
        decreases to - a,
    {
        a = a + 1;
    }
    let mut b: usize = to;
    while b > a && is_white(text[b - 1])
        invariant
            a <= b <= to <= text.len(),
            forall|k: int| b <= k < to ==> is_space(#[trigger] text[k]),
        decreases b,
    {
        b = b - 1;
    }
    proof {
        assert forall|k: int| 0 <= k < a - from implies is_space(#[trigger] s[k]) by {
            assert(s[k] == text[from + k]);
        }
        if a < to {
            assert(s[a - from] == text[a as int]);
        }
        lemma_trim_start(s, a - from);
        let t = s.skip(a - from);
        assert(t =~= text@.subrange(a as int, to as int));
        assert forall|k: int| b - a <= k < t.len() implies is_space(#[trigger] t[k]) by {
            assert(t[k] == text[a + k]);
        }
        if b > a {
            assert(t[b - a - 1] == text[b - 1]);
        }
        lemma_trim_end(t, b - a);
        assert(t.take(b - a) =~= text@.subrange(a as int, b as int));
    }
    parse_number(text, a, b)
}

/// Reads a channel value written in decimal digits.
pub fn parse_channel(text: &str) -> (out: Option<u8>)
    ensures
        out == channel_of(text@),
{
    let chars = chars_of(text);
    assert(chars@.subrange(0, chars@.len() as int) =~= chars@);
    parse_digits(&chars, 0, chars.len())
}

/// Whether two texts are the same.
pub fn same_text(a: &str, b: &str) -> (out: bool)
    ensures
        out == (a@ == b@),
{
    if a.unicode_len() != b.unicode_len() {
        return false;
    }
    let same = has_suffix(a, b);
    assert(a@.subrange(0, a@.len() as int) =~= a@);
    same
}

/// The text without the plus sign that it starts with, if it starts with one.
pub open spec fn unsigned(s: Seq<char>) -> Seq<char> {
    if s.len() > 0 && s[0] == '+' {
        s.skip(1)
    } else {
        s
    }
}

/// The count that a text stands for: decimal digits of ASCII, after a plus
/// sign or without one, that give a number that a `usize` holds.
pub open spec fn count_of(s: Seq<char>) -> Option<usize> {
    let digits = unsigned(s);
    if digits.len() > 0 && (forall|i: int| 0 <= i < digits.len() ==> is_digit(#[trigger] digits[i]))
        && digits_value(digits) <= usize::MAX {
        Some(digits_value(digits) as usize)
    } else {
        None
    }
}

/// Reads a text as a count.
pub fn parse_count(text: &str) -> (out: Option<usize>)
    ensures
        out == count_of(text@),
{
    let chars = chars_of(text);
    let n = chars.len();
    let from: usize = if n > 0 && chars[0] == '+' {
        1
    } else {
        0
    };
    let ghost s = chars@.skip(from as int);
    assert(chars@.skip(0) =~= chars@);
    assert(s == unsigned(text@));
    if from == n {
        return None;
    }
    let mut value: usize = 0;
    let mut i: usize = from;
    while i < n
        invariant
            from <= i <= n,
            n == chars.len(),
            from < n,
            s == chars@.skip(from as int),
            s == unsigned(text@),
            forall|k: int| 0 <= k < i - from ==> is_digit(#[trigger] s[k]),
            value == digits_value(s.take(i - from)),
        decreases n - i,
    {
        let c = chars[i];
        assert(s[i - from] == c);
        if c < '0' || c > '9' {
            return None;
        }
        let d: usize = (c as u32 - 48) as usize;
        assert(s.take(i - from + 1).drop_last() =~= s.take(i - from));
        if value > (usize::MAX - d) / 10 {
            proof {
                if forall|k: int| 0 <= k < s.len() ==> is_digit(#[trigger] s[k]) {
                    lemma_digits_grow(s, i - from + 1);
                }
            }
            return None;
        }
        value = value * 10 + d;
        i = i + 1;
    }
    assert(s.take(n - from) =~= s);
    Some(value)
}

} // verus!
