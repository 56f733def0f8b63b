//! Colours: three channels of eight bits.
use vstd::prelude::*;
use vstd::string::StringExecFns;

verus! {

/// A colour of three 8-bit channels.
#[derive(Debug, Clone, Copy, PartialEq, Eq, Hash, Structural)]
pub struct Rgb {
    pub r: u8,
    pub g: u8,
    pub b: u8,
}

/// The decimal digits of `n`, most significant first, without leading zeros.
pub open spec fn decimal(n: nat) -> Seq<char>
    decreases n,
{
    if n < 10 {
        seq![digit(n)]
    } else {
        decimal(n / 10).push(digit(n % 10))
    }
}

/// The character of the digit `d`.
pub open spec fn digit(d: nat) -> char {
    if d == 0 {
        '0'
    } else if d == 1 {
        '1'
    } else if d == 2 {
        '2'
    } else if d == 3 {
        '3'
    } else if d == 4 {
        '4'
    } else if d == 5 {
        '5'
    } else if d == 6 {
        '6'
    } else if d == 7 {
        '7'
    } else if d == 8 {
        '8'
    } else {
        '9'
    }
}

/// The digit `d` as a text.
fn digit_text(d: u8) -> (out: &'static str)
    requires
        d < 10,
    ensures
        out@ == seq![digit(d as nat)],
{
    proof {
        reveal_strlit("0");
        reveal_strlit("1");
        reveal_strlit("2");
        reveal_strlit("3");
        reveal_strlit("4");
        reveal_strlit("5");
        reveal_strlit("6");
        reveal_strlit("7");
        reveal_strlit("8");
        reveal_strlit("9");
    }
    let out = if d == 0 {
        "0"
    } else if d == 1 {
        "1"
    } else if d == 2 {
        "2"
    } else if d == 3 {
        "3"
    } else if d == 4 {
        "4"
    } else if d == 5 {
        "5"
    } else if d == 6 {
        "6"
    } else if d == 7 {
        "7"
    } else if d == 8 {
        "8"
    } else {
        "9"
    };
    assert(out@ =~= seq![digit(d as nat)]);
    out
}

/// The number in decimal digits.
pub fn decimal_string(n: u8) -> (out: String)
    ensures
        out@ == decimal(n as nat),
{
    reveal_with_fuel(decimal, 3);
    let mut out = String::from_str("");
    proof {
        reveal_strlit("");
        assert(out@ =~= Seq::<char>::empty());
    }
    if n >= 100 {
        out.append(digit_text(n / 100));
    }
    if n >= 10 {
        out.append(digit_text((n / 10) % 10));
    }
    out.append(digit_text(n % 10));
    assert(out@ =~= decimal(n as nat));
    out
}

/// The decimal digits of `n` after as many blanks as bring them to three
/// characters.
pub open spec fn aligned(n: u8) -> Seq<char> {
    if n < 10 {
        "  "@ + decimal(n as nat)
    } else if n < 100 {
        " "@ + decimal(n as nat)
    } else {
        decimal(n as nat)
    }
}

/// The number in decimal digits, brought to three characters by blanks
/// before it.
pub fn right_aligned(n: u8) -> (out: String)
    ensures
        out@ == aligned(n),
{
    let mut out = if n < 10 {
        String::from_str("  ")
    } else if n < 100 {
        String::from_str(" ")
    } else {
        String::from_str("")
    };
    proof {
        reveal_strlit("");
    }
    out.append(decimal_string(n).as_str());
    assert(out@ =~= aligned(n));
    out
}

/// The texts of the swatches of the first `n` colours, one after the other.
pub open spec fn swatches(colors: Seq<Rgb>, n: nat) -> Seq<char>
    decreases n,
{
    if n == 0 {
        Seq::empty()
    } else {
        swatches(colors, (n - 1) as nat) + colors[n - 1].swatch_text()
    }
}

/// The swatches of the colours, one after the other.
pub fn swatch_row(colors: &Vec<Rgb>) -> (out: String)
    ensures
        out@ == swatches(colors@, colors@.len()),
{
    let mut out = String::from_str("");
    proof {
        reveal_strlit("");
        assert(out@ =~= Seq::<char>::empty());
    }
    let mut i: usize = 0;
    while i < colors.len()
        invariant
            i <= colors.len(),
            out@ == swatches(colors@, i as nat),
        decreases colors.len() - i,
    {
        out.append(colors[i].swatch().as_str());
        i = i + 1;
    }
    out
}

/// The number of the fixed-point unit that `channel / 255` comes to, rounded down.
pub open spec fn normalized(channel: u8) -> int {
    channel as int * 65536 / 255
}

impl Rgb {
    /// The place of the colour in the ascending order of colours:
    /// by red, then green, then blue.
    pub open spec fn key(self) -> int {
        self.r as int * 65536 + self.g as int * 256 + self.b as int
    }

    /// The colour is pure black.
    pub open spec fn is_black(self) -> bool {
        self.r == 0 && self.g == 0 && self.b == 0
    }

    /// The text of the escape sequence that sets the terminal background to
    /// the colour.
    pub open spec fn ansi_text(self) -> Seq<char> {
        "\x1b[48;2;"@ + decimal(self.r as nat) + ";"@ + decimal(self.g as nat) + ";"@ + decimal(
            self.b as nat,
        ) + "m"@
    }

    /// The escape sequence that sets the terminal background to the colour.
    pub fn ansi_color(&self) -> (out: String)
        ensures
            out@ == self.ansi_text(),
    {
        let mut out = String::from_str("\x1b[48;2;");
        out.append(decimal_string(self.r).as_str());
        out.append(";");
        out.append(decimal_string(self.g).as_str());
        out.append(";");
        out.append(decimal_string(self.b).as_str());
        out.append("m");
        out
    }

    /// The text of a swatch of the colour: three blanks on the colour as
    /// background, and the escape sequence that ends it.
    pub open spec fn swatch_text(self) -> Seq<char> {
        self.ansi_text() + "   \x1b[0m"@
    }

    /// A swatch of the colour for a terminal.
    pub fn swatch(&self) -> (out: String)
        ensures
            out@ == self.swatch_text(),
    {
        let mut out = self.ansi_color();
        out.append("   \x1b[0m");
        out
    }

    /// The text of a swatch of the colour with its channels in numbers, up to
    /// the place where a frequency follows.
    pub open spec fn labelled_text(self) -> Seq<char> {
        self.swatch_text() + " RGB("@ + aligned(self.r) + ", "@ + aligned(self.g) + ", "@
            + aligned(self.b) + "). Freq: "@
    }

    /// A swatch of the colour with its channels in numbers, up to the place
    /// where a frequency follows.
    pub fn labelled_swatch(&self) -> (out: String)
        ensures
            out@ == self.labelled_text(),
    {
        let mut out = self.swatch();
        out.append(" RGB(");
        out.append(right_aligned(self.r).as_str());
        out.append(", ");
        out.append(right_aligned(self.g).as_str());
        out.append(", ");
        out.append(right_aligned(self.b).as_str());
        out.append("). Freq: ");
        out
    }

    /// The three channels as fractions of 255, in fixed point.
    pub fn normalize(&self) -> (out: (u64, u64, u64))
        ensures
            out.0 == normalized(self.r),
            out.1 == normalized(self.g),
            out.2 == normalized(self.b),
    {
        (self.r as u64 * 65536 / 255, self.g as u64 * 65536 / 255, self.b as u64 * 65536 / 255)
    }
}

} // verus!
