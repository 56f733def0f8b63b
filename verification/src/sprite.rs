//! Sprites: the entries of the catalogue, each with its name, its form and
//! its palette.
use vstd::prelude::*;
use vstd::string::StringExecFns;
use crate::text::{
    channel_of, chars_of, ends_with, is_digit, parse_digits, strip, without_last,
};
use crate::quantize::{
    bucket_width, considered_count, get_palette, is_palette_of, valid_configuration,
    QuantizeError, WeightedColor,
};
use crate::rgb::Rgb;
use crate::{DEFAULT_IGNORE_BLACK, DEFAULT_LEVELS, DEFAULT_PALETTE_SIZE};

verus! {

/// The form of a sprite.
#[derive(Debug, Clone, Copy, PartialEq, Eq, Structural)]
pub enum Form {
    Regular,
    Mega(MegaType),
    Gmax,
    Regional(Region),
}

/// The kinds of mega form, with the suffix that each has in a name.
#[derive(Debug, Clone, Copy, PartialEq, Eq, Structural)]
pub enum MegaType {
    /// "mega"
    Mega,
    /// "mega-x"
    X,
    /// "mega-y"
    Y,
    /// "primal"
    Primal,
}

/// The regions of regional forms, with the suffix that each has in a name.
#[derive(Debug, Clone, Copy, PartialEq, Eq, Structural)]
pub enum Region {
    /// "alola"
    Alola,
    /// "galar"
    Galar,
    /// "hisui"
    Hisui,
    /// "paldea"
    Paldea,
}

/// An entry of the catalogue.
#[derive(Debug, Clone)]
pub struct Sprite {
    pub name: String,
    pub gen: u8,
    pub shiny: bool,
    pub form: Form,
    pub palette: Vec<WeightedColor>,
}

impl MegaType {
    /// The name of the kind.
    pub open spec fn text(self) -> Seq<char> {
        match self {
            MegaType::Mega => "mega"@,
            MegaType::X => "mega-x"@,
            MegaType::Y => "mega-y"@,
            MegaType::Primal => "primal"@,
        }
    }

    /// The name of the kind.
    pub fn to_text(&self) -> (out: String)
        ensures
            out@ == self.text(),
    {
        match self {
            MegaType::Mega => String::from_str("mega"),
            MegaType::X => String::from_str("mega-x"),
            MegaType::Y => String::from_str("mega-y"),
            MegaType::Primal => String::from_str("primal"),
        }
    }
}

impl Region {
    /// The name of the region.
    pub open spec fn text(self) -> Seq<char> {
        match self {
            Region::Alola => "alola"@,
            Region::Galar => "galar"@,
            Region::Hisui => "hisui"@,
            Region::Paldea => "paldea"@,
        }
    }

    /// The name of the region.
    pub fn to_text(&self) -> (out: String)
        ensures
            out@ == self.text(),
    {
        match self {
            Region::Alola => String::from_str("alola"),
            Region::Galar => String::from_str("galar"),
            Region::Hisui => String::from_str("hisui"),
            Region::Paldea => String::from_str("paldea"),
        }
    }
}

impl Form {
    /// The name of the form.
    pub open spec fn text(self) -> Seq<char> {
        match self {
            Form::Regular => "regular"@,
            Form::Mega(mega_type) => mega_type.text(),
            Form::Gmax => "gmax"@,
            Form::Regional(region) => region.text(),
        }
    }

    /// The suffix that a name of the form ends in; none for the regular form.
    pub open spec fn suffix(self) -> Seq<char> {
        match self {
            Form::Regular => Seq::<char>::empty(),
            Form::Mega(MegaType::X) => "-mega-x"@,
            Form::Mega(MegaType::Y) => "-mega-y"@,
            Form::Mega(MegaType::Mega) => "-mega"@,
            Form::Mega(MegaType::Primal) => "-primal"@,
            Form::Gmax => "-gmax"@,
            Form::Regional(Region::Alola) => "-alola"@,
            Form::Regional(Region::Galar) => "-galar"@,
            Form::Regional(Region::Hisui) => "-hisui"@,
            Form::Regional(Region::Paldea) => "-paldea"@,
        }
    }

    /// The name of the form.
    pub fn to_text(&self) -> (out: String)
        ensures
            out@ == self.text(),
    {
        match self {
            Form::Regular => String::from_str("regular"),
            Form::Mega(mega_type) => mega_type.to_text(),
            Form::Gmax => String::from_str("gmax"),
            Form::Regional(region) => region.to_text(),
        }
    }

    /// The form is the regular form.
    pub fn is_regular(&self) -> (out: bool)
        ensures
            out == (*self == Form::Regular),
    {
        match self {
            Form::Regular => true,
            _ => false,
        }
    }

    /// The form is a mega form.
    pub fn is_mega(&self) -> (out: bool)
        ensures
            out == (*self is Mega),
    {
        match self {
            Form::Mega(_) => true,
            _ => false,
        }
    }

    /// The form is a regional form.
    pub fn is_regional(&self) -> (out: bool)
        ensures
            out == (*self is Regional),
    {
        match self {
            Form::Regional(_) => true,
            _ => false,
        }
    }

    /// The form is the gigantamax form.
    pub fn is_gmax(&self) -> (out: bool)
        ensures
            out == (*self is Gmax),
    {
        match self {
            Form::Gmax => true,
            _ => false,
        }
    }
}

/// The forms in the order in which their suffixes are tried on a name.
pub open spec fn suffixed_forms() -> Seq<Form> {
    seq![
        Form::Mega(MegaType::X),
        Form::Mega(MegaType::Y),
        Form::Mega(MegaType::Mega),
        Form::Mega(MegaType::Primal),
        Form::Gmax,
        Form::Regional(Region::Alola),
        Form::Regional(Region::Galar),
        Form::Regional(Region::Hisui),
        Form::Regional(Region::Paldea),
    ]
}

/// The form that a name shows, trying the first `n` suffixed forms in turn:
/// that of the first suffix that the name ends in, else the regular form.
pub open spec fn form_among(name: Seq<char>, n: nat) -> Form
    decreases n,
{
    if n == 0 {
        Form::Regular
    } else {
        let earlier = form_among(name, (n - 1) as nat);
        if earlier != Form::Regular {
            earlier
        } else if ends_with(name, suffixed_forms()[n - 1].suffix()) {
            suffixed_forms()[n - 1]
        } else {
            Form::Regular
        }
    }
}

/// The form that a name shows.
pub open spec fn form_of(name: Seq<char>) -> Form {
    form_among(name, suffixed_forms().len())
}

/// The name with the suffix of its form taken off.
pub open spec fn clean_name(name: Seq<char>) -> Seq<char> {
    without_last(name, form_of(name).suffix().len())
}

/// The name and the form that a name with a suffix shows: the form of the
/// first suffix that the name ends in, with the name that is left without
/// it; the whole name and the regular form where it ends in none.
pub fn parse_name_and_form(name: &str) -> (out: (String, Form))
    ensures
        out.1 == form_of(name@),
        out.0@ == clean_name(name@),
{
    reveal_with_fuel(form_among, 10);
    if let Some(clean) = strip(name, "-mega-x") {
        return (clean, Form::Mega(MegaType::X));
    }
    if let Some(clean) = strip(name, "-mega-y") {
        return (clean, Form::Mega(MegaType::Y));
    }
    if let Some(clean) = strip(name, "-mega") {
        return (clean, Form::Mega(MegaType::Mega));
    }
    if let Some(clean) = strip(name, "-primal") {
        return (clean, Form::Mega(MegaType::Primal));
    }
    if let Some(clean) = strip(name, "-gmax") {
        return (clean, Form::Gmax);
    }
    if let Some(clean) = strip(name, "-alola") {
        return (clean, Form::Regional(Region::Alola));
    }
    if let Some(clean) = strip(name, "-galar") {
        return (clean, Form::Regional(Region::Galar));
    }
    if let Some(clean) = strip(name, "-hisui") {
        return (clean, Form::Regional(Region::Hisui));
    }
    if let Some(clean) = strip(name, "-paldea") {
        return (clean, Form::Regional(Region::Paldea));
    }
    assert(name@.subrange(0, name@.len() as int) =~= name@);
    (String::from_str(name), Form::Regular)
}

/// Why a sprite could not be made.
#[derive(Debug, Clone, Copy, PartialEq, Eq, Structural)]
pub enum SpriteError {
    /// A channel of an escape sequence is no number up to 255.
    Channel,
    /// The colours give no palette.
    Palette(QuantizeError),
}

/// The end of the run of decimal digits that starts at `from`.
pub open spec fn run_end(s: Seq<char>, from: int) -> int
    decreases s.len() - from,
{
    if 0 <= from < s.len() && is_digit(s[from]) {
        run_end(s, from + 1)
    } else {
        from
    }
}

/// The digits of the three channels of the escape sequence that starts at
/// `p`, where one starts there: an opening bracket, `38` or `48`, `;2;`, and
/// three runs of decimal digits, of which the first two are each followed by
/// a semicolon and the last by an `m`.
pub open spec fn sequence_at(s: Seq<char>, p: int) -> Option<(Seq<char>, Seq<char>, Seq<char>)> {
    let a = p + 6;
    let e1 = run_end(s, a);
    let b = e1 + 1;
    let e2 = run_end(s, b);
    let c = e2 + 1;
    let e3 = run_end(s, c);
    if 0 <= p && e3 < s.len() && s[p] == '[' && (s[p + 1] == '3' || s[p + 1] == '4') && s[p + 2]
        == '8' && s[p + 3] == ';' && s[p + 4] == '2' && s[p + 5] == ';' && a < e1 && s[e1] == ';'
        && b < e2 && s[e2] == ';' && c < e3 && s[e3] == 'm' {
        Some((s.subrange(a, e1), s.subrange(b, e2), s.subrange(c, e3)))
    } else {
        None
    }
}

/// The colour that the digits of three channels stand for.
pub open spec fn color_of_group(group: (Seq<char>, Seq<char>, Seq<char>)) -> Option<Rgb> {
    match (channel_of(group.0), channel_of(group.1), channel_of(group.2)) {
        (Some(r), Some(g), Some(b)) => Some(Rgb { r, g, b }),
        _ => None,
    }
}

/// The colours of the escape sequences that start before place `n`, in
/// their order, or `None` where a channel of one of them is above 255.
pub open spec fn colors_before(s: Seq<char>, n: nat) -> Option<Seq<Rgb>>
    decreases n,
{
    if n == 0 {
        Some(Seq::empty())
    } else {
        match colors_before(s, (n - 1) as nat) {
            None => None,
            Some(colors) => match sequence_at(s, n - 1) {
                None => Some(colors),
                Some(group) => match color_of_group(group) {
                    Some(c) => Some(colors.push(c)),
                    None => None,
                },
            },
        }
    }
}

/// The colours of the escape sequences of a text, in their order, or `None`
/// where a channel of one of them is above 255.
pub open spec fn escape_colors(s: Seq<char>) -> Option<Seq<Rgb>> {
    colors_before(s, s.len())
}

/// A run of digits ends at or after its start.
proof fn lemma_run_end(s: Seq<char>, from: int)
    ensures
        from <= run_end(s, from),
        0 <= from <= s.len() ==> run_end(s, from) <= s.len(),
        forall|k: int| from <= k < run_end(s, from) ==> is_digit(#[trigger] s[k]),
        0 <= run_end(s, from) < s.len() ==> !is_digit(s[run_end(s, from)]),
    decreases s.len() - from,
{
    if 0 <= from < s.len() && is_digit(s[from]) {
        lemma_run_end(s, from + 1);
    }
}

/// Once a channel is above 255 the colours stay undefined.
proof fn lemma_colors_fail(s: Seq<char>, n: nat, m: nat)
    requires
        n <= m,
        colors_before(s, n) is None,
    ensures
        colors_before(s, m) is None,
    decreases m,
{
    if n < m {
        lemma_colors_fail(s, n, (m - 1) as nat);
    }
}

/// The end of the run of decimal digits that starts at `from`.
fn digits_until(text: &Vec<char>, from: usize) -> (end: usize)
    requires
        from <= text.len(),
    ensures
        end == run_end(text@, from as int),
        from <= end <= text.len(),
{
    let mut i: usize = from;
    while i < text.len() && '0' <= text[i] && text[i] <= '9'
        invariant
            from <= i <= text.len(),
            run_end(text@, from as int) == run_end(text@, i as int),
        decreases text.len() - i,
    {
        i = i + 1;
    }
    i
}

/// The places of the three runs of digits of the escape sequence that starts
/// at `p`, where one starts there.
fn sequence(text: &Vec<char>, p: usize) -> (out: Option<(usize, usize, usize, usize, usize, usize)>)
    requires
        p < text.len(),
    ensures
        match out {
            Some((a, e1, b, e2, c, e3)) => a <= e1 < b <= e2 < c <= e3 < text.len() && sequence_at(
                text@,
                p as int,
            ) == Some(
                (
                    text@.subrange(a as int, e1 as int),
                    text@.subrange(b as int, e2 as int),
                    text@.subrange(c as int, e3 as int),
                ),
            ),
            None => sequence_at(text@, p as int) is None,
        },
{
    let n = text.len();
    proof {
        let a = p + 6;
        lemma_run_end(text@, a);
        let e1 = run_end(text@, a);
        lemma_run_end(text@, e1 + 1);
        let e2 = run_end(text@, e1 + 1);
        lemma_run_end(text@, e2 + 1);
    }
    if n - p < 7 {
        return None;
    }
    if text[p] != '[' || (text[p + 1] != '3' && text[p + 1] != '4') || text[p + 2] != '8' || text[p
        + 3] != ';' || text[p + 4] != '2' || text[p + 5] != ';' {
        return None;
    }
    let a = p + 6;
    let e1 = digits_until(text, a);
    if e1 == a || e1 >= n || text[e1] != ';' {
        return None;
    }
    let b = e1 + 1;
    let e2 = digits_until(text, b);
    if e2 == b || e2 >= n || text[e2] != ';' {
        return None;
    }
    let c = e2 + 1;
    let e3 = digits_until(text, c);
    if e3 == c || e3 >= n || text[e3] != 'm' {
        return None;
    }
    Some((a, e1, b, e2, c, e3))
}

/// The colours of the escape sequences of a text that set a 24-bit colour,
/// in their order.
///
/// Fails where a channel of an escape sequence is above 255.
pub fn extract_colors(content: &str) -> (out: Result<Vec<Rgb>, SpriteError>)
    ensures
        match out {
            Ok(colors) => escape_colors(content@) == Some(colors@),
            Err(e) => e == SpriteError::Channel && escape_colors(content@) is None,
        },
{
    let text = chars_of(content);
    let mut colors: Vec<Rgb> = Vec::new();
    let mut p: usize = 0;
    while p < text.len()
        invariant
            p <= text.len(),
            text@ == content@,
            colors_before(text@, p as nat) == Some(colors@),
        decreases text.len() - p,
    {
        match sequence(&text, p) {
            Some((a, e1, b, e2, c, e3)) => {
                let r = parse_digits(&text, a, e1);
                let g = parse_digits(&text, b, e2);
                let b = parse_digits(&text, c, e3);
                match (r, g, b) {
                    (Some(r), Some(g), Some(b)) => {
                        colors.push(Rgb { r, g, b });
                    },
                    _ => {
                        proof {
                            assert(colors_before(text@, (p + 1) as nat) is None);
                            lemma_colors_fail(text@, (p + 1) as nat, text@.len());
                        }
                        return Err(SpriteError::Channel);
                    },
                }
            },
            None => {},
        }
        p = p + 1;
    }
    Ok(colors)
}

impl Sprite {
    /// The sprite of the given name whose picture is drawn by the escape
    /// sequences of `content`: its name and form are those that the name
    /// shows, and its palette is that of the colours of the escape sequences.
    pub fn from_content(content: &str, name: &str, gen: u8, shiny: bool) -> (out: Result<
        Sprite,
        SpriteError,
    >)
        ensures
            match out {
                Ok(sprite) => {
                    &&& sprite.name@ == clean_name(name@)
                    &&& sprite.form == form_of(name@)
                    &&& sprite.gen == gen
                    &&& sprite.shiny == shiny
                    &&& escape_colors(content@) is Some
                    &&& is_palette_of(
                        escape_colors(content@)->0,
                        DEFAULT_IGNORE_BLACK,
                        bucket_width(DEFAULT_LEVELS),
                        DEFAULT_PALETTE_SIZE as nat,
                        sprite.palette@,
                    )
                },
                Err(SpriteError::Channel) => escape_colors(content@) is None,
                Err(SpriteError::Palette(e)) => {
                    &&& e == QuantizeError::EmptyInput
                    &&& escape_colors(content@) is Some
                    &&& considered_count(escape_colors(content@)->0, DEFAULT_IGNORE_BLACK) == 0
                },
            },
    {
        let (clean_name, form) = parse_name_and_form(name);
        let colors = match extract_colors(content) {
            Ok(colors) => colors,
            Err(e) => {
                return Err(e);
            },
        };
        assert(valid_configuration(DEFAULT_PALETTE_SIZE, DEFAULT_LEVELS));
        match get_palette(&colors, DEFAULT_PALETTE_SIZE, DEFAULT_LEVELS, DEFAULT_IGNORE_BLACK) {
            Ok(palette) => Ok(Sprite { name: clean_name, gen, shiny, form, palette }),
            Err(e) => Err(SpriteError::Palette(e)),
        }
    }

    /// The line that names the sprite in a result: its name, `-s` where it is
    /// shiny, and `-f` with its form where that is not the regular one.
    pub open spec fn result_text(self) -> Seq<char> {
        self.name@ + (if self.shiny {
            " -s"@
        } else {
            Seq::<char>::empty()
        }) + (if self.form != Form::Regular {
            " -f "@ + self.form.text()
        } else {
            Seq::<char>::empty()
        })
    }

    /// The line that names the sprite in a result.
    pub fn result_line(&self) -> (out: String)
        ensures
            out@ == self.result_text(),
    {
        let mut out = String::from_str(self.name.as_str());
        if self.shiny {
            out.append(" -s");
        }
        assert(out@ =~= self.name@ + (if self.shiny {
            " -s"@
        } else {
            Seq::<char>::empty()
        }));
        if !self.form.is_regular() {
            out.append(" -f ");
            out.append(self.form.to_text().as_str());
        }
        assert(out@ =~= self.result_text());
        out
    }

    /// The first lines of the description of the sprite: its name, whether it
    /// is shiny, its form where that is not the regular one, and the heading
    /// of its colours.
    pub open spec fn heading_text(self) -> Seq<char> {
        "Pokemon: "@ + self.name@ + "\n"@ + (if self.shiny {
            "  Shiny variant\n"@
        } else {
            Seq::<char>::empty()
        }) + (if self.form != Form::Regular {
            "  Form: "@ + self.form.text() + "\n"@
        } else {
            Seq::<char>::empty()
        }) + "  Top Colors:\n"@
    }

    /// The first lines of the description of the sprite.
    pub fn heading(&self) -> (out: String)
        ensures
            out@ == self.heading_text(),
    {
        let mut out = String::from_str("Pokemon: ");
        out.append(self.name.as_str());
        out.append("\n");
        if self.shiny {
            out.append("  Shiny variant\n");
        }
        assert(out@ =~= "Pokemon: "@ + self.name@ + "\n"@ + (if self.shiny {
            "  Shiny variant\n"@
        } else {
            Seq::<char>::empty()
        }));
        if !self.form.is_regular() {
            out.append("  Form: ");
            out.append(self.form.to_text().as_str());
            out.append("\n");
        }
        out.append("  Top Colors:\n");
        assert(out@ =~= self.heading_text());
        out
    }
}

} // verus!
