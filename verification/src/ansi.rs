use vstd::prelude::*;

use crate::util::text::{decimal, push_str, usize_to_string};

verus! {

/// A terminal colour: a 4-bit colour (with its bright flag), an 8-bit palette
/// entry, a 24-bit RGB colour, or the reset code.
#[derive(Debug, Copy, Clone, PartialEq, Eq)]
pub enum AnsiColourType {
    _4Bit(bool, u8),
    _8Bit(u8),
    _24Bit(u8, u8, u8),
    Reset,
}

/// The escape sequence that introduces a colour, for the foreground or the background.
pub open spec fn spec_prefix(c: AnsiColourType, fg: bool) -> Seq<char> {
    match c {
        AnsiColourType::_4Bit(bright, _) => if fg {
            if bright {
                "\x1b[9"@
            } else {
                "\x1b[3"@
            }
        } else if bright {
            "\x1b[10"@
        } else {
            "\x1b[4"@
        },
        AnsiColourType::_8Bit(_) => if fg {
            "\x1b[38;5;"@
        } else {
            "\x1b[48;5;"@
        },
        AnsiColourType::_24Bit(_, _, _) => if fg {
            "\x1b[38;2;"@
        } else {
            "\x1b[48;2;"@
        },
        AnsiColourType::Reset => if fg {
            "\x1b[39m"@
        } else {
            "\x1b[49m"@
        },
    }
}

/// The full escape sequence that selects a colour.
pub open spec fn spec_colour_code(c: AnsiColourType, fg: bool) -> Seq<char> {
    match c {
        AnsiColourType::_4Bit(_, n) => spec_prefix(c, fg) + decimal(n as nat) + "m"@,
        AnsiColourType::_8Bit(n) => spec_prefix(c, fg) + decimal(n as nat) + "m"@,
        AnsiColourType::_24Bit(r, g, b) => spec_prefix(c, fg) + decimal(r as nat) + ";"@
            + decimal(g as nat) + ";"@ + decimal(b as nat) + "m"@,
        AnsiColourType::Reset => spec_prefix(c, fg),
    }
}

impl AnsiColourType {
    fn get_prefix(&self, fg: bool) -> (r: &'static str)
        ensures
            r@ == spec_prefix(*self, fg),
    {
        match self {
            AnsiColourType::_4Bit(bright, _) => {
                if fg {
                    if *bright {
                        "\x1b[9"
                    } else {
                        "\x1b[3"
                    }
                } else if *bright {
                    "\x1b[10"
                } else {
                    "\x1b[4"
                }
            },
            AnsiColourType::_8Bit(_) => {
                if fg {
                    "\x1b[38;5;"
                } else {
                    "\x1b[48;5;"
                }
            },
            AnsiColourType::_24Bit(_, _, _) => {
                if fg {
                    "\x1b[38;2;"
                } else {
                    "\x1b[48;2;"
                }
            },
            AnsiColourType::Reset => {
                if fg {
                    "\x1b[39m"
                } else {
                    "\x1b[49m"
                }
            },
        }
    }

    /// Appends the escape sequence selecting this colour.
    fn apply(&self, out: &mut String, fg: bool)
        ensures
            final(out)@ == old(out)@ + spec_colour_code(*self, fg),
    {
        push_str(out, self.get_prefix(fg));
        match self {
            AnsiColourType::_4Bit(_, n) => {
                push_str(out, usize_to_string(*n as usize).as_str());
                push_str(out, "m");
            },
            AnsiColourType::_8Bit(n) => {
                push_str(out, usize_to_string(*n as usize).as_str());
                push_str(out, "m");
            },
            AnsiColourType::_24Bit(r, g, b) => {
                push_str(out, usize_to_string(*r as usize).as_str());
                push_str(out, ";");
                push_str(out, usize_to_string(*g as usize).as_str());
                push_str(out, ";");
                push_str(out, usize_to_string(*b as usize).as_str());
                push_str(out, "m");
            },
            AnsiColourType::Reset => {},
        }
        proof {
            match self {
                AnsiColourType::_24Bit(r, g, b) => {
                    assert(final(out)@ =~= old(out)@ + spec_colour_code(*self, fg));
                },
                _ => {
                    assert(final(out)@ =~= old(out)@ + spec_colour_code(*self, fg));
                },
            }
        }
    }
}

/// The colour a small palette number stands for: 0 to 7 are the plain 4-bit
/// colours, larger numbers are 8-bit palette entries.
pub fn colour(c: u8) -> (r: AnsiColourType)
    ensures
        c > 7 ==> r == AnsiColourType::_8Bit(c),
        c <= 7 ==> r == AnsiColourType::_4Bit(false, c),
{
    if c > 7 {
        AnsiColourType::_8Bit(c)
    } else {
        AnsiColourType::_4Bit(false, c)
    }
}

pub fn black() -> (r: AnsiColourType)
    ensures
        r == AnsiColourType::_4Bit(false, 0),
{
    colour(0)
}

pub fn red() -> (r: AnsiColourType)
    ensures
        r == AnsiColourType::_4Bit(false, 1),
{
    colour(1)
}

pub fn green() -> (r: AnsiColourType)
    ensures
        r == AnsiColourType::_4Bit(false, 2),
{
    colour(2)
}

pub fn yellow() -> (r: AnsiColourType)
    ensures
        r == AnsiColourType::_4Bit(false, 3),
{
    colour(3)
}

pub fn blue() -> (r: AnsiColourType)
    ensures
        r == AnsiColourType::_4Bit(false, 4),
{
    colour(4)
}

pub fn magenta() -> (r: AnsiColourType)
    ensures
        r == AnsiColourType::_4Bit(false, 5),
{
    colour(5)
}

pub fn cyan() -> (r: AnsiColourType)
    ensures
        r == AnsiColourType::_4Bit(false, 6),
{
    colour(6)
}

pub fn white() -> (r: AnsiColourType)
    ensures
        r == AnsiColourType::_4Bit(false, 7),
{
    colour(7)
}

pub fn reset() -> (r: AnsiColourType)
    ensures
        r == AnsiColourType::Reset,
{
    AnsiColourType::Reset
}

/// A foreground and a background colour, each optional.
#[derive(Debug, Clone, Copy, PartialEq, Eq)]
pub struct AnsiColour {
    pub fg: Option<AnsiColourType>,
    pub bg: Option<AnsiColourType>,
}

/// The escape sequences of a colour pair.
pub open spec fn spec_colour_pair_code(c: AnsiColour) -> Seq<char> {
    (match c.fg {
        Some(f) => spec_colour_code(f, true),
        None => Seq::empty(),
    }) + (match c.bg {
        Some(b) => spec_colour_code(b, false),
        None => Seq::empty(),
    })
}

impl AnsiColour {
    pub fn reset() -> (r: Self)
        ensures
            r == (AnsiColour { fg: Some(AnsiColourType::Reset), bg: Some(AnsiColourType::Reset) }),
    {
        AnsiColour { fg: Some(AnsiColourType::Reset), bg: Some(AnsiColourType::Reset) }
    }

    pub fn default() -> (r: Self)
        ensures
            r == (AnsiColour { fg: None, bg: None }),
    {
        AnsiColour { fg: None, bg: None }
    }

    pub fn colour(fg: AnsiColourType, bg: AnsiColourType) -> (r: Self)
        ensures
            r == (AnsiColour { fg: Some(fg), bg: Some(bg) }),
    {
        AnsiColour { fg: Some(fg), bg: Some(bg) }
    }

    pub fn fg(c: AnsiColourType) -> (r: Self)
        ensures
            r == (AnsiColour { fg: Some(c), bg: None }),
    {
        AnsiColour { fg: Some(c), bg: None }
    }

    pub fn bg(c: AnsiColourType) -> (r: Self)
        ensures
            r == (AnsiColour { fg: None, bg: Some(c) }),
    {
        AnsiColour { fg: None, bg: Some(c) }
    }

    /// Appends the escape sequences of this colour pair.
    pub fn render(&self, out: &mut String)
        ensures
            final(out)@ == old(out)@ + spec_colour_pair_code(*self),
    {
        let ghost start = out@;
        match self.fg {
            Some(f) => f.apply(out, true),
            None => {},
        }
        let ghost mid = out@;
        match self.bg {
            Some(b) => b.apply(out, false),
            None => {},
        }
        proof {
            assert(out@ =~= start + spec_colour_pair_code(*self));
        }
    }
}

pub fn fg(c: AnsiColourType) -> (r: AnsiColour)
    ensures
        r == AnsiColour::fg_spec(c),
{
    AnsiColour::fg(c)
}

pub fn bg(c: AnsiColourType) -> (r: AnsiColour)
    ensures
        r == AnsiColour::bg_spec(c),
{
    AnsiColour::bg(c)
}

impl AnsiColour {
    pub open spec fn fg_spec(c: AnsiColourType) -> AnsiColour {
        AnsiColour { fg: Some(c), bg: None }
    }

    pub open spec fn bg_spec(c: AnsiColourType) -> AnsiColour {
        AnsiColour { fg: None, bg: Some(c) }
    }
}

/// Text attributes, each set on, set off, or left alone.
#[derive(Debug, Clone, Copy, PartialEq, Eq)]
pub struct AnsiAttributes {
    pub bold: Option<bool>,
    pub faint: Option<bool>,
    pub italic: Option<bool>,
    pub underline: Option<bool>,
    pub blink: Option<bool>,
    pub strike: Option<bool>,
}

pub open spec fn flip(v: Option<bool>) -> Option<bool> {
    match v {
        Some(b) => Some(!b),
        None => None,
    }
}

/// The escape sequence of one attribute.
pub open spec fn spec_attr_code(v: Option<bool>, set: Seq<char>, unset: Seq<char>) -> Seq<char> {
    match v {
        Some(true) => "\x1b["@ + set + "m"@,
        Some(false) => "\x1b["@ + unset + "m"@,
        None => Seq::empty(),
    }
}

pub open spec fn spec_attributes_code(a: AnsiAttributes) -> Seq<char> {
    spec_attr_code(a.bold, "1"@, "22"@) + spec_attr_code(a.faint, "2"@, "22"@) + spec_attr_code(
        a.italic,
        "3"@,
        "23"@,
    ) + spec_attr_code(a.underline, "4"@, "24"@) + spec_attr_code(a.blink, "5"@, "25"@)
        + spec_attr_code(a.strike, "9"@, "29"@)
}

fn render_attr(out: &mut String, v: Option<bool>, set: &str, unset: &str)
    ensures
        final(out)@ == old(out)@ + spec_attr_code(v, set@, unset@),
{
    match v {
        Some(true) => {
            push_str(out, "\x1b[");
            push_str(out, set);
            push_str(out, "m");
        },
        Some(false) => {
            push_str(out, "\x1b[");
            push_str(out, unset);
            push_str(out, "m");
        },
        None => {},
    }
    proof {
        assert(final(out)@ =~= old(out)@ + spec_attr_code(v, set@, unset@));
    }
}

impl AnsiAttributes {
    pub fn default() -> (r: Self)
        ensures
            r == (AnsiAttributes {
                bold: None,
                faint: None,
                italic: None,
                underline: None,
                blink: None,
                strike: None,
            }),
    {
        AnsiAttributes {
            bold: None,
            faint: None,
            italic: None,
            underline: None,
            blink: None,
            strike: None,
        }
    }

    /// Every attribute switched off.
    pub fn reset() -> (r: Self)
        ensures
            r == (AnsiAttributes {
                bold: Some(false),
                faint: Some(false),
                italic: Some(false),
                underline: Some(false),
                blink: Some(false),
                strike: Some(false),
            }),
    {
        AnsiAttributes {
            bold: Some(false),
            faint: Some(false),
            italic: Some(false),
            underline: Some(false),
            blink: Some(false),
            strike: Some(false),
        }
    }

    pub fn bold(self, value: bool) -> (r: Self)
        ensures
            r == (AnsiAttributes { bold: Some(value), ..self }),
    {
        AnsiAttributes { bold: Some(value), ..self }
    }

    pub fn faint(self, value: bool) -> (r: Self)
        ensures
            r == (AnsiAttributes { faint: Some(value), ..self }),
    {
        AnsiAttributes { faint: Some(value), ..self }
    }

    pub fn italic(self, value: bool) -> (r: Self)
        ensures
            r == (AnsiAttributes { italic: Some(value), ..self }),
    {
        AnsiAttributes { italic: Some(value), ..self }
    }

    pub fn underline(self, value: bool) -> (r: Self)
        ensures
            r == (AnsiAttributes { underline: Some(value), ..self }),
    {
        AnsiAttributes { underline: Some(value), ..self }
    }

    pub fn blink(self, value: bool) -> (r: Self)
        ensures
            r == (AnsiAttributes { blink: Some(value), ..self }),
    {
        AnsiAttributes { blink: Some(value), ..self }
    }

    pub fn strike(self, value: bool) -> (r: Self)
        ensures
            r == (AnsiAttributes { strike: Some(value), ..self }),
    {
        AnsiAttributes { strike: Some(value), ..self }
    }

    pub open spec fn spec_inverse(self) -> Self {
        AnsiAttributes {
            bold: flip(self.bold),
            faint: flip(self.faint),
            italic: flip(self.italic),
            underline: flip(self.underline),
            blink: flip(self.blink),
            strike: flip(self.strike),
        }
    }

    /// Each attribute that is set is set the other way; unset ones stay unset.
    pub fn inverse(&self) -> (r: Self)
        ensures
            r == self.spec_inverse(),
    {
        AnsiAttributes {
            bold: flip_exec(self.bold),
            faint: flip_exec(self.faint),
            italic: flip_exec(self.italic),
            underline: flip_exec(self.underline),
            blink: flip_exec(self.blink),
            strike: flip_exec(self.strike),
        }
    }

    /// Appends the escape sequences of the attributes that are set.
    pub fn render(&self, out: &mut String)
        ensures
            final(out)@ == old(out)@ + spec_attributes_code(*self),
    {
        let ghost start = out@;
        render_attr(out, self.bold, "1", "22");
        render_attr(out, self.faint, "2", "22");
        render_attr(out, self.italic, "3", "23");
        render_attr(out, self.underline, "4", "24");
        render_attr(out, self.blink, "5", "25");
        render_attr(out, self.strike, "9", "29");
        proof {
            assert(out@ =~= start + spec_attributes_code(*self));
        }
    }
}

fn flip_exec(v: Option<bool>) -> (r: Option<bool>)
    ensures
        r == flip(v),
{
    match v {
        Some(b) => Some(!b),
        None => None,
    }
}

/// Inverting attributes twice gives the same attributes back.
pub proof fn lemma_inverse_involutive(a: AnsiAttributes)
    ensures
        a.spec_inverse().spec_inverse() == a,
{
}

/// A colour pair with text attributes.
#[derive(Debug, Clone, Copy, PartialEq, Eq)]
pub struct AnsiStyle {
    pub colour: AnsiColour,
    pub attributes: AnsiAttributes,
}

impl AnsiStyle {
    pub open spec fn spec_new() -> Self {
        AnsiStyle {
            colour: AnsiColour { fg: None, bg: None },
            attributes: AnsiAttributes {
                bold: None,
                faint: None,
                italic: None,
                underline: None,
                blink: None,
                strike: None,
            },
        }
    }

    /// The style that changes nothing.
    pub fn new() -> (r: Self)
        ensures
            r == Self::spec_new(),
    {
        AnsiStyle { colour: AnsiColour::default(), attributes: AnsiAttributes::default() }
    }

    pub fn colour(self, fg: AnsiColourType, bg: AnsiColourType) -> (r: Self)
        ensures
            r == (AnsiStyle { colour: AnsiColour { fg: Some(fg), bg: Some(bg) }, ..self }),
    {
        AnsiStyle { colour: AnsiColour::colour(fg, bg), attributes: self.attributes }
    }

    pub fn fg(self, fg: AnsiColourType) -> (r: Self)
        ensures
            r == (AnsiStyle { colour: AnsiColour { fg: Some(fg), bg: self.colour.bg }, ..self }),
    {
        AnsiStyle {
            colour: AnsiColour { fg: Some(fg), bg: self.colour.bg },
            attributes: self.attributes,
        }
    }

    pub fn bg(self, bg: AnsiColourType) -> (r: Self)
        ensures
            r == (AnsiStyle { colour: AnsiColour { fg: self.colour.fg, bg: Some(bg) }, ..self }),
    {
        AnsiStyle {
            colour: AnsiColour { fg: self.colour.fg, bg: Some(bg) },
            attributes: self.attributes,
        }
    }

    pub open spec fn spec_inverse(self) -> Self {
        AnsiStyle {
            colour: AnsiColour { fg: Some(AnsiColourType::Reset), bg: Some(AnsiColourType::Reset) },
            attributes: self.attributes.spec_inverse(),
        }
    }

    /// The style that undoes this one: colours reset, attributes flipped.
    pub fn inverse(self) -> (r: Self)
        ensures
            r == self.spec_inverse(),
    {
        AnsiStyle { colour: AnsiColour::reset(), attributes: self.attributes.inverse() }
    }

    pub fn bold(self, value: bool) -> (r: Self)
        ensures
            r == (AnsiStyle { attributes: AnsiAttributes { bold: Some(value), ..self.attributes }, ..self }),
    {
        AnsiStyle { colour: self.colour, attributes: self.attributes.bold(value) }
    }

    pub fn faint(self, value: bool) -> (r: Self)
        ensures
            r == (AnsiStyle { attributes: AnsiAttributes { faint: Some(value), ..self.attributes }, ..self }),
    {
        AnsiStyle { colour: self.colour, attributes: self.attributes.faint(value) }
    }

    pub fn italic(self, value: bool) -> (r: Self)
        ensures
            r == (AnsiStyle { attributes: AnsiAttributes { italic: Some(value), ..self.attributes }, ..self }),
    {
        AnsiStyle { colour: self.colour, attributes: self.attributes.italic(value) }
    }

    pub fn underline(self, value: bool) -> (r: Self)
        ensures
            r == (AnsiStyle { attributes: AnsiAttributes { underline: Some(value), ..self.attributes }, ..self }),
    {
        AnsiStyle { colour: self.colour, attributes: self.attributes.underline(value) }
    }

    pub fn blink(self, value: bool) -> (r: Self)
        ensures
            r == (AnsiStyle { attributes: AnsiAttributes { blink: Some(value), ..self.attributes }, ..self }),
    {
        AnsiStyle { colour: self.colour, attributes: self.attributes.blink(value) }
    }

    pub fn strike(self, value: bool) -> (r: Self)
        ensures
            r == (AnsiStyle { attributes: AnsiAttributes { strike: Some(value), ..self.attributes }, ..self }),
    {
        AnsiStyle { colour: self.colour, attributes: self.attributes.strike(value) }
    }

    pub open spec fn spec_code(self) -> Seq<char> {
        spec_colour_pair_code(self.colour) + spec_attributes_code(self.attributes)
    }

    /// The escape sequences that switch this style on.
    pub fn to_string(&self) -> (r: String)
        ensures
            r@ == self.spec_code(),
    {
        let mut out = String::new();
        self.colour.render(&mut out);
        self.attributes.render(&mut out);
        proof {
            assert(out@ =~= self.spec_code());
        }
        out
    }
}

/// Text with the style it is shown in.
#[derive(Debug, Clone)]
pub struct AnsiText {
    pub text: String,
    pub style: AnsiStyle,
}

impl AnsiText {
    /// The text wrapped between the style and its inverse.
    pub fn to_string(&self) -> (r: String)
        ensures
            r@ == self.style.spec_code() + self.text@ + self.style.spec_inverse().spec_code(),
    {
        let mut out = self.style.to_string();
        push_str(&mut out, self.text.as_str());
        let inv = self.style.inverse();
        let tail = inv.to_string();
        push_str(&mut out, tail.as_str());
        out
    }
}

/// Applying a style to a piece of text.
pub trait AnsiModify: Sized {
    fn apply(self, style: AnsiStyle) -> AnsiText;

    fn fg(self, fg: AnsiColourType) -> AnsiText;

    fn bg(self, bg: AnsiColourType) -> AnsiText;
}

impl AnsiModify for String {
    fn apply(self, style: AnsiStyle) -> (r: AnsiText)
        ensures
            r.text == self && r.style == style,
    {
        AnsiText { text: self, style }
    }

    fn fg(self, fg: AnsiColourType) -> (r: AnsiText)
        ensures
            r.text == self && r.style == AnsiStyle::spec_new().fg_spec(fg),
    {
        let s = AnsiStyle::new().fg(fg);
        AnsiText { text: self, style: s }
    }

    fn bg(self, bg: AnsiColourType) -> (r: AnsiText)
        ensures
            r.text == self && r.style == AnsiStyle::spec_new().bg_spec(bg),
    {
        let s = AnsiStyle::new().bg(bg);
        AnsiText { text: self, style: s }
    }
}

impl AnsiStyle {
    pub open spec fn fg_spec(self, fg: AnsiColourType) -> Self {
        AnsiStyle { colour: AnsiColour { fg: Some(fg), bg: self.colour.bg }, ..self }
    }

    pub open spec fn bg_spec(self, bg: AnsiColourType) -> Self {
        AnsiStyle { colour: AnsiColour { fg: self.colour.fg, bg: Some(bg) }, ..self }
    }
}


/// A colour of the sixteen is selected by its SGR number: 30 to 37 for the
/// foreground, 40 to 47 for the background, and 90 to 97 and 100 to 107 for
/// their bright forms.
pub proof fn lemma_4bit_codes(bright: bool, fg: bool, n: u8)
    requires
        n < 10,
    ensures
        spec_colour_code(AnsiColourType::_4Bit(bright, n), fg) == "\x1b["@ + decimal(
            (if fg {
                if bright {
                    90nat
                } else {
                    30nat
                }
            } else if bright {
                100nat
            } else {
                40nat
            }) + n as nat,
        ) + "m"@,
{
    reveal_strlit("\x1b[");
    reveal_strlit("\x1b[9");
    reveal_strlit("\x1b[3");
    reveal_strlit("\x1b[10");
    reveal_strlit("\x1b[4");
    reveal_strlit("m");
    let d = crate::util::text::digit_char(n as nat);
    let base: nat = if fg {
        if bright {
            90nat
        } else {
            30nat
        }
    } else if bright {
        100nat
    } else {
        40nat
    };
    let v = base + n as nat;
    assert(decimal(n as nat) == seq![d]);
    if base == 100 {
        assert(v / 10 == 10);
        assert(v % 10 == n);
        assert(decimal(10) == seq!['1', '0']) by {
            assert(decimal(1) == seq!['1']);
            assert(decimal(0) == seq!['0']);
            assert(decimal(1).push('0') =~= seq!['1', '0']);
        }
        assert(decimal(v) =~= seq!['1', '0', d]);
    } else {
        assert(v / 10 == base / 10);
        assert(v % 10 == n);
        assert(decimal(base / 10) == seq![crate::util::text::digit_char(base / 10)]);
        assert(decimal(v) =~= seq![crate::util::text::digit_char(base / 10), d]);
    }
    assert(spec_colour_code(AnsiColourType::_4Bit(bright, n), fg) =~= "\x1b["@ + decimal(v) + "m"@);
}

} // verus!
