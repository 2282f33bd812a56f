use vstd::prelude::*;

use crate::diagnostics::{Context, Diagnostic, DiagnosticKind, Diagnostics};
use crate::util::interner::Interner;
use crate::util::text::{push_str, str_eq_chars, string_from_chars};
use crate::util::{ModuleId, Pos};

verus! {

// ---------------------------------------------------------------------------
// Character classes
// ---------------------------------------------------------------------------

/// Unicode `White_Space`, the property `char::is_whitespace` tests: tab to
/// carriage return, space, next line, no-break space, ogham space mark, the
/// spaces from en quad to hair space, line and paragraph separators, narrow
/// no-break space, medium mathematical space and ideographic space.
pub open spec fn is_whitespace_char(c: char) -> bool {
    let u = c as u32;
    ||| 0x9 <= u <= 0xD
    ||| u == 0x20 || u == 0x85 || u == 0xA0 || u == 0x1680
    ||| 0x2000 <= u <= 0x200A
    ||| u == 0x2028 || u == 0x2029 || u == 0x202F || u == 0x205F || u == 0x3000
}

/// Unicode alphabetic or numeric, as `char::is_alphanumeric` decides it.
pub uninterp spec fn is_alphanumeric_char(c: char) -> bool;

/// Unicode numeric, as `char::is_numeric` decides it.
pub uninterp spec fn is_numeric_char(c: char) -> bool;

/// Whether `c` is whitespace, as `char::is_whitespace` answers.
fn char_is_whitespace(c: char) -> (r: bool)
    ensures
        r == is_whitespace_char(c),
{
    let u = c as u32;
    (0x9 <= u && u <= 0xD) || u == 0x20 || u == 0x85 || u == 0xA0 || u == 0x1680 || (0x2000 <= u && u <= 0x200A)
        || u == 0x2028 || u == 0x2029 || u == 0x202F || u == 0x205F || u == 0x3000
}

/// Calls `char::is_alphanumeric`; the result is named, the Unicode tables are not restated.
#[verifier::external_body]
fn char_is_alphanumeric(c: char) -> (r: bool)
    ensures
        r == is_alphanumeric_char(c),
{
    c.is_alphanumeric()
}

/// Calls `char::is_numeric`; the result is named, the Unicode tables are not restated.
#[verifier::external_body]
fn char_is_numeric(c: char) -> (r: bool)
    ensures
        r == is_numeric_char(c),
{
    c.is_numeric()
}

/// The number of bytes UTF-8 takes for a character.
pub open spec fn utf8_len(c: char) -> nat {
    if (c as u32) < 0x80 {
        1
    } else if (c as u32) < 0x800 {
        2
    } else if (c as u32) < 0x10000 {
        3
    } else {
        4
    }
}

/// The number of bytes UTF-8 takes for a character sequence.
pub open spec fn utf8_total(s: Seq<char>) -> nat
    decreases s.len(),
{
    if s.len() == 0 {
        0
    } else {
        utf8_total(s.drop_last()) + utf8_len(s.last())
    }
}

pub fn char_utf8_len(c: char) -> (n: usize)
    ensures
        n == utf8_len(c),
{
    let v = c as u32;
    if v < 0x80 {
        1
    } else if v < 0x800 {
        2
    } else if v < 0x10000 {
        3
    } else {
        4
    }
}

// ---------------------------------------------------------------------------
// Keywords and punctuation
// ---------------------------------------------------------------------------

#[derive(Debug, PartialEq, Eq, Structural, Clone, Copy, Hash)]
pub enum KeywordType {
    Const,
    Circ,
    Enum,
    Assert,
    For,
    In,
    With,
    Import,
    If,
    Else,
    Use,
    As,
}

pub open spec fn keyword_members() -> Seq<KeywordType> {
    seq![
        KeywordType::Const,
        KeywordType::Circ,
        KeywordType::Enum,
        KeywordType::Assert,
        KeywordType::For,
        KeywordType::In,
        KeywordType::With,
        KeywordType::Import,
        KeywordType::If,
        KeywordType::Else,
        KeywordType::Use,
        KeywordType::As,
    ]
}

/// The keyword a text spells, if any.
pub open spec fn keyword_of(s: Seq<char>) -> Option<KeywordType> {
    if s == "const"@ {
        Some(KeywordType::Const)
    } else if s == "circ"@ {
        Some(KeywordType::Circ)
    } else if s == "enum"@ {
        Some(KeywordType::Enum)
    } else if s == "assert"@ {
        Some(KeywordType::Assert)
    } else if s == "for"@ {
        Some(KeywordType::For)
    } else if s == "in"@ {
        Some(KeywordType::In)
    } else if s == "with"@ {
        Some(KeywordType::With)
    } else if s == "import"@ {
        Some(KeywordType::Import)
    } else if s == "if"@ {
        Some(KeywordType::If)
    } else if s == "else"@ {
        Some(KeywordType::Else)
    } else if s == "use"@ {
        Some(KeywordType::Use)
    } else if s == "as"@ {
        Some(KeywordType::As)
    } else {
        None
    }
}

impl KeywordType {
    pub open spec fn text(self) -> Seq<char> {
        match self {
            KeywordType::Const => "const"@,
            KeywordType::Circ => "circ"@,
            KeywordType::Enum => "enum"@,
            KeywordType::Assert => "assert"@,
            KeywordType::For => "for"@,
            KeywordType::In => "in"@,
            KeywordType::With => "with"@,
            KeywordType::Import => "import"@,
            KeywordType::If => "if"@,
            KeywordType::Else => "else"@,
            KeywordType::Use => "use"@,
            KeywordType::As => "as"@,
        }
    }

    pub fn value(&self) -> (r: &'static str)
        ensures
            r@ == self.text(),
    {
        match self {
            KeywordType::Const => "const",
            KeywordType::Circ => "circ",
            KeywordType::Enum => "enum",
            KeywordType::Assert => "assert",
            KeywordType::For => "for",
            KeywordType::In => "in",
            KeywordType::With => "with",
            KeywordType::Import => "import",
            KeywordType::If => "if",
            KeywordType::Else => "else",
            KeywordType::Use => "use",
            KeywordType::As => "as",
        }
    }

    fn members() -> (r: Vec<KeywordType>)
        ensures
            r@ == keyword_members(),
    {
        let r = vec![
            KeywordType::Const,
            KeywordType::Circ,
            KeywordType::Enum,
            KeywordType::Assert,
            KeywordType::For,
            KeywordType::In,
            KeywordType::With,
            KeywordType::Import,
            KeywordType::If,
            KeywordType::Else,
            KeywordType::Use,
            KeywordType::As,
        ];
        proof {
            assert(r@ =~= keyword_members());
        }
        r
    }

    /// The keyword spelled by `s`, if any.
    pub fn try_from_chars(s: &[char]) -> (r: Option<KeywordType>)
        ensures
            r == keyword_of(s@),
    {
        if str_eq_chars("const", s) {
            return Some(KeywordType::Const);
        }
        if str_eq_chars("circ", s) {
            return Some(KeywordType::Circ);
        }
        if str_eq_chars("enum", s) {
            return Some(KeywordType::Enum);
        }
        if str_eq_chars("assert", s) {
            return Some(KeywordType::Assert);
        }
        if str_eq_chars("for", s) {
            return Some(KeywordType::For);
        }
        if str_eq_chars("in", s) {
            return Some(KeywordType::In);
        }
        if str_eq_chars("with", s) {
            return Some(KeywordType::With);
        }
        if str_eq_chars("import", s) {
            return Some(KeywordType::Import);
        }
        if str_eq_chars("if", s) {
            return Some(KeywordType::If);
        }
        if str_eq_chars("else", s) {
            return Some(KeywordType::Else);
        }
        if str_eq_chars("use", s) {
            return Some(KeywordType::Use);
        }
        if str_eq_chars("as", s) {
            return Some(KeywordType::As);
        }
        None
    }

    pub fn is_member(s: &[char]) -> (r: bool)
        ensures
            r == keyword_of(s@) is Some,
    {
        Self::try_from_chars(s).is_some()
    }
}

#[derive(Debug, PartialEq, Eq, Structural, Clone, Copy, Hash)]
pub enum PunctuationType {
    LParen,
    RParen,
    LSquare,
    RSquare,
    LCurly,
    RCurly,
    Equal,
    DEqual,
    ExclamationEqual,
    LessThan,
    DLessThan,
    LessThanEqual,
    GreaterThan,
    DGreaterThan,
    GreaterThanEqual,
    LArrow,
    RArrow,
    Period,
    Comma,
    Pipe,
    DPipe,
    Range,
    Colon,
    DColon,
    Semicolon,
    Plus,
    Minus,
    Star,
    Slash,
    Percent,
    Caret,
    DCaret,
    Ampersand,
    DAmpersand,
    Exclamation,
    Tilde,
    Dollar,
}

pub open spec fn punctuation_members() -> Seq<PunctuationType> {
    seq![
        PunctuationType::LParen,
        PunctuationType::RParen,
        PunctuationType::LSquare,
        PunctuationType::RSquare,
        PunctuationType::LCurly,
        PunctuationType::RCurly,
        PunctuationType::Equal,
        PunctuationType::DEqual,
        PunctuationType::ExclamationEqual,
        PunctuationType::LessThan,
        PunctuationType::DLessThan,
        PunctuationType::LessThanEqual,
        PunctuationType::GreaterThan,
        PunctuationType::DGreaterThan,
        PunctuationType::GreaterThanEqual,
        PunctuationType::LArrow,
        PunctuationType::RArrow,
        PunctuationType::Period,
        PunctuationType::Comma,
        PunctuationType::Pipe,
        PunctuationType::DPipe,
        PunctuationType::Range,
        PunctuationType::Colon,
        PunctuationType::DColon,
        PunctuationType::Semicolon,
        PunctuationType::Plus,
        PunctuationType::Minus,
        PunctuationType::Star,
        PunctuationType::Slash,
        PunctuationType::Percent,
        PunctuationType::Caret,
        PunctuationType::DCaret,
        PunctuationType::Ampersand,
        PunctuationType::DAmpersand,
        PunctuationType::Exclamation,
        PunctuationType::Tilde,
        PunctuationType::Dollar,
    ]
}

/// The punctuation a text spells, if any.
pub open spec fn punctuation_of(s: Seq<char>) -> Option<PunctuationType> {
    if s == "("@ {
        Some(PunctuationType::LParen)
    } else if s == ")"@ {
        Some(PunctuationType::RParen)
    } else if s == "["@ {
        Some(PunctuationType::LSquare)
    } else if s == "]"@ {
        Some(PunctuationType::RSquare)
    } else if s == "{"@ {
        Some(PunctuationType::LCurly)
    } else if s == "}"@ {
        Some(PunctuationType::RCurly)
    } else if s == "="@ {
        Some(PunctuationType::Equal)
    } else if s == "=="@ {
        Some(PunctuationType::DEqual)
    } else if s == "!="@ {
        Some(PunctuationType::ExclamationEqual)
    } else if s == "<"@ {
        Some(PunctuationType::LessThan)
    } else if s == "<<"@ {
        Some(PunctuationType::DLessThan)
    } else if s == "<="@ {
        Some(PunctuationType::LessThanEqual)
    } else if s == ">"@ {
        Some(PunctuationType::GreaterThan)
    } else if s == ">>"@ {
        Some(PunctuationType::DGreaterThan)
    } else if s == ">="@ {
        Some(PunctuationType::GreaterThanEqual)
    } else if s == "<-"@ {
        Some(PunctuationType::LArrow)
    } else if s == "->"@ {
        Some(PunctuationType::RArrow)
    } else if s == "."@ {
        Some(PunctuationType::Period)
    } else if s == ","@ {
        Some(PunctuationType::Comma)
    } else if s == "|"@ {
        Some(PunctuationType::Pipe)
    } else if s == "||"@ {
        Some(PunctuationType::DPipe)
    } else if s == ".."@ {
        Some(PunctuationType::Range)
    } else if s == ":"@ {
        Some(PunctuationType::Colon)
    } else if s == "::"@ {
        Some(PunctuationType::DColon)
    } else if s == ";"@ {
        Some(PunctuationType::Semicolon)
    } else if s == "+"@ {
        Some(PunctuationType::Plus)
    } else if s == "-"@ {
        Some(PunctuationType::Minus)
    } else if s == "*"@ {
        Some(PunctuationType::Star)
    } else if s == "/"@ {
        Some(PunctuationType::Slash)
    } else if s == "%"@ {
        Some(PunctuationType::Percent)
    } else if s == "^"@ {
        Some(PunctuationType::Caret)
    } else if s == "^^"@ {
        Some(PunctuationType::DCaret)
    } else if s == "&"@ {
        Some(PunctuationType::Ampersand)
    } else if s == "&&"@ {
        Some(PunctuationType::DAmpersand)
    } else if s == "!"@ {
        Some(PunctuationType::Exclamation)
    } else if s == "~"@ {
        Some(PunctuationType::Tilde)
    } else if s == "$"@ {
        Some(PunctuationType::Dollar)
    } else {
        None
    }
}

/// Some punctuation starts with `c`.
pub open spec fn spec_could_be_member(c: char) -> bool {
    exists|i: int|
        0 <= i < punctuation_members().len() && (#[trigger] punctuation_members()[i]).text().len() > 0
            && punctuation_members()[i].text()[0] == c
}

/// Punctuation `p` continues the text `s` with the character `c`.
pub open spec fn extends_with(p: PunctuationType, s: Seq<char>, c: char) -> bool {
    &&& s.is_prefix_of(p.text())
    &&& p.text().len() > s.len()
    &&& p.text()[s.len() as int] == c
}

/// The longest remaining length `p.text().len() - s.len()` over the punctuation
/// in `ms` that `s` followed by `c` starts.
pub open spec fn max_extra(ms: Seq<PunctuationType>, s: Seq<char>, c: char) -> Option<nat>
    decreases ms.len(),
{
    if ms.len() == 0 {
        None
    } else {
        let rest = max_extra(ms.drop_last(), s, c);
        let p = ms.last();
        if extends_with(p, s, c) {
            let x = (p.text().len() - s.len()) as nat;
            match rest {
                Some(y) => if y >= x {
                    Some(y)
                } else {
                    Some(x)
                },
                None => Some(x),
            }
        } else {
            rest
        }
    }
}

impl PunctuationType {
    pub open spec fn text(self) -> Seq<char> {
        match self {
            PunctuationType::LParen => "("@,
            PunctuationType::RParen => ")"@,
            PunctuationType::LSquare => "["@,
            PunctuationType::RSquare => "]"@,
            PunctuationType::LCurly => "{"@,
            PunctuationType::RCurly => "}"@,
            PunctuationType::Equal => "="@,
            PunctuationType::DEqual => "=="@,
            PunctuationType::ExclamationEqual => "!="@,
            PunctuationType::LessThan => "<"@,
            PunctuationType::DLessThan => "<<"@,
            PunctuationType::LessThanEqual => "<="@,
            PunctuationType::GreaterThan => ">"@,
            PunctuationType::DGreaterThan => ">>"@,
            PunctuationType::GreaterThanEqual => ">="@,
            PunctuationType::LArrow => "<-"@,
            PunctuationType::RArrow => "->"@,
            PunctuationType::Period => "."@,
            PunctuationType::Comma => ","@,
            PunctuationType::Pipe => "|"@,
            PunctuationType::DPipe => "||"@,
            PunctuationType::Range => ".."@,
            PunctuationType::Colon => ":"@,
            PunctuationType::DColon => "::"@,
            PunctuationType::Semicolon => ";"@,
            PunctuationType::Plus => "+"@,
            PunctuationType::Minus => "-"@,
            PunctuationType::Star => "*"@,
            PunctuationType::Slash => "/"@,
            PunctuationType::Percent => "%"@,
            PunctuationType::Caret => "^"@,
            PunctuationType::DCaret => "^^"@,
            PunctuationType::Ampersand => "&"@,
            PunctuationType::DAmpersand => "&&"@,
            PunctuationType::Exclamation => "!"@,
            PunctuationType::Tilde => "~"@,
            PunctuationType::Dollar => "$"@,
        }
    }

    pub fn value(&self) -> (r: &'static str)
        ensures
            r@ == self.text(),
    {
        match self {
            PunctuationType::LParen => "(",
            PunctuationType::RParen => ")",
            PunctuationType::LSquare => "[",
            PunctuationType::RSquare => "]",
            PunctuationType::LCurly => "{",
            PunctuationType::RCurly => "}",
            PunctuationType::Equal => "=",
            PunctuationType::DEqual => "==",
            PunctuationType::ExclamationEqual => "!=",
            PunctuationType::LessThan => "<",
            PunctuationType::DLessThan => "<<",
            PunctuationType::LessThanEqual => "<=",
            PunctuationType::GreaterThan => ">",
            PunctuationType::DGreaterThan => ">>",
            PunctuationType::GreaterThanEqual => ">=",
            PunctuationType::LArrow => "<-",
            PunctuationType::RArrow => "->",
            PunctuationType::Period => ".",
            PunctuationType::Comma => ",",
            PunctuationType::Pipe => "|",
            PunctuationType::DPipe => "||",
            PunctuationType::Range => "..",
            PunctuationType::Colon => ":",
            PunctuationType::DColon => "::",
            PunctuationType::Semicolon => ";",
            PunctuationType::Plus => "+",
            PunctuationType::Minus => "-",
            PunctuationType::Star => "*",
            PunctuationType::Slash => "/",
            PunctuationType::Percent => "%",
            PunctuationType::Caret => "^",
            PunctuationType::DCaret => "^^",
            PunctuationType::Ampersand => "&",
            PunctuationType::DAmpersand => "&&",
            PunctuationType::Exclamation => "!",
            PunctuationType::Tilde => "~",
            PunctuationType::Dollar => "$",
        }
    }

    fn members() -> (r: Vec<PunctuationType>)
        ensures
            r@ == punctuation_members(),
    {
        let r = vec![
            PunctuationType::LParen,
            PunctuationType::RParen,
            PunctuationType::LSquare,
            PunctuationType::RSquare,
            PunctuationType::LCurly,
            PunctuationType::RCurly,
            PunctuationType::Equal,
            PunctuationType::DEqual,
            PunctuationType::ExclamationEqual,
            PunctuationType::LessThan,
            PunctuationType::DLessThan,
            PunctuationType::LessThanEqual,
            PunctuationType::GreaterThan,
            PunctuationType::DGreaterThan,
            PunctuationType::GreaterThanEqual,
            PunctuationType::LArrow,
            PunctuationType::RArrow,
            PunctuationType::Period,
            PunctuationType::Comma,
            PunctuationType::Pipe,
            PunctuationType::DPipe,
            PunctuationType::Range,
            PunctuationType::Colon,
            PunctuationType::DColon,
            PunctuationType::Semicolon,
            PunctuationType::Plus,
            PunctuationType::Minus,
            PunctuationType::Star,
            PunctuationType::Slash,
            PunctuationType::Percent,
            PunctuationType::Caret,
            PunctuationType::DCaret,
            PunctuationType::Ampersand,
            PunctuationType::DAmpersand,
            PunctuationType::Exclamation,
            PunctuationType::Tilde,
            PunctuationType::Dollar,
        ];
        proof {
            assert(r@ =~= punctuation_members());
        }
        r
    }

    /// The punctuation spelled by `s`, if any.
    pub fn try_from_chars(s: &[char]) -> (r: Option<PunctuationType>)
        ensures
            r == punctuation_of(s@),
    {
        if str_eq_chars("(", s) {
            return Some(PunctuationType::LParen);
        }
        if str_eq_chars(")", s) {
            return Some(PunctuationType::RParen);
        }
        if str_eq_chars("[", s) {
            return Some(PunctuationType::LSquare);
        }
        if str_eq_chars("]", s) {
            return Some(PunctuationType::RSquare);
        }
        if str_eq_chars("{", s) {
            return Some(PunctuationType::LCurly);
        }
        if str_eq_chars("}", s) {
            return Some(PunctuationType::RCurly);
        }
        if str_eq_chars("=", s) {
            return Some(PunctuationType::Equal);
        }
        if str_eq_chars("==", s) {
            return Some(PunctuationType::DEqual);
        }
        if str_eq_chars("!=", s) {
            return Some(PunctuationType::ExclamationEqual);
        }
        if str_eq_chars("<", s) {
            return Some(PunctuationType::LessThan);
        }
        if str_eq_chars("<<", s) {
            return Some(PunctuationType::DLessThan);
        }
        if str_eq_chars("<=", s) {
            return Some(PunctuationType::LessThanEqual);
        }
        if str_eq_chars(">", s) {
            return Some(PunctuationType::GreaterThan);
        }
        if str_eq_chars(">>", s) {
            return Some(PunctuationType::DGreaterThan);
        }
        if str_eq_chars(">=", s) {
            return Some(PunctuationType::GreaterThanEqual);
        }
        if str_eq_chars("<-", s) {
            return Some(PunctuationType::LArrow);
        }
        if str_eq_chars("->", s) {
            return Some(PunctuationType::RArrow);
        }
        if str_eq_chars(".", s) {
            return Some(PunctuationType::Period);
        }
        if str_eq_chars(",", s) {
            return Some(PunctuationType::Comma);
        }
        if str_eq_chars("|", s) {
            return Some(PunctuationType::Pipe);
        }
        if str_eq_chars("||", s) {
            return Some(PunctuationType::DPipe);
        }
        if str_eq_chars("..", s) {
            return Some(PunctuationType::Range);
        }
        if str_eq_chars(":", s) {
            return Some(PunctuationType::Colon);
        }
        if str_eq_chars("::", s) {
            return Some(PunctuationType::DColon);
        }
        if str_eq_chars(";", s) {
            return Some(PunctuationType::Semicolon);
        }
        if str_eq_chars("+", s) {
            return Some(PunctuationType::Plus);
        }
        if str_eq_chars("-", s) {
            return Some(PunctuationType::Minus);
        }
        if str_eq_chars("*", s) {
            return Some(PunctuationType::Star);
        }
        if str_eq_chars("/", s) {
            return Some(PunctuationType::Slash);
        }
        if str_eq_chars("%", s) {
            return Some(PunctuationType::Percent);
        }
        if str_eq_chars("^", s) {
            return Some(PunctuationType::Caret);
        }
        if str_eq_chars("^^", s) {
            return Some(PunctuationType::DCaret);
        }
        if str_eq_chars("&", s) {
            return Some(PunctuationType::Ampersand);
        }
        if str_eq_chars("&&", s) {
            return Some(PunctuationType::DAmpersand);
        }
        if str_eq_chars("!", s) {
            return Some(PunctuationType::Exclamation);
        }
        if str_eq_chars("~", s) {
            return Some(PunctuationType::Tilde);
        }
        if str_eq_chars("$", s) {
            return Some(PunctuationType::Dollar);
        }
        None
    }

    pub fn is_member(s: &[char]) -> (r: bool)
        ensures
            r == punctuation_of(s@) is Some,
    {
        Self::try_from_chars(s).is_some()
    }

    /// Whether some punctuation starts with `c`.
    pub fn could_be_member(c: char) -> (r: bool)
        ensures
            r == spec_could_be_member(c),
    {
        let ms = Self::members();
        let mut i: usize = 0;
        while i < ms.len()
            invariant
                ms@ == punctuation_members(),
                i <= ms@.len(),
                forall|j: int|
                    0 <= j < i ==> !((#[trigger] punctuation_members()[j]).text().len() > 0
                        && punctuation_members()[j].text()[0] == c),
            decreases ms@.len() - i,
        {
            let t = ms[i].value();
            if t.unicode_len() > 0 && t.get_char(0) == c {
                return true;
            }
            i = i + 1;
        }
        false
    }

    /// How many more characters the longest punctuation that continues `s` with
    /// `c` still needs, counting `c`; `None` when no punctuation does.
    pub fn possible_extra_chars(s: &[char], c: char) -> (r: Option<usize>)
        ensures
            r matches Some(x) ==> max_extra(punctuation_members(), s@, c) == Some(x as nat),
            r is None <==> max_extra(punctuation_members(), s@, c) is None,
    {
        let ms = Self::members();
        let mut best: Option<usize> = None;
        let mut i: usize = 0;
        while i < ms.len()
            invariant
                ms@ == punctuation_members(),
                i <= ms@.len(),
                best matches Some(x) ==> max_extra(ms@.take(i as int), s@, c) == Some(x as nat),
                best is None <==> max_extra(ms@.take(i as int), s@, c) is None,
            decreases ms@.len() - i,
        {
            let t = ms[i].value();
            proof {
                assert(ms@.take(i + 1).drop_last() =~= ms@.take(i as int));
                assert(ms@.take(i + 1).last() == ms@[i as int]);
            }
            if extends_with_exec(t, s, c) {
                let x = t.unicode_len() - s.len();
                best = match best {
                    Some(y) => if y >= x {
                        Some(y)
                    } else {
                        Some(x)
                    },
                    None => Some(x),
                };
            }
            i = i + 1;
        }
        proof {
            assert(ms@.take(ms@.len() as int) =~= ms@);
        }
        best
    }
}

/// Whether `t` starts with `s` and then continues with `c`.
fn extends_with_exec(t: &str, s: &[char], c: char) -> (r: bool)
    ensures
        r == (s@.is_prefix_of(t@) && t@.len() > s@.len() && t@[s@.len() as int] == c),
{
    let n = t.unicode_len();
    if n <= s.len() {
        return false;
    }
    let mut i: usize = 0;
    while i < s.len()
        invariant
            n == t@.len(),
            n > s@.len(),
            i <= s@.len(),
            forall|j: int| 0 <= j < i ==> t@[j] == s@[j],
        decreases s@.len() - i,
    {
        if t.get_char(i) != s[i] {
            proof {
                assert(!s@.is_prefix_of(t@));
            }
            return false;
        }
        i = i + 1;
    }
    t.get_char(s.len()) == c
}

// ---------------------------------------------------------------------------
// Numbers
// ---------------------------------------------------------------------------

/// Why a numeric literal could not be read, as `std::num::IntErrorKind` names it.
#[derive(Debug, Clone, Copy, PartialEq, Eq)]
pub enum IntErrorKind {
    Empty,
    InvalidDigit,
    PosOverflow,
    NegOverflow,
    Zero,
}

/// The value of a digit character in a radix, as `char::to_digit` gives it.
pub open spec fn digit_value(c: char, radix: nat) -> Option<nat> {
    let v: nat = if '0' <= c && c <= '9' {
        (c as nat - '0' as nat) as nat
    } else if 'a' <= c && c <= 'z' {
        (c as nat - 'a' as nat + 10) as nat
    } else if 'A' <= c && c <= 'Z' {
        (c as nat - 'A' as nat + 10) as nat
    } else {
        36
    };
    if v < radix {
        Some(v)
    } else {
        None
    }
}

/// The digits of a radix up to 36 are `0`-`9` for zero to nine, then the
/// letters for ten to thirty-five, a capital letter standing for the same
/// digit as its small form; a digit counts only below the radix.
pub proof fn lemma_digit_values(k: nat, radix: nat)
    ensures
        k < 10 ==> digit_value((('0' as nat) + k) as char, radix) == (if k < radix {
            Some(k)
        } else {
            None::<nat>
        }),
        k < 26 ==> digit_value((('a' as nat) + k) as char, radix) == (if 10 + k < radix {
            Some(10 + k)
        } else {
            None::<nat>
        }),
        k < 26 ==> digit_value((('A' as nat) + k) as char, radix) == digit_value((('a' as nat) + k) as char, radix),
{
}

/// A character that is neither a decimal digit nor an ASCII letter is no
/// digit in any radix up to 36.
pub proof fn lemma_non_digits(c: char, radix: nat)
    requires
        radix <= 36,
        !('0' <= c <= '9'),
        !('a' <= c <= 'z'),
        !('A' <= c <= 'Z'),
    ensures
        digit_value(c, radix) is None,
{
}

/// Digits read left to right build the number in the radix: each digit
/// multiplies what was read by the radix and adds itself.
pub proof fn lemma_radix_digits_step(s: Seq<char>, c: char, radix: nat, v: nat, d: nat)
    requires
        radix_digits(s, radix) == Ok::<nat, IntErrorKind>(v),
        digit_value(c, radix) == Some(d),
        v * radix + d <= u32::MAX,
    ensures
        radix_digits(s.push(c), radix) == Ok::<nat, IntErrorKind>(v * radix + d),
{
    assert(s.push(c).drop_last() =~= s);
}

/// Reading digits left to right into a `u32`: the first bad digit or the first
/// overflow decides the error.
pub open spec fn radix_digits(s: Seq<char>, radix: nat) -> Result<nat, IntErrorKind>
    decreases s.len(),
{
    if s.len() == 0 {
        Ok(0)
    } else {
        match radix_digits(s.drop_last(), radix) {
            Err(e) => Err(e),
            Ok(v) => match digit_value(s.last(), radix) {
                None => Err(IntErrorKind::InvalidDigit),
                Some(d) => if v * radix + d > u32::MAX {
                    Err(IntErrorKind::PosOverflow)
                } else {
                    Ok(v * radix + d)
                },
            },
        }
    }
}

/// `u32::from_str_radix`: an optional `+`, then at least one digit.
pub open spec fn spec_from_str_radix(s: Seq<char>, radix: nat) -> Result<nat, IntErrorKind> {
    if s.len() == 0 {
        Err(IntErrorKind::Empty)
    } else if (s[0] == '+' || s[0] == '-') && s.len() == 1 {
        Err(IntErrorKind::InvalidDigit)
    } else if s[0] == '+' {
        radix_digits(s.drop_first(), radix)
    } else {
        radix_digits(s, radix)
    }
}

fn to_digit(c: char, radix: u32) -> (r: Option<u32>)
    requires
        radix <= 36,
    ensures
        r matches Some(d) ==> digit_value(c, radix as nat) == Some(d as nat),
        r is None <==> digit_value(c, radix as nat) is None,
{
    let v: u32 = if '0' <= c && c <= '9' {
        c as u32 - '0' as u32
    } else if 'a' <= c && c <= 'z' {
        c as u32 - 'a' as u32 + 10
    } else if 'A' <= c && c <= 'Z' {
        c as u32 - 'A' as u32 + 10
    } else {
        36
    };
    if v < radix {
        Some(v)
    } else {
        None
    }
}

/// Reads an unsigned number in a radix from 2 to 36.
pub fn from_str_radix(s: &[char], radix: u32) -> (r: Result<u32, IntErrorKind>)
    requires
        2 <= radix <= 36,
    ensures
        r matches Ok(v) ==> spec_from_str_radix(s@, radix as nat) == Ok::<nat, IntErrorKind>(v as nat),
        r matches Err(e) ==> spec_from_str_radix(s@, radix as nat) == Err::<nat, IntErrorKind>(e),
        r matches Err(e) ==> e != IntErrorKind::Zero,
{
    if s.len() == 0 {
        return Err(IntErrorKind::Empty);
    }
    if (s[0] == '+' || s[0] == '-') && s.len() == 1 {
        return Err(IntErrorKind::InvalidDigit);
    }
    let first: usize = if s[0] == '+' {
        1
    } else {
        0
    };
    let ghost digits = s@.subrange(first as int, s@.len() as int);
    proof {
        if first == 1 {
            assert(digits =~= s@.drop_first());
        } else {
            assert(digits =~= s@);
        }
        assert(spec_from_str_radix(s@, radix as nat) == radix_digits(digits, radix as nat));
        assert(s@.subrange(first as int, first as int) =~= Seq::<char>::empty());
    }
    let mut acc: u32 = 0;
    let mut i: usize = first;
    while i < s.len()
        invariant
            first <= i <= s@.len(),
            digits == s@.subrange(first as int, s@.len() as int),
            spec_from_str_radix(s@, radix as nat) == radix_digits(digits, radix as nat),
            2 <= radix <= 36,
            radix_digits(s@.subrange(first as int, i as int), radix as nat) == Ok::<nat, IntErrorKind>(acc as nat),
        decreases s@.len() - i,
    {
        let ghost pre = s@.subrange(first as int, i as int);
        let ghost next = s@.subrange(first as int, i + 1);
        proof {
            assert(next.drop_last() =~= pre);
            assert(next.last() == s@[i as int]);
        }
        let d = match to_digit(s[i], radix) {
            Some(d) => d,
            None => {
                proof {
                    assert(radix_digits(next, radix as nat) == Err::<nat, IntErrorKind>(IntErrorKind::InvalidDigit));
                    assert(digits.take((i - first) as int + 1) =~= next);
                    lemma_radix_error_sticks(digits, (i - first) as int + 1, radix as nat);
                }
                return Err(IntErrorKind::InvalidDigit);
            },
        };
        assert((acc as u64) * (radix as u64) <= 0xffff_ffffu64 * 36) by (nonlinear_arith)
            requires
                acc <= 0xffff_ffffu32,
                radix <= 36,
        ;
        let wide: u64 = acc as u64 * radix as u64 + d as u64;
        if wide > u32::MAX as u64 {
            proof {
                assert(radix_digits(next, radix as nat) == Err::<nat, IntErrorKind>(IntErrorKind::PosOverflow));
                assert(digits.take((i - first) as int + 1) =~= next);
                lemma_radix_error_sticks(digits, (i - first) as int + 1, radix as nat);
            }
            return Err(IntErrorKind::PosOverflow);
        }
        acc = wide as u32;
        i = i + 1;
    }
    proof {
        assert(s@.subrange(first as int, s@.len() as int) =~= digits);
    }
    Ok(acc)
}

/// Once a prefix of the digits fails, the whole fails the same way.
proof fn lemma_radix_error_sticks(s: Seq<char>, k: int, radix: nat)
    requires
        0 <= k <= s.len(),
        radix_digits(s.take(k), radix) is Err,
    ensures
        radix_digits(s, radix) == radix_digits(s.take(k), radix),
    decreases s.len() - k,
{
    if k < s.len() {
        assert(s.take(k + 1).drop_last() =~= s.take(k));
        lemma_radix_error_sticks(s, k + 1, radix);
    } else {
        assert(s.take(k) =~= s);
    }
}

// ---------------------------------------------------------------------------
// Tokens
// ---------------------------------------------------------------------------

pub type IdentId = usize;

/// The kind of a token. Identifiers and integers carry their value, but two
/// tokens compare equal by kind alone: any two identifiers are equal, any two
/// integers are equal.
#[derive(Debug, Clone, Copy, Eq, Hash)]
pub enum TokenType {
    Ident(IdentId),
    Integer(isize),
    Keyword(KeywordType),
    Punctuation(PunctuationType),
}

impl TokenType {
    /// Equality by kind.
    pub open spec fn same_kind(self, other: TokenType) -> bool {
        match (self, other) {
            (TokenType::Ident(_), TokenType::Ident(_)) => true,
            (TokenType::Integer(_), TokenType::Integer(_)) => true,
            (TokenType::Keyword(a), TokenType::Keyword(b)) => a == b,
            (TokenType::Punctuation(a), TokenType::Punctuation(b)) => a == b,
            _ => false,
        }
    }

    pub fn is(&self, other: &TokenType) -> (r: bool)
        ensures
            r == self.same_kind(*other),
    {
        match (self, other) {
            (TokenType::Ident(_), TokenType::Ident(_)) => true,
            (TokenType::Integer(_), TokenType::Integer(_)) => true,
            (TokenType::Keyword(a), TokenType::Keyword(b)) => *a == *b,
            (TokenType::Punctuation(a), TokenType::Punctuation(b)) => *a == *b,
            _ => false,
        }
    }
}

impl PartialEq for TokenType {
    fn eq(&self, other: &TokenType) -> (r: bool) {
        self.is(other)
    }
}

impl vstd::std_specs::cmp::PartialEqSpecImpl for TokenType {
    open spec fn obeys_eq_spec() -> bool {
        true
    }

    open spec fn eq_spec(&self, other: &TokenType) -> bool {
        self.same_kind(*other)
    }
}

/// The token kinds of an identifier, an integer, a keyword and a punctuation.
pub fn ident() -> (t: TokenType)
    ensures
        t == TokenType::Ident(0),
{
    TokenType::Ident(0)
}

pub fn integer() -> (t: TokenType)
    ensures
        t == TokenType::Integer(0),
{
    TokenType::Integer(0)
}

pub fn keyword(k: KeywordType) -> (t: TokenType)
    ensures
        t == TokenType::Keyword(k),
{
    TokenType::Keyword(k)
}

pub fn punctuation(p: PunctuationType) -> (t: TokenType)
    ensures
        t == TokenType::Punctuation(p),
{
    TokenType::Punctuation(p)
}

#[derive(Debug)]
pub enum TokeniserError {
    InvalidToken(String),
    InvalidNumericLiteral(String, IntErrorKind),
    InvalidNumericBase(String),
}

/// What the tokeniser makes of a token's text, identifiers left unnumbered.
pub enum Classified {
    Keyword(KeywordType),
    Punctuation(PunctuationType),
    Integer(isize),
    Ident,
    BadLiteral(IntErrorKind),
    BadBase,
    Invalid,
}

/// The index of the first `#` in a text.
pub open spec fn hash_index(s: Seq<char>) -> Option<int> {
    if s.contains('#') {
        Some(choose|i: int| 0 <= i < s.len() && s[i] == '#' && forall|j: int| 0 <= j < i ==> s[j] != '#')
    } else {
        None
    }
}

/// Reading an integer literal: either decimal digits, or a decimal base, `#`,
/// and digits in that base.
pub open spec fn spec_parse_integer(v: Seq<char>) -> Classified {
    let (base, num) = match hash_index(v) {
        Some(k) => (spec_from_str_radix(v.take(k), 10), v.skip(k + 1)),
        None => (Ok::<nat, IntErrorKind>(10), v),
    };
    match base {
        Err(e) => Classified::BadLiteral(e),
        Ok(b) => if b < 2 || b > 36 {
            Classified::BadBase
        } else {
            match spec_from_str_radix(num, b) {
                Ok(n) => Classified::Integer((n as u32) as isize),
                Err(e) => Classified::BadLiteral(e),
            }
        },
    }
}

pub open spec fn spec_is_ident_char(c: char) -> bool {
    is_alphanumeric_char(c) || c == '_' || c == '\''
}

pub open spec fn spec_is_ident(v: Seq<char>) -> bool {
    &&& v.len() > 0
    &&& spec_is_ident_char(v[0]) && !is_numeric_char(v[0])
    &&& forall|i: int| 0 <= i < v.len() ==> spec_is_ident_char(#[trigger] v[i])
}

/// How the text of a token is read: keyword, then punctuation, then a number
/// (when it starts with a numeric character), then an identifier.
pub open spec fn spec_classify(v: Seq<char>) -> Classified {
    if keyword_of(v) is Some {
        Classified::Keyword(keyword_of(v).unwrap())
    } else if punctuation_of(v) is Some {
        Classified::Punctuation(punctuation_of(v).unwrap())
    } else if v.len() > 0 && is_numeric_char(v[0]) {
        spec_parse_integer(v)
    } else if spec_is_ident(v) {
        Classified::Ident
    } else {
        Classified::Invalid
    }
}

/// Whether a token type is what the classification of a text gives; an
/// identifier's number must name that text in the interner.
pub open spec fn token_matches(t: TokenType, v: Seq<char>, names: Seq<Seq<char>>) -> bool {
    match (spec_classify(v), t) {
        (Classified::Keyword(k), TokenType::Keyword(k2)) => k == k2,
        (Classified::Punctuation(p), TokenType::Punctuation(p2)) => p == p2,
        (Classified::Integer(n), TokenType::Integer(n2)) => n == n2,
        (Classified::Ident, TokenType::Ident(id)) => id < names.len() && names[id as int] == v,
        _ => false,
    }
}

/// The classification of a text is an error.
pub open spec fn is_error(c: Classified) -> bool {
    match c {
        Classified::BadLiteral(_) | Classified::BadBase | Classified::Invalid => true,
        _ => false,
    }
}

fn is_ident_char(c: char) -> (r: bool)
    ensures
        r == spec_is_ident_char(c),
{
    char_is_alphanumeric(c) || c == '_' || c == '\''
}

fn is_ident(v: &[char]) -> (r: bool)
    ensures
        r == spec_is_ident(v@),
{
    if v.len() == 0 {
        return false;
    }
    if !(is_ident_char(v[0]) && !char_is_numeric(v[0])) {
        return false;
    }
    let mut i: usize = 0;
    while i < v.len()
        invariant
            i <= v@.len(),
            forall|j: int| 0 <= j < i ==> spec_is_ident_char(#[trigger] v@[j]),
        decreases v@.len() - i,
    {
        if !is_ident_char(v[i]) {
            return false;
        }
        i = i + 1;
    }
    true
}

fn find_hash(v: &[char]) -> (r: Option<usize>)
    ensures
        r matches Some(k) ==> k < v@.len() && hash_index(v@) == Some(k as int),
        r is None <==> hash_index(v@) is None,
{
    let mut i: usize = 0;
    while i < v.len()
        invariant
            i <= v@.len(),
            forall|j: int| 0 <= j < i ==> v@[j] != '#',
        decreases v@.len() - i,
    {
        if v[i] == '#' {
            proof {
                assert(v@.contains('#'));
                let k = choose|k: int| 0 <= k < v@.len() && v@[k] == '#' && forall|j: int| 0 <= j < k ==> v@[j] != '#';
                if k < i {
                    assert(v@[k] != '#');
                }
                if k > i {
                    assert(v@[i as int] != '#');
                }
            }
            return Some(i);
        }
        i = i + 1;
    }
    proof {
        if v@.contains('#') {
            let k = choose|k: int| 0 <= k < v@.len() && v@[k] == '#';
            assert(v@[k] != '#');
        }
    }
    None
}

/// Reads an integer literal (see `spec_parse_integer`).
pub fn parse_integer(v: &[char]) -> (r: Result<isize, TokeniserError>)
    ensures
        match (spec_parse_integer(v@), r) {
            (Classified::Integer(n), Ok(m)) => n == m,
            (Classified::BadLiteral(e), Err(TokeniserError::InvalidNumericLiteral(s, e2))) => e
                == e2 && s@ == v@,
            (Classified::BadBase, Err(TokeniserError::InvalidNumericBase(s))) => s@ == v@,
            _ => false,
        },
        r matches Err(e) ==> e.describable(),
{
    let n = v.len();
    let (base, num_start): (u32, usize) = match find_hash(v) {
        Some(k) => {
            assert(k < n);
            let base_str = slice_prefix(v, k);
            match from_str_radix(base_str, 10) {
                Ok(b) => (b, k + 1),
                Err(e) => {
                    proof {
                        assert(base_str@ =~= v@.take(k as int));
                    }
                    return Err(TokeniserError::InvalidNumericLiteral(string_from_chars(v), e));
                },
            }
        },
        None => (10, 0),
    };
    proof {
        if num_start > 0 {
            assert(v@.take((num_start - 1) as int) =~= v@.take((num_start - 1) as int));
        }
    }
    if 2 > base || base > 36 {
        return Err(TokeniserError::InvalidNumericBase(string_from_chars(v)));
    }
    let num = slice_suffix(v, num_start);
    proof {
        if num_start == 0 {
            assert(num@ =~= v@);
        }
    }
    match from_str_radix(num, base) {
        Ok(n) => Ok(n as isize),
        Err(e) => Err(TokeniserError::InvalidNumericLiteral(string_from_chars(v), e)),
    }
}

fn slice_prefix(v: &[char], k: usize) -> (r: &[char])
    requires
        k <= v@.len(),
    ensures
        r@ == v@.take(k as int),
{
    let r = vstd::slice::slice_subrange(v, 0, k);
    proof {
        assert(r@ =~= v@.take(k as int));
    }
    r
}

fn slice_suffix(v: &[char], k: usize) -> (r: &[char])
    requires
        k <= v@.len(),
    ensures
        r@ == v@.skip(k as int),
{
    let r = vstd::slice::slice_subrange(v, k, v.len());
    proof {
        assert(r@ =~= v@.skip(k as int));
    }
    r
}

/// Reads the text of one token.
fn token_type_from_chars(value: &[char], interner: &mut Interner) -> (r: Result<
    TokenType,
    TokeniserError,
>)
    requires
        old(interner).wf(),
    ensures
        final(interner).wf(),
        old(interner).view().is_prefix_of(final(interner).view()),
        r matches Ok(t) ==> token_matches(t, value@, final(interner).view()),
        r is Err <==> is_error(spec_classify(value@)),
        r matches Err(e) ==> e.describable(),
{
    if let Some(kw) = KeywordType::try_from_chars(value) {
        proof {
            assert(old(interner).view().is_prefix_of(old(interner).view()));
        }
        return Ok(TokenType::Keyword(kw));
    }
    if let Some(p) = PunctuationType::try_from_chars(value) {
        proof {
            assert(old(interner).view().is_prefix_of(old(interner).view()));
        }
        return Ok(TokenType::Punctuation(p));
    }
    proof {
        assert(old(interner).view().is_prefix_of(old(interner).view()));
    }
    if value.len() > 0 && char_is_numeric(value[0]) {
        return match parse_integer(value) {
            Ok(n) => Ok(TokenType::Integer(n)),
            Err(e) => Err(e),
        };
    }
    if is_ident(value) {
        let id = interner.intern_ref(value);
        proof {
            if old(interner).view().contains(value@) {
                assert(interner.view() == old(interner).view());
            } else {
                assert(old(interner).view().is_prefix_of(interner.view()));
            }
        }
        return Ok(TokenType::Ident(id));
    }
    Err(TokeniserError::InvalidToken(string_from_chars(value)))
}

// ---------------------------------------------------------------------------
// The tokeniser
// ---------------------------------------------------------------------------

#[derive(Debug, Clone, Copy)]
pub struct Token {
    pub pos: Pos,
    pub token: TokenType,
}

impl Token {
    pub fn new(module_id: ModuleId, line: usize, col: usize, start: usize, span: usize, token: TokenType) -> (t: Self)
        ensures
            t.pos == (Pos::Pos { module_id, line, col, start, span }),
            t.token == token,
    {
        Token { pos: Pos::new(module_id, line, col, start, span), token }
    }

    pub fn token_type(&self) -> (t: &TokenType)
        ensures
            *t == self.token,
    {
        &self.token
    }

    pub fn pos(&self) -> (p: Pos)
        ensures
            p == self.pos,
    {
        self.pos
    }

    pub open spec fn spec_value(self) -> Seq<char> {
        match self.token {
            TokenType::Ident(_) => "identifier"@,
            TokenType::Integer(_) => "integer literal"@,
            TokenType::Keyword(k) => k.text(),
            TokenType::Punctuation(p) => p.text(),
        }
    }

    /// How the token is named in messages.
    pub fn value(&self) -> (r: &'static str)
        ensures
            r@ == self.spec_value(),
    {
        match &self.token {
            TokenType::Ident(_) => "identifier",
            TokenType::Integer(_) => "integer literal",
            TokenType::Keyword(kt) => kt.value(),
            TokenType::Punctuation(pt) => pt.value(),
        }
    }
}

/// Tokens handed out one at a time.
pub struct TokenStream<'a> {
    tokens: &'a [Token],
    index: usize,
}

impl<'a> TokenStream<'a> {
    pub closed spec fn remaining(&self) -> Seq<Token> {
        self.tokens@.skip(self.index as int)
    }

    pub closed spec fn wf(&self) -> bool {
        &&& self.index <= self.tokens@.len()
        &&& self.tokens@.len() <= usize::MAX
    }

    /// A stream never holds more tokens than a `usize` counts.
    pub proof fn lemma_remaining_fits(&self)
        requires
            self.wf(),
        ensures
            self.remaining().len() <= usize::MAX,
    {
    }

    pub fn new(tokens: &'a [Token]) -> (s: Self)
        ensures
            s.wf(),
            s.remaining() == tokens@,
    {
        let _ = tokens.len();
        let s = TokenStream { tokens, index: 0 };
        proof {
            assert(tokens@.skip(0) =~= tokens@);
        }
        s
    }

    pub fn peek(&self) -> (r: Option<&'a Token>)
        requires
            self.wf(),
        ensures
            self.remaining().len() > 0 ==> (r matches Some(t) && *t == self.remaining()[0]),
            self.remaining().len() == 0 ==> r is None,
    {
        if self.index < self.tokens.len() {
            Some(&self.tokens[self.index])
        } else {
            None
        }
    }

    pub fn next(&mut self) -> (r: Option<&'a Token>)
        requires
            old(self).wf(),
        ensures
            final(self).wf(),
            old(self).remaining().len() > 0 ==> (r matches Some(t) && *t == old(self).remaining()[0]
                && final(self).remaining() == old(self).remaining().drop_first()),
            old(self).remaining().len() == 0 ==> r is None && final(self).remaining() == old(self).remaining(),
    {
        if self.index < self.tokens.len() {
            let t = &self.tokens[self.index];
            proof {
                assert(self.tokens@.skip(self.index + 1) =~= self.tokens@.skip(self.index as int).drop_first());
            }
            self.index = self.index + 1;
            Some(t)
        } else {
            None
        }
    }
}

pub struct TokeniserResult {
    pub module_id: ModuleId,
    pub tokens: Vec<Token>,
    pub diagnostics: Diagnostics,
}

impl TokeniserResult {
    pub fn tokens(&self) -> (s: TokenStream<'_>)
        ensures
            s.wf(),
            s.remaining() == self.tokens@,
    {
        TokenStream::new(self.tokens.as_slice())
    }
}

/// The byte offsets of the characters of a text, and its byte length last.
pub open spec fn offsets_ok(chars: Seq<char>, offs: Seq<usize>) -> bool {
    &&& offs.len() == chars.len() + 1
    &&& offs[0] == 0
    &&& forall|k: int| 0 <= k < chars.len() ==> #[trigger] offs[k + 1] == offs[k] + utf8_len(chars[k])
}

proof fn lemma_offsets_mono(chars: Seq<char>, offs: Seq<usize>, a: int, b: int)
    requires
        offsets_ok(chars, offs),
        0 <= a <= b <= chars.len(),
    ensures
        offs[a] + (b - a) <= offs[b],
    decreases b - a,
{
    if a < b {
        lemma_offsets_mono(chars, offs, a, b - 1);
        assert(offs[(b - 1) + 1] == offs[b - 1] + utf8_len(chars[b - 1]));
    }
}

/// Splits a text into tokens.
pub struct Tokeniser<'i> {
    module_id: ModuleId,
    input: Vec<char>,
    offsets: Vec<usize>,
    index: usize,
    line: usize,
    linestart: usize,
    _marker: std::marker::PhantomData<&'i ()>,
}

/// A token's line, column, start byte and end byte.
pub type TokenRange = (usize, usize, usize, usize);

impl<'i> Tokeniser<'i> {
    pub closed spec fn wf(&self) -> bool {
        &&& offsets_ok(self.input@, self.offsets@)
        &&& self.index <= self.input@.len()
        &&& self.linestart <= self.offsets@[self.index as int]
        &&& self.line <= self.index
    }

    /// The characters of the text.
    pub closed spec fn text(&self) -> Seq<char> {
        self.input@
    }

    /// The byte offset of each character, and the text's byte length last.
    pub closed spec fn byte_offsets(&self) -> Seq<usize> {
        self.offsets@
    }

    pub closed spec fn spec_module_id(&self) -> ModuleId {
        self.module_id
    }

    /// How many characters have been consumed.
    pub closed spec fn index_spec(&self) -> usize {
        self.index
    }

    pub fn new(module_id: ModuleId, input: &'i str) -> (t: Self)
        requires
            utf8_total(input@) <= usize::MAX,
        ensures
            t.wf(),
            t.text() == input@,
            t.index_spec() == 0,
            t.spec_module_id() == module_id,
    {
        let chars = crate::util::text::chars_of(input);
        let mut offsets: Vec<usize> = Vec::new();
        offsets.push(0);
        let mut k: usize = 0;
        while k < chars.len()
            invariant
                chars@ == input@,
                k <= chars@.len(),
                offsets@.len() == k + 1,
                offsets@[0] == 0,
                forall|j: int| 0 <= j < k ==> #[trigger] offsets@[j + 1] == offsets@[j] + utf8_len(chars@[j]),
                offsets@[k as int] == utf8_total(chars@.take(k as int)),
                utf8_total(input@) <= usize::MAX,
            decreases chars@.len() - k,
        {
            proof {
                assert(chars@.take(k + 1).drop_last() =~= chars@.take(k as int));
                lemma_utf8_total_prefix(chars@, k as int + 1);
            }
            let next = offsets[k] + char_utf8_len(chars[k]);
            offsets.push(next);
            k = k + 1;
        }
        Tokeniser {
            module_id,
            input: chars,
            offsets,
            index: 0,
            line: 0,
            linestart: 0,
            _marker: std::marker::PhantomData,
        }
    }
}

/// A prefix never takes more bytes than the whole.
pub proof fn lemma_utf8_total_prefix(s: Seq<char>, k: int)
    requires
        0 <= k <= s.len(),
    ensures
        utf8_total(s.take(k)) <= utf8_total(s),
    decreases s.len() - k,
{
    if k < s.len() {
        lemma_utf8_total_prefix(s, k + 1);
        assert(s.take(k + 1).drop_last() =~= s.take(k));
    } else {
        assert(s.take(k) =~= s);
    }
}

/// A punctuation character starts some punctuation of at least one more character.
proof fn lemma_member_extends(c: char)
    requires
        spec_could_be_member(c),
    ensures
        max_extra(punctuation_members(), Seq::<char>::empty(), c) is Some,
{
    let i = choose|i: int|
        0 <= i < punctuation_members().len() && (#[trigger] punctuation_members()[i]).text().len() > 0
            && punctuation_members()[i].text()[0] == c;
    let p = punctuation_members()[i];
    assert(Seq::<char>::empty().is_prefix_of(p.text()));
    assert(extends_with(p, Seq::<char>::empty(), c));
    lemma_max_extra_some(punctuation_members(), Seq::<char>::empty(), c, i);
}

proof fn lemma_max_extra_some(ms: Seq<PunctuationType>, s: Seq<char>, c: char, i: int)
    requires
        0 <= i < ms.len(),
        extends_with(ms[i], s, c),
    ensures
        max_extra(ms, s, c) is Some,
    decreases ms.len(),
{
    if i < ms.len() - 1 {
        assert(ms.drop_last()[i] == ms[i]);
        lemma_max_extra_some(ms.drop_last(), s, c, i);
    }
}

/// Whatever punctuation continues a text still needs at least one character.
proof fn lemma_max_extra_pos(ms: Seq<PunctuationType>, s: Seq<char>, c: char)
    ensures
        max_extra(ms, s, c) matches Some(x) ==> x >= 1,
    decreases ms.len(),
{
    if ms.len() > 0 {
        lemma_max_extra_pos(ms.drop_last(), s, c);
    }
}

/// The first index at or after `i` that is not whitespace (or the end).
pub open spec fn skip_ws(t: Seq<char>, i: int) -> int
    decreases t.len() - i,
{
    if i >= t.len() || !is_whitespace_char(t[i]) {
        i
    } else {
        skip_ws(t, i + 1)
    }
}

/// The end of a word starting before `i`: the first index at or after `i`
/// that is whitespace, could start punctuation, or is the end.
pub open spec fn word_end(t: Seq<char>, i: int) -> int
    decreases t.len() - i,
{
    if i >= t.len() || is_whitespace_char(t[i]) || spec_could_be_member(t[i]) {
        i
    } else {
        word_end(t, i + 1)
    }
}

/// The end of the punctuation that starts at `start`, having read up to `p`:
/// it grows by one character while some punctuation continues with it, and
/// stops before whitespace or at the end.
pub open spec fn punct_end(t: Seq<char>, start: int, p: int) -> int
    decreases t.len() - p,
{
    if p >= t.len() || max_extra(punctuation_members(), t.subrange(start, p), t[p]) is None {
        p
    } else if p + 1 >= t.len() || is_whitespace_char(t[p + 1]) {
        p + 1
    } else {
        punct_end(t, start, p + 1)
    }
}

/// Where the token that starts at `a` ends: the longest punctuation, or the
/// word up to the next whitespace or punctuation.
pub open spec fn token_end(t: Seq<char>, a: int) -> int {
    let e = if spec_could_be_member(t[a]) {
        punct_end(t, a, a)
    } else {
        word_end(t, a + 1)
    };
    if e > a {
        e
    } else {
        a + 1
    }
}

/// The character ranges of the tokens of `t` from index `i` on, in order.
pub open spec fn segments(t: Seq<char>, i: int) -> Seq<(int, int)>
    decreases t.len() - i,
{
    let a = skip_ws(t, i);
    if a >= t.len() || a < i || a < 0 {
        Seq::empty()
    } else {
        let b = token_end(t, a);
        proof {
            lemma_token_end_bounds(t, a);
        }
        seq![(a, b)] + segments(t, b)
    }
}

proof fn lemma_word_end_bounds(t: Seq<char>, i: int)
    requires
        i <= t.len(),
    ensures
        i <= word_end(t, i) <= t.len(),
    decreases t.len() - i,
{
    if i < t.len() && !is_whitespace_char(t[i]) && !spec_could_be_member(t[i]) {
        lemma_word_end_bounds(t, i + 1);
    }
}

proof fn lemma_punct_end_bounds(t: Seq<char>, start: int, p: int)
    requires
        p <= t.len(),
    ensures
        p <= punct_end(t, start, p) <= t.len(),
    decreases t.len() - p,
{
    if p < t.len() && max_extra(punctuation_members(), t.subrange(start, p), t[p]) is Some && p + 1 < t.len()
        && !is_whitespace_char(t[p + 1]) {
        lemma_punct_end_bounds(t, start, p + 1);
    }
}

/// A token that starts inside the text ends after its start and within the text.
pub proof fn lemma_token_end_bounds(t: Seq<char>, a: int)
    requires
        0 <= a < t.len(),
    ensures
        a < token_end(t, a) <= t.len(),
{
    lemma_word_end_bounds(t, a + 1);
    lemma_punct_end_bounds(t, a, a);
}

/// The characters of range `seg` do not form a token.
pub open spec fn unreadable(t: Seq<char>, seg: (int, int)) -> bool {
    is_error(spec_classify(t.subrange(seg.0, seg.1)))
}

/// How many of the ranges `segs` do not form a token.
pub open spec fn unreadable_count(t: Seq<char>, segs: Seq<(int, int)>) -> nat
    decreases segs.len(),
{
    if segs.len() == 0 {
        0
    } else {
        unreadable_count(t, segs.drop_last()) + if unreadable(t, segs.last()) {
            1nat
        } else {
            0nat
        }
    }
}

proof fn lemma_skip_ws_ge(t: Seq<char>, i: int)
    ensures
        skip_ws(t, i) >= i,
        i <= t.len() ==> skip_ws(t, i) <= t.len(),
    decreases t.len() - i,
{
    if i < t.len() && is_whitespace_char(t[i]) {
        lemma_skip_ws_ge(t, i + 1);
    }
}

/// Whitespace between `x` and `y` does not move where the next token starts.
proof fn lemma_skip_ws_blank(t: Seq<char>, x: int, y: int)
    requires
        x <= y <= t.len(),
        blank(t, x, y),
    ensures
        skip_ws(t, x) == skip_ws(t, y),
    decreases y - x,
{
    if x < y {
        assert(is_whitespace_char(t[x]));
        lemma_skip_ws_blank(t, x + 1, y);
    }
}

/// Whitespace between `x` and `y` does not change the tokens that follow.
proof fn lemma_segments_blank(t: Seq<char>, x: int, y: int)
    requires
        x <= y <= t.len(),
        blank(t, x, y),
    ensures
        segments(t, x) == segments(t, y),
{
    lemma_skip_ws_blank(t, x, y);
    lemma_skip_ws_ge(t, y);
}

/// Word characters from `s` to `i` do not move the end of the word.
proof fn lemma_word_end(t: Seq<char>, s: int, i: int)
    requires
        s <= i <= t.len(),
        forall|k: int| s <= k < i ==> !is_whitespace_char(#[trigger] t[k]) && !spec_could_be_member(t[k]),
    ensures
        word_end(t, s) == word_end(t, i),
    decreases i - s,
{
    if s < i {
        lemma_word_end(t, s + 1, i);
    }
}

/// Every character from index `a` up to `b` is whitespace.
pub open spec fn blank(s: Seq<char>, a: int, b: int) -> bool {
    forall|k: int| a <= k < b ==> is_whitespace_char(#[trigger] s[k])
}

impl<'i> Tokeniser<'i> {
    /// The byte offset of character `k` (the byte length for the end).
    pub open spec fn off(&self, k: int) -> int {
        self.byte_offsets()[k] as int
    }

    pub closed spec fn spec_line(&self) -> usize {
        self.line
    }

    pub closed spec fn spec_linestart(&self) -> usize {
        self.linestart
    }

    /// The fields that scanning does not change.
    pub open spec fn same_text(&self, other: &Self) -> bool {
        &&& self.text() == other.text()
        &&& self.byte_offsets() == other.byte_offsets()
        &&& self.spec_module_id() == other.spec_module_id()
    }

    fn token_range(&self, start: usize, end: usize) -> (r: TokenRange)
        requires
            self.wf(),
            start <= end <= self.text().len(),
            self.spec_linestart() <= self.off(start as int),
        ensures
            r == (self.spec_line(), (self.off(start as int) - self.spec_linestart()) as usize, self.byte_offsets()[start as int], self.byte_offsets()[end as int]),
    {
        (self.line, self.offsets[start] - self.linestart, self.offsets[start], self.offsets[end])
    }

    fn final_token(&self, start: usize) -> (r: TokenRange)
        requires
            self.wf(),
            start <= self.text().len(),
            self.spec_linestart() <= self.off(start as int),
        ensures
            r == (self.spec_line(), (self.off(start as int) - self.spec_linestart()) as usize, self.byte_offsets()[start as int], self.byte_offsets()[self.text().len() as int]),
    {
        self.token_range(start, self.input.len())
    }

    fn handle_whitespace(&mut self, c: char, start: usize, index: usize) -> (r: Option<(TokenRange, usize, usize)>)
        requires
            old(self).wf(),
            index == old(self).index_spec() < old(self).text().len(),
            c == old(self).text()[index as int],
            start <= index,
            old(self).spec_linestart() <= old(self).off(start as int),
        ensures
            final(self).wf(),
            final(self).same_text(old(self)),
            final(self).index_spec() == index + 1,
            r is None <==> start == index,
            r matches Some(x) ==> x.1 == start && x.2 == index && x.0 == (old(self).spec_line(), (old(self).off(start as int) - old(self).spec_linestart()) as usize, old(self).byte_offsets()[start as int], old(self).byte_offsets()[index as int]),
    {
        let n = self.input.len();
        assert(index < n);
        let line = self.line;
        let linestart = self.linestart;
        let r = if start == index {
            None
        } else {
            Some(((line, self.offsets[start] - linestart, self.offsets[start], self.offsets[index]), start, index))
        };
        if c == '\n' {
            proof {
                assert(self.offsets@[index + 1] == self.offsets@[index as int] + utf8_len(self.input@[index as int]));
            }
            self.line = self.line + 1;
            self.linestart = self.offsets[index] + 1;
        } else {
            proof {
                lemma_offsets_mono(self.input@, self.offsets@, index as int, index + 1);
            }
        }
        self.index = self.index + 1;
        r
    }

    fn handle_multi_char_punctuation(&mut self, start: usize) -> (r: Option<(TokenRange, usize, usize)>)
        requires
            old(self).wf(),
            start == old(self).index_spec() < old(self).text().len(),
            spec_could_be_member(old(self).text()[start as int]),
            old(self).spec_linestart() <= old(self).off(start as int),
        ensures
            final(self).wf(),
            final(self).same_text(old(self)),
            final(self).index_spec() > start,
            final(self).spec_line() == old(self).spec_line(),
            final(self).spec_linestart() == old(self).spec_linestart(),
            r matches Some(x) && x.1 == start && start < x.2 == final(self).index_spec()
                && x.0 == (old(self).spec_line(), (old(self).off(start as int) - old(self).spec_linestart()) as usize, old(self).byte_offsets()[start as int], old(self).byte_offsets()[x.2 as int]),
            r matches Some(x) ==> x.2 == punct_end(old(self).text(), start as int, start as int),
    {
        let n = self.input.len();
        let mut peeked: usize = self.index;
        proof {
            lemma_member_extends(self.input@[start as int]);
            assert(self.input@.subrange(start as int, start as int) =~= Seq::<char>::empty());
        }
        loop
            invariant
                self.wf(),
                self.same_text(old(self)),
                n == self.input@.len(),
                peeked == self.index,
                start <= peeked < n,
                self.line == old(self).line,
                self.linestart == old(self).linestart,
                old(self).spec_linestart() <= old(self).off(start as int),
                peeked == start ==> max_extra(punctuation_members(), self.input@.subrange(start as int, peeked as int), self.input@[peeked as int]) is Some,
                punct_end(self.input@, start as int, start as int) == punct_end(self.input@, start as int, peeked as int),
            decreases n - peeked,
        {
            let s = vstd::slice::slice_subrange(self.input.as_slice(), start, peeked);
            let c = self.input[peeked];
            proof {
                assert(s@ =~= self.input@.subrange(start as int, peeked as int));
            }
            match PunctuationType::possible_extra_chars(s, c) {
                None => {
                    return Some((self.token_range(start, peeked), start, peeked));
                },
                Some(x) => {
                    proof {
                        lemma_offsets_mono(self.input@, self.offsets@, peeked as int, peeked + 1);
                        lemma_max_extra_pos(punctuation_members(), s@, c);
                    }
                    self.index = self.index + 1;
                    if x == 0 {
                        return Some((self.token_range(start, peeked), start, peeked));
                    }
                    if self.index == n {
                        return Some((self.final_token(start), start, n));
                    }
                    let c2 = self.input[self.index];
                    if char_is_whitespace(c2) {
                        return Some((self.token_range(start, self.index), start, self.index));
                    }
                    peeked = self.index;
                },
            }
        }
    }

    /// Finds the next token's range, consuming the characters before it and,
    /// when whitespace ends it, that whitespace.
    fn get_next_token_range(&mut self) -> (r: Option<(TokenRange, usize, usize)>)
        requires
            old(self).wf(),
        ensures
            final(self).wf(),
            final(self).same_text(old(self)),
            r is None ==> final(self).index_spec() == final(self).text().len(),
            r matches Some(x) ==> old(self).index_spec() <= x.1 < x.2 <= final(self).index_spec()
                && x.0.2 == final(self).byte_offsets()[x.1 as int]
                && x.0.3 == final(self).byte_offsets()[x.2 as int],
            final(self).index_spec() >= old(self).index_spec(),
            r is Some ==> final(self).index_spec() > old(self).index_spec(),
            r is None ==> blank(final(self).text(), old(self).index_spec() as int, final(self).text().len() as int),
            r matches Some(x) ==> blank(final(self).text(), old(self).index_spec() as int, x.1 as int)
                && blank(final(self).text(), x.2 as int, final(self).index_spec() as int),
            r is None ==> skip_ws(old(self).text(), old(self).index_spec() as int) >= old(self).text().len(),
            r matches Some(x) ==> x.1 == skip_ws(old(self).text(), old(self).index_spec() as int)
                && x.2 == token_end(old(self).text(), x.1 as int),
    {
        let n = self.input.len();
        let mut start: Option<usize> = None;
        while self.index < n
            invariant
                self.wf(),
                self.same_text(old(self)),
                n == self.input@.len(),
                self.index >= old(self).index,
                start matches Some(st) ==> old(self).index <= st < self.index && self.linestart <= self.offsets@[st as int],
                start is None ==> blank(self.input@, old(self).index as int, self.index as int),
                start matches Some(st) ==> blank(self.input@, old(self).index as int, st as int),
                start matches Some(st) ==> st == skip_ws(self.input@, old(self).index as int)
                    && !spec_could_be_member(self.input@[st as int])
                    && forall|k: int| st <= k < self.index ==> !is_whitespace_char(#[trigger] self.input@[k]) && !spec_could_be_member(self.input@[k]),
            decreases n - self.index,
        {
            let i = self.index;
            let c = self.input[i];
            proof {
                if start is None {
                    lemma_skip_ws_blank(self.input@, old(self).index as int, i as int);
                }
            }
            let some_start = match start {
                Some(st) => st,
                None => i,
            };
            start = Some(some_start);
            if char_is_whitespace(c) {
                proof {
                    if some_start < i {
                        lemma_word_end(self.input@, some_start + 1, i as int);
                    }
                }
                let r = self.handle_whitespace(c, some_start, i);
                if r.is_some() {
                    return r;
                }
                start = None;
                continue;
            }
            if !PunctuationType::could_be_member(c) {
                proof {
                    lemma_offsets_mono(self.input@, self.offsets@, i as int, i + 1);
                }
                self.index = self.index + 1;
                continue;
            }
            if i != some_start {
                proof {
                    lemma_word_end(self.input@, some_start + 1, i as int);
                }
                return Some((self.token_range(some_start, i), some_start, i));
            }
            return self.handle_multi_char_punctuation(some_start);
        }
        proof {
            match start {
                Some(st) => {
                    lemma_word_end(self.input@, st + 1, n as int);
                },
                None => {
                    lemma_skip_ws_blank(self.input@, old(self).index as int, n as int);
                },
            }
        }
        match start {
            Some(st) => Some((self.final_token(st), st, n)),
            None => None,
        }
    }
}

pub open spec fn int_error_text(e: IntErrorKind) -> Seq<char> {
    match e {
        IntErrorKind::Empty | IntErrorKind::InvalidDigit => "invalid numeric literal"@,
        IntErrorKind::PosOverflow => "numeric literal too large"@,
        IntErrorKind::NegOverflow => "negative literals are not supported"@,
        IntErrorKind::Zero => Seq::empty(),
    }
}

impl TokeniserError {
    /// Whether the error can be described (a zero value is never reported).
    pub open spec fn describable(&self) -> bool {
        !(self matches TokeniserError::InvalidNumericLiteral(_, e) && e == IntErrorKind::Zero)
    }

    pub open spec fn spec_message(&self) -> Seq<char> {
        match self {
            TokeniserError::InvalidToken(s) => "invalid token: "@ + s@,
            TokeniserError::InvalidNumericLiteral(s, e) => int_error_text(*e) + ": "@ + s@,
            TokeniserError::InvalidNumericBase(s) => "invalid base: "@ + s@,
        }
    }

    /// The error as it is shown to the user.
    pub fn message(&self) -> (r: String)
        requires
            self.describable(),
        ensures
            r@ == self.spec_message(),
    {
        let mut out = String::new();
        match self {
            TokeniserError::InvalidToken(s) => {
                push_str(&mut out, "invalid token: ");
                push_str(&mut out, s.as_str());
            },
            TokeniserError::InvalidNumericLiteral(s, e) => {
                let kind = match e {
                    IntErrorKind::Empty | IntErrorKind::InvalidDigit => "invalid numeric literal",
                    IntErrorKind::PosOverflow => "numeric literal too large",
                    IntErrorKind::NegOverflow => "negative literals are not supported",
                    IntErrorKind::Zero => "",
                };
                push_str(&mut out, kind);
                push_str(&mut out, ": ");
                push_str(&mut out, s.as_str());
            },
            TokeniserError::InvalidNumericBase(s) => {
                push_str(&mut out, "invalid base: ");
                push_str(&mut out, s.as_str());
            },
        }
        proof {
            assert(out@ =~= self.spec_message());
        }
        out
    }
}

/// A token read from the text: its position covers characters `a..b`, and its
/// type is what those characters spell.
pub open spec fn token_ok(t: Token, module_id: ModuleId, chars: Seq<char>, offs: Seq<usize>, names: Seq<Seq<char>>, a: int, b: int) -> bool {
    &&& 0 <= a < b <= chars.len()
    &&& t.pos matches Pos::Pos { module_id: m, start, span, .. } && m == module_id && start == offs[a] && start + span == offs[b]
    &&& token_matches(t.token, chars.subrange(a, b), names)
}

/// Numbers handed out earlier keep naming the same text.
proof fn lemma_token_matches_grow(t: TokenType, v: Seq<char>, n1: Seq<Seq<char>>, n2: Seq<Seq<char>>)
    requires
        token_matches(t, v, n1),
        n1.is_prefix_of(n2),
    ensures
        token_matches(t, v, n2),
{
    match (spec_classify(v), t) {
        (Classified::Ident, TokenType::Ident(id)) => {
            assert(n2[id as int] == n1[id as int]);
        },
        _ => {},
    }
}

impl<'i> Tokeniser<'i> {
    fn parse_token(&mut self, interner: &mut Interner) -> (r: Result<Option<(Token, usize, usize)>, Diagnostic>)
        requires
            old(self).wf(),
            old(interner).wf(),
        ensures
            final(self).wf(),
            final(self).same_text(old(self)),
            final(interner).wf(),
            old(interner).view().is_prefix_of(final(interner).view()),
            final(self).index_spec() >= old(self).index_spec(),
            r matches Ok(None) ==> final(self).index_spec() == final(self).text().len(),
            r matches Ok(Some(x)) ==> old(self).index_spec() <= x.1 && x.2 <= final(self).index_spec()
                && token_ok(x.0, final(self).spec_module_id(), final(self).text(), final(self).byte_offsets(), final(interner).view(), x.1 as int, x.2 as int),
            r is Err ==> r->Err_0.spec_kind() == DiagnosticKind::Error,
            !(r matches Ok(None)) ==> final(self).index_spec() > old(self).index_spec(),
            r matches Ok(None) ==> blank(final(self).text(), old(self).index_spec() as int, final(self).text().len() as int),
            r matches Ok(Some(x)) ==> blank(final(self).text(), old(self).index_spec() as int, x.1 as int)
                && blank(final(self).text(), x.2 as int, final(self).index_spec() as int),
            r matches Ok(None) ==> segments(old(self).text(), old(self).index_spec() as int).len() == 0,
            !(r matches Ok(None)) ==> segments(old(self).text(), old(self).index_spec() as int).len() > 0
                && segments(old(self).text(), old(self).index_spec() as int).drop_first() == segments(old(self).text(), final(self).index_spec() as int),
            r matches Ok(Some(x)) ==> segments(old(self).text(), old(self).index_spec() as int)[0] == (x.1 as int, x.2 as int),
            r is Ok <==> !unreadable(old(self).text(), segments(old(self).text(), old(self).index_spec() as int)[0])
                || segments(old(self).text(), old(self).index_spec() as int).len() == 0,
    {
        let (rng, a, b) = match self.get_next_token_range() {
            Some(x) => x,
            None => {
                proof {
                    assert(old(interner).view().is_prefix_of(interner.view()));
                    lemma_skip_ws_ge(old(self).text(), old(self).index_spec() as int);
                }
                return Ok(None);
            },
        };
        proof {
            let t = old(self).text();
            let i = old(self).index_spec() as int;
            lemma_skip_ws_ge(t, i);
            lemma_segments_blank(t, b as int, self.index_spec() as int);
            assert(segments(t, i) == seq![(a as int, b as int)] + segments(t, b as int));
            assert(segments(t, i).drop_first() =~= segments(t, b as int));
        }
        let (line, col, start, end) = rng;
        proof {
            lemma_offsets_mono(self.input@, self.offsets@, a as int, b as int);
        }
        let text = vstd::slice::slice_subrange(self.input.as_slice(), a, b);
        let span = end - start;
        match token_type_from_chars(text, interner) {
            Ok(t) => {
                proof {
                    assert(text@ =~= self.input@.subrange(a as int, b as int));
                }
                Ok(Some((Token::new(self.module_id, line, col, start, span, t), a, b)))
            },
            Err(e) => {
                proof {
                    assert(text@ =~= self.input@.subrange(a as int, b as int));
                }
                let mut msg = String::new();
                push_str(&mut msg, "invalid token: ");
                let inner = e.message();
                push_str(&mut msg, inner.as_str());
                let pos = Pos::new(self.module_id, line, col, start, span);
                Err(Diagnostic::new(msg, DiagnosticKind::Error, Context { pos }))
            },
        }
    }
}

/// Tokens read in order: each one's characters come after the previous one's.
pub open spec fn tokens_ok(tokens: Seq<Token>, module_id: ModuleId, chars: Seq<char>, offs: Seq<usize>, names: Seq<Seq<char>>, bounds: Seq<(int, int)>) -> bool {
    &&& bounds.len() == tokens.len()
    &&& forall|k: int| 0 <= k < tokens.len() ==> token_ok(#[trigger] tokens[k], module_id, chars, offs, names, bounds[k].0, bounds[k].1)
    &&& forall|k: int| 0 <= k < tokens.len() - 1 ==> #[trigger] bounds[k].1 <= bounds[k + 1].0
}

/// Between the placed tokens, before the first and after the last up to
/// `upto`, the text holds only whitespace.
pub open spec fn gaps_blank(chars: Seq<char>, bounds: Seq<(int, int)>, upto: int) -> bool {
    &&& bounds.len() == 0 ==> blank(chars, 0, upto)
    &&& bounds.len() > 0 ==> blank(chars, 0, bounds[0].0)
    &&& forall|k: int| 0 <= k < bounds.len() - 1 ==> blank(chars, #[trigger] bounds[k].1, bounds[k + 1].0)
    &&& bounds.len() > 0 ==> blank(chars, bounds.last().1, upto)
}

/// The tokens, in order, are read from the whole text: each covers characters
/// that spell it, and only whitespace lies between and around them.
pub open spec fn tokenised(tokens: Seq<Token>, module_id: ModuleId, chars: Seq<char>, offs: Seq<usize>, names: Seq<Seq<char>>) -> bool {
    exists|bounds: Seq<(int, int)>| #[trigger] tokens_ok(tokens, module_id, chars, offs, names, bounds) && gaps_blank(chars, bounds, chars.len() as int)
}

impl<'i> Tokeniser<'i> {
    /// Reads every token of the text: at each point the longest punctuation, or
    /// else the characters up to the next whitespace or punctuation. Any
    /// unreadable token makes the result the list of errors, one per such token;
    /// otherwise the tokens come back in order.
    pub fn tokenise(self, interner: &mut Interner) -> (r: Result<TokeniserResult, Diagnostics>)
        requires
            self.wf(),
            self.index_spec() == 0,
            old(interner).wf(),
        ensures
            final(interner).wf(),
            old(interner).view().is_prefix_of(final(interner).view()),
            r matches Ok(res) ==> res.module_id == self.spec_module_id(),
            r matches Ok(res) ==> res.diagnostics.wf() && res.diagnostics.view().len() == 0,
            r matches Ok(res) ==> tokenised(res.tokens@, self.spec_module_id(), self.text(), self.byte_offsets(), final(interner).view()),
            r matches Ok(res) ==> crate::parser::well_placed(res.tokens@),
            r matches Err(ds) ==> ds.wf() && ds.spec_has_errors(),
            r is Ok <==> unreadable_count(self.text(), segments(self.text(), 0)) == 0,
            r matches Ok(res) ==> tokens_ok(res.tokens@, self.spec_module_id(), self.text(), self.byte_offsets(), final(interner).view(), segments(self.text(), 0)),
            r matches Err(ds) ==> ds.view().len() == unreadable_count(self.text(), segments(self.text(), 0)),
            r matches Err(ds) ==> forall|k: int| 0 <= k < ds.view().len() ==> (#[trigger] ds.view()[k]).spec_kind() == DiagnosticKind::Error,
    {
        let ghost orig = self;
        let mut this = self;
        let mut tokens: Vec<Token> = Vec::new();
        let mut diagnostics = Diagnostics::new();
        let ghost mut bounds: Seq<(int, int)> = Seq::empty();
        let ghost mut done: Seq<(int, int)> = Seq::empty();
        let n = this.input.len();
        proof {
            assert(done + segments(orig.text(), 0) =~= segments(orig.text(), 0));
        }
        loop
            invariant
                this.wf(),
                this.same_text(&orig),
                n == this.text().len(),
                interner.wf(),
                old(interner).view().is_prefix_of(interner.view()),
                diagnostics.wf(),
                diagnostics.view().len() + tokens@.len() <= this.index_spec(),
                forall|k: int| 0 <= k < diagnostics.view().len() ==> (#[trigger] diagnostics.view()[k]).spec_kind() == DiagnosticKind::Error,
                tokens_ok(tokens@, orig.spec_module_id(), orig.text(), orig.byte_offsets(), interner.view(), bounds),
                tokens@.len() > 0 ==> bounds.last().1 <= this.index_spec(),
                forall|k: int| 0 <= k < bounds.len() ==> #[trigger] bounds[k].1 <= this.index_spec(),
                forall|k: int, m: int| 0 <= k < m < bounds.len() ==> #[trigger] bounds[k].1 <= #[trigger] bounds[m].0,
                diagnostics.view().len() == 0 ==> gaps_blank(orig.text(), bounds, this.index_spec() as int),
                segments(orig.text(), 0) == done + segments(orig.text(), this.index_spec() as int),
                diagnostics.view().len() == unreadable_count(orig.text(), done),
                diagnostics.view().len() == 0 ==> bounds == done,
            ensures
                this.index_spec() == n,
                segments(orig.text(), 0) == done,
            decreases n - this.index_spec(),
        {
            let ghost names_before = interner.view();
            let ghost idx_before = this.index_spec();
            let ghost segs_before = segments(orig.text(), idx_before as int);
            let ghost done_before = done;
            let r = this.parse_token(interner);
            proof {
                if !(r matches Ok(None)) {
                    let seg = segs_before[0];
                    done = done.push(seg);
                    assert(done.drop_last() =~= done_before);
                    assert(segs_before =~= seq![seg] + segs_before.drop_first());
                    assert(done + segments(orig.text(), this.index_spec() as int) =~= done_before + segs_before);
                }
            }
            match r {
                Ok(Some((token, a, b))) => {
                    proof {
                        assert forall|k: int| 0 <= k < tokens@.len() implies token_ok(#[trigger] tokens@[k], orig.spec_module_id(), orig.text(), orig.byte_offsets(), interner.view(), bounds[k].0, bounds[k].1) by {
                            lemma_token_matches_grow(tokens@[k].token, orig.text().subrange(bounds[k].0, bounds[k].1), names_before, interner.view());
                        }
                        bounds = bounds.push((a as int, b as int));
                    }
                    tokens.push(token);
                    proof {
                        assert forall|k: int| 0 <= k < tokens@.len() implies token_ok(#[trigger] tokens@[k], orig.spec_module_id(), orig.text(), orig.byte_offsets(), interner.view(), bounds[k].0, bounds[k].1) by {
                        }
                        assert forall|k: int| 0 <= k < tokens@.len() - 1 implies #[trigger] bounds[k].1 <= bounds[k + 1].0 by {
                        }
                        assert forall|k: int, m: int| 0 <= k < m < bounds.len() implies #[trigger] bounds[k].1 <= #[trigger] bounds[m].0 by {
                            if m == bounds.len() - 1 {
                                assert(bounds[k].1 <= idx_before);
                            }
                        }
                    }
                },
                Ok(None) => {
                    proof {
                        assert(done + segs_before =~= done);
                    }
                    break;
                },
                Err(e) => {
                    proof {
                        assert forall|k: int| 0 <= k < tokens@.len() implies token_ok(#[trigger] tokens@[k], orig.spec_module_id(), orig.text(), orig.byte_offsets(), interner.view(), bounds[k].0, bounds[k].1) by {
                            lemma_token_matches_grow(tokens@[k].token, orig.text().subrange(bounds[k].0, bounds[k].1), names_before, interner.view());
                        }
                    }
                    diagnostics.push(e);
                },
            }
        }
        if diagnostics.has_errors() {
            Err(diagnostics)
        } else {
            proof {
                if diagnostics.view().len() > 0 {
                    assert(diagnostics.view()[0].spec_kind() == DiagnosticKind::Error);
                }
                assert(tokens_ok(tokens@, orig.spec_module_id(), orig.text(), orig.byte_offsets(), interner.view(), bounds));
                assert(orig.spec_module_id() == self.spec_module_id());
                assert(exists|b: Seq<(int, int)>| tokens_ok(tokens@, self.spec_module_id(), self.text(), self.byte_offsets(), interner.view(), b));
            }
            proof {
                let ts = tokens@;
                assert forall|i: int| 0 <= i < ts.len() implies (#[trigger] ts[i]).pos is Pos && ts[i].pos.end_fits() by {
                    assert(token_ok(ts[i], orig.spec_module_id(), orig.text(), orig.byte_offsets(), interner.view(), bounds[i].0, bounds[i].1));
                }
                assert forall|i: int, j: int| 0 <= i <= j < ts.len() implies (#[trigger] ts[i]).pos->start <= (#[trigger] ts[j]).pos->start by {
                    assert(token_ok(ts[i], orig.spec_module_id(), orig.text(), orig.byte_offsets(), interner.view(), bounds[i].0, bounds[i].1));
                    assert(token_ok(ts[j], orig.spec_module_id(), orig.text(), orig.byte_offsets(), interner.view(), bounds[j].0, bounds[j].1));
                    if i < j {
                        assert(bounds[i].1 <= bounds[j].0);
                        lemma_offsets_mono(orig.text(), orig.byte_offsets(), bounds[i].0, bounds[j].0);
                    }
                }
            }
            let res = TokeniserResult { module_id: this.module_id, tokens, diagnostics };
            assert(tokens_ok(res.tokens@, self.spec_module_id(), self.text(), self.byte_offsets(), interner.view(), bounds));
            assert(gaps_blank(self.text(), bounds, self.text().len() as int));
            assert(tokenised(res.tokens@, self.spec_module_id(), self.text(), self.byte_offsets(), interner.view()));
            Ok(res)
        }
    }
}


/// The keywords and how each is spelt; a keyword's spelling is read as that
/// keyword.
pub proof fn lemma_keyword_spellings()
    ensures
        keyword_of("const"@) == Some(KeywordType::Const),
        KeywordType::Const.text() == "const"@,
        keyword_of("circ"@) == Some(KeywordType::Circ),
        KeywordType::Circ.text() == "circ"@,
        keyword_of("enum"@) == Some(KeywordType::Enum),
        KeywordType::Enum.text() == "enum"@,
        keyword_of("assert"@) == Some(KeywordType::Assert),
        KeywordType::Assert.text() == "assert"@,
        keyword_of("for"@) == Some(KeywordType::For),
        KeywordType::For.text() == "for"@,
        keyword_of("in"@) == Some(KeywordType::In),
        KeywordType::In.text() == "in"@,
        keyword_of("with"@) == Some(KeywordType::With),
        KeywordType::With.text() == "with"@,
        keyword_of("import"@) == Some(KeywordType::Import),
        KeywordType::Import.text() == "import"@,
        keyword_of("if"@) == Some(KeywordType::If),
        KeywordType::If.text() == "if"@,
        keyword_of("else"@) == Some(KeywordType::Else),
        KeywordType::Else.text() == "else"@,
        keyword_of("use"@) == Some(KeywordType::Use),
        KeywordType::Use.text() == "use"@,
        keyword_of("as"@) == Some(KeywordType::As),
        KeywordType::As.text() == "as"@,
{
        reveal_strlit("const");
        reveal_strlit("circ");
        reveal_strlit("enum");
        reveal_strlit("assert");
        reveal_strlit("for");
        reveal_strlit("in");
        reveal_strlit("with");
        reveal_strlit("import");
        reveal_strlit("if");
        reveal_strlit("else");
        reveal_strlit("use");
        reveal_strlit("as");
    assert("circ"@.len() != "const"@.len());
    assert("enum"@.len() != "const"@.len());
    assert("enum"@[0] != "circ"@[0]);
    assert("assert"@.len() != "const"@.len());
    assert("assert"@.len() != "circ"@.len());
    assert("assert"@.len() != "enum"@.len());
    assert("for"@.len() != "const"@.len());
    assert("for"@.len() != "circ"@.len());
    assert("for"@.len() != "enum"@.len());
    assert("for"@.len() != "assert"@.len());
    assert("in"@.len() != "const"@.len());
    assert("in"@.len() != "circ"@.len());
    assert("in"@.len() != "enum"@.len());
    assert("in"@.len() != "assert"@.len());
    assert("in"@.len() != "for"@.len());
    assert("with"@.len() != "const"@.len());
    assert("with"@[0] != "circ"@[0]);
    assert("with"@[0] != "enum"@[0]);
    assert("with"@.len() != "assert"@.len());
    assert("with"@.len() != "for"@.len());
    assert("with"@.len() != "in"@.len());
    assert("import"@.len() != "const"@.len());
    assert("import"@.len() != "circ"@.len());
    assert("import"@.len() != "enum"@.len());
    assert("import"@[0] != "assert"@[0]);
    assert("import"@.len() != "for"@.len());
    assert("import"@.len() != "in"@.len());
    assert("import"@.len() != "with"@.len());
    assert("if"@.len() != "const"@.len());
    assert("if"@.len() != "circ"@.len());
    assert("if"@.len() != "enum"@.len());
    assert("if"@.len() != "assert"@.len());
    assert("if"@.len() != "for"@.len());
    assert("if"@[1] != "in"@[1]);
    assert("if"@.len() != "with"@.len());
    assert("if"@.len() != "import"@.len());
    assert("else"@.len() != "const"@.len());
    assert("else"@[0] != "circ"@[0]);
    assert("else"@[1] != "enum"@[1]);
    assert("else"@.len() != "assert"@.len());
    assert("else"@.len() != "for"@.len());
    assert("else"@.len() != "in"@.len());
    assert("else"@[0] != "with"@[0]);
    assert("else"@.len() != "import"@.len());
    assert("else"@.len() != "if"@.len());
    assert("use"@.len() != "const"@.len());
    assert("use"@.len() != "circ"@.len());
    assert("use"@.len() != "enum"@.len());
    assert("use"@.len() != "assert"@.len());
    assert("use"@[0] != "for"@[0]);
    assert("use"@.len() != "in"@.len());
    assert("use"@.len() != "with"@.len());
    assert("use"@.len() != "import"@.len());
    assert("use"@.len() != "if"@.len());
    assert("use"@.len() != "else"@.len());
    assert("as"@.len() != "const"@.len());
    assert("as"@.len() != "circ"@.len());
    assert("as"@.len() != "enum"@.len());
    assert("as"@.len() != "assert"@.len());
    assert("as"@.len() != "for"@.len());
    assert("as"@[0] != "in"@[0]);
    assert("as"@.len() != "with"@.len());
    assert("as"@.len() != "import"@.len());
    assert("as"@[0] != "if"@[0]);
    assert("as"@.len() != "else"@.len());
    assert("as"@.len() != "use"@.len());
}

/// A keyword or a punctuation spelling is read as that keyword or
/// punctuation, before anything else.
pub proof fn lemma_classify_reserved(v: Seq<char>)
    ensures
        keyword_of(v) matches Some(k) ==> spec_classify(v) == Classified::Keyword(k),
        keyword_of(v) is None ==> (punctuation_of(v) matches Some(p) ==> spec_classify(v) == Classified::Punctuation(p)),
{
}

/// A text that starts with a numeric character and is no keyword or
/// punctuation is read as a number; otherwise an identifier is made of
/// letters, digits, `_` and `'`, and does not start with a numeric character.
pub proof fn lemma_classify_words(v: Seq<char>)
    requires
        keyword_of(v) is None,
        punctuation_of(v) is None,
    ensures
        v.len() > 0 && is_numeric_char(v[0]) ==> spec_classify(v) == spec_parse_integer(v),
        spec_classify(v) == Classified::Ident ==> v.len() > 0 && !is_numeric_char(v[0]) && forall|i: int| 0 <= i < v.len()
            ==> (is_alphanumeric_char(#[trigger] v[i]) || v[i] == '_' || v[i] == '\''),
        v.len() > 0 && !is_numeric_char(v[0]) && (forall|i: int| 0 <= i < v.len() ==> (is_alphanumeric_char(#[trigger] v[i])
            || v[i] == '_' || v[i] == '\'')) ==> spec_classify(v) == Classified::Ident,
{
}

/// The base of a literal is read up to its first `#`.
pub proof fn lemma_hash_index(v: Seq<char>)
    ensures
        hash_index(v) matches Some(k) ==> 0 <= k < v.len() && v[k] == '#' && forall|j: int| 0 <= j < k ==> v[j] != '#',
        hash_index(v) is None <==> !v.contains('#'),
{
    if v.contains('#') {
        let i = choose|i: int| 0 <= i < v.len() && v[i] == '#';
        lemma_first_hash(v, i);
    }
}

proof fn lemma_first_hash(v: Seq<char>, i: int)
    requires
        0 <= i < v.len(),
        v[i] == '#',
    ensures
        exists|k: int| 0 <= k < v.len() && v[k] == '#' && forall|j: int| 0 <= j < k ==> v[j] != '#',
    decreases i,
{
    if exists|j: int| 0 <= j < i && v[j] == '#' {
        let j = choose|j: int| 0 <= j < i && v[j] == '#';
        lemma_first_hash(v, j);
    }
}

/// A literal without `#` is decimal; with one, a base outside 2 to 36 is
/// refused, and the digits after the first `#` are read in that base.
pub proof fn lemma_parse_integer_base(v: Seq<char>)
    ensures
        !v.contains('#') ==> spec_parse_integer(v) == (match spec_from_str_radix(v, 10) {
            Ok(n) => Classified::Integer((n as u32) as isize),
            Err(e) => Classified::BadLiteral(e),
        }),
        hash_index(v) matches Some(k) ==> (spec_from_str_radix(v.take(k), 10) matches Ok(b) ==> (b < 2 || b > 36
            <==> spec_parse_integer(v) == Classified::BadBase)),
        hash_index(v) matches Some(k) ==> (spec_from_str_radix(v.take(k), 10) matches Ok(b) ==> (2 <= b <= 36
            ==> spec_parse_integer(v) == (match spec_from_str_radix(v.skip(k + 1), b) {
            Ok(n) => Classified::Integer((n as u32) as isize),
            Err(e) => Classified::BadLiteral(e),
        }))),
{
}


/// The punctuation and how each is spelt; a punctuation's spelling is read
/// as that punctuation, and only a spelling is.
pub proof fn lemma_punctuation_spellings(s: Seq<char>)
    ensures
        punctuation_of(s) matches Some(p) ==> s == p.text(),
        punctuation_of("("@) == Some(PunctuationType::LParen),
        PunctuationType::LParen.text() == "("@,
        punctuation_of(")"@) == Some(PunctuationType::RParen),
        PunctuationType::RParen.text() == ")"@,
        punctuation_of("["@) == Some(PunctuationType::LSquare),
        PunctuationType::LSquare.text() == "["@,
        punctuation_of("]"@) == Some(PunctuationType::RSquare),
        PunctuationType::RSquare.text() == "]"@,
        punctuation_of("{"@) == Some(PunctuationType::LCurly),
        PunctuationType::LCurly.text() == "{"@,
        punctuation_of("}"@) == Some(PunctuationType::RCurly),
        PunctuationType::RCurly.text() == "}"@,
        punctuation_of("="@) == Some(PunctuationType::Equal),
        PunctuationType::Equal.text() == "="@,
        punctuation_of("=="@) == Some(PunctuationType::DEqual),
        PunctuationType::DEqual.text() == "=="@,
        punctuation_of("!="@) == Some(PunctuationType::ExclamationEqual),
        PunctuationType::ExclamationEqual.text() == "!="@,
        punctuation_of("<"@) == Some(PunctuationType::LessThan),
        PunctuationType::LessThan.text() == "<"@,
        punctuation_of("<<"@) == Some(PunctuationType::DLessThan),
        PunctuationType::DLessThan.text() == "<<"@,
        punctuation_of("<="@) == Some(PunctuationType::LessThanEqual),
        PunctuationType::LessThanEqual.text() == "<="@,
        punctuation_of(">"@) == Some(PunctuationType::GreaterThan),
        PunctuationType::GreaterThan.text() == ">"@,
        punctuation_of(">>"@) == Some(PunctuationType::DGreaterThan),
        PunctuationType::DGreaterThan.text() == ">>"@,
        punctuation_of(">="@) == Some(PunctuationType::GreaterThanEqual),
        PunctuationType::GreaterThanEqual.text() == ">="@,
        punctuation_of("<-"@) == Some(PunctuationType::LArrow),
        PunctuationType::LArrow.text() == "<-"@,
        punctuation_of("->"@) == Some(PunctuationType::RArrow),
        PunctuationType::RArrow.text() == "->"@,
        punctuation_of("."@) == Some(PunctuationType::Period),
        PunctuationType::Period.text() == "."@,
        punctuation_of(","@) == Some(PunctuationType::Comma),
        PunctuationType::Comma.text() == ","@,
        punctuation_of("|"@) == Some(PunctuationType::Pipe),
        PunctuationType::Pipe.text() == "|"@,
        punctuation_of("||"@) == Some(PunctuationType::DPipe),
        PunctuationType::DPipe.text() == "||"@,
        punctuation_of(".."@) == Some(PunctuationType::Range),
        PunctuationType::Range.text() == ".."@,
        punctuation_of(":"@) == Some(PunctuationType::Colon),
        PunctuationType::Colon.text() == ":"@,
        punctuation_of("::"@) == Some(PunctuationType::DColon),
        PunctuationType::DColon.text() == "::"@,
        punctuation_of(";"@) == Some(PunctuationType::Semicolon),
        PunctuationType::Semicolon.text() == ";"@,
        punctuation_of("+"@) == Some(PunctuationType::Plus),
        PunctuationType::Plus.text() == "+"@,
        punctuation_of("-"@) == Some(PunctuationType::Minus),
        PunctuationType::Minus.text() == "-"@,
        punctuation_of("*"@) == Some(PunctuationType::Star),
        PunctuationType::Star.text() == "*"@,
        punctuation_of("/"@) == Some(PunctuationType::Slash),
        PunctuationType::Slash.text() == "/"@,
        punctuation_of("%"@) == Some(PunctuationType::Percent),
        PunctuationType::Percent.text() == "%"@,
        punctuation_of("^"@) == Some(PunctuationType::Caret),
        PunctuationType::Caret.text() == "^"@,
        punctuation_of("^^"@) == Some(PunctuationType::DCaret),
        PunctuationType::DCaret.text() == "^^"@,
        punctuation_of("&"@) == Some(PunctuationType::Ampersand),
        PunctuationType::Ampersand.text() == "&"@,
        punctuation_of("&&"@) == Some(PunctuationType::DAmpersand),
        PunctuationType::DAmpersand.text() == "&&"@,
        punctuation_of("!"@) == Some(PunctuationType::Exclamation),
        PunctuationType::Exclamation.text() == "!"@,
        punctuation_of("~"@) == Some(PunctuationType::Tilde),
        PunctuationType::Tilde.text() == "~"@,
        punctuation_of("$"@) == Some(PunctuationType::Dollar),
        PunctuationType::Dollar.text() == "$"@,
{
    reveal_strlit("(");
    reveal_strlit(")");
    reveal_strlit("[");
    reveal_strlit("]");
    reveal_strlit("{");
    reveal_strlit("}");
    reveal_strlit("=");
    reveal_strlit("==");
    reveal_strlit("!=");
    reveal_strlit("<");
    reveal_strlit("<<");
    reveal_strlit("<=");
    reveal_strlit(">");
    reveal_strlit(">>");
    reveal_strlit(">=");
    reveal_strlit("<-");
    reveal_strlit("->");
    reveal_strlit(".");
    reveal_strlit(",");
    reveal_strlit("|");
    reveal_strlit("||");
    reveal_strlit("..");
    reveal_strlit(":");
    reveal_strlit("::");
    reveal_strlit(";");
    reveal_strlit("+");
    reveal_strlit("-");
    reveal_strlit("*");
    reveal_strlit("/");
    reveal_strlit("%");
    reveal_strlit("^");
    reveal_strlit("^^");
    reveal_strlit("&");
    reveal_strlit("&&");
    reveal_strlit("!");
    reveal_strlit("~");
    reveal_strlit("$");
    assert(")"@[0] != "("@[0]);
    assert("["@[0] != "("@[0]);
    assert("["@[0] != ")"@[0]);
    assert("]"@[0] != "("@[0]);
    assert("]"@[0] != ")"@[0]);
    assert("]"@[0] != "["@[0]);
    assert("{"@[0] != "("@[0]);
    assert("{"@[0] != ")"@[0]);
    assert("{"@[0] != "["@[0]);
    assert("{"@[0] != "]"@[0]);
    assert("}"@[0] != "("@[0]);
    assert("}"@[0] != ")"@[0]);
    assert("}"@[0] != "["@[0]);
    assert("}"@[0] != "]"@[0]);
    assert("}"@[0] != "{"@[0]);
    assert("="@[0] != "("@[0]);
    assert("="@[0] != ")"@[0]);
    assert("="@[0] != "["@[0]);
    assert("="@[0] != "]"@[0]);
    assert("="@[0] != "{"@[0]);
    assert("="@[0] != "}"@[0]);
    assert("=="@.len() != "("@.len());
    assert("=="@.len() != ")"@.len());
    assert("=="@.len() != "["@.len());
    assert("=="@.len() != "]"@.len());
    assert("=="@.len() != "{"@.len());
    assert("=="@.len() != "}"@.len());
    assert("=="@.len() != "="@.len());
    assert("!="@.len() != "("@.len());
    assert("!="@.len() != ")"@.len());
    assert("!="@.len() != "["@.len());
    assert("!="@.len() != "]"@.len());
    assert("!="@.len() != "{"@.len());
    assert("!="@.len() != "}"@.len());
    assert("!="@.len() != "="@.len());
    assert("!="@[0] != "=="@[0]);
    assert("<"@[0] != "("@[0]);
    assert("<"@[0] != ")"@[0]);
    assert("<"@[0] != "["@[0]);
    assert("<"@[0] != "]"@[0]);
    assert("<"@[0] != "{"@[0]);
    assert("<"@[0] != "}"@[0]);
    assert("<"@[0] != "="@[0]);
    assert("<"@.len() != "=="@.len());
    assert("<"@.len() != "!="@.len());
    assert("<<"@.len() != "("@.len());
    assert("<<"@.len() != ")"@.len());
    assert("<<"@.len() != "["@.len());
    assert("<<"@.len() != "]"@.len());
    assert("<<"@.len() != "{"@.len());
    assert("<<"@.len() != "}"@.len());
    assert("<<"@.len() != "="@.len());
    assert("<<"@[0] != "=="@[0]);
    assert("<<"@[0] != "!="@[0]);
    assert("<<"@.len() != "<"@.len());
    assert("<="@.len() != "("@.len());
    assert("<="@.len() != ")"@.len());
    assert("<="@.len() != "["@.len());
    assert("<="@.len() != "]"@.len());
    assert("<="@.len() != "{"@.len());
    assert("<="@.len() != "}"@.len());
    assert("<="@.len() != "="@.len());
    assert("<="@[0] != "=="@[0]);
    assert("<="@[0] != "!="@[0]);
    assert("<="@.len() != "<"@.len());
    assert("<="@[1] != "<<"@[1]);
    assert(">"@[0] != "("@[0]);
    assert(">"@[0] != ")"@[0]);
    assert(">"@[0] != "["@[0]);
    assert(">"@[0] != "]"@[0]);
    assert(">"@[0] != "{"@[0]);
    assert(">"@[0] != "}"@[0]);
    assert(">"@[0] != "="@[0]);
    assert(">"@.len() != "=="@.len());
    assert(">"@.len() != "!="@.len());
    assert(">"@[0] != "<"@[0]);
    assert(">"@.len() != "<<"@.len());
    assert(">"@.len() != "<="@.len());
    assert(">>"@.len() != "("@.len());
    assert(">>"@.len() != ")"@.len());
    assert(">>"@.len() != "["@.len());
    assert(">>"@.len() != "]"@.len());
    assert(">>"@.len() != "{"@.len());
    assert(">>"@.len() != "}"@.len());
    assert(">>"@.len() != "="@.len());
    assert(">>"@[0] != "=="@[0]);
    assert(">>"@[0] != "!="@[0]);
    assert(">>"@.len() != "<"@.len());
    assert(">>"@[0] != "<<"@[0]);
    assert(">>"@[0] != "<="@[0]);
    assert(">>"@.len() != ">"@.len());
    assert(">="@.len() != "("@.len());
    assert(">="@.len() != ")"@.len());
    assert(">="@.len() != "["@.len());
    assert(">="@.len() != "]"@.len());
    assert(">="@.len() != "{"@.len());
    assert(">="@.len() != "}"@.len());
    assert(">="@.len() != "="@.len());
    assert(">="@[0] != "=="@[0]);
    assert(">="@[0] != "!="@[0]);
    assert(">="@.len() != "<"@.len());
    assert(">="@[0] != "<<"@[0]);
    assert(">="@[0] != "<="@[0]);
    assert(">="@.len() != ">"@.len());
    assert(">="@[1] != ">>"@[1]);
    assert("<-"@.len() != "("@.len());
    assert("<-"@.len() != ")"@.len());
    assert("<-"@.len() != "["@.len());
    assert("<-"@.len() != "]"@.len());
    assert("<-"@.len() != "{"@.len());
    assert("<-"@.len() != "}"@.len());
    assert("<-"@.len() != "="@.len());
    assert("<-"@[0] != "=="@[0]);
    assert("<-"@[0] != "!="@[0]);
    assert("<-"@.len() != "<"@.len());
    assert("<-"@[1] != "<<"@[1]);
    assert("<-"@[1] != "<="@[1]);
    assert("<-"@.len() != ">"@.len());
    assert("<-"@[0] != ">>"@[0]);
    assert("<-"@[0] != ">="@[0]);
    assert("->"@.len() != "("@.len());
    assert("->"@.len() != ")"@.len());
    assert("->"@.len() != "["@.len());
    assert("->"@.len() != "]"@.len());
    assert("->"@.len() != "{"@.len());
    assert("->"@.len() != "}"@.len());
    assert("->"@.len() != "="@.len());
    assert("->"@[0] != "=="@[0]);
    assert("->"@[0] != "!="@[0]);
    assert("->"@.len() != "<"@.len());
    assert("->"@[0] != "<<"@[0]);
    assert("->"@[0] != "<="@[0]);
    assert("->"@.len() != ">"@.len());
    assert("->"@[0] != ">>"@[0]);
    assert("->"@[0] != ">="@[0]);
    assert("->"@[0] != "<-"@[0]);
    assert("."@[0] != "("@[0]);
    assert("."@[0] != ")"@[0]);
    assert("."@[0] != "["@[0]);
    assert("."@[0] != "]"@[0]);
    assert("."@[0] != "{"@[0]);
    assert("."@[0] != "}"@[0]);
    assert("."@[0] != "="@[0]);
    assert("."@.len() != "=="@.len());
    assert("."@.len() != "!="@.len());
    assert("."@[0] != "<"@[0]);
    assert("."@.len() != "<<"@.len());
    assert("."@.len() != "<="@.len());
    assert("."@[0] != ">"@[0]);
    assert("."@.len() != ">>"@.len());
    assert("."@.len() != ">="@.len());
    assert("."@.len() != "<-"@.len());
    assert("."@.len() != "->"@.len());
    assert(","@[0] != "("@[0]);
    assert(","@[0] != ")"@[0]);
    assert(","@[0] != "["@[0]);
    assert(","@[0] != "]"@[0]);
    assert(","@[0] != "{"@[0]);
    assert(","@[0] != "}"@[0]);
    assert(","@[0] != "="@[0]);
    assert(","@.len() != "=="@.len());
    assert(","@.len() != "!="@.len());
    assert(","@[0] != "<"@[0]);
    assert(","@.len() != "<<"@.len());
    assert(","@.len() != "<="@.len());
    assert(","@[0] != ">"@[0]);
    assert(","@.len() != ">>"@.len());
    assert(","@.len() != ">="@.len());
    assert(","@.len() != "<-"@.len());
    assert(","@.len() != "->"@.len());
    assert(","@[0] != "."@[0]);
    assert("|"@[0] != "("@[0]);
    assert("|"@[0] != ")"@[0]);
    assert("|"@[0] != "["@[0]);
    assert("|"@[0] != "]"@[0]);
    assert("|"@[0] != "{"@[0]);
    assert("|"@[0] != "}"@[0]);
    assert("|"@[0] != "="@[0]);
    assert("|"@.len() != "=="@.len());
    assert("|"@.len() != "!="@.len());
    assert("|"@[0] != "<"@[0]);
    assert("|"@.len() != "<<"@.len());
    assert("|"@.len() != "<="@.len());
    assert("|"@[0] != ">"@[0]);
    assert("|"@.len() != ">>"@.len());
    assert("|"@.len() != ">="@.len());
    assert("|"@.len() != "<-"@.len());
    assert("|"@.len() != "->"@.len());
    assert("|"@[0] != "."@[0]);
    assert("|"@[0] != ","@[0]);
    assert("||"@.len() != "("@.len());
    assert("||"@.len() != ")"@.len());
    assert("||"@.len() != "["@.len());
    assert("||"@.len() != "]"@.len());
    assert("||"@.len() != "{"@.len());
    assert("||"@.len() != "}"@.len());
    assert("||"@.len() != "="@.len());
    assert("||"@[0] != "=="@[0]);
    assert("||"@[0] != "!="@[0]);
    assert("||"@.len() != "<"@.len());
    assert("||"@[0] != "<<"@[0]);
    assert("||"@[0] != "<="@[0]);
    assert("||"@.len() != ">"@.len());
    assert("||"@[0] != ">>"@[0]);
    assert("||"@[0] != ">="@[0]);
    assert("||"@[0] != "<-"@[0]);
    assert("||"@[0] != "->"@[0]);
    assert("||"@.len() != "."@.len());
    assert("||"@.len() != ","@.len());
    assert("||"@.len() != "|"@.len());
    assert(".."@.len() != "("@.len());
    assert(".."@.len() != ")"@.len());
    assert(".."@.len() != "["@.len());
    assert(".."@.len() != "]"@.len());
    assert(".."@.len() != "{"@.len());
    assert(".."@.len() != "}"@.len());
    assert(".."@.len() != "="@.len());
    assert(".."@[0] != "=="@[0]);
    assert(".."@[0] != "!="@[0]);
    assert(".."@.len() != "<"@.len());
    assert(".."@[0] != "<<"@[0]);
    assert(".."@[0] != "<="@[0]);
    assert(".."@.len() != ">"@.len());
    assert(".."@[0] != ">>"@[0]);
    assert(".."@[0] != ">="@[0]);
    assert(".."@[0] != "<-"@[0]);
    assert(".."@[0] != "->"@[0]);
    assert(".."@.len() != "."@.len());
    assert(".."@.len() != ","@.len());
    assert(".."@.len() != "|"@.len());
    assert(".."@[0] != "||"@[0]);
    assert(":"@[0] != "("@[0]);
    assert(":"@[0] != ")"@[0]);
    assert(":"@[0] != "["@[0]);
    assert(":"@[0] != "]"@[0]);
    assert(":"@[0] != "{"@[0]);
    assert(":"@[0] != "}"@[0]);
    assert(":"@[0] != "="@[0]);
    assert(":"@.len() != "=="@.len());
    assert(":"@.len() != "!="@.len());
    assert(":"@[0] != "<"@[0]);
    assert(":"@.len() != "<<"@.len());
    assert(":"@.len() != "<="@.len());
    assert(":"@[0] != ">"@[0]);
    assert(":"@.len() != ">>"@.len());
    assert(":"@.len() != ">="@.len());
    assert(":"@.len() != "<-"@.len());
    assert(":"@.len() != "->"@.len());
    assert(":"@[0] != "."@[0]);
    assert(":"@[0] != ","@[0]);
    assert(":"@[0] != "|"@[0]);
    assert(":"@.len() != "||"@.len());
    assert(":"@.len() != ".."@.len());
    assert("::"@.len() != "("@.len());
    assert("::"@.len() != ")"@.len());
    assert("::"@.len() != "["@.len());
    assert("::"@.len() != "]"@.len());
    assert("::"@.len() != "{"@.len());
    assert("::"@.len() != "}"@.len());
    assert("::"@.len() != "="@.len());
    assert("::"@[0] != "=="@[0]);
    assert("::"@[0] != "!="@[0]);
    assert("::"@.len() != "<"@.len());
    assert("::"@[0] != "<<"@[0]);
    assert("::"@[0] != "<="@[0]);
    assert("::"@.len() != ">"@.len());
    assert("::"@[0] != ">>"@[0]);
    assert("::"@[0] != ">="@[0]);
    assert("::"@[0] != "<-"@[0]);
    assert("::"@[0] != "->"@[0]);
    assert("::"@.len() != "."@.len());
    assert("::"@.len() != ","@.len());
    assert("::"@.len() != "|"@.len());
    assert("::"@[0] != "||"@[0]);
    assert("::"@[0] != ".."@[0]);
    assert("::"@.len() != ":"@.len());
    assert(";"@[0] != "("@[0]);
    assert(";"@[0] != ")"@[0]);
    assert(";"@[0] != "["@[0]);
    assert(";"@[0] != "]"@[0]);
    assert(";"@[0] != "{"@[0]);
    assert(";"@[0] != "}"@[0]);
    assert(";"@[0] != "="@[0]);
    assert(";"@.len() != "=="@.len());
    assert(";"@.len() != "!="@.len());
    assert(";"@[0] != "<"@[0]);
    assert(";"@.len() != "<<"@.len());
    assert(";"@.len() != "<="@.len());
    assert(";"@[0] != ">"@[0]);
    assert(";"@.len() != ">>"@.len());
    assert(";"@.len() != ">="@.len());
    assert(";"@.len() != "<-"@.len());
    assert(";"@.len() != "->"@.len());
    assert(";"@[0] != "."@[0]);
    assert(";"@[0] != ","@[0]);
    assert(";"@[0] != "|"@[0]);
    assert(";"@.len() != "||"@.len());
    assert(";"@.len() != ".."@.len());
    assert(";"@[0] != ":"@[0]);
    assert(";"@.len() != "::"@.len());
    assert("+"@[0] != "("@[0]);
    assert("+"@[0] != ")"@[0]);
    assert("+"@[0] != "["@[0]);
    assert("+"@[0] != "]"@[0]);
    assert("+"@[0] != "{"@[0]);
    assert("+"@[0] != "}"@[0]);
    assert("+"@[0] != "="@[0]);
    assert("+"@.len() != "=="@.len());
    assert("+"@.len() != "!="@.len());
    assert("+"@[0] != "<"@[0]);
    assert("+"@.len() != "<<"@.len());
    assert("+"@.len() != "<="@.len());
    assert("+"@[0] != ">"@[0]);
    assert("+"@.len() != ">>"@.len());
    assert("+"@.len() != ">="@.len());
    assert("+"@.len() != "<-"@.len());
    assert("+"@.len() != "->"@.len());
    assert("+"@[0] != "."@[0]);
    assert("+"@[0] != ","@[0]);
    assert("+"@[0] != "|"@[0]);
    assert("+"@.len() != "||"@.len());
    assert("+"@.len() != ".."@.len());
    assert("+"@[0] != ":"@[0]);
    assert("+"@.len() != "::"@.len());
    assert("+"@[0] != ";"@[0]);
    assert("-"@[0] != "("@[0]);
    assert("-"@[0] != ")"@[0]);
    assert("-"@[0] != "["@[0]);
    assert("-"@[0] != "]"@[0]);
    assert("-"@[0] != "{"@[0]);
    assert("-"@[0] != "}"@[0]);
    assert("-"@[0] != "="@[0]);
    assert("-"@.len() != "=="@.len());
    assert("-"@.len() != "!="@.len());
    assert("-"@[0] != "<"@[0]);
    assert("-"@.len() != "<<"@.len());
    assert("-"@.len() != "<="@.len());
    assert("-"@[0] != ">"@[0]);
    assert("-"@.len() != ">>"@.len());
    assert("-"@.len() != ">="@.len());
    assert("-"@.len() != "<-"@.len());
    assert("-"@.len() != "->"@.len());
    assert("-"@[0] != "."@[0]);
    assert("-"@[0] != ","@[0]);
    assert("-"@[0] != "|"@[0]);
    assert("-"@.len() != "||"@.len());
    assert("-"@.len() != ".."@.len());
    assert("-"@[0] != ":"@[0]);
    assert("-"@.len() != "::"@.len());
    assert("-"@[0] != ";"@[0]);
    assert("-"@[0] != "+"@[0]);
    assert("*"@[0] != "("@[0]);
    assert("*"@[0] != ")"@[0]);
    assert("*"@[0] != "["@[0]);
    assert("*"@[0] != "]"@[0]);
    assert("*"@[0] != "{"@[0]);
    assert("*"@[0] != "}"@[0]);
    assert("*"@[0] != "="@[0]);
    assert("*"@.len() != "=="@.len());
    assert("*"@.len() != "!="@.len());
    assert("*"@[0] != "<"@[0]);
    assert("*"@.len() != "<<"@.len());
    assert("*"@.len() != "<="@.len());
    assert("*"@[0] != ">"@[0]);
    assert("*"@.len() != ">>"@.len());
    assert("*"@.len() != ">="@.len());
    assert("*"@.len() != "<-"@.len());
    assert("*"@.len() != "->"@.len());
    assert("*"@[0] != "."@[0]);
    assert("*"@[0] != ","@[0]);
    assert("*"@[0] != "|"@[0]);
    assert("*"@.len() != "||"@.len());
    assert("*"@.len() != ".."@.len());
    assert("*"@[0] != ":"@[0]);
    assert("*"@.len() != "::"@.len());
    assert("*"@[0] != ";"@[0]);
    assert("*"@[0] != "+"@[0]);
    assert("*"@[0] != "-"@[0]);
    assert("/"@[0] != "("@[0]);
    assert("/"@[0] != ")"@[0]);
    assert("/"@[0] != "["@[0]);
    assert("/"@[0] != "]"@[0]);
    assert("/"@[0] != "{"@[0]);
    assert("/"@[0] != "}"@[0]);
    assert("/"@[0] != "="@[0]);
    assert("/"@.len() != "=="@.len());
    assert("/"@.len() != "!="@.len());
    assert("/"@[0] != "<"@[0]);
    assert("/"@.len() != "<<"@.len());
    assert("/"@.len() != "<="@.len());
    assert("/"@[0] != ">"@[0]);
    assert("/"@.len() != ">>"@.len());
    assert("/"@.len() != ">="@.len());
    assert("/"@.len() != "<-"@.len());
    assert("/"@.len() != "->"@.len());
    assert("/"@[0] != "."@[0]);
    assert("/"@[0] != ","@[0]);
    assert("/"@[0] != "|"@[0]);
    assert("/"@.len() != "||"@.len());
    assert("/"@.len() != ".."@.len());
    assert("/"@[0] != ":"@[0]);
    assert("/"@.len() != "::"@.len());
    assert("/"@[0] != ";"@[0]);
    assert("/"@[0] != "+"@[0]);
    assert("/"@[0] != "-"@[0]);
    assert("/"@[0] != "*"@[0]);
    assert("%"@[0] != "("@[0]);
    assert("%"@[0] != ")"@[0]);
    assert("%"@[0] != "["@[0]);
    assert("%"@[0] != "]"@[0]);
    assert("%"@[0] != "{"@[0]);
    assert("%"@[0] != "}"@[0]);
    assert("%"@[0] != "="@[0]);
    assert("%"@.len() != "=="@.len());
    assert("%"@.len() != "!="@.len());
    assert("%"@[0] != "<"@[0]);
    assert("%"@.len() != "<<"@.len());
    assert("%"@.len() != "<="@.len());
    assert("%"@[0] != ">"@[0]);
    assert("%"@.len() != ">>"@.len());
    assert("%"@.len() != ">="@.len());
    assert("%"@.len() != "<-"@.len());
    assert("%"@.len() != "->"@.len());
    assert("%"@[0] != "."@[0]);
    assert("%"@[0] != ","@[0]);
    assert("%"@[0] != "|"@[0]);
    assert("%"@.len() != "||"@.len());
    assert("%"@.len() != ".."@.len());
    assert("%"@[0] != ":"@[0]);
    assert("%"@.len() != "::"@.len());
    assert("%"@[0] != ";"@[0]);
    assert("%"@[0] != "+"@[0]);
    assert("%"@[0] != "-"@[0]);
    assert("%"@[0] != "*"@[0]);
    assert("%"@[0] != "/"@[0]);
    assert("^"@[0] != "("@[0]);
    assert("^"@[0] != ")"@[0]);
    assert("^"@[0] != "["@[0]);
    assert("^"@[0] != "]"@[0]);
    assert("^"@[0] != "{"@[0]);
    assert("^"@[0] != "}"@[0]);
    assert("^"@[0] != "="@[0]);
    assert("^"@.len() != "=="@.len());
    assert("^"@.len() != "!="@.len());
    assert("^"@[0] != "<"@[0]);
    assert("^"@.len() != "<<"@.len());
    assert("^"@.len() != "<="@.len());
    assert("^"@[0] != ">"@[0]);
    assert("^"@.len() != ">>"@.len());
    assert("^"@.len() != ">="@.len());
    assert("^"@.len() != "<-"@.len());
    assert("^"@.len() != "->"@.len());
    assert("^"@[0] != "."@[0]);
    assert("^"@[0] != ","@[0]);
    assert("^"@[0] != "|"@[0]);
    assert("^"@.len() != "||"@.len());
    assert("^"@.len() != ".."@.len());
    assert("^"@[0] != ":"@[0]);
    assert("^"@.len() != "::"@.len());
    assert("^"@[0] != ";"@[0]);
    assert("^"@[0] != "+"@[0]);
    assert("^"@[0] != "-"@[0]);
    assert("^"@[0] != "*"@[0]);
    assert("^"@[0] != "/"@[0]);
    assert("^"@[0] != "%"@[0]);
    assert("^^"@.len() != "("@.len());
    assert("^^"@.len() != ")"@.len());
    assert("^^"@.len() != "["@.len());
    assert("^^"@.len() != "]"@.len());
    assert("^^"@.len() != "{"@.len());
    assert("^^"@.len() != "}"@.len());
    assert("^^"@.len() != "="@.len());
    assert("^^"@[0] != "=="@[0]);
    assert("^^"@[0] != "!="@[0]);
    assert("^^"@.len() != "<"@.len());
    assert("^^"@[0] != "<<"@[0]);
    assert("^^"@[0] != "<="@[0]);
    assert("^^"@.len() != ">"@.len());
    assert("^^"@[0] != ">>"@[0]);
    assert("^^"@[0] != ">="@[0]);
    assert("^^"@[0] != "<-"@[0]);
    assert("^^"@[0] != "->"@[0]);
    assert("^^"@.len() != "."@.len());
    assert("^^"@.len() != ","@.len());
    assert("^^"@.len() != "|"@.len());
    assert("^^"@[0] != "||"@[0]);
    assert("^^"@[0] != ".."@[0]);
    assert("^^"@.len() != ":"@.len());
    assert("^^"@[0] != "::"@[0]);
    assert("^^"@.len() != ";"@.len());
    assert("^^"@.len() != "+"@.len());
    assert("^^"@.len() != "-"@.len());
    assert("^^"@.len() != "*"@.len());
    assert("^^"@.len() != "/"@.len());
    assert("^^"@.len() != "%"@.len());
    assert("^^"@.len() != "^"@.len());
    assert("&"@[0] != "("@[0]);
    assert("&"@[0] != ")"@[0]);
    assert("&"@[0] != "["@[0]);
    assert("&"@[0] != "]"@[0]);
    assert("&"@[0] != "{"@[0]);
    assert("&"@[0] != "}"@[0]);
    assert("&"@[0] != "="@[0]);
    assert("&"@.len() != "=="@.len());
    assert("&"@.len() != "!="@.len());
    assert("&"@[0] != "<"@[0]);
    assert("&"@.len() != "<<"@.len());
    assert("&"@.len() != "<="@.len());
    assert("&"@[0] != ">"@[0]);
    assert("&"@.len() != ">>"@.len());
    assert("&"@.len() != ">="@.len());
    assert("&"@.len() != "<-"@.len());
    assert("&"@.len() != "->"@.len());
    assert("&"@[0] != "."@[0]);
    assert("&"@[0] != ","@[0]);
    assert("&"@[0] != "|"@[0]);
    assert("&"@.len() != "||"@.len());
    assert("&"@.len() != ".."@.len());
    assert("&"@[0] != ":"@[0]);
    assert("&"@.len() != "::"@.len());
    assert("&"@[0] != ";"@[0]);
    assert("&"@[0] != "+"@[0]);
    assert("&"@[0] != "-"@[0]);
    assert("&"@[0] != "*"@[0]);
    assert("&"@[0] != "/"@[0]);
    assert("&"@[0] != "%"@[0]);
    assert("&"@[0] != "^"@[0]);
    assert("&"@.len() != "^^"@.len());
    assert("&&"@.len() != "("@.len());
    assert("&&"@.len() != ")"@.len());
    assert("&&"@.len() != "["@.len());
    assert("&&"@.len() != "]"@.len());
    assert("&&"@.len() != "{"@.len());
    assert("&&"@.len() != "}"@.len());
    assert("&&"@.len() != "="@.len());
    assert("&&"@[0] != "=="@[0]);
    assert("&&"@[0] != "!="@[0]);
    assert("&&"@.len() != "<"@.len());
    assert("&&"@[0] != "<<"@[0]);
    assert("&&"@[0] != "<="@[0]);
    assert("&&"@.len() != ">"@.len());
    assert("&&"@[0] != ">>"@[0]);
    assert("&&"@[0] != ">="@[0]);
    assert("&&"@[0] != "<-"@[0]);
    assert("&&"@[0] != "->"@[0]);
    assert("&&"@.len() != "."@.len());
    assert("&&"@.len() != ","@.len());
    assert("&&"@.len() != "|"@.len());
    assert("&&"@[0] != "||"@[0]);
    assert("&&"@[0] != ".."@[0]);
    assert("&&"@.len() != ":"@.len());
    assert("&&"@[0] != "::"@[0]);
    assert("&&"@.len() != ";"@.len());
    assert("&&"@.len() != "+"@.len());
    assert("&&"@.len() != "-"@.len());
    assert("&&"@.len() != "*"@.len());
    assert("&&"@.len() != "/"@.len());
    assert("&&"@.len() != "%"@.len());
    assert("&&"@.len() != "^"@.len());
    assert("&&"@[0] != "^^"@[0]);
    assert("&&"@.len() != "&"@.len());
    assert("!"@[0] != "("@[0]);
    assert("!"@[0] != ")"@[0]);
    assert("!"@[0] != "["@[0]);
    assert("!"@[0] != "]"@[0]);
    assert("!"@[0] != "{"@[0]);
    assert("!"@[0] != "}"@[0]);
    assert("!"@[0] != "="@[0]);
    assert("!"@.len() != "=="@.len());
    assert("!"@.len() != "!="@.len());
    assert("!"@[0] != "<"@[0]);
    assert("!"@.len() != "<<"@.len());
    assert("!"@.len() != "<="@.len());
    assert("!"@[0] != ">"@[0]);
    assert("!"@.len() != ">>"@.len());
    assert("!"@.len() != ">="@.len());
    assert("!"@.len() != "<-"@.len());
    assert("!"@.len() != "->"@.len());
    assert("!"@[0] != "."@[0]);
    assert("!"@[0] != ","@[0]);
    assert("!"@[0] != "|"@[0]);
    assert("!"@.len() != "||"@.len());
    assert("!"@.len() != ".."@.len());
    assert("!"@[0] != ":"@[0]);
    assert("!"@.len() != "::"@.len());
    assert("!"@[0] != ";"@[0]);
    assert("!"@[0] != "+"@[0]);
    assert("!"@[0] != "-"@[0]);
    assert("!"@[0] != "*"@[0]);
    assert("!"@[0] != "/"@[0]);
    assert("!"@[0] != "%"@[0]);
    assert("!"@[0] != "^"@[0]);
    assert("!"@.len() != "^^"@.len());
    assert("!"@[0] != "&"@[0]);
    assert("!"@.len() != "&&"@.len());
    assert("~"@[0] != "("@[0]);
    assert("~"@[0] != ")"@[0]);
    assert("~"@[0] != "["@[0]);
    assert("~"@[0] != "]"@[0]);
    assert("~"@[0] != "{"@[0]);
    assert("~"@[0] != "}"@[0]);
    assert("~"@[0] != "="@[0]);
    assert("~"@.len() != "=="@.len());
    assert("~"@.len() != "!="@.len());
    assert("~"@[0] != "<"@[0]);
    assert("~"@.len() != "<<"@.len());
    assert("~"@.len() != "<="@.len());
    assert("~"@[0] != ">"@[0]);
    assert("~"@.len() != ">>"@.len());
    assert("~"@.len() != ">="@.len());
    assert("~"@.len() != "<-"@.len());
    assert("~"@.len() != "->"@.len());
    assert("~"@[0] != "."@[0]);
    assert("~"@[0] != ","@[0]);
    assert("~"@[0] != "|"@[0]);
    assert("~"@.len() != "||"@.len());
    assert("~"@.len() != ".."@.len());
    assert("~"@[0] != ":"@[0]);
    assert("~"@.len() != "::"@.len());
    assert("~"@[0] != ";"@[0]);
    assert("~"@[0] != "+"@[0]);
    assert("~"@[0] != "-"@[0]);
    assert("~"@[0] != "*"@[0]);
    assert("~"@[0] != "/"@[0]);
    assert("~"@[0] != "%"@[0]);
    assert("~"@[0] != "^"@[0]);
    assert("~"@.len() != "^^"@.len());
    assert("~"@[0] != "&"@[0]);
    assert("~"@.len() != "&&"@.len());
    assert("~"@[0] != "!"@[0]);
    assert("$"@[0] != "("@[0]);
    assert("$"@[0] != ")"@[0]);
    assert("$"@[0] != "["@[0]);
    assert("$"@[0] != "]"@[0]);
    assert("$"@[0] != "{"@[0]);
    assert("$"@[0] != "}"@[0]);
    assert("$"@[0] != "="@[0]);
    assert("$"@.len() != "=="@.len());
    assert("$"@.len() != "!="@.len());
    assert("$"@[0] != "<"@[0]);
    assert("$"@.len() != "<<"@.len());
    assert("$"@.len() != "<="@.len());
    assert("$"@[0] != ">"@[0]);
    assert("$"@.len() != ">>"@.len());
    assert("$"@.len() != ">="@.len());
    assert("$"@.len() != "<-"@.len());
    assert("$"@.len() != "->"@.len());
    assert("$"@[0] != "."@[0]);
    assert("$"@[0] != ","@[0]);
    assert("$"@[0] != "|"@[0]);
    assert("$"@.len() != "||"@.len());
    assert("$"@.len() != ".."@.len());
    assert("$"@[0] != ":"@[0]);
    assert("$"@.len() != "::"@.len());
    assert("$"@[0] != ";"@[0]);
    assert("$"@[0] != "+"@[0]);
    assert("$"@[0] != "-"@[0]);
    assert("$"@[0] != "*"@[0]);
    assert("$"@[0] != "/"@[0]);
    assert("$"@[0] != "%"@[0]);
    assert("$"@[0] != "^"@[0]);
    assert("$"@.len() != "^^"@.len());
    assert("$"@[0] != "&"@[0]);
    assert("$"@.len() != "&&"@.len());
    assert("$"@[0] != "!"@[0]);
    assert("$"@[0] != "~"@[0]);
}


/// Only a keyword's spelling is read as that keyword.
pub proof fn lemma_keyword_of_spelling(s: Seq<char>)
    ensures
        keyword_of(s) matches Some(k) ==> s == k.text(),
{
}


/// Reading digits stops at the first character that is no digit of the
/// radix, or at the first digit that takes the number past `u32::MAX`.
pub proof fn lemma_radix_digits_errors(s: Seq<char>, c: char, radix: nat, v: nat)
    requires
        radix_digits(s, radix) == Ok::<nat, IntErrorKind>(v),
    ensures
        digit_value(c, radix) is None ==> radix_digits(s.push(c), radix) == Err::<nat, IntErrorKind>(IntErrorKind::InvalidDigit),
        digit_value(c, radix) matches Some(d) ==> (v * radix + d > u32::MAX ==> radix_digits(s.push(c), radix) == Err::<
            nat,
            IntErrorKind,
        >(IntErrorKind::PosOverflow)),
{
    assert(s.push(c).drop_last() =~= s);
}

/// An unsigned literal is empty, a lone sign, or an optional `+` then digits.
pub proof fn lemma_from_str_radix_sign(s: Seq<char>, radix: nat)
    ensures
        s.len() == 0 ==> spec_from_str_radix(s, radix) == Err::<nat, IntErrorKind>(IntErrorKind::Empty),
        s.len() == 1 && (s[0] == '+' || s[0] == '-') ==> spec_from_str_radix(s, radix) == Err::<nat, IntErrorKind>(
            IntErrorKind::InvalidDigit,
        ),
        s.len() > 1 && s[0] == '+' ==> spec_from_str_radix(s, radix) == radix_digits(s.drop_first(), radix),
        s.len() > 0 && s[0] != '+' && !(s.len() == 1 && s[0] == '-') ==> spec_from_str_radix(s, radix) == radix_digits(s, radix),
        radix_digits(Seq::<char>::empty(), radix) == Ok::<nat, IntErrorKind>(0),
{
}


/// The longest remaining length among the punctuation that continues `s`
/// with `c`: one of them has exactly that many characters left, none has
/// more, and there is none exactly when no punctuation continues `s` with `c`.
pub proof fn lemma_max_extra_longest(ms: Seq<PunctuationType>, s: Seq<char>, c: char)
    ensures
        max_extra(ms, s, c) is None <==> forall|i: int| 0 <= i < ms.len() ==> !extends_with(#[trigger] ms[i], s, c),
        max_extra(ms, s, c) matches Some(x) ==> exists|i: int| 0 <= i < ms.len() && extends_with(#[trigger] ms[i], s, c)
            && x == ms[i].text().len() - s.len(),
        max_extra(ms, s, c) matches Some(x) ==> forall|i: int| 0 <= i < ms.len() && extends_with(#[trigger] ms[i], s, c)
            ==> ms[i].text().len() - s.len() <= x,
    decreases ms.len(),
{
    if ms.len() > 0 {
        let init = ms.drop_last();
        lemma_max_extra_longest(init, s, c);
        assert forall|i: int| 0 <= i < init.len() implies #[trigger] init[i] == ms[i] by {}
        let last = ms.len() - 1;
        assert(ms[last] == ms.last());
        if let Some(y) = max_extra(init, s, c) {
            let i = choose|i: int| 0 <= i < init.len() && extends_with(#[trigger] init[i], s, c) && y == init[i].text().len() - s.len();
            assert(ms[i] == init[i]);
        }
        assert forall|i: int| 0 <= i < ms.len() && extends_with(#[trigger] ms[i], s, c) implies max_extra(ms, s, c) is Some by {
            if i < last {
                assert(init[i] == ms[i]);
            }
        }
        if let Some(x) = max_extra(ms, s, c) {
            assert forall|i: int| 0 <= i < ms.len() && extends_with(#[trigger] ms[i], s, c) implies ms[i].text().len() - s.len() <= x by {
                if i < last {
                    assert(init[i] == ms[i]);
                }
            }
        }
    }
}


/// Every punctuation is a candidate when the longest one is looked for.
pub proof fn lemma_punctuation_members(p: PunctuationType)
    ensures
        punctuation_members().contains(p),
{
    match p {
        PunctuationType::LParen => assert(punctuation_members()[0] == p),
        PunctuationType::RParen => assert(punctuation_members()[1] == p),
        PunctuationType::LSquare => assert(punctuation_members()[2] == p),
        PunctuationType::RSquare => assert(punctuation_members()[3] == p),
        PunctuationType::LCurly => assert(punctuation_members()[4] == p),
        PunctuationType::RCurly => assert(punctuation_members()[5] == p),
        PunctuationType::Equal => assert(punctuation_members()[6] == p),
        PunctuationType::DEqual => assert(punctuation_members()[7] == p),
        PunctuationType::ExclamationEqual => assert(punctuation_members()[8] == p),
        PunctuationType::LessThan => assert(punctuation_members()[9] == p),
        PunctuationType::DLessThan => assert(punctuation_members()[10] == p),
        PunctuationType::LessThanEqual => assert(punctuation_members()[11] == p),
        PunctuationType::GreaterThan => assert(punctuation_members()[12] == p),
        PunctuationType::DGreaterThan => assert(punctuation_members()[13] == p),
        PunctuationType::GreaterThanEqual => assert(punctuation_members()[14] == p),
        PunctuationType::LArrow => assert(punctuation_members()[15] == p),
        PunctuationType::RArrow => assert(punctuation_members()[16] == p),
        PunctuationType::Period => assert(punctuation_members()[17] == p),
        PunctuationType::Comma => assert(punctuation_members()[18] == p),
        PunctuationType::Pipe => assert(punctuation_members()[19] == p),
        PunctuationType::DPipe => assert(punctuation_members()[20] == p),
        PunctuationType::Range => assert(punctuation_members()[21] == p),
        PunctuationType::Colon => assert(punctuation_members()[22] == p),
        PunctuationType::DColon => assert(punctuation_members()[23] == p),
        PunctuationType::Semicolon => assert(punctuation_members()[24] == p),
        PunctuationType::Plus => assert(punctuation_members()[25] == p),
        PunctuationType::Minus => assert(punctuation_members()[26] == p),
        PunctuationType::Star => assert(punctuation_members()[27] == p),
        PunctuationType::Slash => assert(punctuation_members()[28] == p),
        PunctuationType::Percent => assert(punctuation_members()[29] == p),
        PunctuationType::Caret => assert(punctuation_members()[30] == p),
        PunctuationType::DCaret => assert(punctuation_members()[31] == p),
        PunctuationType::Ampersand => assert(punctuation_members()[32] == p),
        PunctuationType::DAmpersand => assert(punctuation_members()[33] == p),
        PunctuationType::Exclamation => assert(punctuation_members()[34] == p),
        PunctuationType::Tilde => assert(punctuation_members()[35] == p),
        PunctuationType::Dollar => assert(punctuation_members()[36] == p),
    }
}

} // verus!
