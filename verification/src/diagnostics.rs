use vstd::prelude::*;

use crate::ansi::{AnsiColourType, AnsiStyle};
use crate::tokeniser::{char_utf8_len, utf8_len, utf8_total};
use crate::util::text::{chars_of, decimal, push_char, push_str, usize_to_string};
use crate::util::{ModuleId, Pos};

verus! {

/// Where a diagnostic points.
#[derive(Debug, Clone, Copy, PartialEq, Eq)]
pub struct Context {
    pub pos: Pos,
}

impl Context {
    pub fn default() -> (c: Self)
        ensures
            c.pos == Pos::Absent,
    {
        Context { pos: Pos::Absent }
    }
}

#[derive(Debug, Copy, Clone, Eq, PartialEq)]
pub enum DiagnosticKind {
    Info,
    Warning,
    Error,
}

impl DiagnosticKind {
    pub open spec fn spec_str(self) -> Seq<char> {
        match self {
            DiagnosticKind::Info => "info"@,
            DiagnosticKind::Warning => "warning"@,
            DiagnosticKind::Error => "error"@,
        }
    }

    pub fn as_str(&self) -> (r: &'static str)
        ensures
            r@ == self.spec_str(),
    {
        match self {
            DiagnosticKind::Info => "info",
            DiagnosticKind::Warning => "warning",
            DiagnosticKind::Error => "error",
        }
    }

    pub open spec fn spec_colour(self) -> AnsiColourType {
        match self {
            DiagnosticKind::Info => AnsiColourType::_4Bit(false, 4),
            DiagnosticKind::Warning => AnsiColourType::_4Bit(false, 3),
            DiagnosticKind::Error => AnsiColourType::_4Bit(false, 1),
        }
    }

    /// The colour a diagnostic of this kind is shown in.
    pub fn colour(&self) -> (r: AnsiColourType)
        ensures
            r == self.spec_colour(),
    {
        match self {
            DiagnosticKind::Info => crate::ansi::blue(),
            DiagnosticKind::Warning => crate::ansi::yellow(),
            DiagnosticKind::Error => crate::ansi::red(),
        }
    }
}

/// A message of some kind about some place, with notes attached.
#[derive(Debug)]
pub struct Diagnostic {
    ctx: Context,
    kind: DiagnosticKind,
    message: String,
    notes: Vec<Diagnostic>,
}

impl Diagnostic {
    pub closed spec fn spec_kind(&self) -> DiagnosticKind {
        self.kind
    }

    pub closed spec fn spec_pos(&self) -> Pos {
        self.ctx.pos
    }

    pub closed spec fn spec_message(&self) -> Seq<char> {
        self.message@
    }

    pub closed spec fn note_count(&self) -> nat {
        self.notes@.len()
    }

    /// The notes attached, in order.
    pub closed spec fn spec_notes(&self) -> Seq<Diagnostic> {
        self.notes@
    }

    /// A diagnostic of this kind, message and position with the given notes.
    pub open spec fn is_at(&self, kind: DiagnosticKind, message: Seq<char>, pos: Pos, notes: Seq<Diagnostic>) -> bool {
        &&& self.spec_kind() == kind
        &&& self.spec_message() == message
        &&& self.spec_pos() == pos
        &&& self.spec_notes() == notes
        &&& self.note_count() == notes.len()
    }

    pub fn new(message: String, kind: DiagnosticKind, ctx: Context) -> (d: Self)
        ensures
            d.spec_kind() == kind,
            d.spec_pos() == ctx.pos,
            d.spec_message() == message@,
            d.note_count() == 0,
            d.spec_notes() == Seq::<Diagnostic>::empty(),
    {
        Diagnostic { ctx, kind, message, notes: Vec::new() }
    }

    /// An error with this message at this position, with no notes.
    pub open spec fn is_error_at(&self, message: Seq<char>, pos: Pos) -> bool {
        &&& self.spec_kind() == DiagnosticKind::Error
        &&& self.spec_message() == message
        &&& self.spec_pos() == pos
        &&& self.note_count() == 0
    }

    /// An error at a position.
    pub fn error(message: String, pos: Pos) -> (d: Self)
        ensures
            d.spec_kind() == DiagnosticKind::Error,
            d.spec_pos() == pos,
            d.spec_message() == message@,
            d.note_count() == 0,
            d.spec_notes() == Seq::<Diagnostic>::empty(),
    {
        Diagnostic::new(message, DiagnosticKind::Error, Context { pos })
    }

    pub fn kind(&self) -> (k: DiagnosticKind)
        ensures
            k == self.spec_kind(),
    {
        self.kind
    }

    pub fn pos(&self) -> (p: Pos)
        ensures
            p == self.spec_pos(),
    {
        self.ctx.pos
    }

    pub fn message(&self) -> (m: &str)
        ensures
            m@ == self.spec_message(),
    {
        self.message.as_str()
    }

    pub fn notes(&self) -> (n: &[Diagnostic])
        ensures
            n@.len() == self.note_count(),
            n@ == self.spec_notes(),
    {
        self.notes.as_slice()
    }

    /// Moves the diagnostic to `pos`; returns where it was.
    pub fn set_pos(&mut self, pos: Pos) -> (old_pos: Pos)
        ensures
            old_pos == old(self).spec_pos(),
            final(self).spec_pos() == pos,
            final(self).spec_kind() == old(self).spec_kind(),
            final(self).spec_message() == old(self).spec_message(),
            final(self).note_count() == old(self).note_count(),
            final(self).spec_notes() == old(self).spec_notes(),
    {
        let old_pos = self.ctx.pos;
        self.ctx.pos = pos;
        old_pos
    }

    pub fn with_pos(self, pos: Pos) -> (d: Self)
        ensures
            d.spec_pos() == pos,
            d.spec_kind() == self.spec_kind(),
            d.spec_message() == self.spec_message(),
            d.note_count() == self.note_count(),
            d.spec_notes() == self.spec_notes(),
    {
        let mut d = self;
        d.set_pos(pos);
        d
    }

    pub fn add_note(self, note: Self) -> (d: Self)
        ensures
            d.spec_pos() == self.spec_pos(),
            d.spec_kind() == self.spec_kind(),
            d.spec_message() == self.spec_message(),
            d.note_count() == self.note_count() + 1,
            d.spec_notes() == self.spec_notes().push(note),
    {
        let mut d = self;
        d.notes.push(note);
        d
    }
}

/// How many diagnostics of a kind a sequence holds.
pub open spec fn count_kind(s: Seq<Diagnostic>, k: DiagnosticKind) -> nat
    decreases s.len(),
{
    if s.len() == 0 {
        0
    } else {
        count_kind(s.drop_last(), k) + if s.last().spec_kind() == k {
            1nat
        } else {
            0nat
        }
    }
}

proof fn lemma_count_le(s: Seq<Diagnostic>, k: DiagnosticKind)
    ensures
        count_kind(s, k) <= s.len(),
    decreases s.len(),
{
    if s.len() > 0 {
        lemma_count_le(s.drop_last(), k);
    }
}

/// Some diagnostic of a sequence is an error exactly when it counts an error.
pub proof fn lemma_count_pos(s: Seq<Diagnostic>, k: DiagnosticKind)
    ensures
        count_kind(s, k) > 0 <==> exists|i: int| 0 <= i < s.len() && (#[trigger] s[i]).spec_kind() == k,
    decreases s.len(),
{
    if s.len() > 0 {
        lemma_count_pos(s.drop_last(), k);
        if count_kind(s.drop_last(), k) > 0 {
            let i = choose|i: int| 0 <= i < s.drop_last().len() && (#[trigger] s.drop_last()[i]).spec_kind() == k;
            assert(s[i] == s.drop_last()[i]);
        }
        if exists|i: int| 0 <= i < s.len() && (#[trigger] s[i]).spec_kind() == k {
            let i = choose|i: int| 0 <= i < s.len() && (#[trigger] s[i]).spec_kind() == k;
            if i < s.len() - 1 {
                assert(s.drop_last()[i] == s[i]);
            }
        }
    }
}

/// A list of diagnostics that keeps count of each kind.
#[derive(Debug)]
pub struct Diagnostics {
    diagnostics: Vec<Diagnostic>,
    info_count: usize,
    warning_count: usize,
    error_count: usize,
}

impl Diagnostics {
    /// The counts agree with the list.
    pub closed spec fn wf(&self) -> bool {
        &&& self.info_count == count_kind(self.diagnostics@, DiagnosticKind::Info)
        &&& self.warning_count == count_kind(self.diagnostics@, DiagnosticKind::Warning)
        &&& self.error_count == count_kind(self.diagnostics@, DiagnosticKind::Error)
    }

    /// The diagnostics, oldest first.
    pub closed spec fn view(&self) -> Seq<Diagnostic> {
        self.diagnostics@
    }

    pub open spec fn spec_has_errors(&self) -> bool {
        exists|i: int| 0 <= i < self.view().len() && (#[trigger] self.view()[i]).spec_kind() == DiagnosticKind::Error
    }

    /// After a diagnostic is added, the list reports errors exactly when it
    /// did before or the new diagnostic is an error, and it is not empty.
    pub proof fn lemma_push_errors(before: Self, after: Self, d: Diagnostic)
        requires
            after.view() == before.view().push(d),
        ensures
            after.spec_has_errors() <==> (before.spec_has_errors() || d.spec_kind() == DiagnosticKind::Error),
            after.view().len() > 0,
            after.view().last() == d,
    {
        if before.spec_has_errors() {
            let i = choose|i: int| 0 <= i < before.view().len() && (#[trigger] before.view()[i]).spec_kind() == DiagnosticKind::Error;
            assert(after.view()[i] == before.view()[i]);
        }
        if d.spec_kind() == DiagnosticKind::Error {
            assert(after.view()[before.view().len() as int] == d);
        }
        if after.spec_has_errors() {
            let i = choose|i: int| 0 <= i < after.view().len() && (#[trigger] after.view()[i]).spec_kind() == DiagnosticKind::Error;
            if i < before.view().len() {
                assert(after.view()[i] == before.view()[i]);
            }
        }
    }

    pub fn new() -> (d: Self)
        ensures
            d.wf(),
            d.view() == Seq::<Diagnostic>::empty(),
    {
        Diagnostics { diagnostics: Vec::new(), info_count: 0, warning_count: 0, error_count: 0 }
    }

    pub fn len(&self) -> (n: usize)
        ensures
            n == self.view().len(),
    {
        self.diagnostics.len()
    }

    pub fn push(&mut self, diagnostic: Diagnostic)
        requires
            old(self).wf(),
            old(self).view().len() < usize::MAX,
        ensures
            final(self).wf(),
            final(self).view() == old(self).view().push(diagnostic),
    {
        proof {
            lemma_count_le(self.diagnostics@, DiagnosticKind::Info);
            lemma_count_le(self.diagnostics@, DiagnosticKind::Warning);
            lemma_count_le(self.diagnostics@, DiagnosticKind::Error);
        }
        let ghost before = self.diagnostics@;
        match diagnostic.kind {
            DiagnosticKind::Info => self.info_count = self.info_count + 1,
            DiagnosticKind::Warning => self.warning_count = self.warning_count + 1,
            DiagnosticKind::Error => self.error_count = self.error_count + 1,
        }
        self.diagnostics.push(diagnostic);
        proof {
            assert(self.diagnostics@.drop_last() =~= before);
        }
    }

    /// Moves every diagnostic of `other` to the end of `self`, in order.
    pub fn append(&mut self, other: Diagnostics)
        requires
            old(self).wf(),
            old(self).view().len() + other.view().len() < usize::MAX,
        ensures
            final(self).wf(),
            final(self).view() == old(self).view() + other.view(),
    {
        let mut rest = other.diagnostics;
        let ghost all = rest@;
        let mut moved: Vec<Diagnostic> = Vec::new();
        // Reverse the incoming list so that it can be consumed from the back.
        while rest.len() > 0
            invariant
                rest@ + moved@.reverse() == all,
            decreases rest@.len(),
        {
            let d = rest.pop().unwrap();
            proof {
                assert(rest@.push(d) + moved@.reverse() =~= rest@ + moved@.push(d).reverse());
            }
            moved.push(d);
        }
        let ghost start = self.diagnostics@;
        while moved.len() > 0
            invariant
                self.wf(),
                self.diagnostics@ + moved@.reverse() == start + all,
                start.len() + all.len() < usize::MAX,
            decreases moved@.len(),
        {
            let ghost before_moved = moved@;
            let d = moved.pop().unwrap();
            proof {
                assert(before_moved == moved@.push(d));
                assert(before_moved.reverse().len() == before_moved.len());
                assert((self.diagnostics@ + before_moved.reverse()).len() == (start + all).len());
                assert(moved@.push(d).reverse() =~= seq![d] + moved@.reverse());
                assert(self.diagnostics@.len() + moved@.len() + 1 == start.len() + all.len());
            }
            self.push(d);
            proof {
                assert(self.diagnostics@ + moved@.reverse() =~= start + all);
            }
        }
        proof {
            assert(self.diagnostics@ =~= start + all);
        }
    }

    /// The diagnostics, oldest first.
    pub fn iter(&self) -> (r: &[Diagnostic])
        ensures
            r@ == self.view(),
    {
        self.diagnostics.as_slice()
    }

    pub fn into_vec(self) -> (r: Vec<Diagnostic>)
        ensures
            r@ == self.view(),
    {
        self.diagnostics
    }

    pub fn has_errors(&self) -> (r: bool)
        requires
            self.wf(),
        ensures
            r == self.spec_has_errors(),
    {
        proof {
            lemma_count_pos(self.diagnostics@, DiagnosticKind::Error);
        }
        self.error_count > 0
    }

    pub fn is_empty(&self) -> (r: bool)
        ensures
            r == (self.view().len() == 0),
    {
        self.diagnostics.len() == 0
    }

    /// A list holding one diagnostic.
    pub fn from_diagnostic(diagnostic: Diagnostic) -> (d: Self)
        ensures
            d.wf(),
            d.view() == seq![diagnostic],
    {
        let mut d = Diagnostics::new();
        d.push(diagnostic);
        proof {
            assert(d.view() =~= seq![diagnostic]);
        }
        d
    }
}


// ---------------------------------------------------------------------------
// Showing a diagnostic with the lines it points at
// ---------------------------------------------------------------------------

/// A module as diagnostics show it: its path, and its lines without their `\n`.
pub struct ModuleText {
    pub path: String,
    pub lines: Vec<String>,
}

/// Some prefix of `s` takes exactly `b` bytes in UTF-8.
pub open spec fn is_char_boundary(s: Seq<char>, b: int) -> bool {
    exists|k: int| 0 <= k <= s.len() && #[trigger] utf8_total(s.take(k)) == b
}

/// How many characters of `s` take the first `b` bytes.
pub open spec fn char_index(s: Seq<char>, b: int) -> int {
    choose|k: int| 0 <= k <= s.len() && #[trigger] utf8_total(s.take(k)) == b
}

/// `s` right-aligned in `width` characters, filled on the left with `fill`.
pub open spec fn pad_left(s: Seq<char>, width: int, fill: char) -> Seq<char> {
    if s.len() >= width {
        s
    } else {
        Seq::new((width - s.len()) as nat, |i: int| fill) + s
    }
}

/// `s` right-aligned in `width` characters and shown in style `st`.
pub open spec fn styled(st: AnsiStyle, s: Seq<char>, width: int) -> Seq<char> {
    st.spec_code() + pad_left(s, width, ' ') + st.spec_inverse().spec_code()
}

pub open spec fn bold_style() -> AnsiStyle {
    AnsiStyle { attributes: crate::ansi::AnsiAttributes { bold: Some(true), ..AnsiStyle::spec_new().attributes }, ..AnsiStyle::spec_new() }
}

pub open spec fn line_style() -> AnsiStyle {
    bold_style().fg_spec(AnsiColourType::_4Bit(false, 4))
}

pub open spec fn note_style() -> AnsiStyle {
    bold_style().fg_spec(AnsiColourType::_4Bit(false, 5))
}

/// The name of a kind, bold and in the kind's colour.
pub open spec fn kind_label(k: DiagnosticKind) -> Seq<char> {
    styled(bold_style(), styled(AnsiStyle::spec_new().fg_spec(k.spec_colour()), k.spec_str(), 0), 0)
}

/// The 1-based line and column of a position with `some_tail` after them,
/// or `none_tail` alone for a position outside the text.
pub open spec fn loc_text(pos: Pos, some_tail: Seq<char>, none_tail: Seq<char>) -> Seq<char> {
    match pos {
        Pos::Pos { line, col, .. } => ":"@ + decimal((line + 1) as nat) + ":"@ + decimal((col + 1) as nat) + some_tail,
        _ => none_tail,
    }
}

/// The width of the line-number gutter for a diagnostic on (0-based) line
/// `line`: one more than the digits of `line` (two for line 0), at least four.
pub open spec fn gutter(line: nat) -> int {
    let w = if line == 0 { 2 } else { decimal(line).len() + 1 };
    if w > 4 { w as int } else { 4 }
}

/// The excerpt under a diagnostic of kind `kind` at `pos` in the line `text`:
/// a bar, the numbered line with the span coloured, and the span underlined
/// with `~`.
pub open spec fn excerpt(kind: DiagnosticKind, pos: Pos, text: Seq<char>, pad: int) -> Seq<char> {
    let line = pos->line;
    let col = pos->col;
    let span = pos->span;
    let a = char_index(text, col as int);
    let b = char_index(text, col + span);
    let colour = AnsiStyle::spec_new().fg_spec(kind.spec_colour());
    styled(line_style(), "|"@, pad + 2) + "\n"@
        + styled(line_style(), decimal((line + 1) as nat), pad) + " "@ + styled(line_style(), "|"@, 0) + " "@
        + text.take(a) + styled(colour, text.subrange(a, b), 0) + text.skip(b) + "\n"@
        + styled(line_style(), "|"@, pad + 2) + " "@ + Seq::new(col as nat, |i: int| ' ') + colour.spec_code()
        + Seq::new(span as nat, |i: int| '~') + AnsiStyle::spec_new().fg_spec(AnsiColourType::Reset).spec_code() + "\n"@
}

/// A position that an excerpt can be shown for, in module text `mt`.
pub open spec fn shows_in(pos: Pos, mt: ModuleText) -> bool {
    pos matches Pos::Pos { line, col, span, .. } && {
        &&& line < mt.lines@.len()
        &&& line + 1 <= usize::MAX
        &&& col + 1 <= usize::MAX
        &&& col + span <= usize::MAX
        &&& is_char_boundary(mt.lines@[line as int]@, col as int)
        &&& is_char_boundary(mt.lines@[line as int]@, col + span)
    }
}

impl Diagnostic {
    /// A note of a diagnostic in module `m`, shown with gutter width `pad`.
    pub open spec fn note_text(self, m: ModuleId, modules: Seq<ModuleText>, pad: int) -> Seq<char> {
        let barpad = pad + 2;
        styled(note_style(), "---"@, barpad + 1) + "\n"@ + styled(note_style(), "+"@, barpad) + " "@
            + kind_label(self.spec_kind()) + ": "@ + self.spec_message() + "\n"@ + match self.spec_pos().spec_module_id() {
            None => Seq::empty(),
            Some(nm) => (if nm != m {
                styled(note_style(), "+"@, barpad) + " == "@ + modules[nm as int].path@ + loc_text(self.spec_pos(), " ==\n"@, "==\n"@)
            } else {
                Seq::empty()
            }) + match self.spec_pos() {
                Pos::Pos { line, .. } => excerpt(self.spec_kind(), self.spec_pos(), modules[nm as int].lines@[line as int]@, pad),
                _ => Seq::empty(),
            },
        }
    }

    /// A note can be shown: its module, if any, is known, and its place in it.
    pub open spec fn note_shows(self, modules: Seq<ModuleText>) -> bool {
        self.spec_pos().spec_module_id() matches Some(nm) ==> nm < modules.len() && (self.spec_pos() is Pos ==> shows_in(
            self.spec_pos(),
            modules[nm as int],
        ))
    }

    /// The diagnostic's module is known, and, where it points into the text,
    /// its place there and that of each note.
    pub open spec fn renderable(self, modules: Seq<ModuleText>) -> bool {
        &&& self.spec_pos().spec_module_id() is Some
        &&& self.spec_pos().spec_module_id()->0 < modules.len()
        &&& self.spec_pos() is Pos ==> shows_in(self.spec_pos(), modules[self.spec_pos().spec_module_id()->0 as int])
        &&& self.spec_pos() is Pos ==> forall|i: int| 0 <= i < self.spec_notes().len() ==> (#[trigger] self.spec_notes()[i]).note_shows(modules)
    }
}

/// The notes `notes`, in order.
pub open spec fn notes_text(notes: Seq<Diagnostic>, m: ModuleId, modules: Seq<ModuleText>, pad: int) -> Seq<char>
    decreases notes.len(),
{
    if notes.len() == 0 {
        Seq::empty()
    } else {
        notes_text(notes.drop_last(), m, modules, pad) + notes.last().note_text(m, modules, pad)
    }
}

/// A diagnostic as the user sees it: a bold heading with the module's path
/// and the place, the kind and the message; then, where it points into the
/// text, the line with the span marked, and the notes.
pub open spec fn spec_render(d: Diagnostic, modules: Seq<ModuleText>) -> Seq<char> {
    let m = d.spec_pos().spec_module_id()->0;
    let head = bold_style().spec_code() + modules[m as int].path@ + loc_text(d.spec_pos(), " \n"@, "\n"@)
        + bold_style().spec_inverse().spec_code() + "  "@ + kind_label(d.spec_kind()) + ": "@ + d.spec_message() + "\n"@;
    match d.spec_pos() {
        Pos::Pos { line, .. } => head + excerpt(d.spec_kind(), d.spec_pos(), modules[m as int].lines@[line as int]@, gutter(line as nat))
            + notes_text(d.spec_notes(), m, modules, gutter(line as nat)),
        _ => head,
    }
}

/// Taking more characters takes more bytes.
proof fn lemma_utf8_take_increases(s: Seq<char>, k1: int, k2: int)
    requires
        0 <= k1 < k2 <= s.len(),
    ensures
        utf8_total(s.take(k1)) < utf8_total(s.take(k2)),
    decreases k2 - k1,
{
    assert(s.take(k2).drop_last() =~= s.take(k2 - 1));
    if k1 < k2 - 1 {
        lemma_utf8_take_increases(s, k1, k2 - 1);
    }
}

/// The number of characters of `s` that take the first `b` bytes.
fn find_char_index(s: &Vec<char>, b: usize) -> (k: usize)
    requires
        is_char_boundary(s@, b as int),
    ensures
        k == char_index(s@, b as int),
        k <= s@.len(),
{
    let ghost w = choose|k: int| 0 <= k <= s@.len() && #[trigger] utf8_total(s@.take(k)) == b;
    let len = s.len();
    let mut k: usize = 0;
    let mut acc: usize = 0;
    proof {
        assert(s@.take(0) =~= Seq::<char>::empty());
    }
    while acc < b
        invariant
            len == s@.len(),
            0 <= w <= s@.len(),
            utf8_total(s@.take(w)) == b,
            k <= w,
            acc == utf8_total(s@.take(k as int)),
            acc <= b,
        decreases w - k,
    {
        proof {
            if k == w {
                assert(false);
            }
            assert(s@.take(k + 1).drop_last() =~= s@.take(k as int));
            if k + 1 < w {
                lemma_utf8_take_increases(s@, k + 1, w);
            }
        }
        let n = char_utf8_len(s[k]);
        acc = acc + n;
        k = k + 1;
    }
    proof {
        if k < w {
            lemma_utf8_take_increases(s@, k as int, w);
        }
        let c = char_index(s@, b as int);
        if c != k {
            if c < k {
                lemma_utf8_take_increases(s@, c, k as int);
            } else {
                lemma_utf8_take_increases(s@, k as int, c);
            }
        }
    }
    k
}

/// Appends `n` copies of `c`.
fn push_repeat(out: &mut String, c: char, n: usize)
    ensures
        final(out)@ == old(out)@ + Seq::new(n as nat, |i: int| c),
{
    let mut i: usize = 0;
    while i < n
        invariant
            i <= n,
            out@ == old(out)@ + Seq::new(i as nat, |j: int| c),
        decreases n - i,
    {
        push_char(out, c);
        i = i + 1;
        proof {
            assert(out@ =~= old(out)@ + Seq::new(i as nat, |j: int| c));
        }
    }
}

/// Appends characters `a` to `b` of `v`.
fn push_chars(out: &mut String, v: &Vec<char>, a: usize, b: usize)
    requires
        a <= b <= v@.len(),
    ensures
        final(out)@ == old(out)@ + v@.subrange(a as int, b as int),
{
    let mut i: usize = a;
    while i < b
        invariant
            a <= i <= b <= v@.len(),
            out@ == old(out)@ + v@.subrange(a as int, i as int),
        decreases b - i,
    {
        push_char(out, v[i]);
        i = i + 1;
        proof {
            assert(out@ =~= old(out)@ + v@.subrange(a as int, i as int));
        }
    }
}

/// Appends `s` right-aligned in `width` characters.
fn push_padded(out: &mut String, s: &str, width: usize, fill: char)
    ensures
        final(out)@ == old(out)@ + pad_left(s@, width as int, fill),
{
    let n = s.unicode_len();
    if n < width {
        push_repeat(out, fill, width - n);
    }
    push_str(out, s);
    proof {
        assert(out@ =~= old(out)@ + pad_left(s@, width as int, fill));
    }
}

/// Appends `s` right-aligned in `width` characters, in style `st`.
fn push_styled(out: &mut String, st: AnsiStyle, s: &str, width: usize)
    ensures
        final(out)@ == old(out)@ + styled(st, s@, width as int),
{
    let code = st.to_string();
    push_str(out, code.as_str());
    push_padded(out, s, width, ' ');
    let inv = st.inverse().to_string();
    push_str(out, inv.as_str());
    proof {
        assert(out@ =~= old(out)@ + styled(st, s@, width as int));
    }
}

fn bold() -> (r: AnsiStyle)
    ensures
        r == bold_style(),
{
    AnsiStyle::new().bold(true)
}

/// Appends the name of a kind, bold and in its colour.
fn push_kind_label(out: &mut String, k: DiagnosticKind)
    ensures
        final(out)@ == old(out)@ + kind_label(k),
{
    let mut inner = String::new();
    push_styled(&mut inner, AnsiStyle::new().fg(k.colour()), k.as_str(), 0);
    push_styled(out, bold(), inner.as_str(), 0);
}

/// Appends the 1-based line and column of `pos` and `some_tail`, or
/// `none_tail` for a position outside the text.
fn push_loc(out: &mut String, pos: Pos, some_tail: &str, none_tail: &str)
    requires
        pos matches Pos::Pos { line, col, .. } ==> line + 1 <= usize::MAX && col + 1 <= usize::MAX,
    ensures
        final(out)@ == old(out)@ + loc_text(pos, some_tail@, none_tail@),
{
    match pos {
        Pos::Pos { line, col, .. } => {
            push_str(out, ":");
            push_str(out, usize_to_string(line + 1).as_str());
            push_str(out, ":");
            push_str(out, usize_to_string(col + 1).as_str());
            push_str(out, some_tail);
        },
        _ => push_str(out, none_tail),
    }
    proof {
        assert(out@ =~= old(out)@ + loc_text(pos, some_tail@, none_tail@));
    }
}

/// The gutter width for a diagnostic on line `line`.
fn gutter_width(line: usize) -> (w: usize)
    ensures
        w == gutter(line as nat),
        w <= 4 + line / 10,
{
    let w: usize = if line == 0 {
        2
    } else {
        let digits = usize_to_string(line);
        let n = digits.as_str().unicode_len();
        proof {
            lemma_decimal_short(line as nat);
        }
        n + 1
    };
    if w > 4 { w } else { 4 }
}

/// A number has at most one decimal digit more than a tenth of its value.
proof fn lemma_decimal_short(n: nat)
    ensures
        decimal(n).len() <= 1 + n / 10,
    decreases n,
{
    if n >= 10 {
        lemma_decimal_short(n / 10);
    }
}

/// The excerpt for `pos` in line `text`.
fn excerpt_string(kind: DiagnosticKind, pos: Pos, text: &str, pad: usize) -> (r: String)
    requires
        pos matches Pos::Pos { line, col, span, .. } && {
            &&& line + 1 <= usize::MAX
            &&& col + span <= usize::MAX
            &&& is_char_boundary(text@, col as int)
            &&& is_char_boundary(text@, col + span)
        },
        pad + 2 <= usize::MAX,
    ensures
        r@ == excerpt(kind, pos, text@, pad as int),
{
    let (line, col, span) = match pos {
        Pos::Pos { line, col, span, .. } => (line, col, span),
        _ => (0, 0, 0),
    };
    let v = chars_of(text);
    let a = find_char_index(&v, col);
    let b = find_char_index(&v, col + span);
    proof {
        if b < a {
            lemma_utf8_take_increases(v@, b as int, a as int);
        }
    }
    let ls = bold().fg(crate::ansi::blue());
    let colour = AnsiStyle::new().fg(kind.colour());
    let mut out = String::new();
    push_styled(&mut out, ls, "|", pad + 2);
    proof {
        assert(out@ =~= styled(line_style(), "|"@, pad + 2));
    }
    push_str(&mut out, "\n");
    push_styled(&mut out, ls, usize_to_string(line + 1).as_str(), pad);
    push_str(&mut out, " ");
    push_styled(&mut out, ls, "|", 0);
    push_str(&mut out, " ");
    let ghost o1 = out@;
    push_chars(&mut out, &v, 0, a);
    proof {
        assert(v@.subrange(0, a as int) =~= text@.take(a as int));
    }
    let mut piece = String::new();
    push_chars(&mut piece, &v, a, b);
    proof {
        assert(piece@ =~= text@.subrange(a as int, b as int));
    }
    push_styled(&mut out, colour, piece.as_str(), 0);
    push_chars(&mut out, &v, b, v.len());
    proof {
        assert(v@.subrange(b as int, v@.len() as int) =~= text@.skip(b as int));
    }
    push_str(&mut out, "\n");
    push_styled(&mut out, ls, "|", pad + 2);
    push_str(&mut out, " ");
    push_repeat(&mut out, ' ', col);
    push_str(&mut out, colour.to_string().as_str());
    push_repeat(&mut out, '~', span);
    push_str(&mut out, AnsiStyle::new().fg(crate::ansi::reset()).to_string().as_str());
    push_str(&mut out, "\n");
    out
}

impl Diagnostic {
    /// This diagnostic shown as a note of one in module `m`.
    fn note_string(&self, m: ModuleId, modules: &[ModuleText], pad: usize) -> (r: String)
        requires
            self.note_shows(modules@),
            pad + 3 <= usize::MAX,
        ensures
            r@ == self.note_text(m, modules@, pad as int),
    {
        let ns = bold().fg(crate::ansi::magenta());
        let barpad = pad + 2;
        let mut out = String::new();
        push_styled(&mut out, ns, "---", barpad + 1);
        proof {
            assert(out@ =~= styled(note_style(), "---"@, barpad + 1));
        }
        push_str(&mut out, "\n");
        push_styled(&mut out, ns, "+", barpad);
        push_str(&mut out, " ");
        push_kind_label(&mut out, self.kind);
        push_str(&mut out, ": ");
        push_str(&mut out, self.message.as_str());
        push_str(&mut out, "\n");
        let ghost head = out@;
        let mut tail = String::new();
        match self.ctx.pos.module_id() {
            None => {},
            Some(nm) => {
                let mut other = String::new();
                if nm != m {
                    push_styled(&mut other, ns, "+", barpad);
                    proof {
                        assert(other@ =~= styled(note_style(), "+"@, barpad as int));
                    }
                    push_str(&mut other, " == ");
                    push_str(&mut other, modules[nm].path.as_str());
                    push_loc(&mut other, self.ctx.pos, " ==\n", "==\n");
                }
                let mut ex = String::new();
                match self.ctx.pos {
                    Pos::Pos { line, .. } => {
                        ex = excerpt_string(self.kind, self.ctx.pos, modules[nm].lines[line].as_str(), pad);
                    },
                    _ => {},
                }
                push_str(&mut tail, other.as_str());
                push_str(&mut tail, ex.as_str());
                proof {
                    assert(tail@ =~= other@ + ex@);
                }
            },
        }
        push_str(&mut out, tail.as_str());
        out
    }

    /// The diagnostic as the user sees it, given the text of the modules it
    /// and its notes point into.
    pub fn to_string(&self, modules: &[ModuleText]) -> (s: String)
        requires
            self.renderable(modules@),
        ensures
            s@ == spec_render(*self, modules@),
    {
        let b = bold();
        let m = match self.ctx.pos.module_id() {
            Some(m) => m,
            None => 0,
        };
        let mut out = b.to_string();
        push_str(&mut out, modules[m].path.as_str());
        push_loc(&mut out, self.ctx.pos, " \n", "\n");
        push_str(&mut out, b.inverse().to_string().as_str());
        push_str(&mut out, "  ");
        push_kind_label(&mut out, self.kind);
        push_str(&mut out, ": ");
        push_str(&mut out, self.message.as_str());
        push_str(&mut out, "\n");
        match self.ctx.pos {
            Pos::Pos { line, .. } => {
                let pad = gutter_width(line);
                let ex = excerpt_string(self.kind, self.ctx.pos, modules[m].lines[line].as_str(), pad);
                push_str(&mut out, ex.as_str());
                let ghost base = out@;
                proof {
                    assert(base + notes_text(self.notes@.take(0), m, modules@, pad as int) =~= base);
                }
                let mut i: usize = 0;
                while i < self.notes.len()
                    invariant
                        i <= self.notes@.len(),
                        self.renderable(modules@),
                        self.ctx.pos is Pos,
                        pad == gutter(line as nat),
                        pad + 3 <= usize::MAX,
                        out@ == base + notes_text(self.notes@.take(i as int), m, modules@, pad as int),
                    decreases self.notes@.len() - i,
                {
                    assert(self.spec_notes()[i as int] == self.notes@[i as int]);
                    let ghost before = out@;
                    let note = self.notes[i].note_string(m, modules, pad);
                    push_str(&mut out, note.as_str());
                    i = i + 1;
                    proof {
                        let t = self.notes@.take(i as int);
                        assert(t.drop_last() =~= self.notes@.take(i - 1));
                        assert(t.last() == self.notes@[i - 1]);
                        let prev = notes_text(self.notes@.take(i - 1), m, modules@, pad as int);
                        assert(before == base + prev);
                        assert(out@ =~= base + (prev + note@));
                    }
                }
                proof {
                    assert(self.notes@.take(self.notes@.len() as int) =~= self.notes@);
                }
            },
            _ => {},
        }
        out
    }
}

} // verus!
