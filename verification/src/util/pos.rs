use vstd::prelude::*;

verus! {

/// Identifier of a loaded module.
pub type ModuleId = usize;

#[derive(Debug, Clone, Copy, PartialEq, Eq, Hash)]
pub enum LibrarySymbolType {
    Circ,
    Const,
    Enum,
    Library,
}

/// A source position: either nowhere, a builtin, a whole module, a symbol of
/// a library, or a span of text inside a module.
#[derive(Debug, Clone, Copy, PartialEq, Eq, Hash)]
pub enum Pos {
    Absent,
    Builtin,
    Module(ModuleId),
    Library(ModuleId, LibrarySymbolType, usize),
    Pos { module_id: ModuleId, line: usize, col: usize, start: usize, span: usize },
}

impl Pos {
    pub fn default() -> (p: Self)
        ensures
            p == Pos::Absent,
    {
        Pos::Absent
    }

    pub fn new(module_id: ModuleId, line: usize, col: usize, start: usize, span: usize) -> (p: Self)
        ensures
            p == (Pos::Pos { module_id, line, col, start, span }),
    {
        Pos::Pos { module_id, line, col, start, span }
    }

    /// The module a position belongs to, if any.
    pub open spec fn spec_module_id(self) -> Option<ModuleId> {
        match self {
            Pos::Absent | Pos::Builtin => None,
            Pos::Module(m) => Some(m),
            Pos::Library(m, _, _) => Some(m),
            Pos::Pos { module_id, .. } => Some(module_id),
        }
    }

    pub fn module_id(&self) -> (r: Option<ModuleId>)
        ensures
            r == self.spec_module_id(),
    {
        match self {
            Pos::Absent | Pos::Builtin => None,
            Pos::Module(m) => Some(*m),
            Pos::Library(m, _, _) => Some(*m),
            Pos::Pos { module_id, .. } => Some(*module_id),
        }
    }

    pub fn loc(&self) -> (r: Option<(usize, usize)>)
        ensures
            r == (match *self {
                Pos::Pos { line, col, .. } => Some((line, col)),
                _ => None,
            }),
    {
        match self {
            Pos::Pos { line, col, .. } => Some((*line, *col)),
            _ => None,
        }
    }

    pub fn line(&self) -> (r: Option<usize>)
        ensures
            r == (match *self {
                Pos::Pos { line, .. } => Some(line),
                _ => None,
            }),
    {
        match self {
            Pos::Pos { line, .. } => Some(*line),
            _ => None,
        }
    }

    pub fn col(&self) -> (r: Option<usize>)
        ensures
            r == (match *self {
                Pos::Pos { col, .. } => Some(col),
                _ => None,
            }),
    {
        match self {
            Pos::Pos { col, .. } => Some(*col),
            _ => None,
        }
    }

    pub fn start(&self) -> (r: Option<usize>)
        ensures
            r == (match *self {
                Pos::Pos { start, .. } => Some(start),
                _ => None,
            }),
    {
        match self {
            Pos::Pos { start, .. } => Some(*start),
            _ => None,
        }
    }

    pub fn span(&self) -> (r: Option<usize>)
        ensures
            r == (match *self {
                Pos::Pos { span, .. } => Some(span),
                _ => None,
            }),
    {
        match self {
            Pos::Pos { span, .. } => Some(*span),
            _ => None,
        }
    }

    /// The end offset of a text span, where it fits in a `usize`.
    pub open spec fn spec_end(self) -> Option<int> {
        match self {
            Pos::Pos { start, span, .. } => Some(start + span),
            _ => None,
        }
    }

    /// A span whose end offset is representable.
    pub open spec fn end_fits(self) -> bool {
        match self {
            Pos::Pos { start, span, .. } => start + span <= usize::MAX,
            _ => true,
        }
    }

    pub fn end(&self) -> (r: Option<usize>)
        requires
            self.end_fits(),
        ensures
            r matches Some(e) ==> self.spec_end() == Some(e as int),
            r is None <==> self.spec_end() is None,
    {
        match self {
            Pos::Pos { start, span, .. } => Some(*start + *span),
            _ => None,
        }
    }

    /// The span that starts where `self` starts and ends where `other` ends.
    pub open spec fn spec_expand(self, other: Pos) -> Pos {
        match (self, other) {
            (Pos::Pos { module_id, line, col, start, .. }, Pos::Pos { start: s2, span: l2, .. }) => {
                Pos::Pos { module_id, line, col, start, span: (s2 + l2 - start) as usize }
            },
            _ => self,
        }
    }

    /// Both positions are text spans, and `other` does not end before `self` starts.
    pub open spec fn can_expand(self, other: Pos) -> bool {
        &&& self is Pos
        &&& other is Pos
        &&& other.end_fits()
        &&& self->start <= other->Pos_start + other->Pos_span
    }

    pub fn expand(self, other: Pos) -> (r: Self)
        requires
            self.can_expand(other),
        ensures
            r == self.spec_expand(other),
            r->start == self->start,
            r->start + r->span == other.spec_end().unwrap(),
    {
        match (self, other) {
            (Pos::Pos { module_id, line, col, start, .. }, Pos::Pos { start: s2, span: l2, .. }) => {
                Pos::new(module_id, line, col, start, s2 + l2 - start)
            },
            _ => self,
        }
    }
}

} // verus!
