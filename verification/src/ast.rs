use vstd::prelude::*;

use crate::tokeniser::{IdentId, PunctuationType, TokenType};
use crate::util::{ModuleId, Pos};

verus! {

#[derive(Debug, Clone, Copy, PartialEq, Eq, Structural)]
pub enum PinDirection {
    Input,
    Output,
    Transput,
}

#[derive(Debug, Clone, Copy, PartialEq, Eq, Structural)]
pub enum ConnectionDirection {
    LeftToRight,
    RightToLeft,
    Bidrectional,
}

#[derive(Debug, Copy, Clone, PartialEq, Eq, Structural)]
pub enum Associativity {
    Left,
    Right,
    Unary,
}

/// Operators of constant expressions.
#[derive(Debug, Eq, PartialEq, Copy, Clone, Structural)]
pub enum ConstExprOpType {
    Add,
    Sub,
    Mul,
    Div,
    Mod,
    And,
    Or,
    Xor,
    Not,
    Shl,
    Shr,
    Eq,
    Neq,
    Lt,
    Lte,
    Gt,
    Gte,
    BitAnd,
    BitOr,
    BitXor,
    BitNot,
    UnaryMinus,
    Range,
}

impl ConstExprOpType {
    pub open spec fn spec_precedence(self) -> nat {
        match self {
            ConstExprOpType::Add => 3,
            ConstExprOpType::Sub => 3,
            ConstExprOpType::Mul => 4,
            ConstExprOpType::Div => 4,
            ConstExprOpType::Mod => 4,
            ConstExprOpType::And => 0,
            ConstExprOpType::Or => 0,
            ConstExprOpType::Xor => 0,
            ConstExprOpType::Not => 7,
            ConstExprOpType::Shl => 6,
            ConstExprOpType::Shr => 6,
            ConstExprOpType::Eq => 1,
            ConstExprOpType::Neq => 1,
            ConstExprOpType::Lt => 1,
            ConstExprOpType::Lte => 1,
            ConstExprOpType::Gt => 1,
            ConstExprOpType::Gte => 1,
            ConstExprOpType::BitAnd => 5,
            ConstExprOpType::BitOr => 5,
            ConstExprOpType::BitXor => 5,
            ConstExprOpType::BitNot => 8,
            ConstExprOpType::UnaryMinus => 8,
            ConstExprOpType::Range => 2,
        }
    }

    pub open spec fn spec_associativity(self) -> Associativity {
        match self {
            ConstExprOpType::Not | ConstExprOpType::BitNot | ConstExprOpType::UnaryMinus => Associativity::Unary,
            _ => Associativity::Left,
        }
    }

    /// The punctuation an operator is written with.
    pub open spec fn spec_token(self) -> PunctuationType {
        match self {
            ConstExprOpType::Add => PunctuationType::Plus,
            ConstExprOpType::Sub => PunctuationType::Minus,
            ConstExprOpType::Mul => PunctuationType::Star,
            ConstExprOpType::Div => PunctuationType::Slash,
            ConstExprOpType::Mod => PunctuationType::Percent,
            ConstExprOpType::And => PunctuationType::DAmpersand,
            ConstExprOpType::Or => PunctuationType::DPipe,
            ConstExprOpType::Xor => PunctuationType::DCaret,
            ConstExprOpType::Not => PunctuationType::Exclamation,
            ConstExprOpType::Shl => PunctuationType::DLessThan,
            ConstExprOpType::Shr => PunctuationType::DGreaterThan,
            ConstExprOpType::Eq => PunctuationType::DEqual,
            ConstExprOpType::Neq => PunctuationType::ExclamationEqual,
            ConstExprOpType::Lt => PunctuationType::LessThan,
            ConstExprOpType::Lte => PunctuationType::LessThanEqual,
            ConstExprOpType::Gt => PunctuationType::GreaterThan,
            ConstExprOpType::Gte => PunctuationType::GreaterThanEqual,
            ConstExprOpType::BitAnd => PunctuationType::Ampersand,
            ConstExprOpType::BitOr => PunctuationType::Pipe,
            ConstExprOpType::BitXor => PunctuationType::Caret,
            ConstExprOpType::BitNot => PunctuationType::Tilde,
            ConstExprOpType::UnaryMinus => PunctuationType::Minus,
            ConstExprOpType::Range => PunctuationType::Range,
        }
    }

    pub fn precedence(&self) -> (r: usize)
        ensures
            r == self.spec_precedence(),
    {
        match self {
            ConstExprOpType::Add => 3,
            ConstExprOpType::Sub => 3,
            ConstExprOpType::Mul => 4,
            ConstExprOpType::Div => 4,
            ConstExprOpType::Mod => 4,
            ConstExprOpType::And => 0,
            ConstExprOpType::Or => 0,
            ConstExprOpType::Xor => 0,
            ConstExprOpType::Not => 7,
            ConstExprOpType::Shl => 6,
            ConstExprOpType::Shr => 6,
            ConstExprOpType::Eq => 1,
            ConstExprOpType::Neq => 1,
            ConstExprOpType::Lt => 1,
            ConstExprOpType::Lte => 1,
            ConstExprOpType::Gt => 1,
            ConstExprOpType::Gte => 1,
            ConstExprOpType::BitAnd => 5,
            ConstExprOpType::BitOr => 5,
            ConstExprOpType::BitXor => 5,
            ConstExprOpType::BitNot => 8,
            ConstExprOpType::UnaryMinus => 8,
            ConstExprOpType::Range => 2,
        }
    }

    pub fn higher_precedence(&self, other: &Self) -> (r: bool)
        ensures
            r == (self.spec_precedence() > other.spec_precedence()),
    {
        self.precedence() > other.precedence()
    }

    pub fn lower_precedence(&self, other: &Self) -> (r: bool)
        ensures
            r == (self.spec_precedence() < other.spec_precedence()),
    {
        self.precedence() < other.precedence()
    }

    pub fn associativity(&self) -> (r: Associativity)
        ensures
            r == self.spec_associativity(),
    {
        match self {
            ConstExprOpType::Not | ConstExprOpType::BitNot | ConstExprOpType::UnaryMinus => Associativity::Unary,
            _ => Associativity::Left,
        }
    }

    pub fn is_unary(&self) -> (r: bool)
        ensures
            r == (self.spec_associativity() == Associativity::Unary),
    {
        match self {
            ConstExprOpType::Not | ConstExprOpType::BitNot | ConstExprOpType::UnaryMinus => true,
            _ => false,
        }
    }

    /// The unary operator a binary operator turns into where a value is expected.
    pub fn unary_equivalent(&self) -> (r: Option<Self>)
        ensures
            r == (if *self == ConstExprOpType::Sub {
                Some(ConstExprOpType::UnaryMinus)
            } else {
                None::<ConstExprOpType>
            }),
    {
        match self {
            ConstExprOpType::Sub => Some(ConstExprOpType::UnaryMinus),
            _ => None,
        }
    }

    /// How the operator is written.
    pub fn as_string(&self) -> (r: &'static str)
        ensures
            r@ == self.spec_token().text(),
    {
        match self {
            ConstExprOpType::Add => "+",
            ConstExprOpType::Sub => "-",
            ConstExprOpType::Mul => "*",
            ConstExprOpType::Div => "/",
            ConstExprOpType::Mod => "%",
            ConstExprOpType::And => "&&",
            ConstExprOpType::Or => "||",
            ConstExprOpType::Xor => "^^",
            ConstExprOpType::Not => "!",
            ConstExprOpType::Shl => "<<",
            ConstExprOpType::Shr => ">>",
            ConstExprOpType::Eq => "==",
            ConstExprOpType::Neq => "!=",
            ConstExprOpType::Lt => "<",
            ConstExprOpType::Lte => "<=",
            ConstExprOpType::Gt => ">",
            ConstExprOpType::Gte => ">=",
            ConstExprOpType::BitAnd => "&",
            ConstExprOpType::BitOr => "|",
            ConstExprOpType::BitXor => "^",
            ConstExprOpType::BitNot => "~",
            ConstExprOpType::UnaryMinus => "-",
            ConstExprOpType::Range => "..",
        }
    }

    /// The operator a punctuation token stands for. `-` reads as subtraction;
    /// the unary minus is never read directly.
    pub open spec fn spec_from_token(tt: TokenType) -> Option<ConstExprOpType> {
        match tt {
            TokenType::Punctuation(p) => match p {
                PunctuationType::Plus => Some(ConstExprOpType::Add),
                PunctuationType::Minus => Some(ConstExprOpType::Sub),
                PunctuationType::Star => Some(ConstExprOpType::Mul),
                PunctuationType::Slash => Some(ConstExprOpType::Div),
                PunctuationType::Percent => Some(ConstExprOpType::Mod),
                PunctuationType::DAmpersand => Some(ConstExprOpType::And),
                PunctuationType::DPipe => Some(ConstExprOpType::Or),
                PunctuationType::DCaret => Some(ConstExprOpType::Xor),
                PunctuationType::Exclamation => Some(ConstExprOpType::Not),
                PunctuationType::DLessThan => Some(ConstExprOpType::Shl),
                PunctuationType::DGreaterThan => Some(ConstExprOpType::Shr),
                PunctuationType::DEqual => Some(ConstExprOpType::Eq),
                PunctuationType::ExclamationEqual => Some(ConstExprOpType::Neq),
                PunctuationType::LessThan => Some(ConstExprOpType::Lt),
                PunctuationType::LessThanEqual => Some(ConstExprOpType::Lte),
                PunctuationType::GreaterThan => Some(ConstExprOpType::Gt),
                PunctuationType::GreaterThanEqual => Some(ConstExprOpType::Gte),
                PunctuationType::Ampersand => Some(ConstExprOpType::BitAnd),
                PunctuationType::Pipe => Some(ConstExprOpType::BitOr),
                PunctuationType::Caret => Some(ConstExprOpType::BitXor),
                PunctuationType::Tilde => Some(ConstExprOpType::BitNot),
                PunctuationType::Range => Some(ConstExprOpType::Range),
                _ => None,
            },
            _ => None,
        }
    }

    pub fn try_from_token(tt: &TokenType) -> (r: Option<Self>)
        ensures
            r == Self::spec_from_token(*tt),
    {
        match tt {
            TokenType::Punctuation(p) => match p {
                PunctuationType::Plus => Some(ConstExprOpType::Add),
                PunctuationType::Minus => Some(ConstExprOpType::Sub),
                PunctuationType::Star => Some(ConstExprOpType::Mul),
                PunctuationType::Slash => Some(ConstExprOpType::Div),
                PunctuationType::Percent => Some(ConstExprOpType::Mod),
                PunctuationType::DAmpersand => Some(ConstExprOpType::And),
                PunctuationType::DPipe => Some(ConstExprOpType::Or),
                PunctuationType::DCaret => Some(ConstExprOpType::Xor),
                PunctuationType::Exclamation => Some(ConstExprOpType::Not),
                PunctuationType::DLessThan => Some(ConstExprOpType::Shl),
                PunctuationType::DGreaterThan => Some(ConstExprOpType::Shr),
                PunctuationType::DEqual => Some(ConstExprOpType::Eq),
                PunctuationType::ExclamationEqual => Some(ConstExprOpType::Neq),
                PunctuationType::LessThan => Some(ConstExprOpType::Lt),
                PunctuationType::LessThanEqual => Some(ConstExprOpType::Lte),
                PunctuationType::GreaterThan => Some(ConstExprOpType::Gt),
                PunctuationType::GreaterThanEqual => Some(ConstExprOpType::Gte),
                PunctuationType::Ampersand => Some(ConstExprOpType::BitAnd),
                PunctuationType::Pipe => Some(ConstExprOpType::BitOr),
                PunctuationType::Caret => Some(ConstExprOpType::BitXor),
                PunctuationType::Tilde => Some(ConstExprOpType::BitNot),
                PunctuationType::Range => Some(ConstExprOpType::Range),
                _ => None,
            },
            _ => None,
        }
    }
}

/// How tightly the operators bind, loosest first: the logical operators,
/// then the comparisons, then `..`, then `+` and `-`, then `*`, `/`, `%`,
/// then the bitwise operators, then the shifts, then `!`, and tightest the
/// bitwise not and the unary minus. Operators within one group bind equally.
pub proof fn lemma_precedence_table()
    ensures
        ConstExprOpType::And.spec_precedence() == ConstExprOpType::Or.spec_precedence(),
        ConstExprOpType::Or.spec_precedence() == ConstExprOpType::Xor.spec_precedence(),
        ConstExprOpType::Xor.spec_precedence() < ConstExprOpType::Eq.spec_precedence(),
        ConstExprOpType::Eq.spec_precedence() == ConstExprOpType::Neq.spec_precedence(),
        ConstExprOpType::Eq.spec_precedence() == ConstExprOpType::Lt.spec_precedence(),
        ConstExprOpType::Eq.spec_precedence() == ConstExprOpType::Lte.spec_precedence(),
        ConstExprOpType::Eq.spec_precedence() == ConstExprOpType::Gt.spec_precedence(),
        ConstExprOpType::Eq.spec_precedence() == ConstExprOpType::Gte.spec_precedence(),
        ConstExprOpType::Eq.spec_precedence() < ConstExprOpType::Range.spec_precedence(),
        ConstExprOpType::Range.spec_precedence() < ConstExprOpType::Add.spec_precedence(),
        ConstExprOpType::Add.spec_precedence() == ConstExprOpType::Sub.spec_precedence(),
        ConstExprOpType::Add.spec_precedence() < ConstExprOpType::Mul.spec_precedence(),
        ConstExprOpType::Mul.spec_precedence() == ConstExprOpType::Div.spec_precedence(),
        ConstExprOpType::Mul.spec_precedence() == ConstExprOpType::Mod.spec_precedence(),
        ConstExprOpType::Mul.spec_precedence() < ConstExprOpType::BitAnd.spec_precedence(),
        ConstExprOpType::BitAnd.spec_precedence() == ConstExprOpType::BitOr.spec_precedence(),
        ConstExprOpType::BitAnd.spec_precedence() == ConstExprOpType::BitXor.spec_precedence(),
        ConstExprOpType::BitAnd.spec_precedence() < ConstExprOpType::Shl.spec_precedence(),
        ConstExprOpType::Shl.spec_precedence() == ConstExprOpType::Shr.spec_precedence(),
        ConstExprOpType::Shl.spec_precedence() < ConstExprOpType::Not.spec_precedence(),
        ConstExprOpType::Not.spec_precedence() < ConstExprOpType::BitNot.spec_precedence(),
        ConstExprOpType::BitNot.spec_precedence() == ConstExprOpType::UnaryMinus.spec_precedence(),
        ConstExprOpType::And.spec_precedence() == 0,
{
}

/// The operators that take one operand are `!`, `~` and the unary minus;
/// every other operator takes two and groups from the left. Only `-` turns
/// into a unary operator where a value is expected.
pub proof fn lemma_associativity(op: ConstExprOpType)
    ensures
        (op.spec_associativity() == Associativity::Unary) <==> (op == ConstExprOpType::Not || op == ConstExprOpType::BitNot
            || op == ConstExprOpType::UnaryMinus),
        op.spec_associativity() != Associativity::Right,
{
}

/// The punctuation each constant operator is read from.
pub proof fn lemma_const_op_tokens()
    ensures
        ConstExprOpType::spec_from_token(TokenType::Punctuation(PunctuationType::Plus)) == Some(ConstExprOpType::Add),
        ConstExprOpType::spec_from_token(TokenType::Punctuation(PunctuationType::Minus)) == Some(ConstExprOpType::Sub),
        ConstExprOpType::spec_from_token(TokenType::Punctuation(PunctuationType::Star)) == Some(ConstExprOpType::Mul),
        ConstExprOpType::spec_from_token(TokenType::Punctuation(PunctuationType::Slash)) == Some(ConstExprOpType::Div),
        ConstExprOpType::spec_from_token(TokenType::Punctuation(PunctuationType::Percent)) == Some(ConstExprOpType::Mod),
        ConstExprOpType::spec_from_token(TokenType::Punctuation(PunctuationType::DAmpersand)) == Some(ConstExprOpType::And),
        ConstExprOpType::spec_from_token(TokenType::Punctuation(PunctuationType::DPipe)) == Some(ConstExprOpType::Or),
        ConstExprOpType::spec_from_token(TokenType::Punctuation(PunctuationType::DCaret)) == Some(ConstExprOpType::Xor),
        ConstExprOpType::spec_from_token(TokenType::Punctuation(PunctuationType::Exclamation)) == Some(ConstExprOpType::Not),
        ConstExprOpType::spec_from_token(TokenType::Punctuation(PunctuationType::DLessThan)) == Some(ConstExprOpType::Shl),
        ConstExprOpType::spec_from_token(TokenType::Punctuation(PunctuationType::DGreaterThan)) == Some(ConstExprOpType::Shr),
        ConstExprOpType::spec_from_token(TokenType::Punctuation(PunctuationType::DEqual)) == Some(ConstExprOpType::Eq),
        ConstExprOpType::spec_from_token(TokenType::Punctuation(PunctuationType::ExclamationEqual)) == Some(ConstExprOpType::Neq),
        ConstExprOpType::spec_from_token(TokenType::Punctuation(PunctuationType::LessThan)) == Some(ConstExprOpType::Lt),
        ConstExprOpType::spec_from_token(TokenType::Punctuation(PunctuationType::LessThanEqual)) == Some(ConstExprOpType::Lte),
        ConstExprOpType::spec_from_token(TokenType::Punctuation(PunctuationType::GreaterThan)) == Some(ConstExprOpType::Gt),
        ConstExprOpType::spec_from_token(TokenType::Punctuation(PunctuationType::GreaterThanEqual)) == Some(ConstExprOpType::Gte),
        ConstExprOpType::spec_from_token(TokenType::Punctuation(PunctuationType::Ampersand)) == Some(ConstExprOpType::BitAnd),
        ConstExprOpType::spec_from_token(TokenType::Punctuation(PunctuationType::Pipe)) == Some(ConstExprOpType::BitOr),
        ConstExprOpType::spec_from_token(TokenType::Punctuation(PunctuationType::Caret)) == Some(ConstExprOpType::BitXor),
        ConstExprOpType::spec_from_token(TokenType::Punctuation(PunctuationType::Tilde)) == Some(ConstExprOpType::BitNot),
        ConstExprOpType::spec_from_token(TokenType::Punctuation(PunctuationType::Range)) == Some(ConstExprOpType::Range),
        forall|t: TokenType| !(t is Punctuation) ==> ConstExprOpType::spec_from_token(t) is None,
{
}

/// Pin operators: `[` indexes and `.` takes a child; both bind equally and
/// group from the left.
pub proof fn lemma_pin_ops()
    ensures
        PinExprOpType::spec_from_token(TokenType::Punctuation(PunctuationType::LSquare)) == Some(PinExprOpType::Index),
        PinExprOpType::spec_from_token(TokenType::Punctuation(PunctuationType::Period)) == Some(PinExprOpType::GetChild),
        forall|t: TokenType| t != TokenType::Punctuation(PunctuationType::LSquare) && t != TokenType::Punctuation(PunctuationType::Period)
            ==> #[trigger] PinExprOpType::spec_from_token(t) is None,
{
}

/// Every operator read from a token is written back with that token.
pub proof fn lemma_const_op_token_roundtrip(p: PunctuationType)
    ensures
        ConstExprOpType::spec_from_token(TokenType::Punctuation(p)) matches Some(op) ==> op.spec_token() == p,
{
}

/// Operators of pin expressions.
#[derive(Debug, Eq, PartialEq, Copy, Clone, Structural)]
pub enum PinExprOpType {
    Index,
    GetChild,
}

impl PinExprOpType {
    pub fn precedence(&self) -> (r: usize)
        ensures
            r == 1,
    {
        1
    }

    pub fn higher_precedence(&self, other: &Self) -> (r: bool)
        ensures
            r == false,
    {
        self.precedence() > other.precedence()
    }

    pub fn lower_precedence(&self, other: &Self) -> (r: bool)
        ensures
            r == false,
    {
        self.precedence() < other.precedence()
    }

    pub fn associativity(&self) -> (r: Associativity)
        ensures
            r == Associativity::Left,
    {
        Associativity::Left
    }

    pub fn is_unary(&self) -> (r: bool)
        ensures
            r == false,
    {
        false
    }

    pub fn as_string(&self) -> (r: &'static str)
        ensures
            r@ == (match *self {
                PinExprOpType::Index => "["@,
                PinExprOpType::GetChild => "."@,
            }),
    {
        match self {
            PinExprOpType::Index => "[",
            PinExprOpType::GetChild => ".",
        }
    }

    pub open spec fn spec_from_token(tt: TokenType) -> Option<PinExprOpType> {
        match tt {
            TokenType::Punctuation(PunctuationType::LSquare) => Some(PinExprOpType::Index),
            TokenType::Punctuation(PunctuationType::Period) => Some(PinExprOpType::GetChild),
            _ => None,
        }
    }

    pub fn try_from_token(tt: &TokenType) -> (r: Option<Self>)
        ensures
            r == Self::spec_from_token(*tt),
    {
        match tt {
            TokenType::Punctuation(PunctuationType::LSquare) => Some(PinExprOpType::Index),
            TokenType::Punctuation(PunctuationType::Period) => Some(PinExprOpType::GetChild),
            _ => None,
        }
    }
}

/// The shape of a syntax tree node.
#[derive(Debug)]
#[allow(inconsistent_fields)]
pub enum NodeType {
    Empty,
    Identifier(IdentId),
    Path(Vec<Node>),
    Integer(isize),
    ConstDecl { ty: Box<Node>, name: Box<Node>, expr: Box<Node> },
    Circ { name: Box<Node>, args: Vec<Node>, children: Vec<Node> },
    CircArg { ty: Box<Node>, name: Box<Node>, default: Option<Box<Node>> },
    Connection { lhs: Box<Node>, direction: ConnectionDirection, rhs: Box<Node> },
    Enum { name: Box<Node>, variants: Vec<Node> },
    Statement(Box<Node>),
    Type { name: Box<Node>, args: Vec<Node> },
    TypeArg { name: Option<Box<Node>>, value: Box<Node> },
    PinExpr { lhs: Option<Box<Node>>, op: PinExprOpType, rhs: Box<Node> },
    ConstExpr { lhs: Option<Box<Node>>, op: ConstExprOpType, rhs: Option<Box<Node>> },
    Assert(Box<Node>),
    Import(Box<Node>),
    If { condition: Box<Node>, body: Vec<Node>, else_body: Vec<Node> },
    Decl { name: Box<Node>, count: Option<Box<Node>> },
    Decls { ty: Box<Node>, decls: Vec<Node> },
    PinDecls { direction: PinDirection, decls: Vec<Node> },
    With(Vec<Node>),
    Use { path: Box<Node>, as_name: Option<Box<Node>> },
}

/// A syntax tree node and the text it covers.
#[derive(Debug)]
pub struct Node {
    pub node_type: NodeType,
    pub pos: Pos,
}

impl Node {
    pub fn builtin() -> (n: Self)
        ensures
            n.node_type is Empty,
            n.pos == Pos::Builtin,
    {
        Node { node_type: NodeType::Empty, pos: Pos::Builtin }
    }

    pub fn new(node_type: NodeType, pos: Pos) -> (n: Self)
        ensures
            n.node_type == node_type,
            n.pos == pos,
    {
        Node { node_type, pos }
    }

    pub fn node_type(&self) -> (t: &NodeType)
        ensures
            *t == self.node_type,
    {
        &self.node_type
    }

    pub fn pos(&self) -> (p: Pos)
        ensures
            p == self.pos,
    {
        self.pos
    }

    pub fn parts(self) -> (r: (NodeType, Pos))
        ensures
            r.0 == self.node_type,
            r.1 == self.pos,
    {
        (self.node_type, self.pos)
    }
}

/// The items of one module, in source order.
#[derive(Debug)]
pub struct AST {
    module: ModuleId,
    nodes: Vec<Node>,
}

impl AST {
    pub closed spec fn view(&self) -> Seq<Node> {
        self.nodes@
    }

    pub closed spec fn spec_module_id(&self) -> ModuleId {
        self.module
    }

    pub fn new(module: ModuleId) -> (a: Self)
        ensures
            a.view() == Seq::<Node>::empty(),
            a.spec_module_id() == module,
    {
        AST { module, nodes: Vec::new() }
    }

    pub fn add_node(&mut self, node: Node)
        ensures
            final(self).view() == old(self).view().push(node),
            final(self).spec_module_id() == old(self).spec_module_id(),
    {
        self.nodes.push(node);
    }

    pub fn iter_nodes(&self) -> (r: &[Node])
        ensures
            r@ == self.view(),
    {
        self.nodes.as_slice()
    }

    pub fn module_id(&self) -> (m: ModuleId)
        ensures
            m == self.spec_module_id(),
    {
        self.module
    }

    pub fn into_nodes(self) -> (r: Vec<Node>)
        ensures
            r@ == self.view(),
    {
        self.nodes
    }
}

} // verus!
