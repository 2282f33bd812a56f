use vstd::prelude::*;

use crate::ast::{AST, Associativity, ConnectionDirection, ConstExprOpType, Node, NodeType, PinDirection, PinExprOpType};
use crate::diagnostics::{count_kind, lemma_count_pos, Diagnostic, DiagnosticKind, Diagnostics};
use crate::tokeniser::{KeywordType, PunctuationType, Token, TokenStream, TokenType};
use crate::util::{ModuleId, Pos};
use crate::util::text::push_str;

verus! {

/// Errors the parser reports.
#[derive(Debug)]
pub enum ParserError {
    UnexpectedEof,
    Expected(String, String),
    ExprError(ExprErrorKind),
}

/// Errors in the shape of an expression.
#[derive(Debug)]
pub enum ExprErrorKind {
    ExpectedBinaryOperator(String),
    UnmatchedClosingParenthesis,
    UnmatchedOpeningParenthesis,
}

impl ParserError {
    /// The text of the message for this error.
    pub open spec fn spec_message(&self) -> Seq<char> {
        match self {
            ParserError::UnexpectedEof => "unexpected end of file"@,
            ParserError::Expected(expected, got) => "expected "@ + expected@ + ", got '"@ + got@ + "'"@,
            ParserError::ExprError(kind) => match kind {
                ExprErrorKind::ExpectedBinaryOperator(op) => "expected binary operator, got unary '"@ + op@ + "'"@,
                ExprErrorKind::UnmatchedClosingParenthesis => "unmatched ')'"@,
                ExprErrorKind::UnmatchedOpeningParenthesis => "'(' was not closed"@,
            },
        }
    }

    pub fn message(&self) -> (r: String)
        ensures
            r@ == self.spec_message(),
    {
        let mut r = String::new();
        match self {
            ParserError::UnexpectedEof => push_str(&mut r, "unexpected end of file"),
            ParserError::Expected(expected, got) => {
                push_str(&mut r, "expected ");
                push_str(&mut r, expected.as_str());
                push_str(&mut r, ", got '");
                push_str(&mut r, got.as_str());
                push_str(&mut r, "'");
            },
            ParserError::ExprError(kind) => match kind {
                ExprErrorKind::ExpectedBinaryOperator(op) => {
                    push_str(&mut r, "expected binary operator, got unary '");
                    push_str(&mut r, op.as_str());
                    push_str(&mut r, "'");
                },
                ExprErrorKind::UnmatchedClosingParenthesis => push_str(&mut r, "unmatched ')'"),
                ExprErrorKind::UnmatchedOpeningParenthesis => push_str(&mut r, "'(' was not closed"),
            },
        }
        proof {
            reveal_strlit("unexpected end of file");
            reveal_strlit("");
        }
        assert(r@ == self.spec_message()) by {
            assert(Seq::<char>::empty() + "unexpected end of file"@ =~= "unexpected end of file"@);
            assert(Seq::<char>::empty() + "unmatched ')'"@ =~= "unmatched ')'"@);
            assert(Seq::<char>::empty() + "'(' was not closed"@ =~= "'(' was not closed"@);
        }
        r
    }
}

/// The syntax tree of a module and the warnings met while parsing it.
pub struct ParserResult {
    pub ast: AST,
    pub diagnostics: Diagnostics,
}

/// Boxes the node held by an option.
pub open spec fn boxed(n: Option<Node>) -> Option<Box<Node>> {
    match n {
        Some(n) => Some(Box::new(n)),
        None => None,
    }
}

fn box_opt(n: Option<Node>) -> (r: Option<Box<Node>>)
    ensures
        r == boxed(n),
{
    match n {
        Some(n) => Some(Box::new(n)),
        None => None,
    }
}

/// The identifier node made from an identifier token.
pub open spec fn ident_node(t: Token) -> Node {
    Node { node_type: NodeType::Identifier(t.token->Ident_0), pos: t.pos }
}

/// A token that ends a constant expression when no parenthesis is open: it
/// starts no value and is no operator.
pub open spec fn const_stop(t: TokenType) -> bool {
    &&& !(t is Ident)
    &&& !(t is Integer)
    &&& t != TokenType::Punctuation(PunctuationType::LParen)
    &&& ConstExprOpType::spec_from_token(t) is None
}

/// A token that ends a pin expression: it starts no value and is no operator.
pub open spec fn pin_stop(t: TokenType) -> bool {
    &&& !(t is Ident)
    &&& t != TokenType::Punctuation(PunctuationType::LParen)
    &&& PinExprOpType::spec_from_token(t) is None
}

/// The pin expression `lhs op rhs`, spanning from where `lhs` starts to where
/// `rhs` ends.
pub open spec fn pin_pair(lhs: Node, op: PinExprOpType, rhs: Node) -> Node {
    Node { node_type: NodeType::PinExpr { lhs: boxed(Some(lhs)), op, rhs: Box::new(rhs) }, pos: spec_span(lhs.pos, rhs.pos) }
}

/// The first name, then each further name taken as a child of what comes
/// before it: `a.b.c` is `(a.b).c`.
pub open spec fn dotted(names: Seq<Token>) -> Node
    decreases names.len(),
{
    if names.len() <= 1 {
        ident_node(names[0])
    } else {
        pin_pair(dotted(names.drop_last()), PinExprOpType::GetChild, ident_node(names.last()))
    }
}

/// Token `2 * i` of `ts`: the `i`-th name of a dotted path.
pub open spec fn name_at(ts: Seq<Token>, i: int) -> Token {
    ts[2 * i]
}

/// Token `2 * i + 1` of `ts`: what follows the `i`-th name of a dotted path.
pub open spec fn sep_at(ts: Seq<Token>, i: int) -> Token {
    ts[2 * i + 1]
}

/// `ts` begins with `n + 1` names separated by `.`, followed by a token that
/// continues no pin expression.
pub open spec fn dotted_path(ts: Seq<Token>, n: nat) -> bool {
    &&& ts.len() >= 2 * n + 2
    &&& forall|i: int| 0 <= i <= n ==> (#[trigger] name_at(ts, i)).token is Ident
    &&& forall|i: int| 0 <= i < n ==> (#[trigger] sep_at(ts, i)).token == TokenType::Punctuation(PunctuationType::Period)
    &&& pin_stop(sep_at(ts, n as int).token)
}

/// `ts` begins with `n + 1` names separated by `.`.
pub open spec fn dotted_names(ts: Seq<Token>, n: nat) -> bool {
    &&& ts.len() >= 2 * n + 2
    &&& forall|i: int| 0 <= i <= n ==> (#[trigger] name_at(ts, i)).token is Ident
    &&& forall|i: int| 0 <= i < n ==> (#[trigger] sep_at(ts, i)).token == TokenType::Punctuation(PunctuationType::Period)
}

/// `ts` begins with `n + 1` names separated by `.`, then `[`, `m + 1`
/// integer literals joined by binary operators and `]`, followed by a token
/// that continues no pin expression.
pub open spec fn dotted_index(ts: Seq<Token>, n: nat, m: nat) -> bool {
    &&& dotted_names(ts, n)
    &&& sep_at(ts, n as int).token == TokenType::Punctuation(PunctuationType::LSquare)
    &&& int_expr(ts.skip(2 * n + 2 as int), m)
    &&& sep_at(ts.skip(2 * n + 2 as int), m as int).token == TokenType::Punctuation(PunctuationType::RSquare)
    &&& ts.len() > 2 * n + 2 * m + 4
    &&& pin_stop(ts[2 * n + 2 * m + 4 as int].token)
}

/// The tree of the indexed dotted path that `ts` begins with: the path,
/// indexed by the expression in brackets.
pub open spec fn dotted_index_tree(ts: Seq<Token>, n: nat, m: nat) -> Node {
    pin_pair(dotted(path_names(ts, n + 1)), PinExprOpType::Index, prec_tree(ts.skip(2 * n + 2 as int), 0, m as int))
}

/// The first `k` names of a dotted path.
pub open spec fn path_names(ts: Seq<Token>, k: nat) -> Seq<Token> {
    Seq::new(k, |i: int| name_at(ts, i))
}

/// The constant expression `lhs op rhs`, spanning from where `lhs` starts to
/// where `rhs` ends.
pub open spec fn const_pair(lhs: Node, op: ConstExprOpType, rhs: Node) -> Node {
    Node {
        node_type: NodeType::ConstExpr { lhs: Some(Box::new(lhs)), op, rhs: Some(Box::new(rhs)) },
        pos: spec_span(lhs.pos, rhs.pos),
    }
}

/// The integer literal of a token.
pub open spec fn int_node(t: Token) -> Node {
    Node { node_type: NodeType::Integer(t.token->Integer_0), pos: t.pos }
}

/// The binary operator a token stands for in a constant expression.
pub open spec fn chain_op(t: TokenType) -> ConstExprOpType {
    ConstExprOpType::spec_from_token(t)->0
}

/// A token standing for a left-associative binary operator, `..` included.
pub open spec fn is_binary_op(t: TokenType) -> bool {
    &&& ConstExprOpType::spec_from_token(t) is Some
    &&& chain_op(t).spec_associativity() == Associativity::Left
}

/// A token standing for an operator that cannot begin an expression: neither
/// `..`, nor `-`, nor an operator that takes one operand.
pub open spec fn needs_left_operand(t: TokenType) -> bool {
    &&& ConstExprOpType::spec_from_token(t) is Some
    &&& chain_op(t) != ConstExprOpType::Range
    &&& chain_op(t) != ConstExprOpType::Sub
    &&& chain_op(t).spec_associativity() != Associativity::Unary
}

/// How tightly the operator of odd token `2 * j + 1` of `ts` binds.
pub open spec fn op_prec(ts: Seq<Token>, j: int) -> nat {
    chain_op(sep_at(ts, j).token).spec_precedence()
}

/// The last of the operators `j`, `a <= j < b`, that binds least tightly.
pub open spec fn min_last(ts: Seq<Token>, a: int, b: int) -> int
    decreases b - a,
{
    if b <= a + 1 {
        a
    } else {
        let m = min_last(ts, a, b - 1);
        if op_prec(ts, b - 1) <= op_prec(ts, m) {
            b - 1
        } else {
            m
        }
    }
}

/// The operator at which operands `a` to `b` split: `min_last`, kept in range.
pub open spec fn split_at(ts: Seq<Token>, a: int, b: int) -> int {
    let j = min_last(ts, a, b);
    if a <= j < b {
        j
    } else {
        a
    }
}

/// The range node the parser builds for `left .. right`: the operand read
/// last, `right`, stands first, and the node spans from it to `left`.
pub open spec fn range_pair(left: Node, right: Node) -> Node {
    Node {
        node_type: NodeType::ConstExpr { lhs: Some(Box::new(right)), op: ConstExprOpType::Range, rhs: Some(Box::new(left)) },
        pos: spec_span(right.pos, left.pos),
    }
}

/// The tree of the integer literals `a` to `b` (at the even tokens of `ts`)
/// and the operators between them: it splits at the last operator that binds
/// least tightly, so tighter operators apply first and equal ones from the
/// left.
pub open spec fn prec_tree(ts: Seq<Token>, a: int, b: int) -> Node
    decreases b - a,
{
    if b <= a {
        int_node(name_at(ts, a))
    } else {
        let j = split_at(ts, a, b);
        let op = chain_op(sep_at(ts, j).token);
        if op == ConstExprOpType::Range {
            range_pair(prec_tree(ts, a, j), prec_tree(ts, j + 1, b))
        } else {
            const_pair(prec_tree(ts, a, j), op, prec_tree(ts, j + 1, b))
        }
    }
}

/// The first `n` odd tokens of `ts` are binary operators.
pub open spec fn binary_ops(ts: Seq<Token>, n: nat) -> bool {
    forall|i: int| 0 <= i < n ==> is_binary_op((#[trigger] sep_at(ts, i)).token)
}

/// `ts` begins with `n + 1` integer literals joined by binary operators,
/// followed by a token that ends a constant expression.
pub open spec fn int_expr(ts: Seq<Token>, n: nat) -> bool {
    &&& ts.len() >= 2 * n + 2
    &&& forall|i: int| 0 <= i <= n ==> (#[trigger] name_at(ts, i)).token is Integer
    &&& binary_ops(ts, n)
    &&& const_stop(sep_at(ts, n as int).token)
}

/// Builds a node from the position of its first token, its kind, and the
/// position of its last token.
pub struct NodeBuilder {
    node_type: Option<NodeType>,
    pos: Pos,
}

impl NodeBuilder {
    /// The kind of node set so far.
    pub closed spec fn kind(&self) -> Option<NodeType> {
        self.node_type
    }

    /// Where the node starts.
    pub closed spec fn start(&self) -> Pos {
        self.pos
    }

    pub fn new(start_position: Pos) -> (b: Self)
        ensures
            b.kind() is None,
            b.start() == start_position,
    {
        NodeBuilder { node_type: None, pos: start_position }
    }

    pub fn from_token(node_type: NodeType, token: &Token) -> (n: Node)
        ensures
            n.node_type == node_type,
            n.pos == token.pos,
    {
        Node::new(node_type, token.pos())
    }

    /// The node, spanning from where it started to where `end_position` ends.
    pub fn build(self, end_position: Pos) -> (n: Node)
        requires
            self.kind() is Some,
            self.start().can_expand(end_position),
        ensures
            n.node_type == self.kind()->0,
            n.pos == self.start().spec_expand(end_position),
    {
        let pos = self.pos.expand(end_position);
        match self.node_type {
            Some(t) => Node::new(t, pos),
            None => Node::new(NodeType::Empty, pos),
        }
    }

    /// As `build`, with the offsets wrapping around instead of failing where
    /// `end_position` ends before the node starts.
    fn finish(self, end_position: Pos) -> (n: Node)
        requires
            self.kind() is Some,
            self.start() is Pos,
            end_position is Pos,
        ensures
            n.node_type == self.kind()->0,
            n.pos == spec_span(self.start(), end_position),
            n.pos is Pos,
    {
        let pos = match (self.pos, end_position) {
            (Pos::Pos { module_id, line, col, start, .. }, Pos::Pos { start: s2, span: l2, .. }) => {
                Pos::new(module_id, line, col, start, s2.wrapping_add(l2).wrapping_sub(start))
            },
            _ => self.pos,
        };
        match self.node_type {
            Some(t) => Node::new(t, pos),
            None => Node::new(NodeType::Empty, pos),
        }
    }

    pub fn node_type(self, node_type: NodeType) -> (b: Self)
        ensures
            b.kind() == Some(node_type),
            b.start() == self.start(),
    {
        NodeBuilder { node_type: Some(node_type), pos: self.pos }
    }

    pub fn identifier_from_token(token: Token) -> (n: Node)
        requires
            token.token is Ident,
        ensures
            n == ident_node(token),
    {
        match token.token {
            TokenType::Ident(name) => Self::from_token(NodeType::Identifier(name), &token),
            _ => Node::new(NodeType::Empty, token.pos),
        }
    }

    /// A path node made of the identifiers, spanning from the first to the last.
    pub fn path_from_tokens(tokens: Vec<Token>) -> (n: Node)
        requires
            tokens.len() > 0,
            forall|i: int| 0 <= i < tokens.len() ==> (#[trigger] tokens[i]).token is Ident,
            tokens[0].pos.can_expand(tokens[tokens.len() - 1].pos),
        ensures
            n.node_type matches NodeType::Path(v) && v@ == tokens@.map_values(|t: Token| ident_node(t)),
            n.pos == tokens[0].pos.spec_expand(tokens[tokens.len() - 1].pos),
    {
        let mut nodes: Vec<Node> = Vec::new();
        let n = tokens.len();
        let mut i: usize = 0;
        while i < n
            invariant
                n == tokens.len(),
                i <= n,
                forall|j: int| 0 <= j < tokens.len() ==> (#[trigger] tokens[j]).token is Ident,
                nodes@ == tokens@.subrange(0, i as int).map_values(|t: Token| ident_node(t)),
            decreases n - i,
        {
            let t = tokens[i];
            nodes.push(Self::identifier_from_token(t));
            i = i + 1;
            assert(nodes@ =~= tokens@.subrange(0, i as int).map_values(|t: Token| ident_node(t)));
        }
        assert(tokens@.subrange(0, n as int) =~= tokens@);
        let start = tokens[0].pos;
        let end = tokens[n - 1].pos;
        Self::new(start).node_type(NodeType::Path(nodes)).build(end)
    }

    pub fn integer_from_token(token: Token) -> (n: Node)
        requires
            token.token is Integer,
        ensures
            n.node_type == NodeType::Integer(token.token->Integer_0),
            n.pos == token.pos,
    {
        match token.token {
            TokenType::Integer(value) => Self::from_token(NodeType::Integer(value), &token),
            _ => Node::new(NodeType::Empty, token.pos),
        }
    }

    pub fn const_decl(self, ty: Node, name: Node, expr: Node) -> (b: Self)
        ensures
            b.kind() == Some(NodeType::ConstDecl { ty: Box::new(ty), name: Box::new(name), expr: Box::new(expr) }),
            b.start() == self.start(),
    {
        self.node_type(NodeType::ConstDecl { ty: Box::new(ty), name: Box::new(name), expr: Box::new(expr) })
    }

    pub fn circ(self, name: Node, args: Vec<Node>, children: Vec<Node>) -> (b: Self)
        ensures
            b.kind() == Some(NodeType::Circ { name: Box::new(name), args, children }),
            b.start() == self.start(),
    {
        self.node_type(NodeType::Circ { name: Box::new(name), args, children })
    }

    pub fn circ_arg(self, ty: Node, name: Node, default: Option<Node>) -> (b: Self)
        ensures
            b.kind() == Some(NodeType::CircArg { ty: Box::new(ty), name: Box::new(name), default: boxed(default) }),
            b.start() == self.start(),
    {
        let default = box_opt(default);
        self.node_type(NodeType::CircArg { ty: Box::new(ty), name: Box::new(name), default })
    }

    pub fn enum_(self, name: Node, variants: Vec<Node>) -> (b: Self)
        ensures
            b.kind() == Some(NodeType::Enum { name: Box::new(name), variants }),
            b.start() == self.start(),
    {
        self.node_type(NodeType::Enum { name: Box::new(name), variants })
    }

    pub fn statement(self, statement: Node) -> (b: Self)
        ensures
            b.kind() == Some(NodeType::Statement(Box::new(statement))),
            b.start() == self.start(),
    {
        self.node_type(NodeType::Statement(Box::new(statement)))
    }

    pub fn type_(self, name: Node, args: Vec<Node>) -> (b: Self)
        ensures
            b.kind() == Some(NodeType::Type { name: Box::new(name), args }),
            b.start() == self.start(),
    {
        self.node_type(NodeType::Type { name: Box::new(name), args })
    }

    pub fn type_arg(self, name: Option<Node>, value: Node) -> (b: Self)
        ensures
            b.kind() == Some(NodeType::TypeArg { name: boxed(name), value: Box::new(value) }),
            b.start() == self.start(),
    {
        let name = box_opt(name);
        self.node_type(NodeType::TypeArg { name, value: Box::new(value) })
    }

    pub fn pin_expr(self, lhs: Option<Node>, op: PinExprOpType, rhs: Node) -> (b: Self)
        ensures
            b.kind() == Some(NodeType::PinExpr { lhs: boxed(lhs), op, rhs: Box::new(rhs) }),
            b.start() == self.start(),
    {
        let lhs = box_opt(lhs);
        self.node_type(NodeType::PinExpr { lhs, op, rhs: Box::new(rhs) })
    }

    pub fn connection(self, lhs: Node, direction: ConnectionDirection, rhs: Node) -> (b: Self)
        ensures
            b.kind() == Some(NodeType::Connection { lhs: Box::new(lhs), direction, rhs: Box::new(rhs) }),
            b.start() == self.start(),
    {
        self.node_type(NodeType::Connection { lhs: Box::new(lhs), direction, rhs: Box::new(rhs) })
    }

    pub fn const_expr(self, lhs: Option<Node>, op: ConstExprOpType, rhs: Option<Node>) -> (b: Self)
        ensures
            b.kind() == Some(NodeType::ConstExpr { lhs: boxed(lhs), op, rhs: boxed(rhs) }),
            b.start() == self.start(),
    {
        let lhs = box_opt(lhs);
        let rhs = box_opt(rhs);
        self.node_type(NodeType::ConstExpr { lhs, op, rhs })
    }

    pub fn const_expr_unary(self, op: ConstExprOpType, rhs: Node) -> (b: Self)
        ensures
            b.kind() == Some(NodeType::ConstExpr { lhs: None, op, rhs: Some(Box::new(rhs)) }),
            b.start() == self.start(),
    {
        self.const_expr(None, op, Some(rhs))
    }

    pub fn const_expr_binary(self, lhs: Node, op: ConstExprOpType, rhs: Node) -> (b: Self)
        ensures
            b.kind() == Some(NodeType::ConstExpr { lhs: Some(Box::new(lhs)), op, rhs: Some(Box::new(rhs)) }),
            b.start() == self.start(),
    {
        self.const_expr(Some(lhs), op, Some(rhs))
    }

    pub fn const_expr_range(self, lhs: Option<Node>, rhs: Option<Node>) -> (b: Self)
        ensures
            b.kind() == Some(NodeType::ConstExpr { lhs: boxed(lhs), op: ConstExprOpType::Range, rhs: boxed(rhs) }),
            b.start() == self.start(),
    {
        self.const_expr(lhs, ConstExprOpType::Range, rhs)
    }

    pub fn assertion(self, constexpr: Node) -> (b: Self)
        ensures
            b.kind() == Some(NodeType::Assert(Box::new(constexpr))),
            b.start() == self.start(),
    {
        self.node_type(NodeType::Assert(Box::new(constexpr)))
    }

    pub fn import(self, name: Node) -> (b: Self)
        ensures
            b.kind() == Some(NodeType::Import(Box::new(name))),
            b.start() == self.start(),
    {
        self.node_type(NodeType::Import(Box::new(name)))
    }

    pub fn if_(self, condition: Node, body: Vec<Node>, else_body: Vec<Node>) -> (b: Self)
        ensures
            b.kind() == Some(NodeType::If { condition: Box::new(condition), body, else_body }),
            b.start() == self.start(),
    {
        self.node_type(NodeType::If { condition: Box::new(condition), body, else_body })
    }

    /// A declaration of a single name, covering just the name.
    pub fn decl_from_name(name: Node) -> (n: Node)
        requires
            name.pos.can_expand(name.pos),
        ensures
            n.node_type == (NodeType::Decl { name: Box::new(name), count: None }),
            n.pos == name.pos.spec_expand(name.pos),
    {
        let pos = name.pos();
        Self::new(pos).node_type(NodeType::Decl { name: Box::new(name), count: None }).build(pos)
    }

    pub fn decl(self, name: Node, count: Node) -> (b: Self)
        ensures
            b.kind() == Some(NodeType::Decl { name: Box::new(name), count: Some(Box::new(count)) }),
            b.start() == self.start(),
    {
        self.node_type(NodeType::Decl { name: Box::new(name), count: Some(Box::new(count)) })
    }

    pub fn decls(self, ty: Node, decls: Vec<Node>) -> (b: Self)
        ensures
            b.kind() == Some(NodeType::Decls { ty: Box::new(ty), decls }),
            b.start() == self.start(),
    {
        self.node_type(NodeType::Decls { ty: Box::new(ty), decls })
    }

    pub fn pin_decls(self, direction: PinDirection, decls: Vec<Node>) -> (b: Self)
        ensures
            b.kind() == Some(NodeType::PinDecls { direction, decls }),
            b.start() == self.start(),
    {
        self.node_type(NodeType::PinDecls { direction, decls })
    }

    pub fn with(self, decls: Vec<Node>) -> (b: Self)
        ensures
            b.kind() == Some(NodeType::With(decls)),
            b.start() == self.start(),
    {
        self.node_type(NodeType::With(decls))
    }

    pub fn use_(self, path: Node, name: Option<Node>) -> (b: Self)
        ensures
            b.kind() == Some(NodeType::Use { path: Box::new(path), as_name: boxed(name) }),
            b.start() == self.start(),
    {
        let as_name = box_opt(name);
        self.node_type(NodeType::Use { path: Box::new(path), as_name })
    }
}


// ---------------------------------------------------------------------------
// Token helpers
// ---------------------------------------------------------------------------

/// Every token covers a span of text whose end fits in a `usize`, and the
/// spans start in order.
pub open spec fn well_placed(ts: Seq<Token>) -> bool {
    &&& forall|i: int| 0 <= i < ts.len() ==> (#[trigger] ts[i]).pos is Pos && ts[i].pos.end_fits()
    &&& forall|i: int, j: int| 0 <= i <= j < ts.len() ==> (#[trigger] ts[i]).pos->start <= (#[trigger] ts[j]).pos->start
}

/// A token kind is one of the listed kinds (identifiers match identifiers,
/// integers match integers, whatever they hold).
pub open spec fn kind_in(t: TokenType, tts: Seq<TokenType>) -> bool {
    exists|i: int| 0 <= i < tts.len() && t.same_kind(#[trigger] tts[i])
}

/// A token kind is listed in some layer of recovery points.
pub open spec fn in_chain(t: TokenType, chain: Seq<Vec<TokenType>>) -> bool {
    exists|d: int| 0 <= d < chain.len() && kind_in(t, (#[trigger] chain[d])@)
}

fn contains_kind(tts: &[TokenType], t: &TokenType) -> (r: bool)
    ensures
        r == kind_in(*t, tts@),
{
    let mut i: usize = 0;
    while i < tts.len()
        invariant
            i <= tts.len(),
            forall|j: int| 0 <= j < i ==> !t.same_kind(#[trigger] tts@[j]),
        decreases tts.len() - i,
    {
        if t.is(&tts[i]) {
            return true;
        }
        i = i + 1;
    }
    false
}

/// How a token kind is named when the parser says what it expected.
pub open spec fn expected_name(t: TokenType) -> Seq<char> {
    match t {
        TokenType::Ident(_) => "identifier"@,
        TokenType::Integer(_) => "integer"@,
        TokenType::Keyword(k) => "'"@ + k.text() + "'"@,
        TokenType::Punctuation(p) => "'"@ + p.text() + "'"@,
    }
}

/// Names joined with ", ".
pub open spec fn join_commas(names: Seq<Seq<char>>) -> Seq<char>
    decreases names.len(),
{
    if names.len() == 0 {
        Seq::empty()
    } else if names.len() == 1 {
        names[0]
    } else {
        join_commas(names.drop_last()) + ", "@ + names.last()
    }
}

/// The list of expected kinds as a message shows it: `a`, `a or b`,
/// `a, b or c`, and so on.
pub open spec fn expected_list(tts: Seq<TokenType>) -> Seq<char> {
    let names = tts.map_values(|t: TokenType| expected_name(t));
    if names.len() <= 1 {
        join_commas(names)
    } else {
        join_commas(names.drop_last()) + " or "@ + names.last()
    }
}

fn expected_name_string(t: &TokenType) -> (r: String)
    ensures
        r@ == expected_name(*t),
{
    let mut r = String::new();
    match t {
        TokenType::Ident(_) => push_str(&mut r, "identifier"),
        TokenType::Integer(_) => push_str(&mut r, "integer"),
        TokenType::Keyword(k) => {
            push_str(&mut r, "'");
            push_str(&mut r, k.value());
            push_str(&mut r, "'");
        },
        TokenType::Punctuation(p) => {
            push_str(&mut r, "'");
            push_str(&mut r, p.value());
            push_str(&mut r, "'");
        },
    }
    proof {
        reveal_strlit("");
        assert(Seq::<char>::empty() + "identifier"@ =~= "identifier"@);
        assert(Seq::<char>::empty() + "integer"@ =~= "integer"@);
        assert(r@ =~= expected_name(*t));
    }
    r
}

/// The message text listing the expected kinds.
fn expected_list_string(tts: &[TokenType]) -> (r: String)
    requires
        tts.len() > 0,
    ensures
        r@ == expected_list(tts@),
{
    let ghost names = tts@.map_values(|t: TokenType| expected_name(t));
    let n = tts.len();
    let mut r = String::new();
    let mut i: usize = 0;
    while i + 1 < n
        invariant
            n == tts.len(),
            n > 0,
            i + 1 <= n,
            names == tts@.map_values(|t: TokenType| expected_name(t)),
            r@ == join_commas(names.take(i as int)),
        decreases n - i,
    {
        if i > 0 {
            push_str(&mut r, ", ");
        }
        let name = expected_name_string(&tts[i]);
        push_str(&mut r, name.as_str());
        proof {
            let t = names.take(i + 1);
            assert(t.drop_last() =~= names.take(i as int));
            if i == 0 {
                assert(r@ =~= Seq::<char>::empty() + names[0]);
                assert(r@ =~= join_commas(t));
            } else {
                assert(r@ =~= join_commas(t));
            }
        }
        i = i + 1;
    }
    let last = expected_name_string(&tts[n - 1]);
    if n > 1 {
        push_str(&mut r, " or ");
    }
    push_str(&mut r, last.as_str());
    proof {
        assert(names.take(n - 1) =~= names.drop_last());
        if n == 1 {
            assert(r@ =~= names[0]);
            assert(join_commas(names) == names[0]);
        }
        assert(r@ =~= expected_list(tts@));
    }
    r
}

/// The text of an error for a token of the wrong kind.
pub open spec fn expected_message(expected: Seq<char>, got: Token) -> Seq<char> {
    "expected "@ + expected + ", got '"@ + got.spec_value() + "'"@
}

/// Positions covering both ends: the span from the start of `start` to the
/// end of `end`, with offsets wrapping around as machine words do.
pub open spec fn spec_span(start: Pos, end: Pos) -> Pos {
    match (start, end) {
        (Pos::Pos { module_id, line, col, start: s, .. }, Pos::Pos { start: s2, span: l2, .. }) => {
            Pos::Pos {
                module_id,
                line,
                col,
                start: s,
                span: vstd::wrapping::usize_specs::wrapping_sub(vstd::wrapping::usize_specs::wrapping_add(s2, l2), s),
            }
        },
        _ => start,
    }
}


// ---------------------------------------------------------------------------
// The parser
// ---------------------------------------------------------------------------

/// Why a rule gave up: the enclosing rules are asked to skip ahead to a token
/// they can resume at, or the input ended.
#[derive(Debug)]
pub enum ParseFailKind {
    Recover,
    Critical(Diagnostic),
}

/// A rule that yields a value unless it gives up.
type AlwaysResult<T> = Result<T, ParseFailKind>;

/// A rule that may also yield nothing after it recovered from an error.
type ParseResult<T> = Result<Option<T>, ParseFailKind>;

/// The error for input that ends too early.
pub open spec fn eof_message() -> Seq<char> {
    "unexpected end of file"@
}

/// Builds the syntax tree of one module from its tokens. Errors are collected
/// as diagnostics; after an error the parser skips to a token at which the
/// rule in progress, or one enclosing it, can carry on.
pub struct Parser<'a> {
    module: ModuleId,
    tokens: TokenStream<'a>,
    diagnostics: Diagnostics,
    sentinels: Vec<Vec<TokenType>>,
    last_token_pos: Pos,
}

impl<'a> Parser<'a> {
    /// The tokens not read yet.
    pub closed spec fn rest(&self) -> Seq<Token> {
        self.tokens.remaining()
    }

    /// The diagnostics collected so far.
    pub closed spec fn spec_diagnostics(&self) -> Seq<Diagnostic> {
        self.diagnostics.view()
    }

    /// The module being parsed.
    pub closed spec fn spec_module(&self) -> ModuleId {
        self.module
    }

    /// The layers of tokens at which rules in progress resume after an error,
    /// innermost last.
    pub closed spec fn chain(&self) -> Seq<Vec<TokenType>> {
        self.sentinels@
    }

    pub closed spec fn wf(&self) -> bool {
        &&& self.tokens.wf()
        &&& self.rest().len() <= usize::MAX
        &&& self.diagnostics.wf()
        &&& well_placed(self.rest())
        &&& (self.last_token_pos is Pos || self.last_token_pos is Absent)
        &&& (self.last_token_pos is Pos ==> forall|i: int| 0 <= i < self.rest().len()
            ==> self.last_token_pos->start <= (#[trigger] self.rest()[i]).pos->start)
    }

    /// `next` is `self` after reading on: the same module and recovery layers,
    /// a suffix of the tokens left, and more diagnostics after the old ones.
    pub closed spec fn steps_to(self, next: Self) -> bool {
        &&& self.moves_to(next)
        &&& next.sentinels@ == self.sentinels@
    }

    /// As `steps_to`, with the recovery layers free to differ.
    pub closed spec fn moves_to(self, next: Self) -> bool {
        &&& next.wf()
        &&& next.module == self.module
        &&& next.rest().len() <= self.rest().len()
        &&& next.rest() == self.rest().skip(self.rest().len() - next.rest().len())
        &&& self.diagnostics.view().is_prefix_of(next.diagnostics.view())
        &&& self.error_count() <= next.error_count()
        &&& (self.last_token_pos is Pos ==> next.last_token_pos is Pos)
        &&& (next.rest().len() < self.rest().len() ==> next.last_token_pos is Pos)
    }

    /// How many errors have been reported.
    pub closed spec fn error_count(self) -> nat {
        errors_in(self.diagnostics.view())
    }

    /// `next` has reported an error that `self` had not, or its list of
    /// diagnostics is full.
    pub closed spec fn reported_since(self, next: Self) -> bool {
        next.error_count() > self.error_count() || next.diagnostics.view().len() >= usize::MAX
    }

    /// A rule that gives up, to resume at a recovery token, has reported why.
    pub closed spec fn explains<T>(self, next: Self, r: AlwaysResult<T>) -> bool {
        r matches Err(ParseFailKind::Recover) ==> self.reported_since(next)
    }

    /// The next token is of the given kind.
    pub closed spec fn next_is(self, tt: TokenType) -> bool {
        self.rest().len() > 0 && self.rest()[0].token.same_kind(tt)
    }

    /// An error reported where the input ended.
    pub closed spec fn is_eof_error(self, d: Diagnostic) -> bool {
        d.is_error_at(eof_message(), Pos::Module(self.module))
    }

    /// A failure at the end of the input happens only there.
    pub closed spec fn fails_at_eof<T>(self, r: AlwaysResult<T>) -> bool {
        r matches Err(ParseFailKind::Critical(d)) ==> self.rest().len() == 0 && self.is_eof_error(d)
    }

    proof fn lemma_reported_after(a: Self, b: Self, c: Self)
        requires
            a.reported_since(b),
            b.moves_to(c),
        ensures
            a.reported_since(c),
    {
    }

    proof fn lemma_reported_before(a: Self, b: Self, c: Self)
        requires
            a.moves_to(b),
            b.reported_since(c),
        ensures
            a.reported_since(c),
    {
    }

    proof fn lemma_steps_refl(self)
        requires
            self.wf(),
        ensures
            self.steps_to(self),
    {
        assert(self.rest().skip(0) =~= self.rest());
    }

    proof fn lemma_steps_trans(a: Self, b: Self, c: Self)
        requires
            a.moves_to(b),
            b.moves_to(c),
        ensures
            a.moves_to(c),
            a.steps_to(b) && b.steps_to(c) ==> a.steps_to(c),
    {
        assert(c.rest() =~= a.rest().skip(a.rest().len() - c.rest().len()));
    }

    /// A token of the innermost layer is a recovery token.
    proof fn lemma_in_top(self, t: TokenType)
        requires
            self.chain().len() > 0,
            kind_in(t, self.chain().last()@),
        ensures
            in_chain(t, self.chain()),
    {
        assert(kind_in(t, self.chain()[self.chain().len() - 1]@));
    }

    /// A rule run inside a recovery layer that was opened and closed again
    /// leaves the layers as they were.
    proof fn lemma_guard(s0: Self, s1: Self, s2: Self, s3: Self)
        requires
            s0.moves_to(s1),
            s1.chain().len() == s0.chain().len() + 1,
            s1.chain().drop_last() == s0.chain(),
            s1.steps_to(s2),
            s2.moves_to(s3),
            s3.chain() == s2.chain().drop_last(),
        ensures
            s0.steps_to(s3),
    {
        Self::lemma_steps_trans(s0, s1, s2);
        Self::lemma_steps_trans(s0, s2, s3);
        assert(s3.chain() =~= s0.chain());
    }

    pub fn new(module: ModuleId, tokens: TokenStream<'a>) -> (p: Self)
        requires
            tokens.wf(),
            well_placed(tokens.remaining()),
        ensures
            p.wf(),
            p.rest() == tokens.remaining(),
            p.spec_diagnostics() == Seq::<Diagnostic>::empty(),
            p.spec_module() == module,
            p.chain().len() == 0,
    {
        proof {
            tokens.lemma_remaining_fits();
        }
        Parser {
            module,
            tokens,
            diagnostics: Diagnostics::new(),
            sentinels: Vec::new(),
            last_token_pos: Pos::Absent,
        }
    }

    pub fn diagnostics(&self) -> (d: &Diagnostics)
        ensures
            d.view() == self.spec_diagnostics(),
    {
        &self.diagnostics
    }

    fn eof_error(&self) -> (d: Diagnostic)
        ensures
            self.is_eof_error(d),
    {
        let d = Diagnostic::error(ParserError::UnexpectedEof.message(), Pos::Module(self.module));
        proof {
            reveal_strlit("unexpected end of file");
        }
        d
    }

    fn has_next_token(&self) -> (r: bool)
        requires
            self.wf(),
        ensures
            r == (self.rest().len() > 0),
    {
        self.tokens.peek().is_some()
    }

    fn peek_next_token(&self) -> (r: AlwaysResult<Token>)
        requires
            self.wf(),
        ensures
            self.explains(*self, r),
            self.rest().len() > 0 ==> (r matches Ok(t) && t == self.rest()[0]),
            self.rest().len() == 0 ==> (r matches Err(ParseFailKind::Critical(d)) && self.is_eof_error(d)),
    {
        match self.tokens.peek() {
            Some(token) => Ok(*token),
            None => Err(ParseFailKind::Critical(self.eof_error())),
        }
    }

    fn consume_token(&mut self) -> (r: AlwaysResult<Token>)
        requires
            old(self).wf(),
        ensures
            old(self).explains(*final(self), r),
            old(self).steps_to(*final(self)),
            old(self).rest().len() > 0 ==> (r matches Ok(t) && t == old(self).rest()[0]
                && final(self).rest() == old(self).rest().drop_first()
                && final(self).last_token_pos == t.pos),
            old(self).rest().len() == 0 ==> (r matches Err(ParseFailKind::Critical(d)) && old(self).is_eof_error(d)
                && final(self).rest() == old(self).rest()),
            final(self).diagnostics.view() == old(self).diagnostics.view(),
    {
        let ghost before = self.rest();
        let r = self.tokens.next();
        proof {
            self.tokens.lemma_remaining_fits();
        }
        match r {
            Some(tk) => {
                let t = *tk;
                self.last_token_pos = t.pos;
                proof {
                    assert(self.rest() =~= before.skip(1));
                    assert(before.skip(1) =~= before.skip(before.len() - self.rest().len()));
                    assert(old(self).diagnostics.view().is_prefix_of(self.diagnostics.view()));
                    assert(forall|i: int| 0 <= i < self.rest().len() ==> self.rest()[i] == before[i + 1]);
                }
                Ok(t)
            },
            None => {
                proof {
                    old(self).lemma_steps_refl();
                }
                Err(ParseFailKind::Critical(self.eof_error()))
            },
        }
    }

    /// Reads a token that the caller already knows to be of this kind.
    fn assert_token_is(&mut self, tt: TokenType) -> (t: Token)
        requires
            old(self).wf(),
            old(self).next_is(tt),
        ensures
            old(self).steps_to(*final(self)),
            t == old(self).rest()[0],
            final(self).rest() == old(self).rest().drop_first(),
            final(self).last_token_pos == t.pos,
            final(self).diagnostics.view() == old(self).diagnostics.view(),
    {
        match self.consume_token() {
            Ok(t) => t,
            Err(_) => Token { pos: Pos::Absent, token: tt },
        }
    }

    fn add_error(&mut self, diagnostic: Diagnostic)
        requires
            old(self).wf(),
        ensures
            final(self).wf(),
            final(self).rest() == old(self).rest(),
            final(self).module == old(self).module,
            final(self).sentinels@ == old(self).sentinels@,
            final(self).last_token_pos == old(self).last_token_pos,
            final(self).diagnostics.view() == if old(self).diagnostics.view().len() < usize::MAX {
                old(self).diagnostics.view().push(diagnostic)
            } else {
                old(self).diagnostics.view()
            },
            old(self).steps_to(*final(self)),
            diagnostic.spec_kind() == DiagnosticKind::Error ==> old(self).reported_since(*final(self)),
    {
        // A list of `usize::MAX` diagnostics cannot be held in memory; the test
        // only keeps the counts' arithmetic total.
        if self.diagnostics.len() < usize::MAX {
            self.diagnostics.push(diagnostic);
            proof {
                assert(self.diagnostics.view().drop_last() =~= old(self).diagnostics.view());
                reveal(errors_in);
            }
        }
        proof {
            assert(self.rest().skip(0) =~= self.rest());
            assert(old(self).diagnostics.view().is_prefix_of(self.diagnostics.view()));
        }
    }

    fn expr_error(&self, kind: ExprErrorKind, pos: Pos) -> (d: Diagnostic)
        ensures
            d.is_error_at(ParserError::ExprError(kind).spec_message(), pos),
    {
        Diagnostic::error(ParserError::ExprError(kind).message(), pos)
    }

    fn expected_error_string(&self, expected: String, got: &Token) -> (d: Diagnostic)
        ensures
            d.is_error_at(expected_message(expected@, *got), got.pos),
    {
        let mut got_text = String::new();
        push_str(&mut got_text, got.value());
        let d = Diagnostic::error(ParserError::Expected(expected, got_text).message(), got.pos());
        proof {
            reveal_strlit("");
        }
        assert(d.spec_message() =~= expected_message(expected@, *got));
        d
    }

    fn expected_error(&self, expected: &[TokenType], got: &Token) -> (d: Diagnostic)
        requires
            expected.len() > 0,
        ensures
            d.is_error_at(expected_message(expected_list(expected@), *got), got.pos),
    {
        self.expected_error_string(expected_list_string(expected), got)
    }

    fn expect_next_token_one_of(&mut self, tts: &[TokenType]) -> (r: AlwaysResult<Token>)
        requires
            old(self).wf(),
            tts.len() > 0,
        ensures
            old(self).explains(*final(self), r),
            old(self).steps_to(*final(self)),
            final(self).rest() == old(self).rest(),
            final(self).last_token_pos == old(self).last_token_pos,
            old(self).fails_at_eof(r),
            r matches Ok(t) ==> old(self).rest().len() > 0 && t == old(self).rest()[0] && kind_in(t.token, tts@),
            r matches Ok(_) ==> final(self).diagnostics.view() == old(self).diagnostics.view(),
            r matches Err(ParseFailKind::Recover) ==> old(self).rest().len() > 0 && !kind_in(old(self).rest()[0].token, tts@),
    {
        proof {
            old(self).lemma_steps_refl();
        }
        let tk = self.peek_next_token()?;
        if contains_kind(tts, &tk.token) {
            proof {
                old(self).lemma_steps_refl();
            }
            return Ok(tk);
        }
        let d = self.expected_error(tts, &tk);
        self.add_error(d);
        Err(ParseFailKind::Recover)
    }

    fn expect_token_one_of(&mut self, tts: &[TokenType]) -> (r: AlwaysResult<Token>)
        requires
            old(self).wf(),
            tts.len() > 0,
        ensures
            old(self).explains(*final(self), r),
            old(self).steps_to(*final(self)),
            old(self).fails_at_eof(r),
            r matches Ok(t) ==> old(self).rest().len() > 0 && t == old(self).rest()[0] && kind_in(t.token, tts@)
                && final(self).rest() == old(self).rest().drop_first()
                && final(self).last_token_pos == t.pos
                && final(self).diagnostics.view() == old(self).diagnostics.view(),
            !(r is Ok) ==> final(self).rest() == old(self).rest() && final(self).last_token_pos == old(self).last_token_pos,
            r matches Err(ParseFailKind::Recover) ==> old(self).rest().len() > 0 && !kind_in(old(self).rest()[0].token, tts@),
    {
        proof {
            old(self).lemma_steps_refl();
        }
        let tk = self.peek_next_token()?;
        if contains_kind(tts, &tk.token) {
            return self.consume_token();
        }
        let d = self.expected_error(tts, &tk);
        self.add_error(d);
        Err(ParseFailKind::Recover)
    }

    fn expect_next_token_is(&mut self, tt: TokenType) -> (r: AlwaysResult<Token>)
        requires
            old(self).wf(),
        ensures
            old(self).explains(*final(self), r),
            old(self).steps_to(*final(self)),
            final(self).rest() == old(self).rest(),
            final(self).last_token_pos == old(self).last_token_pos,
            old(self).fails_at_eof(r),
            r matches Ok(t) ==> old(self).rest().len() > 0 && t == old(self).rest()[0] && t.token.same_kind(tt),
            r matches Ok(_) ==> final(self).diagnostics.view() == old(self).diagnostics.view(),
            r matches Err(ParseFailKind::Recover) ==> old(self).rest().len() > 0 && !old(self).rest()[0].token.same_kind(tt),
    {
        let tts = [tt];
        let r = self.expect_next_token_one_of(&tts);
        proof {
            assert(tts@ =~= seq![tt]);
            if r is Ok || r is Err {
                assert(kind_in(old(self).rest().first().token, tts@) ==> old(self).rest()[0].token.same_kind(tts@[0]));
            }
        }
        r
    }

    fn expect_token_is(&mut self, tt: TokenType) -> (r: AlwaysResult<Token>)
        requires
            old(self).wf(),
        ensures
            old(self).explains(*final(self), r),
            old(self).steps_to(*final(self)),
            old(self).fails_at_eof(r),
            r matches Ok(t) ==> old(self).rest().len() > 0 && t == old(self).rest()[0] && t.token.same_kind(tt)
                && final(self).rest() == old(self).rest().drop_first()
                && final(self).last_token_pos == t.pos
                && final(self).diagnostics.view() == old(self).diagnostics.view(),
            !(r is Ok) ==> final(self).rest() == old(self).rest() && final(self).last_token_pos == old(self).last_token_pos,
            r matches Err(ParseFailKind::Recover) ==> old(self).rest().len() > 0 && !old(self).rest()[0].token.same_kind(tt),
    {
        let tts = [tt];
        let r = self.expect_token_one_of(&tts);
        proof {
            assert(tts@ =~= seq![tt]);
            if old(self).rest().len() > 0 {
                assert(kind_in(old(self).rest().first().token, tts@) ==> old(self).rest()[0].token.same_kind(tts@[0]));
            }
        }
        r
    }

    fn consume_optional_semicolon(&mut self) -> (r: Option<Token>)
        requires
            old(self).wf(),
        ensures
            old(self).steps_to(*final(self)),
            final(self).diagnostics.view() == old(self).diagnostics.view(),
            old(self).next_is(TokenType::Punctuation(PunctuationType::Semicolon)) ==> r == Some(old(self).rest()[0])
                && final(self).rest() == old(self).rest().drop_first() && final(self).last_token_pos == old(self).rest()[0].pos,
            !old(self).next_is(TokenType::Punctuation(PunctuationType::Semicolon)) ==> r is None && final(self).rest() == old(self).rest()
                && final(self).last_token_pos == old(self).last_token_pos,
    {
        if !self.has_next_token() {
            proof {
                old(self).lemma_steps_refl();
            }
            return None;
        }
        match self.peek_next_token() {
            Ok(tk) => {
                if tk.token.is(&TokenType::Punctuation(PunctuationType::Semicolon)) {
                    match self.consume_token() {
                        Ok(t) => Some(t),
                        Err(_) => None,
                    }
                } else {
                    proof {
                        old(self).lemma_steps_refl();
                    }
                    None
                }
            },
            Err(_) => {
                proof {
                    old(self).lemma_steps_refl();
                }
                None
            },
        }
    }

    // -----------------------------------------------------------------------
    // Recovery
    // -----------------------------------------------------------------------

    /// Opens a layer of tokens at which the rule about to run resumes after
    /// an error.
    fn push_sentinels(&mut self, tts: Vec<TokenType>)
        requires
            old(self).wf(),
        ensures
            final(self).wf(),
            final(self).chain() == old(self).chain().push(tts),
            final(self).chain().drop_last() == old(self).chain(),
            final(self).module == old(self).module,
            final(self).rest() == old(self).rest(),
            final(self).diagnostics.view() == old(self).diagnostics.view(),
            final(self).last_token_pos == old(self).last_token_pos,
            old(self).moves_to(*final(self)),
    {
        self.sentinels.push(tts);
        proof {
            assert(self.rest().skip(0) =~= self.rest());
            assert(self.chain().drop_last() =~= old(self).chain());
        }
    }

    fn in_sentinels(&self, t: &TokenType) -> (r: bool)
        ensures
            r == in_chain(*t, self.chain()),
    {
        let mut d: usize = 0;
        while d < self.sentinels.len()
            invariant
                d <= self.sentinels@.len(),
                forall|e: int| 0 <= e < d ==> !kind_in(*t, (#[trigger] self.sentinels@[e])@),
            decreases self.sentinels@.len() - d,
        {
            if contains_kind(self.sentinels[d].as_slice(), t) {
                return true;
            }
            d = d + 1;
        }
        false
    }

    fn in_top_layer(&self, t: &TokenType) -> (r: bool)
        requires
            self.chain().len() > 0,
        ensures
            r == kind_in(*t, self.chain().last()@),
    {
        let n = self.sentinels.len();
        contains_kind(self.sentinels[n - 1].as_slice(), t)
    }

    /// Skips tokens up to one that some rule in progress resumes at.
    fn consume_until(&mut self) -> (r: AlwaysResult<Token>)
        requires
            old(self).wf(),
        ensures
            old(self).explains(*final(self), r),
            old(self).steps_to(*final(self)),
            final(self).diagnostics.view() == old(self).diagnostics.view(),
            final(self).fails_at_eof(r),
            r matches Ok(t) ==> final(self).rest().len() > 0 && t == final(self).rest()[0] && in_chain(t.token, old(self).chain()),
            !(r is Ok) ==> r is Err && !(r matches Err(ParseFailKind::Recover)) && final(self).rest().len() == 0,
            old(self).rest().len() > 0 && in_chain(old(self).rest()[0].token, old(self).chain()) ==> final(self).rest() == old(self).rest()
                && final(self).last_token_pos == old(self).last_token_pos,
            old(self).rest().len() > 0 && !in_chain(old(self).rest()[0].token, old(self).chain()) ==> final(self).rest().len() < old(self).rest().len(),
    {
        proof {
            old(self).lemma_steps_refl();
            assert(old(self).rest().skip(0) =~= old(self).rest());
        }
        loop
            invariant
                old(self).steps_to(*self),
                self.diagnostics.view() == old(self).diagnostics.view(),
                old(self).rest().len() > 0 && in_chain(old(self).rest()[0].token, old(self).chain()) ==> self.rest() == old(self).rest()
                    && self.last_token_pos == old(self).last_token_pos,
                old(self).rest().len() > 0 && !in_chain(old(self).rest()[0].token, old(self).chain()) && self.rest().len() == old(self).rest().len()
                    ==> self.rest() == old(self).rest(),
            decreases self.rest().len(),
        {
            let tk = self.peek_next_token()?;
            if self.in_sentinels(&tk.token) {
                return Ok(tk);
            }
            let ghost mid = *self;
            let _ = self.consume_token();
            proof {
                Self::lemma_steps_trans(*old(self), mid, *self);
                if self.rest().len() == old(self).rest().len() {
                    assert(self.rest() =~= old(self).rest().skip(0));
                    assert(old(self).rest().skip(0) =~= old(self).rest());
                }
            }
        }
    }

    /// As `consume_until`, where the end of the input is a place to stop too.
    fn consume_until_allow_eof(&mut self) -> (r: Option<Token>)
        requires
            old(self).wf(),
        ensures
            old(self).steps_to(*final(self)),
            final(self).diagnostics.view() == old(self).diagnostics.view(),
            r matches Some(t) ==> final(self).rest().len() > 0 && t == final(self).rest()[0] && in_chain(t.token, old(self).chain()),
            r is None ==> final(self).rest().len() == 0,
            old(self).rest().len() > 0 && in_chain(old(self).rest()[0].token, old(self).chain()) ==> final(self).rest() == old(self).rest()
                && final(self).last_token_pos == old(self).last_token_pos,
            old(self).rest().len() > 0 && !in_chain(old(self).rest()[0].token, old(self).chain()) ==> final(self).rest().len() < old(self).rest().len(),
    {
        proof {
            old(self).lemma_steps_refl();
            assert(old(self).rest().skip(0) =~= old(self).rest());
        }
        loop
            invariant
                old(self).steps_to(*self),
                self.diagnostics.view() == old(self).diagnostics.view(),
                old(self).rest().len() > 0 && in_chain(old(self).rest()[0].token, old(self).chain()) ==> self.rest() == old(self).rest()
                    && self.last_token_pos == old(self).last_token_pos,
                old(self).rest().len() > 0 && !in_chain(old(self).rest()[0].token, old(self).chain()) && self.rest().len() == old(self).rest().len()
                    ==> self.rest() == old(self).rest(),
            decreases self.rest().len(),
        {
            let tk = match self.peek_next_token() {
                Ok(tk) => tk,
                Err(_) => return None,
            };
            if self.in_sentinels(&tk.token) {
                return Some(tk);
            }
            let ghost mid = *self;
            let _ = self.consume_token();
            proof {
                Self::lemma_steps_trans(*old(self), mid, *self);
                if self.rest().len() == old(self).rest().len() {
                    assert(self.rest() =~= old(self).rest().skip(0));
                    assert(old(self).rest().skip(0) =~= old(self).rest());
                }
            }
        }
    }

    /// Closes the innermost recovery layer after the rule it guarded ran.
    /// A rule that gave up has the parser skip to a recovery token: one of the
    /// innermost layer ends the rule with nothing, one of an outer layer hands
    /// the failure on. A rule that succeeded is followed by the same skip when
    /// `consume_on_success` asks for it.
    fn recover_end<T>(&mut self, result: AlwaysResult<Option<T>>, allow_eof: bool, consume_on_success: bool) -> (r: ParseResult<T>)
        requires
            old(self).wf(),
            old(self).chain().len() > 0,
            old(self).fails_at_eof(result),
        ensures
            r matches Err(ParseFailKind::Recover) ==> result matches Err(ParseFailKind::Recover),
            old(self).moves_to(*final(self)),
            final(self).chain() == old(self).chain().drop_last(),
            final(self).diagnostics.view() == old(self).diagnostics.view(),
            final(self).fails_at_eof(r),
            !consume_on_success && !(result matches Err(ParseFailKind::Recover)) ==> r == result
                && final(self).rest() == old(self).rest() && final(self).last_token_pos == old(self).last_token_pos,
            old(self).rest().len() > 0 && in_chain(old(self).rest()[0].token, old(self).chain()) ==> final(self).rest() == old(self).rest()
                && final(self).last_token_pos == old(self).last_token_pos,
            (consume_on_success || (result matches Err(ParseFailKind::Recover))) && old(self).rest().len() > 0
                && !in_chain(old(self).rest()[0].token, old(self).chain()) ==> final(self).rest().len() < old(self).rest().len(),
            (result matches Err(ParseFailKind::Recover)) && (r matches Err(ParseFailKind::Recover)) ==> in_chain(final(self).rest()[0].token, old(self).chain()),
            (result matches Ok(Some(_))) && r is Ok ==> r == result,
            (result matches Ok(Some(_))) && old(self).rest().len() > 0 && in_chain(old(self).rest()[0].token, old(self).chain())
                ==> r == result && final(self).rest() == old(self).rest(),
            (result matches Ok(Some(_))) && allow_eof ==> r == result,
            result matches Ok(None) ==> r matches Ok(None) || r matches Err(ParseFailKind::Critical(_)),
            result matches Err(ParseFailKind::Critical(_)) ==> r matches Err(ParseFailKind::Critical(_)),
            result matches Err(ParseFailKind::Recover) ==> !(r matches Ok(Some(_))),
            (result matches Err(ParseFailKind::Recover)) && (r matches Ok(None)) ==> (allow_eof && final(self).rest().len() == 0)
                || (final(self).rest().len() > 0 && kind_in(final(self).rest()[0].token, old(self).chain().last()@)),
            (result matches Err(ParseFailKind::Recover)) && (r matches Err(ParseFailKind::Recover)) ==> final(self).rest().len() > 0
                && !kind_in(final(self).rest()[0].token, old(self).chain().last()@),
    {
        let should_consume = consume_on_success || matches!(result, Err(ParseFailKind::Recover));
        let ghost mid = *self;
        let mut result = result;
        if should_consume {
            let next_tk = if allow_eof {
                self.consume_until_allow_eof()
            } else {
                match self.consume_until() {
                    Ok(t) => Some(t),
                    Err(e) => {
                        let ghost before_pop = *self;
                        self.sentinels.pop();
                        proof {
                            assert(self.rest().skip(0) =~= self.rest());
                            assert(before_pop.moves_to(*self));
                            Self::lemma_steps_trans(*old(self), before_pop, *self);
                        }
                        return Err(e);
                    },
                }
            };
            result = match result {
                Err(ParseFailKind::Recover) => match next_tk {
                    Some(tk) => {
                        if self.in_top_layer(&tk.token) {
                            Ok(None)
                        } else {
                            Err(ParseFailKind::Recover)
                        }
                    },
                    None => Ok(None),
                },
                other => other,
            };
        } else {
            proof {
                old(self).lemma_steps_refl();
            }
        }
        let ghost before_pop = *self;
        self.sentinels.pop();
        proof {
            assert(self.rest().skip(0) =~= self.rest());
            assert(before_pop.moves_to(*self));
            Self::lemma_steps_trans(*old(self), before_pop, *self);
        }
        result
    }

    // -----------------------------------------------------------------------
    // Paths and expressions
    // -----------------------------------------------------------------------

    /// Reads identifiers separated by single colons.
    fn parse_path(&mut self) -> (r: AlwaysResult<Node>)
        requires
            old(self).wf(),
        ensures
            old(self).explains(*final(self), r),
            old(self).steps_to(*final(self)),
            final(self).fails_at_eof(r),
            r is Ok ==> final(self).diagnostics.view() == old(self).diagnostics.view(),
            r matches Ok(n) ==> n.pos is Pos && final(self).rest().len() < old(self).rest().len(),
            r is Ok ==> is_path(old(self).rest().take(old(self).rest().len() - final(self).rest().len())),
            r is Ok ==> final(self).rest().len() > 0 && !final(self).next_is(TokenType::Punctuation(PunctuationType::Colon)),
            r matches Ok(n) ==> (n.node_type matches NodeType::Path(v)
                && v@ == path_idents(old(self).rest().take(old(self).rest().len() - final(self).rest().len()))),
            old(self).rest().len() > 0 && old(self).rest()[0].token is Ident ==> final(self).rest().len() < old(self).rest().len(),
    {
        let ghost orig = self.rest();
        let start_token = match self.expect_token_is(TokenType::Ident(0)) {
            Ok(t) => t,
            Err(e) => return Err(e),
        };
        let mut path: Vec<Token> = Vec::new();
        path.push(start_token);
        proof {
            assert(start_token == orig[0]);
            assert(orig.take(1) =~= seq![start_token]);
        }
        loop
            invariant
                old(self).steps_to(*self),
                self.diagnostics.view() == old(self).diagnostics.view(),
                orig == old(self).rest(),
                path@.len() >= 1,
                self.rest().len() + 2 * path@.len() - 1 == orig.len(),
                is_path(orig.take(2 * path@.len() - 1)),
                path@ == Seq::new(path@.len(), |i: int| orig[2 * i]),
                forall|i: int| 0 <= i < path@.len() ==> (#[trigger] path@[i]).token is Ident,
            ensures
                self.rest().len() > 0 && !self.next_is(TokenType::Punctuation(PunctuationType::Colon)),
            decreases self.rest().len(),
        {
            let tk = self.peek_next_token()?;
            if tk.token.is(&TokenType::Punctuation(PunctuationType::Colon)) {
                let ghost mid0 = *self;
                let _ = self.consume_token();
                let ghost mid1 = *self;
                let ident = self.expect_token_is(TokenType::Ident(0));
                proof {
                    Self::lemma_steps_trans(*old(self), mid0, mid1);
                    Self::lemma_steps_trans(*old(self), mid1, *self);
                }
                let ident = ident?;
                let ghost m: int = path@.len() as int;
                path.push(ident);
                proof {
                    assert(self.rest() == orig.skip(orig.len() - self.rest().len()));
                    assert(mid0.rest() == orig.skip(orig.len() - mid0.rest().len()));
                    assert(orig[2 * m - 1] == mid0.rest()[0]);
                    assert(orig[2 * m] == mid1.rest()[0]);
                    assert(path@ =~= Seq::new(path@.len(), |i: int| orig[2 * i]));
                    let t = orig.take(2 * path@.len() - 1);
                    assert forall|i: int| 0 <= i < t.len() implies (if i % 2 == 0 { (#[trigger] t[i]).token is Ident } else { t[i].token == TokenType::Punctuation(PunctuationType::Colon) }) by {
                        if i < 2 * m - 1 {
                            assert(orig.take(2 * m - 1)[i] == orig[i]);
                        }
                    }
                }
            } else {
                break;
            }
        }
        let ghost k = orig.len() - self.rest().len();
        proof {
            assert(orig[0].pos->start <= orig[k - 1].pos->start) by {
                assert(well_placed(orig));
                assert(orig[0] == orig[0]);
            }
            assert(path@.last() == orig[k - 1]);
            assert(path@[0] == orig[0]);
        }
        let n = NodeBuilder::path_from_tokens(path);
        proof {
            assert(path_idents(orig.take(k)) =~= path@.map_values(|t: Token| ident_node(t)));
        }
        Ok(n)
    }

    /// Reads a constant expression by operator precedence, starting from an
    /// identifier the caller already read, if any. A `)` met while an
    /// operator is still pending is reported as unmatched. Items left over
    /// once the tree is built are ignored. Integer literals joined by binary
    /// operators, `..` included, read as the precedence tree of those
    /// operations, and the starting identifier alone as itself, when a token
    /// that continues no expression follows. After a starting identifier, an
    /// operator that needs a value before it is an error.
    #[verifier::rlimit(100)]
    #[verifier::spinoff_prover]
    fn parse_constexpr_with_starting_ident(&mut self, ident: Option<Token>) -> (r: AlwaysResult<Node>)
        requires
            old(self).wf(),
            ident matches Some(t) ==> t.token is Ident && t.pos is Pos,
        ensures
            old(self).explains(*final(self), r),
            old(self).steps_to(*final(self)),
            final(self).fails_at_eof(r),
            r matches Ok(n) ==> n.pos is Pos,
            forall|n: nat| ident is None && #[trigger] int_expr(old(self).rest(), n) ==> r == Ok::<Node, ParseFailKind>(
                prec_tree(old(self).rest(), 0, n as int),
            ) && final(self).rest() == old(self).rest().skip((2 * n + 1) as int)
                && final(self).diagnostics.view() == old(self).diagnostics.view(),
            ident is Some && old(self).rest().len() >= 1 && needs_left_operand(old(self).rest()[0].token) ==> r matches Err(
                ParseFailKind::Recover,
            ),
            ident is Some && old(self).rest().len() >= 1 && const_stop(old(self).rest()[0].token) ==> r
                == Ok::<Node, ParseFailKind>(ident_node(ident->0)) && final(self).rest() == old(self).rest(),
    {
        let mut stack: Vec<ConstItem> = Vec::new();
        let mut operator_stack: Vec<ConstPending> = Vec::new();
        let mut expect_value = true;
        let mut closing_parens: usize = 0;
        match ident {
            Some(ident) => stack.push(ConstItem::Value(NodeBuilder::identifier_from_token(ident))),
            None => {},
        }
        let ghost ic = ident is None && exists|n: nat| #[trigger] int_expr(old(self).rest(), n);
        let ghost n0: nat = choose|n: nat| #[trigger] int_expr(old(self).rest(), n);
        let ghost mut pend: Seq<int> = Seq::empty();
        let ghost ts = old(self).rest();
        let ghost mut k: int = 0;
        let ghost base_id = ident is Some && old(self).rest().len() >= 1 && const_stop(old(self).rest()[0].token);
        let ghost bad_id = ident is Some && old(self).rest().len() >= 1 && needs_left_operand(old(self).rest()[0].token);
        let ghost start_len = self.rest().len();
        proof {
            old(self).lemma_steps_refl();
            assert forall|n: nat| ident is None && #[trigger] int_expr(old(self).rest(), n) implies ic && n == n0 by {
                lemma_int_expr_unique(old(self).rest(), n, n0);
            }
        }
        loop
            invariant
                old(self).steps_to(*self),
                start_len == old(self).rest().len(),
                start_len <= usize::MAX,
                closing_parens + self.rest().len() <= start_len,
                forall|i: int| 0 <= i < stack@.len() ==> const_item_placed(#[trigger] stack@[i]),
                forall|i: int| 0 <= i < operator_stack@.len() ==> const_pending_placed(#[trigger] operator_stack@[i]),
                ts == old(self).rest(),
                ic ==> ident is None && int_expr(ts, n0),
                forall|n: nat| ident is None && #[trigger] int_expr(old(self).rest(), n) ==> ic && n == n0,
                base_id == (ident is Some && old(self).rest().len() >= 1 && const_stop(old(self).rest()[0].token)),
                ic ==> closing_parens == 0,
                ic && expect_value ==> 0 <= k <= n0 && self.rest() == ts.skip(2 * k) && stack@ == spine(ts, pend)
                    && seg_start(pend) == k && pending_ok(ts, pend, k),
                ic && !expect_value ==> 1 <= k <= n0 + 1 && self.rest() == ts.skip(2 * k - 1) && stack@ == spine(ts, pend)
                    + tree_postfix(ts, k - 1, k - 1) && seg_start(pend) == k - 1 && pending_ok(ts, pend, k - 1),
                ic ==> operator_stack@ == pending_of(ts, pend),
                base_id ==> closing_parens == 0 && operator_stack@.len() == 0 && self.rest() == old(self).rest()
                    && expect_value && stack@ == seq![ConstItem::Value(ident_node(ident->0))],
                bad_id == (ident is Some && old(self).rest().len() >= 1 && needs_left_operand(old(self).rest()[0].token)),
                bad_id ==> closing_parens == 0 && self.rest() == old(self).rest() && expect_value,
                ic ==> self.diagnostics.view() == old(self).diagnostics.view(),
            ensures
                !bad_id,
                ic ==> self.diagnostics.view() == old(self).diagnostics.view(),
                old(self).steps_to(*self),
                forall|i: int| 0 <= i < stack@.len() ==> const_item_placed(#[trigger] stack@[i]),
                forall|i: int| 0 <= i < operator_stack@.len() ==> const_pending_placed(#[trigger] operator_stack@[i]),
                ts == old(self).rest(),
                ic ==> ident is None && int_expr(ts, n0),
                forall|n: nat| ident is None && #[trigger] int_expr(old(self).rest(), n) ==> ic && n == n0,
                ic ==> !expect_value && k == n0 + 1 && self.rest() == ts.skip((2 * n0 + 1) as int) && stack@ == spine(ts, pend)
                    + tree_postfix(ts, n0 as int, n0 as int) && seg_start(pend) == n0 && pending_ok(ts, pend, n0 as int)
                    && operator_stack@ == pending_of(ts, pend),
                base_id ==> operator_stack@.len() == 0 && self.rest() == old(self).rest() && stack@ == seq![
                    ConstItem::Value(ident_node(ident->0)),
                ],
            decreases self.rest().len(),
        {
            proof {
                if ic && expect_value {
                    assert(self.rest()[0] == name_at(ts, k));
                }
                if ic && !expect_value {
                    assert(self.rest()[0] == sep_at(ts, k - 1));
                    if k - 1 < n0 {
                        assert(is_binary_op(sep_at(ts, k - 1).token));
                    }
                }
            }
            let tk = self.peek_next_token()?;
            let ghost before = *self;
            let ghost ev0 = expect_value;
            let starts_value = match tk.token {
                TokenType::Ident(_) | TokenType::Integer(_) | TokenType::Punctuation(PunctuationType::LParen) => true,
                _ => false,
            };
            if starts_value && !expect_value {
                let d = self.expected_error_string(text("<operator>"), &tk);
                self.add_error(d);
                return Err(ParseFailKind::Recover);
            }
            match tk.token {
                TokenType::Ident(_) if expect_value => {
                    let node = self.parse_path();
                    proof {
                        Self::lemma_steps_trans(*old(self), before, *self);
                    }
                    let node = node?;
                    stack.push(ConstItem::Value(node));
                    expect_value = false;
                },
                TokenType::Integer(_) if expect_value => {
                    let t = self.consume_token();
                    proof {
                        Self::lemma_steps_trans(*old(self), before, *self);
                    }
                    let t = t?;
                    stack.push(ConstItem::Value(NodeBuilder::integer_from_token(t)));
                    expect_value = false;
                    proof {
                        if ic {
                            assert(t == name_at(ts, k));
                            assert(self.rest() =~= ts.skip(2 * (k + 1) - 1));
                            k = k + 1;
                            assert(stack@ =~= spine(ts, pend) + tree_postfix(ts, k - 1, k - 1));
                        }
                    }
                },
                TokenType::Punctuation(PunctuationType::LParen) if expect_value => {
                    let t = self.consume_token();
                    proof {
                        Self::lemma_steps_trans(*old(self), before, *self);
                    }
                    let _ = t?;
                    operator_stack.push(ConstPending::LParen(tk.pos));
                    closing_parens = closing_parens + 1;
                },
                TokenType::Punctuation(PunctuationType::RParen) if !expect_value && closing_parens > 0 => {
                    let t = self.consume_token();
                    proof {
                        Self::lemma_steps_trans(*old(self), before, *self);
                    }
                    let _ = t?;
                    match operator_stack.last() {
                        Some(ConstPending::LParen(_)) => {
                            stack.pop();
                        },
                        _ => {
                            let ghost mid = *self;
                            let d = self.expr_error(ExprErrorKind::UnmatchedClosingParenthesis, tk.pos);
                            self.add_error(d);
                            proof {
                                Self::lemma_steps_trans(*old(self), mid, *self);
                            }
                            return Err(ParseFailKind::Recover);
                        },
                    }
                    closing_parens = closing_parens - 1;
                },
                TokenType::Punctuation(PunctuationType::RParen) if expect_value && closing_parens > 0 => {
                    let d = self.expected_error_string(text("<value>"), &tk);
                    self.add_error(d);
                    proof {
                        Self::lemma_steps_trans(*old(self), before, *self);
                    }
                    return Err(ParseFailKind::Recover);
                },
                _ => {
                    let mut op = match ConstExprOpType::try_from_token(&tk.token) {
                        Some(op) => op,
                        None => {
                            break;
                        },
                    };
                    if op == ConstExprOpType::Range {
                    } else if expect_value {
                        match op.unary_equivalent() {
                            Some(u) => {
                                op = u;
                            },
                            None => {
                                if !op.is_unary() {
                                    let d = self.expected_error_string(text("<value>"), &tk);
                                    self.add_error(d);
                                    proof {
                                        Self::lemma_steps_trans(*old(self), before, *self);
                                    }
                                    return Err(ParseFailKind::Recover);
                                }
                            },
                        }
                    } else if op.is_unary() {
                        let d = self.expr_error(ExprErrorKind::ExpectedBinaryOperator(text(tk.value())), tk.pos);
                        self.add_error(d);
                        proof {
                            Self::lemma_steps_trans(*old(self), before, *self);
                        }
                        return Err(ParseFailKind::Recover);
                    }
                    let t = self.consume_token();
                    proof {
                        Self::lemma_steps_trans(*old(self), before, *self);
                    }
                    let op_pos = t?.pos;
                    let ghost dot = ic && !ev0;
                    let ghost c = k - 1;
                    proof {
                        if dot {
                            assert(c < n0);
                            assert(is_binary_op(sep_at(ts, c).token));
                            assert(op == chain_op(sep_at(ts, c).token));
                            assert(op_pos == sep_at(ts, c).pos);
                        }
                    }
                    loop
                        invariant
                            forall|i: int| 0 <= i < stack@.len() ==> const_item_placed(#[trigger] stack@[i]),
                            forall|i: int| 0 <= i < operator_stack@.len() ==> const_pending_placed(#[trigger] operator_stack@[i]),
                            dot ==> 0 <= c < n0 && op == chain_op(sep_at(ts, c).token) && op.spec_associativity() == Associativity::Left,
                            dot ==> int_expr(ts, n0),
                            dot ==> stack@ == spine(ts, pend) + tree_postfix(ts, seg_start(pend), c) && operator_stack@ == pending_of(ts, pend)
                                && pending_ok(ts, pend, c) && seg_start(pend) <= c,
                            dot ==> forall|t: int| seg_start(pend) <= t < c ==> #[trigger] op_prec(ts, t) >= op_prec(ts, c) && (pend.len() > 0
                                ==> op_prec(ts, t) > op_prec(ts, pend.last())),
                        ensures
                            forall|i: int| 0 <= i < stack@.len() ==> const_item_placed(#[trigger] stack@[i]),
                            forall|i: int| 0 <= i < operator_stack@.len() ==> const_pending_placed(#[trigger] operator_stack@[i]),
                            dot ==> stack@ == spine(ts, pend) + tree_postfix(ts, seg_start(pend), c) && operator_stack@ == pending_of(ts, pend)
                                && pending_ok(ts, pend, c) && seg_start(pend) <= c,
                            dot ==> forall|t: int| seg_start(pend) <= t < c ==> #[trigger] op_prec(ts, t) >= op_prec(ts, c),
                            dot && pend.len() > 0 ==> op_prec(ts, pend.last()) < op_prec(ts, c),
                        decreases operator_stack@.len(),
                    {
                        let n = operator_stack.len();
                        if n == 0 {
                            break;
                        }
                        proof {
                            if dot {
                                assert(operator_stack@[n - 1] == ConstPending::Op(chain_op(sep_at(ts, pend.last()).token), sep_at(ts, pend.last()).pos));
                            }
                        }
                        match operator_stack[n - 1] {
                            ConstPending::Op(top_op, _) => {
                                if top_op.higher_precedence(&op) || (op.associativity() == Associativity::Left && op.precedence()
                                    == top_op.precedence()) {
                                    let ghost st = stack@;
                                    match operator_stack.pop() {
                                        Some(ConstPending::Op(top, pos)) => stack.push(ConstItem::Operator(top, pos)),
                                        _ => {},
                                    }
                                    proof {
                                        if dot {
                                            let jj = pend.last();
                                            let pd = pend.drop_last();
                                            let a = seg_start(pd);
                                            assert(pend.take(pend.len() - 1) =~= pd);
                                            assert forall|t: int| a <= t < jj implies #[trigger] op_prec(ts, t) >= op_prec(ts, jj) by {
                                                assert(pend[pend.len() - 1] == jj);
                                                assert(sep_at(ts, t) == sep_at(ts, t));
                                            }
                                            lemma_split(ts, a, jj, c);
                                            assert(spine(ts, pend) == spine(ts, pd) + tree_postfix(ts, a, jj));
                                            assert(tree_postfix(ts, a, c) == tree_postfix(ts, a, jj) + tree_postfix(ts, jj + 1, c) + seq![
                                                ConstItem::Operator(chain_op(sep_at(ts, jj).token), sep_at(ts, jj).pos),
                                            ]);
                                            assert(stack@ =~= spine(ts, pd) + tree_postfix(ts, a, c));
                                            assert(operator_stack@ =~= pending_of(ts, pd));
                                            assert forall|t: int| a <= t < c implies #[trigger] op_prec(ts, t) >= op_prec(ts, c) && (pd.len() > 0
                                                ==> op_prec(ts, t) > op_prec(ts, pd.last())) by {
                                                if pd.len() > 0 {
                                                    assert(pend[pend.len() - 2] == pd.last());
                                                    assert(op_prec(ts, pd.last()) < op_prec(ts, jj));
                                                }
                                                if t < jj {
                                                    assert(op_prec(ts, t) >= op_prec(ts, jj));
                                                }
                                            }
                                            assert forall|i: int, t: int| 0 <= i < pd.len() && seg_start(pd.take(i)) <= t < pd[i] implies op_prec(ts, t) >= op_prec(ts, #[trigger] pd[i]) && #[trigger] sep_at(ts, t) == sep_at(ts, t) by {
                                                assert(pd.take(i) =~= pend.take(i));
                                                assert(pd[i] == pend[i]);
                                            }
                                            pend = pd;
                                        }
                                    }
                                } else {
                                    break;
                                }
                            },
                            _ => {
                                break;
                            },
                        }
                    }
                    let ghost ops_before = operator_stack@;
                    operator_stack.push(ConstPending::Op(op, op_pos));
                    expect_value = true;
                    proof {
                        if dot {
                            assert(self.rest() =~= ts.skip(2 * k));
                            let old_pend = pend;
                            pend = pend.push(c);
                            assert(pend.drop_last() =~= old_pend);
                            assert(operator_stack@ =~= pending_of(ts, pend));
                            assert(stack@ == spine(ts, pend));
                            lemma_pending_push(ts, old_pend, c);
                        }
                    }
                },
            }
        }
        let ghost scanned = *self;
        let ghost scanned_stack = stack@;
        proof {
            if ic {
                assert(seg_start(pend) == n0);
            }
        }
        loop
            invariant
                old(self).steps_to(*self),
                self.rest() == scanned.rest(),
                forall|i: int| 0 <= i < stack@.len() ==> const_item_placed(#[trigger] stack@[i]),
                forall|i: int| 0 <= i < operator_stack@.len() ==> const_pending_placed(#[trigger] operator_stack@[i]),
                ts == old(self).rest(),
                ic ==> ident is None && int_expr(ts, n0),
                forall|n: nat| ident is None && #[trigger] int_expr(old(self).rest(), n) ==> ic && n == n0,
                base_id == (ident is Some && old(self).rest().len() >= 1 && const_stop(old(self).rest()[0].token)),
                base_id ==> operator_stack@.len() == 0 && stack@ == scanned_stack,
                ic ==> stack@ == spine(ts, pend) + tree_postfix(ts, seg_start(pend), n0 as int) && operator_stack@ == pending_of(ts, pend)
                    && pending_ok(ts, pend, n0 as int) && seg_start(pend) <= n0,
                ic && pend.len() > 0 ==> forall|t: int| seg_start(pend) <= t < n0 ==> #[trigger] op_prec(ts, t) > op_prec(ts, pend.last()),
                ic ==> self.diagnostics.view() == old(self).diagnostics.view(),
            ensures
                ic ==> self.diagnostics.view() == old(self).diagnostics.view(),
                old(self).steps_to(*self),
                self.rest() == scanned.rest(),
                forall|i: int| 0 <= i < stack@.len() ==> const_item_placed(#[trigger] stack@[i]),
                base_id ==> stack@ == scanned_stack,
                ic ==> stack@ == tree_postfix(ts, 0, n0 as int),
            decreases operator_stack@.len(),
        {
            match operator_stack.pop() {
                Some(ConstPending::Op(op, pos)) => {
                    let ghost st = stack@;
                    stack.push(ConstItem::Operator(op, pos));
                    proof {
                        if ic {
                            let cc = n0 as int;
                            let jj = pend.last();
                            let pd = pend.drop_last();
                            let a = seg_start(pd);
                            assert(pend.take(pend.len() - 1) =~= pd);
                            assert forall|t: int| a <= t < jj implies #[trigger] op_prec(ts, t) >= op_prec(ts, jj) by {
                                assert(pend[pend.len() - 1] == jj);
                                assert(sep_at(ts, t) == sep_at(ts, t));
                            }
                            lemma_split(ts, a, jj, cc);
                            assert(spine(ts, pend) == spine(ts, pd) + tree_postfix(ts, a, jj));
                            assert(tree_postfix(ts, a, cc) == tree_postfix(ts, a, jj) + tree_postfix(ts, jj + 1, cc) + seq![
                                ConstItem::Operator(chain_op(sep_at(ts, jj).token), sep_at(ts, jj).pos),
                            ]);
                            assert(stack@ =~= spine(ts, pd) + tree_postfix(ts, a, cc));
                            assert(operator_stack@ =~= pending_of(ts, pd));
                            if pd.len() > 0 {
                                assert(pend[pend.len() - 2] == pd.last());
                                assert(op_prec(ts, pd.last()) < op_prec(ts, jj));
                                assert forall|t: int| a <= t < cc implies #[trigger] op_prec(ts, t) > op_prec(ts, pd.last()) by {
                                    if t < jj {
                                        assert(op_prec(ts, t) >= op_prec(ts, jj));
                                    }
                                }
                            }
                            assert forall|i: int, t: int| 0 <= i < pd.len() && seg_start(pd.take(i)) <= t < pd[i] implies op_prec(ts, t) >= op_prec(ts, #[trigger] pd[i]) && #[trigger] sep_at(ts, t) == sep_at(ts, t) by {
                                assert(pd.take(i) =~= pend.take(i));
                                assert(pd[i] == pend[i]);
                            }
                            pend = pd;
                        }
                    }
                },
                Some(ConstPending::LParen(pos)) => {
                    let ghost mid = *self;
                    let d = self.expr_error(ExprErrorKind::UnmatchedOpeningParenthesis, pos);
                    self.add_error(d);
                    proof {
                        Self::lemma_steps_trans(*old(self), mid, *self);
                    }
                },
                None => {
                    break;
                },
            }
        }
        if stack.len() == 0 {
            let tk = self.peek_next_token()?;
            let ghost mid = *self;
            let d = self.expected_error_string(text("<constexpr>"), &tk);
            self.add_error(d);
            proof {
                Self::lemma_steps_trans(*old(self), mid, *self);
            }
            return Err(ParseFailKind::Recover);
        }
        let ghost mid = *self;
        proof {
            if ic {
                assert(ends_with_tree(stack@, ts, 0, n0 as int)) by {
                    assert(stack@.skip(0) =~= stack@);
                }
            }
        }
        let node = self.build_constexpr(&mut stack);
        proof {
            Self::lemma_steps_trans(*old(self), mid, *self);
            if ic {
                assert(node == Ok::<Node, ParseFailKind>(prec_tree(ts, 0, n0 as int)));
            }
        }
        node
    }

    /// Turns the postfix sequence into a tree, reading it from the end: an
    /// operator takes its operands from the entries before it, the right one
    /// first. A range takes up to two operands, the nearer one as its start.
    #[verifier::rlimit(40)]
    fn build_constexpr(&mut self, stack: &mut Vec<ConstItem>) -> (r: AlwaysResult<Node>)
        requires
            old(self).wf(),
            forall|i: int| 0 <= i < old(stack)@.len() ==> const_item_placed(#[trigger] old(stack)@[i]),
        ensures
            old(self).explains(*final(self), r),
            old(self).steps_to(*final(self)),
            final(self).rest() == old(self).rest(),
            final(self).fails_at_eof(r),
            final(stack)@.len() <= old(stack)@.len(),
            forall|i: int| 0 <= i < final(stack)@.len() ==> const_item_placed(#[trigger] final(stack)@[i]),
            r matches Ok(n) ==> n.pos is Pos,
            old(stack)@.len() > 0 && old(stack)@.last() is Value ==> r == Ok::<Node, ParseFailKind>(
                old(stack)@.last()->Value_0,
            ) && final(stack)@ == old(stack)@.drop_last() && *final(self) == *old(self),
            forall|ts: Seq<Token>, a: int, b: int| #[trigger] ends_with_tree(old(stack)@, ts, a, b) ==> r == Ok::<Node, ParseFailKind>(
                prec_tree(ts, a, b),
            ) && final(stack)@ == old(stack)@.take(old(stack)@.len() - tree_postfix(ts, a, b).len())
                && final(self).diagnostics.view() == old(self).diagnostics.view(),
        decreases old(stack)@.len(),
    {
        proof {
            old(self).lemma_steps_refl();
        }
        let ghost st0 = stack@;
        match stack.pop() {
            Some(ConstItem::Operator(ConstExprOpType::Range, pos)) => {
                let ghost st1 = stack@;
                proof {
                    assert forall|ts: Seq<Token>, a: int, b: int| #[trigger] ends_with_tree(st0, ts, a, b) implies a < b
                        && chain_op(sep_at(ts, split_at(ts, a, b)).token) == ConstExprOpType::Range
                        && st1.len() > 0 && ends_with_tree(st1, ts, split_at(ts, a, b) + 1, b) by {
                        lemma_tree_postfix_last(ts, a, b);
                        assert(st0.last() == tree_postfix(ts, a, b).last());
                        if a < b {
                            let j = split_at(ts, a, b);
                            let l1 = tree_postfix(ts, a, j);
                            let l2 = tree_postfix(ts, j + 1, b);
                            let pre = st0.take(st0.len() - tree_postfix(ts, a, b).len());
                            lemma_tree_postfix_last(ts, a, j);
                            assert(st0 =~= pre + tree_postfix(ts, a, b));
                            assert(tree_postfix(ts, a, b) == l1 + l2 + seq![ConstItem::Operator(chain_op(sep_at(ts, j).token), sep_at(ts, j).pos)]);
                            assert(st1 =~= pre + l1 + l2);
                            assert(st1.skip(st1.len() - l2.len()) =~= l2);
                        }
                    }
                }
                let ghost s0 = *self;
                let lhs = if stack.len() == 0 {
                    None
                } else {
                    let l = self.build_constexpr(stack);
                    match l {
                        Ok(l) => Some(l),
                        Err(e) => return Err(e),
                    }
                };
                let ghost s1 = *self;
                let ghost st2 = stack@;
                proof {
                    assert forall|ts: Seq<Token>, a: int, b: int| #[trigger] ends_with_tree(st0, ts, a, b) implies lhs
                        == Some(prec_tree(ts, split_at(ts, a, b) + 1, b)) && st2.len() > 0
                        && ends_with_tree(st2, ts, a, split_at(ts, a, b))
                        && st2.take(st2.len() - tree_postfix(ts, a, split_at(ts, a, b)).len()) == st0.take(st0.len() - tree_postfix(ts, a, b).len())
                        && self.diagnostics.view() == s0.diagnostics.view() by {
                        let jj = split_at(ts, a, b);
                        let l1 = tree_postfix(ts, a, jj);
                        let l2 = tree_postfix(ts, jj + 1, b);
                        let pre = st0.take(st0.len() - tree_postfix(ts, a, b).len());
                        lemma_tree_postfix_last(ts, a, b);
                        lemma_tree_postfix_last(ts, a, jj);
                        assert(st0 =~= pre + tree_postfix(ts, a, b));
                        assert(tree_postfix(ts, a, b) == l1 + l2 + seq![ConstItem::Operator(chain_op(sep_at(ts, jj).token), sep_at(ts, jj).pos)]);
                        assert(st1 =~= pre + l1 + l2);
                        assert(st2 =~= pre + l1) by {
                            assert(st1.take(st1.len() - l2.len()) =~= pre + l1);
                        }
                        assert(st2.skip(st2.len() - l1.len()) =~= l1);
                        assert(st2.take(st2.len() - l1.len()) =~= pre);
                    }
                }
                let rhs = if stack.len() == 0 {
                    None
                } else {
                    let r = self.build_constexpr(stack);
                    proof {
                        Self::lemma_steps_trans(s0, s1, *self);
                    }
                    match r {
                        Ok(r) => Some(r),
                        Err(e) => return Err(e),
                    }
                };
                proof {
                    Self::lemma_steps_trans(s0, s1, *self);
                }
                proof {
                    assert forall|ts: Seq<Token>, a: int, b: int| #[trigger] ends_with_tree(st0, ts, a, b) implies rhs
                        == Some(prec_tree(ts, a, split_at(ts, a, b))) && stack@ == st0.take(st0.len() - tree_postfix(ts, a, b).len())
                        && self.diagnostics.view() == s0.diagnostics.view() by {
                    }
                }
                let start_pos = match &lhs {
                    Some(l) => l.pos,
                    None => pos,
                };
                let end_pos = match &rhs {
                    Some(r) => r.pos,
                    None => pos,
                };
                Ok(NodeBuilder::new(start_pos).const_expr_range(lhs, rhs).finish(end_pos))
            },
            Some(ConstItem::Operator(op, _)) => {
                if op.is_unary() {
                proof {
                        assert forall|ts: Seq<Token>, a: int, b: int| #[trigger] ends_with_tree(st0, ts, a, b) implies false by {
                            lemma_tree_postfix_last(ts, a, b);
                            if a < b {
                                assert(is_binary_op(sep_at(ts, split_at(ts, a, b)).token));
                            }
                            assert(st0.last() == tree_postfix(ts, a, b).last());
                        }
                    }
                    let rhs = self.build_constexpr(stack)?;
                    let end_pos = rhs.pos;
                    Ok(NodeBuilder::new(rhs.pos).const_expr_unary(op, rhs).finish(end_pos))
                } else {
                    let ghost s0 = *self;
                    let ghost st1 = stack@;
                    let rhs = self.build_constexpr(stack);
                    proof {
                        assert forall|ts: Seq<Token>, a: int, b: int| #[trigger] ends_with_tree(st0, ts, a, b) implies rhs
                            == Ok::<Node, ParseFailKind>(prec_tree(ts, split_at(ts, a, b) + 1, b)) && a < b
                            && self.diagnostics.view() == s0.diagnostics.view() by {
                            lemma_tree_postfix_last(ts, a, b);
                            assert(st0.last() == tree_postfix(ts, a, b).last());
                            if a < b {
                                let j = split_at(ts, a, b);
                                let l1 = tree_postfix(ts, a, j);
                                let l2 = tree_postfix(ts, j + 1, b);
                                let pre = st0.take(st0.len() - tree_postfix(ts, a, b).len());
                                assert(st0 =~= pre + tree_postfix(ts, a, b));
                                assert(tree_postfix(ts, a, b) == l1 + l2 + seq![ConstItem::Operator(chain_op(sep_at(ts, j).token), sep_at(ts, j).pos)]);
                                assert(st1 =~= pre + l1 + l2);
                                assert(ends_with_tree(st1, ts, j + 1, b)) by {
                                    assert(st1.skip(st1.len() - l2.len()) =~= l2);
                                }
                            }
                        }
                    }
                    let rhs = rhs?;
                    let ghost s1 = *self;
                    let ghost st2 = stack@;
                    let lhs = self.build_constexpr(stack);
                    proof {
                        Self::lemma_steps_trans(s0, s1, *self);
                        assert forall|ts: Seq<Token>, a: int, b: int| #[trigger] ends_with_tree(st0, ts, a, b) implies lhs is Ok
                            && lhs->Ok_0 == prec_tree(ts, a, split_at(ts, a, b)) && rhs == prec_tree(ts, split_at(ts, a, b) + 1, b)
                            && op == chain_op(sep_at(ts, split_at(ts, a, b)).token) && a < b
                            && stack@ == st0.take(st0.len() - tree_postfix(ts, a, b).len())
                            && self.diagnostics.view() == s0.diagnostics.view() by {
                            lemma_tree_postfix_last(ts, a, b);
                            assert(st0.last() == tree_postfix(ts, a, b).last());
                            if a < b {
                                let j = split_at(ts, a, b);
                                let l1 = tree_postfix(ts, a, j);
                                let l2 = tree_postfix(ts, j + 1, b);
                                let pre = st0.take(st0.len() - tree_postfix(ts, a, b).len());
                                assert(st0 =~= pre + tree_postfix(ts, a, b));
                                assert(tree_postfix(ts, a, b) == l1 + l2 + seq![ConstItem::Operator(chain_op(sep_at(ts, j).token), sep_at(ts, j).pos)]);
                                assert(st1 =~= pre + l1 + l2);
                                assert(ends_with_tree(st1, ts, j + 1, b)) by {
                                    assert(st1.skip(st1.len() - l2.len()) =~= l2);
                                }
                                assert(st2 =~= pre + l1) by {
                                    assert(st1.take(st1.len() - l2.len()) =~= pre + l1);
                                }
                                assert(ends_with_tree(st2, ts, a, j)) by {
                                    assert(st2.skip(st2.len() - l1.len()) =~= l1);
                                }
                                assert(st2.take(st2.len() - l1.len()) =~= pre);
                            }
                        }
                    }
                    let lhs = lhs?;
                    let end_pos = rhs.pos;
                    Ok(NodeBuilder::new(lhs.pos).const_expr_binary(lhs, op, rhs).finish(end_pos))
                }
            },
            Some(ConstItem::Value(node)) => {
                proof {
                    assert forall|ts: Seq<Token>, a: int, b: int| #[trigger] ends_with_tree(st0, ts, a, b) implies node == prec_tree(ts, a, b)
                        && stack@ == st0.take(st0.len() - tree_postfix(ts, a, b).len()) by {
                        lemma_tree_postfix_last(ts, a, b);
                        assert(st0.last() == tree_postfix(ts, a, b).last());
                        if a < b {
                            assert(is_binary_op(sep_at(ts, split_at(ts, a, b)).token));
                        }
                        assert(stack@ =~= st0.take(st0.len() - 1));
                    }
                }
                Ok(node)
            },
            None => {
                proof {
                    assert forall|ts: Seq<Token>, a: int, b: int| #[trigger] ends_with_tree(st0, ts, a, b) implies false by {
                        lemma_tree_postfix_last(ts, a, b);
                    }
                }
                let tk = self.peek_next_token()?;
                let d = self.expected_error_string(text("<constexpr>"), &tk);
                self.add_error(d);
                Err(ParseFailKind::Recover)
            },
        }
    }

    /// Reads a constant expression. Integer literals joined by binary
    /// operators, `..` included, and followed by a token that continues no
    /// expression, read as the precedence tree of those operations: tighter
    /// operators apply first and equal ones from the left.
    pub fn parse_constexpr(&mut self) -> (r: Result<Node, ParseFailKind>)
        requires
            old(self).wf(),
        ensures
            old(self).explains(*final(self), r),
            old(self).steps_to(*final(self)),
            final(self).fails_at_eof(r),
            r matches Ok(n) ==> n.pos is Pos,
            forall|n: nat| #[trigger] int_expr(old(self).rest(), n) ==> r == Ok::<Node, ParseFailKind>(
                prec_tree(old(self).rest(), 0, n as int),
            ) && final(self).rest() == old(self).rest().skip((2 * n + 1) as int)
                && final(self).spec_diagnostics() == old(self).spec_diagnostics(),
    {
        self.parse_constexpr_with_starting_ident(None)
    }

    /// The operand of `[`: a constant expression followed by `]`.
    fn parse_index_range(&mut self) -> (r: AlwaysResult<Option<Node>>)
        requires
            old(self).wf(),
        ensures
            old(self).explains(*final(self), r),
            old(self).steps_to(*final(self)),
            final(self).fails_at_eof(r),
            !(r matches Ok(None)),
            r matches Ok(Some(n)) ==> n.pos is Pos && final(self).next_is(TokenType::Punctuation(PunctuationType::RSquare)),
            forall|n: nat| #[trigger] int_expr(old(self).rest(), n) && sep_at(old(self).rest(), n as int).token
                == TokenType::Punctuation(PunctuationType::RSquare) ==> r == Ok::<Option<Node>, ParseFailKind>(
                Some(prec_tree(old(self).rest(), 0, n as int)),
            ) && final(self).rest() == old(self).rest().skip((2 * n + 1) as int),
    {
        let result = self.parse_constexpr();
        let ghost mid = *self;
        let result = result?;
        let e = self.expect_next_token_is(TokenType::Punctuation(PunctuationType::RSquare));
        proof {
            Self::lemma_steps_trans(*old(self), mid, *self);
        }
        let _ = e?;
        Ok(Some(result))
    }

    /// Reads a pin expression by operator precedence; it ends at `;` or at
    /// the first token that is neither a name nor an operator. Items left over
    /// once the tree is built are ignored, and a `[` whose range could not be
    /// read makes the expression give up. Names separated by `.` and followed
    /// by a token that continues no pin expression read as the nested children
    /// of the first name; followed by `[`, integer literals joined by binary
    /// operators and `]`, they read as that path indexed by the expression.
    #[verifier::rlimit(60)]
    fn parse_pinexpr(&mut self) -> (r: AlwaysResult<Node>)
        requires
            old(self).wf(),
        ensures
            old(self).explains(*final(self), r),
            old(self).steps_to(*final(self)),
            final(self).fails_at_eof(r),
            r matches Ok(n) ==> n.pos is Pos,
            old(self).rest().len() > 0 && old(self).rest()[0].token is Ident ==> final(self).rest().len() < old(self).rest().len(),
            forall|n: nat| #[trigger] dotted_path(old(self).rest(), n) ==> r == Ok::<Node, ParseFailKind>(
                dotted(path_names(old(self).rest(), n + 1)),
            ) && final(self).rest() == old(self).rest().skip((2 * n + 1) as int),
            forall|n: nat, m: nat| #[trigger] dotted_index(old(self).rest(), n, m) ==> r == Ok::<Node, ParseFailKind>(
                dotted_index_tree(old(self).rest(), n, m),
            ) && final(self).rest() == old(self).rest().skip(2 * n + 2 * m + 4 as int),
    {
        let mut stack: Vec<PinItem> = Vec::new();
        let mut operator_stack: Vec<PinPending> = Vec::new();
        let mut expect_value = true;
        let ghost start_len = self.rest().len();
        let ghost dp = exists|n: nat| #[trigger] dotted_path(old(self).rest(), n);
        let ghost n0: nat = choose|n: nat| #[trigger] dotted_path(old(self).rest(), n);
        let ghost di = exists|n: nat, m: nat| #[trigger] dotted_index(old(self).rest(), n, m);
        let ghost nm: (nat, nat) = choose|n: nat, m: nat| #[trigger] dotted_index(old(self).rest(), n, m);
        let ghost n1: nat = nm.0;
        let ghost m0: nat = nm.1;
        let ghost dn = dp || di;
        let ghost nn: nat = if dp {
            n0
        } else {
            n1
        };
        let ghost names = path_names(old(self).rest(), nn + 1);
        let ghost mut k: int = 0;
        let ghost mut ph: int = 0;
        let ghost e0 = PinItem::ConstExpr(prec_tree(old(self).rest().skip(2 * nn + 2 as int), 0, m0 as int));
        proof {
            assert forall|n: nat, m: nat| #[trigger] dotted_index(old(self).rest(), n, m) implies di && n == n1 && m == m0 by {
                lemma_dotted_index_unique(old(self).rest(), n, m, n1, m0);
            }
            if di && dp {
                lemma_path_not_index(old(self).rest(), n0, n1, m0);
            }
            old(self).lemma_steps_refl();
            assert forall|n: nat| #[trigger] dotted_path(old(self).rest(), n) implies dp && n == n0 by {
                lemma_dotted_path_unique(old(self).rest(), n, n0);
            }
        }
        loop
            invariant
                old(self).steps_to(*self),
                start_len == old(self).rest().len(),
                old(self).rest().len() > 0 && old(self).rest()[0].token is Ident && self.rest().len() == start_len ==> expect_value,
                dp ==> dotted_path(old(self).rest(), n0),
                forall|n: nat| #[trigger] dotted_path(old(self).rest(), n) ==> dp && n == n0,
                di ==> dotted_index(old(self).rest(), n1, m0) && !dp,
                forall|n: nat, m: nat| #[trigger] dotted_index(old(self).rest(), n, m) ==> di && n == n1 && m == m0,
                dn == (dp || di),
                nn == (if dp {
                    n0
                } else {
                    n1
                }),
                dn ==> dotted_names(old(self).rest(), nn),
                names == path_names(old(self).rest(), nn + 1),
                e0 == PinItem::ConstExpr(prec_tree(old(self).rest().skip(2 * nn + 2 as int), 0, m0 as int)),
                dn ==> ph == 0 || (di && ph == 2),
                dn && ph == 0 && expect_value ==> 0 <= k <= nn && self.rest() == old(self).rest().skip(2 * k),
                dn && ph == 0 && !expect_value ==> 1 <= k <= nn + 1 && self.rest() == old(self).rest().skip(2 * k - 1),
                dn && ph == 0 ==> path_state(stack@, operator_stack@, names, k, expect_value),
                di && ph == 2 ==> expect_value && self.rest() == old(self).rest().skip(2 * nn + 2 * m0 + 4 as int) && stack@
                    == dotted_postfix(names) + seq![e0] && operator_stack@ == seq![PinPending::Op(PinExprOpType::Index)],
                forall|i: int| 0 <= i < stack@.len() ==> pin_item_placed(#[trigger] stack@[i]),
                forall|i: int| 0 <= i < operator_stack@.len() ==> pin_pending_placed(#[trigger] operator_stack@[i]),
            ensures
                old(self).steps_to(*self),
                old(self).rest().len() > 0 && old(self).rest()[0].token is Ident ==> self.rest().len() < start_len,
                dp ==> dotted_path(old(self).rest(), n0),
                forall|n: nat| #[trigger] dotted_path(old(self).rest(), n) ==> dp && n == n0,
                di ==> dotted_index(old(self).rest(), n1, m0) && !dp,
                forall|n: nat, m: nat| #[trigger] dotted_index(old(self).rest(), n, m) ==> di && n == n1 && m == m0,
                nn == (if dp {
                    n0
                } else {
                    n1
                }),
                names == path_names(old(self).rest(), nn + 1),
                e0 == PinItem::ConstExpr(prec_tree(old(self).rest().skip(2 * nn + 2 as int), 0, m0 as int)),
                dp ==> !expect_value && k == n0 + 1 && self.rest() == old(self).rest().skip((2 * n0 + 1) as int)
                    && path_state(stack@, operator_stack@, names, k, expect_value),
                di ==> self.rest() == old(self).rest().skip(2 * nn + 2 * m0 + 4 as int) && stack@ == dotted_postfix(names) + seq![e0]
                    && operator_stack@ == seq![PinPending::Op(PinExprOpType::Index)],
                forall|i: int| 0 <= i < stack@.len() ==> pin_item_placed(#[trigger] stack@[i]),
                forall|i: int| 0 <= i < operator_stack@.len() ==> pin_pending_placed(#[trigger] operator_stack@[i]),
            decreases self.rest().len(),
        {
            proof {
                if dn && ph == 0 && expect_value {
                    assert(self.rest()[0] == name_at(old(self).rest(), k));
                }
                if dn && ph == 0 && !expect_value {
                    assert(self.rest()[0] == sep_at(old(self).rest(), k - 1));
                }
                if di && ph == 2 {
                    assert(self.rest()[0] == old(self).rest()[2 * nn + 2 * m0 + 4 as int]);
                }
            }
            let tk = self.peek_next_token()?;
            let ghost before = *self;
            let ghost ev0 = expect_value;
            let starts_value = match tk.token {
                TokenType::Ident(_) | TokenType::Punctuation(PunctuationType::LParen) => true,
                _ => false,
            };
            if starts_value && !expect_value {
                let d = self.expected_error_string(text("<operator>"), &tk);
                self.add_error(d);
                return Err(ParseFailKind::Recover);
            }
            match tk.token {
                TokenType::Ident(_) => {
                    let t = self.consume_token();
                    proof {
                        Self::lemma_steps_trans(*old(self), before, *self);
                    }
                    let t = t?;
                    stack.push(PinItem::Value(NodeBuilder::identifier_from_token(t)));
                    expect_value = false;
                    proof {
                        if dn && ph == 0 {
                            assert(names[k] == name_at(old(self).rest(), k));
                            assert(self.rest() =~= old(self).rest().skip(2 * (k + 1) - 1));
                            k = k + 1;
                            if k >= 2 {
                                assert(stack@ =~= dotted_postfix(names.take(k - 1)).push(PinItem::Value(ident_node(names[k - 1]))));
                            } else {
                                assert(stack@ =~= seq![PinItem::Value(ident_node(names[0]))]);
                            }
                        }
                    }
                },
                TokenType::Punctuation(PunctuationType::LParen) => {
                    let t = self.consume_token();
                    proof {
                        Self::lemma_steps_trans(*old(self), before, *self);
                    }
                    let _ = t?;
                    operator_stack.push(PinPending::LParen(tk.pos));
                },
                TokenType::Punctuation(PunctuationType::Semicolon) => {
                    break;
                },
                _ => {
                    let op = match PinExprOpType::try_from_token(&tk.token) {
                        Some(op) => op,
                        None => {
                            break;
                        },
                    };
                    let t = self.consume_token();
                    proof {
                        Self::lemma_steps_trans(*old(self), before, *self);
                    }
                    let _ = t?;
                    let ghost dot = dn && ph == 0 && !ev0;
                    proof {
                        if dot {
                            if k - 1 < nn {
                                assert(op == PinExprOpType::GetChild);
                            } else {
                                assert(!dp);
                                assert(sep_at(old(self).rest(), nn as int).token == TokenType::Punctuation(PunctuationType::LSquare));
                                assert(op == PinExprOpType::Index);
                            }
                            if k == 1 {
                                assert(stack@ =~= dotted_postfix(names.take(1)));
                            }
                        }
                    }
                    loop
                        invariant
                            forall|i: int| 0 <= i < stack@.len() ==> pin_item_placed(#[trigger] stack@[i]),
                            forall|i: int| 0 <= i < operator_stack@.len() ==> pin_pending_placed(#[trigger] operator_stack@[i]),
                            dot ==> names.len() == nn + 1 && 1 <= k <= nn + 1,
                            dot ==> (op == PinExprOpType::GetChild && k <= nn) || (di && op == PinExprOpType::Index && k == nn + 1),
                            dot ==> (operator_stack@.len() == 0 && stack@ == dotted_postfix(names.take(k))) || (k >= 2
                                && operator_stack@ == seq![PinPending::Op(PinExprOpType::GetChild)] && stack@
                                == dotted_postfix(names.take(k - 1)).push(PinItem::Value(ident_node(names[k - 1])))),
                        ensures
                            forall|i: int| 0 <= i < stack@.len() ==> pin_item_placed(#[trigger] stack@[i]),
                            forall|i: int| 0 <= i < operator_stack@.len() ==> pin_pending_placed(#[trigger] operator_stack@[i]),
                            dot ==> operator_stack@.len() == 0 && stack@ == dotted_postfix(names.take(k)),
                            dot ==> names.len() == nn + 1 && 1 <= k <= nn + 1,
                            dot ==> (op == PinExprOpType::GetChild && k <= nn) || (di && op == PinExprOpType::Index && k == nn + 1),
                        decreases operator_stack@.len(),
                    {
                        let n = operator_stack.len();
                        if n == 0 {
                            break;
                        }
                        match operator_stack[n - 1] {
                            PinPending::Op(top_op) => {
                                if top_op.higher_precedence(&op) || (op.associativity() == Associativity::Left && op.precedence()
                                    == top_op.precedence()) {
                                    match operator_stack.pop() {
                                        Some(PinPending::Op(top)) => stack.push(PinItem::Operator(top)),
                                        _ => {},
                                    }
                                    proof {
                                        if dot {
                                            let tk_ = names.take(k);
                                            assert(tk_.drop_last() =~= names.take(k - 1));
                                            assert(tk_.last() == names[k - 1]);
                                            assert(stack@ =~= dotted_postfix(names.take(k)));
                                        }
                                    }
                                } else {
                                    break;
                                }
                            },
                            _ => {
                                break;
                            },
                        }
                    }
                    if op == PinExprOpType::Index {
                        let ghost s0 = *self;
                        self.push_sentinels(layer(&[TokenType::Punctuation(PunctuationType::RSquare)]));
                        let ghost s1 = *self;
                        let inner = self.parse_index_range();
                        let ghost s2 = *self;
                        let range = self.recover_end(inner, false, true);
                        proof {
                            Self::lemma_steps_trans(s0, s1, s2);
                            Self::lemma_steps_trans(s0, s2, *self);
                            assert(self.chain() =~= s0.chain());
                            Self::lemma_steps_trans(*old(self), s0, *self);
                        }
                        proof {
                            if dot && op == PinExprOpType::Index {
                                assert(s0.rest() =~= old(self).rest().skip(2 * nn + 2 as int));
                                assert(int_expr(s1.rest(), m0));
                                assert(s2.rest() == s1.rest().skip(2 * m0 + 1 as int));
                                assert(s2.rest()[0] == sep_at(s1.rest(), m0 as int));
                                lemma_kind_in_one(s2.rest()[0].token, TokenType::Punctuation(PunctuationType::RSquare));
                                assert(s2.chain().last()@ =~= layer_of(TokenType::Punctuation(PunctuationType::RSquare)));
                                s2.lemma_in_top(s2.rest()[0].token);
                            }
                        }
                        let range = range?;
                        match range {
                            Some(n) => stack.push(PinItem::ConstExpr(n)),
                            None => {
                                return Err(ParseFailKind::Recover);
                            },
                        }
                        let ghost s3 = *self;
                        let closing = self.expect_token_is(TokenType::Punctuation(PunctuationType::RSquare));
                        proof {
                            Self::lemma_steps_trans(*old(self), s3, *self);
                        }
                        let _ = closing?;
                    }
                    operator_stack.push(PinPending::Op(op));
                    expect_value = true;
                    proof {
                        if dot && op == PinExprOpType::GetChild {
                            assert(self.rest() =~= old(self).rest().skip(2 * k));
                            assert(operator_stack@ =~= seq![PinPending::Op(PinExprOpType::GetChild)]);
                        }
                        if dot && op == PinExprOpType::Index {
                            ph = 2;
                            assert(self.rest() =~= old(self).rest().skip(2 * nn + 2 * m0 + 4 as int));
                            assert(names.take(k) =~= names);
                            assert(stack@ =~= dotted_postfix(names) + seq![e0]);
                            assert(operator_stack@ =~= seq![PinPending::Op(PinExprOpType::Index)]);
                        }
                    }
                },
            }
        }
        let ghost scanned = *self;
        proof {
            if dp && n0 == 0 {
                assert(stack@ =~= dotted_postfix(names));
            }
        }
        loop
            invariant
                old(self).steps_to(*self),
                self.rest() == scanned.rest(),
                forall|i: int| 0 <= i < stack@.len() ==> pin_item_placed(#[trigger] stack@[i]),
                forall|i: int| 0 <= i < operator_stack@.len() ==> pin_pending_placed(#[trigger] operator_stack@[i]),
                dp ==> names.len() == n0 + 1,
                forall|n: nat| #[trigger] dotted_path(old(self).rest(), n) ==> dp && n == n0,
                forall|n: nat, m: nat| #[trigger] dotted_index(old(self).rest(), n, m) ==> di && n == n1 && m == m0,
                di ==> dotted_index(old(self).rest(), n1, m0) && !dp,
                nn == (if dp {
                    n0
                } else {
                    n1
                }),
                names == path_names(old(self).rest(), nn + 1),
                e0 == PinItem::ConstExpr(prec_tree(old(self).rest().skip(2 * nn + 2 as int), 0, m0 as int)),
                dp ==> (operator_stack@.len() == 0 && stack@ == dotted_postfix(names)) || (n0 >= 1
                    && operator_stack@ == seq![PinPending::Op(PinExprOpType::GetChild)] && stack@ == dotted_postfix(
                    names.take(n0 as int),
                ).push(PinItem::Value(ident_node(names[n0 as int])))),
                di ==> (operator_stack@ == seq![PinPending::Op(PinExprOpType::Index)] && stack@ == dotted_postfix(names) + seq![e0])
                    || (operator_stack@.len() == 0 && stack@ == dotted_postfix(names) + seq![e0, PinItem::Operator(PinExprOpType::Index)]),
            ensures
                di ==> stack@ == dotted_postfix(names) + seq![e0, PinItem::Operator(PinExprOpType::Index)],
                forall|n: nat, m: nat| #[trigger] dotted_index(old(self).rest(), n, m) ==> di && n == n1 && m == m0,
                di ==> dotted_index(old(self).rest(), n1, m0) && !dp,
                nn == (if dp {
                    n0
                } else {
                    n1
                }),
                names == path_names(old(self).rest(), nn + 1),
                e0 == PinItem::ConstExpr(prec_tree(old(self).rest().skip(2 * nn + 2 as int), 0, m0 as int)),
                old(self).steps_to(*self),
                self.rest() == scanned.rest(),
                forall|i: int| 0 <= i < stack@.len() ==> pin_item_placed(#[trigger] stack@[i]),
                dp ==> stack@ == dotted_postfix(names),
            decreases operator_stack@.len(),
        {
            match operator_stack.pop() {
                Some(PinPending::Op(op)) => {
                    stack.push(PinItem::Operator(op));
                    proof {
                        if di {
                            assert(stack@ =~= dotted_postfix(names) + seq![e0, PinItem::Operator(PinExprOpType::Index)]);
                        }
                        if dp {
                            assert(names.take((n0 + 1) as int) =~= names);
                            assert(names.drop_last() =~= names.take(n0 as int));
                            assert(stack@ =~= dotted_postfix(names));
                        }
                    }
                },
                Some(PinPending::LParen(pos)) => {
                    let ghost mid = *self;
                    let d = self.expr_error(ExprErrorKind::UnmatchedOpeningParenthesis, pos);
                    self.add_error(d);
                    proof {
                        Self::lemma_steps_trans(*old(self), mid, *self);
                    }
                },
                None => {
                    break;
                },
            }
        }
        if stack.len() == 0 {
            let tk = self.peek_next_token()?;
            let ghost mid = *self;
            let d = self.expected_error_string(text("<expr>"), &tk);
            self.add_error(d);
            proof {
                Self::lemma_steps_trans(*old(self), mid, *self);
            }
            return Err(ParseFailKind::Recover);
        }
        let ghost mid = *self;
        let ghost pre_build = stack@;
        proof {
            if dp {
                assert(pre_build == dotted_postfix(names));
                assert(names.len() >= 1);
            }
        }
        let node = self.build_pinexpr(&mut stack);
        proof {
            Self::lemma_steps_trans(*old(self), mid, *self);
            if di {
                assert(pre_build =~= index_postfix(names, e0->ConstExpr_0, PinExprOpType::Index));
                assert(names.len() >= 1);
                assert(node == Ok::<Node, ParseFailKind>(dotted_index_tree(old(self).rest(), n1, m0)));
            }
            if dp {
                assert(node == Ok::<Node, ParseFailKind>(dotted(names)));
                assert(self.rest() == old(self).rest().skip((2 * n0 + 1) as int));
            }
        }
        node
    }

    /// Turns the postfix sequence into a tree, reading it from the end; each
    /// operator takes its right operand first.
    fn build_pinexpr(&mut self, stack: &mut Vec<PinItem>) -> (r: AlwaysResult<Node>)
        requires
            old(self).wf(),
            forall|i: int| 0 <= i < old(stack)@.len() ==> pin_item_placed(#[trigger] old(stack)@[i]),
        ensures
            old(self).explains(*final(self), r),
            old(self).steps_to(*final(self)),
            final(self).rest() == old(self).rest(),
            final(self).fails_at_eof(r),
            final(stack)@.len() <= old(stack)@.len(),
            forall|i: int| 0 <= i < final(stack)@.len() ==> pin_item_placed(#[trigger] final(stack)@[i]),
            r matches Ok(n) ==> n.pos is Pos,
            old(stack)@.len() > 0 && old(stack)@.last() is Value ==> r == Ok::<Node, ParseFailKind>(
                old(stack)@.last()->Value_0,
            ) && final(stack)@ == old(stack)@.drop_last() && *final(self) == *old(self),
            old(stack)@.len() > 0 && old(stack)@.last() is ConstExpr ==> r == Ok::<Node, ParseFailKind>(
                old(stack)@.last()->ConstExpr_0,
            ) && final(stack)@ == old(stack)@.drop_last() && *final(self) == *old(self),
            forall|names: Seq<Token>, e: Node, op: PinExprOpType| names.len() >= 1 && old(stack)@ == #[trigger] index_postfix(names, e, op)
                ==> r == Ok::<Node, ParseFailKind>(pin_pair(dotted(names), op, e)),
            forall|names: Seq<Token>| names.len() >= 1 && old(stack)@ == #[trigger] dotted_postfix(names) ==> r
                == Ok::<Node, ParseFailKind>(dotted(names)) && final(stack)@.len() == 0,
        decreases old(stack)@.len(),
    {
        proof {
            old(self).lemma_steps_refl();
        }
        let ghost st0 = stack@;
        match stack.pop() {
            Some(PinItem::Operator(op)) => {
                let ghost s0 = *self;
                let ghost st1 = stack@;
                let rhs = self.build_pinexpr(stack)?;
                let ghost s1 = *self;
                let ghost st2 = stack@;
                let lhs = self.build_pinexpr(stack);
                proof {
                    Self::lemma_steps_trans(s0, s1, *self);
                    assert forall|names: Seq<Token>| names.len() >= 1 && st0 == #[trigger] dotted_postfix(names) implies lhs
                        is Ok by {
                        if names.len() <= 1 {
                            assert(st0.last() is Value);
                        } else {
                            let front = names.drop_last();
                            assert(st1 =~= dotted_postfix(front).push(PinItem::Value(ident_node(names.last()))));
                            assert(st2 =~= dotted_postfix(front));
                            if front.len() <= 1 {
                                assert(st2.last() is Value);
                            }
                        }
                    }
                }
                proof {
                    assert forall|names: Seq<Token>, e: Node, op2: PinExprOpType| names.len() >= 1 && st0 == #[trigger] index_postfix(
                        names,
                        e,
                        op2,
                    ) implies lhs == Ok::<Node, ParseFailKind>(dotted(names)) && rhs == e && op == op2 by {
                        assert(st0 =~= dotted_postfix(names) + seq![PinItem::ConstExpr(e), PinItem::Operator(op2)]);
                        assert(st1 =~= dotted_postfix(names) + seq![PinItem::ConstExpr(e)]);
                        assert(st1.last() == PinItem::ConstExpr(e));
                        assert(st2 =~= dotted_postfix(names));
                    }
                }
                let lhs = lhs?;
                let end_pos = rhs.pos;
                let res = NodeBuilder::new(lhs.pos).pin_expr(Some(lhs), op, rhs).finish(end_pos);
                proof {
                    assert forall|names: Seq<Token>| names.len() >= 1 && st0 == #[trigger] dotted_postfix(names) implies res
                        == dotted(names) && stack@.len() == 0 by {
                        if names.len() <= 1 {
                            assert(st0.last() is Value);
                        } else {
                            let front = names.drop_last();
                            assert(st1 =~= dotted_postfix(front).push(PinItem::Value(ident_node(names.last()))));
                            assert(st2 =~= dotted_postfix(front));
                            if front.len() <= 1 {
                                assert(st2.last() is Value);
                            }
                        }
                    }
                }
                proof {
                    assert forall|names: Seq<Token>, e: Node, op2: PinExprOpType| names.len() >= 1 && st0 == #[trigger] index_postfix(
                        names,
                        e,
                        op2,
                    ) implies res == pin_pair(dotted(names), op2, e) by {
                    }
                }
                Ok(res)
            },
            Some(PinItem::Value(node)) => Ok(node),
            Some(PinItem::ConstExpr(node)) => Ok(node),
            None => {
                let tk = self.peek_next_token()?;
                let d = self.expected_error_string(text("<expr>"), &tk);
                self.add_error(d);
                Err(ParseFailKind::Recover)
            },
        }
    }
}

/// An entry of the postfix sequence the pin-expression scan produces.
enum PinItem {
    Value(Node),
    ConstExpr(Node),
    Operator(PinExprOpType),
}

/// An entry of the pin-expression scan's stack of pending operators.
enum PinPending {
    LParen(Pos),
    Op(PinExprOpType),
}

/// The operands and operators of `dotted(names)` in postfix order.
spec fn dotted_postfix(names: Seq<Token>) -> Seq<PinItem>
    decreases names.len(),
{
    if names.len() <= 1 {
        seq![PinItem::Value(ident_node(names[0]))]
    } else {
        dotted_postfix(names.drop_last()) + seq![PinItem::Value(ident_node(names.last())), PinItem::Operator(PinExprOpType::GetChild)]
    }
}

/// The postfix sequence of `names` joined by `.`, then an operand and `op`.
spec fn index_postfix(names: Seq<Token>, e: Node, op: PinExprOpType) -> Seq<PinItem> {
    dotted_postfix(names) + seq![PinItem::ConstExpr(e), PinItem::Operator(op)]
}

/// The pin-expression scan's stacks once it has read the first `k` names of
/// a dotted path, and the `.` after the last of them when it expects a value.
spec fn path_state(stack: Seq<PinItem>, ops: Seq<PinPending>, names: Seq<Token>, k: int, expect_value: bool) -> bool {
    if expect_value {
        if k == 0 {
            stack.len() == 0 && ops.len() == 0
        } else {
            stack == dotted_postfix(names.take(k)) && ops == seq![PinPending::Op(PinExprOpType::GetChild)]
        }
    } else {
        if k == 1 {
            stack == seq![PinItem::Value(ident_node(names[0]))] && ops.len() == 0
        } else {
            stack == dotted_postfix(names.take(k - 1)).push(PinItem::Value(ident_node(names[k - 1])))
                && ops == seq![PinPending::Op(PinExprOpType::GetChild)]
        }
    }
}

/// A dotted path has one length: the token after its last name ends it, and
/// no `.` does.
proof fn lemma_dotted_path_unique(ts: Seq<Token>, n1: nat, n2: nat)
    requires
        dotted_path(ts, n1),
        dotted_path(ts, n2),
    ensures
        n1 == n2,
{
    if n1 < n2 {
        assert(sep_at(ts, n1 as int).token == TokenType::Punctuation(PunctuationType::Period));
    } else if n2 < n1 {
        assert(sep_at(ts, n2 as int).token == TokenType::Punctuation(PunctuationType::Period));
    }
}

spec fn pin_item_placed(i: PinItem) -> bool {
    match i {
        PinItem::Value(n) => n.pos is Pos,
        PinItem::ConstExpr(n) => n.pos is Pos,
        PinItem::Operator(_) => true,
    }
}

spec fn pin_pending_placed(o: PinPending) -> bool {
    match o {
        PinPending::LParen(p) => p is Pos,
        PinPending::Op(_) => true,
    }
}

impl<'a> Parser<'a> {
    // -----------------------------------------------------------------------
    // Declarations
    // -----------------------------------------------------------------------

    /// An identifier, or an error and a request to recover.
    fn expect_ident(&mut self) -> (r: AlwaysResult<Option<Token>>)
        requires
            old(self).wf(),
        ensures
            old(self).explains(*final(self), r),
            old(self).steps_to(*final(self)),
            final(self).fails_at_eof(r),
            !(r matches Ok(None)),
            r matches Ok(Some(t)) ==> t.token is Ident && t.pos is Pos && t.pos.end_fits() && t == old(self).rest()[0]
                && final(self).rest() == old(self).rest().drop_first() && final(self).last_token_pos == t.pos,
    {
        let t = self.expect_token_is(TokenType::Ident(0))?;
        Ok(Some(t))
    }

    /// The type and name of a circuit argument.
    fn circ_arg_head(&mut self) -> (r: AlwaysResult<Option<(Node, Node)>>)
        requires
            old(self).wf(),
        ensures
            old(self).explains(*final(self), r),
            old(self).steps_to(*final(self)),
            final(self).fails_at_eof(r),
            !(r matches Ok(None)),
            r matches Ok(Some(x)) ==> x.0.pos is Pos && x.1.pos is Pos,
    {
        let ty = self.parse_path()?;
        let ghost mid = *self;
        let name = self.expect_token_is(TokenType::Ident(0));
        proof {
            Self::lemma_steps_trans(*old(self), mid, *self);
        }
        let name = NodeBuilder::identifier_from_token(name?);
        Ok(Some((ty, name)))
    }

    fn parse_circ_arg(&mut self) -> (r: ParseResult<Node>)
        requires
            old(self).wf(),
        ensures
            old(self).explains(*final(self), r),
            old(self).steps_to(*final(self)),
            final(self).fails_at_eof(r),
            r matches Ok(Some(n)) ==> n.pos is Pos && n.node_type is CircArg,
    {
        let ghost s0 = *self;
        self.push_sentinels(layer(&[TokenType::Punctuation(PunctuationType::Equal)]));
        let ghost s1 = *self;
        let inner = self.circ_arg_head();
        let ghost s2 = *self;
        let result = self.recover_end(inner, false, true);
        proof {
            Self::lemma_guard(s0, s1, s2, *self);
        }
        let result = result?;
        let ghost s3 = *self;
        let tk = self.peek_next_token()?;
        let default = if tk.token.is(&TokenType::Punctuation(PunctuationType::Equal)) {
            let _ = self.consume_token();
            let ghost s4 = *self;
            let value = self.parse_constexpr();
            proof {
                Self::lemma_steps_trans(s3, s4, *self);
                Self::lemma_steps_trans(*old(self), s3, *self);
            }
            Some(value?)
        } else {
            None
        };
        let (ty, name) = match result {
            Some(x) => x,
            None => return Ok(None),
        };
        let node = NodeBuilder::new(ty.pos);
        let end_pos = match &default {
            Some(d) => d.pos,
            None => name.pos,
        };
        Ok(Some(node.circ_arg(ty, name, default).finish(end_pos)))
    }

    /// The type and name of a constant, up to the `=`.
    fn const_head(&mut self) -> (r: AlwaysResult<Option<(Node, Node)>>)
        requires
            old(self).wf(),
        ensures
            old(self).explains(*final(self), r),
            old(self).steps_to(*final(self)),
            final(self).fails_at_eof(r),
            !(r matches Ok(None)),
            r matches Ok(Some(x)) ==> x.0.pos is Pos && x.1.pos is Pos
                && final(self).next_is(TokenType::Punctuation(PunctuationType::Equal)),
    {
        let ty = self.parse_path()?;
        let ghost s1 = *self;
        let name = self.expect_token_is(TokenType::Ident(0));
        proof {
            Self::lemma_steps_trans(*old(self), s1, *self);
        }
        let name = NodeBuilder::identifier_from_token(name?);
        let ghost s2 = *self;
        let e = self.expect_next_token_is(TokenType::Punctuation(PunctuationType::Equal));
        proof {
            Self::lemma_steps_trans(*old(self), s2, *self);
        }
        let _ = e?;
        Ok(Some((ty, name)))
    }

    /// A constant after its keyword, up to the `;`.
    fn const_body(&mut self, start_token: Token) -> (r: AlwaysResult<Option<(Token, Option<(Node, Node)>, Node)>>)
        requires
            old(self).wf(),
        ensures
            old(self).explains(*final(self), r),
            old(self).steps_to(*final(self)),
            final(self).fails_at_eof(r),
            !(r matches Ok(None)),
            r matches Ok(Some(x)) && x.1 is None ==> old(self).reported_since(*final(self)),
            r matches Ok(Some(x)) ==> x.0 == start_token && x.2.pos is Pos
                && (x.1 matches Some(h) ==> h.0.pos is Pos && h.1.pos is Pos)
                && final(self).next_is(TokenType::Punctuation(PunctuationType::Semicolon)),
    {
        let ghost s0 = *self;
        self.push_sentinels(layer(&[TokenType::Punctuation(PunctuationType::Equal)]));
        let ghost s1 = *self;
        let inner = self.const_head();
        let ghost s2 = *self;
        let result = self.recover_end(inner, false, true);
        proof {
            Self::lemma_guard(s0, s1, s2, *self);
            assert(layer_of(TokenType::Punctuation(PunctuationType::Equal)) =~= s1.chain().last()@);
            if result matches Ok(None) {
                assert(s1.reported_since(s2));
            }
        }
        let result = result?;
        let ghost s3 = *self;
        proof {
            lemma_kind_in_one(self.rest()[0].token, TokenType::Punctuation(PunctuationType::Equal));
        }
        self.assert_token_is(TokenType::Punctuation(PunctuationType::Equal));
        let ghost s4 = *self;
        let value = self.parse_constexpr();
        proof {
            Self::lemma_steps_trans(s3, s4, *self);
            Self::lemma_steps_trans(*old(self), s3, *self);
        }
        let value = value?;
        let ghost s5 = *self;
        let e = self.expect_next_token_is(TokenType::Punctuation(PunctuationType::Semicolon));
        proof {
            Self::lemma_steps_trans(*old(self), s5, *self);
        }
        let _ = e?;
        Ok(Some((start_token, result, value)))
    }
}

/// The one-kind layer as a sequence.
pub open spec fn layer_of(t: TokenType) -> Seq<TokenType> {
    seq![t]
}

proof fn lemma_kind_in_one(t: TokenType, u: TokenType)
    ensures
        kind_in(t, seq![u]) <==> t.same_kind(u),
{
    if t.same_kind(u) {
        assert(seq![u][0] == u);
    }
}

/// A layer of recovery tokens holding exactly the given kinds.
fn layer(tts: &[TokenType]) -> (v: Vec<TokenType>)
    ensures
        v@ == tts@,
{
    let mut v: Vec<TokenType> = Vec::new();
    let mut i: usize = 0;
    while i < tts.len()
        invariant
            i <= tts.len(),
            v@ == tts@.take(i as int),
        decreases tts.len() - i,
    {
        v.push(tts[i]);
        proof {
            assert(tts@.take(i + 1) =~= tts@.take(i as int).push(tts@[i as int]));
        }
        i = i + 1;
    }
    proof {
        assert(tts@.take(tts@.len() as int) =~= tts@);
    }
    v
}

/// An entry of the postfix sequence the constant-expression scan produces.
enum ConstItem {
    Operator(ConstExprOpType, Pos),
    Value(Node),
}

/// The operands and operators of `prec_tree(ts, a, b)` in postfix order.
spec fn tree_postfix(ts: Seq<Token>, a: int, b: int) -> Seq<ConstItem>
    decreases b - a,
{
    if b <= a {
        seq![ConstItem::Value(int_node(name_at(ts, a)))]
    } else {
        let j = split_at(ts, a, b);
        tree_postfix(ts, a, j) + tree_postfix(ts, j + 1, b) + seq![ConstItem::Operator(chain_op(sep_at(ts, j).token), sep_at(ts, j).pos)]
    }
}

/// Where the operands after the pending operators `pend` begin.
spec fn seg_start(pend: Seq<int>) -> int {
    if pend.len() == 0 {
        0
    } else {
        pend.last() + 1
    }
}

/// The postfix trees of the operands before each pending operator.
spec fn spine(ts: Seq<Token>, pend: Seq<int>) -> Seq<ConstItem>
    decreases pend.len(),
{
    if pend.len() == 0 {
        Seq::empty()
    } else {
        spine(ts, pend.drop_last()) + tree_postfix(ts, seg_start(pend.drop_last()), pend.last())
    }
}

/// The pending operators `pend` as the scan stacks them.
spec fn pending_of(ts: Seq<Token>, pend: Seq<int>) -> Seq<ConstPending> {
    pend.map_values(|j: int| ConstPending::Op(chain_op(sep_at(ts, j).token), sep_at(ts, j).pos))
}

/// Pending operators come in order, each binding more tightly than the one
/// before it and no more tightly than any operator of the operands it closes.
spec fn pending_ok(ts: Seq<Token>, pend: Seq<int>, c: int) -> bool {
    &&& forall|i: int| 0 <= i < pend.len() ==> 0 <= #[trigger] pend[i] < c
    &&& forall|i: int, k: int| 0 <= i < k < pend.len() ==> #[trigger] pend[i] < #[trigger] pend[k] && op_prec(ts, pend[i]) < op_prec(ts, pend[k])
    &&& forall|i: int, t: int| 0 <= i < pend.len() && seg_start(pend.take(i)) <= t < pend[i] ==> op_prec(ts, t) >= op_prec(ts, #[trigger] pend[i]) && #[trigger] sep_at(ts, t) == sep_at(ts, t)
}

/// Pushing operator `c`, which binds more tightly than the pending ones and
/// no more tightly than any operator of the operands it closes, keeps the
/// pending operators in order.
proof fn lemma_pending_push(ts: Seq<Token>, pend: Seq<int>, c: int)
    requires
        pending_ok(ts, pend, c),
        seg_start(pend) <= c,
        forall|t: int| seg_start(pend) <= t < c ==> #[trigger] op_prec(ts, t) >= op_prec(ts, c),
        pend.len() > 0 ==> op_prec(ts, pend.last()) < op_prec(ts, c),
    ensures
        pending_ok(ts, pend.push(c), c + 1),
{
    let np = pend.push(c);
    assert forall|i: int| 0 <= i < np.len() implies 0 <= #[trigger] np[i] < c + 1 by {
        if i < pend.len() {
            assert(np[i] == pend[i]);
        }
    }
    assert forall|i: int, m: int| 0 <= i < m < np.len() implies #[trigger] np[i] < #[trigger] np[m]
        && op_prec(ts, np[i]) < op_prec(ts, np[m]) by {
        assert(np[i] == pend[i]);
        if m == np.len() - 1 {
            if i < pend.len() - 1 {
                assert(pend[i] < pend[pend.len() - 1]);
            }
        } else {
            assert(np[m] == pend[m]);
        }
    }
    assert forall|i: int, t: int| 0 <= i < np.len() && seg_start(np.take(i)) <= t < np[i] implies op_prec(ts, t) >= op_prec(ts, #[trigger] np[i]) && #[trigger] sep_at(ts, t) == sep_at(ts, t) by {
        if i < pend.len() {
            assert(np.take(i) =~= pend.take(i));
            assert(np[i] == pend[i]);
        } else {
            assert(np.take(i) =~= pend);
        }
    }
}

/// `stack` ends with the postfix tree of operands `a` to `b`, whose
/// operators are all binary.
spec fn ends_with_tree(stack: Seq<ConstItem>, ts: Seq<Token>, a: int, b: int) -> bool {
    &&& a <= b
    &&& forall|t: int| a <= t < b ==> is_binary_op(#[trigger] sep_at(ts, t).token)
    &&& tree_postfix(ts, a, b).len() <= stack.len()
    &&& stack.skip(stack.len() - tree_postfix(ts, a, b).len()) == tree_postfix(ts, a, b)
}

/// A postfix tree is not empty, and ends with its root: the literal itself,
/// or the operator it splits at.
proof fn lemma_tree_postfix_last(ts: Seq<Token>, a: int, b: int)
    ensures
        tree_postfix(ts, a, b).len() >= 1,
        b <= a ==> tree_postfix(ts, a, b).last() == ConstItem::Value(int_node(name_at(ts, a))),
        a < b ==> tree_postfix(ts, a, b).last() == ConstItem::Operator(
            chain_op(sep_at(ts, split_at(ts, a, b)).token),
            sep_at(ts, split_at(ts, a, b)).pos,
        ),
{
}

/// An indexed dotted path has one length of path and of index.
proof fn lemma_dotted_index_unique(ts: Seq<Token>, n1: nat, m1: nat, n2: nat, m2: nat)
    requires
        dotted_index(ts, n1, m1),
        dotted_index(ts, n2, m2),
    ensures
        n1 == n2 && m1 == m2,
{
    if n1 < n2 {
        assert(sep_at(ts, n1 as int).token == TokenType::Punctuation(PunctuationType::Period));
    } else if n2 < n1 {
        assert(sep_at(ts, n2 as int).token == TokenType::Punctuation(PunctuationType::Period));
    } else {
        lemma_int_expr_unique(ts.skip(2 * n1 + 2 as int), m1, m2);
    }
}

/// A token stream does not begin both with a dotted path and with an indexed one.
proof fn lemma_path_not_index(ts: Seq<Token>, n1: nat, n2: nat, m: nat)
    requires
        dotted_path(ts, n1),
    ensures
        !dotted_index(ts, n2, m),
{
    if !dotted_index(ts, n2, m) {
    } else if n1 < n2 {
        assert(sep_at(ts, n1 as int).token == TokenType::Punctuation(PunctuationType::Period));
    } else if n2 < n1 {
        assert(sep_at(ts, n2 as int).token == TokenType::Punctuation(PunctuationType::Period));
    } else {
        assert(pin_stop(sep_at(ts, n1 as int).token));
    }
}

/// An integer expression has one length: the token after its last literal
/// ends it, and no operator does.
proof fn lemma_int_expr_unique(ts: Seq<Token>, n1: nat, n2: nat)
    requires
        int_expr(ts, n1),
        int_expr(ts, n2),
    ensures
        n1 == n2,
{
    if n1 < n2 {
        assert(is_binary_op(sep_at(ts, n1 as int).token));
    } else if n2 < n1 {
        assert(is_binary_op(sep_at(ts, n2 as int).token));
    }
}

/// `min_last` lies in range and binds no more tightly than any operator there.
proof fn lemma_min_last(ts: Seq<Token>, a: int, b: int)
    requires
        a < b,
    ensures
        a <= min_last(ts, a, b) < b,
        forall|t: int| a <= t < b ==> op_prec(ts, min_last(ts, a, b)) <= #[trigger] op_prec(ts, t),
    decreases b - a,
{
    if b > a + 1 {
        lemma_min_last(ts, a, b - 1);
    }
}

/// Every operator after the last loosest one binds more tightly than it.
proof fn lemma_min_last_after(ts: Seq<Token>, a: int, b: int)
    requires
        a < b,
    ensures
        forall|t: int| min_last(ts, a, b) < t < b ==> #[trigger] op_prec(ts, t) > op_prec(ts, min_last(ts, a, b)),
    decreases b - a,
{
    if b > a + 1 {
        lemma_min_last_after(ts, a, b - 1);
    }
}

/// An expression of operands `a` to `b` splits at its last loosest
/// operator: none binds more loosely, and those after it bind more tightly,
/// so equally tight operators group from the left and tighter ones first.
pub proof fn lemma_split_point(ts: Seq<Token>, a: int, b: int)
    requires
        a < b,
    ensures
        a <= split_at(ts, a, b) < b,
        forall|t: int| a <= t < b ==> op_prec(ts, split_at(ts, a, b)) <= #[trigger] op_prec(ts, t),
        forall|t: int| split_at(ts, a, b) < t < b ==> #[trigger] op_prec(ts, t) > op_prec(ts, split_at(ts, a, b)),
{
    lemma_min_last(ts, a, b);
    lemma_min_last_after(ts, a, b);
}

/// An operator that binds no more tightly than those before it and less
/// tightly than those after it is where the operands split.
proof fn lemma_split(ts: Seq<Token>, a: int, j: int, b: int)
    requires
        a <= j < b,
        forall|t: int| a <= t < j ==> #[trigger] op_prec(ts, t) >= op_prec(ts, j),
        forall|t: int| j < t < b ==> #[trigger] op_prec(ts, t) > op_prec(ts, j),
    ensures
        min_last(ts, a, b) == j,
        split_at(ts, a, b) == j,
    decreases b - a,
{
    if b > a + 1 {
        if j < b - 1 {
            lemma_split(ts, a, j, b - 1);
            assert(op_prec(ts, b - 1) > op_prec(ts, j));
        } else {
            lemma_min_last(ts, a, b - 1);
            let m = min_last(ts, a, b - 1);
            assert(op_prec(ts, m) >= op_prec(ts, j));
        }
    }
}

/// An entry of the constant-expression scan's stack of pending operators.
enum ConstPending {
    LParen(Pos),
    Op(ConstExprOpType, Pos),
}

spec fn const_item_placed(i: ConstItem) -> bool {
    match i {
        ConstItem::Operator(_, p) => p is Pos,
        ConstItem::Value(n) => n.pos is Pos,
    }
}

spec fn const_pending_placed(o: ConstPending) -> bool {
    match o {
        ConstPending::LParen(p) => p is Pos,
        ConstPending::Op(_, p) => p is Pos,
    }
}

/// A string holding the text of a literal.
fn text(s: &str) -> (r: String)
    ensures
        r@ == s@,
{
    let mut r = String::new();
    push_str(&mut r, s);
    proof {
        reveal_strlit("");
        assert(r@ =~= s@);
    }
    r
}

/// Identifiers separated by single colons.
pub open spec fn is_path(ts: Seq<Token>) -> bool {
    &&& ts.len() % 2 == 1
    &&& forall|i: int| 0 <= i < ts.len() ==> (if i % 2 == 0 {
        (#[trigger] ts[i]).token is Ident
    } else {
        ts[i].token == TokenType::Punctuation(PunctuationType::Colon)
    })
}

/// The identifier nodes of a path's tokens.
pub open spec fn path_idents(ts: Seq<Token>) -> Seq<Node> {
    Seq::new(((ts.len() + 1) / 2) as nat, |i: int| ident_node(ts[2 * i]))
}


impl<'a> Parser<'a> {
    fn parse_const(&mut self) -> (r: ParseResult<Node>)
        requires
            old(self).wf(),
            old(self).next_is(TokenType::Keyword(KeywordType::Const)),
        ensures
            old(self).explains(*final(self), r),
            r matches Ok(None) ==> old(self).reported_since(*final(self)),
            old(self).steps_to(*final(self)),
            final(self).fails_at_eof(r),
            final(self).rest().len() < old(self).rest().len(),
            r matches Ok(Some(n)) ==> n.pos is Pos && n.node_type is ConstDecl,
    {
        let start_token = self.assert_token_is(TokenType::Keyword(KeywordType::Const));
        let ghost s0 = *self;
        self.push_sentinels(layer(&[TokenType::Punctuation(PunctuationType::Semicolon)]));
        let ghost s1 = *self;
        let inner = self.const_body(start_token);
        let ghost s2 = *self;
        let result = self.recover_end(inner, false, true);
        proof {
            Self::lemma_guard(s0, s1, s2, *self);
            Self::lemma_steps_trans(*old(self), s0, *self);
        }
        let result = result?;
        let (start_token, head, value) = match result {
            Some(x) => x,
            None => return Ok(None),
        };
        let (ty, name) = match head {
            Some(h) => h,
            None => return Ok(None),
        };
        let node = NodeBuilder::new(start_token.pos);
        proof {
            assert(s2.chain().last()@ =~= layer_of(TokenType::Punctuation(PunctuationType::Semicolon)));
            lemma_kind_in_one(s2.rest()[0].token, TokenType::Punctuation(PunctuationType::Semicolon));
            s2.lemma_in_top(s2.rest()[0].token);
        }
        let ghost s3 = *self;
        let end_token = self.assert_token_is(TokenType::Punctuation(PunctuationType::Semicolon));
        proof {
            Self::lemma_steps_trans(*old(self), s3, *self);
        }
        Ok(Some(node.const_decl(ty, name, value).finish(end_token.pos)))
    }

    /// The name of an enum, up to the `{`.
    fn enum_head(&mut self) -> (r: AlwaysResult<Option<Token>>)
        requires
            old(self).wf(),
        ensures
            old(self).explains(*final(self), r),
            old(self).steps_to(*final(self)),
            final(self).fails_at_eof(r),
            !(r matches Ok(None)),
            r matches Ok(Some(t)) ==> t.token is Ident && t.pos is Pos
                && final(self).next_is(TokenType::Punctuation(PunctuationType::LCurly)),
    {
        let name = self.expect_token_is(TokenType::Ident(0))?;
        let ghost s1 = *self;
        let e = self.expect_next_token_is(TokenType::Punctuation(PunctuationType::LCurly));
        proof {
            Self::lemma_steps_trans(*old(self), s1, *self);
        }
        let _ = e?;
        Ok(Some(name))
    }

    /// Reads an enum. A variant that could not be read is followed by the
    /// separator check like any other.
    #[verifier::rlimit(60)]
    fn parse_enum(&mut self) -> (r: ParseResult<Node>)
        requires
            old(self).wf(),
            old(self).next_is(TokenType::Keyword(KeywordType::Enum)),
        ensures
            old(self).explains(*final(self), r),
            r matches Ok(None) ==> old(self).reported_since(*final(self)),
            old(self).steps_to(*final(self)),
            final(self).fails_at_eof(r),
            final(self).rest().len() < old(self).rest().len(),
            r matches Ok(Some(n)) ==> n.pos is Pos && n.node_type is Enum,
    {
        let start_token = self.assert_token_is(TokenType::Keyword(KeywordType::Enum));
        let ghost s0 = *self;
        self.push_sentinels(layer(&[TokenType::Punctuation(PunctuationType::LCurly)]));
        let ghost s1 = *self;
        let inner = self.enum_head();
        let ghost s2 = *self;
        let name = self.recover_end(inner, false, true);
        proof {
            Self::lemma_guard(s0, s1, s2, *self);
            Self::lemma_steps_trans(*old(self), s0, *self);
            assert(layer_of(TokenType::Punctuation(PunctuationType::LCurly)) =~= s1.chain().last()@);
        }
        proof {
            if name matches Ok(None) {
                assert(s1.reported_since(s2));
                Self::lemma_reported_after(s1, s2, *self);
                Self::lemma_reported_before(s0, s1, *self);
                Self::lemma_reported_before(*old(self), s0, *self);
            }
        }
        let name = name?;
        let ghost missing = name is None;
        proof {
            lemma_kind_in_one(self.rest()[0].token, TokenType::Punctuation(PunctuationType::LCurly));
        }
        let ghost s3 = *self;
        self.assert_token_is(TokenType::Punctuation(PunctuationType::LCurly));
        proof {
            Self::lemma_steps_trans(*old(self), s3, *self);
            if missing {
                Self::lemma_reported_after(*old(self), s3, *self);
            }
        }
        let mut variants: Vec<Node> = Vec::new();
        loop
            invariant
                old(self).steps_to(*self),
                self.rest().len() < old(self).rest().len(),
                forall|i: int| 0 <= i < variants@.len() ==> (#[trigger] variants@[i]).pos is Pos,
                missing ==> old(self).reported_since(*self),
            ensures
                missing ==> old(self).reported_since(*self),
                old(self).steps_to(*self),
                self.rest().len() < old(self).rest().len(),
                self.next_is(TokenType::Punctuation(PunctuationType::RCurly)),
                forall|i: int| 0 <= i < variants@.len() ==> (#[trigger] variants@[i]).pos is Pos,
            decreases self.rest().len(),
        {
            let ghost it = *self;
            let tk = self.peek_next_token()?;
            if tk.token.is(&TokenType::Punctuation(PunctuationType::RCurly)) {
                break;
            }
            self.push_sentinels(layer(&[TokenType::Punctuation(PunctuationType::Comma), TokenType::Punctuation(PunctuationType::RCurly)]));
            let ghost t1 = *self;
            let inner = self.expect_ident();
            let ghost t2 = *self;
            let variant = self.recover_end(inner, false, true);
            proof {
                Self::lemma_guard(it, t1, t2, *self);
                Self::lemma_steps_trans(*old(self), it, *self);
            }
            let variant = variant?;
            match variant {
                Some(v) => {
                    variants.push(NodeBuilder::identifier_from_token(v));
                },
                None => {},
            }
            proof {
                if missing {
                    Self::lemma_reported_after(*old(self), it, *self);
                }
            }
            let ghost t3 = *self;
            let tk = self.peek_next_token()?;
            if tk.token.is(&TokenType::Punctuation(PunctuationType::Comma)) {
                let c = self.consume_token();
                proof {
                    Self::lemma_steps_trans(*old(self), t3, *self);
                    Self::lemma_steps_trans(it, t3, *self);
                    if missing {
                        Self::lemma_reported_after(*old(self), t3, *self);
                    }
                }
                let _ = c?;
            } else if tk.token.is(&TokenType::Punctuation(PunctuationType::RCurly)) {
                break;
            } else {
                let d = self.expected_error(&[TokenType::Punctuation(PunctuationType::Comma)], &tk);
                self.add_error(d);
                proof {
                    Self::lemma_steps_trans(*old(self), t3, *self);
                }
                return Err(ParseFailKind::Recover);
            }
        }
        let ghost s4 = *self;
        let end_token = self.assert_token_is(TokenType::Punctuation(PunctuationType::RCurly));
        let ghost s5 = *self;
        let end_token = match self.consume_optional_semicolon() {
            Some(t) => t,
            None => end_token,
        };
        proof {
            Self::lemma_steps_trans(s4, s5, *self);
            Self::lemma_steps_trans(*old(self), s4, *self);
            if missing {
                Self::lemma_reported_after(*old(self), s4, *self);
            }
        }
        let name = match name {
            Some(n) => n,
            None => return Ok(None),
        };
        let node = NodeBuilder::new(start_token.pos);
        Ok(Some(node.enum_(NodeBuilder::identifier_from_token(name), variants).finish(end_token.pos)))
    }

    /// The name of an import, up to the `;`.
    fn import_head(&mut self) -> (r: AlwaysResult<Option<Token>>)
        requires
            old(self).wf(),
        ensures
            old(self).explains(*final(self), r),
            old(self).steps_to(*final(self)),
            final(self).fails_at_eof(r),
            !(r matches Ok(None)),
            r matches Ok(Some(t)) ==> t.token is Ident && t.pos is Pos
                && final(self).next_is(TokenType::Punctuation(PunctuationType::Semicolon)),
            old(self).rest().len() >= 2 && old(self).rest()[0].token is Ident
                && old(self).rest()[1].token == TokenType::Punctuation(PunctuationType::Semicolon) ==> r == Ok::<
                Option<Token>,
                ParseFailKind,
            >(Some(old(self).rest()[0])) && final(self).rest() == old(self).rest().drop_first()
                && final(self).diagnostics.view() == old(self).diagnostics.view(),
    {
        let name = self.expect_token_is(TokenType::Ident(0))?;
        let ghost s1 = *self;
        let e = self.expect_next_token_is(TokenType::Punctuation(PunctuationType::Semicolon));
        proof {
            Self::lemma_steps_trans(*old(self), s1, *self);
        }
        let _ = e?;
        Ok(Some(name))
    }

    fn parse_import(&mut self) -> (r: ParseResult<Node>)
        requires
            old(self).wf(),
            old(self).next_is(TokenType::Keyword(KeywordType::Import)),
        ensures
            old(self).explains(*final(self), r),
            r matches Ok(None) ==> old(self).reported_since(*final(self)),
            old(self).steps_to(*final(self)),
            final(self).fails_at_eof(r),
            final(self).rest().len() < old(self).rest().len(),
            r matches Ok(Some(n)) ==> n.pos is Pos && n.node_type is Import,
            import_item(old(self).rest()) ==> r == Ok::<Option<Node>, ParseFailKind>(Some(import_tree(old(self).rest())))
                && final(self).rest() == old(self).rest().skip(3)
                && final(self).diagnostics.view() == old(self).diagnostics.view(),
    {
        let start = self.assert_token_is(TokenType::Keyword(KeywordType::Import));
        let node = NodeBuilder::new(start.pos);
        let ghost s0 = *self;
        self.push_sentinels(layer(&[TokenType::Punctuation(PunctuationType::Semicolon)]));
        let ghost s1 = *self;
        let inner = self.import_head();
        let ghost s2 = *self;
        let name = self.recover_end(inner, false, true);
        proof {
            Self::lemma_guard(s0, s1, s2, *self);
            Self::lemma_steps_trans(*old(self), s0, *self);
            assert(layer_of(TokenType::Punctuation(PunctuationType::Semicolon)) =~= s1.chain().last()@);
        }
        proof {
            if import_item(old(self).rest()) {
                assert(s2.rest() == old(self).rest().skip(2));
                lemma_kind_in_one(s2.rest()[0].token, TokenType::Punctuation(PunctuationType::Semicolon));
                s2.lemma_in_top(s2.rest()[0].token);
            }
        }
        let name = name?;
        proof {
            lemma_kind_in_one(self.rest()[0].token, TokenType::Punctuation(PunctuationType::Semicolon));
        }
        let ghost s3 = *self;
        let end_tk = self.assert_token_is(TokenType::Punctuation(PunctuationType::Semicolon));
        proof {
            Self::lemma_steps_trans(*old(self), s3, *self);
        }
        let name = match name {
            Some(n) => n,
            None => return Ok(None),
        };
        proof {
            if import_item(old(self).rest()) {
                assert(self.rest() =~= old(self).rest().skip(3));
            }
        }
        Ok(Some(node.import(NodeBuilder::identifier_from_token(name)).finish(end_tk.pos)))
    }

    /// A path and an optional `as` name, up to the `;`.
    fn use_body(&mut self) -> (r: AlwaysResult<Option<(Option<Node>, Option<Node>)>>)
        requires
            old(self).wf(),
        ensures
            old(self).explains(*final(self), r),
            old(self).steps_to(*final(self)),
            final(self).fails_at_eof(r),
            !(r matches Ok(None)),
            r matches Ok(Some(x)) && x.0 is None ==> old(self).reported_since(*final(self)),
            r matches Ok(Some(x)) ==> (x.0 matches Some(p) ==> p.pos is Pos) && (x.1 matches Some(n) ==> n.pos is Pos)
                && final(self).next_is(TokenType::Punctuation(PunctuationType::Semicolon)),
    {
        let ghost s0 = *self;
        self.push_sentinels(layer(&[TokenType::Keyword(KeywordType::As)]));
        let ghost s1 = *self;
        let inner = match self.parse_path() {
            Ok(p) => Ok(Some(p)),
            Err(e) => Err(e),
        };
        let ghost s2 = *self;
        let path = self.recover_end(inner, false, true);
        proof {
            Self::lemma_guard(s0, s1, s2, *self);
            if path matches Ok(None) {
                assert(s1.reported_since(s2));
            }
        }
        let path = path?;
        let ghost s3 = *self;
        let tk = self.peek_next_token()?;
        let name = if tk.token.is(&TokenType::Keyword(KeywordType::As)) {
            let _ = self.consume_token();
            let ghost s4 = *self;
            let name = self.expect_token_is(TokenType::Ident(0));
            proof {
                Self::lemma_steps_trans(s3, s4, *self);
                Self::lemma_steps_trans(*old(self), s3, *self);
            }
            Some(NodeBuilder::identifier_from_token(name?))
        } else {
            None
        };
        let ghost s5 = *self;
        let e = self.expect_next_token_is(TokenType::Punctuation(PunctuationType::Semicolon));
        proof {
            Self::lemma_steps_trans(*old(self), s3, s5);
            Self::lemma_steps_trans(*old(self), s5, *self);
        }
        let _ = e?;
        Ok(Some((path, name)))
    }

    fn parse_use(&mut self) -> (r: ParseResult<Node>)
        requires
            old(self).wf(),
            old(self).next_is(TokenType::Keyword(KeywordType::Use)),
        ensures
            old(self).explains(*final(self), r),
            r matches Ok(None) ==> old(self).reported_since(*final(self)),
            old(self).steps_to(*final(self)),
            final(self).fails_at_eof(r),
            final(self).rest().len() < old(self).rest().len(),
            r matches Ok(Some(n)) ==> n.pos is Pos && n.node_type is Use,
    {
        let start = self.assert_token_is(TokenType::Keyword(KeywordType::Use));
        let ghost s0 = *self;
        self.push_sentinels(layer(&[TokenType::Punctuation(PunctuationType::Semicolon)]));
        let ghost s1 = *self;
        let inner = self.use_body();
        let ghost s2 = *self;
        let result = self.recover_end(inner, false, true);
        proof {
            Self::lemma_guard(s0, s1, s2, *self);
            Self::lemma_steps_trans(*old(self), s0, *self);
            assert(layer_of(TokenType::Punctuation(PunctuationType::Semicolon)) =~= s1.chain().last()@);
        }
        let result = result?;
        proof {
            lemma_kind_in_one(self.rest()[0].token, TokenType::Punctuation(PunctuationType::Semicolon));
        }
        let ghost s3 = *self;
        let end_tk = self.assert_token_is(TokenType::Punctuation(PunctuationType::Semicolon));
        proof {
            Self::lemma_steps_trans(*old(self), s3, *self);
        }
        let (path, name) = match result {
            Some((Some(path), name)) => (path, name),
            _ => return Ok(None),
        };
        let node = NodeBuilder::new(start.pos);
        Ok(Some(node.use_(path, name).finish(end_tk.pos)))
    }

    /// The expression of an assertion, up to the `;`.
    fn assert_body(&mut self) -> (r: AlwaysResult<Option<Node>>)
        requires
            old(self).wf(),
        ensures
            old(self).explains(*final(self), r),
            old(self).steps_to(*final(self)),
            final(self).fails_at_eof(r),
            !(r matches Ok(None)),
            r matches Ok(Some(n)) ==> n.pos is Pos && final(self).next_is(TokenType::Punctuation(PunctuationType::Semicolon)),
            forall|n: nat| #[trigger] int_expr(old(self).rest(), n) && sep_at(old(self).rest(), n as int).token
                == TokenType::Punctuation(PunctuationType::Semicolon) ==> r == Ok::<Option<Node>, ParseFailKind>(
                Some(prec_tree(old(self).rest(), 0, n as int)),
            ) && final(self).rest() == old(self).rest().skip((2 * n + 1) as int)
                && final(self).diagnostics.view() == old(self).diagnostics.view(),
    {
        let result = self.parse_constexpr()?;
        let ghost s1 = *self;
        let e = self.expect_next_token_is(TokenType::Punctuation(PunctuationType::Semicolon));
        proof {
            Self::lemma_steps_trans(*old(self), s1, *self);
        }
        let _ = e?;
        Ok(Some(result))
    }

    fn parse_assert(&mut self) -> (r: ParseResult<Node>)
        requires
            old(self).wf(),
            old(self).next_is(TokenType::Keyword(KeywordType::Assert)),
        ensures
            old(self).explains(*final(self), r),
            r matches Ok(None) ==> old(self).reported_since(*final(self)),
            old(self).steps_to(*final(self)),
            final(self).fails_at_eof(r),
            final(self).rest().len() < old(self).rest().len(),
            r matches Ok(Some(n)) ==> n.pos is Pos && n.node_type is Assert,
            forall|n: nat| #[trigger] assert_item(old(self).rest(), n) ==> r == Ok::<Option<Node>, ParseFailKind>(
                Some(assert_tree(old(self).rest(), n)),
            ) && final(self).rest() == old(self).rest().skip(2 * n + 3 as int)
                && final(self).diagnostics.view() == old(self).diagnostics.view(),
    {
        let ghost n0: nat = choose|n: nat| #[trigger] assert_item(old(self).rest(), n);
        let ghost ai = exists|n: nat| #[trigger] assert_item(old(self).rest(), n);
        proof {
            assert forall|n: nat| #[trigger] assert_item(old(self).rest(), n) implies ai && n == n0 by {
                lemma_int_expr_unique(old(self).rest().skip(1), n, n0);
            }
        }
        let start_tk = self.assert_token_is(TokenType::Keyword(KeywordType::Assert));
        let node = NodeBuilder::new(start_tk.pos);
        let ghost s0 = *self;
        self.push_sentinels(layer(&[TokenType::Punctuation(PunctuationType::Semicolon)]));
        let ghost s1 = *self;
        let inner = self.assert_body();
        let ghost s2 = *self;
        let expr = self.recover_end(inner, false, true);
        proof {
            Self::lemma_guard(s0, s1, s2, *self);
            Self::lemma_steps_trans(*old(self), s0, *self);
            assert(layer_of(TokenType::Punctuation(PunctuationType::Semicolon)) =~= s1.chain().last()@);
        }
        proof {
            if ai {
                assert(s1.rest() == old(self).rest().skip(1));
                assert(int_expr(s1.rest(), n0));
                assert(s2.rest() == old(self).rest().skip(1).skip((2 * n0 + 1) as int));
                assert(s2.rest()[0] == sep_at(old(self).rest().skip(1), n0 as int));
                lemma_kind_in_one(s2.rest()[0].token, TokenType::Punctuation(PunctuationType::Semicolon));
                s2.lemma_in_top(s2.rest()[0].token);
            }
        }
        let expr = expr?;
        proof {
            lemma_kind_in_one(self.rest()[0].token, TokenType::Punctuation(PunctuationType::Semicolon));
        }
        let ghost s3 = *self;
        let end_tk = self.assert_token_is(TokenType::Punctuation(PunctuationType::Semicolon));
        proof {
            Self::lemma_steps_trans(*old(self), s3, *self);
        }
        let expr = match expr {
            Some(e) => e,
            None => return Ok(None),
        };
        proof {
            if ai {
                assert(end_tk == old(self).rest()[2 * n0 + 2 as int]);
                assert(self.rest() =~= old(self).rest().skip(2 * n0 + 3 as int));
            }
        }
        Ok(Some(node.assertion(expr).finish(end_tk.pos)))
    }
}


impl<'a> Parser<'a> {
    /// One name of a declaration list, with an optional `[size]`.
    fn decl_item(&mut self) -> (r: AlwaysResult<Option<Node>>)
        requires
            old(self).wf(),
        ensures
            old(self).explains(*final(self), r),
            old(self).steps_to(*final(self)),
            final(self).fails_at_eof(r),
            !(r matches Ok(None)),
            r matches Ok(Some(n)) ==> n.pos is Pos,
    {
        let t = self.expect_token_is(TokenType::Ident(0))?;
        let name = NodeBuilder::identifier_from_token(t);
        let ghost s1 = *self;
        let tk = self.peek_next_token();
        let tk = tk?;
        if !tk.token.is(&TokenType::Punctuation(PunctuationType::LSquare)) {
            return Ok(Some(NodeBuilder::decl_from_name(name)));
        }
        let node = NodeBuilder::new(name.pos);
        self.assert_token_is(TokenType::Punctuation(PunctuationType::LSquare));
        let ghost s2 = *self;
        let size = self.parse_constexpr();
        proof {
            Self::lemma_steps_trans(s1, s2, *self);
            Self::lemma_steps_trans(*old(self), s1, *self);
        }
        let size = size?;
        let ghost s3 = *self;
        let end_tk = self.expect_token_is(TokenType::Punctuation(PunctuationType::RSquare));
        proof {
            Self::lemma_steps_trans(*old(self), s3, *self);
        }
        let end_tk = end_tk?;
        Ok(Some(node.decl(name, size).finish(end_tk.pos)))
    }

    /// Names separated by commas, each with an optional size.
    fn parse_decl_list(&mut self) -> (r: ParseResult<Vec<Node>>)
        requires
            old(self).wf(),
        ensures
            old(self).explains(*final(self), r),
            old(self).steps_to(*final(self)),
            final(self).fails_at_eof(r),
            !(r matches Ok(None)),
            r matches Ok(Some(v)) ==> forall|i: int| 0 <= i < v@.len() ==> (#[trigger] v@[i]).pos is Pos,
    {
        let mut decls: Vec<Node> = Vec::new();
        proof {
            old(self).lemma_steps_refl();
        }
        loop
            invariant
                old(self).steps_to(*self),
                forall|i: int| 0 <= i < decls@.len() ==> (#[trigger] decls@[i]).pos is Pos,
            decreases self.rest().len(),
        {
            let ghost it = *self;
            self.push_sentinels(layer(&[TokenType::Punctuation(PunctuationType::Comma)]));
            let ghost t1 = *self;
            let inner = self.decl_item();
            let ghost t2 = *self;
            let decl = self.recover_end(inner, false, false);
            proof {
                Self::lemma_guard(it, t1, t2, *self);
                Self::lemma_steps_trans(*old(self), it, *self);
            }
            let decl = decl?;
            match decl {
                Some(d) => decls.push(d),
                None => {},
            }
            let ghost t3 = *self;
            let tk = self.peek_next_token()?;
            if tk.token.is(&TokenType::Punctuation(PunctuationType::Comma)) {
                let c = self.consume_token();
                proof {
                    Self::lemma_steps_trans(*old(self), t3, *self);
                    Self::lemma_steps_trans(it, t3, *self);
                }
                let _ = c?;
            } else {
                return Ok(Some(decls));
            }
        }
    }

    fn parse_pindecl(&mut self) -> (r: ParseResult<Node>)
        requires
            old(self).wf(),
            old(self).next_is(TokenType::Punctuation(PunctuationType::LArrow))
                || old(self).next_is(TokenType::Punctuation(PunctuationType::RArrow)),
        ensures
            old(self).explains(*final(self), r),
            old(self).steps_to(*final(self)),
            final(self).fails_at_eof(r),
            final(self).rest().len() < old(self).rest().len(),
            r matches Ok(Some(n)) ==> n.pos is Pos && n.node_type is PinDecls,
    {
        let start_tk = match self.consume_token() {
            Ok(t) => t,
            Err(e) => return Err(e),
        };
        let node = NodeBuilder::new(start_tk.pos);
        let direction = match start_tk.token {
            TokenType::Punctuation(PunctuationType::LArrow) => PinDirection::Output,
            _ => PinDirection::Input,
        };
        let ghost s1 = *self;
        let decls = self.parse_decl_list();
        proof {
            Self::lemma_steps_trans(*old(self), s1, *self);
        }
        let decls = match decls? {
            Some(d) => d,
            None => return Ok(None),
        };
        let ghost s2 = *self;
        let e = self.expect_next_token_is(TokenType::Punctuation(PunctuationType::Semicolon));
        proof {
            Self::lemma_steps_trans(*old(self), s2, *self);
        }
        let _ = e?;
        Ok(Some(node.pin_decls(direction, decls).finish(self.last_token_pos)))
    }

    /// A type: a path, with arguments in parentheses if any follow.
    #[verifier::rlimit(60)]
    fn parse_type(&mut self) -> (r: ParseResult<Node>)
        requires
            old(self).wf(),
        ensures
            old(self).explains(*final(self), r),
            old(self).steps_to(*final(self)),
            final(self).fails_at_eof(r),
            !(r matches Ok(None)),
            r is Ok ==> final(self).rest().len() < old(self).rest().len(),
            r matches Ok(Some(n)) ==> n.pos is Pos && n.node_type is Type,
    {
        let name = self.parse_path()?;
        let start_pos = name.pos;
        let node = NodeBuilder::new(start_pos);
        let mut args: Vec<Node> = Vec::new();
        let ghost s1 = *self;
        let tk = self.peek_next_token();
        let tk = tk?;
        if !tk.token.is(&TokenType::Punctuation(PunctuationType::LParen)) {
            return Ok(Some(node.type_(name, args).finish(start_pos)));
        }
        self.assert_token_is(TokenType::Punctuation(PunctuationType::LParen));
        proof {
            Self::lemma_steps_trans(*old(self), s1, *self);
        }
        loop
            invariant
                old(self).steps_to(*self),
                self.rest().len() < old(self).rest().len(),
                forall|i: int| 0 <= i < args@.len() ==> (#[trigger] args@[i]).pos is Pos,
            ensures
                old(self).steps_to(*self),
                self.rest().len() < old(self).rest().len(),
                self.next_is(TokenType::Punctuation(PunctuationType::RParen)),
                forall|i: int| 0 <= i < args@.len() ==> (#[trigger] args@[i]).pos is Pos,
            decreases self.rest().len(),
        {
            let ghost it = *self;
            let tk = self.peek_next_token()?;
            if tk.token.is(&TokenType::Punctuation(PunctuationType::RParen)) {
                break;
            }
            self.push_sentinels(layer(&[TokenType::Punctuation(PunctuationType::Comma), TokenType::Punctuation(PunctuationType::RParen)]));
            let ghost t1 = *self;
            let inner = self.parse_type_arg();
            let ghost t2 = *self;
            let arg = self.recover_end(inner, false, true);
            proof {
                Self::lemma_guard(it, t1, t2, *self);
                Self::lemma_steps_trans(*old(self), it, *self);
            }
            let arg = arg?;
            match arg {
                Some(a) => args.push(a),
                None => {},
            }
            let ghost t3 = *self;
            let tk = self.peek_next_token()?;
            if tk.token.is(&TokenType::Punctuation(PunctuationType::Comma)) {
                let c = self.consume_token();
                proof {
                    Self::lemma_steps_trans(*old(self), t3, *self);
                    Self::lemma_steps_trans(it, t3, *self);
                }
                let _ = c?;
            } else if tk.token.is(&TokenType::Punctuation(PunctuationType::RParen)) {
                break;
            } else {
                let d = self.expected_error(
                    &[TokenType::Punctuation(PunctuationType::Comma), TokenType::Punctuation(PunctuationType::RParen)],
                    &tk,
                );
                self.add_error(d);
                proof {
                    Self::lemma_steps_trans(*old(self), t3, *self);
                }
                return Err(ParseFailKind::Recover);
            }
        }
        let ghost s2 = *self;
        let end = self.assert_token_is(TokenType::Punctuation(PunctuationType::RParen));
        proof {
            Self::lemma_steps_trans(*old(self), s2, *self);
        }
        Ok(Some(node.type_(name, args).finish(end.pos)))
    }

    /// A type argument: a constant expression, named with `name =` or not.
    fn parse_type_arg(&mut self) -> (r: ParseResult<Node>)
        requires
            old(self).wf(),
        ensures
            old(self).explains(*final(self), r),
            old(self).steps_to(*final(self)),
            final(self).fails_at_eof(r),
            !(r matches Ok(None)),
            r matches Ok(Some(n)) ==> n.pos is Pos && n.node_type is TypeArg,
    {
        proof {
            old(self).lemma_steps_refl();
        }
        let tk = self.peek_next_token()?;
        let node = NodeBuilder::new(tk.pos);
        match tk.token {
            TokenType::Ident(_) => {
                let ident = match self.consume_token() {
                    Ok(t) => t,
                    Err(e) => return Err(e),
                };
                let ghost s1 = *self;
                let next = self.peek_next_token()?;
                if !next.token.is(&TokenType::Punctuation(PunctuationType::Equal)) {
                    let value = self.parse_constexpr_with_starting_ident(Some(ident));
                    proof {
                        Self::lemma_steps_trans(*old(self), s1, *self);
                    }
                    let value = value?;
                    let end_pos = value.pos;
                    return Ok(Some(node.type_arg(None, value).finish(end_pos)));
                }
                let ident = NodeBuilder::identifier_from_token(ident);
                self.assert_token_is(TokenType::Punctuation(PunctuationType::Equal));
                let ghost s2 = *self;
                let value = self.parse_constexpr();
                proof {
                    Self::lemma_steps_trans(s1, s2, *self);
                    Self::lemma_steps_trans(*old(self), s1, *self);
                }
                let value = value?;
                let end_pos = value.pos;
                Ok(Some(node.type_arg(Some(ident), value).finish(end_pos)))
            },
            _ => {
                let value = self.parse_constexpr()?;
                let end_pos = value.pos;
                Ok(Some(node.type_arg(None, value).finish(end_pos)))
            },
        }
    }

    /// A type followed by the names declared with it.
    fn parse_with_decl(&mut self) -> (r: ParseResult<Node>)
        requires
            old(self).wf(),
        ensures
            old(self).explains(*final(self), r),
            old(self).steps_to(*final(self)),
            final(self).fails_at_eof(r),
            r matches Ok(Some(n)) ==> n.pos is Pos && n.node_type is Decls,
    {
        let ty = self.parse_type()?;
        let ghost s1 = *self;
        let decls = self.parse_decl_list();
        proof {
            Self::lemma_steps_trans(*old(self), s1, *self);
        }
        let decls = match decls? {
            Some(d) => d,
            None => return Ok(None),
        };
        let ty = match ty {
            Some(t) => t,
            None => return Ok(None),
        };
        let node = NodeBuilder::new(ty.pos);
        Ok(Some(node.decls(ty, decls).finish(self.last_token_pos)))
    }

    /// A declaration inside the braces of `with`, up to `}` or `;`.
    fn with_decl_item(&mut self) -> (r: AlwaysResult<Option<Node>>)
        requires
            old(self).wf(),
        ensures
            old(self).explains(*final(self), r),
            old(self).steps_to(*final(self)),
            final(self).fails_at_eof(r),
            r is Ok ==> final(self).next_is(TokenType::Punctuation(PunctuationType::RCurly))
                || final(self).next_is(TokenType::Punctuation(PunctuationType::Semicolon)),
            r matches Ok(Some(n)) ==> n.pos is Pos,
    {
        let result = self.parse_with_decl()?;
        let ghost s1 = *self;
        let e = self.expect_next_token_one_of(
            &[TokenType::Punctuation(PunctuationType::RCurly), TokenType::Punctuation(PunctuationType::Semicolon)],
        );
        proof {
            Self::lemma_steps_trans(*old(self), s1, *self);
        }
        let t = e?;
        proof {
            lemma_kind_in_two(t.token, TokenType::Punctuation(PunctuationType::RCurly), TokenType::Punctuation(PunctuationType::Semicolon));
        }
        Ok(result)
    }

    /// The one declaration of a `with` without braces, up to `;`.
    fn with_single(&mut self) -> (r: AlwaysResult<Option<Node>>)
        requires
            old(self).wf(),
        ensures
            old(self).explains(*final(self), r),
            old(self).steps_to(*final(self)),
            final(self).fails_at_eof(r),
            r matches Ok(Some(n)) ==> n.pos is Pos,
    {
        let result = self.parse_with_decl()?;
        let ghost s1 = *self;
        let e = self.expect_next_token_is(TokenType::Punctuation(PunctuationType::Semicolon));
        proof {
            Self::lemma_steps_trans(*old(self), s1, *self);
        }
        let _ = e?;
        Ok(result)
    }

    fn parse_with(&mut self) -> (r: ParseResult<Node>)
        requires
            old(self).wf(),
            old(self).next_is(TokenType::Keyword(KeywordType::With)),
        ensures
            old(self).explains(*final(self), r),
            old(self).steps_to(*final(self)),
            final(self).fails_at_eof(r),
            final(self).rest().len() < old(self).rest().len(),
            r matches Ok(Some(n)) ==> n.pos is Pos && n.node_type is With,
    {
        let start_tk = self.assert_token_is(TokenType::Keyword(KeywordType::With));
        let node = NodeBuilder::new(start_tk.pos);
        let mut decls: Vec<Node> = Vec::new();
        let ghost s1 = *self;
        let tk = self.peek_next_token();
        let tk = tk?;
        if tk.token.is(&TokenType::Punctuation(PunctuationType::LCurly)) {
            self.assert_token_is(TokenType::Punctuation(PunctuationType::LCurly));
            proof {
                Self::lemma_steps_trans(*old(self), s1, *self);
            }
            loop
                invariant
                    old(self).steps_to(*self),
                    self.rest().len() < old(self).rest().len(),
                ensures
                    old(self).steps_to(*self),
                    self.rest().len() < old(self).rest().len(),
                    self.next_is(TokenType::Punctuation(PunctuationType::RCurly)),
                decreases self.rest().len(),
            {
                let ghost it = *self;
                let tk = self.peek_next_token()?;
                if tk.token.is(&TokenType::Punctuation(PunctuationType::RCurly)) {
                    break;
                }
                let the_layer = layer(
                    &[TokenType::Punctuation(PunctuationType::RCurly), TokenType::Punctuation(PunctuationType::Semicolon)],
                );
                self.push_sentinels(the_layer);
                let ghost t1 = *self;
                let inner = self.with_decl_item();
                let ghost t2 = *self;
                let decl = self.recover_end(inner, false, true);
                proof {
                    Self::lemma_guard(it, t1, t2, *self);
                    Self::lemma_steps_trans(*old(self), it, *self);
                    if t2.rest().len() > 0 {
                        lemma_kind_in_two(t2.rest()[0].token, TokenType::Punctuation(PunctuationType::RCurly), TokenType::Punctuation(PunctuationType::Semicolon));
                        assert(t2.chain().last()@ =~= seq![TokenType::Punctuation(PunctuationType::RCurly), TokenType::Punctuation(PunctuationType::Semicolon)]);
                        if kind_in(t2.rest()[0].token, t2.chain().last()@) {
                            t2.lemma_in_top(t2.rest()[0].token);
                        }
                    }
                    if self.rest().len() > 0 {
                        lemma_kind_in_two(self.rest()[0].token, TokenType::Punctuation(PunctuationType::RCurly), TokenType::Punctuation(PunctuationType::Semicolon));
                    }
                }
                let decl = decl?;
                match decl {
                    Some(d) => {
                        decls.push(d);
                    },
                    None => {},
                }
                let ghost t3 = *self;
                let tk = self.peek_next_token()?;
                if tk.token.is(&TokenType::Punctuation(PunctuationType::RCurly)) {
                    break;
                }
                let c = self.consume_token();
                proof {
                    Self::lemma_steps_trans(*old(self), t3, *self);
                    Self::lemma_steps_trans(it, t3, *self);
                }
                let _ = c?;
            }
            let ghost s2 = *self;
            self.assert_token_is(TokenType::Punctuation(PunctuationType::RCurly));
            proof {
                Self::lemma_steps_trans(*old(self), s2, *self);
            }
        } else {
            let ghost s2 = *self;
            self.push_sentinels(layer(&[TokenType::Punctuation(PunctuationType::Semicolon)]));
            let ghost t1 = *self;
            let inner = self.with_single();
            let ghost t2 = *self;
            let decl = self.recover_end(inner, false, true);
            proof {
                Self::lemma_guard(s2, t1, t2, *self);
                Self::lemma_steps_trans(*old(self), s2, *self);
            }
            let decl = decl?;
            match decl {
                Some(d) => {
                    decls.push(d);
                },
                None => {},
            }
        }
        Ok(Some(node.with(decls).finish(self.last_token_pos)))
    }

    /// The left side of a connection, up to its arrow.
    fn connection_lhs(&mut self) -> (r: AlwaysResult<Option<Node>>)
        requires
            old(self).wf(),
        ensures
            old(self).explains(*final(self), r),
            old(self).steps_to(*final(self)),
            final(self).fails_at_eof(r),
            !(r matches Ok(None)),
            r matches Ok(Some(n)) ==> n.pos is Pos && (final(self).next_is(TokenType::Punctuation(PunctuationType::LArrow))
                || final(self).next_is(TokenType::Punctuation(PunctuationType::RArrow))),
            old(self).rest().len() > 0 && old(self).rest()[0].token is Ident ==> final(self).rest().len() < old(self).rest().len(),
    {
        let lhs = self.parse_pinexpr()?;
        let ghost s1 = *self;
        let e = self.expect_next_token_one_of(
            &[TokenType::Punctuation(PunctuationType::LArrow), TokenType::Punctuation(PunctuationType::RArrow)],
        );
        proof {
            Self::lemma_steps_trans(*old(self), s1, *self);
        }
        let t = e?;
        proof {
            lemma_kind_in_two(t.token, TokenType::Punctuation(PunctuationType::LArrow), TokenType::Punctuation(PunctuationType::RArrow));
        }
        Ok(Some(lhs))
    }

    /// Reads a connection. The `;` after it is checked for, but a missing one
    /// only adds an error.
    #[verifier::rlimit(30)]
    fn parse_connection(&mut self) -> (r: ParseResult<Node>)
        requires
            old(self).wf(),
            old(self).rest().len() > 0,
            old(self).rest()[0].token is Ident,
        ensures
            old(self).explains(*final(self), r),
            old(self).steps_to(*final(self)),
            final(self).fails_at_eof(r),
            final(self).rest().len() < old(self).rest().len(),
            r matches Ok(Some(n)) ==> n.pos is Pos && n.node_type is Connection,
    {
        let tk = match self.peek_next_token() {
            Ok(t) => t,
            Err(e) => return Err(e),
        };
        let node = NodeBuilder::new(tk.pos);
        let ghost s0 = *self;
        let the_layer = layer(&[TokenType::Punctuation(PunctuationType::LArrow), TokenType::Punctuation(PunctuationType::RArrow)]);
        self.push_sentinels(the_layer);
        let ghost s1 = *self;
        let inner = self.connection_lhs();
        let ghost s2 = *self;
        let lhs = self.recover_end(inner, false, true);
        proof {
            Self::lemma_guard(s0, s1, s2, *self);
            assert(s1.chain().last()@ =~= seq![TokenType::Punctuation(PunctuationType::LArrow), TokenType::Punctuation(PunctuationType::RArrow)]);
            if s2.rest().len() > 0 {
                lemma_kind_in_two(s2.rest()[0].token, TokenType::Punctuation(PunctuationType::LArrow), TokenType::Punctuation(PunctuationType::RArrow));
                if kind_in(s2.rest()[0].token, s2.chain().last()@) {
                    s2.lemma_in_top(s2.rest()[0].token);
                }
            }
            if self.rest().len() > 0 {
                lemma_kind_in_two(self.rest()[0].token, TokenType::Punctuation(PunctuationType::LArrow), TokenType::Punctuation(PunctuationType::RArrow));
            }
        }
        let lhs = lhs?;
        let ghost s3 = *self;
        let arrow = match self.consume_token() {
            Ok(t) => t,
            Err(e) => return Err(e),
        };
        let direction = match arrow.token {
            TokenType::Punctuation(PunctuationType::LArrow) => ConnectionDirection::RightToLeft,
            _ => ConnectionDirection::LeftToRight,
        };
        let ghost s4 = *self;
        let rhs = self.parse_pinexpr();
        proof {
            Self::lemma_steps_trans(s3, s4, *self);
            Self::lemma_steps_trans(*old(self), s3, *self);
        }
        let rhs = rhs?;
        let end_pos = rhs.pos;
        let lhs = match lhs {
            Some(l) => l,
            None => return Ok(None),
        };
        let ghost s5 = *self;
        let _ = self.expect_next_token_is(TokenType::Punctuation(PunctuationType::Semicolon));
        proof {
            Self::lemma_steps_trans(*old(self), s5, *self);
        }
        Ok(Some(node.connection(lhs, direction, rhs).finish(end_pos)))
    }
}

proof fn lemma_kind_in_two(t: TokenType, u: TokenType, v: TokenType)
    ensures
        kind_in(t, seq![u, v]) <==> t.same_kind(u) || t.same_kind(v),
{
    if t.same_kind(u) {
        assert(seq![u, v][0] == u);
    }
    if t.same_kind(v) {
        assert(seq![u, v][1] == v);
    }
}


/// What the branches of an `if` hold: items at module level, statements
/// inside a circuit.
#[derive(Clone, Copy)]
enum Branch {
    Item,
    Statement,
}

/// The keywords that start an item.
pub open spec fn item_keywords() -> Seq<TokenType> {
    seq![
        TokenType::Keyword(KeywordType::Assert),
        TokenType::Keyword(KeywordType::Circ),
        TokenType::Keyword(KeywordType::Const),
        TokenType::Keyword(KeywordType::Enum),
        TokenType::Keyword(KeywordType::Import),
        TokenType::Keyword(KeywordType::If),
        TokenType::Keyword(KeywordType::Use),
    ]
}

/// A node that can stand at module level.
pub open spec fn is_item(n: Node) -> bool {
    match n.node_type {
        NodeType::Assert(_) | NodeType::Circ { .. } | NodeType::ConstDecl { .. } | NodeType::Enum { .. }
        | NodeType::If { .. } | NodeType::Import(_) | NodeType::Use { .. } => true,
        _ => false,
    }
}

/// An item of kind `n` begins with the keyword `t`.
pub open spec fn leads(t: TokenType, n: Node) -> bool {
    match t {
        TokenType::Keyword(KeywordType::Assert) => n.node_type is Assert,
        TokenType::Keyword(KeywordType::Circ) => n.node_type is Circ,
        TokenType::Keyword(KeywordType::Const) => n.node_type is ConstDecl,
        TokenType::Keyword(KeywordType::Enum) => n.node_type is Enum,
        TokenType::Keyword(KeywordType::If) => n.node_type is If,
        TokenType::Keyword(KeywordType::Import) => n.node_type is Import,
        TokenType::Keyword(KeywordType::Use) => n.node_type is Use,
        _ => false,
    }
}

/// The items, in order, begin at increasing token indices `starts` of
/// `tokens`, each at a token holding the keyword that names its kind.
pub open spec fn items_placed(items: Seq<Node>, tokens: Seq<Token>, starts: Seq<int>) -> bool {
    &&& starts.len() == items.len()
    &&& forall|i: int| 0 <= i < items.len() ==> 0 <= #[trigger] starts[i] < tokens.len()
    &&& forall|i: int| 0 <= i < items.len() ==> leads(tokens[#[trigger] starts[i]].token, items[i])
    &&& forall|i: int, j: int| 0 <= i < j < items.len() ==> #[trigger] starts[i] < #[trigger] starts[j]
}

/// The items, read one after another from the first token on, cover the
/// tokens: there are items exactly when there are tokens, and the first item
/// begins at the first token.
pub open spec fn items_cover(items: Seq<Node>, tokens: Seq<Token>, starts: Seq<int>) -> bool {
    &&& items_placed(items, tokens, starts)
    &&& (items.len() == 0 <==> tokens.len() == 0)
    &&& items.len() > 0 ==> starts[0] == 0
}

/// `ts` begins with the item `import NAME;`.
pub open spec fn import_item(ts: Seq<Token>) -> bool {
    &&& ts.len() >= 3
    &&& ts[0].token == TokenType::Keyword(KeywordType::Import)
    &&& ts[1].token is Ident
    &&& ts[2].token == TokenType::Punctuation(PunctuationType::Semicolon)
}

/// The tree of the item `import NAME;` that `ts` begins with.
pub open spec fn import_tree(ts: Seq<Token>) -> Node {
    Node { node_type: NodeType::Import(Box::new(ident_node(ts[1]))), pos: spec_span(ts[0].pos, ts[2].pos) }
}

/// `ts` begins with the item `assert E;`, where `E` is `n + 1` integer
/// literals joined by binary operators.
pub open spec fn assert_item(ts: Seq<Token>, n: nat) -> bool {
    &&& ts.len() >= 1
    &&& ts[0].token == TokenType::Keyword(KeywordType::Assert)
    &&& int_expr(ts.skip(1), n)
    &&& sep_at(ts.skip(1), n as int).token == TokenType::Punctuation(PunctuationType::Semicolon)
}

/// The tree of the item `assert E;` that `ts` begins with.
pub open spec fn assert_tree(ts: Seq<Token>, n: nat) -> Node {
    Node {
        node_type: NodeType::Assert(Box::new(prec_tree(ts.skip(1), 0, n as int))),
        pos: spec_span(ts[0].pos, ts[2 * n + 2 as int].pos),
    }
}

/// `ts` begins with a simple item of `k` tokens: `import NAME;`, or an
/// assertion of integer literals joined by binary operators.
pub open spec fn simple_item(ts: Seq<Token>, k: int) -> bool {
    ||| import_item(ts) && k == 3
    ||| k >= 3 && (k - 3) % 2 == 0 && assert_item(ts, ((k - 3) / 2) as nat)
}

/// The tree of the simple item of `k` tokens that `ts` begins with.
pub open spec fn simple_tree(ts: Seq<Token>, k: int) -> Node {
    if import_item(ts) {
        import_tree(ts)
    } else {
        assert_tree(ts, ((k - 3) / 2) as nat)
    }
}

/// The number of tokens of the simple item that `ts` begins with.
pub open spec fn simple_len(ts: Seq<Token>) -> int {
    choose|k: int| simple_item(ts, k)
}

/// `ts` is made of simple items, one after another.
pub open spec fn simple_program(ts: Seq<Token>) -> bool
    decreases ts.len(),
{
    if ts.len() == 0 {
        true
    } else {
        &&& exists|k: int| simple_item(ts, k)
        &&& 0 < simple_len(ts) <= ts.len()
        &&& simple_program(ts.skip(simple_len(ts)))
    }
}

/// The trees of the simple items that `ts` is made of, in order.
pub open spec fn simple_trees(ts: Seq<Token>) -> Seq<Node>
    decreases ts.len(),
{
    if ts.len() == 0 || !(0 < simple_len(ts) <= ts.len()) {
        Seq::empty()
    } else {
        seq![simple_tree(ts, simple_len(ts))] + simple_trees(ts.skip(simple_len(ts)))
    }
}

/// How many of the diagnostics are errors.
#[verifier::opaque]
pub closed spec fn errors_in(d: Seq<Diagnostic>) -> nat {
    count_kind(d, DiagnosticKind::Error)
}

/// A token a statement can start with.
pub open spec fn statement_start(t: TokenType) -> bool {
    match t {
        TokenType::Ident(_) => true,
        TokenType::Punctuation(p) => p == PunctuationType::Semicolon || p == PunctuationType::LArrow || p == PunctuationType::RArrow,
        TokenType::Keyword(k) => k == KeywordType::Assert || k == KeywordType::Const || k == KeywordType::If || k == KeywordType::With
            || k == KeywordType::For,
        _ => false,
    }
}

/// The tokens at which a circuit's body resumes after a bad statement.
pub open spec fn circ_body_layer() -> Seq<TokenType> {
    seq![
        TokenType::Punctuation(PunctuationType::RCurly),
        TokenType::Keyword(KeywordType::Assert),
        TokenType::Keyword(KeywordType::Const),
        TokenType::Keyword(KeywordType::For),
        TokenType::Keyword(KeywordType::With),
    ]
}

proof fn lemma_kind_in_circ_body(t: TokenType)
    requires
        kind_in(t, circ_body_layer()),
    ensures
        t.same_kind(TokenType::Punctuation(PunctuationType::RCurly)) || t == TokenType::Keyword(KeywordType::For) || statement_start(t),
{
    let s = circ_body_layer();
    let i = choose|i: int| 0 <= i < s.len() && t.same_kind(#[trigger] s[i]);
    assert(0 <= i < 5);
    if i == 0 {
    } else if i == 1 {
    } else if i == 2 {
    } else if i == 3 {
    } else {
    }
}

proof fn lemma_kind_in_items(t: TokenType)
    requires
        kind_in(t, item_keywords()),
    ensures
        t matches TokenType::Keyword(k) && (k == KeywordType::Assert || k == KeywordType::Circ || k == KeywordType::Const
            || k == KeywordType::Enum || k == KeywordType::Import || k == KeywordType::If || k == KeywordType::Use),
{
    let s = item_keywords();
    let i = choose|i: int| 0 <= i < s.len() && t.same_kind(#[trigger] s[i]);
    assert(0 <= i < 7);
}

impl<'a> Parser<'a> {
    /// A circuit's arguments in parentheses, if any.
    #[verifier::rlimit(30)]
    fn circ_args(&mut self) -> (r: AlwaysResult<Option<Vec<Node>>>)
        requires
            old(self).wf(),
        ensures
            old(self).explains(*final(self), r),
            old(self).steps_to(*final(self)),
            final(self).fails_at_eof(r),
            !(r matches Ok(None)),
            r matches Ok(Some(v)) ==> forall|i: int| 0 <= i < v@.len() ==> (#[trigger] v@[i]).pos is Pos,
    {
        let mut args: Vec<Node> = Vec::new();
        proof {
            old(self).lemma_steps_refl();
        }
        let tk = self.peek_next_token()?;
        if !tk.token.is(&TokenType::Punctuation(PunctuationType::LParen)) {
            return Ok(Some(args));
        }
        self.assert_token_is(TokenType::Punctuation(PunctuationType::LParen));
        loop
            invariant
                old(self).steps_to(*self),
                self.rest().len() < old(self).rest().len(),
                forall|i: int| 0 <= i < args@.len() ==> (#[trigger] args@[i]).pos is Pos,
            ensures
                old(self).steps_to(*self),
                self.next_is(TokenType::Punctuation(PunctuationType::RParen)),
                forall|i: int| 0 <= i < args@.len() ==> (#[trigger] args@[i]).pos is Pos,
            decreases self.rest().len(),
        {
            let ghost it = *self;
            let tk = self.peek_next_token()?;
            if tk.token.is(&TokenType::Punctuation(PunctuationType::RParen)) {
                break;
            }
            self.push_sentinels(layer(&[TokenType::Punctuation(PunctuationType::Comma), TokenType::Punctuation(PunctuationType::RParen)]));
            let ghost t1 = *self;
            let inner = self.parse_circ_arg();
            let ghost t2 = *self;
            let arg = self.recover_end(inner, false, true);
            proof {
                Self::lemma_guard(it, t1, t2, *self);
                Self::lemma_steps_trans(*old(self), it, *self);
            }
            let arg = arg?;
            match arg {
                Some(a) => args.push(a),
                None => {},
            }
            let ghost t3 = *self;
            let tk = self.peek_next_token()?;
            if tk.token.is(&TokenType::Punctuation(PunctuationType::Comma)) {
                let c = self.consume_token();
                proof {
                    Self::lemma_steps_trans(*old(self), t3, *self);
                    Self::lemma_steps_trans(it, t3, *self);
                }
                let _ = c?;
            } else if tk.token.is(&TokenType::Punctuation(PunctuationType::RParen)) {
                break;
            } else {
                let d = self.expected_error(
                    &[TokenType::Punctuation(PunctuationType::Comma), TokenType::Punctuation(PunctuationType::RParen)],
                    &tk,
                );
                self.add_error(d);
                proof {
                    Self::lemma_steps_trans(*old(self), t3, *self);
                }
                return Err(ParseFailKind::Recover);
            }
        }
        let ghost s2 = *self;
        self.assert_token_is(TokenType::Punctuation(PunctuationType::RParen));
        proof {
            Self::lemma_steps_trans(*old(self), s2, *self);
        }
        Ok(Some(args))
    }

    /// Reads a circuit: its name, its arguments and its statements.
    #[verifier::rlimit(90)]
    fn parse_circ(&mut self) -> (r: ParseResult<Node>)
        requires
            old(self).wf(),
            old(self).next_is(TokenType::Keyword(KeywordType::Circ)),
        ensures
            old(self).explains(*final(self), r),
            r matches Ok(None) ==> old(self).reported_since(*final(self)),
            old(self).steps_to(*final(self)),
            final(self).fails_at_eof(r),
            final(self).rest().len() < old(self).rest().len(),
            r matches Ok(Some(n)) ==> n.pos is Pos && n.node_type is Circ,
        decreases old(self).rest().len(), 2nat,
    {
        let start_token = self.assert_token_is(TokenType::Keyword(KeywordType::Circ));
        let node = NodeBuilder::new(start_token.pos);
        let ghost s0 = *self;
        self.push_sentinels(layer(&[TokenType::Punctuation(PunctuationType::LParen), TokenType::Punctuation(PunctuationType::LCurly)]));
        let ghost s1 = *self;
        let inner = self.expect_ident();
        let ghost s2 = *self;
        let name = self.recover_end(inner, false, true);
        proof {
            Self::lemma_guard(s0, s1, s2, *self);
            Self::lemma_steps_trans(*old(self), s0, *self);
        }
        proof {
            if name matches Ok(None) {
                assert(s1.reported_since(s2));
                Self::lemma_reported_after(s1, s2, *self);
                Self::lemma_reported_before(s0, s1, *self);
                Self::lemma_reported_before(*old(self), s0, *self);
            }
        }
        let name = name?;
        let ghost s3 = *self;
        self.push_sentinels(layer(&[TokenType::Punctuation(PunctuationType::LCurly)]));
        let ghost s4 = *self;
        let inner = self.circ_args();
        let ghost s5 = *self;
        let args = self.recover_end(inner, false, true);
        proof {
            Self::lemma_guard(s3, s4, s5, *self);
            Self::lemma_steps_trans(*old(self), s3, *self);
            if name is None {
                Self::lemma_reported_after(*old(self), s3, *self);
            }
            if args matches Ok(None) {
                assert(s4.reported_since(s5));
                Self::lemma_reported_after(s4, s5, *self);
                Self::lemma_reported_before(s3, s4, *self);
                Self::lemma_reported_before(*old(self), s3, *self);
            }
        }
        let args = args?;
        let ghost missing = name is None || args is None;
        let ghost s6 = *self;
        let open = self.expect_token_is(TokenType::Punctuation(PunctuationType::LCurly));
        proof {
            Self::lemma_steps_trans(*old(self), s6, *self);
            if missing {
                Self::lemma_reported_after(*old(self), s6, *self);
            }
        }
        let _ = open?;
        let mut children: Vec<Node> = Vec::new();
        loop
            invariant
                old(self).steps_to(*self),
                self.rest().len() < old(self).rest().len(),
                forall|i: int| 0 <= i < children@.len() ==> (#[trigger] children@[i]).pos is Pos,
                missing ==> old(self).reported_since(*self),
            ensures
                missing ==> old(self).reported_since(*self),
                old(self).steps_to(*self),
                self.rest().len() < old(self).rest().len(),
                self.next_is(TokenType::Punctuation(PunctuationType::RCurly)),
                forall|i: int| 0 <= i < children@.len() ==> (#[trigger] children@[i]).pos is Pos,
            decreases self.rest().len(),
        {
            let ghost it = *self;
            let tk = self.peek_next_token()?;
            if tk.token.is(&TokenType::Punctuation(PunctuationType::RCurly)) {
                break;
            }
            self.push_sentinels(layer(
                &[
                    TokenType::Punctuation(PunctuationType::RCurly),
                    TokenType::Keyword(KeywordType::Assert),
                    TokenType::Keyword(KeywordType::Const),
                    TokenType::Keyword(KeywordType::For),
                    TokenType::Keyword(KeywordType::With),
                ],
            ));
            let ghost t1 = *self;
            let inner = self.parse_statement();
            let ghost t2 = *self;
            let statement = self.recover_end(inner, false, false);
            proof {
                Self::lemma_guard(it, t1, t2, *self);
                Self::lemma_steps_trans(*old(self), it, *self);
                if self.rest().len() == it.rest().len() && statement is Ok {
                    assert(t1.chain().last()@ =~= circ_body_layer());
                    assert(t2.rest() =~= it.rest());
                    assert(self.rest() =~= t2.rest());
                    lemma_kind_in_circ_body(self.rest()[0].token);
                }
            }
            proof {
                if missing {
                    Self::lemma_reported_after(*old(self), it, *self);
                }
            }
            let statement = statement?;
            match statement {
                Some(child) => children.push(child),
                None => {},
            }
        }
        let ghost s7 = *self;
        let end_token = self.assert_token_is(TokenType::Punctuation(PunctuationType::RCurly));
        let ghost s8 = *self;
        let end_token = match self.consume_optional_semicolon() {
            Some(t) => t,
            None => end_token,
        };
        proof {
            Self::lemma_steps_trans(s7, s8, *self);
            Self::lemma_steps_trans(*old(self), s7, *self);
            if missing {
                Self::lemma_reported_after(*old(self), s7, *self);
            }
        }
        match (name, args) {
            (Some(name), Some(args)) => Ok(
                Some(node.circ(NodeBuilder::identifier_from_token(name), args, children).finish(end_token.pos)),
            ),
            _ => Ok(None),
        }
    }

    /// The condition and first branch of an `if`, up to its `}`.
    fn if_body(&mut self, branch: Branch) -> (r: AlwaysResult<Option<(Option<Node>, Vec<Node>)>>)
        requires
            old(self).wf(),
        ensures
            old(self).explains(*final(self), r),
            old(self).steps_to(*final(self)),
            final(self).fails_at_eof(r),
            !(r matches Ok(None)),
            r matches Ok(Some(x)) && x.0 is None ==> old(self).reported_since(*final(self)),
            r matches Ok(Some(x)) ==> (x.0 matches Some(c) ==> c.pos is Pos)
                && (forall|i: int| 0 <= i < x.1@.len() ==> (#[trigger] x.1@[i]).pos is Pos)
                && final(self).next_is(TokenType::Punctuation(PunctuationType::RCurly)),
        decreases old(self).rest().len(), 1nat,
    {
        let ghost s0 = *self;
        self.push_sentinels(layer(&[TokenType::Punctuation(PunctuationType::LCurly)]));
        let ghost s1 = *self;
        let inner = self.if_condition();
        let ghost s2 = *self;
        let condition = self.recover_end(inner, false, true);
        proof {
            Self::lemma_guard(s0, s1, s2, *self);
            assert(layer_of(TokenType::Punctuation(PunctuationType::LCurly)) =~= s1.chain().last()@);
            if s2.rest().len() > 0 {
                lemma_kind_in_one(s2.rest()[0].token, TokenType::Punctuation(PunctuationType::LCurly));
                if kind_in(s2.rest()[0].token, s2.chain().last()@) {
                    s2.lemma_in_top(s2.rest()[0].token);
                }
            }
            if self.rest().len() > 0 {
                lemma_kind_in_one(self.rest()[0].token, TokenType::Punctuation(PunctuationType::LCurly));
            }
        }
        proof {
            if condition matches Ok(None) {
                assert(s1.reported_since(s2));
                Self::lemma_reported_after(s1, s2, *self);
                Self::lemma_reported_before(*old(self), s1, *self);
            }
        }
        let condition = condition?;
        let ghost missing = condition is None;
        let ghost s3 = *self;
        self.assert_token_is(TokenType::Punctuation(PunctuationType::LCurly));
        proof {
            Self::lemma_steps_trans(*old(self), s3, *self);
            if missing {
                Self::lemma_reported_after(*old(self), s3, *self);
            }
        }
        let mut then: Vec<Node> = Vec::new();
        loop
            invariant
                old(self).steps_to(*self),
                self.rest().len() < old(self).rest().len(),
                forall|i: int| 0 <= i < then@.len() ==> (#[trigger] then@[i]).pos is Pos,
                missing ==> old(self).reported_since(*self),
            ensures
                missing ==> old(self).reported_since(*self),
                old(self).steps_to(*self),
                self.next_is(TokenType::Punctuation(PunctuationType::RCurly)),
                forall|i: int| 0 <= i < then@.len() ==> (#[trigger] then@[i]).pos is Pos,
            decreases self.rest().len(),
        {
            let ghost it = *self;
            let tk = self.peek_next_token()?;
            if tk.token.is(&TokenType::Punctuation(PunctuationType::RCurly)) {
                break;
            }
            let stmt = match branch {
                Branch::Item => self.parse_item(),
                Branch::Statement => self.parse_statement(),
            };
            proof {
                Self::lemma_steps_trans(*old(self), it, *self);
            }
            proof {
                if missing {
                    Self::lemma_reported_after(*old(self), it, *self);
                }
            }
            match stmt? {
                Some(st) => then.push(st),
                None => {},
            }
        }
        Ok(Some((condition, then)))
    }

    /// The condition of an `if`, up to its `{`.
    fn if_condition(&mut self) -> (r: AlwaysResult<Option<Node>>)
        requires
            old(self).wf(),
        ensures
            old(self).explains(*final(self), r),
            old(self).steps_to(*final(self)),
            final(self).fails_at_eof(r),
            !(r matches Ok(None)),
            r matches Ok(Some(n)) ==> n.pos is Pos && final(self).next_is(TokenType::Punctuation(PunctuationType::LCurly)),
    {
        let result = self.parse_constexpr()?;
        let ghost s1 = *self;
        let e = self.expect_next_token_is(TokenType::Punctuation(PunctuationType::LCurly));
        proof {
            Self::lemma_steps_trans(*old(self), s1, *self);
        }
        let _ = e?;
        Ok(Some(result))
    }

    /// The braced `else` branch of an `if`; its nodes are added to `body` as
    /// they are read.
    fn else_block(&mut self, branch: Branch, body: &mut Vec<Node>) -> (r: AlwaysResult<Option<()>>)
        requires
            old(self).wf(),
            old(self).next_is(TokenType::Punctuation(PunctuationType::LCurly)),
            forall|i: int| 0 <= i < old(body)@.len() ==> (#[trigger] old(body)@[i]).pos is Pos,
        ensures
            old(self).explains(*final(self), r),
            old(self).steps_to(*final(self)),
            final(self).fails_at_eof(r),
            !(r matches Ok(None)),
            r is Ok ==> final(self).next_is(TokenType::Punctuation(PunctuationType::RCurly)),
            forall|i: int| 0 <= i < final(body)@.len() ==> (#[trigger] final(body)@[i]).pos is Pos,
        decreases old(self).rest().len(), 1nat,
    {
        self.assert_token_is(TokenType::Punctuation(PunctuationType::LCurly));
        loop
            invariant
                old(self).steps_to(*self),
                self.rest().len() < old(self).rest().len(),
                forall|i: int| 0 <= i < body@.len() ==> (#[trigger] body@[i]).pos is Pos,
            ensures
                old(self).steps_to(*self),
                self.next_is(TokenType::Punctuation(PunctuationType::RCurly)),
                forall|i: int| 0 <= i < body@.len() ==> (#[trigger] body@[i]).pos is Pos,
            decreases self.rest().len(),
        {
            let ghost it = *self;
            let tk = self.peek_next_token()?;
            if tk.token.is(&TokenType::Punctuation(PunctuationType::RCurly)) {
                break;
            }
            let stmt = match branch {
                Branch::Item => self.parse_item(),
                Branch::Statement => self.parse_statement(),
            };
            proof {
                Self::lemma_steps_trans(*old(self), it, *self);
            }
            match stmt? {
                Some(st) => body.push(st),
                None => {},
            }
        }
        Ok(Some(()))
    }

    /// Reads an `if`, with `else` and `else if` branches, whose branches hold
    /// items or statements.
    #[verifier::rlimit(60)]
    fn parse_if(&mut self, branch: Branch) -> (r: ParseResult<Node>)
        requires
            old(self).wf(),
            old(self).next_is(TokenType::Keyword(KeywordType::If)),
        ensures
            old(self).explains(*final(self), r),
            r matches Ok(None) ==> old(self).reported_since(*final(self)),
            old(self).steps_to(*final(self)),
            final(self).fails_at_eof(r),
            final(self).rest().len() < old(self).rest().len(),
            r matches Ok(Some(n)) ==> n.pos is Pos && n.node_type is If,
        decreases old(self).rest().len(), 1nat,
    {
        let start_token = self.assert_token_is(TokenType::Keyword(KeywordType::If));
        let node = NodeBuilder::new(start_token.pos);
        let ghost s0 = *self;
        self.push_sentinels(layer(&[TokenType::Punctuation(PunctuationType::RCurly)]));
        let ghost s1 = *self;
        let inner = self.if_body(branch);
        let ghost s2 = *self;
        let result = self.recover_end(inner, false, true);
        proof {
            Self::lemma_guard(s0, s1, s2, *self);
            Self::lemma_steps_trans(*old(self), s0, *self);
            assert(layer_of(TokenType::Punctuation(PunctuationType::RCurly)) =~= s1.chain().last()@);
            if s2.rest().len() > 0 {
                lemma_kind_in_one(s2.rest()[0].token, TokenType::Punctuation(PunctuationType::RCurly));
                if kind_in(s2.rest()[0].token, s2.chain().last()@) {
                    s2.lemma_in_top(s2.rest()[0].token);
                }
            }
            if self.rest().len() > 0 {
                lemma_kind_in_one(self.rest()[0].token, TokenType::Punctuation(PunctuationType::RCurly));
            }
        }
        proof {
            if result matches Ok(None) || (result is Ok && result->Ok_0 is Some && result->Ok_0->Some_0.0 is None) {
                assert(s1.reported_since(s2));
                Self::lemma_reported_after(s1, s2, *self);
                Self::lemma_reported_before(s0, s1, *self);
                Self::lemma_reported_before(*old(self), s0, *self);
            }
        }
        let result = result?;
        let ghost missing = !(result is Some && result->Some_0.0 is Some);
        let ghost s3 = *self;
        let mut end_pos = self.assert_token_is(TokenType::Punctuation(PunctuationType::RCurly)).pos;
        proof {
            Self::lemma_steps_trans(*old(self), s3, *self);
            if missing {
                Self::lemma_reported_after(*old(self), s3, *self);
            }
        }
        let mut else_body: Vec<Node> = Vec::new();
        let ghost s4 = *self;
        let tk = self.peek_next_token()?;
        if tk.token.is(&TokenType::Keyword(KeywordType::Else)) {
            self.assert_token_is(TokenType::Keyword(KeywordType::Else));
            proof {
                Self::lemma_steps_trans(*old(self), s4, *self);
                if missing {
                    Self::lemma_reported_after(*old(self), s4, *self);
                }
            }
            let ghost s5 = *self;
            let tk2 = self.peek_next_token()?;
            if tk2.token.is(&TokenType::Keyword(KeywordType::If)) {
                let nested = self.parse_if(branch);
                proof {
                    Self::lemma_steps_trans(*old(self), s5, *self);
                    if missing {
                        Self::lemma_reported_after(*old(self), s5, *self);
                    }
                }
                match nested? {
                    Some(n) => {
                        end_pos = n.pos;
                        else_body.push(n);
                    },
                    None => {},
                }
            } else if tk2.token.is(&TokenType::Punctuation(PunctuationType::LCurly)) {
                self.push_sentinels(layer(&[TokenType::Punctuation(PunctuationType::RCurly)]));
                let ghost t1 = *self;
                let inner = self.else_block(branch, &mut else_body);
                let ghost t2 = *self;
                let done = self.recover_end(inner, false, true);
                proof {
                    Self::lemma_guard(s5, t1, t2, *self);
                    Self::lemma_steps_trans(*old(self), s5, *self);
                    assert(layer_of(TokenType::Punctuation(PunctuationType::RCurly)) =~= t1.chain().last()@);
                    if t2.rest().len() > 0 {
                        lemma_kind_in_one(t2.rest()[0].token, TokenType::Punctuation(PunctuationType::RCurly));
                        if kind_in(t2.rest()[0].token, t2.chain().last()@) {
                            t2.lemma_in_top(t2.rest()[0].token);
                        }
                    }
                    if self.rest().len() > 0 {
                        lemma_kind_in_one(self.rest()[0].token, TokenType::Punctuation(PunctuationType::RCurly));
                    }
                }
                proof {
                    if missing {
                        Self::lemma_reported_after(*old(self), s5, *self);
                    }
                }
                let _ = done?;
                let ghost s6 = *self;
                end_pos = self.assert_token_is(TokenType::Punctuation(PunctuationType::RCurly)).pos;
                proof {
                    Self::lemma_steps_trans(*old(self), s6, *self);
                    if missing {
                        Self::lemma_reported_after(*old(self), s6, *self);
                    }
                }
            }
        }
        let ghost s7 = *self;
        let end_pos = match self.consume_optional_semicolon() {
            Some(t) => t.pos,
            None => end_pos,
        };
        proof {
            Self::lemma_steps_trans(*old(self), s7, *self);
            if missing {
                Self::lemma_reported_after(*old(self), s7, *self);
            }
        }
        let (condition, then) = match result {
            Some((Some(condition), then)) => (condition, then),
            _ => return Ok(None),
        };
        Ok(Some(node.if_(condition, then, else_body).finish(end_pos)))
    }

    /// Reads a statement of a circuit's body. A `for` statement is reported as
    /// not supported and skipped like any statement in error.
    fn parse_statement(&mut self) -> (r: ParseResult<Node>)
        requires
            old(self).wf(),
            old(self).rest().len() > 0,
        ensures
            old(self).explains(*final(self), r),
            old(self).steps_to(*final(self)),
            final(self).fails_at_eof(r),
            r is Ok ==> final(self).rest().len() < old(self).rest().len(),
            final(self).rest().len() == old(self).rest().len() ==> (r matches Err(ParseFailKind::Recover))
                && !statement_start(old(self).rest()[0].token),
            r matches Ok(Some(n)) ==> n.pos is Pos && n.node_type is Statement,
        decreases old(self).rest().len(), 3nat,
    {
        let tk = match self.peek_next_token() {
            Ok(t) => t,
            Err(e) => return Err(e),
        };
        let ghost s0 = *self;
        self.push_sentinels(layer(&[TokenType::Punctuation(PunctuationType::Semicolon)]));
        let ghost s1 = *self;
        let inner: ParseResult<Node> = match tk.token {
            TokenType::Punctuation(PunctuationType::Semicolon) => match self.consume_token() {
                Ok(_) => Ok(None),
                Err(e) => Err(e),
            },
            TokenType::Ident(_) => self.parse_connection(),
            TokenType::Punctuation(PunctuationType::LArrow) | TokenType::Punctuation(PunctuationType::RArrow) => self.parse_pindecl(),
            TokenType::Keyword(KeywordType::Assert) => self.parse_assert(),
            TokenType::Keyword(KeywordType::Const) => self.parse_const(),
            TokenType::Keyword(KeywordType::If) => self.parse_if(Branch::Statement),
            TokenType::Keyword(KeywordType::With) => self.parse_with(),
            TokenType::Keyword(KeywordType::For) => {
                let d = Diagnostic::error(text("'for' statements are not supported"), tk.pos);
                self.add_error(d);
                let ghost mid = *self;
                let _ = self.consume_token();
                proof {
                    Self::lemma_steps_trans(s1, mid, *self);
                }
                Err(ParseFailKind::Recover)
            },
            _ => {
                let d = self.expected_error(
                    &[
                        TokenType::Keyword(KeywordType::Assert),
                        TokenType::Keyword(KeywordType::Const),
                        TokenType::Keyword(KeywordType::For),
                        TokenType::Keyword(KeywordType::With),
                        TokenType::Keyword(KeywordType::If),
                        TokenType::Punctuation(PunctuationType::LArrow),
                        TokenType::Punctuation(PunctuationType::RArrow),
                        TokenType::Ident(0),
                    ],
                    &tk,
                );
                self.add_error(d);
                Err(ParseFailKind::Recover)
            },
        };
        let ghost s2 = *self;
        let result = self.recover_end(inner, false, false);
        proof {
            Self::lemma_guard(s0, s1, s2, *self);
            assert(layer_of(TokenType::Punctuation(PunctuationType::Semicolon)) =~= s1.chain().last()@);
            if self.rest().len() == old(self).rest().len() {
                assert(s2.rest() =~= old(self).rest());
                assert(self.rest() =~= old(self).rest());
                lemma_kind_in_one(self.rest()[0].token, TokenType::Punctuation(PunctuationType::Semicolon));
            }
        }
        let result = result?;
        let statement = match result {
            Some(st) => st,
            None => return Ok(None),
        };
        let ghost s3 = *self;
        let end_pos = match self.consume_optional_semicolon() {
            Some(t) => t.pos,
            None => statement.pos,
        };
        proof {
            Self::lemma_steps_trans(*old(self), s3, *self);
        }
        let node = NodeBuilder::new(statement.pos);
        Ok(Some(node.statement(statement).finish(end_pos)))
    }

    /// Reads an item of a module.
    fn parse_item(&mut self) -> (r: ParseResult<Node>)
        requires
            old(self).wf(),
            old(self).rest().len() > 0,
        ensures
            old(self).explains(*final(self), r),
            old(self).steps_to(*final(self)),
            final(self).fails_at_eof(r),
            r is Ok ==> final(self).rest().len() < old(self).rest().len(),
            r matches Ok(Some(n)) ==> n.pos is Pos && is_item(n),
            r matches Ok(Some(n)) ==> leads(old(self).rest()[0].token, n),
            r matches Ok(None) ==> old(self).reported_since(*final(self)),
            (r matches Err(ParseFailKind::Recover)) ==> old(self).chain().len() > 0,
            forall|k: int| #[trigger] simple_item(old(self).rest(), k) ==> r == Ok::<Option<Node>, ParseFailKind>(
                Some(simple_tree(old(self).rest(), k)),
            ) && final(self).rest() == old(self).rest().skip(k) && final(self).diagnostics.view() == old(self).diagnostics.view(),
        decreases old(self).rest().len(), 3nat,
    {
        let tk = match self.peek_next_token() {
            Ok(t) => t,
            Err(e) => return Err(e),
        };
        let starting: [TokenType; 7] = [
            TokenType::Keyword(KeywordType::Assert),
            TokenType::Keyword(KeywordType::Circ),
            TokenType::Keyword(KeywordType::Const),
            TokenType::Keyword(KeywordType::Enum),
            TokenType::Keyword(KeywordType::Import),
            TokenType::Keyword(KeywordType::If),
            TokenType::Keyword(KeywordType::Use),
        ];
        let ghost s0 = *self;
        self.push_sentinels(layer(&starting));
        let ghost s1 = *self;
        let inner: ParseResult<Node> = match tk.token {
            TokenType::Keyword(KeywordType::Assert) => self.parse_assert(),
            TokenType::Keyword(KeywordType::Circ) => self.parse_circ(),
            TokenType::Keyword(KeywordType::Const) => self.parse_const(),
            TokenType::Keyword(KeywordType::Enum) => self.parse_enum(),
            TokenType::Keyword(KeywordType::If) => self.parse_if(Branch::Item),
            TokenType::Keyword(KeywordType::Import) => self.parse_import(),
            TokenType::Keyword(KeywordType::Use) => self.parse_use(),
            _ => {
                let d = self.expected_error(&starting, &tk);
                self.add_error(d);
                Err(ParseFailKind::Recover)
            },
        };
        let ghost s2 = *self;
        proof {
            if inner matches Err(ParseFailKind::Recover) || inner matches Ok(None) {
                assert(s1.reported_since(s2));
            }
        }
        let result = self.recover_end(inner, true, false);
        proof {
            Self::lemma_guard(s0, s1, s2, *self);
            if result matches Ok(None) {
                assert(old(self).reported_since(*self));
            }
            assert(starting@ =~= item_keywords());
            assert(s1.chain().last()@ =~= item_keywords());
            if self.rest().len() == old(self).rest().len() && self.rest().len() > 0 {
                assert(s2.rest() =~= old(self).rest());
                assert(self.rest() =~= old(self).rest());
                if kind_in(self.rest()[0].token, item_keywords()) {
                    lemma_kind_in_items(self.rest()[0].token);
                }
            }
            if result matches Err(ParseFailKind::Recover) {
                let t = self.rest()[0].token;
                let d = choose|d: int| 0 <= d < s1.chain().len() && kind_in(t, (#[trigger] s1.chain()[d])@);
                assert(d != s1.chain().len() - 1);
                assert(s1.chain().len() == old(self).chain().len() + 1);
            }
        }
        result
    }

    /// Reads every item of the module. The result is the tree when no error
    /// was met, and the diagnostics otherwise. A module made of `import NAME;`
    /// items and assertions of integer literals joined by binary operators
    /// always parses, to exactly the trees of those items in order.
    pub fn parse(self) -> (r: Result<ParserResult, Diagnostics>)
        requires
            self.wf(),
            self.chain().len() == 0,
        ensures
            r matches Ok(res) ==> res.diagnostics.wf() && !res.diagnostics.spec_has_errors()
                && res.ast.spec_module_id() == self.spec_module()
                && self.spec_diagnostics().is_prefix_of(res.diagnostics.view())
                && (forall|i: int| 0 <= i < res.ast.view().len() ==> is_item(#[trigger] res.ast.view()[i]) && res.ast.view()[i].pos is Pos)
                && (exists|starts: Seq<int>| #[trigger] items_placed(res.ast.view(), self.rest(), starts)),
            r matches Ok(res) ==> (res.diagnostics.view().len() < usize::MAX ==> exists|starts: Seq<int>| #[trigger] items_cover(
                res.ast.view(),
                self.rest(),
                starts,
            )),
            r matches Err(ds) ==> ds.wf() && ds.spec_has_errors() && self.spec_diagnostics().is_prefix_of(ds.view()),
            self.rest().len() == 0 && (forall|i: int| 0 <= i < self.spec_diagnostics().len()
                ==> (#[trigger] self.spec_diagnostics()[i]).spec_kind() != DiagnosticKind::Error)
                ==> (r matches Ok(res) && res.ast.view().len() == 0),
            simple_program(self.rest()) && (forall|i: int| 0 <= i < self.spec_diagnostics().len()
                ==> (#[trigger] self.spec_diagnostics()[i]).spec_kind() != DiagnosticKind::Error)
                ==> (r matches Ok(res) && res.ast.view() == simple_trees(self.rest())),
    {
        let mut this = self;
        let mut ast = AST::new(this.module);
        let ghost mut starts: Seq<int> = Seq::empty();
        let ghost pre_ok = simple_program(self.rest()) && (forall|i: int| 0 <= i < self.spec_diagnostics().len()
            ==> (#[trigger] self.spec_diagnostics()[i]).spec_kind() != DiagnosticKind::Error);
        proof {
            assert(ast.view() + simple_trees(self.rest()) =~= simple_trees(self.rest()));
        }
        proof {
            self.lemma_steps_refl();
        }
        loop
            invariant
                self.steps_to(this),
                this.chain().len() == 0,
                ast.spec_module_id() == self.module,
                forall|i: int| 0 <= i < ast.view().len() ==> is_item(#[trigger] ast.view()[i]) && ast.view()[i].pos is Pos,
                self.rest().len() == 0 ==> ast.view().len() == 0 && this.diagnostics.view() == self.diagnostics.view(),
                items_placed(ast.view(), self.rest(), starts),
                forall|i: int| 0 <= i < starts.len() ==> #[trigger] starts[i] < self.rest().len() - this.rest().len(),
                !self.reported_since(this) ==> (starts.len() > 0 ==> starts[0] == 0) && (starts.len() == 0 ==> this.rest().len()
                    == self.rest().len()),
                pre_ok ==> simple_program(this.rest()) && ast.view() + simple_trees(this.rest()) == simple_trees(self.rest())
                    && this.diagnostics.view() == self.diagnostics.view(),
            ensures
                this.rest().len() == 0,
            decreases this.rest().len(),
        {
            if !this.has_next_token() {
                break;
            }
            let ghost before = this;
            let ghost at = self.rest().len() - this.rest().len();
            proof {
                assert(this.rest()[0] == self.rest()[at]);
                if pre_ok {
                    assert(simple_item(this.rest(), simple_len(this.rest())));
                }
            }
            match this.parse_item() {
                Ok(Some(item)) => {
                    let ghost before_items = ast.view();
                    ast.add_node(item);
                    proof {
                        if pre_ok {
                            let ts = before.rest();
                            assert(simple_trees(ts) == seq![simple_tree(ts, simple_len(ts))] + simple_trees(ts.skip(simple_len(ts))));
                            assert(ast.view() + simple_trees(this.rest()) =~= before_items + simple_trees(ts));
                        }
                        starts = starts.push(at);
                        assert forall|i: int| 0 <= i < ast.view().len() implies leads(self.rest()[#[trigger] starts[i]].token, ast.view()[i]) by {
                            if i < before_items.len() {
                                assert(ast.view()[i] == before_items[i]);
                            }
                        }
                    }
                },
                Ok(None) => {},
                Err(ParseFailKind::Critical(e)) => {
                    let ghost mid = this;
                    this.add_error(e);
                    proof {
                        Self::lemma_steps_trans(before, mid, this);
                    }
                },
                Err(ParseFailKind::Recover) => {},
            }
            proof {
                Self::lemma_steps_trans(self, before, this);
            }
        }
        proof {
            lemma_count_pos(this.diagnostics.view(), DiagnosticKind::Error);
            reveal(errors_in);
            if !this.diagnostics.spec_has_errors() && this.diagnostics.view().len() < usize::MAX {
                assert(!self.reported_since(this));
                assert(items_cover(ast.view(), self.rest(), starts));
            }
        }
        proof {
            if self.rest().len() == 0 && (forall|i: int| 0 <= i < self.spec_diagnostics().len()
                ==> (#[trigger] self.spec_diagnostics()[i]).spec_kind() != DiagnosticKind::Error) {
                assert(this.diagnostics.view() == self.spec_diagnostics());
                assert(!this.diagnostics.spec_has_errors());
            }
            if pre_ok {
                assert(this.diagnostics.view() == self.spec_diagnostics());
                assert(!this.diagnostics.spec_has_errors());
                assert(ast.view() + simple_trees(this.rest()) =~= ast.view());
            }
        }
        if !this.diagnostics.has_errors() {
            Ok(ParserResult { ast, diagnostics: this.diagnostics })
        } else {
            Err(this.diagnostics)
        }
    }
}

} // verus!
