//! Checking declarations: redefinitions, constants, types, enums, asserts
//! and `use` items.
use vstd::prelude::*;

use std::rc::Rc;

use super::constexpr::{ConstType, ConstValue};
use super::evaluate::{
    Resolved, errors_appended, eval_defined, evaluate_constexpr, ident_of, resolvable, resolve_path, spec_eval,
    spec_resolve,
};
use super::pins::push_ident;
use super::builder::{CannotConnectReason, CircBuilder, ConnectionBuilder, spec_connect, spec_get_endpoint};
use super::circ::Circ;
use super::evaluate::{evaluate_pinexpr, pin_eval_defined, spec_pin_eval};
use super::pins::ConnectionType;
use super::scope::{ConstSymbol, EnumSymbol, Scope, ScopeSymbol};
use crate::ast::{ConnectionDirection, Node, NodeType};
use crate::diagnostics::{Context, Diagnostic, DiagnosticKind};
use crate::tokeniser::IdentId;
use crate::util::ordered_map::concrete_eq;
use crate::util::text::push_str;
use crate::util::{Interner, ModuleId, OrderedMap, Pos};

verus! {

/// The message for redefining a builtin symbol.
pub open spec fn builtin_redefinition_text(names: Seq<Seq<char>>, name: IdentId) -> Seq<char> {
    "redefinition of builtin symbol '"@ + names[name as int] + "'"@
}

/// The message for redefining a symbol.
pub open spec fn redefinition_text(names: Seq<Seq<char>>, name: IdentId) -> Seq<char> {
    "symbol '"@ + names[name as int] + "' already defined"@
}

/// The note pointing at the first definition.
pub open spec fn first_defined_text(names: Seq<Seq<char>>, name: IdentId) -> Seq<char> {
    "'"@ + names[name as int] + "' first defined here"@
}

/// `d` reports that `name` is defined again at `defined_at`, where it stood
/// for `sym`: a builtin gets a plain error, anything else an error with a
/// note at the first definition.
pub open spec fn is_redefinition(d: Diagnostic, names: Seq<Seq<char>>, name: IdentId, defined_at: Pos, sym: ScopeSymbol) -> bool {
    if sym.spec_pos() == Pos::Builtin {
        d.is_at(DiagnosticKind::Error, builtin_redefinition_text(names, name), defined_at, Seq::empty())
    } else {
        &&& d.spec_kind() == DiagnosticKind::Error
        &&& d.spec_message() == redefinition_text(names, name)
        &&& d.spec_pos() == defined_at
        &&& d.spec_notes().len() == 1
        &&& d.note_count() == 1
        &&& d.spec_notes()[0].is_at(DiagnosticKind::Info, first_defined_text(names, name), sym.spec_pos(), Seq::empty())
    }
}

/// Whether `name` is already defined where it is about to be defined, at
/// `defined_at`; if so the error is appended to `errors`.
pub fn check_symbol_exists(
    scope: &Scope,
    idents: &Interner,
    name: IdentId,
    defined_at: Pos,
    errors: &mut Vec<Diagnostic>,
) -> (r: bool)
    requires
        scope.wf(),
        concrete_eq::<IdentId>(),
        name < idents.view().len(),
        !(scope.lookup(name) matches Some(ScopeSymbol::EnumValue { .. })),
    ensures
        r == scope.lookup(name) is Some,
        !r ==> final(errors)@ == old(errors)@,
        r ==> final(errors)@.len() == old(errors)@.len() + 1 && final(errors)@.drop_last() == old(errors)@
            && is_redefinition(final(errors)@.last(), idents.view(), name, defined_at, scope.lookup(name)->0),
{
    let sym = match scope.get_symbol(name) {
        Some(s) => s,
        None => return false,
    };
    let sym_pos = sym.pos();
    let d = match sym_pos {
        Pos::Builtin => {
            let mut m = String::new();
            push_str(&mut m, "redefinition of builtin symbol '");
            push_ident(&mut m, idents, name);
            push_str(&mut m, "'");
            proof {
                reveal_strlit("");
            }
            assert(m@ =~= builtin_redefinition_text(idents.view(), name));
            Diagnostic::error(m, defined_at)
        },
        _ => {
            let mut m = String::new();
            push_str(&mut m, "symbol '");
            push_ident(&mut m, idents, name);
            push_str(&mut m, "' already defined");
            let mut n = String::new();
            push_str(&mut n, "'");
            push_ident(&mut n, idents, name);
            push_str(&mut n, "' first defined here");
            proof {
                reveal_strlit("");
            }
            assert(m@ =~= redefinition_text(idents.view(), name));
            assert(n@ =~= first_defined_text(idents.view(), name));
            let note = Diagnostic::new(n, DiagnosticKind::Info, Context { pos: sym_pos });
            let d = Diagnostic::error(m, defined_at).add_note(note);
            assert(d.spec_notes() =~= seq![note]);
            d
        },
    };
    errors.push(d);
    assert(errors@.drop_last() =~= old(errors)@);
    true
}

/// How a type is named in a mismatch: an enum by its name, any other type by
/// its kind.
pub open spec fn type_text(names: Seq<Seq<char>>, t: ConstType) -> Seq<char> {
    match t {
        ConstType::Enum { enum_name, .. } => "enum '"@ + names[enum_name as int] + "'"@,
        _ => "'"@ + t.spec_display_name() + "'"@,
    }
}

/// The message for a value of type `got` where `expected` is needed.
pub open spec fn mismatch_text(names: Seq<Seq<char>>, expected: ConstType, got: ConstType) -> Seq<char> {
    "mismatched types: expected "@ + type_text(names, expected) + ", got "@ + type_text(names, got)
}

/// The identifiers a type names are interned.
pub open spec fn type_named(names: Seq<Seq<char>>, t: ConstType) -> bool {
    t matches ConstType::Enum { enum_name, .. } ==> enum_name < names.len()
}

fn push_type(s: &mut String, idents: &Interner, t: ConstType)
    requires
        type_named(idents.view(), t),
    ensures
        final(s)@ == old(s)@ + type_text(idents.view(), t),
{
    match t {
        ConstType::Enum { enum_name, .. } => {
            push_str(s, "enum '");
            push_ident(s, idents, enum_name);
            push_str(s, "'");
        },
        _ => {
            push_str(s, "'");
            push_str(s, t.display_name());
            push_str(s, "'");
        },
    }
    assert(final(s)@ =~= old(s)@ + type_text(idents.view(), t));
}

/// The error for a value of type `got` where `expected` is needed; it has
/// no position yet.
pub fn const_type_mismatch_error(idents: &Interner, expected: ConstType, got: ConstType) -> (d: Diagnostic)
    requires
        !expected.agrees(got),
        type_named(idents.view(), expected),
        type_named(idents.view(), got),
    ensures
        d.is_at(DiagnosticKind::Error, mismatch_text(idents.view(), expected, got), Pos::Absent, Seq::empty()),
{
    let mut m = String::new();
    push_str(&mut m, "mismatched types: expected ");
    push_type(&mut m, idents, expected);
    push_str(&mut m, ", got ");
    push_type(&mut m, idents, got);
    proof {
        reveal_strlit("");
    }
    assert(m@ =~= mismatch_text(idents.view(), expected, got));
    Diagnostic::new(m, DiagnosticKind::Error, Context::default())
}

/// The message for an assertion whose condition is not a boolean.
pub open spec fn assert_type_text(names: Seq<Seq<char>>, t: ConstType) -> Seq<char> {
    "expected boolean value in assertion condition, got "@ + type_text(names, t)
}

/// The outcome of an assertion whose condition evaluated to `v`.
pub open spec fn spec_assert(names: Seq<Seq<char>>, v: ConstValue, node_pos: Pos, cond_pos: Pos) -> Option<(Seq<char>, Pos)> {
    match v {
        ConstValue::Unknown => None,
        ConstValue::Bool(true) => None,
        ConstValue::Bool(false) => Some(("assertion failed!"@, node_pos)),
        _ => Some((assert_type_text(names, v.spec_get_type()), cond_pos)),
    }
}

/// Checks an `assert` item: its condition must be a boolean that holds.
/// Errors met evaluating the condition are appended to `errors`; a failed
/// check is the error returned.
pub fn evaluate_assert(
    scope: &Scope,
    exports: &OrderedMap<ModuleId, Rc<Scope>>,
    idents: &Interner,
    node: &Node,
    errors: &mut Vec<Diagnostic>,
) -> (r: Result<(), Diagnostic>)
    requires
        concrete_eq::<IdentId>(),
        concrete_eq::<ModuleId>(),
        exports.wf(),
        node.node_type is Assert,
        eval_defined(*scope, *exports, idents.view(), *node.node_type->Assert_0),
        type_named(idents.view(), spec_eval(*scope, *exports, idents.view(), *node.node_type->Assert_0).0.spec_get_type()),
    ensures
        errors_appended(old(errors)@, final(errors)@, spec_eval(*scope, *exports, idents.view(), *node.node_type->Assert_0).1),
        match spec_assert(
            idents.view(),
            spec_eval(*scope, *exports, idents.view(), *node.node_type->Assert_0).0,
            node.pos,
            node.node_type->Assert_0.pos,
        ) {
            None => r is Ok,
            Some((m, p)) => r matches Err(d) && d.is_error_at(m, p),
        },
{
    let condition = match node.node_type() {
        NodeType::Assert(c) => c,
        _ => return Ok(()),
    };
    let result = evaluate_constexpr(scope, exports, idents, &**condition, errors);
    match result {
        ConstValue::Unknown => Ok(()),
        ConstValue::Bool(true) => Ok(()),
        ConstValue::Bool(false) => {
            let mut m = String::new();
            push_str(&mut m, "assertion failed!");
            proof {
                reveal_strlit("");
            }
            assert(m@ =~= "assertion failed!"@);
            Err(Diagnostic::error(m, node.pos()))
        },
        _ => {
            let mut m = String::new();
            push_str(&mut m, "expected boolean value in assertion condition, got ");
            push_type(&mut m, idents, result.get_type());
            proof {
                reveal_strlit("");
            }
            assert(m@ =~= assert_type_text(idents.view(), result.spec_get_type()));
            Err(Diagnostic::error(m, condition.pos()))
        },
    }
}

/// The message for a circuit named where a constant type is needed.
pub open spec fn circ_as_type_text(names: Seq<Seq<char>>, c: IdentId) -> Seq<char> {
    "cannot use circuit type '"@ + names[c as int] + "' in a const context"@
}

/// The note pointing at the circuit.
pub open spec fn circ_defined_text(names: Seq<Seq<char>>, c: IdentId) -> Seq<char> {
    "'"@ + names[c as int] + "' defined here, as a circuit"@
}

/// The message for a value named where a type is needed.
pub open spec fn value_as_type_text(names: Seq<Seq<char>>, v: IdentId) -> Seq<char> {
    "cannot use value '"@ + names[v as int] + "' as a type"@
}

/// The constant type a path names: a primitive type or an enum; anything
/// else is unknown.
pub open spec fn spec_const_type(scope: Scope, exports: OrderedMap<ModuleId, Rc<Scope>>, names: Seq<Seq<char>>, path: Seq<Node>) -> ConstType {
    match spec_resolve(scope, exports, names, path) {
        Ok(ScopeSymbol::PrimitiveType(t)) => t,
        Ok(ScopeSymbol::EnumType(e)) => ConstType::Enum { module_id: e.module_id, enum_name: e.name },
        _ => ConstType::Unknown,
    }
}

/// The error reported for the type path `path` at `pos`, if any.
pub open spec fn const_type_error_ok(
    d: Diagnostic,
    scope: Scope,
    exports: OrderedMap<ModuleId, Rc<Scope>>,
    names: Seq<Seq<char>>,
    path: Seq<Node>,
    pos: Pos,
) -> bool {
    match spec_resolve(scope, exports, names, path) {
        Err((m, p)) => d.is_error_at(m, p),
        Ok(ScopeSymbol::Circ(c)) => {
            &&& d.spec_kind() == DiagnosticKind::Error
            &&& d.spec_message() == circ_as_type_text(names, c.name)
            &&& d.spec_pos() == pos
            &&& d.note_count() == 1
            &&& d.spec_notes().len() == 1
            &&& d.spec_notes()[0].is_at(DiagnosticKind::Info, circ_defined_text(names, c.name), c.pos, Seq::empty())
        },
        Ok(sym) => d.is_error_at(value_as_type_text(names, sym.spec_name()), pos),
    }
}

/// Whether naming `path` as a type reports an error.
pub open spec fn const_type_reports(scope: Scope, exports: OrderedMap<ModuleId, Rc<Scope>>, names: Seq<Seq<char>>, path: Seq<Node>) -> bool {
    !(spec_resolve(scope, exports, names, path) matches Ok(ScopeSymbol::PrimitiveType(_)))
        && !(spec_resolve(scope, exports, names, path) matches Ok(ScopeSymbol::EnumType(_)))
}

/// The paths that can be read as a type without failing outright.
pub open spec fn const_type_defined(scope: Scope, exports: OrderedMap<ModuleId, Rc<Scope>>, names: Seq<Seq<char>>, path: Seq<Node>) -> bool {
    &&& resolvable(scope, exports, names, path)
    &&& match spec_resolve(scope, exports, names, path) {
        Ok(ScopeSymbol::EnumValue { .. }) => false,
        Ok(ScopeSymbol::PrimitiveType(_)) | Ok(ScopeSymbol::EnumType(_)) | Err(_) => true,
        Ok(sym) => sym.spec_name() < names.len(),
    }
}

/// The constant type named by the path node `path_node`; an error is
/// appended to `errors` when it names no such type.
pub fn get_const_type(
    scope: &Scope,
    exports: &OrderedMap<ModuleId, Rc<Scope>>,
    idents: &Interner,
    path_node: &Node,
    errors: &mut Vec<Diagnostic>,
) -> (t: ConstType)
    requires
        concrete_eq::<IdentId>(),
        concrete_eq::<ModuleId>(),
        exports.wf(),
        path_node.node_type is Path,
        const_type_defined(*scope, *exports, idents.view(), path_node.node_type->Path_0@),
    ensures
        t == spec_const_type(*scope, *exports, idents.view(), path_node.node_type->Path_0@),
        !const_type_reports(*scope, *exports, idents.view(), path_node.node_type->Path_0@) ==> final(errors)@
            == old(errors)@,
        const_type_reports(*scope, *exports, idents.view(), path_node.node_type->Path_0@) ==> final(errors)@.len()
            == old(errors)@.len() + 1 && final(errors)@.drop_last() == old(errors)@ && const_type_error_ok(
            final(errors)@.last(),
            *scope,
            *exports,
            idents.view(),
            path_node.node_type->Path_0@,
            path_node.pos,
        ),
{
    let path = match path_node.node_type() {
        NodeType::Path(p) => p,
        _ => return ConstType::Unknown,
    };
    let d = match resolve_path(scope, exports, idents, path.as_slice()) {
        Err(d) => d,
        Ok(Resolved::Symbol(ScopeSymbol::PrimitiveType(t))) => return *t,
        Ok(Resolved::Symbol(ScopeSymbol::EnumType(e))) => return ConstType::Enum {
            module_id: e.module_id,
            enum_name: e.name,
        },
        Ok(Resolved::Symbol(ScopeSymbol::Circ(c))) => {
            let mut m = String::new();
            push_str(&mut m, "cannot use circuit type '");
            push_ident(&mut m, idents, c.name);
            push_str(&mut m, "' in a const context");
            let mut n = String::new();
            push_str(&mut n, "'");
            push_ident(&mut n, idents, c.name);
            push_str(&mut n, "' defined here, as a circuit");
            proof {
                reveal_strlit("");
            }
            assert(m@ =~= circ_as_type_text(idents.view(), c.name));
            assert(n@ =~= circ_defined_text(idents.view(), c.name));
            let note = Diagnostic::new(n, DiagnosticKind::Info, Context { pos: c.pos });
            let d = Diagnostic::error(m, path_node.pos()).add_note(note);
            assert(d.spec_notes() =~= seq![note]);
            d
        },
        Ok(Resolved::Symbol(sym)) => {
            let name = sym.name();
            let mut m = String::new();
            push_str(&mut m, "cannot use value '");
            push_ident(&mut m, idents, name);
            push_str(&mut m, "' as a type");
            proof {
                reveal_strlit("");
            }
            assert(m@ =~= value_as_type_text(idents.view(), name));
            Diagnostic::error(m, path_node.pos())
        },
        Ok(Resolved::EnumValue { .. }) => return ConstType::Unknown,
    };
    errors.push(d);
    assert(errors@.drop_last() =~= old(errors)@);
    ConstType::Unknown
}

/// How the declared type is named in the note of a mismatch.
pub open spec fn declared_type_text(names: Seq<Seq<char>>, t: ConstType) -> Seq<char> {
    "type declared here as '"@ + match t {
        ConstType::Enum { enum_name, .. } => names[enum_name as int],
        _ => t.spec_display_name(),
    } + "'"@
}

/// `d` reports a value of type `got` given for a declaration of type
/// `expected` at `pos`, with a note at the type, `type_pos`.
pub open spec fn is_mismatch(d: Diagnostic, names: Seq<Seq<char>>, expected: ConstType, got: ConstType, pos: Pos, type_pos: Pos) -> bool {
    &&& d.spec_kind() == DiagnosticKind::Error
    &&& d.spec_message() == mismatch_text(names, expected, got)
    &&& d.spec_pos() == pos
    &&& d.note_count() == 1
    &&& d.spec_notes().len() == 1
    &&& d.spec_notes()[0].is_at(DiagnosticKind::Info, declared_type_text(names, expected), type_pos, Seq::empty())
}

/// The mismatch error for a declaration at `pos` whose type is at `type_pos`.
pub(crate) fn declaration_mismatch(idents: &Interner, expected: ConstType, got: ConstType, pos: Pos, type_pos: Pos) -> (d: Diagnostic)
    requires
        !expected.agrees(got),
        type_named(idents.view(), expected),
        type_named(idents.view(), got),
    ensures
        is_mismatch(d, idents.view(), expected, got, pos, type_pos),
{
    let mut n = String::new();
    push_str(&mut n, "type declared here as '");
    match expected {
        ConstType::Enum { enum_name, .. } => push_ident(&mut n, idents, enum_name),
        _ => push_str(&mut n, expected.display_name()),
    }
    push_str(&mut n, "'");
    proof {
        reveal_strlit("");
    }
    assert(n@ =~= declared_type_text(idents.view(), expected));
    let note = Diagnostic::new(n, DiagnosticKind::Info, Context { pos: type_pos });
    let d = const_type_mismatch_error(idents, expected, got).with_pos(pos).add_note(note);
    assert(d.spec_notes() =~= seq![note]);
    d
}

/// The parts of a constant declaration.
pub open spec fn decl_type(node: Node) -> Node {
    *node.node_type->ConstDecl_ty
}

pub open spec fn decl_name(node: Node) -> Node {
    *node.node_type->ConstDecl_name
}

pub open spec fn decl_expr(node: Node) -> Node {
    *node.node_type->ConstDecl_expr
}

/// The constant declarations that can be checked without failing outright.
pub open spec fn constdecl_defined(scope: Scope, exports: OrderedMap<ModuleId, Rc<Scope>>, names: Seq<Seq<char>>, node: Node) -> bool {
    &&& node.node_type is ConstDecl
    &&& scope.wf()
    &&& decl_type(node).node_type is Path
    &&& const_type_defined(scope, exports, names, decl_type(node).node_type->Path_0@)
    &&& decl_name(node).node_type is Identifier
    &&& ident_of(decl_name(node)) < names.len()
    &&& !(scope.lookup(ident_of(decl_name(node))) matches Some(ScopeSymbol::EnumValue { .. }))
    &&& eval_defined(scope, exports, names, decl_expr(node))
    &&& type_named(names, spec_const_type(scope, exports, names, decl_type(node).node_type->Path_0@))
    &&& type_named(names, spec_eval(scope, exports, names, decl_expr(node)).0.spec_get_type())
}

/// The errors checking a constant declaration appends, in order: for its
/// type, for its name being taken, for its value, and for a value of the
/// wrong type.
pub open spec fn constdecl_errors_ok(
    scope: Scope,
    exports: OrderedMap<ModuleId, Rc<Scope>>,
    names: Seq<Seq<char>>,
    node: Node,
    before: Seq<Diagnostic>,
    after: Seq<Diagnostic>,
) -> bool {
    let path = decl_type(node).node_type->Path_0@;
    let t = spec_const_type(scope, exports, names, path);
    let name = ident_of(decl_name(node));
    let v = spec_eval(scope, exports, names, decl_expr(node)).0;
    let eval_errs = spec_eval(scope, exports, names, decl_expr(node)).1;
    let n0: int = before.len() as int;
    let n1: int = n0 + if const_type_reports(scope, exports, names, path) {
        1int
    } else {
        0int
    };
    let n2: int = n1 + if scope.lookup(name) is Some {
        1int
    } else {
        0int
    };
    let n3: int = n2 + eval_errs.len();
    let mismatch = !(v.spec_get_type() is Unknown) && !(t is Unknown) && !t.agrees(v.spec_get_type());
    &&& after.len() == n3 + if mismatch {
        1int
    } else {
        0int
    }
    &&& after.subrange(0, n0) == before
    &&& const_type_reports(scope, exports, names, path) ==> const_type_error_ok(
        after[n0],
        scope,
        exports,
        names,
        path,
        decl_type(node).pos,
    )
    &&& scope.lookup(name) is Some ==> is_redefinition(after[n1], names, name, decl_name(node).pos, scope.lookup(name)->0)
    &&& errors_appended(after.subrange(0, n2), after.subrange(0, n3), eval_errs)
    &&& mismatch ==> is_mismatch(after[n3], names, t, v.spec_get_type(), node.pos, decl_type(node).pos)
}

/// Checks a constant declaration and, unless its name is taken or its type
/// or value could not be worked out, declares the constant in `scope`. A
/// value of the wrong type is reported and the constant declared unknown.
pub fn evaluate_constdecl(
    scope: &mut Scope,
    exports: &OrderedMap<ModuleId, Rc<Scope>>,
    idents: &Interner,
    node: &Node,
    errors: &mut Vec<Diagnostic>,
)
    requires
        concrete_eq::<IdentId>(),
        concrete_eq::<ModuleId>(),
        exports.wf(),
        constdecl_defined(*old(scope), *exports, idents.view(), *node),
    ensures
        final(scope).wf(),
        final(scope).spec_parent() == old(scope).spec_parent(),
        ({
            let names = idents.view();
            let t = spec_const_type(*old(scope), *exports, names, decl_type(*node).node_type->Path_0@);
            let name = ident_of(decl_name(*node));
            let v = spec_eval(*old(scope), *exports, names, decl_expr(*node)).0;
            let declared = old(scope).lookup(name) is None && !(v.spec_get_type() is Unknown) && !(t is Unknown);
            let value = if t.agrees(v.spec_get_type()) {
                v
            } else {
                ConstValue::Unknown
            };
            &&& declared ==> final(scope).lookup(name) == Some(
                ScopeSymbol::Const(ConstSymbol { name, ty: t, value, pos: node.pos }),
            )
            &&& !declared ==> final(scope).lookup(name) == old(scope).lookup(name)
            &&& forall|n: IdentId| n != name ==> #[trigger] final(scope).lookup(n) == old(scope).lookup(n)
        }),
        constdecl_errors_ok(*old(scope), *exports, idents.view(), *node, old(errors)@, final(errors)@),
{
    let (ty_node, name_node, expr) = match node.node_type() {
        NodeType::ConstDecl { ty, name, expr } => (ty, name, expr),
        _ => return,
    };
    let ghost e0 = errors@;
    let const_type = get_const_type(scope, exports, idents, &**ty_node, errors);
    let ghost e1 = errors@;
    let name = match name_node.node_type() {
        NodeType::Identifier(n) => *n,
        _ => 0,
    };
    let already_defined = check_symbol_exists(scope, idents, name, name_node.pos(), errors);
    let ghost e2 = errors@;
    let mut value = evaluate_constexpr(scope, exports, idents, &**expr, errors);
    let ghost e3 = errors@;
    proof {
        assert(e1.subrange(0, e0.len() as int) =~= e0) by {
            if e1.len() > e0.len() {
                assert(e1.drop_last() == e0);
            }
        }
        assert(e2.subrange(0, e1.len() as int) =~= e1) by {
            if e2.len() > e1.len() {
                assert(e2.drop_last() == e1);
            }
        }
        assert(e3.subrange(0, e0.len() as int) =~= e0) by {
            assert forall|i: int| 0 <= i < e0.len() implies e3[i] == e0[i] by {
                assert(e3.subrange(0, e2.len() as int)[i] == e2[i]);
                assert(e2.subrange(0, e1.len() as int)[i] == e1[i]);
                assert(e1.subrange(0, e0.len() as int)[i] == e0[i]);
            }
        }
        assert(e3.subrange(0, e2.len() as int) == e2);
        assert(e3.subrange(0, e2.len() as int).subrange(0, e1.len() as int) =~= e3.subrange(0, e1.len() as int));
        if e1.len() > e0.len() {
            assert(e3[e0.len() as int] == e1[e0.len() as int]) by {
                assert(e3.subrange(0, e2.len() as int)[e0.len() as int] == e2[e0.len() as int]);
                assert(e2.subrange(0, e1.len() as int)[e0.len() as int] == e1[e0.len() as int]);
            }
        }
        if e2.len() > e1.len() {
            assert(e3[e1.len() as int] == e2[e1.len() as int]) by {
                assert(e3.subrange(0, e2.len() as int)[e1.len() as int] == e2[e1.len() as int]);
            }
        }
    }
    proof {
        assert(e2.len() == e1.len() + if old(scope).lookup(name) is Some { 1int } else { 0int });
        assert(e3.subrange(0, e2.len() as int) == e2);
        assert(errors_appended(e3.subrange(0, e2.len() as int), e3.subrange(0, e3.len() as int), spec_eval(*old(scope), *exports, idents.view(), decl_expr(*node)).1)) by {
            assert(e3.subrange(0, e3.len() as int) =~= e3);
        }
    }
    if value.get_type().is_unknown() || const_type.is_unknown() {
        proof {
            assert(errors@.subrange(0, e3.len() as int) =~= errors@);
            assert(constdecl_errors_ok(*old(scope), *exports, idents.view(), *node, e0, errors@));
        }
        return;
    }
    if const_type != value.get_type() {
        let d = declaration_mismatch(idents, const_type, value.get_type(), node.pos(), ty_node.pos());
        errors.push(d);
        proof {
            assert(errors@.subrange(0, e3.len() as int) =~= e3);
            assert(errors@.subrange(0, e0.len() as int) =~= e0) by {
                assert forall|i: int| 0 <= i < e0.len() implies errors@[i] == e0[i] by {
                    assert(errors@.subrange(0, e3.len() as int)[i] == e3[i]);
                    assert(e3.subrange(0, e0.len() as int)[i] == e0[i]);
                }
            }
            assert(errors@.subrange(0, e2.len() as int) =~= e2) by {
                assert forall|i: int| 0 <= i < e2.len() implies errors@[i] == e2[i] by {
                    assert(errors@.subrange(0, e3.len() as int)[i] == e3[i]);
                }
            }
            assert(errors@.subrange(0, e3.len() as int) =~= e3);
            if e1.len() > e0.len() {
                assert(errors@[e0.len() as int] == e3[e0.len() as int]);
            }
            if e2.len() > e1.len() {
                assert(errors@[e1.len() as int] == e3[e1.len() as int]);
            }
        }
        value = ConstValue::Unknown;
    }
    if already_defined {
        return;
    }
    scope.add_const(ConstSymbol { name, ty: const_type, value, pos: node.pos() });
}

/// `d` is an error with a note: message `m` at `p`, note `nm` at `np`.
pub open spec fn is_noted_error(d: Diagnostic, m: Seq<char>, p: Pos, nm: Seq<char>, np: Pos) -> bool {
    &&& d.spec_kind() == DiagnosticKind::Error
    &&& d.spec_message() == m
    &&& d.spec_pos() == p
    &&& d.note_count() == 1
    &&& d.spec_notes().len() == 1
    &&& d.spec_notes()[0].is_at(DiagnosticKind::Info, nm, np, Seq::empty())
}

/// The distinct names among `variants`, in order of first appearance, with
/// the position of each first appearance.
pub open spec fn first_variants(variants: Seq<Node>) -> (Seq<IdentId>, Seq<Pos>)
    decreases variants.len(),
{
    if variants.len() == 0 {
        (Seq::empty(), Seq::empty())
    } else {
        let (names, positions) = first_variants(variants.drop_last());
        let v = ident_of(variants.last());
        if names.contains(v) {
            (names, positions)
        } else {
            (names.push(v), positions.push(variants.last().pos))
        }
    }
}

/// The message for a variant named twice.
pub open spec fn duplicate_variant_text(names: Seq<Seq<char>>, v: IdentId, e: IdentId) -> Seq<char> {
    "duplicate variant '"@ + names[v as int] + "' in enum '"@ + names[e as int] + "'"@
}

/// The errors for variants named again, in order: each with its message,
/// position, and the note at the first appearance.
pub open spec fn duplicate_variant_errors(names: Seq<Seq<char>>, e: IdentId, variants: Seq<Node>) -> Seq<
    (Seq<char>, Pos, Seq<char>, Pos),
>
    decreases variants.len(),
{
    if variants.len() == 0 {
        Seq::empty()
    } else {
        let before = duplicate_variant_errors(names, e, variants.drop_last());
        let (seen, positions) = first_variants(variants.drop_last());
        let v = ident_of(variants.last());
        if seen.contains(v) {
            before.push(
                (
                    duplicate_variant_text(names, v, e),
                    variants.last().pos,
                    first_defined_text(names, v),
                    positions[seen.index_of(v)],
                ),
            )
        } else {
            before
        }
    }
}

/// `after` is `before` followed by errors with notes as listed.
pub open spec fn noted_errors_appended(before: Seq<Diagnostic>, after: Seq<Diagnostic>, errs: Seq<(Seq<char>, Pos, Seq<char>, Pos)>) -> bool {
    &&& after.len() == before.len() + errs.len()
    &&& after.subrange(0, before.len() as int) == before
    &&& forall|i: int|
        0 <= i < errs.len() ==> is_noted_error(
            #[trigger] after[before.len() + i],
            errs[i].0,
            errs[i].1,
            errs[i].2,
            errs[i].3,
        )
}

proof fn lemma_first_variants(variants: Seq<Node>)
    ensures
        first_variants(variants).0.no_duplicates(),
        first_variants(variants).0.len() == first_variants(variants).1.len(),
    decreases variants.len(),
{
    if variants.len() > 0 {
        lemma_first_variants(variants.drop_last());
    }
}

/// Checks an enum declaration: a variant named twice is reported and
/// passed over. Unless its name is taken, the enum is declared in `scope`
/// with the module its name is in.
pub fn evaluate_enum(scope: &mut Scope, idents: &Interner, node: &Node, errors: &mut Vec<Diagnostic>)
    requires
        concrete_eq::<IdentId>(),
        old(scope).wf(),
        node.node_type is Enum,
        (*node.node_type->Enum_name).node_type is Identifier,
        ident_of(*node.node_type->Enum_name) < idents.view().len(),
        (*node.node_type->Enum_name).pos.spec_module_id() is Some,
        !(old(scope).lookup(ident_of(*node.node_type->Enum_name)) matches Some(ScopeSymbol::EnumValue { .. })),
        forall|i: int|
            0 <= i < node.node_type->Enum_variants@.len() ==> (#[trigger] node.node_type->Enum_variants@[i]).node_type is Identifier
                && ident_of(node.node_type->Enum_variants@[i]) < idents.view().len(),
    ensures
        final(scope).wf(),
        final(scope).spec_parent() == old(scope).spec_parent(),
        ({
            let name = ident_of(*node.node_type->Enum_name);
            let variants = node.node_type->Enum_variants@;
            &&& old(scope).lookup(name) is Some ==> final(scope).lookup(name) == old(scope).lookup(name)
            &&& old(scope).lookup(name) is None ==> (final(scope).lookup(name) matches Some(ScopeSymbol::EnumType(e))
                && e.module_id == (*node.node_type->Enum_name).pos.spec_module_id()->0 && e.name == name && e.pos
                == node.pos && e.variants.wf() && e.variants.key_seq() == first_variants(variants).0
                && e.variants.value_seq() == first_variants(variants).1)
            &&& forall|n: IdentId| n != name ==> #[trigger] final(scope).lookup(n) == old(scope).lookup(n)
        }),
        ({
            let name = ident_of(*node.node_type->Enum_name);
            let variants = node.node_type->Enum_variants@;
            let n0: int = old(errors)@.len() as int;
            let n1: int = n0 + if old(scope).lookup(name) is Some {
                1int
            } else {
                0int
            };
            &&& final(errors)@.subrange(0, n0) == old(errors)@
            &&& old(scope).lookup(name) is Some ==> is_redefinition(
                final(errors)@[n0],
                idents.view(),
                name,
                (*node.node_type->Enum_name).pos,
                old(scope).lookup(name)->0,
            )
            &&& noted_errors_appended(
                final(errors)@.subrange(0, n1),
                final(errors)@,
                duplicate_variant_errors(idents.view(), name, variants),
            )
        }),
{
    let (name_node, variants) = match node.node_type() {
        NodeType::Enum { name, variants } => (name, variants),
        _ => return,
    };
    let name = match name_node.node_type() {
        NodeType::Identifier(n) => *n,
        _ => 0,
    };
    let ghost e0 = errors@;
    let already_defined = check_symbol_exists(scope, idents, name, name_node.pos(), errors);
    let ghost e1 = errors@;
    proof {
        assert(e1.subrange(0, e0.len() as int) =~= e0) by {
            if e1.len() > e0.len() {
                assert(e1.drop_last() == e0);
            }
        }
    }
    let mut variant_map: OrderedMap<IdentId, Pos> = OrderedMap::new();
    let n = variants.len();
    let mut i: usize = 0;
    assert(e1.subrange(0, e1.len() as int) =~= e1);
    while i < n
        invariant
            n == variants@.len(),
            i <= n,
            concrete_eq::<IdentId>(),
            variant_map.wf(),
            forall|j: int| 0 <= j < variants@.len() ==> (#[trigger] variants@[j]).node_type is Identifier && ident_of(
                variants@[j],
            ) < idents.view().len(),
            name < idents.view().len(),
            variant_map.key_seq() == first_variants(variants@.subrange(0, i as int)).0,
            variant_map.value_seq() == first_variants(variants@.subrange(0, i as int)).1,
            errors@.subrange(0, e1.len() as int) == e1,
            noted_errors_appended(e1, errors@, duplicate_variant_errors(idents.view(), name, variants@.subrange(0, i as int))),
        decreases n - i,
    {
        let v = &variants[i];
        let vname = match v.node_type() {
            NodeType::Identifier(x) => *x,
            _ => 0,
        };
        let ghost prefix = variants@.subrange(0, i as int);
        let ghost next = variants@.subrange(0, i + 1);
        proof {
            assert(next.drop_last() =~= prefix);
            lemma_first_variants(prefix);
        }
        match variant_map.get_entry(&vname) {
            Some((k, first_pos)) => {
                proof {
                    crate::util::ordered_map::lemma_keys_distinct(variant_map);
                    let kk = variant_map.key_seq().index_of(vname);
                    if kk != k {
                        assert(variant_map.key_seq()[kk] != variant_map.key_seq()[k as int]);
                    }
                }
                let mut m = String::new();
                push_str(&mut m, "duplicate variant '");
                push_ident(&mut m, idents, vname);
                push_str(&mut m, "' in enum '");
                push_ident(&mut m, idents, name);
                push_str(&mut m, "'");
                let mut nm = String::new();
                push_str(&mut nm, "'");
                push_ident(&mut nm, idents, vname);
                push_str(&mut nm, "' first defined here");
                proof {
                    reveal_strlit("");
                }
                assert(m@ =~= duplicate_variant_text(idents.view(), vname, name));
                assert(nm@ =~= first_defined_text(idents.view(), vname));
                let note = Diagnostic::new(nm, DiagnosticKind::Info, Context { pos: *first_pos });
                let d = Diagnostic::error(m, v.pos()).add_note(note);
                assert(d.spec_notes() =~= seq![note]);
                let ghost eb = errors@;
                errors.push(d);
                proof {
                    let errs = duplicate_variant_errors(idents.view(), name, next);
                    assert(errs =~= duplicate_variant_errors(idents.view(), name, prefix).push(
                        (
                            duplicate_variant_text(idents.view(), vname, name),
                            v.pos,
                            first_defined_text(idents.view(), vname),
                            *first_pos,
                        ),
                    ));
                    assert(errors@.subrange(0, e1.len() as int) =~= e1) by {
                        assert forall|q: int| 0 <= q < e1.len() implies errors@[q] == e1[q] by {
                            assert(eb.subrange(0, e1.len() as int)[q] == e1[q]);
                        }
                    }
                    assert forall|q: int| 0 <= q < errs.len() implies is_noted_error(
                        #[trigger] errors@[e1.len() + q],
                        errs[q].0,
                        errs[q].1,
                        errs[q].2,
                        errs[q].3,
                    ) by {
                        if q < errs.len() - 1 {
                            assert(errors@[e1.len() + q] == eb[e1.len() + q]);
                        }
                    }
                }
            },
            None => {
                let _ = variant_map.insert(vname, v.pos());
                proof {
                    assert(duplicate_variant_errors(idents.view(), name, next) =~= duplicate_variant_errors(
                        idents.view(),
                        name,
                        prefix,
                    ));
                }
            },
        }
        i = i + 1;
    }
    proof {
        assert(variants@.subrange(0, n as int) =~= variants@);
    }
    if already_defined {
        return;
    }
    let module_id = match name_node.pos().module_id() {
        Some(m) => m,
        None => 0,
    };
    scope.add_enum(EnumSymbol { module_id, name, variants: variant_map, pos: node.pos() });
}

/// The path a `use` item names.
pub open spec fn use_path(node: Node) -> Seq<Node> {
    (*node.node_type->Use_path).node_type->Path_0@
}

/// The name a `use` item declares: its `as` name, else the last part of its path.
pub open spec fn use_name(node: Node) -> IdentId {
    match node.node_type->Use_as_name {
        Some(n) => ident_of(*n),
        None => ident_of(use_path(node).last()),
    }
}

/// Checks a `use` item: the symbol its path resolves to is declared in
/// `scope` under its name, unless the name is taken. A path that does not
/// resolve is reported.
pub fn evaluate_use(
    scope: &mut Scope,
    exports: &OrderedMap<ModuleId, Rc<Scope>>,
    idents: &Interner,
    node: &Node,
    errors: &mut Vec<Diagnostic>,
)
    requires
        concrete_eq::<IdentId>(),
        concrete_eq::<ModuleId>(),
        exports.wf(),
        node.node_type is Use,
        (*node.node_type->Use_path).node_type is Path,
        resolvable(*old(scope), *exports, idents.view(), use_path(*node)),
        node.node_type->Use_as_name matches Some(n) ==> (*n).node_type is Identifier,
        use_name(*node) < idents.view().len(),
        !(old(scope).lookup(use_name(*node)) matches Some(ScopeSymbol::EnumValue { .. })),
    ensures
        final(scope).wf(),
        final(scope).spec_parent() == old(scope).spec_parent(),
        ({
            let name = use_name(*node);
            let r = spec_resolve(*old(scope), *exports, idents.view(), use_path(*node));
            &&& (old(scope).lookup(name) is None && r is Ok) ==> final(scope).lookup(name) == Some(r->Ok_0)
            &&& !(old(scope).lookup(name) is None && r is Ok) ==> final(scope).lookup(name) == old(scope).lookup(name)
            &&& forall|n: IdentId| n != name ==> #[trigger] final(scope).lookup(n) == old(scope).lookup(n)
        }),
        ({
            let name = use_name(*node);
            let r = spec_resolve(*old(scope), *exports, idents.view(), use_path(*node));
            let n0: int = old(errors)@.len() as int;
            let n1: int = n0 + if r is Err {
                1int
            } else {
                0int
            };
            &&& final(errors)@.len() == n1 + if old(scope).lookup(name) is Some {
                1int
            } else {
                0int
            }
            &&& final(errors)@.subrange(0, n0) == old(errors)@
            &&& r matches Err((m, p)) ==> final(errors)@[n0].is_error_at(m, p)
            &&& old(scope).lookup(name) is Some ==> is_redefinition(
                final(errors)@[n1],
                idents.view(),
                name,
                node.pos,
                old(scope).lookup(name)->0,
            )
        }),
{
    let (path_node, as_name) = match node.node_type() {
        NodeType::Use { path, as_name } => (path, as_name),
        _ => return,
    };
    let path = match path_node.node_type() {
        NodeType::Path(p) => p,
        _ => return,
    };
    let ghost e0 = errors@;
    let symbol = match resolve_path(scope, exports, idents, path.as_slice()) {
        Ok(Resolved::Symbol(s)) => Some(s.duplicate()),
        Ok(Resolved::EnumValue { module_id, enum_name, variant }) => Some(
            ScopeSymbol::EnumValue { module_id, enum_name, variant },
        ),
        Err(d) => {
            errors.push(d);
            None
        },
    };
    let ghost e1 = errors@;
    let name_node = match as_name {
        Some(n) => &**n,
        None => &path[path.len() - 1],
    };
    let name = match name_node.node_type() {
        NodeType::Identifier(x) => *x,
        _ => 0,
    };
    let exists = check_symbol_exists(scope, idents, name, node.pos(), errors);
    proof {
        assert(e1.subrange(0, e0.len() as int) =~= e0) by {
            if e1.len() > e0.len() {
                assert(e1.drop_last() =~= e0);
            }
        }
        assert(errors@.subrange(0, e0.len() as int) =~= e0) by {
            assert forall|i: int| 0 <= i < e0.len() implies errors@[i] == e0[i] by {
                assert(e1.subrange(0, e0.len() as int)[i] == e0[i]);
                if errors@.len() > e1.len() {
                    assert(errors@.drop_last()[i] == e1[i]);
                }
            }
        }
        if errors@.len() > e1.len() && e1.len() > e0.len() {
            assert(errors@.drop_last()[e0.len() as int] == e1[e0.len() as int]);
        }
    }
    if !exists {
        if let Some(sym) = symbol {
            scope.add_symbol(name, sym);
        }
    }
}

/// The pin expression on the source side of a connection and the one on
/// the destination side: a right-to-left connection swaps its sides.
pub open spec fn connection_sides(node: Node) -> (Node, Node) {
    let lhs = *node.node_type->Connection_lhs;
    let rhs = *node.node_type->Connection_rhs;
    if node.node_type->Connection_direction == ConnectionDirection::RightToLeft {
        (rhs, lhs)
    } else {
        (lhs, rhs)
    }
}

/// The connections that can be checked without failing outright: both
/// sides evaluate, and they either connect or one of them is unknown.
pub open spec fn connection_defined(
    scope: Scope,
    exports: OrderedMap<ModuleId, Rc<Scope>>,
    names: Seq<Seq<char>>,
    b: CircBuilder,
    circs: Seq<Circ>,
    node: Node,
) -> bool {
    let (src, dst) = connection_sides(node);
    let l = spec_pin_eval(scope, exports, names, b, circs, src).0;
    let r = spec_pin_eval(scope, exports, names, b, circs, dst).0;
    &&& node.node_type is Connection
    &&& pin_eval_defined(scope, exports, names, b, circs, src)
    &&& pin_eval_defined(scope, exports, names, b, circs, dst)
    &&& (l.spec_pin() is Some ==> l.spec_width() >= 0)
    &&& (r.spec_pin() is Some ==> r.spec_width() >= 0)
    &&& (spec_connect(l, r) is Ok || spec_connect(l, r) == Err::<(), CannotConnectReason>(CannotConnectReason::Unknown))
}

/// Checks a connection item and, when its sides connect, adds the
/// connection to the circuit being built. Errors met evaluating the sides
/// are appended to `errors`, those of the source side first.
pub fn evaluate_connection(
    scope: &Scope,
    exports: &OrderedMap<ModuleId, Rc<Scope>>,
    idents: &Interner,
    b: &mut CircBuilder,
    circs: &[Circ],
    node: &Node,
    errors: &mut Vec<Diagnostic>,
) -> (connected: bool)
    requires
        concrete_eq::<IdentId>(),
        concrete_eq::<ModuleId>(),
        exports.wf(),
        old(b).wf(),
        connection_defined(*scope, *exports, idents.view(), *old(b), circs@, *node),
    ensures
        ({
            let (src, dst) = connection_sides(*node);
            let l = spec_pin_eval(*scope, *exports, idents.view(), *old(b), circs@, src);
            let r = spec_pin_eval(*scope, *exports, idents.view(), *old(b), circs@, dst);
            &&& connected == spec_connect(l.0, r.0) is Ok
            &&& errors_appended(old(errors)@, final(errors)@, l.1 + r.1)
        }),
        final(b).wf(),
        final(b).connection_count() == old(b).connection_count() + if connected {
            1int
        } else {
            0int
        },
        final(b).pin_names() == old(b).pin_names(),
        final(b).pin_values() == old(b).pin_values(),
        final(b).dependency_names() == old(b).dependency_names(),
        final(b).dependency_values() == old(b).dependency_values(),
{
    let (lhs, direction, rhs) = match node.node_type() {
        NodeType::Connection { lhs, direction, rhs } => (lhs, *direction, rhs),
        _ => return false,
    };
    let (src, dst) = match direction {
        ConnectionDirection::RightToLeft => (rhs, lhs),
        _ => (lhs, rhs),
    };
    let connection = match direction {
        ConnectionDirection::Bidrectional => ConnectionBuilder::new().bidirectional(),
        _ => ConnectionBuilder::new().unidirectional(),
    };
    let ghost e0 = errors@;
    let l = evaluate_pinexpr(scope, exports, idents, b, circs, &**src, errors);
    let ghost e1 = errors@;
    let r = evaluate_pinexpr(scope, exports, idents, b, circs, &**dst, errors);
    proof {
        let (s, d) = connection_sides(*node);
        super::evaluate::lemma_errors_appended_trans(
            e0,
            e1,
            errors@,
            spec_pin_eval(*scope, *exports, idents.view(), *b, circs@, s).1,
            spec_pin_eval(*scope, *exports, idents.view(), *b, circs@, d).1,
        );
    }
    let mut connection = connection;
    match connection.connect(l, r) {
        Ok(()) => {
            b.add_connection(connection);
            true
        },
        Err(_) => false,
    }
}

} // verus!
