//! Checking the statements of a circuit: pin declarations.
use vstd::prelude::*;

use std::rc::Rc;

use super::builder::CircBuilder;
use super::constexpr::ConstValue;
use super::circ::CircSignature;
use super::evaluate::{
    Resolved, circ_args_defined, errors_appended, eval_defined, evaluate_constexpr, get_resolved_circ_args, ident_of,
    read_args, read_errors, resolvable, resolve_path, spec_circ_args, spec_eval, spec_resolve,
};
use super::constexpr::ConstType;
use super::items::{
    check_symbol_exists, const_type_defined, const_type_error_ok, const_type_reports, declaration_mismatch,
    first_defined_text, get_const_type, is_mismatch, is_noted_error, is_redefinition, spec_const_type, type_named,
};
use super::pins::{push_decimal, push_ident};
use super::{magnitude, magnitude_of};
use crate::util::text::decimal;
use super::scope::{CircArg, CircKind, CircSymbol};
use crate::diagnostics::{Context, DiagnosticKind};
use crate::util::ordered_map::lemma_keys_distinct;
use crate::util::text::push_str;
use super::local::LocalType;
use super::pins::Pin;
use super::scope::{LocalSymbol, Scope, ScopeSymbol};
use crate::ast::{Node, NodeType, PinDirection};
use crate::diagnostics::Diagnostic;
use crate::tokeniser::IdentId;
use crate::util::ordered_map::concrete_eq;
use crate::util::{Interner, ModuleId, OrderedMap, Pos};

verus! {

/// The value of `expr` and its errors, where a path that does not resolve
/// fails the whole expression and `default` takes its place.
pub open spec fn spec_eval_or(
    scope: Scope,
    exports: OrderedMap<ModuleId, Rc<Scope>>,
    names: Seq<Seq<char>>,
    expr: Node,
    default: ConstValue,
) -> (ConstValue, Seq<(Seq<char>, Pos)>) {
    match expr.node_type {
        NodeType::Path(p) => match spec_resolve(scope, exports, names, p@) {
            Err(e) => (default, seq![e]),
            Ok(_) => spec_eval(scope, exports, names, expr),
        },
        _ => spec_eval(scope, exports, names, expr),
    }
}

/// Evaluates `expr`; where it is a path that does not resolve, the error is
/// reported and `default` is the value.
pub fn evaluate_constexpr_or(
    scope: &Scope,
    exports: &OrderedMap<ModuleId, Rc<Scope>>,
    idents: &Interner,
    expr: &Node,
    default: ConstValue,
    errors: &mut Vec<Diagnostic>,
) -> (r: ConstValue)
    requires
        concrete_eq::<IdentId>(),
        concrete_eq::<ModuleId>(),
        exports.wf(),
        eval_defined(*scope, *exports, idents.view(), *expr),
    ensures
        r == spec_eval_or(*scope, *exports, idents.view(), *expr, default).0,
        errors_appended(old(errors)@, final(errors)@, spec_eval_or(*scope, *exports, idents.view(), *expr, default).1),
{
    if let NodeType::Path(p) = expr.node_type() {
        assert(resolvable(*scope, *exports, idents.view(), p@));
        match resolve_path(scope, exports, idents, p.as_slice()) {
            Err(d) => {
                errors.push(d);
                assert(errors@.subrange(0, old(errors)@.len() as int) =~= old(errors)@);
                return default;
            },
            Ok(_) => {},
        }
    }
    evaluate_constexpr(scope, exports, idents, expr, errors)
}

/// The name and the width expression of a declaration.
pub open spec fn decl_name_of(decl: Node) -> Node {
    *decl.node_type->Decl_name
}

pub open spec fn decl_count_of(decl: Node) -> Option<Box<Node>> {
    decl.node_type->Decl_count
}

/// The width a pin declaration gives, as evaluated in `scope`, and the
/// errors of evaluating it; a declaration without a width has width one.
pub open spec fn pin_width(scope: Scope, exports: OrderedMap<ModuleId, Rc<Scope>>, names: Seq<Seq<char>>, decl: Node) -> (
    ConstValue,
    Seq<(Seq<char>, Pos)>,
) {
    match decl_count_of(decl) {
        Some(e) => spec_eval_or(scope, exports, names, *e, ConstValue::Int(1)),
        None => (ConstValue::Int(1), Seq::empty()),
    }
}

/// The pin declarations that can be checked: a name, and a width that
/// evaluates to a positive integer.
pub open spec fn pin_decl_defined(scope: Scope, exports: OrderedMap<ModuleId, Rc<Scope>>, names: Seq<Seq<char>>, decl: Node) -> bool {
    &&& decl.node_type is Decl
    &&& scope.wf()
    &&& decl_name_of(decl).node_type is Identifier
    &&& ident_of(decl_name_of(decl)) < names.len()
    &&& !(scope.lookup(ident_of(decl_name_of(decl))) matches Some(ScopeSymbol::EnumValue { .. }))
    &&& (decl_count_of(decl) matches Some(e) ==> eval_defined(scope, exports, names, *e))
    &&& pin_width(scope, exports, names, decl).0 matches ConstValue::Int(w) && w > 0
}

/// The pin a declaration declares.
pub open spec fn declared_pin(scope: Scope, exports: OrderedMap<ModuleId, Rc<Scope>>, names: Seq<Seq<char>>, direction: PinDirection, decl: Node) -> Pin {
    Pin {
        name: ident_of(decl_name_of(decl)),
        direction,
        width: (pin_width(scope, exports, names, decl).0->Int_0) as usize,
    }
}

/// The errors checking a pin declaration appends: a redefinition of its
/// name, then those of its width.
pub open spec fn pin_decl_errors_ok(
    scope: Scope,
    exports: OrderedMap<ModuleId, Rc<Scope>>,
    names: Seq<Seq<char>>,
    decl: Node,
    before: Seq<Diagnostic>,
    after: Seq<Diagnostic>,
) -> bool {
    let name = ident_of(decl_name_of(decl));
    let n0 = before.len() as int;
    let n1 = n0 + if scope.lookup(name) is Some {
        1int
    } else {
        0int
    };
    &&& after.len() >= n1
    &&& after.subrange(0, n0) == before
    &&& scope.lookup(name) is Some ==> is_redefinition(after[n0], names, name, decl_name_of(decl).pos, scope.lookup(name)->0)
    &&& errors_appended(after.subrange(0, n1), after, pin_width(scope, exports, names, decl).1)
}

/// Checks one pin declaration and, unless its name is taken, declares the
/// pin in `scope` and in the circuit being built.
pub fn evaluate_pin_decl(
    scope: &mut Scope,
    exports: &OrderedMap<ModuleId, Rc<Scope>>,
    idents: &Interner,
    circ: &mut CircBuilder,
    direction: PinDirection,
    decl: &Node,
    errors: &mut Vec<Diagnostic>,
)
    requires
        concrete_eq::<IdentId>(),
        concrete_eq::<ModuleId>(),
        exports.wf(),
        old(circ).wf(),
        pin_decl_defined(*old(scope), *exports, idents.view(), *decl),
    ensures
        final(scope).wf(),
        final(scope).spec_parent() == old(scope).spec_parent(),
        final(circ).wf(),
        pin_decl_errors_ok(*old(scope), *exports, idents.view(), *decl, old(errors)@, final(errors)@),
        ({
            let name = ident_of(decl_name_of(*decl));
            let pin = declared_pin(*old(scope), *exports, idents.view(), direction, *decl);
            if old(scope).lookup(name) is Some {
                &&& forall|n: IdentId| #[trigger] final(scope).lookup(n) == old(scope).lookup(n)
                &&& *final(circ) == *old(circ)
            } else {
                &&& final(scope).lookup(name) == Some(
                    ScopeSymbol::Local(LocalSymbol { name, ty: LocalType::Pin { direction, width: pin.width }, pos: decl.pos }),
                )
                &&& forall|n: IdentId| n != name ==> #[trigger] final(scope).lookup(n) == old(scope).lookup(n)
                &&& !old(circ).pin_names().contains(name) ==> final(circ).pin_names() == old(circ).pin_names().push(name)
                    && final(circ).pin_values() == old(circ).pin_values().push(pin)
                &&& old(circ).pin_names().contains(name) ==> final(circ).pin_names() == old(circ).pin_names()
                    && exists|i: int|
                    0 <= i < old(circ).pin_names().len() && old(circ).pin_names()[i] == name && final(circ).pin_values()
                        == old(circ).pin_values().update(i, pin)
                &&& final(circ).dependency_names() == old(circ).dependency_names()
                &&& final(circ).dependency_values() == old(circ).dependency_values()
                &&& final(circ).connection_count() == old(circ).connection_count()
            }
        }),
{
    let (name_node, count) = match decl.node_type() {
        NodeType::Decl { name, count } => (name, count),
        _ => return,
    };
    let name_id = match name_node.node_type() {
        NodeType::Identifier(n) => *n,
        _ => 0,
    };
    let ghost e0 = errors@;
    let already_exists = check_symbol_exists(scope, idents, name_id, name_node.pos(), errors);
    let ghost e1 = errors@;
    let width = match count {
        Some(expr) => evaluate_constexpr_or(scope, exports, idents, &**expr, ConstValue::Int(1), errors),
        None => ConstValue::Int(1),
    };
    proof {
        if count is None {
            assert(errors@.subrange(0, e1.len() as int) =~= errors@);
        }
        assert(e1.subrange(0, e0.len() as int) =~= e0) by {
            if already_exists {
                assert(e1.drop_last() == e0);
            }
        }
        assert(errors@.subrange(0, e1.len() as int) == e1);
        assert(errors@.subrange(0, e0.len() as int) =~= e0) by {
            assert forall|i: int| 0 <= i < e0.len() implies errors@[i] == e0[i] by {
                assert(errors@.subrange(0, e1.len() as int)[i] == e1[i]);
                assert(e1.subrange(0, e0.len() as int)[i] == e0[i]);
            }
        }
        if already_exists {
            assert(errors@[e0.len() as int] == e1[e0.len() as int]) by {
                assert(errors@.subrange(0, e1.len() as int)[e0.len() as int] == e1[e0.len() as int]);
            }
        }
    }
    let width = match width {
        ConstValue::Int(w) => w,
        _ => 1,
    };
    if already_exists {
        return;
    }
    let w = width as usize;
    scope.add_local(LocalSymbol { name: name_id, ty: LocalType::Pin { direction, width: w }, pos: decl.pos() });
    circ.pin(name_id, Pin { name: name_id, direction, width: w });
}

/// Two well-formed scopes in which every name stands for the same thing.
pub open spec fn same_lookups(a: Scope, b: Scope) -> bool {
    &&& a.wf()
    &&& b.wf()
    &&& forall|n: IdentId| #[trigger] a.lookup(n) == b.lookup(n)
}

proof fn lemma_resolve_same(a: Scope, b: Scope, exports: OrderedMap<ModuleId, Rc<Scope>>, names: Seq<Seq<char>>, path: Seq<Node>)
    requires
        same_lookups(a, b),
    ensures
        spec_resolve(a, exports, names, path) == spec_resolve(b, exports, names, path),
        resolvable(a, exports, names, path) == resolvable(b, exports, names, path),
{
    if path.len() > 0 {
        assert(a.lookup(ident_of(path[0])) == b.lookup(ident_of(path[0])));
    }
}

/// Evaluation depends on a scope only through what its names stand for.
proof fn lemma_eval_same(a: Scope, b: Scope, exports: OrderedMap<ModuleId, Rc<Scope>>, names: Seq<Seq<char>>, expr: Node)
    requires
        same_lookups(a, b),
    ensures
        spec_eval(a, exports, names, expr) == spec_eval(b, exports, names, expr),
        eval_defined(a, exports, names, expr) == eval_defined(b, exports, names, expr),
        forall|d: ConstValue| spec_eval_or(a, exports, names, expr, d) == #[trigger] spec_eval_or(b, exports, names, expr, d),
    decreases expr,
{
    match expr.node_type {
        NodeType::Path(p) => {
            lemma_resolve_same(a, b, exports, names, p@);
        },
        NodeType::ConstExpr { lhs, op, rhs } => {
            match lhs {
                Some(l) => lemma_eval_same(a, b, exports, names, *l),
                None => {},
            }
            match rhs {
                Some(r) => lemma_eval_same(a, b, exports, names, *r),
                None => {},
            }
        },
        _ => {},
    }
}

/// A scope like `s` in which `local.name` stands for `local`.
pub open spec fn scope_with_local(s: Scope, local: LocalSymbol) -> Scope {
    choose|t: Scope|
        t.wf() && t.lookup(local.name) == Some(ScopeSymbol::Local(local)) && forall|
            n: IdentId,
        | n != local.name ==> #[trigger] t.lookup(n) == s.lookup(n)
}

/// The local a pin declaration adds.
pub open spec fn pin_local(scope: Scope, exports: OrderedMap<ModuleId, Rc<Scope>>, names: Seq<Seq<char>>, direction: PinDirection, decl: Node) -> LocalSymbol {
    LocalSymbol {
        name: ident_of(decl_name_of(decl)),
        ty: LocalType::Pin { direction, width: declared_pin(scope, exports, names, direction, decl).width },
        pos: decl.pos,
    }
}

/// The scope after the first declarations of a list: each pin whose name is
/// free is added.
pub open spec fn pin_decls_scope(
    s: Scope,
    exports: OrderedMap<ModuleId, Rc<Scope>>,
    names: Seq<Seq<char>>,
    direction: PinDirection,
    decls: Seq<Node>,
) -> Scope
    decreases decls.len(),
{
    if decls.len() == 0 {
        s
    } else {
        let p = pin_decls_scope(s, exports, names, direction, decls.drop_last());
        if p.lookup(ident_of(decl_name_of(decls.last()))) is Some {
            p
        } else {
            scope_with_local(p, pin_local(p, exports, names, direction, decls.last()))
        }
    }
}

/// Every declaration of the list can be checked in the scope the earlier
/// ones leave.
pub open spec fn pin_decls_defined(
    s: Scope,
    exports: OrderedMap<ModuleId, Rc<Scope>>,
    names: Seq<Seq<char>>,
    direction: PinDirection,
    decls: Seq<Node>,
) -> bool
    decreases decls.len(),
{
    decls.len() == 0 || (pin_decls_defined(s, exports, names, direction, decls.drop_last()) && pin_decl_defined(
        pin_decls_scope(s, exports, names, direction, decls.drop_last()),
        exports,
        names,
        decls.last(),
    ))
}

/// The parts of a pin declaration statement.
pub open spec fn pin_decls_direction(node: Node) -> PinDirection {
    node.node_type->PinDecls_direction
}

pub open spec fn pin_decls_list(node: Node) -> Seq<Node> {
    node.node_type->PinDecls_decls@
}

/// Checks a pin declaration statement: each declaration in turn, see
/// `evaluate_pin_decl`.
pub fn evaluate_pin_decls(
    scope: &mut Scope,
    exports: &OrderedMap<ModuleId, Rc<Scope>>,
    idents: &Interner,
    circ: &mut CircBuilder,
    node: &Node,
    errors: &mut Vec<Diagnostic>,
)
    requires
        concrete_eq::<IdentId>(),
        concrete_eq::<ModuleId>(),
        exports.wf(),
        old(circ).wf(),
        old(scope).wf(),
        node.node_type is PinDecls,
        pin_decls_defined(*old(scope), *exports, idents.view(), pin_decls_direction(*node), pin_decls_list(*node)),
    ensures
        final(scope).wf(),
        final(circ).wf(),
        final(scope).spec_parent() == old(scope).spec_parent(),
        ({
            let decls = pin_decls_list(*node);
            let dir = pin_decls_direction(*node);
            &&& forall|n: IdentId| #[trigger] final(scope).lookup(n) == pin_decls_scope(
                *old(scope),
                *exports,
                idents.view(),
                dir,
                decls,
            ).lookup(n)
            &&& exists|offs: Seq<int>|
                {
                    &&& offs.len() == decls.len() + 1
                    &&& offs[0] == old(errors)@.len()
                    &&& offs[decls.len() as int] == final(errors)@.len()
                    &&& final(errors)@.subrange(0, offs[0]) == old(errors)@
                    &&& forall|k: int|
                        0 <= k < decls.len() ==> offs[k] <= #[trigger] offs[k + 1] <= final(errors)@.len() && pin_decl_errors_ok(
                            pin_decls_scope(*old(scope), *exports, idents.view(), dir, decls.take(k)),
                            *exports,
                            idents.view(),
                            decls[k],
                            final(errors)@.subrange(0, offs[k]),
                            final(errors)@.subrange(0, offs[k + 1]),
                        )
                }
        }),
{
    let (direction, decls) = match node.node_type() {
        NodeType::PinDecls { direction, decls } => (*direction, decls),
        _ => return,
    };
    let ghost s0 = *scope;
    let ghost e0 = errors@;
    let ghost mut offs: Seq<int> = seq![e0.len() as int];
    let mut k: usize = 0;
    assert(decls@.take(0) =~= Seq::<Node>::empty());
    while k < decls.len()
        invariant
            concrete_eq::<IdentId>(),
            concrete_eq::<ModuleId>(),
            exports.wf(),
            circ.wf(),
            scope.wf(),
            scope.spec_parent() == s0.spec_parent(),
            s0.wf(),
            k <= decls@.len(),
            pin_decls_defined(s0, *exports, idents.view(), direction, decls@),
            same_lookups(*scope, pin_decls_scope(s0, *exports, idents.view(), direction, decls@.take(k as int))),
            offs.len() == k + 1,
            offs[0] == e0.len(),
            offs[k as int] == errors@.len(),
            errors@.subrange(0, offs[0]) == e0,
            forall|t: int| 0 <= t <= k ==> e0.len() <= #[trigger] offs[t] <= errors@.len(),
            forall|t: int|
                0 <= t < k ==> offs[t] <= #[trigger] offs[t + 1] <= errors@.len() && pin_decl_errors_ok(
                    pin_decls_scope(s0, *exports, idents.view(), direction, decls@.take(t)),
                    *exports,
                    idents.view(),
                    decls@[t],
                    errors@.subrange(0, offs[t]),
                    errors@.subrange(0, offs[t + 1]),
                ),
        decreases decls@.len() - k,
    {
        let ghost before_scope = *scope;
        let ghost before_errors = errors@;
        let ghost sk = pin_decls_scope(s0, *exports, idents.view(), direction, decls@.take(k as int));
        proof {
            lemma_pin_decls_defined_prefix(s0, *exports, idents.view(), direction, decls@, k as int + 1);
            assert(decls@.take(k + 1).drop_last() =~= decls@.take(k as int));
            assert(decls@.take(k + 1).last() == decls@[k as int]);
            let d = decls@[k as int];
            lemma_eval_same(*scope, sk, *exports, idents.view(), *d.node_type->Decl_count->0);
            lemma_pin_decl_defined_same(*scope, sk, *exports, idents.view(), d);
        }
        evaluate_pin_decl(scope, exports, idents, circ, direction, &decls[k], errors);
        proof {
            let d = decls@[k as int];
            lemma_pin_decl_same(before_scope, sk, *exports, idents.view(), direction, d);
            let sk1 = pin_decls_scope(s0, *exports, idents.view(), direction, decls@.take(k + 1));
            let name = ident_of(decl_name_of(d));
            if sk.lookup(name) is Some {
                assert(sk1 == sk);
            } else {
                let local = pin_local(sk, *exports, idents.view(), direction, d);
                assert forall|n: IdentId| n != local.name implies #[trigger] scope.lookup(n) == sk.lookup(n) by {
                    assert(scope.lookup(n) == before_scope.lookup(n));
                    assert(before_scope.lookup(n) == sk.lookup(n));
                }
                assert(scope.lookup(local.name) == Some(ScopeSymbol::Local(local)));
                assert(scope.wf() && scope.lookup(local.name) == Some(ScopeSymbol::Local(local)) && forall|n: IdentId|
                    n != local.name ==> #[trigger] scope.lookup(n) == sk.lookup(n));
                assert(sk1 == scope_with_local(sk, local));
            }
            // the errors of earlier declarations are kept
            assert(errors@.subrange(0, before_errors.len() as int) == before_errors);
            assert forall|i: int| 0 <= i < before_errors.len() implies errors@[i] == before_errors[i] by {
                assert(errors@.subrange(0, before_errors.len() as int)[i] == errors@[i]);
            }
            assert forall|t: int| 0 <= t < k implies offs[t] <= #[trigger] offs[t + 1] <= errors@.len()
                && pin_decl_errors_ok(
                pin_decls_scope(s0, *exports, idents.view(), direction, decls@.take(t)),
                *exports,
                idents.view(),
                decls@[t],
                errors@.subrange(0, offs[t]),
                errors@.subrange(0, offs[t + 1]),
            ) by {
                assert(0 <= offs[t] <= offs[t + 1] <= before_errors.len());
                assert(errors@.subrange(0, offs[t]) =~= before_errors.subrange(0, offs[t]));
                assert(errors@.subrange(0, offs[t + 1]) =~= before_errors.subrange(0, offs[t + 1]));
            }
            assert(errors@.subrange(0, offs[0]) =~= before_errors.subrange(0, offs[0]));
            assert(errors@.subrange(0, errors@.len() as int) =~= errors@);
            assert(before_errors.subrange(0, before_errors.len() as int) =~= before_errors);
            offs = offs.push(errors@.len() as int);
        }
        k = k + 1;
    }
    assert(decls@.take(decls@.len() as int) =~= decls@);
}

proof fn lemma_pin_decls_defined_prefix(
    s: Scope,
    exports: OrderedMap<ModuleId, Rc<Scope>>,
    names: Seq<Seq<char>>,
    direction: PinDirection,
    decls: Seq<Node>,
    k: int,
)
    requires
        pin_decls_defined(s, exports, names, direction, decls),
        0 <= k <= decls.len(),
    ensures
        pin_decls_defined(s, exports, names, direction, decls.take(k)),
    decreases decls.len() - k,
{
    if k < decls.len() {
        lemma_pin_decls_defined_prefix(s, exports, names, direction, decls, k + 1);
        assert(decls.take(k + 1).drop_last() =~= decls.take(k));
    } else {
        assert(decls.take(k) =~= decls);
    }
}

proof fn lemma_pin_decl_defined_same(a: Scope, b: Scope, exports: OrderedMap<ModuleId, Rc<Scope>>, names: Seq<Seq<char>>, decl: Node)
    requires
        same_lookups(a, b),
        pin_decl_defined(b, exports, names, decl),
    ensures
        pin_decl_defined(a, exports, names, decl),
        pin_width(a, exports, names, decl) == pin_width(b, exports, names, decl),
{
    match decl_count_of(decl) {
        Some(e) => lemma_eval_same(a, b, exports, names, *e),
        None => {},
    }
    assert(a.lookup(ident_of(decl_name_of(decl))) == b.lookup(ident_of(decl_name_of(decl))));
}

proof fn lemma_pin_decl_same(a: Scope, b: Scope, exports: OrderedMap<ModuleId, Rc<Scope>>, names: Seq<Seq<char>>, direction: PinDirection, decl: Node)
    requires
        same_lookups(a, b),
        decl.node_type is Decl,
    ensures
        pin_width(a, exports, names, decl) == pin_width(b, exports, names, decl),
        declared_pin(a, exports, names, direction, decl) == declared_pin(b, exports, names, direction, decl),
        pin_local(a, exports, names, direction, decl) == pin_local(b, exports, names, direction, decl),
        forall|x: Seq<Diagnostic>, y: Seq<Diagnostic>|
            pin_decl_errors_ok(a, exports, names, decl, x, y) == #[trigger] pin_decl_errors_ok(b, exports, names, decl, x, y),
{
    match decl_count_of(decl) {
        Some(e) => lemma_eval_same(a, b, exports, names, *e),
        None => {},
    }
    assert(a.lookup(ident_of(decl_name_of(decl))) == b.lookup(ident_of(decl_name_of(decl))));
}

// ---------------------------------------------------------------------------
// Circuit declarations.
// ---------------------------------------------------------------------------

/// The parts of an argument declaration: its type, its name and its default.
pub open spec fn arg_type_node(a: Node) -> Node {
    *a.node_type->CircArg_ty
}

pub open spec fn arg_name_node(a: Node) -> Node {
    *a.node_type->CircArg_name
}

pub open spec fn arg_default_node(a: Node) -> Option<Box<Node>> {
    a.node_type->CircArg_default
}

/// The type an argument is declared with.
pub open spec fn arg_type(scope: Scope, exports: OrderedMap<ModuleId, Rc<Scope>>, names: Seq<Seq<char>>, a: Node) -> ConstType {
    spec_const_type(scope, exports, names, arg_type_node(a).node_type->Path_0@)
}

/// The value of an argument's default, and the errors of evaluating it.
pub open spec fn arg_default(scope: Scope, exports: OrderedMap<ModuleId, Rc<Scope>>, names: Seq<Seq<char>>, a: Node) -> (
    Option<ConstValue>,
    Seq<(Seq<char>, Pos)>,
) {
    match arg_default_node(a) {
        Some(e) => (Some(spec_eval(scope, exports, names, *e).0), spec_eval(scope, exports, names, *e).1),
        None => (None, Seq::empty()),
    }
}

/// Whether the default of an argument has a type other than the declared one.
pub open spec fn arg_mismatch(scope: Scope, exports: OrderedMap<ModuleId, Rc<Scope>>, names: Seq<Seq<char>>, a: Node) -> bool {
    arg_default(scope, exports, names, a).0 matches Some(v) && !arg_type(scope, exports, names, a).agrees(v.spec_get_type())
}

/// The argument an argument declaration declares.
pub open spec fn declared_arg(scope: Scope, exports: OrderedMap<ModuleId, Rc<Scope>>, names: Seq<Seq<char>>, a: Node) -> CircArg {
    CircArg {
        name: ident_of(arg_name_node(a)),
        ty: arg_type(scope, exports, names, a),
        default: arg_default(scope, exports, names, a).0,
        pos: a.pos,
    }
}

/// The argument declarations that can be checked without failing outright.
pub open spec fn circ_arg_defined(scope: Scope, exports: OrderedMap<ModuleId, Rc<Scope>>, names: Seq<Seq<char>>, a: Node) -> bool {
    &&& a.node_type is CircArg
    &&& arg_type_node(a).node_type is Path
    &&& const_type_defined(scope, exports, names, arg_type_node(a).node_type->Path_0@)
    &&& arg_name_node(a).node_type is Identifier
    &&& ident_of(arg_name_node(a)) < names.len()
    &&& (arg_default_node(a) matches Some(e) ==> eval_defined(scope, exports, names, *e))
    &&& (arg_mismatch(scope, exports, names, a) ==> type_named(names, arg_type(scope, exports, names, a)) && type_named(
        names,
        arg_default(scope, exports, names, a).0->0.spec_get_type(),
    ))
}

/// The message for an argument declared twice.
pub open spec fn duplicate_arg_text(names: Seq<Seq<char>>, arg: IdentId, circ: IdentId) -> Seq<char> {
    "duplicate argument '"@ + names[arg as int] + "' for circuit '"@ + names[circ as int] + "'"@
}

/// The index of `k` among `keys`.
pub open spec fn key_index(keys: Seq<IdentId>, k: IdentId) -> int {
    choose|i: int| 0 <= i < keys.len() && keys[i] == k
}

/// The arguments after one more declaration: a new name is appended, a
/// name declared before gets the new argument in its place.
pub open spec fn args_after(keys: Seq<IdentId>, vals: Seq<CircArg>, arg: CircArg) -> (Seq<IdentId>, Seq<CircArg>) {
    if keys.contains(arg.name) {
        (keys, vals.update(key_index(keys, arg.name), arg))
    } else {
        (keys.push(arg.name), vals.push(arg))
    }
}

/// The errors checking one argument declaration appends, in order: for its
/// type, for its name being declared before (with a note at the earlier
/// one), for its default, and for a default of the wrong type (at the
/// circuit, `circ_pos`).
pub open spec fn arg_errors_ok(
    scope: Scope,
    exports: OrderedMap<ModuleId, Rc<Scope>>,
    names: Seq<Seq<char>>,
    circ: IdentId,
    circ_pos: Pos,
    keys: Seq<IdentId>,
    vals: Seq<CircArg>,
    a: Node,
    before: Seq<Diagnostic>,
    after: Seq<Diagnostic>,
) -> bool {
    let path = arg_type_node(a).node_type->Path_0@;
    let name = ident_of(arg_name_node(a));
    let dup = keys.contains(name);
    let eval_errs = arg_default(scope, exports, names, a).1;
    let n0 = before.len() as int;
    let n1 = n0 + if const_type_reports(scope, exports, names, path) {
        1int
    } else {
        0int
    };
    let n2 = n1 + if dup {
        1int
    } else {
        0int
    };
    let n3 = n2 + eval_errs.len();
    &&& after.len() == n3 + if arg_mismatch(scope, exports, names, a) {
        1int
    } else {
        0int
    }
    &&& after.subrange(0, n0) == before
    &&& const_type_reports(scope, exports, names, path) ==> const_type_error_ok(
        after[n0],
        scope,
        exports,
        names,
        path,
        arg_type_node(a).pos,
    )
    &&& dup ==> is_noted_error(
        after[n1],
        duplicate_arg_text(names, name, circ),
        arg_name_node(a).pos,
        first_defined_text(names, name),
        vals[key_index(keys, name)].pos,
    )
    &&& errors_appended(after.subrange(0, n2), after.subrange(0, n3), eval_errs)
    &&& arg_mismatch(scope, exports, names, a) ==> is_mismatch(
        after[n3],
        names,
        arg_type(scope, exports, names, a),
        arg_default(scope, exports, names, a).0->0.spec_get_type(),
        circ_pos,
        arg_type_node(a).pos,
    )
}

/// Checks one argument declaration of circuit `circ` and records it in `args`.
pub fn evaluate_circ_arg(
    scope: &Scope,
    exports: &OrderedMap<ModuleId, Rc<Scope>>,
    idents: &Interner,
    circ: IdentId,
    circ_pos: Pos,
    args: &mut OrderedMap<IdentId, CircArg>,
    a: &Node,
    errors: &mut Vec<Diagnostic>,
)
    requires
        concrete_eq::<IdentId>(),
        concrete_eq::<ModuleId>(),
        exports.wf(),
        old(args).wf(),
        circ < idents.view().len(),
        circ_arg_defined(*scope, *exports, idents.view(), *a),
    ensures
        final(args).wf(),
        (final(args).key_seq(), final(args).value_seq()) == args_after(
            old(args).key_seq(),
            old(args).value_seq(),
            declared_arg(*scope, *exports, idents.view(), *a),
        ),
        arg_errors_ok(
            *scope,
            *exports,
            idents.view(),
            circ,
            circ_pos,
            old(args).key_seq(),
            old(args).value_seq(),
            *a,
            old(errors)@,
            final(errors)@,
        ),
{
    let (ty_node, name_node, default_node) = match a.node_type() {
        NodeType::CircArg { ty, name, default } => (ty, name, default),
        _ => return,
    };
    let ghost e0 = errors@;
    let resolved_type = get_const_type(scope, exports, idents, &**ty_node, errors);
    let ghost e1 = errors@;
    let arg_name_id = match name_node.node_type() {
        NodeType::Identifier(n) => *n,
        _ => 0,
    };
    proof {
        lemma_keys_distinct(*args);
    }
    match args.get(&arg_name_id) {
        Some(existing) => {
            let mut m = String::new();
            push_str(&mut m, "duplicate argument '");
            push_ident(&mut m, idents, arg_name_id);
            push_str(&mut m, "' for circuit '");
            push_ident(&mut m, idents, circ);
            push_str(&mut m, "'");
            let mut n = String::new();
            push_str(&mut n, "'");
            push_ident(&mut n, idents, arg_name_id);
            push_str(&mut n, "' first defined here");
            proof {
                reveal_strlit("");
                let keys = old(args).key_seq();
                let i = key_index(keys, arg_name_id);
                assert(0 <= i < keys.len() && keys[i] == arg_name_id);
            }
            assert(m@ =~= duplicate_arg_text(idents.view(), arg_name_id, circ));
            assert(n@ =~= first_defined_text(idents.view(), arg_name_id));
            let note = Diagnostic::new(n, DiagnosticKind::Info, Context { pos: existing.pos });
            let d = Diagnostic::error(m, name_node.pos()).add_note(note);
            assert(d.spec_notes() =~= seq![note]);
            errors.push(d);
        },
        None => {},
    }
    let ghost e2 = errors@;
    let default = match default_node {
        Some(node) => Some(evaluate_constexpr(scope, exports, idents, &**node, errors)),
        None => None,
    };
    let ghost e3 = errors@;
    proof {
        if default_node is None {
            assert(e3.subrange(0, e2.len() as int) =~= e3);
        }
        assert(e1.subrange(0, e0.len() as int) =~= e0) by {
            if e1.len() > e0.len() {
                assert(e1.drop_last() == e0);
            }
        }
        assert(e2.subrange(0, e1.len() as int) =~= e1) by {
            if e2.len() > e1.len() {
                assert(e2.drop_last() == e1);
            }
        }
        assert(e3.subrange(0, e2.len() as int) == e2);
        assert forall|i: int| 0 <= i < e2.len() implies e3[i] == e2[i] by {
            assert(e3.subrange(0, e2.len() as int)[i] == e2[i]);
        }
        assert forall|i: int| 0 <= i < e1.len() implies e2[i] == e1[i] by {
            assert(e2.subrange(0, e1.len() as int)[i] == e1[i]);
        }
        assert forall|i: int| 0 <= i < e0.len() implies e1[i] == e0[i] by {
            assert(e1.subrange(0, e0.len() as int)[i] == e0[i]);
        }
    }
    if let Some(default) = default {
        if resolved_type != default.get_type() {
            let d = declaration_mismatch(idents, resolved_type, default.get_type(), circ_pos, ty_node.pos());
            errors.push(d);
        }
    }
    proof {
        let fin = errors@;
        assert forall|i: int| 0 <= i < e3.len() implies fin[i] == e3[i] by {
        }
        assert(fin.subrange(0, e0.len() as int) =~= e0);
        assert(fin.subrange(0, e2.len() as int) =~= e2);
        assert(fin.subrange(0, e3.len() as int) =~= e3);
    }
    let _ = args.insert(
        arg_name_id,
        CircArg { name: arg_name_id, ty: resolved_type, default, pos: a.pos() },
    );
    proof {
        lemma_keys_distinct(*old(args));
        let keys = old(args).key_seq();
        if keys.contains(arg_name_id) {
            let i = key_index(keys, arg_name_id);
            let j = choose|j: int|
                0 <= j < keys.len() && keys[j] == arg_name_id && args.key_seq() == keys && args.value_seq()
                    == old(args).value_seq().update(j, CircArg { name: arg_name_id, ty: resolved_type, default, pos: a.pos });
            if i != j {
                assert(keys[i] == keys[j]);
            }
        }
    }
}

/// The arguments recorded after the first declarations of a list.
pub open spec fn args_fold(scope: Scope, exports: OrderedMap<ModuleId, Rc<Scope>>, names: Seq<Seq<char>>, decls: Seq<Node>) -> (
    Seq<IdentId>,
    Seq<CircArg>,
)
    decreases decls.len(),
{
    if decls.len() == 0 {
        (Seq::empty(), Seq::empty())
    } else {
        let (k, v) = args_fold(scope, exports, names, decls.drop_last());
        args_after(k, v, declared_arg(scope, exports, names, decls.last()))
    }
}

/// The parts of a circuit declaration.
pub open spec fn circ_name_node(node: Node) -> Node {
    *node.node_type->Circ_name
}

pub open spec fn circ_arg_nodes(node: Node) -> Seq<Node> {
    node.node_type->Circ_args@
}

/// The circuit declarations that can be checked without failing outright.
pub open spec fn circ_defined(scope: Scope, exports: OrderedMap<ModuleId, Rc<Scope>>, names: Seq<Seq<char>>, node: Node) -> bool {
    &&& node.node_type is Circ
    &&& scope.wf()
    &&& circ_name_node(node).node_type is Identifier
    &&& ident_of(circ_name_node(node)) < names.len()
    &&& !(scope.lookup(ident_of(circ_name_node(node))) matches Some(ScopeSymbol::EnumValue { .. }))
    &&& forall|k: int| 0 <= k < circ_arg_nodes(node).len() ==> circ_arg_defined(scope, exports, names, #[trigger] circ_arg_nodes(node)[k])
}

/// Checks a circuit declaration: its name, then each argument with its type
/// and default. Unless the name is taken, the circuit is declared in `scope`
/// with its arguments and its statements.
pub fn evaluate_circ(
    scope: &mut Scope,
    exports: &OrderedMap<ModuleId, Rc<Scope>>,
    idents: &Interner,
    module_id: ModuleId,
    node: Node,
    errors: &mut Vec<Diagnostic>,
)
    requires
        concrete_eq::<IdentId>(),
        concrete_eq::<ModuleId>(),
        exports.wf(),
        circ_defined(*old(scope), *exports, idents.view(), node),
    ensures
        final(scope).wf(),
        final(scope).spec_parent() == old(scope).spec_parent(),
        ({
            let name = ident_of(circ_name_node(node));
            let decls = circ_arg_nodes(node);
            let (keys, vals) = args_fold(*old(scope), *exports, idents.view(), decls);
            &&& old(scope).lookup(name) is Some ==> forall|n: IdentId| #[trigger] final(scope).lookup(n) == old(scope).lookup(n)
            &&& old(scope).lookup(name) is None ==> {
                &&& final(scope).lookup(name) matches Some(ScopeSymbol::Circ(c)) && c.module_id == module_id && c.name == name
                    && c.args.wf() && c.args.key_seq() == keys && c.args.value_seq() == vals && c.kind == CircKind::Module(
                    node.node_type->Circ_children,
                ) && c.pos == node.pos
                &&& forall|n: IdentId| n != name ==> #[trigger] final(scope).lookup(n) == old(scope).lookup(n)
            }
        }),
        ({
            let name = ident_of(circ_name_node(node));
            let decls = circ_arg_nodes(node);
            let e0 = old(errors)@;
            let n1 = e0.len() + if old(scope).lookup(name) is Some {
                1int
            } else {
                0int
            };
            &&& final(errors)@.subrange(0, e0.len() as int) == e0
            &&& old(scope).lookup(name) is Some ==> is_redefinition(
                final(errors)@[e0.len() as int],
                idents.view(),
                name,
                node.pos,
                old(scope).lookup(name)->0,
            )
            &&& exists|offs: Seq<int>|
                {
                    &&& offs.len() == decls.len() + 1
                    &&& offs[0] == n1
                    &&& offs[decls.len() as int] == final(errors)@.len()
                    &&& forall|k: int|
                        0 <= k < decls.len() ==> offs[k] <= #[trigger] offs[k + 1] <= final(errors)@.len() && arg_errors_ok(
                            *old(scope),
                            *exports,
                            idents.view(),
                            name,
                            node.pos,
                            args_fold(*old(scope), *exports, idents.view(), decls.take(k)).0,
                            args_fold(*old(scope), *exports, idents.view(), decls.take(k)).1,
                            decls[k],
                            final(errors)@.subrange(0, offs[k]),
                            final(errors)@.subrange(0, offs[k + 1]),
                        )
                }
        }),
{
    let pos = node.pos();
    let (name_node, circ_args, statements) = match node.node_type {
        NodeType::Circ { name, args, children } => (name, args, children),
        _ => return,
    };
    let name = match name_node.node_type() {
        NodeType::Identifier(n) => *n,
        _ => 0,
    };
    assert(circ_args@ == circ_arg_nodes(node));
    let ghost e0 = errors@;
    let already_defined = check_symbol_exists(scope, idents, name, pos, errors);
    let ghost e1 = errors@;
    let mut args: OrderedMap<IdentId, CircArg> = OrderedMap::new();
    let ghost mut offs: Seq<int> = seq![e1.len() as int];
    let mut k: usize = 0;
    assert(circ_args@.take(0) =~= Seq::<Node>::empty());
    proof {
        assert(e1.subrange(0, e0.len() as int) =~= e0) by {
            if already_defined {
                assert(e1.drop_last() == e0);
            }
        }
    }
    while k < circ_args.len()
        invariant
            concrete_eq::<IdentId>(),
            concrete_eq::<ModuleId>(),
            exports.wf(),
            scope.wf(),
            name < idents.view().len(),
            k <= circ_args@.len(),
            forall|t: int| 0 <= t < circ_args@.len() ==> circ_arg_defined(*scope, *exports, idents.view(), #[trigger] circ_args@[t]),
            args.wf(),
            (args.key_seq(), args.value_seq()) == args_fold(*scope, *exports, idents.view(), circ_args@.take(k as int)),
            offs.len() == k + 1,
            offs[0] == e1.len(),
            offs[k as int] == errors@.len(),
            errors@.subrange(0, e1.len() as int) == e1,
            forall|t: int| 0 <= t <= k ==> e1.len() <= #[trigger] offs[t] <= errors@.len(),
            forall|t: int|
                0 <= t < k ==> offs[t] <= #[trigger] offs[t + 1] <= errors@.len() && arg_errors_ok(
                    *scope,
                    *exports,
                    idents.view(),
                    name,
                    pos,
                    args_fold(*scope, *exports, idents.view(), circ_args@.take(t)).0,
                    args_fold(*scope, *exports, idents.view(), circ_args@.take(t)).1,
                    circ_args@[t],
                    errors@.subrange(0, offs[t]),
                    errors@.subrange(0, offs[t + 1]),
                ),
        decreases circ_args@.len() - k,
    {
        let ghost before_errors = errors@;
        proof {
            assert(circ_args@.take(k + 1).drop_last() =~= circ_args@.take(k as int));
            assert(circ_args@.take(k + 1).last() == circ_args@[k as int]);
        }
        evaluate_circ_arg(scope, exports, idents, name, pos, &mut args, &circ_args[k], errors);
        proof {
            assert(errors@.subrange(0, before_errors.len() as int) == before_errors);
            assert forall|i: int| 0 <= i < before_errors.len() implies errors@[i] == before_errors[i] by {
                assert(errors@.subrange(0, before_errors.len() as int)[i] == errors@[i]);
            }
            assert forall|t: int| 0 <= t < k implies offs[t] <= #[trigger] offs[t + 1] <= errors@.len() && arg_errors_ok(
                *scope,
                *exports,
                idents.view(),
                name,
                pos,
                args_fold(*scope, *exports, idents.view(), circ_args@.take(t)).0,
                args_fold(*scope, *exports, idents.view(), circ_args@.take(t)).1,
                circ_args@[t],
                errors@.subrange(0, offs[t]),
                errors@.subrange(0, offs[t + 1]),
            ) by {
                assert(0 <= offs[t] <= offs[t + 1] <= before_errors.len());
                assert(errors@.subrange(0, offs[t]) =~= before_errors.subrange(0, offs[t]));
                assert(errors@.subrange(0, offs[t + 1]) =~= before_errors.subrange(0, offs[t + 1]));
            }
            assert(errors@.subrange(0, e1.len() as int) =~= e1);
            assert(errors@.subrange(0, errors@.len() as int) =~= errors@);
            assert(before_errors.subrange(0, before_errors.len() as int) =~= before_errors);
            offs = offs.push(errors@.len() as int);
        }
        k = k + 1;
    }
    assert(circ_args@.take(circ_args@.len() as int) =~= circ_args@);
    proof {
        assert forall|i: int| 0 <= i < e1.len() implies errors@[i] == e1[i] by {
            assert(errors@.subrange(0, e1.len() as int)[i] == errors@[i]);
        }
        assert(errors@.subrange(0, e0.len() as int) =~= e0);
        if already_defined {
            assert(errors@[e0.len() as int] == e1[e0.len() as int]);
        }
    }
    if already_defined {
        return;
    }
    scope.add_circ(CircSymbol { module_id, name, args, kind: CircKind::Module(statements), pos });
}

// ---------------------------------------------------------------------------
// Conditions.
// ---------------------------------------------------------------------------

/// The message for a condition that is not a boolean.
pub open spec fn if_type_text(names: Seq<Seq<char>>, t: ConstType) -> Seq<char> {
    "if conditions must evaluate to a boolean value, got enum '"@ + match t {
        ConstType::Enum { enum_name, .. } => names[enum_name as int],
        _ => t.spec_display_name(),
    } + "'"@
}

/// The note saying that neither branch was taken.
pub open spec fn no_branch_text() -> Seq<char> {
    "none of the branches of this if have been evaluated"@
}

/// The branch an `if` takes: `Some(true)` for its body, `Some(false)` for its
/// `else`, `None` where the condition is unknown or not a boolean.
pub open spec fn spec_if_branch(v: ConstValue) -> Option<bool> {
    match v {
        ConstValue::Bool(b) => Some(b),
        _ => None,
    }
}

/// Evaluates the condition of an `if` and says which branch to take. A
/// condition that is neither unknown nor a boolean is reported, with a
/// warning that no branch was taken.
pub fn if_branch(
    scope: &Scope,
    exports: &OrderedMap<ModuleId, Rc<Scope>>,
    idents: &Interner,
    condition: &Node,
    errors: &mut Vec<Diagnostic>,
) -> (r: Option<bool>)
    requires
        concrete_eq::<IdentId>(),
        concrete_eq::<ModuleId>(),
        exports.wf(),
        eval_defined(*scope, *exports, idents.view(), *condition),
        type_named(idents.view(), spec_eval(*scope, *exports, idents.view(), *condition).0.spec_get_type()),
    ensures
        ({
            let (v, errs) = spec_eval(*scope, *exports, idents.view(), *condition);
            &&& r == spec_if_branch(v)
            &&& (v is Unknown || v is Bool) ==> errors_appended(old(errors)@, final(errors)@, errs)
            &&& !(v is Unknown || v is Bool) ==> {
                &&& final(errors)@.len() == old(errors)@.len() + errs.len() + 1
                &&& errors_appended(old(errors)@, final(errors)@.drop_last(), errs)
                &&& final(errors)@.last().spec_kind() == DiagnosticKind::Error
                &&& final(errors)@.last().spec_message() == if_type_text(idents.view(), v.spec_get_type())
                &&& final(errors)@.last().spec_pos() == condition.pos
                &&& final(errors)@.last().spec_notes().len() == 1
                &&& final(errors)@.last().note_count() == 1
                &&& final(errors)@.last().spec_notes()[0].is_at(
                    DiagnosticKind::Warning,
                    no_branch_text(),
                    Pos::Absent,
                    Seq::empty(),
                )
            }
        }),
{
    let result = evaluate_constexpr(scope, exports, idents, condition, errors);
    match result {
        ConstValue::Unknown => None,
        ConstValue::Bool(b) => Some(b),
        _ => {
            let ghost before = errors@;
            let t = result.get_type();
            let mut m = String::new();
            push_str(&mut m, "if conditions must evaluate to a boolean value, got enum '");
            match t {
                ConstType::Enum { enum_name, .. } => push_ident(&mut m, idents, enum_name),
                _ => push_str(&mut m, t.display_name()),
            }
            push_str(&mut m, "'");
            let mut n = String::new();
            push_str(&mut n, "none of the branches of this if have been evaluated");
            proof {
                reveal_strlit("");
            }
            assert(m@ =~= if_type_text(idents.view(), t));
            assert(n@ =~= no_branch_text());
            let note = Diagnostic::new(n, DiagnosticKind::Warning, Context { pos: Pos::Absent });
            let d = Diagnostic::error(m, condition.pos()).add_note(note);
            assert(d.spec_notes() =~= seq![note]);
            errors.push(d);
            assert(errors@.drop_last() =~= before);
            None
        },
    }
}

/// The parts of an `if`.
pub open spec fn if_condition(node: Node) -> Node {
    *node.node_type->If_condition
}

/// The statements an `if` inside a circuit goes on with: its body or its
/// `else`, as its condition says; none where the condition is unknown or
/// not a boolean.
pub fn evaluate_circ_if<'a>(
    scope: &Scope,
    exports: &OrderedMap<ModuleId, Rc<Scope>>,
    idents: &Interner,
    node: &'a Node,
    errors: &mut Vec<Diagnostic>,
) -> (r: Option<&'a Vec<Node>>)
    requires
        concrete_eq::<IdentId>(),
        concrete_eq::<ModuleId>(),
        exports.wf(),
        node.node_type is If,
        eval_defined(*scope, *exports, idents.view(), if_condition(*node)),
        type_named(idents.view(), spec_eval(*scope, *exports, idents.view(), if_condition(*node)).0.spec_get_type()),
    ensures
        ({
            let v = spec_eval(*scope, *exports, idents.view(), if_condition(*node)).0;
            match spec_if_branch(v) {
                Some(true) => r == Some(&node.node_type->If_body),
                Some(false) => r == Some(&node.node_type->If_else_body),
                None => r is None,
            }
        }),
{
    let (condition, body, else_body) = match node.node_type() {
        NodeType::If { condition, body, else_body } => (condition, body, else_body),
        _ => return None,
    };
    match if_branch(scope, exports, idents, &**condition, errors) {
        Some(true) => Some(body),
        Some(false) => Some(else_body),
        None => None,
    }
}

/// The items a module-level `if` goes on with: its body or its `else`, as
/// its condition says; none where the condition is unknown or not a
/// boolean. The items are handed back for the module to evaluate in turn.
pub fn evaluate_global_if(
    scope: &Scope,
    exports: &OrderedMap<ModuleId, Rc<Scope>>,
    idents: &Interner,
    node: Node,
    errors: &mut Vec<Diagnostic>,
) -> (r: Option<Vec<Node>>)
    requires
        concrete_eq::<IdentId>(),
        concrete_eq::<ModuleId>(),
        exports.wf(),
        node.node_type is If,
        eval_defined(*scope, *exports, idents.view(), if_condition(node)),
        type_named(idents.view(), spec_eval(*scope, *exports, idents.view(), if_condition(node)).0.spec_get_type()),
    ensures
        ({
            let (v, errs) = spec_eval(*scope, *exports, idents.view(), if_condition(node));
            &&& match spec_if_branch(v) {
                Some(true) => r == Some(node.node_type->If_body),
                Some(false) => r == Some(node.node_type->If_else_body),
                None => r is None,
            }
            &&& (v is Unknown || v is Bool) ==> errors_appended(old(errors)@, final(errors)@, errs)
            &&& !(v is Unknown || v is Bool) ==> final(errors)@.len() == old(errors)@.len() + errs.len() + 1
                && errors_appended(old(errors)@, final(errors)@.drop_last(), errs)
                && final(errors)@.last().spec_message() == if_type_text(idents.view(), v.spec_get_type())
                && final(errors)@.last().spec_pos() == node.node_type->If_condition.pos
        }),
{
    let (nt, _pos) = node.parts();
    match nt {
        NodeType::If { condition, body, else_body } => match if_branch(scope, exports, idents, &*condition, errors) {
            Some(true) => Some(body),
            Some(false) => Some(else_body),
            None => None,
        },
        _ => None,
    }
}

// ---------------------------------------------------------------------------
// The main circuit.
// ---------------------------------------------------------------------------

/// What `Main` stands for in the root module's scope, where the name is known.
pub open spec fn main_symbol(root: Scope, names: Seq<Seq<char>>) -> Option<ScopeSymbol> {
    if names.contains("Main"@) {
        root.lookup(names.index_of("Main"@) as IdentId)
    } else {
        None
    }
}

/// The circuit `Main` of the root module's scope; an error where there is
/// no such symbol or it is not a circuit.
pub fn find_main<'a>(root: &'a Scope, idents: &Interner) -> (r: Result<&'a CircSymbol, Diagnostic>)
    requires
        root.wf(),
        idents.wf(),
        concrete_eq::<IdentId>(),
        !(main_symbol(*root, idents.view()) matches Some(ScopeSymbol::EnumValue { .. })),
    ensures
        match main_symbol(*root, idents.view()) {
            Some(ScopeSymbol::Circ(c)) => r matches Ok(m) && *m == *c,
            Some(sym) => r matches Err(d) && d.is_error_at(
                "symbol 'Main' is not a circuit in the root module"@,
                sym.spec_pos(),
            ),
            None => r matches Err(d) && d.is_error_at("no symbol 'Main' present in root module"@, Pos::Module(0)),
        },
{
    let main_name = String::from_str("Main");
    proof {
        reveal_strlit("Main");
    }
    let id = idents.get_index(&main_name);
    let sym = match id {
        Some(i) => {
            proof {
                crate::util::interner::lemma_interner_distinct(idents);
                let names = idents.view();
                assert(names.contains("Main"@));
                let j = names.index_of("Main"@);
                assert(names[j] == "Main"@);
                if j != i {
                    assert(names[j] == names[i as int]);
                }
                assert(j as IdentId == i);
            }
            root.get_symbol(i)
        },
        None => None,
    };
    match sym {
        Some(ScopeSymbol::Circ(c)) => Ok(&**c),
        Some(s) => {
            let m = String::from_str("symbol 'Main' is not a circuit in the root module");
            proof {
                reveal_strlit("symbol 'Main' is not a circuit in the root module");
            }
            Err(Diagnostic::error(m, s.pos()))
        },
        None => {
            let m = String::from_str("no symbol 'Main' present in root module");
            proof {
                reveal_strlit("no symbol 'Main' present in root module");
            }
            Err(Diagnostic::error(m, Pos::Module(0)))
        },
    }
}

/// The error for a `Main` that declares arguments, if it does.
pub fn main_args_error(main: &CircSymbol) -> (r: Option<Diagnostic>)
    ensures
        main.args.value_seq().len() > 0 ==> (r matches Some(d) && d.is_error_at(
            "circuit 'Main' cannot have arguments"@,
            main.pos,
        )),
        main.args.value_seq().len() == 0 ==> r is None,
{
    if main.args.len() > 0 {
        let m = String::from_str("circuit 'Main' cannot have arguments");
        proof {
            reveal_strlit("circuit 'Main' cannot have arguments");
        }
        Some(Diagnostic::error(m, main.pos))
    } else {
        None
    }
}

// ---------------------------------------------------------------------------
// Circuit types.
// ---------------------------------------------------------------------------

/// The parts of a type.
pub open spec fn type_path(node: Node) -> Seq<Node> {
    (*node.node_type->Type_name).node_type->Path_0@
}

pub open spec fn type_args(node: Node) -> Seq<Node> {
    node.node_type->Type_args@
}

/// The errors of evaluating the values of type arguments, in order.
pub open spec fn type_arg_errors(scope: Scope, exports: OrderedMap<ModuleId, Rc<Scope>>, names: Seq<Seq<char>>, args: Seq<Node>) -> Seq<(Seq<char>, Pos)>
    decreases args.len(),
{
    if args.len() == 0 {
        Seq::empty()
    } else {
        type_arg_errors(scope, exports, names, args.drop_last()) + spec_eval(
            scope,
            exports,
            names,
            *args.last().node_type->TypeArg_value,
        ).1
    }
}

/// The types that can be checked without failing outright: the name
/// resolves to a circuit whose arguments can be read, or does not resolve
/// and each argument can be evaluated.
pub open spec fn type_defined(scope: Scope, exports: OrderedMap<ModuleId, Rc<Scope>>, names: Seq<Seq<char>>, node: Node) -> bool {
    &&& node.node_type is Type
    &&& (*node.node_type->Type_name).node_type is Path
    &&& resolvable(scope, exports, names, type_path(node))
    &&& match spec_resolve(scope, exports, names, type_path(node)) {
        Err(_) => forall|k: int|
            0 <= k < type_args(node).len() ==> (#[trigger] type_args(node)[k]).node_type is TypeArg && eval_defined(
                scope,
                exports,
                names,
                *type_args(node)[k].node_type->TypeArg_value,
            ),
        Ok(ScopeSymbol::Circ(c)) => circ_args_defined(scope, exports, names, c.args, type_args(node)),
        Ok(_) => false,
    }
}

/// The signature a type names: the circuit and the values of its arguments.
/// A name that does not resolve is reported, and the argument values are
/// still evaluated for their errors.
pub fn evaluate_type(
    scope: &Scope,
    exports: &OrderedMap<ModuleId, Rc<Scope>>,
    idents: &Interner,
    node: &Node,
    errors: &mut Vec<Diagnostic>,
) -> (r: Option<CircSignature>)
    requires
        concrete_eq::<IdentId>(),
        concrete_eq::<ModuleId>(),
        exports.wf(),
        type_defined(*scope, *exports, idents.view(), *node),
    ensures
        match spec_resolve(*scope, *exports, idents.view(), type_path(*node)) {
            Err(e) => r is None && errors_appended(
                old(errors)@,
                final(errors)@,
                seq![e] + type_arg_errors(*scope, *exports, idents.view(), type_args(*node)),
            ),
            Ok(ScopeSymbol::Circ(c)) => {
                &&& r matches Some(sig) && sig.module_id == c.module_id && sig.name == c.name && sig.args@
                    == spec_circ_args(*scope, *exports, idents.view(), c.args, type_args(*node))
                &&& errors_appended(
                    old(errors)@,
                    final(errors)@,
                    read_errors(
                        *scope,
                        *exports,
                        idents.view(),
                        type_args(*node),
                        read_args(type_args(*node)).len() as int,
                    ),
                )
            },
            Ok(_) => true,
        },
{
    let (name, args) = match node.node_type() {
        NodeType::Type { name, args } => (name, args),
        _ => return None,
    };
    let name_path = match name.node_type() {
        NodeType::Path(p) => p,
        _ => return None,
    };
    match resolve_path(scope, exports, idents, name_path.as_slice()) {
        Err(d) => {
            let ghost e0 = errors@;
            errors.push(d);
            let mut k: usize = 0;
            let ghost e = spec_resolve(*scope, *exports, idents.view(), type_path(*node))->Err_0;
            assert(errors@.subrange(0, e0.len() as int) =~= e0);
            assert(args@.take(0) =~= Seq::<Node>::empty());
            assert(seq![e] + type_arg_errors(*scope, *exports, idents.view(), args@.take(0)) =~= seq![e]);
            while k < args.len()
                invariant
                    concrete_eq::<IdentId>(),
                    concrete_eq::<ModuleId>(),
                    exports.wf(),
                    args@ == type_args(*node),
                    k <= args@.len(),
                    forall|t: int|
                        0 <= t < args@.len() ==> (#[trigger] args@[t]).node_type is TypeArg && eval_defined(
                            *scope,
                            *exports,
                            idents.view(),
                            *args@[t].node_type->TypeArg_value,
                        ),
                    errors_appended(e0, errors@, seq![e] + type_arg_errors(*scope, *exports, idents.view(), args@.take(k as int))),
                decreases args@.len() - k,
            {
                let ghost before = errors@;
                let value = match args[k].node_type() {
                    NodeType::TypeArg { value, .. } => value,
                    _ => {
                        k = k + 1;
                        continue;
                    },
                };
                let _ = evaluate_constexpr(scope, exports, idents, &**value, errors);
                proof {
                    assert(args@.take(k + 1).drop_last() =~= args@.take(k as int));
                    assert(args@.take(k + 1).last() == args@[k as int]);
                    let prev = seq![e] + type_arg_errors(*scope, *exports, idents.view(), args@.take(k as int));
                    let now = spec_eval(*scope, *exports, idents.view(), *args@[k as int].node_type->TypeArg_value).1;
                    assert(seq![e] + type_arg_errors(*scope, *exports, idents.view(), args@.take(k + 1)) =~= prev + now);
                    super::evaluate::lemma_errors_appended_trans(e0, before, errors@, prev, now);
                }
                k = k + 1;
            }
            assert(args@.take(args@.len() as int) =~= args@);
            None
        },
        Ok(Resolved::Symbol(ScopeSymbol::Circ(circ))) => {
            let values = get_resolved_circ_args(scope, exports, idents, &**circ, args.as_slice(), errors);
            Some(CircSignature { module_id: circ.module_id, name: circ.name, args: values })
        },
        Ok(_) => None,
    }
}

// ---------------------------------------------------------------------------
// Component declarations.
// ---------------------------------------------------------------------------

/// A signed number in decimal.
pub open spec fn signed_text(x: int) -> Seq<char> {
    if x < 0 {
        "-"@ + decimal(magnitude(x))
    } else {
        decimal(magnitude(x))
    }
}

/// The value the size of a declaration evaluates to, if it has one.
pub open spec fn decl_size(scope: Scope, exports: OrderedMap<ModuleId, Rc<Scope>>, names: Seq<Seq<char>>, decl: Node) -> Option<isize> {
    match decl_count_of(decl) {
        Some(e) => Some(spec_eval(scope, exports, names, *e).0->Int_0),
        None => None,
    }
}

/// The length of the array a declaration declares: the size where it is
/// positive, else one for zero and the size negated for a negative size.
pub open spec fn array_size(size: Option<isize>) -> Option<usize> {
    match size {
        Some(s) => Some(
            if s > 0 {
                s as usize
            } else if s == 0 {
                1usize
            } else {
                (-s) as usize
            },
        ),
        None => None,
    }
}

/// The component declarations that can be checked: a name, and a size
/// that evaluates to an integer whose negation fits.
pub open spec fn decl_defined(scope: Scope, exports: OrderedMap<ModuleId, Rc<Scope>>, names: Seq<Seq<char>>, decl: Node) -> bool {
    &&& decl.node_type is Decl
    &&& scope.wf()
    &&& decl_name_of(decl).node_type is Identifier
    &&& ident_of(decl_name_of(decl)) < names.len()
    &&& !(scope.lookup(ident_of(decl_name_of(decl))) matches Some(ScopeSymbol::EnumValue { .. }))
    &&& (decl_count_of(decl) matches Some(e) ==> {
        &&& eval_defined(scope, exports, names, *e)
        &&& spec_eval(scope, exports, names, *e).0 matches ConstValue::Int(s) && s != isize::MIN
    })
}

/// The errors checking a component declaration appends: a redefinition of
/// its name, those of its size, and a size below one (with a note giving
/// the size, at the size).
pub open spec fn decl_errors_ok(
    scope: Scope,
    exports: OrderedMap<ModuleId, Rc<Scope>>,
    names: Seq<Seq<char>>,
    decl: Node,
    before: Seq<Diagnostic>,
    after: Seq<Diagnostic>,
) -> bool {
    let name = ident_of(decl_name_of(decl));
    let n0 = before.len() as int;
    let n1 = n0 + if scope.lookup(name) is Some {
        1int
    } else {
        0int
    };
    let errs = match decl_count_of(decl) {
        Some(e) => spec_eval(scope, exports, names, *e).1,
        None => Seq::empty(),
    };
    let n2 = n1 + errs.len();
    let too_small = decl_size(scope, exports, names, decl) matches Some(s) && s <= 0;
    &&& after.len() == n2 + if too_small {
        1int
    } else {
        0int
    }
    &&& after.subrange(0, n0) == before
    &&& scope.lookup(name) is Some ==> is_redefinition(after[n0], names, name, decl_name_of(decl).pos, scope.lookup(name)->0)
    &&& errors_appended(after.subrange(0, n1), after.subrange(0, n2), errs)
    &&& too_small ==> is_noted_error(
        after[n2],
        "array size must be at least 1"@,
        decl.pos,
        "size expression evaluated to "@ + signed_text(decl_size(scope, exports, names, decl)->0 as int),
        (*decl_count_of(decl)->0).pos,
    )
}

/// The local a component declaration adds.
pub open spec fn component_local(scope: Scope, exports: OrderedMap<ModuleId, Rc<Scope>>, names: Seq<Seq<char>>, circ_id: usize, decl: Node) -> LocalSymbol {
    LocalSymbol {
        name: ident_of(decl_name_of(decl)),
        ty: match array_size(decl_size(scope, exports, names, decl)) {
            Some(n) => LocalType::Array(circ_id, n),
            None => LocalType::Circ(circ_id),
        },
        pos: decl.pos,
    }
}

/// Checks one declaration of components of circuit `circ_id` and, unless
/// its name is taken, declares it in `scope` and as a dependency of the
/// circuit being built.
pub fn evaluate_decl(
    scope: &mut Scope,
    exports: &OrderedMap<ModuleId, Rc<Scope>>,
    idents: &Interner,
    circ: &mut CircBuilder,
    circ_id: usize,
    decl: &Node,
    errors: &mut Vec<Diagnostic>,
)
    requires
        concrete_eq::<IdentId>(),
        concrete_eq::<ModuleId>(),
        exports.wf(),
        old(circ).wf(),
        decl_defined(*old(scope), *exports, idents.view(), *decl),
    ensures
        final(scope).wf(),
        final(scope).spec_parent() == old(scope).spec_parent(),
        final(circ).wf(),
        decl_errors_ok(*old(scope), *exports, idents.view(), *decl, old(errors)@, final(errors)@),
        ({
            let name = ident_of(decl_name_of(*decl));
            let size = array_size(decl_size(*old(scope), *exports, idents.view(), *decl));
            if old(scope).lookup(name) is Some {
                &&& forall|n: IdentId| #[trigger] final(scope).lookup(n) == old(scope).lookup(n)
                &&& *final(circ) == *old(circ)
            } else {
                &&& final(scope).lookup(name) == Some(
                    ScopeSymbol::Local(component_local(*old(scope), *exports, idents.view(), circ_id, *decl)),
                )
                &&& forall|n: IdentId| n != name ==> #[trigger] final(scope).lookup(n) == old(scope).lookup(n)
                &&& final(circ).dependency_names().contains(name)
                &&& forall|i: int|
                    0 <= i < final(circ).dependency_names().len() && final(circ).dependency_names()[i] == name
                        ==> final(circ).dependency_values()[i] == (circ_id, size)
                &&& forall|n: IdentId|
                    n != name ==> (final(circ).dependency_names().contains(n) <==> old(circ).dependency_names().contains(n))
                &&& final(circ).pin_names() == old(circ).pin_names()
                &&& final(circ).pin_values() == old(circ).pin_values()
                &&& final(circ).connection_count() == old(circ).connection_count()
            }
        }),
{
    let (name_node, count) = match decl.node_type() {
        NodeType::Decl { name, count } => (name, count),
        _ => return,
    };
    let name = match name_node.node_type() {
        NodeType::Identifier(n) => *n,
        _ => 0,
    };
    let ghost e0 = errors@;
    let already_exists = check_symbol_exists(scope, idents, name, name_node.pos(), errors);
    let ghost e1 = errors@;
    let width = match count {
        Some(c) => Some(evaluate_constexpr(scope, exports, idents, &**c, errors)),
        None => None,
    };
    let ghost e2 = errors@;
    proof {
        if count is None {
            assert(e2.subrange(0, e1.len() as int) =~= e2);
        }
        assert(e1.subrange(0, e0.len() as int) =~= e0) by {
            if already_exists {
                assert(e1.drop_last() == e0);
            }
        }
        assert(e2.subrange(0, e1.len() as int) == e1);
        assert forall|i: int| 0 <= i < e1.len() implies e2[i] == e1[i] by {
            assert(e2.subrange(0, e1.len() as int)[i] == e1[i]);
        }
        assert forall|i: int| 0 <= i < e0.len() implies e1[i] == e0[i] by {
            assert(e1.subrange(0, e0.len() as int)[i] == e0[i]);
        }
    }
    let array_size = match width {
        Some(ConstValue::Int(s)) => {
            if s > 0 {
                Some(s as usize)
            } else {
                let mut n = String::new();
                push_str(&mut n, "size expression evaluated to ");
                if s < 0 {
                    push_str(&mut n, "-");
                }
                push_decimal(&mut n, magnitude_of(s));
                let m = String::from_str("array size must be at least 1");
                proof {
                    reveal_strlit("");
                    reveal_strlit("array size must be at least 1");
                    reveal_strlit("-");
                }
                assert(n@ =~= "size expression evaluated to "@ + signed_text(s as int));
                let count_pos = match count {
                    Some(c) => c.pos(),
                    None => name_node.pos(),
                };
                let note = Diagnostic::new(n, DiagnosticKind::Info, Context { pos: count_pos });
                let d = Diagnostic::error(m, decl.pos()).add_note(note);
                assert(d.spec_notes() =~= seq![note]);
                errors.push(d);
                Some(
                    if s == 0 {
                        1
                    } else {
                        (-s) as usize
                    },
                )
            }
        },
        _ => None,
    };
    proof {
        let fin = errors@;
        assert forall|i: int| 0 <= i < e2.len() implies fin[i] == e2[i] by {
        }
        assert(fin.subrange(0, e0.len() as int) =~= e0);
        assert(fin.subrange(0, e1.len() as int) =~= e1);
        assert(fin.subrange(0, e2.len() as int) =~= e2);
        if already_exists {
            assert(fin[e0.len() as int] == e1[e0.len() as int]);
        }
    }
    if already_exists {
        return;
    }
    let ty = match array_size {
        Some(n) => LocalType::Array(circ_id, n),
        None => LocalType::Circ(circ_id),
    };
    scope.add_local(LocalSymbol { name, ty, pos: decl.pos() });
    circ.dependency(name, circ_id, array_size);
}

/// The scope after the first component declarations of a list.
pub open spec fn decls_scope(
    s: Scope,
    exports: OrderedMap<ModuleId, Rc<Scope>>,
    names: Seq<Seq<char>>,
    circ_id: usize,
    decls: Seq<Node>,
) -> Scope
    decreases decls.len(),
{
    if decls.len() == 0 {
        s
    } else {
        let p = decls_scope(s, exports, names, circ_id, decls.drop_last());
        if p.lookup(ident_of(decl_name_of(decls.last()))) is Some {
            p
        } else {
            scope_with_local(p, component_local(p, exports, names, circ_id, decls.last()))
        }
    }
}

/// Every component declaration of the list can be checked in the scope the
/// earlier ones leave.
pub open spec fn decls_defined(
    s: Scope,
    exports: OrderedMap<ModuleId, Rc<Scope>>,
    names: Seq<Seq<char>>,
    circ_id: usize,
    decls: Seq<Node>,
) -> bool
    decreases decls.len(),
{
    decls.len() == 0 || (decls_defined(s, exports, names, circ_id, decls.drop_last()) && decl_defined(
        decls_scope(s, exports, names, circ_id, decls.drop_last()),
        exports,
        names,
        decls.last(),
    ))
}

proof fn lemma_decls_defined_prefix(
    s: Scope,
    exports: OrderedMap<ModuleId, Rc<Scope>>,
    names: Seq<Seq<char>>,
    circ_id: usize,
    decls: Seq<Node>,
    k: int,
)
    requires
        decls_defined(s, exports, names, circ_id, decls),
        0 <= k <= decls.len(),
    ensures
        decls_defined(s, exports, names, circ_id, decls.take(k)),
    decreases decls.len() - k,
{
    if k < decls.len() {
        lemma_decls_defined_prefix(s, exports, names, circ_id, decls, k + 1);
        assert(decls.take(k + 1).drop_last() =~= decls.take(k));
    } else {
        assert(decls.take(k) =~= decls);
    }
}

proof fn lemma_decl_same(a: Scope, b: Scope, exports: OrderedMap<ModuleId, Rc<Scope>>, names: Seq<Seq<char>>, circ_id: usize, decl: Node)
    requires
        same_lookups(a, b),
        decl.node_type is Decl,
    ensures
        decl_defined(a, exports, names, decl) == decl_defined(b, exports, names, decl),
        decl_size(a, exports, names, decl) == decl_size(b, exports, names, decl),
        component_local(a, exports, names, circ_id, decl) == component_local(b, exports, names, circ_id, decl),
        forall|x: Seq<Diagnostic>, y: Seq<Diagnostic>|
            decl_errors_ok(a, exports, names, decl, x, y) == #[trigger] decl_errors_ok(b, exports, names, decl, x, y),
{
    match decl_count_of(decl) {
        Some(e) => lemma_eval_same(a, b, exports, names, *e),
        None => {},
    }
    assert(a.lookup(ident_of(decl_name_of(decl))) == b.lookup(ident_of(decl_name_of(decl))));
}

/// Checks the declarations of components of circuit `circ_id` in a `with`
/// statement: each in turn, see `evaluate_decl`.
pub fn evaluate_decls(
    scope: &mut Scope,
    exports: &OrderedMap<ModuleId, Rc<Scope>>,
    idents: &Interner,
    circ: &mut CircBuilder,
    circ_id: usize,
    decls: &[Node],
    errors: &mut Vec<Diagnostic>,
)
    requires
        concrete_eq::<IdentId>(),
        concrete_eq::<ModuleId>(),
        exports.wf(),
        old(circ).wf(),
        old(scope).wf(),
        decls_defined(*old(scope), *exports, idents.view(), circ_id, decls@),
    ensures
        final(scope).wf(),
        final(circ).wf(),
        final(scope).spec_parent() == old(scope).spec_parent(),
        forall|n: IdentId| #[trigger] final(scope).lookup(n) == decls_scope(
            *old(scope),
            *exports,
            idents.view(),
            circ_id,
            decls@,
        ).lookup(n),
        exists|offs: Seq<int>|
            {
                &&& offs.len() == decls@.len() + 1
                &&& offs[0] == old(errors)@.len()
                &&& offs[decls@.len() as int] == final(errors)@.len()
                &&& final(errors)@.subrange(0, offs[0]) == old(errors)@
                &&& forall|k: int|
                    0 <= k < decls@.len() ==> offs[k] <= #[trigger] offs[k + 1] <= final(errors)@.len() && decl_errors_ok(
                        decls_scope(*old(scope), *exports, idents.view(), circ_id, decls@.take(k)),
                        *exports,
                        idents.view(),
                        decls@[k],
                        final(errors)@.subrange(0, offs[k]),
                        final(errors)@.subrange(0, offs[k + 1]),
                    )
            },
{
    let ghost s0 = *scope;
    let ghost e0 = errors@;
    let ghost mut offs: Seq<int> = seq![e0.len() as int];
    let mut k: usize = 0;
    assert(decls@.take(0) =~= Seq::<Node>::empty());
    while k < decls.len()
        invariant
            concrete_eq::<IdentId>(),
            concrete_eq::<ModuleId>(),
            exports.wf(),
            circ.wf(),
            scope.wf(),
            scope.spec_parent() == s0.spec_parent(),
            s0.wf(),
            k <= decls@.len(),
            decls_defined(s0, *exports, idents.view(), circ_id, decls@),
            same_lookups(*scope, decls_scope(s0, *exports, idents.view(), circ_id, decls@.take(k as int))),
            offs.len() == k + 1,
            offs[0] == e0.len(),
            offs[k as int] == errors@.len(),
            errors@.subrange(0, offs[0]) == e0,
            forall|t: int| 0 <= t <= k ==> e0.len() <= #[trigger] offs[t] <= errors@.len(),
            forall|t: int|
                0 <= t < k ==> offs[t] <= #[trigger] offs[t + 1] <= errors@.len() && decl_errors_ok(
                    decls_scope(s0, *exports, idents.view(), circ_id, decls@.take(t)),
                    *exports,
                    idents.view(),
                    decls@[t],
                    errors@.subrange(0, offs[t]),
                    errors@.subrange(0, offs[t + 1]),
                ),
        decreases decls@.len() - k,
    {
        let ghost before_scope = *scope;
        let ghost before_errors = errors@;
        let ghost sk = decls_scope(s0, *exports, idents.view(), circ_id, decls@.take(k as int));
        proof {
            lemma_decls_defined_prefix(s0, *exports, idents.view(), circ_id, decls@, k as int + 1);
            assert(decls@.take(k + 1).drop_last() =~= decls@.take(k as int));
            assert(decls@.take(k + 1).last() == decls@[k as int]);
            lemma_decl_same(*scope, sk, *exports, idents.view(), circ_id, decls@[k as int]);
        }
        evaluate_decl(scope, exports, idents, circ, circ_id, &decls[k], errors);
        proof {
            let d = decls@[k as int];
            let sk1 = decls_scope(s0, *exports, idents.view(), circ_id, decls@.take(k + 1));
            let name = ident_of(decl_name_of(d));
            if sk.lookup(name) is Some {
                assert(sk1 == sk);
            } else {
                let local = component_local(sk, *exports, idents.view(), circ_id, d);
                assert forall|n: IdentId| n != local.name implies #[trigger] scope.lookup(n) == sk.lookup(n) by {
                    assert(scope.lookup(n) == before_scope.lookup(n));
                    assert(before_scope.lookup(n) == sk.lookup(n));
                }
                assert(scope.lookup(local.name) == Some(ScopeSymbol::Local(local)));
                assert(scope.wf() && scope.lookup(local.name) == Some(ScopeSymbol::Local(local)) && forall|n: IdentId|
                    n != local.name ==> #[trigger] scope.lookup(n) == sk.lookup(n));
                assert(sk1 == scope_with_local(sk, local));
            }
            assert(errors@.subrange(0, before_errors.len() as int) == before_errors);
            assert forall|i: int| 0 <= i < before_errors.len() implies errors@[i] == before_errors[i] by {
                assert(errors@.subrange(0, before_errors.len() as int)[i] == errors@[i]);
            }
            assert forall|t: int| 0 <= t < k implies offs[t] <= #[trigger] offs[t + 1] <= errors@.len() && decl_errors_ok(
                decls_scope(s0, *exports, idents.view(), circ_id, decls@.take(t)),
                *exports,
                idents.view(),
                decls@[t],
                errors@.subrange(0, offs[t]),
                errors@.subrange(0, offs[t + 1]),
            ) by {
                assert(0 <= offs[t] <= offs[t + 1] <= before_errors.len());
                assert(errors@.subrange(0, offs[t]) =~= before_errors.subrange(0, offs[t]));
                assert(errors@.subrange(0, offs[t + 1]) =~= before_errors.subrange(0, offs[t + 1]));
            }
            assert(errors@.subrange(0, offs[0]) =~= before_errors.subrange(0, offs[0]));
            assert(errors@.subrange(0, errors@.len() as int) =~= errors@);
            assert(before_errors.subrange(0, before_errors.len() as int) =~= before_errors);
            offs = offs.push(errors@.len() as int);
        }
        k = k + 1;
    }
    assert(decls@.take(decls@.len() as int) =~= decls@);
}

} // verus!
