//! Resolving paths to symbols and evaluating constant expressions.
use vstd::prelude::*;

use std::rc::Rc;

use super::builder::CircBuilder;
use super::circ::Circ;
use super::constexpr::ConstValue;
use super::pins::{
    PinExprType, apply_index, index_applicable, index_error_text, index_out_of_bounds, pinexpr_range,
    range_error_text, range_rejected, spec_index_pinexpr, spec_pinexpr_range, valid_index_value,
};
use super::pins::push_ident;
use super::scope::{CircArg, CircSymbol, Scope, ScopeSymbol};
use super::{ConstOpError, const_op_defined, const_op_result, evaluate_const_op};
use crate::ast::{ConstExprOpType, Node, NodeType, PinExprOpType};
use crate::diagnostics::Diagnostic;
use crate::tokeniser::IdentId;
use crate::util::ordered_map::concrete_eq;
use crate::util::text::push_str;
use crate::util::{Interner, ModuleId, OrderedMap, Pos};

verus! {

/// The identifier an identifier node names.
pub open spec fn ident_of(n: Node) -> IdentId {
    n.node_type->Identifier_0
}

/// The scope module `m` exports, if it has been loaded.
pub open spec fn exported(exports: OrderedMap<ModuleId, Rc<Scope>>, m: ModuleId) -> Option<Scope> {
    if exports.key_seq().contains(m) {
        Some(*exports.value_seq()[exports.key_seq().index_of(m)])
    } else {
        None
    }
}

/// What a path resolves to: a symbol of some scope, or a variant of an enum.
pub open spec fn spec_resolve(scope: Scope, exports: OrderedMap<ModuleId, Rc<Scope>>, names: Seq<Seq<char>>, path: Seq<Node>) -> Result<
    ScopeSymbol,
    (Seq<char>, Pos),
>
    decreases path.len(),
{
    if path.len() == 0 {
        Err((Seq::empty(), Pos::Absent))
    } else {
        let id = ident_of(path[0]);
        match scope.lookup(id) {
            None => Err(("could not resolve identifier '"@ + names[id as int] + "'"@, path[0].pos)),
            Some(sym) => if path.len() == 1 {
                Ok(sym)
            } else {
                match sym {
                    ScopeSymbol::EnumType(e) => {
                        let v = ident_of(path[1]);
                        if !e.variants.key_seq().contains(v) {
                            Err(
                                (
                                    "unknown variant '"@ + names[v as int] + "' in enum '"@ + names[id as int] + "'"@,
                                    path[1].pos,
                                ),
                            )
                        } else if path.len() > 2 {
                            Err(
                                (
                                    "cannot access member '"@ + names[ident_of(path[2]) as int] + "' on enum variant '"@
                                        + names[id as int] + ":"@ + names[v as int] + "'"@,
                                    path[2].pos,
                                ),
                            )
                        } else {
                            Ok(ScopeSymbol::EnumValue { module_id: e.module_id, enum_name: id, variant: v })
                        }
                    },
                    ScopeSymbol::Module(m) => match exported(exports, m.module_id) {
                        Some(s) => spec_resolve(s, exports, names, path.drop_first()),
                        None => Err((Seq::empty(), Pos::Absent)),
                    },
                    _ => Err(
                        (
                            "cannot access member '"@ + names[ident_of(path[1]) as int] + "' on "@
                                + sym.spec_get_type().spec_error_msg_str() + " '"@ + names[id as int] + "'"@,
                            path[2].pos,
                        ),
                    ),
                }
            },
        }
    }
}

/// The paths that resolve without failing outright: a non-empty path of
/// known identifiers whose modules are loaded, and where a member of
/// something that has no members is asked for, a third element to point at.
pub open spec fn resolvable(scope: Scope, exports: OrderedMap<ModuleId, Rc<Scope>>, names: Seq<Seq<char>>, path: Seq<Node>) -> bool
    decreases path.len(),
{
    &&& path.len() > 0
    &&& scope.wf()
    &&& forall|i: int| 0 <= i < path.len() ==> (#[trigger] path[i]).node_type is Identifier && ident_of(path[i]) < names.len()
    &&& match scope.lookup(ident_of(path[0])) {
        None => true,
        Some(sym) => path.len() == 1 || match sym {
            ScopeSymbol::EnumType(e) => e.variants.wf(),
            ScopeSymbol::Module(m) => match exported(exports, m.module_id) {
                Some(s) => resolvable(s, exports, names, path.drop_first()),
                None => false,
            },
            ScopeSymbol::EnumValue { .. } => false,
            _ => path.len() > 2,
        },
    }
}

/// A path resolved by `resolve_path`: a symbol found in a scope, or a
/// variant of an enum.
pub enum Resolved<'a> {
    Symbol(&'a ScopeSymbol),
    EnumValue { module_id: ModuleId, enum_name: IdentId, variant: IdentId },
}

impl<'a> Resolved<'a> {
    /// The symbol the resolution stands for.
    pub open spec fn symbol(&self) -> ScopeSymbol {
        match self {
            Resolved::Symbol(s) => **s,
            Resolved::EnumValue { module_id, enum_name, variant } => ScopeSymbol::EnumValue {
                module_id: *module_id,
                enum_name: *enum_name,
                variant: *variant,
            },
        }
    }
}

/// Resolves a path of identifiers, such as `module:Enum:Variant`, starting in
/// `scope` and going into the scopes that modules export.
pub fn resolve_path<'a>(
    scope: &'a Scope,
    exports: &'a OrderedMap<ModuleId, Rc<Scope>>,
    idents: &Interner,
    path: &[Node],
) -> (r: Result<Resolved<'a>, Diagnostic>)
    requires
        concrete_eq::<IdentId>(),
        concrete_eq::<ModuleId>(),
        exports.wf(),
        resolvable(*scope, *exports, idents.view(), path@),
    ensures
        match spec_resolve(*scope, *exports, idents.view(), path@) {
            Ok(sym) => r matches Ok(res) && res.symbol() == sym,
            Err((m, p)) => r matches Err(d) && d.is_error_at(m, p),
        },
    decreases path@.len(),
{
    let id = match path[0].node_type() {
        NodeType::Identifier(id) => *id,
        _ => 0,
    };
    let symbol = match scope.get_symbol(id) {
        Some(s) => s,
        None => {
            let mut m = String::new();
            push_str(&mut m, "could not resolve identifier '");
            push_ident(&mut m, idents, id);
            push_str(&mut m, "'");
            proof {
                reveal_strlit("");
            }
            assert(m@ =~= "could not resolve identifier '"@ + idents.view()[id as int] + "'"@);
            return Err(Diagnostic::error(m, path[0].pos()));
        },
    };
    if path.len() == 1 {
        return Ok(Resolved::Symbol(symbol));
    }
    match symbol {
        ScopeSymbol::EnumType(e) => {
            let v = match path[1].node_type() {
                NodeType::Identifier(v) => *v,
                _ => 0,
            };
            if !e.variants.contains_key(&v) {
                let mut m = String::new();
                push_str(&mut m, "unknown variant '");
                push_ident(&mut m, idents, v);
                push_str(&mut m, "' in enum '");
                push_ident(&mut m, idents, id);
                push_str(&mut m, "'");
                proof {
                    reveal_strlit("");
                }
                assert(m@ =~= "unknown variant '"@ + idents.view()[v as int] + "' in enum '"@ + idents.view()[id as int]
                    + "'"@);
                return Err(Diagnostic::error(m, path[1].pos()));
            }
            if path.len() > 2 {
                let extra = match path[2].node_type() {
                    NodeType::Identifier(x) => *x,
                    _ => 0,
                };
                let mut m = String::new();
                push_str(&mut m, "cannot access member '");
                push_ident(&mut m, idents, extra);
                push_str(&mut m, "' on enum variant '");
                push_ident(&mut m, idents, id);
                push_str(&mut m, ":");
                push_ident(&mut m, idents, v);
                push_str(&mut m, "'");
                proof {
                    reveal_strlit("");
                }
                assert(m@ =~= "cannot access member '"@ + idents.view()[extra as int] + "' on enum variant '"@
                    + idents.view()[id as int] + ":"@ + idents.view()[v as int] + "'"@);
                return Err(Diagnostic::error(m, path[2].pos()));
            }
            Ok(Resolved::EnumValue { module_id: e.module_id, enum_name: id, variant: v })
        },
        ScopeSymbol::Module(module) => {
            match exports.get_entry(&module.module_id) {
                Some((i, sub)) => {
                    proof {
                        crate::util::ordered_map::lemma_keys_distinct(*exports);
                        let k = exports.key_seq().index_of(module.module_id);
                        if k != i {
                            assert(exports.key_seq()[k] != exports.key_seq()[i as int]);
                        }
                        assert(path@.drop_first() =~= path@.subrange(1, path@.len() as int));
                    }
                    let rest = &path[1..path.len()];
                    resolve_path(&**sub, exports, idents, rest)
                },
                None => Err(Diagnostic::error(String::new(), Pos::Absent)),
            }
        },
        _ => {
            let extra = match path[1].node_type() {
                NodeType::Identifier(x) => *x,
                _ => 0,
            };
            let mut m = String::new();
            push_str(&mut m, "cannot access member '");
            push_ident(&mut m, idents, extra);
            push_str(&mut m, "' on ");
            push_str(&mut m, symbol.get_type().error_msg_str());
            push_str(&mut m, " '");
            push_ident(&mut m, idents, id);
            push_str(&mut m, "'");
            proof {
                reveal_strlit("");
            }
            assert(m@ =~= "cannot access member '"@ + idents.view()[extra as int] + "' on "@
                + symbol.spec_get_type().spec_error_msg_str() + " '"@ + idents.view()[id as int] + "'"@);
            Err(Diagnostic::error(m, path[2].pos()))
        },
    }
}

/// `new` is `old` followed by errors with the given messages and positions.
pub open spec fn errors_appended(old: Seq<Diagnostic>, new: Seq<Diagnostic>, errs: Seq<(Seq<char>, Pos)>) -> bool {
    &&& new.len() == old.len() + errs.len()
    &&& new.subrange(0, old.len() as int) == old
    &&& forall|i: int| 0 <= i < errs.len() ==> (#[trigger] new[old.len() + i]).is_error_at(errs[i].0, errs[i].1)
}

pub proof fn lemma_errors_appended_trans(
    a: Seq<Diagnostic>,
    b: Seq<Diagnostic>,
    c: Seq<Diagnostic>,
    e1: Seq<(Seq<char>, Pos)>,
    e2: Seq<(Seq<char>, Pos)>,
)
    requires
        errors_appended(a, b, e1),
        errors_appended(b, c, e2),
    ensures
        errors_appended(a, c, e1 + e2),
{
    assert(c.subrange(0, a.len() as int) =~= a) by {
        assert forall|i: int| 0 <= i < a.len() implies c[i] == a[i] by {
            assert(c.subrange(0, b.len() as int)[i] == b[i]);
            assert(b.subrange(0, a.len() as int)[i] == a[i]);
        }
    }
    assert forall|i: int| 0 <= i < (e1 + e2).len() implies (#[trigger] c[a.len() + i]).is_error_at(
        (e1 + e2)[i].0,
        (e1 + e2)[i].1,
    ) by {
        if i < e1.len() {
            assert(c.subrange(0, b.len() as int)[a.len() + i] == b[a.len() + i]);
        } else {
            let j = i - e1.len();
            assert(c[b.len() + j] == c[a.len() + i]);
        }
    }
}

/// The value of a constant expression and the errors met evaluating it, in
/// the order they are reported: those of the left operand, of the right
/// operand, then of the operator.
pub open spec fn spec_eval(scope: Scope, exports: OrderedMap<ModuleId, Rc<Scope>>, names: Seq<Seq<char>>, expr: Node) -> (
    ConstValue,
    Seq<(Seq<char>, Pos)>,
)
    decreases expr,
{
    match expr.node_type {
        NodeType::Integer(v) => (ConstValue::Int(v), Seq::empty()),
        NodeType::Path(p) => match spec_resolve(scope, exports, names, p@) {
            Err(e) => (ConstValue::Unknown, seq![e]),
            Ok(ScopeSymbol::Const(c)) => (c.value, Seq::empty()),
            Ok(ScopeSymbol::EnumValue { module_id, enum_name, variant }) => (
                ConstValue::Enum { module_id, enum_name, variant },
                Seq::empty(),
            ),
            _ => (ConstValue::Unknown, Seq::empty()),
        },
        NodeType::ConstExpr { lhs, op, rhs } => {
            let l = match lhs {
                Some(b) => Some(spec_eval(scope, exports, names, *b)),
                None => None,
            };
            let r = match rhs {
                Some(b) => Some(spec_eval(scope, exports, names, *b)),
                None => None,
            };
            let lv = match l {
                Some(x) => Some(x.0),
                None => None,
            };
            let rv = match r {
                Some(x) => Some(x.0),
                None => None,
            };
            let errs = match l {
                Some(x) => x.1,
                None => Seq::empty(),
            } + match r {
                Some(x) => x.1,
                None => Seq::empty(),
            };
            match const_op_result(lv, op, rv) {
                Ok(v) => (v, errs),
                Err(e) => (ConstValue::Unknown, errs.push((e.spec_message(), expr.pos))),
            }
        },
        _ => (ConstValue::Unknown, Seq::empty()),
    }
}

/// The constant expressions that evaluate without failing outright: made of
/// integers, paths to constants or enum variants, and operators applied
/// where they are defined.
pub open spec fn eval_defined(scope: Scope, exports: OrderedMap<ModuleId, Rc<Scope>>, names: Seq<Seq<char>>, expr: Node) -> bool
    decreases expr,
{
    match expr.node_type {
        NodeType::Integer(_) => true,
        NodeType::Path(p) => resolvable(scope, exports, names, p@) && match spec_resolve(scope, exports, names, p@) {
            Err(_) => true,
            Ok(ScopeSymbol::Const(_)) => true,
            Ok(ScopeSymbol::EnumValue { .. }) => true,
            _ => false,
        },
        NodeType::ConstExpr { lhs, op, rhs } => {
            &&& match lhs {
                Some(b) => eval_defined(scope, exports, names, *b),
                None => true,
            }
            &&& match rhs {
                Some(b) => eval_defined(scope, exports, names, *b),
                None => true,
            }
            &&& const_op_defined(
                match lhs {
                    Some(b) => Some(spec_eval(scope, exports, names, *b).0),
                    None => None,
                },
                op,
                match rhs {
                    Some(b) => Some(spec_eval(scope, exports, names, *b).0),
                    None => None,
                },
            )
        },
        _ => false,
    }
}

/// Evaluates a constant expression in `scope`. Errors are appended to
/// `errors`; a part that could not be evaluated is unknown.
pub fn evaluate_constexpr(
    scope: &Scope,
    exports: &OrderedMap<ModuleId, Rc<Scope>>,
    idents: &Interner,
    expr: &Node,
    errors: &mut Vec<Diagnostic>,
) -> (r: ConstValue)
    requires
        concrete_eq::<IdentId>(),
        concrete_eq::<ModuleId>(),
        exports.wf(),
        eval_defined(*scope, *exports, idents.view(), *expr),
    ensures
        r == spec_eval(*scope, *exports, idents.view(), *expr).0,
        errors_appended(old(errors)@, final(errors)@, spec_eval(*scope, *exports, idents.view(), *expr).1),
    decreases expr,
{
    match expr.node_type() {
        NodeType::Integer(v) => {
            assert(errors@.subrange(0, errors@.len() as int) =~= errors@);
            ConstValue::Int(*v)
        },
        NodeType::Path(p) => {
            match resolve_path(scope, exports, idents, p.as_slice()) {
                Err(d) => {
                    errors.push(d);
                    assert(errors@.subrange(0, old(errors)@.len() as int) =~= old(errors)@);
                    ConstValue::Unknown
                },
                Ok(Resolved::Symbol(ScopeSymbol::Const(c))) => {
                    assert(errors@.subrange(0, errors@.len() as int) =~= errors@);
                    c.value
                },
                Ok(Resolved::EnumValue { module_id, enum_name, variant }) => {
                    assert(errors@.subrange(0, errors@.len() as int) =~= errors@);
                    ConstValue::Enum { module_id, enum_name, variant }
                },
                Ok(Resolved::Symbol(ScopeSymbol::EnumValue { module_id, enum_name, variant })) => {
                    assert(errors@.subrange(0, errors@.len() as int) =~= errors@);
                    ConstValue::Enum { module_id: *module_id, enum_name: *enum_name, variant: *variant }
                },
                Ok(_) => {
                    assert(errors@.subrange(0, errors@.len() as int) =~= errors@);
                    ConstValue::Unknown
                },
            }
        },
        NodeType::ConstExpr { lhs, op, rhs } => {
            let ghost e0 = errors@;
            let lv = match lhs {
                Some(b) => Some(evaluate_constexpr(scope, exports, idents, &**b, errors)),
                None => None,
            };
            let ghost e1 = errors@;
            let rv = match rhs {
                Some(b) => Some(evaluate_constexpr(scope, exports, idents, &**b, errors)),
                None => None,
            };
            let ghost e2 = errors@;
            proof {
                let le = match lhs {
                    Some(b) => spec_eval(*scope, *exports, idents.view(), **b).1,
                    None => Seq::empty(),
                };
                let re = match rhs {
                    Some(b) => spec_eval(*scope, *exports, idents.view(), **b).1,
                    None => Seq::empty(),
                };
                if lhs is None {
                    assert(e1 == e0);
                    assert(errors_appended(e0, e1, le)) by {
                        assert(e1.subrange(0, e0.len() as int) =~= e0);
                    }
                }
                if rhs is None {
                    assert(e2 == e1);
                    assert(errors_appended(e1, e2, re)) by {
                        assert(e2.subrange(0, e1.len() as int) =~= e1);
                    }
                }
                lemma_errors_appended_trans(e0, e1, e2, le, re);
            }
            match evaluate_const_op(lv, *op, rv) {
                Ok(v) => v,
                Err(e) => {
                    let d = Diagnostic::error(e.message(), expr.pos());
                    errors.push(d);
                    proof {
                        let le = match lhs {
                            Some(b) => spec_eval(*scope, *exports, idents.view(), **b).1,
                            None => Seq::empty(),
                        };
                        let re = match rhs {
                            Some(b) => spec_eval(*scope, *exports, idents.view(), **b).1,
                            None => Seq::empty(),
                        };
                        assert(errors_appended(e2, errors@, seq![(e.spec_message(), expr.pos)])) by {
                            assert(errors@.subrange(0, e2.len() as int) =~= e2);
                        }
                        lemma_errors_appended_trans(e0, e2, errors@, le + re, seq![(e.spec_message(), expr.pos)]);
                        assert((le + re).push((e.spec_message(), expr.pos)) =~= (le + re) + seq![
                            (e.spec_message(), expr.pos),
                        ]);
                    }
                    ConstValue::Unknown
                },
            }
        },
        _ => ConstValue::Unknown,
    }
}

/// What a name denotes in a pin expression: a pin of the circuit, else a
/// dependency or an array of them.
pub open spec fn spec_ident_pinexpr(b: CircBuilder, name: IdentId) -> PinExprType {
    if b.pin_names().contains(name) {
        let i = b.pin_names().index_of(name);
        PinExprType::Pin { pin_id: i as usize, pin: b.pin_values()[i] }
    } else if b.dependency_names().contains(name) {
        let (circ_id, len) = b.dependency_values()[b.dependency_names().index_of(name)];
        match len {
            Some(l) => PinExprType::DependencyArray { name, circ_id, len: l },
            None => PinExprType::Dependency { name, circ_id, index: None },
        }
    } else {
        PinExprType::Unknown
    }
}

/// The message for a child taken with something other than a name.
pub open spec fn get_child_error_text() -> Seq<char> {
    "get child operation requires an identifier on the right-hand side"@
}

/// What indexing `l` with `r` reports, if anything.
pub open spec fn index_error(l: PinExprType, r: PinExprType, names: Seq<Seq<char>>) -> Option<Seq<char>> {
    match r {
        PinExprType::Index(i) => if index_out_of_bounds(l, i) {
            Some(index_error_text(l, i, names))
        } else {
            None
        },
        PinExprType::Range(s, e) => if range_rejected(l, s, e) {
            Some(range_error_text(l, s, e, names))
        } else {
            None
        },
        _ => None,
    }
}

/// What a pin expression denotes and the errors met evaluating it.
pub open spec fn spec_pin_eval(
    scope: Scope,
    exports: OrderedMap<ModuleId, Rc<Scope>>,
    names: Seq<Seq<char>>,
    b: CircBuilder,
    circs: Seq<Circ>,
    node: Node,
) -> (PinExprType, Seq<(Seq<char>, Pos)>)
    decreases node,
{
    match node.node_type {
        NodeType::Identifier(n) => (spec_ident_pinexpr(b, n), Seq::empty()),
        NodeType::ConstExpr { .. } | NodeType::Integer(_) => {
            let (v, e) = spec_eval(scope, exports, names, node);
            (spec_pinexpr_range(v), e)
        },
        NodeType::PinExpr { lhs, op, rhs } => {
            let l = match lhs {
                Some(x) => spec_pin_eval(scope, exports, names, b, circs, *x),
                None => (PinExprType::Unknown, Seq::empty()),
            };
            match op {
                PinExprOpType::GetChild => match rhs.node_type {
                    NodeType::Identifier(pin_name) => {
                        let pins = circs[l.0->Dependency_circ_id as int].spec_pins();
                        let pid = pins.key_seq().index_of(pin_name);
                        (
                            PinExprType::DependencyPin {
                                name: l.0->Dependency_name,
                                circ_id: l.0->Dependency_circ_id,
                                index: l.0->Dependency_index,
                                pin_id: pid as usize,
                                pin: pins.value_seq()[pid],
                            },
                            l.1,
                        )
                    },
                    _ => (PinExprType::Unknown, l.1.push((get_child_error_text(), rhs.pos))),
                },
                PinExprOpType::Index => {
                    let r = spec_pin_eval(scope, exports, names, b, circs, *rhs);
                    let errs = l.1 + r.1;
                    match index_error(l.0, r.0, names) {
                        Some(m) => (PinExprType::Unknown, errs.push((m, node.pos))),
                        None => (spec_index_pinexpr(l.0, r.0), errs),
                    }
                },
            }
        },
        _ => (PinExprType::Unknown, Seq::empty()),
    }
}

/// The pin expressions that evaluate without failing outright.
pub open spec fn pin_eval_defined(
    scope: Scope,
    exports: OrderedMap<ModuleId, Rc<Scope>>,
    names: Seq<Seq<char>>,
    b: CircBuilder,
    circs: Seq<Circ>,
    node: Node,
) -> bool
    decreases node,
{
    match node.node_type {
        NodeType::Identifier(n) => b.pin_names().contains(n) || b.dependency_names().contains(n),
        NodeType::ConstExpr { .. } | NodeType::Integer(_) => eval_defined(scope, exports, names, node)
            && valid_index_value(spec_eval(scope, exports, names, node).0),
        NodeType::PinExpr { lhs, op, rhs } => match lhs {
            None => false,
            Some(x) => {
                &&& pin_eval_defined(scope, exports, names, b, circs, *x)
                &&& {
                    let l = spec_pin_eval(scope, exports, names, b, circs, *x).0;
                    match op {
                        PinExprOpType::GetChild => match rhs.node_type {
                            NodeType::Identifier(pin_name) => {
                                &&& l is Dependency
                                &&& l->Dependency_circ_id < circs.len()
                                &&& circs[l->Dependency_circ_id as int].spec_pins().wf()
                                &&& circs[l->Dependency_circ_id as int].spec_pins().key_seq().contains(pin_name)
                            },
                            _ => true,
                        },
                        PinExprOpType::Index => {
                            &&& pin_eval_defined(scope, exports, names, b, circs, *rhs)
                            &&& index_applicable(l, spec_pin_eval(scope, exports, names, b, circs, *rhs).0, names)
                        },
                    }
                }
            },
        },
        _ => false,
    }
}

/// What a name denotes in a pin expression.
pub fn resolve_pinexpr_ident(b: &CircBuilder, name: IdentId) -> (r: PinExprType)
    requires
        b.wf(),
        concrete_eq::<IdentId>(),
        b.pin_names().contains(name) || b.dependency_names().contains(name),
    ensures
        r == spec_ident_pinexpr(*b, name),
{
    if let Some((pin_id, pin)) = b.get_pin(name) {
        proof {
            b.lemma_pins_distinct();
            let k = b.pin_names().index_of(name);
            if k != pin_id {
                assert(b.pin_names()[k] != b.pin_names()[pin_id as int]);
            }
        }
        return PinExprType::Pin { pin_id, pin };
    }
    match b.get_dependency(name) {
        Some((circ_id, Some(len))) => PinExprType::DependencyArray { name, circ_id, len },
        Some((circ_id, None)) => PinExprType::Dependency { name, circ_id, index: None },
        None => PinExprType::Unknown,
    }
}

/// Evaluates a pin expression of the circuit being built by `b`: names of
/// pins and dependencies, children of dependencies, and bits or members
/// selected by constant indices. Errors are appended to `errors`; a part
/// that fails is unknown.
pub fn evaluate_pinexpr(
    scope: &Scope,
    exports: &OrderedMap<ModuleId, Rc<Scope>>,
    idents: &Interner,
    b: &CircBuilder,
    circs: &[Circ],
    node: &Node,
    errors: &mut Vec<Diagnostic>,
) -> (r: PinExprType)
    requires
        concrete_eq::<IdentId>(),
        concrete_eq::<ModuleId>(),
        exports.wf(),
        b.wf(),
        pin_eval_defined(*scope, *exports, idents.view(), *b, circs@, *node),
    ensures
        r == spec_pin_eval(*scope, *exports, idents.view(), *b, circs@, *node).0,
        errors_appended(old(errors)@, final(errors)@, spec_pin_eval(*scope, *exports, idents.view(), *b, circs@, *node).1),
    decreases node,
{
    match node.node_type() {
        NodeType::Identifier(name) => {
            assert(errors@.subrange(0, errors@.len() as int) =~= errors@);
            resolve_pinexpr_ident(b, *name)
        },
        NodeType::ConstExpr { .. } | NodeType::Integer(_) => {
            let v = evaluate_constexpr(scope, exports, idents, node, errors);
            pinexpr_range(v)
        },
        NodeType::PinExpr { lhs, op, rhs } => {
            let ghost e0 = errors@;
            let l = match lhs {
                Some(x) => evaluate_pinexpr(scope, exports, idents, b, circs, &**x, errors),
                None => PinExprType::Unknown,
            };
            let ghost e1 = errors@;
            match op {
                PinExprOpType::GetChild => {
                    match rhs.node_type() {
                        NodeType::Identifier(pin_name) => {
                            let (name, circ_id, index) = match l {
                                PinExprType::Dependency { name, circ_id, index } => (name, circ_id, index),
                                _ => (0, 0, None),
                            };
                            let pins = circs[circ_id].pins();
                            let pin_id = match pins.get_index(pin_name) {
                                Some(i) => i,
                                None => 0,
                            };
                            let pin = match pins.get_entry(pin_name) {
                                Some((_, p)) => *p,
                                None => crate::analyser::pins::Pin {
                                    name: 0,
                                    direction: crate::ast::PinDirection::Input,
                                    width: 0,
                                },
                            };
                            proof {
                                crate::util::ordered_map::lemma_keys_distinct(*pins);
                                let k = pins.key_seq().index_of(*pin_name);
                                if k != pin_id {
                                    assert(pins.key_seq()[k] != pins.key_seq()[pin_id as int]);
                                }
                            }
                            PinExprType::DependencyPin { name, circ_id, index, pin_id, pin }
                        },
                        _ => {
                            let mut m = String::new();
                            push_str(&mut m, "get child operation requires an identifier on the right-hand side");
                            proof {
                                reveal_strlit("");
                            }
                            assert(m@ =~= get_child_error_text());
                            errors.push(Diagnostic::error(m, rhs.pos()));
                            proof {
                                let le = spec_pin_eval(*scope, *exports, idents.view(), *b, circs@, *lhs->0).1;
                                assert(errors_appended(e1, errors@, seq![(get_child_error_text(), rhs.pos)])) by {
                                    assert(errors@.subrange(0, e1.len() as int) =~= e1);
                                }
                                lemma_errors_appended_trans(e0, e1, errors@, le, seq![(get_child_error_text(), rhs.pos)]);
                                assert(le.push((get_child_error_text(), rhs.pos)) =~= le + seq![
                                    (get_child_error_text(), rhs.pos),
                                ]);
                            }
                            PinExprType::Unknown
                        },
                    }
                },
                PinExprOpType::Index => {
                    let r = evaluate_pinexpr(scope, exports, idents, b, circs, &**rhs, errors);
                    let ghost e2 = errors@;
                    proof {
                        let le = spec_pin_eval(*scope, *exports, idents.view(), *b, circs@, *lhs->0).1;
                        let re = spec_pin_eval(*scope, *exports, idents.view(), *b, circs@, **rhs).1;
                        lemma_errors_appended_trans(e0, e1, e2, le, re);
                    }
                    let (result, diagnostic) = apply_index(node.pos(), l, r, idents);
                    match diagnostic {
                        Some(d) => {
                            errors.push(d);
                            proof {
                                let le = spec_pin_eval(*scope, *exports, idents.view(), *b, circs@, *lhs->0).1;
                                let re = spec_pin_eval(*scope, *exports, idents.view(), *b, circs@, **rhs).1;
                                let m = index_error(l, r, idents.view())->0;
                                assert(errors_appended(e2, errors@, seq![(m, node.pos)])) by {
                                    assert(errors@.subrange(0, e2.len() as int) =~= e2);
                                }
                                lemma_errors_appended_trans(e0, e2, errors@, le + re, seq![(m, node.pos)]);
                                assert((le + re).push((m, node.pos)) =~= (le + re) + seq![(m, node.pos)]);
                            }
                        },
                        None => {},
                    }
                    result
                },
            }
        },
        _ => PinExprType::Unknown,
    }
}

/// The name node of a type argument, if it is named.
pub open spec fn arg_name(a: Node) -> Option<Box<Node>> {
    a.node_type->TypeArg_name
}

/// The value node of a type argument.
pub open spec fn arg_value(a: Node) -> Node {
    *a.node_type->TypeArg_value
}

/// How many type arguments at the start have no name.
pub open spec fn positional_count(args: Seq<Node>) -> nat
    decreases args.len(),
{
    if args.len() == 0 || arg_name(args[0]) is Some {
        0
    } else {
        1 + positional_count(args.drop_first())
    }
}

/// The type arguments that are read: every one of them, in order (the unnamed
/// ones at the start, then the named ones).
pub open spec fn read_args(args: Seq<Node>) -> Seq<Node> {
    args
}

/// The argument of the circuit that type argument `k` of the read ones sets:
/// by position for the unnamed ones, by name for the others.
pub open spec fn arg_target(circ_args: OrderedMap<IdentId, CircArg>, args: Seq<Node>, k: int) -> IdentId {
    let pc = positional_count(args) as int;
    if k < pc {
        circ_args.value_seq()[k].name
    } else {
        circ_args.value_seq()[circ_args.key_seq().index_of(ident_of(*arg_name(read_args(args)[k])->0))].name
    }
}

/// The value last given to the argument named `name` by the first `n` read type arguments.
pub open spec fn last_assignment(
    circ_args: OrderedMap<IdentId, CircArg>,
    args: Seq<Node>,
    values: Seq<ConstValue>,
    n: int,
    name: IdentId,
) -> Option<ConstValue>
    decreases n,
{
    if n <= 0 {
        None
    } else if arg_target(circ_args, args, n - 1) == name {
        Some(values[n - 1])
    } else {
        last_assignment(circ_args, args, values, n - 1, name)
    }
}

/// The values of the read type arguments.
pub open spec fn read_values(scope: Scope, exports: OrderedMap<ModuleId, Rc<Scope>>, names: Seq<Seq<char>>, args: Seq<Node>) -> Seq<
    ConstValue,
> {
    read_args(args).map_values(|a: Node| spec_eval(scope, exports, names, arg_value(a)).0)
}

/// The errors met evaluating the first `n` read type arguments, in order.
pub open spec fn read_errors(
    scope: Scope,
    exports: OrderedMap<ModuleId, Rc<Scope>>,
    names: Seq<Seq<char>>,
    args: Seq<Node>,
    n: int,
) -> Seq<(Seq<char>, Pos)>
    decreases n,
{
    if n <= 0 {
        Seq::empty()
    } else {
        read_errors(scope, exports, names, args, n - 1) + spec_eval(scope, exports, names, arg_value(read_args(args)[n - 1])).1
    }
}

/// The argument values of a circuit, in the order it declares them: the
/// value last given to each, else its default.
pub open spec fn spec_circ_args(
    scope: Scope,
    exports: OrderedMap<ModuleId, Rc<Scope>>,
    names: Seq<Seq<char>>,
    circ_args: OrderedMap<IdentId, CircArg>,
    args: Seq<Node>,
) -> Seq<ConstValue> {
    let values = read_values(scope, exports, names, args);
    circ_args.value_seq().map_values(
        |d: CircArg|
            match last_assignment(circ_args, args, values, read_args(args).len() as int, d.name) {
                Some(v) => v,
                None => d.default->0,
            },
    )
}

/// The type arguments resolve without failing outright: each is a type
/// argument with a value that evaluates, there are no more unnamed ones
/// than the circuit has arguments, every named one read names an argument
/// of the circuit, each value has the type of its argument, and every
/// argument not given has a default.
pub open spec fn circ_args_defined(
    scope: Scope,
    exports: OrderedMap<ModuleId, Rc<Scope>>,
    names: Seq<Seq<char>>,
    circ_args: OrderedMap<IdentId, CircArg>,
    args: Seq<Node>,
) -> bool {
    let pc = positional_count(args) as int;
    let ra = read_args(args);
    let values = read_values(scope, exports, names, args);
    &&& circ_args.wf()
    &&& forall|i: int| 0 <= i < circ_args.key_seq().len() ==> circ_args.value_seq()[i].name == #[trigger] circ_args.key_seq()[i]
    &&& forall|i: int| 0 <= i < args.len() ==> (#[trigger] args[i]).node_type is TypeArg
    &&& forall|i: int| 0 <= i < ra.len() ==> eval_defined(scope, exports, names, arg_value(#[trigger] ra[i]))
    &&& pc <= circ_args.value_seq().len()
    &&& forall|k: int|
        pc <= k < ra.len() ==> {
            &&& arg_name(#[trigger] ra[k]) is Some
            &&& (*arg_name(ra[k])->0).node_type is Identifier
            &&& circ_args.key_seq().contains(ident_of(*arg_name(ra[k])->0))
        }
    &&& forall|k: int|
        0 <= k < ra.len() ==> {
            let target = if k < pc {
                circ_args.value_seq()[k]
            } else {
                circ_args.value_seq()[circ_args.key_seq().index_of(ident_of(*arg_name(ra[k])->0))]
            };
            target.ty.agrees((#[trigger] values[k]).spec_get_type())
        }
    &&& forall|i: int|
        0 <= i < circ_args.value_seq().len() ==> (#[trigger] circ_args.value_seq()[i]).default is Some
            || last_assignment(circ_args, args, values, ra.len() as int, circ_args.value_seq()[i].name) is Some
}

proof fn lemma_positional_prefix(args: Seq<Node>)
    ensures
        positional_count(args) <= args.len(),
        forall|i: int| 0 <= i < positional_count(args) ==> arg_name(#[trigger] args[i]) is None,
        positional_count(args) < args.len() ==> arg_name(args[positional_count(args) as int]) is Some,
    decreases args.len(),
{
    if args.len() > 0 && arg_name(args[0]) is None {
        lemma_positional_prefix(args.drop_first());
        assert forall|i: int| 0 <= i < positional_count(args) implies arg_name(#[trigger] args[i]) is None by {
            if i > 0 {
                assert(args[i] == args.drop_first()[i - 1]);
            }
        }
        if positional_count(args) < args.len() {
            assert(args[positional_count(args) as int] == args.drop_first()[positional_count(args) - 1]);
        }
    }
}

/// The values of the arguments of circuit `circ` given by `type_args`, in
/// the order the circuit declares them. Unnamed arguments come first and go
/// by position; after them, every named argument goes by name; an argument
/// given no value takes its default. Errors
/// met evaluating the values are appended to `errors`.
pub fn get_resolved_circ_args(
    scope: &Scope,
    exports: &OrderedMap<ModuleId, Rc<Scope>>,
    idents: &Interner,
    circ: &CircSymbol,
    type_args: &[Node],
    errors: &mut Vec<Diagnostic>,
) -> (r: Vec<ConstValue>)
    requires
        concrete_eq::<IdentId>(),
        concrete_eq::<ModuleId>(),
        exports.wf(),
        circ_args_defined(*scope, *exports, idents.view(), circ.args, type_args@),
    ensures
        r@ == spec_circ_args(*scope, *exports, idents.view(), circ.args, type_args@),
        errors_appended(
            old(errors)@,
            final(errors)@,
            read_errors(
                *scope,
                *exports,
                idents.view(),
                type_args@,
                read_args(type_args@).len() as int,
            ),
        ),
{
    let ghost args = type_args@;
    let ghost ra = read_args(args);
    let ghost values = read_values(*scope, *exports, idents.view(), args);
    proof {
        lemma_positional_prefix(args);
    }
    let n = type_args.len();
    // the values given so far, with the argument each sets
    let mut given: Vec<(IdentId, ConstValue)> = Vec::new();
    let mut i: usize = 0;
    let mut named = false;
    let ghost mut k: int = 0;
    let ghost e0 = errors@;
    assert(errors@.subrange(0, e0.len() as int) =~= e0);
    while i < n
        invariant
            n == args.len(),
            i <= n,
            type_args@ == args,
            ra == read_args(args),
            values == read_values(*scope, *exports, idents.view(), args),
            concrete_eq::<IdentId>(),
            concrete_eq::<ModuleId>(),
            exports.wf(),
            circ_args_defined(*scope, *exports, idents.view(), circ.args, args),
            positional_count(args) <= args.len(),
            forall|j: int| 0 <= j < positional_count(args) ==> arg_name(#[trigger] args[j]) is None,
            positional_count(args) < args.len() ==> arg_name(args[positional_count(args) as int]) is Some,
            named == (i > positional_count(args)),
            k == i,
            0 <= k <= ra.len(),
            given@.len() == k,
            forall|j: int| 0 <= j < k ==> (#[trigger] given@[j]).0 == arg_target(circ.args, args, j) && given@[j].1 == values[j],
            errors_appended(e0, errors@, read_errors(*scope, *exports, idents.view(), args, k)),
        decreases n - i,
    {
        let (name_node, value_node) = match type_args[i].node_type() {
            NodeType::TypeArg { name, value } => (name, value),
            _ => {
                return Vec::new();
            },
        };
        if !named && name_node.is_some() {
            // the first named argument ends the unnamed ones
            named = true;
        }
        proof {
            assert(ra[k] == args[i as int]);
        }
        let ghost eb = errors@;
        let value = evaluate_constexpr(scope, exports, idents, &**value_node, errors);
        let target = if !named {
            match circ.args.get_by_index(i) {
                Some(d) => d.name,
                None => 0,
            }
        } else {
            let name = match name_node {
                Some(nn) => match nn.node_type() {
                    NodeType::Identifier(x) => *x,
                    _ => 0,
                },
                None => 0,
            };
            match circ.args.get_entry(&name) {
                Some((idx, d)) => {
                    proof {
                        crate::util::ordered_map::lemma_keys_distinct(circ.args);
                        let kk = circ.args.key_seq().index_of(name);
                        if kk != idx {
                            assert(circ.args.key_seq()[kk] != circ.args.key_seq()[idx as int]);
                        }
                    }
                    d.name
                },
                None => 0,
            }
        };
        given.push((target, value));
        proof {
            let ghost before = read_errors(*scope, *exports, idents.view(), args, k);
            lemma_errors_appended_trans(
                e0,
                eb,
                errors@,
                before,
                spec_eval(*scope, *exports, idents.view(), arg_value(ra[k])).1,
            );
            k = k + 1;
            assert(read_errors(*scope, *exports, idents.view(), args, k) == before + spec_eval(
                *scope,
                *exports,
                idents.view(),
                arg_value(ra[k - 1]),
            ).1);
        }
        i = i + 1;
    }
    assert(k == ra.len());
    // the values in the order the circuit declares its arguments
    let decls = circ.args.values();
    let m = decls.len();
    let mut r: Vec<ConstValue> = Vec::new();
    let mut j: usize = 0;
    while j < m
        invariant
            m == decls@.len(),
            decls@ == circ.args.value_seq(),
            j <= m,
            r@.len() == j,
            given@.len() == ra.len(),
            forall|q: int| 0 <= q < ra.len() ==> (#[trigger] given@[q]).0 == arg_target(circ.args, args, q) && given@[q].1 == values[q],
            circ_args_defined(*scope, *exports, idents.view(), circ.args, args),
            values == read_values(*scope, *exports, idents.view(), args),
            ra == read_args(args),
            forall|q: int| 0 <= q < j ==> #[trigger] r@[q] == spec_circ_args(*scope, *exports, idents.view(), circ.args, args)[q],
        decreases m - j,
    {
        let d = &decls[j];
        // the last value given to this argument, if any
        let mut found: Option<ConstValue> = None;
        let mut q: usize = given.len();
        while q > 0 && found.is_none()
            invariant
                q <= given@.len(),
                given@.len() == ra.len(),
                forall|x: int| 0 <= x < ra.len() ==> (#[trigger] given@[x]).0 == arg_target(circ.args, args, x) && given@[x].1 == values[x],
                found is None ==> forall|x: int| q <= x < given@.len() ==> (#[trigger] given@[x]).0 != d.name,
                found is None ==> last_assignment(circ.args, args, values, ra.len() as int, d.name) == last_assignment(circ.args, args, values, q as int, d.name),
                found is Some ==> last_assignment(circ.args, args, values, ra.len() as int, d.name) == found,
            decreases q,
        {
            let (t, v) = given[q - 1];
            if t == d.name {
                found = Some(v);
            }
            q = q - 1;
        }
        let value = match found {
            Some(v) => v,
            None => {
                assert(last_assignment(circ.args, args, values, 0, d.name) is None);
                match d.default {
                    Some(v) => v,
                    None => ConstValue::Unknown,
                }
            },
        };
        r.push(value);
        assert(r@[j as int] == spec_circ_args(*scope, *exports, idents.view(), circ.args, args)[j as int]);
        j = j + 1;
    }
    assert(r@ =~= spec_circ_args(*scope, *exports, idents.view(), circ.args, args));
    r
}


/// An integer literal evaluates to its value, with no error.
pub proof fn lemma_eval_integer(scope: Scope, exports: OrderedMap<ModuleId, Rc<Scope>>, names: Seq<Seq<char>>, v: isize, pos: Pos)
    ensures
        spec_eval(scope, exports, names, Node { node_type: NodeType::Integer(v), pos }) == (
            ConstValue::Int(v),
            Seq::<(Seq<char>, Pos)>::empty(),
        ),
{
}

/// A binary expression applies its operator to the value of its left
/// operand, then of its right one, in that order; the errors of the left
/// operand come first, then those of the right one, then the operator's.
pub proof fn lemma_eval_binary(
    scope: Scope,
    exports: OrderedMap<ModuleId, Rc<Scope>>,
    names: Seq<Seq<char>>,
    l: Node,
    op: ConstExprOpType,
    r: Node,
    pos: Pos,
)
    ensures
        ({
            let e = Node { node_type: NodeType::ConstExpr { lhs: Some(Box::new(l)), op, rhs: Some(Box::new(r)) }, pos };
            let lv = spec_eval(scope, exports, names, l);
            let rv = spec_eval(scope, exports, names, r);
            &&& const_op_result(Some(lv.0), op, Some(rv.0)) matches Ok(v) ==> spec_eval(scope, exports, names, e) == (v, lv.1 + rv.1)
            &&& const_op_result(Some(lv.0), op, Some(rv.0)) matches Err(err) ==> spec_eval(scope, exports, names, e) == (
                ConstValue::Unknown,
                (lv.1 + rv.1).push((err.spec_message(), pos)),
            )
        }),
{
}

/// Subtracting one integer literal from another gives their difference:
/// the left operand is the one subtracted from.
pub proof fn lemma_eval_difference(
    scope: Scope,
    exports: OrderedMap<ModuleId, Rc<Scope>>,
    names: Seq<Seq<char>>,
    a: isize,
    b: isize,
    pa: Pos,
    pb: Pos,
    pos: Pos,
)
    requires
        isize::MIN <= a - b <= isize::MAX,
    ensures
        spec_eval(
            scope,
            exports,
            names,
            Node {
                node_type: NodeType::ConstExpr {
                    lhs: Some(Box::new(Node { node_type: NodeType::Integer(a), pos: pa })),
                    op: ConstExprOpType::Sub,
                    rhs: Some(Box::new(Node { node_type: NodeType::Integer(b), pos: pb })),
                },
                pos,
            },
        ).0 matches ConstValue::Int(v) && v == a - b,
{
    let na = Node { node_type: NodeType::Integer(a), pos: pa };
    let nb = Node { node_type: NodeType::Integer(b), pos: pb };
    lemma_eval_integer(scope, exports, names, a, pa);
    lemma_eval_integer(scope, exports, names, b, pb);
    lemma_eval_binary(scope, exports, names, na, ConstExprOpType::Sub, nb, pos);
    crate::analyser::lemma_int_arithmetic(a, b);
}

} // verus!
