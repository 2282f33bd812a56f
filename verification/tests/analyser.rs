use std::rc::Rc;

use circuit::analyser::builder::{
    CannotConnectReason, CircBuilder, ConnType, ConnectionBuilder, EndpointBuilder, EndpointBuilderType,
};
use circuit::analyser::circ::Circ;
use circuit::analyser::constexpr::{ConstType, ConstValue};
use circuit::analyser::evaluate::{evaluate_constexpr, evaluate_pinexpr, get_resolved_circ_args, resolve_path, Resolved};
use circuit::analyser::items::{check_symbol_exists, const_type_mismatch_error, evaluate_assert};
use circuit::analyser::pins::{pinexpr_bounds_check_range, pinexpr_range_in_bounds, Connection, ConnectionEndpoint, ConnectionRange, ConnectionType, Pin, PinExprType};
use circuit::analyser::local::LocalType;
use circuit::analyser::scope::{CircArg, CircKind, CircSymbol, ConstSymbol, Scope, ScopeSymbol};
use circuit::analyser::statements::{
    evaluate_circ, evaluate_circ_if, evaluate_decls, evaluate_global_if, evaluate_pin_decls, evaluate_type, find_main, if_branch, main_args_error,
};
use circuit::analyser::{evaluate_const_op, ConstOpError};
use circuit::ast::{ConstExprOpType, Node, NodeType, PinDirection, PinExprOpType};
use circuit::diagnostics::Diagnostic;
use circuit::util::{Interner, OrderedMap, Pos};

fn pos(start: usize, span: usize) -> Pos {
    Pos::new(0, 1, start + 1, start, span)
}

fn ident(id: usize, start: usize) -> Node {
    Node::new(NodeType::Identifier(id), pos(start, 1))
}

fn int_node(v: isize, start: usize) -> Node {
    Node::new(NodeType::Integer(v), pos(start, 1))
}

fn path(ids: &[(usize, usize)]) -> Node {
    let nodes: Vec<Node> = ids.iter().map(|&(id, s)| ident(id, s)).collect();
    Node::new(NodeType::Path(nodes), pos(ids[0].1, 1))
}

fn binary(lhs: Node, op: ConstExprOpType, rhs: Node) -> Node {
    let p = lhs.pos;
    Node::new(
        NodeType::ConstExpr { lhs: Some(Box::new(lhs)), op, rhs: Some(Box::new(rhs)) },
        p,
    )
}

fn some(v: ConstValue) -> Option<ConstValue> {
    Some(v)
}

#[test]
fn const_op_division_rounds_toward_zero() {
    let r = evaluate_const_op(some(ConstValue::Int(7)), ConstExprOpType::Div, some(ConstValue::Int(-2)));
    assert_eq!(r.ok(), Some(ConstValue::Int(-3)));
    let r = evaluate_const_op(some(ConstValue::Int(-7)), ConstExprOpType::Mod, some(ConstValue::Int(2)));
    assert_eq!(r.ok(), Some(ConstValue::Int(-1)));
    let r = evaluate_const_op(some(ConstValue::Int(isize::MIN)), ConstExprOpType::Div, some(ConstValue::Int(1)));
    assert_eq!(r.ok(), Some(ConstValue::Int(isize::MIN)));
}

#[test]
fn const_op_arithmetic_and_comparisons() {
    let i = |v| some(ConstValue::Int(v));
    assert_eq!(evaluate_const_op(i(2), ConstExprOpType::Add, i(3)).ok(), Some(ConstValue::Int(5)));
    assert_eq!(evaluate_const_op(i(1), ConstExprOpType::Shl, i(4)).ok(), Some(ConstValue::Int(16)));
    assert_eq!(evaluate_const_op(i(-16), ConstExprOpType::Shr, i(2)).ok(), Some(ConstValue::Int(-4)));
    assert_eq!(evaluate_const_op(i(6), ConstExprOpType::BitXor, i(3)).ok(), Some(ConstValue::Int(5)));
    assert_eq!(evaluate_const_op(i(2), ConstExprOpType::Lte, i(2)).ok(), Some(ConstValue::Bool(true)));
    assert_eq!(evaluate_const_op(None, ConstExprOpType::BitNot, i(0)).ok(), Some(ConstValue::Int(-1)));
    assert_eq!(evaluate_const_op(None, ConstExprOpType::UnaryMinus, i(5)).ok(), Some(ConstValue::Int(-5)));
    assert_eq!(
        evaluate_const_op(i(1), ConstExprOpType::Range, None).ok(),
        Some(ConstValue::Range(Some(1), None))
    );
    assert_eq!(evaluate_const_op(None, ConstExprOpType::Range, None).ok(), Some(ConstValue::Range(None, None)));
}

#[test]
fn const_op_booleans_and_unknowns() {
    let b = |v| some(ConstValue::Bool(v));
    assert_eq!(evaluate_const_op(b(true), ConstExprOpType::Xor, b(true)).ok(), Some(ConstValue::Bool(false)));
    assert_eq!(evaluate_const_op(None, ConstExprOpType::Not, b(false)).ok(), Some(ConstValue::Bool(true)));
    assert_eq!(
        evaluate_const_op(some(ConstValue::Unknown), ConstExprOpType::Add, some(ConstValue::Int(1))).ok(),
        Some(ConstValue::Unknown)
    );
}

#[test]
fn const_op_errors_name_the_operator_and_types() {
    let e = evaluate_const_op(some(ConstValue::Bool(true)), ConstExprOpType::Add, some(ConstValue::Bool(false)));
    let msg = match e {
        Err(e) => e.message(),
        Ok(_) => panic!("expected an error"),
    };
    assert_eq!(msg, "cannot perform operation '+' between types 'bool' and 'bool'");

    let e = evaluate_const_op(None, ConstExprOpType::Not, some(ConstValue::Int(1)));
    assert_eq!(e.err().unwrap().message(), "cannot perform operation '!' on type 'int'");

    let e = evaluate_const_op(some(ConstValue::Int(1)), ConstExprOpType::Range, some(ConstValue::Bool(true)));
    assert_eq!(e.err().unwrap().message(), "invalid type 'bool' in right hand side of range");

    let e = evaluate_const_op(some(ConstValue::Bool(true)), ConstExprOpType::Range, some(ConstValue::Int(1)));
    assert_eq!(e.err().unwrap().message(), "invalid type 'bool' in left hand side of range");

    let e = evaluate_const_op(None, ConstExprOpType::Range, some(ConstValue::Bool(true)));
    assert_eq!(e.err().unwrap().message(), "cannot perform operation '..' on type 'bool'");

    let e = evaluate_const_op(some(ConstValue::Bool(true)), ConstExprOpType::Range, None);
    assert_eq!(e.err().unwrap().message(), "cannot create a range of a non-integer type 'bool'");

    let e = ConstOpError::InvalidRangeTypes(ConstType::Bool, ConstType::Range);
    assert_eq!(e.message(), "cannot create a range between non-integer types 'bool' and 'range'");
}

#[test]
fn const_type_unknown_agrees_with_everything() {
    assert!(ConstType::Unknown == ConstType::Int);
    assert!(ConstType::Bool != ConstType::Int);
    assert!(ConstType::Enum { module_id: 0, enum_name: 1 } != ConstType::Enum { module_id: 0, enum_name: 2 });
    assert_eq!(ConstType::Range.display_name(), "range");
}

struct Env {
    idents: Interner,
    global: Rc<Scope>,
    x: usize,
    y: usize,
}

fn env() -> Env {
    let mut idents = Interner::new();
    let global = Scope::builtin(&mut idents);
    let x = idents.intern("x".to_string());
    let y = idents.intern("y".to_string());
    Env { idents, global, x, y }
}

#[test]
fn constexpr_reads_constants_through_scopes() {
    let e = env();
    let mut scope = Scope::child(&e.global);
    scope.add_const(ConstSymbol { name: e.x, ty: ConstType::Int, value: ConstValue::Int(5), pos: pos(0, 1) });
    let exports: OrderedMap<usize, Rc<Scope>> = OrderedMap::new();
    let expr = binary(path(&[(e.x, 0)]), ConstExprOpType::Add, int_node(3, 4));
    let mut errors: Vec<Diagnostic> = Vec::new();
    let v = evaluate_constexpr(&scope, &exports, &e.idents, &expr, &mut errors);
    assert_eq!(v, ConstValue::Int(8));
    assert!(errors.is_empty());

    let t = e.idents.get_index(&"true".to_string()).unwrap();
    let expr = binary(path(&[(t, 0)]), ConstExprOpType::And, path(&[(t, 8)]));
    let v = evaluate_constexpr(&scope, &exports, &e.idents, &expr, &mut errors);
    assert_eq!(v, ConstValue::Bool(true));
}

#[test]
fn constexpr_reports_unresolved_names_and_bad_operands() {
    let e = env();
    let scope = Scope::child(&e.global);
    let exports: OrderedMap<usize, Rc<Scope>> = OrderedMap::new();
    let expr = binary(path(&[(e.y, 0)]), ConstExprOpType::Add, int_node(3, 4));
    let mut errors: Vec<Diagnostic> = Vec::new();
    let v = evaluate_constexpr(&scope, &exports, &e.idents, &expr, &mut errors);
    assert_eq!(v, ConstValue::Unknown);
    assert_eq!(errors.len(), 1);
    assert_eq!(errors[0].message(), "could not resolve identifier 'y'");
    assert_eq!(errors[0].pos(), pos(0, 1));

    let t = e.idents.get_index(&"true".to_string()).unwrap();
    let expr = binary(path(&[(t, 0)]), ConstExprOpType::Mul, int_node(3, 7));
    let mut errors: Vec<Diagnostic> = Vec::new();
    let v = evaluate_constexpr(&scope, &exports, &e.idents, &expr, &mut errors);
    assert_eq!(v, ConstValue::Unknown);
    assert_eq!(errors.len(), 1);
    assert_eq!(errors[0].message(), "cannot perform operation '*' between types 'bool' and 'int'");
}

#[test]
fn resolve_path_reports_members_of_constants() {
    let e = env();
    let mut scope = Scope::child(&e.global);
    scope.add_const(ConstSymbol { name: e.x, ty: ConstType::Int, value: ConstValue::Int(5), pos: pos(0, 1) });
    let exports: OrderedMap<usize, Rc<Scope>> = OrderedMap::new();
    let nodes = vec![ident(e.x, 0), ident(e.y, 2), ident(e.y, 4)];
    match resolve_path(&scope, &exports, &e.idents, &nodes) {
        Err(d) => {
            assert_eq!(d.message(), "cannot access member 'y' on constant 'x'");
            assert_eq!(d.pos(), pos(4, 1));
        }
        Ok(_) => panic!("expected an error"),
    }
    let nodes = vec![ident(e.x, 0)];
    match resolve_path(&scope, &exports, &e.idents, &nodes) {
        Ok(Resolved::Symbol(ScopeSymbol::Const(c))) => assert_eq!(c.value, ConstValue::Int(5)),
        _ => panic!("expected the constant"),
    }
}

#[test]
fn redefinitions_are_reported_with_the_first_definition() {
    let e = env();
    let mut scope = Scope::child(&e.global);
    scope.add_const(ConstSymbol { name: e.x, ty: ConstType::Int, value: ConstValue::Int(5), pos: pos(3, 1) });
    let mut errors: Vec<Diagnostic> = Vec::new();
    assert!(!check_symbol_exists(&scope, &e.idents, e.y, pos(9, 1), &mut errors));
    assert!(errors.is_empty());
    assert!(check_symbol_exists(&scope, &e.idents, e.x, pos(9, 1), &mut errors));
    assert_eq!(errors[0].message(), "symbol 'x' already defined");
    assert_eq!(errors[0].notes()[0].message(), "'x' first defined here");
    assert_eq!(errors[0].notes()[0].pos(), pos(3, 1));

    let t = e.idents.get_index(&"true".to_string()).unwrap();
    let mut errors: Vec<Diagnostic> = Vec::new();
    assert!(check_symbol_exists(&scope, &e.idents, t, pos(9, 1), &mut errors));
    assert_eq!(errors[0].message(), "redefinition of builtin symbol 'true'");
    assert!(errors[0].notes().is_empty());
}

#[test]
fn type_mismatches_name_both_types() {
    let mut idents = Interner::new();
    let colour = idents.intern("Colour".to_string());
    let d = const_type_mismatch_error(&idents, ConstType::Enum { module_id: 0, enum_name: colour }, ConstType::Int);
    assert_eq!(d.message(), "mismatched types: expected enum 'Colour', got 'int'");
    let d = const_type_mismatch_error(&idents, ConstType::Bool, ConstType::Int);
    assert_eq!(d.message(), "mismatched types: expected 'bool', got 'int'");
}

#[test]
fn assertions_must_hold() {
    let e = env();
    let scope = Scope::child(&e.global);
    let exports: OrderedMap<usize, Rc<Scope>> = OrderedMap::new();
    let cond = binary(int_node(1, 7), ConstExprOpType::Eq, int_node(2, 12));
    let node = Node::new(NodeType::Assert(Box::new(cond)), pos(0, 14));
    let mut errors: Vec<Diagnostic> = Vec::new();
    let r = evaluate_assert(&scope, &exports, &e.idents, &node, &mut errors);
    let d = r.err().unwrap();
    assert_eq!(d.message(), "assertion failed!");
    assert_eq!(d.pos(), pos(0, 14));

    let node = Node::new(NodeType::Assert(Box::new(int_node(3, 7))), pos(0, 9));
    let r = evaluate_assert(&scope, &exports, &e.idents, &node, &mut errors);
    assert_eq!(r.err().unwrap().message(), "expected boolean value in assertion condition, got 'int'");

    let cond = binary(int_node(1, 7), ConstExprOpType::Lt, int_node(2, 12));
    let node = Node::new(NodeType::Assert(Box::new(cond)), pos(0, 14));
    assert!(evaluate_assert(&scope, &exports, &e.idents, &node, &mut errors).is_ok());
}

fn pin(name: usize, direction: PinDirection, width: usize) -> Pin {
    Pin { name, direction, width }
}

#[test]
fn pin_expressions_select_bits() {
    let mut e = env();
    let a = e.idents.intern("a".to_string());
    let scope = Scope::child(&e.global);
    let exports: OrderedMap<usize, Rc<Scope>> = OrderedMap::new();
    let mut b = CircBuilder::new();
    b.pin(a, pin(a, PinDirection::Input, 4));
    let circs = Vec::new();

    let index = Node::new(
        NodeType::PinExpr { lhs: Some(Box::new(ident(a, 0))), op: PinExprOpType::Index, rhs: Box::new(int_node(1, 2)) },
        pos(0, 4),
    );
    let mut errors: Vec<Diagnostic> = Vec::new();
    let r = evaluate_pinexpr(&scope, &exports, &e.idents, &b, &circs, &index, &mut errors);
    assert_eq!(
        r,
        PinExprType::PinRange { pin_id: 0, pin: pin(a, PinDirection::Input, 4), start: Some(1), end: Some(2) }
    );
    assert!(errors.is_empty());

    let out = Node::new(
        NodeType::PinExpr { lhs: Some(Box::new(ident(a, 0))), op: PinExprOpType::Index, rhs: Box::new(int_node(5, 2)) },
        pos(0, 4),
    );
    let r = evaluate_pinexpr(&scope, &exports, &e.idents, &b, &circs, &out, &mut errors);
    assert_eq!(r, PinExprType::Unknown);
    assert_eq!(errors.len(), 1);
    assert_eq!(errors[0].message(), "index 5 out of bounds for pin 'a' of width 4");
    assert_eq!(errors[0].pos(), pos(0, 4));
}

#[test]
fn connections_check_direction_and_width() {
    let a = pin(1, PinDirection::Input, 4);
    let q = pin(2, PinDirection::Output, 4);
    let narrow = pin(3, PinDirection::Output, 2);
    let mut c = ConnectionBuilder::new().unidirectional();
    assert_eq!(
        c.connect(PinExprType::Pin { pin_id: 0, pin: a }, PinExprType::Pin { pin_id: 1, pin: q }),
        Ok(())
    );
    assert_eq!(c.width, Some(4));
    let mut c = ConnectionBuilder::new();
    assert_eq!(
        c.connect(PinExprType::Pin { pin_id: 1, pin: q }, PinExprType::Pin { pin_id: 0, pin: a }),
        Err(CannotConnectReason::DirectionMismatch {
            conn_type: ConnType::PinToPin,
            lhs: PinDirection::Output,
            rhs: PinDirection::Input
        })
    );
    assert_eq!(
        c.connect(PinExprType::Pin { pin_id: 0, pin: a }, PinExprType::Pin { pin_id: 2, pin: narrow }),
        Err(CannotConnectReason::WidthMismatch(4, 2))
    );
    assert_eq!(
        c.connect(PinExprType::Index(3), PinExprType::Pin { pin_id: 2, pin: narrow }),
        Err(CannotConnectReason::InvalidEndpoint { lhs: false, rhs: true })
    );
    assert_eq!(c.connect(PinExprType::Unknown, PinExprType::Index(0)), Err(CannotConnectReason::Unknown));
    assert_eq!(c.width, None);
}

#[test]
fn circuit_arguments_go_by_position_then_name() {
    let mut e = env();
    let width = e.idents.intern("width".to_string());
    let value = e.idents.intern("value".to_string());
    let scope = Scope::child(&e.global);
    let exports: OrderedMap<usize, Rc<Scope>> = OrderedMap::new();
    let mut args: OrderedMap<usize, CircArg> = OrderedMap::new();
    let _ = args.insert(value, CircArg { name: value, ty: ConstType::Int, default: None, pos: pos(0, 1) });
    let _ = args.insert(
        width,
        CircArg { name: width, ty: ConstType::Int, default: Some(ConstValue::Int(1)), pos: pos(0, 1) },
    );
    let circ = CircSymbol { module_id: 0, name: e.x, args, kind: CircKind::Library { external_circ_id: 0 }, pos: pos(0, 1) };

    let positional = |v: isize| Node::new(NodeType::TypeArg { name: None, value: Box::new(int_node(v, 0)) }, pos(0, 1));
    let named = |n: usize, v: isize| {
        Node::new(NodeType::TypeArg { name: Some(Box::new(ident(n, 0))), value: Box::new(int_node(v, 0)) }, pos(0, 1))
    };

    let mut errors: Vec<Diagnostic> = Vec::new();
    let r = get_resolved_circ_args(&scope, &exports, &e.idents, &circ, &[positional(7)], &mut errors);
    assert_eq!(r, vec![ConstValue::Int(7), ConstValue::Int(1)]);

    let r = get_resolved_circ_args(&scope, &exports, &e.idents, &circ, &[positional(7), positional(3)], &mut errors);
    assert_eq!(r, vec![ConstValue::Int(7), ConstValue::Int(3)]);

    // every named argument is read; the last one given to an argument wins
    let r = get_resolved_circ_args(
        &scope,
        &exports,
        &e.idents,
        &circ,
        &[positional(7), named(width, 9)],
        &mut errors,
    );
    assert_eq!(r, vec![ConstValue::Int(7), ConstValue::Int(9)]);

    let r = get_resolved_circ_args(
        &scope,
        &exports,
        &e.idents,
        &circ,
        &[positional(7), named(width, 9), named(width, 4)],
        &mut errors,
    );
    assert_eq!(r, vec![ConstValue::Int(7), ConstValue::Int(4)]);
    assert!(errors.is_empty());
}

fn endpoint(t: EndpointBuilderType, pin: usize, dependency_name: Option<usize>) -> EndpointBuilder {
    EndpointBuilder { t, pin: Some(pin), dependency_name, index: None, range: Some(ConnectionRange { start: 0, end: 1 }) }
}

#[test]
fn built_circuit_sorts_and_lays_out_dependencies() {
    let mut b = CircBuilder::new();
    b.dependency(10, 2, None);
    b.dependency(11, 1, Some(2));
    b.dependency(12, 2, Some(0));
    b.pin(20, Pin { name: 20, direction: PinDirection::Input, width: 1 });
    b.add_connection(ConnectionBuilder {
        width: Some(1),
        source: endpoint(EndpointBuilderType::Pin, 0, None),
        dest: endpoint(EndpointBuilderType::Dependency, 1, Some(10)),
        connection_type: Some(ConnectionType::Unidirectional),
    });
    b.add_connection(ConnectionBuilder::new());
    let Circ::ModuleCirc(m) = b.build() else { panic!("expected a module circuit") };
    assert_eq!(m.dependencies, vec![1, 1, 2]);
    assert_eq!(m.pins.len(), 1);
    assert_eq!(
        m.connections,
        vec![Connection {
            width: 1,
            source: ConnectionEndpoint::Pin { pin_id: 0, range: ConnectionRange { start: 0, end: 1 } },
            dest: ConnectionEndpoint::Dependency {
                dependency_id: 2,
                pin_id: 1,
                range: ConnectionRange { start: 0, end: 1 },
            },
            connection_type: ConnectionType::Unidirectional,
        }]
    );
}

fn decl(name: usize, start: usize, count: Option<Node>) -> Node {
    Node::new(NodeType::Decl { name: Box::new(ident(name, start)), count: count.map(Box::new) }, pos(start, 1))
}

#[test]
fn pin_declarations_add_pins_and_report_redefinitions() {
    let mut e = env();
    let a = e.idents.intern("a".to_string());
    let b_name = e.idents.intern("b".to_string());
    let mut scope = Scope::child(&e.global);
    let exports: OrderedMap<usize, Rc<Scope>> = OrderedMap::new();
    let mut circ = CircBuilder::new();
    let node = Node::new(
        NodeType::PinDecls {
            direction: PinDirection::Input,
            decls: vec![decl(a, 0, Some(int_node(4, 2))), decl(b_name, 5, None), decl(a, 8, None)],
        },
        pos(0, 9),
    );
    let mut errors: Vec<Diagnostic> = Vec::new();
    evaluate_pin_decls(&mut scope, &exports, &e.idents, &mut circ, &node, &mut errors);
    assert_eq!(errors.len(), 1);
    assert_eq!(errors[0].message(), "symbol 'a' already defined");
    assert_eq!(errors[0].pos(), pos(8, 1));
    match scope.get_symbol(a) {
        Some(ScopeSymbol::Local(l)) => assert_eq!(l.ty, LocalType::Pin { direction: PinDirection::Input, width: 4 }),
        _ => panic!("expected a pin"),
    }
    assert_eq!(circ.get_pin(a), Some((0, pin(a, PinDirection::Input, 4))));
    assert_eq!(circ.get_pin(b_name), Some((1, pin(b_name, PinDirection::Input, 1))));
}

fn circ_arg(ty: usize, name: usize, start: usize, default: Node) -> Node {
    Node::new(
        NodeType::CircArg {
            ty: Box::new(path(&[(ty, start)])),
            name: Box::new(ident(name, start + 2)),
            default: Some(Box::new(default)),
        },
        pos(start, 4),
    )
}

#[test]
fn circuit_declarations_check_their_arguments() {
    let mut e = env();
    let c = e.idents.intern("C".to_string());
    let w = e.idents.intern("w".to_string());
    let int_t = e.idents.get_index(&"int".to_string()).unwrap();
    let bool_t = e.idents.get_index(&"bool".to_string()).unwrap();
    let mut scope = Scope::child(&e.global);
    let exports: OrderedMap<usize, Rc<Scope>> = OrderedMap::new();
    let node = Node::new(
        NodeType::Circ {
            name: Box::new(ident(c, 1)),
            args: vec![circ_arg(int_t, w, 3, int_node(3, 5)), circ_arg(bool_t, w, 9, int_node(1, 11))],
            children: vec![],
        },
        pos(0, 20),
    );
    let mut errors: Vec<Diagnostic> = Vec::new();
    evaluate_circ(&mut scope, &exports, &e.idents, 0, node, &mut errors);
    assert_eq!(errors.len(), 2);
    assert_eq!(errors[0].message(), "duplicate argument 'w' for circuit 'C'");
    assert_eq!(errors[0].pos(), pos(11, 1));
    assert_eq!(errors[0].notes()[0].message(), "'w' first defined here");
    assert_eq!(errors[0].notes()[0].pos(), pos(3, 4));
    assert_eq!(errors[1].message(), "mismatched types: expected 'bool', got 'int'");
    assert_eq!(errors[1].pos(), pos(0, 20));
    assert_eq!(errors[1].notes()[0].message(), "type declared here as 'bool'");
    match scope.get_symbol(c) {
        Some(ScopeSymbol::Circ(sym)) => {
            assert_eq!(sym.args.len(), 1);
            assert_eq!(sym.args.get_by_index(0).unwrap().ty, ConstType::Bool);
            assert_eq!(sym.args.get_by_index(0).unwrap().default, Some(ConstValue::Int(1)));
        }
        _ => panic!("expected the circuit"),
    }
}

#[test]
fn if_conditions_pick_a_branch() {
    let e = env();
    let scope = Scope::child(&e.global);
    let exports: OrderedMap<usize, Rc<Scope>> = OrderedMap::new();
    let mut errors: Vec<Diagnostic> = Vec::new();
    let cond = binary(int_node(1, 3), ConstExprOpType::Lt, int_node(2, 7));
    assert_eq!(if_branch(&scope, &exports, &e.idents, &cond, &mut errors), Some(true));
    let node = Node::new(
        NodeType::If { condition: Box::new(cond), body: vec![int_node(10, 9)], else_body: vec![] },
        pos(0, 12),
    );
    let taken = evaluate_circ_if(&scope, &exports, &e.idents, &node, &mut errors).unwrap();
    assert_eq!(taken.len(), 1);
    assert!(errors.is_empty());

    let r = if_branch(&scope, &exports, &e.idents, &int_node(4, 3), &mut errors);
    assert_eq!(r, None);
    assert_eq!(errors.len(), 1);
    assert_eq!(errors[0].message(), "if conditions must evaluate to a boolean value, got enum 'int'");
    assert_eq!(errors[0].pos(), pos(3, 1));
    assert_eq!(errors[0].notes()[0].message(), "none of the branches of this if have been evaluated");
}

#[test]
fn module_if_hands_back_the_chosen_items() {
    let e = env();
    let scope = Scope::child(&e.global);
    let exports: OrderedMap<usize, Rc<Scope>> = OrderedMap::new();
    let mut errors: Vec<Diagnostic> = Vec::new();
    let cond = binary(int_node(3, 3), ConstExprOpType::Lt, int_node(2, 7));
    let node = Node::new(
        NodeType::If { condition: Box::new(cond), body: vec![int_node(10, 9)], else_body: vec![int_node(11, 9), int_node(12, 10)] },
        pos(0, 12),
    );
    let taken = evaluate_global_if(&scope, &exports, &e.idents, node, &mut errors).unwrap();
    assert_eq!(taken.len(), 2);
    assert!(matches!(taken[0].node_type, NodeType::Integer(11)));
    assert!(errors.is_empty());

    let node = Node::new(
        NodeType::If { condition: Box::new(int_node(4, 3)), body: vec![], else_body: vec![] },
        pos(0, 12),
    );
    assert!(evaluate_global_if(&scope, &exports, &e.idents, node, &mut errors).is_none());
    assert_eq!(errors.len(), 1);
    assert_eq!(errors[0].message(), "if conditions must evaluate to a boolean value, got enum 'int'");
}

#[test]
fn main_must_be_a_circuit_without_arguments() {
    let mut e = env();
    let mut root = Scope::child(&e.global);
    match find_main(&root, &e.idents) {
        Err(d) => {
            assert_eq!(d.message(), "no symbol 'Main' present in root module");
            assert_eq!(d.pos(), Pos::Module(0));
        }
        Ok(_) => panic!("expected an error"),
    }
    let main = e.idents.intern("Main".to_string());
    root.add_const(ConstSymbol { name: main, ty: ConstType::Int, value: ConstValue::Int(1), pos: pos(4, 4) });
    match find_main(&root, &e.idents) {
        Err(d) => {
            assert_eq!(d.message(), "symbol 'Main' is not a circuit in the root module");
            assert_eq!(d.pos(), pos(4, 4));
        }
        Ok(_) => panic!("expected an error"),
    }
    let mut args: OrderedMap<usize, CircArg> = OrderedMap::new();
    let _ = args.insert(e.x, CircArg { name: e.x, ty: ConstType::Int, default: None, pos: pos(9, 1) });
    root.add_circ(CircSymbol { module_id: 0, name: main, args, kind: CircKind::Module(vec![]), pos: pos(7, 4) });
    let m = find_main(&root, &e.idents).ok().unwrap();
    assert_eq!(m.pos, pos(7, 4));
    let d = main_args_error(m).unwrap();
    assert_eq!(d.message(), "circuit 'Main' cannot have arguments");
}

#[test]
fn types_name_circuits_with_their_arguments() {
    let mut e = env();
    let c = e.idents.intern("C".to_string());
    let width = e.idents.intern("width".to_string());
    let mut scope = Scope::child(&e.global);
    let exports: OrderedMap<usize, Rc<Scope>> = OrderedMap::new();
    let mut args: OrderedMap<usize, CircArg> = OrderedMap::new();
    let _ = args.insert(
        width,
        CircArg { name: width, ty: ConstType::Int, default: Some(ConstValue::Int(1)), pos: pos(0, 1) },
    );
    scope.add_circ(CircSymbol { module_id: 3, name: c, args, kind: CircKind::Module(vec![]), pos: pos(0, 1) });
    let arg = Node::new(NodeType::TypeArg { name: None, value: Box::new(int_node(8, 2)) }, pos(2, 1));
    let ty = Node::new(NodeType::Type { name: Box::new(path(&[(c, 0)])), args: vec![arg] }, pos(0, 4));
    let mut errors: Vec<Diagnostic> = Vec::new();
    let sig = evaluate_type(&scope, &exports, &e.idents, &ty, &mut errors).unwrap();
    assert_eq!(sig.module_id, 3);
    assert_eq!(sig.name, c);
    assert_eq!(sig.args, vec![ConstValue::Int(8)]);

    let bad = Node::new(NodeType::Type { name: Box::new(path(&[(e.y, 0)])), args: vec![] }, pos(0, 4));
    assert!(evaluate_type(&scope, &exports, &e.idents, &bad, &mut errors).is_none());
    assert_eq!(errors.len(), 1);
    assert_eq!(errors[0].message(), "could not resolve identifier 'y'");
}

#[test]
fn component_arrays_must_have_a_positive_size() {
    let mut e = env();
    let a = e.idents.intern("a".to_string());
    let b_name = e.idents.intern("b".to_string());
    let mut scope = Scope::child(&e.global);
    let exports: OrderedMap<usize, Rc<Scope>> = OrderedMap::new();
    let mut circ = CircBuilder::new();
    let minus_two = Node::new(
        NodeType::ConstExpr { lhs: None, op: ConstExprOpType::UnaryMinus, rhs: Some(Box::new(int_node(2, 3))) },
        pos(2, 2),
    );
    let decls = vec![decl(a, 0, Some(int_node(3, 2))), decl(b_name, 5, Some(minus_two))];
    let mut errors: Vec<Diagnostic> = Vec::new();
    evaluate_decls(&mut scope, &exports, &e.idents, &mut circ, 4, &decls, &mut errors);
    assert_eq!(errors.len(), 1);
    assert_eq!(errors[0].message(), "array size must be at least 1");
    assert_eq!(errors[0].pos(), pos(5, 1));
    assert_eq!(errors[0].notes()[0].message(), "size expression evaluated to -2");
    assert_eq!(circ.get_dependency(a), Some((4, Some(3))));
    assert_eq!(circ.get_dependency(b_name), Some((4, Some(2))));
    match scope.get_symbol(b_name) {
        Some(ScopeSymbol::Local(l)) => assert_eq!(l.ty, LocalType::Array(4, 2)),
        _ => panic!("expected a component array"),
    }
}

#[test]
fn range_fits_when_it_ends_at_the_source_end() {
    assert!(pinexpr_range_in_bounds(0, 4, Some(0), Some(4)));
    assert!(pinexpr_range_in_bounds(0, 4, Some(1), None));
    assert!(!pinexpr_range_in_bounds(0, 4, Some(0), Some(5)));
    assert!(!pinexpr_range_in_bounds(2, 4, Some(1), Some(3)));
}

#[test]
fn const_type_equality_is_reflexive() {
    assert!(ConstType::Range == ConstType::Range);
    assert!(ConstType::Int == ConstType::Int);
    assert!(ConstType::Bool == ConstType::Bool);
    assert!(ConstType::Range != ConstType::Int);
}

#[test]
fn slice_ranges_count_from_the_slice_start() {
    let mut idents = Interner::new();
    let a = idents.intern("a".to_string());
    let pin = Pin { name: a, direction: PinDirection::Input, width: 8 };
    let slice = PinExprType::PinRange { pin_id: 0, pin, start: Some(4), end: Some(8) };
    assert!(pinexpr_bounds_check_range(Pos::Absent, slice, Some(0), Some(2), &idents).is_none());
    assert!(pinexpr_bounds_check_range(Pos::Absent, slice, Some(0), None, &idents).is_none());
    let e = pinexpr_bounds_check_range(Pos::Absent, slice, Some(5), Some(7), &idents);
    assert_eq!(e.unwrap().message(), "range 5..7 out of bounds for bit slice [5..7] of pin 'a'");
    let whole = PinExprType::Pin { pin_id: 0, pin: Pin { name: a, direction: PinDirection::Input, width: 4 } };
    assert!(pinexpr_bounds_check_range(Pos::Absent, whole, Some(0), Some(4), &idents).is_none());
    assert!(pinexpr_bounds_check_range(Pos::Absent, whole, Some(3), Some(6), &idents).is_some());
    assert!(pinexpr_bounds_check_range(Pos::Absent, whole, Some(3), Some(1), &idents).is_some());
}
