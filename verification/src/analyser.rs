//! Semantic analysis: constant values, their types, and the operators on them.
pub mod constexpr;
pub mod pins;
pub mod builder;
pub mod local;
pub mod scope;
pub mod circ;
pub mod evaluate;
pub mod items;
pub mod statements;
pub mod path_tag;

use vstd::prelude::*;

use crate::ast::ConstExprOpType;
use crate::util::text::push_str;
use constexpr::{ConstType, ConstValue};

verus! {

/// The size of an integer, whatever its sign.
pub open spec fn magnitude(x: int) -> nat {
    if x < 0 {
        (-x) as nat
    } else {
        x as nat
    }
}

/// Integer division rounding toward zero.
pub open spec fn trunc_div(x: int, y: int) -> int {
    if (x < 0) == (y < 0) {
        (magnitude(x) / magnitude(y)) as int
    } else {
        -((magnitude(x) / magnitude(y)) as int)
    }
}

/// The remainder of integer division rounding toward zero; it takes the sign
/// of the dividend.
pub open spec fn trunc_rem(x: int, y: int) -> int {
    if x < 0 {
        -((magnitude(x) % magnitude(y)) as int)
    } else {
        (magnitude(x) % magnitude(y)) as int
    }
}

pub(crate) fn magnitude_of(x: isize) -> (r: usize)
    ensures
        r == magnitude(x as int),
{
    if x < 0 {
        ((-(x + 1)) as usize) + 1
    } else {
        x as usize
    }
}

fn div_trunc(x: isize, y: isize) -> (r: isize)
    requires
        y != 0,
        !(x == isize::MIN && y == -1),
    ensures
        r == trunc_div(x as int, y as int),
{
    let ax = magnitude_of(x);
    let ay = magnitude_of(y);
    let q = ax / ay;
    assert(q <= ax) by (nonlinear_arith)
        requires
            ay >= 1,
            q == ax / ay,
    ;
    if (x < 0) == (y < 0) {
        if ay == 1 {
            assert(q == ax) by (nonlinear_arith)
                requires
                    ay == 1,
                    q == ax / ay,
            ;
        } else {
            assert(q * 2 <= ax) by (nonlinear_arith)
                requires
                    ay >= 2,
                    q == ax / ay,
            ;
        }
        q as isize
    } else {
        if q == 0 {
            0
        } else {
            -((q - 1) as isize) - 1
        }
    }
}

fn rem_trunc(x: isize, y: isize) -> (r: isize)
    requires
        y != 0,
        !(x == isize::MIN && y == -1),
    ensures
        r == trunc_rem(x as int, y as int),
{
    let ax = magnitude_of(x);
    let ay = magnitude_of(y);
    let m = ax % ay;
    if x < 0 {
        if m == 0 {
            0
        } else {
            -((m - 1) as isize) - 1
        }
    } else {
        m as isize
    }
}

/// Why an operator could not be applied to its operands.
#[derive(Debug, Clone, Copy)]
pub enum ConstOpError {
    InvalidUnaryOp { op: ConstExprOpType, rhs: ConstType },
    InvalidBinaryOp { op: ConstExprOpType, lhs: ConstType, rhs: ConstType },
    InvalidRangeType(ConstType),
    InvalidRangeTypes(ConstType, ConstType),
}

impl ConstOpError {
    pub open spec fn spec_message(self) -> Seq<char> {
        match self {
            ConstOpError::InvalidUnaryOp { op, rhs } => "cannot perform operation '"@ + op.spec_token().text()
                + "' on type '"@ + rhs.spec_display_name() + "'"@,
            ConstOpError::InvalidBinaryOp { op, lhs, rhs } => "cannot perform operation '"@
                + op.spec_token().text() + "' between types '"@ + lhs.spec_display_name() + "' and '"@
                + rhs.spec_display_name() + "'"@,
            ConstOpError::InvalidRangeType(t) => "cannot create a range of a non-integer type '"@
                + t.spec_display_name() + "'"@,
            ConstOpError::InvalidRangeTypes(l, r) => if l.spec_display_name() == "int"@ {
                "invalid type '"@ + r.spec_display_name() + "' in right hand side of range"@
            } else if r.spec_display_name() == "int"@ {
                "invalid type '"@ + l.spec_display_name() + "' in left hand side of range"@
            } else {
                "cannot create a range between non-integer types '"@ + l.spec_display_name() + "' and '"@
                    + r.spec_display_name() + "'"@
            },
        }
    }

    /// The text of the error.
    pub fn message(&self) -> (r: String)
        ensures
            r@ == self.spec_message(),
    {
        let mut r = String::new();
        proof {
            reveal_strlit("");
        }
        match self {
            ConstOpError::InvalidUnaryOp { op, rhs } => {
                push_str(&mut r, "cannot perform operation '");
                push_str(&mut r, op.as_string());
                push_str(&mut r, "' on type '");
                push_str(&mut r, rhs.display_name());
                push_str(&mut r, "'");
            },
            ConstOpError::InvalidBinaryOp { op, lhs, rhs } => {
                push_str(&mut r, "cannot perform operation '");
                push_str(&mut r, op.as_string());
                push_str(&mut r, "' between types '");
                push_str(&mut r, lhs.display_name());
                push_str(&mut r, "' and '");
                push_str(&mut r, rhs.display_name());
                push_str(&mut r, "'");
            },
            ConstOpError::InvalidRangeType(t) => {
                push_str(&mut r, "cannot create a range of a non-integer type '");
                push_str(&mut r, t.display_name());
                push_str(&mut r, "'");
            },
            ConstOpError::InvalidRangeTypes(l, rt) => {
                let l_int = match l {
                    ConstType::Int => true,
                    _ => false,
                };
                let r_int = match rt {
                    ConstType::Int => true,
                    _ => false,
                };
                proof {
                    reveal_strlit("int");
                    reveal_strlit("unknown");
                    reveal_strlit("bool");
                    reveal_strlit("enum");
                    reveal_strlit("range");
                    assert(("int"@).len() == 3);
                    assert(("unknown"@).len() == 7);
                    assert(("bool"@).len() == 4);
                    assert(("enum"@).len() == 4);
                    assert(("range"@).len() == 5);
                    if !l_int {
                        assert(l.spec_display_name().len() != 3);
                    }
                    if !r_int {
                        assert(rt.spec_display_name().len() != 3);
                    }
                }
                if l_int {
                    push_str(&mut r, "invalid type '");
                    push_str(&mut r, rt.display_name());
                    push_str(&mut r, "' in right hand side of range");
                } else if r_int {
                    push_str(&mut r, "invalid type '");
                    push_str(&mut r, l.display_name());
                    push_str(&mut r, "' in left hand side of range");
                } else {
                    push_str(&mut r, "cannot create a range between non-integer types '");
                    push_str(&mut r, l.display_name());
                    push_str(&mut r, "' and '");
                    push_str(&mut r, rt.display_name());
                    push_str(&mut r, "'");
                }
            },
        }
        assert(r@ =~= self.spec_message());
        r
    }
}

/// The operands for which applying an operator does not fail outright:
/// arithmetic stays in range, no division by zero, shift amounts fit, a
/// missing operand only for a range, and enums compared only with their own kind.
pub open spec fn const_op_defined(lhs: Option<ConstValue>, op: ConstExprOpType, rhs: Option<ConstValue>) -> bool {
    match (lhs, rhs) {
        (Some(ConstValue::Int(x)), Some(ConstValue::Int(y))) => match op {
            ConstExprOpType::Add => isize::MIN <= x + y <= isize::MAX,
            ConstExprOpType::Sub => isize::MIN <= x - y <= isize::MAX,
            ConstExprOpType::Mul => isize::MIN <= x * y <= isize::MAX,
            ConstExprOpType::Div | ConstExprOpType::Mod => y != 0 && !(x == isize::MIN && y == -1),
            ConstExprOpType::Shl | ConstExprOpType::Shr => 0 <= y < isize::BITS,
            _ => true,
        },
        (None, Some(ConstValue::Int(x))) => op == ConstExprOpType::UnaryMinus ==> x != isize::MIN,
        (Some(ConstValue::Int(_)), None) => op == ConstExprOpType::Range,
        (None, None) => op == ConstExprOpType::Range,
        (
            Some(ConstValue::Enum { module_id: m1, enum_name: e1, .. }),
            Some(ConstValue::Enum { module_id: m2, enum_name: e2, .. }),
        ) => m1 == m2 && e1 == e2,
        _ => true,
    }
}

/// The value of `lhs op rhs`, or why the operator does not apply to the
/// operands. An unknown operand makes the result unknown, with no error.
pub open spec fn const_op_result(lhs: Option<ConstValue>, op: ConstExprOpType, rhs: Option<ConstValue>) -> Result<
    ConstValue,
    ConstOpError,
> {
    match (lhs, rhs) {
        (Some(ConstValue::Int(x)), Some(ConstValue::Int(y))) => match op {
            ConstExprOpType::Add => Ok(ConstValue::Int((x + y) as isize)),
            ConstExprOpType::Sub => Ok(ConstValue::Int((x - y) as isize)),
            ConstExprOpType::Mul => Ok(ConstValue::Int((x * y) as isize)),
            ConstExprOpType::Div => Ok(ConstValue::Int(trunc_div(x as int, y as int) as isize)),
            ConstExprOpType::Mod => Ok(ConstValue::Int(trunc_rem(x as int, y as int) as isize)),
            ConstExprOpType::BitAnd => Ok(ConstValue::Int(x & y)),
            ConstExprOpType::BitOr => Ok(ConstValue::Int(x | y)),
            ConstExprOpType::BitXor => Ok(ConstValue::Int(x ^ y)),
            ConstExprOpType::Shl => Ok(ConstValue::Int(x << y)),
            ConstExprOpType::Shr => Ok(ConstValue::Int(x >> y)),
            ConstExprOpType::Eq => Ok(ConstValue::Bool(x == y)),
            ConstExprOpType::Neq => Ok(ConstValue::Bool(x != y)),
            ConstExprOpType::Lt => Ok(ConstValue::Bool(x < y)),
            ConstExprOpType::Lte => Ok(ConstValue::Bool(x <= y)),
            ConstExprOpType::Gt => Ok(ConstValue::Bool(x > y)),
            ConstExprOpType::Gte => Ok(ConstValue::Bool(x >= y)),
            ConstExprOpType::Range => Ok(ConstValue::Range(Some(x), Some(y))),
            _ => Err(ConstOpError::InvalidBinaryOp { op, lhs: ConstType::Int, rhs: ConstType::Int }),
        },
        (None, Some(ConstValue::Int(x))) => match op {
            ConstExprOpType::UnaryMinus => Ok(ConstValue::Int((-x) as isize)),
            ConstExprOpType::BitNot => Ok(ConstValue::Int(!x)),
            ConstExprOpType::Range => Ok(ConstValue::Range(None, Some(x))),
            _ => Err(ConstOpError::InvalidUnaryOp { op, rhs: ConstType::Int }),
        },
        (Some(ConstValue::Int(x)), None) => Ok(ConstValue::Range(Some(x), None)),
        (None, None) => Ok(ConstValue::Range(None, None)),
        (Some(ConstValue::Bool(x)), Some(ConstValue::Bool(y))) => match op {
            ConstExprOpType::Eq => Ok(ConstValue::Bool(x == y)),
            ConstExprOpType::Neq => Ok(ConstValue::Bool(x != y)),
            ConstExprOpType::And => Ok(ConstValue::Bool(x && y)),
            ConstExprOpType::Or => Ok(ConstValue::Bool(x || y)),
            ConstExprOpType::Xor => Ok(ConstValue::Bool(x != y)),
            _ => Err(ConstOpError::InvalidBinaryOp { op, lhs: ConstType::Bool, rhs: ConstType::Bool }),
        },
        (None, Some(ConstValue::Bool(x))) => match op {
            ConstExprOpType::Not => Ok(ConstValue::Bool(!x)),
            _ => Err(ConstOpError::InvalidUnaryOp { op, rhs: ConstType::Bool }),
        },
        (Some(l), Some(r)) => if l is Enum && r is Enum {
            match op {
                ConstExprOpType::Eq => Ok(ConstValue::Bool(l->variant == r->variant)),
                ConstExprOpType::Neq => Ok(ConstValue::Bool(l->variant != r->variant)),
                _ => Err(
                    ConstOpError::InvalidBinaryOp { op, lhs: l.spec_get_type(), rhs: r.spec_get_type() },
                ),
            }
        } else if l is Unknown || r is Unknown {
            Ok(ConstValue::Unknown)
        } else if op == ConstExprOpType::Range {
            Err(ConstOpError::InvalidRangeTypes(l.spec_get_type(), r.spec_get_type()))
        } else {
            Err(ConstOpError::InvalidBinaryOp { op, lhs: l.spec_get_type(), rhs: r.spec_get_type() })
        },
        (None, Some(x)) | (Some(x), None) => if x is Unknown {
            Ok(ConstValue::Unknown)
        } else if op == ConstExprOpType::Range {
            Err(ConstOpError::InvalidRangeType(x.spec_get_type()))
        } else {
            Err(ConstOpError::InvalidUnaryOp { op, rhs: x.spec_get_type() })
        },
    }
}

/// Applies a constant operator to its evaluated operands: `lhs op rhs` for a
/// binary operator, `op rhs` for a unary one, and a range when either side
/// may be missing.
pub fn evaluate_const_op(lhs: Option<ConstValue>, op: ConstExprOpType, rhs: Option<ConstValue>) -> (r: Result<
    ConstValue,
    ConstOpError,
>)
    requires
        const_op_defined(lhs, op, rhs),
    ensures
        r == const_op_result(lhs, op, rhs),
{
    match (lhs, rhs) {
        (Some(ConstValue::Int(x)), Some(ConstValue::Int(y))) => match op {
            ConstExprOpType::Add => Ok(ConstValue::Int(x + y)),
            ConstExprOpType::Sub => Ok(ConstValue::Int(x - y)),
            ConstExprOpType::Mul => Ok(ConstValue::Int(x * y)),
            ConstExprOpType::Div => Ok(ConstValue::Int(div_trunc(x, y))),
            ConstExprOpType::Mod => Ok(ConstValue::Int(rem_trunc(x, y))),
            ConstExprOpType::BitAnd => Ok(ConstValue::Int(x & y)),
            ConstExprOpType::BitOr => Ok(ConstValue::Int(x | y)),
            ConstExprOpType::BitXor => Ok(ConstValue::Int(x ^ y)),
            ConstExprOpType::Shl => Ok(ConstValue::Int(x << y)),
            ConstExprOpType::Shr => Ok(ConstValue::Int(x >> y)),
            ConstExprOpType::Eq => Ok(ConstValue::Bool(x == y)),
            ConstExprOpType::Neq => Ok(ConstValue::Bool(x != y)),
            ConstExprOpType::Lt => Ok(ConstValue::Bool(x < y)),
            ConstExprOpType::Lte => Ok(ConstValue::Bool(x <= y)),
            ConstExprOpType::Gt => Ok(ConstValue::Bool(x > y)),
            ConstExprOpType::Gte => Ok(ConstValue::Bool(x >= y)),
            ConstExprOpType::Range => Ok(ConstValue::Range(Some(x), Some(y))),
            _ => Err(ConstOpError::InvalidBinaryOp { op, lhs: ConstType::Int, rhs: ConstType::Int }),
        },
        (None, Some(ConstValue::Int(x))) => match op {
            ConstExprOpType::UnaryMinus => Ok(ConstValue::Int(-x)),
            ConstExprOpType::BitNot => Ok(ConstValue::Int(!x)),
            ConstExprOpType::Range => Ok(ConstValue::Range(None, Some(x))),
            _ => Err(ConstOpError::InvalidUnaryOp { op, rhs: ConstType::Int }),
        },
        (Some(ConstValue::Int(x)), None) => Ok(ConstValue::Range(Some(x), None)),
        (None, None) => Ok(ConstValue::Range(None, None)),
        (Some(ConstValue::Bool(x)), Some(ConstValue::Bool(y))) => match op {
            ConstExprOpType::Eq => Ok(ConstValue::Bool(x == y)),
            ConstExprOpType::Neq => Ok(ConstValue::Bool(x != y)),
            ConstExprOpType::And => Ok(ConstValue::Bool(x && y)),
            ConstExprOpType::Or => Ok(ConstValue::Bool(x || y)),
            ConstExprOpType::Xor => Ok(ConstValue::Bool(x != y)),
            _ => Err(ConstOpError::InvalidBinaryOp { op, lhs: ConstType::Bool, rhs: ConstType::Bool }),
        },
        (None, Some(ConstValue::Bool(x))) => match op {
            ConstExprOpType::Not => Ok(ConstValue::Bool(!x)),
            _ => Err(ConstOpError::InvalidUnaryOp { op, rhs: ConstType::Bool }),
        },
        (Some(l), Some(r)) => match (l, r) {
            (ConstValue::Enum { variant: x, .. }, ConstValue::Enum { variant: y, .. }) => match op {
                ConstExprOpType::Eq => Ok(ConstValue::Bool(x == y)),
                ConstExprOpType::Neq => Ok(ConstValue::Bool(x != y)),
                _ => Err(ConstOpError::InvalidBinaryOp { op, lhs: l.get_type(), rhs: r.get_type() }),
            },
            (ConstValue::Unknown, _) | (_, ConstValue::Unknown) => Ok(ConstValue::Unknown),
            _ => if op == ConstExprOpType::Range {
                Err(ConstOpError::InvalidRangeTypes(l.get_type(), r.get_type()))
            } else {
                Err(ConstOpError::InvalidBinaryOp { op, lhs: l.get_type(), rhs: r.get_type() })
            },
        },
        (None, Some(x)) | (Some(x), None) => if x.is_unknown() {
            Ok(ConstValue::Unknown)
        } else if op == ConstExprOpType::Range {
            Err(ConstOpError::InvalidRangeType(x.get_type()))
        } else {
            Err(ConstOpError::InvalidUnaryOp { op, rhs: x.get_type() })
        },
    }
}


/// The result of `x op y` on two integers.
pub open spec fn int_op(x: isize, op: ConstExprOpType, y: isize) -> Result<ConstValue, ConstOpError> {
    const_op_result(Some(ConstValue::Int(x)), op, Some(ConstValue::Int(y)))
}

/// The result of `x op y` on two booleans.
pub open spec fn bool_op(x: bool, op: ConstExprOpType, y: bool) -> Result<ConstValue, ConstOpError> {
    const_op_result(Some(ConstValue::Bool(x)), op, Some(ConstValue::Bool(y)))
}

/// Comparing two integers compares them as numbers: each comparison is
/// answered through `<` alone, so `>` is `<` with its operands swapped, and
/// `>=` is the negation of `<`.
pub proof fn lemma_int_comparisons(x: isize, y: isize)
    ensures
        int_op(x, ConstExprOpType::Lt, y) == Ok::<ConstValue, ConstOpError>(ConstValue::Bool(x < y)),
        int_op(x, ConstExprOpType::Gt, y) == Ok::<ConstValue, ConstOpError>(ConstValue::Bool(y < x)),
        int_op(x, ConstExprOpType::Lte, y) == Ok::<ConstValue, ConstOpError>(ConstValue::Bool(!(y < x))),
        int_op(x, ConstExprOpType::Gte, y) == Ok::<ConstValue, ConstOpError>(ConstValue::Bool(!(x < y))),
        int_op(x, ConstExprOpType::Eq, y) == Ok::<ConstValue, ConstOpError>(ConstValue::Bool(!(x < y) && !(y < x))),
        int_op(x, ConstExprOpType::Neq, y) == Ok::<ConstValue, ConstOpError>(ConstValue::Bool(x < y || y < x)),
        int_op(x, ConstExprOpType::Gt, y) == int_op(y, ConstExprOpType::Lt, x),
        int_op(x, ConstExprOpType::Gte, y) == int_op(y, ConstExprOpType::Lte, x),
        int_op(x, ConstExprOpType::Gt, x) == Ok::<ConstValue, ConstOpError>(ConstValue::Bool(false)),
        int_op(x, ConstExprOpType::Gte, x) == Ok::<ConstValue, ConstOpError>(ConstValue::Bool(true)),
{
}

/// Adding, subtracting and multiplying integers give the exact sum,
/// difference and product, wherever it fits.
pub proof fn lemma_int_arithmetic(x: isize, y: isize)
    ensures
        isize::MIN <= x + y <= isize::MAX ==> (int_op(x, ConstExprOpType::Add, y) matches Ok(ConstValue::Int(v)) && v == x + y),
        isize::MIN <= x - y <= isize::MAX ==> (int_op(x, ConstExprOpType::Sub, y) matches Ok(ConstValue::Int(v)) && v == x - y),
        isize::MIN <= x * y <= isize::MAX ==> (int_op(x, ConstExprOpType::Mul, y) matches Ok(ConstValue::Int(v)) && v == x * y),
        int_op(x, ConstExprOpType::Add, y) == int_op(y, ConstExprOpType::Add, x),
        int_op(x, ConstExprOpType::Mul, y) == int_op(y, ConstExprOpType::Mul, x),
{
    assert(x * y == y * x) by (nonlinear_arith);
}

/// Dividing integers rounds toward zero: the quotient and the remainder put
/// the dividend back together, the remainder is smaller than the divisor,
/// and it is zero or has the dividend's sign.
pub proof fn lemma_int_division(x: isize, y: isize)
    requires
        y != 0,
        !(x == isize::MIN && y == -1),
    ensures
        int_op(x, ConstExprOpType::Div, y) matches Ok(ConstValue::Int(q)) && int_op(x, ConstExprOpType::Mod, y) matches Ok(
            ConstValue::Int(r),
        ) && q * y + r == x && magnitude(r as int) < magnitude(y as int) && (r == 0 || (r < 0) == (x < 0)),
{
    let ax = magnitude(x as int);
    let ay = magnitude(y as int);
    let qq = ax / ay;
    let rr = ax % ay;
    vstd::arithmetic::div_mod::lemma_fundamental_div_mod(ax as int, ay as int);
    assert(0 <= rr < ay);
    assert(qq <= ax) by (nonlinear_arith)
        requires
            ay >= 1,
            qq == ax / ay,
    ;
    assert(ay == 1 ==> qq == ax) by (nonlinear_arith)
        requires
            ay >= 1,
            qq == ax / ay,
    ;
    assert(ay >= 2 ==> qq * 2 <= ax) by (nonlinear_arith)
        requires
            ay >= 1,
            qq == ax / ay,
    ;
    assert(ax <= isize::MAX + 1);
    let q = trunc_div(x as int, y as int);
    let r = trunc_rem(x as int, y as int);
    assert(isize::MIN <= q <= isize::MAX);
    assert(isize::MIN <= r <= isize::MAX);
    assert(ax == ay * qq + rr);
    if x < 0 {
        if y < 0 {
            assert(q * y == -(ay * qq)) by (nonlinear_arith)
                requires
                    q == qq,
                    y == -ay,
            ;
        } else {
            assert(q * y == -(ay * qq)) by (nonlinear_arith)
                requires
                    q == -qq,
                    y == ay,
            ;
        }
    } else {
        if y < 0 {
            assert(q * y == ay * qq) by (nonlinear_arith)
                requires
                    q == -qq,
                    y == -ay,
            ;
        } else {
            assert(q * y == ay * qq) by (nonlinear_arith)
                requires
                    q == qq,
                    y == ay,
            ;
        }
    }
}

/// Bitwise operators act on the bits of their operands, and shifts move
/// them; negation and bitwise not on one integer give `-x` and `-x - 1`.
pub proof fn lemma_int_bits(x: isize, y: isize)
    ensures
        int_op(x, ConstExprOpType::BitAnd, y) == Ok::<ConstValue, ConstOpError>(ConstValue::Int(x & y)),
        int_op(x, ConstExprOpType::BitOr, y) == Ok::<ConstValue, ConstOpError>(ConstValue::Int(x | y)),
        int_op(x, ConstExprOpType::BitXor, y) == Ok::<ConstValue, ConstOpError>(ConstValue::Int(x ^ y)),
        int_op(x, ConstExprOpType::Shl, y) == Ok::<ConstValue, ConstOpError>(ConstValue::Int(x << y)),
        int_op(x, ConstExprOpType::Shr, y) == Ok::<ConstValue, ConstOpError>(ConstValue::Int(x >> y)),
        x != isize::MIN ==> (const_op_result(None, ConstExprOpType::UnaryMinus, Some(ConstValue::Int(x))) matches Ok(
            ConstValue::Int(v),
        ) && v == -x),
        const_op_result(None, ConstExprOpType::BitNot, Some(ConstValue::Int(x))) matches Ok(ConstValue::Int(v)) && v == -x - 1,
{
    assert((!x) as int == -(x as int) - 1) by (bit_vector);
}

/// A range is made of its two ends, either of which may be left out.
pub proof fn lemma_int_ranges(x: isize, y: isize)
    ensures
        int_op(x, ConstExprOpType::Range, y) == Ok::<ConstValue, ConstOpError>(ConstValue::Range(Some(x), Some(y))),
        const_op_result(None, ConstExprOpType::Range, Some(ConstValue::Int(y))) == Ok::<ConstValue, ConstOpError>(
            ConstValue::Range(None, Some(y)),
        ),
        const_op_result(Some(ConstValue::Int(x)), ConstExprOpType::Range, None) == Ok::<ConstValue, ConstOpError>(
            ConstValue::Range(Some(x), None),
        ),
        const_op_result(None, ConstExprOpType::Range, None) == Ok::<ConstValue, ConstOpError>(ConstValue::Range(None, None)),
{
}

/// The logical operators on booleans: `&&`, `||`, `^^` as inequality, `==`,
/// `!=`, and `!`; the others are not defined on booleans.
pub proof fn lemma_bool_ops(x: bool, y: bool, op: ConstExprOpType)
    ensures
        bool_op(x, ConstExprOpType::And, y) == Ok::<ConstValue, ConstOpError>(ConstValue::Bool(x && y)),
        bool_op(x, ConstExprOpType::Or, y) == Ok::<ConstValue, ConstOpError>(ConstValue::Bool(x || y)),
        bool_op(x, ConstExprOpType::Xor, y) == Ok::<ConstValue, ConstOpError>(ConstValue::Bool((x && !y) || (!x && y))),
        bool_op(x, ConstExprOpType::Eq, y) == Ok::<ConstValue, ConstOpError>(ConstValue::Bool((x && y) || (!x && !y))),
        bool_op(x, ConstExprOpType::Neq, y) == Ok::<ConstValue, ConstOpError>(ConstValue::Bool((x && !y) || (!x && y))),
        const_op_result(None, ConstExprOpType::Not, Some(ConstValue::Bool(x))) == Ok::<ConstValue, ConstOpError>(
            ConstValue::Bool(!x),
        ),
        op != ConstExprOpType::And && op != ConstExprOpType::Or && op != ConstExprOpType::Xor && op != ConstExprOpType::Eq
            && op != ConstExprOpType::Neq ==> bool_op(x, op, y) == Err::<ConstValue, ConstOpError>(
            ConstOpError::InvalidBinaryOp { op, lhs: ConstType::Bool, rhs: ConstType::Bool },
        ),
{
}

/// The logical operators are not defined on integers, nor `!`.
pub proof fn lemma_int_logic_rejected(x: isize, y: isize)
    ensures
        int_op(x, ConstExprOpType::And, y) == Err::<ConstValue, ConstOpError>(
            ConstOpError::InvalidBinaryOp { op: ConstExprOpType::And, lhs: ConstType::Int, rhs: ConstType::Int },
        ),
        int_op(x, ConstExprOpType::Or, y) == Err::<ConstValue, ConstOpError>(
            ConstOpError::InvalidBinaryOp { op: ConstExprOpType::Or, lhs: ConstType::Int, rhs: ConstType::Int },
        ),
        int_op(x, ConstExprOpType::Xor, y) == Err::<ConstValue, ConstOpError>(
            ConstOpError::InvalidBinaryOp { op: ConstExprOpType::Xor, lhs: ConstType::Int, rhs: ConstType::Int },
        ),
        const_op_result(None, ConstExprOpType::Not, Some(ConstValue::Int(x))) == Err::<ConstValue, ConstOpError>(
            ConstOpError::InvalidUnaryOp { op: ConstExprOpType::Not, rhs: ConstType::Int },
        ),
{
}

/// Two values of one enum are equal exactly when they name the same variant.
pub proof fn lemma_enum_equality(m: crate::util::ModuleId, e: crate::tokeniser::IdentId, v1: crate::tokeniser::IdentId, v2: crate::tokeniser::IdentId)
    ensures
        const_op_result(
            Some(ConstValue::Enum { module_id: m, enum_name: e, variant: v1 }),
            ConstExprOpType::Eq,
            Some(ConstValue::Enum { module_id: m, enum_name: e, variant: v2 }),
        ) == Ok::<ConstValue, ConstOpError>(ConstValue::Bool(v1 == v2)),
        const_op_result(
            Some(ConstValue::Enum { module_id: m, enum_name: e, variant: v1 }),
            ConstExprOpType::Neq,
            Some(ConstValue::Enum { module_id: m, enum_name: e, variant: v2 }),
        ) == Ok::<ConstValue, ConstOpError>(ConstValue::Bool(v1 != v2)),
{
}

} // verus!
