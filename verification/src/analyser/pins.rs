//! Pins, connections, and the meaning of pin expressions such as `a.b[2..4]`.
use vstd::prelude::*;

use super::constexpr::ConstValue;
use crate::ast::PinDirection;
use crate::diagnostics::Diagnostic;
use crate::tokeniser::IdentId;
use crate::util::text::{decimal, push_str, usize_to_string};
use crate::util::{Interner, Pos};

verus! {

/// The number of a circuit.
pub type CircId = usize;

/// The number of a pin of a circuit.
pub type PinId = usize;

/// A pin of a circuit.
#[derive(Debug, Clone, Copy, PartialEq, Eq, Structural)]
pub struct Pin {
    pub name: IdentId,
    pub direction: PinDirection,
    pub width: usize,
}

/// A span of bits `start..end` of a pin.
#[derive(Debug, Clone, Copy, PartialEq, Eq, Structural, Hash)]
pub struct ConnectionRange {
    pub start: usize,
    pub end: usize,
}

/// One end of a connection: bits of a pin of the circuit itself, or of a pin
/// of one of its dependencies.
#[derive(Debug, Clone, Copy, PartialEq, Eq, Structural, Hash)]
pub enum ConnectionEndpoint {
    Pin { pin_id: PinId, range: ConnectionRange },
    Dependency { dependency_id: usize, pin_id: PinId, range: ConnectionRange },
}

/// Whether a connection carries values one way or both ways.
#[derive(Debug, Clone, Copy, PartialEq, Eq, Structural, Hash)]
pub enum ConnectionType {
    Unidirectional,
    Bidirectional,
}

/// A connection between two endpoints of equal width.
#[derive(Debug, Clone, Copy, PartialEq, Eq, Structural, Hash)]
pub struct Connection {
    pub width: usize,
    pub source: ConnectionEndpoint,
    pub dest: ConnectionEndpoint,
    pub connection_type: ConnectionType,
}

/// What a pin expression denotes.
#[derive(Debug, Clone, Copy, PartialEq, Eq, Structural)]
pub enum PinExprType {
    Unknown,
    Index(usize),
    Range(Option<usize>, Option<usize>),
    Pin { pin_id: PinId, pin: Pin },
    PinRange { pin_id: PinId, pin: Pin, start: Option<usize>, end: Option<usize> },
    DependencyArray { name: IdentId, circ_id: CircId, len: usize },
    Dependency { name: IdentId, circ_id: CircId, index: Option<usize> },
    DependencyPin { name: IdentId, circ_id: CircId, index: Option<usize>, pin_id: PinId, pin: Pin },
    DependencyPinRange {
        name: IdentId,
        circ_id: CircId,
        index: Option<usize>,
        pin_id: PinId,
        pin: Pin,
        start: Option<usize>,
        end: Option<usize>,
    },
}

/// `o`, or `d` where it is `None`.
pub open spec fn or_default(o: Option<usize>, d: usize) -> usize {
    match o {
        Some(v) => v,
        None => d,
    }
}

pub(crate) fn unwrap_or(o: Option<usize>, d: usize) -> (r: usize)
    ensures
        r == or_default(o, d),
{
    match o {
        Some(v) => v,
        None => d,
    }
}

impl PinExprType {
    /// The pin the expression denotes bits of, if it denotes bits of a pin.
    pub open spec fn spec_pin(self) -> Option<Pin> {
        match self {
            PinExprType::Pin { pin, .. } => Some(pin),
            PinExprType::PinRange { pin, .. } => Some(pin),
            PinExprType::DependencyPin { pin, .. } => Some(pin),
            PinExprType::DependencyPinRange { pin, .. } => Some(pin),
            _ => None,
        }
    }

    /// The bits `start..end` the expression selects of its pin, if it selects a slice.
    pub open spec fn spec_slice(self) -> Option<(Option<usize>, Option<usize>)> {
        match self {
            PinExprType::PinRange { start, end, .. } => Some((start, end)),
            PinExprType::DependencyPinRange { start, end, .. } => Some((start, end)),
            _ => None,
        }
    }

    /// The number of bits the expression denotes.
    pub open spec fn spec_width(self) -> int {
        let pin = self.spec_pin()->0;
        match self.spec_slice() {
            Some((start, end)) => or_default(end, pin.width) - or_default(start, 0),
            None => pin.width as int,
        }
    }

    pub fn is_unknown(&self) -> (r: bool)
        ensures
            r == (*self is Unknown),
    {
        match self {
            PinExprType::Unknown => true,
            _ => false,
        }
    }

    /// Whether the expression denotes bits of a pin, so that it can be connected.
    pub fn is_valid_endpoint(&self) -> (r: bool)
        ensures
            r == self.spec_pin() is Some,
    {
        self.get_pin().is_some()
    }

    pub fn get_pin(&self) -> (r: Option<Pin>)
        ensures
            r == self.spec_pin(),
    {
        match self {
            PinExprType::Pin { pin, .. } => Some(*pin),
            PinExprType::PinRange { pin, .. } => Some(*pin),
            PinExprType::DependencyPin { pin, .. } => Some(*pin),
            PinExprType::DependencyPinRange { pin, .. } => Some(*pin),
            _ => None,
        }
    }

    /// Whether the expression denotes bits of a pin of a dependency.
    pub fn is_dependency_pin(&self) -> (r: bool)
        ensures
            r == (*self is DependencyPin || *self is DependencyPinRange),
    {
        match self {
            PinExprType::DependencyPin { .. } | PinExprType::DependencyPinRange { .. } => true,
            _ => false,
        }
    }

    /// The number of bits the expression denotes.
    pub fn width(&self) -> (r: usize)
        requires
            self.spec_pin() is Some,
            self.spec_width() >= 0,
        ensures
            r == self.spec_width(),
    {
        let pin = match self.get_pin() {
            Some(p) => p,
            None => Pin { name: 0, direction: PinDirection::Input, width: 0 },
        };
        match self {
            PinExprType::PinRange { start, end, .. } | PinExprType::DependencyPinRange { start, end, .. } => {
                unwrap_or(*end, pin.width) - unwrap_or(*start, 0)
            },
            _ => pin.width,
        }
    }

    /// The direction of the pin the expression denotes bits of.
    pub fn direction(&self) -> (r: PinDirection)
        requires
            self.spec_pin() is Some,
        ensures
            r == self.spec_pin()->0.direction,
    {
        match self.get_pin() {
            Some(p) => p.direction,
            None => PinDirection::Input,
        }
    }
}

/// The pin expression a constant used as an index denotes: a bit for an
/// integer, a span of bits for a range.
pub open spec fn spec_pinexpr_range(value: ConstValue) -> PinExprType {
    match value {
        ConstValue::Int(x) => PinExprType::Index(x as usize),
        ConstValue::Range(start, end) => PinExprType::Range(
            match start {
                Some(s) => Some(s as usize),
                None => None,
            },
            match end {
                Some(e) => Some(e as usize),
                None => None,
            },
        ),
        _ => PinExprType::Unknown,
    }
}

/// The constants that can stand as an index: a non-negative integer, a range
/// whose given ends are non-negative, or an unknown value.
pub open spec fn valid_index_value(value: ConstValue) -> bool {
    match value {
        ConstValue::Int(x) => x >= 0,
        ConstValue::Range(start, end) => (start matches Some(s) ==> s >= 0) && (end matches Some(e) ==> e >= 0),
        ConstValue::Unknown => true,
        _ => false,
    }
}

fn index_of_isize(x: Option<isize>) -> (r: Option<usize>)
    requires
        x matches Some(v) ==> v >= 0,
    ensures
        r == (match x {
            Some(v) => Some(v as usize),
            None => None,
        }),
{
    match x {
        Some(v) => Some(v as usize),
        None => None,
    }
}

/// The pin expression denoted by an evaluated index.
pub fn pinexpr_range(value: ConstValue) -> (r: PinExprType)
    requires
        valid_index_value(value),
    ensures
        r == spec_pinexpr_range(value),
{
    match value {
        ConstValue::Int(x) => PinExprType::Index(x as usize),
        ConstValue::Range(start, end) => PinExprType::Range(index_of_isize(start), index_of_isize(end)),
        _ => PinExprType::Unknown,
    }
}

/// The operands an index can be applied to: bits of a pin (or of a slice of
/// one) indexed by a bit or a range, an array of dependencies indexed by a
/// bit, or an unknown operand.
pub open spec fn can_index(lhs: PinExprType, rhs: PinExprType) -> bool {
    match (lhs, rhs) {
        (PinExprType::DependencyArray { .. }, PinExprType::Index(_)) => true,
        (PinExprType::Pin { .. }, PinExprType::Index(_)) => true,
        (PinExprType::PinRange { .. }, PinExprType::Index(_)) => true,
        (PinExprType::DependencyPin { .. }, PinExprType::Index(_)) => true,
        (PinExprType::DependencyPinRange { .. }, PinExprType::Index(_)) => true,
        (PinExprType::Pin { .. }, PinExprType::Range(_, _)) => true,
        (PinExprType::PinRange { .. }, PinExprType::Range(_, _)) => true,
        (PinExprType::DependencyPin { .. }, PinExprType::Range(_, _)) => true,
        (PinExprType::DependencyPinRange { .. }, PinExprType::Range(_, _)) => true,
        (PinExprType::Unknown, _) | (_, PinExprType::Unknown) => true,
        _ => false,
    }
}

/// The largest offset an index computes stays in range.
pub open spec fn index_fits(lhs: PinExprType, rhs: PinExprType) -> bool {
    let base = match lhs {
        PinExprType::PinRange { start, .. } => or_default(start, 0) as int,
        PinExprType::DependencyPinRange { start, .. } => or_default(start, 0) as int,
        _ => 0,
    };
    let width = match lhs.spec_pin() {
        Some(p) => p.width,
        None => 0,
    };
    match rhs {
        PinExprType::Index(i) => base + i + 1 <= usize::MAX,
        PinExprType::Range(s, e) => base + or_default(s, 0) <= usize::MAX && base + or_default(e, width)
            <= usize::MAX,
        _ => true,
    }
}

/// The bits selected by indexing `lhs` with `rhs`. Indexing an array of
/// dependencies selects one of them; indexing bits selects bits relative to
/// the start of the slice already selected.
pub open spec fn spec_index_pinexpr(lhs: PinExprType, rhs: PinExprType) -> PinExprType {
    match (lhs, rhs) {
        (PinExprType::DependencyArray { name, circ_id, .. }, PinExprType::Index(idx)) => PinExprType::Dependency {
            name,
            circ_id,
            index: Some(idx),
        },
        (PinExprType::Pin { pin_id, pin }, PinExprType::Index(idx)) => PinExprType::PinRange {
            pin_id,
            pin,
            start: Some(idx),
            end: Some((idx + 1) as usize),
        },
        (PinExprType::PinRange { pin_id, pin, start, .. }, PinExprType::Index(idx)) => PinExprType::PinRange {
            pin_id,
            pin,
            start: Some((or_default(start, 0) + idx) as usize),
            end: Some((or_default(start, 0) + idx + 1) as usize),
        },
        (PinExprType::DependencyPin { name, circ_id, index, pin_id, pin }, PinExprType::Index(idx)) => {
            PinExprType::DependencyPinRange {
                name,
                circ_id,
                index,
                pin_id,
                pin,
                start: Some(idx),
                end: Some((idx + 1) as usize),
            }
        },
        (
            PinExprType::DependencyPinRange { name, circ_id, index, pin_id, pin, start, .. },
            PinExprType::Index(idx),
        ) => PinExprType::DependencyPinRange {
            name,
            circ_id,
            index,
            pin_id,
            pin,
            start: Some((or_default(start, 0) + idx) as usize),
            end: Some((or_default(start, 0) + idx + 1) as usize),
        },
        (PinExprType::Pin { pin_id, pin }, PinExprType::Range(s, e)) => PinExprType::PinRange {
            pin_id,
            pin,
            start: Some(or_default(s, 0)),
            end: Some(or_default(e, pin.width)),
        },
        (PinExprType::PinRange { pin_id, pin, start, .. }, PinExprType::Range(s, e)) => PinExprType::PinRange {
            pin_id,
            pin,
            start: Some((or_default(start, 0) + or_default(s, 0)) as usize),
            end: Some((or_default(start, 0) + or_default(e, pin.width)) as usize),
        },
        (PinExprType::DependencyPin { name, circ_id, index, pin_id, pin }, PinExprType::Range(s, e)) => {
            PinExprType::DependencyPinRange {
                name,
                circ_id,
                index,
                pin_id,
                pin,
                start: Some(or_default(s, 0)),
                end: Some(or_default(e, pin.width)),
            }
        },
        (
            PinExprType::DependencyPinRange { name, circ_id, index, pin_id, pin, start, .. },
            PinExprType::Range(s, e),
        ) => PinExprType::DependencyPinRange {
            name,
            circ_id,
            index,
            pin_id,
            pin,
            start: Some((or_default(start, 0) + or_default(s, 0)) as usize),
            end: Some((or_default(start, 0) + or_default(e, pin.width)) as usize),
        },
        _ => PinExprType::Unknown,
    }
}

/// Indexes `lhs` with `rhs`.
pub fn index_pinexpr(lhs: PinExprType, rhs: PinExprType) -> (r: PinExprType)
    requires
        can_index(lhs, rhs),
        index_fits(lhs, rhs),
    ensures
        r == spec_index_pinexpr(lhs, rhs),
{
    match (lhs, rhs) {
        (PinExprType::DependencyArray { name, circ_id, .. }, PinExprType::Index(idx)) => PinExprType::Dependency {
            name,
            circ_id,
            index: Some(idx),
        },
        (PinExprType::Pin { pin_id, pin }, PinExprType::Index(idx)) => PinExprType::PinRange {
            pin_id,
            pin,
            start: Some(idx),
            end: Some(idx + 1),
        },
        (PinExprType::PinRange { pin_id, pin, start, .. }, PinExprType::Index(idx)) => {
            let base = unwrap_or(start, 0);
            PinExprType::PinRange { pin_id, pin, start: Some(base + idx), end: Some(base + idx + 1) }
        },
        (PinExprType::DependencyPin { name, circ_id, index, pin_id, pin }, PinExprType::Index(idx)) => {
            PinExprType::DependencyPinRange {
                name,
                circ_id,
                index,
                pin_id,
                pin,
                start: Some(idx),
                end: Some(idx + 1),
            }
        },
        (
            PinExprType::DependencyPinRange { name, circ_id, index, pin_id, pin, start, .. },
            PinExprType::Index(idx),
        ) => {
            let base = unwrap_or(start, 0);
            PinExprType::DependencyPinRange {
                name,
                circ_id,
                index,
                pin_id,
                pin,
                start: Some(base + idx),
                end: Some(base + idx + 1),
            }
        },
        (PinExprType::Pin { pin_id, pin }, PinExprType::Range(s, e)) => PinExprType::PinRange {
            pin_id,
            pin,
            start: Some(unwrap_or(s, 0)),
            end: Some(unwrap_or(e, pin.width)),
        },
        (PinExprType::PinRange { pin_id, pin, start, .. }, PinExprType::Range(s, e)) => {
            let base = unwrap_or(start, 0);
            PinExprType::PinRange {
                pin_id,
                pin,
                start: Some(base + unwrap_or(s, 0)),
                end: Some(base + unwrap_or(e, pin.width)),
            }
        },
        (PinExprType::DependencyPin { name, circ_id, index, pin_id, pin }, PinExprType::Range(s, e)) => {
            PinExprType::DependencyPinRange {
                name,
                circ_id,
                index,
                pin_id,
                pin,
                start: Some(unwrap_or(s, 0)),
                end: Some(unwrap_or(e, pin.width)),
            }
        },
        (
            PinExprType::DependencyPinRange { name, circ_id, index, pin_id, pin, start, .. },
            PinExprType::Range(s, e),
        ) => {
            let base = unwrap_or(start, 0);
            PinExprType::DependencyPinRange {
                name,
                circ_id,
                index,
                pin_id,
                pin,
                start: Some(base + unwrap_or(s, 0)),
                end: Some(base + unwrap_or(e, pin.width)),
            }
        },
        _ => PinExprType::Unknown,
    }
}

/// How a range `start..end` is written, with either end left out when missing.
pub open spec fn range_text(start: Option<usize>, end: Option<usize>) -> Seq<char> {
    match (start, end) {
        (None, None) => ".."@,
        (Some(s), None) => decimal(s as nat) + ".."@,
        (None, Some(e)) => ".."@ + decimal(e as nat),
        (Some(s), Some(e)) => decimal(s as nat) + ".."@ + decimal(e as nat),
    }
}

pub(crate) fn push_decimal(s: &mut String, n: usize)
    ensures
        final(s)@ == old(s)@ + decimal(n as nat),
{
    let d = usize_to_string(n);
    push_str(s, d.as_str());
}

fn push_range(s: &mut String, start: Option<usize>, end: Option<usize>)
    ensures
        final(s)@ == old(s)@ + range_text(start, end),
{
    if let Some(v) = start {
        push_decimal(s, v);
    }
    push_str(s, "..");
    if let Some(v) = end {
        push_decimal(s, v);
    }
    assert(final(s)@ =~= old(s)@ + range_text(start, end));
}

pub(crate) fn push_ident(s: &mut String, idents: &Interner, id: IdentId)
    requires
        id < idents.view().len(),
    ensures
        final(s)@ == old(s)@ + idents.view()[id as int],
{
    match idents.get(id) {
        Some(text) => push_str(s, text.as_str()),
        None => {},
    }
}

/// How a pin of a dependency is written: `dep.pin`, or `dep[i].pin` for a
/// member of an array.
pub open spec fn dependency_pin_text(names: Seq<Seq<char>>, name: IdentId, index: Option<usize>, pin: IdentId) -> Seq<
    char,
> {
    match index {
        Some(i) => names[name as int] + "["@ + decimal(i as nat) + "]."@ + names[pin as int],
        None => names[name as int] + "."@ + names[pin as int],
    }
}

fn push_dependency_pin(s: &mut String, idents: &Interner, name: IdentId, index: Option<usize>, pin: IdentId)
    requires
        name < idents.view().len(),
        pin < idents.view().len(),
    ensures
        final(s)@ == old(s)@ + dependency_pin_text(idents.view(), name, index, pin),
{
    push_ident(s, idents, name);
    if let Some(i) = index {
        push_str(s, "[");
        push_decimal(s, i);
        push_str(s, "].");
    } else {
        push_str(s, ".");
    }
    push_ident(s, idents, pin);
    assert(final(s)@ =~= old(s)@ + dependency_pin_text(idents.view(), name, index, pin));
}

/// The identifiers an expression names are all interned.
pub open spec fn names_known(lhs: PinExprType, names: Seq<Seq<char>>) -> bool {
    match lhs {
        PinExprType::Pin { pin, .. } => pin.name < names.len(),
        PinExprType::PinRange { pin, .. } => pin.name < names.len(),
        PinExprType::DependencyArray { name, .. } => name < names.len(),
        PinExprType::DependencyPin { name, pin, .. } => name < names.len() && pin.name < names.len(),
        PinExprType::DependencyPinRange { name, pin, .. } => name < names.len() && pin.name < names.len(),
        _ => true,
    }
}

/// The operands a bit index can be checked against, with a slice that does
/// not end before it starts.
pub open spec fn index_checkable(lhs: PinExprType) -> bool {
    match lhs {
        PinExprType::Pin { .. } | PinExprType::DependencyArray { .. } | PinExprType::DependencyPin { .. } => true,
        PinExprType::PinRange { .. } | PinExprType::DependencyPinRange { .. } => lhs.spec_width() >= 0,
        _ => false,
    }
}

/// Whether bit `index` lies outside what `lhs` denotes.
pub open spec fn index_out_of_bounds(lhs: PinExprType, index: usize) -> bool {
    match lhs {
        PinExprType::DependencyArray { len, .. } => index >= len,
        _ => index >= lhs.spec_width(),
    }
}

/// The message given when bit `index` lies outside what `lhs` denotes.
pub open spec fn index_error_text(lhs: PinExprType, index: usize, names: Seq<Seq<char>>) -> Seq<char> {
    let i = decimal(index as nat);
    match lhs {
        PinExprType::Pin { pin, .. } => "index "@ + i + " out of bounds for pin '"@ + names[pin.name as int]
            + "' of width "@ + decimal(pin.width as nat),
        PinExprType::PinRange { pin, start, end, .. } => "index "@ + i + " out of bounds for bit slice ["@
            + range_text(start, end) + "] of pin '"@ + names[pin.name as int] + "'"@,
        PinExprType::DependencyArray { name, len, .. } => "index "@ + i + " out of bounds for array '"@
            + names[name as int] + "' of length "@ + decimal(len as nat),
        PinExprType::DependencyPin { name, index: arr, pin, .. } => "index "@ + i + " out of bounds for pin '"@
            + dependency_pin_text(names, name, arr, pin.name) + "' of width "@ + decimal(pin.width as nat),
        PinExprType::DependencyPinRange { name, index: arr, pin, start, end, .. } => "index "@ + i
            + " out of bounds for bit slice ["@ + range_text(start, end) + "] of pin '"@ + dependency_pin_text(
            names,
            name,
            arr,
            pin.name,
        ) + "'"@,
        _ => Seq::empty(),
    }
}

/// Checks a bit index against what it indexes: `None` when it lies inside,
/// else the error to report at `pos`.
pub fn pinexpr_bounds_check_index(pos: Pos, lhs: PinExprType, index: usize, idents: &Interner) -> (r: Option<
    Diagnostic,
>)
    requires
        index_checkable(lhs),
        names_known(lhs, idents.view()),
    ensures
        r is None <==> !index_out_of_bounds(lhs, index),
        r matches Some(d) ==> d.is_error_at(index_error_text(lhs, index, idents.view()), pos),
{
    let out = match lhs {
        PinExprType::DependencyArray { len, .. } => index >= len,
        _ => index >= lhs.width(),
    };
    if !out {
        return None;
    }
    let mut m = String::new();
    push_str(&mut m, "index ");
    push_decimal(&mut m, index);
    match lhs {
        PinExprType::Pin { pin, .. } => {
            push_str(&mut m, " out of bounds for pin '");
            push_ident(&mut m, idents, pin.name);
            push_str(&mut m, "' of width ");
            push_decimal(&mut m, pin.width);
        },
        PinExprType::PinRange { pin, start, end, .. } => {
            push_str(&mut m, " out of bounds for bit slice [");
            push_range(&mut m, start, end);
            push_str(&mut m, "] of pin '");
            push_ident(&mut m, idents, pin.name);
            push_str(&mut m, "'");
        },
        PinExprType::DependencyArray { name, len, .. } => {
            push_str(&mut m, " out of bounds for array '");
            push_ident(&mut m, idents, name);
            push_str(&mut m, "' of length ");
            push_decimal(&mut m, len);
        },
        PinExprType::DependencyPin { name, index: arr, pin, .. } => {
            push_str(&mut m, " out of bounds for pin '");
            push_dependency_pin(&mut m, idents, name, arr, pin.name);
            push_str(&mut m, "' of width ");
            push_decimal(&mut m, pin.width);
        },
        PinExprType::DependencyPinRange { name, index: arr, pin, start, end, .. } => {
            push_str(&mut m, " out of bounds for bit slice [");
            push_range(&mut m, start, end);
            push_str(&mut m, "] of pin '");
            push_dependency_pin(&mut m, idents, name, arr, pin.name);
            push_str(&mut m, "'");
        },
        _ => {},
    }
    proof {
        reveal_strlit("");
    }
    assert(m@ =~= index_error_text(lhs, index, idents.view()));
    Some(Diagnostic::error(m, pos))
}

/// Whether the slice `t_start..t_end` (ends defaulting to `0` and `s_end`)
/// fits inside `s_start..s_end`.
pub open spec fn spec_range_in_bounds(s_start: usize, s_end: usize, t_start: Option<usize>, t_end: Option<usize>) -> bool {
    or_default(t_start, 0) >= s_start && or_default(t_end, s_end) <= s_end
}

pub fn pinexpr_range_in_bounds(s_start: usize, s_end: usize, t_start: Option<usize>, t_end: Option<usize>) -> (r: bool)
    ensures
        r == spec_range_in_bounds(s_start, s_end, t_start, t_end),
{
    let t_start = unwrap_or(t_start, 0);
    let t_end = unwrap_or(t_end, s_end);
    t_start >= s_start && t_end <= s_end
}

/// The operands a range can be checked against: pins and bit slices.
pub open spec fn range_checkable(lhs: PinExprType, start: Option<usize>, end: Option<usize>) -> bool {
    match lhs {
        PinExprType::Pin { .. } | PinExprType::DependencyPin { .. } | PinExprType::PinRange { .. }
        | PinExprType::DependencyPinRange { .. } => true,
        _ => false,
    }
}

/// How many bits a range is taken from: a whole pin's width, or a bit
/// slice's length (negative for a slice that ends before it starts).
pub open spec fn range_source_width(lhs: PinExprType) -> int {
    match lhs {
        PinExprType::PinRange { pin, start: s, end: e, .. } | PinExprType::DependencyPinRange {
            pin,
            start: s,
            end: e,
            ..
        } => or_default(e, pin.width) - or_default(s, 0),
        PinExprType::Pin { pin, .. } | PinExprType::DependencyPin { pin, .. } => pin.width as int,
        _ => 0,
    }
}

/// Whether the range check reports an error: the range, counted from the
/// first bit of what it is taken from (its end defaulting to the width),
/// ends before it starts or ends past that width.
pub open spec fn range_rejected(lhs: PinExprType, start: Option<usize>, end: Option<usize>) -> bool {
    let w = range_source_width(lhs);
    let s = or_default(start, 0) as int;
    let e = match end {
        Some(e) => e as int,
        None => w,
    };
    !(s <= e && e <= w)
}

/// The message given when the range check rejects a range.
pub open spec fn range_error_text(lhs: PinExprType, start: Option<usize>, end: Option<usize>, names: Seq<Seq<char>>) -> Seq<char> {
    let range = range_text(start, end);
    match lhs {
        PinExprType::Pin { pin, .. } => "range "@ + range + " out of bounds for pin '"@ + names[pin.name as int]
            + "' of width "@ + decimal(pin.width as nat),
        PinExprType::PinRange { pin, .. } => "range "@ + range + " out of bounds for bit slice ["@ + range
            + "] of pin '"@ + names[pin.name as int] + "'"@,
        PinExprType::DependencyPin { name, index: arr, pin, .. } => "range "@ + range + " out of bounds for pin '"@
            + dependency_pin_text(names, name, arr, pin.name) + "' of width "@ + decimal(pin.width as nat),
        PinExprType::DependencyPinRange { name, index: arr, pin, .. } => "range "@ + range
            + " out of bounds for bit slice ["@ + range + "] of pin '"@ + dependency_pin_text(
            names,
            name,
            arr,
            pin.name,
        ) + "'"@,
        _ => Seq::empty(),
    }
}

/// Checks a range against what it indexes: `None` when it is accepted, else
/// the error to report at `pos`.
pub fn pinexpr_bounds_check_range(
    pos: Pos,
    lhs: PinExprType,
    start: Option<usize>,
    end: Option<usize>,
    idents: &Interner,
) -> (r: Option<Diagnostic>)
    requires
        range_checkable(lhs, start, end),
        names_known(lhs, idents.view()),
    ensures
        r is None <==> !range_rejected(lhs, start, end),
        r matches Some(d) ==> d.is_error_at(range_error_text(lhs, start, end, idents.view()), pos),
{
    // the width of what the range is taken from, if it is not negative
    let width: Option<usize> = match lhs {
        PinExprType::Pin { pin, .. } | PinExprType::DependencyPin { pin, .. } => Some(pin.width),
        PinExprType::PinRange { pin, start: s, end: e, .. } | PinExprType::DependencyPinRange {
            pin,
            start: s,
            end: e,
            ..
        } => {
            let ss = unwrap_or(s, 0);
            let se = unwrap_or(e, pin.width);
            if se >= ss {
                Some(se - ss)
            } else {
                None
            }
        },
        _ => Some(0),
    };
    let rejected = match width {
        Some(w) => {
            let s = unwrap_or(start, 0);
            let e = unwrap_or(end, w);
            !(pinexpr_range_in_bounds(0, w, start, end) && s <= e)
        },
        None => true,
    };
    if !rejected {
        return None;
    }
    let mut m = String::new();
    push_str(&mut m, "range ");
    push_range(&mut m, start, end);
    match lhs {
        PinExprType::Pin { pin, .. } => {
            push_str(&mut m, " out of bounds for pin '");
            push_ident(&mut m, idents, pin.name);
            push_str(&mut m, "' of width ");
            push_decimal(&mut m, pin.width);
        },
        PinExprType::PinRange { pin, .. } => {
            push_str(&mut m, " out of bounds for bit slice [");
            push_range(&mut m, start, end);
            push_str(&mut m, "] of pin '");
            push_ident(&mut m, idents, pin.name);
            push_str(&mut m, "'");
        },
        PinExprType::DependencyPin { name, index: arr, pin, .. } => {
            push_str(&mut m, " out of bounds for pin '");
            push_dependency_pin(&mut m, idents, name, arr, pin.name);
            push_str(&mut m, "' of width ");
            push_decimal(&mut m, pin.width);
        },
        PinExprType::DependencyPinRange { name, index: arr, pin, .. } => {
            push_str(&mut m, " out of bounds for bit slice [");
            push_range(&mut m, start, end);
            push_str(&mut m, "] of pin '");
            push_dependency_pin(&mut m, idents, name, arr, pin.name);
            push_str(&mut m, "'");
        },
        _ => {},
    }
    proof {
        reveal_strlit("");
    }
    assert(m@ =~= range_error_text(lhs, start, end, idents.view()));
    Some(Diagnostic::error(m, pos))
}

/// What indexing `lhs` with `rhs` denotes, and the error reported when the
/// index lies outside `lhs`, in which case the expression is unknown.
pub open spec fn spec_apply_index(lhs: PinExprType, rhs: PinExprType) -> PinExprType {
    let rejected = match rhs {
        PinExprType::Index(i) => index_out_of_bounds(lhs, i),
        PinExprType::Range(s, e) => range_rejected(lhs, s, e),
        _ => false,
    };
    if rejected {
        PinExprType::Unknown
    } else {
        spec_index_pinexpr(lhs, rhs)
    }
}

/// The operands on which checking and applying an index does not fail outright.
pub open spec fn index_applicable(lhs: PinExprType, rhs: PinExprType, names: Seq<Seq<char>>) -> bool {
    &&& names_known(lhs, names)
    &&& match rhs {
        PinExprType::Index(i) => index_checkable(lhs),
        PinExprType::Range(s, e) => range_checkable(lhs, s, e),
        _ => false,
    }
    &&& can_index(lhs, rhs)
    &&& index_fits(lhs, rhs)
}

/// Checks an index against what it indexes and, when it lies inside, applies
/// it. The error, if any, comes back beside the result.
pub fn apply_index(pos: Pos, lhs: PinExprType, rhs: PinExprType, idents: &Interner) -> (r: (
    PinExprType,
    Option<Diagnostic>,
))
    requires
        index_applicable(lhs, rhs, idents.view()),
    ensures
        r.0 == spec_apply_index(lhs, rhs),
        r.1 is Some <==> (match rhs {
            PinExprType::Index(i) => index_out_of_bounds(lhs, i),
            PinExprType::Range(s, e) => range_rejected(lhs, s, e),
            _ => false,
        }),
        r.1 matches Some(d) ==> (match rhs {
            PinExprType::Index(i) => d.is_error_at(index_error_text(lhs, i, idents.view()), pos),
            PinExprType::Range(s, e) => d.is_error_at(range_error_text(lhs, s, e, idents.view()), pos),
            _ => false,
        }),
{
    let check = match rhs {
        PinExprType::Index(i) => pinexpr_bounds_check_index(pos, lhs, i, idents),
        PinExprType::Range(s, e) => pinexpr_bounds_check_range(pos, lhs, s, e, idents),
        _ => None,
    };
    match check {
        Some(d) => (PinExprType::Unknown, Some(d)),
        None => (index_pinexpr(lhs, rhs), None),
    }
}


/// The first bit of its pin that an expression selects.
pub open spec fn first_bit(p: PinExprType) -> int {
    match p.spec_slice() {
        Some((s, _)) => or_default(s, 0) as int,
        None => 0,
    }
}

/// Indexing bits with a bit selects that one bit of the same pin, counted
/// from the first bit already selected.
pub proof fn lemma_index_bit(lhs: PinExprType, i: usize)
    requires
        lhs.spec_pin() is Some,
        index_fits(lhs, PinExprType::Index(i)),
    ensures
        ({
            let r = spec_index_pinexpr(lhs, PinExprType::Index(i));
            &&& r.spec_pin() == lhs.spec_pin()
            &&& r.spec_slice() is Some
            &&& r.spec_width() == 1
            &&& first_bit(r) == first_bit(lhs) + i
        }),
{
}

/// Indexing bits with a range `s..e` selects `e - s` bits of the same pin,
/// starting `s` bits after the first bit already selected.
pub proof fn lemma_index_range(lhs: PinExprType, s: usize, e: usize)
    requires
        lhs.spec_pin() is Some,
        index_fits(lhs, PinExprType::Range(Some(s), Some(e))),
    ensures
        ({
            let r = spec_index_pinexpr(lhs, PinExprType::Range(Some(s), Some(e)));
            &&& r.spec_pin() == lhs.spec_pin()
            &&& r.spec_slice() is Some
            &&& r.spec_width() == e - s
            &&& first_bit(r) == first_bit(lhs) + s
        }),
{
}

/// Taking bit `i` of the slice `s..e` of a pin is taking bit `s + i` of the pin.
pub proof fn lemma_index_of_slice(pin_id: PinId, pin: Pin, s: usize, e: usize, i: usize)
    requires
        s + i + 1 <= usize::MAX,
        e <= usize::MAX,
    ensures
        spec_index_pinexpr(
            spec_index_pinexpr((PinExprType::Pin { pin_id, pin }), PinExprType::Range(Some(s), Some(e))),
            PinExprType::Index(i),
        ) == spec_index_pinexpr((PinExprType::Pin { pin_id, pin }), PinExprType::Index((s + i) as usize)),
{
}

/// Indexing an array of dependencies picks the dependency at that place.
pub proof fn lemma_index_array(name: IdentId, circ_id: CircId, len: usize, i: usize)
    ensures
        spec_index_pinexpr((PinExprType::DependencyArray { name, circ_id, len }), PinExprType::Index(i))
            == (PinExprType::Dependency { name, circ_id, index: Some(i) }),
{
}

/// A bit index is out of bounds exactly when it is not below the number of
/// bits (or dependencies) selected.
pub proof fn lemma_index_bounds(lhs: PinExprType, i: usize)
    ensures
        lhs is DependencyArray ==> (index_out_of_bounds(lhs, i) <==> i >= lhs->DependencyArray_len),
        lhs.spec_pin() is Some ==> (index_out_of_bounds(lhs, i) <==> i >= lhs.spec_width()),
{
}

/// A range taken from a pin or slice is refused exactly when, counted from
/// its first bit, it ends before it starts or ends past its last bit.
pub proof fn lemma_range_bounds(lhs: PinExprType, s: usize, e: usize)
    requires
        lhs.spec_pin() is Some,
    ensures
        range_rejected(lhs, Some(s), Some(e)) <==> !(s <= e && e <= lhs.spec_width()),
        range_rejected(lhs, Some(s), None) <==> !(s <= lhs.spec_width()),
        range_rejected(lhs, None, None) <==> lhs.spec_width() < 0,
{
}

} // verus!
