//! Locals of a circuit: its pins, its dependencies and arrays of them, and
//! the parts of them a pin expression selects.
use vstd::prelude::*;

use std::rc::Rc;

use super::pins::CircId;
use super::scope::LocalSymbol;
use crate::ast::PinDirection;
use crate::tokeniser::IdentId;

verus! {

/// The type of a local.
#[derive(Debug, Clone, Copy, Eq, PartialEq, Structural)]
pub enum LocalType {
    Unknown,
    Pin { direction: PinDirection, width: usize },
    Circ(CircId),
    Array(CircId, usize),
    Identifier,
}

impl LocalType {
    pub fn is_unknown(&self) -> (r: bool)
        ensures
            r == (*self is Unknown),
    {
        match self {
            LocalType::Unknown => true,
            _ => false,
        }
    }

    pub fn is_pin(&self) -> (r: bool)
        ensures
            r == (*self is Pin),
    {
        match self {
            LocalType::Pin { .. } => true,
            _ => false,
        }
    }

    pub fn is_circ(&self) -> (r: bool)
        ensures
            r == (*self is Circ),
    {
        match self {
            LocalType::Circ(_) => true,
            _ => false,
        }
    }

    pub fn is_array(&self) -> (r: bool)
        ensures
            r == (*self is Array),
    {
        match self {
            LocalType::Array(_, _) => true,
            _ => false,
        }
    }

    /// An array of `length` of the circuit this local is.
    pub fn as_array(&self, length: usize) -> (r: Self)
        requires
            *self is Circ,
        ensures
            r == LocalType::Array(self->Circ_0, length),
    {
        match self {
            LocalType::Circ(id) => LocalType::Array(*id, length),
            _ => LocalType::Unknown,
        }
    }
}

/// What a local is, with the identifier of an identifier local.
#[derive(Debug, Clone, Copy, Eq, PartialEq, Structural)]
pub enum LocalValue {
    Unknown,
    Pin(PinDirection, usize),
    Circ(CircId),
    Array(CircId, usize),
    Identifier(IdentId),
}

/// The distance between two numbers.
pub open spec fn distance(a: usize, b: usize) -> usize {
    if a > b {
        (a - b) as usize
    } else {
        (b - a) as usize
    }
}

fn difference(a: usize, b: usize) -> (r: usize)
    ensures
        r == distance(a, b),
{
    if a > b {
        a - b
    } else {
        b - a
    }
}

/// A local, or a part of one: the local it is part of, the bits or member
/// it selects, and its name.
#[derive(Debug)]
pub struct Local {
    pub ty: LocalType,
    pub parent: Option<Rc<Local>>,
    pub range: Option<(usize, usize)>,
    pub name: Option<IdentId>,
}

impl Local {
    /// A local whose type could not be worked out.
    pub fn unknown() -> (r: Self)
        ensures
            r.ty == LocalType::Unknown,
            r.parent is None,
            r.range is None,
            r.name is None,
    {
        Local { ty: LocalType::Unknown, parent: None, range: None, name: None }
    }

    pub fn pin(direction: PinDirection, width: usize, name: IdentId) -> (r: Self)
        ensures
            r.ty == (LocalType::Pin { direction, width }),
            r.parent is None,
            r.range is None,
            r.name == Some(name),
    {
        Local { ty: LocalType::Pin { direction, width }, parent: None, range: None, name: Some(name) }
    }

    pub fn circ(id: CircId, name: IdentId) -> (r: Self)
        ensures
            r.ty == LocalType::Circ(id),
            r.parent is None,
            r.range is None,
            r.name == Some(name),
    {
        Local { ty: LocalType::Circ(id), parent: None, range: None, name: Some(name) }
    }

    pub fn array(id: CircId, length: usize, name: IdentId) -> (r: Self)
        ensures
            r.ty == LocalType::Array(id, length),
            r.parent is None,
            r.range is None,
            r.name == Some(name),
    {
        Local { ty: LocalType::Array(id, length), parent: None, range: None, name: Some(name) }
    }

    pub fn identifier(name: IdentId) -> (r: Self)
        ensures
            r.ty == LocalType::Identifier,
            r.parent is None,
            r.range is None,
            r.name == Some(name),
    {
        Local { ty: LocalType::Identifier, parent: None, range: None, name: Some(name) }
    }

    /// What the local is; an identifier local must have a name.
    pub fn as_enum(&self) -> (r: LocalValue)
        requires
            self.ty is Identifier ==> self.name is Some,
        ensures
            r == (match self.ty {
                LocalType::Unknown => LocalValue::Unknown,
                LocalType::Pin { direction, width } => LocalValue::Pin(direction, width),
                LocalType::Circ(id) => LocalValue::Circ(id),
                LocalType::Array(id, length) => LocalValue::Array(id, length),
                LocalType::Identifier => LocalValue::Identifier(self.name->0),
            }),
    {
        match self.ty {
            LocalType::Unknown => LocalValue::Unknown,
            LocalType::Pin { direction, width } => LocalValue::Pin(direction, width),
            LocalType::Circ(id) => LocalValue::Circ(id),
            LocalType::Array(id, length) => LocalValue::Array(id, length),
            LocalType::Identifier => LocalValue::Identifier(self.name()),
        }
    }

    pub fn rc(self) -> (r: Rc<Self>)
        ensures
            *r == self,
    {
        Rc::new(self)
    }

    pub fn get_type(&self) -> (r: LocalType)
        ensures
            r == self.ty,
    {
        self.ty
    }

    /// Member `index` of an array, or bit `index` of a pin.
    pub fn get_index(this: &Rc<Self>, index: usize) -> (r: Self)
        requires
            this.ty is Array || this.ty is Pin,
        ensures
            r.parent == Some(*this),
            r.range == Some((index, index)),
            r.name is None,
            this.ty matches LocalType::Array(id, _) ==> r.ty == LocalType::Circ(id),
            this.ty matches LocalType::Pin { direction, .. } ==> r.ty == (LocalType::Pin { direction, width: 1 }),
    {
        let ty = match this.ty {
            LocalType::Array(circ_id, _) => LocalType::Circ(circ_id),
            LocalType::Pin { direction, .. } => LocalType::Pin { direction, width: 1 },
            _ => LocalType::Unknown,
        };
        Local { ty, parent: Some(Rc::clone(this)), range: Some((index, index)), name: None }
    }

    /// The bits `start..end` of a pin, as wide as the distance between the ends.
    pub fn get_range(this: &Rc<Self>, start: usize, end: usize) -> (r: Self)
        requires
            this.ty is Pin,
        ensures
            r.parent == Some(*this),
            r.range == Some((start, end)),
            r.name is None,
            r.ty == (LocalType::Pin { direction: this.ty->Pin_direction, width: distance(start, end) }),
    {
        let direction = match this.ty {
            LocalType::Pin { direction, .. } => direction,
            _ => PinDirection::Input,
        };
        Local {
            ty: LocalType::Pin { direction, width: difference(start, end) },
            parent: Some(Rc::clone(this)),
            range: Some((start, end)),
            name: None,
        }
    }

    /// The name of a named local.
    pub fn name(&self) -> (r: IdentId)
        requires
            self.name is Some,
        ensures
            r == self.name->0,
    {
        match self.name {
            Some(n) => n,
            None => 0,
        }
    }

    /// Pin `name` of a dependency.
    pub fn get_child(this: &Rc<Self>, name: IdentId, direction: PinDirection, width: usize) -> (r: Self)
        requires
            this.ty is Circ,
        ensures
            r.parent == Some(*this),
            r.range is None,
            r.name == Some(name),
            r.ty == (LocalType::Pin { direction, width }),
    {
        Local { ty: LocalType::Pin { direction, width }, parent: Some(Rc::clone(this)), range: None, name: Some(name) }
    }

    /// The local a symbol of a scope declares; identifiers are never declared.
    pub fn from_symbol(symbol: &LocalSymbol) -> (r: Self)
        requires
            !(symbol.ty is Identifier),
        ensures
            r.ty == symbol.ty,
            r.parent is None,
            r.range is None,
            symbol.ty is Unknown ==> r.name is None,
            !(symbol.ty is Unknown) ==> r.name == Some(symbol.name),
    {
        match symbol.ty {
            LocalType::Pin { direction, width } => Self::pin(direction, width, symbol.name),
            LocalType::Circ(id) => Self::circ(id, symbol.name),
            LocalType::Array(id, length) => Self::array(id, length, symbol.name),
            _ => Self::unknown(),
        }
    }
}

} // verus!
