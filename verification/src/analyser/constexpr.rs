use vstd::prelude::*;

use crate::extlib::ExtractedConst;
use crate::tokeniser::IdentId;
use crate::util::ModuleId;

verus! {

/// The type of a constant. `Unknown` stands for a type that could not be
/// worked out, and compares equal to every type.
#[derive(Debug, Clone, Copy, Hash)]
pub enum ConstType {
    Unknown,
    Int,
    Bool,
    Enum { module_id: ModuleId, enum_name: IdentId },
    Range,
}

impl ConstType {
    pub fn is_known(&self) -> (r: bool)
        ensures
            r == !(*self is Unknown),
    {
        !self.is_unknown()
    }

    pub fn is_unknown(&self) -> (r: bool)
        ensures
            r == (*self is Unknown),
    {
        match self {
            ConstType::Unknown => true,
            _ => false,
        }
    }

    pub open spec fn spec_display_name(self) -> Seq<char> {
        match self {
            ConstType::Unknown => "unknown"@,
            ConstType::Int => "int"@,
            ConstType::Bool => "bool"@,
            ConstType::Enum { .. } => "enum"@,
            ConstType::Range => "range"@,
        }
    }

    /// The name of the type in messages.
    pub fn display_name(&self) -> (r: &'static str)
        ensures
            r@ == self.spec_display_name(),
    {
        match self {
            ConstType::Unknown => "unknown",
            ConstType::Int => "int",
            ConstType::Bool => "bool",
            ConstType::Enum { .. } => "enum",
            ConstType::Range => "range",
        }
    }

    /// Whether two types agree: an unknown type agrees with every type, and
    /// two enum types agree when they name the same enum.
    pub open spec fn agrees(self, other: ConstType) -> bool {
        match (self, other) {
            (ConstType::Unknown, _) => true,
            (_, ConstType::Unknown) => true,
            (ConstType::Int, ConstType::Int) => true,
            (ConstType::Bool, ConstType::Bool) => true,
            (ConstType::Range, ConstType::Range) => true,
            (ConstType::Enum { module_id: m1, enum_name: n1 }, ConstType::Enum { module_id: m2, enum_name: n2 }) => m1
                == m2 && n1 == n2,
            _ => false,
        }
    }
}

impl PartialEq for ConstType {
    fn eq(&self, other: &Self) -> (r: bool) {
        match (self, other) {
            (ConstType::Unknown, _) => true,
            (_, ConstType::Unknown) => true,
            (ConstType::Int, ConstType::Int) => true,
            (ConstType::Bool, ConstType::Bool) => true,
            (ConstType::Range, ConstType::Range) => true,
            (ConstType::Enum { module_id: m1, enum_name: n1 }, ConstType::Enum { module_id: m2, enum_name: n2 }) => *m1
                == *m2 && *n1 == *n2,
            _ => false,
        }
    }
}

impl vstd::std_specs::cmp::PartialEqSpecImpl for ConstType {
    open spec fn obeys_eq_spec() -> bool {
        true
    }

    open spec fn eq_spec(&self, other: &ConstType) -> bool {
        self.agrees(*other)
    }
}

impl Eq for ConstType {

}

/// The value of a constant.
#[derive(Debug, Eq, PartialEq, Copy, Clone, Hash, Structural)]
pub enum ConstValue {
    Unknown,
    Int(isize),
    Bool(bool),
    Enum { module_id: ModuleId, enum_name: IdentId, variant: IdentId },
    Range(Option<isize>, Option<isize>),
}

impl ConstValue {
    pub open spec fn spec_get_type(self) -> ConstType {
        match self {
            ConstValue::Unknown => ConstType::Unknown,
            ConstValue::Int(_) => ConstType::Int,
            ConstValue::Bool(_) => ConstType::Bool,
            ConstValue::Enum { module_id, enum_name, .. } => ConstType::Enum { module_id, enum_name },
            ConstValue::Range(_, _) => ConstType::Range,
        }
    }

    pub fn get_type(&self) -> (t: ConstType)
        ensures
            t == self.spec_get_type(),
    {
        match self {
            ConstValue::Unknown => ConstType::Unknown,
            ConstValue::Int(_) => ConstType::Int,
            ConstValue::Bool(_) => ConstType::Bool,
            ConstValue::Enum { module_id, enum_name, .. } => ConstType::Enum {
                module_id: *module_id,
                enum_name: *enum_name,
            },
            ConstValue::Range(_, _) => ConstType::Range,
        }
    }

    pub fn is_unknown(&self) -> (r: bool)
        ensures
            r == (*self is Unknown),
    {
        match self {
            ConstValue::Unknown => true,
            _ => false,
        }
    }

    pub fn is_known(&self) -> (r: bool)
        ensures
            r == !(*self is Unknown),
    {
        !self.is_unknown()
    }

    /// The value of a constant read back from a library; `None` where the
    /// library gave none. Enum values are not read.
    pub fn from_extracted_const(value: &ExtractedConst) -> (r: Option<Self>)
        requires
            !(*value is EnumValue),
        ensures
            *value is NoValue ==> r is None,
            *value matches ExtractedConst::Bool(b) ==> r == Some(ConstValue::Bool(b)),
            *value matches ExtractedConst::Int(i) ==> r == Some(ConstValue::Int(i)),
    {
        match value {
            ExtractedConst::NoValue => None,
            ExtractedConst::Bool(b) => Some(ConstValue::Bool(*b)),
            ExtractedConst::Int(i) => Some(ConstValue::Int(*i)),
            ExtractedConst::EnumValue(_) => None,
        }
    }
}

/// The boolean `true`.
pub fn const_true() -> (r: ConstValue)
    ensures
        r == ConstValue::Bool(true),
{
    ConstValue::Bool(true)
}

/// The boolean `false`.
pub fn const_false() -> (r: ConstValue)
    ensures
        r == ConstValue::Bool(false),
{
    ConstValue::Bool(false)
}

} // verus!
