//! Circuits as the analyser produces them.
use vstd::prelude::*;

use super::constexpr::ConstValue;
use super::pins::{CircId, Connection, Pin};
use crate::extlib;
use crate::tokeniser::IdentId;
use crate::util::{ModuleId, OrderedMap};

verus! {

/// A circuit and the arguments it was instantiated with.
#[derive(Debug)]
pub struct CircSignature {
    pub module_id: ModuleId,
    pub name: IdentId,
    pub args: Vec<ConstValue>,
}

/// The value a library is handed for a constant argument: booleans and
/// integers are tagged as such.
pub open spec fn library_arg(v: ConstValue) -> extlib::ConstValue {
    match v {
        ConstValue::Bool(b) => extlib::ConstValue { t: extlib::ConstValueType::Bool, v: extlib::ConstValueInner::Bool(b) },
        ConstValue::Int(i) => extlib::ConstValue { t: extlib::ConstValueType::Int, v: extlib::ConstValueInner::Int(i) },
        _ => extlib::ConstValue { t: extlib::ConstValueType::NoValue, v: extlib::ConstValueInner::NoValue },
    }
}

impl CircSignature {
    /// The arguments as a library is handed them. Only booleans and integers
    /// can be handed over.
    pub fn get_library_circ_args(&self) -> (r: Vec<extlib::ConstValue>)
        requires
            forall|i: int| 0 <= i < self.args@.len() ==> (#[trigger] self.args@[i] is Bool) || self.args@[i] is Int,
        ensures
            r@.len() == self.args@.len(),
            forall|i: int| 0 <= i < r@.len() ==> #[trigger] r@[i] == library_arg(self.args@[i]),
            forall|i: int| 0 <= i < r@.len() ==> (#[trigger] r@[i]).wf(),
    {
        let mut r: Vec<extlib::ConstValue> = Vec::new();
        let n = self.args.len();
        let mut i: usize = 0;
        while i < n
            invariant
                n == self.args@.len(),
                i <= n,
                r@.len() == i,
                forall|k: int| 0 <= k < n ==> (#[trigger] self.args@[k] is Bool) || self.args@[k] is Int,
                forall|k: int| 0 <= k < i ==> #[trigger] r@[k] == library_arg(self.args@[k]),
                forall|k: int| 0 <= k < i ==> (#[trigger] r@[k]).wf(),
            decreases n - i,
        {
            let v = match self.args[i] {
                ConstValue::Bool(b) => extlib::ConstValue::from_bool(b),
                ConstValue::Int(x) => extlib::ConstValue::from_int(x),
                _ => extlib::ConstValue::none(),
            };
            r.push(v);
            i = i + 1;
        }
        r
    }
}

/// A circuit defined in a module: its dependencies, pins and connections.
#[derive(Debug)]
pub struct ModuleCirc {
    pub dependencies: Vec<CircId>,
    pub pins: OrderedMap<IdentId, Pin>,
    pub connections: Vec<Connection>,
}

/// A circuit a library provides.
#[derive(Debug)]
pub struct LibraryCirc {
    pub mem_size: usize,
    pub pins: OrderedMap<IdentId, Pin>,
    pub circ_index: usize,
    pub signature: CircSignature,
}

/// A circuit of either kind.
#[derive(Debug)]
pub enum Circ {
    ModuleCirc(ModuleCirc),
    LibraryCirc(LibraryCirc),
}

impl Circ {
    pub open spec fn spec_pins(&self) -> OrderedMap<IdentId, Pin> {
        match self {
            Circ::ModuleCirc(c) => c.pins,
            Circ::LibraryCirc(c) => c.pins,
        }
    }

    /// The pins of the circuit by name, numbered in order of declaration.
    pub fn pins(&self) -> (r: &OrderedMap<IdentId, Pin>)
        ensures
            *r == self.spec_pins(),
    {
        match self {
            Circ::ModuleCirc(c) => &c.pins,
            Circ::LibraryCirc(c) => &c.pins,
        }
    }
}

/// A constant set when the compiler is run.
#[derive(Debug, Clone, Copy, PartialEq, Eq, Structural)]
pub enum BuildConst {
    Bool(bool),
    Int(isize),
}

impl BuildConst {
    /// The constant value a build constant stands for.
    pub fn into_const_value(self) -> (r: ConstValue)
        ensures
            self matches BuildConst::Bool(b) ==> r == ConstValue::Bool(b),
            self matches BuildConst::Int(i) ==> r == ConstValue::Int(i),
    {
        match self {
            BuildConst::Bool(v) => ConstValue::Bool(v),
            BuildConst::Int(v) => ConstValue::Int(v),
        }
    }
}

} // verus!
