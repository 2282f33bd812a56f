//! Building connections from pin expressions, checked for direction and width.
use vstd::prelude::*;

use super::circ::{Circ, ModuleCirc};
use super::pins::{
    CircId, Connection, ConnectionEndpoint, ConnectionRange, ConnectionType, Pin, PinExprType, PinId, or_default,
};
use crate::ast::PinDirection;
use crate::tokeniser::IdentId;
use crate::util::ordered_map::{concrete_eq, lemma_keys_distinct};
use crate::util::OrderedMap;

verus! {

/// An endpoint once all its parts are known.
#[derive(Debug, Clone, Copy, PartialEq, Eq, Structural)]
pub enum ConnectionEndpointBuilder {
    Pin { pin_id: PinId, range: ConnectionRange },
    Dependency { dependency_name: IdentId, index: usize, pin_id: PinId, range: ConnectionRange },
}

/// Whether an endpoint names a pin of the circuit itself or of a dependency.
#[derive(Debug, PartialEq, Eq, Clone, Copy, Structural)]
pub enum EndpointBuilderType {
    Unset,
    Pin,
    Dependency,
}

/// The parts of an endpoint, set one at a time.
#[derive(Debug, Clone, Copy, PartialEq, Eq, Structural)]
pub struct EndpointBuilder {
    pub t: EndpointBuilderType,
    pub pin: Option<PinId>,
    pub dependency_name: Option<IdentId>,
    pub index: Option<usize>,
    pub range: Option<ConnectionRange>,
}

impl EndpointBuilder {
    pub fn new() -> (b: Self)
        ensures
            b == (EndpointBuilder { t: EndpointBuilderType::Unset, pin: None, dependency_name: None, index: None, range: None }),
    {
        EndpointBuilder { t: EndpointBuilderType::Unset, pin: None, dependency_name: None, index: None, range: None }
    }

    /// Sets the pin; an endpoint not yet known to be of a dependency becomes one of the circuit itself.
    pub fn pin_id(self, pin: PinId) -> (b: Self)
        ensures
            b == (EndpointBuilder {
                t: if self.t == EndpointBuilderType::Unset {
                    EndpointBuilderType::Pin
                } else {
                    self.t
                },
                pin: Some(pin),
                ..self
            }),
    {
        let t = if self.t == EndpointBuilderType::Unset {
            EndpointBuilderType::Pin
        } else {
            self.t
        };
        EndpointBuilder { t, pin: Some(pin), ..self }
    }

    /// Makes the endpoint one of a dependency: member `index` of the array named `array_name`.
    pub fn dependency(self, array_name: IdentId, index: Option<usize>) -> (b: Self)
        ensures
            b == (EndpointBuilder {
                t: EndpointBuilderType::Dependency,
                dependency_name: Some(array_name),
                index,
                ..self
            }),
    {
        EndpointBuilder { t: EndpointBuilderType::Dependency, dependency_name: Some(array_name), index, ..self }
    }

    pub fn range(self, start: usize, end: usize) -> (b: Self)
        ensures
            b == (EndpointBuilder { range: Some(ConnectionRange { start, end }), ..self }),
    {
        EndpointBuilder { range: Some(ConnectionRange { start, end }), ..self }
    }

    /// All the parts the kind of endpoint needs are set.
    pub open spec fn complete(self) -> bool {
        match self.t {
            EndpointBuilderType::Unset => false,
            EndpointBuilderType::Pin => self.pin is Some && self.range is Some,
            EndpointBuilderType::Dependency => self.dependency_name is Some && self.pin is Some && self.range is Some,
        }
    }

    pub open spec fn spec_build(self) -> ConnectionEndpointBuilder {
        match self.t {
            EndpointBuilderType::Dependency => ConnectionEndpointBuilder::Dependency {
                dependency_name: self.dependency_name->0,
                index: or_default(self.index, 0),
                pin_id: self.pin->0,
                range: self.range->0,
            },
            _ => ConnectionEndpointBuilder::Pin { pin_id: self.pin->0, range: self.range->0 },
        }
    }

    /// The endpoint; a dependency with no index is member `0` of its array.
    pub fn build(self) -> (r: ConnectionEndpointBuilder)
        requires
            self.complete(),
        ensures
            r == self.spec_build(),
    {
        match (self.t, self.pin, self.range, self.dependency_name) {
            (EndpointBuilderType::Dependency, Some(pin_id), Some(range), Some(dependency_name)) => {
                let index = match self.index {
                    Some(i) => i,
                    None => 0,
                };
                ConnectionEndpointBuilder::Dependency { dependency_name, index, pin_id, range }
            },
            (_, Some(pin_id), Some(range), _) => ConnectionEndpointBuilder::Pin { pin_id, range },
            _ => ConnectionEndpointBuilder::Pin { pin_id: 0, range: ConnectionRange { start: 0, end: 0 } },
        }
    }
}

/// Which ends of a connection are pins of dependencies.
#[derive(Debug, Clone, Copy, PartialEq, Eq, Structural)]
pub enum ConnType {
    PinToPin,
    PinToDep,
    DepToPin,
    DepToDep,
}

/// Why two pin expressions cannot be connected.
#[derive(Debug, Clone, Copy, PartialEq, Eq, Structural)]
pub enum CannotConnectReason {
    Unknown,
    WidthMismatch(usize, usize),
    DirectionMismatch { conn_type: ConnType, lhs: PinDirection, rhs: PinDirection },
    InvalidEndpoint { lhs: bool, rhs: bool },
}

/// Which ends of a connection between `lhs` and `rhs` are pins of dependencies.
pub open spec fn spec_conn_type(lhs: PinExprType, rhs: PinExprType) -> ConnType {
    let l = lhs is DependencyPin || lhs is DependencyPinRange;
    let r = rhs is DependencyPin || rhs is DependencyPinRange;
    if !l && !r {
        ConnType::PinToPin
    } else if !l && r {
        ConnType::PinToDep
    } else if l && !r {
        ConnType::DepToPin
    } else {
        ConnType::DepToDep
    }
}

/// Whether values may flow between pins of these directions: from an input
/// of the circuit to its output, from a dependency's output to another
/// dependency's input, from an input of the circuit into a dependency's
/// input, from a dependency's output to an output of the circuit, and
/// anything to or from a transput.
pub open spec fn directions_allowed(conn_type: ConnType, lhs: PinDirection, rhs: PinDirection) -> bool {
    ||| conn_type == ConnType::PinToPin && lhs == PinDirection::Input && rhs == PinDirection::Output
    ||| conn_type == ConnType::DepToDep && lhs == PinDirection::Output && rhs == PinDirection::Input
    ||| conn_type == ConnType::PinToDep && lhs == PinDirection::Input && rhs == PinDirection::Input
    ||| conn_type == ConnType::DepToPin && lhs == PinDirection::Output && rhs == PinDirection::Output
    ||| lhs == PinDirection::Transput
    ||| rhs == PinDirection::Transput
}

/// Whether `lhs` can be connected to `rhs`, and if not, why not.
pub open spec fn spec_connect(lhs: PinExprType, rhs: PinExprType) -> Result<(), CannotConnectReason> {
    if lhs is Unknown || rhs is Unknown {
        Err(CannotConnectReason::Unknown)
    } else if lhs.spec_pin() is None || rhs.spec_pin() is None {
        Err(CannotConnectReason::InvalidEndpoint { lhs: lhs.spec_pin() is Some, rhs: rhs.spec_pin() is Some })
    } else if !directions_allowed(
        spec_conn_type(lhs, rhs),
        lhs.spec_pin()->0.direction,
        rhs.spec_pin()->0.direction,
    ) {
        Err(
            CannotConnectReason::DirectionMismatch {
                conn_type: spec_conn_type(lhs, rhs),
                lhs: lhs.spec_pin()->0.direction,
                rhs: rhs.spec_pin()->0.direction,
            },
        )
    } else if lhs.spec_width() != rhs.spec_width() {
        Err(CannotConnectReason::WidthMismatch(lhs.spec_width() as usize, rhs.spec_width() as usize))
    } else {
        Ok(())
    }
}

/// The endpoint a pin expression stands for.
pub open spec fn spec_get_endpoint(endpoint: PinExprType) -> EndpointBuilder {
    let b = EndpointBuilder {
        t: EndpointBuilderType::Unset,
        pin: None,
        dependency_name: None,
        index: None,
        range: None,
    };
    match endpoint {
        PinExprType::Pin { pin_id, pin } => b.spec_pin_id(pin_id).spec_range(0, pin.width),
        PinExprType::PinRange { pin_id, pin, start, end } => b.spec_pin_id(pin_id).spec_range(
            or_default(start, 0),
            or_default(end, pin.width),
        ),
        PinExprType::DependencyPin { name, index, pin_id, pin, .. } => b.spec_dependency(name, index).spec_pin_id(
            pin_id,
        ).spec_range(0, pin.width),
        PinExprType::DependencyPinRange { name, index, pin_id, pin, start, end, .. } => b.spec_dependency(
            name,
            index,
        ).spec_pin_id(pin_id).spec_range(or_default(start, 0), or_default(end, pin.width)),
        _ => b,
    }
}

impl EndpointBuilder {
    pub open spec fn spec_pin_id(self, pin: PinId) -> Self {
        EndpointBuilder {
            t: if self.t == EndpointBuilderType::Unset {
                EndpointBuilderType::Pin
            } else {
                self.t
            },
            pin: Some(pin),
            ..self
        }
    }

    pub open spec fn spec_dependency(self, array_name: IdentId, index: Option<usize>) -> Self {
        EndpointBuilder { t: EndpointBuilderType::Dependency, dependency_name: Some(array_name), index, ..self }
    }

    pub open spec fn spec_range(self, start: usize, end: usize) -> Self {
        EndpointBuilder { range: Some(ConnectionRange { start, end }), ..self }
    }
}

/// A connection being built: its width, ends and kind.
#[derive(Debug, Clone, Copy)]
pub struct ConnectionBuilder {
    pub width: Option<usize>,
    pub source: EndpointBuilder,
    pub dest: EndpointBuilder,
    pub connection_type: Option<ConnectionType>,
}

impl ConnectionBuilder {
    pub fn new() -> (b: Self)
        ensures
            b.width is None,
            b.source == EndpointBuilder::new_spec(),
            b.dest == EndpointBuilder::new_spec(),
            b.connection_type is None,
    {
        ConnectionBuilder {
            width: None,
            source: EndpointBuilder::new(),
            dest: EndpointBuilder::new(),
            connection_type: None,
        }
    }

    pub fn unidirectional(self) -> (b: Self)
        ensures
            b.connection_type == Some(ConnectionType::Unidirectional),
            b.width == self.width,
            b.source == self.source,
            b.dest == self.dest,
    {
        ConnectionBuilder { connection_type: Some(ConnectionType::Unidirectional), ..self }
    }

    pub fn bidirectional(self) -> (b: Self)
        ensures
            b.connection_type == Some(ConnectionType::Bidirectional),
            b.width == self.width,
            b.source == self.source,
            b.dest == self.dest,
    {
        ConnectionBuilder { connection_type: Some(ConnectionType::Bidirectional), ..self }
    }

    /// The endpoint a pin expression stands for.
    pub fn get_endpoint(endpoint: PinExprType) -> (b: EndpointBuilder)
        ensures
            b == spec_get_endpoint(endpoint),
    {
        let builder = EndpointBuilder::new();
        match endpoint {
            PinExprType::Pin { pin_id, pin } => builder.pin_id(pin_id).range(0, pin.width),
            PinExprType::PinRange { pin_id, pin, start, end } => {
                let s = match start {
                    Some(v) => v,
                    None => 0,
                };
                let e = match end {
                    Some(v) => v,
                    None => pin.width,
                };
                builder.pin_id(pin_id).range(s, e)
            },
            PinExprType::DependencyPin { name, index, pin_id, pin, .. } => builder.dependency(name, index).pin_id(
                pin_id,
            ).range(0, pin.width),
            PinExprType::DependencyPinRange { name, index, pin_id, pin, start, end, .. } => {
                let s = match start {
                    Some(v) => v,
                    None => 0,
                };
                let e = match end {
                    Some(v) => v,
                    None => pin.width,
                };
                builder.dependency(name, index).pin_id(pin_id).range(s, e)
            },
            _ => builder,
        }
    }

    /// Connects `lhs` to `rhs` when their kinds, directions and widths allow:
    /// the connection then takes their width and ends. Otherwise nothing changes.
    pub fn connect(&mut self, lhs: PinExprType, rhs: PinExprType) -> (r: Result<(), CannotConnectReason>)
        requires
            lhs.spec_pin() is Some ==> lhs.spec_width() >= 0,
            rhs.spec_pin() is Some ==> rhs.spec_width() >= 0,
        ensures
            r == spec_connect(lhs, rhs),
            r is Ok ==> {
                &&& final(self).width == Some(lhs.spec_width() as usize)
                &&& final(self).source == spec_get_endpoint(lhs)
                &&& final(self).dest == spec_get_endpoint(rhs)
                &&& final(self).connection_type == old(self).connection_type
            },
            r is Err ==> final(self).width == old(self).width && final(self).source == old(self).source
                && final(self).dest == old(self).dest && final(self).connection_type == old(
                self,
            ).connection_type,
    {
        if lhs.is_unknown() || rhs.is_unknown() {
            return Err(CannotConnectReason::Unknown);
        }
        let lhs_valid = lhs.is_valid_endpoint();
        let rhs_valid = rhs.is_valid_endpoint();
        if !lhs_valid || !rhs_valid {
            return Err(CannotConnectReason::InvalidEndpoint { lhs: lhs_valid, rhs: rhs_valid });
        }
        let conn_type = match (lhs.is_dependency_pin(), rhs.is_dependency_pin()) {
            (false, false) => ConnType::PinToPin,
            (false, true) => ConnType::PinToDep,
            (true, false) => ConnType::DepToPin,
            (true, true) => ConnType::DepToDep,
        };
        let lhs_dir = lhs.direction();
        let rhs_dir = rhs.direction();
        let allowed = match (conn_type, lhs_dir, rhs_dir) {
            (ConnType::PinToPin, PinDirection::Input, PinDirection::Output) => true,
            (ConnType::DepToDep, PinDirection::Output, PinDirection::Input) => true,
            (ConnType::PinToDep, PinDirection::Input, PinDirection::Input) => true,
            (ConnType::DepToPin, PinDirection::Output, PinDirection::Output) => true,
            (_, PinDirection::Transput, _) | (_, _, PinDirection::Transput) => true,
            _ => false,
        };
        if !allowed {
            return Err(CannotConnectReason::DirectionMismatch { conn_type, lhs: lhs_dir, rhs: rhs_dir });
        }
        let lhs_width = lhs.width();
        let rhs_width = rhs.width();
        if lhs_width != rhs_width {
            return Err(CannotConnectReason::WidthMismatch(lhs_width, rhs_width));
        }
        self.width = Some(lhs_width);
        self.source = Self::get_endpoint(lhs);
        self.dest = Self::get_endpoint(rhs);
        Ok(())
    }

    /// Whether the connection has both ends, a width and a kind.
    pub open spec fn complete(&self) -> bool {
        &&& self.width is Some
        &&& self.connection_type is Some
        &&& self.source.complete()
        &&& self.dest.complete()
    }

    /// The connection, with each dependency given its number: the number of
    /// the first member of its array plus the member's index.
    pub fn build(self, dependency_starts: &OrderedMap<IdentId, usize>) -> (c: Connection)
        requires
            self.complete(),
            concrete_eq::<IdentId>(),
            dependency_starts.wf(),
            endpoint_resolvable(self.source.spec_build(), dependency_starts),
            endpoint_resolvable(self.dest.spec_build(), dependency_starts),
        ensures
            c.width == self.width->0,
            c.connection_type == self.connection_type->0,
            endpoint_resolves(self.source.spec_build(), dependency_starts, c.source),
            endpoint_resolves(self.dest.spec_build(), dependency_starts, c.dest),
    {
        let source = build_endpoint(self.source.build(), dependency_starts);
        let dest = build_endpoint(self.dest.build(), dependency_starts);
        let width = match self.width {
            Some(w) => w,
            None => 0,
        };
        let connection_type = match self.connection_type {
            Some(t) => t,
            None => ConnectionType::Unidirectional,
        };
        Connection { source, dest, connection_type, width }
    }
}

impl EndpointBuilder {
    pub open spec fn new_spec() -> Self {
        EndpointBuilder { t: EndpointBuilderType::Unset, pin: None, dependency_name: None, index: None, range: None }
    }
}

/// The dependency an endpoint names has a number, and adding the member's index to it stays in range.
pub open spec fn endpoint_resolvable(e: ConnectionEndpointBuilder, starts: &OrderedMap<IdentId, usize>) -> bool {
    match e {
        ConnectionEndpointBuilder::Pin { .. } => true,
        ConnectionEndpointBuilder::Dependency { dependency_name, index, .. } => {
            &&& starts.key_seq().contains(dependency_name)
            &&& forall|i: int|
                0 <= i < starts.key_seq().len() && starts.key_seq()[i] == dependency_name ==> starts.value_seq()[i]
                    + index <= usize::MAX
        },
    }
}

/// `c` is the endpoint `e` with its dependency numbered through `starts`.
pub open spec fn endpoint_resolves(e: ConnectionEndpointBuilder, starts: &OrderedMap<IdentId, usize>, c: ConnectionEndpoint) -> bool {
    match e {
        ConnectionEndpointBuilder::Pin { pin_id, range } => c == ConnectionEndpoint::Pin { pin_id, range },
        ConnectionEndpointBuilder::Dependency { dependency_name, index, pin_id, range } => exists|i: int|
            0 <= i < starts.key_seq().len() && starts.key_seq()[i] == dependency_name && c
                == (ConnectionEndpoint::Dependency {
                dependency_id: (starts.value_seq()[i] + index) as usize,
                pin_id,
                range,
            }),
    }
}

/// The endpoint with its dependency numbered through `dependency_starts`.
pub fn build_endpoint(endpoint: ConnectionEndpointBuilder, dependency_starts: &OrderedMap<IdentId, usize>) -> (c:
    ConnectionEndpoint)
    requires
        concrete_eq::<IdentId>(),
        dependency_starts.wf(),
        endpoint_resolvable(endpoint, dependency_starts),
    ensures
        endpoint_resolves(endpoint, dependency_starts, c),
{
    match endpoint {
        ConnectionEndpointBuilder::Pin { pin_id, range } => ConnectionEndpoint::Pin { pin_id, range },
        ConnectionEndpointBuilder::Dependency { dependency_name, index, pin_id, range } => {
            match dependency_starts.get_entry(&dependency_name) {
                Some((i, start)) => ConnectionEndpoint::Dependency { dependency_id: *start + index, pin_id, range },
                None => ConnectionEndpoint::Pin { pin_id, range },
            }
        },
    }
}

/// The dependencies, pins and connections of a circuit being analysed.
#[derive(Debug)]
pub struct CircBuilder {
    dependencies: OrderedMap<IdentId, (CircId, Option<usize>)>,
    pins: OrderedMap<IdentId, Pin>,
    connections: Vec<ConnectionBuilder>,
}

impl CircBuilder {
    pub closed spec fn wf(&self) -> bool {
        self.dependencies.wf() && self.pins.wf()
    }

    /// The dependencies by name: a circuit and, for an array, its length.
    pub closed spec fn dependency_names(&self) -> Seq<IdentId> {
        self.dependencies.key_seq()
    }

    pub closed spec fn dependency_values(&self) -> Seq<(CircId, Option<usize>)> {
        self.dependencies.value_seq()
    }

    /// The pins by name, numbered in the order they were declared.
    pub closed spec fn pin_names(&self) -> Seq<IdentId> {
        self.pins.key_seq()
    }

    pub closed spec fn pin_values(&self) -> Seq<Pin> {
        self.pins.value_seq()
    }

    pub closed spec fn connection_count(&self) -> nat {
        self.connections@.len()
    }

    /// The connections added so far, in order.
    pub closed spec fn connection_seq(&self) -> Seq<ConnectionBuilder> {
        self.connections@
    }

    /// The pins, by name.
    pub closed spec fn pin_map(&self) -> OrderedMap<IdentId, Pin> {
        self.pins
    }

    /// The dependencies as entries of name, circuit and array length.
    pub open spec fn dependency_entries(&self) -> Seq<DependencyEntry> {
        Seq::new(self.dependency_names().len(), |k: int| (self.dependency_names()[k], self.dependency_values()[k]))
    }

    /// No pin or dependency is declared twice.
    pub proof fn lemma_pins_distinct(&self)
        requires
            self.wf(),
        ensures
            self.pin_names().no_duplicates(),
            self.pin_names().len() == self.pin_values().len(),
            self.dependency_names().no_duplicates(),
            self.dependency_names().len() == self.dependency_values().len(),
    {
        lemma_keys_distinct(self.pins);
        lemma_keys_distinct(self.dependencies);
    }

    pub fn new() -> (b: Self)
        ensures
            b.wf(),
            b.dependency_names() == Seq::<IdentId>::empty(),
            b.pin_names() == Seq::<IdentId>::empty(),
            b.connection_count() == 0,
    {
        CircBuilder { dependencies: OrderedMap::new(), pins: OrderedMap::new(), connections: Vec::new() }
    }

    /// Declares dependency `name`: circuit `circ_id`, or an array of `count` of them.
    pub fn dependency(&mut self, name: IdentId, circ_id: CircId, count: Option<usize>)
        requires
            old(self).wf(),
            concrete_eq::<IdentId>(),
        ensures
            final(self).wf(),
            final(self).dependency_names().contains(name),
            forall|i: int|
                0 <= i < final(self).dependency_names().len() && final(self).dependency_names()[i] == name
                    ==> final(self).dependency_values()[i] == (circ_id, count),
            forall|n: IdentId|
                n != name ==> (final(self).dependency_names().contains(n) <==> old(self).dependency_names().contains(n)),
            final(self).pin_names() == old(self).pin_names(),
            final(self).pin_values() == old(self).pin_values(),
            final(self).connection_count() == old(self).connection_count(),
    {
        let _ = self.dependencies.insert(name, (circ_id, count));
        proof {
            lemma_keys_distinct(self.dependencies);
            lemma_keys_distinct(old(self).dependencies);
        }
        assert forall|i: int|
            0 <= i < self.dependency_names().len() && self.dependency_names()[i] == name implies self.dependency_values()[i]
            == (circ_id, count) by {
            if old(self).dependency_names().contains(name) {
                let j = choose|j: int|
                    0 <= j < old(self).dependency_names().len() && old(self).dependency_names()[j] == name
                        && self.dependency_values() == old(self).dependency_values().update(j, (circ_id, count))
                        && self.dependency_names() == old(self).dependency_names();
                if i != j {
                    assert(self.dependency_names()[i] != self.dependency_names()[j]);
                }
            } else {
                assert(i == old(self).dependency_names().len()) by {
                    if i < old(self).dependency_names().len() {
                        assert(old(self).dependency_names()[i] == name);
                    }
                }
            }
        }
        assert forall|n: IdentId| n != name implies (self.dependency_names().contains(n) <==> old(
            self,
        ).dependency_names().contains(n)) by {
            if old(self).dependency_names().contains(n) {
                let k = choose|k: int| 0 <= k < old(self).dependency_names().len() && old(self).dependency_names()[k] == n;
                assert(self.dependency_names()[k] == n);
            }
            if self.dependency_names().contains(n) {
                let k = choose|k: int| 0 <= k < self.dependency_names().len() && self.dependency_names()[k] == n;
                if k < old(self).dependency_names().len() {
                    assert(old(self).dependency_names()[k] == n);
                }
            }
        }
        assert(self.dependency_names().contains(name)) by {
            if old(self).dependency_names().contains(name) {
                let k = choose|k: int| 0 <= k < old(self).dependency_names().len() && old(self).dependency_names()[k] == name;
                assert(self.dependency_names()[k] == name);
            } else {
                assert(self.dependency_names()[old(self).dependency_names().len() as int] == name);
            }
        }
    }

    /// The circuit and array length of dependency `name`, if it is declared.
    pub fn get_dependency(&self, name: IdentId) -> (r: Option<(CircId, Option<usize>)>)
        requires
            self.wf(),
            concrete_eq::<IdentId>(),
        ensures
            r is None <==> !self.dependency_names().contains(name),
            r matches Some(v) ==> forall|i: int|
                0 <= i < self.dependency_names().len() && self.dependency_names()[i] == name ==> v
                    == self.dependency_values()[i],
    {
        match self.dependencies.get(&name) {
            Some(v) => Some(*v),
            None => None,
        }
    }

    /// Declares pin `name`, or replaces the pin of that name.
    pub fn pin(&mut self, name: IdentId, pin: Pin)
        requires
            old(self).wf(),
            concrete_eq::<IdentId>(),
        ensures
            final(self).wf(),
            !old(self).pin_names().contains(name) ==> final(self).pin_names() == old(self).pin_names().push(name)
                && final(self).pin_values() == old(self).pin_values().push(pin),
            old(self).pin_names().contains(name) ==> final(self).pin_names() == old(self).pin_names() && exists|i: int|
                0 <= i < old(self).pin_names().len() && old(self).pin_names()[i] == name && final(self).pin_values()
                    == old(self).pin_values().update(i, pin),
            final(self).dependency_names() == old(self).dependency_names(),
            final(self).dependency_values() == old(self).dependency_values(),
            final(self).connection_count() == old(self).connection_count(),
    {
        let _ = self.pins.insert(name, pin);
    }

    /// The number and the pin named `name`, if there is one.
    pub fn get_pin(&self, name: IdentId) -> (r: Option<(PinId, Pin)>)
        requires
            self.wf(),
            concrete_eq::<IdentId>(),
        ensures
            r is None <==> !self.pin_names().contains(name),
            r matches Some(e) ==> e.0 < self.pin_names().len() && self.pin_names()[e.0 as int] == name && e.1
                == self.pin_values()[e.0 as int],
    {
        match self.pins.get_entry(&name) {
            Some((id, pin)) => Some((id, *pin)),
            None => None,
        }
    }

    pub fn add_connection(&mut self, connection: ConnectionBuilder)
        ensures
            final(self).connection_count() == old(self).connection_count() + 1,
            final(self).connection_seq() == old(self).connection_seq().push(connection),
            final(self).pin_map() == old(self).pin_map(),
            final(self).wf() == old(self).wf(),
            final(self).dependency_names() == old(self).dependency_names(),
            final(self).dependency_values() == old(self).dependency_values(),
            final(self).pin_names() == old(self).pin_names(),
            final(self).pin_values() == old(self).pin_values(),
    {
        self.connections.push(connection);
    }
}

/// A dependency: its name, its circuit and, for an array, its length.
pub type DependencyEntry = (IdentId, (CircId, Option<usize>));

/// `sorted` with `x` placed after every entry whose circuit does not come after x's.
pub open spec fn insert_by_circ(sorted: Seq<DependencyEntry>, x: DependencyEntry) -> Seq<DependencyEntry>
    decreases sorted.len(),
{
    if sorted.len() == 0 {
        seq![x]
    } else if sorted.last().1.0 <= x.1.0 {
        sorted.push(x)
    } else {
        insert_by_circ(sorted.drop_last(), x).push(sorted.last())
    }
}

/// The entries sorted by circuit, entries of one circuit kept in order.
pub open spec fn sort_by_circ(s: Seq<DependencyEntry>) -> Seq<DependencyEntry>
    decreases s.len(),
{
    if s.len() == 0 {
        Seq::empty()
    } else {
        insert_by_circ(sort_by_circ(s.drop_last()), s.last())
    }
}

/// The number of instances of a dependency.
pub open spec fn copies(count: Option<usize>) -> nat {
    match count {
        Some(c) => c as nat,
        None => 1,
    }
}

/// The circuit of each instance of each dependency, in order.
pub open spec fn flatten(deps: Seq<DependencyEntry>) -> Seq<CircId>
    decreases deps.len(),
{
    if deps.len() == 0 {
        Seq::empty()
    } else {
        flatten(deps.drop_last()) + Seq::new(copies(deps.last().1.1), |i: int| deps.last().1.0)
    }
}

/// Each dependency with at least one instance, with the number of its first instance.
pub open spec fn start_entries(deps: Seq<DependencyEntry>) -> Seq<(IdentId, usize)>
    decreases deps.len(),
{
    if deps.len() == 0 {
        Seq::empty()
    } else if copies(deps.last().1.1) > 0 {
        start_entries(deps.drop_last()).push((deps.last().0, flatten(deps.drop_last()).len() as usize))
    } else {
        start_entries(deps.drop_last())
    }
}

/// The connections that have a width.
pub open spec fn with_width(cs: Seq<ConnectionBuilder>) -> Seq<ConnectionBuilder>
    decreases cs.len(),
{
    if cs.len() == 0 {
        Seq::empty()
    } else if cs.last().width is Some {
        with_width(cs.drop_last()).push(cs.last())
    } else {
        with_width(cs.drop_last())
    }
}

/// The numbers of the dependencies in `starts` make the endpoint resolvable.
pub open spec fn resolvable_in(e: ConnectionEndpointBuilder, starts: Seq<(IdentId, usize)>) -> bool {
    match e {
        ConnectionEndpointBuilder::Pin { .. } => true,
        ConnectionEndpointBuilder::Dependency { dependency_name, index, .. } => {
            &&& exists|i: int| 0 <= i < starts.len() && (#[trigger] starts[i]).0 == dependency_name
            &&& forall|i: int|
                0 <= i < starts.len() && (#[trigger] starts[i]).0 == dependency_name ==> starts[i].1 + index <= usize::MAX
        },
    }
}

/// `c` is `e` with its dependency numbered through `starts`.
pub open spec fn resolves_in(e: ConnectionEndpointBuilder, starts: Seq<(IdentId, usize)>, c: ConnectionEndpoint) -> bool {
    match e {
        ConnectionEndpointBuilder::Pin { pin_id, range } => c == ConnectionEndpoint::Pin { pin_id, range },
        ConnectionEndpointBuilder::Dependency { dependency_name, index, pin_id, range } => exists|i: int|
            0 <= i < starts.len() && (#[trigger] starts[i]).0 == dependency_name && c == (ConnectionEndpoint::Dependency {
                dependency_id: (starts[i].1 + index) as usize,
                pin_id,
                range,
            }),
    }
}

/// A connection with a width can be built once the dependencies are numbered.
pub open spec fn buildable(b: ConnectionBuilder, starts: Seq<(IdentId, usize)>) -> bool {
    &&& b.complete()
    &&& resolvable_in(b.source.spec_build(), starts)
    &&& resolvable_in(b.dest.spec_build(), starts)
}

/// `c` is `b` built with the dependencies numbered through `starts`.
pub open spec fn built_from(b: ConnectionBuilder, starts: Seq<(IdentId, usize)>, c: Connection) -> bool {
    &&& c.width == b.width->0
    &&& c.connection_type == b.connection_type->0
    &&& resolves_in(b.source.spec_build(), starts, c.source)
    &&& resolves_in(b.dest.spec_build(), starts, c.dest)
}

proof fn lemma_insert_by_circ_at(sorted: Seq<DependencyEntry>, x: DependencyEntry, i: int)
    requires
        0 <= i <= sorted.len(),
        forall|j: int| i <= j < sorted.len() ==> (#[trigger] sorted[j]).1.0 > x.1.0,
        i == 0 || sorted[i - 1].1.0 <= x.1.0,
    ensures
        insert_by_circ(sorted, x) == sorted.insert(i, x),
    decreases sorted.len() - i,
{
    if i == sorted.len() {
        if sorted.len() == 0 {
            assert(sorted.insert(0, x) =~= seq![x]);
        } else {
            assert(sorted.insert(i, x) =~= sorted.push(x));
        }
    } else {
        let d = sorted.drop_last();
        assert forall|j: int| i <= j < d.len() implies (#[trigger] d[j]).1.0 > x.1.0 by {
            assert(d[j] == sorted[j]);
        }
        if i > 0 {
            assert(d[i - 1] == sorted[i - 1]);
        }
        lemma_insert_by_circ_at(d, x, i);
        assert(sorted.last().1.0 > x.1.0);
        assert(sorted.insert(i, x) =~= d.insert(i, x).push(sorted.last()));
    }
}

/// The entries sorted by circuit, those of one circuit in their order in `deps`.
fn sort_dependencies(deps: &Vec<DependencyEntry>) -> (r: Vec<DependencyEntry>)
    ensures
        r@ == sort_by_circ(deps@),
{
    let mut sorted: Vec<DependencyEntry> = Vec::new();
    let mut k: usize = 0;
    assert(deps@.take(0) =~= Seq::<DependencyEntry>::empty());
    while k < deps.len()
        invariant
            k <= deps@.len(),
            sorted@ == sort_by_circ(deps@.take(k as int)),
        decreases deps@.len() - k,
    {
        let x = deps[k];
        let mut i = sorted.len();
        while i > 0 && sorted[i - 1].1.0 > x.1.0
            invariant
                i <= sorted@.len(),
                forall|j: int| i <= j < sorted@.len() ==> (#[trigger] sorted@[j]).1.0 > x.1.0,
            decreases i,
        {
            i = i - 1;
        }
        proof {
            lemma_insert_by_circ_at(sorted@, x, i as int);
            assert(deps@.take(k + 1).drop_last() =~= deps@.take(k as int));
            assert(deps@.take(k + 1).last() == x);
        }
        sorted.insert(i, x);
        k = k + 1;
    }
    assert(deps@.take(deps@.len() as int) =~= deps@);
    sorted
}

impl CircBuilder {
    /// The circuit: the dependencies sorted by circuit and each array laid
    /// out instance by instance, the pins, and each connection that has a
    /// width with its dependencies numbered.
    pub fn build(self) -> (c: Circ)
        requires
            self.wf(),
            concrete_eq::<IdentId>(),
            forall|k: int|
                0 <= k < with_width(self.connection_seq()).len() ==> buildable(
                    #[trigger] with_width(self.connection_seq())[k],
                    start_entries(sort_by_circ(self.dependency_entries())),
                ),
        ensures
            c matches Circ::ModuleCirc(m) && {
                let sorted = sort_by_circ(self.dependency_entries());
                let kept = with_width(self.connection_seq());
                &&& m.dependencies@ == flatten(sorted)
                &&& m.pins == self.pin_map()
                &&& m.connections@.len() == kept.len()
                &&& forall|k: int|
                    0 <= k < kept.len() ==> built_from(kept[k], start_entries(sorted), #[trigger] m.connections@[k])
            },
    {
        let ghost entries = self.dependency_entries();
        let names = self.dependencies.keys();
        let values = self.dependencies.values();
        let mut deps: Vec<DependencyEntry> = Vec::new();
        let mut k: usize = 0;
        proof {
            lemma_keys_distinct(self.dependencies);
        }
        while k < names.len()
            invariant
                names@ == self.dependency_names(),
                values@ == self.dependency_values(),
                names@.len() == values@.len(),
                entries == self.dependency_entries(),
                k <= names@.len(),
                deps@ == entries.take(k as int),
            decreases names@.len() - k,
        {
            deps.push((names[k], values[k]));
            k = k + 1;
            assert(deps@ =~= entries.take(k as int));
        }
        assert(entries.take(names@.len() as int) =~= entries);
        let sorted = sort_dependencies(&deps);

        // each instance of each dependency, and the number of each dependency's first
        let mut dependencies: Vec<CircId> = Vec::new();
        let mut starts: Vec<(IdentId, usize)> = Vec::new();
        let mut j: usize = 0;
        assert(sorted@.take(0) =~= Seq::<DependencyEntry>::empty());
        while j < sorted.len()
            invariant
                j <= sorted@.len(),
                dependencies@ == flatten(sorted@.take(j as int)),
                starts@ == start_entries(sorted@.take(j as int)),
            decreases sorted@.len() - j,
        {
            let (name, (circ_id, count)) = sorted[j];
            let n = match count {
                Some(c) => c,
                None => 1,
            };
            proof {
                assert(sorted@.take(j + 1).drop_last() =~= sorted@.take(j as int));
                assert(sorted@.take(j + 1).last() == sorted@[j as int]);
            }
            if n > 0 {
                starts.push((name, dependencies.len()));
            }
            let ghost before = dependencies@;
            let mut i: usize = 0;
            while i < n
                invariant
                    i <= n,
                    dependencies@ == before + Seq::new(i as nat, |t: int| circ_id),
                decreases n - i,
            {
                dependencies.push(circ_id);
                i = i + 1;
                assert(dependencies@ =~= before + Seq::new(i as nat, |t: int| circ_id));
            }
            j = j + 1;
        }
        assert(sorted@.take(sorted@.len() as int) =~= sorted@);
        proof {
            lemma_keys_distinct(self.dependencies);
            assert(names_distinct_deps(entries)) by {
                assert forall|a: int, b: int| 0 <= a < b < entries.len() implies (#[trigger] entries[a]).0
                    != (#[trigger] entries[b]).0 by {
                    assert(self.dependency_names()[a] != self.dependency_names()[b]);
                }
            }
            lemma_sort_names_distinct(entries);
            lemma_start_names_distinct(sorted@);
        }
        let mut start_map: OrderedMap<IdentId, usize> = OrderedMap::new();
        let mut t: usize = 0;
        while t < starts.len()
            invariant
                t <= starts@.len(),
                concrete_eq::<IdentId>(),
                start_map.wf(),
                forall|a: int, b: int| 0 <= a < b < starts@.len() ==> (#[trigger] starts@[a]).0 != (#[trigger] starts@[b]).0,
                start_map.key_seq() == starts@.take(t as int).map_values(|e: (IdentId, usize)| e.0),
                start_map.value_seq() == starts@.take(t as int).map_values(|e: (IdentId, usize)| e.1),
            decreases starts@.len() - t,
        {
            let (name, start) = starts[t];
            proof {
                if start_map.key_seq().contains(name) {
                    let a = choose|a: int| 0 <= a < start_map.key_seq().len() && start_map.key_seq()[a] == name;
                    assert(starts@[a].0 == name);
                }
            }
            let _ = start_map.insert(name, start);
            t = t + 1;
            assert(start_map.key_seq() =~= starts@.take(t as int).map_values(|e: (IdentId, usize)| e.0));
            assert(start_map.value_seq() =~= starts@.take(t as int).map_values(|e: (IdentId, usize)| e.1));
        }
        assert(starts@.take(starts@.len() as int) =~= starts@);

        let mut connections: Vec<Connection> = Vec::new();
        let ghost all = self.connection_seq();
        let mut c: usize = 0;
        assert(all.take(0) =~= Seq::<ConnectionBuilder>::empty());
        while c < self.connections.len()
            invariant
                all == self.connection_seq(),
                c <= all.len(),
                starts@ == start_entries(sort_by_circ(self.dependency_entries())),
                start_map.key_seq() == starts@.map_values(|e: (IdentId, usize)| e.0),
                start_map.value_seq() == starts@.map_values(|e: (IdentId, usize)| e.1),
                start_map.wf(),
                concrete_eq::<IdentId>(),
                forall|k: int|
                    0 <= k < with_width(all).len() ==> buildable(
                        #[trigger] with_width(all)[k],
                        starts@,
                    ),
                connections@.len() == with_width(all.take(c as int)).len(),
                forall|k: int|
                    0 <= k < connections@.len() ==> built_from(
                        with_width(all.take(c as int))[k],
                        starts@,
                        #[trigger] connections@[k],
                    ),
            decreases all.len() - c,
        {
            let b = self.connections[c];
            proof {
                assert(all.take(c + 1).drop_last() =~= all.take(c as int));
                assert(all.take(c + 1).last() == b);
                lemma_with_width_prefix(all, c as int + 1);
            }
            if b.width.is_some() {
                let ghost idx = with_width(all.take(c as int)).len() as int;
                assert(with_width(all.take(c + 1))[idx] == b);
                assert(buildable(with_width(all)[idx], starts@));
                proof {
                    lemma_resolvable_map(b.source.spec_build(), starts@, start_map);
                    lemma_resolvable_map(b.dest.spec_build(), starts@, start_map);
                }
                let built = b.build(&start_map);
                proof {
                    lemma_resolves_map(b.source.spec_build(), starts@, start_map, built.source);
                    lemma_resolves_map(b.dest.spec_build(), starts@, start_map, built.dest);
                }
                connections.push(built);
            }
            c = c + 1;
        }
        assert(all.take(all.len() as int) =~= all);
        Circ::ModuleCirc(ModuleCirc { dependencies, pins: self.pins, connections })
    }
}

/// No name is given to two dependencies.
pub open spec fn names_distinct_deps(s: Seq<DependencyEntry>) -> bool {
    forall|a: int, b: int| 0 <= a < b < s.len() ==> (#[trigger] s[a]).0 != (#[trigger] s[b]).0
}

proof fn lemma_insert_by_circ_elems(sorted: Seq<DependencyEntry>, x: DependencyEntry)
    ensures
        insert_by_circ(sorted, x).len() == sorted.len() + 1,
        forall|e: DependencyEntry| #[trigger] insert_by_circ(sorted, x).contains(e) <==> (sorted.contains(e) || e == x),
        names_distinct_deps(sorted) && (forall|i: int| 0 <= i < sorted.len() ==> (#[trigger] sorted[i]).0 != x.0)
            ==> names_distinct_deps(insert_by_circ(sorted, x)),
    decreases sorted.len(),
{
    let r = insert_by_circ(sorted, x);
    if sorted.len() == 0 {
        assert forall|e: DependencyEntry| r.contains(e) <==> (sorted.contains(e) || e == x) by {
            if r.contains(e) {
                let i = choose|i: int| 0 <= i < r.len() && r[i] == e;
            }
            if e == x {
                assert(r[0] == x);
            }
        }
    } else if sorted.last().1.0 <= x.1.0 {
        assert forall|e: DependencyEntry| r.contains(e) <==> (sorted.contains(e) || e == x) by {
            if r.contains(e) {
                let i = choose|i: int| 0 <= i < r.len() && r[i] == e;
                if i < sorted.len() {
                    assert(sorted[i] == e);
                }
            }
            if sorted.contains(e) {
                let i = choose|i: int| 0 <= i < sorted.len() && sorted[i] == e;
                assert(r[i] == e);
            }
            if e == x {
                assert(r[sorted.len() as int] == x);
            }
        }
    } else {
        let d = sorted.drop_last();
        lemma_insert_by_circ_elems(d, x);
        let q = insert_by_circ(d, x);
        assert forall|e: DependencyEntry| r.contains(e) <==> (sorted.contains(e) || e == x) by {
            if r.contains(e) {
                let i = choose|i: int| 0 <= i < r.len() && r[i] == e;
                if i < q.len() {
                    assert(q[i] == e);
                    assert(q.contains(e));
                    if d.contains(e) {
                        let j = choose|j: int| 0 <= j < d.len() && d[j] == e;
                        assert(sorted[j] == e);
                    }
                } else {
                    assert(sorted[sorted.len() - 1] == e);
                }
            }
            if sorted.contains(e) {
                let i = choose|i: int| 0 <= i < sorted.len() && sorted[i] == e;
                if i < d.len() {
                    assert(d[i] == e);
                    assert(q.contains(e));
                    let j = choose|j: int| 0 <= j < q.len() && q[j] == e;
                    assert(r[j] == e);
                } else {
                    assert(r[q.len() as int] == e);
                }
            }
            if e == x {
                assert(q.contains(x));
                let j = choose|j: int| 0 <= j < q.len() && q[j] == x;
                assert(r[j] == x);
            }
        }
        if names_distinct_deps(sorted) && (forall|i: int| 0 <= i < sorted.len() ==> (#[trigger] sorted[i]).0 != x.0) {
            assert forall|i: int| 0 <= i < d.len() implies (#[trigger] d[i]).0 != x.0 by {
                assert(d[i] == sorted[i]);
            }
            assert(names_distinct_deps(d)) by {
                assert forall|a: int, b: int| 0 <= a < b < d.len() implies (#[trigger] d[a]).0 != (#[trigger] d[b]).0 by {
                    assert(d[a] == sorted[a] && d[b] == sorted[b]);
                }
            }
            let l = sorted.last();
            assert forall|a: int| 0 <= a < q.len() implies (#[trigger] q[a]).0 != l.0 by {
                assert(q.contains(q[a]));
                if q[a] == x {
                } else {
                    assert(d.contains(q[a]));
                    let j = choose|j: int| 0 <= j < d.len() && d[j] == q[a];
                    assert(sorted[j] == q[a]);
                    assert(sorted[j].0 != sorted[sorted.len() - 1].0);
                }
            }
            assert forall|a: int, b: int| 0 <= a < b < r.len() implies (#[trigger] r[a]).0 != (#[trigger] r[b]).0 by {
                if b == q.len() {
                    assert(r[a] == q[a]);
                } else {
                    assert(r[a] == q[a] && r[b] == q[b]);
                }
            }
        }
    }
}

proof fn lemma_sort_elems(s: Seq<DependencyEntry>)
    ensures
        sort_by_circ(s).len() == s.len(),
        forall|e: DependencyEntry| #[trigger] sort_by_circ(s).contains(e) <==> s.contains(e),
    decreases s.len(),
{
    if s.len() > 0 {
        lemma_sort_elems(s.drop_last());
        lemma_insert_by_circ_elems(sort_by_circ(s.drop_last()), s.last());
        assert forall|e: DependencyEntry| #[trigger] sort_by_circ(s).contains(e) <==> s.contains(e) by {
            if s.drop_last().contains(e) {
                let j = choose|j: int| 0 <= j < s.drop_last().len() && s.drop_last()[j] == e;
                assert(s[j] == e);
            }
            if s.contains(e) && e != s.last() {
                let j = choose|j: int| 0 <= j < s.len() && s[j] == e;
                assert(s.drop_last()[j] == e);
            }
        }
    }
}

proof fn lemma_sort_names_distinct(s: Seq<DependencyEntry>)
    requires
        names_distinct_deps(s),
    ensures
        names_distinct_deps(sort_by_circ(s)),
    decreases s.len(),
{
    if s.len() > 0 {
        let d = s.drop_last();
        assert(names_distinct_deps(d)) by {
            assert forall|a: int, b: int| 0 <= a < b < d.len() implies (#[trigger] d[a]).0 != (#[trigger] d[b]).0 by {
                assert(d[a] == s[a] && d[b] == s[b]);
            }
        }
        lemma_sort_names_distinct(d);
        lemma_sort_elems(d);
        let sd = sort_by_circ(d);
        assert forall|i: int| 0 <= i < sd.len() implies (#[trigger] sd[i]).0 != s.last().0 by {
            assert(sd.contains(sd[i]));
            assert(d.contains(sd[i]));
            let j = choose|j: int| 0 <= j < d.len() && d[j] == sd[i];
            assert(s[j] == sd[i]);
        }
        lemma_insert_by_circ_elems(sd, s.last());
    }
}

proof fn lemma_start_names_distinct(s: Seq<DependencyEntry>)
    requires
        names_distinct_deps(s),
    ensures
        forall|a: int, b: int|
            0 <= a < b < start_entries(s).len() ==> (#[trigger] start_entries(s)[a]).0 != (#[trigger] start_entries(s)[b]).0,
        forall|a: int| 0 <= a < start_entries(s).len() ==> exists|i: int| 0 <= i < s.len() && s[i].0 == (#[trigger] start_entries(s)[a]).0,
    decreases s.len(),
{
    if s.len() > 0 {
        let d = s.drop_last();
        assert(names_distinct_deps(d)) by {
            assert forall|a: int, b: int| 0 <= a < b < d.len() implies (#[trigger] d[a]).0 != (#[trigger] d[b]).0 by {
                assert(d[a] == s[a] && d[b] == s[b]);
            }
        }
        lemma_start_names_distinct(d);
        let sd = start_entries(d);
        assert forall|a: int| 0 <= a < sd.len() implies exists|i: int| 0 <= i < s.len() && s[i].0 == (#[trigger] sd[a]).0 by {
            let i = choose|i: int| 0 <= i < d.len() && d[i].0 == sd[a].0;
            assert(s[i] == d[i]);
        }
        if copies(s.last().1.1) > 0 {
            let r = start_entries(s);
            assert(r == sd.push((s.last().0, flatten(d).len() as usize)));
            assert forall|a: int| 0 <= a < sd.len() implies (#[trigger] sd[a]).0 != s.last().0 by {
                let i = choose|i: int| 0 <= i < d.len() && d[i].0 == sd[a].0;
                assert(s[i].0 != s[s.len() - 1].0);
            }
            assert forall|a: int, b: int| 0 <= a < b < r.len() implies (#[trigger] r[a]).0 != (#[trigger] r[b]).0 by {
                assert(r[a] == sd[a]);
                if b < sd.len() {
                    assert(r[b] == sd[b]);
                }
            }
            assert forall|a: int| 0 <= a < r.len() implies exists|i: int| 0 <= i < s.len() && s[i].0 == (#[trigger] r[a]).0 by {
                if a < sd.len() {
                    assert(r[a] == sd[a]);
                } else {
                    assert(s[s.len() - 1].0 == r[a].0);
                }
            }
        }
    }
}

proof fn lemma_with_width_prefix(all: Seq<ConnectionBuilder>, c: int)
    requires
        0 <= c <= all.len(),
    ensures
        with_width(all.take(c)).len() <= with_width(all).len(),
        forall|k: int|
            0 <= k < with_width(all.take(c)).len() ==> #[trigger] with_width(all.take(c))[k] == with_width(all)[k],
    decreases all.len() - c,
{
    if c < all.len() {
        lemma_with_width_prefix(all, c + 1);
        assert(all.take(c + 1).drop_last() =~= all.take(c));
        let a = with_width(all.take(c));
        let b = with_width(all.take(c + 1));
        assert forall|k: int| 0 <= k < a.len() implies #[trigger] a[k] == with_width(all)[k] by {
            assert(b[k] == with_width(all)[k]);
            if all.take(c + 1).last().width is Some {
                assert(b == a.push(all.take(c + 1).last()));
            }
        }
    } else {
        assert(all.take(c) =~= all);
    }
}

proof fn lemma_resolvable_map(e: ConnectionEndpointBuilder, starts: Seq<(IdentId, usize)>, m: OrderedMap<IdentId, usize>)
    requires
        m.key_seq() == starts.map_values(|x: (IdentId, usize)| x.0),
        m.value_seq() == starts.map_values(|x: (IdentId, usize)| x.1),
        resolvable_in(e, starts),
    ensures
        endpoint_resolvable(e, &m),
{
    match e {
        ConnectionEndpointBuilder::Pin { .. } => {},
        ConnectionEndpointBuilder::Dependency { dependency_name, index, .. } => {
            let i = choose|i: int| 0 <= i < starts.len() && (#[trigger] starts[i]).0 == dependency_name;
            assert(m.key_seq()[i] == dependency_name);
            assert forall|t: int| 0 <= t < m.key_seq().len() && m.key_seq()[t] == dependency_name implies m.value_seq()[t]
                + index <= usize::MAX by {
                assert(starts[t].0 == dependency_name);
            }
        },
    }
}

proof fn lemma_resolves_map(e: ConnectionEndpointBuilder, starts: Seq<(IdentId, usize)>, m: OrderedMap<IdentId, usize>, c: ConnectionEndpoint)
    requires
        m.key_seq() == starts.map_values(|x: (IdentId, usize)| x.0),
        m.value_seq() == starts.map_values(|x: (IdentId, usize)| x.1),
        endpoint_resolves(e, &m, c),
    ensures
        resolves_in(e, starts, c),
{
    match e {
        ConnectionEndpointBuilder::Pin { .. } => {},
        ConnectionEndpointBuilder::Dependency { dependency_name, index, pin_id, range } => {
            let i = choose|i: int|
                0 <= i < m.key_seq().len() && m.key_seq()[i] == dependency_name && c == (ConnectionEndpoint::Dependency {
                    dependency_id: (m.value_seq()[i] + index) as usize,
                    pin_id,
                    range,
                });
            assert(starts[i].0 == dependency_name);
        },
    }
}


/// Whether a pin expression names a pin of a dependency, not of the circuit itself.
pub open spec fn of_dependency(p: PinExprType) -> bool {
    p is DependencyPin || p is DependencyPinRange
}

/// A pin that can drive a connection: an input of the circuit itself, or an
/// output of a dependency.
pub open spec fn drives(dependency: bool, d: PinDirection) -> bool {
    if dependency {
        d == PinDirection::Output
    } else {
        d == PinDirection::Input
    }
}

/// A pin that can be driven by a connection: an output of the circuit
/// itself, or an input of a dependency.
pub open spec fn receives(dependency: bool, d: PinDirection) -> bool {
    if dependency {
        d == PinDirection::Input
    } else {
        d == PinDirection::Output
    }
}

/// A connection's kind says which ends are pins of dependencies, and values
/// may flow along it exactly when its left end can drive and its right end
/// can be driven, or either end is a transput.
pub proof fn lemma_connection_directions(lhs: PinExprType, rhs: PinExprType, l: PinDirection, r: PinDirection)
    ensures
        spec_conn_type(lhs, rhs) == (match (of_dependency(lhs), of_dependency(rhs)) {
            (false, false) => ConnType::PinToPin,
            (false, true) => ConnType::PinToDep,
            (true, false) => ConnType::DepToPin,
            (true, true) => ConnType::DepToDep,
        }),
        directions_allowed(spec_conn_type(lhs, rhs), l, r) <==> (l == PinDirection::Transput || r == PinDirection::Transput
            || (drives(of_dependency(lhs), l) && receives(of_dependency(rhs), r))),
{
}

/// Two pin expressions can be connected exactly when both denote bits of
/// pins, values may flow from the left to the right, and they are equally
/// wide.
pub proof fn lemma_connect_ok(lhs: PinExprType, rhs: PinExprType)
    ensures
        spec_connect(lhs, rhs) is Ok <==> (lhs.spec_pin() is Some && rhs.spec_pin() is Some && directions_allowed(
            spec_conn_type(lhs, rhs),
            lhs.spec_pin()->0.direction,
            rhs.spec_pin()->0.direction,
        ) && lhs.spec_width() == rhs.spec_width()),
        lhs is Unknown || rhs is Unknown ==> spec_connect(lhs, rhs) == Err::<(), CannotConnectReason>(CannotConnectReason::Unknown),
{
}

} // verus!
