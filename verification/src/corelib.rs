//! The core library of circuits: logic gates, fixed levels, constants and
//! probes, each computing its outputs from its inputs and arguments.
use vstd::prelude::*;

use crate::extlib::{
    ExtractedConst, PinDirection, SimState, State, TickBehaviour, read_state, word_of, write_states,
};

verus! {

/// A pin a library circuit declares.
#[derive(Debug, Clone, Copy)]
pub struct PinMeta {
    pub name: &'static str,
    pub direction: PinDirection,
    pub width: usize,
}

/// What a library circuit declares about itself for given arguments.
#[derive(Debug)]
pub struct CircMeta {
    pub pins: Vec<PinMeta>,
    pub tick_behaviour: TickBehaviour,
}

/// A two-input gate, applied bit by bit.
pub trait Gate {
    /// The output for one pair of input bits.
    spec fn spec_bit(a: State, b: State) -> State;

    fn bit(a: State, b: State) -> (r: State)
        ensures
            r == Self::spec_bit(a, b),
    ;
}

/// The function `G`, taken bit by bit over both inputs, as far as the shorter one goes.
pub open spec fn spec_evaluate<G: Gate>(a: Seq<State>, b: Seq<State>) -> Seq<State> {
    Seq::new(
        if a.len() <= b.len() {
            a.len()
        } else {
            b.len()
        },
        |i: int| G::spec_bit(a[i], b[i]),
    )
}

/// Applies `G` bit by bit.
pub fn evaluate<G: Gate>(a: &[State], b: &[State]) -> (r: Vec<State>)
    ensures
        r@ == spec_evaluate::<G>(a@, b@),
{
    let n = if a.len() <= b.len() {
        a.len()
    } else {
        b.len()
    };
    let mut r: Vec<State> = Vec::new();
    let mut i: usize = 0;
    while i < n
        invariant
            n <= a@.len(),
            n <= b@.len(),
            n == spec_evaluate::<G>(a@, b@).len(),
            i <= n,
            r@ == spec_evaluate::<G>(a@, b@).subrange(0, i as int),
        decreases n - i,
    {
        r.push(G::bit(a[i], b[i]));
        i = i + 1;
        assert(r@ =~= spec_evaluate::<G>(a@, b@).subrange(0, i as int));
    }
    assert(r@ =~= spec_evaluate::<G>(a@, b@));
    r
}

/// An error on either input gives an error, then a floating input gives a
/// floating output.
pub open spec fn undriven(a: State, b: State) -> Option<State> {
    if a == State::E || b == State::E {
        Some(State::E)
    } else if a == State::Z || b == State::Z {
        Some(State::Z)
    } else {
        None
    }
}

fn undriven_exec(a: State, b: State) -> (r: Option<State>)
    ensures
        r == undriven(a, b),
{
    if a == State::E || b == State::E {
        Some(State::E)
    } else if a == State::Z || b == State::Z {
        Some(State::Z)
    } else {
        None
    }
}

pub struct And;

pub struct Nand;

pub struct Nor;

pub struct Or;

pub struct Xnor;

pub struct Xor;

impl Gate for And {
    open spec fn spec_bit(a: State, b: State) -> State {
        match undriven(a, b) {
            Some(s) => s,
            None => if a == State::L || b == State::L {
                State::L
            } else {
                State::H
            },
        }
    }

    fn bit(a: State, b: State) -> (r: State) {
        match undriven_exec(a, b) {
            Some(s) => s,
            None => if a == State::L || b == State::L {
                State::L
            } else {
                State::H
            },
        }
    }
}

impl Gate for Nand {
    open spec fn spec_bit(a: State, b: State) -> State {
        match undriven(a, b) {
            Some(s) => s,
            None => if a == State::L || b == State::L {
                State::H
            } else {
                State::L
            },
        }
    }

    fn bit(a: State, b: State) -> (r: State) {
        match undriven_exec(a, b) {
            Some(s) => s,
            None => if a == State::L || b == State::L {
                State::H
            } else {
                State::L
            },
        }
    }
}

impl Gate for Nor {
    open spec fn spec_bit(a: State, b: State) -> State {
        match undriven(a, b) {
            Some(s) => s,
            None => if a == State::H || b == State::H {
                State::L
            } else {
                State::H
            },
        }
    }

    fn bit(a: State, b: State) -> (r: State) {
        match undriven_exec(a, b) {
            Some(s) => s,
            None => if a == State::H || b == State::H {
                State::L
            } else {
                State::H
            },
        }
    }
}

impl Gate for Or {
    open spec fn spec_bit(a: State, b: State) -> State {
        match undriven(a, b) {
            Some(s) => s,
            None => if a == State::H || b == State::H {
                State::H
            } else {
                State::L
            },
        }
    }

    fn bit(a: State, b: State) -> (r: State) {
        match undriven_exec(a, b) {
            Some(s) => s,
            None => if a == State::H || b == State::H {
                State::H
            } else {
                State::L
            },
        }
    }
}

impl Gate for Xnor {
    open spec fn spec_bit(a: State, b: State) -> State {
        match undriven(a, b) {
            Some(s) => s,
            None => if a == b {
                State::H
            } else {
                State::L
            },
        }
    }

    fn bit(a: State, b: State) -> (r: State) {
        match undriven_exec(a, b) {
            Some(s) => s,
            None => if a == b {
                State::H
            } else {
                State::L
            },
        }
    }
}

impl Gate for Xor {
    open spec fn spec_bit(a: State, b: State) -> State {
        match undriven(a, b) {
            Some(s) => s,
            None => if a == b {
                State::L
            } else {
                State::H
            },
        }
    }

    fn bit(a: State, b: State) -> (r: State) {
        match undriven_exec(a, b) {
            Some(s) => s,
            None => if a == b {
                State::L
            } else {
                State::H
            },
        }
    }
}

/// The inverse of a driven value; floating and error stay as they are.
pub open spec fn invert(s: State) -> State {
    match s {
        State::L => State::H,
        State::H => State::L,
        _ => s,
    }
}

/// Each gate gives the same output for its inputs in either order.
pub proof fn lemma_gates_commute(a: State, b: State)
    ensures
        And::spec_bit(a, b) == And::spec_bit(b, a),
        Nand::spec_bit(a, b) == Nand::spec_bit(b, a),
        Or::spec_bit(a, b) == Or::spec_bit(b, a),
        Nor::spec_bit(a, b) == Nor::spec_bit(b, a),
        Xor::spec_bit(a, b) == Xor::spec_bit(b, a),
        Xnor::spec_bit(a, b) == Xnor::spec_bit(b, a),
{
}

/// Nand is the inverse of And, Nor of Or, and Xnor of Xor.
pub proof fn lemma_negated_gates(a: State, b: State)
    ensures
        Nand::spec_bit(a, b) == invert(And::spec_bit(a, b)),
        Nor::spec_bit(a, b) == invert(Or::spec_bit(a, b)),
        Xnor::spec_bit(a, b) == invert(Xor::spec_bit(a, b)),
{
}

/// A driven level: low or high.
pub open spec fn driven(s: State) -> bool {
    s == State::L || s == State::H
}

/// The level standing for a truth value: high for true.
pub open spec fn level(b: bool) -> State {
    if b {
        State::H
    } else {
        State::L
    }
}

/// On driven inputs each gate computes its boolean function, high standing
/// for true: And is high exactly when both inputs are, Or exactly when either
/// is, Xor exactly when they differ, and Nand, Nor, Xnor are their negations.
pub proof fn lemma_gate_truth_tables(a: State, b: State)
    requires
        driven(a),
        driven(b),
    ensures
        And::spec_bit(a, b) == level(a == State::H && b == State::H),
        Or::spec_bit(a, b) == level(a == State::H || b == State::H),
        Xor::spec_bit(a, b) == level((a == State::H) != (b == State::H)),
        Nand::spec_bit(a, b) == level(!(a == State::H && b == State::H)),
        Nor::spec_bit(a, b) == level(!(a == State::H || b == State::H)),
        Xnor::spec_bit(a, b) == level((a == State::H) == (b == State::H)),
{
}

/// An error on an input makes every gate's output an error; otherwise a
/// floating input makes it float.
pub proof fn lemma_gates_undriven(a: State, b: State)
    ensures
        a == State::E || b == State::E ==> And::spec_bit(a, b) == State::E && Or::spec_bit(a, b) == State::E
            && Xor::spec_bit(a, b) == State::E && Nand::spec_bit(a, b) == State::E && Nor::spec_bit(a, b) == State::E
            && Xnor::spec_bit(a, b) == State::E,
        a != State::E && b != State::E && (a == State::Z || b == State::Z) ==> And::spec_bit(a, b) == State::Z
            && Or::spec_bit(a, b) == State::Z && Xor::spec_bit(a, b) == State::Z && Nand::spec_bit(a, b) == State::Z
            && Nor::spec_bit(a, b) == State::Z && Xnor::spec_bit(a, b) == State::Z,
{
}

/// Applying a gate to two sequences of bits applies it to each pair, as far
/// as the shorter sequence goes.
pub proof fn lemma_evaluate_bitwise<G: Gate>(a: Seq<State>, b: Seq<State>, i: int)
    requires
        0 <= i < a.len(),
        i < b.len(),
    ensures
        spec_evaluate::<G>(a, b).len() == if a.len() <= b.len() {
            a.len()
        } else {
            b.len()
        },
        spec_evaluate::<G>(a, b)[i] == G::spec_bit(a[i], b[i]),
{
}

/// The arguments of a gate: its width, at least one bit.
pub open spec fn spec_parse_width(args: Seq<ExtractedConst>) -> Result<usize, &'static str> {
    let w = args[0]->Int_0;
    if w <= 0 {
        Err("width must be at least 1")
    } else {
        Ok(w as usize)
    }
}

/// Reads the width argument of a gate or a level.
pub fn parse_width(args: &[ExtractedConst]) -> (r: Result<usize, &'static str>)
    requires
        args@.len() == 1,
        args@[0] is Int,
    ensures
        r == spec_parse_width(args@),
        r matches Err(m) ==> m@ == "width must be at least 1"@,
{
    match &args[0] {
        ExtractedConst::Int(width) => {
            if *width <= 0 {
                Err("width must be at least 1")
            } else {
                Ok(*width as usize)
            }
        },
        _ => Err("width must be at least 1"),
    }
}

/// A gate of some width: inputs `a` and `b`, output `q`.
pub struct BasicGate<G: Gate> {
    pub width: usize,
    pub gate: G,
}

/// The state of input wires `start..start + n`.
pub open spec fn read_states(words: Seq<usize>, start: nat, n: nat) -> Seq<State> {
    Seq::new(n, |i: int| read_state(words, start + i as nat))
}

impl<G: Gate> BasicGate<G> {
    /// A gate of the width its arguments give.
    pub fn new(args: &[ExtractedConst], gate: G) -> (r: Self)
        requires
            args@.len() == 1,
            args@[0] is Int,
            spec_parse_width(args@) is Ok,
        ensures
            r.width == spec_parse_width(args@)->Ok_0,
    {
        let width = match parse_width(args) {
            Ok(w) => w,
            Err(_) => 1,
        };
        BasicGate { width, gate }
    }

    /// Reads inputs `a` (the first `width` wires) and `b` (the next `width`)
    /// and writes `G` of the two, bit by bit, to the outputs.
    pub fn tick_internal(&self, state: &mut SimState)
        requires
            self.width * 4 <= usize::MAX,
            self.width > 0,
            word_of((2 * self.width - 1) as nat) < old(state).inputs().len(),
            word_of((self.width - 1) as nat) < old(state).outputs().len(),
        ensures
            final(state).outputs() == write_states(
                old(state).outputs(),
                spec_evaluate::<G>(
                    read_states(old(state).inputs(), 0, self.width as nat),
                    read_states(old(state).inputs(), self.width as nat, self.width as nat),
                ),
            ),
            final(state).inputs() == old(state).inputs(),
    {
        let w = self.width;
        let inputs = state.read_inputs(w * 2);
        let a = slice_vec(&inputs, 0, w);
        let b = slice_vec(&inputs, w, 2 * w);
        assert(a@ =~= read_states(old(state).inputs(), 0, w as nat));
        assert(b@ =~= read_states(old(state).inputs(), w as nat, w as nat));
        let outputs = evaluate::<G>(a.as_slice(), b.as_slice());
        state.write_outputs(outputs.as_slice());
    }

    /// The pins of a gate of the width the arguments give.
    pub fn get_meta_internal(args: &[ExtractedConst]) -> (r: Result<CircMeta, &'static str>)
        requires
            args@.len() == 1,
            args@[0] is Int,
        ensures
            r is Err <==> spec_parse_width(args@) is Err,
            r matches Ok(m) ==> m.tick_behaviour == TickBehaviour::Once && m.pins@.len() == 3
                && m.pins@[0].direction == PinDirection::Input && m.pins@[0].width == spec_parse_width(args@)->Ok_0
                && m.pins@[1].direction == PinDirection::Input && m.pins@[1].width == spec_parse_width(args@)->Ok_0
                && m.pins@[2].direction == PinDirection::Output && m.pins@[2].width == spec_parse_width(
                args@,
            )->Ok_0,
    {
        let width = match parse_width(args) {
            Ok(w) => w,
            Err(e) => return Err(e),
        };
        let mut pins: Vec<PinMeta> = Vec::new();
        pins.push(PinMeta { name: "a", direction: PinDirection::Input, width });
        pins.push(PinMeta { name: "b", direction: PinDirection::Input, width });
        pins.push(PinMeta { name: "q", direction: PinDirection::Output, width });
        Ok(CircMeta { pins, tick_behaviour: TickBehaviour::Once })
    }
}

/// The items `start..end` of `v`.
fn slice_vec(v: &Vec<State>, start: usize, end: usize) -> (r: Vec<State>)
    requires
        start <= end <= v@.len(),
    ensures
        r@ == v@.subrange(start as int, end as int),
{
    let mut r: Vec<State> = Vec::new();
    let mut i: usize = start;
    while i < end
        invariant
            start <= i <= end <= v@.len(),
            r@ == v@.subrange(start as int, i as int),
        decreases end - i,
    {
        r.push(v[i]);
        i = i + 1;
        assert(r@ =~= v@.subrange(start as int, i as int));
    }
    r
}

/// A circuit that drives every bit of its output at a fixed level.
pub struct Level {
    pub level: State,
    pub width: usize,
}

impl Level {
    /// A level of the width the arguments give.
    pub fn new(args: &[ExtractedConst], level: State) -> (r: Self)
        requires
            args@.len() == 1,
            args@[0] is Int,
            spec_parse_width(args@) is Ok,
        ensures
            r.width == spec_parse_width(args@)->Ok_0,
            r.level == level,
    {
        let width = match parse_width(args) {
            Ok(w) => w,
            Err(_) => 1,
        };
        Level { level, width }
    }

    /// Writes the level to every output bit.
    pub fn tick_internal(&self, state: &mut SimState)
        requires
            self.width * 2 <= usize::MAX,
            self.width > 0,
            word_of((self.width - 1) as nat) < old(state).outputs().len(),
        ensures
            final(state).outputs() == write_states(old(state).outputs(), Seq::new(self.width as nat, |i: int| self.level)),
            final(state).inputs() == old(state).inputs(),
    {
        let mut outputs: Vec<State> = Vec::new();
        let mut i: usize = 0;
        while i < self.width
            invariant
                i <= self.width,
                outputs@ == Seq::new(i as nat, |k: int| self.level),
            decreases self.width - i,
        {
            outputs.push(self.level);
            i = i + 1;
            assert(outputs@ =~= Seq::new(i as nat, |k: int| self.level));
        }
        state.write_outputs(outputs.as_slice());
    }

    /// The single output pin of a level of the width the arguments give.
    pub fn get_meta_internal(args: &[ExtractedConst]) -> (r: Result<CircMeta, &'static str>)
        requires
            args@.len() == 1,
            args@[0] is Int,
        ensures
            r is Err <==> spec_parse_width(args@) is Err,
            r matches Ok(m) ==> m.tick_behaviour == TickBehaviour::Once && m.pins@.len() == 1
                && m.pins@[0].direction == PinDirection::Output && m.pins@[0].width == spec_parse_width(args@)->Ok_0,
    {
        let width = match parse_width(args) {
            Ok(w) => w,
            Err(e) => return Err(e),
        };
        let mut pins: Vec<PinMeta> = Vec::new();
        pins.push(PinMeta { name: "q", direction: PinDirection::Output, width });
        Ok(CircMeta { pins, tick_behaviour: TickBehaviour::Once })
    }
}

/// The arguments of a constant: its value and its width, where a width of
/// zero asks for as many bits as the value needs.
pub open spec fn spec_parse_constant(args: Seq<ExtractedConst>) -> Result<(isize, usize), &'static str> {
    let value = args[0]->Int_0;
    let width = args[1]->Int_0;
    if width < 0 {
        Err("width must be at least 0")
    } else if width == 0 && value == 0 {
        Err("width cannot be 0 when value is 0")
    } else {
        Ok((value, width as usize))
    }
}

/// Reads the value and width arguments of a constant.
pub fn parse_constant(args: &[ExtractedConst]) -> (r: Result<(isize, usize), &'static str>)
    requires
        args@.len() == 2,
        args@[0] is Int,
        args@[1] is Int,
    ensures
        r == spec_parse_constant(args@),
{
    let value = match &args[0] {
        ExtractedConst::Int(v) => *v,
        _ => 0,
    };
    let width = match &args[1] {
        ExtractedConst::Int(w) => *w,
        _ => 0,
    };
    if width < 0 {
        return Err("width must be at least 0");
    }
    if width == 0 && value == 0 {
        Err("width cannot be 0 when value is 0")
    } else {
        Ok((value, width as usize))
    }
}

/// The number of bits a value needs: all of them for a negative value.
pub open spec fn bit_length(value: isize) -> nat {
    if value < 0 {
        isize::BITS as nat
    } else {
        (64 - vstd::std_specs::bits::u64_leading_zeros(value as u64)) as nat
    }
}

/// Whether bit `i` of `value` is set, as read by masking: the sign bit of a
/// negative value reads as clear.
pub open spec fn bit_set(value: isize, i: usize) -> bool {
    (value & (1isize << i)) > 0
}

/// Bit `i` of a value, below the sign bit, is the lowest bit of the value
/// shifted right by `i`; the sign bit reads as clear.
pub proof fn lemma_bit_set(value: isize, i: usize)
    requires
        i < isize::BITS,
    ensures
        i + 1 < isize::BITS ==> (bit_set(value, i) <==> (value >> i) & 1 == 1),
        i + 1 == isize::BITS ==> !bit_set(value, i),
{
    if i + 1 < isize::BITS {
        assert(i + 1 < isize::BITS ==> (((value & (1isize << i)) > 0) <==> (value >> i) & 1 == 1)) by (bit_vector);
    } else {
        assert(i + 1 == isize::BITS ==> !((value & (1isize << i)) > 0)) by (bit_vector);
    }
}

/// A value needs the bits up to its highest set bit: for a positive value
/// that bit is set and every bit above it is clear; a negative value needs
/// all of its bits.
pub proof fn lemma_bit_length(value: isize)
    ensures
        value < 0 ==> bit_length(value) == isize::BITS,
        value >= 0 ==> bit_length(value) <= 64,
        value == 0 ==> bit_length(value) == 0,
        value > 0 ==> bit_length(value) >= 1 && ((value as u64) >> ((bit_length(value) - 1) as u64)) & 1u64 == 1u64,
        value >= 0 ==> forall|j: u64| bit_length(value) <= j < 64 ==> #[trigger] ((value as u64) >> j) & 1u64 == 0u64,
{
    if value >= 0 {
        let i = value as u64;
        vstd::std_specs::bits::axiom_u64_leading_zeros(i);
        let lz = vstd::std_specs::bits::u64_leading_zeros(i);
        if value > 0 {
            assert(0 <= lz < 64);
            let k = (63 - lz) as u64;
            assert(k == (bit_length(value) - 1) as u64);
            assert((i >> k) & 1u64 != 0u64);
            let x = (i >> k) & 1u64;
            assert(x != 0u64 ==> x == 1u64) by (bit_vector)
                requires
                    x == (i >> k) & 1u64,
            ;
        }
    }
}

/// A constant drives bit `i` of its output high exactly when bit `i` of its
/// value is set.
pub proof fn lemma_constant_outputs(c: Constant, i: int)
    requires
        0 <= i < c.width,
    ensures
        c.spec_outputs().len() == c.width,
        c.spec_outputs()[i] == level(bit_set(c.value, i as usize)),
{
}

/// A gate or level accepts a width of one or more, and keeps it.
pub proof fn lemma_parse_width(args: Seq<ExtractedConst>)
    requires
        args.len() == 1,
        args[0] is Int,
    ensures
        spec_parse_width(args) is Ok <==> args[0]->Int_0 >= 1,
        spec_parse_width(args) matches Ok(w) ==> w == args[0]->Int_0,
{
}

/// A constant accepts any value and a width of zero or more, except a zero
/// value with a width of zero, and keeps both.
pub proof fn lemma_parse_constant(args: Seq<ExtractedConst>)
    requires
        args.len() == 2,
        args[0] is Int,
        args[1] is Int,
    ensures
        spec_parse_constant(args) is Ok <==> args[1]->Int_0 >= 0 && !(args[1]->Int_0 == 0 && args[0]->Int_0 == 0),
        spec_parse_constant(args) matches Ok(p) ==> p.0 == args[0]->Int_0 && p.1 == args[1]->Int_0,
{
}

/// A circuit that drives its output with the bits of a number.
pub struct Constant {
    pub width: usize,
    pub value: isize,
}

impl Constant {
    pub fn new(args: &[ExtractedConst]) -> (r: Self)
        requires
            args@.len() == 2,
            args@[0] is Int,
            args@[1] is Int,
            spec_parse_constant(args@) is Ok,
        ensures
            r.value == spec_parse_constant(args@)->Ok_0.0,
            spec_parse_constant(args@)->Ok_0.1 == 0 ==> r.width == bit_length(r.value),
            spec_parse_constant(args@)->Ok_0.1 != 0 ==> r.width == spec_parse_constant(args@)->Ok_0.1,
    {
        let (value, width) = match parse_constant(args) {
            Ok(p) => p,
            Err(_) => (0, 1),
        };
        let width = if width == 0 {
            if value < 0 {
                isize::BITS as usize
            } else {
                proof {
                    vstd::std_specs::bits::axiom_u64_leading_zeros(value as u64);
                }
                (64 - (value as u64).leading_zeros()) as usize
            }
        } else {
            width
        };
        Constant { width, value }
    }

    /// The output bits: high where the value's bit is set, low elsewhere.
    pub open spec fn spec_outputs(&self) -> Seq<State> {
        Seq::new(
            self.width as nat,
            |i: int|
                if bit_set(self.value, i as usize) {
                    State::H
                } else {
                    State::L
                },
        )
    }

    /// Writes the bits of the value to the outputs.
    pub fn tick_internal(&self, state: &mut SimState)
        requires
            self.width <= isize::BITS,
            self.width > 0,
            word_of((self.width - 1) as nat) < old(state).outputs().len(),
        ensures
            final(state).outputs() == write_states(old(state).outputs(), self.spec_outputs()),
            final(state).inputs() == old(state).inputs(),
    {
        let mut outputs: Vec<State> = Vec::new();
        let mut i: usize = 0;
        while i < self.width
            invariant
                self.width <= isize::BITS,
                i <= self.width,
                outputs@ == self.spec_outputs().subrange(0, i as int),
            decreases self.width - i,
        {
            let set = (self.value & (1isize << i)) > 0;
            outputs.push(
                if set {
                    State::H
                } else {
                    State::L
                },
            );
            i = i + 1;
            assert(outputs@ =~= self.spec_outputs().subrange(0, i as int));
        }
        assert(outputs@ =~= self.spec_outputs());
        state.write_outputs(outputs.as_slice());
    }

    /// The single output pin of a constant of the width the arguments give.
    pub fn get_meta_internal(args: &[ExtractedConst]) -> (r: Result<CircMeta, &'static str>)
        requires
            args@.len() == 2,
            args@[0] is Int,
            args@[1] is Int,
        ensures
            r is Err <==> spec_parse_constant(args@) is Err,
            r matches Ok(m) ==> m.tick_behaviour == TickBehaviour::Once && m.pins@.len() == 1
                && m.pins@[0].direction == PinDirection::Output && m.pins@[0].width == spec_parse_constant(
                args@,
            )->Ok_0.1,
    {
        let (_, width) = match parse_constant(args) {
            Ok(p) => p,
            Err(e) => return Err(e),
        };
        let mut pins: Vec<PinMeta> = Vec::new();
        pins.push(PinMeta { name: "q", direction: PinDirection::Output, width });
        Ok(CircMeta { pins, tick_behaviour: TickBehaviour::Once })
    }
}

/// A circuit that reports the states of its inputs.
pub struct Probe {
    pub width: usize,
}

impl Probe {
    /// A probe of the width its argument gives, cast as it is.
    pub fn new(args: &[ExtractedConst]) -> (r: Self)
        requires
            args@.len() == 1,
            args@[0] is Int,
        ensures
            r.width == args@[0]->Int_0 as usize,
    {
        let width = match &args[0] {
            ExtractedConst::Int(w) => *w as usize,
            _ => 0,
        };
        Probe { width }
    }

    /// The states of the inputs, which a tick reports.
    pub fn tick_internal(&self, state: &SimState) -> (r: Vec<State>)
        requires
            self.width * 2 <= usize::MAX,
            self.width == 0 || word_of((self.width - 1) as nat) < state.inputs().len(),
        ensures
            r@ == read_states(state.inputs(), 0, self.width as nat),
    {
        let r = state.read_inputs(self.width);
        assert(r@ =~= read_states(state.inputs(), 0, self.width as nat));
        r
    }

    /// The single input pin of a probe; a probe is ticked when its inputs change.
    pub fn get_meta_internal(args: &[ExtractedConst]) -> (r: Result<CircMeta, &'static str>)
        requires
            args@.len() == 1,
            args@[0] is Int,
        ensures
            r is Err <==> args@[0]->Int_0 as usize == 0,
            r matches Err(m) ==> m@ == "width cannot be 0"@,
            r matches Ok(m) ==> m.tick_behaviour == TickBehaviour::OnChange && m.pins@.len() == 1
                && m.pins@[0].direction == PinDirection::Input && m.pins@[0].width == args@[0]->Int_0 as usize,
    {
        let p = Probe::new(args);
        if p.width == 0 {
            Err("width cannot be 0")
        } else {
            let mut pins: Vec<PinMeta> = Vec::new();
            pins.push(PinMeta { name: "a", direction: PinDirection::Input, width: p.width });
            Ok(CircMeta { pins, tick_behaviour: TickBehaviour::OnChange })
        }
    }
}

} // verus!
