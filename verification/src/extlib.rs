//! The interface between the compiler and libraries of circuits: constant
//! values handed to a library, pin states and the packed state buffers.
use vstd::prelude::*;

verus! {

/// The type of a constant handed to a library.
#[derive(Debug, Clone, Copy, PartialEq, Eq, Structural, Hash)]
pub enum ConstType {
    Bool,
    Int,
    Enum,
}

/// Which field of a constant handed to a library holds its value.
#[derive(Debug, Clone, Copy, PartialEq, Eq, Structural, Hash)]
pub enum ConstValueType {
    Bool,
    Int,
    Enum,
    NoValue,
}

/// The value of a constant handed to a library.
#[derive(Debug, Clone, Copy, PartialEq, Eq, Structural)]
pub enum ConstValueInner {
    NoValue,
    Bool(bool),
    Int(isize),
    Enum,
}

/// A constant handed to a library: its type tag and its value.
#[derive(Debug, Clone, Copy)]
pub struct ConstValue {
    pub t: ConstValueType,
    pub v: ConstValueInner,
}

impl ConstValue {
    /// The tag names the field that holds the value.
    pub open spec fn wf(self) -> bool {
        match self.t {
            ConstValueType::NoValue => self.v is NoValue,
            ConstValueType::Bool => self.v is Bool,
            ConstValueType::Int => self.v is Int,
            ConstValueType::Enum => self.v is Enum,
        }
    }

    /// The constant that stands for "no value".
    pub fn none() -> (r: Self)
        ensures
            r.wf(),
            r.t == ConstValueType::NoValue,
    {
        ConstValue { t: ConstValueType::NoValue, v: ConstValueInner::NoValue }
    }

    pub fn from_bool(value: bool) -> (r: Self)
        ensures
            r.wf(),
            r.t == ConstValueType::Bool,
            r.v == ConstValueInner::Bool(value),
    {
        ConstValue { t: ConstValueType::Bool, v: ConstValueInner::Bool(value) }
    }

    pub fn from_int(value: isize) -> (r: Self)
        ensures
            r.wf(),
            r.t == ConstValueType::Int,
            r.v == ConstValueInner::Int(value),
    {
        ConstValue { t: ConstValueType::Int, v: ConstValueInner::Int(value) }
    }
}

/// The direction of a pin of a library circuit.
#[derive(Debug, Clone, Copy, PartialEq, Eq, Structural, Hash)]
pub enum PinDirection {
    Input,
    Output,
    Transput,
}

/// When a library circuit is ticked.
#[derive(Debug, Clone, Copy, PartialEq, Eq, Structural, Hash)]
pub enum TickBehaviour {
    Always,
    OnChange,
    Once,
}

/// What the simulation tells a circuit when it ticks it.
#[derive(Debug, Clone, Copy)]
pub struct RuntimeState {
    pub ticks: usize,
}

/// The state of a wire: floating, low, high, or in error.
#[derive(Debug, Clone, Copy, PartialEq, Eq, Structural)]
pub enum State {
    Z,
    L,
    H,
    E,
}

/// The two-bit code of a state.
pub open spec fn state_code(s: State) -> usize {
    match s {
        State::Z => 0,
        State::L => 1,
        State::H => 2,
        State::E => 3,
    }
}

/// The state of a two-bit code.
pub open spec fn state_of(code: usize) -> State {
    if code == 0 {
        State::Z
    } else if code == 1 {
        State::L
    } else if code == 2 {
        State::H
    } else {
        State::E
    }
}

/// The word that holds the state of wire `index`: each wire takes two bits,
/// so a word holds half as many wires as it has bits.
pub open spec fn word_of(index: nat) -> nat {
    (index * 2) / (usize::BITS as nat)
}

/// The bit at which the state of wire `index` starts inside its word.
pub open spec fn shift_of(index: nat) -> nat {
    (index * 2) % (usize::BITS as nat)
}

/// The state of wire `index` in a packed buffer.
pub open spec fn read_state(words: Seq<usize>, index: nat) -> State {
    state_of((words[word_of(index) as int] >> (shift_of(index) as usize)) & 3)
}

/// The buffer after the state of wire `index` is set to `value`.
pub open spec fn write_state(words: Seq<usize>, index: nat, value: State) -> Seq<usize> {
    let w = word_of(index) as int;
    let s = shift_of(index) as usize;
    words.update(w, (words[w] & !(3usize << s)) | (state_code(value) << s))
}

/// The buffer after the states of wires `0..values.len()` are set in turn.
pub open spec fn write_states(words: Seq<usize>, values: Seq<State>) -> Seq<usize>
    decreases values.len(),
{
    if values.len() == 0 {
        words
    } else {
        write_state(write_states(words, values.drop_last()), (values.len() - 1) as nat, values.last())
    }
}

proof fn lemma_code_roundtrip(x: usize, s: usize, c: usize)
    requires
        s < usize::BITS,
        s % 2 == 0,
        c < 4,
    ensures
        ((((x & !(3usize << s)) | (c << s)) >> s) & 3) == c,
{
    assert(((((x & !(3usize << s)) | (c << s)) >> s) & 3) == c) by (bit_vector)
        requires
            s < usize::BITS,
            s % 2 == 0,
            c < 4,
    ;
}

proof fn lemma_code_other(x: usize, s: usize, t: usize, c: usize)
    requires
        s < usize::BITS,
        t < usize::BITS,
        s % 2 == 0,
        t % 2 == 0,
        s != t,
        c < 4,
    ensures
        ((((x & !(3usize << s)) | (c << s)) >> t) & 3) == ((x >> t) & 3),
{
    assert(((((x & !(3usize << s)) | (c << s)) >> t) & 3) == ((x >> t) & 3)) by (bit_vector)
        requires
            s < usize::BITS,
            t < usize::BITS,
            s % 2 == 0,
            t % 2 == 0,
            s != t,
            c < 4,
    ;
}

proof fn lemma_shift_even(index: nat)
    ensures
        shift_of(index) % 2 == 0,
        shift_of(index) < usize::BITS,
{
    assert(usize::BITS == 32 || usize::BITS == 64);
    assert((index * 2) % (usize::BITS as nat) % 2 == 0) by (nonlinear_arith)
        requires
            usize::BITS == 32 || usize::BITS == 64,
    ;
}

/// States are held as two-bit codes: floating 0, low 1, high 2, error 3,
/// and each code reads back as its state.
pub proof fn lemma_state_codes(st: State)
    ensures
        state_code(State::Z) == 0,
        state_code(State::L) == 1,
        state_code(State::H) == 2,
        state_code(State::E) == 3,
        state_of(state_code(st)) == st,
{
}

/// Wire `index` takes bits `2 * index` and `2 * index + 1` of the buffer
/// read as one string of bits, word after word.
pub proof fn lemma_wire_position(index: nat)
    ensures
        word_of(index) * (usize::BITS as nat) + shift_of(index) == 2 * index,
        shift_of(index) + 2 <= usize::BITS,
{
    let b = usize::BITS as nat;
    assert(usize::BITS == 32 || usize::BITS == 64);
    vstd::arithmetic::div_mod::lemma_fundamental_div_mod((index * 2) as int, b as int);
    assert(word_of(index) * b == b * word_of(index)) by (nonlinear_arith);
    lemma_shift_even(index);
}

/// Setting the state of a wire and reading it back gives the state that was set.
pub proof fn lemma_write_then_read(words: Seq<usize>, index: nat, value: State)
    requires
        word_of(index) < words.len(),
    ensures
        read_state(write_state(words, index, value), index) == value,
{
    lemma_shift_even(index);
    let w = word_of(index) as int;
    let s = shift_of(index) as usize;
    lemma_code_roundtrip(words[w], s, state_code(value));
}

/// Setting the state of a wire leaves the state of every wire held in other
/// bits as it was.
pub proof fn lemma_write_keeps_others(words: Seq<usize>, index: nat, value: State, other: nat)
    requires
        word_of(index) < words.len(),
        word_of(other) < words.len(),
        word_of(other) != word_of(index) || shift_of(other) != shift_of(index),
    ensures
        read_state(write_state(words, index, value), other) == read_state(words, other),
{
    lemma_shift_even(index);
    lemma_shift_even(other);
    let w = word_of(index) as int;
    if word_of(other) == word_of(index) {
        lemma_code_other(words[w], shift_of(index) as usize, shift_of(other) as usize, state_code(value));
    }
}

/// Two different wires never share their bits.
pub proof fn lemma_wires_apart(index: nat, other: nat)
    requires
        index != other,
    ensures
        word_of(index) != word_of(other) || shift_of(index) != shift_of(other),
{
    let b = usize::BITS as nat;
    assert(b > 0) by {
        assert(usize::BITS == 32 || usize::BITS == 64);
    }
    vstd::arithmetic::div_mod::lemma_fundamental_div_mod((index * 2) as int, b as int);
    vstd::arithmetic::div_mod::lemma_fundamental_div_mod((other * 2) as int, b as int);
}

/// The inputs and outputs of a library circuit as packed buffers: each wire
/// takes two bits.
#[derive(Debug)]
pub struct SimState {
    rt: RuntimeState,
    inputs: Vec<usize>,
    outputs: Vec<usize>,
}

impl SimState {
    pub closed spec fn inputs(&self) -> Seq<usize> {
        self.inputs@
    }

    pub closed spec fn outputs(&self) -> Seq<usize> {
        self.outputs@
    }

    pub closed spec fn runtime(&self) -> RuntimeState {
        self.rt
    }

    /// What the simulation told the circuit.
    pub fn rt(&self) -> (r: RuntimeState)
        ensures
            r == self.runtime(),
    {
        self.rt
    }

    pub fn new(rt: RuntimeState, inputs: Vec<usize>, outputs: Vec<usize>) -> (s: Self)
        ensures
            s.runtime() == rt,
            s.inputs() == inputs@,
            s.outputs() == outputs@,
    {
        SimState { rt, inputs, outputs }
    }

    /// The word that holds wire `index` and the bit at which it starts.
    fn get_shift(index: usize) -> (r: (usize, usize))
        requires
            index * 2 <= usize::MAX,
        ensures
            r.0 == word_of(index as nat),
            r.1 == shift_of(index as nat),
    {
        let bit_index = index * 2;
        let bits = usize::BITS as usize;
        let word = bit_index / bits;
        let shift = bit_index % bits;
        (word, shift)
    }

    /// The word, the shift and the mask that selects the two bits of wire `index`.
    fn get_read_mask(index: usize) -> (r: (usize, usize, usize))
        requires
            index * 2 <= usize::MAX,
        ensures
            r.0 == word_of(index as nat),
            r.1 == shift_of(index as nat),
            r.2 == 3usize << r.1,
    {
        let (word, shift) = Self::get_shift(index);
        proof {
            lemma_shift_even(index as nat);
        }
        (word, shift, 3usize << shift)
    }

    /// The word and the bits that set wire `index` to `v` once it is clear.
    fn get_set_mask(index: usize, v: State) -> (r: (usize, usize))
        requires
            index * 2 <= usize::MAX,
        ensures
            r.0 == word_of(index as nat),
            r.1 == state_code(v) << (shift_of(index as nat) as usize),
    {
        let (word, shift) = Self::get_shift(index);
        proof {
            lemma_shift_even(index as nat);
        }
        let v: usize = match v {
            State::Z => 0,
            State::L => 1,
            State::H => 2,
            State::E => 3,
        };
        (word, v << shift)
    }

    /// The word and the mask that clears the two bits of wire `index`.
    fn get_clear_mask(index: usize) -> (r: (usize, usize))
        requires
            index * 2 <= usize::MAX,
        ensures
            r.0 == word_of(index as nat),
            r.1 == !(3usize << (shift_of(index as nat) as usize)),
    {
        let (word, shift) = Self::get_shift(index);
        proof {
            lemma_shift_even(index as nat);
        }
        let mask = 3usize << shift;
        (word, !mask)
    }

    fn get_masks(index: usize, value: State) -> (r: (usize, usize, usize))
        requires
            index * 2 <= usize::MAX,
        ensures
            r.0 == word_of(index as nat),
            r.1 == !(3usize << (shift_of(index as nat) as usize)),
            r.2 == state_code(value) << (shift_of(index as nat) as usize),
    {
        let (word, clear_mask) = Self::get_clear_mask(index);
        let (_, set_mask) = Self::get_set_mask(index, value);
        (word, clear_mask, set_mask)
    }

    /// The state of input wire `index`.
    pub fn read_input(&self, index: usize) -> (r: State)
        requires
            index * 2 <= usize::MAX,
            word_of(index as nat) < self.inputs().len(),
        ensures
            r == read_state(self.inputs(), index as nat),
    {
        let (word, shift, mask) = Self::get_read_mask(index);
        let x = self.inputs[word];
        let v = (x & mask) >> shift;
        assert(v == (x >> shift) & 3 && v < 4) by (bit_vector)
            requires
                mask == 3usize << shift,
                shift < usize::BITS,
                v == (x & mask) >> shift,
        ;
        proof {
            lemma_shift_even(index as nat);
        }
        if v == 0 {
            State::Z
        } else if v == 1 {
            State::L
        } else if v == 2 {
            State::H
        } else {
            State::E
        }
    }

    /// The states of input wires `0..count`.
    pub fn read_inputs(&self, count: usize) -> (r: Vec<State>)
        requires
            count * 2 <= usize::MAX,
            count == 0 || word_of((count - 1) as nat) < self.inputs().len(),
        ensures
            r@.len() == count,
            forall|i: int| 0 <= i < count ==> #[trigger] r@[i] == read_state(self.inputs(), i as nat),
    {
        let mut r: Vec<State> = Vec::new();
        let mut i: usize = 0;
        while i < count
            invariant
                count * 2 <= usize::MAX,
                count == 0 || word_of((count - 1) as nat) < self.inputs().len(),
                i <= count,
                r@.len() == i,
                forall|k: int| 0 <= k < i ==> #[trigger] r@[k] == read_state(self.inputs(), k as nat),
            decreases count - i,
        {
            assert(word_of(i as nat) <= word_of((count - 1) as nat)) by (nonlinear_arith)
                requires
                    i <= count - 1,
                    usize::BITS > 0,
            ;
            r.push(self.read_input(i));
            i = i + 1;
        }
        r
    }

    /// Sets output wire `index` to `value`.
    pub fn write_output(&mut self, index: usize, value: State)
        requires
            index * 2 <= usize::MAX,
            word_of(index as nat) < old(self).outputs().len(),
        ensures
            final(self).outputs() == write_state(old(self).outputs(), index as nat, value),
            final(self).inputs() == old(self).inputs(),
            final(self).runtime() == old(self).runtime(),
    {
        let (word, clear, set) = Self::get_masks(index, value);
        let x = self.outputs[word];
        self.outputs.set(word, (x & clear) | set);
    }

    /// Sets output wires `0..outputs.len()` to `outputs`, in order.
    pub fn write_outputs(&mut self, outputs: &[State])
        requires
            outputs@.len() * 2 <= usize::MAX,
            outputs@.len() == 0 || word_of((outputs@.len() - 1) as nat) < old(self).outputs().len(),
        ensures
            final(self).outputs() == write_states(old(self).outputs(), outputs@),
            final(self).inputs() == old(self).inputs(),
            final(self).runtime() == old(self).runtime(),
    {
        let n = outputs.len();
        let mut i: usize = 0;
        while i < n
            invariant
                n == outputs@.len(),
                n * 2 <= usize::MAX,
                n == 0 || word_of((n - 1) as nat) < old(self).outputs().len(),
                i <= n,
                self.outputs().len() == old(self).outputs().len(),
                self.outputs() == write_states(old(self).outputs(), outputs@.subrange(0, i as int)),
                self.inputs() == old(self).inputs(),
                self.runtime() == old(self).runtime(),
            decreases n - i,
        {
            assert(word_of(i as nat) <= word_of((n - 1) as nat)) by (nonlinear_arith)
                requires
                    i <= n - 1,
                    usize::BITS > 0,
            ;
            self.write_output(i, outputs[i]);
            let ghost prefix = outputs@.subrange(0, i + 1);
            assert(prefix.drop_last() =~= outputs@.subrange(0, i as int));
            i = i + 1;
        }
        assert(outputs@.subrange(0, n as int) =~= outputs@);
    }
}

/// A constant read back from what a library was handed.
#[derive(Debug)]
pub enum ExtractedConst {
    NoValue,
    Int(isize),
    Bool(bool),
    EnumValue(String),
}

/// The value a constant holds, read by its tag.
pub open spec fn spec_extract(c: ConstValue) -> ExtractedConst {
    match c.v {
        ConstValueInner::NoValue => ExtractedConst::NoValue,
        ConstValueInner::Int(i) => ExtractedConst::Int(i),
        ConstValueInner::Bool(b) => ExtractedConst::Bool(b),
        ConstValueInner::Enum => ExtractedConst::NoValue,
    }
}

/// Reads the value of a constant by its tag. Enum values are not read.
pub fn extract_const(c: &ConstValue) -> (r: ExtractedConst)
    requires
        c.wf(),
        c.t != ConstValueType::Enum,
    ensures
        r == spec_extract(*c),
{
    match c.v {
        ConstValueInner::NoValue => ExtractedConst::NoValue,
        ConstValueInner::Int(i) => ExtractedConst::Int(i),
        ConstValueInner::Bool(b) => ExtractedConst::Bool(b),
        ConstValueInner::Enum => ExtractedConst::NoValue,
    }
}

/// Reads each constant of `c` by its tag.
pub fn extract_consts(c: &[ConstValue]) -> (r: Vec<ExtractedConst>)
    requires
        forall|i: int| 0 <= i < c@.len() ==> (#[trigger] c@[i]).wf() && c@[i].t != ConstValueType::Enum,
    ensures
        r@.len() == c@.len(),
        forall|i: int| 0 <= i < c@.len() ==> #[trigger] r@[i] == spec_extract(c@[i]),
{
    let mut r: Vec<ExtractedConst> = Vec::new();
    let n = c.len();
    let mut i: usize = 0;
    while i < n
        invariant
            n == c@.len(),
            i <= n,
            r@.len() == i,
            forall|k: int| 0 <= k < c@.len() ==> (#[trigger] c@[k]).wf() && c@[k].t != ConstValueType::Enum,
            forall|k: int| 0 <= k < i ==> #[trigger] r@[k] == spec_extract(c@[k]),
        decreases n - i,
    {
        r.push(extract_const(&c[i]));
        i = i + 1;
    }
    r
}

} // verus!
