//! Four-valued logic, strings of values read as numbers, and the tables that
//! give a circuit's outputs for each row of inputs.
use vstd::prelude::*;
use vstd::arithmetic::div_mod::{lemma_div_denominator, lemma_mod_breakdown, lemma_mod_mod};
use vstd::arithmetic::power2::{lemma2_to64, lemma_pow2_adds, lemma_pow2_pos, pow2};
use vstd::bits::lemma_u128_shr_is_div;

use std::rc::Rc;

use crate::analyser::pins::PinId;

verus! {

/// The value of a wire: floating, low, high, or in error.
#[derive(Debug, Clone, Copy, PartialEq, Eq, Structural, PartialOrd, Ord)]
pub enum Value {
    Z,
    L,
    H,
    E,
}

/// The two-bit code of a value.
pub open spec fn code_of(v: Value) -> nat {
    match v {
        Value::Z => 0,
        Value::L => 1,
        Value::H => 2,
        Value::E => 3,
    }
}

/// The value with a two-bit code.
pub open spec fn value_of_code(c: nat) -> Value {
    if c == 0 {
        Value::Z
    } else if c == 1 {
        Value::L
    } else if c == 2 {
        Value::H
    } else {
        Value::E
    }
}

impl Value {
    pub fn value(&self) -> (r: u8)
        ensures
            r == code_of(*self),
    {
        match self {
            Value::Z => 0,
            Value::L => 1,
            Value::H => 2,
            Value::E => 3,
        }
    }

    /// The value with code `value`.
    pub fn from_code(value: u8) -> (r: Self)
        requires
            value < 4,
        ensures
            r == value_of_code(value as nat),
            code_of(r) == value,
    {
        if value == 0 {
            Value::Z
        } else if value == 1 {
            Value::L
        } else if value == 2 {
            Value::H
        } else {
            Value::E
        }
    }

    /// Two values driving one wire: the codes are or-ed together, so a low and
    /// a high give an error and a floating value gives way to the other.
    pub fn combine(&self, other: &Self) -> (r: Self)
        ensures
            code_of(r) == ((code_of(*self) as u8) | (code_of(*other) as u8)) as nat,
    {
        let a = self.value();
        let b = other.value();
        assert(a | b < 4) by (bit_vector)
            requires
                a < 4,
                b < 4,
        ;
        Self::from_code(a | b)
    }
}

/// A string of values read as a number, two bits per value, the first value
/// being the least significant.
pub open spec fn string_value(s: Seq<Value>) -> nat
    decreases s.len(),
{
    if s.len() == 0 {
        0
    } else {
        code_of(s[0]) + 4 * string_value(s.drop_first())
    }
}

/// Value `i` of the number `v` read in base four.
pub open spec fn digit(v: nat, i: nat) -> nat {
    (v / pow2(2 * i)) % 4
}

/// The first `n` values of the number `v` read in base four.
pub open spec fn digits(v: nat, n: nat) -> Seq<Value> {
    Seq::new(n, |i: int| value_of_code(digit(v, i as nat)))
}

proof fn lemma_pow2_double_step(i: nat)
    ensures
        pow2(2 * (i + 1)) == 4 * pow2(2 * i),
        pow2(2) == 4,
{
    lemma2_to64();
    lemma_pow2_adds(2, 2 * i);
    assert(2 * (i + 1) == 2 + 2 * i);
}

proof fn lemma_digit_shift(v: nat, i: nat)
    ensures
        digit(v, i + 1) == digit(v / 4, i),
{
    lemma_pow2_double_step(i);
    lemma_pow2_pos(2 * i);
    lemma_div_denominator(v as int, 4, pow2(2 * i) as int);
}

/// Reading back the first `n` base-four values of `v` gives `v` modulo `4^n`.
pub proof fn lemma_digits_value(v: nat, n: nat)
    ensures
        string_value(digits(v, n)) == v % pow2(2 * n),
    decreases n,
{
    lemma2_to64();
    if n == 0 {
        assert(pow2(0) == 1);
    } else {
        let d = digits(v, n);
        assert(d.drop_first() =~= digits(v / 4, (n - 1) as nat)) by {
            assert forall|i: int| 0 <= i < n - 1 implies d.drop_first()[i] == digits(v / 4, (n - 1) as nat)[i] by {
                lemma_digit_shift(v, i as nat);
            }
        }
        lemma_digits_value(v / 4, (n - 1) as nat);
        assert(digit(v, 0) == v % 4) by {
            assert(pow2(0) == 1);
            assert(2 * 0nat == 0nat);
            assert(v / 1 == v);
        }
        assert(code_of(value_of_code(v % 4)) == v % 4);
        lemma_pow2_double_step((n - 1) as nat);
        lemma_pow2_pos(2 * (n - 1) as nat);
        lemma_mod_breakdown(v as int, 4, pow2(2 * (n - 1) as nat) as int);
    }
}

proof fn lemma_string_value_bound(s: Seq<Value>)
    ensures
        string_value(s) < pow2(2 * s.len()),
    decreases s.len(),
{
    lemma2_to64();
    if s.len() > 0 {
        lemma_string_value_bound(s.drop_first());
        lemma_pow2_double_step((s.len() - 1) as nat);
    }
}

proof fn lemma_string_value_suffix(s: Seq<Value>, i: int)
    requires
        0 < i <= s.len(),
    ensures
        string_value(s.subrange(i - 1, s.len() as int)) == code_of(s[i - 1]) + 4 * string_value(
            s.subrange(i, s.len() as int),
        ),
{
    assert(s.subrange(i - 1, s.len() as int).drop_first() =~= s.subrange(i, s.len() as int));
}

/// A string of values.
#[derive(Debug)]
pub struct BitString {
    values: Vec<Value>,
}

impl BitString {
    pub closed spec fn view(&self) -> Seq<Value> {
        self.values@
    }

    /// The values.
    pub fn values(&self) -> (r: &[Value])
        ensures
            r@ == self.view(),
    {
        self.values.as_slice()
    }

    pub fn from_slice(values: &[Value]) -> (r: Self)
        ensures
            r.view() == values@,
    {
        let mut v: Vec<Value> = Vec::new();
        let n = values.len();
        let mut i: usize = 0;
        while i < n
            invariant
                n == values@.len(),
                i <= n,
                v@ == values@.subrange(0, i as int),
            decreases n - i,
        {
            v.push(values[i]);
            i = i + 1;
            assert(v@ =~= values@.subrange(0, i as int));
        }
        assert(values@.subrange(0, n as int) =~= values@);
        BitString { values: v }
    }

    /// The values read as a number, two bits each, the first value the least
    /// significant; only the low 128 bits are kept.
    pub fn value(&self) -> (r: u128)
        ensures
            r == string_value(self.view()) % pow2(128),
            self.view().len() <= 64 ==> r == string_value(self.view()),
    {
        let n = self.values.len();
        let mut acc: u128 = 0;
        let mut i: usize = n;
        proof {
            lemma2_to64();
            lemma_pow2_adds(64, 64);
            lemma_pow2_adds(126, 2);
            assert(self.view().subrange(n as int, n as int) =~= Seq::<Value>::empty());
        }
        let ghost m: int = pow2(128) as int;
        let ghost q: int = pow2(126) as int;
        while i > 0
            invariant
                n == self.view().len(),
                i <= n,
                m == pow2(128),
                m == 0x1_0000_0000_0000_0000_0000_0000_0000_0000,
                q == pow2(126),
                m == 4 * q,
                acc == string_value(self.view().subrange(i as int, n as int)) % (m as nat),
            decreases i,
        {
            let c = self.values[i - 1].value();
            let ghost big = string_value(self.view().subrange(i as int, n as int));
            assert((acc << 2) == (acc & 0x3fff_ffff_ffff_ffff_ffff_ffff_ffff_ffffu128) * 4
                && (acc & 0x3fff_ffff_ffff_ffff_ffff_ffff_ffff_ffffu128) == acc % 0x4000_0000_0000_0000_0000_0000_0000_0000u128
                && (acc & 0x3fff_ffff_ffff_ffff_ffff_ffff_ffff_ffffu128) < 0x4000_0000_0000_0000_0000_0000_0000_0000u128)
                by (bit_vector);
            let low = acc & 0x3fff_ffff_ffff_ffff_ffff_ffff_ffff_ffffu128;
            proof {
                lemma_mod_mod(big as int, q, 4);
                assert((acc as int) == (big as int) % (q * 4));
                assert((acc as int) % q == (big as int) % q);
                lemma_string_value_suffix(self.view(), i as int);
                let next: int = c + 4 * big;
                assert(next / 4 == big && next % 4 == c) by (nonlinear_arith)
                    requires
                        next == c + 4 * big,
                        0 <= c < 4,
                        big >= 0,
                ;
                lemma_mod_breakdown(next, 4, q);
                assert(low * 4 + c == next % m);
                assert(low == (acc as int) % q);
            }
            acc = (acc << 2) + (c as u128);
            i = i - 1;
        }
        proof {
            assert(self.view().subrange(0, n as int) =~= self.view());
            if n <= 64 {
                lemma_string_value_bound(self.view());
                if 2 * n < 128 {
                    vstd::arithmetic::power2::lemma_pow2_strictly_increases(2 * n as nat, 128);
                } else {
                    assert(2 * n == 128);
                }
                vstd::arithmetic::div_mod::lemma_small_mod(string_value(self.view()), pow2(128));
            }
        }
        acc
    }

    /// The first `count` base-four values of `v`.
    pub fn from_value(v: u128, count: usize) -> (r: Self)
        requires
            count <= 64,
        ensures
            r.view() == digits(v as nat, count as nat),
    {
        let mut result: Vec<Value> = Vec::new();
        let mut i: usize = 0;
        while i < count
            invariant
                count <= 64,
                i <= count,
                result@ == digits(v as nat, count as nat).subrange(0, i as int),
            decreases count - i,
        {
            let shift: u32 = (2 * i) as u32;
            let value = (((3u128 << shift) & v) >> shift) as u8;
            proof {
                assert(value == (v >> shift) % 4 && value < 4) by (bit_vector)
                    requires
                        shift < 128,
                        value == (((3u128 << shift) & v) >> shift) as u8,
                ;
                lemma_u128_shr_is_div(v, shift as u128);
                assert(value == digit(v as nat, i as nat));
            }
            result.push(Value::from_code(value));
            i = i + 1;
            assert(result@ =~= digits(v as nat, count as nat).subrange(0, i as int));
        }
        assert(digits(v as nat, count as nat).subrange(0, count as int) =~= digits(v as nat, count as nat));
        BitString { values: result }
    }
}

/// Reading back the string made from the first `count` base-four values of
/// `v` gives `v` modulo `4^count`.
pub proof fn lemma_from_value_roundtrip(v: u128, count: nat)
    requires
        count <= 64,
    ensures
        string_value(digits(v as nat, count)) == (v as nat) % pow2(2 * count),
        string_value(digits(v as nat, count)) < pow2(128),
{
    lemma_digits_value(v as nat, count);
    lemma_string_value_bound(digits(v as nat, count));
    if 2 * count < 128 {
        vstd::arithmetic::power2::lemma_pow2_strictly_increases(2 * count, 128);
    }
}

/// An input or output bit of a circuit: a bit of one of its pins, or of a pin
/// of one of its dependencies.
#[derive(Debug, Copy, Clone, Eq, PartialEq, Structural, Hash)]
pub enum BitEndpoint {
    Pin { pin_id: PinId, bit: usize },
    Dependency { dependency_id: usize, pin_id: PinId, bit: usize },
}

/// For each row of inputs, the values of the outputs.
#[derive(Debug)]
pub struct TruthTable {
    inputs: Vec<(BitEndpoint, usize)>,
    outputs: Vec<(BitEndpoint, usize)>,
    rows: Vec<BitString>,
}

impl TruthTable {
    pub closed spec fn spec_rows(&self) -> Seq<BitString> {
        self.rows@
    }

    /// Each input bit and the position of its value in a row of inputs.
    pub closed spec fn spec_inputs(&self) -> Seq<(BitEndpoint, usize)> {
        self.inputs@
    }

    /// Each output bit and the position of its value in a row of outputs.
    pub closed spec fn spec_outputs(&self) -> Seq<(BitEndpoint, usize)> {
        self.outputs@
    }

    pub fn inputs(&self) -> (r: &[(BitEndpoint, usize)])
        ensures
            r@ == self.spec_inputs(),
    {
        self.inputs.as_slice()
    }

    pub fn outputs(&self) -> (r: &[(BitEndpoint, usize)])
        ensures
            r@ == self.spec_outputs(),
    {
        self.outputs.as_slice()
    }

    pub fn new(inputs: Vec<(BitEndpoint, usize)>, outputs: Vec<(BitEndpoint, usize)>, rows: Vec<BitString>) -> (t: Self)
        ensures
            t.spec_inputs() == inputs@,
            t.spec_outputs() == outputs@,
            t.spec_rows() == rows@,
    {
        TruthTable { inputs, outputs, rows }
    }

    pub fn row_count(&self) -> (n: usize)
        ensures
            n == self.spec_rows().len(),
    {
        self.rows.len()
    }

    /// The rows in order.
    pub fn iter_rows(&self) -> (r: &[BitString])
        ensures
            r@ == self.spec_rows(),
    {
        self.rows.as_slice()
    }
}

// ---------------------------------------------------------------------------
// Tables of one output.
// ---------------------------------------------------------------------------

/// `4^n`, the number of rows of a table of `n` inputs.
pub open spec fn pow4(n: nat) -> nat {
    pow2(2 * n)
}

/// The value that combining `a` and `b` gives.
pub open spec fn combine_spec(a: Value, b: Value) -> Value {
    value_of_code(((code_of(a) as u8) | (code_of(b) as u8)) as nat)
}

/// No endpoint is named twice.
pub open spec fn names_distinct<T>(s: Seq<(BitEndpoint, T)>) -> bool {
    forall|a: int, b: int| 0 <= a < b < s.len() ==> (#[trigger] s[a]).0 != (#[trigger] s[b]).0
}

/// Whether `assign` gives a value to `e`.
pub open spec fn assigns(assign: Seq<(BitEndpoint, Value)>, e: BitEndpoint) -> bool {
    exists|i: int| 0 <= i < assign.len() && (#[trigger] assign[i]).0 == e
}

/// The value `assign` gives to `e`.
pub open spec fn assigned(assign: Seq<(BitEndpoint, Value)>, e: BitEndpoint) -> Value {
    assign[choose|i: int| 0 <= i < assign.len() && (#[trigger] assign[i]).0 == e].1
}

proof fn lemma_code_roundtrip(v: Value)
    ensures
        value_of_code(code_of(v)) == v,
        code_of(v) < 4,
{
}

/// Values are held as two-bit codes: floating 0, low 1, high 2, error 3.
pub proof fn lemma_value_codes(v: Value)
    ensures
        code_of(Value::Z) == 0,
        code_of(Value::L) == 1,
        code_of(Value::H) == 2,
        code_of(Value::E) == 3,
        value_of_code(code_of(v)) == v,
{
}

/// Two values driving one wire: a floating value gives way to the other, an
/// error stays an error, equal values agree, and a low against a high is an
/// error; the order of the two does not matter.
pub proof fn lemma_combine(a: Value, b: Value)
    ensures
        combine_spec(Value::Z, a) == a,
        combine_spec(a, Value::E) == Value::E,
        combine_spec(a, a) == a,
        combine_spec(Value::L, Value::H) == Value::E,
        combine_spec(a, b) == combine_spec(b, a),
{
    let ca = code_of(a) as u8;
    let cb = code_of(b) as u8;
    assert(0u8 | ca == ca) by (bit_vector);
    assert(ca | 3u8 == 3u8) by (bit_vector) requires ca < 4;
    assert(ca | ca == ca) by (bit_vector);
    assert(1u8 | 2u8 == 3u8) by (bit_vector);
    assert(ca | cb == cb | ca) by (bit_vector);
}

/// The table of one output: for each row of input values, read as a number,
/// the output value.
#[derive(Debug)]
pub struct TreeTable {
    inputs: Vec<(BitEndpoint, usize)>,
    rows: Vec<Value>,
}

impl TreeTable {
    /// Each input and the position of its value in a row.
    pub closed spec fn spec_inputs(&self) -> Seq<(BitEndpoint, usize)> {
        self.inputs@
    }

    pub closed spec fn spec_rows(&self) -> Seq<Value> {
        self.rows@
    }

    /// At most fifteen distinct inputs, numbered `0..n` in some order, and a
    /// row for each combination of their values.
    pub open spec fn wf(&self) -> bool {
        &&& inputs_wf(self.spec_inputs())
        &&& self.spec_rows().len() == pow4(self.spec_inputs().len())
    }

    /// The row of input values under `assign`: position `i` holds the value
    /// of the input numbered `i`.
    pub open spec fn input_row(&self, assign: Seq<(BitEndpoint, Value)>) -> Seq<Value> {
        input_row_of(self.spec_inputs(), assign)
    }

    /// Whether `assign` gives a value to every input.
    pub open spec fn covered_by(&self, assign: Seq<(BitEndpoint, Value)>) -> bool {
        forall|k: int| 0 <= k < self.spec_inputs().len() ==> assigns(assign, (#[trigger] self.spec_inputs()[k]).0)
    }

    /// The output under `assign`.
    pub open spec fn spec_query_map(&self, assign: Seq<(BitEndpoint, Value)>) -> Value {
        self.spec_rows()[string_value(self.input_row(assign)) as int]
    }
}

/// Distinct inputs, at most fifteen, numbered `0..n` in some order.
pub open spec fn inputs_wf(inputs: Seq<(BitEndpoint, usize)>) -> bool {
    &&& inputs.len() <= 15
    &&& names_distinct(inputs)
    &&& forall|k: int| 0 <= k < inputs.len() ==> (#[trigger] inputs[k]).1 < inputs.len()
    &&& forall|a: int, b: int| 0 <= a < b < inputs.len() ==> (#[trigger] inputs[a]).1 != (#[trigger] inputs[b]).1
}

/// The input numbered `i`.
pub open spec fn input_at(inputs: Seq<(BitEndpoint, usize)>, i: int) -> int {
    choose|k: int| 0 <= k < inputs.len() && (#[trigger] inputs[k]).1 == i
}

pub open spec fn input_row_of(inputs: Seq<(BitEndpoint, usize)>, assign: Seq<(BitEndpoint, Value)>) -> Seq<Value> {
    Seq::new(inputs.len(), |i: int| assigned(assign, inputs[input_at(inputs, i)].0))
}

/// The inputs of a table numbered `0..n` cover every position.
proof fn lemma_input_at(inputs: Seq<(BitEndpoint, usize)>, i: int)
    requires
        inputs_wf(inputs),
        0 <= i < inputs.len(),
    ensures
        0 <= input_at(inputs, i) < inputs.len(),
        inputs[input_at(inputs, i)].1 == i,
{
    // the numbers are distinct and below n, so every number below n is taken
    let n = inputs.len() as int;
    if !(exists|k: int| 0 <= k < n && (#[trigger] inputs[k]).1 == i) {
        let f = |k: int| inputs[k].1 as int;
        let dom = vstd::set_lib::set_int_range(0, n);
        let img = dom.map(f);
        let rng = vstd::set_lib::set_int_range(0, n).remove(i);
        vstd::set_lib::lemma_int_range(0, n);
        assert(vstd::relations::injective_on(f, dom)) by {
            assert forall|a: int, b: int| dom.contains(a) && dom.contains(b) && f(a) == f(b) implies a == b by {
                if a < b {
                    assert(inputs[a].1 != inputs[b].1);
                } else if b < a {
                    assert(inputs[b].1 != inputs[a].1);
                }
            }
        }
        vstd::set_lib::lemma_map_size(dom, img, f);
        assert(img.subset_of(rng)) by {
            assert forall|j: int| img.contains(j) implies rng.contains(j) by {
                let k = choose|k: int| dom.contains(k) && f(k) == j;
                assert(inputs[k].1 < n);
            }
        }
        vstd::set_lib::lemma_len_subset(img, rng);
        assert(false);
    }
}

/// The assignment of row number `row`: each input gets the value at its
/// position in the row.
pub open spec fn row_assignment(inputs: Seq<(BitEndpoint, usize)>, row: nat) -> Seq<(BitEndpoint, Value)> {
    Seq::new(inputs.len(), |k: int| (inputs[k].0, digits(row, inputs.len())[inputs[k].1 as int]))
}

/// Every input of `inner` is an input of `outer`.
pub open spec fn inputs_within(inner: Seq<(BitEndpoint, usize)>, outer: Seq<(BitEndpoint, usize)>) -> bool {
    forall|k: int| 0 <= k < inner.len() ==> has_input(outer, (#[trigger] inner[k]).0)
}

/// Whether `e` is one of `inputs`.
pub open spec fn has_input(inputs: Seq<(BitEndpoint, usize)>, e: BitEndpoint) -> bool {
    exists|j: int| 0 <= j < inputs.len() && (#[trigger] inputs[j]).0 == e
}

/// The outputs of the tables under `assign`, combined in order.
pub open spec fn combined_value(tts: Seq<Rc<TreeTable>>, assign: Seq<(BitEndpoint, Value)>) -> Value
    decreases tts.len(),
{
    if tts.len() == 0 {
        Value::Z
    } else {
        combine_spec(combined_value(tts.drop_last(), assign), tts.last().spec_query_map(assign))
    }
}

/// `acc` with the endpoints of `es` it lacks appended, in order.
pub open spec fn add_new(acc: Seq<BitEndpoint>, es: Seq<(BitEndpoint, usize)>) -> Seq<BitEndpoint>
    decreases es.len(),
{
    if es.len() == 0 {
        acc
    } else {
        let a = add_new(acc, es.drop_last());
        if a.contains(es.last().0) {
            a
        } else {
            a.push(es.last().0)
        }
    }
}

/// The inputs of all the tables, each once, in the order first met.
pub open spec fn union_of(tts: Seq<Rc<TreeTable>>) -> Seq<BitEndpoint>
    decreases tts.len(),
{
    if tts.len() == 0 {
        Seq::empty()
    } else {
        add_new(union_of(tts.drop_last()), tts.last().spec_inputs())
    }
}

/// Endpoints numbered by position.
pub open spec fn numbered(es: Seq<BitEndpoint>) -> Seq<(BitEndpoint, usize)> {
    Seq::new(es.len(), |k: int| (es[k], k as usize))
}

proof fn lemma_add_new(acc: Seq<BitEndpoint>, es: Seq<(BitEndpoint, usize)>)
    requires
        acc.no_duplicates(),
    ensures
        add_new(acc, es).no_duplicates(),
        add_new(acc, es).len() >= acc.len(),
        add_new(acc, es).subrange(0, acc.len() as int) == acc,
        forall|e: BitEndpoint| acc.contains(e) ==> add_new(acc, es).contains(e),
        forall|k: int| 0 <= k < es.len() ==> add_new(acc, es).contains(#[trigger] es[k].0),
    decreases es.len(),
{
    if es.len() > 0 {
        lemma_add_new(acc, es.drop_last());
        let a = add_new(acc, es.drop_last());
        assert forall|k: int| 0 <= k < es.len() implies add_new(acc, es).contains(#[trigger] es[k].0) by {
            if k < es.len() - 1 {
                assert(es.drop_last()[k] == es[k]);
                assert(a.contains(es[k].0));
                if !a.contains(es.last().0) {
                    let i = choose|i: int| 0 <= i < a.len() && a[i] == es[k].0;
                    assert(a.push(es.last().0)[i] == es[k].0);
                }
            } else if !a.contains(es.last().0) {
                assert(a.push(es.last().0)[a.len() as int] == es.last().0);
            }
        }
        if !a.contains(es.last().0) {
            assert(a.push(es.last().0).subrange(0, acc.len() as int) =~= a.subrange(0, acc.len() as int));
            assert forall|e: BitEndpoint| acc.contains(e) implies add_new(acc, es).contains(e) by {
                let i = choose|i: int| 0 <= i < a.len() && a[i] == e;
                assert(a.push(es.last().0)[i] == e);
            }
        }
    }
}

/// The union holds no endpoint twice and every input of every table.
proof fn lemma_union_of(tts: Seq<Rc<TreeTable>>)
    ensures
        union_of(tts).no_duplicates(),
        forall|j: int, k: int|
            0 <= j < tts.len() && 0 <= k < tts[j].spec_inputs().len() ==> union_of(tts).contains(
                #[trigger] tts[j].spec_inputs()[k].0,
            ),
    decreases tts.len(),
{
    if tts.len() > 0 {
        lemma_union_of(tts.drop_last());
        lemma_add_new(union_of(tts.drop_last()), tts.last().spec_inputs());
        assert forall|j: int, k: int|
            0 <= j < tts.len() && 0 <= k < tts[j].spec_inputs().len() implies union_of(tts).contains(
            #[trigger] tts[j].spec_inputs()[k].0,
        ) by {
            if j < tts.len() - 1 {
                assert(tts.drop_last()[j] == tts[j]);
                assert(union_of(tts.drop_last()).contains(tts[j].spec_inputs()[k].0));
            }
        }
    }
}

/// `4^n` for `n` up to fifteen.
fn pow4_exec(n: usize) -> (r: usize)
    requires
        n <= 15,
    ensures
        r == pow4(n as nat),
{
    let mut r: usize = 1;
    let mut i: usize = 0;
    proof {
        lemma2_to64();
    }
    while i < n
        invariant
            i <= n <= 15,
            r == pow2(2 * i as nat),
        decreases n - i,
    {
        proof {
            lemma_pow2_double_step(i as nat);
            if 2 * i < 28 {
                vstd::arithmetic::power2::lemma_pow2_strictly_increases(2 * i as nat, 28);
            }
            lemma2_to64();
        }
        r = r * 4;
        i = i + 1;
    }
    r
}

/// The value `assign` gives to `e`.
fn lookup_value(assign: &[(BitEndpoint, Value)], e: &BitEndpoint) -> (r: Value)
    requires
        names_distinct(assign@),
        assigns(assign@, *e),
    ensures
        r == assigned(assign@, *e),
{
    let mut i: usize = 0;
    while i < assign.len()
        invariant
            i <= assign@.len(),
            names_distinct(assign@),
            assigns(assign@, *e),
            forall|k: int| 0 <= k < i ==> (#[trigger] assign@[k]).0 != *e,
        decreases assign@.len() - i,
    {
        if assign[i].0 == *e {
            proof {
                let c = choose|c: int| 0 <= c < assign@.len() && (#[trigger] assign@[c]).0 == *e;
                if c != i {
                    if c < i {
                        assert(assign@[c].0 != assign@[i as int].0);
                    } else {
                        assert(assign@[i as int].0 != assign@[c].0);
                    }
                }
            }
            return assign[i].1;
        }
        i = i + 1;
    }
    proof {
        let c = choose|c: int| 0 <= c < assign@.len() && (#[trigger] assign@[c]).0 == *e;
        assert(assign@[c].0 != *e);
    }
    Value::Z
}

impl TreeTable {
    pub fn row_count(&self) -> (n: usize)
        ensures
            n == self.spec_rows().len(),
    {
        self.rows.len()
    }

    /// The inputs and the position of each in a row.
    pub fn inputs(&self) -> (r: &[(BitEndpoint, usize)])
        ensures
            r@ == self.spec_inputs(),
    {
        self.inputs.as_slice()
    }

    /// The outputs of each row in order.
    pub fn rows(&self) -> (r: &[Value])
        ensures
            r@ == self.spec_rows(),
    {
        self.rows.as_slice()
    }

    /// A table of the given inputs whose every output is floating.
    pub fn empty(inputs: Vec<(BitEndpoint, usize)>) -> (t: Self)
        requires
            inputs_wf(inputs@),
        ensures
            t.wf(),
            t.spec_inputs() == inputs@,
            t.spec_rows() == Seq::new(pow4(inputs@.len()), |i: int| Value::Z),
    {
        let row_count = pow4_exec(inputs.len());
        let mut rows: Vec<Value> = Vec::new();
        let mut i: usize = 0;
        while i < row_count
            invariant
                i <= row_count,
                rows@ == Seq::new(i as nat, |k: int| Value::Z),
            decreases row_count - i,
        {
            rows.push(Value::Z);
            i = i + 1;
            assert(rows@ =~= Seq::new(i as nat, |k: int| Value::Z));
        }
        TreeTable { inputs, rows }
    }

    /// The table that passes its one input through.
    pub fn identity(input: BitEndpoint) -> (t: Self)
        ensures
            t.wf(),
            t.spec_inputs() == seq![(input, 0usize)],
            t.spec_rows() == seq![Value::Z, Value::L, Value::H, Value::E],
    {
        proof {
            lemma2_to64();
        }
        let t = TreeTable { inputs: vec![(input, 0)], rows: vec![Value::Z, Value::L, Value::H, Value::E] };
        assert(t.spec_inputs() =~= seq![(input, 0usize)]);
        assert(t.spec_rows() =~= seq![Value::Z, Value::L, Value::H, Value::E]);
        t
    }

    /// The row of input values under `inputs`.
    pub fn get_input_row(&self, inputs: &[(BitEndpoint, Value)]) -> (r: BitString)
        requires
            self.wf(),
            names_distinct(inputs@),
            self.covered_by(inputs@),
        ensures
            r.view() == self.input_row(inputs@),
    {
        let n = self.inputs.len();
        let mut row: Vec<Value> = Vec::new();
        let mut i: usize = 0;
        while i < n
            invariant
                i <= n,
                row@ == Seq::new(i as nat, |k: int| Value::Z),
            decreases n - i,
        {
            row.push(Value::Z);
            i = i + 1;
            assert(row@ =~= Seq::new(i as nat, |k: int| Value::Z));
        }
        let mut k: usize = 0;
        while k < n
            invariant
                self.wf(),
                n == self.spec_inputs().len(),
                names_distinct(inputs@),
                self.covered_by(inputs@),
                k <= n,
                row@.len() == n,
                forall|j: int|
                    0 <= j < k ==> row@[(#[trigger] self.spec_inputs()[j]).1 as int] == assigned(
                        inputs@,
                        self.spec_inputs()[j].0,
                    ),
            decreases n - k,
        {
            let (endpoint, index) = self.inputs[k];
            let v = lookup_value(inputs, &endpoint);
            let ghost before = row@;
            row.set(index, v);
            assert forall|j: int| 0 <= j < k + 1 implies row@[(#[trigger] self.spec_inputs()[j]).1 as int] == assigned(
                inputs@,
                self.spec_inputs()[j].0,
            ) by {
                if j < k {
                    assert(self.spec_inputs()[j].1 != self.spec_inputs()[k as int].1);
                    assert(row@[self.spec_inputs()[j].1 as int] == before[self.spec_inputs()[j].1 as int]);
                }
            }
            k = k + 1;
        }
        proof {
            assert forall|p: int| 0 <= p < n implies row@[p] == self.input_row(inputs@)[p] by {
                lemma_input_at(self.spec_inputs(), p);
                let j = input_at(self.spec_inputs(), p);
                assert(row@[self.spec_inputs()[j].1 as int] == assigned(inputs@, self.spec_inputs()[j].0));
            }
            assert(row@ =~= self.input_row(inputs@));
        }
        BitString::from_slice(row.as_slice())
    }

    /// The output for a row of input values.
    pub fn query(&self, input_row: BitString) -> (r: Value)
        requires
            input_row.view().len() <= 64,
            string_value(input_row.view()) < self.spec_rows().len(),
        ensures
            r == self.spec_rows()[string_value(input_row.view()) as int],
    {
        let v = input_row.value();
        assert(v == string_value(input_row.view()));
        assert(v < self.rows@.len());
        let len = self.rows.len();
        assert((v as usize) as u128 == v) by (bit_vector)
            requires
                v < len as u128,
        ;
        let idx = v as usize;
        self.rows[idx]
    }

    /// The output under `inputs`.
    pub fn query_map(&self, inputs: &[(BitEndpoint, Value)]) -> (r: Value)
        requires
            self.wf(),
            names_distinct(inputs@),
            self.covered_by(inputs@),
        ensures
            r == self.spec_query_map(inputs@),
    {
        let row = self.get_input_row(inputs);
        proof {
            lemma_string_value_bound(row.view());
        }
        self.query(row)
    }
}

/// Whether some input is `e`.
fn has_endpoint(inputs: &Vec<(BitEndpoint, usize)>, e: &BitEndpoint) -> (r: bool)
    ensures
        r == exists|k: int| 0 <= k < inputs@.len() && (#[trigger] inputs@[k]).0 == *e,
{
    let mut i: usize = 0;
    while i < inputs.len()
        invariant
            i <= inputs@.len(),
            forall|k: int| 0 <= k < i ==> (#[trigger] inputs@[k]).0 != *e,
        decreases inputs@.len() - i,
    {
        if inputs[i].0 == *e {
            return true;
        }
        i = i + 1;
    }
    false
}

proof fn lemma_numbered_contains(es: Seq<BitEndpoint>, e: BitEndpoint)
    ensures
        (exists|k: int| 0 <= k < numbered(es).len() && (#[trigger] numbered(es)[k]).0 == e) == es.contains(e),
{
    if es.contains(e) {
        let i = choose|i: int| 0 <= i < es.len() && es[i] == e;
        assert(numbered(es)[i].0 == e);
    }
}

impl TreeTable {
    /// The combined output of `tts` for row number `row` of this table.
    pub fn get_combined_value(&self, tts: &[Rc<TreeTable>], row: u128) -> (r: Value)
        requires
            self.wf(),
            forall|j: int|
                0 <= j < tts@.len() ==> (#[trigger] tts@[j]).wf() && inputs_within(
                    tts@[j].spec_inputs(),
                    self.spec_inputs(),
                ),
        ensures
            r == combined_value(tts@, row_assignment(self.spec_inputs(), row as nat)),
    {
        let n = self.inputs.len();
        let row_inputs = BitString::from_value(row, n);
        let values = row_inputs.values();
        let ghost assignment = row_assignment(self.spec_inputs(), row as nat);
        let mut assign: Vec<(BitEndpoint, Value)> = Vec::new();
        let mut k: usize = 0;
        while k < n
            invariant
                self.wf(),
                n == self.spec_inputs().len(),
                values@ == digits(row as nat, n as nat),
                assignment == row_assignment(self.spec_inputs(), row as nat),
                k <= n,
                assign@ == assignment.take(k as int),
            decreases n - k,
        {
            let (e, index) = self.inputs[k];
            assign.push((e, values[index]));
            k = k + 1;
            assert(assign@ =~= assignment.take(k as int));
        }
        assert(assignment.take(n as int) =~= assignment);
        assert(names_distinct(assign@));
        let mut v = Value::Z;
        let mut j: usize = 0;
        assert(tts@.take(0) =~= Seq::<Rc<TreeTable>>::empty());
        while j < tts.len()
            invariant
                self.wf(),
                assign@ == assignment,
                assignment == row_assignment(self.spec_inputs(), row as nat),
                names_distinct(assign@),
                forall|t: int|
                    0 <= t < tts@.len() ==> (#[trigger] tts@[t]).wf() && inputs_within(
                        tts@[t].spec_inputs(),
                        self.spec_inputs(),
                    ),
                j <= tts@.len(),
                v == combined_value(tts@.take(j as int), assignment),
            decreases tts@.len() - j,
        {
            let tt = &tts[j];
            assert forall|q: int| 0 <= q < tt.spec_inputs().len() implies assigns(
                assign@,
                (#[trigger] tt.spec_inputs()[q]).0,
            ) by {
                assert(inputs_within(tts@[j as int].spec_inputs(), self.spec_inputs()));
                assert(has_input(self.spec_inputs(), tt.spec_inputs()[q].0));
                let w = choose|w: int| 0 <= w < self.spec_inputs().len() && (#[trigger] self.spec_inputs()[w]).0 == tt.spec_inputs()[q].0;
                assert(assign@[w].0 == tt.spec_inputs()[q].0);
            }
            let out = tt.query_map(assign.as_slice());
            let c = v.combine(&out);
            proof {
                lemma_code_roundtrip(c);
                assert(tts@.take(j + 1).drop_last() =~= tts@.take(j as int));
            }
            v = c;
            j = j + 1;
        }
        assert(tts@.take(tts@.len() as int) =~= tts@);
        v
    }

    /// One table of the inputs of all of `tts`, whose output for each row is
    /// the outputs of `tts` combined.
    pub fn combine(tts: &[Rc<Self>]) -> (r: Self)
        requires
            forall|j: int| 0 <= j < tts@.len() ==> (#[trigger] tts@[j]).wf(),
            union_of(tts@).len() <= 15,
        ensures
            r.wf(),
            r.spec_inputs() == numbered(union_of(tts@)),
            forall|row: int|
                0 <= row < r.spec_rows().len() ==> #[trigger] r.spec_rows()[row] == combined_value(
                    tts@,
                    row_assignment(r.spec_inputs(), row as nat),
                ),
    {
        let mut inputs: Vec<(BitEndpoint, usize)> = Vec::new();
        let mut j: usize = 0;
        assert(tts@.take(0) =~= Seq::<Rc<TreeTable>>::empty());
        assert(inputs@ =~= numbered(Seq::<BitEndpoint>::empty()));
        while j < tts.len()
            invariant
                j <= tts@.len(),
                inputs@ == numbered(union_of(tts@.take(j as int))),
            decreases tts@.len() - j,
        {
            let tin = tts[j].inputs();
            let ghost acc = union_of(tts@.take(j as int));
            let mut k: usize = 0;
            assert(tin@.take(0) =~= Seq::<(BitEndpoint, usize)>::empty());
            while k < tin.len()
                invariant
                    k <= tin@.len(),
                    inputs@ == numbered(add_new(acc, tin@.take(k as int))),
                decreases tin@.len() - k,
            {
                let e = tin[k].0;
                let ghost a = add_new(acc, tin@.take(k as int));
                proof {
                    assert(tin@.take(k + 1).drop_last() =~= tin@.take(k as int));
                    assert(tin@.take(k + 1).last() == tin@[k as int]);
                    lemma_numbered_contains(a, e);
                }
                if !has_endpoint(&inputs, &e) {
                    let idx = inputs.len();
                    inputs.push((e, idx));
                    assert(inputs@ =~= numbered(a.push(e)));
                }
                k = k + 1;
            }
            proof {
                assert(tin@.take(tin@.len() as int) =~= tin@);
                assert(tts@.take(j + 1).drop_last() =~= tts@.take(j as int));
            }
            j = j + 1;
        }
        assert(tts@.take(tts@.len() as int) =~= tts@);
        proof {
            lemma_union_of(tts@);
            let u = union_of(tts@);
            assert forall|a: int, b: int| 0 <= a < b < inputs@.len() implies (#[trigger] inputs@[a]).0
                != (#[trigger] inputs@[b]).0 by {
                assert(u[a] != u[b]);
            }
        }
        let mut result = Self::empty(inputs);
        let count = result.row_count();
        let mut row: usize = 0;
        proof {
            lemma_union_of(tts@);
            let u = union_of(tts@);
            assert forall|t: int| 0 <= t < tts@.len() implies inputs_within(
                (#[trigger] tts@[t]).spec_inputs(),
                result.spec_inputs(),
            ) by {
                let tin = tts@[t].spec_inputs();
                assert forall|q: int| 0 <= q < tin.len() implies has_input(result.spec_inputs(), (#[trigger] tin[q]).0) by {
                    let e = tin[q].0;
                    assert(u.contains(e));
                    let w = choose|w: int| 0 <= w < u.len() && u[w] == e;
                    assert(result.spec_inputs()[w].0 == e);
                }
            }
        }
        while row < count
            invariant
                result.wf(),
                count == result.spec_rows().len(),
                result.spec_inputs() == numbered(union_of(tts@)),
                forall|t: int|
                    0 <= t < tts@.len() ==> (#[trigger] tts@[t]).wf() && inputs_within(
                        tts@[t].spec_inputs(),
                        result.spec_inputs(),
                    ),
                row <= count,
                forall|q: int|
                    0 <= q < row ==> #[trigger] result.spec_rows()[q] == combined_value(
                        tts@,
                        row_assignment(result.spec_inputs(), q as nat),
                    ),
            decreases count - row,
        {
            let v = result.get_combined_value(tts, row as u128);
            result.rows.set(row, v);
            row = row + 1;
        }
        result
    }
}

/// A table that passes its one input through gives, under any assignment,
/// the value assigned to that input.
pub proof fn lemma_identity_query(t: TreeTable, e: BitEndpoint, assign: Seq<(BitEndpoint, Value)>)
    requires
        t.spec_inputs() == seq![(e, 0usize)],
        t.spec_rows() == seq![Value::Z, Value::L, Value::H, Value::E],
        assigns(assign, e),
    ensures
        t.spec_query_map(assign) == assigned(assign, e),
{
    let inputs = t.spec_inputs();
    assert(inputs[0].1 == 0);
    let k = input_at(inputs, 0);
    assert(k == 0);
    let row = t.input_row(assign);
    assert(row[0] == assigned(assign, e));
    assert(row.len() == 1);
    assert(row.drop_first() =~= Seq::<Value>::empty());
    assert(string_value(row.drop_first()) == 0);
    assert(string_value(row) == code_of(row[0]));
    lemma_code_roundtrip(row[0]);
}


/// An endpoint of a circuit seen from a circuit that uses it as dependency
/// `dependency_id`.
pub open spec fn as_dependency(e: BitEndpoint, dependency_id: usize) -> BitEndpoint {
    match e {
        BitEndpoint::Pin { pin_id, bit } => BitEndpoint::Dependency { dependency_id, pin_id, bit },
        _ => e,
    }
}

impl TruthTable {
    /// The assignment of row number `row_n`: each input gets the value at its
    /// position in the row.
    pub fn get_named_input_row(inputs: &[(BitEndpoint, usize)], row_n: u128) -> (r: Vec<(BitEndpoint, Value)>)
        requires
            inputs@.len() <= 64,
            forall|k: int| 0 <= k < inputs@.len() ==> (#[trigger] inputs@[k]).1 < inputs@.len(),
        ensures
            r@ == row_assignment(inputs@, row_n as nat),
    {
        let input = BitString::from_value(row_n, inputs.len());
        let values = input.values();
        let mut r: Vec<(BitEndpoint, Value)> = Vec::new();
        let mut i: usize = 0;
        while i < inputs.len()
            invariant
                i <= inputs@.len(),
                inputs@.len() <= 64,
                values@ == digits(row_n as nat, inputs@.len() as nat),
                forall|k: int| 0 <= k < inputs@.len() ==> (#[trigger] inputs@[k]).1 < inputs@.len(),
                r@ == row_assignment(inputs@, row_n as nat).take(i as int),
            decreases inputs@.len() - i,
        {
            let (endpoint, index) = inputs[i];
            r.push((endpoint, values[index]));
            proof {
                assert(r@ =~= row_assignment(inputs@, row_n as nat).take(i + 1));
            }
            i = i + 1;
        }
        proof {
            assert(row_assignment(inputs@, row_n as nat).take(inputs@.len() as int) =~= row_assignment(inputs@, row_n as nat));
        }
        r
    }

    /// The table of the output bit `pin` names, as a circuit using this one
    /// as a dependency sees it: the inputs become the dependency's pins, and
    /// each row keeps only that output's value.
    pub fn get_tree_table(&self, pin: BitEndpoint) -> (r: TreeTable)
        requires
            pin is Dependency,
            names_distinct(self.spec_outputs()),
            exists|k: int| 0 <= k < self.spec_outputs().len()
                && (#[trigger] self.spec_outputs()[k]).0 == (BitEndpoint::Pin { pin_id: pin->Dependency_pin_id, bit: pin->Dependency_bit }),
            forall|k: int| 0 <= k < self.spec_outputs().len() ==> (#[trigger] self.spec_outputs()[k]).1 < usize::MAX,
            forall|k: int, j: int| 0 <= k < self.spec_outputs().len() && 0 <= j < self.spec_rows().len()
                ==> (#[trigger] self.spec_outputs()[k]).1 < (#[trigger] self.spec_rows()[j])@.len(),
        ensures
            r.spec_inputs() == self.spec_inputs().map_values(
                |x: (BitEndpoint, usize)| (as_dependency(x.0, pin->Dependency_dependency_id), x.1),
            ),
            forall|k: int| 0 <= k < self.spec_outputs().len()
                && (#[trigger] self.spec_outputs()[k]).0 == (BitEndpoint::Pin { pin_id: pin->Dependency_pin_id, bit: pin->Dependency_bit })
                ==> r.spec_rows() == self.spec_rows().map_values(|row: BitString| row@[self.spec_outputs()[k].1 as int]),
    {
        let (dependency_id, pin_id, bit) = match pin {
            BitEndpoint::Dependency { dependency_id, pin_id, bit } => (dependency_id, pin_id, bit),
            BitEndpoint::Pin { pin_id, bit } => (0, pin_id, bit),
        };
        let target = BitEndpoint::Pin { pin_id, bit };
        let mut k: usize = 0;
        while k < self.outputs.len()
            invariant
                k <= self.outputs@.len(),
                forall|j: int| 0 <= j < k ==> (#[trigger] self.outputs@[j]).0 != target,
                exists|j: int| 0 <= j < self.outputs@.len() && (#[trigger] self.outputs@[j]).0 == target,
            ensures
                k < self.outputs@.len(),
                self.outputs@[k as int].0 == target,
            decreases self.outputs@.len() - k,
        {
            if self.outputs[k].0 == target {
                break;
            }
            k = k + 1;
        }
        let output_index = self.outputs[k].1;
        let mut inputs: Vec<(BitEndpoint, usize)> = Vec::new();
        let mut i: usize = 0;
        while i < self.inputs.len()
            invariant
                i <= self.inputs@.len(),
                inputs@ == self.inputs@.map_values(|x: (BitEndpoint, usize)| (as_dependency(x.0, dependency_id), x.1)).take(i as int),
            decreases self.inputs@.len() - i,
        {
            let (endpoint, index) = self.inputs[i];
            let mapped = match endpoint {
                BitEndpoint::Pin { pin_id, bit } => BitEndpoint::Dependency { dependency_id, pin_id, bit },
                other => other,
            };
            inputs.push((mapped, index));
            proof {
                assert(inputs@ =~= self.inputs@.map_values(|x: (BitEndpoint, usize)| (as_dependency(x.0, dependency_id), x.1)).take(i + 1));
            }
            i = i + 1;
        }
        let mut rows: Vec<Value> = Vec::new();
        let mut j: usize = 0;
        while j < self.rows.len()
            invariant
                j <= self.rows@.len(),
                k < self.outputs@.len(),
                output_index == self.outputs@[k as int].1,
                forall|a: int, b: int| 0 <= a < self.spec_outputs().len() && 0 <= b < self.spec_rows().len()
                    ==> (#[trigger] self.spec_outputs()[a]).1 < (#[trigger] self.spec_rows()[b])@.len(),
                rows@ == self.rows@.map_values(|row: BitString| row@[output_index as int]).take(j as int),
            decreases self.rows@.len() - j,
        {
            let row = &self.rows[j];
            proof {
                assert(self.spec_outputs()[k as int].1 < self.spec_rows()[j as int]@.len());
            }
            rows.push(row.values()[output_index]);
            proof {
                assert(rows@ =~= self.rows@.map_values(|row: BitString| row@[output_index as int]).take(j + 1));
            }
            j = j + 1;
        }
        proof {
            assert(inputs@ =~= self.inputs@.map_values(|x: (BitEndpoint, usize)| (as_dependency(x.0, dependency_id), x.1)));
            assert(rows@ =~= self.rows@.map_values(|row: BitString| row@[output_index as int]));
            assert forall|a: int| 0 <= a < self.outputs@.len() && (#[trigger] self.outputs@[a]).0 == target implies a == k by {
                if a < k {
                } else if a > k {
                    assert(self.outputs@[k as int].0 != self.outputs@[a].0);
                }
            }
        }
        TreeTable { inputs, rows }
    }
}


/// The order `derive(Ord)` gives endpoints: pins of the circuit before pins
/// of its dependencies, each compared field by field.
pub open spec fn endpoint_lt(a: BitEndpoint, b: BitEndpoint) -> bool {
    match (a, b) {
        (BitEndpoint::Pin { pin_id: p1, bit: b1 }, BitEndpoint::Pin { pin_id: p2, bit: b2 }) => p1 < p2 || (p1 == p2 && b1 < b2),
        (BitEndpoint::Pin { .. }, BitEndpoint::Dependency { .. }) => true,
        (BitEndpoint::Dependency { .. }, BitEndpoint::Pin { .. }) => false,
        (
            BitEndpoint::Dependency { dependency_id: d1, pin_id: p1, bit: b1 },
            BitEndpoint::Dependency { dependency_id: d2, pin_id: p2, bit: b2 },
        ) => d1 < d2 || (d1 == d2 && (p1 < p2 || (p1 == p2 && b1 < b2))),
    }
}

/// Strictly increasing in that order, hence without repeats.
pub open spec fn sorted_set(s: Seq<BitEndpoint>) -> bool {
    forall|i: int, j: int| 0 <= i < j < s.len() ==> endpoint_lt(#[trigger] s[i], #[trigger] s[j])
}

proof fn lemma_endpoint_order(a: BitEndpoint, b: BitEndpoint, c: BitEndpoint)
    ensures
        !endpoint_lt(a, a),
        endpoint_lt(a, b) ==> !endpoint_lt(b, a),
        a != b ==> endpoint_lt(a, b) || endpoint_lt(b, a),
        endpoint_lt(a, b) && endpoint_lt(b, c) ==> endpoint_lt(a, c),
{
}

proof fn lemma_sorted_no_duplicates(s: Seq<BitEndpoint>)
    requires
        sorted_set(s),
    ensures
        s.no_duplicates(),
{
    assert forall|i: int, j: int| 0 <= i < s.len() && 0 <= j < s.len() && i != j implies s[i] != s[j] by {
        if i < j {
            lemma_endpoint_order(s[i], s[j], s[j]);
        } else {
            lemma_endpoint_order(s[j], s[i], s[i]);
        }
    }
}

fn endpoint_lt_exec(a: &BitEndpoint, b: &BitEndpoint) -> (r: bool)
    ensures
        r == endpoint_lt(*a, *b),
{
    match (a, b) {
        (BitEndpoint::Pin { pin_id: p1, bit: b1 }, BitEndpoint::Pin { pin_id: p2, bit: b2 }) => *p1 < *p2 || (*p1 == *p2 && *b1 < *b2),
        (BitEndpoint::Pin { .. }, BitEndpoint::Dependency { .. }) => true,
        (BitEndpoint::Dependency { .. }, BitEndpoint::Pin { .. }) => false,
        (
            BitEndpoint::Dependency { dependency_id: d1, pin_id: p1, bit: b1 },
            BitEndpoint::Dependency { dependency_id: d2, pin_id: p2, bit: b2 },
        ) => *d1 < *d2 || (*d1 == *d2 && (*p1 < *p2 || (*p1 == *p2 && *b1 < *b2))),
    }
}

/// Adds `e` to a sorted set of endpoints, where it is not there yet.
fn insert_sorted(v: &mut Vec<BitEndpoint>, e: BitEndpoint)
    requires
        sorted_set(old(v)@),
    ensures
        sorted_set(final(v)@),
        forall|x: BitEndpoint| #[trigger] final(v)@.contains(x) <==> old(v)@.contains(x) || x == e,
{
    let mut i: usize = 0;
    while i < v.len()
        invariant
            i <= v@.len(),
            sorted_set(v@),
            v@ == old(v)@,
            forall|j: int| 0 <= j < i ==> endpoint_lt(#[trigger] v@[j], e),
        ensures
            i <= v@.len(),
            v@ == old(v)@,
            forall|j: int| 0 <= j < i ==> endpoint_lt(#[trigger] v@[j], e),
            i < v@.len() ==> !endpoint_lt(v@[i as int], e),
        decreases v@.len() - i,
    {
        if !endpoint_lt_exec(&v[i], &e) {
            break;
        }
        i = i + 1;
    }
    if i < v.len() && v[i] == e {
        return;
    }
    let ghost before = v@;
    v.insert(i, e);
    proof {
        if i < before.len() {
            lemma_endpoint_order(before[i as int], e, e);
            lemma_endpoint_order(e, before[i as int], before[i as int]);
        }
        assert forall|a: int, b: int| 0 <= a < b < v@.len() implies endpoint_lt(#[trigger] v@[a], #[trigger] v@[b]) by {
            if b < i {
            } else if a < i && b == i {
            } else if a < i && b > i {
                lemma_endpoint_order(v@[a], e, v@[b]);
                if b - 1 > i {
                    lemma_endpoint_order(e, before[i as int], before[b - 1]);
                }
            } else if a == i {
                if b - 1 > i {
                    lemma_endpoint_order(e, before[i as int], before[b - 1]);
                }
            } else {
                assert(v@[a] == before[a - 1]);
                assert(v@[b] == before[b - 1]);
            }
        }
        assert forall|x: BitEndpoint| #[trigger] v@.contains(x) <==> before.contains(x) || x == e by {
            if v@.contains(x) {
                let k = choose|k: int| 0 <= k < v@.len() && v@[k] == x;
                if k < i {
                    assert(before[k] == x);
                } else if k > i {
                    assert(before[k - 1] == x);
                }
            }
            if before.contains(x) {
                let k = choose|k: int| 0 <= k < before.len() && before[k] == x;
                if k < i {
                    assert(v@[k] == x);
                } else {
                    assert(v@[k + 1] == x);
                }
            }
            if x == e {
                assert(v@[i as int] == e);
            }
        }
    }
}

/// Whether some table of `tts` has `x` as an input.
pub open spec fn uses_input(tts: Seq<(BitEndpoint, Rc<TreeTable>)>, x: BitEndpoint) -> bool {
    exists|t: int, k: int| 0 <= t < tts.len() && 0 <= k < tts[t].1.spec_inputs().len() && (#[trigger] tts[t].1.spec_inputs()[k]).0 == x
}

/// Whether `x` is the output of some table of `tts`.
pub open spec fn is_output(tts: Seq<(BitEndpoint, Rc<TreeTable>)>, x: BitEndpoint) -> bool {
    exists|t: int| 0 <= t < tts.len() && (#[trigger] tts[t]).0 == x
}

/// The inputs used by the tables of `tts`.
pub open spec fn input_set(tts: Seq<(BitEndpoint, Rc<TreeTable>)>) -> Set<BitEndpoint> {
    Set::new(|x: BitEndpoint| uses_input(tts, x))
}

/// The endpoints of a numbering.
pub open spec fn endpoints_of(ns: Seq<(BitEndpoint, usize)>) -> Seq<BitEndpoint> {
    ns.map_values(|x: (BitEndpoint, usize)| x.0)
}

/// Where `e` stands in a sorted set of endpoints.
fn position_of(v: &Vec<BitEndpoint>, e: &BitEndpoint) -> (r: usize)
    requires
        v@.contains(*e),
    ensures
        r < v@.len(),
        v@[r as int] == *e,
{
    let mut i: usize = 0;
    while i < v.len()
        invariant
            i <= v@.len(),
            v@.contains(*e),
            forall|j: int| 0 <= j < i ==> v@[j] != *e,
        decreases v@.len() - i,
    {
        if v[i] == *e {
            return i;
        }
        i = i + 1;
    }
    proof {
        let k = choose|k: int| 0 <= k < v@.len() && v@[k] == *e;
        assert(v@[k] != *e);
    }
    0
}

impl TruthTable {
    /// The table of several outputs, each given by its own table. Its inputs
    /// are all the inputs of those tables and its outputs all their outputs,
    /// each set sorted and numbered in that order; each row holds, for every
    /// output, what its table gives for that row's input values.
    pub fn from_tree_tables(tts: &[(BitEndpoint, Rc<TreeTable>)]) -> (r: Self)
        requires
            names_distinct(tts@),
            forall|t: int| 0 <= t < tts@.len() ==> (#[trigger] tts@[t]).1.wf(),
            input_set(tts@).len() <= 15,
        ensures
            sorted_set(endpoints_of(r.spec_inputs())),
            r.spec_inputs() == numbered(endpoints_of(r.spec_inputs())),
            forall|x: BitEndpoint| #[trigger] endpoints_of(r.spec_inputs()).contains(x) <==> uses_input(tts@, x),
            sorted_set(endpoints_of(r.spec_outputs())),
            r.spec_outputs() == numbered(endpoints_of(r.spec_outputs())),
            forall|x: BitEndpoint| #[trigger] endpoints_of(r.spec_outputs()).contains(x) <==> is_output(tts@, x),
            r.spec_rows().len() == pow4(r.spec_inputs().len()),
            forall|row: int, t: int| 0 <= row < r.spec_rows().len() && 0 <= t < tts@.len()
                ==> #[trigger] r.spec_rows()[row]@[index_in(endpoints_of(r.spec_outputs()), (#[trigger] tts@[t]).0)]
                    == tts@[t].1.spec_query_map(row_assignment(r.spec_inputs(), row as nat)),
            forall|row: int| 0 <= row < r.spec_rows().len() ==> (#[trigger] r.spec_rows()[row])@.len() == r.spec_outputs().len(),
    {
        // The inputs and the outputs, each sorted without repeats.
        let mut ins: Vec<BitEndpoint> = Vec::new();
        let mut outs: Vec<BitEndpoint> = Vec::new();
        let mut t: usize = 0;
        while t < tts.len()
            invariant
                t <= tts@.len(),
                sorted_set(ins@),
                sorted_set(outs@),
                forall|x: BitEndpoint| #[trigger] ins@.contains(x) <==> uses_input(tts@.take(t as int), x),
                forall|x: BitEndpoint| #[trigger] outs@.contains(x) <==> is_output(tts@.take(t as int), x),
            decreases tts@.len() - t,
        {
            let (output, tt) = &tts[t];
            let tt_inputs = tt.inputs();
            let mut k: usize = 0;
            while k < tt_inputs.len()
                invariant
                    t < tts@.len(),
                    k <= tt_inputs@.len(),
                    tt_inputs@ == tts@[t as int].1.spec_inputs(),
                    sorted_set(ins@),
                    forall|x: BitEndpoint| #[trigger] ins@.contains(x) <==> uses_input(tts@.take(t as int), x)
                        || exists|j: int| 0 <= j < k && (#[trigger] tt_inputs@[j]).0 == x,
                decreases tt_inputs@.len() - k,
            {
                insert_sorted(&mut ins, tt_inputs[k].0);
                proof {
                    assert forall|x: BitEndpoint| #[trigger] ins@.contains(x) <==> uses_input(tts@.take(t as int), x)
                        || exists|j: int| 0 <= j < k + 1 && (#[trigger] tt_inputs@[j]).0 == x by {
                        if x == tt_inputs@[k as int].0 {
                            assert(tt_inputs@[k as int].0 == x);
                        }
                        if exists|j: int| 0 <= j < k + 1 && (#[trigger] tt_inputs@[j]).0 == x {
                            let j = choose|j: int| 0 <= j < k + 1 && (#[trigger] tt_inputs@[j]).0 == x;
                            if j < k {
                                assert(exists|j: int| 0 <= j < k && (#[trigger] tt_inputs@[j]).0 == x);
                            }
                        }
                    }
                }
                k = k + 1;
            }
            insert_sorted(&mut outs, *output);
            proof {
                let before = tts@.take(t as int);
                let after = tts@.take(t + 1);
                assert forall|x: BitEndpoint| #[trigger] ins@.contains(x) <==> uses_input(after, x) by {
                    if uses_input(after, x) {
                        let (a, b) = choose|a: int, b: int| 0 <= a < after.len() && 0 <= b < after[a].1.spec_inputs().len()
                            && (#[trigger] after[a].1.spec_inputs()[b]).0 == x;
                        if a < t {
                            assert(before[a] == after[a]);
                            assert(uses_input(before, x));
                        } else {
                            assert(tt_inputs@[b].0 == x);
                        }
                    }
                    if uses_input(before, x) {
                        let (a, b) = choose|a: int, b: int| 0 <= a < before.len() && 0 <= b < before[a].1.spec_inputs().len()
                            && (#[trigger] before[a].1.spec_inputs()[b]).0 == x;
                        assert(after[a] == before[a]);
                        assert(uses_input(after, x));
                    }
                    if exists|j: int| 0 <= j < tt_inputs@.len() && (#[trigger] tt_inputs@[j]).0 == x {
                        let j = choose|j: int| 0 <= j < tt_inputs@.len() && (#[trigger] tt_inputs@[j]).0 == x;
                        assert(after[t as int] == tts@[t as int]);
                        assert(after[t as int].1.spec_inputs()[j].0 == x);
                    }
                }
                assert forall|x: BitEndpoint| #[trigger] outs@.contains(x) <==> is_output(after, x) by {
                    if is_output(after, x) {
                        let a = choose|a: int| 0 <= a < after.len() && (#[trigger] after[a]).0 == x;
                        if a < t {
                            assert(before[a] == after[a]);
                        }
                    }
                    if is_output(before, x) {
                        let a = choose|a: int| 0 <= a < before.len() && (#[trigger] before[a]).0 == x;
                        assert(after[a] == before[a]);
                    }
                    if x == *output {
                        assert(after[t as int].0 == x);
                    }
                }
            }
            t = t + 1;
        }
        proof {
            assert(tts@.take(tts@.len() as int) =~= tts@);
            lemma_sorted_no_duplicates(ins@);
            ins@.unique_seq_to_set();
            assert(ins@.to_set() =~= input_set(tts@));
        }
        // Numbered in that order.
        let mut inputs: Vec<(BitEndpoint, usize)> = Vec::new();
        let mut i: usize = 0;
        while i < ins.len()
            invariant
                i <= ins@.len(),
                inputs@ == numbered(ins@).take(i as int),
            decreases ins@.len() - i,
        {
            inputs.push((ins[i], i));
            proof {
                assert(inputs@ =~= numbered(ins@).take(i + 1));
            }
            i = i + 1;
        }
        let mut outputs: Vec<(BitEndpoint, usize)> = Vec::new();
        let mut i: usize = 0;
        while i < outs.len()
            invariant
                i <= outs@.len(),
                outputs@ == numbered(outs@).take(i as int),
            decreases outs@.len() - i,
        {
            outputs.push((outs[i], i));
            proof {
                assert(outputs@ =~= numbered(outs@).take(i + 1));
            }
            i = i + 1;
        }
        proof {
            assert(inputs@ =~= numbered(ins@));
            assert(outputs@ =~= numbered(outs@));
            assert(endpoints_of(inputs@) =~= ins@);
            assert(endpoints_of(outputs@) =~= outs@);
            lemma_sorted_no_duplicates(outs@);
        }
        let row_count = pow4_exec(inputs.len());
        let mut rows: Vec<BitString> = Vec::new();
        let mut row: usize = 0;
        while row < row_count
            invariant
                row <= row_count,
                row_count == pow4(inputs@.len()),
                inputs@ == numbered(ins@),
                outputs@ == numbered(outs@),
                ins@.len() <= 15,
                ins@.no_duplicates(),
                outs@.no_duplicates(),
                sorted_set(outs@),
                names_distinct(tts@),
                forall|t: int| 0 <= t < tts@.len() ==> (#[trigger] tts@[t]).1.wf(),
                forall|x: BitEndpoint| #[trigger] ins@.contains(x) <==> uses_input(tts@, x),
                forall|x: BitEndpoint| #[trigger] outs@.contains(x) <==> is_output(tts@, x),
                rows@.len() == row,
                forall|q: int| 0 <= q < row ==> (#[trigger] rows@[q])@.len() == outs@.len(),
                forall|q: int, t: int| 0 <= q < row && 0 <= t < tts@.len()
                    ==> #[trigger] rows@[q]@[index_in(outs@, (#[trigger] tts@[t]).0)]
                        == tts@[t].1.spec_query_map(row_assignment(inputs@, q as nat)),
            decreases row_count - row,
        {
            let row_input = Self::get_named_input_row(inputs.as_slice(), row as u128);
            let mut row_output: Vec<Value> = Vec::new();
            let mut j: usize = 0;
            while j < outputs.len()
                invariant
                    j <= outputs@.len(),
                    row_output@ == Seq::new(j as nat, |q: int| Value::Z),
                decreases outputs@.len() - j,
            {
                row_output.push(Value::Z);
                j = j + 1;
                proof {
                    assert(row_output@ =~= Seq::new(j as nat, |q: int| Value::Z));
                }
            }
            proof {
                lemma_row_assignment_distinct(ins@, row as nat);
            }
            let mut t: usize = 0;
            while t < tts.len()
                invariant
                    t <= tts@.len(),
                    row_output@.len() == outs@.len(),
                    row_input@ == row_assignment(inputs@, row as nat),
                    inputs@ == numbered(ins@),
                    names_distinct(row_input@),
                    outs@.no_duplicates(),
                    names_distinct(tts@),
                    forall|t: int| 0 <= t < tts@.len() ==> (#[trigger] tts@[t]).1.wf(),
                    forall|x: BitEndpoint| #[trigger] ins@.contains(x) <==> uses_input(tts@, x),
                    forall|x: BitEndpoint| #[trigger] outs@.contains(x) <==> is_output(tts@, x),
                    forall|a: int| 0 <= a < t ==> #[trigger] row_output@[index_in(outs@, tts@[a].0)]
                        == tts@[a].1.spec_query_map(row_input@),
                decreases tts@.len() - t,
            {
                let (output, tt) = &tts[t];
                proof {
                    assert(is_output(tts@, *output));
                    assert forall|k: int| 0 <= k < tt.spec_inputs().len() implies assigns(row_input@, (#[trigger] tt.spec_inputs()[k]).0) by {
                        let x = tt.spec_inputs()[k].0;
                        assert(uses_input(tts@, x));
                        assert(ins@.contains(x));
                        lemma_row_assignment_assigns(ins@, row as nat, x);
                    }
                }
                let index = position_of(&outs, output);
                let value = tt.query_map(row_input.as_slice());
                proof {
                    lemma_index_in(outs@, *output, index as int);
                    assert forall|a: int| 0 <= a < t implies index_in(outs@, tts@[a].0) != index by {
                        assert(tts@[a].0 != tts@[t as int].0);
                        assert(is_output(tts@, tts@[a].0));
                        assert(outs@.contains(tts@[a].0));
                        let j = choose|j: int| 0 <= j < outs@.len() && outs@[j] == tts@[a].0;
                        lemma_index_in(outs@, tts@[a].0, j);
                    }
                }
                let ghost before = row_output@;
                row_output.set(index, value);
                proof {
                    assert forall|a: int| 0 <= a < t + 1 implies #[trigger] row_output@[index_in(outs@, tts@[a].0)]
                        == tts@[a].1.spec_query_map(row_input@) by {
                        if a < t {
                            assert(is_output(tts@, tts@[a].0));
                            assert(outs@.contains(tts@[a].0));
                            let j = choose|j: int| 0 <= j < outs@.len() && outs@[j] == tts@[a].0;
                            lemma_index_in(outs@, tts@[a].0, j);
                            assert(index_in(outs@, tts@[a].0) != index);
                            assert(row_output@[index_in(outs@, tts@[a].0)] == before[index_in(outs@, tts@[a].0)]);
                        } else {
                            assert(tts@[a] == tts@[t as int]);
                        }
                    }
                }
                t = t + 1;
            }
            rows.push(BitString::from_slice(row_output.as_slice()));
            row = row + 1;
        }
        TruthTable { inputs, outputs, rows }
    }
}

/// Where `e` first stands in `s`.
pub open spec fn index_in(s: Seq<BitEndpoint>, e: BitEndpoint) -> int {
    choose|i: int| 0 <= i < s.len() && s[i] == e
}

proof fn lemma_index_in(s: Seq<BitEndpoint>, e: BitEndpoint, i: int)
    requires
        s.no_duplicates(),
        0 <= i < s.len(),
        s[i] == e,
    ensures
        index_in(s, e) == i,
{
    let j = index_in(s, e);
    assert(0 <= j < s.len() && s[j] == e);
}

proof fn lemma_row_assignment_distinct(es: Seq<BitEndpoint>, row: nat)
    requires
        es.no_duplicates(),
    ensures
        names_distinct(row_assignment(numbered(es), row)),
{
}

proof fn lemma_row_assignment_assigns(es: Seq<BitEndpoint>, row: nat, x: BitEndpoint)
    requires
        es.contains(x),
    ensures
        assigns(row_assignment(numbered(es), row), x),
{
    let k = choose|k: int| 0 <= k < es.len() && es[k] == x;
    assert(row_assignment(numbered(es), row)[k].0 == x);
}

} // verus!
