//! Optimisation of generated IR: constant addresses folded into operands,
//! repeated loads and offsets reused, identical blocks merged.
use vstd::prelude::*;

use crate::codegen::targets::ir::blocks::{label_map, lemma_label_map_dom, Section};
use crate::codegen::targets::ir::{Address, Block, BlockAddress, Constant, DataItem, Opcode, OpcodeKind, Register, Sections, Value, WordTrait};

verus! {

// ---------------------------------------------------------------------------
// Equality of operands, decided field by field.
// ---------------------------------------------------------------------------

fn address_eq(a: &Address, b: &Address) -> (r: bool)
    ensures
        r == (*a == *b),
{
    match (a, b) {
        (Address::Immediate(x), Address::Immediate(y)) => x.0 == y.0 && x.1 == y.1,
        (Address::Register(x), Address::Register(y)) => *x == *y,
        _ => false,
    }
}

fn constant_eq<Word: WordTrait>(a: &Constant<Word>, b: &Constant<Word>) -> (r: bool)
    ensures
        r == (*a == *b),
{
    match (a, b) {
        (Constant::Value(x), Constant::Value(y)) => x.same(y),
        (Constant::Address(b1, o1), Constant::Address(b2, o2)) => *b1 == *b2 && *o1 == *o2,
        _ => false,
    }
}

fn value_eq<Word: WordTrait>(a: &Value<Word>, b: &Value<Word>) -> (r: bool)
    ensures
        r == (*a == *b),
{
    match (a, b) {
        (Value::Register(x), Value::Register(y)) => *x == *y,
        (Value::Immediate(x), Value::Immediate(y)) => constant_eq(x, y),
        (Value::Indirect(x), Value::Indirect(y)) => address_eq(x, y),
        _ => false,
    }
}

/// Whether two opcodes are the same operation on the same operands.
pub fn kind_eq<Word: WordTrait>(a: &OpcodeKind<Word>, b: &OpcodeKind<Word>) -> (r: bool)
    ensures
        r == (*a == *b),
{
    match (a, b) {
        (OpcodeKind::Call(a1, v1), OpcodeKind::Call(a2, v2)) => address_eq(a1, a2) && value_eq(v1, v2),
        (OpcodeKind::CallLibrary(c1, r1, i1, o1), OpcodeKind::CallLibrary(c2, r2, i2, o2)) => *c1 == *c2
            && *r1 == *r2 && *i1 == *i2 && *o1 == *o2,
        (OpcodeKind::CheckInputs(r1, i1, o1), OpcodeKind::CheckInputs(r2, i2, o2)) => *r1 == *r2 && *i1
            == *i2 && *o1 == *o2,
        (OpcodeKind::Load(c1), OpcodeKind::Load(c2)) => constant_eq(c1, c2),
        (OpcodeKind::LoadResv, OpcodeKind::LoadResv) => true,
        (
            OpcodeKind::Offset { base: b1, item_size: s1, item_count: c1 },
            OpcodeKind::Offset { base: b2, item_size: s2, item_count: c2 },
        ) => address_eq(b1, b2) && *s1 == *s2 && value_eq(c1, c2),
        (OpcodeKind::Read(a1), OpcodeKind::Read(a2)) => address_eq(a1, a2),
        (OpcodeKind::ReadBits(a1, s1, e1), OpcodeKind::ReadBits(a2, s2, e2)) => address_eq(a1, a2) && *s1
            == *s2 && *e1 == *e2,
        (OpcodeKind::ReadOffset(a1, o1), OpcodeKind::ReadOffset(a2, o2)) => address_eq(a1, a2) && *o1 == *o2,
        (OpcodeKind::WriteBits(a1, r1, s1, e1), OpcodeKind::WriteBits(a2, r2, s2, e2)) => address_eq(a1, a2)
            && *r1 == *r2 && *s1 == *s2 && *e1 == *e2,
        (OpcodeKind::WriteOffset(a1, v1, o1), OpcodeKind::WriteOffset(a2, v2, o2)) => address_eq(a1, a2)
            && value_eq(v1, v2) && *o1 == *o2,
        _ => false,
    }
}

/// Whether two opcodes are equal, destination included.
pub fn opcode_eq<Word: WordTrait>(a: &Opcode<Word>, b: &Opcode<Word>) -> (r: bool)
    ensures
        r == (*a == *b),
{
    a.destination == b.destination && kind_eq(&a.opcode, &b.opcode)
}

// ---------------------------------------------------------------------------
// The shape of a block the optimiser works on.
// ---------------------------------------------------------------------------

pub open spec fn address_below(a: Address, bound: nat) -> bool {
    match a {
        Address::Register(r) => r < bound,
        Address::Immediate(_) => true,
    }
}

pub open spec fn value_below<Word: WordTrait>(v: Value<Word>, bound: nat) -> bool {
    match v {
        Value::Register(r) => r < bound,
        Value::Indirect(a) => address_below(a, bound),
        Value::Immediate(_) => true,
    }
}

/// Every register the opcode reads is below `bound`.
pub open spec fn kind_below<Word: WordTrait>(k: OpcodeKind<Word>, bound: nat) -> bool {
    match k {
        OpcodeKind::Call(a, v) => address_below(a, bound) && value_below(v, bound),
        OpcodeKind::CallLibrary(_, r, i, o) => r < bound && i < bound && o < bound,
        OpcodeKind::CheckInputs(r, _, _) => r < bound,
        OpcodeKind::Load(_) => true,
        OpcodeKind::LoadResv => true,
        OpcodeKind::Offset { base, item_count, .. } => address_below(base, bound) && value_below(
            item_count,
            bound,
        ),
        OpcodeKind::Read(a) => address_below(a, bound),
        OpcodeKind::ReadBits(a, _, _) => address_below(a, bound),
        OpcodeKind::ReadOffset(a, _) => address_below(a, bound),
        OpcodeKind::WriteBits(a, r, _, _) => address_below(a, bound) && r < bound,
        OpcodeKind::WriteOffset(a, v, _) => address_below(a, bound) && value_below(v, bound),
    }
}

/// The opcode at position `i` writes register `i` and reads only registers
/// written before it, as the code builder emits them.
pub open spec fn ssa_form<Word: WordTrait>(ops: Seq<Opcode<Word>>) -> bool {
    forall|i: int|
        0 <= i < ops.len() ==> (#[trigger] ops[i]).destination == i && kind_below(ops[i].opcode, i as nat)
}

// ---------------------------------------------------------------------------
// The model of the simplifying pass.
// ---------------------------------------------------------------------------

/// What the pass knows about the registers of a block.
pub struct SimplifyState<Word: WordTrait> {
    /// Opcodes kept so far whose result can be reused, with their registers.
    pub reusable: Seq<(OpcodeKind<Word>, Register)>,
    /// For each register, the constant it is known to hold.
    pub constants: Seq<Option<Constant<Word>>>,
    /// For each register, an earlier register known to hold the same value.
    pub aliases: Seq<Option<Register>>,
}

/// The register `r` stands for, following aliases to an earlier register.
pub open spec fn resolve(aliases: Seq<Option<Register>>, r: Register) -> Register
    decreases r,
{
    if r < aliases.len() && aliases[r as int] is Some && aliases[r as int].unwrap() < r {
        resolve(aliases, aliases[r as int].unwrap())
    } else {
        r
    }
}

/// The value register `r` holds, as far as it is known: a constant met on
/// the way along its aliases, or the register it stands for.
pub open spec fn resolve_value<Word: WordTrait>(s: SimplifyState<Word>, r: Register) -> Value<Word>
    decreases r,
{
    if r < s.constants.len() && s.constants[r as int] is Some {
        Value::Immediate(s.constants[r as int].unwrap())
    } else if r < s.aliases.len() && s.aliases[r as int] is Some && s.aliases[r as int].unwrap() < r {
        resolve_value(s, s.aliases[r as int].unwrap())
    } else {
        Value::Register(r)
    }
}

pub open spec fn simplify_address_spec<Word: WordTrait>(s: SimplifyState<Word>, a: Address) -> Address {
    match a {
        Address::Register(r) => match resolve_value(s, r) {
            Value::Immediate(Constant::Address(b, o)) => Address::Immediate((b, o)),
            _ => Address::Register(resolve(s.aliases, r)),
        },
        Address::Immediate(_) => a,
    }
}

pub open spec fn simplify_value_spec<Word: WordTrait>(s: SimplifyState<Word>, v: Value<Word>) -> Value<Word> {
    match v {
        Value::Indirect(a) => Value::Indirect(simplify_address_spec(s, a)),
        Value::Register(r) => resolve_value(s, r),
        Value::Immediate(_) => v,
    }
}

/// The opcode with its operands simplified; `None` for an offset from a
/// constant address by a constant count, which becomes a constant itself.
pub open spec fn simplified<Word: WordTrait>(s: SimplifyState<Word>, op: OpcodeKind<Word>) -> Option<OpcodeKind<Word>> {
    match op {
        OpcodeKind::Call(a, v) => Some(OpcodeKind::Call(simplify_address_spec(s, a), simplify_value_spec(s, v))),
        OpcodeKind::CallLibrary(c, r, i, o) => Some(
            OpcodeKind::CallLibrary(c, resolve(s.aliases, r), resolve(s.aliases, i), resolve(s.aliases, o)),
        ),
        OpcodeKind::CheckInputs(r, i, o) => Some(OpcodeKind::CheckInputs(resolve(s.aliases, r), i, o)),
        OpcodeKind::Load(c) => Some(OpcodeKind::Load(c)),
        OpcodeKind::LoadResv => Some(OpcodeKind::LoadResv),
        OpcodeKind::Offset { base, item_size, item_count } => match (base, item_count) {
            (Address::Immediate(_), Value::Immediate(_)) => None,
            _ => Some(
                OpcodeKind::Offset {
                    base: simplify_address_spec(s, base),
                    item_size,
                    item_count: simplify_value_spec(s, item_count),
                },
            ),
        },
        OpcodeKind::Read(a) => Some(OpcodeKind::Read(simplify_address_spec(s, a))),
        OpcodeKind::ReadBits(a, st, e) => Some(OpcodeKind::ReadBits(simplify_address_spec(s, a), st, e)),
        OpcodeKind::ReadOffset(a, o) => Some(OpcodeKind::ReadOffset(simplify_address_spec(s, a), o)),
        OpcodeKind::WriteBits(a, r, st, e) => Some(
            OpcodeKind::WriteBits(simplify_address_spec(s, a), resolve(s.aliases, r), st, e),
        ),
        OpcodeKind::WriteOffset(a, v, o) => Some(
            OpcodeKind::WriteOffset(simplify_address_spec(s, a), simplify_value_spec(s, v), o),
        ),
    }
}

/// The constant an opcode puts in its register, where it is one.
pub open spec fn constant_of<Word: WordTrait>(op: OpcodeKind<Word>) -> Option<Constant<Word>> {
    match op {
        OpcodeKind::Load(c) => Some(c),
        OpcodeKind::Offset {
            base: Address::Immediate((blk, addr)),
            item_size,
            item_count: Value::Immediate(Constant::Value(v)),
        } => Some(Constant::Address(blk, (addr + item_size * v.spec_value()) as usize)),
        _ => None,
    }
}

/// The register an offset by zero items from a register stands for.
pub open spec fn zero_offset_base<Word: WordTrait>(k: OpcodeKind<Word>) -> Option<Register> {
    match k {
        OpcodeKind::Offset {
            base: Address::Register(b),
            item_size,
            item_count: Value::Immediate(Constant::Value(x)),
        } => if item_size * x.spec_value() == 0 {
            Some(b)
        } else {
            None
        },
        _ => None,
    }
}

/// Loads and offsets depend on their operands alone, so a repeated one can be reused.
pub open spec fn reusable_kind<Word: WordTrait>(k: OpcodeKind<Word>) -> bool {
    k is Load || k is Offset
}

/// The register of the first reusable opcode equal to `k`.
pub open spec fn find_reusable<Word: WordTrait>(s: Seq<(OpcodeKind<Word>, Register)>, k: OpcodeKind<Word>) -> Option<Register>
    decreases s.len(),
{
    if s.len() == 0 {
        None
    } else if s[0].0 == k {
        Some(s[0].1)
    } else {
        find_reusable(s.drop_first(), k)
    }
}

pub open spec fn with_constant<Word: WordTrait>(s: SimplifyState<Word>, r: Register, c: Constant<Word>) -> SimplifyState<Word> {
    SimplifyState { reusable: s.reusable, constants: s.constants.update(r as int, Some(c)), aliases: s.aliases }
}

pub open spec fn with_alias<Word: WordTrait>(s: SimplifyState<Word>, r: Register, of: Register) -> SimplifyState<Word> {
    SimplifyState { reusable: s.reusable, constants: s.constants, aliases: s.aliases.update(r as int, Some(of)) }
}

pub open spec fn with_reusable<Word: WordTrait>(s: SimplifyState<Word>, k: OpcodeKind<Word>, r: Register) -> SimplifyState<Word> {
    SimplifyState { reusable: s.reusable.push((k, r)), constants: s.constants, aliases: s.aliases }
}

/// One opcode through the pass: the new state, and the opcode that stays, if any.
pub open spec fn step<Word: WordTrait>(s: SimplifyState<Word>, dest: Register, op: OpcodeKind<Word>) -> (SimplifyState<Word>, Option<OpcodeKind<Word>>) {
    let s1 = match constant_of(op) {
        Some(c) => with_constant(s, dest, c),
        None => s,
    };
    match simplified(s, op) {
        None => (s1, None),
        Some(k) => match zero_offset_base(k) {
            Some(b) => (with_alias(s1, dest, b), None),
            None => if reusable_kind(k) {
                match find_reusable(s1.reusable, k) {
                    Some(r) => (with_alias(s1, dest, r), None),
                    None => (with_reusable(s1, k, dest), Some(k)),
                }
            } else {
                (s1, Some(k))
            },
        },
    }
}

/// The step does not fail: an offset from a constant address counts a
/// number of items, and no offset overflows.
pub open spec fn step_defined<Word: WordTrait>(s: SimplifyState<Word>, op: OpcodeKind<Word>) -> bool {
    &&& match op {
        OpcodeKind::Offset { base: Address::Immediate((_, addr)), item_size, item_count: Value::Immediate(c) } => match c {
            Constant::Value(v) => addr + item_size * v.spec_value() <= usize::MAX,
            Constant::Address(_, _) => false,
        },
        _ => true,
    }
    &&& match simplified(s, op) {
        Some(OpcodeKind::Offset { base: Address::Register(_), item_size, item_count: Value::Immediate(Constant::Value(x)) }) =>
            item_size * x.spec_value() <= usize::MAX,
        _ => true,
    }
}

pub open spec fn initial_state<Word: WordTrait>(n: nat) -> SimplifyState<Word> {
    SimplifyState {
        reusable: Seq::empty(),
        constants: Seq::new(n, |i: int| None),
        aliases: Seq::new(n, |i: int| None),
    }
}

/// The pass over `ops`: the final state, and the opcodes that stay with
/// their positions in `ops`.
pub open spec fn simplify_prefix<Word: WordTrait>(ops: Seq<Opcode<Word>>, n: nat) -> (SimplifyState<Word>, Seq<(usize, OpcodeKind<Word>)>)
    decreases ops.len(),
{
    if ops.len() == 0 {
        (initial_state(n), Seq::empty())
    } else {
        let (s, kept) = simplify_prefix(ops.drop_last(), n);
        let (s2, r) = step(s, ops.last().destination, ops.last().opcode);
        (
            s2,
            match r {
                Some(k) => kept.push(((ops.len() - 1) as usize, k)),
                None => kept,
            },
        )
    }
}

/// No step of the pass over `ops` fails.
pub open spec fn simplify_defined<Word: WordTrait>(ops: Seq<Opcode<Word>>, n: nat) -> bool
    decreases ops.len(),
{
    ops.len() == 0 || (simplify_defined(ops.drop_last(), n) && step_defined(
        simplify_prefix(ops.drop_last(), n).0,
        ops.last().opcode,
    ))
}

// ---------------------------------------------------------------------------
// The model of renumbering.
// ---------------------------------------------------------------------------

/// The new number of each old register, once the opcodes in `kept` are numbered in order.
pub open spec fn numbering<Word: WordTrait>(kept: Seq<(usize, OpcodeKind<Word>)>, n: nat) -> Seq<Option<usize>>
    decreases kept.len(),
{
    if kept.len() == 0 {
        Seq::new(n, |i: int| None)
    } else {
        let m = numbering(kept.drop_last(), n);
        if kept.last().0 < m.len() {
            m.update(kept.last().0 as int, Some((kept.len() - 1) as usize))
        } else {
            m
        }
    }
}

pub open spec fn renumber_reg(m: Seq<Option<usize>>, r: Register) -> Register {
    m[r as int].unwrap()
}

pub open spec fn renumber_address(m: Seq<Option<usize>>, a: Address) -> Address {
    match a {
        Address::Register(r) => Address::Register(renumber_reg(m, r)),
        Address::Immediate(_) => a,
    }
}

pub open spec fn renumber_value<Word: WordTrait>(m: Seq<Option<usize>>, v: Value<Word>) -> Value<Word> {
    match v {
        Value::Register(r) => Value::Register(renumber_reg(m, r)),
        Value::Indirect(Address::Register(r)) => Value::Indirect(Address::Register(renumber_reg(m, r))),
        _ => v,
    }
}

pub open spec fn renumber_kind<Word: WordTrait>(m: Seq<Option<usize>>, k: OpcodeKind<Word>) -> OpcodeKind<Word> {
    match k {
        OpcodeKind::Call(a, v) => OpcodeKind::Call(renumber_address(m, a), renumber_value(m, v)),
        OpcodeKind::CallLibrary(c, r, i, o) => OpcodeKind::CallLibrary(
            c,
            renumber_reg(m, r),
            renumber_reg(m, i),
            renumber_reg(m, o),
        ),
        OpcodeKind::CheckInputs(r, i, o) => OpcodeKind::CheckInputs(renumber_reg(m, r), i, o),
        OpcodeKind::Load(c) => OpcodeKind::Load(c),
        OpcodeKind::LoadResv => OpcodeKind::LoadResv,
        OpcodeKind::Offset { base, item_size, item_count } => OpcodeKind::Offset {
            base: renumber_address(m, base),
            item_size,
            item_count: renumber_value(m, item_count),
        },
        OpcodeKind::Read(a) => OpcodeKind::Read(renumber_address(m, a)),
        OpcodeKind::ReadBits(a, s, e) => OpcodeKind::ReadBits(renumber_address(m, a), s, e),
        OpcodeKind::ReadOffset(a, o) => OpcodeKind::ReadOffset(renumber_address(m, a), o),
        OpcodeKind::WriteBits(a, r, s, e) => OpcodeKind::WriteBits(renumber_address(m, a), renumber_reg(m, r), s, e),
        OpcodeKind::WriteOffset(a, v, o) => OpcodeKind::WriteOffset(renumber_address(m, a), renumber_value(m, v), o),
    }
}

pub open spec fn reg_numbered(m: Seq<Option<usize>>, r: Register) -> bool {
    r < m.len() && m[r as int] is Some
}

pub open spec fn address_numbered(m: Seq<Option<usize>>, a: Address) -> bool {
    match a {
        Address::Register(r) => reg_numbered(m, r),
        Address::Immediate(_) => true,
    }
}

pub open spec fn value_numbered<Word: WordTrait>(m: Seq<Option<usize>>, v: Value<Word>) -> bool {
    match v {
        Value::Register(r) => reg_numbered(m, r),
        Value::Indirect(Address::Register(r)) => reg_numbered(m, r),
        _ => true,
    }
}

/// Every register the opcode reads has a new number.
pub open spec fn kind_numbered<Word: WordTrait>(m: Seq<Option<usize>>, k: OpcodeKind<Word>) -> bool {
    match k {
        OpcodeKind::Call(a, v) => address_numbered(m, a) && value_numbered(m, v),
        OpcodeKind::CallLibrary(_, r, i, o) => reg_numbered(m, r) && reg_numbered(m, i) && reg_numbered(m, o),
        OpcodeKind::CheckInputs(r, _, _) => reg_numbered(m, r),
        OpcodeKind::Load(_) => true,
        OpcodeKind::LoadResv => true,
        OpcodeKind::Offset { base, item_count, .. } => address_numbered(m, base) && value_numbered(m, item_count),
        OpcodeKind::Read(a) => address_numbered(m, a),
        OpcodeKind::ReadBits(a, _, _) => address_numbered(m, a),
        OpcodeKind::ReadOffset(a, _) => address_numbered(m, a),
        OpcodeKind::WriteBits(a, r, _, _) => address_numbered(m, a) && reg_numbered(m, r),
        OpcodeKind::WriteOffset(a, v, _) => address_numbered(m, a) && value_numbered(m, v),
    }
}

/// The kept opcodes numbered from zero, each reading the new numbers of its registers.
pub open spec fn renumbered<Word: WordTrait>(kept: Seq<(usize, OpcodeKind<Word>)>, n: nat) -> Seq<Opcode<Word>> {
    Seq::new(
        kept.len(),
        |j: int|
            Opcode { destination: j as usize, opcode: renumber_kind(numbering(kept.take(j + 1), n), kept[j].1) },
    )
}

/// Every register a kept opcode reads was kept before it or is its own.
pub open spec fn renumber_defined<Word: WordTrait>(kept: Seq<(usize, OpcodeKind<Word>)>, n: nat) -> bool {
    forall|j: int| 0 <= j < kept.len() ==> kind_numbered(numbering(kept.take(j + 1), n), #[trigger] kept[j].1)
}

/// The optimised opcodes of a block.
pub open spec fn optimised_code<Word: WordTrait>(ops: Seq<Opcode<Word>>) -> Seq<Opcode<Word>> {
    renumbered(simplify_prefix(ops, ops.len()).1, ops.len())
}

/// The blocks the optimiser accepts: in the form the code builder emits,
/// with no step failing and every register read by a kept opcode kept.
pub open spec fn code_optimisable<Word: WordTrait>(ops: Seq<Opcode<Word>>) -> bool {
    &&& ssa_form(ops)
    &&& simplify_defined(ops, ops.len())
    &&& renumber_defined(simplify_prefix(ops, ops.len()).1, ops.len())
}

// ---------------------------------------------------------------------------
// The pass itself.
// ---------------------------------------------------------------------------

/// The state covers `n` registers, every alias points to an earlier
/// register, and every reusable opcode has a register below `bound`.
pub open spec fn state_wf<Word: WordTrait>(s: SimplifyState<Word>, n: nat, bound: nat) -> bool {
    &&& aliases_wf(s, n)
    &&& forall|i: int| 0 <= i < s.reusable.len() ==> (#[trigger] s.reusable[i]).1 < bound
}

/// The state covers `n` registers and every alias points to an earlier register.
pub open spec fn aliases_wf<Word: WordTrait>(s: SimplifyState<Word>, n: nat) -> bool {
    &&& s.constants.len() == n
    &&& s.aliases.len() == n
    &&& forall|r: int| 0 <= r < n && (#[trigger] s.aliases[r]) is Some ==> s.aliases[r].unwrap() < r
}

proof fn lemma_resolve_le(aliases: Seq<Option<Register>>, r: Register)
    ensures
        resolve(aliases, r) <= r,
    decreases r,
{
    if r < aliases.len() && aliases[r as int] is Some && aliases[r as int].unwrap() < r {
        lemma_resolve_le(aliases, aliases[r as int].unwrap());
    }
}

proof fn lemma_resolve_value_register<Word: WordTrait>(s: SimplifyState<Word>, r: Register)
    ensures
        resolve_value(s, r) is Register ==> resolve_value(s, r) == Value::<Word>::Register(resolve(s.aliases, r)),
    decreases r,
{
    if r < s.constants.len() && s.constants[r as int] is Some {
    } else if r < s.aliases.len() && s.aliases[r as int] is Some && s.aliases[r as int].unwrap() < r {
        lemma_resolve_value_register(s, s.aliases[r as int].unwrap());
    }
}

proof fn lemma_find_reusable_skip<Word: WordTrait>(s: Seq<(OpcodeKind<Word>, Register)>, k: OpcodeKind<Word>, i: int)
    requires
        0 <= i < s.len(),
    ensures
        s[i].0 == k ==> find_reusable(s.skip(i), k) == Some(s[i].1),
        s[i].0 != k ==> find_reusable(s.skip(i), k) == find_reusable(s.skip(i + 1), k),
{
    assert(s.skip(i).drop_first() =~= s.skip(i + 1));
    assert(s.skip(i)[0] == s[i]);
}

proof fn lemma_find_reusable_below<Word: WordTrait>(s: Seq<(OpcodeKind<Word>, Register)>, k: OpcodeKind<Word>, bound: nat)
    requires
        forall|i: int| 0 <= i < s.len() ==> (#[trigger] s[i]).1 < bound,
    ensures
        find_reusable(s, k) matches Some(r) ==> r < bound,
    decreases s.len(),
{
    if s.len() > 0 && s[0].0 != k {
        assert forall|i: int| 0 <= i < s.drop_first().len() implies (#[trigger] s.drop_first()[i]).1 < bound by {
            assert(s.drop_first()[i] == s[i + 1]);
        }
        lemma_find_reusable_below(s.drop_first(), k, bound);
    }
}

/// A vector of `n` empty slots.
fn empty_slots<T>(n: usize) -> (r: Vec<Option<T>>)
    ensures
        r@ == Seq::new(n as nat, |i: int| None::<T>),
{
    let mut r: Vec<Option<T>> = Vec::new();
    let mut i: usize = 0;
    while i < n
        invariant
            i <= n,
            r@ == Seq::new(i as nat, |k: int| None::<T>),
        decreases n - i,
    {
        r.push(None);
        i = i + 1;
        assert(r@ =~= Seq::new(i as nat, |k: int| None::<T>));
    }
    r
}

/// Simplifies the opcodes of one code block: constant addresses are folded
/// into operands, offsets by zero and repeated loads and offsets are dropped
/// in favour of an earlier register, and what is left is renumbered.
pub struct CodeBlockOptimser<Word: WordTrait> {
    duplicate_instructions: Vec<(OpcodeKind<Word>, Register)>,
    constant_registers: Vec<Option<Constant<Word>>>,
    duplicate_registers: Vec<Option<Register>>,
}

impl<Word: WordTrait> CodeBlockOptimser<Word> {
    pub closed spec fn view(&self) -> SimplifyState<Word> {
        SimplifyState {
            reusable: self.duplicate_instructions@,
            constants: self.constant_registers@,
            aliases: self.duplicate_registers@,
        }
    }

    fn simplify_register(&self, register: Register) -> (r: Register)
        requires
            aliases_wf(self@, self@.aliases.len()),
            register < self@.aliases.len(),
        ensures
            r == resolve(self@.aliases, register),
        decreases register,
    {
        match self.duplicate_registers[register] {
            Some(v) => {
                assert(self@.aliases[register as int] is Some);
                self.simplify_register(v)
            },
            None => register,
        }
    }

    fn simplify_register_maybe_value(&self, register: Register) -> (r: Value<Word>)
        requires
            aliases_wf(self@, self@.aliases.len()),
            register < self@.aliases.len(),
        ensures
            r == resolve_value(self@, register),
        decreases register,
    {
        if let Some(v) = self.constant_registers[register] {
            Value::Immediate(v)
        } else if let Some(v) = self.duplicate_registers[register] {
            assert(self@.aliases[register as int] is Some);
            self.simplify_register_maybe_value(v)
        } else {
            Value::Register(register)
        }
    }

    fn simplify_address(&self, address: Address) -> (r: Address)
        requires
            aliases_wf(self@, self@.aliases.len()),
            address_below(address, self@.aliases.len()),
        ensures
            r == simplify_address_spec(self@, address),
    {
        match address {
            Address::Register(r) => match self.simplify_register_maybe_value(r) {
                Value::Immediate(Constant::Address(b, o)) => Address::Immediate((b, o)),
                _ => Address::Register(self.simplify_register(r)),
            },
            addr => addr,
        }
    }

    fn simplify_value(&self, value: Value<Word>) -> (r: Value<Word>)
        requires
            aliases_wf(self@, self@.aliases.len()),
            value_below(value, self@.aliases.len()),
        ensures
            r == simplify_value_spec(self@, value),
    {
        match value {
            Value::Indirect(a) => Value::Indirect(self.simplify_address(a)),
            Value::Register(register) => self.simplify_register_maybe_value(register),
            value => value,
        }
    }

    /// The register of the first reusable opcode equal to `kind`.
    fn find_duplicate(&self, kind: &OpcodeKind<Word>) -> (r: Option<Register>)
        ensures
            r == find_reusable(self@.reusable, *kind),
    {
        let n = self.duplicate_instructions.len();
        let mut i: usize = 0;
        assert(self@.reusable.skip(0) =~= self@.reusable);
        while i < n
            invariant
                n == self@.reusable.len(),
                i <= n,
                find_reusable(self@.reusable, *kind) == find_reusable(self@.reusable.skip(i as int), *kind),
            decreases n - i,
        {
            proof {
                lemma_find_reusable_skip(self@.reusable, *kind, i as int);
            }
            if kind_eq(&self.duplicate_instructions[i].0, kind) {
                return Some(self.duplicate_instructions[i].1);
            }
            i = i + 1;
        }
        assert(self@.reusable.skip(n as int).len() == 0);
        None
    }

    /// An offset from a constant address by a constant count becomes a
    /// constant; any other offset gets its operands simplified.
    fn simplify_offset(&mut self, dest: Register, opcode: OpcodeKind<Word>) -> (r: Option<OpcodeKind<Word>>)
        requires
            opcode is Offset,
            state_wf(old(self)@, old(self)@.aliases.len(), dest as nat),
            dest < old(self)@.aliases.len(),
            kind_below(opcode, dest as nat),
            step_defined(old(self)@, opcode),
        ensures
            r == simplified(old(self)@, opcode),
            final(self)@ == (match constant_of(opcode) {
                Some(c) => with_constant(old(self)@, dest, c),
                None => old(self)@,
            }),
    {
        match opcode {
            OpcodeKind::Offset { base: Address::Immediate((blk, addr)), item_size, item_count: Value::Immediate(c) } => {
                match c {
                    Constant::Value(v) => {
                        let value = Constant::Address(blk, v.offset(addr, item_size));
                        self.constant_registers.set(dest, Some(value));
                    },
                    Constant::Address(_, _) => {},
                }
                None
            },
            OpcodeKind::Offset { base, item_size, item_count } => {
                let base = self.simplify_address(base);
                let item_count = self.simplify_value(item_count);
                Some(OpcodeKind::Offset { base, item_size, item_count })
            },
            _ => None,
        }
    }

    /// One opcode through the pass; `None` where it is dropped.
    fn simplify_opcode(&mut self, destination: Register, opcode: OpcodeKind<Word>) -> (r: Option<OpcodeKind<Word>>)
        requires
            state_wf(old(self)@, old(self)@.aliases.len(), destination as nat),
            destination < old(self)@.aliases.len(),
            kind_below(opcode, destination as nat),
            step_defined(old(self)@, opcode),
        ensures
            (final(self)@, r) == step(old(self)@, destination, opcode),
            state_wf(final(self)@, old(self)@.aliases.len(), (destination + 1) as nat),
    {
        let ghost s0 = self@;
        let ghost n = self@.aliases.len();
        let new_op = match opcode {
            OpcodeKind::Call(addr, value) => OpcodeKind::Call(self.simplify_address(addr), self.simplify_value(value)),
            OpcodeKind::CallLibrary(c, r, i, o) => OpcodeKind::CallLibrary(
                c,
                self.simplify_register(r),
                self.simplify_register(i),
                self.simplify_register(o),
            ),
            OpcodeKind::CheckInputs(reg, i, o) => OpcodeKind::CheckInputs(self.simplify_register(reg), i, o),
            OpcodeKind::Load(value) => {
                self.constant_registers.set(destination, Some(value));
                OpcodeKind::Load(value)
            },
            OpcodeKind::LoadResv => OpcodeKind::LoadResv,
            OpcodeKind::Offset { .. } => {
                match self.simplify_offset(destination, opcode) {
                    Some(k) => k,
                    None => {
                        return None;
                    },
                }
            },
            OpcodeKind::Read(addr) => OpcodeKind::Read(self.simplify_address(addr)),
            OpcodeKind::ReadBits(addr, s, e) => OpcodeKind::ReadBits(self.simplify_address(addr), s, e),
            OpcodeKind::ReadOffset(addr, offset) => OpcodeKind::ReadOffset(self.simplify_address(addr), offset),
            OpcodeKind::WriteBits(addr, reg, s, e) => OpcodeKind::WriteBits(
                self.simplify_address(addr),
                self.simplify_register(reg),
                s,
                e,
            ),
            OpcodeKind::WriteOffset(addr, value, offset) => OpcodeKind::WriteOffset(
                self.simplify_address(addr),
                self.simplify_value(value),
                offset,
            ),
        };
        let ghost s1 = self@;
        assert(simplified(s0, opcode) == Some(new_op));
        assert(s1 == (match constant_of(opcode) {
            Some(c) => with_constant(s0, destination, c),
            None => s0,
        }));

        let duplicate_of_reg = match new_op {
            OpcodeKind::Offset {
                base: Address::Register(base_reg),
                item_size,
                item_count: Value::Immediate(Constant::Value(x)),
            } => if x.offset(0, item_size) == 0 {
                Some(base_reg)
            } else {
                None
            },
            _ => None,
        };
        assert(duplicate_of_reg == zero_offset_base(new_op));

        if let Some(reg) = duplicate_of_reg {
            proof {
                // the base register was resolved from an operand below `destination`
                match opcode {
                    OpcodeKind::Offset { base, item_size, item_count } => {
                        match base {
                            Address::Register(b) => {
                                lemma_resolve_le(s0.aliases, b);
                            },
                            Address::Immediate(_) => {},
                        }
                    },
                    _ => {},
                }
            }
            self.duplicate_registers.set(destination, Some(reg));
            return None;
        }
        let can_be_eliminated = match new_op {
            OpcodeKind::Load(..) => true,
            OpcodeKind::Offset { .. } => true,
            _ => false,
        };

        if can_be_eliminated {
            match self.find_duplicate(&new_op) {
                Some(reg) => {
                    proof {
                        lemma_find_reusable_below(s1.reusable, new_op, destination as nat);
                    }
                    self.duplicate_registers.set(destination, Some(reg));
                    return None;
                },
                None => {
                    self.duplicate_instructions.push((new_op, destination));
                },
            }
        }
        Some(new_op)
    }
}

proof fn lemma_defined_prefix<Word: WordTrait>(ops: Seq<Opcode<Word>>, n: nat, k: int)
    requires
        simplify_defined(ops, n),
        0 <= k <= ops.len(),
    ensures
        simplify_defined(ops.take(k), n),
    decreases ops.len() - k,
{
    if k < ops.len() {
        lemma_defined_prefix(ops, n, k + 1);
        assert(ops.take(k + 1).drop_last() =~= ops.take(k));
    } else {
        assert(ops.take(k) =~= ops);
    }
}

proof fn lemma_kept_indices<Word: WordTrait>(ops: Seq<Opcode<Word>>, n: nat)
    ensures
        forall|t: int|
            0 <= t < simplify_prefix(ops, n).1.len() ==> (#[trigger] simplify_prefix(ops, n).1[t]).0 < ops.len(),
    decreases ops.len(),
{
    if ops.len() > 0 {
        lemma_kept_indices(ops.drop_last(), n);
        let (st, kept) = simplify_prefix(ops.drop_last(), n);
        let (s2, r) = step(st, ops.last().destination, ops.last().opcode);
        assert(simplify_prefix(ops, n).1 == match r {
            Some(k) => kept.push(((ops.len() - 1) as usize, k)),
            None => kept,
        });
        assert forall|t: int| 0 <= t < simplify_prefix(ops, n).1.len() implies (#[trigger] simplify_prefix(
            ops,
            n,
        ).1[t]).0 < ops.len() by {
            if t < kept.len() {
                assert(simplify_prefix(ops, n).1[t] == kept[t]);
            }
        }
    }
}

proof fn lemma_numbering_len<Word: WordTrait>(kept: Seq<(usize, OpcodeKind<Word>)>, n: nat)
    ensures
        numbering(kept, n).len() == n,
    decreases kept.len(),
{
    if kept.len() > 0 {
        lemma_numbering_len(kept.drop_last(), n);
    }
}

fn renumber_register(m: &Vec<Option<usize>>, r: Register) -> (res: Register)
    requires
        reg_numbered(m@, r),
    ensures
        res == renumber_reg(m@, r),
{
    m[r].unwrap()
}

fn update_register_number_in_address(m: &Vec<Option<usize>>, addr: Address) -> (r: Address)
    requires
        address_numbered(m@, addr),
    ensures
        r == renumber_address(m@, addr),
{
    match addr {
        Address::Register(r) => Address::Register(renumber_register(m, r)),
        addr => addr,
    }
}

fn update_register_number_in_value<Word: WordTrait>(m: &Vec<Option<usize>>, value: Value<Word>) -> (r: Value<Word>)
    requires
        value_numbered(m@, value),
    ensures
        r == renumber_value(m@, value),
{
    match value {
        Value::Register(r) => Value::Register(renumber_register(m, r)),
        Value::Indirect(Address::Register(r)) => Value::Indirect(Address::Register(renumber_register(m, r))),
        value => value,
    }
}

/// The opcode reading the new numbers of its registers.
fn update_register_numbers<Word: WordTrait>(m: &Vec<Option<usize>>, opcode: OpcodeKind<Word>) -> (r: OpcodeKind<Word>)
    requires
        kind_numbered(m@, opcode),
    ensures
        r == renumber_kind(m@, opcode),
{
    match opcode {
        OpcodeKind::Call(a, v) => OpcodeKind::Call(
            update_register_number_in_address(m, a),
            update_register_number_in_value(m, v),
        ),
        OpcodeKind::CallLibrary(c, r, i, o) => OpcodeKind::CallLibrary(
            c,
            renumber_register(m, r),
            renumber_register(m, i),
            renumber_register(m, o),
        ),
        OpcodeKind::CheckInputs(r, i, o) => OpcodeKind::CheckInputs(renumber_register(m, r), i, o),
        OpcodeKind::Load(c) => OpcodeKind::Load(c),
        OpcodeKind::LoadResv => OpcodeKind::LoadResv,
        OpcodeKind::Offset { base, item_size, item_count } => OpcodeKind::Offset {
            base: update_register_number_in_address(m, base),
            item_size,
            item_count: update_register_number_in_value(m, item_count),
        },
        OpcodeKind::Read(a) => OpcodeKind::Read(update_register_number_in_address(m, a)),
        OpcodeKind::ReadBits(a, s, e) => OpcodeKind::ReadBits(update_register_number_in_address(m, a), s, e),
        OpcodeKind::ReadOffset(a, v) => OpcodeKind::ReadOffset(update_register_number_in_address(m, a), v),
        OpcodeKind::WriteBits(a, r, s, e) => OpcodeKind::WriteBits(
            update_register_number_in_address(m, a),
            renumber_register(m, r),
            s,
            e,
        ),
        OpcodeKind::WriteOffset(a, v, offset) => OpcodeKind::WriteOffset(
            update_register_number_in_address(m, a),
            update_register_number_in_value(m, v),
            offset,
        ),
    }
}

impl<Word: WordTrait> CodeBlockOptimser<Word> {
    /// The optimised opcodes of `source`.
    pub fn optimise(source: &Block<Opcode<Word>>) -> (r: Vec<Opcode<Word>>)
        requires
            code_optimisable(source.view()),
        ensures
            r@ == optimised_code(source.view()),
    {
        let ops = source.items();
        let n = ops.len();
        let mut optimiser = CodeBlockOptimser {
            duplicate_instructions: Vec::new(),
            constant_registers: empty_slots(n),
            duplicate_registers: empty_slots(n),
        };
        let mut kept: Vec<(usize, OpcodeKind<Word>)> = Vec::new();
        let mut i: usize = 0;
        assert(ops@.take(0) =~= Seq::<Opcode<Word>>::empty());
        assert(optimiser@ == initial_state::<Word>(n as nat));
        while i < n
            invariant
                n == ops@.len(),
                ops@ == source.view(),
                i <= n,
                code_optimisable(ops@),
                (optimiser@, kept@) == simplify_prefix(ops@.take(i as int), n as nat),
                state_wf(optimiser@, n as nat, i as nat),
            decreases n - i,
        {
            proof {
                lemma_defined_prefix(ops@, n as nat, i + 1);
                assert(ops@.take(i + 1).drop_last() =~= ops@.take(i as int));
                assert(ops@.take(i + 1).last() == ops@[i as int]);
                assert(ops@[i as int].destination == i && kind_below(ops@[i as int].opcode, i as nat));
            }
            let op = ops[i];
            if let Some(k) = optimiser.simplify_opcode(op.destination, op.opcode) {
                kept.push((i, k));
            }
            i = i + 1;
        }
        assert(ops@.take(n as int) =~= ops@);
        proof {
            lemma_kept_indices(ops@, n as nat);
        }
        let ghost all = simplify_prefix(ops@, n as nat).1;
        let mut mapping: Vec<Option<usize>> = empty_slots(n);
        let mut result: Vec<Opcode<Word>> = Vec::new();
        let k = kept.len();
        let mut j: usize = 0;
        assert(kept@.take(0) =~= Seq::<(usize, OpcodeKind<Word>)>::empty());
        while j < k
            invariant
                k == kept@.len(),
                kept@ == all,
                j <= k,
                renumber_defined(all, n as nat),
                forall|t: int| 0 <= t < all.len() ==> (#[trigger] all[t]).0 < n,
                mapping@ == numbering(kept@.take(j as int), n as nat),
                result@ == renumbered(all, n as nat).take(j as int),
            decreases k - j,
        {
            let (old_index, op) = kept[j];
            proof {
                lemma_numbering_len(kept@.take(j as int), n as nat);
                assert(kept@.take(j + 1).drop_last() =~= kept@.take(j as int));
                assert(kept@.take(j + 1).last() == kept@[j as int]);
            }
            mapping.set(old_index, Some(j));
            assert(mapping@ == numbering(kept@.take(j + 1), n as nat));
            assert(kind_numbered(numbering(all.take(j + 1), n as nat), all[j as int].1));
            let opcode = update_register_numbers(&mapping, op);
            result.push(Opcode { destination: j, opcode });
            j = j + 1;
            assert(result@ =~= renumbered(all, n as nat).take(j as int));
        }
        assert(result@ =~= renumbered(all, n as nat));
        result
    }
}

// ---------------------------------------------------------------------------
// The model of the whole pass over a program.
// ---------------------------------------------------------------------------

/// `s` without repeats, each item kept where it first occurs.
pub open spec fn dedup<T>(s: Seq<T>) -> Seq<T>
    decreases s.len(),
{
    if s.len() == 0 {
        Seq::empty()
    } else {
        let d = dedup(s.drop_last());
        if d.contains(s.last()) {
            d
        } else {
            d.push(s.last())
        }
    }
}

/// Where `x` stands in `s`.
pub open spec fn position<T>(s: Seq<T>, x: T) -> int {
    choose|i: int| 0 <= i < s.len() && s[i] == x
}

/// The items of each block.
pub open spec fn contents<T>(blocks: Seq<Block<T>>) -> Seq<Seq<T>> {
    Seq::new(blocks.len(), |k: int| blocks[k].view())
}

/// The optimised opcodes of each code block.
pub open spec fn optimised_text<Word: WordTrait>(sections: Sections<Word>) -> Seq<Seq<Opcode<Word>>> {
    Seq::new(sections.text_view().len(), |k: int| optimised_code(sections.text_view()[k].view()))
}

/// The map given by a list of pairs, a later pair overriding an earlier one.
pub open spec fn pairs_map(pairs: Seq<(usize, usize)>) -> Map<usize, usize>
    decreases pairs.len(),
{
    if pairs.len() == 0 {
        Map::empty()
    } else {
        pairs_map(pairs.drop_last()).insert(pairs.last().0, pairs.last().1)
    }
}

/// Each old block id with the id of the block it becomes: data blocks,
/// then string tables, then the distinct read-only blocks, then the
/// distinct optimised code blocks, numbered in that order.
pub open spec fn id_pairs<Word: WordTrait>(sections: Sections<Word>) -> Seq<(usize, usize)> {
    let data = sections.data_view();
    let strtab = sections.strtab_view();
    let rodata = sections.rodata_view();
    let text = sections.text_view();
    let rodata_items = contents(rodata);
    let code = optimised_text(sections);
    let d = data.len();
    let st = strtab.len();
    let ur = dedup(rodata_items).len();
    Seq::new(d, |i: int| (data[i].block_id(), i as usize)) + Seq::new(
        st,
        |j: int| (strtab[j].block_id(), (d + j) as usize),
    ) + Seq::new(
        rodata.len(),
        |k: int| (rodata[k].block_id(), (d + st + position(dedup(rodata_items), rodata_items[k])) as usize),
    ) + Seq::new(
        text.len(),
        |k: int| (text[k].block_id(), (d + st + ur + position(dedup(code), code[k])) as usize),
    )
}

/// The new id of each old block.
pub open spec fn id_mapping<Word: WordTrait>(sections: Sections<Word>) -> Map<usize, usize> {
    pairs_map(id_pairs(sections))
}

pub open spec fn remap_address_spec(m: Map<usize, usize>, a: Address) -> Address {
    match a {
        Address::Immediate((b, o)) => Address::Immediate((m[b], o)),
        Address::Register(_) => a,
    }
}

pub open spec fn remap_constant_spec<Word: WordTrait>(m: Map<usize, usize>, c: Constant<Word>) -> Constant<Word> {
    match c {
        Constant::Address(b, o) => Constant::Address(m[b], o),
        Constant::Value(_) => c,
    }
}

pub open spec fn remap_value_spec<Word: WordTrait>(m: Map<usize, usize>, v: Value<Word>) -> Value<Word> {
    match v {
        Value::Indirect(a) => Value::Indirect(remap_address_spec(m, a)),
        Value::Immediate(c) => Value::Immediate(remap_constant_spec(m, c)),
        Value::Register(_) => v,
    }
}

/// The opcode with the block ids of its addresses and constants replaced by
/// their new ids (the value a `WriteOffset` stores is left as it is).
pub open spec fn remap_kind_spec<Word: WordTrait>(m: Map<usize, usize>, k: OpcodeKind<Word>) -> OpcodeKind<Word> {
    match k {
        OpcodeKind::Call(a, v) => OpcodeKind::Call(remap_address_spec(m, a), remap_value_spec(m, v)),
        OpcodeKind::CallLibrary(c, r, i, o) => OpcodeKind::CallLibrary(c, r, i, o),
        OpcodeKind::CheckInputs(r, i, o) => OpcodeKind::CheckInputs(r, i, o),
        OpcodeKind::Load(c) => OpcodeKind::Load(remap_constant_spec(m, c)),
        OpcodeKind::LoadResv => OpcodeKind::LoadResv,
        OpcodeKind::Offset { base, item_size, item_count } => OpcodeKind::Offset {
            base: remap_address_spec(m, base),
            item_size,
            item_count: remap_value_spec(m, item_count),
        },
        OpcodeKind::Read(a) => OpcodeKind::Read(remap_address_spec(m, a)),
        OpcodeKind::ReadBits(a, s, e) => OpcodeKind::ReadBits(remap_address_spec(m, a), s, e),
        OpcodeKind::ReadOffset(a, v) => OpcodeKind::ReadOffset(remap_address_spec(m, a), v),
        OpcodeKind::WriteBits(a, r, s, e) => OpcodeKind::WriteBits(remap_address_spec(m, a), r, s, e),
        OpcodeKind::WriteOffset(a, r, v) => OpcodeKind::WriteOffset(remap_address_spec(m, a), r, v),
    }
}

pub open spec fn remap_opcode_spec<Word: WordTrait>(m: Map<usize, usize>, op: Opcode<Word>) -> Opcode<Word> {
    Opcode { destination: op.destination, opcode: remap_kind_spec(m, op.opcode) }
}

pub open spec fn remap_item_spec<Word: WordTrait>(m: Map<usize, usize>, d: DataItem<Word>) -> DataItem<Word> {
    match d {
        DataItem::Address(b, a) => DataItem::Address(m[b], a),
        DataItem::Word(_) => d,
    }
}

pub open spec fn remap_label_spec(m: Map<usize, usize>, e: (&'static str, BlockAddress)) -> (&'static str, BlockAddress) {
    (e.0, (m[e.1.0], e.1.1))
}

pub open spec fn address_known(m: Map<usize, usize>, a: Address) -> bool {
    match a {
        Address::Immediate((b, _)) => m.contains_key(b),
        Address::Register(_) => true,
    }
}

pub open spec fn constant_known<Word: WordTrait>(m: Map<usize, usize>, c: Constant<Word>) -> bool {
    match c {
        Constant::Address(b, _) => m.contains_key(b),
        Constant::Value(_) => true,
    }
}

pub open spec fn value_known<Word: WordTrait>(m: Map<usize, usize>, v: Value<Word>) -> bool {
    match v {
        Value::Indirect(a) => address_known(m, a),
        Value::Immediate(c) => constant_known(m, c),
        Value::Register(_) => true,
    }
}

/// Every block id the opcode's remapping reads has a new id.
pub open spec fn kind_known<Word: WordTrait>(m: Map<usize, usize>, k: OpcodeKind<Word>) -> bool {
    match k {
        OpcodeKind::Call(a, v) => address_known(m, a) && value_known(m, v),
        OpcodeKind::Load(c) => constant_known(m, c),
        OpcodeKind::Offset { base, item_count, .. } => address_known(m, base) && value_known(m, item_count),
        OpcodeKind::Read(a) => address_known(m, a),
        OpcodeKind::ReadBits(a, _, _) => address_known(m, a),
        OpcodeKind::ReadOffset(a, _) => address_known(m, a),
        OpcodeKind::WriteBits(a, _, _, _) => address_known(m, a),
        OpcodeKind::WriteOffset(a, _, _) => address_known(m, a),
        _ => true,
    }
}

pub open spec fn item_known<Word: WordTrait>(m: Map<usize, usize>, d: DataItem<Word>) -> bool {
    match d {
        DataItem::Address(b, _) => m.contains_key(b),
        DataItem::Word(_) => true,
    }
}

/// The programs the optimiser accepts: well formed, each code block
/// optimisable, and every block a remapped reference names is a block of
/// the program.
pub open spec fn program_optimisable<Word: WordTrait>(sections: Sections<Word>) -> bool {
    let m = id_mapping(sections);
    &&& sections.wf()
    &&& forall|k: int|
        0 <= k < sections.text_view().len() ==> code_optimisable(#[trigger] sections.text_view()[k].view())
    &&& forall|k: int, i: int|
        0 <= k < optimised_text(sections).len() && 0 <= i < optimised_text(sections)[k].len()
            ==> kind_known(m, #[trigger] optimised_text(sections)[k][i].opcode)
    &&& forall|k: int, i: int|
        0 <= k < sections.data_view().len() && 0 <= i < sections.data_view()[k].view().len()
            ==> item_known(m, #[trigger] sections.data_view()[k].view()[i])
    &&& forall|i: int| 0 <= i < sections.label_seq().len() ==> m.contains_key((#[trigger] sections.label_seq()[i]).1.0)
}

// ---------------------------------------------------------------------------
// Facts about `dedup` and `pairs_map`.
// ---------------------------------------------------------------------------

proof fn lemma_dedup_no_duplicates<T>(s: Seq<T>)
    ensures
        dedup(s).no_duplicates(),
        forall|x: T| dedup(s).contains(x) <==> s.contains(x),
    decreases s.len(),
{
    if s.len() > 0 {
        lemma_dedup_no_duplicates(s.drop_last());
        assert forall|x: T| dedup(s).contains(x) <==> s.contains(x) by {
            if s.contains(x) && x != s.last() {
                let i = choose|i: int| 0 <= i < s.len() && s[i] == x;
                assert(s.drop_last()[i] == x);
            }
            if s.drop_last().contains(x) {
                let i = choose|i: int| 0 <= i < s.drop_last().len() && s.drop_last()[i] == x;
                assert(s[i] == x);
            }
            if !dedup(s.drop_last()).contains(s.last()) {
                assert(dedup(s) == dedup(s.drop_last()).push(s.last()));
                if dedup(s).contains(x) && x != s.last() {
                    let i = choose|i: int| 0 <= i < dedup(s).len() && dedup(s)[i] == x;
                    assert(dedup(s.drop_last())[i] == x);
                }
                if dedup(s.drop_last()).contains(x) {
                    let i = choose|i: int| 0 <= i < dedup(s.drop_last()).len() && dedup(s.drop_last())[i] == x;
                    assert(dedup(s)[i] == x);
                }
                assert(dedup(s)[dedup(s).len() - 1] == s.last());
            }
        }
    }
}

/// Deduplicating a longer prefix only appends.
proof fn lemma_dedup_prefix<T>(s: Seq<T>, k: int)
    requires
        0 <= k <= s.len(),
    ensures
        dedup(s.take(k)).len() <= dedup(s).len(),
        dedup(s).take(dedup(s.take(k)).len() as int) == dedup(s.take(k)),
    decreases s.len() - k,
{
    if k < s.len() {
        lemma_dedup_prefix(s, k + 1);
        assert(s.take(k + 1).drop_last() =~= s.take(k));
        let a = dedup(s.take(k));
        let b = dedup(s.take(k + 1));
        assert(b.take(a.len() as int) =~= a);
        assert(dedup(s).take(a.len() as int) =~= dedup(s).take(b.len() as int).take(a.len() as int));
    } else {
        assert(s.take(k) =~= s);
        assert(dedup(s).take(dedup(s).len() as int) =~= dedup(s));
    }
}

/// The position of an item of a sequence without repeats is the one index holding it.
proof fn lemma_position<T>(s: Seq<T>, i: int)
    requires
        s.no_duplicates(),
        0 <= i < s.len(),
    ensures
        position(s, s[i]) == i,
{
    let j = position(s, s[i]);
    assert(0 <= j < s.len() && s[j] == s[i]);
}

proof fn lemma_pairs_map_last(pairs: Seq<(usize, usize)>, b: usize)
    requires
        pairs.len() > 0,
        pairs.last().0 != b,
    ensures
        pairs_map(pairs).contains_key(b) == pairs_map(pairs.drop_last()).contains_key(b),
        pairs_map(pairs)[b] == pairs_map(pairs.drop_last())[b],
{
}

// ---------------------------------------------------------------------------
// Remapping block ids.
// ---------------------------------------------------------------------------

/// The new id of block `b`: the last pair naming it.
fn lookup_block(pairs: &Vec<(usize, usize)>, b: usize) -> (r: usize)
    requires
        pairs_map(pairs@).contains_key(b),
    ensures
        r == pairs_map(pairs@)[b],
{
    let mut i = pairs.len();
    assert(pairs@.take(i as int) =~= pairs@);
    while i > 0
        invariant
            i <= pairs@.len(),
            pairs_map(pairs@.take(i as int)).contains_key(b),
            pairs_map(pairs@)[b] == pairs_map(pairs@.take(i as int))[b],
        decreases i,
    {
        assert(pairs@.take(i as int).drop_last() =~= pairs@.take(i - 1));
        if pairs[i - 1].0 == b {
            return pairs[i - 1].1;
        }
        proof {
            lemma_pairs_map_last(pairs@.take(i as int), b);
        }
        i = i - 1;
    }
    assert(pairs_map(pairs@.take(0)) == Map::<usize, usize>::empty());
    0
}

fn remap_address(pairs: &Vec<(usize, usize)>, address: Address) -> (r: Address)
    requires
        address_known(pairs_map(pairs@), address),
    ensures
        r == remap_address_spec(pairs_map(pairs@), address),
{
    match address {
        Address::Immediate((b, a)) => Address::Immediate((lookup_block(pairs, b), a)),
        addr => addr,
    }
}

fn remap_constant<Word: WordTrait>(pairs: &Vec<(usize, usize)>, value: Constant<Word>) -> (r: Constant<Word>)
    requires
        constant_known(pairs_map(pairs@), value),
    ensures
        r == remap_constant_spec(pairs_map(pairs@), value),
{
    match value {
        Constant::Address(b, a) => Constant::Address(lookup_block(pairs, b), a),
        value => value,
    }
}

fn remap_value<Word: WordTrait>(pairs: &Vec<(usize, usize)>, value: Value<Word>) -> (r: Value<Word>)
    requires
        value_known(pairs_map(pairs@), value),
    ensures
        r == remap_value_spec(pairs_map(pairs@), value),
{
    match value {
        Value::Indirect(a) => Value::Indirect(remap_address(pairs, a)),
        Value::Immediate(c) => Value::Immediate(remap_constant(pairs, c)),
        value => value,
    }
}

/// The opcode with the block ids it names replaced by their new ids.
fn remap_blocks<Word: WordTrait>(pairs: &Vec<(usize, usize)>, opcode: OpcodeKind<Word>) -> (r: OpcodeKind<Word>)
    requires
        kind_known(pairs_map(pairs@), opcode),
    ensures
        r == remap_kind_spec(pairs_map(pairs@), opcode),
{
    match opcode {
        OpcodeKind::Call(a, v) => OpcodeKind::Call(remap_address(pairs, a), remap_value(pairs, v)),
        OpcodeKind::CallLibrary(c, r, i, o) => OpcodeKind::CallLibrary(c, r, i, o),
        OpcodeKind::CheckInputs(r, i, o) => OpcodeKind::CheckInputs(r, i, o),
        OpcodeKind::Load(c) => OpcodeKind::Load(remap_constant(pairs, c)),
        OpcodeKind::LoadResv => OpcodeKind::LoadResv,
        OpcodeKind::Offset { base, item_size, item_count } => OpcodeKind::Offset {
            base: remap_address(pairs, base),
            item_size,
            item_count: remap_value(pairs, item_count),
        },
        OpcodeKind::Read(a) => OpcodeKind::Read(remap_address(pairs, a)),
        OpcodeKind::ReadBits(a, s, e) => OpcodeKind::ReadBits(remap_address(pairs, a), s, e),
        OpcodeKind::ReadOffset(a, v) => OpcodeKind::ReadOffset(remap_address(pairs, a), v),
        OpcodeKind::WriteBits(a, r, s, e) => OpcodeKind::WriteBits(remap_address(pairs, a), r, s, e),
        OpcodeKind::WriteOffset(a, r, v) => OpcodeKind::WriteOffset(remap_address(pairs, a), r, v),
    }
}

fn remap_item<Word: WordTrait>(pairs: &Vec<(usize, usize)>, item: DataItem<Word>) -> (r: DataItem<Word>)
    requires
        item_known(pairs_map(pairs@), item),
    ensures
        r == remap_item_spec(pairs_map(pairs@), item),
{
    match item {
        DataItem::Address(blk, addr) => DataItem::Address(lookup_block(pairs, blk), addr),
        DataItem::Word(v) => DataItem::Word(v),
    }
}

/// Whether two sequences of words are equal.
fn words_eq<Word: WordTrait>(a: &[Word], b: &[Word]) -> (r: bool)
    ensures
        r == (a@ == b@),
{
    if a.len() != b.len() {
        return false;
    }
    let mut i: usize = 0;
    while i < a.len()
        invariant
            a@.len() == b@.len(),
            i <= a@.len(),
            forall|k: int| 0 <= k < i ==> a@[k] == b@[k],
        decreases a@.len() - i,
    {
        if !a[i].same(&b[i]) {
            return false;
        }
        i = i + 1;
    }
    assert(a@ =~= b@);
    true
}

/// Whether two sequences of opcodes are equal.
fn opcodes_eq<Word: WordTrait>(a: &[Opcode<Word>], b: &[Opcode<Word>]) -> (r: bool)
    ensures
        r == (a@ == b@),
{
    if a.len() != b.len() {
        return false;
    }
    let mut i: usize = 0;
    while i < a.len()
        invariant
            a@.len() == b@.len(),
            i <= a@.len(),
            forall|k: int| 0 <= k < i ==> a@[k] == b@[k],
        decreases a@.len() - i,
    {
        if !opcode_eq(&a[i], &b[i]) {
            return false;
        }
        i = i + 1;
    }
    assert(a@ =~= b@);
    true
}

// ---------------------------------------------------------------------------
// The whole pass.
// ---------------------------------------------------------------------------

/// What the optimiser makes of `src`: the data blocks first, remapped; then
/// the string tables; then each distinct read-only block once; then each
/// distinct optimised code block once, remapped; numbered in that order, and
/// the labels moved to the new ids.
pub open spec fn optimised_program<Word: WordTrait>(src: Sections<Word>, r: Sections<Word>) -> bool {
    let m = id_mapping(src);
    let d = src.data_view().len();
    let st = src.strtab_view().len();
    let uro = dedup(contents(src.rodata_view()));
    let utx = dedup(optimised_text(src));
    &&& r.wf()
    &&& r.types().len() == d + st + uro.len() + utx.len()
    &&& r.data_view().len() == d
    &&& forall|i: int|
        0 <= i < d ==> (#[trigger] r.data_view()[i]).block_id() == i && r.data_view()[i].view()
            == src.data_view()[i].view().map_values(|x: DataItem<Word>| remap_item_spec(m, x))
    &&& r.strtab_view().len() == st
    &&& forall|j: int|
        0 <= j < st ==> (#[trigger] r.strtab_view()[j]).block_id() == d + j && r.strtab_view()[j].view()
            == src.strtab_view()[j].view()
    &&& r.rodata_view().len() == uro.len()
    &&& forall|k: int|
        0 <= k < uro.len() ==> (#[trigger] r.rodata_view()[k]).block_id() == d + st + k && r.rodata_view()[k].view()
            == uro[k]
    &&& r.text_view().len() == utx.len()
    &&& forall|k: int|
        0 <= k < utx.len() ==> (#[trigger] r.text_view()[k]).block_id() == d + st + uro.len() + k
            && r.text_view()[k].view() == utx[k].map_values(|op: Opcode<Word>| remap_opcode_spec(m, op))
    &&& r.labels() == label_map(src.label_seq().map_values(|e: (&'static str, BlockAddress)| remap_label_spec(m, e)))
}

/// The first `nd` data blocks of `src`, copied and numbered from zero.
#[verifier::opaque]
pub open spec fn data_part<Word: WordTrait>(out: Sections<Word>, src: Sections<Word>, nd: nat) -> bool {
    &&& out.data_view().len() == nd
    &&& forall|i: int|
        0 <= i < nd ==> (#[trigger] out.data_view()[i]).view() == src.data_view()[i].view()
            && out.data_view()[i].block_id() == i && out.types()[i] == (Section::Data, i as usize)
}

/// The first `ns` string tables of `src`, copied and numbered from `base`.
#[verifier::opaque]
pub open spec fn strtab_part<Word: WordTrait>(out: Sections<Word>, src: Sections<Word>, base: nat, ns: nat) -> bool {
    &&& out.strtab_view().len() == ns
    &&& forall|j: int|
        0 <= j < ns ==> (#[trigger] out.strtab_view()[j]).view() == src.strtab_view()[j].view()
            && out.strtab_view()[j].block_id() == base + j && out.types()[base + j] == (Section::Strtab, j as usize)
}

/// `blocks` hold the distinct items of `items`, one block each, numbered
/// from `base` and recorded in `types` as blocks of section `sec`.
pub open spec fn part_of<T>(blocks: Seq<Block<T>>, types: Seq<(Section, usize)>, items: Seq<Seq<T>>, base: nat, sec: Section) -> bool {
    &&& contents(blocks) == dedup(items)
    &&& forall|k: int|
        0 <= k < dedup(items).len() ==> (#[trigger] blocks[k]).block_id() == base + k && types[base + k] == (
            sec,
            k as usize,
        )
}

/// The distinct items of `items`, one block each, numbered from `base`.
#[verifier::opaque]
pub open spec fn rodata_part<Word: WordTrait>(out: Sections<Word>, items: Seq<Seq<Word>>, base: nat) -> bool {
    part_of(out.rodata_view(), out.types(), items, base, Section::Rodata)
}

/// The distinct items of `code`, one block each, numbered from `base`.
#[verifier::opaque]
pub open spec fn text_part<Word: WordTrait>(out: Sections<Word>, code: Seq<Seq<Opcode<Word>>>, base: nat) -> bool {
    part_of(out.text_view(), out.types(), code, base, Section::Text)
}

/// A block already holds item `k`: nothing is added, and the item's new id
/// is that block's.
proof fn lemma_part_found<T>(blocks: Seq<Block<T>>, types: Seq<(Section, usize)>, items: Seq<Seq<T>>, idx: int, j: int, base: nat, sec: Section)
    requires
        part_of(blocks, types, items.take(idx), base, sec),
        0 <= idx < items.len(),
        0 <= j < blocks.len(),
        blocks[j].view() == items[idx],
    ensures
        part_of(blocks, types, items.take(idx + 1), base, sec),
        position(dedup(items), items[idx]) == j,
        blocks[j].block_id() == base + j,
{
    lemma_dedup_step(items, idx);
    assert(contents(blocks)[j] == items[idx]);
    assert(dedup(items.take(idx)).contains(items[idx]));
    lemma_position_in_dedup(items, idx, j);
    let a = items.take(idx);
    let b = items.take(idx + 1);
    assert(dedup(a) == dedup(b));
    assert forall|t: int| 0 <= t < dedup(b).len() implies (#[trigger] blocks[t]).block_id() == base + t && types[base
        + t] == (sec, t as usize) by {
        assert(0 <= t < dedup(a).len());
        assert(blocks[t].block_id() == base + t);
    }
    assert(contents(blocks) == dedup(b));
    assert(part_of(blocks, types, b, base, sec));
}

/// No block holds item `k`: a block holding it is appended, and gets the
/// next id.
proof fn lemma_part_pushed<T>(
    blocks: Seq<Block<T>>,
    types: Seq<(Section, usize)>,
    blocks2: Seq<Block<T>>,
    types2: Seq<(Section, usize)>,
    items: Seq<Seq<T>>,
    idx: int,
    base: nat,
    sec: Section,
)
    requires
        part_of(blocks, types, items.take(idx), base, sec),
        0 <= idx < items.len(),
        !contents(blocks).contains(items[idx]),
        types.len() == base + blocks.len(),
        blocks2.len() == blocks.len() + 1,
        blocks2.drop_last() == blocks,
        blocks2.last().view() == items[idx],
        blocks2.last().block_id() == types.len(),
        types2 == types.push((sec, blocks.len() as usize)),
    ensures
        part_of(blocks2, types2, items.take(idx + 1), base, sec),
        position(dedup(items), items[idx]) == blocks.len(),
        types2.len() == base + blocks2.len(),
{
    lemma_dedup_step(items, idx);
    let n = blocks.len() as int;
    assert(contents(blocks2) =~= contents(blocks).push(items[idx])) by {
        assert forall|t: int| 0 <= t < n implies contents(blocks2)[t] == contents(blocks)[t] by {
            assert(blocks2.drop_last()[t] == blocks2[t]);
        }
    }
    assert(dedup(items.take(idx + 1))[n] == items[idx]);
    lemma_position_in_dedup(items, idx, n);
    assert forall|t: int| 0 <= t < dedup(items.take(idx + 1)).len() implies (#[trigger] blocks2[t]).block_id() == base
        + t && types2[base + t] == (sec, t as usize) by {
        if t < n {
            assert(blocks2.drop_last()[t] == blocks2[t]);
            assert(blocks[t].block_id() == base + t);
        }
    }
}

/// The blocks of `src` copied so far: `nd` data blocks, `ns` string tables,
/// the distinct blocks among the first `nr` read-only and `nt` optimised
/// code blocks, with the pairs of old and new ids for all of them.
pub open spec fn built<Word: WordTrait>(
    out: Sections<Word>,
    pairs: Seq<(usize, usize)>,
    src: Sections<Word>,
    nd: nat,
    ns: nat,
    nr: nat,
    nt: nat,
) -> bool {
    let rodata_items = contents(src.rodata_view()).take(nr as int);
    let code = optimised_text(src).take(nt as int);
    let ur = dedup(rodata_items).len();
    let ut = dedup(code).len();
    &&& out.wf()
    &&& out.labels() == Map::<Seq<char>, BlockAddress>::empty()
    &&& out.types().len() == nd + ns + ur + ut
    &&& data_part(out, src, nd)
    &&& strtab_part(out, src, nd, ns)
    &&& rodata_part(out, rodata_items, nd + ns)
    &&& text_part(out, code, nd + ns + ur)
    &&& pairs == id_pairs(src).take((nd + ns + nr + nt) as int)
}

/// A part of the output stays as it is where a block is added to another
/// section: its blocks and their entries of `types` are unchanged.
proof fn lemma_frame<Word: WordTrait>(out: Sections<Word>, out2: Sections<Word>, src: Sections<Word>, nd: nat, ns: nat, nr: nat, nt: nat)
    requires
        out.types().len() <= out2.types().len(),
        out2.types().subrange(0, out.types().len() as int) == out.types(),
        out.types().len() == nd + ns + dedup(contents(src.rodata_view()).take(nr as int)).len() + dedup(
            optimised_text(src).take(nt as int),
        ).len(),
    ensures
        data_part(out, src, nd) && out2.data_view() == out.data_view() ==> data_part(out2, src, nd),
        strtab_part(out, src, nd, ns) && out2.strtab_view() == out.strtab_view() ==> strtab_part(out2, src, nd, ns),
        rodata_part(out, contents(src.rodata_view()).take(nr as int), nd + ns) && out2.rodata_view()
            == out.rodata_view() ==> rodata_part(out2, contents(src.rodata_view()).take(nr as int), nd + ns),
        text_part(out, optimised_text(src).take(nt as int), nd + ns + dedup(contents(src.rodata_view()).take(nr as int)).len())
            && out2.text_view() == out.text_view() ==> text_part(
            out2,
            optimised_text(src).take(nt as int),
            nd + ns + dedup(contents(src.rodata_view()).take(nr as int)).len(),
        ),
{
    reveal(data_part);
    reveal(strtab_part);
    reveal(rodata_part);
    reveal(text_part);
    let n = out.types().len() as int;
    assert forall|t: int| 0 <= t < n implies out2.types()[t] == out.types()[t] by {
        assert(out2.types().subrange(0, n)[t] == out2.types()[t]);
    }
    let ur = dedup(contents(src.rodata_view()).take(nr as int)).len();
    let ut = dedup(optimised_text(src).take(nt as int)).len();
    if data_part(out, src, nd) && out2.data_view() == out.data_view() {
        assert forall|i: int| 0 <= i < nd implies (#[trigger] out2.data_view()[i]).view() == src.data_view()[i].view()
            && out2.data_view()[i].block_id() == i && out2.types()[i] == (Section::Data, i as usize) by {
            assert(out.data_view()[i] == out2.data_view()[i]);
        }
    }
    if strtab_part(out, src, nd, ns) && out2.strtab_view() == out.strtab_view() {
        assert forall|j: int| 0 <= j < ns implies (#[trigger] out2.strtab_view()[j]).view() == src.strtab_view()[j].view()
            && out2.strtab_view()[j].block_id() == nd + j && out2.types()[nd + j] == (Section::Strtab, j as usize) by {
            assert(out.strtab_view()[j] == out2.strtab_view()[j]);
        }
    }
    if rodata_part(out, contents(src.rodata_view()).take(nr as int), nd + ns) && out2.rodata_view() == out.rodata_view() {
        let items = contents(src.rodata_view()).take(nr as int);
        assert forall|k: int| 0 <= k < dedup(items).len() implies (#[trigger] out2.rodata_view()[k]).block_id() == nd + ns + k
            && out2.types()[nd + ns + k] == (Section::Rodata, k as usize) by {
            assert(out.rodata_view()[k] == out2.rodata_view()[k]);
        }
    }
    if text_part(out, optimised_text(src).take(nt as int), nd + ns + ur) && out2.text_view() == out.text_view() {
        let code = optimised_text(src).take(nt as int);
        assert forall|k: int| 0 <= k < dedup(code).len() implies (#[trigger] out2.text_view()[k]).block_id() == nd + ns + ur + k
            && out2.types()[nd + ns + ur + k] == (Section::Text, k as usize) by {
            assert(out.text_view()[k] == out2.text_view()[k]);
        }
    }
}

/// A copy of each string.
fn clone_strings(items: &[String]) -> (r: Vec<String>)
    ensures
        r@ == items@,
{
    let mut r: Vec<String> = Vec::new();
    let mut i: usize = 0;
    while i < items.len()
        invariant
            i <= items@.len(),
            r@ == items@.take(i as int),
        decreases items@.len() - i,
    {
        r.push(items[i].clone());
        i = i + 1;
        assert(r@ =~= items@.take(i as int));
    }
    assert(items@.take(items@.len() as int) =~= items@);
    r
}

/// Optimises a whole program: code blocks are simplified, identical
/// read-only and code blocks are merged, and every reference to a block is
/// moved to the block's new id.
pub struct IrOptimiser<Word: WordTrait> {
    sections: Sections<Word>,
    block_id_mapping: Vec<(usize, usize)>,
}

impl<Word: WordTrait> IrOptimiser<Word> {
    fn copy_data(&mut self, src: &Sections<Word>)
        requires
            built(old(self).sections, old(self).block_id_mapping@, *src, 0, 0, 0, 0),
        ensures
            built(final(self).sections, final(self).block_id_mapping@, *src, src.data_view().len(), 0, 0, 0),
    {
        let data = src.data_blocks();
        let mut i: usize = 0;
        assert(contents(src.rodata_view()).take(0) =~= Seq::<Seq<Word>>::empty());
        assert(optimised_text(*src).take(0) =~= Seq::<Seq<Opcode<Word>>>::empty());
        while i < data.len()
            invariant
                data@ == src.data_view(),
                i <= data@.len(),
                built(self.sections, self.block_id_mapping@, *src, i as nat, 0, 0, 0),
                contents(src.rodata_view()).take(0) == Seq::<Seq<Word>>::empty(),
                optimised_text(*src).take(0) == Seq::<Seq<Opcode<Word>>>::empty(),
            decreases data@.len() - i,
        {
            let ghost before = self.sections;
            let id = self.sections.push_data(vstd::slice::slice_to_vec(data[i].items()));
            self.block_id_mapping.push((data[i].id(), id));
            proof {
                let after = self.sections;
                assert(after.types().subrange(0, before.types().len() as int) =~= before.types());
                lemma_frame(before, after, *src, i as nat, 0, 0, 0);
                reveal(data_part);
                assert forall|t: int| 0 <= t < i + 1 implies (#[trigger] after.data_view()[t]).view()
                    == src.data_view()[t].view() && after.data_view()[t].block_id() == t
                    && after.types()[t] == (Section::Data, t as usize) by {
                    if t < i {
                        assert(after.data_view()[t] == before.data_view()[t]);
                        assert(after.types()[t] == before.types()[t]);
                    } else {
                        assert(after.data_view()[t] == after.data_view().last());
                    }
                }
                assert(data_part(after, *src, (i + 1) as nat));
                reveal(strtab_part);
                assert(strtab_part(after, *src, (i + 1) as nat, 0));
                reveal(rodata_part);
                reveal(text_part);
                assert(rodata_part(after, Seq::<Seq<Word>>::empty(), (i + 1) as nat));
                assert(text_part(after, Seq::<Seq<Opcode<Word>>>::empty(), (i + 1) as nat));
                assert(id_pairs(*src)[i as int] == (data@[i as int].block_id(), i));
                assert(self.block_id_mapping@ =~= id_pairs(*src).take(i + 1));
            }
            i = i + 1;
        }
    }

    fn copy_strtab(&mut self, src: &Sections<Word>)
        requires
            built(old(self).sections, old(self).block_id_mapping@, *src, src.data_view().len(), 0, 0, 0),
        ensures
            built(
                final(self).sections,
                final(self).block_id_mapping@,
                *src,
                src.data_view().len(),
                src.strtab_view().len(),
                0,
                0,
            ),
    {
        let strtab = src.strtab_blocks();
        let ghost d = src.data_view().len();
        let mut j: usize = 0;
        assert(contents(src.rodata_view()).take(0) =~= Seq::<Seq<Word>>::empty());
        assert(optimised_text(*src).take(0) =~= Seq::<Seq<Opcode<Word>>>::empty());
        while j < strtab.len()
            invariant
                strtab@ == src.strtab_view(),
                d == src.data_view().len(),
                j <= strtab@.len(),
                built(self.sections, self.block_id_mapping@, *src, d, j as nat, 0, 0),
                contents(src.rodata_view()).take(0) == Seq::<Seq<Word>>::empty(),
                optimised_text(*src).take(0) == Seq::<Seq<Opcode<Word>>>::empty(),
            decreases strtab@.len() - j,
        {
            let ghost before = self.sections;
            let id = self.sections.push_strtab(clone_strings(strtab[j].items()));
            self.block_id_mapping.push((strtab[j].id(), id));
            proof {
                let after = self.sections;
                assert(after.types().subrange(0, before.types().len() as int) =~= before.types());
                lemma_frame(before, after, *src, d, j as nat, 0, 0);
                reveal(strtab_part);
                assert forall|t: int| 0 <= t < j + 1 implies (#[trigger] after.strtab_view()[t]).view()
                    == src.strtab_view()[t].view() && after.strtab_view()[t].block_id() == d + t
                    && after.types()[d + t] == (Section::Strtab, t as usize) by {
                    if t < j {
                        assert(after.strtab_view()[t] == before.strtab_view()[t]);
                        assert(after.types()[d + t] == before.types()[d + t]);
                    } else {
                        assert(after.strtab_view()[t] == after.strtab_view().last());
                    }
                }
                assert(strtab_part(after, *src, d, (j + 1) as nat));
                reveal(rodata_part);
                reveal(text_part);
                assert(rodata_part(after, Seq::<Seq<Word>>::empty(), (d + j + 1) as nat));
                assert(text_part(after, Seq::<Seq<Opcode<Word>>>::empty(), (d + j + 1) as nat));
                assert(id_pairs(*src)[d + j] == (strtab@[j as int].block_id(), (d + j) as usize));
                assert(self.block_id_mapping@ =~= id_pairs(*src).take(d + j + 1));
            }
            j = j + 1;
        }
    }
}

proof fn lemma_dedup_step<T>(s: Seq<T>, k: int)
    requires
        0 <= k < s.len(),
    ensures
        dedup(s.take(k)).contains(s[k]) ==> dedup(s.take(k + 1)) == dedup(s.take(k)),
        !dedup(s.take(k)).contains(s[k]) ==> dedup(s.take(k + 1)) == dedup(s.take(k)).push(s[k]),
{
    assert(s.take(k + 1).drop_last() =~= s.take(k));
    assert(s.take(k + 1).last() == s[k]);
}

/// Where an item stands among the distinct items of the first `k + 1` is
/// where it stands among all the distinct items.
proof fn lemma_position_in_dedup<T>(s: Seq<T>, k: int, j: int)
    requires
        0 <= k < s.len(),
        0 <= j < dedup(s.take(k + 1)).len(),
        dedup(s.take(k + 1))[j] == s[k],
    ensures
        position(dedup(s), s[k]) == j,
        0 <= j < dedup(s).len(),
{
    lemma_dedup_prefix(s, k + 1);
    lemma_dedup_no_duplicates(s);
    let p = dedup(s.take(k + 1));
    assert(dedup(s).take(p.len() as int)[j] == p[j]);
    lemma_position(dedup(s), j);
}

proof fn lemma_id_pairs_rodata<Word: WordTrait>(src: Sections<Word>, k: int)
    requires
        0 <= k < src.rodata_view().len(),
    ensures
        id_pairs(src)[src.data_view().len() + src.strtab_view().len() + k] == (
            src.rodata_view()[k].block_id(),
            (src.data_view().len() + src.strtab_view().len() + position(
                dedup(contents(src.rodata_view())),
                contents(src.rodata_view())[k],
            )) as usize,
        ),
{
}

proof fn lemma_id_pairs_text<Word: WordTrait>(src: Sections<Word>, k: int)
    requires
        0 <= k < src.text_view().len(),
    ensures
        id_pairs(src)[src.data_view().len() + src.strtab_view().len() + src.rodata_view().len() + k] == (
            src.text_view()[k].block_id(),
            (src.data_view().len() + src.strtab_view().len() + dedup(contents(src.rodata_view())).len()
                + position(dedup(optimised_text(src)), optimised_text(src)[k])) as usize,
        ),
{
}

/// The index of the first block holding `items`.
fn find_words<Word: WordTrait>(blocks: &[Block<Word>], items: &[Word]) -> (r: Option<usize>)
    ensures
        r matches Some(j) ==> j < blocks@.len() && blocks@[j as int].view() == items@,
        r is None ==> !contents(blocks@).contains(items@),
{
    let mut j: usize = 0;
    while j < blocks.len()
        invariant
            j <= blocks@.len(),
            forall|t: int| 0 <= t < j ==> blocks@[t].view() != items@,
        decreases blocks@.len() - j,
    {
        if words_eq(blocks[j].items(), items) {
            return Some(j);
        }
        j = j + 1;
    }
    proof {
        if contents(blocks@).contains(items@) {
            let t = choose|t: int| 0 <= t < contents(blocks@).len() && contents(blocks@)[t] == items@;
            assert(blocks@[t].view() == items@);
        }
    }
    None
}

/// The index of the first block holding `items`.
fn find_opcodes<Word: WordTrait>(blocks: &[Block<Opcode<Word>>], items: &[Opcode<Word>]) -> (r: Option<usize>)
    ensures
        r matches Some(j) ==> j < blocks@.len() && blocks@[j as int].view() == items@,
        r is None ==> !contents(blocks@).contains(items@),
{
    let mut j: usize = 0;
    while j < blocks.len()
        invariant
            j <= blocks@.len(),
            forall|t: int| 0 <= t < j ==> blocks@[t].view() != items@,
        decreases blocks@.len() - j,
    {
        if opcodes_eq(blocks[j].items(), items) {
            return Some(j);
        }
        j = j + 1;
    }
    proof {
        if contents(blocks@).contains(items@) {
            let t = choose|t: int| 0 <= t < contents(blocks@).len() && contents(blocks@)[t] == items@;
            assert(blocks@[t].view() == items@);
        }
    }
    None
}

impl<Word: WordTrait> IrOptimiser<Word> {
    fn deduplicate_rodata_blocks(&mut self, src: &Sections<Word>)
        requires
            built(
                old(self).sections,
                old(self).block_id_mapping@,
                *src,
                src.data_view().len(),
                src.strtab_view().len(),
                0,
                0,
            ),
        ensures
            built(
                final(self).sections,
                final(self).block_id_mapping@,
                *src,
                src.data_view().len(),
                src.strtab_view().len(),
                src.rodata_view().len(),
                0,
            ),
    {
        let rodata = src.rodata_blocks();
        let ghost d = src.data_view().len();
        let ghost st = src.strtab_view().len();
        let ghost items_all = contents(src.rodata_view());
        let mut k: usize = 0;
        assert(optimised_text(*src).take(0) =~= Seq::<Seq<Opcode<Word>>>::empty());
        while k < rodata.len()
            invariant
                rodata@ == src.rodata_view(),
                d == src.data_view().len(),
                st == src.strtab_view().len(),
                items_all == contents(src.rodata_view()),
                k <= rodata@.len(),
                built(self.sections, self.block_id_mapping@, *src, d, st, k as nat, 0),
                optimised_text(*src).take(0) == Seq::<Seq<Opcode<Word>>>::empty(),
            decreases rodata@.len() - k,
        {
            let ghost before = self.sections;
            let items = rodata[k].items();
            assert(items@ == items_all[k as int]);
            match find_words(self.sections.rodata_blocks(), items) {
                Some(j) => {
                    let id = self.sections.rodata_blocks()[j].id();
                    self.block_id_mapping.push((rodata[k].id(), id));
                    proof {
                        reveal(rodata_part);
                        lemma_part_found(before.rodata_view(), before.types(), items_all, k as int, j as int, d + st, Section::Rodata);
                    }
                },
                None => {
                    let id = self.sections.push_rodata(vstd::slice::slice_to_vec(items));
                    self.block_id_mapping.push((rodata[k].id(), id));
                    proof {
                        let after = self.sections;
                        assert(after.types().subrange(0, before.types().len() as int) =~= before.types());
                        lemma_frame(before, after, *src, d, st, k as nat, 0);
                        reveal(rodata_part);
                        lemma_part_pushed(
                            before.rodata_view(),
                            before.types(),
                            after.rodata_view(),
                            after.types(),
                            items_all,
                            k as int,
                            d + st,
                            Section::Rodata,
                        );
                        reveal(text_part);
                        assert(text_part(after, Seq::<Seq<Opcode<Word>>>::empty(), d + st + dedup(items_all.take(k + 1)).len()));
                    }
                },
            }
            proof {
                lemma_id_pairs_rodata(*src, k as int);
                assert(self.block_id_mapping@ =~= id_pairs(*src).take(d + st + k + 1));
            }
            k = k + 1;
        }
        assert(items_all.take(rodata@.len() as int) =~= items_all);
    }
}

impl<Word: WordTrait> IrOptimiser<Word> {
    fn optimise_code_blocks(&mut self, src: &Sections<Word>)
        requires
            built(
                old(self).sections,
                old(self).block_id_mapping@,
                *src,
                src.data_view().len(),
                src.strtab_view().len(),
                src.rodata_view().len(),
                0,
            ),
            forall|k: int| 0 <= k < src.text_view().len() ==> code_optimisable(#[trigger] src.text_view()[k].view()),
        ensures
            built(
                final(self).sections,
                final(self).block_id_mapping@,
                *src,
                src.data_view().len(),
                src.strtab_view().len(),
                src.rodata_view().len(),
                src.text_view().len(),
            ),
    {
        let text = src.text_blocks();
        let ghost d = src.data_view().len();
        let ghost st = src.strtab_view().len();
        let ghost nr = src.rodata_view().len();
        let ghost ur = dedup(contents(src.rodata_view())).len();
        let ghost code_all = optimised_text(*src);
        assert(contents(src.rodata_view()).take(nr as int) =~= contents(src.rodata_view()));
        let mut k: usize = 0;
        while k < text.len()
            invariant
                text@ == src.text_view(),
                d == src.data_view().len(),
                st == src.strtab_view().len(),
                nr == src.rodata_view().len(),
                ur == dedup(contents(src.rodata_view())).len(),
                contents(src.rodata_view()).take(nr as int) == contents(src.rodata_view()),
                code_all == optimised_text(*src),
                forall|t: int| 0 <= t < src.text_view().len() ==> code_optimisable(#[trigger] src.text_view()[t].view()),
                k <= text@.len(),
                built(self.sections, self.block_id_mapping@, *src, d, st, nr, k as nat),
            decreases text@.len() - k,
        {
            let ghost before = self.sections;
            let new_opcodes = CodeBlockOptimser::optimise(&text[k]);
            assert(new_opcodes@ == code_all[k as int]);
            match find_opcodes(self.sections.text_blocks(), new_opcodes.as_slice()) {
                Some(j) => {
                    let id = self.sections.text_blocks()[j].id();
                    self.block_id_mapping.push((text[k].id(), id));
                    proof {
                        reveal(text_part);
                        lemma_part_found(before.text_view(), before.types(), code_all, k as int, j as int, d + st + ur, Section::Text);
                    }
                },
                None => {
                    let ghost pushed = new_opcodes@;
                    let id = self.sections.push_text(new_opcodes);
                    self.block_id_mapping.push((text[k].id(), id));
                    proof {
                        let after = self.sections;
                        assert(after.types().subrange(0, before.types().len() as int) =~= before.types());
                        lemma_frame(before, after, *src, d, st, nr, k as nat);
                        reveal(text_part);
                        lemma_part_pushed(
                            before.text_view(),
                            before.types(),
                            after.text_view(),
                            after.types(),
                            code_all,
                            k as int,
                            d + st + ur,
                            Section::Text,
                        );
                    }
                },
            }
            proof {
                lemma_id_pairs_text(*src, k as int);
                assert(self.block_id_mapping@ =~= id_pairs(*src).take(d + st + nr + k + 1));
            }
            k = k + 1;
        }
        assert(code_all.take(text@.len() as int) =~= code_all);
    }
}

/// Every distinct optimised block is one of the optimised blocks.
proof fn lemma_dedup_member<T>(s: Seq<T>, k: int) -> (i: int)
    requires
        0 <= k < dedup(s).len(),
    ensures
        0 <= i < s.len(),
        s[i] == dedup(s)[k],
{
    lemma_dedup_no_duplicates(s);
    assert(dedup(s).contains(dedup(s)[k]));
    assert(s.contains(dedup(s)[k]));
    let i = choose|i: int| 0 <= i < s.len() && s[i] == dedup(s)[k];
    i
}

impl<Word: WordTrait> IrOptimiser<Word> {
    /// Moves every reference to a block, in the code and data blocks and the
    /// labels, to the block's new id.
    fn remap_blocks(&mut self, src: &Sections<Word>)
        requires
            program_optimisable(*src),
            built(
                old(self).sections,
                old(self).block_id_mapping@,
                *src,
                src.data_view().len(),
                src.strtab_view().len(),
                src.rodata_view().len(),
                src.text_view().len(),
            ),
        ensures
            optimised_program(*src, final(self).sections),
    {
        let ghost m = id_mapping(*src);
        let ghost d = src.data_view().len();
        let ghost st = src.strtab_view().len();
        let ghost uro = dedup(contents(src.rodata_view()));
        let ghost utx = dedup(optimised_text(*src));
        let ghost base = d + st + uro.len();
        let ghost start = self.sections;
        proof {
            assert(contents(src.rodata_view()).take(src.rodata_view().len() as int) =~= contents(src.rodata_view()));
            assert(optimised_text(*src).take(src.text_view().len() as int) =~= optimised_text(*src));
            assert(id_pairs(*src).take(id_pairs(*src).len() as int) =~= id_pairs(*src));
            reveal(data_part);
            reveal(strtab_part);
            reveal(rodata_part);
            reveal(text_part);
            assert forall|t: int| 0 <= t < d implies #[trigger] start.types()[t] == (Section::Data, t as usize) by {
                assert(start.data_view()[t].block_id() == t);
            }
            assert forall|t: int| 0 <= t < utx.len() implies (#[trigger] start.text_view()[t]).block_id() == base + t
                && start.types()[base + t] == (Section::Text, t as usize) && start.text_view()[t].view() == utx[t] by {
                assert(contents(start.text_view())[t] == utx[t]);
            }
            assert forall|t: int| 0 <= t < utx.len() implies #[trigger] start.types()[base + t] == (
                Section::Text,
                t as usize,
            ) by {
                assert(start.text_view()[t].block_id() == base + t);
            }
            assert forall|j: int| 0 <= j < st implies (#[trigger] start.strtab_view()[j]).block_id() == d + j
                && start.strtab_view()[j].view() == src.strtab_view()[j].view() by {
            }
            assert forall|j: int| 0 <= j < uro.len() implies (#[trigger] start.rodata_view()[j]).block_id() == d + st + j
                && start.rodata_view()[j].view() == uro[j] by {
                assert(contents(start.rodata_view())[j] == uro[j]);
            }
        }
        assert(pairs_map(self.block_id_mapping@) == m);

        // data blocks
        let n = self.sections.data_blocks().len();
        let mut i: usize = 0;
        while i < n
            invariant
                d == src.data_view().len(),
                n == d,
                i <= n,
                pairs_map(self.block_id_mapping@) == m,
                m == id_mapping(*src),
                program_optimisable(*src),
                self.sections.wf(),
                self.sections.types() == start.types(),
                start.types().len() == base + utx.len(),
                base == d + st + uro.len(),
                self.sections.strtab_view() == start.strtab_view(),
                self.sections.rodata_view() == start.rodata_view(),
                self.sections.text_view() == start.text_view(),
                self.sections.labels() == start.labels(),
                self.sections.data_view().len() == d,
                forall|t: int| 0 <= t < d ==> #[trigger] start.types()[t] == (Section::Data, t as usize),
                forall|t: int|
                    0 <= t < d ==> (#[trigger] self.sections.data_view()[t]).block_id() == t
                        && self.sections.data_view()[t].view() == (if t < i {
                        src.data_view()[t].view().map_values(|x: DataItem<Word>| remap_item_spec(m, x))
                    } else {
                        src.data_view()[t].view()
                    }),
            decreases n - i,
        {
            let items = self.sections.data_blocks()[i].items();
            let ghost source = src.data_view()[i as int].view();
            assert(items@ == source);
            let mut remapped: Vec<DataItem<Word>> = Vec::new();
            let mut t: usize = 0;
            while t < items.len()
                invariant
                    items@ == source,
                    source == src.data_view()[i as int].view(),
                    0 <= i < src.data_view().len(),
                    pairs_map(self.block_id_mapping@) == m,
                    m == id_mapping(*src),
                    program_optimisable(*src),
                    t <= items@.len(),
                    remapped@ == source.take(t as int).map_values(|x: DataItem<Word>| remap_item_spec(m, x)),
                decreases items@.len() - t,
            {
                assert(item_known(m, src.data_view()[i as int].view()[t as int]));
                remapped.push(remap_item(&self.block_id_mapping, items[t]));
                t = t + 1;
                assert(remapped@ =~= source.take(t as int).map_values(|x: DataItem<Word>| remap_item_spec(m, x)));
            }
            assert(source.take(source.len() as int) =~= source);
            let ghost before = self.sections;
            assert(self.sections.types()[i as int] == (Section::Data, i));
            self.sections.get_data_mut(i).set_items(remapped);
            proof {
                assert forall|t: int| 0 <= t < d implies (#[trigger] self.sections.data_view()[t]).block_id() == t
                    && self.sections.data_view()[t].view() == (if t < i + 1 {
                    src.data_view()[t].view().map_values(|x: DataItem<Word>| remap_item_spec(m, x))
                } else {
                    src.data_view()[t].view()
                }) by {
                    if t != i {
                        assert(self.sections.data_view()[t] == before.data_view()[t]);
                    }
                }
            }
            i = i + 1;
        }

        // code blocks
        let nt = self.sections.text_blocks().len();
        let mut k: usize = 0;
        while k < nt
            invariant
                nt == utx.len(),
                k <= nt,
                d == src.data_view().len(),
                base == d + st + uro.len(),
                utx == dedup(optimised_text(*src)),
                pairs_map(self.block_id_mapping@) == m,
                m == id_mapping(*src),
                program_optimisable(*src),
                self.sections.wf(),
                self.sections.types() == start.types(),
                start.types().len() == base + utx.len(),
                self.sections.strtab_view() == start.strtab_view(),
                self.sections.rodata_view() == start.rodata_view(),
                self.sections.labels() == start.labels(),
                self.sections.data_view().len() == d,
                forall|t: int|
                    0 <= t < d ==> (#[trigger] self.sections.data_view()[t]).block_id() == t
                        && self.sections.data_view()[t].view() == src.data_view()[t].view().map_values(
                        |x: DataItem<Word>| remap_item_spec(m, x),
                    ),
                self.sections.text_view().len() == utx.len(),
                forall|t: int|
                    0 <= t < utx.len() ==> #[trigger] start.types()[base + t] == (Section::Text, t as usize),
                forall|t: int|
                    0 <= t < utx.len() ==> (#[trigger] self.sections.text_view()[t]).block_id() == base + t
                        && self.sections.text_view()[t].view() == (if t < k {
                        utx[t].map_values(|op: Opcode<Word>| remap_opcode_spec(m, op))
                    } else {
                        utx[t]
                    }),
            decreases nt - k,
        {
            let id = self.sections.text_blocks()[k].id();
            let items = self.sections.text_blocks()[k].items();
            let ghost source = utx[k as int];
            let ghost origin = lemma_dedup_member(optimised_text(*src), k as int);
            assert(items@ == source);
            let mut remapped: Vec<Opcode<Word>> = Vec::new();
            let mut t: usize = 0;
            while t < items.len()
                invariant
                    items@ == source,
                    0 <= origin < optimised_text(*src).len(),
                    optimised_text(*src)[origin] == source,
                    pairs_map(self.block_id_mapping@) == m,
                    m == id_mapping(*src),
                    program_optimisable(*src),
                    t <= items@.len(),
                    remapped@ == source.take(t as int).map_values(|op: Opcode<Word>| remap_opcode_spec(m, op)),
                decreases items@.len() - t,
            {
                assert(kind_known(m, optimised_text(*src)[origin][t as int].opcode));
                let op = items[t];
                remapped.push(
                    Opcode { destination: op.destination, opcode: remap_blocks(&self.block_id_mapping, op.opcode) },
                );
                t = t + 1;
                assert(remapped@ =~= source.take(t as int).map_values(|op: Opcode<Word>| remap_opcode_spec(m, op)));
            }
            assert(source.take(source.len() as int) =~= source);
            let ghost before = self.sections;
            assert(self.sections.types()[base + k] == (Section::Text, k));
            self.sections.get_text_mut(id).set_items(remapped);
            proof {
                assert forall|t: int| 0 <= t < utx.len() implies (#[trigger] self.sections.text_view()[t]).block_id()
                    == base + t && self.sections.text_view()[t].view() == (if t < k + 1 {
                    utx[t].map_values(|op: Opcode<Word>| remap_opcode_spec(m, op))
                } else {
                    utx[t]
                }) by {
                    if t != k {
                        assert(self.sections.text_view()[t] == before.text_view()[t]);
                    }
                }
                assert forall|t: int| 0 <= t < d implies (#[trigger] self.sections.data_view()[t]).block_id() == t
                    && self.sections.data_view()[t].view() == src.data_view()[t].view().map_values(
                    |x: DataItem<Word>| remap_item_spec(m, x),
                ) by {
                    assert(self.sections.data_view()[t] == before.data_view()[t]);
                }
            }
            k = k + 1;
        }

        // labels
        let entries = src.label_entries();
        let ghost remapped_labels = src.label_seq().map_values(
            |e: (&'static str, BlockAddress)| remap_label_spec(m, e),
        );
        assert(remapped_labels.take(0) =~= Seq::<(&'static str, BlockAddress)>::empty());
        let mut l: usize = 0;
        while l < entries.len()
            invariant
                entries@ == src.label_seq(),
                forall|a: int, b: int|
                    0 <= a < b < entries@.len() ==> (#[trigger] entries@[a]).0@ != (#[trigger] entries@[b]).0@,
                remapped_labels == src.label_seq().map_values(
                    |e: (&'static str, BlockAddress)| remap_label_spec(m, e),
                ),
                l <= entries@.len(),
                d == src.data_view().len(),
                base == d + st + uro.len(),
                utx == dedup(optimised_text(*src)),
                pairs_map(self.block_id_mapping@) == m,
                m == id_mapping(*src),
                program_optimisable(*src),
                self.sections.wf(),
                self.sections.labels() == label_map(remapped_labels.take(l as int)),
                self.sections.types() == start.types(),
                start.types().len() == base + utx.len(),
                self.sections.strtab_view() == start.strtab_view(),
                self.sections.rodata_view() == start.rodata_view(),
                self.sections.data_view().len() == d,
                forall|t: int|
                    0 <= t < d ==> (#[trigger] self.sections.data_view()[t]).block_id() == t
                        && self.sections.data_view()[t].view() == src.data_view()[t].view().map_values(
                        |x: DataItem<Word>| remap_item_spec(m, x),
                    ),
                self.sections.text_view().len() == utx.len(),
                forall|t: int|
                    0 <= t < utx.len() ==> (#[trigger] self.sections.text_view()[t]).block_id() == base + t
                        && self.sections.text_view()[t].view() == utx[t].map_values(
                        |op: Opcode<Word>| remap_opcode_spec(m, op),
                    ),
            decreases entries@.len() - l,
        {
            let (name, (blk, addr)) = entries[l];
            assert(m.contains_key(src.label_seq()[l as int].1.0));
            let new_blk = lookup_block(&self.block_id_mapping, blk);
            proof {
                lemma_label_map_dom(remapped_labels.take(l as int), name@);
                if label_map(remapped_labels.take(l as int)).contains_key(name@) {
                    let t = choose|t: int|
                        0 <= t < remapped_labels.take(l as int).len() && (#[trigger] remapped_labels.take(
                            l as int,
                        )[t]).0@ == name@;
                    assert(entries@[t].0@ != entries@[l as int].0@);
                }
            }
            let ghost before = self.sections;
            self.sections.label(name, (new_blk, addr));
            proof {
                assert(remapped_labels.take(l + 1).drop_last() =~= remapped_labels.take(l as int));
                assert(remapped_labels.take(l + 1).last() == (name, (new_blk, addr)));
                assert forall|t: int| 0 <= t < d implies (#[trigger] self.sections.data_view()[t]).block_id() == t
                    && self.sections.data_view()[t].view() == src.data_view()[t].view().map_values(
                    |x: DataItem<Word>| remap_item_spec(m, x),
                ) by {
                    assert(self.sections.data_view()[t] == before.data_view()[t]);
                }
                assert forall|t: int| 0 <= t < utx.len() implies (#[trigger] self.sections.text_view()[t]).block_id()
                    == base + t && self.sections.text_view()[t].view() == utx[t].map_values(
                    |op: Opcode<Word>| remap_opcode_spec(m, op),
                ) by {
                    assert(self.sections.text_view()[t] == before.text_view()[t]);
                }
            }
            l = l + 1;
        }
        assert(remapped_labels.take(entries@.len() as int) =~= remapped_labels);
        proof {
            assert forall|j: int| 0 <= j < st implies (#[trigger] self.sections.strtab_view()[j]).block_id() == d + j
                && self.sections.strtab_view()[j].view() == src.strtab_view()[j].view() by {
                assert(self.sections.strtab_view()[j] == start.strtab_view()[j]);
            }
            assert forall|j: int| 0 <= j < uro.len() implies (#[trigger] self.sections.rodata_view()[j]).block_id()
                == d + st + j && self.sections.rodata_view()[j].view() == uro[j] by {
                assert(self.sections.rodata_view()[j] == start.rodata_view()[j]);
            }
        }
    }

    /// The optimised program: see `optimised_program`.
    pub fn optimise(sections: Sections<Word>) -> (r: Sections<Word>)
        requires
            program_optimisable(sections),
        ensures
            optimised_program(sections, r),
    {
        let mut optimiser = IrOptimiser { sections: Sections::new(), block_id_mapping: Vec::new() };
        proof {
            assert(contents(sections.rodata_view()).take(0) =~= Seq::<Seq<Word>>::empty());
            assert(optimised_text(sections).take(0) =~= Seq::<Seq<Opcode<Word>>>::empty());
            assert(contents(optimiser.sections.rodata_view()) =~= Seq::<Seq<Word>>::empty());
            assert(contents(optimiser.sections.text_view()) =~= Seq::<Seq<Opcode<Word>>>::empty());
            assert(id_pairs(sections).take(0) =~= Seq::<(usize, usize)>::empty());
            reveal(data_part);
            reveal(strtab_part);
            reveal(rodata_part);
            reveal(text_part);
            assert(data_part(optimiser.sections, sections, 0));
            assert(strtab_part(optimiser.sections, sections, 0, 0));
            assert(rodata_part(optimiser.sections, contents(sections.rodata_view()).take(0), 0));
            assert(text_part(optimiser.sections, optimised_text(sections).take(0), 0));
        }
        optimiser.copy_data(&sections);
        optimiser.copy_strtab(&sections);
        optimiser.deduplicate_rodata_blocks(&sections);
        optimiser.optimise_code_blocks(&sections);
        optimiser.remap_blocks(&sections);
        optimiser.sections
    }
}


/// Two opcodes of one kind whose fields other than their register, address
/// and value operands are equal: the same bit range, offset, item size,
/// library circuit and input/output offsets.
pub open spec fn same_fields<Word: WordTrait>(a: OpcodeKind<Word>, b: OpcodeKind<Word>) -> bool {
    match (a, b) {
        (OpcodeKind::Call(..), OpcodeKind::Call(..)) => true,
        (OpcodeKind::CallLibrary(c1, ..), OpcodeKind::CallLibrary(c2, ..)) => c1 == c2,
        (OpcodeKind::CheckInputs(_, i1, o1), OpcodeKind::CheckInputs(_, i2, o2)) => i1 == i2 && o1 == o2,
        (OpcodeKind::Load(_), OpcodeKind::Load(_)) => true,
        (OpcodeKind::LoadResv, OpcodeKind::LoadResv) => true,
        (OpcodeKind::Offset { item_size: s1, .. }, OpcodeKind::Offset { item_size: s2, .. }) => s1 == s2,
        (OpcodeKind::Read(_), OpcodeKind::Read(_)) => true,
        (OpcodeKind::ReadBits(_, s1, e1), OpcodeKind::ReadBits(_, s2, e2)) => s1 == s2 && e1 == e2,
        (OpcodeKind::ReadOffset(_, o1), OpcodeKind::ReadOffset(_, o2)) => o1 == o2,
        (OpcodeKind::WriteBits(_, _, s1, e1), OpcodeKind::WriteBits(_, _, s2, e2)) => s1 == s2 && e1 == e2,
        (OpcodeKind::WriteOffset(_, _, o1), OpcodeKind::WriteOffset(_, _, o2)) => o1 == o2,
        _ => false,
    }
}

/// Simplifying an opcode rewrites only its operands: a kept opcode is of the
/// same kind with the same bit range, offsets, item size and library circuit,
/// a load keeps its constant, and an opcode is dropped only where it is an
/// offset by a known count from a known address, which becomes a constant.
pub proof fn lemma_simplify_keeps_fields<Word: WordTrait>(s: SimplifyState<Word>, op: OpcodeKind<Word>)
    ensures
        simplified(s, op) matches Some(k) ==> same_fields(op, k),
        op is Load ==> simplified(s, op) == Some(op),
        op is LoadResv ==> simplified(s, op) == Some(op),
        simplified(s, op) is None <==> (op matches OpcodeKind::Offset { base, item_count, .. } && base is Immediate
            && item_count is Immediate),
{
}

/// A register stands for itself or an earlier register, and what it stands
/// for stands for itself.
pub proof fn lemma_resolve_earlier(aliases: Seq<Option<Register>>, r: Register)
    ensures
        resolve(aliases, r) <= r,
        resolve(aliases, resolve(aliases, r)) == resolve(aliases, r),
    decreases r,
{
    lemma_resolve_le(aliases, r);
    if r < aliases.len() && aliases[r as int] is Some && aliases[r as int].unwrap() < r {
        lemma_resolve_earlier(aliases, aliases[r as int].unwrap());
    }
}

/// Known addresses and constants are left as they are by simplification.
pub proof fn lemma_simplify_immediates<Word: WordTrait>(s: SimplifyState<Word>, b: BlockAddress, c: Constant<Word>)
    ensures
        simplify_address_spec(s, Address::Immediate(b)) == Address::Immediate(b),
        simplify_value_spec(s, Value::Immediate(c)) == Value::<Word>::Immediate(c),
{
}

/// An offset by a known count from a known address is the address that
/// many items further on in the same block.
pub proof fn lemma_offset_constant<Word: WordTrait>(blk: usize, addr: usize, item_size: usize, v: Word)
    requires
        addr + item_size * v.spec_value() <= usize::MAX,
    ensures
        constant_of(
            OpcodeKind::Offset {
                base: Address::Immediate((blk, addr)),
                item_size,
                item_count: Value::Immediate(Constant::Value(v)),
            },
        ) == Some(Constant::<Word>::Address(blk, (addr + item_size * v.spec_value()) as usize)),
{
}

/// Renumbering registers changes only register operands.
pub proof fn lemma_renumber_keeps_fields<Word: WordTrait>(m: Seq<Option<usize>>, k: OpcodeKind<Word>)
    ensures
        same_fields(k, renumber_kind(m, k)),
        k is Load || k is LoadResv ==> renumber_kind(m, k) == k,
{
}

/// Replacing block ids changes only addresses and constants, never
/// registers.
pub proof fn lemma_remap_keeps_fields<Word: WordTrait>(m: Map<usize, usize>, k: OpcodeKind<Word>)
    ensures
        same_fields(k, remap_kind_spec(m, k)),
        k is CallLibrary || k is CheckInputs || k is LoadResv ==> remap_kind_spec(m, k) == k,
        k matches OpcodeKind::WriteBits(_, r, _, _) ==> remap_kind_spec(m, k) matches OpcodeKind::WriteBits(_, r2, _, _) && r2 == r,
{
}


/// An offset by zero items (or of zero-sized items) from a register is that
/// register again; any other offset is not.
pub proof fn lemma_zero_offset<Word: WordTrait>(b: Register, item_size: usize, x: Word)
    ensures
        zero_offset_base(
            OpcodeKind::Offset { base: Address::Register(b), item_size, item_count: Value::Immediate(Constant::Value(x)) },
        ) == (if item_size == 0 || x.spec_value() == 0 {
            Some(b)
        } else {
            None::<Register>
        }),
{
    assert(item_size * x.spec_value() == 0 <==> (item_size == 0 || x.spec_value() == 0)) by (nonlinear_arith);
}

/// A repeated opcode is found among the remembered ones exactly when one of
/// them is equal to it, and the register found holds such an opcode.
pub proof fn lemma_find_reusable<Word: WordTrait>(s: Seq<(OpcodeKind<Word>, Register)>, k: OpcodeKind<Word>)
    ensures
        find_reusable(s, k) is None <==> forall|i: int| 0 <= i < s.len() ==> (#[trigger] s[i]).0 != k,
        find_reusable(s, k) matches Some(r) ==> exists|i: int| 0 <= i < s.len() && #[trigger] s[i] == (k, r),
    decreases s.len(),
{
    if s.len() > 0 {
        lemma_find_reusable(s.drop_first(), k);
        if s[0].0 != k {
            assert forall|i: int| 0 < i < s.len() implies (#[trigger] s[i]) == s.drop_first()[i - 1] by {}
            if let Some(r) = find_reusable(s.drop_first(), k) {
                let i = choose|i: int| 0 <= i < s.drop_first().len() && #[trigger] s.drop_first()[i] == (k, r);
                assert(s[i + 1] == (k, r));
            }
            if find_reusable(s.drop_first(), k) is Some {
                assert(!(forall|i: int| 0 <= i < s.len() ==> (#[trigger] s[i]).0 != k)) by {
                    let r = find_reusable(s.drop_first(), k).unwrap();
                    let i = choose|i: int| 0 <= i < s.drop_first().len() && #[trigger] s.drop_first()[i] == (k, r);
                    assert(s[i + 1].0 == k);
                }
            } else {
                assert forall|i: int| 0 <= i < s.len() implies (#[trigger] s[i]).0 != k by {
                    if i > 0 {
                        assert(s[i] == s.drop_first()[i - 1]);
                    }
                }
            }
        } else {
            assert(s[0] == (k, s[0].1));
        }
    }
}

/// An opcode the pass keeps is that opcode simplified; one it drops was a
/// constant, an offset by zero, or a repeat of a reusable opcode.
pub proof fn lemma_step_kept<Word: WordTrait>(s: SimplifyState<Word>, dest: Register, op: OpcodeKind<Word>)
    ensures
        step(s, dest, op).1 matches Some(k) ==> simplified(s, op) == Some(k) && zero_offset_base(k) is None,
        step(s, dest, op).1 is None ==> simplified(s, op) is None || zero_offset_base(simplified(s, op).unwrap()) is Some
            || (reusable_kind(simplified(s, op).unwrap()) && find_reusable(
            (match constant_of(op) {
                Some(c) => with_constant(s, dest, c),
                None => s,
            }).reusable,
            simplified(s, op).unwrap(),
        ) is Some),
{
}

/// Deduplicating keeps each item once: the same items, none twice.
pub proof fn lemma_dedup<T>(s: Seq<T>)
    ensures
        forall|x: T| dedup(s).contains(x) <==> s.contains(x),
        forall|i: int, j: int| 0 <= i < j < dedup(s).len() ==> dedup(s)[i] != dedup(s)[j],
    decreases s.len(),
{
    if s.len() > 0 {
        lemma_dedup(s.drop_last());
        let d = dedup(s.drop_last());
        assert forall|x: T| dedup(s).contains(x) <==> s.contains(x) by {
            if s.contains(x) && x != s.last() {
                let i = choose|i: int| 0 <= i < s.len() && s[i] == x;
                assert(s.drop_last()[i] == x);
            }
            if s.drop_last().contains(x) {
                let i = choose|i: int| 0 <= i < s.drop_last().len() && s.drop_last()[i] == x;
                assert(s[i] == x);
            }
            if x == s.last() {
                assert(s[s.len() - 1] == x);
            }
            if !d.contains(s.last()) && dedup(s).contains(x) {
                let i = choose|i: int| 0 <= i < dedup(s).len() && dedup(s)[i] == x;
                if i < d.len() {
                    assert(d[i] == x);
                }
            }
            if !d.contains(s.last()) && d.contains(x) {
                let i = choose|i: int| 0 <= i < d.len() && d[i] == x;
                assert(dedup(s)[i] == x);
            }
            if !d.contains(s.last()) && x == s.last() {
                assert(dedup(s)[d.len() as int] == x);
            }
        }
    }
}


/// Each item's place among the deduplicated items holds an equal item, so a
/// block mapped to its deduplicated place keeps its contents.
pub proof fn lemma_dedup_position<T>(s: Seq<T>, k: int)
    requires
        0 <= k < s.len(),
    ensures
        0 <= position(dedup(s), s[k]) < dedup(s).len(),
        dedup(s)[position(dedup(s), s[k])] == s[k],
{
    lemma_dedup(s);
    assert(s.contains(s[k]));
    assert(dedup(s).contains(s[k]));
}

} // verus!
