use vstd::prelude::*;

pub mod blocks;

pub use blocks::{Block, BlockAddress, Sections};

verus! {

/// A machine word of the generated code.
pub trait WordTrait: Copy + Default + Eq {
    /// The word read as an unsigned number.
    spec fn spec_value(&self) -> nat;

    /// `disp + scale * self`, the address of item `self` of size `scale`
    /// after `disp`.
    fn offset(&self, disp: usize, scale: usize) -> (r: usize)
        requires
            disp + scale * self.spec_value() <= usize::MAX,
        ensures
            r == disp + scale * self.spec_value(),
    ;

    /// Whether the two words are the same.
    fn same(&self, other: &Self) -> (r: bool)
        ensures
            r == (*self == *other),
    ;
}

impl WordTrait for u16 {
    open spec fn spec_value(&self) -> nat {
        *self as nat
    }

    fn same(&self, other: &Self) -> (r: bool) {
        *self == *other
    }

    fn offset(&self, disp: usize, scale: usize) -> (r: usize) {
        let w = *self as usize;
        assert(0 <= scale * w <= disp + scale * w) by (nonlinear_arith)
            requires
                0 <= scale,
                0 <= w,
                0 <= disp,
        ;
        disp + scale * w
    }
}

impl WordTrait for u32 {
    open spec fn spec_value(&self) -> nat {
        *self as nat
    }

    fn same(&self, other: &Self) -> (r: bool) {
        *self == *other
    }

    fn offset(&self, disp: usize, scale: usize) -> (r: usize) {
        let w = *self as usize;
        assert(0 <= scale * w <= disp + scale * w) by (nonlinear_arith)
            requires
                0 <= scale,
                0 <= w,
                0 <= disp,
        ;
        disp + scale * w
    }
}

impl WordTrait for u64 {
    open spec fn spec_value(&self) -> nat {
        *self as nat
    }

    fn same(&self, other: &Self) -> (r: bool) {
        *self == *other
    }

    fn offset(&self, disp: usize, scale: usize) -> (r: usize) {
        if scale == 0 {
            return disp;
        }
        let ghost v = self.spec_value();
        assert(v <= disp + scale * v) by (nonlinear_arith)
            requires
                scale >= 1,
                v >= 0,
                disp >= 0,
        ;
        let w = *self as usize;
        assert(0 <= scale * w <= disp + scale * w) by (nonlinear_arith)
            requires
                0 <= scale,
                0 <= w,
                0 <= disp,
        ;
        disp + scale * w
    }
}

/// A register number.
pub type Register = usize;

/// Hands out register numbers in increasing order.
#[derive(Debug)]
struct RegisterAllocator {
    next: usize,
}

impl RegisterAllocator {
    fn new() -> (r: Self)
        ensures
            r.next == 0,
    {
        RegisterAllocator { next: 0 }
    }

    fn next(&mut self) -> (r: Register)
        requires
            old(self).next < usize::MAX,
        ensures
            r == old(self).next,
            final(self).next == old(self).next + 1,
    {
        let id = self.next;
        self.next = self.next + 1;
        id
    }
}

/// Where a value lives: at a fixed block address, or at the address held in a register.
#[derive(Debug, Clone, Copy, Hash, PartialEq, Eq)]
pub enum Address {
    Immediate(BlockAddress),
    Register(Register),
}

/// A constant operand.
#[derive(Debug, Clone, Copy, Hash, PartialEq, Eq)]
pub enum Constant<Word: WordTrait> {
    Value(Word),
    /// A block id and an offset inside the block.
    Address(usize, usize),
}

/// An operand.
#[derive(Debug, Clone, Copy, Hash, PartialEq, Eq)]
pub enum Value<Word: WordTrait> {
    Register(Register),
    Immediate(Constant<Word>),
    Indirect(Address),
}

/// An operation of the intermediate representation.
#[derive(Debug, Clone, Copy, Hash, PartialEq, Eq)]
pub enum OpcodeKind<Word: WordTrait> {
    Call(Address, Value<Word>),
    CallLibrary(usize, Register, Register, Register),
    CheckInputs(Register, usize, usize),
    Load(Constant<Word>),
    LoadResv,
    Offset { base: Address, item_size: usize, item_count: Value<Word> },
    Read(Address),
    ReadBits(Address, usize, usize),
    ReadOffset(Address, usize),
    WriteBits(Address, Register, usize, usize),
    WriteOffset(Address, Value<Word>, usize),
}

/// An operation and the register its result goes to.
#[derive(Debug, Clone, Copy, Hash, PartialEq, Eq)]
pub struct Opcode<Word: WordTrait> {
    pub destination: Register,
    pub opcode: OpcodeKind<Word>,
}

/// An item of a data block.
#[derive(Debug, Clone, Copy, Hash, PartialEq, Eq)]
pub enum DataItem<Word: WordTrait> {
    /// A block id and an offset inside the block.
    Address(usize, usize),
    Word(Word),
}

impl<Word: WordTrait> Default for DataItem<Word> {
    fn default() -> (r: Self)
        ensures
            r is Word,
    {
        DataItem::Word(Word::default())
    }
}

/// Builds the opcodes of a code block, giving each opcode a fresh destination register.
#[derive(Debug)]
struct CodeBlockBuilder<Word: WordTrait> {
    register_allocator: RegisterAllocator,
    opcodes: Vec<Opcode<Word>>,
}

impl<Word: WordTrait> CodeBlockBuilder<Word> {
    /// Each opcode so far has the register numbered by its position.
    spec fn wf(&self) -> bool {
        &&& self.register_allocator.next == self.opcodes@.len()
        &&& forall|i: int| 0 <= i < self.opcodes@.len() ==> (#[trigger] self.opcodes@[i]).destination == i
    }

    /// What emitting `kind` does: push it with the next register as destination.
    spec fn emitted(old_b: Self, new_b: Self, kind: OpcodeKind<Word>, r: Register) -> bool {
        &&& new_b.wf()
        &&& r == old_b.opcodes@.len()
        &&& new_b.opcodes@ == old_b.opcodes@.push(Opcode { destination: r, opcode: kind })
    }

    fn new() -> (b: Self)
        ensures
            b.wf(),
            b.opcodes@ == Seq::<Opcode<Word>>::empty(),
    {
        CodeBlockBuilder { register_allocator: RegisterAllocator::new(), opcodes: Vec::new() }
    }

    fn emit(&mut self, kind: OpcodeKind<Word>) -> (r: Register)
        requires
            old(self).wf(),
            old(self).opcodes@.len() < usize::MAX,
        ensures
            Self::emitted(*old(self), *final(self), kind, r),
    {
        let destination = self.register_allocator.next();
        self.opcodes.push(Opcode { destination, opcode: kind });
        destination
    }

    fn load(&mut self, value: Constant<Word>) -> (r: Register)
        requires
            old(self).wf(),
            old(self).opcodes@.len() < usize::MAX,
        ensures
            Self::emitted(*old(self), *final(self), OpcodeKind::Load(value), r),
    {
        self.emit(OpcodeKind::Load(value))
    }

    fn check_inputs(&mut self, resv_block_addr: Register, inputs_offset: usize, old_inputs_offset: usize)
        requires
            old(self).wf(),
            old(self).opcodes@.len() < usize::MAX,
        ensures
            Self::emitted(
                *old(self),
                *final(self),
                OpcodeKind::CheckInputs(resv_block_addr, inputs_offset, old_inputs_offset),
                old(self).opcodes@.len() as usize,
            ),
    {
        self.emit(OpcodeKind::CheckInputs(resv_block_addr, inputs_offset, old_inputs_offset));
    }

    fn offset(&mut self, base_addr: Address, item_size: usize, item_count: Value<Word>) -> (r: Register)
        requires
            old(self).wf(),
            old(self).opcodes@.len() < usize::MAX,
        ensures
            Self::emitted(*old(self), *final(self), OpcodeKind::Offset { base: base_addr, item_size, item_count }, r),
    {
        self.emit(OpcodeKind::Offset { base: base_addr, item_size, item_count })
    }

    fn offset_addr(&mut self, address: BlockAddress, item_size: usize, item_count: Value<Word>) -> (r: Register)
        requires
            old(self).wf(),
            old(self).opcodes@.len() < usize::MAX,
        ensures
            Self::emitted(
                *old(self),
                *final(self),
                OpcodeKind::Offset { base: Address::Immediate(address), item_size, item_count },
                r,
            ),
    {
        self.offset(Address::Immediate(address), item_size, item_count)
    }

    fn offset_reg(&mut self, base_register: Register, item_size: usize, item_count: Value<Word>) -> (r: Register)
        requires
            old(self).wf(),
            old(self).opcodes@.len() < usize::MAX,
        ensures
            Self::emitted(
                *old(self),
                *final(self),
                OpcodeKind::Offset { base: Address::Register(base_register), item_size, item_count },
                r,
            ),
    {
        self.offset(Address::Register(base_register), item_size, item_count)
    }

    fn offset_reg_imm(&mut self, base_register: Register, item_size: usize, item_count: Word) -> (r: Register)
        requires
            old(self).wf(),
            old(self).opcodes@.len() < usize::MAX,
        ensures
            Self::emitted(
                *old(self),
                *final(self),
                OpcodeKind::Offset {
                    base: Address::Register(base_register),
                    item_size,
                    item_count: Value::Immediate(Constant::Value(item_count)),
                },
                r,
            ),
    {
        self.offset(Address::Register(base_register), item_size, Value::Immediate(Constant::Value(item_count)))
    }

    fn read(&mut self, addr: BlockAddress) -> (r: Register)
        requires
            old(self).wf(),
            old(self).opcodes@.len() < usize::MAX,
        ensures
            Self::emitted(*old(self), *final(self), OpcodeKind::Read(Address::Immediate(addr)), r),
    {
        self.emit(OpcodeKind::Read(Address::Immediate(addr)))
    }

    fn read_reg(&mut self, register: Register) -> (r: Register)
        requires
            old(self).wf(),
            old(self).opcodes@.len() < usize::MAX,
        ensures
            Self::emitted(*old(self), *final(self), OpcodeKind::Read(Address::Register(register)), r),
    {
        self.emit(OpcodeKind::Read(Address::Register(register)))
    }

    fn read_offset(&mut self, addr: Address, offset: usize) -> (r: Register)
        requires
            old(self).wf(),
            old(self).opcodes@.len() < usize::MAX,
        ensures
            Self::emitted(*old(self), *final(self), OpcodeKind::ReadOffset(addr, offset), r),
    {
        self.emit(OpcodeKind::ReadOffset(addr, offset))
    }

    fn read_offset_reg(&mut self, addr: Register, offset: usize) -> (r: Register)
        requires
            old(self).wf(),
            old(self).opcodes@.len() < usize::MAX,
        ensures
            Self::emitted(*old(self), *final(self), OpcodeKind::ReadOffset(Address::Register(addr), offset), r),
    {
        self.read_offset(Address::Register(addr), offset)
    }

    fn load_resv(&mut self) -> (r: Register)
        requires
            old(self).wf(),
            old(self).opcodes@.len() < usize::MAX,
        ensures
            Self::emitted(*old(self), *final(self), OpcodeKind::LoadResv, r),
    {
        self.emit(OpcodeKind::LoadResv)
    }

    fn call(&mut self, addr: Address, arg: Value<Word>)
        requires
            old(self).wf(),
            old(self).opcodes@.len() < usize::MAX,
        ensures
            Self::emitted(*old(self), *final(self), OpcodeKind::Call(addr, arg), old(self).opcodes@.len() as usize),
    {
        self.emit(OpcodeKind::Call(addr, arg));
    }

    fn call_library(&mut self, circ_id: usize, resv_ptr: Register, inputs_addr: Register, outputs_addr: Register)
        requires
            old(self).wf(),
            old(self).opcodes@.len() < usize::MAX,
        ensures
            Self::emitted(
                *old(self),
                *final(self),
                OpcodeKind::CallLibrary(circ_id, resv_ptr, inputs_addr, outputs_addr),
                old(self).opcodes@.len() as usize,
            ),
    {
        self.emit(OpcodeKind::CallLibrary(circ_id, resv_ptr, inputs_addr, outputs_addr));
    }

    fn read_bits(&mut self, addr: Address, start: usize, end: usize) -> (r: Register)
        requires
            old(self).wf(),
            old(self).opcodes@.len() < usize::MAX,
        ensures
            Self::emitted(*old(self), *final(self), OpcodeKind::ReadBits(addr, start, end), r),
    {
        self.emit(OpcodeKind::ReadBits(addr, start, end))
    }

    fn read_bits_imm(&mut self, addr: BlockAddress, start: usize, end: usize) -> (r: Register)
        requires
            old(self).wf(),
            old(self).opcodes@.len() < usize::MAX,
        ensures
            Self::emitted(*old(self), *final(self), OpcodeKind::ReadBits(Address::Immediate(addr), start, end), r),
    {
        self.read_bits(Address::Immediate(addr), start, end)
    }

    fn read_bits_reg(&mut self, register: Register, start: usize, end: usize) -> (r: Register)
        requires
            old(self).wf(),
            old(self).opcodes@.len() < usize::MAX,
        ensures
            Self::emitted(*old(self), *final(self), OpcodeKind::ReadBits(Address::Register(register), start, end), r),
    {
        self.read_bits(Address::Register(register), start, end)
    }

    fn write_bits(&mut self, addr: Address, register: Register, start: usize, end: usize)
        requires
            old(self).wf(),
            old(self).opcodes@.len() < usize::MAX,
        ensures
            Self::emitted(
                *old(self),
                *final(self),
                OpcodeKind::WriteBits(addr, register, start, end),
                old(self).opcodes@.len() as usize,
            ),
    {
        self.emit(OpcodeKind::WriteBits(addr, register, start, end));
    }

    fn write_bits_imm(&mut self, addr: BlockAddress, register: Register, start: usize, end: usize)
        requires
            old(self).wf(),
            old(self).opcodes@.len() < usize::MAX,
        ensures
            Self::emitted(
                *old(self),
                *final(self),
                OpcodeKind::WriteBits(Address::Immediate(addr), register, start, end),
                old(self).opcodes@.len() as usize,
            ),
    {
        self.write_bits(Address::Immediate(addr), register, start, end)
    }

    fn write_bits_reg(&mut self, addr_register: Register, data_register: Register, start: usize, end: usize)
        requires
            old(self).wf(),
            old(self).opcodes@.len() < usize::MAX,
        ensures
            Self::emitted(
                *old(self),
                *final(self),
                OpcodeKind::WriteBits(Address::Register(addr_register), data_register, start, end),
                old(self).opcodes@.len() as usize,
            ),
    {
        self.write_bits(Address::Register(addr_register), data_register, start, end)
    }

    fn write_offset(&mut self, addr: Address, data: Value<Word>, offset: usize)
        requires
            old(self).wf(),
            old(self).opcodes@.len() < usize::MAX,
        ensures
            Self::emitted(
                *old(self),
                *final(self),
                OpcodeKind::WriteOffset(addr, data, offset),
                old(self).opcodes@.len() as usize,
            ),
    {
        self.emit(OpcodeKind::WriteOffset(addr, data, offset));
    }

    fn write_offset_imm(&mut self, addr: Address, data: Word, offset: usize)
        requires
            old(self).wf(),
            old(self).opcodes@.len() < usize::MAX,
        ensures
            Self::emitted(
                *old(self),
                *final(self),
                OpcodeKind::WriteOffset(addr, Value::Immediate(Constant::Value(data)), offset),
                old(self).opcodes@.len() as usize,
            ),
    {
        self.write_offset(addr, Value::Immediate(Constant::Value(data)), offset);
    }
}

/// Whether `addr` reads register `register`.
pub open spec fn spec_used_in_address(register: Register, addr: Address) -> bool {
    match addr {
        Address::Register(r) => r == register,
        Address::Immediate(_) => false,
    }
}

/// Whether `value` reads register `register`.
pub open spec fn spec_used_in_value<Word: WordTrait>(register: Register, value: Value<Word>) -> bool {
    match value {
        Value::Register(r) => r == register,
        Value::Immediate(_) => false,
        Value::Indirect(a) => spec_used_in_address(register, a),
    }
}

/// Whether `op` reads register `register` (an opcode that writes it does not count).
pub open spec fn spec_reads_register<Word: WordTrait>(op: Opcode<Word>, register: Register) -> bool {
    if op.destination == register {
        false
    } else {
        match op.opcode {
            OpcodeKind::Call(a, v) => spec_used_in_address(register, a) || spec_used_in_value(register, v),
            OpcodeKind::CallLibrary(_, r, i, o) => r == register || i == register || o == register,
            OpcodeKind::CheckInputs(r, _, _) => r == register,
            OpcodeKind::Load(_) => false,
            OpcodeKind::LoadResv => false,
            OpcodeKind::Offset { base, item_count, .. } => spec_used_in_address(register, base)
                || spec_used_in_value(register, item_count),
            OpcodeKind::Read(a) => spec_used_in_address(register, a),
            OpcodeKind::ReadBits(a, _, _) => spec_used_in_address(register, a),
            OpcodeKind::ReadOffset(a, _) => spec_used_in_address(register, a),
            OpcodeKind::WriteBits(a, r, _, _) => spec_used_in_address(register, a) || r == register,
            OpcodeKind::WriteOffset(a, v, _) => spec_used_in_address(register, a) || spec_used_in_value(
                register,
                v,
            ),
        }
    }
}

fn register_used_in_address(register: Register, addr: Address) -> (r: bool)
    ensures
        r == spec_used_in_address(register, addr),
{
    match addr {
        Address::Register(r) => r == register,
        Address::Immediate(_) => false,
    }
}

fn register_used_in_value<Word: WordTrait>(register: Register, value: Value<Word>) -> (r: bool)
    ensures
        r == spec_used_in_value(register, value),
{
    match value {
        Value::Register(r) => r == register,
        Value::Immediate(_) => false,
        Value::Indirect(a) => register_used_in_address(register, a),
    }
}

fn reads_register<Word: WordTrait>(op: &Opcode<Word>, register: Register) -> (r: bool)
    ensures
        r == spec_reads_register(*op, register),
{
    if op.destination == register {
        false
    } else {
        match op.opcode {
            OpcodeKind::Call(a, v) => register_used_in_address(register, a) || register_used_in_value(register, v),
            OpcodeKind::CallLibrary(_, r, i, o) => r == register || i == register || o == register,
            OpcodeKind::CheckInputs(r, _, _) => r == register,
            OpcodeKind::Load(_) => false,
            OpcodeKind::LoadResv => false,
            OpcodeKind::Offset { base, item_count, .. } => register_used_in_address(register, base)
                || register_used_in_value(register, item_count),
            OpcodeKind::Read(a) => register_used_in_address(register, a),
            OpcodeKind::ReadBits(a, _, _) => register_used_in_address(register, a),
            OpcodeKind::ReadOffset(a, _) => register_used_in_address(register, a),
            OpcodeKind::WriteBits(a, r, _, _) => register_used_in_address(register, a) || r == register,
            OpcodeKind::WriteOffset(a, v, _) => register_used_in_address(register, a)
                || register_used_in_value(register, v),
        }
    }
}

/// For each opcode of the block, whether it reads `register`.
fn register_is_used<Word: WordTrait>(block: &Block<Opcode<Word>>, register: Register) -> (r: Vec<bool>)
    ensures
        r@.len() == block.view().len(),
        forall|i: int| 0 <= i < r@.len() ==> #[trigger] r@[i] == spec_reads_register(block.view()[i], register),
{
    let items = block.items();
    let n = items.len();
    let mut r: Vec<bool> = Vec::new();
    let mut i: usize = 0;
    while i < n
        invariant
            n == items@.len(),
            items@ == block.view(),
            i <= n,
            r@.len() == i,
            forall|k: int| 0 <= k < i ==> #[trigger] r@[k] == spec_reads_register(items@[k], register),
        decreases n - i,
    {
        r.push(reads_register(&items[i], register));
        i = i + 1;
    }
    r
}

/// For each opcode of the block, which opcodes read the register it writes:
/// row `i`, column `j` tells whether opcode `j` reads the destination of opcode `i`.
pub fn get_register_usage<Word: WordTrait>(block: &Block<Opcode<Word>>) -> (r: Vec<Vec<bool>>)
    ensures
        r@.len() == block.view().len(),
        forall|i: int|
            0 <= i < r@.len() ==> (#[trigger] r@[i])@.len() == block.view().len() && forall|j: int|
                0 <= j < block.view().len() ==> #[trigger] r@[i]@[j] == spec_reads_register(
                    block.view()[j],
                    block.view()[i].destination,
                ),
{
    let items = block.items();
    let n = items.len();
    let mut r: Vec<Vec<bool>> = Vec::new();
    let mut i: usize = 0;
    while i < n
        invariant
            n == items@.len(),
            items@ == block.view(),
            i <= n,
            r@.len() == i,
            forall|k: int|
                0 <= k < i ==> (#[trigger] r@[k])@.len() == block.view().len() && forall|j: int|
                    0 <= j < block.view().len() ==> #[trigger] r@[k]@[j] == spec_reads_register(
                        block.view()[j],
                        block.view()[k].destination,
                    ),
        decreases n - i,
    {
        r.push(register_is_used(block, items[i].destination));
        i = i + 1;
    }
    r
}

} // verus!
