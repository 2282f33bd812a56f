use vstd::prelude::*;

verus! {

/// The kind of a block of output.
#[derive(Debug, Clone, Copy, Eq, PartialEq, Structural, Hash)]
pub enum BlockType {
    Code,
    Data,
    Resv,
}

impl BlockType {
    pub open spec fn spec_name(self) -> Seq<char> {
        match self {
            BlockType::Code => "CODE"@,
            BlockType::Data => "DATA"@,
            BlockType::Resv => "RESV"@,
        }
    }

    /// The name under which the kind is printed.
    pub fn name(&self) -> (r: &'static str)
        ensures
            r@ == self.spec_name(),
    {
        match self {
            BlockType::Code => "CODE",
            BlockType::Data => "DATA",
            BlockType::Resv => "RESV",
        }
    }
}

/// A block id and an offset inside the block.
pub type BlockAddress = (usize, usize);

/// A numbered sequence of items of one kind.
#[derive(Debug)]
pub struct Block<T> {
    id: usize,
    block_type: BlockType,
    items: Vec<T>,
}

impl<T> Block<T> {
    /// The items of the block.
    pub closed spec fn view(&self) -> Seq<T> {
        self.items@
    }

    pub closed spec fn kind(&self) -> BlockType {
        self.block_type
    }

    pub closed spec fn block_id(&self) -> usize {
        self.id
    }

    pub fn id(&self) -> (id: usize)
        ensures
            id == self.block_id(),
    {
        self.id
    }

    fn new(id: usize, block_type: BlockType) -> (b: Self)
        ensures
            b.block_id() == id,
            b.kind() == block_type,
            b.view() == Seq::<T>::empty(),
    {
        Block { id, block_type, items: Vec::new() }
    }

    fn with_items(id: usize, block_type: BlockType, items: Vec<T>) -> (b: Self)
        ensures
            b.block_id() == id,
            b.kind() == block_type,
            b.view() == items@,
    {
        Block { id, block_type, items }
    }

    pub fn block_type(&self) -> (t: BlockType)
        ensures
            t == self.kind(),
    {
        self.block_type
    }

    /// A block with the same id and kind, holding `items`.
    pub fn replace_items(&self, items: Vec<T>) -> (b: Self)
        ensures
            b.block_id() == self.block_id(),
            b.kind() == self.kind(),
            b.view() == items@,
    {
        Block { id: self.id, block_type: self.block_type, items }
    }

    pub fn base_addr(&self) -> (a: BlockAddress)
        ensures
            a == (self.block_id(), 0usize),
    {
        (self.id, 0)
    }

    /// The offset the next item will get.
    pub fn offset(&self) -> (n: usize)
        ensures
            n == self.view().len(),
    {
        self.items.len()
    }

    /// Appends `item` and returns its address.
    pub fn push(&mut self, item: T) -> (a: BlockAddress)
        ensures
            final(self).view() == old(self).view().push(item),
            final(self).block_id() == old(self).block_id(),
            final(self).kind() == old(self).kind(),
            a == (old(self).block_id(), old(self).view().len() as usize),
    {
        let address = self.items.len();
        self.items.push(item);
        (self.id, address)
    }

    /// Appends `items` and returns the address of the first of them.
    pub fn extend(&mut self, items: &[T]) -> (a: BlockAddress)
        where
            T: Copy,
        ensures
            final(self).view() == old(self).view() + items@,
            final(self).block_id() == old(self).block_id(),
            final(self).kind() == old(self).kind(),
            a == (old(self).block_id(), old(self).view().len() as usize),
    {
        let address = self.items.len();
        let n = items.len();
        let mut i: usize = 0;
        while i < n
            invariant
                n == items.len(),
                i <= n,
                self.id == old(self).id,
                self.kind() == old(self).kind(),
                self.view() == old(self).view() + items@.subrange(0, i as int),
            decreases n - i,
        {
            self.items.push(items[i]);
            i = i + 1;
            assert(self.view() =~= old(self).view() + items@.subrange(0, i as int));
        }
        assert(items@.subrange(0, n as int) =~= items@);
        (self.id, address)
    }

    /// Appends `length` copies of the default item and returns the address of
    /// the first of them.
    pub fn reserve(&mut self, length: usize) -> (a: BlockAddress)
        where
            T: Default + Copy,
        ensures
            final(self).view().len() == old(self).view().len() + length,
            final(self).view().subrange(0, old(self).view().len() as int) == old(self).view(),
            forall|i: int, j: int|
                old(self).view().len() <= i < final(self).view().len() && old(self).view().len() <= j
                    < final(self).view().len() ==> #[trigger] final(self).view()[i] == #[trigger] final(self).view()[j],
            final(self).block_id() == old(self).block_id(),
            final(self).kind() == old(self).kind(),
            a == (old(self).block_id(), old(self).view().len() as usize),
    {
        let address = self.items.len();
        let filler = T::default();
        let mut i: usize = 0;
        while i < length
            invariant
                i <= length,
                self.id == old(self).id,
                self.kind() == old(self).kind(),
                self.view().len() == old(self).view().len() + i,
                self.view().subrange(0, old(self).view().len() as int) == old(self).view(),
                forall|k: int| old(self).view().len() <= k < self.view().len() ==> #[trigger] self.view()[k] == filler,
            decreases length - i,
        {
            self.items.push(filler);
            i = i + 1;
            assert(self.view().subrange(0, old(self).view().len() as int) =~= old(self).view());
        }
        (self.id, address)
    }

    pub fn items(&self) -> (r: &[T])
        ensures
            r@ == self.view(),
    {
        self.items.as_slice()
    }

    /// The items in order.
    pub fn iter(&self) -> (r: &[T])
        ensures
            r@ == self.view(),
    {
        self.items.as_slice()
    }

    /// Replaces each item by `f` applied to it.
    pub fn map_items<F>(&mut self, f: F)
        where
            F: Fn(&T) -> T,
        requires
            forall|i: int| 0 <= i < old(self).view().len() ==> call_requires(f, (&old(self).view()[i],)),
        ensures
            final(self).view().len() == old(self).view().len(),
            forall|i: int|
                0 <= i < old(self).view().len() ==> call_ensures(
                    f,
                    (&old(self).view()[i],),
                    #[trigger] final(self).view()[i],
                ),
            final(self).block_id() == old(self).block_id(),
            final(self).kind() == old(self).kind(),
    {
        let mut mapped: Vec<T> = Vec::new();
        let n = self.items.len();
        let mut i: usize = 0;
        while i < n
            invariant
                n == self.items@.len(),
                self.items@ == old(self).view(),
                i <= n,
                mapped@.len() == i,
                forall|k: int| 0 <= k < n ==> call_requires(f, (&self.items@[k],)),
                forall|k: int| 0 <= k < i ==> call_ensures(f, (&self.items@[k],), #[trigger] mapped@[k]),
            decreases n - i,
        {
            let item = f(&self.items[i]);
            mapped.push(item);
            i = i + 1;
        }
        self.items = mapped;
    }
}

/// The blocks of a program: code, data and reserved blocks, numbered together
/// in the order they were made.
#[derive(Debug)]
pub struct Blocks<C, D, R> {
    code_blocks: Vec<Block<C>>,
    data_blocks: Vec<Block<D>>,
    resv_blocks: Vec<Block<R>>,
    block_types: Vec<(BlockType, usize)>,
    entry: Option<BlockAddress>,
    main_resv: Option<BlockAddress>,
}

impl<C, D, R> Blocks<C, D, R> {
    /// For each block id, its kind and its index among the blocks of that kind.
    pub closed spec fn types(&self) -> Seq<(BlockType, usize)> {
        self.block_types@
    }

    pub closed spec fn code(&self) -> Seq<Block<C>> {
        self.code_blocks@
    }

    pub closed spec fn data(&self) -> Seq<Block<D>> {
        self.data_blocks@
    }

    pub closed spec fn resv(&self) -> Seq<Block<R>> {
        self.resv_blocks@
    }

    pub closed spec fn entry(&self) -> Option<BlockAddress> {
        self.entry
    }

    pub closed spec fn main_resv(&self) -> Option<BlockAddress> {
        self.main_resv
    }

    /// The number of blocks of a kind.
    pub open spec fn count_of(&self, t: BlockType) -> nat {
        match t {
            BlockType::Code => self.code().len(),
            BlockType::Data => self.data().len(),
            BlockType::Resv => self.resv().len(),
        }
    }

    /// The id of the `k`-th block of kind `t`.
    pub open spec fn id_of(&self, t: BlockType, k: int) -> int {
        match t {
            BlockType::Code => self.code()[k].block_id() as int,
            BlockType::Data => self.data()[k].block_id() as int,
            BlockType::Resv => self.resv()[k].block_id() as int,
        }
    }

    /// Each id names the block that carries it.
    pub open spec fn ids_agree(&self) -> bool {
        forall|i: int| 0 <= i < self.types().len() ==> self.id_of(#[trigger] self.types()[i].0, self.types()[i].1 as int) == i
    }

    /// Every id names a block that exists.
    pub open spec fn wf(&self) -> bool {
        forall|k: int| 0 <= k < self.types().len() ==> (#[trigger] self.types()[k]).1 < self.count_of(self.types()[k].0)
    }

    pub fn new() -> (b: Self)
        ensures
            b.wf(),
            b.types() == Seq::<(BlockType, usize)>::empty(),
            b.code() == Seq::<Block<C>>::empty(),
            b.data() == Seq::<Block<D>>::empty(),
            b.resv() == Seq::<Block<R>>::empty(),
            b.entry() is None,
            b.main_resv() is None,
    {
        Blocks {
            code_blocks: Vec::new(),
            data_blocks: Vec::new(),
            resv_blocks: Vec::new(),
            block_types: Vec::new(),
            entry: None,
            main_resv: None,
        }
    }

    /// Records a new block of kind `t` and returns its id.
    fn next_id(&mut self, t: BlockType) -> (id: usize)
        requires
            old(self).wf(),
        ensures
            id == old(self).types().len(),
            final(self).types() == old(self).types().push((t, old(self).count_of(t) as usize)),
            final(self).code() == old(self).code(),
            final(self).data() == old(self).data(),
            final(self).resv() == old(self).resv(),
            final(self).entry() == old(self).entry(),
            final(self).main_resv() == old(self).main_resv(),
    {
        let next_id = self.block_types.len();
        let blk_type_id = match t {
            BlockType::Code => self.code_blocks.len(),
            BlockType::Data => self.data_blocks.len(),
            BlockType::Resv => self.resv_blocks.len(),
        };
        self.block_types.push((t, blk_type_id));
        next_id
    }

    /// The number of blocks of all kinds.
    pub fn len(&self) -> (n: usize)
        ensures
            n == self.types().len(),
    {
        self.block_types.len()
    }

    /// Adds an empty code block and hands it out.
    pub fn new_code(&mut self) -> (b: &mut Block<C>)
        requires
            old(self).wf(),
        ensures
            b.block_id() == old(self).types().len(),
            b.kind() == BlockType::Code,
            b.view() == Seq::<C>::empty(),
            final(self).wf(),
            final(self).types() == old(self).types().push((BlockType::Code, old(self).code().len() as usize)),
            final(self).code() == old(self).code().push(*final(b)),
            final(self).data() == old(self).data(),
            final(self).resv() == old(self).resv(),
            final(self).entry() == old(self).entry(),
            final(self).main_resv() == old(self).main_resv(),
    {
        let id = self.next_id(BlockType::Code);
        self.code_blocks.push(Block::new(id, BlockType::Code));
        let last = self.code_blocks.len() - 1;
        &mut self.code_blocks[last]
    }

    /// Adds a code block holding `items` and returns its id.
    pub fn push_code(&mut self, items: Vec<C>) -> (id: usize)
        requires
            old(self).wf(),
        ensures
            id == old(self).types().len(),
            final(self).wf(),
            final(self).types() == old(self).types().push((BlockType::Code, old(self).code().len() as usize)),
            final(self).code().len() == old(self).code().len() + 1,
            final(self).code().drop_last() == old(self).code(),
            final(self).code().last().block_id() == id,
            final(self).code().last().kind() == BlockType::Code,
            final(self).code().last().view() == items@,
            final(self).data() == old(self).data(),
            final(self).resv() == old(self).resv(),
            final(self).entry() == old(self).entry(),
            final(self).main_resv() == old(self).main_resv(),
            old(self).ids_agree() ==> final(self).ids_agree(),
    {
        let code_count = self.code_blocks.len();
        let id = self.next_id(BlockType::Code);
        self.code_blocks.push(Block::with_items(id, BlockType::Code, items));
        assert(self.code().drop_last() =~= old(self).code());
        proof {
            if old(self).ids_agree() {
                assert forall|i: int| 0 <= i < self.types().len() implies self.id_of(#[trigger] self.types()[i].0, self.types()[i].1 as int) == i by {
                    if i < old(self).types().len() {
                        assert(self.types()[i] == old(self).types()[i]);
                        let t = self.types()[i];
                        assert(t.1 < old(self).count_of(old(self).types()[i].0));
                        assert(old(self).id_of(old(self).types()[i].0, old(self).types()[i].1 as int) == i);
                        if t.0 == BlockType::Code {
                            assert(self.code()[t.1 as int] == old(self).code()[t.1 as int]);
                        } else if t.0 == BlockType::Data {
                            assert(self.id_of(t.0, t.1 as int) == old(self).id_of(t.0, t.1 as int));
                        } else {
                            assert(self.id_of(t.0, t.1 as int) == old(self).id_of(t.0, t.1 as int));
                        }
                    } else {
                        assert(code_count == old(self).code().len());
                        assert(self.code()[code_count as int] == self.code().last());
                        assert(self.id_of(self.types()[i].0, self.types()[i].1 as int) == i);
                    }
                }
            }
        }
        id
    }

    /// Adds an empty data block and hands it out.
    pub fn new_data(&mut self) -> (b: &mut Block<D>)
        requires
            old(self).wf(),
        ensures
            b.block_id() == old(self).types().len(),
            b.kind() == BlockType::Data,
            b.view() == Seq::<D>::empty(),
            final(self).wf(),
            final(self).types() == old(self).types().push((BlockType::Data, old(self).data().len() as usize)),
            final(self).data() == old(self).data().push(*final(b)),
            final(self).code() == old(self).code(),
            final(self).resv() == old(self).resv(),
            final(self).entry() == old(self).entry(),
            final(self).main_resv() == old(self).main_resv(),
    {
        let id = self.next_id(BlockType::Data);
        self.data_blocks.push(Block::new(id, BlockType::Data));
        let last = self.data_blocks.len() - 1;
        &mut self.data_blocks[last]
    }

    /// Adds a data block holding `items` and returns its id.
    pub fn push_data(&mut self, items: Vec<D>) -> (id: usize)
        requires
            old(self).wf(),
        ensures
            id == old(self).types().len(),
            final(self).wf(),
            final(self).types() == old(self).types().push((BlockType::Data, old(self).data().len() as usize)),
            final(self).data().len() == old(self).data().len() + 1,
            final(self).data().drop_last() == old(self).data(),
            final(self).data().last().block_id() == id,
            final(self).data().last().kind() == BlockType::Data,
            final(self).data().last().view() == items@,
            final(self).code() == old(self).code(),
            final(self).resv() == old(self).resv(),
            final(self).entry() == old(self).entry(),
            final(self).main_resv() == old(self).main_resv(),
    {
        let id = self.next_id(BlockType::Data);
        self.data_blocks.push(Block::with_items(id, BlockType::Data, items));
        assert(self.data().drop_last() =~= old(self).data());
        id
    }

    /// Adds an empty reserved block and hands it out.
    pub fn new_resv(&mut self) -> (b: &mut Block<R>)
        requires
            old(self).wf(),
        ensures
            b.block_id() == old(self).types().len(),
            b.kind() == BlockType::Resv,
            b.view() == Seq::<R>::empty(),
            final(self).wf(),
            final(self).types() == old(self).types().push((BlockType::Resv, old(self).resv().len() as usize)),
            final(self).resv() == old(self).resv().push(*final(b)),
            final(self).code() == old(self).code(),
            final(self).data() == old(self).data(),
            final(self).entry() == old(self).entry(),
            final(self).main_resv() == old(self).main_resv(),
    {
        let id = self.next_id(BlockType::Resv);
        self.resv_blocks.push(Block::new(id, BlockType::Resv));
        let last = self.resv_blocks.len() - 1;
        &mut self.resv_blocks[last]
    }

    /// Adds a reserved block holding `items` and returns its id.
    pub fn push_resv(&mut self, items: Vec<R>) -> (id: usize)
        requires
            old(self).wf(),
        ensures
            id == old(self).types().len(),
            final(self).wf(),
            final(self).types() == old(self).types().push((BlockType::Resv, old(self).resv().len() as usize)),
            final(self).resv().len() == old(self).resv().len() + 1,
            final(self).resv().drop_last() == old(self).resv(),
            final(self).resv().last().block_id() == id,
            final(self).resv().last().kind() == BlockType::Resv,
            final(self).resv().last().view() == items@,
            final(self).code() == old(self).code(),
            final(self).data() == old(self).data(),
            final(self).entry() == old(self).entry(),
            final(self).main_resv() == old(self).main_resv(),
    {
        let id = self.next_id(BlockType::Resv);
        self.resv_blocks.push(Block::with_items(id, BlockType::Resv, items));
        assert(self.resv().drop_last() =~= old(self).resv());
        id
    }

    /// The kind of block `id` and its index among the blocks of that kind.
    pub fn get_block_type(&self, id: usize) -> (r: (BlockType, usize))
        requires
            id < self.types().len(),
        ensures
            r == self.types()[id as int],
    {
        self.block_types[id]
    }

    /// The data block with id `id`.
    pub fn get_data_block(&self, id: usize) -> (b: &Block<D>)
        requires
            self.wf(),
            id < self.types().len(),
            self.types()[id as int].0 == BlockType::Data,
        ensures
            *b == self.data()[self.types()[id as int].1 as int],
    {
        let (_, data_id) = self.get_block_type(id);
        &self.data_blocks[data_id]
    }

    pub fn code_blocks(&self) -> (r: &[Block<C>])
        ensures
            r@ == self.code(),
    {
        self.code_blocks.as_slice()
    }

    pub fn code_blocks_mut(&mut self) -> (r: &mut [Block<C>])
        ensures
            r@ == old(self).code(),
            final(self).code() == final(r)@,
            final(self).types() == old(self).types(),
            final(self).data() == old(self).data(),
            final(self).resv() == old(self).resv(),
            final(self).entry() == old(self).entry(),
            final(self).main_resv() == old(self).main_resv(),
    {
        self.code_blocks.as_mut_slice()
    }

    pub fn data_blocks(&self) -> (r: &[Block<D>])
        ensures
            r@ == self.data(),
    {
        self.data_blocks.as_slice()
    }

    pub fn resv_blocks(&self) -> (r: &[Block<R>])
        ensures
            r@ == self.resv(),
    {
        self.resv_blocks.as_slice()
    }

    pub fn resv_blocks_mut(&mut self) -> (r: &mut [Block<R>])
        ensures
            r@ == old(self).resv(),
            final(self).resv() == final(r)@,
            final(self).types() == old(self).types(),
            final(self).code() == old(self).code(),
            final(self).data() == old(self).data(),
            final(self).entry() == old(self).entry(),
            final(self).main_resv() == old(self).main_resv(),
    {
        self.resv_blocks.as_mut_slice()
    }

    pub fn set_entry(&mut self, addr: BlockAddress)
        ensures
            final(self).entry() == Some(addr),
            final(self).types() == old(self).types(),
            final(self).code() == old(self).code(),
            final(self).data() == old(self).data(),
            final(self).resv() == old(self).resv(),
            final(self).main_resv() == old(self).main_resv(),
    {
        self.entry = Some(addr);
    }

    pub fn get_entry(&self) -> (a: BlockAddress)
        requires
            self.entry() is Some,
        ensures
            self.entry() == Some(a),
    {
        match self.entry {
            Some(a) => a,
            None => (0, 0),
        }
    }

    pub fn set_main_resv(&mut self, addr: BlockAddress)
        ensures
            final(self).main_resv() == Some(addr),
            final(self).types() == old(self).types(),
            final(self).code() == old(self).code(),
            final(self).data() == old(self).data(),
            final(self).resv() == old(self).resv(),
            final(self).entry() == old(self).entry(),
    {
        self.main_resv = Some(addr);
    }

    pub fn get_main_resv(&self) -> (a: BlockAddress)
        requires
            self.main_resv() is Some,
        ensures
            self.main_resv() == Some(a),
    {
        match self.main_resv {
            Some(a) => a,
            None => (0, 0),
        }
    }
}

impl<C, D, R> Default for Blocks<C, D, R> {
    fn default() -> (b: Self)
        ensures
            b.wf(),
            b.types() == Seq::<(BlockType, usize)>::empty(),
            b.code() == Seq::<Block<C>>::empty(),
            b.data() == Seq::<Block<D>>::empty(),
            b.resv() == Seq::<Block<R>>::empty(),
            b.entry() is None,
            b.main_resv() is None,
    {
        Self::new()
    }
}

} // verus!
