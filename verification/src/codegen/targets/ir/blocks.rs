use vstd::prelude::*;

use super::{DataItem, Opcode, WordTrait};

verus! {

/// A block id and an offset inside the block.
pub type BlockAddress = (usize, usize);

/// The section of the output a block goes to.
#[derive(Debug, Clone, Copy, PartialEq, Eq, Structural, Hash)]
pub enum Section {
    Text,
    Rodata,
    Data,
    Strtab,
}

impl Section {
    pub open spec fn spec_name(self) -> Seq<char> {
        match self {
            Section::Data => "data"@,
            Section::Rodata => "rodata"@,
            Section::Strtab => "strtab"@,
            Section::Text => "text"@,
        }
    }

    /// The name under which the section is printed.
    pub fn name(&self) -> (r: &'static str)
        ensures
            r@ == self.spec_name(),
    {
        match self {
            Section::Data => "data",
            Section::Rodata => "rodata",
            Section::Strtab => "strtab",
            Section::Text => "text",
        }
    }
}

/// A numbered sequence of items of one section.
#[derive(Debug)]
pub struct Block<T> {
    id: usize,
    section: Section,
    items: Vec<T>,
}

impl<T> Block<T> {
    /// The items of the block.
    pub closed spec fn view(&self) -> Seq<T> {
        self.items@
    }

    pub closed spec fn spec_section(&self) -> Section {
        self.section
    }

    pub closed spec fn block_id(&self) -> usize {
        self.id
    }

    fn new(id: usize, section: Section) -> (b: Self)
        ensures
            b.block_id() == id,
            b.spec_section() == section,
            b.view() == Seq::<T>::empty(),
    {
        Block { id, section, items: Vec::new() }
    }

    fn with_items(id: usize, section: Section, items: Vec<T>) -> (b: Self)
        ensures
            b.block_id() == id,
            b.spec_section() == section,
            b.view() == items@,
    {
        Block { id, section, items }
    }

    pub fn id(&self) -> (id: usize)
        ensures
            id == self.block_id(),
    {
        self.id
    }

    pub fn section(&self) -> (s: Section)
        ensures
            s == self.spec_section(),
    {
        self.section
    }

    /// A block with the same id and section, holding `items`.
    pub fn replace_items(&self, items: Vec<T>) -> (b: Self)
        ensures
            b.block_id() == self.block_id(),
            b.spec_section() == self.spec_section(),
            b.view() == items@,
    {
        Block { id: self.id, section: self.section, items }
    }

    pub fn base_addr(&self) -> (a: BlockAddress)
        ensures
            a == (self.block_id(), 0usize),
    {
        (self.id, 0)
    }

    /// The offset the next item will get.
    pub fn offset(&self) -> (n: usize)
        ensures
            n == self.view().len(),
    {
        self.items.len()
    }

    /// The address the next item will get.
    pub fn addr(&self) -> (a: BlockAddress)
        ensures
            a == (self.block_id(), self.view().len() as usize),
    {
        (self.id, self.items.len())
    }

    /// Appends `item` and returns its address.
    pub fn push(&mut self, item: T) -> (a: BlockAddress)
        ensures
            final(self).view() == old(self).view().push(item),
            final(self).block_id() == old(self).block_id(),
            final(self).spec_section() == old(self).spec_section(),
            a == (old(self).block_id(), old(self).view().len() as usize),
    {
        let address = self.items.len();
        self.items.push(item);
        (self.id, address)
    }

    /// Appends `items` and returns the address of the first of them.
    pub fn extend(&mut self, items: &[T]) -> (a: BlockAddress)
        where
            T: Copy,
        ensures
            final(self).view() == old(self).view() + items@,
            final(self).block_id() == old(self).block_id(),
            final(self).spec_section() == old(self).spec_section(),
            a == (old(self).block_id(), old(self).view().len() as usize),
    {
        let address = self.items.len();
        let n = items.len();
        let mut i: usize = 0;
        while i < n
            invariant
                n == items.len(),
                i <= n,
                self.id == old(self).id,
                self.section == old(self).section,
                self.view() == old(self).view() + items@.subrange(0, i as int),
            decreases n - i,
        {
            self.items.push(items[i]);
            i = i + 1;
            assert(self.view() =~= old(self).view() + items@.subrange(0, i as int));
        }
        assert(items@.subrange(0, n as int) =~= items@);
        (self.id, address)
    }

    /// Appends `length` copies of the default item and returns the address of
    /// the first of them.
    pub fn reserve(&mut self, length: usize) -> (a: BlockAddress)
        where
            T: Default + Copy,
        ensures
            final(self).view().len() == old(self).view().len() + length,
            final(self).view().subrange(0, old(self).view().len() as int) == old(self).view(),
            forall|i: int, j: int|
                old(self).view().len() <= i < final(self).view().len() && old(self).view().len() <= j
                    < final(self).view().len() ==> #[trigger] final(self).view()[i] == #[trigger] final(self).view()[j],
            final(self).block_id() == old(self).block_id(),
            final(self).spec_section() == old(self).spec_section(),
            a == (old(self).block_id(), old(self).view().len() as usize),
    {
        let address = self.items.len();
        let filler = T::default();
        let mut i: usize = 0;
        while i < length
            invariant
                i <= length,
                self.id == old(self).id,
                self.section == old(self).section,
                self.view().len() == old(self).view().len() + i,
                self.view().subrange(0, old(self).view().len() as int) == old(self).view(),
                forall|k: int| old(self).view().len() <= k < self.view().len() ==> #[trigger] self.view()[k] == filler,
            decreases length - i,
        {
            self.items.push(filler);
            i = i + 1;
            assert(self.view().subrange(0, old(self).view().len() as int) =~= old(self).view());
        }
        (self.id, address)
    }

    /// Replaces the items, keeping the id and the section.
    pub fn set_items(&mut self, items: Vec<T>)
        ensures
            final(self).view() == items@,
            final(self).block_id() == old(self).block_id(),
            final(self).spec_section() == old(self).spec_section(),
    {
        self.items = items;
    }

    pub fn items(&self) -> (r: &[T])
        ensures
            r@ == self.view(),
    {
        self.items.as_slice()
    }

    /// The items in order.
    pub fn iter(&self) -> (r: &[T])
        ensures
            r@ == self.view(),
    {
        self.items.as_slice()
    }

    /// Replaces each item by `f` applied to it.
    pub fn map_items<F>(&mut self, f: F)
        where
            F: Fn(&T) -> T,
        requires
            forall|i: int| 0 <= i < old(self).view().len() ==> call_requires(f, (&old(self).view()[i],)),
        ensures
            final(self).view().len() == old(self).view().len(),
            forall|i: int|
                0 <= i < old(self).view().len() ==> call_ensures(
                    f,
                    (&old(self).view()[i],),
                    #[trigger] final(self).view()[i],
                ),
            final(self).block_id() == old(self).block_id(),
            final(self).spec_section() == old(self).spec_section(),
    {
        let mut mapped: Vec<T> = Vec::new();
        let n = self.items.len();
        assert forall|k: int| 0 <= k < n implies call_requires(f, (&self.items@[k],)) by {
            assert(self.items@[k] == old(self).view()[k]);
        }
        let mut i: usize = 0;
        while i < n
            invariant
                n == self.items@.len(),
                self.items@ == old(self).view(),
                i <= n,
                mapped@.len() == i,
                forall|k: int| 0 <= k < n ==> call_requires(f, (&self.items@[k],)),
                forall|k: int| 0 <= k < i ==> call_ensures(f, (&self.items@[k],), #[trigger] mapped@[k]),
            decreases n - i,
        {
            let item = f(&self.items[i]);
            mapped.push(item);
            i = i + 1;
        }
        self.items = mapped;
    }
}

/// Whether the text of `a` equals the text of `b`.
fn same_text(a: &str, b: &str) -> (r: bool)
    ensures
        r == (a@ == b@),
{
    let n = a.unicode_len();
    if n != b.unicode_len() {
        return false;
    }
    let mut i: usize = 0;
    while i < n
        invariant
            n == a@.len(),
            n == b@.len(),
            i <= n,
            forall|k: int| 0 <= k < i ==> a@[k] == b@[k],
        decreases n - i,
    {
        if a.get_char(i) != b.get_char(i) {
            return false;
        }
        i = i + 1;
    }
    assert(a@ =~= b@);
    true
}

/// The map from label names to addresses given by a list of distinct labels.
pub open spec fn label_map(labels: Seq<(&'static str, BlockAddress)>) -> Map<Seq<char>, BlockAddress>
    decreases labels.len(),
{
    if labels.len() == 0 {
        Map::empty()
    } else {
        label_map(labels.drop_last()).insert(labels.last().0@, labels.last().1)
    }
}

/// A name is mapped exactly where some entry of the list carries it.
pub proof fn lemma_label_map_dom(labels: Seq<(&'static str, BlockAddress)>, name: Seq<char>)
    ensures
        label_map(labels).contains_key(name) <==> exists|i: int| 0 <= i < labels.len() && (#[trigger] labels[i]).0@ == name,
    decreases labels.len(),
{
    if labels.len() > 0 {
        lemma_label_map_dom(labels.drop_last(), name);
        if label_map(labels.drop_last()).contains_key(name) {
            let i = choose|i: int| 0 <= i < labels.drop_last().len() && (#[trigger] labels.drop_last()[i]).0@ == name;
            assert(labels[i] == labels.drop_last()[i]);
        }
        if exists|i: int| 0 <= i < labels.len() && (#[trigger] labels[i]).0@ == name {
            let i = choose|i: int| 0 <= i < labels.len() && (#[trigger] labels[i]).0@ == name;
            if i < labels.len() - 1 {
                assert(labels.drop_last()[i] == labels[i]);
            }
        }
    }
}

proof fn lemma_label_map_at(labels: Seq<(&'static str, BlockAddress)>, i: int)
    requires
        0 <= i < labels.len(),
        forall|a: int, b: int| 0 <= a < b < labels.len() ==> (#[trigger] labels[a]).0@ != (#[trigger] labels[b]).0@,
    ensures
        label_map(labels).contains_key(labels[i].0@),
        label_map(labels)[labels[i].0@] == labels[i].1,
    decreases labels.len(),
{
    if i < labels.len() - 1 {
        lemma_label_map_at(labels.drop_last(), i);
        assert(labels.drop_last()[i] == labels[i]);
        assert(labels[i].0@ != labels[labels.len() - 1].0@);
    }
}

/// The blocks of generated code and data, sorted by section and numbered
/// together in the order they were made, with named addresses.
#[derive(Debug)]
pub struct Sections<Word: WordTrait> {
    labels: Vec<(&'static str, BlockAddress)>,
    text: Vec<Block<Opcode<Word>>>,
    rodata: Vec<Block<Word>>,
    data: Vec<Block<DataItem<Word>>>,
    strtab: Vec<Block<String>>,
    block_types: Vec<(Section, usize)>,
}

impl<Word: WordTrait> Sections<Word> {
    /// For each block id, its section and its index among the blocks of that section.
    pub closed spec fn types(&self) -> Seq<(Section, usize)> {
        self.block_types@
    }

    pub closed spec fn text_view(&self) -> Seq<Block<Opcode<Word>>> {
        self.text@
    }

    pub closed spec fn rodata_view(&self) -> Seq<Block<Word>> {
        self.rodata@
    }

    pub closed spec fn data_view(&self) -> Seq<Block<DataItem<Word>>> {
        self.data@
    }

    pub closed spec fn strtab_view(&self) -> Seq<Block<String>> {
        self.strtab@
    }

    /// The labels, from name to address.
    pub open spec fn labels(&self) -> Map<Seq<char>, BlockAddress> {
        label_map(self.label_seq())
    }

    /// The labels in the order they were given.
    pub closed spec fn label_seq(&self) -> Seq<(&'static str, BlockAddress)> {
        self.labels@
    }

    /// The labels in the order they were given; in a well-formed value no
    /// name occurs twice.
    pub fn label_entries(&self) -> (r: &[(&'static str, BlockAddress)])
        ensures
            r@ == self.label_seq(),
            self.wf() ==> forall|a: int, b: int|
                0 <= a < b < r@.len() ==> (#[trigger] r@[a]).0@ != (#[trigger] r@[b]).0@,
    {
        self.labels.as_slice()
    }

    /// The number of blocks of a section.
    pub open spec fn count_of(&self, s: Section) -> nat {
        match s {
            Section::Text => self.text_view().len(),
            Section::Rodata => self.rodata_view().len(),
            Section::Data => self.data_view().len(),
            Section::Strtab => self.strtab_view().len(),
        }
    }

    /// Every id names a block that exists, and no label is given twice.
    pub closed spec fn wf(&self) -> bool {
        &&& forall|k: int| 0 <= k < self.types().len() ==> (#[trigger] self.types()[k]).1 < self.count_of(self.types()[k].0)
        &&& forall|a: int, b: int|
            0 <= a < b < self.labels@.len() ==> (#[trigger] self.labels@[a]).0@ != (#[trigger] self.labels@[b]).0@
    }

    pub fn new() -> (s: Self)
        ensures
            s.wf(),
            s.types() == Seq::<(Section, usize)>::empty(),
            s.text_view() == Seq::<Block<Opcode<Word>>>::empty(),
            s.rodata_view() == Seq::<Block<Word>>::empty(),
            s.data_view() == Seq::<Block<DataItem<Word>>>::empty(),
            s.strtab_view() == Seq::<Block<String>>::empty(),
            s.labels() == Map::<Seq<char>, BlockAddress>::empty(),
    {
        Sections {
            labels: Vec::new(),
            text: Vec::new(),
            rodata: Vec::new(),
            data: Vec::new(),
            strtab: Vec::new(),
            block_types: Vec::new(),
        }
    }

    /// Records a new block of section `section` and returns its id.
    fn next_id(&mut self, section: Section) -> (id: usize)
        requires
            old(self).wf(),
        ensures
            id == old(self).types().len(),
            final(self).types() == old(self).types().push((section, old(self).count_of(section) as usize)),
            final(self).text_view() == old(self).text_view(),
            final(self).rodata_view() == old(self).rodata_view(),
            final(self).data_view() == old(self).data_view(),
            final(self).strtab_view() == old(self).strtab_view(),
            final(self).labels@ == old(self).labels@,
    {
        let next_id = self.block_types.len();
        let section_id = match section {
            Section::Text => self.text.len(),
            Section::Data => self.data.len(),
            Section::Rodata => self.rodata.len(),
            Section::Strtab => self.strtab.len(),
        };
        self.block_types.push((section, section_id));
        next_id
    }

    /// The number of blocks of all sections.
    pub fn len(&self) -> (n: usize)
        ensures
            n == self.types().len(),
    {
        self.block_types.len()
    }

    /// The section of block `id` and its index among the blocks of that section.
    pub fn get_block_section(&self, id: usize) -> (r: (Section, usize))
        requires
            id < self.types().len(),
        ensures
            r == self.types()[id as int],
    {
        self.block_types[id]
    }

    /// Names `address` by `name`, which must not name anything yet.
    pub fn label(&mut self, name: &'static str, address: BlockAddress)
        requires
            old(self).wf(),
            !old(self).labels().contains_key(name@),
        ensures
            final(self).wf(),
            final(self).labels() == old(self).labels().insert(name@, address),
            final(self).types() == old(self).types(),
            final(self).text_view() == old(self).text_view(),
            final(self).rodata_view() == old(self).rodata_view(),
            final(self).data_view() == old(self).data_view(),
            final(self).strtab_view() == old(self).strtab_view(),
    {
        proof {
            lemma_label_map_dom(self.labels@, name@);
        }
        self.labels.push((name, address));
        assert(self.labels@.drop_last() =~= old(self).labels@);
        assert(self.types() == old(self).types());
        assert forall|a: int, b: int| 0 <= a < b < self.labels@.len() implies (#[trigger] self.labels@[a]).0@
            != (#[trigger] self.labels@[b]).0@ by {
            if b == self.labels@.len() - 1 {
                assert(old(self).labels@[a] == self.labels@[a]);
                assert(self.labels@[b].0@ == name@);
                assert(old(self).labels@[a].0@ != name@);
            } else {
                assert(old(self).labels@[a] == self.labels@[a]);
                assert(old(self).labels@[b] == self.labels@[b]);
            }
        }
    }

    /// The address named `name`, if any.
    pub fn get_label(&self, name: &str) -> (r: Option<BlockAddress>)
        requires
            self.wf(),
        ensures
            r == (if self.labels().contains_key(name@) { Some(self.labels()[name@]) } else { None }),
    {
        let n = self.labels.len();
        let mut i: usize = 0;
        while i < n
            invariant
                self.wf(),
                n == self.labels@.len(),
                i <= n,
                forall|k: int| 0 <= k < i ==> (#[trigger] self.labels@[k]).0@ != name@,
            decreases n - i,
        {
            let (key, address) = self.labels[i];
            if same_text(key, name) {
                proof {
                    lemma_label_map_at(self.labels@, i as int);
                }
                return Some(address);
            }
            i = i + 1;
        }
        proof {
            lemma_label_map_dom(self.labels@, name@);
        }
        None
    }

    /// Adds an empty text block and hands it out.
    pub fn new_text(&mut self) -> (b: &mut Block<Opcode<Word>>)
        requires
            old(self).wf(),
        ensures
            b.block_id() == old(self).types().len(),
            b.spec_section() == Section::Text,
            b.view() == Seq::<Opcode<Word>>::empty(),
            final(self).wf(),
            final(self).types() == old(self).types().push((Section::Text, old(self).text_view().len() as usize)),
            final(self).text_view() == old(self).text_view().push(*final(b)),
            final(self).data_view() == old(self).data_view(),
            final(self).rodata_view() == old(self).rodata_view(),
            final(self).strtab_view() == old(self).strtab_view(),
            final(self).labels() == old(self).labels(),
    {
        let id = self.next_id(Section::Text);
        self.text.push(Block::new(id, Section::Text));
        let last = self.text.len() - 1;
        &mut self.text[last]
    }

    /// Adds a text block holding `items` and returns its id.
    pub fn push_text(&mut self, items: Vec<Opcode<Word>>) -> (id: usize)
        requires
            old(self).wf(),
        ensures
            id == old(self).types().len(),
            final(self).wf(),
            final(self).types() == old(self).types().push((Section::Text, old(self).text_view().len() as usize)),
            final(self).text_view().len() == old(self).text_view().len() + 1,
            final(self).text_view().drop_last() == old(self).text_view(),
            final(self).text_view().last().block_id() == id,
            final(self).text_view().last().spec_section() == Section::Text,
            final(self).text_view().last().view() == items@,
            final(self).data_view() == old(self).data_view(),
            final(self).rodata_view() == old(self).rodata_view(),
            final(self).strtab_view() == old(self).strtab_view(),
            final(self).labels() == old(self).labels(),
    {
        let id = self.next_id(Section::Text);
        self.text.push(Block::with_items(id, Section::Text, items));
        assert(self.text_view().drop_last() =~= old(self).text_view());
        id
    }

    /// The text block with id `id`.
    pub fn get_text(&self, id: usize) -> (b: &Block<Opcode<Word>>)
        requires
            self.wf(),
            id < self.types().len(),
            self.types()[id as int].0 == Section::Text,
        ensures
            *b == self.text_view()[self.types()[id as int].1 as int],
    {
        let (_, section_id) = self.block_types[id];
        &self.text[section_id]
    }

    /// The text block with id `id`, to change.
    pub fn get_text_mut(&mut self, id: usize) -> (b: &mut Block<Opcode<Word>>)
        requires
            old(self).wf(),
            id < old(self).types().len(),
            old(self).types()[id as int].0 == Section::Text,
        ensures
            *b == old(self).text_view()[old(self).types()[id as int].1 as int],
            final(self).text_view() == old(self).text_view().update(old(self).types()[id as int].1 as int, *final(b)),
            final(self).wf(),
            final(self).types() == old(self).types(),
            final(self).data_view() == old(self).data_view(),
            final(self).rodata_view() == old(self).rodata_view(),
            final(self).strtab_view() == old(self).strtab_view(),
            final(self).labels() == old(self).labels(),
    {
        let (_, section_id) = self.block_types[id];
        &mut self.text[section_id]
    }

    pub fn text_blocks(&self) -> (r: &[Block<Opcode<Word>>])
        ensures
            r@ == self.text_view(),
    {
        self.text.as_slice()
    }

    pub fn text_blocks_mut(&mut self) -> (r: &mut [Block<Opcode<Word>>])
        ensures
            r@ == old(self).text_view(),
            final(self).text_view() == final(r)@,
            final(self).types() == old(self).types(),
            final(self).data_view() == old(self).data_view(),
            final(self).rodata_view() == old(self).rodata_view(),
            final(self).strtab_view() == old(self).strtab_view(),
            final(self).labels() == old(self).labels(),
    {
        self.text.as_mut_slice()
    }

    /// Adds an empty data block and hands it out.
    pub fn new_data(&mut self) -> (b: &mut Block<DataItem<Word>>)
        requires
            old(self).wf(),
        ensures
            b.block_id() == old(self).types().len(),
            b.spec_section() == Section::Data,
            b.view() == Seq::<DataItem<Word>>::empty(),
            final(self).wf(),
            final(self).types() == old(self).types().push((Section::Data, old(self).data_view().len() as usize)),
            final(self).data_view() == old(self).data_view().push(*final(b)),
            final(self).text_view() == old(self).text_view(),
            final(self).rodata_view() == old(self).rodata_view(),
            final(self).strtab_view() == old(self).strtab_view(),
            final(self).labels() == old(self).labels(),
    {
        let id = self.next_id(Section::Data);
        self.data.push(Block::new(id, Section::Data));
        let last = self.data.len() - 1;
        &mut self.data[last]
    }

    /// Adds a data block holding `items` and returns its id.
    pub fn push_data(&mut self, items: Vec<DataItem<Word>>) -> (id: usize)
        requires
            old(self).wf(),
        ensures
            id == old(self).types().len(),
            final(self).wf(),
            final(self).types() == old(self).types().push((Section::Data, old(self).data_view().len() as usize)),
            final(self).data_view().len() == old(self).data_view().len() + 1,
            final(self).data_view().drop_last() == old(self).data_view(),
            final(self).data_view().last().block_id() == id,
            final(self).data_view().last().spec_section() == Section::Data,
            final(self).data_view().last().view() == items@,
            final(self).text_view() == old(self).text_view(),
            final(self).rodata_view() == old(self).rodata_view(),
            final(self).strtab_view() == old(self).strtab_view(),
            final(self).labels() == old(self).labels(),
    {
        let id = self.next_id(Section::Data);
        self.data.push(Block::with_items(id, Section::Data, items));
        assert(self.data_view().drop_last() =~= old(self).data_view());
        id
    }

    /// The data block with id `id`.
    pub fn get_data(&self, id: usize) -> (b: &Block<DataItem<Word>>)
        requires
            self.wf(),
            id < self.types().len(),
            self.types()[id as int].0 == Section::Data,
        ensures
            *b == self.data_view()[self.types()[id as int].1 as int],
    {
        let (_, section_id) = self.block_types[id];
        &self.data[section_id]
    }

    /// The data block with id `id`, to change.
    pub fn get_data_mut(&mut self, id: usize) -> (b: &mut Block<DataItem<Word>>)
        requires
            old(self).wf(),
            id < old(self).types().len(),
            old(self).types()[id as int].0 == Section::Data,
        ensures
            *b == old(self).data_view()[old(self).types()[id as int].1 as int],
            final(self).data_view() == old(self).data_view().update(old(self).types()[id as int].1 as int, *final(b)),
            final(self).wf(),
            final(self).types() == old(self).types(),
            final(self).text_view() == old(self).text_view(),
            final(self).rodata_view() == old(self).rodata_view(),
            final(self).strtab_view() == old(self).strtab_view(),
            final(self).labels() == old(self).labels(),
    {
        let (_, section_id) = self.block_types[id];
        &mut self.data[section_id]
    }

    pub fn data_blocks(&self) -> (r: &[Block<DataItem<Word>>])
        ensures
            r@ == self.data_view(),
    {
        self.data.as_slice()
    }

    pub fn data_blocks_mut(&mut self) -> (r: &mut [Block<DataItem<Word>>])
        ensures
            r@ == old(self).data_view(),
            final(self).data_view() == final(r)@,
            final(self).types() == old(self).types(),
            final(self).text_view() == old(self).text_view(),
            final(self).rodata_view() == old(self).rodata_view(),
            final(self).strtab_view() == old(self).strtab_view(),
            final(self).labels() == old(self).labels(),
    {
        self.data.as_mut_slice()
    }

    /// Adds an empty read-only data block and hands it out.
    pub fn new_rodata(&mut self) -> (b: &mut Block<Word>)
        requires
            old(self).wf(),
        ensures
            b.block_id() == old(self).types().len(),
            b.spec_section() == Section::Rodata,
            b.view() == Seq::<Word>::empty(),
            final(self).wf(),
            final(self).types() == old(self).types().push((Section::Rodata, old(self).rodata_view().len() as usize)),
            final(self).rodata_view() == old(self).rodata_view().push(*final(b)),
            final(self).text_view() == old(self).text_view(),
            final(self).data_view() == old(self).data_view(),
            final(self).strtab_view() == old(self).strtab_view(),
            final(self).labels() == old(self).labels(),
    {
        let id = self.next_id(Section::Rodata);
        self.rodata.push(Block::new(id, Section::Rodata));
        let last = self.rodata.len() - 1;
        &mut self.rodata[last]
    }

    /// Adds a read-only data block holding `items` and returns its id.
    pub fn push_rodata(&mut self, items: Vec<Word>) -> (id: usize)
        requires
            old(self).wf(),
        ensures
            id == old(self).types().len(),
            final(self).wf(),
            final(self).types() == old(self).types().push((Section::Rodata, old(self).rodata_view().len() as usize)),
            final(self).rodata_view().len() == old(self).rodata_view().len() + 1,
            final(self).rodata_view().drop_last() == old(self).rodata_view(),
            final(self).rodata_view().last().block_id() == id,
            final(self).rodata_view().last().spec_section() == Section::Rodata,
            final(self).rodata_view().last().view() == items@,
            final(self).text_view() == old(self).text_view(),
            final(self).data_view() == old(self).data_view(),
            final(self).strtab_view() == old(self).strtab_view(),
            final(self).labels() == old(self).labels(),
    {
        let id = self.next_id(Section::Rodata);
        self.rodata.push(Block::with_items(id, Section::Rodata, items));
        assert(self.rodata_view().drop_last() =~= old(self).rodata_view());
        id
    }

    /// The read-only data block with id `id`.
    pub fn get_rodata(&self, id: usize) -> (b: &Block<Word>)
        requires
            self.wf(),
            id < self.types().len(),
            self.types()[id as int].0 == Section::Rodata,
        ensures
            *b == self.rodata_view()[self.types()[id as int].1 as int],
    {
        let (_, section_id) = self.block_types[id];
        &self.rodata[section_id]
    }

    /// The read-only data block with id `id`, to change.
    pub fn get_rodata_mut(&mut self, id: usize) -> (b: &mut Block<Word>)
        requires
            old(self).wf(),
            id < old(self).types().len(),
            old(self).types()[id as int].0 == Section::Rodata,
        ensures
            *b == old(self).rodata_view()[old(self).types()[id as int].1 as int],
            final(self).rodata_view() == old(self).rodata_view().update(old(self).types()[id as int].1 as int, *final(b)),
            final(self).wf(),
            final(self).types() == old(self).types(),
            final(self).text_view() == old(self).text_view(),
            final(self).data_view() == old(self).data_view(),
            final(self).strtab_view() == old(self).strtab_view(),
            final(self).labels() == old(self).labels(),
    {
        let (_, section_id) = self.block_types[id];
        &mut self.rodata[section_id]
    }

    pub fn rodata_blocks(&self) -> (r: &[Block<Word>])
        ensures
            r@ == self.rodata_view(),
    {
        self.rodata.as_slice()
    }

    pub fn rodata_blocks_mut(&mut self) -> (r: &mut [Block<Word>])
        ensures
            r@ == old(self).rodata_view(),
            final(self).rodata_view() == final(r)@,
            final(self).types() == old(self).types(),
            final(self).text_view() == old(self).text_view(),
            final(self).data_view() == old(self).data_view(),
            final(self).strtab_view() == old(self).strtab_view(),
            final(self).labels() == old(self).labels(),
    {
        self.rodata.as_mut_slice()
    }

    /// Adds an empty string table block and hands it out.
    pub fn new_strtab(&mut self) -> (b: &mut Block<String>)
        requires
            old(self).wf(),
        ensures
            b.block_id() == old(self).types().len(),
            b.spec_section() == Section::Strtab,
            b.view() == Seq::<String>::empty(),
            final(self).wf(),
            final(self).types() == old(self).types().push((Section::Strtab, old(self).strtab_view().len() as usize)),
            final(self).strtab_view() == old(self).strtab_view().push(*final(b)),
            final(self).text_view() == old(self).text_view(),
            final(self).data_view() == old(self).data_view(),
            final(self).rodata_view() == old(self).rodata_view(),
            final(self).labels() == old(self).labels(),
    {
        let id = self.next_id(Section::Strtab);
        self.strtab.push(Block::new(id, Section::Strtab));
        let last = self.strtab.len() - 1;
        &mut self.strtab[last]
    }

    /// Adds a string table block holding `items` and returns its id.
    pub fn push_strtab(&mut self, items: Vec<String>) -> (id: usize)
        requires
            old(self).wf(),
        ensures
            id == old(self).types().len(),
            final(self).wf(),
            final(self).types() == old(self).types().push((Section::Strtab, old(self).strtab_view().len() as usize)),
            final(self).strtab_view().len() == old(self).strtab_view().len() + 1,
            final(self).strtab_view().drop_last() == old(self).strtab_view(),
            final(self).strtab_view().last().block_id() == id,
            final(self).strtab_view().last().spec_section() == Section::Strtab,
            final(self).strtab_view().last().view() == items@,
            final(self).text_view() == old(self).text_view(),
            final(self).data_view() == old(self).data_view(),
            final(self).rodata_view() == old(self).rodata_view(),
            final(self).labels() == old(self).labels(),
    {
        let id = self.next_id(Section::Strtab);
        self.strtab.push(Block::with_items(id, Section::Strtab, items));
        assert(self.strtab_view().drop_last() =~= old(self).strtab_view());
        id
    }

    /// The string table block with id `id`.
    pub fn get_strtab(&self, id: usize) -> (b: &Block<String>)
        requires
            self.wf(),
            id < self.types().len(),
            self.types()[id as int].0 == Section::Strtab,
        ensures
            *b == self.strtab_view()[self.types()[id as int].1 as int],
    {
        let (_, section_id) = self.block_types[id];
        &self.strtab[section_id]
    }

    /// The string table block with id `id`, to change.
    pub fn get_strtab_mut(&mut self, id: usize) -> (b: &mut Block<String>)
        requires
            old(self).wf(),
            id < old(self).types().len(),
            old(self).types()[id as int].0 == Section::Strtab,
        ensures
            *b == old(self).strtab_view()[old(self).types()[id as int].1 as int],
            final(self).strtab_view() == old(self).strtab_view().update(old(self).types()[id as int].1 as int, *final(b)),
            final(self).wf(),
            final(self).types() == old(self).types(),
            final(self).text_view() == old(self).text_view(),
            final(self).data_view() == old(self).data_view(),
            final(self).rodata_view() == old(self).rodata_view(),
            final(self).labels() == old(self).labels(),
    {
        let (_, section_id) = self.block_types[id];
        &mut self.strtab[section_id]
    }

    pub fn strtab_blocks(&self) -> (r: &[Block<String>])
        ensures
            r@ == self.strtab_view(),
    {
        self.strtab.as_slice()
    }

    pub fn strtab_blocks_mut(&mut self) -> (r: &mut [Block<String>])
        ensures
            r@ == old(self).strtab_view(),
            final(self).strtab_view() == final(r)@,
            final(self).types() == old(self).types(),
            final(self).text_view() == old(self).text_view(),
            final(self).data_view() == old(self).data_view(),
            final(self).rodata_view() == old(self).rodata_view(),
            final(self).labels() == old(self).labels(),
    {
        self.strtab.as_mut_slice()
    }
}

impl<Word: WordTrait> Default for Sections<Word> {
    fn default() -> (s: Self)
        ensures
            s.wf(),
            s.types() == Seq::<(Section, usize)>::empty(),
            s.labels() == Map::<Seq<char>, BlockAddress>::empty(),
    {
        Self::new()
    }
}

} // verus!
