use vstd::prelude::*;
use vstd::std_specs::cmp::PartialEqSpec;

verus! {

/// `==` on `K` agrees with spec equality.
pub open spec fn concrete_eq<K: PartialEq>() -> bool {
    &&& K::obeys_eq_spec()
    &&& forall|a: K, b: K| #[trigger] a.eq_spec(&b) <==> (a == b)
}

/// The first index at which `k` occurs in `keys`, if any.
pub open spec fn index_of<K>(keys: Seq<K>, k: K) -> Option<int> {
    if keys.contains(k) {
        Some(choose|i: int| 0 <= i < keys.len() && keys[i] == k)
    } else {
        None
    }
}

/// Position of `k` in `keys`, found by a linear scan.
pub fn find_key<K: PartialEq>(keys: &Vec<K>, k: &K) -> (r: Option<usize>)
    requires
        concrete_eq::<K>(),
    ensures
        r matches Some(i) ==> i < keys@.len() && keys@[i as int] == *k,
        r is None <==> !keys@.contains(*k),
{
    let mut i: usize = 0;
    while i < keys.len()
        invariant
            concrete_eq::<K>(),
            i <= keys@.len(),
            forall|j: int| 0 <= j < i ==> keys@[j] != *k,
        decreases keys@.len() - i,
    {
        if keys[i] == *k {
            return Some(i);
        }
        i = i + 1;
    }
    proof {
        if keys@.contains(*k) {
            let j = choose|j: int| 0 <= j < keys@.len() && keys@[j] == *k;
            assert(keys@[j] != *k);
        }
    }
    None
}

/// A map that remembers insertion order: each key gets the index of the slot
/// it was first inserted into, and values can be read back by that index.
#[derive(Debug)]
pub struct OrderedMap<K, V> {
    keys: Vec<K>,
    items: Vec<V>,
}

impl<K, V> OrderedMap<K, V> {
    /// Keys and values line up one to one and no key occurs twice.
    pub closed spec fn wf(self) -> bool {
        &&& self.keys@.len() == self.items@.len()
        &&& self.keys@.no_duplicates()
    }

    /// The keys, in insertion order.
    pub closed spec fn key_seq(self) -> Seq<K> {
        self.keys@
    }

    /// The values, in insertion order.
    pub closed spec fn value_seq(self) -> Seq<V> {
        self.items@
    }

    pub fn new() -> (m: Self)
        ensures
            m.wf(),
            m.key_seq() == Seq::<K>::empty(),
            m.value_seq() == Seq::<V>::empty(),
    {
        OrderedMap { keys: Vec::new(), items: Vec::new() }
    }

    pub fn len(&self) -> (n: usize)
        ensures
            n == self.value_seq().len(),
    {
        self.items.len()
    }

    pub fn get_by_index(&self, index: usize) -> (r: Option<&V>)
        ensures
            index < self.value_seq().len() ==> r == Some(&self.value_seq()[index as int]),
            index >= self.value_seq().len() ==> r is None,
    {
        if index < self.items.len() {
            Some(&self.items[index])
        } else {
            None
        }
    }

    /// All keys, in insertion order.
    pub fn keys(&self) -> (r: &[K])
        ensures
            r@ == self.key_seq(),
    {
        self.keys.as_slice()
    }

    /// All values, in insertion order.
    pub fn values(&self) -> (r: &[V])
        ensures
            r@ == self.value_seq(),
    {
        self.items.as_slice()
    }

    /// All values, in insertion order, to be changed in place.
    pub fn values_mut(&mut self) -> (r: &mut [V])
        ensures
            r@ == old(self).value_seq(),
            final(self).key_seq() == old(self).key_seq(),
            final(self).value_seq() == final(r)@,
    {
        self.items.as_mut_slice()
    }

    pub fn into_values(self) -> (r: Vec<V>)
        ensures
            r@ == self.value_seq(),
    {
        self.items
    }
}

impl<K, V: Copy> OrderedMap<K, V> {
    /// All values paired with their index.
    pub fn value_indices(&self) -> (r: Vec<(usize, V)>)
        ensures
            r@.len() == self.value_seq().len(),
            forall|i: int| 0 <= i < r@.len() ==> (#[trigger] r@[i]).0 == i && r@[i].1 == self.value_seq()[i],
    {
        let mut r: Vec<(usize, V)> = Vec::new();
        let mut i: usize = 0;
        while i < self.items.len()
            invariant
                i <= self.items@.len(),
                r@.len() == i,
                forall|j: int| 0 <= j < i ==> (#[trigger] r@[j]).0 == j && r@[j].1 == self.items@[j],
            decreases self.items@.len() - i,
        {
            let ghost old_r = r@;
            let v = self.items[i];
            r.push((i, v));
            assert(r@[i as int].0 == i);
            assert(v == self.items@[i as int]);
            assert(r@[i as int].1 == self.items@[i as int]);
            assert(forall|j: int| 0 <= j < i ==> r@[j] == old_r[j]);
            i = i + 1;
        }
        r
    }
}

impl<K: PartialEq, V> OrderedMap<K, V> {
    pub fn contains_key(&self, key: &K) -> (r: bool)
        requires
            concrete_eq::<K>(),
        ensures
            r == self.key_seq().contains(*key),
    {
        find_key(&self.keys, key).is_some()
    }

    /// The value stored under `key`, to be changed in place.
    pub fn get_mut(&mut self, key: &K) -> (r: Option<&mut V>)
        requires
            concrete_eq::<K>(),
            old(self).wf(),
        ensures
            r is None <==> !old(self).key_seq().contains(*key),
            r is None ==> final(self).key_seq() == old(self).key_seq() && final(self).value_seq() == old(self).value_seq(),
            r matches Some(v) ==> {
                let i = index_of(old(self).key_seq(), *key)->0;
                &&& *v == old(self).value_seq()[i]
                &&& final(self).key_seq() == old(self).key_seq()
                &&& final(self).value_seq() == old(self).value_seq().update(i, *final(v))
            },
    {
        match find_key(&self.keys, key) {
            Some(i) => {
                proof {
                    let j = index_of(self.keys@, *key)->0;
                    assert(self.keys@[j] == *key);
                    if j != i {
                        assert(self.keys@[j] != self.keys@[i as int]);
                    }
                }
                Some(&mut self.items[i])
            },
            None => None,
        }
    }

    pub fn get_index(&self, key: &K) -> (r: Option<usize>)
        requires
            concrete_eq::<K>(),
        ensures
            r is None <==> !self.key_seq().contains(*key),
            r matches Some(i) ==> i < self.key_seq().len() && self.key_seq()[i as int] == *key,
    {
        find_key(&self.keys, key)
    }

    pub fn get(&self, key: &K) -> (r: Option<&V>)
        requires
            concrete_eq::<K>(),
            self.wf(),
        ensures
            r is None <==> !self.key_seq().contains(*key),
            r matches Some(v) ==> forall|i: int|
                0 <= i < self.key_seq().len() && self.key_seq()[i] == *key ==> *v
                    == self.value_seq()[i],
    {
        match find_key(&self.keys, key) {
            Some(i) => {
                assert forall|j: int|
                    0 <= j < self.keys@.len() && self.keys@[j] == *key implies j == i by {
                    if j != i {
                        assert(self.keys@[j] != self.keys@[i as int]);
                    }
                }
                Some(&self.items[i])
            },
            None => None,
        }
    }

    pub fn get_entry(&self, key: &K) -> (r: Option<(usize, &V)>)
        requires
            concrete_eq::<K>(),
            self.wf(),
        ensures
            r is None <==> !self.key_seq().contains(*key),
            r matches Some(e) ==> e.0 < self.key_seq().len() && self.key_seq()[e.0 as int] == *key
                && *e.1 == self.value_seq()[e.0 as int],
    {
        match find_key(&self.keys, key) {
            Some(i) => Some((i, &self.items[i])),
            None => None,
        }
    }

    /// Inserts `value` under `key`. A new key is appended and its index returned;
    /// for a key already present the value is replaced in place and the old value
    /// is handed back.
    pub fn insert(&mut self, key: K, value: V) -> (r: Result<usize, V>)
        requires
            concrete_eq::<K>(),
            old(self).wf(),
        ensures
            final(self).wf(),
            !old(self).key_seq().contains(key) ==> {
                &&& r == Ok::<usize, V>(old(self).key_seq().len() as usize)
                &&& final(self).key_seq() == old(self).key_seq().push(key)
                &&& final(self).value_seq() == old(self).value_seq().push(value)
            },
            old(self).key_seq().contains(key) ==> exists|i: int|
                0 <= i < old(self).key_seq().len() && old(self).key_seq()[i] == key && r
                    == Err::<usize, V>(old(self).value_seq()[i]) && final(self).key_seq() == old(
                    self,
                ).key_seq() && final(self).value_seq() == old(self).value_seq().update(i, value),
    {
        match find_key(&self.keys, &key) {
            Some(i) => {
                let mut old_value = value;
                std::mem::swap(&mut self.items[i], &mut old_value);
                Err(old_value)
            },
            None => {
                let index = self.items.len();
                proof {
                    assert forall|a: int, b: int|
                        0 <= a < b < self.keys@.len() + 1 implies self.keys@.push(key)[a]
                        != self.keys@.push(key)[b] by {
                        if b == self.keys@.len() {
                            assert(self.keys@.contains(self.keys@[a]));
                        }
                    }
                }
                self.items.push(value);
                self.keys.push(key);
                Ok(index)
            },
        }
    }

    /// Inserts only where `key` is absent; returns whether it inserted.
    pub fn insert_new(&mut self, key: K, value: V) -> (r: bool)
        requires
            concrete_eq::<K>(),
            old(self).wf(),
        ensures
            final(self).wf(),
            r == !old(self).key_seq().contains(key),
            r ==> final(self).key_seq() == old(self).key_seq().push(key) && final(self).value_seq()
                == old(self).value_seq().push(value),
            !r ==> final(self).key_seq() == old(self).key_seq() && final(self).value_seq() == old(
                self,
            ).value_seq(),
    {
        if self.contains_key(&key) {
            false
        } else {
            let _ = self.insert(key, value);
            true
        }
    }
}

/// No key of a well-formed map appears twice.
pub proof fn lemma_keys_distinct<K, V>(m: OrderedMap<K, V>)
    requires
        m.wf(),
    ensures
        m.key_seq().no_duplicates(),
        m.key_seq().len() == m.value_seq().len(),
{
}

/// What `get` reads back after `insert` is the inserted value.
pub proof fn lemma_insert_then_get<K, V>(
    before: OrderedMap<K, V>,
    after: OrderedMap<K, V>,
    key: K,
    value: V,
)
    requires
        before.wf(),
        !before.key_seq().contains(key),
        after.key_seq() == before.key_seq().push(key),
        after.value_seq() == before.value_seq().push(value),
    ensures
        after.key_seq()[before.key_seq().len() as int] == key,
        after.value_seq()[before.key_seq().len() as int] == value,
        after.key_seq().contains(key),
{
    assert(after.key_seq()[before.key_seq().len() as int] == key);
}

} // verus!
