use vstd::prelude::*;

use super::ordered_map::concrete_eq;

verus! {

/// The map that a sequence of bindings denotes: later bindings shadow earlier ones.
pub open spec fn bindings_map<K, V>(s: Seq<(K, V)>) -> Map<K, V>
    decreases s.len(),
{
    if s.len() == 0 {
        Map::empty()
    } else {
        bindings_map(s.drop_last()).insert(s.last().0, s.last().1)
    }
}

/// The keys of a sequence of bindings.
pub open spec fn binding_keys<K, V>(s: Seq<(K, V)>) -> Seq<K> {
    s.map_values(|e: (K, V)| e.0)
}

/// How many different keys a sequence of bindings holds.
pub open spec fn distinct_key_count<K, V>(s: Seq<(K, V)>) -> nat
    decreases s.len(),
{
    if s.len() == 0 {
        0
    } else {
        distinct_key_count(s.drop_last()) + if binding_keys(s.drop_last()).contains(s.last().0) {
            0nat
        } else {
            1nat
        }
    }
}

/// Whether the binding at `i` is the last one for its key (the visible one).
pub open spec fn is_visible<K, V>(s: Seq<(K, V)>, i: int) -> bool {
    forall|j: int| i < j < s.len() ==> #[trigger] s[j].0 != s[i].0
}

/// A stack of maps. Lookups see the most recently pushed binding of a key;
/// popping a map removes exactly the bindings it brought.
#[derive(Debug, Clone)]
pub struct ChainMap<K, V> {
    bindings: Vec<(K, V)>,
    pop_index: Vec<usize>,
}

impl<K, V> ChainMap<K, V> {
    /// Chain starts are ascending and lie inside the bindings.
    pub closed spec fn wf(self) -> bool {
        &&& self.bindings@.len() <= usize::MAX
        &&& forall|i: int| 0 <= i < self.pop_index@.len() ==> #[trigger] self.pop_index@[i] <= self.bindings@.len()
        &&& forall|i: int, j: int| 0 <= i < j < self.pop_index@.len() ==> #[trigger] self.pop_index@[i] <= #[trigger] self.pop_index@[j]
    }

    /// Every binding pushed so far and not popped, oldest first.
    pub closed spec fn bindings(self) -> Seq<(K, V)> {
        self.bindings@
    }

    /// Where each pushed map starts in `bindings`.
    pub closed spec fn chain_starts(self) -> Seq<usize> {
        self.pop_index@
    }

    /// The map the chain denotes.
    pub open spec fn view(self) -> Map<K, V> {
        bindings_map(self.bindings())
    }

    pub fn new() -> (m: Self)
        ensures
            m.wf(),
            m.bindings() == Seq::<(K, V)>::empty(),
            m.chain_starts() == Seq::<usize>::empty(),
    {
        ChainMap { bindings: Vec::new(), pop_index: Vec::new() }
    }

    pub fn with_capacity(capacity: usize) -> (m: Self)
        ensures
            m.wf(),
            m.bindings() == Seq::<(K, V)>::empty(),
            m.chain_starts() == Seq::<usize>::empty(),
    {
        ChainMap { bindings: Vec::with_capacity(capacity), pop_index: Vec::new() }
    }

    pub fn chain_len(&self) -> (n: usize)
        ensures
            n == self.chain_starts().len(),
    {
        self.pop_index.len()
    }

    pub fn value_len(&self) -> (n: usize)
        ensures
            n == self.bindings().len(),
    {
        self.bindings.len()
    }

    /// Pushes a new map on top of the chain.
    pub fn push_chain(&mut self, map: Vec<(K, V)>)
        requires
            old(self).wf(),
            old(self).bindings().len() + map@.len() <= usize::MAX,
        ensures
            final(self).wf(),
            final(self).bindings() == old(self).bindings() + map@,
            final(self).chain_starts() == old(self).chain_starts().push(
                old(self).bindings().len() as usize,
            ),
    {
        let start_index = self.bindings.len();
        self.pop_index.push(start_index);
        let mut map = map;
        self.bindings.append(&mut map);
    }

    /// Removes the most recently pushed map. The chain must not be empty.
    pub fn pop_chain(&mut self)
        requires
            old(self).wf(),
            old(self).chain_starts().len() > 0,
        ensures
            final(self).wf(),
            final(self).chain_starts() == old(self).chain_starts().drop_last(),
            final(self).bindings() == old(self).bindings().take(
                old(self).chain_starts().last() as int,
            ),
    {
        let value_start = self.pop_index.pop().unwrap();
        self.bindings.truncate(value_start);
    }
}

/// The lookups below compare keys with `==`. Their results are stated for key
/// types whose `==` agrees with equality (`concrete_eq`); with any other key
/// type they still return, and only what holds of every outcome is stated.
impl<K: PartialEq, V> ChainMap<K, V> {
    /// Index of the last binding of `key`, if any.
    fn last_index_of(&self, key: &K) -> (r: Option<usize>)
        ensures
            r matches Some(i) ==> i < self.bindings().len(),
            concrete_eq::<K>() ==> (r is None <==> !binding_keys(self.bindings()).contains(*key)),
            concrete_eq::<K>() ==> (r matches Some(i) ==> self.bindings()[i as int].0 == *key
                && is_visible(self.bindings(), i as int)),
    {
        let mut i: usize = self.bindings.len();
        while i > 0
            invariant
                i <= self.bindings@.len(),
                concrete_eq::<K>() ==> forall|j: int| i <= j < self.bindings@.len() ==> #[trigger] self.bindings@[j].0 != *key,
            decreases i,
        {
            if self.bindings[i - 1].0 == *key {
                proof {
                    if concrete_eq::<K>() {
                        assert(binding_keys(self.bindings@)[i - 1] == *key);
                    }
                }
                return Some(i - 1);
            }
            i = i - 1;
        }
        proof {
            if concrete_eq::<K>() && binding_keys(self.bindings@).contains(*key) {
                let j = choose|j: int|
                    0 <= j < binding_keys(self.bindings@).len() && binding_keys(self.bindings@)[j]
                        == *key;
                assert(self.bindings@[j].0 == *key);
            }
        }
        None
    }

    pub fn contains_key(&self, key: &K) -> (r: bool)
        ensures
            concrete_eq::<K>() ==> r == self.view().contains_key(*key),
    {
        proof {
            lemma_bindings_map_dom(self.bindings());
        }
        self.last_index_of(key).is_some()
    }

    /// The value of the most recent binding of `key`.
    pub fn get(&self, key: &K) -> (r: Option<&V>)
        ensures
            concrete_eq::<K>() ==> (r is None <==> !self.view().contains_key(*key)),
            concrete_eq::<K>() ==> (r matches Some(v) ==> *v == self.view()[*key]),
    {
        proof {
            lemma_bindings_map_dom(self.bindings());
        }
        match self.last_index_of(key) {
            Some(i) => {
                proof {
                    if concrete_eq::<K>() {
                        lemma_bindings_map_visible(self.bindings(), i as int);
                    }
                }
                Some(&self.bindings[i].1)
            },
            None => None,
        }
    }

    /// Whether the binding at index `i` is the last one for its key.
    fn visible_at(&self, i: usize) -> (r: bool)
        requires
            i < self.bindings().len(),
        ensures
            concrete_eq::<K>() ==> r == is_visible(self.bindings(), i as int),
    {
        let n = self.bindings.len();
        let mut j: usize = i + 1;
        while j < n
            invariant
                i < j <= self.bindings@.len(),
                n == self.bindings@.len(),
                concrete_eq::<K>() ==> forall|k: int| i < k < j ==> #[trigger] self.bindings@[k].0 != self.bindings@[i as int].0,
            decreases self.bindings@.len() - j,
        {
            if self.bindings[j].0 == self.bindings[i].0 {
                return false;
            }
            j = j + 1;
        }
        true
    }

    /// The number of keys that have a binding.
    pub fn len(&self) -> (n: usize)
        ensures
            n <= self.bindings().len(),
            concrete_eq::<K>() ==> n == distinct_key_count(self.bindings()),
            concrete_eq::<K>() ==> n == self.view().dom().len(),
    {
        proof {
            lemma_distinct_key_count(self.bindings());
        }
        let mut count: usize = 0;
        let mut i: usize = 0;
        while i < self.bindings.len()
            invariant
                i <= self.bindings@.len(),
                concrete_eq::<K>() ==> count == distinct_key_count(self.bindings@.take(i as int)),
                count <= i,
            decreases self.bindings@.len() - i,
        {
            let seen = self.key_in_prefix(i);
            proof {
                let t = self.bindings@.take(i + 1);
                assert(t.drop_last() =~= self.bindings@.take(i as int));
                assert(t.last() == self.bindings@[i as int]);
            }
            if !seen {
                count = count + 1;
            }
            i = i + 1;
        }
        proof {
            assert(self.bindings@.take(self.bindings@.len() as int) =~= self.bindings@);
        }
        count
    }

    /// Whether the key of binding `i` occurs in an earlier binding.
    fn key_in_prefix(&self, i: usize) -> (r: bool)
        requires
            i < self.bindings().len(),
        ensures
            concrete_eq::<K>() ==> r == binding_keys(self.bindings().take(i as int)).contains(self.bindings()[i as int].0),
    {
        let ghost pre = binding_keys(self.bindings@.take(i as int));
        let mut j: usize = 0;
        while j < i
            invariant
                j <= i < self.bindings@.len(),
                pre == binding_keys(self.bindings@.take(i as int)),
                concrete_eq::<K>() ==> forall|k: int| 0 <= k < j ==> #[trigger] self.bindings@[k].0 != self.bindings@[i as int].0,
            decreases i - j,
        {
            if self.bindings[j].0 == self.bindings[i].0 {
                proof {
                    if concrete_eq::<K>() {
                        assert(pre[j as int] == self.bindings@[i as int].0);
                    }
                }
                return true;
            }
            j = j + 1;
        }
        proof {
            if concrete_eq::<K>() && pre.contains(self.bindings@[i as int].0) {
                let k = choose|k: int| 0 <= k < pre.len() && pre[k] == self.bindings@[i as int].0;
                assert(self.bindings@[k].0 != self.bindings@[i as int].0);
            }
        }
        false
    }

    pub fn is_empty(&self) -> (r: bool)
        ensures
            concrete_eq::<K>() ==> r == (distinct_key_count(self.bindings()) == 0),
            concrete_eq::<K>() ==> r == (self.view().dom().len() == 0),
    {
        self.len() == 0
    }

    /// The keys that have a binding, each once.
    pub fn keys(&self) -> (r: Vec<&K>)
        ensures
            concrete_eq::<K>() ==> forall|i: int| 0 <= i < r@.len() ==> self.view().contains_key(*#[trigger] r@[i]),
            concrete_eq::<K>() ==> forall|k: K| self.view().contains_key(k) ==> exists|i: int| 0 <= i < r@.len() && *#[trigger] r@[i] == k,
            concrete_eq::<K>() ==> forall|i: int, j: int| 0 <= i < j < r@.len() ==> *#[trigger] r@[i] != *#[trigger] r@[j],
    {
        let mut r: Vec<&K> = Vec::new();
        let ghost mut idx: Seq<int> = Seq::empty();
        let mut i: usize = 0;
        proof {
            lemma_bindings_map_dom(self.bindings());
        }
        while i < self.bindings.len()
            invariant
                i <= self.bindings@.len(),
                idx.len() == r@.len(),
                forall|m: int| 0 <= m < r@.len() ==> 0 <= #[trigger] idx[m] < i,
                concrete_eq::<K>() ==> forall|m: int| 0 <= m < r@.len() ==> is_visible(self.bindings@, #[trigger] idx[m]),
                forall|m: int| 0 <= m < r@.len() ==> #[trigger] r@[m] == &self.bindings@[idx[m]].0,
                forall|a: int, b: int| 0 <= a < b < r@.len() ==> #[trigger] idx[a] < #[trigger] idx[b],
                concrete_eq::<K>() ==> forall|j: int| 0 <= j < i && is_visible(self.bindings@, j) ==> exists|m: int| 0 <= m < r@.len() && #[trigger] idx[m] == j,
            decreases self.bindings@.len() - i,
        {
            let vis = self.visible_at(i);
            let ghost old_idx = idx;
            if vis {
                r.push(&self.bindings[i].0);
                proof {
                    idx = idx.push(i as int);
                    if concrete_eq::<K>() {
                    assert forall|j: int| 0 <= j < i + 1 && is_visible(self.bindings@, j) implies exists|m: int| 0 <= m < r@.len() && #[trigger] idx[m] == j by {
                        if j < i {
                            let m = choose|m: int| 0 <= m < old_idx.len() && old_idx[m] == j;
                            assert(idx[m] == old_idx[m]);
                        } else {
                            assert(idx[old_idx.len() as int] == j);
                        }
                    }
                    }
                }
            }
            i = i + 1;
        }
        proof {
            if concrete_eq::<K>() {
            assert forall|k: K| self.view().contains_key(k) implies exists|i: int| 0 <= i < r@.len() && *#[trigger] r@[i] == k by {
                let j = lemma_last_binding(self.bindings@, k);
                let m = choose|m: int| 0 <= m < r@.len() && idx[m] == j;
                assert(*r@[m] == k);
            }
            assert forall|m: int| 0 <= m < r@.len() implies self.view().contains_key(*#[trigger] r@[m]) by {
                assert(binding_keys(self.bindings@)[idx[m]] == self.bindings@[idx[m]].0);
            }
            assert forall|a: int, b: int| 0 <= a < b < r@.len() implies *#[trigger] r@[a] != *#[trigger] r@[b] by {
                assert(idx[a] < idx[b]);
                assert(is_visible(self.bindings@, idx[a]));
                assert(self.bindings@[idx[b]].0 != self.bindings@[idx[a]].0);
            }
            }
        }
        r
    }
}

/// A key is bound exactly when some binding mentions it.
pub proof fn lemma_bindings_map_dom<K, V>(s: Seq<(K, V)>)
    ensures
        forall|k: K| #[trigger] bindings_map(s).contains_key(k) <==> binding_keys(s).contains(k),
    decreases s.len(),
{
    if s.len() > 0 {
        let p = s.drop_last();
        lemma_bindings_map_dom(p);
        assert(bindings_map(s) == bindings_map(p).insert(s.last().0, s.last().1));
        assert(binding_keys(s) =~= binding_keys(p).push(s.last().0));
        assert forall|k: K| #[trigger] bindings_map(s).contains_key(k) <==> binding_keys(s).contains(k) by {
            if k == s.last().0 {
                assert(binding_keys(s)[s.len() - 1] == k);
            } else {
                if binding_keys(s).contains(k) {
                    let i = choose|i: int| 0 <= i < binding_keys(s).len() && binding_keys(s)[i] == k;
                    assert(binding_keys(p)[i] == k);
                }
                if binding_keys(p).contains(k) {
                    let i = choose|i: int| 0 <= i < binding_keys(p).len() && binding_keys(p)[i] == k;
                    assert(binding_keys(s)[i] == k);
                }
            }
        }
    } else {
        assert(binding_keys(s) =~= Seq::<K>::empty());
    }
}

/// The number of different keys is the size of the map the bindings denote.
pub proof fn lemma_distinct_key_count<K, V>(s: Seq<(K, V)>)
    ensures
        bindings_map(s).dom().finite(),
        distinct_key_count(s) == bindings_map(s).dom().len(),
    decreases s.len(),
{
    if s.len() > 0 {
        let p = s.drop_last();
        lemma_distinct_key_count(p);
        lemma_bindings_map_dom(p);
        assert(bindings_map(s).dom() =~= bindings_map(p).dom().insert(s.last().0));
    } else {
        assert(bindings_map(s).dom() =~= Set::<K>::empty());
    }
}

/// The value bound to the key of a visible binding is that binding's value.
pub proof fn lemma_bindings_map_visible<K, V>(s: Seq<(K, V)>, i: int)
    requires
        0 <= i < s.len(),
        is_visible(s, i),
    ensures
        bindings_map(s).contains_key(s[i].0),
        bindings_map(s)[s[i].0] == s[i].1,
    decreases s.len(),
{
    if i < s.len() - 1 {
        assert(s.drop_last()[i] == s[i]);
        assert(s[s.len() - 1].0 != s[i].0);
        lemma_bindings_map_visible(s.drop_last(), i);
    }
}

/// Every bound key has a visible binding.
pub proof fn lemma_last_binding<K, V>(s: Seq<(K, V)>, k: K) -> (i: int)
    requires
        bindings_map(s).contains_key(k),
    ensures
        0 <= i < s.len(),
        s[i].0 == k,
        is_visible(s, i),
    decreases s.len(),
{
    if s.last().0 == k {
        s.len() - 1
    } else {
        let i = lemma_last_binding(s.drop_last(), k);
        assert(s.drop_last()[i] == s[i]);
        assert forall|j: int| i < j < s.len() implies #[trigger] s[j].0 != s[i].0 by {
            if j < s.len() - 1 {
                assert(s.drop_last()[j] == s[j]);
            }
        }
        i
    }
}

/// The chain's bindings fit in memory.
pub proof fn reveal_wf<K, V>(c: ChainMap<K, V>)
    requires
        c.wf(),
    ensures
        c.bindings().len() <= usize::MAX,
{
}

/// Pushing a map and popping it again restores the chain exactly.
pub proof fn lemma_push_pop<K, V>(
    before: ChainMap<K, V>,
    pushed: ChainMap<K, V>,
    popped: ChainMap<K, V>,
    map: Seq<(K, V)>,
)
    requires
        before.wf(),
        pushed.bindings() == before.bindings() + map,
        pushed.chain_starts() == before.chain_starts().push(before.bindings().len() as usize),
        popped.chain_starts() == pushed.chain_starts().drop_last(),
        popped.bindings() == pushed.bindings().take(pushed.chain_starts().last() as int),
    ensures
        popped.bindings() == before.bindings(),
        popped.chain_starts() == before.chain_starts(),
        popped.view() == before.view(),
{
    reveal_wf(before);
    assert(pushed.chain_starts().last() == before.bindings().len());
    assert(popped.bindings() =~= before.bindings());
    assert(popped.chain_starts() =~= before.chain_starts());
}

/// After pushing a map, a key it binds reads back the value it binds last.
pub proof fn lemma_push_shadows<K, V>(before: ChainMap<K, V>, pushed: ChainMap<K, V>, map: Seq<(K, V)>, i: int)
    requires
        pushed.bindings() == before.bindings() + map,
        0 <= i < map.len(),
        is_visible(map, i),
    ensures
        pushed.view().contains_key(map[i].0),
        pushed.view()[map[i].0] == map[i].1,
{
    let s = pushed.bindings();
    let n = before.bindings().len();
    assert(s[n + i] == map[i]);
    assert forall|j: int| n + i < j < s.len() implies #[trigger] s[j].0 != s[n + i].0 by {
        assert(s[j] == map[j - n]);
    }
    lemma_bindings_map_visible(s, n + i);
}

} // verus!
