use vstd::prelude::*;

use super::text::string_from_chars;

verus! {

/// Hands out one small number per distinct string, in order of first sight.
#[derive(Debug)]
pub struct Interner {
    items: Vec<String>,
}

impl Interner {
    /// The strings interned so far; a string's number is its index.
    pub closed spec fn view(&self) -> Seq<Seq<char>> {
        self.items@.map_values(|s: String| s@)
    }

    /// No string is interned twice.
    pub closed spec fn wf(&self) -> bool {
        self.view().no_duplicates()
    }

    pub fn new() -> (r: Self)
        ensures
            r.wf(),
            r.view() == Seq::<Seq<char>>::empty(),
    {
        let r = Interner { items: Vec::new() };
        proof {
            assert(r.view() =~= Seq::<Seq<char>>::empty());
        }
        r
    }

    pub fn len(&self) -> (n: usize)
        ensures
            n == self.view().len(),
    {
        self.items.len()
    }

    /// The number of a string, where it has one.
    pub fn get_index(&self, s: &String) -> (r: Option<usize>)
        ensures
            r is None <==> !self.view().contains(s@),
            r matches Some(i) ==> i < self.view().len() && self.view()[i as int] == s@,
    {
        let mut i: usize = 0;
        while i < self.items.len()
            invariant
                i <= self.items@.len(),
                forall|j: int| 0 <= j < i ==> #[trigger] self.view()[j] != s@,
            decreases self.items@.len() - i,
        {
            if self.items[i] == *s {
                proof {
                    assert(self.view()[i as int] == s@);
                }
                return Some(i);
            }
            i = i + 1;
        }
        proof {
            if self.view().contains(s@) {
                let j = choose|j: int| 0 <= j < self.view().len() && self.view()[j] == s@;
                assert(self.view()[j] != s@);
            }
        }
        None
    }

    /// The string with a number.
    pub fn get(&self, id: usize) -> (r: Option<&String>)
        ensures
            id < self.view().len() ==> (r matches Some(s) && s@ == self.view()[id as int]),
            id >= self.view().len() ==> r is None,
    {
        if id < self.items.len() {
            Some(&self.items[id])
        } else {
            None
        }
    }

    /// The number of `s`, giving it the next free number if it has none.
    pub fn intern(&mut self, s: String) -> (id: usize)
        requires
            old(self).wf(),
        ensures
            final(self).wf(),
            old(self).view().contains(s@) ==> final(self).view() == old(self).view(),
            !old(self).view().contains(s@) ==> final(self).view() == old(self).view().push(s@),
            id < final(self).view().len(),
            final(self).view()[id as int] == s@,
    {
        match self.get_index(&s) {
            Some(i) => i,
            None => {
                let id = self.items.len();
                let ghost old_view = self.view();
                self.items.push(s);
                proof {
                    assert(self.view() =~= old_view.push(s@));
                    assert forall|a: int, b: int|
                        0 <= a < b < self.view().len() implies self.view()[a] != self.view()[b] by {
                        if b == old_view.len() {
                            assert(old_view.contains(old_view[a]));
                        }
                    }
                }
                id
            },
        }
    }

    /// Like `intern`, for a string given as characters.
    pub fn intern_ref(&mut self, cs: &[char]) -> (id: usize)
        requires
            old(self).wf(),
        ensures
            final(self).wf(),
            old(self).view().contains(cs@) ==> final(self).view() == old(self).view(),
            !old(self).view().contains(cs@) ==> final(self).view() == old(self).view().push(cs@),
            id < final(self).view().len(),
            final(self).view()[id as int] == cs@,
    {
        let s = string_from_chars(cs);
        self.intern(s)
    }
}

/// A well-formed interner holds no string twice.
pub proof fn lemma_interner_distinct(i: &Interner)
    requires
        i.wf(),
    ensures
        i.view().no_duplicates(),
{
}

/// Interning the same string twice gives the same number.
pub proof fn lemma_intern_stable(view: Seq<Seq<char>>, a: int, b: int)
    requires
        view.no_duplicates(),
        0 <= a < view.len(),
        0 <= b < view.len(),
        view[a] == view[b],
    ensures
        a == b,
{
}

} // verus!
