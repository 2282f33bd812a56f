use vstd::prelude::*;

verus! {

/// A stack whose frames live on the call stack: each frame borrows its parent.
pub struct LinkedStack<'a, T> {
    parent: Option<&'a LinkedStack<'a, T>>,
    item: T,
}

impl<'a, T> LinkedStack<'a, T> {
    /// The items from the top of the stack down to the bottom.
    pub closed spec fn view(&self) -> Seq<T>
        decreases self,
    {
        match self.parent {
            None => seq![self.item],
            Some(p) => seq![self.item] + p.view(),
        }
    }

    pub proof fn lemma_view_nonempty(&self)
        ensures
            self.view().len() >= 1,
            self.view()[0] == self.item_spec(),
        decreases self,
    {
        match self.parent {
            None => {},
            Some(p) => {
                p.lemma_view_nonempty();
            },
        }
    }

    /// The top item.
    pub closed spec fn item_spec(&self) -> T {
        self.item
    }

    pub fn new(item: T) -> (s: Self)
        ensures
            s.view() == seq![item],
    {
        LinkedStack { parent: None, item }
    }

    /// A new frame on top of `self`.
    pub fn push(&'a self, item: T) -> (s: LinkedStack<'a, T>)
        ensures
            s.view() == seq![item] + self.view(),
    {
        LinkedStack { parent: Some(self), item }
    }

    pub fn top(&self) -> (r: &T)
        ensures
            self.view().len() >= 1,
            *r == self.view()[0],
    {
        proof {
            self.lemma_view_nonempty();
        }
        &self.item
    }

    /// The items from the top down.
    pub fn iter(&self) -> (r: Vec<&T>)
        ensures
            r@.len() == self.view().len(),
            forall|i: int| 0 <= i < r@.len() ==> *(#[trigger] r@[i]) == self.view()[i],
        decreases self,
    {
        let mut r: Vec<&T> = Vec::new();
        r.push(&self.item);
        match self.parent {
            None => {},
            Some(p) => {
                let mut rest = p.iter();
                proof {
                    assert(self.view() == seq![self.item] + p.view());
                }
                let ghost r0 = r@;
                r.append(&mut rest);
                proof {
                    assert forall|i: int| 0 <= i < r@.len() implies *(#[trigger] r@[i]) == self.view()[i] by {
                        if i > 0 {
                            assert(r@[i] == old_rest_index(r0, r@, i));
                        }
                    }
                }
            },
        }
        r
    }

    /// The item `index` frames below the top.
    pub fn get(&self, index: usize) -> (r: Option<&T>)
        ensures
            index < self.view().len() ==> (r matches Some(x) && *x == self.view()[index as int]),
            index >= self.view().len() ==> r is None,
        decreases self,
    {
        if index == 0 {
            proof {
                self.lemma_view_nonempty();
            }
            Some(&self.item)
        } else {
            match self.parent {
                None => None,
                Some(p) => {
                    let r = p.get(index - 1);
                    proof {
                        assert(self.view() == seq![self.item] + p.view());
                    }
                    r
                },
            }
        }
    }
}

/// Helper naming an element of an appended sequence.
pub open spec fn old_rest_index<A>(prefix: Seq<A>, whole: Seq<A>, i: int) -> A {
    whole[i]
}

impl<'a, T: PartialEq> LinkedStack<'a, T> {
    /// Distance from the top of the first frame whose item equals `item`.
    /// The result is stated for item types whose `==` agrees with equality.
    pub fn find(&self, item: &T) -> (r: Option<usize>)
        requires
            self.view().len() <= usize::MAX,
        ensures
            r matches Some(i) ==> i < self.view().len(),
            crate::util::ordered_map::concrete_eq::<T>() ==> (r matches Some(i) ==> self.view()[i as int] == *item
                && forall|j: int| 0 <= j < i ==> self.view()[j] != *item),
            crate::util::ordered_map::concrete_eq::<T>() ==> (r is None ==> !self.view().contains(*item)),
        decreases self,
    {
        proof {
            self.lemma_view_nonempty();
        }
        if self.item == *item {
            Some(0)
        } else {
            match self.parent {
                None => {
                    proof {
                        if crate::util::ordered_map::concrete_eq::<T>() && self.view().contains(*item) {
                            let k = choose|k: int| 0 <= k < self.view().len() && self.view()[k] == *item;
                            assert(k == 0);
                        }
                    }
                    None
                },
                Some(p) => {
                    let r = p.find(item);
                    proof {
                        assert(self.view() == seq![self.item] + p.view());
                        if crate::util::ordered_map::concrete_eq::<T>() && self.view().contains(*item) && r is None {
                            let k = choose|k: int| 0 <= k < self.view().len() && self.view()[k] == *item;
                            assert(p.view()[k - 1] == *item);
                        }
                    }
                    match r {
                        Some(i) => Some(i + 1),
                        None => None,
                    }
                },
            }
        }
    }
}

} // verus!
