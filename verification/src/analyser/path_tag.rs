use vstd::prelude::*;

use crate::tokeniser::IdentId;

verus! {

/// A value together with the path of names it was found under.
pub struct PathTagged<T> {
    path: Vec<IdentId>,
    value: T,
}

impl<T> PathTagged<T> {
    /// The path the value was found under.
    pub closed spec fn spec_path(&self) -> Seq<IdentId> {
        self.path@
    }

    /// The tagged value.
    pub closed spec fn spec_value(&self) -> T {
        self.value
    }

    /// Tags a value with the empty path.
    pub fn tag_empty(value: T) -> (r: Self)
        ensures
            r.spec_path() == Seq::<IdentId>::empty(),
            r.spec_value() == value,
    {
        PathTagged { path: Vec::new(), value }
    }

    /// Tags a value with a path.
    pub fn tag_path(value: T, path: Vec<IdentId>) -> (r: Self)
        ensures
            r.spec_path() == path@,
            r.spec_value() == value,
    {
        PathTagged { path, value }
    }

    pub fn path(&self) -> (r: &[IdentId])
        ensures
            r@ == self.spec_path(),
    {
        self.path.as_slice()
    }

    /// A copy of the path.
    pub fn path_clone(&self) -> (r: Vec<IdentId>)
        ensures
            r@ == self.spec_path(),
    {
        let mut r: Vec<IdentId> = Vec::new();
        let mut i: usize = 0;
        while i < self.path.len()
            invariant
                i <= self.path@.len(),
                r@ == self.path@.take(i as int),
            decreases self.path@.len() - i,
        {
            r.push(self.path[i]);
            proof {
                assert(self.path@.take(i + 1) =~= self.path@.take(i as int).push(self.path@[i as int]));
            }
            i = i + 1;
        }
        proof {
            assert(self.path@.take(self.path@.len() as int) =~= self.path@);
        }
        r
    }

    /// The tagged value.
    pub fn value(&self) -> (r: &T)
        ensures
            *r == self.spec_value(),
    {
        &self.value
    }

    /// Applies `f` to the value, keeping the path.
    pub fn map<U, F: FnOnce(T) -> U>(self, f: F) -> (r: PathTagged<U>)
        requires
            f.requires((self.spec_value(),)),
        ensures
            r.spec_path() == self.spec_path(),
            f.ensures((self.spec_value(),), r.spec_value()),
    {
        PathTagged { path: self.path, value: f(self.value) }
    }

    /// Applies `f` to a reference to the value, keeping a copy of the path.
    pub fn map_ref<U, F: FnOnce(&T) -> U>(&self, f: F) -> (r: PathTagged<U>)
        requires
            f.requires((&self.spec_value(),)),
        ensures
            r.spec_path() == self.spec_path(),
            f.ensures((&self.spec_value(),), r.spec_value()),
    {
        let path = self.path_clone();
        PathTagged { path, value: f(&self.value) }
    }
}

} // verus!
