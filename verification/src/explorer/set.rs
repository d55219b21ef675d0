//! A persistent set.

use crate::hamt::{Hamt, HashKey};
use vstd::prelude::*;

verus! {

/// A persistent set: a persistent map whose values say nothing.
pub struct HamtSet<T>(Hamt<T, ()>);

impl<T> View for HamtSet<T> {
    type V = Set<T>;

    closed spec fn view(&self) -> Set<T> {
        self.0@.dom()
    }
}

impl<T> Clone for HamtSet<T> {
    /// A second handle on the same set.
    fn clone(&self) -> (r: Self)
        ensures
            r == *self,
    {
        HamtSet(self.0.clone())
    }
}

impl<T: HashKey> HamtSet<T> {
    pub closed spec fn wf(&self) -> bool {
        self.0.wf()
    }

    /// The empty set.
    pub fn new() -> (r: Self)
        ensures
            r.wf(),
            r@ == Set::<T>::empty(),
    {
        let r = HamtSet(Hamt::new());
        assert(r@ =~= Set::<T>::empty());
        r
    }

    /// The set with `element` in it. A set that holds `element` already comes
    /// back as it is.
    pub fn add_element(&self, element: T) -> (r: Self)
        requires
            self.wf(),
        ensures
            r.wf(),
            r@ == self@.insert(element),
            self@.contains(element) ==> r == *self,
    {
        match self.0.insert(element, ()) {
            Ok(m) => {
                let r = HamtSet(m);
                assert(r@ =~= self@.insert(element));
                r
            },
            Err(_) => {
                assert(self@ =~= self@.insert(element));
                self.clone()
            },
        }
    }

    /// Whether `element` is in the set.
    pub fn contains(&self, element: &T) -> (r: bool)
        requires
            self.wf(),
        ensures
            r == self@.contains(*element),
    {
        self.0.contains_key(element)
    }
}

} // verus!
