//! The states of many branches, by block.

use crate::blockcfg::{ChainLength, HeaderHash};
use crate::hamt::Hamt;
use vstd::prelude::*;

verus! {

/// The states of many branches at once, each under the block it is the
/// state of. A state that has been put in is never replaced.
pub struct Multiverse<S> {
    states_by_hash: Hamt<HeaderHash, (ChainLength, S)>,
}

/// A token for one state of a multiverse: who holds it wants that state, and
/// the states it was derived from, kept.
#[derive(Debug, PartialEq, Eq)]
pub struct GCRoot {
    hash: HeaderHash,
}

impl GCRoot {
    /// The block whose state the token is for.
    pub closed spec fn spec_hash(&self) -> HeaderHash {
        self.hash
    }

    /// The block whose state the token is for.
    pub fn hash(&self) -> (h: HeaderHash)
        ensures
            h == self.spec_hash(),
    {
        self.hash
    }
}

impl<S> View for Multiverse<S> {
    type V = Map<HeaderHash, S>;

    closed spec fn view(&self) -> Map<HeaderHash, S> {
        Map::new(
            |k: HeaderHash| self.states_by_hash@.contains_key(k),
            |k: HeaderHash| self.states_by_hash@[k].1,
        )
    }
}

impl<S> Clone for Multiverse<S> {
    /// A second handle on the same states.
    fn clone(&self) -> (r: Self)
        ensures
            r == *self,
    {
        Multiverse { states_by_hash: self.states_by_hash.clone() }
    }
}

impl<S> Multiverse<S> {
    pub closed spec fn wf(&self) -> bool {
        self.states_by_hash.wf()
    }

    /// The chain length that the state of a block was put in with.
    pub closed spec fn chain_length_of(&self, k: HeaderHash) -> ChainLength {
        self.states_by_hash@[k].0
    }

    /// The multiverse of no state.
    pub fn new() -> (r: Self)
        ensures
            r.wf(),
            r@ == Map::<HeaderHash, S>::empty(),
    {
        let r = Multiverse { states_by_hash: Hamt::new() };
        assert(r@ =~= Map::<HeaderHash, S>::empty());
        r
    }

    /// The state of the block `k`, if the multiverse holds one.
    pub fn get(&self, k: &HeaderHash) -> (r: Option<&S>)
        requires
            self.wf(),
        ensures
            match r {
                Some(s) => self@.contains_key(*k) && *s == self@[*k],
                None => !self@.contains_key(*k),
            },
    {
        match self.states_by_hash.lookup(k) {
            Some(entry) => Some(&entry.1),
            None => None,
        }
    }

    /// Puts in `st` as the state of the block `k`, unless the multiverse
    /// holds a state of that block already, and returns a token for it.
    pub fn insert(&mut self, chain_length: ChainLength, k: HeaderHash, st: S) -> (root: GCRoot)
        requires
            old(self).wf(),
        ensures
            final(self).wf(),
            root.spec_hash() == k,
            final(self)@ == if old(self)@.contains_key(k) {
                old(self)@
            } else {
                old(self)@.insert(k, st)
            },
            !old(self)@.contains_key(k) ==> final(self).chain_length_of(k) == chain_length,
    {
        let ghost before = self@;
        match self.states_by_hash.insert(k, (chain_length, st)) {
            Ok(states) => {
                self.states_by_hash = states;
                assert(self@ =~= before.insert(k, st));
            },
            Err(_) => {},
        }
        GCRoot { hash: k }
    }
}

} // verus!
