//! Addresses.

use crate::hamt::HashKey;
use crate::key::{prefix, same_bytes, spec_prefix};
use vstd::prelude::*;

verus! {

/// Tells the addresses of the production chain from those of a test chain.
#[derive(Clone, Copy, Debug, PartialEq, Eq)]
pub enum Discrimination {
    Production,
    Test,
}

impl Discrimination {
    pub fn same(&self, other: &Discrimination) -> (b: bool)
        ensures
            b == (*self == *other),
    {
        match (self, other) {
            (Discrimination::Production, Discrimination::Production) => true,
            (Discrimination::Test, Discrimination::Test) => true,
            _ => false,
        }
    }
}

/// What an address stands for, with the public keys that make it up.
#[derive(Clone, Copy, Debug, PartialEq, Eq)]
pub enum Kind {
    Single([u8; 32]),
    Group([u8; 32], [u8; 32]),
    Account([u8; 32]),
    Multisig([u8; 32]),
}

impl Kind {
    /// The key that the address spends with.
    pub open spec fn spec_spending_key(&self) -> [u8; 32] {
        match *self {
            Kind::Single(k) => k,
            Kind::Group(k, _) => k,
            Kind::Account(k) => k,
            Kind::Multisig(k) => k,
        }
    }

    /// The key that the address spends with.
    pub fn spending_key(&self) -> (k: &[u8; 32])
        ensures
            *k == self.spec_spending_key(),
    {
        match self {
            Kind::Single(k) => k,
            Kind::Group(k, _) => k,
            Kind::Account(k) => k,
            Kind::Multisig(k) => k,
        }
    }

    pub fn same(&self, other: &Kind) -> (b: bool)
        ensures
            b == (*self == *other),
    {
        match (self, other) {
            (Kind::Single(a), Kind::Single(b)) => same_bytes(a, b),
            (Kind::Group(a, c), Kind::Group(b, d)) => same_bytes(a, b) && same_bytes(c, d),
            (Kind::Account(a), Kind::Account(b)) => same_bytes(a, b),
            (Kind::Multisig(a), Kind::Multisig(b)) => same_bytes(a, b),
            _ => false,
        }
    }
}

/// An address: where value is sent to and taken from.
#[derive(Clone, Copy, Debug, PartialEq, Eq)]
pub struct Address(pub Discrimination, pub Kind);

impl Address {
    pub fn discrimination(&self) -> (d: Discrimination)
        ensures
            d == self.0,
    {
        self.0
    }

    pub fn kind(&self) -> (k: &Kind)
        ensures
            *k == self.1,
    {
        &self.1
    }
}

impl HashKey for Address {
    open spec fn spec_hash(&self) -> u64 {
        spec_prefix(self.1.spec_spending_key()@)
    }

    fn hash(&self) -> (h: u64) {
        prefix(self.1.spending_key())
    }

    fn same(&self, other: &Self) -> (b: bool) {
        self.0.same(&other.0) && self.1.same(&other.1)
    }
}

} // verus!
