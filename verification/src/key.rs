//! The identifiers of blocks and fragments.

use crate::hamt::HashKey;
use vstd::prelude::*;

verus! {

/// The first eight bytes of a digest, read as a little-endian number.
pub open spec fn spec_prefix(b: Seq<u8>) -> u64 {
    (b[0] as u64) | (b[1] as u64) << 8 | (b[2] as u64) << 16 | (b[3] as u64) << 24 | (b[4] as u64)
        << 32 | (b[5] as u64) << 40 | (b[6] as u64) << 48 | (b[7] as u64) << 56
}

/// The first eight bytes of a digest, read as a little-endian number.
pub fn prefix(b: &[u8; 32]) -> (h: u64)
    ensures
        h == spec_prefix(b@),
{
    (b[0] as u64) | (b[1] as u64) << 8 | (b[2] as u64) << 16 | (b[3] as u64) << 24 | (b[4] as u64)
        << 32 | (b[5] as u64) << 40 | (b[6] as u64) << 48 | (b[7] as u64) << 56
}

/// Whether two digests hold the same bytes.
pub fn same_bytes(a: &[u8; 32], b: &[u8; 32]) -> (r: bool)
    ensures
        r == (*a == *b),
{
    let mut i: usize = 0;
    while i < 32
        invariant
            i <= 32,
            forall|j: int| 0 <= j < i ==> a@[j] == b@[j],
        decreases 32 - i,
    {
        if a[i] != b[i] {
            return false;
        }
        i += 1;
    }
    assert(a@ =~= b@);
    assert(*a =~= *b);
    true
}

/// A 32-byte digest: the identifier of a block or of a fragment.
#[derive(Clone, Copy, Debug, PartialEq, Eq)]
pub struct Digest(pub [u8; 32]);

impl Digest {
    pub fn from_bytes(bytes: [u8; 32]) -> (h: Digest)
        ensures
            h.0 == bytes,
    {
        Digest(bytes)
    }

    pub fn as_bytes(&self) -> (b: &[u8; 32])
        ensures
            *b == self.0,
    {
        &self.0
    }
}

impl HashKey for Digest {
    open spec fn spec_hash(&self) -> u64 {
        spec_prefix(self.0@)
    }

    fn hash(&self) -> (h: u64) {
        prefix(&self.0)
    }

    fn same(&self, other: &Self) -> (b: bool) {
        same_bytes(&self.0, &other.0)
    }
}

impl HashKey for u32 {
    open spec fn spec_hash(&self) -> u64 {
        *self as u64
    }

    fn hash(&self) -> (h: u64) {
        *self as u64
    }

    fn same(&self, other: &Self) -> (b: bool) {
        *self == *other
    }
}

} // verus!
