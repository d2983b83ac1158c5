//! Content hashes: the 32-byte digests that address every trie node and value.

use vstd::prelude::*;

verus! {

/// The SHA-256 digest of a byte string, as `near_primitives::hash::hash` computes it.
/// The digest is a function of the bytes alone; nothing else is claimed of it here.
pub uninterp spec fn sha256(data: Seq<u8>) -> Seq<u8>;

/// Digest of a blob of bytes; the only key under which nodes and values are stored.
#[derive(Clone, Copy, Debug, PartialEq, Eq, Hash)]
pub struct CryptoHash(pub [u8; 32]);

impl View for CryptoHash {
    type V = Seq<u8>;

    open spec fn view(&self) -> Seq<u8> {
        self.0@
    }
}

/// Calls `near_primitives::hash::hash` and unpacks the 32 bytes of the `CryptoHash`
/// it returns. The contract names the result: the digest of exactly these bytes.
#[verifier::external_body]
fn digest_bytes(data: &[u8]) -> (digest: [u8; 32])
    ensures
        digest@ == sha256(data@),
{
    near_primitives::hash::hash(data).0
}

/// Hashes a blob.
pub fn hash(data: &[u8]) -> (digest: CryptoHash)
    ensures
        digest@ == sha256(data@),
{
    CryptoHash(digest_bytes(data))
}

impl CryptoHash {
    /// The all-zero hash.
    pub fn new() -> (zero: CryptoHash)
        ensures
            zero@ == Seq::new(32, |i: int| 0u8),
    {
        CryptoHash([0u8; 32])
    }

    /// Whether two hashes hold the same 32 bytes.
    pub fn same_as(&self, other: &CryptoHash) -> (same: bool)
        ensures
            same == (self@ == other@),
    {
        let mut i: usize = 0;
        while i < 32
            invariant
                i <= 32,
                forall|j: int| 0 <= j < i ==> self.0@[j] == other.0@[j],
            decreases 32 - i,
        {
            if self.0[i] != other.0[i] {
                return false;
            }
            i += 1;
        }
        assert(self@ =~= other@);
        true
    }
}

/// The byte strings of a list of hashes, in order.
pub open spec fn hashes_view(hashes: Seq<CryptoHash>) -> Seq<Seq<u8>> {
    Seq::new(hashes.len(), |i: int| hashes[i]@)
}

/// Whether `hash` occurs in `hashes`.
pub fn contains_hash(hashes: &Vec<CryptoHash>, hash: &CryptoHash) -> (found: bool)
    ensures
        found == hashes_view(hashes@).contains(hash@),
{
    let mut i: usize = 0;
    while i < hashes.len()
        invariant
            i <= hashes.len(),
            forall|j: int| 0 <= j < i ==> hashes_view(hashes@)[j] != hash@,
        decreases hashes.len() - i,
    {
        if hashes[i].same_as(hash) {
            assert(hashes_view(hashes@)[i as int] == hash@);
            return true;
        }
        i += 1;
    }
    false
}

} // verus!
