//! An ordered list of blobs, each stored once under its hash.

use vstd::prelude::*;
use crate::entries::{distinct_keys, has_key, lookup, lemma_lookup_at, lemma_push, lemma_remove};
use crate::hash::CryptoHash;

verus! {

/// A copy of a blob.
pub fn clone_blob(blob: &Vec<u8>) -> (copy: Vec<u8>)
    ensures
        copy@ == blob@,
{
    blob.clone()
}

/// Blobs in a fixed order, each under a hash that occurs once.
///
/// A list that is searched from the front stands here where a hash map might:
/// vstd says what the maps of the standard library hold only for keys whose
/// hashing it knows, and a hash of 32 bytes is none of those.
pub struct NodeList {
    hashes: Vec<CryptoHash>,
    blobs: Vec<Vec<u8>>,
}

impl View for NodeList {
    type V = Seq<(Seq<u8>, Seq<u8>)>;

    closed spec fn view(&self) -> Seq<(Seq<u8>, Seq<u8>)> {
        Seq::new(self.hashes.len() as nat, |i: int| (self.hashes[i]@, self.blobs[i]@))
    }
}

impl NodeList {
    /// Every hash has its blob.
    pub closed spec fn aligned(&self) -> bool {
        self.hashes.len() == self.blobs.len()
    }

    /// Every hash has its blob, and no hash occurs twice.
    pub open spec fn wf(&self) -> bool {
        &&& self.aligned()
        &&& distinct_keys(self@)
    }

    /// The empty list.
    pub fn new() -> (list: NodeList)
        ensures
            list.wf(),
            list@ == Seq::<(Seq<u8>, Seq<u8>)>::empty(),
    {
        NodeList { hashes: Vec::new(), blobs: Vec::new() }
    }

    /// The number of blobs.
    pub fn len(&self) -> (n: usize)
        requires
            self.wf(),
        ensures
            n == self@.len(),
    {
        self.hashes.len()
    }

    /// Where `hash` is stored, if it is.
    pub fn position(&self, hash: &CryptoHash) -> (found: Option<usize>)
        requires
            self.wf(),
        ensures
            match found {
                Some(i) => i < self@.len() && self@[i as int].0 == hash@,
                None => !has_key(self@, hash@),
            },
    {
        let mut i: usize = 0;
        while i < self.hashes.len()
            invariant
                i <= self.hashes.len(),
                self.hashes.len() == self.blobs.len(),
                forall|j: int| 0 <= j < i ==> (#[trigger] self@[j]).0 != hash@,
            decreases self.hashes.len() - i,
        {
            if self.hashes[i].same_as(hash) {
                return Some(i);
            }
            i += 1;
        }
        None
    }

    /// Whether a blob is stored under `hash`.
    pub fn contains(&self, hash: &CryptoHash) -> (found: bool)
        requires
            self.wf(),
        ensures
            found == has_key(self@, hash@),
    {
        self.position(hash).is_some()
    }

    /// A copy of the blob stored under `hash`, if any.
    pub fn get(&self, hash: &CryptoHash) -> (blob: Option<Vec<u8>>)
        requires
            self.wf(),
        ensures
            blob is Some == has_key(self@, hash@),
            blob matches Some(b) ==> lookup(self@, hash@) == Some(b@),
    {
        match self.position(hash) {
            Some(i) => {
                proof {
                    lemma_lookup_at(self@, i as int);
                }
                Some(clone_blob(&self.blobs[i]))
            },
            None => None,
        }
    }

    /// The hash at index `i`.
    pub fn hash_at(&self, i: usize) -> (hash: CryptoHash)
        requires
            self.wf(),
            i < self@.len(),
        ensures
            hash@ == self@[i as int].0,
    {
        self.hashes[i]
    }

    /// The blob at index `i`.
    pub fn blob_at(&self, i: usize) -> (blob: &Vec<u8>)
        requires
            self.wf(),
            i < self@.len(),
        ensures
            blob@ == self@[i as int].1,
    {
        &self.blobs[i]
    }

    /// Appends a blob under a hash that is not stored yet.
    pub fn push(&mut self, hash: CryptoHash, blob: Vec<u8>)
        requires
            old(self).wf(),
            !has_key(old(self)@, hash@),
        ensures
            final(self).wf(),
            final(self)@ == old(self)@.push((hash@, blob@)),
    {
        proof {
            lemma_push(self@, (hash@, blob@));
        }
        self.hashes.push(hash);
        self.blobs.push(blob);
        assert(self@ =~= old(self)@.push((hash@, blob@)));
    }

    /// Takes out the pair at index `i`; the pairs behind it move up.
    pub fn remove(&mut self, i: usize) -> (pair: (CryptoHash, Vec<u8>))
        requires
            old(self).wf(),
            i < old(self)@.len(),
        ensures
            final(self).wf(),
            final(self)@ == old(self)@.remove(i as int),
            (pair.0@, pair.1@) == old(self)@[i as int],
    {
        proof {
            lemma_remove(self@, i as int);
        }
        let hash = self.hashes.remove(i);
        let blob = self.blobs.remove(i);
        assert(self@ =~= old(self)@.remove(i as int));
        (hash, blob)
    }
}

} // verus!
