//! A shard cache with several owners: the cache sits behind a lock, and every
//! owner reaches it through the lock.

use std::sync::Arc;
use vstd::prelude::*;
use vstd::rwlock::{RwLock, RwLockPredicate, WriteHandle};
use crate::entries::{as_map, distinct_keys, has_key, lookup};
use crate::hash::{hash, sha256, CryptoHash};
use crate::store::content_addressed;
use crate::trie_cache::TrieCache;

verus! {

/// What the lock admits: a cache in order, of one fixed capacity, that holds
/// every blob under the blob's own digest.
pub struct CacheOfCapacity {
    pub capacity: nat,
}

impl RwLockPredicate<TrieCache> for CacheOfCapacity {
    open spec fn inv(self, cache: TrieCache) -> bool {
        &&& cache.wf()
        &&& cache.capacity() == self.capacity
        &&& content_addressed(as_map(cache@))
    }
}

/// A handle on a shard cache that is shared between its owners. Every owner sees
/// what the others put, and no owner can tell which hashes the cache holds from
/// one call to the next. What every owner can tell is that a blob of the cache
/// has the digest under which it is kept.
pub struct SharedTrieCache {
    lock: Arc<RwLock<TrieCache, CacheOfCapacity>>,
}

/// The right to give a cache back to the lock from which it was taken. While it
/// is out, every other owner waits.
pub struct CacheLease<'a> {
    handle: WriteHandle<'a, TrieCache, CacheOfCapacity>,
}

impl<'a> CacheLease<'a> {
    /// The capacity of the cache that was taken.
    pub closed spec fn capacity(&self) -> nat {
        self.handle.rwlock().pred().capacity
    }

    /// Gives the cache back and lets the other owners go on. The cache must be
    /// one that the lock admits.
    pub fn give_back(self, cache: TrieCache)
        requires
            cache.wf(),
            cache.capacity() == self.capacity(),
            content_addressed(as_map(cache@)),
    {
        self.handle.release_write(cache);
    }
}

impl SharedTrieCache {
    /// Takes the cache out of the lock, for the caller alone, until the lease gives
    /// it back. The cache is in order, of the shared capacity and addressed by
    /// content; which hashes it holds is what the owners have left in it.
    pub fn take(&self) -> (taken: (TrieCache, CacheLease<'_>))
        ensures
            taken.0.wf(),
            taken.0.capacity() == self.capacity(),
            content_addressed(as_map(taken.0@)),
            taken.1.capacity() == self.capacity(),
    {
        let (cache, handle) = self.lock.acquire_write();
        (cache, CacheLease { handle })
    }

    /// The largest number of pairs the cache keeps.
    pub closed spec fn capacity(&self) -> nat {
        self.lock.pred().capacity
    }

    /// Whether the pairs of `held` can be what the cache holds: no hash twice, no
    /// more pairs than the capacity, and each blob under its own digest.
    pub open spec fn admits(&self, held: Seq<(Seq<u8>, Seq<u8>)>) -> bool {
        &&& distinct_keys(held)
        &&& held.len() <= self.capacity()
        &&& content_addressed(as_map(held))
    }

    /// Puts `cache` behind a lock, to be shared. Its blobs must be kept under
    /// their own digests.
    pub fn new(cache: TrieCache) -> (shared: SharedTrieCache)
        requires
            cache.wf(),
            content_addressed(as_map(cache@)),
        ensures
            shared.capacity() == cache.capacity(),
    {
        let ghost pred = CacheOfCapacity { capacity: cache.capacity() };
        SharedTrieCache { lock: Arc::new(RwLock::new(cache, Ghost(pred))) }
    }

    /// An empty cache of the given capacity behind a lock, to be shared.
    pub fn with_capacity(capacity: usize) -> (shared: SharedTrieCache)
        ensures
            shared.capacity() == capacity,
    {
        let cache = TrieCache::with_capacity(capacity);
        assert(content_addressed(as_map(cache@)));
        SharedTrieCache::new(cache)
    }

    /// One more handle on the same cache.
    pub fn share(&self) -> (other: SharedTrieCache)
        ensures
            other.capacity() == self.capacity(),
    {
        SharedTrieCache { lock: self.lock.clone() }
    }

    /// The number of cached pairs at the time of the call.
    pub fn len(&self) -> (n: usize)
        ensures
            n <= self.capacity(),
    {
        let handle = self.lock.acquire_read();
        let n = handle.borrow().len();
        handle.release_read();
        n
    }

    /// The blob that the cache holds under `hash` when the call takes it, if any. A
    /// hit is a use.
    ///
    /// Other owners put and evict between calls, so whether the hash is held is for
    /// them to say. A blob that is returned has the digest `hash`, and with the
    /// capacity 0 none is returned.
    pub fn get(&self, hash: &CryptoHash) -> (blob: Option<Vec<u8>>)
        ensures
            blob matches Some(b) ==> sha256(b@) == hash@,
            self.capacity() == 0 ==> blob is None,
            exists|held: Seq<(Seq<u8>, Seq<u8>)>|
                {
                    &&& #[trigger] self.admits(held)
                    &&& blob is Some == has_key(held, hash@)
                    &&& blob matches Some(b) ==> lookup(held, hash@) == Some(b@)
                },
    {
        let (mut cache, lease) = self.take();
        let ghost held = cache@;
        let blob = cache.get(hash);
        lease.give_back(cache);
        assert(self.admits(held));
        assert(blob matches Some(b) ==> sha256(b@) == hash@) by {
            if blob is Some {
                assert(as_map(held).contains_key(hash@));
            }
        }
        blob
    }

    /// Caches `value` under `hash`, which must be its digest, as the most recently
    /// used pair, and evicts the least recently used pair if the cache is over its
    /// capacity then.
    pub fn put(&self, hash: CryptoHash, value: Vec<u8>)
        requires
            hash@ == sha256(value@),
    {
        let (mut cache, lease) = self.take();
        cache.put(hash, value);
        lease.give_back(cache);
    }

    /// Caches `value` under its digest, and returns the digest.
    pub fn put_blob(&self, value: Vec<u8>) -> (digest: CryptoHash)
        ensures
            digest@ == sha256(value@),
    {
        let digest = hash(value.as_slice());
        self.put(digest, value);
        digest
    }
}

} // verus!
