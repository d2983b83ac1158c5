//! The live storage of one chunk's execution: the shard cache in front of the
//! store, and the chunk cache that remembers what the chunk has paid for.

use vstd::prelude::*;
use crate::entries::{as_map, distinct_keys, has_key, lookup, lemma_push};
use crate::errors::{outcome, StorageError};
use crate::hash::{sha256, CryptoHash};
use crate::laws::retrieval_keeps_content_addressing;
use crate::node_list::{clone_blob, NodeList};
use crate::store::{blobs_in, content_addressed, Store};
use crate::shared_cache::SharedTrieCache;
use crate::trie_cache::{lru_put, lru_touch, TrieCache};

verus! {

/// Blobs longer than this many bytes are never put into the shard cache.
pub const TRIE_LIMIT_CACHED_VALUE_SIZE: usize = 4000;

/// Where a live storage keeps the blobs it retrieves.
#[derive(Clone, Copy, Debug, PartialEq, Eq, Structural)]
pub enum TrieCacheMode {
    /// Retrieved blobs go to the shard cache, for the executions to come.
    CachingShard,
    /// Retrieved blobs go to the chunk cache, and are free for the rest of the chunk.
    CachingChunk,
}

impl Default for TrieCacheMode {
    /// A storage caches for the shard until it is told otherwise.
    fn default() -> (mode: TrieCacheMode)
        ensures
            mode == TrieCacheMode::CachingShard,
    {
        TrieCacheMode::CachingShard
    }
}

/// The state of a live storage, as the contracts see it.
pub struct CachingState {
    /// The store: hash to blob and reference count.
    pub store: Map<Seq<u8>, (Seq<u8>, nat)>,
    /// The shard cache, from the least to the most recently used pair.
    pub shard_cache: Seq<(Seq<u8>, Seq<u8>)>,
    /// The largest number of pairs the shard cache keeps.
    pub shard_capacity: nat,
    /// The chunk cache: every blob retrieved while caching for the chunk.
    pub chunk_cache: Map<Seq<u8>, Seq<u8>>,
    /// The current mode.
    pub cache_mode: TrieCacheMode,
    /// How many retrievals were charged so far.
    pub touched: nat,
}

impl CachingState {
    /// The shard cache holds no hash twice and no more than its capacity.
    pub open spec fn wf(self) -> bool {
        &&& distinct_keys(self.shard_cache)
        &&& self.shard_cache.len() <= self.shard_capacity
    }

    /// The blob that the shard cache or, failing that, the store has for `hash`.
    pub open spec fn found(self, hash: Seq<u8>) -> Option<Seq<u8>> {
        if has_key(self.shard_cache, hash) {
            lookup(self.shard_cache, hash)
        } else if self.store.contains_key(hash) {
            Some(self.store[hash].0)
        } else {
            None
        }
    }

    /// What retrieving `hash` returns: the chunk cache's blob where it has one,
    /// else the shard cache's, else the store's, else the failure.
    pub open spec fn retrieved(self, hash: Seq<u8>) -> Result<Seq<u8>, StorageError> {
        if self.chunk_cache.contains_key(hash) {
            Ok(self.chunk_cache[hash])
        } else {
            match self.found(hash) {
                Some(blob) => Ok(blob),
                None => Err(StorageError::TrieNodeMissing),
            }
        }
    }

    /// The state after retrieving `hash`.
    ///
    /// A hash of the chunk cache changes nothing. Any other hash is charged. Looking
    /// it up in the shard cache is a use of its pair. The blob that was found goes to
    /// the shard cache while caching for the shard, unless it is too long, and to the
    /// chunk cache while caching for the chunk.
    pub open spec fn after_retrieve(self, hash: Seq<u8>) -> CachingState {
        if self.chunk_cache.contains_key(hash) {
            self
        } else {
            let probed = lru_touch(self.shard_cache, hash);
            match self.found(hash) {
                None => CachingState { touched: self.touched + 1, shard_cache: probed, ..self },
                Some(blob) => CachingState {
                    touched: self.touched + 1,
                    shard_cache: if self.cache_mode == TrieCacheMode::CachingShard && blob.len()
                        <= TRIE_LIMIT_CACHED_VALUE_SIZE {
                        lru_put(probed, self.shard_capacity, hash, blob)
                    } else {
                        probed
                    },
                    chunk_cache: if self.cache_mode == TrieCacheMode::CachingChunk {
                        self.chunk_cache.insert(hash, blob)
                    } else {
                        self.chunk_cache
                    },
                    ..self
                },
            }
        }
    }
}

/// One call on a live storage.
pub enum StorageCall {
    /// A retrieval of the hash.
    Retrieve(Seq<u8>),
    /// A switch to the mode.
    SetMode(TrieCacheMode),
}

impl CachingState {
    /// The state after one call.
    pub open spec fn after_call(self, call: StorageCall) -> CachingState {
        match call {
            StorageCall::Retrieve(hash) => self.after_retrieve(hash),
            StorageCall::SetMode(mode) => CachingState { cache_mode: mode, ..self },
        }
    }

    /// The state after the calls of `calls`, in order.
    pub open spec fn after_calls(self, calls: Seq<StorageCall>) -> CachingState
        decreases calls.len(),
    {
        if calls.len() == 0 {
            self
        } else {
            self.after_calls(calls.drop_last()).after_call(calls.last())
        }
    }

    /// The state with another shard cache in place of its own.
    pub open spec fn with_shard_cache(
        self,
        shard_cache: Seq<(Seq<u8>, Seq<u8>)>,
        shard_capacity: nat,
    ) -> CachingState {
        CachingState { shard_cache, shard_capacity, ..self }
    }

    /// No blob of the shard cache is longer than the limit.
    pub open spec fn within_limit(self) -> bool {
        forall|i: int|
            0 <= i < self.shard_cache.len() ==> (#[trigger] self.shard_cache[i]).1.len()
                <= TRIE_LIMIT_CACHED_VALUE_SIZE
    }

    /// Every blob of the store and of both caches is kept under its own digest.
    pub open spec fn content_addressed(self) -> bool {
        &&& content_addressed(blobs_in(self.store))
        &&& content_addressed(as_map(self.shard_cache))
        &&& content_addressed(self.chunk_cache)
    }

    /// Both caches hold only what the store holds: each cached hash is stored,
    /// with the same blob.
    pub open spec fn coherent(self) -> bool {
        &&& forall|k: Seq<u8>| #[trigger]
            has_key(self.shard_cache, k) ==> self.store.contains_key(k) && lookup(
                self.shard_cache,
                k,
            ) == Some(self.store[k].0)
        &&& forall|k: Seq<u8>| #[trigger]
            self.chunk_cache.contains_key(k) ==> self.store.contains_key(k) && self.chunk_cache[k]
                == self.store[k].0
    }
}

/// The storage of one chunk's execution over a store and a shard cache.
pub struct TrieCachingStorage {
    store: Store,
    shard_cache: TrieCache,
    chunk_cache: NodeList,
    cache_mode: TrieCacheMode,
    touched_nodes: u64,
}

impl View for TrieCachingStorage {
    type V = CachingState;

    closed spec fn view(&self) -> CachingState {
        CachingState {
            store: self.store@,
            shard_cache: self.shard_cache@,
            shard_capacity: self.shard_cache.capacity(),
            chunk_cache: as_map(self.chunk_cache@),
            cache_mode: self.cache_mode,
            touched: self.touched_nodes as nat,
        }
    }
}

impl TrieCachingStorage {
    /// The store, the shard cache and the chunk cache are each in order.
    pub closed spec fn parts_wf(&self) -> bool {
        &&& self.store.wf()
        &&& self.shard_cache.wf()
        &&& self.chunk_cache.wf()
    }

    /// The storage is in order, and so is its state.
    pub open spec fn wf(&self) -> bool {
        &&& self.parts_wf()
        &&& self@.wf()
    }

    /// A storage for a new chunk: nothing touched, the chunk cache empty, and
    /// caching for the shard.
    pub fn new(store: Store, shard_cache: TrieCache) -> (storage: TrieCachingStorage)
        requires
            store.wf(),
            shard_cache.wf(),
        ensures
            storage.wf(),
            storage@ == (CachingState {
                store: store@,
                shard_cache: shard_cache@,
                shard_capacity: shard_cache.capacity(),
                chunk_cache: Map::<Seq<u8>, Seq<u8>>::empty(),
                cache_mode: TrieCacheMode::CachingShard,
                touched: 0,
            }),
    {
        let storage = TrieCachingStorage {
            store,
            shard_cache,
            chunk_cache: NodeList::new(),
            cache_mode: TrieCacheMode::default(),
            touched_nodes: 0,
        };
        assert(storage@.chunk_cache =~= Map::<Seq<u8>, Seq<u8>>::empty());
        storage
    }

    /// Switches the mode. Only later retrievals see it.
    pub fn set_mode(&mut self, mode: TrieCacheMode)
        requires
            old(self).wf(),
        ensures
            final(self).wf(),
            final(self)@ == (CachingState { cache_mode: mode, ..old(self)@ }),
    {
        self.cache_mode = mode;
    }

    /// The number of retrievals charged so far.
    pub fn get_touched_nodes_count(&self) -> (count: u64)
        requires
            self.wf(),
        ensures
            count == self@.touched,
    {
        self.touched_nodes
    }

    /// The shard cache, to look at.
    pub fn shard_cache(&self) -> (cache: &TrieCache)
        requires
            self.wf(),
        ensures
            cache.wf(),
            cache@ == self@.shard_cache,
            cache.capacity() == self@.shard_capacity,
    {
        &self.shard_cache
    }

    /// The store, to look at.
    pub fn store(&self) -> (store: &Store)
        requires
            self.wf(),
        ensures
            store.wf(),
            store@ == self@.store,
    {
        &self.store
    }

    /// The blob that the chunk cache holds under `hash`, if any.
    pub fn chunk_cache_get(&self, hash: &CryptoHash) -> (blob: Option<Vec<u8>>)
        requires
            self.wf(),
        ensures
            blob is Some == self@.chunk_cache.contains_key(hash@),
            blob matches Some(b) ==> b@ == self@.chunk_cache[hash@],
    {
        self.chunk_cache.get(hash)
    }

    /// Ends the chunk: hands back the store and the shard cache, and drops the
    /// chunk cache and the count.
    pub fn into_parts(self) -> (parts: (Store, TrieCache))
        requires
            self.wf(),
        ensures
            parts.0.wf(),
            parts.0@ == self@.store,
            parts.1.wf(),
            parts.1@ == self@.shard_cache,
            parts.1.capacity() == self@.shard_capacity,
    {
        (self.store, self.shard_cache)
    }

    /// Resolves `hash` to its blob.
    ///
    /// Fails with `TrieNodeMissing` exactly when neither cache nor the store has
    /// the hash. The count grows by one exactly when the chunk cache did not have
    /// the hash, whether or not the blob was found.
    pub fn retrieve_raw_bytes(&mut self, hash: &CryptoHash) -> (result: Result<
        Vec<u8>,
        StorageError,
    >)
        requires
            old(self).wf(),
            old(self)@.touched < u64::MAX,
        ensures
            final(self).wf(),
            final(self)@ == old(self)@.after_retrieve(hash@),
            outcome(result) == old(self)@.retrieved(hash@),
    {
        if let Some(blob) = self.chunk_cache.get(hash) {
            return Ok(blob);
        }
        self.touched_nodes = self.touched_nodes + 1;
        let cached = self.shard_cache.get(hash);
        let blob = match cached {
            Some(blob) => blob,
            None => match self.store.get(hash) {
                Some(blob) => blob,
                None => {
                    return Err(StorageError::TrieNodeMissing);
                },
            },
        };
        if self.cache_mode == TrieCacheMode::CachingShard && blob.len()
            <= TRIE_LIMIT_CACHED_VALUE_SIZE {
            self.shard_cache.put(*hash, clone_blob(&blob));
        }
        if self.cache_mode == TrieCacheMode::CachingChunk {
            proof {
                lemma_push(self.chunk_cache@, (hash@, blob@));
            }
            self.chunk_cache.push(*hash, clone_blob(&blob));
        }
        Ok(blob)
    }

    /// Resolves `hash` to its blob unless the count of charged retrievals stands at
    /// its largest value and the retrieval would be charged: then nothing is done,
    /// and `None` says so. In every other case this is `retrieve_raw_bytes`.
    pub fn try_retrieve_raw_bytes(&mut self, hash: &CryptoHash) -> (result: Option<
        Result<Vec<u8>, StorageError>,
    >)
        requires
            old(self).wf(),
        ensures
            final(self).wf(),
            result is None <==> old(self)@.touched == u64::MAX && !old(self)@.chunk_cache.contains_key(hash@),
            result is None ==> final(self)@ == old(self)@,
            result matches Some(found) ==> outcome(found) == old(self)@.retrieved(hash@) && final(self)@ == old(self)@.after_retrieve(hash@),
            final(self)@.touched == old(self)@.touched + if result is Some && !old(self)@.chunk_cache.contains_key(hash@) {
                1nat
            } else {
                0nat
            },
    {
        if self.touched_nodes == u64::MAX {
            match self.chunk_cache.get(hash) {
                Some(blob) => Some(Ok(blob)),
                None => None,
            }
        } else {
            Some(self.retrieve_raw_bytes(hash))
        }
    }

    /// Resolves `hash` to its blob with the shared cache `shard_cache` in place of
    /// the storage's own, which is left as it is.
    ///
    /// The shared cache is taken for the length of the call. Which hashes it holds
    /// then is for its owners to say, so the call is a retrieval from some shard
    /// cache that is in order and addressed by content: the count and the chunk
    /// cache change as in every retrieval, and the blob is the chunk cache's, else
    /// the shared cache's, else the store's. The store and the chunk cache must hold
    /// each blob under its own digest; the blob that is returned then has the digest
    /// that was asked for.
    pub fn retrieve_raw_bytes_shared(
        &mut self,
        shard_cache: &SharedTrieCache,
        hash: &CryptoHash,
    ) -> (result: Result<Vec<u8>, StorageError>)
        requires
            old(self).wf(),
            old(self)@.touched < u64::MAX,
            content_addressed(blobs_in(old(self)@.store)),
            content_addressed(old(self)@.chunk_cache),
        ensures
            final(self).wf(),
            result matches Ok(blob) ==> sha256(blob@) == hash@,
            content_addressed(final(self)@.chunk_cache),
            final(self)@.store == old(self)@.store,
            exists|lent: Seq<(Seq<u8>, Seq<u8>)>|
                {
                    &&& (#[trigger] old(self)@.with_shard_cache(lent, shard_cache.capacity())).wf()
                    &&& content_addressed(as_map(lent))
                    &&& outcome(result) == old(self)@.with_shard_cache(
                        lent,
                        shard_cache.capacity(),
                    ).retrieved(hash@)
                    &&& final(self)@ == old(self)@.with_shard_cache(
                        lent,
                        shard_cache.capacity(),
                    ).after_retrieve(hash@).with_shard_cache(
                        old(self)@.shard_cache,
                        old(self)@.shard_capacity,
                    )
                },
            final(self)@.touched == old(self)@.touched + if old(self)@.chunk_cache.contains_key(
                hash@,
            ) {
                0nat
            } else {
                1nat
            },
            old(self)@.chunk_cache.contains_key(hash@) ==> outcome(result) == Ok::<
                Seq<u8>,
                StorageError,
            >(old(self)@.chunk_cache[hash@]) && final(self)@ == old(self)@,
            result is Err ==> !old(self)@.store.contains_key(hash@),
    {
        let (mut lent, lease) = shard_cache.take();
        std::mem::swap(&mut self.shard_cache, &mut lent);
        let ghost before = self@;
        proof {
            retrieval_keeps_content_addressing(before, hash@);
        }
        let result = self.retrieve_raw_bytes(hash);
        std::mem::swap(&mut self.shard_cache, &mut lent);
        lease.give_back(lent);
        proof {
            assert(before == old(self)@.with_shard_cache(
                before.shard_cache,
                shard_cache.capacity(),
            ));
        }
        result
    }
}

} // verus!
