//! What holds of the storages over whole runs of calls.

use vstd::prelude::*;
use crate::caching_storage::{
    CachingState, StorageCall, TrieCacheMode, TRIE_LIMIT_CACHED_VALUE_SIZE,
};
use crate::entries::{as_map, has_key, lookup, position};
use crate::hash::sha256;
use crate::store::blobs_in;
use crate::errors::StorageError;
use crate::trie_cache::{lemma_lru_put, lemma_lru_touch, lru_put, lru_touch, lru_without};
use crate::trie_storage::{lemma_after_retrieve, StorageState};

verus! {

/// A call keeps a live storage in order.
pub proof fn lemma_call_keeps_wf(s: CachingState, call: StorageCall)
    requires
        s.wf(),
    ensures
        s.after_call(call).wf(),
{
    if let StorageCall::Retrieve(hash) = call {
        lemma_after_retrieve(StorageState::Caching(s), hash);
    }
}

/// The count of charged retrievals never falls: over any run of calls on a live
/// storage it is at least what it was. A retrieval charges exactly one if the
/// chunk cache did not hold the hash just before it, and nothing if it did; a
/// switch of mode charges nothing.
pub proof fn touched_count_is_monotonic(s: CachingState, calls: Seq<StorageCall>)
    ensures
        s.touched <= s.after_calls(calls).touched,
        forall|i: int|
            0 <= i < calls.len() ==> (#[trigger] s.after_calls(calls.take(i + 1))).touched
                == s.after_calls(calls.take(i)).touched + match calls[i] {
                StorageCall::Retrieve(hash) => if s.after_calls(calls.take(i)).chunk_cache.contains_key(
                    hash,
                ) {
                    0nat
                } else {
                    1nat
                },
                StorageCall::SetMode(mode) => 0nat,
            },
    decreases calls.len(),
{
    if calls.len() > 0 {
        touched_count_is_monotonic(s, calls.drop_last());
    }
    assert forall|i: int| 0 <= i < calls.len() implies (#[trigger] s.after_calls(
        calls.take(i + 1),
    )).touched == s.after_calls(calls.take(i)).touched + match calls[i] {
        StorageCall::Retrieve(hash) => if s.after_calls(calls.take(i)).chunk_cache.contains_key(hash) {
            0nat
        } else {
            1nat
        },
        StorageCall::SetMode(mode) => 0nat,
    } by {
        assert(calls.take(i + 1).drop_last() =~= calls.take(i));
    }
}

/// What the chunk cache holds it keeps: after any run of calls the hash is still
/// there, with the same blob.
pub proof fn chunk_cache_only_grows(s: CachingState, calls: Seq<StorageCall>, hash: Seq<u8>)
    requires
        s.chunk_cache.contains_key(hash),
    ensures
        s.after_calls(calls).chunk_cache.contains_key(hash),
        s.after_calls(calls).chunk_cache[hash] == s.chunk_cache[hash],
    decreases calls.len(),
{
    if calls.len() > 0 {
        chunk_cache_only_grows(s, calls.drop_last(), hash);
    }
}

/// A hash that was retrieved while caching for the chunk is charged once in the
/// chunk's execution: after that retrieval no retrieval of it charges again,
/// whatever the calls in between, switches of mode among them, and whatever the
/// shard cache has evicted meanwhile. Each later retrieval returns the same blob.
pub proof fn charged_once_when_caching_chunk(
    s: CachingState,
    hash: Seq<u8>,
    calls: Seq<StorageCall>,
)
    requires
        s.cache_mode == TrieCacheMode::CachingChunk,
        s.retrieved(hash) is Ok,
    ensures
        s.after_retrieve(hash).after_calls(calls).after_retrieve(hash).touched == s.after_retrieve(
            hash,
        ).after_calls(calls).touched,
        s.after_retrieve(hash).after_calls(calls).retrieved(hash) == s.retrieved(hash),
{
    chunk_cache_only_grows(s.after_retrieve(hash), calls, hash);
}

/// A retrieval while caching for the shard leaves the chunk cache as it was, so
/// the next retrieval of the same hash is charged again.
pub proof fn charged_again_when_caching_shard(s: CachingState, hash: Seq<u8>)
    requires
        s.cache_mode == TrieCacheMode::CachingShard,
        !s.chunk_cache.contains_key(hash),
    ensures
        s.after_retrieve(hash).chunk_cache == s.chunk_cache,
        s.after_retrieve(hash).after_retrieve(hash).touched == s.touched + 2,
{
}

/// A blob of the chunk cache survives every eviction: whatever the shard cache
/// holds by then, and though it may hold the hash no longer, a retrieval of the
/// hash after any run of calls returns the blob and charges nothing.
pub proof fn chunk_cache_survives_eviction(
    s: CachingState,
    hash: Seq<u8>,
    calls: Seq<StorageCall>,
)
    requires
        s.chunk_cache.contains_key(hash),
    ensures
        s.after_calls(calls).retrieved(hash) == Ok::<Seq<u8>, StorageError>(s.chunk_cache[hash]),
        s.after_calls(calls).after_retrieve(hash) == s.after_calls(calls),
        !has_key(s.after_calls(calls).shard_cache, hash) ==> s.after_calls(calls).retrieved(hash)
            == Ok::<Seq<u8>, StorageError>(s.chunk_cache[hash]),
{
    chunk_cache_only_grows(s, calls, hash);
}

/// Content addressing survives every retrieval: where every blob of the store
/// and of both caches is kept under its own digest, the blob that a retrieval
/// returns has the digest that was asked for, and the same holds of the storage
/// after it.
pub proof fn retrieval_keeps_content_addressing(s: CachingState, hash: Seq<u8>)
    requires
        s.wf(),
        s.content_addressed(),
    ensures
        s.after_retrieve(hash).content_addressed(),
        s.retrieved(hash) matches Ok(blob) ==> sha256(blob) == hash,
{
    let after = s.after_retrieve(hash);
    let probed = lru_touch(s.shard_cache, hash);
    lemma_lru_touch(s.shard_cache, hash);
    assert(s.retrieved(hash) matches Ok(blob) ==> sha256(blob) == hash) by {
        if !s.chunk_cache.contains_key(hash) {
            if has_key(s.shard_cache, hash) {
                assert(as_map(s.shard_cache).contains_key(hash));
            } else if s.store.contains_key(hash) {
                assert(blobs_in(s.store).contains_key(hash));
            }
        }
    }
    assert forall|k: Seq<u8>| #[trigger] as_map(after.shard_cache).contains_key(k) implies sha256(
        as_map(after.shard_cache)[k],
    ) == k by {
        if after.shard_cache == s.shard_cache || after.shard_cache == probed {
            assert(as_map(s.shard_cache).contains_key(k));
        } else {
            let blob = s.found(hash)->0;
            lemma_lru_put(probed, s.shard_capacity, hash, blob);
            if k != hash {
                assert(as_map(s.shard_cache).contains_key(k));
            }
        }
    }
}

/// A retrieval puts no blob into the shard cache that is longer than the limit:
/// a pair of the shard cache after it whose blob is longer was there before.
pub proof fn retrieval_caches_no_long_blob(s: CachingState, hash: Seq<u8>, i: int)
    requires
        s.wf(),
        0 <= i < s.after_retrieve(hash).shard_cache.len(),
        s.after_retrieve(hash).shard_cache[i].1.len() > TRIE_LIMIT_CACHED_VALUE_SIZE,
    ensures
        s.shard_cache.contains(s.after_retrieve(hash).shard_cache[i]),
{
    let after = s.after_retrieve(hash).shard_cache;
    let probed = lru_touch(s.shard_cache, hash);
    lemma_moved_pairs(s.shard_cache, hash);
    if after != s.shard_cache && after != probed {
        let blob = s.found(hash)->0;
        lemma_put_pairs(probed, s.shard_capacity, hash, blob);
    }
}

/// A hit moves a pair: the cache holds the same pairs after it.
proof fn lemma_moved_pairs(s: Seq<(Seq<u8>, Seq<u8>)>, key: Seq<u8>)
    ensures
        forall|e: (Seq<u8>, Seq<u8>)| #[trigger] lru_touch(s, key).contains(e) ==> s.contains(e),
{
}

/// After a put the cache holds the pair that was put and pairs that it held.
proof fn lemma_put_pairs(s: Seq<(Seq<u8>, Seq<u8>)>, capacity: nat, key: Seq<u8>, value: Seq<u8>)
    ensures
        forall|e: (Seq<u8>, Seq<u8>)| #[trigger]
            lru_put(s, capacity, key, value).contains(e) ==> e == (key, value) || s.contains(e),
{
}

/// While the shard cache is filled by retrievals alone, it never holds a blob
/// longer than the limit, in whatever mode the retrievals were made; and a blob
/// retrieved while caching for the chunk is in the chunk cache, however long.
pub proof fn long_blobs_stay_out_of_shard_cache(s: CachingState, calls: Seq<StorageCall>)
    requires
        s.wf(),
        s.within_limit(),
    ensures
        s.after_calls(calls).wf(),
        s.after_calls(calls).within_limit(),
        forall|hash: Seq<u8>|
            s.cache_mode == TrieCacheMode::CachingChunk && (#[trigger] s.retrieved(hash)) is Ok
                ==> s.after_retrieve(hash).chunk_cache.contains_key(hash) && Ok::<
                Seq<u8>,
                StorageError,
            >(s.after_retrieve(hash).chunk_cache[hash]) == s.retrieved(hash),
    decreases calls.len(),
{
    if calls.len() > 0 {
        long_blobs_stay_out_of_shard_cache(s, calls.drop_last());
        let before = s.after_calls(calls.drop_last());
        lemma_call_keeps_wf(before, calls.last());
        if let StorageCall::Retrieve(hash) = calls.last() {
            let after = before.after_retrieve(hash);
            assert forall|i: int| 0 <= i < after.shard_cache.len() implies (
            #[trigger] after.shard_cache[i]).1.len() <= TRIE_LIMIT_CACHED_VALUE_SIZE by {
                if after.shard_cache[i].1.len() > TRIE_LIMIT_CACHED_VALUE_SIZE {
                    retrieval_caches_no_long_blob(before, hash, i);
                }
            }
        }
    }
}

} // verus!
