//! What holds between an execution that was recorded and its replay from the
//! proof.

use vstd::prelude::*;
use crate::caching_storage::CachingState;
use crate::entries::{
    blobs_of, first_touched, has_key, lookup, lemma_first_touched, lemma_first_touched_prefix,
};
use crate::errors::StorageError;
use crate::hash::sha256;
use crate::partial_storage::{lemma_proof_map, proof_map, ReplayState};
use crate::store::{blobs_in, content_addressed};
use crate::trie_cache::{lemma_lru_put, lemma_lru_touch, lru_touch};
use crate::trie_storage::{lemma_after_retrieve, StorageState};

verus! {

/// What a live storage whose caches agree with its store returns for `hash`:
/// the store's blob, or the failure where the store has none.
pub open spec fn stored(store: Map<Seq<u8>, (Seq<u8>, nat)>, hash: Seq<u8>) -> Result<
    Seq<u8>,
    StorageError,
> {
    if store.contains_key(hash) {
        Ok(store[hash].0)
    } else {
        Err(StorageError::TrieNodeMissing)
    }
}

/// The hashes of `keys` with the blobs that `store` has for them.
pub open spec fn pairs_from(keys: Seq<Seq<u8>>, store: Map<Seq<u8>, (Seq<u8>, nat)>) -> Seq<
    (Seq<u8>, Seq<u8>),
> {
    Seq::new(keys.len(), |i: int| (keys[i], store[keys[i]].0))
}

/// A retrieval from a live storage whose caches agree with its store returns
/// what the store has, and leaves the caches in agreement with the same store.
pub proof fn lemma_coherent_retrieve(s: CachingState, hash: Seq<u8>)
    requires
        s.wf(),
        s.coherent(),
    ensures
        s.after_retrieve(hash).wf(),
        s.after_retrieve(hash).coherent(),
        s.after_retrieve(hash).store == s.store,
        s.retrieved(hash) == stored(s.store, hash),
{
    let after = s.after_retrieve(hash);
    let probed = lru_touch(s.shard_cache, hash);
    lemma_lru_touch(s.shard_cache, hash);
    if !s.chunk_cache.contains_key(hash) {
        match s.found(hash) {
            Some(blob) => {
                assert(blob == s.store[hash].0);
                lemma_lru_put(probed, s.shard_capacity, hash, blob);
                assert forall|k: Seq<u8>| #[trigger]
                    has_key(after.shard_cache, k) implies s.store.contains_key(k) && lookup(
                    after.shard_cache,
                    k,
                ) == Some(s.store[k].0) by {
                    if after.shard_cache != probed {
                        if k != hash {
                            assert(has_key(probed, k));
                            assert(has_key(s.shard_cache, k));
                        }
                    } else {
                        assert(has_key(s.shard_cache, k));
                    }
                }
            },
            None => {
                assert forall|k: Seq<u8>| #[trigger]
                    has_key(after.shard_cache, k) implies s.store.contains_key(k) && lookup(
                    after.shard_cache,
                    k,
                ) == Some(s.store[k].0) by {
                    assert(has_key(s.shard_cache, k));
                }
            },
        }
    }
}

/// Over any requests a live storage whose caches agree with its store answers
/// each request with what the store has.
pub proof fn lemma_live_answers(s: CachingState, requests: Seq<Seq<u8>>)
    requires
        s.wf(),
        s.coherent(),
    ensures
        StorageState::Caching(s).after_requests(requests) is Caching,
        StorageState::Caching(s).after_requests(requests)->Caching_0.wf(),
        StorageState::Caching(s).after_requests(requests)->Caching_0.coherent(),
        StorageState::Caching(s).after_requests(requests)->Caching_0.store == s.store,
        forall|i: int|
            0 <= i < requests.len() ==> #[trigger] StorageState::Caching(s).answer(requests, i)
                == stored(s.store, requests[i]),
    decreases requests.len(),
{
    let live = StorageState::Caching(s);
    if requests.len() > 0 {
        let front = requests.drop_last();
        lemma_live_answers(s, front);
        lemma_coherent_retrieve(live.after_requests(front)->Caching_0, requests.last());
    }
    assert forall|i: int| 0 <= i < requests.len() implies #[trigger] live.answer(requests, i)
        == stored(s.store, requests[i]) by {
        lemma_live_answers(s, requests.take(i));
        lemma_coherent_retrieve(live.after_requests(requests.take(i))->Caching_0, requests[i]);
    }
}

/// A recording around a live storage that answers every request records the
/// hashes in the order in which they were first requested, each with the store's
/// blob.
pub proof fn lemma_recorded_pairs(s: CachingState, requests: Seq<Seq<u8>>)
    requires
        s.wf(),
        s.coherent(),
        forall|i: int| 0 <= i < requests.len() ==> s.store.contains_key(#[trigger] requests[i]),
    ensures
        StorageState::Recording(
            Box::new(StorageState::Caching(s)),
            Seq::empty(),
        ).after_requests(requests) == StorageState::Recording(
            Box::new(StorageState::Caching(s).after_requests(requests)),
            pairs_from(first_touched(requests), s.store),
        ),
    decreases requests.len(),
{
    let live = StorageState::Caching(s);
    if requests.len() == 0 {
        assert(pairs_from(first_touched(requests), s.store) =~= Seq::empty());
    } else {
        let front = requests.drop_last();
        let h = requests.last();
        lemma_recorded_pairs(s, front);
        lemma_live_answers(s, front);
        let inner = live.after_requests(front);
        lemma_coherent_retrieve(inner->Caching_0, h);
        let rec = pairs_from(first_touched(front), s.store);
        assert(has_key(rec, h) <==> first_touched(front).contains(h)) by {
            if first_touched(front).contains(h) {
                let i = choose|i: int| 0 <= i < first_touched(front).len() && first_touched(
                    front,
                )[i] == h;
                assert(rec[i].0 == h);
            }
        }
        if !has_key(rec, h) {
            assert(rec.push((h, s.store[h].0)) =~= pairs_from(first_touched(requests), s.store));
        }
    }
}

/// A replay storage that has every hash that is requested notes the hashes in
/// the order in which they were first requested.
pub proof fn lemma_replay_visits(
    recorded: Map<Seq<u8>, Seq<u8>>,
    limit: nat,
    requests: Seq<Seq<u8>>,
)
    requires
        forall|i: int| 0 <= i < requests.len() ==> recorded.contains_key(#[trigger] requests[i]),
    ensures
        StorageState::Partial(
            ReplayState { recorded, visited: Seq::empty(), limit },
        ).after_requests(requests) == StorageState::Partial(
            ReplayState { recorded, visited: first_touched(requests), limit },
        ),
    decreases requests.len(),
{
    if requests.len() > 0 {
        let front = requests.drop_last();
        lemma_replay_visits(recorded, limit, front);
    }
}

/// The map of a proof that holds the store's blobs for the hashes of `keys`: it
/// has exactly those hashes, each with the store's blob.
pub proof fn lemma_recorded_proof_map(
    store: Map<Seq<u8>, (Seq<u8>, nat)>,
    keys: Seq<Seq<u8>>,
)
    requires
        content_addressed(blobs_in(store)),
        forall|i: int| 0 <= i < keys.len() ==> store.contains_key(#[trigger] keys[i]),
    ensures
        forall|h: Seq<u8>|
            #![trigger proof_map(blobs_of(pairs_from(keys, store))).contains_key(h)]
            #![trigger keys.contains(h)]
            proof_map(blobs_of(pairs_from(keys, store))).contains_key(h) <==> keys.contains(h),
        forall|h: Seq<u8>| #[trigger]
            keys.contains(h) ==> proof_map(blobs_of(pairs_from(keys, store)))[h] == store[h].0,
{
    let blobs = blobs_of(pairs_from(keys, store));
    let m = proof_map(blobs);
    lemma_proof_map(blobs);
    assert forall|i: int| 0 <= i < keys.len() implies sha256(#[trigger] blobs[i]) == keys[i] by {
        assert(blobs_in(store).contains_key(keys[i]));
    }
    assert forall|h: Seq<u8>| m.contains_key(h) <==> keys.contains(h) by {
        if keys.contains(h) {
            let i = choose|i: int| 0 <= i < keys.len() && keys[i] == h;
            assert(sha256(blobs[i]) == h);
        }
    }
}

/// The hashes that were requested first are all stored, where every request is
/// for a stored hash.
proof fn lemma_first_touched_stored(store: Map<Seq<u8>, (Seq<u8>, nat)>, requests: Seq<Seq<u8>>)
    requires
        forall|i: int| 0 <= i < requests.len() ==> store.contains_key(#[trigger] requests[i]),
    ensures
        forall|i: int|
            0 <= i < first_touched(requests).len() ==> store.contains_key(
                #[trigger] first_touched(requests)[i],
            ),
{
    let keys = first_touched(requests);
    lemma_first_touched(requests);
    assert forall|i: int| 0 <= i < keys.len() implies store.contains_key(#[trigger] keys[i]) by {
        assert(keys.contains(keys[i]));
    }
}

/// Replaying a recorded execution from its proof, up to a limit.
///
/// A live storage whose caches agree with its store, and whose store is addressed
/// by content, answers every one of `requests`; a recording around it yields a
/// proof. The proof has one blob for each different hash that was requested. A
/// replay storage over the proof with the limit `limit` answers the request at
/// index `j` as the live storage did if no more than `limit` different hashes
/// were requested up to and with it, and fails with `TrieNodeMissing` if more
/// were.
pub proof fn replay_answers_up_to_the_limit(
    s: CachingState,
    requests: Seq<Seq<u8>>,
    limit: nat,
    j: int,
)
    requires
        s.wf(),
        s.coherent(),
        content_addressed(blobs_in(s.store)),
        forall|i: int|
            0 <= i < requests.len() ==> (#[trigger] StorageState::Caching(s).answer(requests, i)) is Ok,
        0 <= j < requests.len(),
    ensures
        ({
            let live = StorageState::Caching(s);
            let proof = blobs_of(
                StorageState::Recording(Box::new(live), Seq::empty()).after_requests(
                    requests,
                )->Recording_1,
            );
            let replay = StorageState::Partial(
                ReplayState { recorded: proof_map(proof), visited: Seq::empty(), limit },
            );
            &&& proof.len() == first_touched(requests).len()
            &&& replay.answer(requests, j) == if first_touched(requests.take(j + 1)).len()
                <= limit {
                live.answer(requests, j)
            } else {
                Err(StorageError::TrieNodeMissing)
            }
        }),
{
    let live = StorageState::Caching(s);
    lemma_live_answers(s, requests);
    assert forall|i: int| 0 <= i < requests.len() implies s.store.contains_key(
        #[trigger] requests[i],
    ) by {
        assert(live.answer(requests, i) is Ok);
    }
    lemma_recorded_pairs(s, requests);
    lemma_first_touched_stored(s.store, requests);
    lemma_recorded_proof_map(s.store, first_touched(requests));
    lemma_first_touched(requests);
    let proof = blobs_of(pairs_from(first_touched(requests), s.store));
    let recorded = proof_map(proof);
    let front = requests.take(j);
    lemma_replay_visits(recorded, limit, front);
    assert(requests.take(j + 1).drop_last() =~= front);
}

/// A replay with a limit that covers the whole proof returns, request by
/// request, the very bytes of the recorded execution.
pub proof fn complete_replay_is_identical(s: CachingState, requests: Seq<Seq<u8>>, limit: nat)
    requires
        s.wf(),
        s.coherent(),
        content_addressed(blobs_in(s.store)),
        forall|i: int|
            0 <= i < requests.len() ==> (#[trigger] StorageState::Caching(s).answer(requests, i)) is Ok,
        limit >= first_touched(requests).len(),
    ensures
        ({
            let live = StorageState::Caching(s);
            let proof = blobs_of(
                StorageState::Recording(Box::new(live), Seq::empty()).after_requests(
                    requests,
                )->Recording_1,
            );
            let replay = StorageState::Partial(
                ReplayState { recorded: proof_map(proof), visited: Seq::empty(), limit },
            );
            forall|j: int|
                0 <= j < requests.len() ==> #[trigger] replay.answer(requests, j) == live.answer(
                    requests,
                    j,
                )
        }),
{
    let live = StorageState::Caching(s);
    let proof = blobs_of(
        StorageState::Recording(Box::new(live), Seq::empty()).after_requests(requests)->Recording_1,
    );
    let replay = StorageState::Partial(
        ReplayState { recorded: proof_map(proof), visited: Seq::empty(), limit },
    );
    assert forall|j: int| 0 <= j < requests.len() implies #[trigger] replay.answer(requests, j)
        == live.answer(requests, j) by {
        replay_answers_up_to_the_limit(s, requests, limit, j);
        lemma_first_touched_prefix(requests, j + 1);
    }
}

/// A replay with a limit below the number of different hashes fails, with
/// `TrieNodeMissing`, at one request and at none before it: the first request
/// for a hash beyond the first `limit` different ones. Every request before it is
/// answered with the bytes of the recorded execution.
pub proof fn truncated_replay_fails_at_the_boundary(
    s: CachingState,
    requests: Seq<Seq<u8>>,
    limit: nat,
) -> (k: int)
    requires
        s.wf(),
        s.coherent(),
        content_addressed(blobs_in(s.store)),
        forall|i: int|
            0 <= i < requests.len() ==> (#[trigger] StorageState::Caching(s).answer(requests, i)) is Ok,
        limit < first_touched(requests).len(),
    ensures
        0 <= k < requests.len(),
        first_touched(requests.take(k)).len() == limit,
        first_touched(requests.take(k + 1)).len() == limit + 1,
        ({
            let live = StorageState::Caching(s);
            let proof = blobs_of(
                StorageState::Recording(Box::new(live), Seq::empty()).after_requests(
                    requests,
                )->Recording_1,
            );
            let replay = StorageState::Partial(
                ReplayState { recorded: proof_map(proof), visited: Seq::empty(), limit },
            );
            &&& replay.answer(requests, k) == Err::<Seq<u8>, StorageError>(
                StorageError::TrieNodeMissing,
            )
            &&& forall|j: int|
                0 <= j < k ==> #[trigger] replay.answer(requests, j) == live.answer(requests, j)
        }),
{
    assert(requests.take(requests.len() as int) =~= requests);
    let k = lemma_boundary(requests, limit, requests.len() as int);
    let live = StorageState::Caching(s);
    let proof = blobs_of(
        StorageState::Recording(Box::new(live), Seq::empty()).after_requests(requests)->Recording_1,
    );
    let replay = StorageState::Partial(
        ReplayState { recorded: proof_map(proof), visited: Seq::empty(), limit },
    );
    replay_answers_up_to_the_limit(s, requests, limit, k);
    assert forall|j: int| 0 <= j < k implies #[trigger] replay.answer(requests, j) == live.answer(
        requests,
        j,
    ) by {
        replay_answers_up_to_the_limit(s, requests, limit, j);
        lemma_first_touched_prefix(requests.take(k), j + 1);
        assert(requests.take(k).take(j + 1) =~= requests.take(j + 1));
    }
    k
}

/// Any requests leave a storage in order.
pub proof fn lemma_after_requests_wf(s: StorageState, requests: Seq<Seq<u8>>)
    requires
        s.wf(),
    ensures
        s.after_requests(requests).wf(),
    decreases requests.len(),
{
    if requests.len() > 0 {
        lemma_after_requests_wf(s, requests.drop_last());
        lemma_after_retrieve(s.after_requests(requests.drop_last()), requests.last());
    }
}

/// A replay storage keeps its blobs and its limit over any requests.
proof fn lemma_replay_keeps_proof(p: ReplayState, requests: Seq<Seq<u8>>)
    ensures
        StorageState::Partial(p).after_requests(requests) is Partial,
        StorageState::Partial(p).after_requests(requests)->Partial_0.recorded == p.recorded,
        StorageState::Partial(p).after_requests(requests)->Partial_0.limit == p.limit,
    decreases requests.len(),
{
    if requests.len() > 0 {
        lemma_replay_keeps_proof(p, requests.drop_last());
    }
}

/// Replaying a recorded execution from the first blobs of its proof.
///
/// The setting is that of `replay_answers_up_to_the_limit`, but the replay storage
/// is made from the first `n` blobs of the proof alone, with a limit that they
/// never reach. It answers a request as the live storage did if the hash is
/// among the first `n` different hashes that were requested, and fails with
/// `TrieNodeMissing` for every other hash.
pub proof fn replay_from_a_prefix_of_the_proof(
    s: CachingState,
    requests: Seq<Seq<u8>>,
    n: int,
    limit: nat,
    j: int,
)
    requires
        s.wf(),
        s.coherent(),
        content_addressed(blobs_in(s.store)),
        forall|i: int|
            0 <= i < requests.len() ==> (#[trigger] StorageState::Caching(s).answer(requests, i)) is Ok,
        0 <= n <= first_touched(requests).len(),
        n <= limit,
        0 <= j < requests.len(),
    ensures
        ({
            let live = StorageState::Caching(s);
            let proof = blobs_of(
                StorageState::Recording(Box::new(live), Seq::empty()).after_requests(
                    requests,
                )->Recording_1,
            );
            let replay = StorageState::Partial(
                ReplayState { recorded: proof_map(proof.take(n)), visited: Seq::empty(), limit },
            );
            replay.answer(requests, j) == if first_touched(requests).take(n).contains(requests[j]) {
                live.answer(requests, j)
            } else {
                Err(StorageError::TrieNodeMissing)
            }
        }),
{
    let live = StorageState::Caching(s);
    lemma_live_answers(s, requests);
    assert forall|i: int| 0 <= i < requests.len() implies s.store.contains_key(
        #[trigger] requests[i],
    ) by {
        assert(live.answer(requests, i) is Ok);
    }
    lemma_recorded_pairs(s, requests);
    lemma_first_touched_stored(s.store, requests);
    lemma_first_touched(requests);
    let keys = first_touched(requests).take(n);
    let proof = blobs_of(pairs_from(first_touched(requests), s.store));
    assert(proof.take(n) =~= blobs_of(pairs_from(keys, s.store)));
    lemma_recorded_proof_map(s.store, keys);
    let start = ReplayState { recorded: proof_map(proof.take(n)), visited: Seq::empty(), limit };
    let replay = StorageState::Partial(start);
    lemma_replay_keeps_proof(start, requests.take(j));
    lemma_after_requests_wf(replay, requests.take(j));
    let now = replay.after_requests(requests.take(j))->Partial_0;
    let next = now.after_retrieve(requests[j]);
    lemma_after_retrieve(StorageState::Partial(now), requests[j]);
    assert(next.visited.len() <= n) by {
        keys.unique_seq_to_set();
        next.visited.unique_seq_to_set();
        vstd::seq_lib::seq_to_set_is_finite(keys);
        vstd::set_lib::lemma_len_subset(next.visited.to_set(), keys.to_set());
    }
}

/// A replay from the first `n` blobs of a proof that has more fails, with
/// `TrieNodeMissing`, at the first request for a hash beyond the first `n`
/// different ones, and at none before it: every request before it is answered
/// with the bytes of the recorded execution.
pub proof fn prefix_replay_fails_at_the_boundary(
    s: CachingState,
    requests: Seq<Seq<u8>>,
    n: nat,
    limit: nat,
) -> (k: int)
    requires
        s.wf(),
        s.coherent(),
        content_addressed(blobs_in(s.store)),
        forall|i: int|
            0 <= i < requests.len() ==> (#[trigger] StorageState::Caching(s).answer(requests, i)) is Ok,
        n < first_touched(requests).len(),
        n <= limit,
    ensures
        0 <= k < requests.len(),
        first_touched(requests.take(k)).len() == n,
        first_touched(requests.take(k + 1)).len() == n + 1,
        ({
            let live = StorageState::Caching(s);
            let proof = blobs_of(
                StorageState::Recording(Box::new(live), Seq::empty()).after_requests(
                    requests,
                )->Recording_1,
            );
            let replay = StorageState::Partial(
                ReplayState {
                    recorded: proof_map(proof.take(n as int)),
                    visited: Seq::empty(),
                    limit,
                },
            );
            &&& replay.answer(requests, k) == Err::<Seq<u8>, StorageError>(
                StorageError::TrieNodeMissing,
            )
            &&& forall|j: int|
                0 <= j < k ==> #[trigger] replay.answer(requests, j) == live.answer(requests, j)
        }),
{
    assert(requests.take(requests.len() as int) =~= requests);
    let k = lemma_boundary(requests, n, requests.len() as int);
    let live = StorageState::Caching(s);
    let proof = blobs_of(
        StorageState::Recording(Box::new(live), Seq::empty()).after_requests(requests)->Recording_1,
    );
    let replay = StorageState::Partial(
        ReplayState { recorded: proof_map(proof.take(n as int)), visited: Seq::empty(), limit },
    );
    let all = first_touched(requests);
    lemma_first_touched(requests);
    lemma_first_touched_prefix(requests, k);
    lemma_first_touched_prefix(requests, k + 1);
    lemma_first_touched(requests.take(k));
    assert(requests.take(k + 1).drop_last() =~= requests.take(k));
    replay_from_a_prefix_of_the_proof(s, requests, n as int, limit, k);
    assert(!all.take(n as int).contains(requests[k])) by {
        assert(first_touched(requests.take(k + 1)) == first_touched(requests.take(k)).push(
            requests[k],
        ));
    }
    assert forall|j: int| 0 <= j < k implies #[trigger] replay.answer(requests, j) == live.answer(
        requests,
        j,
    ) by {
        replay_from_a_prefix_of_the_proof(s, requests, n as int, limit, j);
    }
    k
}

/// Where a prefix of the requests holds more than `limit` different hashes,
/// there is the request with which the count passes `limit`.
proof fn lemma_boundary(requests: Seq<Seq<u8>>, limit: nat, n: int) -> (k: int)
    requires
        0 <= n <= requests.len(),
        limit < first_touched(requests.take(n)).len(),
    ensures
        0 <= k < n,
        first_touched(requests.take(k)).len() == limit,
        first_touched(requests.take(k + 1)).len() == limit + 1,
    decreases n,
{
    assert(requests.take(n).drop_last() =~= requests.take(n - 1));
    if limit < first_touched(requests.take(n - 1)).len() {
        lemma_boundary(requests, limit, n - 1)
    } else {
        n - 1
    }
}

} // verus!
