//! A recorded execution replayed from its proof, once with every limit.

use vstd::prelude::*;
use crate::caching_storage::TrieCachingStorage;
use crate::commit_laws::{
    commit_keeps_content_addressing, insertions_are_stored_once, lemma_insertions_net_positive,
};
use crate::entries::{blobs_of, first_touched};
use crate::errors::StorageError;
use crate::hash::{hash, hashes_view, sha256, CryptoHash};
use crate::node_list::clone_blob;
use crate::partial_storage::{IncompletePartialStorage, PartialState, PartialStorage};
use crate::replay_laws::{
    complete_replay_is_identical, lemma_live_answers, lemma_recorded_pairs, pairs_from,
    replay_answers_up_to_the_limit, stored, truncated_replay_fails_at_the_boundary,
};
use crate::shared_cache::SharedTrieCache;
use crate::store::{blobs_in, committed, content_addressed, Store};
use crate::trie_cache::TrieCache;
use crate::trie_changes::{
    first_bytes, net_delta, net_update, occurs, signed_changes, TrieChanges, TrieRefcountChange,
};
use crate::trie_storage::{setup_storage, StorageState, TrieStorage};

verus! {

/// The blobs of a list, each by its view.
pub open spec fn blobs_view(blobs: Seq<Vec<u8>>) -> Seq<Seq<u8>> {
    Seq::new(blobs.len(), |i: int| blobs[i]@)
}

/// The outcome of a run of requests, the blobs taken by their views.
pub open spec fn run_outcome(result: Result<Vec<Vec<u8>>, StorageError>) -> Result<
    Seq<Seq<u8>>,
    StorageError,
> {
    match result {
        Ok(blobs) => Ok(blobs_view(blobs@)),
        Err(e) => Err(e),
    }
}

/// A copy of a proof.
pub fn clone_proof(proof: &PartialStorage) -> (copy: PartialStorage)
    ensures
        copy@ == proof@,
{
    let mut blobs: Vec<Vec<u8>> = Vec::new();
    let mut i: usize = 0;
    while i < proof.nodes.0.len()
        invariant
            i <= proof.nodes.0.len(),
            blobs.len() == i,
            forall|j: int| 0 <= j < i ==> (#[trigger] blobs[j])@ == proof.nodes.0[j]@,
        decreases proof.nodes.0.len() - i,
    {
        blobs.push(clone_blob(&proof.nodes.0[i]));
        i += 1;
    }
    PartialStorage { nodes: PartialState(blobs) }
}

/// Records the retrieval of `requests` from `storage`, then replays it from the
/// proof with the limits 0, 1 and so on up to the number of blobs of the proof.
///
/// Every request must be one that the storage answers; the caches of the storage
/// must agree with its store, and the store must hold each blob under its own
/// digest. Returns the blobs that the storage returned, and the outcome of the
/// replay for each limit: the replay fails with `TrieNodeMissing` for every limit
/// below the number of different hashes that were requested, and returns the very
/// blobs of the recorded retrieval for the limit that is that number.
pub fn test_incomplete_storage(storage: TrieCachingStorage, requests: &Vec<CryptoHash>) -> (run: (
    Vec<Vec<u8>>,
    Vec<Result<Vec<Vec<u8>>, StorageError>>,
))
    requires
        storage.wf(),
        storage@.coherent(),
        content_addressed(blobs_in(storage@.store)),
        storage@.touched + requests.len() <= u64::MAX,
        forall|i: int|
            0 <= i < requests.len() ==> (#[trigger] StorageState::Caching(storage@).answer(
                hashes_view(requests@),
                i,
            )) is Ok,
    ensures
        run.0.len() == requests.len(),
        forall|i: int|
            0 <= i < requests.len() ==> StorageState::Caching(storage@).answer(
                hashes_view(requests@),
                i,
            ) == Ok::<Seq<u8>, StorageError>(#[trigger] run.0[i]@),
        run.1.len() == first_touched(hashes_view(requests@)).len() + 1,
        forall|limit: int|
            0 <= limit < run.1.len() ==> run_outcome(#[trigger] run.1[limit]) == if limit
                < first_touched(hashes_view(requests@)).len() {
                Err::<Seq<Seq<u8>>, StorageError>(StorageError::TrieNodeMissing)
            } else {
                Ok::<Seq<Seq<u8>>, StorageError>(blobs_view(run.0@))
            },
{
    let ghost s = storage@;
    let ghost reqs = hashes_view(requests@);
    let ghost live = StorageState::Caching(s);
    let (proof, expected) = setup_storage(TrieStorage::Caching(storage), requests);
    proof {
        lemma_live_answers(s, reqs);
        assert forall|i: int| 0 <= i < reqs.len() implies s.store.contains_key(
            #[trigger] reqs[i],
        ) by {
            assert(live.answer(reqs, i) is Ok);
        }
        lemma_recorded_pairs(s, reqs);
    }
    let size = proof.nodes.0.len();
    assert(size == first_touched(reqs).len()) by {
        assert(proof@.len() == size);
        assert(StorageState::Recording(Box::new(live), Seq::empty()).after_requests(
            reqs,
        )->Recording_1 == pairs_from(first_touched(reqs), s.store));
    }
    let mut outcomes: Vec<Result<Vec<Vec<u8>>, StorageError>> = Vec::new();
    let mut limit: usize = 0;
    loop
        invariant_except_break
            limit <= size,
            outcomes.len() == limit,
        invariant
            size == first_touched(reqs).len(),
            size == proof@.len(),
            reqs == hashes_view(requests@),
            live == StorageState::Caching(s),
            s.wf(),
            s.coherent(),
            content_addressed(blobs_in(s.store)),
            forall|i: int| 0 <= i < reqs.len() ==> (#[trigger] live.answer(reqs, i)) is Ok,
            proof@ == blobs_of(
                StorageState::Recording(Box::new(live), Seq::empty()).after_requests(
                    reqs,
                )->Recording_1,
            ),
            expected.len() == requests.len(),
            forall|i: int|
                0 <= i < requests.len() ==> live.answer(reqs, i) == Ok::<Seq<u8>, StorageError>(
                    #[trigger] expected[i]@,
                ),
            forall|l: int|
                0 <= l < outcomes.len() ==> run_outcome(#[trigger] outcomes[l]) == if l < size {
                    Err::<Seq<Seq<u8>>, StorageError>(StorageError::TrieNodeMissing)
                } else {
                    Ok::<Seq<Seq<u8>>, StorageError>(blobs_view(expected@))
                },
        ensures
            outcomes.len() == size + 1,
        decreases size - limit,
    {
        let mut replay = TrieStorage::Partial(
            IncompletePartialStorage::new(clone_proof(&proof), limit),
        );
        let ghost start = replay@;
        let outcome = replay.fetch_all(requests);
        proof {
            if limit < size {
                let k = truncated_replay_fails_at_the_boundary(s, reqs, limit as nat);
                match &outcome {
                    Ok(blobs) => {
                        assert(start.answer(reqs, k) == Ok::<Seq<u8>, StorageError>(blobs[k]@));
                    },
                    Err(e) => {
                        let j = choose|j: int|
                            0 <= j < requests.len() && #[trigger] start.answer(reqs, j) == Err::<
                                Seq<u8>,
                                StorageError,
                            >(*e);
                        replay_answers_up_to_the_limit(s, reqs, limit as nat, j);
                    },
                }
            } else {
                complete_replay_is_identical(s, reqs, limit as nat);
                if let Ok(blobs) = &outcome {
                    assert forall|i: int| 0 <= i < blobs.len() implies blobs[i]@
                        == expected[i]@ by {
                        assert(start.answer(reqs, i) == Ok::<Seq<u8>, StorageError>(blobs[i]@));
                    }
                    assert(blobs_view(blobs@) =~= blobs_view(expected@));
                }
            }
        }
        outcomes.push(outcome);
        if limit == size {
            break;
        }
        limit += 1;
    }
    (expected, outcomes)
}

/// The values as insertions: each under its own digest, once.
pub open spec fn inserted_once(values: Seq<Vec<u8>>) -> Seq<(Seq<u8>, Seq<u8>, int)> {
    Seq::new(values.len(), |i: int| (sha256(values[i]@), values[i]@, 1int))
}

/// How many of the values have the digest `key`.
pub open spec fn digest_count(values: Seq<Vec<u8>>, key: Seq<u8>) -> nat
    decreases values.len(),
{
    if values.len() == 0 {
        0
    } else {
        digest_count(values.drop_last(), key) + if sha256(values.last()@) == key {
            1nat
        } else {
            0nat
        }
    }
}

/// The first of the values that has the digest `key`.
pub open spec fn first_with_digest(values: Seq<Vec<u8>>, key: Seq<u8>) -> Seq<u8> {
    first_bytes(inserted_once(values), key)
}

/// The net count of a digest over the values inserted once each is the number
/// of values with that digest.
pub proof fn lemma_digest_count(values: Seq<Vec<u8>>, key: Seq<u8>)
    ensures
        net_delta(inserted_once(values), key) == digest_count(values, key),
    decreases values.len(),
{
    if values.len() > 0 {
        lemma_digest_count(values.drop_last(), key);
        assert(inserted_once(values).drop_last() =~= inserted_once(values.drop_last()));
    }
}

/// A store that holds the blobs of `values`, each under its own digest and with
/// one reference for each time it occurs. Where several values have one digest,
/// the first of them is the blob that is stored.
pub fn create_store_with_values(values: &Vec<Vec<u8>>) -> (store: Store)
    requires
        values.len() <= u32::MAX,
    ensures
        store.wf(),
        content_addressed(blobs_in(store@)),
        forall|k: Seq<u8>|
            store@.contains_key(k) <==> exists|i: int|
                0 <= i < values.len() && sha256(#[trigger] values[i]@) == k,
        forall|k: Seq<u8>| #[trigger] store@.contains_key(k) <==> digest_count(values@, k) > 0,
        forall|k: Seq<u8>| #[trigger]
            store@.contains_key(k) ==> store@[k] == (
                first_with_digest(values@, k),
                digest_count(values@, k),
            ),
        store@ == committed(Map::empty(), net_update(inserted_once(values@))),
{
    let mut trie_changes = TrieChanges::empty(CryptoHash::new());
    let mut i: usize = 0;
    while i < values.len()
        invariant
            i <= values.len(),
            trie_changes.deletions@.len() == 0,
            trie_changes.insertions@.len() == i,
            forall|j: int|
                0 <= j < i ==> (#[trigger] trie_changes.insertions@[j]).rc == 1
                    && trie_changes.insertions@[j].trie_node_or_value@ == values[j]@
                    && trie_changes.insertions@[j].trie_node_or_value_hash@ == sha256(values[j]@),
        decreases values.len() - i,
    {
        let value = clone_blob(&values[i]);
        let digest = hash(value.as_slice());
        trie_changes.insertions.push(
            TrieRefcountChange { trie_node_or_value_hash: digest, trie_node_or_value: value, rc: 1 },
        );
        i += 1;
    }
    let mut store = Store::new();
    let ghost d = signed_changes(trie_changes.insertions@, false);
    proof {
        assert(d =~= inserted_once(values@));
        assert(trie_changes.deltas() =~= d);
        assert forall|k: Seq<u8>| #[trigger] net_delta(d, k) == digest_count(values@, k) by {
            lemma_digest_count(values@, k);
        }
        insertions_are_stored_once(trie_changes.insertions@);
        assert(blobs_in(Map::<Seq<u8>, (Seq<u8>, nat)>::empty()) =~= Map::<
            Seq<u8>,
            Seq<u8>,
        >::empty());
        commit_keeps_content_addressing(Map::empty(), d);
        assert forall|k: Seq<u8>|
            committed(Map::empty(), net_update(d)).contains_key(k) <==> exists|j: int|
                0 <= j < values.len() && sha256(#[trigger] values[j]@) == k by {
            lemma_insertions_net_positive(d, k);
            if exists|j: int| 0 <= j < values.len() && sha256(#[trigger] values[j]@) == k {
                let j = choose|j: int| 0 <= j < values.len() && sha256(#[trigger] values[j]@) == k;
                assert(d[j].0 == k);
            }
        }
    }
    let _ = store.write_batch(&trie_changes);
    store
}

/// Reads blobs from a store that holds `values`, records the reads, and replays
/// them from the proof with every limit.
///
/// The reads are given by the indices of the blobs in `values`, in order. The
/// store is made of `values` alone, and the storage starts with empty caches.
/// Returns the hashes of the blobs that are read, and what
/// `test_incomplete_storage` returns for them: for each read the blob that is
/// stored under its hash, which is the first of the values with that digest, and
/// for each limit the outcome of the replay, a failure below the number of
/// different hashes and the same blobs from there on.
pub fn replay_recorded_reads(values: &Vec<Vec<u8>>, reads: &Vec<usize>) -> (run: (
    Vec<CryptoHash>,
    Vec<Vec<u8>>,
    Vec<Result<Vec<Vec<u8>>, StorageError>>,
))
    requires
        values.len() <= u32::MAX,
        forall|i: int| 0 <= i < reads.len() ==> (#[trigger] reads[i]) < values.len(),
    ensures
        run.0.len() == reads.len(),
        forall|i: int| 0 <= i < reads.len() ==> (#[trigger] run.0[i])@ == sha256(values[reads[i] as int]@),
        run.1.len() == reads.len(),
        forall|i: int| 0 <= i < reads.len() ==> sha256(#[trigger] run.1[i]@) == run.0[i]@,
        forall|i: int|
            0 <= i < reads.len() ==> (#[trigger] run.1[i])@ == first_with_digest(
                values@,
                sha256(values[reads[i] as int]@),
            ),
        run.2.len() == first_touched(hashes_view(run.0@)).len() + 1,
        forall|limit: int|
            0 <= limit < run.2.len() ==> run_outcome(#[trigger] run.2[limit]) == if limit
                < first_touched(hashes_view(run.0@)).len() {
                Err::<Seq<Seq<u8>>, StorageError>(StorageError::TrieNodeMissing)
            } else {
                Ok::<Seq<Seq<u8>>, StorageError>(blobs_view(run.1@))
            },
{
    let store = create_store_with_values(values);
    let mut requests: Vec<CryptoHash> = Vec::new();
    let mut i: usize = 0;
    while i < reads.len()
        invariant
            i <= reads.len(),
            requests.len() == i,
            forall|j: int| 0 <= j < reads.len() ==> (#[trigger] reads[j]) < values.len(),
            forall|j: int|
                0 <= j < i ==> (#[trigger] requests[j])@ == sha256(values[reads[j] as int]@),
        decreases reads.len() - i,
    {
        requests.push(hash(values[reads[i]].as_slice()));
        i += 1;
    }
    let storage = TrieCachingStorage::new(store, TrieCache::new());
    let ghost s = storage@;
    let ghost reqs = hashes_view(requests@);
    proof {
        lemma_live_answers(s, reqs);
    }
    let (blobs, outcomes) = test_incomplete_storage(storage, &requests);
    proof {
        assert forall|j: int| 0 <= j < reads.len() implies sha256(#[trigger] blobs[j]@)
            == requests[j]@ by {
            assert(StorageState::Caching(s).answer(reqs, j) == Ok::<Seq<u8>, StorageError>(
                blobs[j]@,
            ));
            assert(blobs_in(s.store).contains_key(reqs[j]));
        }
        assert forall|j: int| 0 <= j < reads.len() implies (#[trigger] blobs[j])@
            == first_with_digest(values@, sha256(values[reads[j] as int]@)) by {
            assert(StorageState::Caching(s).answer(reqs, j) == Ok::<Seq<u8>, StorageError>(
                blobs[j]@,
            ));
            assert(StorageState::Caching(s).answer(reqs, j) == stored(s.store, reqs[j]));
            assert(reqs[j] == sha256(values[reads[j] as int]@));
            assert(s.store.contains_key(reqs[j]));
        }
    }
    (requests, blobs, outcomes)
}

/// Reads blobs from a store that holds `values` through the shared cache
/// `shard_cache`, in one chunk's execution.
///
/// The reads are given by the indices of the blobs in `values`, in order. Returns
/// for each read a blob with the digest of the value that is read: the store's
/// blob, or the one that the owners of the shared cache have put under that
/// digest.
pub fn read_through_shared_cache(
    values: &Vec<Vec<u8>>,
    reads: &Vec<usize>,
    shard_cache: &SharedTrieCache,
) -> (blobs: Vec<Vec<u8>>)
    requires
        values.len() <= u32::MAX,
        forall|i: int| 0 <= i < reads.len() ==> (#[trigger] reads[i]) < values.len(),
    ensures
        blobs.len() == reads.len(),
        forall|i: int|
            0 <= i < reads.len() ==> sha256(#[trigger] blobs[i]@) == sha256(
                values[reads[i] as int]@,
            ),
{
    let store = create_store_with_values(values);
    let mut storage = TrieCachingStorage::new(store, TrieCache::with_capacity(0));
    let ghost stored = storage@.store;
    assert(content_addressed(storage@.chunk_cache));
    let mut blobs: Vec<Vec<u8>> = Vec::new();
    let mut i: usize = 0;
    while i < reads.len()
        invariant
            i <= reads.len(),
            blobs.len() == i,
            storage.wf(),
            storage@.store == stored,
            storage@.touched <= i,
            content_addressed(blobs_in(stored)),
            content_addressed(storage@.chunk_cache),
            forall|k: Seq<u8>|
                stored.contains_key(k) <==> exists|j: int|
                    0 <= j < values.len() && sha256(#[trigger] values[j]@) == k,
            forall|j: int| 0 <= j < reads.len() ==> (#[trigger] reads[j]) < values.len(),
            forall|j: int|
                0 <= j < i ==> sha256(#[trigger] blobs[j]@) == sha256(values[reads[j] as int]@),
        decreases reads.len() - i,
    {
        assert(reads[i as int] < values.len());
        let digest = hash(values[reads[i]].as_slice());
        assert(stored.contains_key(digest@));
        match storage.retrieve_raw_bytes_shared(shard_cache, &digest) {
            Ok(blob) => {
                blobs.push(blob);
            },
            Err(_) => {
                unreached::<()>();
            },
        }
        i += 1;
    }
    blobs
}

} // verus!
