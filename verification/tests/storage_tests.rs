use trie_storage::shared_cache::SharedTrieCache;
use trie_storage::{
    apply_all, create_store_with_values, hash, replay_recorded_reads, setup_storage, CryptoHash, IncompletePartialStorage, PartialState,
    PartialStorage, StorageError, Store, TrieCache, TrieCacheMode, TrieCachingStorage, TrieChanges,
    TrieRecordingStorage, TrieRefcountChange, TrieStorage, TRIE_LIMIT_CACHED_VALUE_SIZE,
};

fn store_with(values: &[Vec<u8>]) -> Store {
    let mut store = Store::new();
    let mut trie_changes = TrieChanges::empty(CryptoHash::new());
    for value in values {
        trie_changes.insertions.push(TrieRefcountChange {
            trie_node_or_value_hash: hash(value),
            trie_node_or_value: value.clone(),
            rc: 1,
        });
    }
    let (update, _) = apply_all(&trie_changes);
    store.commit(update).unwrap();
    store
}

fn values(count: u8) -> Vec<Vec<u8>> {
    (0..count).map(|i| vec![i, i]).collect()
}

fn proof_of(blobs: &[Vec<u8>]) -> PartialStorage {
    PartialStorage { nodes: PartialState(blobs.to_vec()) }
}

#[test]
fn a_new_storage_has_touched_nothing() {
    let storage = TrieCachingStorage::new(store_with(&values(2)), TrieCache::new());
    assert_eq!(storage.get_touched_nodes_count(), 0);
    assert_eq!(storage.shard_cache().len(), 0);
    assert_eq!(storage.chunk_cache_get(&hash(&[0, 0])), None);
    assert_eq!(storage.store().len(), 2);
}

#[test]
fn the_count_never_falls_and_grows_by_one_for_a_hash_not_in_the_chunk_cache() {
    let values = values(4);
    let mut storage = TrieCachingStorage::new(store_with(&values), TrieCache::with_capacity(2));
    let requests = [0usize, 1, 0, 2, 3, 1, 0, 3];
    let modes = [
        TrieCacheMode::CachingShard,
        TrieCacheMode::CachingChunk,
        TrieCacheMode::CachingChunk,
        TrieCacheMode::CachingShard,
        TrieCacheMode::CachingChunk,
        TrieCacheMode::CachingShard,
        TrieCacheMode::CachingShard,
        TrieCacheMode::CachingShard,
    ];
    for (request, mode) in requests.iter().zip(modes.iter()) {
        storage.set_mode(*mode);
        let key = hash(&values[*request]);
        let known = storage.chunk_cache_get(&key).is_some();
        let before = storage.get_touched_nodes_count();
        assert_eq!(storage.retrieve_raw_bytes(&key), Ok(values[*request].clone()));
        let after = storage.get_touched_nodes_count();
        assert!(after >= before);
        assert_eq!(after - before, if known { 0 } else { 1 });
    }
    assert_eq!(storage.get_touched_nodes_count(), 5);
}

#[test]
fn a_missing_hash_is_charged_too() {
    let mut storage = TrieCachingStorage::new(Store::new(), TrieCache::new());
    let key = hash(b"nowhere");
    assert_eq!(storage.retrieve_raw_bytes(&key), Err(StorageError::TrieNodeMissing));
    assert_eq!(storage.get_touched_nodes_count(), 1);
    storage.set_mode(TrieCacheMode::CachingChunk);
    assert_eq!(storage.retrieve_raw_bytes(&key), Err(StorageError::TrieNodeMissing));
    assert_eq!(storage.get_touched_nodes_count(), 2);
    assert_eq!(storage.chunk_cache_get(&key), None);
    assert_eq!(storage.shard_cache().len(), 0);
}

#[test]
fn a_hash_charged_while_caching_chunk_is_not_charged_again() {
    let values = values(8);
    let mut storage = TrieCachingStorage::new(store_with(&values), TrieCache::with_capacity(2));
    let key = hash(&values[0]);
    storage.set_mode(TrieCacheMode::CachingChunk);
    assert_eq!(storage.retrieve_raw_bytes(&key), Ok(values[0].clone()));
    assert_eq!(storage.get_touched_nodes_count(), 1);
    storage.set_mode(TrieCacheMode::CachingShard);
    for value in &values[1..] {
        storage.retrieve_raw_bytes(&hash(value)).unwrap();
    }
    let count = storage.get_touched_nodes_count();
    assert_eq!(count, 8);
    assert_eq!(storage.shard_cache().peek(&key), None);
    assert_eq!(storage.retrieve_raw_bytes(&key), Ok(values[0].clone()));
    storage.set_mode(TrieCacheMode::CachingChunk);
    assert_eq!(storage.retrieve_raw_bytes(&key), Ok(values[0].clone()));
    assert_eq!(storage.get_touched_nodes_count(), count);
}

#[test]
fn a_hash_charged_while_caching_shard_is_charged_again() {
    let values = values(1);
    let mut storage = TrieCachingStorage::new(store_with(&values), TrieCache::new());
    let key = hash(&values[0]);
    storage.retrieve_raw_bytes(&key).unwrap();
    storage.retrieve_raw_bytes(&key).unwrap();
    assert_eq!(storage.get_touched_nodes_count(), 2);
    storage.set_mode(TrieCacheMode::CachingChunk);
    storage.retrieve_raw_bytes(&key).unwrap();
    assert_eq!(storage.get_touched_nodes_count(), 3);
}

#[test]
fn a_blob_of_the_limit_is_cached_and_a_longer_one_is_not() {
    let at_limit = vec![7u8; TRIE_LIMIT_CACHED_VALUE_SIZE];
    let over_limit = vec![8u8; TRIE_LIMIT_CACHED_VALUE_SIZE + 1];
    let store = store_with(&[at_limit.clone(), over_limit.clone()]);
    let mut storage = TrieCachingStorage::new(store, TrieCache::new());
    assert_eq!(TRIE_LIMIT_CACHED_VALUE_SIZE, 4000);
    assert_eq!(storage.retrieve_raw_bytes(&hash(&at_limit)), Ok(at_limit.clone()));
    assert_eq!(storage.retrieve_raw_bytes(&hash(&over_limit)), Ok(over_limit.clone()));
    assert_eq!(storage.shard_cache().peek(&hash(&at_limit)), Some(at_limit));
    assert_eq!(storage.shard_cache().peek(&hash(&over_limit)), None);
    assert_eq!(storage.shard_cache().len(), 1);
    storage.set_mode(TrieCacheMode::CachingChunk);
    assert_eq!(storage.retrieve_raw_bytes(&hash(&over_limit)), Ok(over_limit.clone()));
    assert_eq!(storage.shard_cache().peek(&hash(&over_limit)), None);
    assert_eq!(storage.chunk_cache_get(&hash(&over_limit)), Some(over_limit));
}

#[test]
fn caching_chunk_does_not_fill_the_shard_cache() {
    let values = values(3);
    let mut storage = TrieCachingStorage::new(store_with(&values), TrieCache::new());
    storage.set_mode(TrieCacheMode::CachingChunk);
    for value in &values {
        storage.retrieve_raw_bytes(&hash(value)).unwrap();
    }
    assert_eq!(storage.shard_cache().len(), 0);
    for value in &values {
        assert_eq!(storage.chunk_cache_get(&hash(value)), Some(value.clone()));
    }
}

#[test]
fn the_shard_cache_outlives_the_storage() {
    let values = values(3);
    let mut storage = TrieCachingStorage::new(store_with(&values), TrieCache::with_capacity(2));
    for value in &values {
        storage.retrieve_raw_bytes(&hash(value)).unwrap();
    }
    let (store, cache) = storage.into_parts();
    assert_eq!(store.len(), 3);
    assert_eq!(cache.len(), 2);
    assert_eq!(cache.peek(&hash(&values[0])), None);
    let mut next = TrieCachingStorage::new(Store::new(), cache);
    assert_eq!(next.get_touched_nodes_count(), 0);
    assert_eq!(next.retrieve_raw_bytes(&hash(&values[2])), Ok(values[2].clone()));
    assert_eq!(
        next.retrieve_raw_bytes(&hash(&values[0])),
        Err(StorageError::TrieNodeMissing)
    );
}

#[test]
fn retrieval_through_a_shared_cache() {
    let values = values(3);
    let shared = SharedTrieCache::new(TrieCache::with_capacity(2));
    let mut first = TrieCachingStorage::new(store_with(&values), TrieCache::with_capacity(0));
    let mut second = TrieCachingStorage::new(Store::new(), TrieCache::with_capacity(0));
    let key = hash(&values[0]);
    assert_eq!(first.retrieve_raw_bytes_shared(&shared, &key), Ok(values[0].clone()));
    assert_eq!(first.get_touched_nodes_count(), 1);
    assert_eq!(shared.share().get(&key), Some(values[0].clone()));
    assert_eq!(second.retrieve_raw_bytes_shared(&shared, &key), Ok(values[0].clone()));
    assert_eq!(second.get_touched_nodes_count(), 1);
    assert_eq!(first.shard_cache().len(), 0);
    assert_eq!(
        second.retrieve_raw_bytes_shared(&shared, &hash(&values[1])),
        Err(StorageError::TrieNodeMissing)
    );
    first.set_mode(TrieCacheMode::CachingChunk);
    assert_eq!(first.retrieve_raw_bytes_shared(&shared, &key), Ok(values[0].clone()));
    assert_eq!(first.retrieve_raw_bytes_shared(&shared, &key), Ok(values[0].clone()));
    assert_eq!(first.get_touched_nodes_count(), 2);
    assert_eq!(shared.len(), 1);
}

#[test]
fn a_recording_keeps_each_blob_once_in_the_order_of_first_reads() {
    let values = values(4);
    let live = TrieStorage::Caching(TrieCachingStorage::new(store_with(&values), TrieCache::new()));
    let mut recording = live.recording_reads();
    for index in [2usize, 0, 2, 3, 0] {
        let key = hash(&values[index]);
        assert_eq!(recording.retrieve_raw_bytes(&key), Ok(values[index].clone()));
    }
    assert_eq!(
        recording.retrieve_raw_bytes(&hash(b"nowhere")),
        Err(StorageError::TrieNodeMissing)
    );
    let proof = recording.recorded_storage().unwrap();
    assert_eq!(proof.nodes.0, vec![values[2].clone(), values[0].clone(), values[3].clone()]);
    assert_eq!(recording.get_touched_nodes_count(), 6);
    assert!(recording.as_caching_storage().is_none());
}

#[test]
fn a_recording_does_not_change_what_is_cached() {
    let values = values(3);
    let requests: Vec<CryptoHash> = [0usize, 1, 0, 2].iter().map(|i| hash(&values[*i])).collect();
    let mut plain =
        TrieStorage::Caching(TrieCachingStorage::new(store_with(&values), TrieCache::with_capacity(2)));
    let live =
        TrieStorage::Caching(TrieCachingStorage::new(store_with(&values), TrieCache::with_capacity(2)));
    let mut recording = TrieRecordingStorage::new(live);
    for key in &requests {
        assert_eq!(plain.retrieve_raw_bytes(key), recording.retrieve_raw_bytes(key));
    }
    let inner = recording.into_storage();
    let (plain, inner) =
        (plain.as_caching_storage().unwrap(), inner.as_caching_storage().unwrap());
    assert_eq!(plain.get_touched_nodes_count(), inner.get_touched_nodes_count());
    assert_eq!(plain.shard_cache().len(), inner.shard_cache().len());
    for value in &values {
        let key = hash(value);
        assert_eq!(plain.shard_cache().peek(&key), inner.shard_cache().peek(&key));
    }
}

#[test]
fn only_a_recording_has_a_recorded_proof() {
    let live = TrieStorage::Caching(TrieCachingStorage::new(Store::new(), TrieCache::new()));
    assert!(live.recorded_storage().is_none());
    assert!(live.as_caching_storage().is_some());
    assert!(live.as_partial_storage().is_none());
    let replay = TrieStorage::Partial(IncompletePartialStorage::new(proof_of(&[]), 0));
    assert!(replay.recorded_storage().is_none());
    assert!(replay.as_caching_storage().is_none());
}

#[test]
fn a_replay_serves_the_blobs_of_the_proof_and_nothing_else() {
    let blobs = values(3);
    let mut replay = IncompletePartialStorage::new(proof_of(&blobs), usize::MAX);
    assert_eq!(replay.node_count_to_fail_after(), usize::MAX);
    for _ in 0..2 {
        for blob in &blobs {
            assert_eq!(replay.retrieve_raw_bytes(&hash(blob)), Ok(blob.clone()));
        }
    }
    assert_eq!(replay.visited_count(), 3);
    assert_eq!(replay.retrieve_raw_bytes(&hash(b"nowhere")), Err(StorageError::TrieNodeMissing));
    assert_eq!(replay.visited_count(), 3);
    assert_eq!(replay.retrieve_raw_bytes(&hash(&blobs[0])), Ok(blobs[0].clone()));
}

#[test]
fn a_replay_fails_once_the_limit_is_passed() {
    let blobs = values(3);
    let mut replay = IncompletePartialStorage::new(proof_of(&blobs), 2);
    assert_eq!(replay.retrieve_raw_bytes(&hash(&blobs[0])), Ok(blobs[0].clone()));
    assert_eq!(replay.retrieve_raw_bytes(&hash(&blobs[1])), Ok(blobs[1].clone()));
    assert_eq!(replay.retrieve_raw_bytes(&hash(&blobs[0])), Ok(blobs[0].clone()));
    assert_eq!(replay.visited_count(), 2);
    assert_eq!(replay.retrieve_raw_bytes(&hash(&blobs[2])), Err(StorageError::TrieNodeMissing));
    assert_eq!(replay.visited_count(), 3);
    assert_eq!(replay.retrieve_raw_bytes(&hash(&blobs[0])), Err(StorageError::TrieNodeMissing));
}

#[test]
fn a_complete_replay_has_no_limit_to_pass() {
    let blobs = values(5);
    let mut replay = IncompletePartialStorage::complete(proof_of(&blobs));
    assert_eq!(replay.node_count_to_fail_after(), usize::MAX);
    for blob in blobs.iter().chain(blobs.iter()) {
        assert_eq!(replay.retrieve_raw_bytes(&hash(blob)), Ok(blob.clone()));
    }
    assert_eq!(replay.visited_count(), 5);
}

#[test]
fn a_batch_is_written_whole_or_not_at_all() {
    let values = values(2);
    let mut store = store_with(&values);
    let mut trie_changes = TrieChanges::empty(CryptoHash::new());
    trie_changes.insertions.push(TrieRefcountChange {
        trie_node_or_value_hash: hash(b"new"),
        trie_node_or_value: b"new".to_vec(),
        rc: 1,
    });
    trie_changes.deletions.push(TrieRefcountChange {
        trie_node_or_value_hash: hash(&values[0]),
        trie_node_or_value: values[0].clone(),
        rc: 1,
    });
    assert_eq!(store.write_batch(&trie_changes), Ok(()));
    assert_eq!(store.len(), 2);
    assert_eq!(store.get(&hash(b"new")), Some(b"new".to_vec()));
    assert_eq!(store.get(&hash(&values[0])), None);
    assert_eq!(store.write_batch(&trie_changes), Err(StorageError::StorageInternalError));
    assert_eq!(store.len(), 2);
    assert_eq!(store.refcount(&hash(b"new")), 1);
}

#[test]
fn a_replay_with_the_limit_zero_serves_nothing() {
    let blobs = values(1);
    let mut replay = IncompletePartialStorage::new(proof_of(&blobs), 0);
    assert_eq!(replay.retrieve_raw_bytes(&hash(&blobs[0])), Err(StorageError::TrieNodeMissing));
}

#[test]
fn a_replay_from_a_prefix_fails_at_the_first_blob_that_is_missing() {
    let values = values(4);
    let live = TrieStorage::Caching(TrieCachingStorage::new(store_with(&values), TrieCache::new()));
    let requests: Vec<CryptoHash> =
        [0usize, 1, 0, 2, 1, 3, 0].iter().map(|i| hash(&values[*i])).collect();
    let (proof, expected) = setup_storage(live, &requests);
    assert_eq!(proof.nodes.0.len(), 4);
    assert_eq!(expected.len(), 7);
    // The first requests for the hashes 0, 1, 2 and 3 stand at the indices 0, 1, 3 and 5.
    let first_requests = [0usize, 1, 3, 5];
    for kept in 0..=4usize {
        let prefix = proof_of(&proof.nodes.0[..kept]);
        let mut replay = IncompletePartialStorage::new(prefix, usize::MAX);
        for (index, request) in requests.iter().enumerate() {
            let result = replay.retrieve_raw_bytes(request);
            if kept < 4 && index == first_requests[kept] {
                assert_eq!(result, Err(StorageError::TrieNodeMissing));
                break;
            }
            assert_eq!(result, Ok(expected[index].clone()));
        }
    }
}

#[test]
fn a_replay_up_to_a_limit_fails_at_the_request_that_passes_it() {
    let values = values(4);
    let live = TrieStorage::Caching(TrieCachingStorage::new(store_with(&values), TrieCache::new()));
    let requests: Vec<CryptoHash> =
        [0usize, 1, 0, 2, 1, 3, 0].iter().map(|i| hash(&values[*i])).collect();
    let (proof, expected) = setup_storage(live, &requests);
    let first_requests = [0usize, 1, 3, 5];
    for limit in 0..=4usize {
        let mut replay = TrieStorage::Partial(IncompletePartialStorage::new(proof.clone(), limit));
        for (index, request) in requests.iter().enumerate() {
            let result = replay.retrieve_raw_bytes(request);
            if limit < 4 && index >= first_requests[limit] {
                assert_eq!(result, Err(StorageError::TrieNodeMissing));
            } else {
                assert_eq!(result, Ok(expected[index].clone()));
            }
        }
        let mut replay = TrieStorage::Partial(IncompletePartialStorage::new(proof.clone(), limit));
        let all = replay.fetch_all(&requests);
        assert_eq!(all, if limit < 4 { Err(StorageError::TrieNodeMissing) } else { Ok(expected.clone()) });
    }
}

#[test]
fn fetch_all_stops_at_the_first_failure() {
    let values = values(3);
    let mut storage =
        TrieStorage::Caching(TrieCachingStorage::new(store_with(&values), TrieCache::new()));
    let requests = vec![hash(&values[0]), hash(b"nowhere"), hash(&values[1])];
    assert_eq!(storage.fetch_all(&requests), Err(StorageError::TrieNodeMissing));
    assert_eq!(storage.get_touched_nodes_count(), 2);
    assert_eq!(storage.fetch_all(&vec![]), Ok(vec![]));
    assert_eq!(
        storage.fetch_all(&vec![hash(&values[2]), hash(&values[0])]),
        Ok(vec![values[2].clone(), values[0].clone()])
    );
    assert_eq!(storage.get_touched_nodes_count(), 4);
}

#[test]
fn two_blobs_with_one_digest_collapse_in_a_proof() {
    let blobs = vec![vec![1u8], vec![2u8], vec![1u8]];
    let mut replay = IncompletePartialStorage::new(proof_of(&blobs), 2);
    assert_eq!(replay.retrieve_raw_bytes(&hash(&[1])), Ok(vec![1]));
    assert_eq!(replay.retrieve_raw_bytes(&hash(&[2])), Ok(vec![2]));
    assert_eq!(replay.visited_count(), 2);
}

#[test]
fn a_store_made_of_values_holds_each_under_its_digest() {
    let values = vec![vec![1u8], vec![2u8, 2], vec![1u8]];
    let store = create_store_with_values(&values);
    assert_eq!(store.len(), 2);
    assert_eq!(store.get(&hash(&[1])), Some(vec![1]));
    assert_eq!(store.refcount(&hash(&[1])), 2);
    assert_eq!(store.refcount(&hash(&[2, 2])), 1);
    assert_eq!(create_store_with_values(&vec![]).len(), 0);
}

#[test]
fn recorded_reads_replay_with_every_limit() {
    let values = values(4);
    let reads = vec![2usize, 0, 2, 3, 0, 2];
    let (requests, blobs, outcomes) = replay_recorded_reads(&values, &reads);
    let expected: Vec<Vec<u8>> = reads.iter().map(|i| values[*i].clone()).collect();
    assert_eq!(requests, expected.iter().map(|blob| hash(blob)).collect::<Vec<_>>());
    assert_eq!(blobs, expected);
    assert_eq!(
        outcomes,
        vec![
            Err(StorageError::TrieNodeMissing),
            Err(StorageError::TrieNodeMissing),
            Err(StorageError::TrieNodeMissing),
            Ok(expected),
        ]
    );
    let (requests, blobs, outcomes) = replay_recorded_reads(&values, &vec![]);
    assert!(requests.is_empty() && blobs.is_empty());
    assert_eq!(outcomes, vec![Ok(vec![])]);
}

#[test]
fn a_recording_hands_a_switch_of_mode_on() {
    let values = values(2);
    let live = TrieStorage::Caching(TrieCachingStorage::new(store_with(&values), TrieCache::new()));
    let mut recording = live.recording_reads();
    recording.set_mode(TrieCacheMode::CachingChunk);
    let key = hash(&values[0]);
    recording.retrieve_raw_bytes(&key).unwrap();
    recording.retrieve_raw_bytes(&key).unwrap();
    assert_eq!(recording.get_touched_nodes_count(), 1);
    recording.set_mode(TrieCacheMode::CachingShard);
    recording.retrieve_raw_bytes(&hash(&values[1])).unwrap();
    recording.retrieve_raw_bytes(&hash(&values[1])).unwrap();
    assert_eq!(recording.get_touched_nodes_count(), 3);
    let mut replay = TrieStorage::Partial(IncompletePartialStorage::complete(
        recording.recorded_storage().unwrap(),
    ));
    replay.set_mode(TrieCacheMode::CachingChunk);
    assert_eq!(replay.retrieve_raw_bytes(&key), Ok(values[0].clone()));
}

#[test]
fn a_storage_caches_for_the_shard_by_default() {
    assert_eq!(TrieCacheMode::default(), TrieCacheMode::CachingShard);
    let values = values(1);
    let mut storage = TrieCachingStorage::new(store_with(&values), TrieCache::new());
    storage.retrieve_raw_bytes(&hash(&values[0])).unwrap();
    assert_eq!(storage.shard_cache().len(), 1);
    assert_eq!(storage.chunk_cache_get(&hash(&values[0])), None);
}

#[test]
fn an_entry_evicted_from_the_shard_cache_stays_in_the_chunk_cache() {
    let values = values(4);
    let mut storage = TrieCachingStorage::new(store_with(&values), TrieCache::with_capacity(2));
    let key = hash(&values[0]);
    assert_eq!(storage.retrieve_raw_bytes(&key), Ok(values[0].clone()));
    assert_eq!(storage.shard_cache().peek(&key), Some(values[0].clone()));
    assert_eq!(storage.get_touched_nodes_count(), 1);

    storage.set_mode(TrieCacheMode::CachingChunk);
    assert_eq!(storage.retrieve_raw_bytes(&key), Ok(values[0].clone()));
    assert_eq!(storage.get_touched_nodes_count(), 2);
    assert_eq!(storage.chunk_cache_get(&key), Some(values[0].clone()));
    assert_eq!(storage.shard_cache().peek(&key), Some(values[0].clone()));

    storage.set_mode(TrieCacheMode::CachingShard);
    for value in &values[1..] {
        assert_eq!(storage.retrieve_raw_bytes(&hash(value)), Ok(value.clone()));
    }
    assert_eq!(storage.shard_cache().len(), 2);
    assert_eq!(storage.shard_cache().peek(&key), None);

    let count_before = storage.get_touched_nodes_count();
    assert_eq!(count_before, 5);
    assert_eq!(storage.retrieve_raw_bytes(&key), Ok(values[0].clone()));
    assert_eq!(storage.get_touched_nodes_count(), count_before);
    assert_eq!(storage.shard_cache().peek(&key), None);
}

#[test]
fn a_blob_through_a_shared_cache_has_the_digest_that_was_asked_for() {
    let values = values(3);
    let shared = SharedTrieCache::new(TrieCache::with_capacity(2));
    let mut storage = TrieCachingStorage::new(store_with(&values), TrieCache::with_capacity(0));
    for value in values.iter().chain(values.iter()) {
        let key = hash(value);
        let blob = storage.retrieve_raw_bytes_shared(&shared, &key).unwrap();
        assert_eq!(hash(&blob), key);
        assert_eq!(&blob, value);
        if let Some(cached) = shared.get(&key) {
            assert_eq!(hash(&cached), key);
        }
    }
    assert_eq!(storage.get_touched_nodes_count(), 6);
    assert_eq!(shared.len(), 2);
}

#[test]
fn a_checked_retrieval_is_a_retrieval_while_the_count_has_room() {
    let values = values(2);
    let mut storage = TrieCachingStorage::new(store_with(&values), TrieCache::new());
    let key = hash(&values[0]);
    assert_eq!(storage.try_retrieve_raw_bytes(&key), Some(Ok(values[0].clone())));
    assert_eq!(storage.get_touched_nodes_count(), 1);
    assert_eq!(
        storage.try_retrieve_raw_bytes(&hash(b"nowhere")),
        Some(Err(StorageError::TrieNodeMissing))
    );
    assert_eq!(storage.get_touched_nodes_count(), 2);
    storage.set_mode(TrieCacheMode::CachingChunk);
    assert_eq!(storage.try_retrieve_raw_bytes(&key), Some(Ok(values[0].clone())));
    assert_eq!(storage.try_retrieve_raw_bytes(&key), Some(Ok(values[0].clone())));
    assert_eq!(storage.get_touched_nodes_count(), 3);
}

#[test]
fn reads_through_a_shared_cache_return_the_values() {
    let values = values(4);
    let shared = SharedTrieCache::with_capacity(2);
    let reads = vec![1usize, 3, 1, 0, 3];
    let blobs = trie_storage::read_through_shared_cache(&values, &reads, &shared);
    let expected: Vec<Vec<u8>> = reads.iter().map(|i| values[*i].clone()).collect();
    assert_eq!(blobs, expected);
    assert_eq!(shared.len(), 2);
    assert_eq!(shared.get(&hash(&values[3])), Some(values[3].clone()));
    let digest = shared.share().put_blob(vec![9, 9, 9]);
    assert_eq!(digest, hash(&[9, 9, 9]));
    assert_eq!(shared.get(&digest), Some(vec![9, 9, 9]));
    assert!(trie_storage::read_through_shared_cache(&values, &vec![], &shared).is_empty());
}
