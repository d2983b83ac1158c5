use rand::seq::SliceRandom;
use rand::Rng;
use trie_storage::{
    create_store_with_values, hash, replay, setup_storage, CryptoHash, IncompletePartialStorage,
    StorageError, Store, TrieCache, TrieCacheMode, TrieCachingStorage, TrieStorage,
    TRIE_LIMIT_CACHED_VALUE_SIZE,
};

fn create_trie(nodes: &Vec<Vec<u8>>) -> TrieStorage {
    let store = create_store_with_values(nodes);
    TrieStorage::Caching(TrieCachingStorage::new(store, TrieCache::new()))
}

fn test_incomplete_storage(nodes: &Vec<Vec<u8>>, requests: &Vec<CryptoHash>) {
    let (storage, expected) = setup_storage(create_trie(nodes), requests);
    let size = storage.nodes.0.len();
    println!("Test touches {} nodes, expected result {:?}...", size, expected);
    for i in 0..(size + 1) {
        let storage = IncompletePartialStorage::new(storage.clone(), i);
        let mut trie = TrieStorage::Partial(storage);
        let result = trie.fetch_all(requests);
        let expected_result =
            if i < size { Err(&StorageError::TrieNodeMissing) } else { Ok(&expected) };
        assert_eq!(result.as_ref(), expected_result);
    }
    let live = TrieCachingStorage::new(create_store_with_values(nodes), TrieCache::new());
    let (blobs, outcomes) = replay::test_incomplete_storage(live, requests);
    assert_eq!(blobs, expected);
    assert_eq!(outcomes.len(), size + 1);
    for (i, outcome) in outcomes.iter().enumerate() {
        let expected_result =
            if i < size { Err(&StorageError::TrieNodeMissing) } else { Ok(&expected) };
        assert_eq!(outcome.as_ref(), expected_result);
    }
    println!("Success");
}

#[test]
fn test_reads_with_incomplete_storage() {
    let mut rng = rand::thread_rng();
    for _ in 0..50 {
        let count = rng.gen_range(0, 20);
        let mut nodes: Vec<Vec<u8>> = Vec::new();
        for _ in 0..count {
            let len = rng.gen_range(1, 6);
            nodes.push((0..len).map(|_| rng.gen_range(0, 4) as u8).collect());
        }
        if nodes.is_empty() {
            continue;
        }
        let hashes: Vec<CryptoHash> = nodes.iter().map(|node| hash(node)).collect();
        {
            let steps = rng.gen_range(1, 8);
            let lookup: Vec<CryptoHash> =
                (0..steps).map(|_| *hashes.choose(&mut rng).unwrap()).collect();
            println!("Testing lookup {:?}", lookup);
            test_incomplete_storage(&nodes, &lookup);
        }
        {
            println!("Testing a read of every node");
            test_incomplete_storage(&nodes, &hashes);
        }
        {
            let prefix = hashes[0..rng.gen_range(0, hashes.len() + 1)].to_vec();
            println!("Testing a read of the nodes {:?}", prefix);
            test_incomplete_storage(&nodes, &prefix);
        }
    }
}

// Retrieve the nodes on the path to each key, returning the numbers of touched nodes
// for each path.
fn get_touched_nodes_numbers(trie: &mut TrieStorage, paths: &[Vec<Vec<u8>>]) -> Vec<u64> {
    paths
        .iter()
        .map(|path| {
            let initial_counter = trie.get_touched_nodes_count();
            for node in path {
                let got = trie.retrieve_raw_bytes(&hash(node)).unwrap();
                assert_eq!(*node, got);
            }
            trie.get_touched_nodes_count() - initial_counter
        })
        .collect()
}

// Test nodes counter and trie cache size on the sample of trie items.
#[test]
fn test_count() {
    // For keys with nibbles [000, 011, 100], the first key 000 is found through
    // Extension -> Branch -> Branch -> Leaf plus retrieving the value by its hash. In total
    // there are 9 distinct nodes, because 011 and 100 both add one Leaf and value.
    let extension = b"extension 0".to_vec();
    let root_branch = b"branch 0|1".to_vec();
    let branch = b"branch 00|01".to_vec();
    let leaf_000 = b"leaf 000".to_vec();
    let leaf_011 = b"leaf 011".to_vec();
    let leaf_100 = b"leaf 100".to_vec();
    let (value_0, value_1, value_2) = (vec![0u8], vec![1u8], vec![2u8]);
    let paths = vec![
        vec![extension.clone(), root_branch.clone(), branch.clone(), leaf_000.clone(), value_0.clone()],
        vec![extension.clone(), root_branch.clone(), branch.clone(), leaf_011.clone(), value_1.clone()],
        vec![extension.clone(), root_branch.clone(), leaf_100.clone(), value_2.clone()],
    ];
    let nodes = vec![
        extension, root_branch, branch, leaf_000, value_0, leaf_011, value_1, leaf_100, value_2,
    ];
    let mut trie = create_trie(&nodes);
    assert_eq!(get_touched_nodes_numbers(&mut trie, &paths), vec![5, 5, 4]);

    let storage = trie.as_caching_storage().unwrap();
    assert_eq!(storage.shard_cache().len(), 9);
}

// Check that same values are stored in the same trie node.
#[test]
fn test_repeated_values_count() {
    // For these keys there are 5 nodes with distinct hashes, because each path looks like
    // Extension -> Branch -> Leaf -> value, and both leaves hold the same value.
    let extension = b"extension".to_vec();
    let branch = b"branch 0|1".to_vec();
    let leaf_0 = b"leaf 48".to_vec();
    let leaf_1 = b"leaf 49".to_vec();
    let value = vec![1u8];
    let paths = vec![
        vec![extension.clone(), branch.clone(), leaf_0.clone(), value.clone()],
        vec![extension.clone(), branch.clone(), leaf_1.clone(), value.clone()],
    ];
    let nodes = vec![extension, branch, leaf_0, value.clone(), leaf_1, value];
    let store = create_store_with_values(&nodes);
    assert_eq!(store.len(), 5);
    let mut trie = create_trie(&nodes);
    assert_eq!(get_touched_nodes_numbers(&mut trie, &paths), vec![4, 4]);

    let storage = trie.as_caching_storage().unwrap();
    assert_eq!(storage.shard_cache().len(), 5);
}

/// Put the item into the cache. Check that getting it from cache returns the correct value.
#[test]
fn test_retrieve() {
    let value = vec![1u8];
    let values = vec![value.clone()];
    let store = create_store_with_values(&values);
    let mut trie_cache = TrieCache::new();
    let key = hash(&value);
    assert_eq!(trie_cache.get(&key), None);
    let mut trie_caching_storage = TrieCachingStorage::new(store, trie_cache);

    for _ in 0..2 {
        let count_before = trie_caching_storage.get_touched_nodes_count();
        let result = trie_caching_storage.retrieve_raw_bytes(&key);
        let count_after = trie_caching_storage.get_touched_nodes_count();
        assert_eq!(result.unwrap(), value);
        assert_eq!(count_before + 1, count_after);
        assert_eq!(trie_caching_storage.shard_cache().peek(&key).unwrap(), value);
    }
}

/// Check that if item is not present in a store, retrieval returns an error.
#[test]
fn test_retrieve_error() {
    let store = Store::new();
    let mut trie_caching_storage = TrieCachingStorage::new(store, TrieCache::new());
    let value = vec![1u8];
    let key = hash(&value);

    let result = trie_caching_storage.retrieve_raw_bytes(&key);
    assert!(matches!(result, Err(StorageError::TrieNodeMissing)));
}

/// Check that large values does not fall into shard cache, but fall into chunk cache.
#[test]
fn test_large_value() {
    let value = vec![1u8].repeat(TRIE_LIMIT_CACHED_VALUE_SIZE + 1);
    let values = vec![value.clone()];
    let store = create_store_with_values(&values);
    let mut trie_caching_storage = TrieCachingStorage::new(store, TrieCache::new());
    let key = hash(&value);

    trie_caching_storage.set_mode(TrieCacheMode::CachingChunk);
    let _ = trie_caching_storage.retrieve_raw_bytes(&key);

    let count_before = trie_caching_storage.get_touched_nodes_count();
    let result = trie_caching_storage.retrieve_raw_bytes(&key);
    let count_after = trie_caching_storage.get_touched_nodes_count();
    assert_eq!(trie_caching_storage.shard_cache().peek(&key), None);
    assert_eq!(result.unwrap(), value);
    assert_eq!(count_before, count_after);
}

/// Check that positions of item and costs of its retrieval are returned correctly.
#[test]
fn test_counter_with_caching() {
    let values = vec![vec![1u8]];
    let store = create_store_with_values(&values);
    let mut trie_cache = TrieCache::new();
    let value = &values[0];
    let key = hash(&value);

    // In the beginning, we are in the CachingShard mode and item is not present in cache.
    assert_eq!(trie_cache.get(&key), None);
    let mut trie_caching_storage = TrieCachingStorage::new(store, trie_cache);

    // Because we are in the CachingShard mode, item should be placed into shard cache.
    let result = trie_caching_storage.retrieve_raw_bytes(&key);
    assert_eq!(&result.unwrap(), value);

    // Move to CachingChunk mode. Retrieval should increment the counter, because it is the first time we accessed
    // item while caching chunk.
    trie_caching_storage.set_mode(TrieCacheMode::CachingChunk);
    let count_before = trie_caching_storage.get_touched_nodes_count();
    let result = trie_caching_storage.retrieve_raw_bytes(&key);
    let count_after = trie_caching_storage.get_touched_nodes_count();
    assert_eq!(&result.unwrap(), value);
    assert_eq!(count_before + 1, count_after);

    // After previous retrieval, item must be copied to chunk cache. Retrieval shouldn't increment the counter.
    let count_before = trie_caching_storage.get_touched_nodes_count();
    let result = trie_caching_storage.retrieve_raw_bytes(&key);
    let count_after = trie_caching_storage.get_touched_nodes_count();
    assert_eq!(&result.unwrap(), value);
    assert_eq!(count_before, count_after);

    // Even if we switch to caching shard, retrieval shouldn't increment the counter. Chunk cache only grows and is
    // dropped only when trie caching storage is dropped.
    trie_caching_storage.set_mode(TrieCacheMode::CachingShard);
    let count_before = trie_caching_storage.get_touched_nodes_count();
    let result = trie_caching_storage.retrieve_raw_bytes(&key);
    let count_after = trie_caching_storage.get_touched_nodes_count();
    assert_eq!(&result.unwrap(), value);
    assert_eq!(count_before, count_after);
}

/// Check that if an item present in chunk cache gets evicted from the shard cache, it stays in the chunk cache.
#[test]
fn test_chunk_cache_presence() {
    let shard_cache_size = 5;
    let values: Vec<Vec<u8>> = (0..shard_cache_size as u8 + 1).map(|i| vec![i]).collect();
    let store = create_store_with_values(&values);
    let trie_cache = TrieCache::with_capacity(shard_cache_size);
    let mut trie_caching_storage = TrieCachingStorage::new(store, trie_cache);

    let value = &values[0];
    let key = hash(&value);

    trie_caching_storage.set_mode(TrieCacheMode::CachingChunk);
    let result = trie_caching_storage.retrieve_raw_bytes(&key);
    assert_eq!(&result.unwrap(), value);

    trie_caching_storage.set_mode(TrieCacheMode::CachingShard);
    values[1..].iter().for_each(|value| {
        let result = trie_caching_storage.retrieve_raw_bytes(&hash(value));
        assert_eq!(&result.unwrap(), value);
    });

    // Check that the first element gets evicted, but the counter is not incremented.
    assert_eq!(trie_caching_storage.shard_cache().peek(&key), None);
    let count_before = trie_caching_storage.get_touched_nodes_count();
    let result = trie_caching_storage.retrieve_raw_bytes(&key);
    let count_after = trie_caching_storage.get_touched_nodes_count();
    assert_eq!(&result.unwrap(), value);
    assert_eq!(count_before, count_after);
}
