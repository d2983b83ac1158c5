use trie_storage::{
    apply_all, hash, CryptoHash, StorageError, Store, TrieChanges, TrieRefcountChange,
};

fn change(value: &[u8], rc: u32) -> TrieRefcountChange {
    TrieRefcountChange {
        trie_node_or_value_hash: hash(value),
        trie_node_or_value: value.to_vec(),
        rc,
    }
}

fn changes(insertions: Vec<TrieRefcountChange>, deletions: Vec<TrieRefcountChange>) -> TrieChanges {
    let mut trie_changes = TrieChanges::empty(CryptoHash::new());
    trie_changes.insertions = insertions;
    trie_changes.deletions = deletions;
    trie_changes
}

#[test]
fn hash_is_sha256() {
    let empty: [u8; 32] = [
        0xe3, 0xb0, 0xc4, 0x42, 0x98, 0xfc, 0x1c, 0x14, 0x9a, 0xfb, 0xf4, 0xc8, 0x99, 0x6f, 0xb9,
        0x24, 0x27, 0xae, 0x41, 0xe4, 0x64, 0x9b, 0x93, 0x4c, 0xa4, 0x95, 0x99, 0x1b, 0x78, 0x52,
        0xb8, 0x55,
    ];
    let abc: [u8; 32] = [
        0xba, 0x78, 0x16, 0xbf, 0x8f, 0x01, 0xcf, 0xea, 0x41, 0x41, 0x40, 0xde, 0x5d, 0xae, 0x22,
        0x23, 0xb0, 0x03, 0x61, 0xa3, 0x96, 0x17, 0x7a, 0x9c, 0xb4, 0x10, 0xff, 0x61, 0xf2, 0x00,
        0x15, 0xad,
    ];
    assert_eq!(hash(&[]), CryptoHash(empty));
    assert_eq!(hash(b"abc"), CryptoHash(abc));
    assert_ne!(hash(b"abc"), CryptoHash(*b"abc_____________________________"));
}

#[test]
fn equal_hashes_are_the_same() {
    assert!(hash(b"node").same_as(&hash(b"node")));
    assert!(!hash(b"node").same_as(&hash(b"other")));
    assert_eq!(CryptoHash::new(), CryptoHash([0; 32]));
}

#[test]
fn empty_changes_keep_the_root() {
    let root = hash(b"root");
    let trie_changes = TrieChanges::empty(root);
    assert_eq!(trie_changes.old_root, root);
    assert_eq!(trie_changes.new_root, root);
    assert!(trie_changes.insertions.is_empty());
    assert!(trie_changes.deletions.is_empty());
    let (update, new_root) = apply_all(&trie_changes);
    assert_eq!(update.len(), 0);
    assert_eq!(new_root, root);
}

#[test]
fn identical_blobs_are_stored_once() {
    let mut store = Store::new();
    let trie_changes = changes(
        vec![change(b"leaf a", 1), change(b"value", 1), change(b"leaf b", 1), change(b"value", 1)],
        vec![],
    );
    let (update, _) = apply_all(&trie_changes);
    assert_eq!(update.len(), 3);
    assert_eq!(store.commit(update), Ok(()));
    assert_eq!(store.len(), 3);
    assert_eq!(store.refcount(&hash(b"value")), 2);
    assert_eq!(store.refcount(&hash(b"leaf a")), 1);
    assert_eq!(store.get(&hash(b"value")), Some(b"value".to_vec()));
}

#[test]
fn refcounts_add_up_over_commits() {
    let mut store = Store::new();
    let (update, _) = apply_all(&changes(vec![change(b"node", 2)], vec![]));
    store.commit(update).unwrap();
    let (update, _) = apply_all(&changes(vec![change(b"node", 3)], vec![]));
    store.commit(update).unwrap();
    assert_eq!(store.len(), 1);
    assert_eq!(store.refcount(&hash(b"node")), 5);
}

#[test]
fn a_blob_leaves_when_its_count_reaches_zero() {
    let mut store = Store::new();
    let (update, _) = apply_all(&changes(vec![change(b"node", 2), change(b"kept", 1)], vec![]));
    store.commit(update).unwrap();
    let (update, _) = apply_all(&changes(vec![], vec![change(b"node", 1)]));
    store.commit(update).unwrap();
    assert_eq!(store.refcount(&hash(b"node")), 1);
    assert_eq!(store.get(&hash(b"node")), Some(b"node".to_vec()));
    let (update, _) = apply_all(&changes(vec![], vec![change(b"node", 1)]));
    store.commit(update).unwrap();
    assert_eq!(store.refcount(&hash(b"node")), 0);
    assert_eq!(store.get(&hash(b"node")), None);
    assert_eq!(store.len(), 1);
    assert_eq!(store.get(&hash(b"kept")), Some(b"kept".to_vec()));
}

#[test]
fn insertions_and_deletions_of_one_update_cancel() {
    let mut store = Store::new();
    let trie_changes = changes(
        vec![change(b"moved", 1), change(b"new", 1)],
        vec![change(b"moved", 1)],
    );
    let (update, _) = apply_all(&trie_changes);
    assert_eq!(update.len(), 1);
    assert_eq!(store.commit(update), Ok(()));
    assert_eq!(store.len(), 1);
    assert_eq!(store.get(&hash(b"moved")), None);
    assert_eq!(store.get(&hash(b"new")), Some(b"new".to_vec()));
}

#[test]
fn a_commit_below_zero_fails_and_changes_nothing() {
    let mut store = Store::new();
    let (update, _) = apply_all(&changes(vec![change(b"node", 1)], vec![]));
    store.commit(update).unwrap();
    let trie_changes = changes(vec![change(b"other", 1)], vec![change(b"node", 2)]);
    let (update, _) = apply_all(&trie_changes);
    assert_eq!(store.commit(update), Err(StorageError::StorageInternalError));
    assert_eq!(store.len(), 1);
    assert_eq!(store.refcount(&hash(b"node")), 1);
    assert_eq!(store.get(&hash(b"other")), None);
}

#[test]
fn counts_beyond_32_bits_are_kept() {
    let mut store = Store::new();
    for _ in 0..2 {
        let big = (0..3).map(|_| change(b"node", u32::MAX)).collect();
        let (update, _) = apply_all(&changes(big, vec![]));
        assert_eq!(store.commit(update), Ok(()));
    }
    assert_eq!(store.refcount(&hash(b"node")), 6 * (u32::MAX as u64));
    let small = (0..4).map(|_| change(b"node", u32::MAX)).collect();
    let (update, _) = apply_all(&changes(vec![], small));
    assert_eq!(store.commit(update), Ok(()));
    assert_eq!(store.refcount(&hash(b"node")), 2 * (u32::MAX as u64));
}

#[test]
fn a_stored_blob_stays_what_it_was() {
    let mut store = Store::new();
    let key = hash(b"first");
    let first = TrieRefcountChange {
        trie_node_or_value_hash: key,
        trie_node_or_value: b"first".to_vec(),
        rc: 1,
    };
    let second = TrieRefcountChange {
        trie_node_or_value_hash: key,
        trie_node_or_value: b"second".to_vec(),
        rc: 1,
    };
    let (update, _) = apply_all(&changes(vec![first, second.clone()], vec![]));
    store.commit(update).unwrap();
    assert_eq!(store.get(&key), Some(b"first".to_vec()));
    let (update, _) = apply_all(&changes(vec![second], vec![]));
    store.commit(update).unwrap();
    assert_eq!(store.get(&key), Some(b"first".to_vec()));
    assert_eq!(store.refcount(&key), 3);
}
