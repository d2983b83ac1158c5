//! Content-addressed node storage behind a Merkle-Patricia state trie, and what a
//! node reports about it.
//!
//! The storage resolves hashes to blobs through a bounded shard cache and a
//! per-chunk cache, counts the nodes that a chunk touches, records proofs of what
//! was read and replays them, and commits the changes of a trie update to a
//! reference-counted store. The reports are the statistics of the database as
//! metrics, and the decisions behind the node's summary line.
//!
//! The state of every storage has a mathematical model, and every operation says
//! in its contract what it does to the model. What holds over whole runs of
//! operations is proved in `laws`, `replay_laws` and `commit_laws`.

pub mod caching_storage;
pub mod commit_laws;
pub mod entries;
pub mod errors;
pub mod hash;
pub mod info;
pub mod laws;
pub mod node_list;
pub mod partial_storage;
pub mod replay;
pub mod replay_laws;
pub mod rocksdb_metrics;
pub mod shared_cache;
pub mod store;
pub mod text;
pub mod trie_cache;
pub mod trie_changes;
pub mod trie_storage;

pub use crate::caching_storage::{TrieCacheMode, TrieCachingStorage, TRIE_LIMIT_CACHED_VALUE_SIZE};
pub use crate::errors::StorageError;
pub use crate::hash::{hash, CryptoHash};
pub use crate::partial_storage::{IncompletePartialStorage, PartialState, PartialStorage};
pub use crate::replay::{
    create_store_with_values, read_through_shared_cache, replay_recorded_reads,
    test_incomplete_storage,
};
pub use crate::shared_cache::SharedTrieCache;
pub use crate::store::Store;
pub use crate::trie_cache::{TrieCache, TRIE_DEFAULT_SHARD_CACHE_SIZE};
pub use crate::trie_changes::{apply_all, StoreUpdate, TrieChanges, TrieRefcountChange};
pub use crate::trie_storage::{setup_storage, TrieRecordingStorage, TrieStorage};
