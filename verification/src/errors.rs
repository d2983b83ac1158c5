//! Failures of the storage layer.

use vstd::prelude::*;

verus! {

/// Why a storage operation failed.
#[derive(Clone, Copy, Debug, PartialEq, Eq, Structural)]
pub enum StorageError {
    /// The backing store refused a commit.
    StorageInternalError,
    /// The requested hash cannot be resolved by any path the storage has.
    TrieNodeMissing,
}

/// The outcome of a retrieval with the blob taken by its view.
pub open spec fn outcome(result: Result<Vec<u8>, StorageError>) -> Result<Seq<u8>, StorageError> {
    match result {
        Ok(blob) => Ok(blob@),
        Err(e) => Err(e),
    }
}

} // verus!
