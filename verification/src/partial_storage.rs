//! Storage proofs and the storage that replays one.

use vstd::prelude::*;
use crate::entries::{as_map, lemma_lookup_at, lemma_push, lemma_remove};
use crate::errors::{outcome, StorageError};
use crate::hash::{contains_hash, hash, hashes_view, sha256, CryptoHash};
use crate::node_list::{clone_blob, NodeList};
use crate::store::content_addressed;

verus! {

/// The blobs of a proof, in the order in which they were first read.
#[derive(Clone, Debug, PartialEq, Eq)]
pub struct PartialState(pub Vec<Vec<u8>>);

/// Everything that one recorded execution read from storage.
#[derive(Clone, Debug, PartialEq, Eq)]
pub struct PartialStorage {
    pub nodes: PartialState,
}

impl View for PartialStorage {
    type V = Seq<Seq<u8>>;

    open spec fn view(&self) -> Seq<Seq<u8>> {
        Seq::new(self.nodes.0.len() as nat, |i: int| self.nodes.0[i]@)
    }
}

/// The map that a proof stands for: each blob under its own digest. Where two
/// blobs have one digest, the later one is kept.
pub open spec fn proof_map(blobs: Seq<Seq<u8>>) -> Map<Seq<u8>, Seq<u8>>
    decreases blobs.len(),
{
    if blobs.len() == 0 {
        Map::empty()
    } else {
        proof_map(blobs.drop_last()).insert(sha256(blobs.last()), blobs.last())
    }
}

/// The hashes of a proof's map are the digests of its blobs, and each blob of the
/// map is stored under its own digest.
pub proof fn lemma_proof_map(blobs: Seq<Seq<u8>>)
    ensures
        forall|h: Seq<u8>| #[trigger]
            proof_map(blobs).contains_key(h) <==> exists|i: int|
                0 <= i < blobs.len() && sha256(#[trigger] blobs[i]) == h,
        forall|h: Seq<u8>| #[trigger]
            proof_map(blobs).contains_key(h) ==> sha256(proof_map(blobs)[h]) == h
                && blobs.contains(proof_map(blobs)[h]),
    decreases blobs.len(),
{
    if blobs.len() > 0 {
        let front = blobs.drop_last();
        lemma_proof_map(front);
        assert forall|h: Seq<u8>| #[trigger]
            proof_map(blobs).contains_key(h) <==> exists|i: int|
                0 <= i < blobs.len() && sha256(#[trigger] blobs[i]) == h by {
            if proof_map(blobs).contains_key(h) {
                if h == sha256(blobs.last()) {
                    assert(sha256(blobs[blobs.len() - 1]) == h);
                } else {
                    assert(proof_map(front).contains_key(h));
                    let i = choose|i: int| 0 <= i < front.len() && sha256(#[trigger] front[i]) == h;
                    assert(blobs[i] == front[i]);
                }
            }
            if exists|i: int| 0 <= i < blobs.len() && sha256(#[trigger] blobs[i]) == h {
                let i = choose|i: int| 0 <= i < blobs.len() && sha256(#[trigger] blobs[i]) == h;
                if i < front.len() {
                    assert(front[i] == blobs[i]);
                    assert(proof_map(front).contains_key(h));
                }
            }
        }
        assert forall|h: Seq<u8>| #[trigger]
            proof_map(blobs).contains_key(h) implies sha256(proof_map(blobs)[h]) == h
            && blobs.contains(proof_map(blobs)[h]) by {
            if h == sha256(blobs.last()) {
                assert(blobs[blobs.len() - 1] == blobs.last());
            } else {
                assert(proof_map(front).contains_key(h));
                let b = proof_map(front)[h];
                assert(front.contains(b));
                let i = choose|i: int| 0 <= i < front.len() && front[i] == b;
                assert(blobs[i] == b);
            }
        }
    }
}

/// The state of a replay storage, as the contracts see it.
pub struct ReplayState {
    /// The blobs it can serve, each under its digest.
    pub recorded: Map<Seq<u8>, Seq<u8>>,
    /// The hashes it was asked for and has, in the order of their first request.
    pub visited: Seq<Seq<u8>>,
    /// How many different hashes it serves before it fails.
    pub limit: nat,
}

impl ReplayState {
    /// No hash was noted twice, and every noted hash can be served.
    pub open spec fn wf(self) -> bool {
        &&& self.visited.no_duplicates()
        &&& forall|i: int|
            0 <= i < self.visited.len() ==> self.recorded.contains_key(#[trigger] self.visited[i])
    }

    /// The state after a request for `hash`: a hash that the storage has is noted,
    /// once.
    pub open spec fn after_retrieve(self, hash: Seq<u8>) -> ReplayState {
        if self.recorded.contains_key(hash) && !self.visited.contains(hash) {
            ReplayState { visited: self.visited.push(hash), ..self }
        } else {
            self
        }
    }

    /// What a request for `hash` returns: its blob, if the storage has the hash
    /// and, with this one, no more than `limit` different hashes were noted.
    pub open spec fn retrieved(self, hash: Seq<u8>) -> Result<Seq<u8>, StorageError> {
        if self.recorded.contains_key(hash) && self.after_retrieve(hash).visited.len()
            <= self.limit {
            Ok(self.recorded[hash])
        } else {
            Err(StorageError::TrieNodeMissing)
        }
    }
}

/// A request keeps the state of a replay storage in order, and a hash that the
/// storage has is noted after it.
pub proof fn lemma_replay_retrieve(p: ReplayState, hash: Seq<u8>)
    requires
        p.wf(),
    ensures
        p.after_retrieve(hash).wf(),
        p.recorded.contains_key(hash) ==> p.after_retrieve(hash).visited.contains(hash),
{
    let q = p.after_retrieve(hash);
    if q.visited != p.visited {
        assert(q.visited[p.visited.len() as int] == hash);
    }
}

/// A storage that serves the blobs of a proof and nothing else, and that fails
/// once it was asked for more than a given number of different hashes.
pub struct IncompletePartialStorage {
    recorded_storage: NodeList,
    visited_nodes: Vec<CryptoHash>,
    node_count_to_fail_after: usize,
}

impl View for IncompletePartialStorage {
    type V = ReplayState;

    closed spec fn view(&self) -> ReplayState {
        ReplayState {
            recorded: as_map(self.recorded_storage@),
            visited: hashes_view(self.visited_nodes@),
            limit: self.node_count_to_fail_after as nat,
        }
    }
}

impl IncompletePartialStorage {
    /// The list of blobs behind the storage is in order.
    pub closed spec fn parts_wf(&self) -> bool {
        self.recorded_storage.wf()
    }

    /// The storage is in order, and so is its state; and every blob that it can
    /// serve is kept under the blob's own digest.
    pub open spec fn wf(&self) -> bool {
        &&& self.parts_wf()
        &&& self@.wf()
        &&& content_addressed(self@.recorded)
    }

    /// How many different hashes the storage serves before it fails.
    pub fn node_count_to_fail_after(&self) -> (limit: usize)
        ensures
            limit == self@.limit,
    {
        self.node_count_to_fail_after
    }

    /// A replay storage over the blobs of `partial_storage` that fails after
    /// `nodes_count_to_fail_at` different hashes.
    pub fn new(partial_storage: PartialStorage, nodes_count_to_fail_at: usize) -> (storage:
        IncompletePartialStorage)
        ensures
            storage.wf(),
            storage@ == (ReplayState {
                recorded: proof_map(partial_storage@),
                visited: Seq::<Seq<u8>>::empty(),
                limit: nodes_count_to_fail_at as nat,
            }),
    {
        let mut recorded = NodeList::new();
        let mut i: usize = 0;
        while i < partial_storage.nodes.0.len()
            invariant
                i <= partial_storage.nodes.0.len(),
                recorded.wf(),
                as_map(recorded@) == proof_map(partial_storage@.take(i as int)),
            decreases partial_storage.nodes.0.len() - i,
        {
            let blob = clone_blob(&partial_storage.nodes.0[i]);
            let digest = hash(blob.as_slice());
            let ghost before = recorded@;
            match recorded.position(&digest) {
                Some(j) => {
                    proof {
                        lemma_lookup_at(recorded@, j as int);
                        lemma_remove(recorded@, j as int);
                    }
                    let _ = recorded.remove(j);
                },
                None => {},
            }
            proof {
                lemma_push(recorded@, (digest@, blob@));
                assert(partial_storage@.take(i + 1).drop_last() =~= partial_storage@.take(
                    i as int,
                ));
                assert(as_map(recorded@).insert(digest@, blob@) =~= as_map(before).insert(
                    digest@,
                    blob@,
                ));
            }
            recorded.push(digest, blob);
            i += 1;
        }
        assert(partial_storage@.take(i as int) =~= partial_storage@);
        proof {
            lemma_proof_map(partial_storage@);
        }
        let storage = IncompletePartialStorage {
            recorded_storage: recorded,
            visited_nodes: Vec::new(),
            node_count_to_fail_after: nodes_count_to_fail_at,
        };
        assert(storage@.visited =~= Seq::<Seq<u8>>::empty());
        storage
    }

    /// A replay storage over the blobs of `partial_storage` that serves all of
    /// them: its limit is one that no number of hashes passes.
    pub fn complete(partial_storage: PartialStorage) -> (storage: IncompletePartialStorage)
        ensures
            storage.wf(),
            storage@ == (ReplayState {
                recorded: proof_map(partial_storage@),
                visited: Seq::<Seq<u8>>::empty(),
                limit: usize::MAX as nat,
            }),
    {
        IncompletePartialStorage::new(partial_storage, usize::MAX)
    }

    /// The number of different hashes noted so far.
    pub fn visited_count(&self) -> (count: usize)
        requires
            self.wf(),
        ensures
            count == self@.visited.len(),
    {
        self.visited_nodes.len()
    }

    /// Serves `hash` from the proof.
    ///
    /// A hash of the proof is noted. The blob is returned if the proof has the hash
    /// and no more than `node_count_to_fail_after` different hashes are noted by
    /// then; every other request fails with `TrieNodeMissing`. A blob that is
    /// returned has the digest that was asked for.
    pub fn retrieve_raw_bytes(&mut self, hash: &CryptoHash) -> (result: Result<
        Vec<u8>,
        StorageError,
    >)
        requires
            old(self).wf(),
        ensures
            final(self).wf(),
            final(self)@ == old(self)@.after_retrieve(hash@),
            outcome(result) == old(self)@.retrieved(hash@),
            result matches Ok(blob) ==> sha256(blob@) == hash@,
            old(self)@.recorded.contains_key(hash@) ==> final(self)@.visited.contains(hash@),
    {
        let found = self.recorded_storage.get(hash);
        match found {
            Some(blob) => {
                if !contains_hash(&self.visited_nodes, hash) {
                    self.visited_nodes.push(*hash);
                    assert(hashes_view(self.visited_nodes@) =~= hashes_view(
                        old(self).visited_nodes@,
                    ).push(hash@));
                }
                proof {
                    lemma_replay_retrieve(old(self)@, hash@);
                }
                if self.visited_nodes.len() > self.node_count_to_fail_after {
                    Err(StorageError::TrieNodeMissing)
                } else {
                    Ok(blob)
                }
            },
            None => Err(StorageError::TrieNodeMissing),
        }
    }
}

} // verus!
