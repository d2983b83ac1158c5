//! The one interface behind which a trie reads its nodes: live, recording or
//! replaying.

use vstd::prelude::*;
use crate::caching_storage::{CachingState, TrieCacheMode, TrieCachingStorage};
use crate::entries::{blobs_of, distinct_keys, has_key, lemma_push};
use crate::errors::{outcome, StorageError};
use crate::hash::{hashes_view, CryptoHash};
use crate::node_list::{clone_blob, NodeList};
use crate::partial_storage::{
    lemma_replay_retrieve, IncompletePartialStorage, PartialState, PartialStorage, ReplayState,
};
use crate::trie_cache::{lemma_lru_put, lemma_lru_touch, lru_touch};

verus! {

/// The state of a storage of any kind, as the contracts see it.
pub enum StorageState {
    /// A live storage.
    Caching(CachingState),
    /// A storage that records what the storage inside it returns, with the pairs
    /// recorded so far, in the order in which their hashes were first read.
    Recording(Box<StorageState>, Seq<(Seq<u8>, Seq<u8>)>),
    /// A storage that replays a proof.
    Partial(ReplayState),
}

impl StorageState {
    /// The state is in order, all the way down.
    pub open spec fn wf(self) -> bool
        decreases self,
    {
        match self {
            StorageState::Caching(s) => s.wf(),
            StorageState::Recording(inner, recorded) => inner.wf() && distinct_keys(recorded),
            StorageState::Partial(p) => p.wf(),
        }
    }

    /// The retrievals charged so far by the live storage that is reached through
    /// the recording ones; 0 where a replay storage is reached.
    pub open spec fn touched(self) -> nat
        decreases self,
    {
        match self {
            StorageState::Caching(s) => s.touched,
            StorageState::Recording(inner, recorded) => inner.touched(),
            StorageState::Partial(p) => 0,
        }
    }

    /// Whether a live storage is reached through the recording ones.
    pub open spec fn counts_touches(self) -> bool
        decreases self,
    {
        match self {
            StorageState::Caching(s) => true,
            StorageState::Recording(inner, recorded) => inner.counts_touches(),
            StorageState::Partial(p) => false,
        }
    }

    /// What retrieving `hash` returns. A recording storage returns what the
    /// storage inside it returns.
    pub open spec fn retrieved(self, hash: Seq<u8>) -> Result<Seq<u8>, StorageError>
        decreases self,
    {
        match self {
            StorageState::Caching(s) => s.retrieved(hash),
            StorageState::Recording(inner, recorded) => inner.retrieved(hash),
            StorageState::Partial(p) => p.retrieved(hash),
        }
    }

    /// The state after retrieving `hash`. A recording storage lets the storage
    /// inside it do its work, and where that returned a blob for a hash not yet
    /// recorded, appends the pair to its record.
    pub open spec fn after_retrieve(self, hash: Seq<u8>) -> StorageState
        decreases self,
    {
        match self {
            StorageState::Caching(s) => StorageState::Caching(s.after_retrieve(hash)),
            StorageState::Recording(inner, recorded) => StorageState::Recording(
                Box::new(inner.after_retrieve(hash)),
                match inner.retrieved(hash) {
                    Ok(blob) => if has_key(recorded, hash) {
                        recorded
                    } else {
                        recorded.push((hash, blob))
                    },
                    Err(e) => recorded,
                },
            ),
            StorageState::Partial(p) => StorageState::Partial(p.after_retrieve(hash)),
        }
    }

    /// The state after a switch to `mode`: the live storage that is reached
    /// through the recording ones takes the mode, and a replay storage has none to
    /// take.
    pub open spec fn with_mode(self, mode: TrieCacheMode) -> StorageState
        decreases self,
    {
        match self {
            StorageState::Caching(s) => StorageState::Caching(
                CachingState { cache_mode: mode, ..s },
            ),
            StorageState::Recording(inner, recorded) => StorageState::Recording(
                Box::new(inner.with_mode(mode)),
                recorded,
            ),
            StorageState::Partial(p) => self,
        }
    }

    /// The state after retrieving every hash of `requests`, in order.
    pub open spec fn after_requests(self, requests: Seq<Seq<u8>>) -> StorageState
        decreases requests.len(),
    {
        if requests.len() == 0 {
            self
        } else {
            self.after_requests(requests.drop_last()).after_retrieve(requests.last())
        }
    }

    /// What the request at index `i` returns when the requests before it were
    /// made in order.
    pub open spec fn answer(self, requests: Seq<Seq<u8>>, i: int) -> Result<Seq<u8>, StorageError> {
        self.after_requests(requests.take(i)).retrieved(requests[i])
    }
}

/// One retrieval keeps the state in order, keeps the kind of storage, and
/// charges nothing or one.
pub proof fn lemma_after_retrieve(s: StorageState, hash: Seq<u8>)
    requires
        s.wf(),
    ensures
        s.after_retrieve(hash).wf(),
        s.after_retrieve(hash).counts_touches() == s.counts_touches(),
        s.touched() <= s.after_retrieve(hash).touched() <= s.touched() + 1,
    decreases s,
{
    match s {
        StorageState::Caching(c) => {
            lemma_lru_touch(c.shard_cache, hash);
            if let Some(blob) = c.found(hash) {
                lemma_lru_put(lru_touch(c.shard_cache, hash), c.shard_capacity, hash, blob);
            }
        },
        StorageState::Recording(inner, recorded) => {
            lemma_after_retrieve(*inner, hash);
            if let Ok(blob) = inner.retrieved(hash) {
                if !has_key(recorded, hash) {
                    lemma_push(recorded, (hash, blob));
                }
            }
        },
        StorageState::Partial(p) => {
            lemma_replay_retrieve(p, hash);
        },
    }
}

/// A storage that lets another storage do the work and keeps a copy of every
/// blob that it returns.
pub struct TrieRecordingStorage {
    storage: Box<TrieStorage>,
    recorded: NodeList,
}

/// The storage behind a trie.
pub enum TrieStorage {
    /// The live storage of a chunk's execution.
    Caching(TrieCachingStorage),
    /// A storage that records a proof of what is read.
    Recording(TrieRecordingStorage),
    /// A storage that serves a recorded proof.
    Partial(IncompletePartialStorage),
}

impl TrieRecordingStorage {
    /// The state of the storage: that of the storage inside, and the record.
    pub closed spec fn state(&self) -> StorageState
        decreases self,
    {
        StorageState::Recording(Box::new(self.storage.state()), self.recorded@)
    }

    /// The storage inside and the record are each in order.
    pub closed spec fn parts_wf(&self) -> bool
        decreases self,
    {
        &&& self.storage.parts_wf()
        &&& self.recorded.wf()
    }
}

impl View for TrieRecordingStorage {
    type V = StorageState;

    open spec fn view(&self) -> StorageState {
        self.state()
    }
}

impl View for TrieStorage {
    type V = StorageState;

    open spec fn view(&self) -> StorageState {
        self.state()
    }
}

impl TrieRecordingStorage {
    /// The storage is in order, and so is its state.
    pub open spec fn wf(&self) -> bool {
        &&& self.parts_wf()
        &&& self@.wf()
        &&& self@ is Recording
    }

    /// A recording storage around `storage`, with nothing recorded yet.
    pub fn new(storage: TrieStorage) -> (recording: TrieRecordingStorage)
        requires
            storage.wf(),
        ensures
            recording.wf(),
            recording@ == StorageState::Recording(
                Box::new(storage@),
                Seq::<(Seq<u8>, Seq<u8>)>::empty(),
            ),
            recording@.touched() == storage@.touched(),
            recording@.counts_touches() == storage@.counts_touches(),
    {
        TrieRecordingStorage { storage: Box::new(storage), recorded: NodeList::new() }
    }

    /// The number of retrievals that the live storage inside has charged.
    pub fn get_touched_nodes_count(&self) -> (count: u64)
        requires
            self.wf(),
            self@.counts_touches(),
        ensures
            count == self@.touched(),
        decreases self,
    {
        self.storage.get_touched_nodes_count()
    }

    /// Switches the mode of the live storage inside, if there is one.
    pub fn set_mode(&mut self, mode: TrieCacheMode)
        requires
            old(self).wf(),
        ensures
            final(self).wf(),
            final(self)@ == old(self)@.with_mode(mode),
        decreases *old(self),
    {
        self.storage.set_mode(mode);
    }

    /// The proof recorded so far: the blobs that were returned, each once, in the
    /// order in which their hashes were first read.
    pub fn recorded_storage(&self) -> (proof: PartialStorage)
        requires
            self.wf(),
        ensures
            proof@ == blobs_of(self@->Recording_1),
    {
        let mut blobs: Vec<Vec<u8>> = Vec::new();
        let mut i: usize = 0;
        while i < self.recorded.len()
            invariant
                self.recorded.wf(),
                i <= self.recorded@.len(),
                blobs.len() == i,
                forall|j: int| 0 <= j < i ==> (#[trigger] blobs[j])@ == self.recorded@[j].1,
            decreases self.recorded@.len() - i,
        {
            blobs.push(clone_blob(self.recorded.blob_at(i)));
            i += 1;
        }
        PartialStorage { nodes: PartialState(blobs) }
    }

    /// Ends the recording and hands back the storage inside.
    pub fn into_storage(self) -> (storage: TrieStorage)
        requires
            self.wf(),
        ensures
            storage.wf(),
            storage@ == *self@->Recording_0,
    {
        *self.storage
    }

    /// Retrieves `hash` from the storage inside, and records the blob if one came
    /// back and the hash was not recorded before.
    pub fn retrieve_raw_bytes(&mut self, hash: &CryptoHash) -> (result: Result<
        Vec<u8>,
        StorageError,
    >)
        requires
            old(self).wf(),
            old(self)@.touched() < u64::MAX,
        ensures
            final(self).wf(),
            final(self)@ == old(self)@.after_retrieve(hash@),
            outcome(result) == old(self)@.retrieved(hash@),
        decreases *old(self),
    {
        let result = self.storage.retrieve_raw_bytes(hash);
        match &result {
            Ok(blob) => {
                if !self.recorded.contains(hash) {
                    proof {
                        lemma_push(self.recorded@, (hash@, blob@));
                    }
                    self.recorded.push(*hash, clone_blob(blob));
                }
            },
            Err(_) => {},
        }
        result
    }
}

impl TrieStorage {
    /// The state of the storage.
    pub open spec fn state(&self) -> StorageState
        decreases self,
    {
        match self {
            TrieStorage::Caching(s) => StorageState::Caching(s@),
            TrieStorage::Recording(r) => r.state(),
            TrieStorage::Partial(p) => StorageState::Partial(p@),
        }
    }

    /// The parts of the storage are each in order.
    pub open spec fn parts_wf(&self) -> bool
        decreases self,
    {
        match self {
            TrieStorage::Caching(s) => s.wf(),
            TrieStorage::Recording(r) => r.parts_wf(),
            TrieStorage::Partial(p) => p.wf(),
        }
    }

    /// The storage is in order, and so is its state.
    pub open spec fn wf(&self) -> bool {
        &&& self.parts_wf()
        &&& self@.wf()
    }

    /// The number of retrievals charged so far. A replay storage keeps no such
    /// count, so a live storage must be reached through the recording ones.
    pub fn get_touched_nodes_count(&self) -> (count: u64)
        requires
            self.wf(),
            self@.counts_touches(),
        ensures
            count == self@.touched(),
        decreases self,
    {
        match self {
            TrieStorage::Caching(s) => s.get_touched_nodes_count(),
            TrieStorage::Recording(r) => r.get_touched_nodes_count(),
            TrieStorage::Partial(p) => 0,
        }
    }

    /// Switches the mode in which the live storage keeps what it retrieves. A
    /// recording storage hands the switch on, and a replay storage ignores it.
    pub fn set_mode(&mut self, mode: TrieCacheMode)
        requires
            old(self).wf(),
        ensures
            final(self).wf(),
            final(self)@ == old(self)@.with_mode(mode),
        decreases *old(self),
    {
        match self {
            TrieStorage::Caching(s) => s.set_mode(mode),
            TrieStorage::Recording(r) => r.set_mode(mode),
            TrieStorage::Partial(p) => {},
        }
    }

    /// The live storage, where this is one.
    pub fn as_caching_storage(&self) -> (live: Option<&TrieCachingStorage>)
        ensures
            live is Some == self is Caching,
            live matches Some(s) ==> *s == self->Caching_0,
    {
        match self {
            TrieStorage::Caching(s) => Some(s),
            _ => None,
        }
    }

    /// A live storage seen as a source of proofs: it is none. Only a live storage
    /// may be asked; to ask a recording or a replay storage is a caller's error.
    pub fn as_partial_storage(&self) -> (source: Option<&IncompletePartialStorage>)
        requires
            self is Caching,
        ensures
            source is None,
    {
        None
    }

    /// Wraps the storage into one that records a proof of what is read.
    pub fn recording_reads(self) -> (recording: TrieStorage)
        requires
            self.wf(),
        ensures
            recording.wf(),
            recording@ == StorageState::Recording(
                Box::new(self@),
                Seq::<(Seq<u8>, Seq<u8>)>::empty(),
            ),
            recording@.touched() == self@.touched(),
            recording@.counts_touches() == self@.counts_touches(),
    {
        TrieStorage::Recording(TrieRecordingStorage::new(self))
    }

    /// The proof recorded so far, where this is a recording storage.
    pub fn recorded_storage(&self) -> (proof: Option<PartialStorage>)
        requires
            self.wf(),
        ensures
            proof is Some == self is Recording,
            proof matches Some(p) ==> p@ == blobs_of(self@->Recording_1),
    {
        match self {
            TrieStorage::Recording(r) => Some(r.recorded_storage()),
            _ => None,
        }
    }

    /// Retrieves the hashes of `requests` in order and stops at the first that
    /// fails.
    ///
    /// Returns the blobs, one for each request, when every request is answered,
    /// and else the failure of the first request that is not; the storage is then
    /// left as that request left it.
    pub fn fetch_all(&mut self, requests: &Vec<CryptoHash>) -> (result: Result<
        Vec<Vec<u8>>,
        StorageError,
    >)
        requires
            old(self).wf(),
            old(self)@.touched() + requests.len() <= u64::MAX,
        ensures
            final(self).wf(),
            match result {
                Ok(blobs) => {
                    &&& blobs.len() == requests.len()
                    &&& forall|i: int|
                        0 <= i < requests.len() ==> old(self)@.answer(hashes_view(requests@), i)
                            == Ok::<Seq<u8>, StorageError>(#[trigger] blobs[i]@)
                    &&& final(self)@ == old(self)@.after_requests(hashes_view(requests@))
                },
                Err(e) => exists|k: int|
                    {
                        &&& 0 <= k < requests.len()
                        &&& forall|i: int|
                            0 <= i < k ==> (#[trigger] old(self)@.answer(
                                hashes_view(requests@),
                                i,
                            )) is Ok
                        &&& #[trigger] old(self)@.answer(hashes_view(requests@), k) == Err::<
                            Seq<u8>,
                            StorageError,
                        >(e)
                        &&& final(self)@ == old(self)@.after_requests(
                            hashes_view(requests@).take(k + 1),
                        )
                    },
            },
    {
        let ghost start = self@;
        let ghost reqs = hashes_view(requests@);
        let mut blobs: Vec<Vec<u8>> = Vec::new();
        let mut i: usize = 0;
        while i < requests.len()
            invariant
                i <= requests.len(),
                reqs == hashes_view(requests@),
                start == old(self)@,
                self.wf(),
                self@ == start.after_requests(reqs.take(i as int)),
                self@.touched() <= start.touched() + i,
                start.touched() + requests.len() <= u64::MAX,
                blobs.len() == i,
                forall|j: int|
                    0 <= j < i ==> start.answer(reqs, j) == Ok::<Seq<u8>, StorageError>(
                        #[trigger] blobs[j]@,
                    ),
            decreases requests.len() - i,
        {
            proof {
                lemma_after_retrieve(self@, reqs[i as int]);
                assert(reqs.take(i + 1).drop_last() =~= reqs.take(i as int));
            }
            match self.retrieve_raw_bytes(&requests[i]) {
                Ok(blob) => {
                    blobs.push(blob);
                },
                Err(e) => {
                    assert(start.answer(reqs, i as int) == Err::<Seq<u8>, StorageError>(e));
                    assert forall|j: int| 0 <= j < i implies (#[trigger] start.answer(
                        reqs,
                        j,
                    )) is Ok by {
                        assert(start.answer(reqs, j) == Ok::<Seq<u8>, StorageError>(blobs[j]@));
                    }
                    return Err(e);
                },
            }
            i += 1;
        }
        assert(reqs.take(i as int) =~= reqs);
        Ok(blobs)
    }

    /// Resolves `hash` to its blob, whatever kind of storage this is.
    pub fn retrieve_raw_bytes(&mut self, hash: &CryptoHash) -> (result: Result<
        Vec<u8>,
        StorageError,
    >)
        requires
            old(self).wf(),
            old(self)@.touched() < u64::MAX,
        ensures
            final(self).wf(),
            final(self)@ == old(self)@.after_retrieve(hash@),
            outcome(result) == old(self)@.retrieved(hash@),
        decreases *old(self),
    {
        match self {
            TrieStorage::Caching(s) => s.retrieve_raw_bytes(hash),
            TrieStorage::Recording(r) => r.retrieve_raw_bytes(hash),
            TrieStorage::Partial(p) => p.retrieve_raw_bytes(hash),
        }
    }
}

/// Records an execution: retrieves `requests` in order through a recording
/// storage around `storage`, and returns the proof that was recorded with the
/// blobs that were retrieved. Every request must be one that `storage` answers.
pub fn setup_storage(storage: TrieStorage, requests: &Vec<CryptoHash>) -> (recorded: (
    PartialStorage,
    Vec<Vec<u8>>,
))
    requires
        storage.wf(),
        storage@.touched() + requests.len() <= u64::MAX,
        forall|i: int|
            0 <= i < requests.len() ==> (#[trigger] storage@.answer(hashes_view(requests@), i)) is Ok,
    ensures
        recorded.0@ == blobs_of(
            StorageState::Recording(
                Box::new(storage@),
                Seq::<(Seq<u8>, Seq<u8>)>::empty(),
            ).after_requests(hashes_view(requests@))->Recording_1,
        ),
        recorded.1.len() == requests.len(),
        forall|i: int|
            0 <= i < requests.len() ==> storage@.answer(hashes_view(requests@), i) == Ok::<
                Seq<u8>,
                StorageError,
            >(#[trigger] recorded.1[i]@),
{
    let ghost reqs = hashes_view(requests@);
    let mut recording = TrieStorage::Recording(TrieRecordingStorage::new(storage));
    let ghost start = recording@;
    proof {
        assert forall|i: int| 0 <= i <= reqs.len() implies #[trigger] start.after_requests(
            reqs.take(i),
        ) is Recording && *start.after_requests(reqs.take(i))->Recording_0
            == storage@.after_requests(reqs.take(i)) by {
            lemma_recording_transparent(storage@, Seq::empty(), reqs.take(i));
        }
    }
    match recording.fetch_all(requests) {
        Ok(blobs) => {
            proof {
                lemma_recording_transparent(storage@, Seq::empty(), reqs);
            }
            match recording.recorded_storage() {
                Some(proof) => (proof, blobs),
                None => unreached(),
            }
        },
        Err(e) => {
            proof {
                let k = choose|k: int|
                    0 <= k < requests.len() && #[trigger] start.answer(reqs, k) == Err::<
                        Seq<u8>,
                        StorageError,
                    >(e);
                assert(storage@.answer(reqs, k) is Ok);
            }
            unreached()
        },
    }
}

/// A recording storage is transparent: after any requests the storage inside is
/// where it would be without the recording.
pub proof fn lemma_recording_transparent(
    inner: StorageState,
    recorded: Seq<(Seq<u8>, Seq<u8>)>,
    requests: Seq<Seq<u8>>,
)
    ensures
        StorageState::Recording(Box::new(inner), recorded).after_requests(requests) is Recording,
        *StorageState::Recording(Box::new(inner), recorded).after_requests(requests)->Recording_0
            == inner.after_requests(requests),
    decreases requests.len(),
{
    if requests.len() > 0 {
        lemma_recording_transparent(inner, recorded, requests.drop_last());
    }
}

} // verus!
