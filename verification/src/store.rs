//! The content store: blobs under their hashes, each with a reference count,
//! and the commit of a net update to it.

use vstd::prelude::*;
use crate::entries::{
    as_map, has_key, position, lemma_key_count, lemma_lookup_at, lemma_push, lemma_remove,
};
use crate::errors::StorageError;
use crate::hash::{sha256, CryptoHash};
use crate::node_list::{clone_blob, NodeList};
use crate::trie_changes::{apply_all, net_update, StoreUpdate, TrieChanges};

verus! {

/// Every blob of the map is stored under its own digest.
pub open spec fn content_addressed(blobs: Map<Seq<u8>, Seq<u8>>) -> bool {
    forall|h: Seq<u8>| #[trigger] blobs.contains_key(h) ==> sha256(blobs[h]) == h
}

/// The blobs of a store's view, without their reference counts.
pub open spec fn blobs_in(store: Map<Seq<u8>, (Seq<u8>, nat)>) -> Map<Seq<u8>, Seq<u8>> {
    Map::new(|h: Seq<u8>| store.contains_key(h), |h: Seq<u8>| store[h].0)
}

/// The number of references that hold `key` in `store`: 0 for a hash that is not
/// stored.
pub open spec fn refcount_of(store: Map<Seq<u8>, (Seq<u8>, nat)>, key: Seq<u8>) -> nat {
    if store.contains_key(key) {
        store[key].1
    } else {
        0
    }
}

/// The signed count by which `update` changes `key`: 0 for a hash that it does
/// not speak of.
pub open spec fn delta_of(update: Map<Seq<u8>, (Seq<u8>, int)>, key: Seq<u8>) -> int {
    if update.contains_key(key) {
        update[key].1
    } else {
        0
    }
}

/// Whether `update` can be committed to `store`: it takes no hash below zero
/// references, and no count leaves the range of `u64`.
pub open spec fn commit_fits(
    store: Map<Seq<u8>, (Seq<u8>, nat)>,
    update: Map<Seq<u8>, (Seq<u8>, int)>,
) -> bool {
    forall|k: Seq<u8>| #[trigger]
        update.contains_key(k) ==> 0 <= refcount_of(store, k) + update[k].1 <= u64::MAX
}

/// The store after `update` is committed: every count is changed by what the
/// update says, a hash is stored exactly while its count is positive, a stored
/// blob stays what it was, and a newly stored one is the update's.
pub open spec fn committed(
    store: Map<Seq<u8>, (Seq<u8>, nat)>,
    update: Map<Seq<u8>, (Seq<u8>, int)>,
) -> Map<Seq<u8>, (Seq<u8>, nat)> {
    Map::new(
        |k: Seq<u8>| refcount_of(store, k) + delta_of(update, k) > 0,
        |k: Seq<u8>|
            (
                if store.contains_key(k) {
                    store[k].0
                } else {
                    update[k].0
                },
                (refcount_of(store, k) + delta_of(update, k)) as nat,
            ),
    )
}

/// A store's view holds finitely many hashes, each with at least one reference.
pub open spec fn store_wf(store: Map<Seq<u8>, (Seq<u8>, nat)>) -> bool {
    &&& store.dom().finite()
    &&& forall|k: Seq<u8>| #[trigger] store.contains_key(k) ==> 1 <= store[k].1 <= u64::MAX
}

/// Whether `key` is among the first `i` hashes of `update`.
spec fn among(update: &StoreUpdate, i: int, key: Seq<u8>) -> bool {
    exists|a: int| 0 <= a < i && #[trigger] update.key_at(a) == key
}

/// The store when the first `i` hashes of `update` are committed and the others
/// are not yet.
spec fn partly_committed(
    store: Map<Seq<u8>, (Seq<u8>, nat)>,
    update: &StoreUpdate,
    i: int,
) -> Map<Seq<u8>, (Seq<u8>, nat)> {
    Map::new(
        |k: Seq<u8>|
            if among(update, i, k) {
                committed(store, update@).contains_key(k)
            } else {
                store.contains_key(k)
            },
        |k: Seq<u8>|
            if among(update, i, k) {
                committed(store, update@)[k]
            } else {
                store[k]
            },
    )
}

/// An in-memory content store. Its view maps each stored hash to its blob and
/// the number of references that hold it.
pub struct Store {
    nodes: NodeList,
    refcounts: Vec<u64>,
}

impl View for Store {
    type V = Map<Seq<u8>, (Seq<u8>, nat)>;

    closed spec fn view(&self) -> Map<Seq<u8>, (Seq<u8>, nat)> {
        Map::new(
            |h: Seq<u8>| has_key(self.nodes@, h),
            |h: Seq<u8>|
                (
                    self.nodes@[position(self.nodes@, h)].1,
                    self.refcounts[position(self.nodes@, h)] as nat,
                ),
        )
    }
}

impl Store {
    /// The lists behind the store are in order.
    pub closed spec fn parts_wf(&self) -> bool {
        &&& self.nodes.wf()
        &&& self.refcounts.len() == self.nodes@.len()
        &&& forall|i: int| 0 <= i < self.refcounts.len() ==> #[trigger] self.refcounts[i] >= 1
        &&& self@.dom().len() == self.nodes@.len()
    }

    /// The store is in order, and so is its view.
    pub open spec fn wf(&self) -> bool {
        &&& self.parts_wf()
        &&& store_wf(self@)
    }

    /// The number of stored blobs.
    pub open spec fn entry_count(&self) -> nat {
        self@.dom().len()
    }

    /// The view follows from the lists: what is stored at each index, and how many
    /// hashes there are.
    proof fn lemma_view(&self)
        requires
            self.nodes.wf(),
            self.refcounts.len() == self.nodes@.len(),
            forall|i: int| 0 <= i < self.refcounts.len() ==> #[trigger] self.refcounts[i] >= 1,
        ensures
            self.wf(),
            forall|i: int|
                0 <= i < self.nodes@.len() ==> self@.contains_key((#[trigger] self.nodes@[i]).0)
                    && self@[self.nodes@[i].0] == (self.nodes@[i].1, self.refcounts[i] as nat),
    {
        lemma_key_count(self.nodes@);
        assert(self@.dom() =~= as_map(self.nodes@).dom());
        assert forall|i: int| 0 <= i < self.nodes@.len() implies self@.contains_key(
            (#[trigger] self.nodes@[i]).0,
        ) && self@[self.nodes@[i].0] == (self.nodes@[i].1, self.refcounts[i] as nat) by {
            lemma_lookup_at(self.nodes@, i);
        }
        assert forall|k: Seq<u8>| #[trigger] self@.contains_key(k) implies 1 <= self@[k].1
            <= u64::MAX by {
            let i = position(self.nodes@, k);
            assert(self.refcounts[i] >= 1);
        }
    }

    /// A store that holds nothing.
    pub fn new() -> (store: Store)
        ensures
            store.wf(),
            store@ == Map::<Seq<u8>, (Seq<u8>, nat)>::empty(),
    {
        let store = Store { nodes: NodeList::new(), refcounts: Vec::new() };
        proof {
            store.lemma_view();
            assert(store@ =~= Map::<Seq<u8>, (Seq<u8>, nat)>::empty());
        }
        store
    }

    /// The blob stored under `hash`, or `None` where there is none.
    pub fn get(&self, hash: &CryptoHash) -> (blob: Option<Vec<u8>>)
        requires
            self.wf(),
        ensures
            blob is Some == self@.contains_key(hash@),
            blob matches Some(b) ==> b@ == self@[hash@].0,
    {
        self.nodes.get(hash)
    }

    /// The number of stored blobs.
    pub fn len(&self) -> (n: usize)
        requires
            self.wf(),
        ensures
            n == self.entry_count(),
    {
        self.nodes.len()
    }

    /// The number of references that hold `hash`: 0 where it is not stored.
    pub fn refcount(&self, hash: &CryptoHash) -> (rc: u64)
        requires
            self.wf(),
        ensures
            rc == refcount_of(self@, hash@),
    {
        match self.nodes.position(hash) {
            Some(j) => {
                proof {
                    lemma_lookup_at(self.nodes@, j as int);
                }
                self.refcounts[j]
            },
            None => 0,
        }
    }

    /// Stores a blob under a hash that is not stored yet.
    fn insert_new(&mut self, hash: CryptoHash, blob: Vec<u8>, rc: u64)
        requires
            old(self).wf(),
            !old(self)@.contains_key(hash@),
            rc >= 1,
        ensures
            final(self).wf(),
            final(self)@ == old(self)@.insert(hash@, (blob@, rc as nat)),
    {
        proof {
            lemma_push(self.nodes@, (hash@, blob@));
        }
        self.nodes.push(hash, blob);
        self.refcounts.push(rc);
        proof {
            self.lemma_view();
            old(self).lemma_view();
            assert forall|k: Seq<u8>| self@.contains_key(k) implies #[trigger] self@[k] == old(
                self,
            )@.insert(hash@, (blob@, rc as nat))[k] by {
                let i = position(self.nodes@, k);
                if i < old(self).nodes@.len() {
                    assert(self.nodes@[i] == old(self).nodes@[i]);
                }
            }
            assert(self@ =~= old(self)@.insert(hash@, (blob@, rc as nat)));
        }
    }

    /// Sets the number of references of the blob at index `j`.
    fn set_refcount_at(&mut self, j: usize, rc: u64)
        requires
            old(self).wf(),
            j < old(self).nodes@.len(),
            rc >= 1,
        ensures
            final(self).wf(),
            final(self)@ == old(self)@.insert(
                old(self).nodes@[j as int].0,
                (old(self).nodes@[j as int].1, rc as nat),
            ),
            final(self).nodes@ == old(self).nodes@,
    {
        self.refcounts.set(j, rc);
        proof {
            self.lemma_view();
            old(self).lemma_view();
            let key = old(self).nodes@[j as int].0;
            assert forall|k: Seq<u8>| self@.contains_key(k) implies #[trigger] self@[k] == old(
                self,
            )@.insert(key, (old(self).nodes@[j as int].1, rc as nat))[k] by {
                let i = position(self.nodes@, k);
                lemma_lookup_at(self.nodes@, i);
                lemma_lookup_at(self.nodes@, j as int);
            }
            assert(self@ =~= old(self)@.insert(key, (old(self).nodes@[j as int].1, rc as nat)));
        }
    }

    /// Takes the blob at index `j` out of the store.
    fn remove_at(&mut self, j: usize)
        requires
            old(self).wf(),
            j < old(self).nodes@.len(),
        ensures
            final(self).wf(),
            final(self)@ == old(self)@.remove(old(self).nodes@[j as int].0),
    {
        proof {
            lemma_remove(self.nodes@, j as int);
            lemma_lookup_at(self.nodes@, j as int);
        }
        let _ = self.nodes.remove(j);
        let _ = self.refcounts.remove(j);
        proof {
            self.lemma_view();
            old(self).lemma_view();
            let key = old(self).nodes@[j as int].0;
            assert forall|k: Seq<u8>| self@.contains_key(k) implies #[trigger] self@[k] == old(
                self,
            )@.remove(key)[k] by {
                let i = position(self.nodes@, k);
                let i0 = if i < j { i } else { i + 1 };
                assert(self.nodes@[i] == old(self).nodes@[i0]);
                assert(self.refcounts[i] == old(self).refcounts[i0]);
            }
            assert(self@ =~= old(self)@.remove(key));
        }
    }

    /// Writes the changes of one trie update as one batch, all of it or none: nets
    /// the insertions and deletions, and commits the net update.
    pub fn write_batch(&mut self, trie_changes: &TrieChanges) -> (result: Result<
        (),
        StorageError,
    >)
        requires
            old(self).wf(),
        ensures
            final(self).wf(),
            commit_fits(old(self)@, net_update(trie_changes.deltas())) ==> result is Ok && final(self)@ == committed(old(self)@, net_update(trie_changes.deltas())),
            !commit_fits(old(self)@, net_update(trie_changes.deltas())) ==> result == Err::<
                (),
                StorageError,
            >(StorageError::StorageInternalError) && final(self)@ == old(self)@,
    {
        let (update, _) = apply_all(trie_changes);
        self.commit(update)
    }

    /// Commits a net update, all of it or none.
    ///
    /// Succeeds exactly when the update fits the store. Every count is then changed
    /// by what the update says; a blob whose count reaches 0 leaves the store, and a
    /// hash that was not stored enters it with the update's blob. An update that
    /// does not fit fails with `StorageInternalError` and leaves the store as it was.
    pub fn commit(&mut self, update: StoreUpdate) -> (result: Result<(), StorageError>)
        requires
            old(self).wf(),
            update.wf(),
        ensures
            final(self).wf(),
            commit_fits(old(self)@, update@) ==> result is Ok && final(self)@ == committed(
                old(self)@,
                update@,
            ),
            !commit_fits(old(self)@, update@) ==> result == Err::<(), StorageError>(
                StorageError::StorageInternalError,
            ) && final(self)@ == old(self)@,
    {
        let n = update.len();
        proof {
            update.lemma_keys();
        }
        let mut i: usize = 0;
        while i < n
            invariant
                i <= n,
                n == update.entry_count(),
                self.wf(),
                update.wf(),
                *self == *old(self),
                forall|a: int|
                    0 <= a < i ==> 0 <= refcount_of(self@, #[trigger] update.key_at(a)) + delta_of(
                        update@,
                        update.key_at(a),
                    ) <= u64::MAX,
            decreases n - i,
        {
            let entry = update.entry(i);
            let current = self.refcount(&entry.0);
            let sum: i128 = current as i128 + entry.2;
            if sum < 0 || sum > u64::MAX as i128 {
                return Err(StorageError::StorageInternalError);
            }
            i += 1;
        }
        proof {
            assert forall|k: Seq<u8>| #[trigger] update@.contains_key(k) implies 0 <= refcount_of(
                self@,
                k,
            ) + update@[k].1 <= u64::MAX by {
                let a = choose|a: int| 0 <= a < update.entry_count() && #[trigger] update.key_at(a) == k;
                assert(update.key_at(a) == k);
            }
        }
        let mut i: usize = 0;
        assert(self@ =~= partly_committed(old(self)@, &update, 0));
        while i < n
            invariant
                i <= n,
                n == update.entry_count(),
                self.wf(),
                old(self).wf(),
                update.wf(),
                commit_fits(old(self)@, update@),
                self@ == partly_committed(old(self)@, &update, i as int),
            decreases n - i,
        {
            let entry = update.entry(i);
            let ghost key = entry.0@;
            let ghost before = self@;
            proof {
                update.lemma_keys();
                assert(update.key_at(i as int) == key);
                if among(&update, i as int, key) {
                    let a = choose|a: int| 0 <= a < i && #[trigger] update.key_at(a) == key;
                    assert(update.key_at(a) != update.key_at(i as int));
                }
                assert(!among(&update, i as int, key));
                assert(update@.contains_key(key));
                assert(before.contains_key(key) == old(self)@.contains_key(key));
                assert(before.contains_key(key) ==> before[key] == old(self)@[key]);
            }
            match self.nodes.position(&entry.0) {
                Some(j) => {
                    proof {
                        self.lemma_view();
                        lemma_lookup_at(self.nodes@, j as int);
                    }
                    let sum: i128 = self.refcounts[j] as i128 + entry.2;
                    if sum == 0 {
                        self.remove_at(j);
                    } else {
                        self.set_refcount_at(j, sum as u64);
                    }
                },
                None => {
                    assert(!self@.contains_key(key));
                    self.insert_new(entry.0, clone_blob(entry.1), entry.2 as u64);
                },
            }
            proof {
                let next = partly_committed(old(self)@, &update, i + 1);
                assert forall|k: Seq<u8>| self@.contains_key(k) == next.contains_key(k) && (
                self@.contains_key(k) ==> #[trigger] self@[k] == next[k]) by {
                    if k == key {
                        assert(among(&update, i + 1, k)) by {
                            assert(update.key_at(i as int) == k);
                        }
                    } else {
                        assert(self@.contains_key(k) == before.contains_key(k));
                        if among(&update, i + 1, k) {
                            let a = choose|a: int| 0 <= a < i + 1 && #[trigger] update.key_at(a) == k;
                            assert(among(&update, i as int, k)) by {
                                assert(0 <= a < i && update.key_at(a) == k);
                            }
                        }
                        if among(&update, i as int, k) {
                            let a = choose|a: int| 0 <= a < i && #[trigger] update.key_at(a) == k;
                            assert(among(&update, i + 1, k)) by {
                                assert(0 <= a < i + 1 && update.key_at(a) == k);
                            }
                        }
                    }
                }
                assert(self@ =~= next);
            }
            i += 1;
        }
        proof {
            update.lemma_keys();
            let target = committed(old(self)@, update@);
            assert forall|k: Seq<u8>| self@.contains_key(k) == target.contains_key(k) && (
            self@.contains_key(k) ==> #[trigger] self@[k] == target[k]) by {
                if update@.contains_key(k) {
                    let a = choose|a: int|
                        0 <= a < update.entry_count() && #[trigger] update.key_at(a) == k;
                    assert(among(&update, i as int, k)) by {
                        assert(0 <= a < i && update.key_at(a) == k);
                    }
                } else {
                    if among(&update, i as int, k) {
                        let a = choose|a: int| 0 <= a < i && #[trigger] update.key_at(a) == k;
                        assert(0 <= a < update.entry_count() && update.key_at(a) == k);
                    }
                }
            }
            assert(self@ =~= target);
        }
        Ok(())
    }
}

} // verus!
