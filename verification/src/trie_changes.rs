//! The changes that a trie update makes to the store, and their netting: one
//! signed reference-count change for each hash.

use vstd::prelude::*;
use crate::entries::{distinct_keys, has_key, lemma_lookup_at, lemma_push, position};
use crate::hash::CryptoHash;
use crate::node_list::{clone_blob, NodeList};

verus! {

/// A blob that a trie update adds to the store or takes from it, `rc` times.
#[derive(Clone, Debug, PartialEq, Eq)]
pub struct TrieRefcountChange {
    /// The hash under which the blob is stored.
    pub trie_node_or_value_hash: CryptoHash,
    /// The blob.
    pub trie_node_or_value: Vec<u8>,
    /// How many references are added or dropped.
    pub rc: u32,
}

/// What a trie update changes in the store.
#[derive(Clone, Debug, PartialEq, Eq)]
pub struct TrieChanges {
    /// The root before the update.
    pub old_root: CryptoHash,
    /// The root after the update.
    pub new_root: CryptoHash,
    /// The blobs that gain references.
    pub insertions: Vec<TrieRefcountChange>,
    /// The blobs that lose references.
    pub deletions: Vec<TrieRefcountChange>,
}

/// A list of changes as triples of hash, blob and signed count: the count of
/// each change, negative where `negate` is set.
pub open spec fn signed_changes(changes: Seq<TrieRefcountChange>, negate: bool) -> Seq<
    (Seq<u8>, Seq<u8>, int),
> {
    Seq::new(
        changes.len(),
        |i: int|
            (
                changes[i].trie_node_or_value_hash@,
                changes[i].trie_node_or_value@,
                if negate {
                    -(changes[i].rc as int)
                } else {
                    changes[i].rc as int
                },
            ),
    )
}

/// Whether some triple of `d` speaks of `key`.
pub open spec fn occurs(d: Seq<(Seq<u8>, Seq<u8>, int)>, key: Seq<u8>) -> bool {
    exists|i: int| 0 <= i < d.len() && (#[trigger] d[i]).0 == key
}

/// The index of the first triple of `d` that speaks of `key`.
pub open spec fn first_index(d: Seq<(Seq<u8>, Seq<u8>, int)>, key: Seq<u8>) -> int {
    choose|i: int|
        0 <= i < d.len() && (#[trigger] d[i]).0 == key && forall|j: int|
            0 <= j < i ==> (#[trigger] d[j]).0 != key
}

/// The blob of the first triple of `d` that speaks of `key`.
pub open spec fn first_bytes(d: Seq<(Seq<u8>, Seq<u8>, int)>, key: Seq<u8>) -> Seq<u8> {
    d[first_index(d, key)].1
}

/// The sum of the signed counts of the triples of `d` that speak of `key`.
pub open spec fn net_delta(d: Seq<(Seq<u8>, Seq<u8>, int)>, key: Seq<u8>) -> int
    decreases d.len(),
{
    if d.len() == 0 {
        0
    } else {
        net_delta(d.drop_last(), key) + if d.last().0 == key {
            d.last().2
        } else {
            0
        }
    }
}

/// The net update that the triples of `d` amount to: for each hash whose counts
/// do not cancel, the blob that came first and the sum of the counts.
pub open spec fn net_update(d: Seq<(Seq<u8>, Seq<u8>, int)>) -> Map<Seq<u8>, (Seq<u8>, int)> {
    Map::new(
        |k: Seq<u8>| net_delta(d, k) != 0,
        |k: Seq<u8>| (first_bytes(d, k), net_delta(d, k)),
    )
}

impl TrieChanges {
    /// The changes as signed triples: the insertions, then the deletions.
    pub open spec fn deltas(&self) -> Seq<(Seq<u8>, Seq<u8>, int)> {
        signed_changes(self.insertions@, false) + signed_changes(self.deletions@, true)
    }

    /// The changes of an update that changes nothing.
    pub fn empty(old_root: CryptoHash) -> (changes: TrieChanges)
        ensures
            changes.old_root == old_root,
            changes.new_root == old_root,
            changes.insertions@.len() == 0,
            changes.deletions@.len() == 0,
    {
        TrieChanges { old_root, new_root: old_root, insertions: Vec::new(), deletions: Vec::new() }
    }
}

/// The first triple that speaks of a key that occurs is well defined.
pub proof fn lemma_first_index(d: Seq<(Seq<u8>, Seq<u8>, int)>, key: Seq<u8>)
    requires
        occurs(d, key),
    ensures
        0 <= first_index(d, key) < d.len(),
        d[first_index(d, key)].0 == key,
        forall|j: int| 0 <= j < first_index(d, key) ==> (#[trigger] d[j]).0 != key,
    decreases d.len(),
{
    let i = choose|i: int| 0 <= i < d.len() && (#[trigger] d[i]).0 == key;
    lemma_first_exists(d, key, i);
}

/// Below any index that speaks of `key` there is a first one.
proof fn lemma_first_exists(d: Seq<(Seq<u8>, Seq<u8>, int)>, key: Seq<u8>, i: int)
    requires
        0 <= i < d.len(),
        d[i].0 == key,
    ensures
        exists|f: int|
            0 <= f < d.len() && (#[trigger] d[f]).0 == key && forall|j: int|
                0 <= j < f ==> (#[trigger] d[j]).0 != key,
    decreases i,
{
    if exists|j: int| 0 <= j < i && (#[trigger] d[j]).0 == key {
        let j = choose|j: int| 0 <= j < i && (#[trigger] d[j]).0 == key;
        lemma_first_exists(d, key, j);
    } else {
        assert(d[i].0 == key && forall|j: int| 0 <= j < i ==> (#[trigger] d[j]).0 != key);
    }
}

/// What one more triple does to the netting.
pub proof fn lemma_net_push(d: Seq<(Seq<u8>, Seq<u8>, int)>, x: (Seq<u8>, Seq<u8>, int))
    ensures
        forall|k: Seq<u8>|
            #![trigger occurs(d.push(x), k)]
            #![trigger occurs(d, k)]
            occurs(d.push(x), k) <==> (k == x.0 || occurs(d, k)),
        forall|k: Seq<u8>|
            #![trigger net_delta(d.push(x), k)]
            #![trigger net_delta(d, k)]
            net_delta(d.push(x), k) == net_delta(d, k) + if k == x.0 {
                x.2
            } else {
                0
            },
        forall|k: Seq<u8>|
            #![trigger first_bytes(d.push(x), k)]
            #![trigger first_bytes(d, k)]
            occurs(d, k) ==> first_bytes(d.push(x), k) == first_bytes(d, k),
        !occurs(d, x.0) ==> first_bytes(d.push(x), x.0) == x.1,
{
    let e = d.push(x);
    assert(e.drop_last() =~= d);
    assert forall|k: Seq<u8>| occurs(e, k) <==> (k == x.0 || occurs(d, k)) by {
        if occurs(e, k) {
            let i = choose|i: int| 0 <= i < e.len() && (#[trigger] e[i]).0 == k;
            if i < d.len() {
                assert(d[i] == e[i]);
            }
        }
        if k == x.0 {
            assert(e[d.len() as int].0 == k);
        }
        if occurs(d, k) {
            let i = choose|i: int| 0 <= i < d.len() && (#[trigger] d[i]).0 == k;
            assert(e[i] == d[i]);
        }
    }
    assert forall|k: Seq<u8>| occurs(d, k) implies first_bytes(e, k) == first_bytes(d, k) by {
        lemma_first_index(d, k);
        assert(occurs(e, k));
        lemma_first_index(e, k);
        let f = first_index(d, k);
        let g = first_index(e, k);
        assert(e[f] == d[f]);
        if g < f {
            assert(d[g] == e[g]);
        } else if f < g {
            assert(e[f].0 != k);
        }
    }
    if !occurs(d, x.0) {
        assert(e[d.len() as int] == x);
        assert(occurs(e, x.0));
        lemma_first_index(e, x.0);
        let g = first_index(e, x.0);
        if g < d.len() {
            assert(d[g] == e[g]);
            assert(occurs(d, x.0));
        }
    }
}

/// A hash that no triple speaks of has no net change.
pub proof fn lemma_net_of_absent(d: Seq<(Seq<u8>, Seq<u8>, int)>, key: Seq<u8>)
    requires
        !occurs(d, key),
    ensures
        net_delta(d, key) == 0,
    decreases d.len(),
{
    if d.len() > 0 {
        assert(d[d.len() - 1].0 != key);
        assert forall|i: int| 0 <= i < d.drop_last().len() implies (#[trigger] d.drop_last()[i]).0
            != key by {
            assert(d.drop_last()[i] == d[i]);
        }
        lemma_net_of_absent(d.drop_last(), key);
    }
}

/// Whether the pairs of `entries` with the sums of `nets` are the netting of
/// exactly the triples of `d`: one entry for each hash that occurs, with the blob
/// that came first and the sum of its counts.
spec fn tallied(
    entries: Seq<(Seq<u8>, Seq<u8>)>,
    nets: Seq<i128>,
    d: Seq<(Seq<u8>, Seq<u8>, int)>,
) -> bool {
    &&& distinct_keys(entries)
    &&& nets.len() == entries.len()
    &&& forall|k: Seq<u8>| has_key(entries, k) <==> occurs(d, k)
    &&& forall|i: int|
        0 <= i < nets.len() ==> {
            &&& #[trigger] nets[i] == net_delta(d, entries[i].0)
            &&& entries[i].1 == first_bytes(d, entries[i].0)
            &&& -(d.len() * 0x1_0000_0000) <= nets[i] <= d.len() * 0x1_0000_0000
        }
}

/// A triple for a hash that the tally has adds its count to that hash's sum.
proof fn lemma_tally_known(
    entries: Seq<(Seq<u8>, Seq<u8>)>,
    nets: Seq<i128>,
    d: Seq<(Seq<u8>, Seq<u8>, int)>,
    x: (Seq<u8>, Seq<u8>, int),
    i: int,
    sum: i128,
)
    requires
        tallied(entries, nets, d),
        0 <= i < entries.len(),
        entries[i].0 == x.0,
        -0x1_0000_0000 <= x.2 <= 0x1_0000_0000,
        sum == nets[i] + x.2,
    ensures
        tallied(entries, nets.update(i, sum), d.push(x)),
{
    lemma_net_push(d, x);
    let e = d.push(x);
    let after = nets.update(i, sum);
    assert forall|a: int| 0 <= a < after.len() implies {
        &&& #[trigger] after[a] == net_delta(e, entries[a].0)
        &&& entries[a].1 == first_bytes(e, entries[a].0)
        &&& -(e.len() * 0x1_0000_0000) <= after[a] <= e.len() * 0x1_0000_0000
    } by {
        lemma_lookup_at(entries, a);
        assert(nets[a] == net_delta(d, entries[a].0));
        if a != i {
            if a < i {
                assert(entries[a].0 != entries[i].0);
            } else {
                assert(entries[i].0 != entries[a].0);
            }
        }
    }
}

/// A triple for a hash that the tally does not have opens an entry for it.
proof fn lemma_tally_fresh(
    entries: Seq<(Seq<u8>, Seq<u8>)>,
    nets: Seq<i128>,
    d: Seq<(Seq<u8>, Seq<u8>, int)>,
    x: (Seq<u8>, Seq<u8>, int),
    count: i128,
)
    requires
        tallied(entries, nets, d),
        !has_key(entries, x.0),
        -0x1_0000_0000 <= x.2 <= 0x1_0000_0000,
        count == x.2,
    ensures
        tallied(entries.push((x.0, x.1)), nets.push(count), d.push(x)),
{
    lemma_net_push(d, x);
    lemma_net_of_absent(d, x.0);
    lemma_push(entries, (x.0, x.1));
    let e = d.push(x);
    let grown = entries.push((x.0, x.1));
    let after = nets.push(count);
    assert forall|a: int| 0 <= a < after.len() implies {
        &&& #[trigger] after[a] == net_delta(e, grown[a].0)
        &&& grown[a].1 == first_bytes(e, grown[a].0)
        &&& -(e.len() * 0x1_0000_0000) <= after[a] <= e.len() * 0x1_0000_0000
    } by {
        if a < nets.len() {
            assert(grown[a] == entries[a]);
            lemma_lookup_at(entries, a);
            assert(nets[a] == net_delta(d, entries[a].0));
            assert(occurs(d, entries[a].0));
        } else {
            assert(grown[a] == (x.0, x.1));
            assert(!occurs(d, x.0));
            assert(e.len() >= 1);
        }
    }
    assert forall|k: Seq<u8>| has_key(grown, k) <==> occurs(e, k) by {
        assert(has_key(grown, k) <==> (k == x.0 || has_key(entries, k)));
        assert(occurs(e, k) <==> (k == x.0 || occurs(d, k)));
    }
}

/// The running netting of a list of triples.
struct Tally {
    nodes: NodeList,
    nets: Vec<i128>,
}

impl Tally {
    /// The tally is the netting of exactly the triples of `d`.
    spec fn matches(&self, d: Seq<(Seq<u8>, Seq<u8>, int)>) -> bool {
        &&& self.nodes.wf()
        &&& tallied(self.nodes@, self.nets@, d)
    }

    /// Adds the changes of `changes` to the tally, negated where `negate` is set.
    fn add(&mut self, changes: &Vec<TrieRefcountChange>, negate: bool, Ghost(done): Ghost<
        Seq<(Seq<u8>, Seq<u8>, int)>,
    >)
        requires
            old(self).matches(done),
            done.len() <= usize::MAX,
        ensures
            final(self).matches(done + signed_changes(changes@, negate)),
    {
        let ghost all = signed_changes(changes@, negate);
        let mut j: usize = 0;
        assert(done + all.take(0) =~= done);
        while j < changes.len()
            invariant
                j <= changes.len(),
                all == signed_changes(changes@, negate),
                done.len() <= usize::MAX,
                self.matches(done + all.take(j as int)),
            decreases changes.len() - j,
        {
            let ghost d = done + all.take(j as int);
            let ghost x = all[j as int];
            assert(d.push(x) =~= done + all.take(j + 1));
            let change = &changes[j];
            let delta: i128 = if negate {
                -(change.rc as i128)
            } else {
                change.rc as i128
            };
            match self.nodes.position(&change.trie_node_or_value_hash) {
                Some(i) => {
                    assert(-(d.len() * 0x1_0000_0000) <= self.nets[i as int] <= d.len()
                        * 0x1_0000_0000);
                    let sum: i128 = self.nets[i] + delta;
                    proof {
                        lemma_tally_known(self.nodes@, self.nets@, d, x, i as int, sum);
                    }
                    self.nets.set(i, sum);
                },
                None => {
                    proof {
                        lemma_tally_fresh(self.nodes@, self.nets@, d, x, delta);
                    }
                    self.nodes.push(
                        change.trie_node_or_value_hash,
                        clone_blob(&change.trie_node_or_value),
                    );
                    self.nets.push(delta);
                },
            }
            j += 1;
        }
        assert(all.take(j as int) =~= all);
    }
}

/// The net changes of one trie update, ready to be committed: for each hash a
/// blob and a signed count that is not 0.
pub struct StoreUpdate {
    nodes: NodeList,
    deltas: Vec<i128>,
}

impl View for StoreUpdate {
    type V = Map<Seq<u8>, (Seq<u8>, int)>;

    closed spec fn view(&self) -> Map<Seq<u8>, (Seq<u8>, int)> {
        Map::new(
            |k: Seq<u8>| has_key(self.nodes@, k),
            |k: Seq<u8>|
                (
                    self.nodes@[position(self.nodes@, k)].1,
                    self.deltas[position(self.nodes@, k)] as int,
                ),
        )
    }
}

impl StoreUpdate {
    /// The list behind the update is in order, and no count is out of range.
    pub closed spec fn parts_wf(&self) -> bool {
        &&& self.nodes.wf()
        &&& self.deltas.len() == self.nodes@.len()
        &&& forall|i: int|
            0 <= i < self.deltas.len() ==> -0x10_0000_0000_0000_0000_0000_0000 <= #[trigger] self.deltas[i]
                <= 0x10_0000_0000_0000_0000_0000_0000
    }

    /// The update is in order, and none of its counts is 0.
    pub open spec fn wf(&self) -> bool {
        &&& self.parts_wf()
        &&& forall|k: Seq<u8>| #[trigger] self@.contains_key(k) ==> self@[k].1 != 0
    }

    /// The number of hashes that the update changes.
    pub closed spec fn entry_count(&self) -> nat {
        self.nodes@.len()
    }

    /// The number of hashes that the update changes.
    pub fn len(&self) -> (n: usize)
        requires
            self.wf(),
        ensures
            n == self.entry_count(),
    {
        self.nodes.len()
    }

    /// The hash, the blob and the count at index `i`, in the order in which the
    /// hashes first occurred.
    pub(crate) fn entry(&self, i: usize) -> (e: (CryptoHash, &Vec<u8>, i128))
        requires
            self.wf(),
            i < self.entry_count(),
        ensures
            self@.contains_key(e.0@),
            self@[e.0@] == (e.1@, e.2 as int),
            e.0@ == self.key_at(i as int),
            -0x10_0000_0000_0000_0000_0000_0000 <= e.2 <= 0x10_0000_0000_0000_0000_0000_0000,
    {
        proof {
            lemma_lookup_at(self.nodes@, i as int);
        }
        (self.nodes.hash_at(i), self.nodes.blob_at(i), self.deltas[i])
    }

    /// The hash at index `i`.
    pub closed spec fn key_at(&self, i: int) -> Seq<u8> {
        self.nodes@[i].0
    }

    /// Every hash of the update is at some index, and no two indices hold the
    /// same hash.
    pub proof fn lemma_keys(&self)
        requires
            self.wf(),
        ensures
            forall|k: Seq<u8>|
                self@.contains_key(k) <==> exists|i: int|
                    0 <= i < self.entry_count() && #[trigger] self.key_at(i) == k,
            forall|i: int, j: int|
                0 <= i < j < self.entry_count() ==> #[trigger] self.key_at(i) != #[trigger] self.key_at(
                    j,
                ),
    {
        assert forall|k: Seq<u8>|
            self@.contains_key(k) <==> exists|i: int|
                0 <= i < self.entry_count() && #[trigger] self.key_at(i) == k by {
            if self@.contains_key(k) {
                let i = position(self.nodes@, k);
                assert(self.key_at(i) == k);
            }
            if exists|i: int| 0 <= i < self.entry_count() && #[trigger] self.key_at(i) == k {
                let i = choose|i: int| 0 <= i < self.entry_count() && #[trigger] self.key_at(i) == k;
                assert(self.nodes@[i].0 == k);
            }
        }
    }
}

/// Nets the changes of a trie update: groups them by hash and sums the counts,
/// insertions counted up and deletions counted down. Hashes whose counts cancel
/// are left out. Returns the net update with the update's new root.
pub fn apply_all(trie_changes: &TrieChanges) -> (applied: (StoreUpdate, CryptoHash))
    ensures
        applied.0.wf(),
        applied.0@ == net_update(trie_changes.deltas()),
        applied.1 == trie_changes.new_root,
{
    let ghost d = trie_changes.deltas();
    let mut tally = Tally { nodes: NodeList::new(), nets: Vec::new() };
    assert(signed_changes(trie_changes.insertions@, false).len() == trie_changes.insertions.len());
    assert(signed_changes(trie_changes.deletions@, true).len() == trie_changes.deletions.len());
    tally.add(&trie_changes.insertions, false, Ghost(Seq::empty()));
    assert(Seq::<(Seq<u8>, Seq<u8>, int)>::empty() + signed_changes(
        trie_changes.insertions@,
        false,
    ) =~= signed_changes(trie_changes.insertions@, false));
    tally.add(
        &trie_changes.deletions,
        true,
        Ghost(signed_changes(trie_changes.insertions@, false)),
    );
    let mut update = StoreUpdate { nodes: NodeList::new(), deltas: Vec::new() };
    let mut i: usize = 0;
    while i < tally.nodes.len()
        invariant
            i <= tally.nodes@.len(),
            d.len() <= 2 * usize::MAX,
            tally.matches(d),
            tally.nets.len() == tally.nodes@.len(),
            update.parts_wf(),
            forall|k: Seq<u8>|
                has_key(update.nodes@, k) <==> exists|a: int|
                    0 <= a < i && (#[trigger] tally.nodes@[a]).0 == k && tally.nets[a] != 0,
            forall|b: int|
                0 <= b < update.deltas.len() ==> {
                    &&& #[trigger] update.deltas[b] == net_delta(d, update.nodes@[b].0)
                    &&& update.deltas[b] != 0
                    &&& update.nodes@[b].1 == first_bytes(d, update.nodes@[b].0)
                },
        decreases tally.nodes@.len() - i,
    {
        let net: i128 = tally.nets[i];
        let ghost before_nodes = update.nodes@;
        if net != 0 {
            let hash = tally.nodes.hash_at(i);
            let ghost before = update.nodes@;
            proof {
                if has_key(update.nodes@, hash@) {
                    let a = choose|a: int|
                        0 <= a < i && (#[trigger] tally.nodes@[a]).0 == hash@ && tally.nets[a] != 0;
                    assert(tally.nodes@[a].0 != tally.nodes@[i as int].0);
                }
                lemma_push(before, (hash@, tally.nodes@[i as int].1));
                assert(-(d.len() * 0x1_0000_0000) <= tally.nets[i as int] <= d.len()
                    * 0x1_0000_0000);
            }
            update.nodes.push(hash, clone_blob(tally.nodes.blob_at(i)));
            update.deltas.push(net);
            proof {
                assert forall|b: int| 0 <= b < update.deltas.len() implies {
                    &&& #[trigger] update.deltas[b] == net_delta(d, update.nodes@[b].0)
                    &&& update.deltas[b] != 0
                    &&& update.nodes@[b].1 == first_bytes(d, update.nodes@[b].0)
                } by {
                    if b < before.len() {
                        assert(update.nodes@[b] == before[b]);
                    }
                }
            }
        }
        proof {
            assert forall|k: Seq<u8>|
                has_key(update.nodes@, k) <==> exists|a: int|
                    0 <= a < i + 1 && (#[trigger] tally.nodes@[a]).0 == k && tally.nets[a]
                        != 0 by {
                if has_key(update.nodes@, k) {
                    if has_key(before_nodes, k) {
                        let a = choose|a: int|
                            0 <= a < i && (#[trigger] tally.nodes@[a]).0 == k && tally.nets[a]
                                != 0;
                        assert(0 <= a < i + 1 && tally.nodes@[a].0 == k && tally.nets[a] != 0);
                    } else {
                        assert(tally.nodes@[i as int].0 == k && tally.nets[i as int] != 0);
                    }
                }
                if exists|a: int|
                    0 <= a < i + 1 && (#[trigger] tally.nodes@[a]).0 == k && tally.nets[a] != 0 {
                    let a = choose|a: int|
                        0 <= a < i + 1 && (#[trigger] tally.nodes@[a]).0 == k && tally.nets[a]
                            != 0;
                    if a < i {
                        assert(has_key(before_nodes, k));
                    }
                }
            }
        }
        i += 1;
    }
    proof {
        assert forall|k: Seq<u8>| has_key(update.nodes@, k) <==> net_delta(d, k) != 0 by {
            if has_key(update.nodes@, k) {
                let a = choose|a: int|
                    0 <= a < i && (#[trigger] tally.nodes@[a]).0 == k && tally.nets[a] != 0;
                assert(tally.nets[a] == net_delta(d, tally.nodes@[a].0));
            }
            if net_delta(d, k) != 0 {
                if !occurs(d, k) {
                    lemma_net_of_absent(d, k);
                }
                let a = position(tally.nodes@, k);
                assert(tally.nets[a] == net_delta(d, tally.nodes@[a].0));
            }
        }
        assert forall|k: Seq<u8>| update@.contains_key(k) implies #[trigger] update@[k]
            == net_update(d)[k] by {
            let b = position(update.nodes@, k);
            assert(update.deltas[b] == net_delta(d, update.nodes@[b].0));
        }
        assert(update@ =~= net_update(d));
    }
    (update, trie_changes.new_root)
}

} // verus!
