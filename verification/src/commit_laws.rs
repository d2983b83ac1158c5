//! What holds of committed insertions: blobs with the same bytes are stored once.

use vstd::prelude::*;
use vstd::relations::injective_on;
use vstd::set_lib::{lemma_map_size, lemma_map_size_bound};
use crate::hash::sha256;
use crate::store::{blobs_in, commit_fits, committed, content_addressed, refcount_of};
use crate::trie_changes::{
    first_bytes, lemma_first_index, lemma_net_of_absent, net_delta, net_update, occurs,
    signed_changes, TrieRefcountChange,
};

verus! {

/// The blobs of the triples of `d`, in order.
pub open spec fn blobs_inserted(d: Seq<(Seq<u8>, Seq<u8>, int)>) -> Seq<Seq<u8>> {
    Seq::new(d.len(), |i: int| d[i].1)
}

/// Where every count is positive, the net count of a hash is positive exactly if
/// some triple speaks of the hash.
pub proof fn lemma_insertions_net_positive(d: Seq<(Seq<u8>, Seq<u8>, int)>, key: Seq<u8>)
    requires
        forall|i: int| 0 <= i < d.len() ==> (#[trigger] d[i]).2 >= 1,
    ensures
        net_delta(d, key) >= 0,
        net_delta(d, key) > 0 <==> occurs(d, key),
    decreases d.len(),
{
    if d.len() > 0 {
        let front = d.drop_last();
        lemma_insertions_net_positive(front, key);
        if occurs(d, key) && d.last().0 != key {
            let i = choose|i: int| 0 <= i < d.len() && (#[trigger] d[i]).0 == key;
            assert(front[i] == d[i]);
        }
    } else {
        lemma_net_of_absent(d, key);
    }
}

/// The net count of a hash is no larger than the largest count times the number
/// of triples.
pub proof fn lemma_net_delta_bound(d: Seq<(Seq<u8>, Seq<u8>, int)>, key: Seq<u8>, largest: int)
    requires
        forall|i: int| 0 <= i < d.len() ==> -largest <= (#[trigger] d[i]).2 <= largest,
        largest >= 0,
    ensures
        -(d.len() * largest) <= net_delta(d, key) <= d.len() * largest,
    decreases d.len(),
{
    if d.len() > 0 {
        let front = d.drop_last();
        lemma_net_delta_bound(front, key, largest);
        assert(d.len() * largest == front.len() * largest + largest) by (nonlinear_arith)
            requires
                d.len() == front.len() + 1,
        ;
    } else {
        assert(d.len() * largest == 0) by (nonlinear_arith)
            requires
                d.len() == 0,
        ;
    }
}

/// Blobs inserted into an empty store are stored once for each different
/// content.
///
/// Let every triple of `d` insert a blob under its own digest, at least once. The
/// commit of their netting to an empty store fits. After it the store holds
/// exactly the digests of the blobs, each with the blob that came first and the
/// sum of its counts. So it never holds more entries than there are different
/// blobs, and it holds exactly as many when no two different blobs of `d` have
/// the same digest.
pub proof fn identical_blobs_are_stored_once(d: Seq<(Seq<u8>, Seq<u8>, int)>)
    requires
        forall|i: int| 0 <= i < d.len() ==> (#[trigger] d[i]).2 >= 1 && d[i].0 == sha256(d[i].1),
        forall|k: Seq<u8>| net_delta(d, k) <= u64::MAX,
    ensures
        commit_fits(Map::empty(), net_update(d)),
        forall|k: Seq<u8>| #[trigger]
            committed(Map::empty(), net_update(d)).contains_key(k) ==> committed(
                Map::empty(),
                net_update(d),
            )[k] == (first_bytes(d, k), net_delta(d, k) as nat),
        committed(Map::empty(), net_update(d)).dom() == blobs_inserted(d).to_set().map(
            |b: Seq<u8>| sha256(b),
        ),
        committed(Map::empty(), net_update(d)).dom().finite(),
        committed(Map::empty(), net_update(d)).dom().len() <= blobs_inserted(d).to_set().len(),
        injective_on(|b: Seq<u8>| sha256(b), blobs_inserted(d).to_set()) ==> committed(
            Map::empty(),
            net_update(d),
        ).dom().len() == blobs_inserted(d).to_set().len(),
{
    let empty = Map::<Seq<u8>, (Seq<u8>, nat)>::empty();
    let stored = committed(empty, net_update(d));
    let blobs = blobs_inserted(d).to_set();
    let digest = |b: Seq<u8>| sha256(b);
    assert forall|k: Seq<u8>| #[trigger] net_update(d).contains_key(k) implies 0 <= refcount_of(
        empty,
        k,
    ) + net_update(d)[k].1 <= u64::MAX by {
        lemma_insertions_net_positive(d, k);
    }
    assert forall|k: Seq<u8>| stored.dom().contains(k) <==> blobs.map(digest).contains(k) by {
        lemma_insertions_net_positive(d, k);
        if stored.dom().contains(k) {
            let i = choose|i: int| 0 <= i < d.len() && (#[trigger] d[i]).0 == k;
            assert(blobs_inserted(d)[i] == d[i].1);
            assert(blobs.contains(d[i].1));
        }
    }
    assert(stored.dom() =~= blobs.map(digest));
    vstd::seq_lib::seq_to_set_is_finite(blobs_inserted(d));
    lemma_map_size_bound(blobs, stored.dom(), digest);
    if injective_on(digest, blobs) {
        lemma_map_size(blobs, stored.dom(), digest);
    }
}

/// Content addressing survives every commit: where every blob of the store is
/// stored under its own digest, and every change names its blob by its digest,
/// every blob of the store after the commit is stored under its own digest.
pub proof fn commit_keeps_content_addressing(
    store: Map<Seq<u8>, (Seq<u8>, nat)>,
    d: Seq<(Seq<u8>, Seq<u8>, int)>,
)
    requires
        content_addressed(blobs_in(store)),
        forall|i: int| 0 <= i < d.len() ==> (#[trigger] d[i]).0 == sha256(d[i].1),
    ensures
        content_addressed(blobs_in(committed(store, net_update(d)))),
{
    let after = committed(store, net_update(d));
    assert forall|h: Seq<u8>| #[trigger] blobs_in(after).contains_key(h) implies sha256(
        blobs_in(after)[h],
    ) == h by {
        if store.contains_key(h) {
            assert(blobs_in(store).contains_key(h));
        } else {
            if !occurs(d, h) {
                lemma_net_of_absent(d, h);
            }
            lemma_first_index(d, h);
        }
    }
}

/// The insertions of one update, committed to an empty store, are stored once
/// for each different content.
///
/// Let `insertions` be fewer than 2^32 changes, each of a blob under its own
/// digest and with a count of at least one. Then their commit to an empty store
/// fits, and after it the store holds no more entries than there are different
/// blobs, and exactly as many where no two different blobs have the same digest.
pub proof fn insertions_are_stored_once(insertions: Seq<TrieRefcountChange>)
    requires
        insertions.len() <= u32::MAX,
        forall|i: int|
            0 <= i < insertions.len() ==> (#[trigger] insertions[i]).rc >= 1
                && insertions[i].trie_node_or_value_hash@ == sha256(
                insertions[i].trie_node_or_value@,
            ),
    ensures
        commit_fits(Map::empty(), net_update(signed_changes(insertions, false))),
        committed(Map::empty(), net_update(signed_changes(insertions, false))).dom().finite(),
        committed(Map::empty(), net_update(signed_changes(insertions, false))).dom().len()
            <= blobs_inserted(signed_changes(insertions, false)).to_set().len(),
        injective_on(
            |b: Seq<u8>| sha256(b),
            blobs_inserted(signed_changes(insertions, false)).to_set(),
        ) ==> committed(Map::empty(), net_update(signed_changes(insertions, false))).dom().len()
            == blobs_inserted(signed_changes(insertions, false)).to_set().len(),
{
    let d = signed_changes(insertions, false);
    assert forall|k: Seq<u8>| net_delta(d, k) <= u64::MAX by {
        lemma_net_delta_bound(d, k, 0xffff_ffff);
        assert(d.len() * 0xffff_ffff <= u64::MAX) by (nonlinear_arith)
            requires
                d.len() <= 0xffff_ffff,
        ;
    }
    identical_blobs_are_stored_once(d);
}

} // verus!
