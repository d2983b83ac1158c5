//! The shard cache: a bounded map from hash to blob that forgets the entry that
//! was used least recently.

use vstd::prelude::*;
use crate::entries::{
    as_map, distinct_keys, has_key, lookup, position, lemma_lookup_at, lemma_push, lemma_remove,
};
use crate::hash::{sha256, CryptoHash};
use crate::node_list::{clone_blob, NodeList};
use crate::store::content_addressed;

verus! {

/// Capacity of a shard cache that is made without naming one.
pub const TRIE_DEFAULT_SHARD_CACHE_SIZE: usize = 50000;

/// The cache after a hit on `key`: its pair moves to the most recent end.
/// Without such a pair nothing changes.
pub open spec fn lru_touch(s: Seq<(Seq<u8>, Seq<u8>)>, key: Seq<u8>) -> Seq<(Seq<u8>, Seq<u8>)> {
    if has_key(s, key) {
        s.remove(position(s, key)).push(s[position(s, key)])
    } else {
        s
    }
}

/// The cache without the pair stored under `key`, if there is one.
pub open spec fn lru_without(s: Seq<(Seq<u8>, Seq<u8>)>, key: Seq<u8>) -> Seq<(Seq<u8>, Seq<u8>)> {
    if has_key(s, key) {
        s.remove(position(s, key))
    } else {
        s
    }
}

/// The cache after `value` is put under `key`: the pair becomes the most recent
/// one, and if the cache then holds more than `capacity` pairs, the least recent
/// one leaves.
pub open spec fn lru_put(
    s: Seq<(Seq<u8>, Seq<u8>)>,
    capacity: nat,
    key: Seq<u8>,
    value: Seq<u8>,
) -> Seq<(Seq<u8>, Seq<u8>)> {
    let grown = lru_without(s, key).push((key, value));
    if grown.len() > capacity {
        grown.remove(0)
    } else {
        grown
    }
}

/// A hit moves a pair and changes nothing else: the same hashes are cached with
/// the same blobs.
pub proof fn lemma_lru_touch(s: Seq<(Seq<u8>, Seq<u8>)>, key: Seq<u8>)
    requires
        distinct_keys(s),
    ensures
        distinct_keys(lru_touch(s, key)),
        lru_touch(s, key).len() == s.len(),
        forall|k: Seq<u8>|
            #![trigger has_key(lru_touch(s, key), k)]
            #![trigger has_key(s, k)]
            has_key(lru_touch(s, key), k) == has_key(s, k),
        forall|k: Seq<u8>|
            #![trigger lookup(lru_touch(s, key), k)]
            #![trigger lookup(s, k)]
            lookup(lru_touch(s, key), k) == lookup(s, k),
        as_map(lru_touch(s, key)) == as_map(s),
{
    assert(as_map(lru_touch(s, key)) =~= as_map(s)) by {
        if has_key(s, key) {
            let i = position(s, key);
            lemma_lookup_at(s, i);
            lemma_remove(s, i);
            lemma_push(s.remove(i), s[i]);
            assert(as_map(s).remove(key).insert(key, s[i].1) =~= as_map(s));
        }
    }
    if has_key(s, key) {
        let i = position(s, key);
        lemma_lookup_at(s, i);
        lemma_remove(s, i);
        lemma_push(s.remove(i), s[i]);
    }
}

/// After a put the cache is within its capacity; the pair that was put is
/// cached unless the capacity is 0; every other cached pair was cached before,
/// with the same blob; and the only other pair that can be gone is the one that
/// was least recently used.
pub proof fn lemma_lru_put(
    s: Seq<(Seq<u8>, Seq<u8>)>,
    capacity: nat,
    key: Seq<u8>,
    value: Seq<u8>,
)
    requires
        distinct_keys(s),
        s.len() <= capacity,
    ensures
        distinct_keys(lru_put(s, capacity, key, value)),
        lru_put(s, capacity, key, value).len() <= capacity,
        capacity >= 1 ==> lookup(lru_put(s, capacity, key, value), key) == Some(value),
        capacity == 0 ==> lru_put(s, capacity, key, value).len() == 0,
        forall|k: Seq<u8>|
            #![trigger has_key(lru_put(s, capacity, key, value), k)]
            #![trigger has_key(s, k)]
            k != key && has_key(lru_put(s, capacity, key, value), k) ==> has_key(s, k) && lookup(
                lru_put(s, capacity, key, value),
                k,
            ) == lookup(s, k),
        forall|k: Seq<u8>|
            #![trigger has_key(lru_put(s, capacity, key, value), k)]
            #![trigger has_key(s, k)]
            k != key && has_key(s, k) && !has_key(lru_put(s, capacity, key, value), k) ==> s.len()
                == capacity && !has_key(s, key) && k == s[0].0,
{
    let without = lru_without(s, key);
    if has_key(s, key) {
        let i = position(s, key);
        lemma_lookup_at(s, i);
        lemma_remove(s, i);
    }
    lemma_push(without, (key, value));
    let grown = without.push((key, value));
    if grown.len() > capacity {
        lemma_remove(grown, 0);
    }
}

/// A put of a blob under its own digest keeps a cache addressed by content.
pub proof fn lemma_put_keeps_content_addressing(
    s: Seq<(Seq<u8>, Seq<u8>)>,
    capacity: nat,
    key: Seq<u8>,
    value: Seq<u8>,
)
    requires
        distinct_keys(s),
        s.len() <= capacity,
        content_addressed(as_map(s)),
        key == sha256(value),
    ensures
        content_addressed(as_map(lru_put(s, capacity, key, value))),
{
    let t = lru_put(s, capacity, key, value);
    lemma_lru_put(s, capacity, key, value);
    assert forall|k: Seq<u8>| #[trigger] as_map(t).contains_key(k) implies sha256(as_map(t)[k])
        == k by {
        assert(has_key(t, k));
        if k != key {
            assert(has_key(s, k));
            assert(as_map(s).contains_key(k));
            assert(lookup(t, k) == lookup(s, k));
        } else {
            assert(capacity >= 1);
            assert(lookup(t, k) == Some(value));
        }
    }
}

/// A bounded cache of blobs. Its view lists the pairs from the least recently
/// used to the most recently used.
pub struct TrieCache {
    capacity: usize,
    nodes: NodeList,
}

impl View for TrieCache {
    type V = Seq<(Seq<u8>, Seq<u8>)>;

    closed spec fn view(&self) -> Seq<(Seq<u8>, Seq<u8>)> {
        self.nodes@
    }
}

impl TrieCache {
    /// The largest number of pairs the cache keeps.
    pub closed spec fn capacity(&self) -> nat {
        self.capacity as nat
    }

    /// The list behind the cache is in order.
    pub closed spec fn aligned(&self) -> bool {
        self.nodes.aligned()
    }

    /// No hash is cached twice, and the cache holds no more than its capacity.
    pub open spec fn wf(&self) -> bool {
        &&& self.aligned()
        &&& distinct_keys(self@)
        &&& self@.len() <= self.capacity()
    }

    /// An empty cache of the default capacity.
    pub fn new() -> (cache: TrieCache)
        ensures
            cache.wf(),
            cache@ == Seq::<(Seq<u8>, Seq<u8>)>::empty(),
            cache.capacity() == TRIE_DEFAULT_SHARD_CACHE_SIZE,
    {
        TrieCache { capacity: TRIE_DEFAULT_SHARD_CACHE_SIZE, nodes: NodeList::new() }
    }

    /// An empty cache that keeps at most `capacity` pairs.
    pub fn with_capacity(capacity: usize) -> (cache: TrieCache)
        ensures
            cache.wf(),
            cache@ == Seq::<(Seq<u8>, Seq<u8>)>::empty(),
            cache.capacity() == capacity,
    {
        TrieCache { capacity, nodes: NodeList::new() }
    }

    /// The number of cached pairs.
    pub fn len(&self) -> (n: usize)
        requires
            self.wf(),
        ensures
            n == self@.len(),
            n <= self.capacity(),
    {
        self.nodes.len()
    }

    /// The blob cached under `hash`, if any, without counting as a use.
    pub fn peek(&self, hash: &CryptoHash) -> (blob: Option<Vec<u8>>)
        requires
            self.wf(),
        ensures
            blob is Some == has_key(self@, hash@),
            blob matches Some(b) ==> lookup(self@, hash@) == Some(b@),
    {
        self.nodes.get(hash)
    }

    /// The blob cached under `hash`, if any. A hit is a use: the pair becomes the
    /// most recently used one. A miss changes nothing.
    pub fn get(&mut self, hash: &CryptoHash) -> (blob: Option<Vec<u8>>)
        requires
            old(self).wf(),
        ensures
            final(self).wf(),
            final(self).capacity() == old(self).capacity(),
            final(self)@ == lru_touch(old(self)@, hash@),
            blob is Some == has_key(old(self)@, hash@),
            blob matches Some(b) ==> lookup(old(self)@, hash@) == Some(b@),
            blob matches Some(b) ==> exists|i: int|
                0 <= i < old(self)@.len() && (#[trigger] old(self)@[i]) == (hash@, b@) && final(self)@ == old(self)@.remove(i).push((hash@, b@)),
            blob is None ==> final(self)@ == old(self)@,
            as_map(final(self)@) == as_map(old(self)@),
            final(self)@.len() == old(self)@.len(),
            forall|k: Seq<u8>|
                #![trigger has_key(final(self)@, k)]
                #![trigger has_key(old(self)@, k)]
                has_key(final(self)@, k) == has_key(old(self)@, k),
            forall|k: Seq<u8>|
                #![trigger lookup(final(self)@, k)]
                #![trigger lookup(old(self)@, k)]
                lookup(final(self)@, k) == lookup(old(self)@, k),
    {
        proof {
            lemma_lru_touch(self@, hash@);
        }
        match self.nodes.position(hash) {
            Some(i) => {
                proof {
                    lemma_lookup_at(self.nodes@, i as int);
                    lemma_remove(self.nodes@, i as int);
                }
                let pair = self.nodes.remove(i);
                let blob = clone_blob(&pair.1);
                self.nodes.push(pair.0, pair.1);
                Some(blob)
            },
            None => None,
        }
    }

    /// Caches `value` under `hash` as the most recently used pair, in place of
    /// what was cached under `hash` before. If the cache then holds more than its
    /// capacity, the least recently used pair is evicted.
    pub fn put(&mut self, hash: CryptoHash, value: Vec<u8>)
        requires
            old(self).wf(),
        ensures
            final(self).wf(),
            final(self).capacity() == old(self).capacity(),
            final(self)@ == lru_put(old(self)@, old(self).capacity(), hash@, value@),
            old(self).capacity() >= 1 ==> lookup(final(self)@, hash@) == Some(value@)
                && final(self)@.last() == (hash@, value@),
            final(self)@.len() == if has_key(old(self)@, hash@) {
                old(self)@.len()
            } else if old(self)@.len() < old(self).capacity() {
                old(self)@.len() + 1
            } else {
                old(self).capacity()
            },
            forall|k: Seq<u8>|
                #![trigger has_key(final(self)@, k)]
                #![trigger has_key(old(self)@, k)]
                k != hash@ && has_key(final(self)@, k) ==> has_key(old(self)@, k) && lookup(
                    final(self)@,
                    k,
                ) == lookup(old(self)@, k),
            forall|k: Seq<u8>|
                #![trigger has_key(final(self)@, k)]
                #![trigger has_key(old(self)@, k)]
                k != hash@ && has_key(old(self)@, k) && !has_key(final(self)@, k) ==> old(self)@.len() == old(self).capacity() && !has_key(old(self)@, hash@) && k == old(self)@[0].0,
            content_addressed(as_map(old(self)@)) && hash@ == sha256(value@) ==> content_addressed(
                as_map(final(self)@),
            ),
    {
        proof {
            lemma_lru_put(self@, self.capacity(), hash@, value@);
            if content_addressed(as_map(self@)) && hash@ == sha256(value@) {
                lemma_put_keeps_content_addressing(self@, self.capacity(), hash@, value@);
            }
        }
        match self.nodes.position(&hash) {
            Some(i) => {
                proof {
                    lemma_lookup_at(self.nodes@, i as int);
                    lemma_remove(self.nodes@, i as int);
                }
                let _ = self.nodes.remove(i);
            },
            None => {},
        }
        self.nodes.push(hash, value);
        if self.nodes.len() > self.capacity {
            let _ = self.nodes.remove(0);
        }
    }
}

} // verus!
