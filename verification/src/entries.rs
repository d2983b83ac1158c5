//! Sequences of `(hash, blob)` pairs: the mathematical model shared by the caches,
//! the recorded proofs and the store.

use vstd::prelude::*;

verus! {

/// Whether some pair of `s` is stored under `key`.
pub open spec fn has_key(s: Seq<(Seq<u8>, Seq<u8>)>, key: Seq<u8>) -> bool {
    exists|i: int| 0 <= i < s.len() && (#[trigger] s[i]).0 == key
}

/// An index at which `key` is stored (the only one when the keys are distinct).
pub open spec fn position(s: Seq<(Seq<u8>, Seq<u8>)>, key: Seq<u8>) -> int {
    choose|i: int| 0 <= i < s.len() && (#[trigger] s[i]).0 == key
}

/// The blob stored under `key`, if any.
pub open spec fn lookup(s: Seq<(Seq<u8>, Seq<u8>)>, key: Seq<u8>) -> Option<Seq<u8>> {
    if has_key(s, key) {
        Some(s[position(s, key)].1)
    } else {
        None
    }
}

/// No key is stored twice.
pub open spec fn distinct_keys(s: Seq<(Seq<u8>, Seq<u8>)>) -> bool {
    forall|i: int, j: int| 0 <= i < j < s.len() ==> (#[trigger] s[i]).0 != (#[trigger] s[j]).0
}

/// The pairs as a map from hash to blob.
pub open spec fn as_map(s: Seq<(Seq<u8>, Seq<u8>)>) -> Map<Seq<u8>, Seq<u8>> {
    Map::new(|k: Seq<u8>| has_key(s, k), |k: Seq<u8>| s[position(s, k)].1)
}

/// The blobs alone, in order.
pub open spec fn blobs_of(s: Seq<(Seq<u8>, Seq<u8>)>) -> Seq<Seq<u8>> {
    Seq::new(s.len(), |i: int| s[i].1)
}

/// The hashes alone, in order.
pub open spec fn keys_of(s: Seq<(Seq<u8>, Seq<u8>)>) -> Seq<Seq<u8>> {
    Seq::new(s.len(), |i: int| s[i].0)
}

/// With distinct keys, the pair at index `i` is the one found under its key.
pub proof fn lemma_lookup_at(s: Seq<(Seq<u8>, Seq<u8>)>, i: int)
    requires
        distinct_keys(s),
        0 <= i < s.len(),
    ensures
        has_key(s, s[i].0),
        position(s, s[i].0) == i,
        lookup(s, s[i].0) == Some(s[i].1),
{
}

/// What appending a pair under a fresh key does to membership and lookup.
pub proof fn lemma_push(s: Seq<(Seq<u8>, Seq<u8>)>, e: (Seq<u8>, Seq<u8>))
    requires
        distinct_keys(s),
        !has_key(s, e.0),
    ensures
        distinct_keys(s.push(e)),
        forall|k: Seq<u8>|
            #![trigger has_key(s.push(e), k)]
            #![trigger has_key(s, k)]
            has_key(s.push(e), k) <==> (k == e.0 || has_key(s, k)),
        forall|k: Seq<u8>|
            #![trigger lookup(s.push(e), k)]
            #![trigger lookup(s, k)]
            lookup(s.push(e), k) == if k == e.0 {
                Some(e.1)
            } else {
                lookup(s, k)
            },
        as_map(s.push(e)) == as_map(s).insert(e.0, e.1),
{
    let t = s.push(e);
    assert forall|k: Seq<u8>| has_key(t, k) <==> (k == e.0 || has_key(s, k)) by {
        if k == e.0 {
            assert(t[s.len() as int].0 == k);
        }
        if has_key(s, k) {
            let i = position(s, k);
            assert(t[i] == s[i]);
        }
    }
    assert forall|k: Seq<u8>|
        lookup(t, k) == if k == e.0 {
            Some(e.1)
        } else {
            lookup(s, k)
        } by {
        if k == e.0 {
            lemma_lookup_at(t, s.len() as int);
        } else if has_key(s, k) {
            let i = position(s, k);
            lemma_lookup_at(t, i);
        }
    }
    assert(as_map(t) =~= as_map(s).insert(e.0, e.1)) by {
        assert forall|k: Seq<u8>| as_map(t).dom().contains(k) implies #[trigger] as_map(t)[k]
            == as_map(s).insert(e.0, e.1)[k] by {
            assert(lookup(t, k) == if k == e.0 {
                Some(e.1)
            } else {
                lookup(s, k)
            });
        }
    }
}

/// What removing the pair at index `i` does to membership and lookup.
pub proof fn lemma_remove(s: Seq<(Seq<u8>, Seq<u8>)>, i: int)
    requires
        distinct_keys(s),
        0 <= i < s.len(),
    ensures
        distinct_keys(s.remove(i)),
        forall|k: Seq<u8>|
            #![trigger has_key(s.remove(i), k)]
            #![trigger has_key(s, k)]
            has_key(s.remove(i), k) <==> (k != s[i].0 && has_key(s, k)),
        forall|k: Seq<u8>|
            #![trigger lookup(s.remove(i), k)]
            #![trigger lookup(s, k)]
            lookup(s.remove(i), k) == if k == s[i].0 {
                None
            } else {
                lookup(s, k)
            },
        as_map(s.remove(i)) == as_map(s).remove(s[i].0),
{
    let t = s.remove(i);
    assert forall|k: Seq<u8>| has_key(t, k) <==> (k != s[i].0 && has_key(s, k)) by {
        if k != s[i].0 && has_key(s, k) {
            let a = position(s, k);
            let a1 = if a < i { a } else { a - 1 };
            assert(t[a1] == s[a]);
        }
    }
    assert forall|k: Seq<u8>|
        lookup(t, k) == if k == s[i].0 {
            None
        } else {
            lookup(s, k)
        } by {
        if k != s[i].0 && has_key(s, k) {
            let a = position(s, k);
            let a1 = if a < i { a } else { a - 1 };
            lemma_lookup_at(t, a1);
        }
    }
    assert(as_map(t) =~= as_map(s).remove(s[i].0)) by {
        assert forall|k: Seq<u8>| as_map(t).dom().contains(k) implies #[trigger] as_map(t)[k]
            == as_map(s).remove(s[i].0)[k] by {
            assert(lookup(t, k) == if k == s[i].0 {
                None
            } else {
                lookup(s, k)
            });
        }
    }
}

/// The different items of `s`, each once, in the order in which they first occur.
pub open spec fn first_touched(s: Seq<Seq<u8>>) -> Seq<Seq<u8>>
    decreases s.len(),
{
    if s.len() == 0 {
        Seq::empty()
    } else if first_touched(s.drop_last()).contains(s.last()) {
        first_touched(s.drop_last())
    } else {
        first_touched(s.drop_last()).push(s.last())
    }
}

/// `first_touched` repeats nothing, holds exactly the items of the sequence, and
/// is no longer than it.
pub proof fn lemma_first_touched(s: Seq<Seq<u8>>)
    ensures
        first_touched(s).no_duplicates(),
        forall|x: Seq<u8>|
            #![trigger first_touched(s).contains(x)]
            #![trigger s.contains(x)]
            first_touched(s).contains(x) <==> s.contains(x),
        first_touched(s).len() <= s.len(),
    decreases s.len(),
{
    if s.len() > 0 {
        let front = s.drop_last();
        let f = first_touched(front);
        let t = first_touched(s);
        lemma_first_touched(front);
        assert forall|x: Seq<u8>| t.contains(x) <==> s.contains(x) by {
            if t.contains(x) {
                let i = choose|i: int| 0 <= i < t.len() && t[i] == x;
                if i < f.len() {
                    assert(f.contains(x));
                }
            }
            if s.contains(x) {
                let j = choose|j: int| 0 <= j < s.len() && s[j] == x;
                if j < front.len() {
                    assert(front[j] == x);
                    assert(f.contains(x));
                    let i = choose|i: int| 0 <= i < f.len() && f[i] == x;
                    assert(t[i] == x);
                } else if !f.contains(x) {
                    assert(t[f.len() as int] == x);
                }
            }
        }
    }
}

/// The different items of a prefix are a prefix of the different items of the
/// whole.
pub proof fn lemma_first_touched_prefix(s: Seq<Seq<u8>>, i: int)
    requires
        0 <= i <= s.len(),
    ensures
        first_touched(s.take(i)).len() <= first_touched(s).len(),
        first_touched(s.take(i)) == first_touched(s).take(first_touched(s.take(i)).len() as int),
    decreases s.len() - i,
{
    if i == s.len() {
        assert(s.take(i) =~= s);
    } else {
        lemma_first_touched_prefix(s, i + 1);
        assert(s.take(i + 1).drop_last() =~= s.take(i));
    }
}

/// With distinct keys there are as many stored hashes as pairs.
pub proof fn lemma_key_count(s: Seq<(Seq<u8>, Seq<u8>)>)
    requires
        distinct_keys(s),
    ensures
        as_map(s).dom().finite(),
        as_map(s).dom().len() == s.len(),
        as_map(s).dom() == keys_of(s).to_set(),
        keys_of(s).no_duplicates(),
{
    let keys = keys_of(s);
    keys.unique_seq_to_set();
    assert(as_map(s).dom() =~= keys.to_set()) by {
        assert forall|k: Seq<u8>| as_map(s).dom().contains(k) <==> keys.to_set().contains(k) by {
            if has_key(s, k) {
                let i = position(s, k);
                assert(keys[i] == k);
            }
        }
    }
    vstd::seq_lib::seq_to_set_is_finite(keys);
}

} // verus!
