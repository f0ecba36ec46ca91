//! Association sequences: ordered key/value pairs with first-match lookup
//! and replace-or-append update.  The mapper and the category cache state
//! their contracts over these.

use vstd::prelude::*;

verus! {

/// The value under `key`: the first pair with that key, scanning in order.
pub open spec fn assoc_lookup<K, V>(s: Seq<(K, V)>, key: K) -> Option<V>
    decreases s.len(),
{
    if s.len() == 0 {
        None
    } else if s[0].0 == key {
        Some(s[0].1)
    } else {
        assoc_lookup(s.drop_first(), key)
    }
}

/// All keys are pairwise distinct.
pub open spec fn assoc_keys_distinct<K, V>(s: Seq<(K, V)>) -> bool {
    forall|i: int, j: int| 0 <= i < j < s.len() ==> (#[trigger] s[i]).0 != (#[trigger] s[j]).0
}

/// Appending a pair with a fresh key leaves other lookups alone and makes
/// the new key found.
pub proof fn lemma_assoc_lookup_push<K, V>(s: Seq<(K, V)>, p: (K, V), key: K)
    ensures
        assoc_lookup(s, p.0) is None ==> assoc_lookup(s.push(p), key) == (if key == p.0 {
            Some(p.1)
        } else {
            assoc_lookup(s, key)
        }),
    decreases s.len(),
{
    if s.len() == 0 {
        assert(s.push(p)[0] == p);
        assert(s.push(p).drop_first() =~= s);
    } else {
        lemma_assoc_lookup_push(s.drop_first(), p, key);
        assert(s.push(p)[0] == s[0]);
        assert(s.push(p).drop_first() =~= s.drop_first().push(p));
    }
}

/// With distinct keys, any pair in the sequence is what lookup finds.
pub proof fn lemma_assoc_lookup_unique<K, V>(s: Seq<(K, V)>, i: int)
    requires
        assoc_keys_distinct(s),
        0 <= i < s.len(),
    ensures
        assoc_lookup(s, s[i].0) == Some(s[i].1),
    decreases s.len(),
{
    if i > 0 {
        assert(s[0].0 != s[i].0);
        assert forall|a: int, b: int|
            0 <= a < b < s.drop_first().len() implies (#[trigger] s.drop_first()[a]).0 != (
        #[trigger] s.drop_first()[b]).0 by {
            assert(s.drop_first()[a] == s[a + 1]);
            assert(s.drop_first()[b] == s[b + 1]);
        }
        lemma_assoc_lookup_unique(s.drop_first(), i - 1);
        assert(s.drop_first()[i - 1] == s[i]);
    }
}

/// A found value is the value of some pair.
pub proof fn lemma_assoc_lookup_element<K, V>(s: Seq<(K, V)>, key: K)
    requires
        assoc_lookup(s, key) is Some,
    ensures
        exists|i: int|
            0 <= i < s.len() && (#[trigger] s[i]) == (key, assoc_lookup(s, key)->0),
    decreases s.len(),
{
    if s.len() > 0 {
        if s[0].0 == key {
            assert(s[0] == (key, assoc_lookup(s, key)->0));
        } else {
            lemma_assoc_lookup_element(s.drop_first(), key);
            let i = choose|i: int|
                0 <= i < s.drop_first().len() && (#[trigger] s.drop_first()[i]) == (
                    key,
                    assoc_lookup(s.drop_first(), key)->0,
                );
            assert(s[i + 1] == s.drop_first()[i]);
        }
    }
}

/// The sequence with `key` set to `val`: the first pair with that key is
/// replaced, or the pair is appended when the key is absent.
pub open spec fn assoc_set<K, V>(s: Seq<(K, V)>, key: K, val: V) -> Seq<(K, V)>
    decreases s.len(),
{
    if s.len() == 0 {
        seq![(key, val)]
    } else if s[0].0 == key {
        seq![(key, val)] + s.drop_first()
    } else {
        seq![s[0]] + assoc_set(s.drop_first(), key, val)
    }
}

/// After a set, the key is found with the new value, and other keys are
/// found as before.
pub proof fn lemma_assoc_set_lookup<K, V>(s: Seq<(K, V)>, key: K, val: V, other: K)
    ensures
        assoc_lookup(assoc_set(s, key, val), key) == Some(val),
        other != key ==> assoc_lookup(assoc_set(s, key, val), other) == assoc_lookup(s, other),
    decreases s.len(),
{
    let t = assoc_set(s, key, val);
    if s.len() == 0 {
        assert(t[0] == (key, val));
        assert(t.drop_first() =~= Seq::<(K, V)>::empty());
        assert(assoc_lookup(t.drop_first(), other) is None);
    } else if s[0].0 == key {
        assert(t[0] == (key, val));
        assert(t.drop_first() =~= s.drop_first());
        assert(assoc_lookup(t.drop_first(), other) == assoc_lookup(s.drop_first(), other));
    } else {
        lemma_assoc_set_lookup(s.drop_first(), key, val, other);
        assert(t[0] == s[0]);
        assert(t.drop_first() =~= assoc_set(s.drop_first(), key, val));
    }
}

} // verus!
