//! Association lists keyed by strings, and what it means to look a key up.
//!
//! Several parts of the library keep `(key, value)` pairs in a vector: the
//! environment of a server record, the fields of a JSON object, the pending
//! requests of a conduit. Their contracts all speak the same language, defined
//! here: `kv_find` is first-match lookup, `kv_unique` says no key repeats.

use vstd::prelude::*;

verus! {

/// First-match lookup in an association list.
pub open spec fn kv_find<V>(s: Seq<(Seq<char>, V)>, k: Seq<char>) -> Option<V>
    decreases s.len(),
{
    if s.len() == 0 {
        None
    } else if s[0].0 == k {
        Some(s[0].1)
    } else {
        kv_find(s.drop_first(), k)
    }
}

/// Whether the list holds the key at all.
pub open spec fn kv_contains<V>(s: Seq<(Seq<char>, V)>, k: Seq<char>) -> bool {
    kv_find(s, k) is Some
}

/// No key occurs twice.
pub open spec fn kv_unique<V>(s: Seq<(Seq<char>, V)>) -> bool {
    forall|i: int, j: int| 0 <= i < j < s.len() ==> s[i].0 != s[j].0
}

/// A key that no earlier entry holds is found exactly at the first index
/// that carries it.
pub proof fn lemma_kv_find_at<V>(s: Seq<(Seq<char>, V)>, k: Seq<char>, i: int)
    requires
        0 <= i < s.len(),
        s[i].0 == k,
        forall|j: int| 0 <= j < i ==> s[j].0 != k,
    ensures
        kv_find(s, k) == Some(s[i].1),
    decreases i,
{
    if i == 0 {
    } else {
        lemma_kv_find_at(s.drop_first(), k, i - 1);
    }
}

/// A key that no entry holds is not found.
pub proof fn lemma_kv_find_none<V>(s: Seq<(Seq<char>, V)>, k: Seq<char>)
    requires
        forall|j: int| 0 <= j < s.len() ==> s[j].0 != k,
    ensures
        kv_find(s, k) is None,
    decreases s.len(),
{
    if s.len() > 0 {
        lemma_kv_find_none(s.drop_first(), k);
    }
}

/// A found key is held by some entry, and under unique keys by exactly the
/// entry that the lookup returns.
pub proof fn lemma_kv_find_index<V>(s: Seq<(Seq<char>, V)>, k: Seq<char>)
    requires
        kv_find(s, k) is Some,
    ensures
        exists|i: int|
            0 <= i < s.len() && s[i].0 == k && kv_find(s, k) == Some(s[i].1),
    decreases s.len(),
{
    if s.len() > 0 {
        if s[0].0 == k {
            assert(0 <= 0 < s.len() && s[0].0 == k && kv_find(s, k) == Some(s[0].1));
        } else {
            lemma_kv_find_index(s.drop_first(), k);
            let i0 = choose|i: int|
                0 <= i < s.drop_first().len() && s.drop_first()[i].0 == k
                    && kv_find(s.drop_first(), k) == Some(s.drop_first()[i].1);
            assert(s[i0 + 1].0 == k && kv_find(s, k) == Some(s[i0 + 1].1));
        }
    }
}

/// Appending a fresh entry leaves every other key's lookup unchanged and
/// makes the new key found.
pub proof fn lemma_kv_find_push<V>(s: Seq<(Seq<char>, V)>, k: Seq<char>, v: V, k2: Seq<char>)
    requires
        !kv_contains(s, k),
    ensures
        kv_find(s.push((k, v)), k2) == if k2 == k {
            Some(v)
        } else {
            kv_find(s, k2)
        },
    decreases s.len(),
{
    if s.len() == 0 {
        assert(s.push((k, v)).drop_first() =~= Seq::<(Seq<char>, V)>::empty());
    } else {
        assert(s.push((k, v)).drop_first() =~= s.drop_first().push((k, v)));
        lemma_kv_find_push(s.drop_first(), k, v, k2);
    }
}

/// Replacing the value at one index changes only that entry's key.
pub proof fn lemma_kv_find_update<V>(s: Seq<(Seq<char>, V)>, i: int, v: V, k2: Seq<char>)
    requires
        0 <= i < s.len(),
        kv_unique(s),
        forall|j: int| 0 <= j < i ==> s[j].0 != s[i].0,
    ensures
        kv_find(s.update(i, (s[i].0, v)), k2) == if k2 == s[i].0 {
            Some(v)
        } else {
            kv_find(s, k2)
        },
    decreases i,
{
    let t = s.update(i, (s[i].0, v));
    if i == 0 {
        if s[0].0 == k2 {
        } else {
            assert(t.drop_first() =~= s.drop_first());
        }
    } else {
        assert(t.drop_first() =~= s.drop_first().update(i - 1, (s[i].0, v)));
        lemma_kv_find_update(s.drop_first(), i - 1, v, k2);
    }
}

/// Removing one entry under unique keys drops exactly that key.
pub proof fn lemma_kv_find_remove<V>(s: Seq<(Seq<char>, V)>, i: int, k2: Seq<char>)
    requires
        0 <= i < s.len(),
        kv_unique(s),
    ensures
        kv_find(s.remove(i), k2) == if k2 == s[i].0 {
            None::<V>
        } else {
            kv_find(s, k2)
        },
    decreases i,
{
    let t = s.remove(i);
    if i == 0 {
        assert(t =~= s.drop_first());
        if k2 == s[0].0 {
            assert(forall|j: int| 0 <= j < t.len() ==> t[j].0 != k2);
            lemma_kv_find_none(t, k2);
        }
    } else {
        assert(t.drop_first() =~= s.drop_first().remove(i - 1));
        lemma_kv_find_remove(s.drop_first(), i - 1, k2);
    }
}

} // verus!
