//! Association sequences: the model of the small keyed tables the parsers
//! fill, where the first entry for a key is the one that counts.

use vstd::prelude::*;

verus! {

/// The value of the first entry with key `k`.
pub open spec fn assoc_get<K, V>(s: Seq<(K, V)>, k: K) -> Option<V>
    decreases s.len(),
{
    if s.len() == 0 {
        None
    } else if s[0].0 == k {
        Some(s[0].1)
    } else {
        assoc_get(s.drop_first(), k)
    }
}

/// The map an association sequence stands for (first entry per key wins).
pub open spec fn assoc_map<K, V>(s: Seq<(K, V)>) -> Map<K, V> {
    Map::new(|k: K| assoc_get(s, k) is Some, |k: K| assoc_get(s, k)->0)
}

/// Replacing the first entry with key `k` changes the lookup of `k` only.
pub proof fn lemma_assoc_set<K, V>(s: Seq<(K, V)>, i: int, k: K, v: V)
    requires
        0 <= i < s.len(),
        s[i].0 == k,
        forall|j: int| 0 <= j < i ==> s[j].0 != k,
    ensures
        forall|kk: K| #[trigger] assoc_get(s.update(i, (k, v)), kk) == (if kk == k { Some(v) } else { assoc_get(s, kk) }),
    decreases i,
{
    let t = s.update(i, (k, v));
    if i > 0 {
        assert(t.drop_first() =~= s.drop_first().update(i - 1, (k, v)));
        lemma_assoc_set(s.drop_first(), i - 1, k, v);
        assert forall|kk: K| #[trigger] assoc_get(t, kk) == (if kk == k { Some(v) } else { assoc_get(s, kk) }) by {
            assert(t[0] == s[0]);
            assert(assoc_get(s.drop_first().update(i - 1, (k, v)), kk) == (if kk == k { Some(v) } else { assoc_get(s.drop_first(), kk) }));
        }
    } else {
        assert(t.drop_first() =~= s.drop_first());
        assert forall|kk: K| #[trigger] assoc_get(t, kk) == (if kk == k { Some(v) } else { assoc_get(s, kk) }) by {
            assert(t[0] == (k, v));
        }
    }
}

/// Appending an entry for a new key `k` changes the lookup of `k` only.
pub proof fn lemma_assoc_push<K, V>(s: Seq<(K, V)>, k: K, v: V)
    requires
        forall|j: int| 0 <= j < s.len() ==> s[j].0 != k,
    ensures
        forall|kk: K| #[trigger] assoc_get(s.push((k, v)), kk) == (if kk == k { Some(v) } else { assoc_get(s, kk) }),
    decreases s.len(),
{
    let t = s.push((k, v));
    if s.len() > 0 {
        assert(t.drop_first() =~= s.drop_first().push((k, v)));
        lemma_assoc_push(s.drop_first(), k, v);
        assert forall|kk: K| #[trigger] assoc_get(t, kk) == (if kk == k { Some(v) } else { assoc_get(s, kk) }) by {
            assert(t[0] == s[0]);
            assert(assoc_get(s.drop_first().push((k, v)), kk) == (if kk == k { Some(v) } else { assoc_get(s.drop_first(), kk) }));
        }
    } else {
        assert forall|kk: K| #[trigger] assoc_get(t, kk) == (if kk == k { Some(v) } else { assoc_get(s, kk) }) by {
            assert(t[0] == (k, v));
            assert(t.drop_first().len() == 0);
            assert(assoc_get(t.drop_first(), kk) is None);
            assert(assoc_get(s, kk) is None);
        }
    }
}

/// The lookup of a key that no entry holds.
pub proof fn lemma_assoc_absent<K, V>(s: Seq<(K, V)>, k: K)
    requires
        forall|j: int| 0 <= j < s.len() ==> s[j].0 != k,
    ensures
        assoc_get(s, k) is None,
    decreases s.len(),
{
    if s.len() > 0 {
        assert forall|j: int| 0 <= j < s.drop_first().len() implies s.drop_first()[j].0 != k by {
            assert(s.drop_first()[j] == s[j + 1]);
        }
        lemma_assoc_absent(s.drop_first(), k);
    }
}

/// The lookup of a key is the value of its first entry.
pub proof fn lemma_assoc_first<K, V>(s: Seq<(K, V)>, i: int, k: K)
    requires
        0 <= i < s.len(),
        s[i].0 == k,
        forall|j: int| 0 <= j < i ==> s[j].0 != k,
    ensures
        assoc_get(s, k) == Some(s[i].1),
    decreases i,
{
    if i > 0 {
        assert forall|j: int| 0 <= j < i - 1 implies s.drop_first()[j].0 != k by {
            assert(s.drop_first()[j] == s[j + 1]);
        }
        lemma_assoc_first(s.drop_first(), i - 1, k);
    }
}

/// A value found by `assoc_get` is held by some entry.
pub proof fn lemma_assoc_get_in<K, V>(s: Seq<(K, V)>, k: K)
    ensures
        assoc_get(s, k) is Some ==> exists|i: int| 0 <= i < s.len() && s[i] == (k, assoc_get(s, k)->0),
    decreases s.len(),
{
    if s.len() > 0 && s[0].0 != k {
        lemma_assoc_get_in(s.drop_first(), k);
        if assoc_get(s, k) is Some {
            let i = choose|i: int| 0 <= i < s.drop_first().len() && s.drop_first()[i] == (k, assoc_get(s, k)->0);
            assert(s[i + 1] == s.drop_first()[i]);
        }
    }
}

/// No two entries share a key.
pub open spec fn assoc_keys_distinct<K, V>(s: Seq<(K, V)>) -> bool {
    forall|i: int, j: int| 0 <= i < j < s.len() ==> s[i].0 != s[j].0
}

/// With distinct keys, the map has one key per entry.
pub proof fn lemma_assoc_dom_len<K, V>(s: Seq<(K, V)>)
    requires
        assoc_keys_distinct(s),
    ensures
        assoc_map(s).dom().finite(),
        assoc_map(s).dom().len() == s.len(),
    decreases s.len(),
{
    if s.len() == 0 {
        assert(assoc_map(s).dom() =~= Set::<K>::empty());
    } else {
        let t = s.drop_first();
        assert forall|i: int, j: int| 0 <= i < j < t.len() implies t[i].0 != t[j].0 by {
            assert(t[i] == s[i + 1] && t[j] == s[j + 1]);
        }
        lemma_assoc_dom_len(t);
        assert forall|j: int| 0 <= j < t.len() implies t[j].0 != s[0].0 by {
            assert(t[j] == s[j + 1]);
        }
        lemma_assoc_absent(t, s[0].0);
        assert(assoc_map(s).dom() =~= assoc_map(t).dom().insert(s[0].0));
    }
}

/// Keeping the keys of the entries keeps them distinct.
pub proof fn lemma_assoc_distinct_set<K, V>(s: Seq<(K, V)>, i: int, k: K, v: V)
    requires
        assoc_keys_distinct(s),
        0 <= i < s.len(),
        s[i].0 == k,
    ensures
        assoc_keys_distinct(s.update(i, (k, v))),
{
}

/// Appending an entry for a new key keeps the keys distinct.
pub proof fn lemma_assoc_distinct_push<K, V>(s: Seq<(K, V)>, k: K, v: V)
    requires
        assoc_keys_distinct(s),
        forall|j: int| 0 <= j < s.len() ==> s[j].0 != k,
    ensures
        assoc_keys_distinct(s.push((k, v))),
{
}

} // verus!
