//! Association lists: a sequence of key-value pairs read as a map in which a
//! later pair overrides an earlier one for the same key.
use vstd::prelude::*;

verus! {

pub open spec fn assoc_map<K, V>(s: Seq<(K, V)>) -> Map<K, V>
    decreases s.len(),
{
    if s.len() == 0 {
        Map::empty()
    } else {
        assoc_map(s.drop_last()).insert(s.last().0, s.last().1)
    }
}

/// Pairs after `i` that do not mention `k` do not change what the map says
/// of `k`.
pub proof fn lemma_assoc_prefix<K, V>(s: Seq<(K, V)>, i: int, k: K)
    requires
        0 <= i <= s.len(),
        forall|j: int| i <= j < s.len() ==> (#[trigger] s[j]).0 != k,
    ensures
        assoc_map(s).contains_key(k) == assoc_map(s.take(i)).contains_key(k),
        assoc_map(s).contains_key(k) ==> assoc_map(s)[k] == assoc_map(s.take(i))[k],
    decreases s.len() - i,
{
    if i < s.len() {
        lemma_assoc_prefix(s.drop_last(), i, k);
        assert(s.drop_last().take(i) =~= s.take(i));
    } else {
        assert(s.take(i) =~= s);
    }
}

/// The last pair for a key gives its value.
pub proof fn lemma_assoc_last<K, V>(s: Seq<(K, V)>, i: int)
    requires
        0 <= i < s.len(),
        forall|j: int| i < j < s.len() ==> (#[trigger] s[j]).0 != s[i].0,
    ensures
        assoc_map(s).contains_key(s[i].0),
        assoc_map(s)[s[i].0] == s[i].1,
{
    lemma_assoc_prefix(s, i + 1, s[i].0);
    assert(s.take(i + 1).drop_last() =~= s.take(i));
}

/// A key is in the map exactly when some pair carries it.
pub proof fn lemma_assoc_contains<K, V>(s: Seq<(K, V)>, k: K)
    ensures
        assoc_map(s).contains_key(k) <==> exists|j: int| 0 <= j < s.len() && (#[trigger] s[j]).0 == k,
    decreases s.len(),
{
    if s.len() > 0 {
        lemma_assoc_contains(s.drop_last(), k);
        if exists|j: int| 0 <= j < s.len() && (#[trigger] s[j]).0 == k {
            let j = choose|j: int| 0 <= j < s.len() && (#[trigger] s[j]).0 == k;
            if j < s.len() - 1 {
                assert(s.drop_last()[j].0 == k);
            }
        }
        if exists|j: int| 0 <= j < s.len() - 1 && (#[trigger] s.drop_last()[j]).0 == k {
            let j = choose|j: int| 0 <= j < s.len() - 1 && (#[trigger] s.drop_last()[j]).0 == k;
            assert(s[j].0 == k);
        }
    }
}

/// With distinct keys, every pair is read back.
pub proof fn lemma_assoc_distinct<K, V>(s: Seq<(K, V)>, i: int)
    requires
        0 <= i < s.len(),
        forall|a: int, b: int| 0 <= a < b < s.len() ==> (#[trigger] s[a]).0 != (#[trigger] s[b]).0,
    ensures
        assoc_map(s).contains_key(s[i].0),
        assoc_map(s)[s[i].0] == s[i].1,
{
    lemma_assoc_last(s, i);
}

/// Distinct keys in a pair sequence.
pub open spec fn keys_distinct<K, V>(s: Seq<(K, V)>) -> bool {
    forall|a: int, b: int| 0 <= a < b < s.len() ==> (#[trigger] s[a]).0 != (#[trigger] s[b]).0
}

/// With distinct keys, the map has one key per pair.
pub proof fn lemma_assoc_len<K, V>(s: Seq<(K, V)>)
    requires
        keys_distinct(s),
    ensures
        assoc_map(s).dom().finite(),
        assoc_map(s).dom().len() == s.len(),
    decreases s.len(),
{
    if s.len() > 0 {
        let t = s.drop_last();
        assert(keys_distinct(t)) by {
            assert forall|a: int, b: int| 0 <= a < b < t.len() implies (#[trigger] t[a]).0 != (
            #[trigger] t[b]).0 by {
                assert(t[a] == s[a] && t[b] == s[b]);
            }
        }
        lemma_assoc_len(t);
        lemma_assoc_contains(t, s.last().0);
        if assoc_map(t).contains_key(s.last().0) {
            let j = choose|j: int| 0 <= j < t.len() && (#[trigger] t[j]).0 == s.last().0;
            assert(s[j].0 == s[s.len() - 1].0);
        }
    }
}

/// Two pair sequences with distinct keys, the second holding the keys of the
/// first plus `k`, with `v` for `k` and the first's values elsewhere, read as
/// the first map with `k` set to `v`.
pub proof fn lemma_assoc_update<K, V>(s: Seq<(K, V)>, s2: Seq<(K, V)>, k: K, v: V)
    requires
        keys_distinct(s),
        keys_distinct(s2),
        forall|i: int| 0 <= i < s.len() ==> exists|j: int| 0 <= j < s2.len() && #[trigger] s2[j].0 == (#[trigger] s[i]).0,
        exists|j: int| 0 <= j < s2.len() && #[trigger] s2[j].0 == k,
        forall|j: int|
            0 <= j < s2.len() && (#[trigger] s2[j]).0 != k ==> exists|i: int|
                0 <= i < s.len() && #[trigger] s[i] == s2[j],
        forall|j: int| 0 <= j < s2.len() && (#[trigger] s2[j]).0 == k ==> s2[j].1 == v,
    ensures
        assoc_map(s2) == assoc_map(s).insert(k, v),
{
    let m = assoc_map(s).insert(k, v);
    let m2 = assoc_map(s2);
    assert forall|p: K| #[trigger] m2.contains_key(p) <==> m.contains_key(p) by {
        lemma_assoc_contains(s, p);
        lemma_assoc_contains(s2, p);
        if m2.contains_key(p) && p != k {
            let j = choose|j: int| 0 <= j < s2.len() && (#[trigger] s2[j]).0 == p;
            let i = choose|i: int| 0 <= i < s.len() && #[trigger] s[i] == s2[j];
            assert(s[i].0 == p);
        }
        if assoc_map(s).contains_key(p) {
            let i = choose|i: int| 0 <= i < s.len() && (#[trigger] s[i]).0 == p;
            assert(exists|j: int| 0 <= j < s2.len() && #[trigger] s2[j].0 == s[i].0);
        }
    }
    assert forall|p: K| #[trigger] m2.contains_key(p) implies m2[p] == m[p] by {
        lemma_assoc_contains(s2, p);
        let j = choose|j: int| 0 <= j < s2.len() && (#[trigger] s2[j]).0 == p;
        lemma_assoc_distinct(s2, j);
        if p != k {
            let i = choose|i: int| 0 <= i < s.len() && #[trigger] s[i] == s2[j];
            lemma_assoc_distinct(s, i);
        }
    }
    assert(m2 =~= m);
}

} // verus!
