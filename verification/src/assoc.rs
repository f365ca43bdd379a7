//! Association lists: sequences of key/value pairs with distinct keys, read as maps.

use vstd::prelude::*;

verus! {

/// Some entry of `s` has key `k`.
pub open spec fn has_key<K, V>(s: Seq<(K, V)>, k: K) -> bool {
    exists|i: int| 0 <= i < s.len() && #[trigger] s[i].0 == k
}

/// An index of `s` whose entry has key `k` (meaningful when `has_key(s, k)`).
pub open spec fn key_index<K, V>(s: Seq<(K, V)>, k: K) -> int {
    choose|i: int| 0 <= i < s.len() && #[trigger] s[i].0 == k
}

/// No key occurs twice in `s`.
pub open spec fn distinct_keys<K, V>(s: Seq<(K, V)>) -> bool {
    forall|i: int, j: int|
        0 <= i < s.len() && 0 <= j < s.len() && i != j ==> #[trigger] s[i].0 != #[trigger] s[j].0
}

/// The map that an association list stands for.
pub open spec fn assoc_map<K, V>(s: Seq<(K, V)>) -> Map<K, V> {
    Map::new(|k: K| has_key(s, k), |k: K| s[key_index(s, k)].1)
}

/// In a list with distinct keys, the entry at `i` is the one the map reads for its key.
pub proof fn lemma_assoc_index<K, V>(s: Seq<(K, V)>, i: int)
    requires
        distinct_keys(s),
        0 <= i < s.len(),
    ensures
        has_key(s, s[i].0),
        key_index(s, s[i].0) == i,
        assoc_map(s).contains_key(s[i].0),
        assoc_map(s)[s[i].0] == s[i].1,
{
    assert(has_key(s, s[i].0));
    let j = key_index(s, s[i].0);
    assert(s[j].0 == s[i].0);
}

/// Replacing the value of an entry replaces the value of its key in the map.
pub proof fn lemma_assoc_update<K, V>(s: Seq<(K, V)>, i: int, v: V)
    requires
        distinct_keys(s),
        0 <= i < s.len(),
    ensures
        distinct_keys(s.update(i, (s[i].0, v))),
        assoc_map(s.update(i, (s[i].0, v))) == assoc_map(s).insert(s[i].0, v),
{
    let t = s.update(i, (s[i].0, v));
    assert forall|a: int, b: int|
        0 <= a < t.len() && 0 <= b < t.len() && a != b implies #[trigger] t[a].0 != #[trigger] t[b].0 by {
        assert(t[a].0 == s[a].0);
        assert(t[b].0 == s[b].0);
    }
    let m = assoc_map(s).insert(s[i].0, v);
    assert forall|k: K| #[trigger] assoc_map(t).contains_key(k) == m.contains_key(k) by {
        if has_key(s, k) {
            let j = key_index(s, k);
            assert(t[j].0 == k);
        }
        if has_key(t, k) {
            let j = key_index(t, k);
            assert(s[j].0 == k);
        }
    }
    assert forall|k: K| assoc_map(t).contains_key(k) implies #[trigger] assoc_map(t)[k] == m[k] by {
        let j = key_index(t, k);
        lemma_assoc_index(t, j);
        if k == s[i].0 {
            lemma_assoc_index(t, i);
        } else {
            assert(s[j].0 == k);
            lemma_assoc_index(s, j);
        }
    }
    assert(assoc_map(t) =~= m);
}

/// Appending an entry with a new key inserts that key into the map.
pub proof fn lemma_assoc_push<K, V>(s: Seq<(K, V)>, k: K, v: V)
    requires
        distinct_keys(s),
        !has_key(s, k),
    ensures
        distinct_keys(s.push((k, v))),
        assoc_map(s.push((k, v))) == assoc_map(s).insert(k, v),
{
    let t = s.push((k, v));
    assert forall|a: int, b: int|
        0 <= a < t.len() && 0 <= b < t.len() && a != b implies #[trigger] t[a].0 != #[trigger] t[b].0 by {
        if a < s.len() && b < s.len() {
            assert(t[a].0 == s[a].0);
            assert(t[b].0 == s[b].0);
        } else if a < s.len() {
            assert(t[a].0 == s[a].0);
        } else {
            assert(t[b].0 == s[b].0);
        }
    }
    let m = assoc_map(s).insert(k, v);
    assert forall|q: K| #[trigger] assoc_map(t).contains_key(q) == m.contains_key(q) by {
        if has_key(s, q) {
            let j = key_index(s, q);
            assert(t[j].0 == q);
        }
        if has_key(t, q) && q != k {
            let j = key_index(t, q);
            assert(j < s.len());
            assert(s[j].0 == q);
        }
        if q == k {
            assert(t[s.len() as int].0 == k);
        }
    }
    assert forall|q: K| assoc_map(t).contains_key(q) implies #[trigger] assoc_map(t)[q] == m[q] by {
        let j = key_index(t, q);
        lemma_assoc_index(t, j);
        if q == k {
            lemma_assoc_index(t, s.len() as int);
        } else {
            assert(j < s.len());
            assert(s[j].0 == q);
            lemma_assoc_index(s, j);
        }
    }
    assert(assoc_map(t) =~= m);
}

/// Removing an entry removes its key from the map.
pub proof fn lemma_assoc_remove<K, V>(s: Seq<(K, V)>, i: int)
    requires
        distinct_keys(s),
        0 <= i < s.len(),
    ensures
        distinct_keys(s.remove(i)),
        assoc_map(s.remove(i)) == assoc_map(s).remove(s[i].0),
{
    let t = s.remove(i);
    assert forall|a: int, b: int|
        0 <= a < t.len() && 0 <= b < t.len() && a != b implies #[trigger] t[a].0 != #[trigger] t[b].0 by {
        let a2 = if a < i { a } else { a + 1 };
        let b2 = if b < i { b } else { b + 1 };
        assert(t[a] == s[a2]);
        assert(t[b] == s[b2]);
    }
    let m = assoc_map(s).remove(s[i].0);
    assert forall|q: K| #[trigger] assoc_map(t).contains_key(q) == m.contains_key(q) by {
        if has_key(s, q) && q != s[i].0 {
            let j = key_index(s, q);
            assert(j != i);
            let j2 = if j < i { j } else { j - 1 };
            assert(t[j2] == s[j]);
        }
        if has_key(t, q) {
            let j = key_index(t, q);
            let j2 = if j < i { j } else { j + 1 };
            assert(t[j] == s[j2]);
            assert(j2 != i);
        }
    }
    assert forall|q: K| assoc_map(t).contains_key(q) implies #[trigger] assoc_map(t)[q] == m[q] by {
        let j = key_index(t, q);
        lemma_assoc_index(t, j);
        let j2 = if j < i { j } else { j + 1 };
        assert(t[j] == s[j2]);
        lemma_assoc_index(s, j2);
    }
    assert(assoc_map(t) =~= m);
}

/// A list with distinct keys has as many entries as its map has keys.
pub proof fn lemma_assoc_len<K, V>(s: Seq<(K, V)>)
    requires
        distinct_keys(s),
    ensures
        assoc_map(s).dom().finite(),
        assoc_map(s).len() == s.len(),
    decreases s.len(),
{
    if s.len() == 0 {
        assert(assoc_map(s).dom() =~= Set::<K>::empty());
    } else {
        let p = s.drop_last();
        let last = s.last();
        assert(distinct_keys(p)) by {
            assert forall|a: int, b: int|
                0 <= a < p.len() && 0 <= b < p.len() && a != b implies #[trigger] p[a].0
                != #[trigger] p[b].0 by {
                assert(p[a] == s[a]);
                assert(p[b] == s[b]);
            }
        }
        lemma_assoc_len(p);
        assert(!has_key(p, last.0)) by {
            if has_key(p, last.0) {
                let j = key_index(p, last.0);
                assert(p[j] == s[j]);
            }
        }
        lemma_assoc_push(p, last.0, last.1);
        assert(p.push(last) =~= s);
    }
}

} // verus!
