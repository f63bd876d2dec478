//! Finite maps kept as sequences of `(key, value)` pairs with distinct keys.
//!
//! The runtime's storage model keeps its tables in vectors; these lemmas
//! relate updates of such a vector to updates of the map it stands for.

use vstd::prelude::*;

verus! {

/// Some pair of `s` has key `k`.
pub open spec fn pm_has<K, V>(s: Seq<(K, V)>, k: K) -> bool {
    exists|i: int| 0 <= i < s.len() && (#[trigger] s[i]).0 == k
}

/// No two pairs of `s` share a key.
pub open spec fn pm_distinct<K, V>(s: Seq<(K, V)>) -> bool {
    forall|i: int, j: int|
        0 <= i < s.len() && 0 <= j < s.len() && i != j ==> (#[trigger] s[i]).0 != (#[trigger] s[j]).0
}

/// Position of the pair with key `k`.
pub open spec fn pm_index<K, V>(s: Seq<(K, V)>, k: K) -> int {
    choose|i: int| 0 <= i < s.len() && (#[trigger] s[i]).0 == k
}

/// The map that `s` stands for.
pub open spec fn pm_map<K, V>(s: Seq<(K, V)>) -> Map<K, V> {
    Map::new(|k: K| pm_has(s, k), |k: K| s[pm_index(s, k)].1)
}

pub proof fn lemma_pm_at<K, V>(s: Seq<(K, V)>, i: int)
    requires
        pm_distinct(s),
        0 <= i < s.len(),
    ensures
        pm_map(s).contains_key(s[i].0),
        pm_map(s)[s[i].0] == s[i].1,
{
    assert(pm_has(s, s[i].0));
    let j = pm_index(s, s[i].0);
    assert(s[j].0 == s[i].0);
}

pub proof fn lemma_pm_absent<K, V>(s: Seq<(K, V)>, k: K)
    requires
        forall|i: int| 0 <= i < s.len() ==> (#[trigger] s[i]).0 != k,
    ensures
        !pm_map(s).contains_key(k),
{
}

pub proof fn lemma_pm_empty<K, V>()
    ensures
        pm_map(Seq::<(K, V)>::empty()) == Map::<K, V>::empty(),
        pm_distinct(Seq::<(K, V)>::empty()),
{
    assert(pm_map(Seq::<(K, V)>::empty()) =~= Map::<K, V>::empty());
}

pub proof fn lemma_pm_update<K, V>(s: Seq<(K, V)>, i: int, v: V)
    requires
        pm_distinct(s),
        0 <= i < s.len(),
    ensures
        pm_distinct(s.update(i, (s[i].0, v))),
        pm_map(s.update(i, (s[i].0, v))) == pm_map(s).insert(s[i].0, v),
{
    let t = s.update(i, (s[i].0, v));
    assert(pm_distinct(t)) by {
        assert forall|a: int, b: int| 0 <= a < t.len() && 0 <= b < t.len() && a != b implies (#[trigger] t[a]).0 != (#[trigger] t[b]).0 by {
            assert(t[a].0 == s[a].0);
            assert(t[b].0 == s[b].0);
        }
    }
    assert forall|k: K| #[trigger] pm_map(t).contains_key(k) == pm_map(s).insert(s[i].0, v).contains_key(k) by {
        if pm_has(s, k) {
            let j = pm_index(s, k);
            assert(t[j].0 == k);
        }
        if pm_has(t, k) {
            let j = pm_index(t, k);
            assert(s[j].0 == k);
        }
    }
    assert forall|k: K| #[trigger] pm_map(t).contains_key(k) implies pm_map(t)[k] == pm_map(s).insert(s[i].0, v)[k] by {
        let j = pm_index(t, k);
        if k == s[i].0 {
            assert(j == i);
        } else {
            lemma_pm_at(s, j);
        }
    }
    assert(pm_map(t) =~= pm_map(s).insert(s[i].0, v));
}

pub proof fn lemma_pm_push<K, V>(s: Seq<(K, V)>, k: K, v: V)
    requires
        pm_distinct(s),
        !pm_map(s).contains_key(k),
    ensures
        pm_distinct(s.push((k, v))),
        pm_map(s.push((k, v))) == pm_map(s).insert(k, v),
{
    let t = s.push((k, v));
    assert(pm_distinct(t)) by {
        assert forall|a: int, b: int| 0 <= a < t.len() && 0 <= b < t.len() && a != b implies (#[trigger] t[a]).0 != (#[trigger] t[b]).0 by {
            if a < s.len() && b < s.len() {
                assert(t[a] == s[a] && t[b] == s[b]);
            } else if a < s.len() {
                assert(t[a] == s[a]);
                assert(!pm_has(s, k));
            } else if b < s.len() {
                assert(t[b] == s[b]);
                assert(!pm_has(s, k));
            }
        }
    }
    assert forall|q: K| #[trigger] pm_map(t).contains_key(q) == pm_map(s).insert(k, v).contains_key(q) by {
        if pm_has(s, q) {
            let j = pm_index(s, q);
            assert(t[j].0 == q);
        }
        if q == k {
            assert(t[s.len() as int].0 == k);
        }
        if pm_has(t, q) && q != k {
            let j = pm_index(t, q);
            assert(j < s.len());
            assert(s[j].0 == q);
        }
    }
    assert forall|q: K| #[trigger] pm_map(t).contains_key(q) implies pm_map(t)[q] == pm_map(s).insert(k, v)[q] by {
        let j = pm_index(t, q);
        if q == k {
            assert(j == s.len());
        } else {
            assert(j < s.len());
            assert(t[j] == s[j]);
            lemma_pm_at(s, j);
        }
    }
    assert(pm_map(t) =~= pm_map(s).insert(k, v));
}

pub proof fn lemma_pm_remove<K, V>(s: Seq<(K, V)>, i: int)
    requires
        pm_distinct(s),
        0 <= i < s.len(),
    ensures
        pm_distinct(s.remove(i)),
        pm_map(s.remove(i)) == pm_map(s).remove(s[i].0),
{
    let t = s.remove(i);
    let k = s[i].0;
    assert forall|a: int| 0 <= a < t.len() implies #[trigger] t[a] == s[if a < i { a } else { a + 1 }] by {
    }
    assert(pm_distinct(t)) by {
        assert forall|a: int, b: int| 0 <= a < t.len() && 0 <= b < t.len() && a != b implies (#[trigger] t[a]).0 != (#[trigger] t[b]).0 by {
            let a2 = if a < i { a } else { a + 1 };
            let b2 = if b < i { b } else { b + 1 };
            assert(t[a] == s[a2]);
            assert(t[b] == s[b2]);
        }
    }
    assert forall|q: K| #[trigger] pm_map(t).contains_key(q) == pm_map(s).remove(k).contains_key(q) by {
        if pm_has(s, q) && q != k {
            let j = pm_index(s, q);
            assert(j != i);
            let j2 = if j < i { j } else { j - 1 };
            assert(t[j2] == s[j]);
        }
        if pm_has(t, q) {
            let j = pm_index(t, q);
            let j2 = if j < i { j } else { j + 1 };
            assert(t[j] == s[j2]);
            assert(j2 != i);
        }
    }
    assert forall|q: K| #[trigger] pm_map(t).contains_key(q) implies pm_map(t)[q] == pm_map(s).remove(k)[q] by {
        let j = pm_index(t, q);
        let j2 = if j < i { j } else { j + 1 };
        assert(t[j] == s[j2]);
        lemma_pm_at(s, j2);
    }
    assert(pm_map(t) =~= pm_map(s).remove(k));
}

} // verus!
