//! Removing elements from sequences: what `Vec::retain` with an
//! inequality test computes.

use vstd::prelude::*;
use crate::wake::WakeId;

verus! {

/// `s` without the elements that belong to `r`, order kept.
pub open spec fn remove_all_in<T>(s: Seq<T>, r: Set<T>) -> Seq<T>
    decreases s.len(),
{
    if s.len() == 0 {
        s
    } else if r.contains(s.last()) {
        remove_all_in(s.drop_last(), r)
    } else {
        remove_all_in(s.drop_last(), r).push(s.last())
    }
}

/// `s` without any occurrence of `x`.
pub open spec fn remove_all<T>(s: Seq<T>, x: T) -> Seq<T> {
    remove_all_in(s, set![x])
}

pub proof fn lemma_remove_all_in_contains<T>(s: Seq<T>, r: Set<T>, x: T)
    ensures
        remove_all_in(s, r).contains(x) <==> (s.contains(x) && !r.contains(x)),
    decreases s.len(),
{
    if s.len() > 0 {
        lemma_remove_all_in_contains(s.drop_last(), r, x);
        let p = s.drop_last();
        if s.contains(x) && !r.contains(x) && x != s.last() {
            let i = choose|i: int| 0 <= i < s.len() && s[i] == x;
            assert(i < s.len() - 1);
            assert(p[i] == x);
        }
        if p.contains(x) {
            let i = choose|i: int| 0 <= i < p.len() && p[i] == x;
            assert(s[i] == x);
        }
        if !r.contains(s.last()) {
            assert(remove_all_in(s, r) == remove_all_in(p, r).push(s.last()));
            if remove_all_in(p, r).contains(x) {
                let i = choose|i: int| 0 <= i < remove_all_in(p, r).len() && remove_all_in(p, r)[i] == x;
                assert(remove_all_in(s, r)[i] == x);
            }
            if remove_all_in(s, r).contains(x) && x != s.last() {
                let i = choose|i: int| 0 <= i < remove_all_in(s, r).len() && remove_all_in(s, r)[i] == x;
                assert(remove_all_in(p, r)[i] == x);
            }
            assert(remove_all_in(s, r)[remove_all_in(s, r).len() - 1] == s.last());
        }
        assert(s[s.len() - 1] == s.last());
    }
}

pub proof fn lemma_remove_all_in_len<T>(s: Seq<T>, r: Set<T>)
    ensures
        remove_all_in(s, r).len() <= s.len(),
    decreases s.len(),
{
    if s.len() > 0 {
        lemma_remove_all_in_len(s.drop_last(), r);
    }
}

pub proof fn lemma_remove_all_in_noop<T>(s: Seq<T>, r: Set<T>)
    requires
        forall|i: int| 0 <= i < s.len() ==> !r.contains(#[trigger] s[i]),
    ensures
        remove_all_in(s, r) == s,
    decreases s.len(),
{
    if s.len() > 0 {
        let p = s.drop_last();
        assert forall|i: int| 0 <= i < p.len() implies !r.contains(#[trigger] p[i]) by {
            assert(p[i] == s[i]);
        }
        lemma_remove_all_in_noop(p, r);
        assert(!r.contains(s[s.len() - 1]));
        assert(remove_all_in(s, r) =~= s);
    }
}

pub proof fn lemma_remove_all_in_no_dup<T>(s: Seq<T>, r: Set<T>)
    requires
        s.no_duplicates(),
    ensures
        remove_all_in(s, r).no_duplicates(),
    decreases s.len(),
{
    if s.len() > 0 {
        let p = s.drop_last();
        assert(p.no_duplicates()) by {
            assert forall|i: int, j: int| 0 <= i < p.len() && 0 <= j < p.len() && i != j implies p[i] != p[j] by {
                assert(p[i] == s[i] && p[j] == s[j]);
            }
        }
        lemma_remove_all_in_no_dup(p, r);
        if !r.contains(s.last()) {
            let q = remove_all_in(p, r);
            lemma_remove_all_in_contains(p, r, s.last());
            assert(!p.contains(s.last())) by {
                if p.contains(s.last()) {
                    let i = choose|i: int| 0 <= i < p.len() && p[i] == s.last();
                    assert(s[i] == s[s.len() - 1]);
                }
            }
            let t = q.push(s.last());
            assert forall|i: int, j: int| 0 <= i < t.len() && 0 <= j < t.len() && i != j implies t[i] != t[j] by {
                if i < q.len() && j < q.len() {
                    assert(t[i] == q[i] && t[j] == q[j]);
                } else if i < q.len() {
                    assert(t[i] == q[i]);
                    assert(q.contains(q[i]));
                } else if j < q.len() {
                    assert(t[j] == q[j]);
                    assert(q.contains(q[j]));
                }
            }
        }
    }
}

pub proof fn lemma_remove_all_in_union<T>(s: Seq<T>, a: Set<T>, b: Set<T>)
    ensures
        remove_all_in(remove_all_in(s, a), b) == remove_all_in(s, a.union(b)),
    decreases s.len(),
{
    if s.len() > 0 {
        lemma_remove_all_in_union(s.drop_last(), a, b);
        let q = remove_all_in(s.drop_last(), a);
        if !a.contains(s.last()) {
            assert(remove_all_in(s, a) == q.push(s.last()));
            assert(q.push(s.last()).drop_last() =~= q);
            assert(q.push(s.last()).last() == s.last());
        }
    }
}

/// Copy of `v` without any occurrence of `x`.
pub fn vec_without(v: &Vec<WakeId>, x: WakeId) -> (r: Vec<WakeId>)
    ensures
        r@ == remove_all(v@, x),
{
    let mut r: Vec<WakeId> = Vec::new();
    let mut i: usize = 0;
    while i < v.len()
        invariant
            i <= v.len(),
            r@ == remove_all(v@.subrange(0, i as int), x),
        decreases v.len() - i,
    {
        let y = v[i];
        proof {
            assert(v@.subrange(0, i as int + 1).drop_last() =~= v@.subrange(0, i as int));
            assert(v@.subrange(0, i as int + 1).last() == y);
        }
        if y != x {
            r.push(y);
        }
        i = i + 1;
    }
    assert(v@.subrange(0, v.len() as int) =~= v@);
    r
}

} // verus!
