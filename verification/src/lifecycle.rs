//! Laws of a team's wake lifecycle.
//!
//! They are stated over [`TeamStoreView`] and the transition functions that
//! the operations of [`crate::store::TeamStore`] are proved to follow
//! (`spec_dispatch`, `spec_complete`, `spec_fire`, `spec_register`,
//! `spec_unregister`).
//!
//! [`store_inv`] is the consistency every reachable team state has: an
//! inbox lists pending wakes of its owner, an alarm slot lists pending
//! wakes due then, and each pending wake sits in exactly those two places.

use vstd::prelude::*;
use crate::store::{
    TeamStoreView, inbox_of, slot_of, handlers_of, spec_register, spec_unregister, spec_dispatch,
    dispatch_refusal, new_wake_view, evicted_by_push, inbox_after_push, alarms_drop, spec_complete,
    completion_refusal, completed_view, alarms_remove_at, spec_fire, timed_out_ids, due_ids,
    timeout_batch, removed_for, timed_out_view, empty_store, summaries_of, page_ids, summary_view, spec_ensure_meta,
    initial_meta, TENANCY_PREFIX_MVP, earliest_alarm, lemma_earliest_alarm_is_min, saturating_total,
};
use crate::iso8601::{iso8601_text, lemma_iso8601_distinct_seconds};
use crate::wake::{WakeId, WakeRecordView, WakeState};
use crate::consts::{INBOX_LIMIT, MAX_PAYLOAD_BYTES, MAX_TIMEOUT_MS, MIN_TIMEOUT_MS};
use crate::errors::{TallyErrorView, WakeErrorView};
use crate::seqs::{
    remove_all, remove_all_in, lemma_remove_all_in_contains, lemma_remove_all_in_len,
    lemma_remove_all_in_no_dup, lemma_remove_all_in_noop,
};

verus! {

/// `w` names a pending wake row.
pub open spec fn is_pending(s: TeamStoreView, w: WakeId) -> bool {
    s.wakes.contains_key(w) && s.wakes[w].state == WakeState::Pending
}

/// An inbox of `x`: no repeats, at most `INBOX_LIMIT` entries, each a
/// pending wake targeting `x`.
pub open spec fn inbox_ok(s: TeamStoreView, x: Seq<char>, q: Seq<WakeId>) -> bool {
    &&& q.no_duplicates()
    &&& q.len() <= INBOX_LIMIT
    &&& forall|w: WakeId| #[trigger] q.contains(w) ==> is_pending(s, w) && s.wakes[w].target_identity == x
}

/// An alarm slot at `k`: no repeats, each entry a pending wake due at `k`.
pub open spec fn slot_ok(s: TeamStoreView, k: u64, q: Seq<WakeId>) -> bool {
    &&& q.no_duplicates()
    &&& forall|w: WakeId| #[trigger] q.contains(w) ==> is_pending(s, w) && s.wakes[w].deadline() == k
}

/// Consistency of a team's state.
pub open spec fn store_inv(s: TeamStoreView) -> bool {
    &&& forall|w: WakeId| #[trigger] s.wakes.contains_key(w) ==> s.wakes[w].wake_id == w
        && s.wakes[w].deadline() <= u64::MAX
    &&& forall|x: Seq<char>| #[trigger] s.handlers.contains_key(x) ==> s.handlers[x] != Set::<Seq<char>>::empty()
    &&& forall|x: Seq<char>| #[trigger] s.inboxes.contains_key(x) ==> inbox_ok(s, x, s.inboxes[x])
    &&& forall|k: u64| #[trigger] s.alarms.contains_key(k) ==> slot_ok(s, k, s.alarms[k])
    &&& forall|w: WakeId| #[trigger] is_pending(s, w) ==> inbox_of(s, s.wakes[w].target_identity).contains(w)
        && slot_of(s, s.wakes[w].deadline() as u64).contains(w)
    &&& s.meta matches Some(m) ==> m.tenancy_prefix == TENANCY_PREFIX_MVP@
}

/// The empty team state is consistent.
pub proof fn lemma_empty_store_inv()
    ensures
        store_inv(empty_store()),
{
}

/// Registering a handler keeps the state consistent.
pub proof fn lemma_register_keeps_inv(s: TeamStoreView, id: Seq<char>, ctx: Seq<char>)
    requires
        store_inv(s),
    ensures
        store_inv(spec_register(s, id, ctx)),
{
    let s2 = spec_register(s, id, ctx);
    assert forall|x: Seq<char>| #[trigger] s2.handlers.contains_key(x) implies s2.handlers[x] != Set::<Seq<char>>::empty() by {
        if x == id {
            assert(s2.handlers[x].contains(ctx));
        }
    }
    assert forall|w: WakeId| #[trigger] is_pending(s2, w) implies inbox_of(s2, s2.wakes[w].target_identity).contains(w)
        && slot_of(s2, s2.wakes[w].deadline() as u64).contains(w) by {
        assert(is_pending(s, w));
    }
    assert forall|x: Seq<char>| #[trigger] s2.inboxes.contains_key(x) implies inbox_ok(s2, x, s2.inboxes[x]) by {
        assert(inbox_ok(s, x, s.inboxes[x]));
    }
    assert forall|k: u64| #[trigger] s2.alarms.contains_key(k) implies slot_ok(s2, k, s2.alarms[k]) by {
        assert(slot_ok(s, k, s.alarms[k]));
    }
}

/// Unregistering a handler keeps the state consistent.
pub proof fn lemma_unregister_keeps_inv(s: TeamStoreView, id: Seq<char>, ctx: Seq<char>)
    requires
        store_inv(s),
    ensures
        store_inv(spec_unregister(s, id, ctx)),
{
    let s2 = spec_unregister(s, id, ctx);
    assert(s2.wakes == s.wakes && s2.inboxes == s.inboxes && s2.alarms == s.alarms);
    assert forall|w: WakeId| #[trigger] is_pending(s2, w) implies inbox_of(s2, s2.wakes[w].target_identity).contains(w)
        && slot_of(s2, s2.wakes[w].deadline() as u64).contains(w) by {
        assert(is_pending(s, w));
    }
    assert forall|x: Seq<char>| #[trigger] s2.inboxes.contains_key(x) implies inbox_ok(s2, x, s2.inboxes[x]) by {
        assert(inbox_ok(s, x, s.inboxes[x]));
    }
    assert forall|k: u64| #[trigger] s2.alarms.contains_key(k) implies slot_ok(s2, k, s2.alarms[k]) by {
        assert(slot_ok(s, k, s.alarms[k]));
    }
}

/// The inbox of an identity has no repeats and lists pending wakes of it.
proof fn lemma_inbox_of_ok(s: TeamStoreView, x: Seq<char>)
    requires
        store_inv(s),
    ensures
        inbox_ok(s, x, inbox_of(s, x)),
{
    if !s.inboxes.contains_key(x) {
        assert(inbox_of(s, x) =~= Seq::<WakeId>::empty());
    }
}

/// A slot has no repeats and lists pending wakes due then.
proof fn lemma_slot_of_ok(s: TeamStoreView, k: u64)
    requires
        store_inv(s),
    ensures
        slot_ok(s, k, slot_of(s, k)),
{
    if !s.alarms.contains_key(k) {
        assert(slot_of(s, k) =~= Seq::<WakeId>::empty());
    }
}

/// Completing a pending wake keeps the state consistent.
pub proof fn lemma_complete_keeps_inv(s: TeamStoreView, id: WakeId, by: Seq<char>, resp: Seq<u8>)
    requires
        store_inv(s),
        completion_refusal(s, id, by) is None,
    ensures
        store_inv(spec_complete(s, id, resp)),
{
    let r = s.wakes[id];
    let tgt = r.target_identity;
    let d = r.deadline() as u64;
    let s2 = spec_complete(s, id, resp);
    lemma_inbox_of_ok(s, tgt);
    lemma_slot_of_ok(s, d);
    assert(is_pending(s, id));
    // Rows other than `id` are unchanged.
    assert forall|w: WakeId| w != id implies s2.wakes.contains_key(w) == s.wakes.contains_key(w)
        && (s.wakes.contains_key(w) ==> #[trigger] s2.wakes[w] == s.wakes[w]) by {}
    assert(!is_pending(s2, id));
    assert forall|x: Seq<char>| #[trigger] s2.inboxes.contains_key(x) implies inbox_ok(s2, x, s2.inboxes[x]) by {
        if x == tgt {
            let q = inbox_of(s, tgt);
            lemma_remove_all_in_no_dup(q, set![id]);
            lemma_remove_all_in_len(q, set![id]);
            assert forall|w: WakeId| #[trigger] s2.inboxes[x].contains(w) implies is_pending(s2, w)
                && s2.wakes[w].target_identity == x by {
                lemma_remove_all_in_contains(q, set![id], w);
                assert(q.contains(w));
                assert(w != id);
                assert(s2.wakes[w] == s.wakes[w]);
            }
        } else {
            assert(inbox_ok(s, x, s.inboxes[x]));
            assert forall|w: WakeId| #[trigger] s2.inboxes[x].contains(w) implies is_pending(s2, w)
                && s2.wakes[w].target_identity == x by {
                assert(s.inboxes[x].contains(w));
                assert(w != id);
                assert(s2.wakes[w] == s.wakes[w]);
            }
        }
    }
    assert forall|k: u64| #[trigger] s2.alarms.contains_key(k) implies slot_ok(s2, k, s2.alarms[k]) by {
        assert(s.alarms.contains_key(k));
        assert(slot_ok(s, k, s.alarms[k]));
        if k == d {
            let q = s.alarms[d];
            lemma_remove_all_in_no_dup(q, set![id]);
            assert(s2.alarms[k] == remove_all(q, id));
            assert forall|w: WakeId| #[trigger] s2.alarms[k].contains(w) implies is_pending(s2, w)
                && s2.wakes[w].deadline() == k by {
                lemma_remove_all_in_contains(q, set![id], w);
                assert(q.contains(w));
                assert(s2.wakes[w] == s.wakes[w]);
            }
        } else {
            assert(s2.alarms[k] == s.alarms[k]);
            assert forall|w: WakeId| #[trigger] s2.alarms[k].contains(w) implies is_pending(s2, w)
                && s2.wakes[w].deadline() == k by {
                assert(s.alarms[k].contains(w));
                assert(w != id);
                assert(s2.wakes[w] == s.wakes[w]);
            }
        }
    }
    assert forall|w: WakeId| #[trigger] is_pending(s2, w) implies inbox_of(s2, s2.wakes[w].target_identity).contains(w)
        && slot_of(s2, s2.wakes[w].deadline() as u64).contains(w) by {
        assert(w != id);
        assert(s2.wakes[w] == s.wakes[w]);
        assert(is_pending(s, w));
        let tw = s.wakes[w].target_identity;
        let dw = s.wakes[w].deadline() as u64;
        if tw == tgt {
            lemma_remove_all_in_contains(inbox_of(s, tgt), set![id], w);
        }
        if dw == d {
            lemma_remove_all_in_contains(s.alarms[d], set![id], w);
            assert(remove_all(s.alarms[d], id).contains(w));
        }
    }
}

/// An alarm at `now` keeps the state consistent.
pub proof fn lemma_fire_keeps_inv(s: TeamStoreView, now: u64)
    requires
        store_inv(s),
    ensures
        store_inv(spec_fire(s, now)),
{
    let t = timed_out_ids(s, now);
    let s2 = spec_fire(s, now);
    // A wake filed in a slot due by `now` is due by `now`.
    assert forall|w: WakeId| #[trigger] t.contains(w) implies s.wakes[w].deadline() <= now && is_pending(s, w) by {
        let k = choose|k: u64| k <= now && s.alarms.contains_key(k) && #[trigger] s.alarms[k].contains(w);
        assert(slot_ok(s, k, s.alarms[k]));
    }
    assert forall|w: WakeId| s2.wakes.contains_key(w) && !t.contains(w) implies #[trigger] s2.wakes[w] == s.wakes[w] by {}
    assert forall|x: Seq<char>| #[trigger] s2.inboxes.contains_key(x) implies inbox_ok(s2, x, s2.inboxes[x]) by {
        let q = inbox_of(s, x);
        let rr = removed_for(s, t, x);
        lemma_inbox_of_ok(s, x);
        lemma_remove_all_in_no_dup(q, rr);
        lemma_remove_all_in_len(q, rr);
        assert(s2.inboxes[x] == remove_all_in(q, rr));
        assert forall|w: WakeId| #[trigger] s2.inboxes[x].contains(w) implies is_pending(s2, w)
            && s2.wakes[w].target_identity == x by {
            lemma_remove_all_in_contains(q, rr, w);
            assert(q.contains(w));
            assert(!rr.contains(w));
            assert(!t.contains(w));
            assert(s2.wakes[w] == s.wakes[w]);
        }
    }
    assert forall|k: u64| #[trigger] s2.alarms.contains_key(k) implies slot_ok(s2, k, s2.alarms[k]) by {
        assert(slot_ok(s, k, s.alarms[k]));
        assert(s2.alarms[k] == s.alarms[k]);
        assert forall|w: WakeId| #[trigger] s2.alarms[k].contains(w) implies is_pending(s2, w)
            && s2.wakes[w].deadline() == k by {
            assert(s.alarms[k].contains(w));
            assert(s.wakes[w].deadline() == k);
            assert(k > now);
            assert(!t.contains(w));
            assert(s2.wakes[w] == s.wakes[w]);
        }
    }
    assert forall|w: WakeId| #[trigger] is_pending(s2, w) implies inbox_of(s2, s2.wakes[w].target_identity).contains(w)
        && slot_of(s2, s2.wakes[w].deadline() as u64).contains(w) by {
        assert(!t.contains(w));
        assert(s2.wakes[w] == s.wakes[w]);
        assert(is_pending(s, w));
        let tw = s.wakes[w].target_identity;
        let dw = s.wakes[w].deadline() as u64;
        assert(inbox_of(s, tw).contains(w));
        assert(s.inboxes.contains_key(tw));
        lemma_remove_all_in_contains(inbox_of(s, tw), removed_for(s, t, tw), w);
        assert(s2.inboxes.contains_key(tw));
        assert(slot_of(s, dw).contains(w));
        assert(s.alarms.contains_key(dw));
        if dw <= now {
            assert(due_ids(s, now).contains(w));
            assert(t.contains(w));
        }
        assert(s2.alarms.contains_key(dw));
    }
}

/// Appending an element that is not yet there keeps a sequence free of
/// repeats; the result holds the old elements and the new one.
proof fn lemma_push_fresh(q: Seq<WakeId>, x: WakeId)
    requires
        q.no_duplicates(),
        !q.contains(x),
    ensures
        q.push(x).no_duplicates(),
        forall|w: WakeId| #[trigger] q.push(x).contains(w) <==> (q.contains(w) || w == x),
{
    let p = q.push(x);
    assert forall|i: int, j: int| 0 <= i < p.len() && 0 <= j < p.len() && i != j implies p[i] != p[j] by {
        if i < q.len() && j < q.len() {
            assert(p[i] == q[i] && p[j] == q[j]);
        } else if i < q.len() {
            assert(p[i] == q[i]);
        } else if j < q.len() {
            assert(p[j] == q[j]);
        }
    }
    assert forall|w: WakeId| #[trigger] p.contains(w) <==> (q.contains(w) || w == x) by {
        if p.contains(w) {
            let i = choose|i: int| 0 <= i < p.len() && p[i] == w;
            if i < q.len() {
                assert(q[i] == w);
            }
        }
        if q.contains(w) {
            let i = choose|i: int| 0 <= i < q.len() && q[i] == w;
            assert(p[i] == w);
        }
        if w == x {
            assert(p[q.len() as int] == x);
        }
    }
}

/// Removing the head of a sequence without repeats keeps it free of
/// repeats; the result holds every element but the head.
proof fn lemma_drop_first(q: Seq<WakeId>)
    requires
        q.no_duplicates(),
        q.len() > 0,
    ensures
        q.drop_first().no_duplicates(),
        forall|w: WakeId| #[trigger] q.drop_first().contains(w) <==> (q.contains(w) && w != q[0]),
{
    let p = q.drop_first();
    assert forall|i: int, j: int| 0 <= i < p.len() && 0 <= j < p.len() && i != j implies p[i] != p[j] by {
        assert(p[i] == q[i + 1] && p[j] == q[j + 1]);
    }
    assert forall|w: WakeId| #[trigger] p.contains(w) <==> (q.contains(w) && w != q[0]) by {
        if p.contains(w) {
            let i = choose|i: int| 0 <= i < p.len() && p[i] == w;
            assert(q[i + 1] == w);
        }
        if q.contains(w) && w != q[0] {
            let i = choose|i: int| 0 <= i < q.len() && q[i] == w;
            assert(i != 0);
            assert(p[i - 1] == w);
        }
    }
}

/// What removing `w` from every slot leaves at one deadline.
proof fn lemma_alarms_drop_at(a: Map<u64, Seq<WakeId>>, w: WakeId, k: u64)
    requires
        a.contains_key(k) ==> a[k].no_duplicates(),
    ensures
        alarms_drop(a, w).contains_key(k) ==> a.contains_key(k) && alarms_drop(a, w)[k].no_duplicates()
            && forall|y: WakeId| #[trigger] alarms_drop(a, w)[k].contains(y) <==> (a[k].contains(y) && y != w),
        forall|y: WakeId| a.contains_key(k) && #[trigger] a[k].contains(y) && y != w ==> alarms_drop(a, w).contains_key(k)
            && alarms_drop(a, w)[k].contains(y),
{
    let b = alarms_drop(a, w);
    if a.contains_key(k) {
        lemma_remove_all_in_no_dup(a[k], set![w]);
        assert forall|y: WakeId| #[trigger] remove_all(a[k], w).contains(y) <==> (a[k].contains(y) && y != w) by {
            lemma_remove_all_in_contains(a[k], set![w], y);
        }
        assert forall|y: WakeId| a[k].contains(y) && y != w implies b.contains_key(k) && #[trigger] b[k].contains(y) by {
            if a[k].contains(w) {
                assert(remove_all(a[k], w).contains(y));
                assert(remove_all(a[k], w).len() != 0);
            }
        }
        if b.contains_key(k) {
            assert forall|y: WakeId| #[trigger] b[k].contains(y) <==> (a[k].contains(y) && y != w) by {
                if !a[k].contains(w) {
                    assert(b[k] == a[k]);
                }
            }
        }
    }
}

/// Dispatching a wake under an identifier that names no row keeps the
/// state consistent.
pub proof fn lemma_dispatch_keeps_inv(
    s: TeamStoreView,
    caller: Seq<char>,
    target: Seq<char>,
    ctx: Seq<char>,
    payload: Seq<u8>,
    timeout_ms: u32,
    id: WakeId,
    now: u64,
)
    requires
        store_inv(s),
        dispatch_refusal(s, target, ctx, payload.len(), timeout_ms) is None,
        !s.wakes.contains_key(id),
        now <= u64::MAX - MAX_TIMEOUT_MS,
    ensures
        store_inv(spec_dispatch(s, caller, target, ctx, payload, timeout_ms, id, now)),
{
    let inbox = inbox_of(s, target);
    let k = (now + timeout_ms) as u64;
    let a1 = s.alarms.insert(k, slot_of(s, k).push(id));
    let rec = new_wake_view(caller, target, ctx, payload, timeout_ms, id, now);
    let s2 = spec_dispatch(s, caller, target, ctx, payload, timeout_ms, id, now);
    lemma_inbox_of_ok(s, target);
    lemma_slot_of_ok(s, k);
    assert(!inbox.contains(id));
    assert(!slot_of(s, k).contains(id));
    lemma_push_fresh(inbox, id);
    lemma_push_fresh(slot_of(s, k), id);
    assert(rec.deadline() == k);
    // Slots of `a1`: the old slots, with `id` appended at `k`.
    assert forall|k2: u64| #[trigger] a1.contains_key(k2) implies a1[k2].no_duplicates()
        && forall|y: WakeId| #[trigger] a1[k2].contains(y) ==> (y == id && k2 == k) || (y != id && s.alarms.contains_key(k2)
            && s.alarms[k2].contains(y)) by {
        if k2 != k {
            assert(slot_ok(s, k2, s.alarms[k2]));
            assert forall|y: WakeId| #[trigger] a1[k2].contains(y) implies y != id by {
                assert(s.alarms[k2].contains(y));
            }
        } else {
            assert forall|y: WakeId| #[trigger] a1[k2].contains(y) implies (y == id && k2 == k) || (y != id
                && s.alarms.contains_key(k2) && s.alarms[k2].contains(y)) by {
                if y != id {
                    assert(slot_of(s, k).contains(y));
                }
            }
        }
    }
    match evicted_by_push(inbox, id) {
        None => {
            assert(s2.wakes == s.wakes.insert(id, rec));
            assert(s2.alarms == a1);
            assert(s2.inboxes == s.inboxes.insert(target, inbox.push(id)));
            assert forall|x: Seq<char>| #[trigger] s2.inboxes.contains_key(x) implies inbox_ok(s2, x, s2.inboxes[x]) by {
                if x == target {
                    assert forall|w: WakeId| #[trigger] s2.inboxes[x].contains(w) implies is_pending(s2, w)
                        && s2.wakes[w].target_identity == x by {
                        if w != id {
                            assert(inbox.contains(w));
                        }
                    }
                } else {
                    assert(inbox_ok(s, x, s.inboxes[x]));
                    assert forall|w: WakeId| #[trigger] s2.inboxes[x].contains(w) implies is_pending(s2, w)
                        && s2.wakes[w].target_identity == x by {
                        assert(s.inboxes[x].contains(w));
                    }
                }
            }
            assert forall|k2: u64| #[trigger] s2.alarms.contains_key(k2) implies slot_ok(s2, k2, s2.alarms[k2]) by {
                assert forall|w: WakeId| #[trigger] s2.alarms[k2].contains(w) implies is_pending(s2, w)
                    && s2.wakes[w].deadline() == k2 by {
                    assert(a1[k2].contains(w));
                    if w != id {
                        assert(slot_ok(s, k2, s.alarms[k2]));
                        assert(s.alarms[k2].contains(w));
                    }
                }
            }
            assert forall|w: WakeId| #[trigger] is_pending(s2, w) implies inbox_of(s2, s2.wakes[w].target_identity).contains(w)
                && slot_of(s2, s2.wakes[w].deadline() as u64).contains(w) by {
                if w != id {
                    assert(is_pending(s, w));
                    let dw = s.wakes[w].deadline() as u64;
                    if dw == k {
                        assert(slot_of(s, k).contains(w));
                    }
                }
            }
        },
        Some(ov) => {
            assert(inbox.len() == INBOX_LIMIT);
            assert(inbox.push(id)[0] == inbox[0]);
            assert(ov == inbox[0]);
            assert(inbox.contains(ov));
            assert(is_pending(s, ov));
            assert(ov != id);
            let q = inbox.push(id).drop_first();
            lemma_drop_first(inbox.push(id));
            assert(s2.wakes == s.wakes.remove(ov).insert(id, rec));
            assert(s2.alarms == alarms_drop(a1, ov));
            assert(s2.inboxes == s.inboxes.insert(target, q));
            assert forall|x: Seq<char>| #[trigger] s2.inboxes.contains_key(x) implies inbox_ok(s2, x, s2.inboxes[x]) by {
                if x == target {
                    assert(q.len() == INBOX_LIMIT);
                    assert forall|w: WakeId| #[trigger] s2.inboxes[x].contains(w) implies is_pending(s2, w)
                        && s2.wakes[w].target_identity == x by {
                        if w != id {
                            assert(inbox.push(id).contains(w));
                            assert(inbox.contains(w));
                        }
                    }
                } else {
                    assert(inbox_ok(s, x, s.inboxes[x]));
                    assert forall|w: WakeId| #[trigger] s2.inboxes[x].contains(w) implies is_pending(s2, w)
                        && s2.wakes[w].target_identity == x by {
                        assert(s.inboxes[x].contains(w));
                        assert(s.wakes[w].target_identity == x);
                        assert(w != ov);
                    }
                }
            }
            assert forall|k2: u64| #[trigger] s2.alarms.contains_key(k2) implies slot_ok(s2, k2, s2.alarms[k2]) by {
                lemma_alarms_drop_at(a1, ov, k2);
                assert forall|w: WakeId| #[trigger] s2.alarms[k2].contains(w) implies is_pending(s2, w)
                    && s2.wakes[w].deadline() == k2 by {
                    assert(a1[k2].contains(w));
                    assert(w != ov);
                    if w != id {
                        assert(slot_ok(s, k2, s.alarms[k2]));
                        assert(s.alarms[k2].contains(w));
                    }
                }
            }
            assert forall|w: WakeId| #[trigger] is_pending(s2, w) implies inbox_of(s2, s2.wakes[w].target_identity).contains(w)
                && slot_of(s2, s2.wakes[w].deadline() as u64).contains(w) by {
                if w == id {
                    lemma_alarms_drop_at(a1, ov, k);
                    assert(a1[k].contains(id));
                } else {
                    assert(w != ov);
                    assert(is_pending(s, w));
                    let tw = s.wakes[w].target_identity;
                    let dw = s.wakes[w].deadline() as u64;
                    if tw == target {
                        assert(inbox.push(id).contains(w));
                    }
                    assert(slot_of(s, dw).contains(w));
                    assert(a1.contains_key(dw) && a1[dw].contains(w)) by {
                        if dw == k {
                            assert(slot_of(s, k).push(id).contains(w));
                        }
                    }
                    lemma_alarms_drop_at(a1, ov, dw);
                }
            }
        },
    }
}

/// A wake completes at most once: after a completion, completing the same
/// wake again (by anyone) is refused as already terminal.
pub proof fn lemma_complete_twice_refused(s: TeamStoreView, id: WakeId, by: Seq<char>, resp: Seq<u8>, by2: Seq<char>)
    requires
        completion_refusal(s, id, by) is None,
    ensures
        completion_refusal(spec_complete(s, id, resp), id, by2) == Some(TallyErrorView::AlreadyTerminal),
{
}

/// A dispatched wake is pending, sits at the tail of its target's inbox,
/// and can be completed by its target and by no one else; completing it
/// stores the response and takes it out of the inbox.
pub proof fn lemma_dispatch_then_complete(
    s: TeamStoreView,
    caller: Seq<char>,
    target: Seq<char>,
    ctx: Seq<char>,
    payload: Seq<u8>,
    timeout_ms: u32,
    id: WakeId,
    now: u64,
    resp: Seq<u8>,
    other: Seq<char>,
)
    requires
        dispatch_refusal(s, target, ctx, payload.len(), timeout_ms) is None,
    ensures
        ({
            let s1 = spec_dispatch(s, caller, target, ctx, payload, timeout_ms, id, now);
            let s2 = spec_complete(s1, id, resp);
            &&& s1.wakes[id] == new_wake_view(caller, target, ctx, payload, timeout_ms, id, now)
            &&& is_pending(s1, id)
            &&& inbox_of(s1, target).len() > 0 && inbox_of(s1, target).last() == id
            &&& completion_refusal(s1, id, target) is None
            &&& other != target ==> completion_refusal(s1, id, other) == Some(TallyErrorView::IdentityMismatch)
            &&& s2.wakes[id] == completed_view(s1.wakes[id], resp)
            &&& !inbox_of(s2, target).contains(id)
        }),
{
    let s1 = spec_dispatch(s, caller, target, ctx, payload, timeout_ms, id, now);
    let inbox = inbox_of(s, target);
    assert(inbox_of(s1, target) == inbox_after_push(inbox, id));
    if inbox.len() + 1 > INBOX_LIMIT {
        assert(inbox.push(id).drop_first().last() == id);
    }
    lemma_remove_all_in_contains(inbox_of(s1, target), set![id], id);
}

/// An alarm times out exactly the pending wakes whose deadline has come:
/// such a wake turns `TimedOut`, leaves its target's inbox, and can no
/// longer be completed; a pending wake whose deadline is later is left
/// as it was.
pub proof fn lemma_fire_times_out_due(s: TeamStoreView, w: WakeId, now: u64, by: Seq<char>)
    requires
        store_inv(s),
        is_pending(s, w),
    ensures
        s.wakes[w].deadline() <= now ==> {
            let s2 = spec_fire(s, now);
            &&& s2.wakes[w] == timed_out_view(s.wakes[w])
            &&& !inbox_of(s2, s.wakes[w].target_identity).contains(w)
            &&& completion_refusal(s2, w, by) == Some(TallyErrorView::AlreadyTerminal)
        },
        s.wakes[w].deadline() > now ==> spec_fire(s, now).wakes[w] == s.wakes[w],
{
    let t = timed_out_ids(s, now);
    let d = s.wakes[w].deadline() as u64;
    let tw = s.wakes[w].target_identity;
    assert(slot_of(s, d).contains(w));
    if s.wakes[w].deadline() <= now {
        assert(s.alarms.contains_key(d) && s.alarms[d].contains(w));
        assert(due_ids(s, now).contains(w));
        assert(t.contains(w));
        assert(removed_for(s, t, tw).contains(w));
        lemma_remove_all_in_contains(inbox_of(s, tw), removed_for(s, t, tw), w);
        assert(inbox_of(s, tw).contains(w));
        assert(s.inboxes.contains_key(tw));
    } else {
        assert forall|k: u64| k <= now && s.alarms.contains_key(k) implies !(#[trigger] s.alarms[k].contains(w)) by {
            assert(slot_ok(s, k, s.alarms[k]));
        }
        assert(!t.contains(w));
    }
}

/// Terminal rows never change: completing a pending wake, dispatching a
/// wake under a fresh identifier, or firing the alarm leaves a completed or
/// timed-out row as it was.
pub proof fn lemma_terminal_rows_stable(
    s: TeamStoreView,
    w: WakeId,
    id: WakeId,
    by: Seq<char>,
    resp: Seq<u8>,
    now: u64,
    caller: Seq<char>,
    target: Seq<char>,
    ctx: Seq<char>,
    payload: Seq<u8>,
    timeout_ms: u32,
    fresh: WakeId,
    at: u64,
)
    requires
        store_inv(s),
        s.wakes.contains_key(w),
        s.wakes[w].state != WakeState::Pending,
    ensures
        completion_refusal(s, id, by) is None ==> spec_complete(s, id, resp).wakes[w] == s.wakes[w],
        spec_fire(s, now).wakes[w] == s.wakes[w],
        dispatch_refusal(s, target, ctx, payload.len(), timeout_ms) is None && !s.wakes.contains_key(fresh) ==> {
            let s1 = spec_dispatch(s, caller, target, ctx, payload, timeout_ms, fresh, at);
            s1.wakes.contains_key(w) && s1.wakes[w] == s.wakes[w]
        },
{
    assert(!timed_out_ids(s, now).contains(w));
    let inbox = inbox_of(s, target);
    lemma_inbox_of_ok(s, target);
    if inbox.len() + 1 > INBOX_LIMIT {
        assert(inbox.push(fresh)[0] == inbox[0]);
        assert(inbox.contains(inbox[0]));
        assert(is_pending(s, inbox[0]));
    }
}

/// Firing the alarm twice at the same time changes nothing the second time.
pub proof fn lemma_fire_idempotent(s: TeamStoreView, now: u64)
    ensures
        spec_fire(spec_fire(s, now), now) == spec_fire(s, now),
{
    let s1 = spec_fire(s, now);
    let s2 = spec_fire(s1, now);
    assert(due_ids(s1, now) =~= Set::<WakeId>::empty());
    assert(timed_out_ids(s1, now) =~= Set::<WakeId>::empty());
    assert forall|x: Seq<char>| s1.inboxes.contains_key(x) implies #[trigger] s2.inboxes[x] == s1.inboxes[x] by {
        lemma_remove_all_in_noop(inbox_of(s1, x), removed_for(s1, Set::<WakeId>::empty(), x));
    }
    assert(s2.inboxes =~= s1.inboxes);
    assert(s2.wakes =~= s1.wakes);
    assert(s2.alarms =~= s1.alarms);
}

/// After a context is unregistered for an identity, a dispatch to that
/// identity and context is refused with `HandlerNotFound` (once the
/// request itself is valid).
pub proof fn lemma_unregistered_dispatch_refused(
    s: TeamStoreView,
    id: Seq<char>,
    ctx: Seq<char>,
    payload_len: nat,
    timeout_ms: u32,
)
    requires
        ctx.len() > 0,
        payload_len <= MAX_PAYLOAD_BYTES,
        MIN_TIMEOUT_MS <= timeout_ms <= MAX_TIMEOUT_MS,
    ensures
        dispatch_refusal(spec_unregister(s, id, ctx), id, ctx, payload_len, timeout_ms) == Some(
            WakeErrorView::HandlerNotFound,
        ),
{
    let s2 = spec_unregister(s, id, ctx);
    if s.handlers.contains_key(id) && s.handlers[id].remove(ctx) != Set::<Seq<char>>::empty() {
        assert(!s2.handlers[id].contains(ctx));
    }
}

/// After a context is registered for an identity, a valid dispatch to that
/// identity and context is accepted.
pub proof fn lemma_registered_dispatch_accepted(
    s: TeamStoreView,
    id: Seq<char>,
    ctx: Seq<char>,
    payload_len: nat,
    timeout_ms: u32,
)
    requires
        ctx.len() > 0,
        payload_len <= MAX_PAYLOAD_BYTES,
        MIN_TIMEOUT_MS <= timeout_ms <= MAX_TIMEOUT_MS,
    ensures
        dispatch_refusal(spec_register(s, id, ctx), id, ctx, payload_len, timeout_ms) is None,
{
}

/// Registering the same handler twice is the same as registering it once.
pub proof fn lemma_register_idempotent(s: TeamStoreView, id: Seq<char>, ctx: Seq<char>)
    ensures
        spec_register(spec_register(s, id, ctx), id, ctx) == spec_register(s, id, ctx),
{
    let s1 = spec_register(s, id, ctx);
    assert(handlers_of(s1, id).insert(ctx) =~= handlers_of(s1, id));
    assert(s1.handlers.insert(id, handlers_of(s1, id).insert(ctx)) =~= s1.handlers);
}

/// Unregistering a context just registered restores the state, when the
/// identity did not handle that context before.
pub proof fn lemma_register_then_unregister(s: TeamStoreView, id: Seq<char>, ctx: Seq<char>)
    requires
        store_inv(s),
        !handlers_of(s, id).contains(ctx),
    ensures
        spec_unregister(spec_register(s, id, ctx), id, ctx) == s,
{
    let s1 = spec_register(s, id, ctx);
    let s2 = spec_unregister(s1, id, ctx);
    assert(s1.handlers[id].remove(ctx) =~= handlers_of(s, id));
    if s.handlers.contains_key(id) {
        assert(s.handlers[id] != Set::<Seq<char>>::empty());
        assert(s2.handlers =~= s.handlers);
    } else {
        assert(handlers_of(s, id) =~= Set::<Seq<char>>::empty());
        assert(s2.handlers =~= s.handlers);
    }
}

/// Reading the target's inbox right after a dispatch lists the new wake
/// last, when the page takes the whole inbox.
pub proof fn lemma_dispatch_then_read(
    s: TeamStoreView,
    caller: Seq<char>,
    target: Seq<char>,
    ctx: Seq<char>,
    payload: Seq<u8>,
    timeout_ms: u32,
    id: WakeId,
    now: u64,
    limit: nat,
)
    requires
        dispatch_refusal(s, target, ctx, payload.len(), timeout_ms) is None,
        limit >= inbox_of(spec_dispatch(s, caller, target, ctx, payload, timeout_ms, id, now), target).len(),
    ensures
        ({
            let s1 = spec_dispatch(s, caller, target, ctx, payload, timeout_ms, id, now);
            let page = summaries_of(s1, page_ids(s1, target, limit));
            page.len() > 0 && page.last() == summary_view(new_wake_view(caller, target, ctx, payload, timeout_ms, id, now))
        }),
{
    let s1 = spec_dispatch(s, caller, target, ctx, payload, timeout_ms, id, now);
    lemma_dispatch_then_complete(s, caller, target, ctx, payload, timeout_ms, id, now, seq![], target);
    assert(page_ids(s1, target, limit) == inbox_of(s1, target));
}

/// Team initialization is idempotent: once a team has metadata, later
/// requests (with any identifier and clock) leave it unchanged, and it
/// changes nothing else. A team without metadata gets the identifier and
/// time of its first initialization and the MVP tenancy prefix; in a
/// consistent state every team's prefix is that one.
pub proof fn lemma_init_idempotent(s: TeamStoreView, id1: Seq<char>, now1: i64, id2: Seq<char>, now2: i64)
    ensures
        spec_ensure_meta(spec_ensure_meta(s, id1, now1), id2, now2) == spec_ensure_meta(s, id1, now1),
        spec_ensure_meta(s, id1, now1).meta is Some,
        s.meta is None ==> spec_ensure_meta(s, id1, now1).meta == Some(initial_meta(id1, now1)),
        initial_meta(id1, now1).tenancy_prefix == TENANCY_PREFIX_MVP@,
        store_inv(s) ==> store_inv(spec_ensure_meta(s, id1, now1))
            && spec_ensure_meta(s, id1, now1).meta.unwrap().tenancy_prefix == TENANCY_PREFIX_MVP@,
        spec_ensure_meta(s, id1, now1).handlers == s.handlers && spec_ensure_meta(s, id1, now1).inboxes == s.inboxes
            && spec_ensure_meta(s, id1, now1).wakes == s.wakes && spec_ensure_meta(s, id1, now1).alarms == s.alarms,
{
    let s2 = spec_ensure_meta(s, id1, now1);
    if store_inv(s) {
        assert forall|w: WakeId| #[trigger] is_pending(s2, w) implies inbox_of(s2, s2.wakes[w].target_identity).contains(w)
            && slot_of(s2, s2.wakes[w].deadline() as u64).contains(w) by {
            assert(is_pending(s, w));
        }
        assert forall|x: Seq<char>| #[trigger] s2.inboxes.contains_key(x) implies inbox_ok(s2, x, s2.inboxes[x]) by {
            assert(inbox_ok(s, x, s.inboxes[x]));
        }
        assert forall|k: u64| #[trigger] s2.alarms.contains_key(k) implies slot_ok(s2, k, s2.alarms[k]) by {
            assert(slot_ok(s, k, s.alarms[k]));
        }
    }
}

/// Deleting a team's state and touching it again gives a fresh team:
/// no handlers, inboxes, wakes or alarms, and metadata stamped anew.
pub proof fn lemma_reset_then_touch(id: Seq<char>, now: i64)
    ensures
        spec_ensure_meta(empty_store(), id, now).meta == Some(crate::store::initial_meta(id, now)),
        spec_ensure_meta(empty_store(), id, now).handlers.dom().is_empty(),
        spec_ensure_meta(empty_store(), id, now).inboxes.dom().is_empty(),
        spec_ensure_meta(empty_store(), id, now).wakes.dom().is_empty(),
        spec_ensure_meta(empty_store(), id, now).alarms.dom().is_empty(),
        store_inv(spec_ensure_meta(empty_store(), id, now)),
{
}

/// Deleting an initialized team and initializing it again at least a
/// second later shows a different initialization time: the new time and
/// the old one, as the init and status answers render them, differ.
pub proof fn lemma_reset_then_reinit_new_time(s: TeamStoreView, id: Seq<char>, now: i64)
    requires
        s.meta is Some,
        0 <= s.meta.unwrap().created_at,
        s.meta.unwrap().created_at + 1000 <= now,
    ensures
        iso8601_text(spec_ensure_meta(empty_store(), id, now).meta.unwrap().created_at as u64 as int)
            != iso8601_text(s.meta.unwrap().created_at as u64 as int),
{
    let old = s.meta.unwrap().created_at;
    assert((old as u64) / 1000 < (now as u64) / 1000);
    lemma_iso8601_distinct_seconds(now as u64, old as u64);
}

/// Inboxes are bounded FIFO queues. A dispatch appends the new wake at
/// the tail of the target's inbox. When the inbox already holds
/// `INBOX_LIMIT` wakes, its head is evicted entirely: it leaves the inbox,
/// its row is deleted, and it leaves every alarm entry, an entry left empty
/// being removed. The inbox never grows past the limit. (When the new wake
/// is itself the head of a full inbox, its fresh row is written after the
/// eviction, so that case is left out.)
pub proof fn lemma_overflow_evicts_oldest(
    s: TeamStoreView,
    caller: Seq<char>,
    target: Seq<char>,
    ctx: Seq<char>,
    payload: Seq<u8>,
    timeout_ms: u32,
    id: WakeId,
    now: u64,
)
    requires
        dispatch_refusal(s, target, ctx, payload.len(), timeout_ms) is None,
        inbox_of(s, target).len() <= INBOX_LIMIT,
        inbox_of(s, target).len() == INBOX_LIMIT ==> inbox_of(s, target)[0] != id,
    ensures
        ({
            let inbox = inbox_of(s, target);
            let s1 = spec_dispatch(s, caller, target, ctx, payload, timeout_ms, id, now);
            let k0 = (now + timeout_ms) as u64;
            let a1 = s.alarms.insert(k0, slot_of(s, k0).push(id));
            &&& inbox_of(s1, target).len() <= INBOX_LIMIT
            &&& inbox_of(s1, target).last() == id
            &&& s1.wakes.contains_key(id)
            &&& inbox.len() < INBOX_LIMIT ==> evicted_by_push(inbox, id) is None
                && inbox_of(s1, target) == inbox.push(id)
            &&& inbox.len() == INBOX_LIMIT ==> {
                &&& evicted_by_push(inbox, id) == Some(inbox[0])
                &&& inbox_of(s1, target) == inbox.drop_first().push(id)
                &&& !s1.wakes.contains_key(inbox[0])
                &&& forall|k: u64| #[trigger] s1.alarms.contains_key(k) ==> !s1.alarms[k].contains(inbox[0])
                &&& forall|k: u64| #[trigger] s1.alarms.contains_key(k) && a1[k].contains(inbox[0]) ==> s1.alarms[k].len() > 0
            }
        }),
{
    let inbox = inbox_of(s, target);
    let s1 = spec_dispatch(s, caller, target, ctx, payload, timeout_ms, id, now);
    let k0 = (now + timeout_ms) as u64;
    let a1 = s.alarms.insert(k0, slot_of(s, k0).push(id));
    if inbox.len() == INBOX_LIMIT {
        let h = inbox[0];
        assert(inbox.push(id)[0] == h);
        assert(inbox.push(id).drop_first() =~= inbox.drop_first().push(id));
        assert(s1.alarms == alarms_drop(a1, h));
        assert forall|k: u64| #[trigger] s1.alarms.contains_key(k) implies !s1.alarms[k].contains(h) by {
            if a1[k].contains(h) {
                lemma_remove_all_in_contains(a1[k], set![h], h);
                assert(s1.alarms[k] == remove_all(a1[k], h));
            } else {
                assert(s1.alarms[k] == a1[k]);
            }
        }
        assert forall|k: u64| #[trigger] s1.alarms.contains_key(k) && a1[k].contains(h) implies s1.alarms[k].len() > 0 by {
            assert(s1.alarms[k] == remove_all(a1[k], h));
        }
    } else {
        assert(inbox_after_push(inbox, id) == inbox.push(id));
    }
}

/// After a dispatch at `now` with timeout `timeout_ms`, the alarm to set is
/// no later than the new wake's deadline `now + timeout_ms`, and no later
/// than any deadline in the queue. (The new wake being the evicted head
/// of a full inbox is left out.)
pub proof fn lemma_dispatch_alarm_by_deadline(
    s: TeamStoreView,
    caller: Seq<char>,
    target: Seq<char>,
    ctx: Seq<char>,
    payload: Seq<u8>,
    timeout_ms: u32,
    id: WakeId,
    now: u64,
)
    requires
        now <= u64::MAX - MAX_TIMEOUT_MS,
        timeout_ms <= MAX_TIMEOUT_MS,
        evicted_by_push(inbox_of(s, target), id) != Some(id),
    ensures
        ({
            let s1 = spec_dispatch(s, caller, target, ctx, payload, timeout_ms, id, now);
            &&& earliest_alarm(s1.alarms) matches Some(k) && k <= now + timeout_ms
                && s1.alarms.contains_key(k) && forall|k2: u64| s1.alarms.contains_key(k2) ==> k <= k2
        }),
{
    let s1 = spec_dispatch(s, caller, target, ctx, payload, timeout_ms, id, now);
    let k0 = (now + timeout_ms) as u64;
    let a1 = s.alarms.insert(k0, slot_of(s, k0).push(id));
    assert(a1[k0].contains(id)) by {
        assert(a1[k0][a1[k0].len() - 1] == id);
    }
    match evicted_by_push(inbox_of(s, target), id) {
        Some(ov) => {
            lemma_remove_all_in_contains(a1[k0], set![ov], id);
            assert(remove_all(a1[k0], ov).contains(id));
            assert(s1.alarms.contains_key(k0));
        },
        None => {
            assert(s1.alarms.contains_key(k0));
        },
    }
    lemma_earliest_alarm_is_min(s1.alarms);
}

/// An inbox page lists the oldest wakes first: it is the first
/// `min(limit, inbox length)` entries of the inbox, in inbox order.
pub proof fn lemma_page_is_oldest_prefix(s: TeamStoreView, x: Seq<char>, limit: nat)
    ensures
        page_ids(s, x, limit).len() == if limit < inbox_of(s, x).len() { limit } else { inbox_of(s, x).len() },
        forall|i: int| 0 <= i < page_ids(s, x, limit).len() ==> #[trigger] page_ids(s, x, limit)[i] == inbox_of(s, x)[i],
{
}

proof fn lemma_summaries_with_rows(s: TeamStoreView, ids: Seq<WakeId>)
    requires
        forall|i: int| 0 <= i < ids.len() ==> s.wakes.contains_key(#[trigger] ids[i]),
    ensures
        summaries_of(s, ids).len() == ids.len(),
        forall|i: int| 0 <= i < ids.len() ==> #[trigger] summaries_of(s, ids)[i] == summary_view(s.wakes[ids[i]]),
    decreases ids.len(),
{
    if ids.len() > 0 {
        let p = ids.drop_last();
        assert forall|i: int| 0 <= i < p.len() implies s.wakes.contains_key(#[trigger] p[i]) by {
            assert(p[i] == ids[i]);
        }
        lemma_summaries_with_rows(s, p);
        assert(s.wakes.contains_key(ids[ids.len() - 1]));
        assert forall|i: int| 0 <= i < ids.len() implies #[trigger] summaries_of(s, ids)[i] == summary_view(s.wakes[ids[i]]) by {
            if i < p.len() {
                assert(p[i] == ids[i]);
            }
        }
    }
}

/// In a consistent state, reading an inbox with `limit` lists exactly the
/// oldest `min(limit, inbox length)` wakes, oldest first: entry `i` of the
/// listing is the summary of inbox entry `i`.
pub proof fn lemma_read_lists_oldest_first(s: TeamStoreView, x: Seq<char>, limit: nat)
    requires
        store_inv(s),
    ensures
        ({
            let inbox = inbox_of(s, x);
            let listed = summaries_of(s, page_ids(s, x, limit));
            &&& listed.len() == if limit < inbox.len() { limit } else { inbox.len() }
            &&& forall|i: int| 0 <= i < listed.len() ==> #[trigger] listed[i] == summary_view(s.wakes[inbox[i]])
        }),
{
    let inbox = inbox_of(s, x);
    let page = page_ids(s, x, limit);
    lemma_page_is_oldest_prefix(s, x, limit);
    lemma_inbox_of_ok(s, x);
    assert forall|i: int| 0 <= i < page.len() implies s.wakes.contains_key(#[trigger] page[i]) by {
        assert(page[i] == inbox[i]);
        assert(inbox.contains(inbox[i]));
    }
    lemma_summaries_with_rows(s, page);
}

/// The plain sum of a list of depths.
pub open spec fn depth_sum(ds: Seq<u64>) -> int
    decreases ds.len(),
{
    if ds.len() == 0 {
        0
    } else {
        depth_sum(ds.drop_last()) + ds.last()
    }
}

/// The total inbox depth a status reports is the sum of the agents'
/// depths, capped at `u64::MAX`; for two agents it is `min(a + b, MAX)`.
pub proof fn lemma_total_depth_is_sum(ds: Seq<u64>)
    ensures
        saturating_total(ds) == if depth_sum(ds) > u64::MAX { u64::MAX as int } else { depth_sum(ds) },
        depth_sum(ds) >= 0,
    decreases ds.len(),
{
    if ds.len() > 0 {
        lemma_total_depth_is_sum(ds.drop_last());
    }
}

/// Two agents' depths add up, saturating.
pub proof fn lemma_total_depth_two(a: u64, b: u64)
    ensures
        saturating_total(seq![a, b]) == if a + b > u64::MAX { u64::MAX as int } else { a + b },
{
    let ds = seq![a, b];
    lemma_total_depth_is_sum(ds);
    assert(ds.drop_last() =~= seq![a]);
    assert(seq![a].drop_last() =~= Seq::<u64>::empty());
    assert(depth_sum(ds) == a + b) by {
        assert(depth_sum(seq![a]) == a) by {
            assert(depth_sum(Seq::<u64>::empty()) == 0);
        }
    }
}

} // verus!
