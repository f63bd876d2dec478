//! Which storage keys each team operation reads and writes.
//!
//! A team's state lives in its object's storage, one row per key: the
//! handlers of an identity, the inbox of an identity, one wake row per
//! wake, and the alarm queue. A request loads only some rows into a
//! `TeamStore`. The laws here say that loading the rows an operation reads
//! is enough: on any two states that agree on those rows the operation
//! decides the same way and writes the same values, and it leaves every
//! other row as it was.

use vstd::prelude::*;
use crate::store::{
    TeamStoreView, inbox_of, handlers_of, spec_register, spec_unregister, spec_dispatch, dispatch_refusal,
    evicted_by_push, completion_refusal, spec_complete, spec_fire, due_ids, timed_out_ids, removed_for,
    summaries_of, page_ids,
};
use crate::seqs::lemma_remove_all_in_noop;
use crate::wake::WakeId;

verus! {

/// A key of the team's storage.
pub enum StorageKey {
    /// `agent:{identity}:handlers`
    Handlers(Seq<char>),
    /// `agent:{identity}:inbox`
    Inbox(Seq<char>),
    /// `wake:{wake_id}`
    Wake(WakeId),
    /// `alarm_queue`
    AlarmQueue,
}

/// `s` and `t` hold the same row (or both none) under `k`.
pub open spec fn same_row(s: TeamStoreView, t: TeamStoreView, k: StorageKey) -> bool {
    match k {
        StorageKey::Handlers(x) => s.handlers.contains_key(x) == t.handlers.contains_key(x)
            && (s.handlers.contains_key(x) ==> s.handlers[x] == t.handlers[x]),
        StorageKey::Inbox(x) => s.inboxes.contains_key(x) == t.inboxes.contains_key(x)
            && (s.inboxes.contains_key(x) ==> s.inboxes[x] == t.inboxes[x]),
        StorageKey::Wake(w) => s.wakes.contains_key(w) == t.wakes.contains_key(w)
            && (s.wakes.contains_key(w) ==> s.wakes[w] == t.wakes[w]),
        StorageKey::AlarmQueue => s.alarms == t.alarms,
    }
}

/// `s` and `t` agree on every key of `keys`.
pub open spec fn agree_on(s: TeamStoreView, t: TeamStoreView, keys: Set<StorageKey>) -> bool {
    forall|k: StorageKey| #[trigger] keys.contains(k) ==> same_row(s, t, k)
}

/// Every key outside `keys` holds the same row in `s` and `t`.
pub open spec fn unchanged_outside(s: TeamStoreView, t: TeamStoreView, keys: Set<StorageKey>) -> bool {
    &&& s.meta == t.meta
    &&& forall|k: StorageKey| !keys.contains(k) ==> #[trigger] same_row(s, t, k)
}

/// Rows a registration or unregistration reads and writes.
pub open spec fn handler_keys(id: Seq<char>) -> Set<StorageKey> {
    set![StorageKey::Handlers(id)]
}

/// Rows a dispatch to `target` reads.
pub open spec fn dispatch_reads(target: Seq<char>) -> Set<StorageKey> {
    set![StorageKey::Handlers(target), StorageKey::Inbox(target), StorageKey::AlarmQueue]
}

/// Rows a dispatch of `id` to `target` writes: the inbox, the alarm queue,
/// the new wake row and, on overflow, the evicted wake's row (deleted).
pub open spec fn dispatch_writes(s: TeamStoreView, target: Seq<char>, id: WakeId) -> Set<StorageKey> {
    let base = set![StorageKey::Inbox(target), StorageKey::AlarmQueue, StorageKey::Wake(id)];
    match evicted_by_push(inbox_of(s, target), id) {
        Some(ov) => base.insert(StorageKey::Wake(ov)),
        None => base,
    }
}

/// Rows a completion of `id` reads and writes: the wake row, its target's
/// inbox (when the row exists) and the alarm queue.
pub open spec fn completion_keys(s: TeamStoreView, id: WakeId) -> Set<StorageKey> {
    if s.wakes.contains_key(id) {
        set![StorageKey::Wake(id), StorageKey::Inbox(s.wakes[id].target_identity), StorageKey::AlarmQueue]
    } else {
        set![StorageKey::Wake(id), StorageKey::AlarmQueue]
    }
}

/// Registration reads and writes only the identity's handlers row.
pub proof fn lemma_register_footprint(s: TeamStoreView, t: TeamStoreView, id: Seq<char>, ctx: Seq<char>)
    requires
        agree_on(s, t, handler_keys(id)),
    ensures
        agree_on(spec_register(s, id, ctx), spec_register(t, id, ctx), handler_keys(id)),
        unchanged_outside(spec_register(s, id, ctx), s, handler_keys(id)),
{
    assert(handler_keys(id).contains(StorageKey::Handlers(id)));
    assert(same_row(s, t, StorageKey::Handlers(id)));
    let s1 = spec_register(s, id, ctx);
    let t1 = spec_register(t, id, ctx);
    assert forall|k: StorageKey| #[trigger] handler_keys(id).contains(k) implies same_row(s1, t1, k) by {
        assert(k == StorageKey::Handlers(id));
        assert(handlers_of(s, id) == handlers_of(t, id));
    }
    assert forall|k: StorageKey| !handler_keys(id).contains(k) implies #[trigger] same_row(s1, s, k) by {
        if let StorageKey::Handlers(x) = k {
            assert(x != id);
        }
    }
}

/// Unregistration reads and writes only the identity's handlers row.
pub proof fn lemma_unregister_footprint(s: TeamStoreView, t: TeamStoreView, id: Seq<char>, ctx: Seq<char>)
    requires
        agree_on(s, t, handler_keys(id)),
    ensures
        agree_on(spec_unregister(s, id, ctx), spec_unregister(t, id, ctx), handler_keys(id)),
        unchanged_outside(spec_unregister(s, id, ctx), s, handler_keys(id)),
{
    assert(handler_keys(id).contains(StorageKey::Handlers(id)));
    assert(same_row(s, t, StorageKey::Handlers(id)));
    let s1 = spec_unregister(s, id, ctx);
    let t1 = spec_unregister(t, id, ctx);
    assert forall|k: StorageKey| #[trigger] handler_keys(id).contains(k) implies same_row(s1, t1, k) by {
        assert(k == StorageKey::Handlers(id));
    }
    assert forall|k: StorageKey| !handler_keys(id).contains(k) implies #[trigger] same_row(s1, s, k) by {
        if let StorageKey::Handlers(x) = k {
            assert(x != id);
        }
    }
}

/// A dispatch reads only the target's handlers and inbox and the alarm
/// queue: on states that agree there it is refused alike, and it writes
/// the same rows; it changes nothing outside its written rows.
pub proof fn lemma_dispatch_footprint(
    s: TeamStoreView,
    t: TeamStoreView,
    caller: Seq<char>,
    target: Seq<char>,
    ctx: Seq<char>,
    payload: Seq<u8>,
    timeout_ms: u32,
    id: WakeId,
    now: u64,
)
    requires
        agree_on(s, t, dispatch_reads(target)),
    ensures
        dispatch_refusal(s, target, ctx, payload.len(), timeout_ms) == dispatch_refusal(t, target, ctx, payload.len(), timeout_ms),
        dispatch_writes(s, target, id) == dispatch_writes(t, target, id),
        agree_on(
            spec_dispatch(s, caller, target, ctx, payload, timeout_ms, id, now),
            spec_dispatch(t, caller, target, ctx, payload, timeout_ms, id, now),
            dispatch_writes(s, target, id),
        ),
        unchanged_outside(spec_dispatch(s, caller, target, ctx, payload, timeout_ms, id, now), s, dispatch_writes(s, target, id)),
{
    assert(dispatch_reads(target).contains(StorageKey::Handlers(target)));
    assert(same_row(s, t, StorageKey::Handlers(target)));
    assert(dispatch_reads(target).contains(StorageKey::Inbox(target)));
    assert(same_row(s, t, StorageKey::Inbox(target)));
    assert(dispatch_reads(target).contains(StorageKey::AlarmQueue));
    assert(same_row(s, t, StorageKey::AlarmQueue));
    assert(handlers_of(s, target) == handlers_of(t, target));
    assert(inbox_of(s, target) == inbox_of(t, target));
    let s1 = spec_dispatch(s, caller, target, ctx, payload, timeout_ms, id, now);
    let t1 = spec_dispatch(t, caller, target, ctx, payload, timeout_ms, id, now);
    let w = dispatch_writes(s, target, id);
    assert forall|k: StorageKey| #[trigger] w.contains(k) implies same_row(s1, t1, k) by {
    }
    assert forall|k: StorageKey| !w.contains(k) implies #[trigger] same_row(s1, s, k) by {
        match k {
            StorageKey::Inbox(x) => {
                assert(x != target);
            },
            StorageKey::Wake(v) => {
                assert(v != id);
            },
            _ => {},
        }
    }
}

/// A completion of `id` reads only the wake's row, its target's inbox and
/// the alarm queue: on states that agree there it is refused alike, and it
/// writes the same rows; it changes nothing else.
pub proof fn lemma_complete_footprint(s: TeamStoreView, t: TeamStoreView, id: WakeId, by: Seq<char>, resp: Seq<u8>)
    requires
        agree_on(s, t, completion_keys(s, id)),
    ensures
        completion_refusal(s, id, by) == completion_refusal(t, id, by),
        completion_keys(s, id) == completion_keys(t, id),
        completion_refusal(s, id, by) is None ==> agree_on(spec_complete(s, id, resp), spec_complete(t, id, resp), completion_keys(s, id))
            && unchanged_outside(spec_complete(s, id, resp), s, completion_keys(s, id)),
{
    assert(completion_keys(s, id).contains(StorageKey::Wake(id)));
    assert(completion_keys(s, id).contains(StorageKey::AlarmQueue));
    assert(same_row(s, t, StorageKey::Wake(id)));
    assert(same_row(s, t, StorageKey::AlarmQueue));
    if s.wakes.contains_key(id) {
        let x = s.wakes[id].target_identity;
        assert(completion_keys(s, id).contains(StorageKey::Inbox(x)));
        assert(same_row(s, t, StorageKey::Inbox(x)));
        assert(inbox_of(s, x) == inbox_of(t, x));
        if completion_refusal(s, id, by) is None {
            let s1 = spec_complete(s, id, resp);
            let t1 = spec_complete(t, id, resp);
            let keys = completion_keys(s, id);
            assert forall|k: StorageKey| #[trigger] keys.contains(k) implies same_row(s1, t1, k) by {
            }
            assert forall|k: StorageKey| !keys.contains(k) implies #[trigger] same_row(s1, s, k) by {
                match k {
                    StorageKey::Inbox(y) => {
                        assert(y != x);
                    },
                    StorageKey::Wake(v) => {
                        assert(v != id);
                    },
                    _ => {},
                }
            }
        }
    }
}

/// Rows an alarm at `now` reads and writes: the alarm queue, the rows of
/// the wakes due by then, and the inboxes of the targets of those that
/// time out.
pub open spec fn fire_keys(s: TeamStoreView, now: u64) -> Set<StorageKey> {
    Set::new(|k: StorageKey| match k {
        StorageKey::AlarmQueue => true,
        StorageKey::Wake(w) => due_ids(s, now).contains(w),
        StorageKey::Inbox(x) => timeout_target(s, now, x),
        StorageKey::Handlers(_) => false,
    })
}

/// Some wake that an alarm at `now` times out targets `x`.
pub open spec fn timeout_target(s: TeamStoreView, now: u64, x: Seq<char>) -> bool {
    exists|w: WakeId| #[trigger] timed_out_ids(s, now).contains(w) && s.wakes[w].target_identity == x
}

/// An alarm reads only the alarm queue, the due wakes' rows and their
/// targets' inboxes: on states that agree there it writes the same rows,
/// and it changes nothing else.
pub proof fn lemma_fire_footprint(s: TeamStoreView, t: TeamStoreView, now: u64)
    requires
        agree_on(s, t, fire_keys(s, now)),
    ensures
        fire_keys(s, now) == fire_keys(t, now),
        agree_on(spec_fire(s, now), spec_fire(t, now), fire_keys(s, now)),
        unchanged_outside(spec_fire(s, now), s, fire_keys(s, now)),
{
    let keys = fire_keys(s, now);
    assert(keys.contains(StorageKey::AlarmQueue));
    assert(same_row(s, t, StorageKey::AlarmQueue));
    assert(due_ids(s, now) =~= due_ids(t, now));
    let ts = timed_out_ids(s, now);
    assert forall|w: WakeId| due_ids(s, now).contains(w) implies #[trigger] same_row(s, t, StorageKey::Wake(w)) by {
        assert(keys.contains(StorageKey::Wake(w)));
    }
    assert(ts =~= timed_out_ids(t, now)) by {
        assert forall|w: WakeId| ts.contains(w) <==> timed_out_ids(t, now).contains(w) by {
            if due_ids(s, now).contains(w) {
                assert(same_row(s, t, StorageKey::Wake(w)));
            }
        }
    }
    assert(keys =~= fire_keys(t, now)) by {
        assert forall|k: StorageKey| keys.contains(k) <==> fire_keys(t, now).contains(k) by {
            if let StorageKey::Inbox(x) = k {
                if keys.contains(k) {
                    let w = choose|w: WakeId| #[trigger] ts.contains(w) && s.wakes[w].target_identity == x;
                    assert(same_row(s, t, StorageKey::Wake(w)));
                    assert(timed_out_ids(t, now).contains(w) && t.wakes[w].target_identity == x);
                }
                if fire_keys(t, now).contains(k) {
                    let w = choose|w: WakeId| #[trigger] timed_out_ids(t, now).contains(w) && t.wakes[w].target_identity == x;
                    assert(same_row(s, t, StorageKey::Wake(w)));
                    assert(ts.contains(w) && s.wakes[w].target_identity == x);
                }
            }
        }
    }
    let s1 = spec_fire(s, now);
    let t1 = spec_fire(t, now);
    assert forall|k: StorageKey| #[trigger] keys.contains(k) implies same_row(s1, t1, k) by {
        match k {
            StorageKey::Wake(w) => {
                assert(same_row(s, t, StorageKey::Wake(w)));
            },
            StorageKey::Inbox(x) => {
                let w = choose|w: WakeId| #[trigger] ts.contains(w) && s.wakes[w].target_identity == x;
                assert(same_row(s, t, StorageKey::Inbox(x)));
                assert(same_row(s, t, StorageKey::Wake(w)));
                assert(t.wakes[w].target_identity == x);
                assert(inbox_of(s, x) == inbox_of(t, x));
                assert(removed_for(s, ts, x) =~= removed_for(t, ts, x)) by {
                    assert forall|v: WakeId| ts.contains(v) implies s.wakes[v].target_identity == t.wakes[v].target_identity by {
                        assert(same_row(s, t, StorageKey::Wake(v)));
                    }
                }
            },
            _ => {},
        }
    }
    assert forall|k: StorageKey| !keys.contains(k) implies #[trigger] same_row(s1, s, k) by {
        match k {
            StorageKey::Inbox(x) => {
                assert(removed_for(s, ts, x) =~= Set::<WakeId>::empty());
                lemma_remove_all_in_noop(inbox_of(s, x), Set::<WakeId>::empty());
                if s1.inboxes.contains_key(x) && !s.inboxes.contains_key(x) {
                    let w = choose|w: WakeId| ts.contains(w) && #[trigger] s.wakes[w].target_identity == x;
                    assert(keys.contains(StorageKey::Inbox(x)));
                }
            },
            _ => {},
        }
    }
}

/// Rows a read of the inbox of `x` (first `limit` entries) reads: the
/// inbox and the rows of the wakes listed on the page.
pub open spec fn read_keys(s: TeamStoreView, x: Seq<char>, limit: nat) -> Set<StorageKey> {
    Set::new(|k: StorageKey| match k {
        StorageKey::Inbox(y) => y == x,
        StorageKey::Wake(w) => page_ids(s, x, limit).contains(w),
        _ => false,
    })
}

proof fn lemma_summaries_agree(s: TeamStoreView, t: TeamStoreView, ids: Seq<WakeId>)
    requires
        forall|i: int| 0 <= i < ids.len() ==> #[trigger] same_row(s, t, StorageKey::Wake(ids[i])),
    ensures
        summaries_of(s, ids) == summaries_of(t, ids),
    decreases ids.len(),
{
    if ids.len() > 0 {
        let p = ids.drop_last();
        assert forall|i: int| 0 <= i < p.len() implies #[trigger] same_row(s, t, StorageKey::Wake(p[i])) by {
            assert(p[i] == ids[i]);
            assert(same_row(s, t, StorageKey::Wake(ids[i])));
        }
        lemma_summaries_agree(s, t, p);
        assert(same_row(s, t, StorageKey::Wake(ids[ids.len() - 1])));
    }
}

/// Reading an inbox reads only the inbox and the listed wakes' rows: on
/// states that agree there the page, its summaries and the inbox depth
/// are the same. A read writes nothing.
pub proof fn lemma_read_footprint(s: TeamStoreView, t: TeamStoreView, x: Seq<char>, limit: nat)
    requires
        agree_on(s, t, read_keys(s, x, limit)),
    ensures
        read_keys(s, x, limit) == read_keys(t, x, limit),
        page_ids(s, x, limit) == page_ids(t, x, limit),
        summaries_of(s, page_ids(s, x, limit)) == summaries_of(t, page_ids(t, x, limit)),
        inbox_of(s, x).len() == inbox_of(t, x).len(),
{
    let keys = read_keys(s, x, limit);
    assert(keys.contains(StorageKey::Inbox(x)));
    assert(same_row(s, t, StorageKey::Inbox(x)));
    assert(inbox_of(s, x) == inbox_of(t, x));
    let ids = page_ids(s, x, limit);
    assert(ids == page_ids(t, x, limit));
    assert(keys =~= read_keys(t, x, limit));
    assert forall|i: int| 0 <= i < ids.len() implies #[trigger] same_row(s, t, StorageKey::Wake(ids[i])) by {
        assert(ids.contains(ids[i]));
        assert(keys.contains(StorageKey::Wake(ids[i])));
    }
    lemma_summaries_agree(s, t, ids);
}

} // verus!
