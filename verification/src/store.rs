//! The state of one team's wake router and the operations on it.
//!
//! A team's durable state consists of
//! - `team:meta` — the team metadata;
//! - `agent:{identity}:handlers` — the contexts an identity handles;
//! - `agent:{identity}:inbox` — FIFO of pending wakes targeting the identity;
//! - `wake:{wake_id}` — one row per wake;
//! - `alarm_queue` — wake identifiers grouped by absolute deadline.
//!
//! [`TeamStore`] holds these tables; its operations compute exactly the
//! writes that dispatching, completing, timing out, registering and
//! reading perform. The mathematical model is [`TeamStoreView`].

use std::collections::VecDeque;
use vstd::prelude::*;
use crate::kvmap::{pm_distinct, pm_map, lemma_pm_at, lemma_pm_absent, lemma_pm_empty, lemma_pm_update, lemma_pm_push, lemma_pm_remove};
use crate::core_types::{TeamMeta, TeamMetaView};
use crate::wake::{WakeId, WakeRecord, WakeRecordView, WakeState};
use crate::consts::{INBOX_LIMIT, MAX_PAYLOAD_BYTES, MAX_TIMEOUT_MS, MIN_TIMEOUT_MS};
use crate::errors::{TallyError, TallyErrorView, WakeError, WakeErrorView};
use crate::seqs::{remove_all, remove_all_in, vec_without, lemma_remove_all_in_contains, lemma_remove_all_in_noop, lemma_remove_all_in_union};
use crate::text::{decimal, push_decimal, push_str};
use crate::rpc::{InitTeamResponse, ReadInboxResponse, RegisteredAgent, TeamStatusResponse, WakeSummary, WakeSummaryView};
use crate::codec::{b64_encoding, b64_encode_bytes};
use crate::wake::wake_id_text;

verus! {

/// The contexts one identity is registered for.
#[derive(Debug)]
pub struct HandlerEntry {
    pub identity: String,
    pub contexts: Vec<String>,
}

/// One identity's inbox: pending wake identifiers, oldest first.
#[derive(Debug)]
pub struct InboxEntry {
    pub identity: String,
    pub wakes: VecDeque<WakeId>,
}

/// The wakes whose deadline is `at` (unix milliseconds).
#[derive(Debug)]
pub struct AlarmSlot {
    pub at: u64,
    pub wakes: Vec<WakeId>,
}

/// All durable state of one team.
#[derive(Debug)]
pub struct TeamStore {
    meta: Option<TeamMeta>,
    handlers: Vec<HandlerEntry>,
    inboxes: Vec<InboxEntry>,
    wakes: Vec<WakeRecord>,
    alarms: Vec<AlarmSlot>,
}

/// Mathematical model of a team's durable state.
pub struct TeamStoreView {
    pub meta: Option<TeamMetaView>,
    /// identity → contexts it handles
    pub handlers: Map<Seq<char>, Set<Seq<char>>>,
    /// identity → pending wakes targeting it, oldest first
    pub inboxes: Map<Seq<char>, Seq<WakeId>>,
    /// wake id → wake row
    pub wakes: Map<WakeId, WakeRecordView>,
    /// deadline → wakes due then
    pub alarms: Map<u64, Seq<WakeId>>,
}

/// The set of strings in a vector.
pub open spec fn strings_set(v: Seq<String>) -> Set<Seq<char>> {
    Set::new(|c: Seq<char>| exists|i: int| 0 <= i < v.len() && (#[trigger] v[i])@ == c)
}

pub open spec fn handler_pairs(v: Seq<HandlerEntry>) -> Seq<(Seq<char>, Set<Seq<char>>)> {
    Seq::new(v.len(), |i: int| (v[i].identity@, strings_set(v[i].contexts@)))
}

pub open spec fn inbox_pairs(v: Seq<InboxEntry>) -> Seq<(Seq<char>, Seq<WakeId>)> {
    Seq::new(v.len(), |i: int| (v[i].identity@, v[i].wakes@))
}

pub open spec fn wake_pairs(v: Seq<WakeRecord>) -> Seq<(WakeId, WakeRecordView)> {
    Seq::new(v.len(), |i: int| (v[i].wake_id, v[i]@))
}

pub open spec fn alarm_pairs(v: Seq<AlarmSlot>) -> Seq<(u64, Seq<WakeId>)> {
    Seq::new(v.len(), |i: int| (v[i].at, v[i].wakes@))
}

/// The inbox of `id` (empty when never written).
pub open spec fn inbox_of(s: TeamStoreView, id: Seq<char>) -> Seq<WakeId> {
    if s.inboxes.contains_key(id) {
        s.inboxes[id]
    } else {
        Seq::empty()
    }
}

/// The contexts `id` handles (none when never registered).
pub open spec fn handlers_of(s: TeamStoreView, id: Seq<char>) -> Set<Seq<char>> {
    if s.handlers.contains_key(id) {
        s.handlers[id]
    } else {
        Set::empty()
    }
}

/// The wakes due at `k`.
pub open spec fn slot_of(s: TeamStoreView, k: u64) -> Seq<WakeId> {
    if s.alarms.contains_key(k) {
        s.alarms[k]
    } else {
        Seq::empty()
    }
}

/// Registering `ctx` for `id` adds it to the identity's handled contexts.
pub open spec fn spec_register(s: TeamStoreView, id: Seq<char>, ctx: Seq<char>) -> TeamStoreView {
    TeamStoreView { handlers: s.handlers.insert(id, handlers_of(s, id).insert(ctx)), ..s }
}

/// Unregistering `ctx` for `id` removes it; an identity left with no
/// context loses its entry; an unknown identity is left alone.
pub open spec fn spec_unregister(s: TeamStoreView, id: Seq<char>, ctx: Seq<char>) -> TeamStoreView {
    if !s.handlers.contains_key(id) {
        s
    } else if s.handlers[id].remove(ctx) == Set::<Seq<char>>::empty() {
        TeamStoreView { handlers: s.handlers.remove(id), ..s }
    } else {
        TeamStoreView { handlers: s.handlers.insert(id, s.handlers[id].remove(ctx)), ..s }
    }
}

impl TeamStore {
    pub closed spec fn view(&self) -> TeamStoreView {
        TeamStoreView {
            meta: match self.meta {
                Some(m) => Some(m@),
                None => None,
            },
            handlers: pm_map(handler_pairs(self.handlers@)),
            inboxes: pm_map(inbox_pairs(self.inboxes@)),
            wakes: pm_map(wake_pairs(self.wakes@)),
            alarms: pm_map(alarm_pairs(self.alarms@)),
        }
    }

    /// Keys are distinct in every table, and every deadline fits in `u64`.
    pub closed spec fn wf(&self) -> bool {
        &&& pm_distinct(handler_pairs(self.handlers@))
        &&& pm_distinct(inbox_pairs(self.inboxes@))
        &&& pm_distinct(wake_pairs(self.wakes@))
        &&& pm_distinct(alarm_pairs(self.alarms@))
        &&& forall|i: int|
            0 <= i < self.wakes@.len() ==> (#[trigger] self.wakes@[i]).created_at
                + self.wakes@[i].timeout_ms <= u64::MAX
    }

    /// Every wake row is stored under its own identifier.
    pub proof fn lemma_rows_keyed_by_id(&self)
        requires
            self.wf(),
        ensures
            forall|w: WakeId| #[trigger] self.view().wakes.contains_key(w) ==> self.view().wakes[w].wake_id == w,
    {
        let wp = wake_pairs(self.wakes@);
        assert forall|w: WakeId| #[trigger] self.view().wakes.contains_key(w) implies self.view().wakes[w].wake_id == w by {
            let j = crate::kvmap::pm_index(wp, w);
            lemma_pm_at(wp, j);
        }
    }

    /// An empty store.
    pub fn new() -> (s: TeamStore)
        ensures
            s.wf(),
            s.view() == empty_store(),
    {
        let s = TeamStore {
            meta: None,
            handlers: Vec::new(),
            inboxes: Vec::new(),
            wakes: Vec::new(),
            alarms: Vec::new(),
        };
        proof {
            lemma_pm_empty::<Seq<char>, Set<Seq<char>>>();
            lemma_pm_empty::<Seq<char>, Seq<WakeId>>();
            lemma_pm_empty::<WakeId, WakeRecordView>();
            lemma_pm_empty::<u64, Seq<WakeId>>();
            assert(handler_pairs(s.handlers@) =~= Seq::empty());
            assert(inbox_pairs(s.inboxes@) =~= Seq::empty());
            assert(wake_pairs(s.wakes@) =~= Seq::empty());
            assert(alarm_pairs(s.alarms@) =~= Seq::empty());
        }
        s
    }

    fn find_handler(&self, identity: &String) -> (r: Option<usize>)
        ensures
            match r {
                Some(i) => i < self.handlers@.len() && self.handlers@[i as int].identity@ == identity@,
                None => forall|j: int|
                    0 <= j < self.handlers@.len() ==> (#[trigger] self.handlers@[j]).identity@ != identity@,
            },
    {
        let mut i: usize = 0;
        while i < self.handlers.len()
            invariant
                i <= self.handlers@.len(),
                forall|j: int| 0 <= j < i ==> (#[trigger] self.handlers@[j]).identity@ != identity@,
            decreases self.handlers@.len() - i,
        {
            if self.handlers[i].identity == *identity {
                return Some(i);
            }
            i = i + 1;
        }
        None
    }

    fn find_inbox(&self, identity: &String) -> (r: Option<usize>)
        ensures
            match r {
                Some(i) => i < self.inboxes@.len() && self.inboxes@[i as int].identity@ == identity@,
                None => forall|j: int|
                    0 <= j < self.inboxes@.len() ==> (#[trigger] self.inboxes@[j]).identity@ != identity@,
            },
    {
        let mut i: usize = 0;
        while i < self.inboxes.len()
            invariant
                i <= self.inboxes@.len(),
                forall|j: int| 0 <= j < i ==> (#[trigger] self.inboxes@[j]).identity@ != identity@,
            decreases self.inboxes@.len() - i,
        {
            if self.inboxes[i].identity == *identity {
                return Some(i);
            }
            i = i + 1;
        }
        None
    }

    fn find_wake(&self, id: WakeId) -> (r: Option<usize>)
        ensures
            match r {
                Some(i) => i < self.wakes@.len() && self.wakes@[i as int].wake_id == id,
                None => forall|j: int|
                    0 <= j < self.wakes@.len() ==> (#[trigger] self.wakes@[j]).wake_id != id,
            },
    {
        let mut i: usize = 0;
        while i < self.wakes.len()
            invariant
                i <= self.wakes@.len(),
                forall|j: int| 0 <= j < i ==> (#[trigger] self.wakes@[j]).wake_id != id,
            decreases self.wakes@.len() - i,
        {
            if self.wakes[i].wake_id == id {
                return Some(i);
            }
            i = i + 1;
        }
        None
    }

    fn find_alarm(&self, at: u64) -> (r: Option<usize>)
        ensures
            match r {
                Some(i) => i < self.alarms@.len() && self.alarms@[i as int].at == at,
                None => forall|j: int|
                    0 <= j < self.alarms@.len() ==> (#[trigger] self.alarms@[j]).at != at,
            },
    {
        let mut i: usize = 0;
        while i < self.alarms.len()
            invariant
                i <= self.alarms@.len(),
                forall|j: int| 0 <= j < i ==> (#[trigger] self.alarms@[j]).at != at,
            decreases self.alarms@.len() - i,
        {
            if self.alarms[i].at == at {
                return Some(i);
            }
            i = i + 1;
        }
        None
    }

    /// Registers `context` as handled by `identity`.
    pub fn register_handler(&mut self, identity: &String, context: &String)
        requires
            old(self).wf(),
        ensures
            final(self).wf(),
            final(self).view() == spec_register(old(self).view(), identity@, context@),
    {
        let ghost s0 = self.view();
        match self.find_handler(identity) {
            Some(i) => {
                proof {
                    lemma_pm_at(handler_pairs(self.handlers@), i as int);
                }
                let mut e = self.handlers.remove(i);
                if !strings_contain(&e.contexts, context) {
                    e.contexts.push(context.clone());
                }
                let ghost e_set = strings_set(e.contexts@);
                let ghost old_pairs = handler_pairs(old(self).handlers@);
                proof {
                    assert(e_set =~= s0.handlers[identity@].insert(context@)) by {
                        assert forall|c: Seq<char>| #[trigger] e_set.contains(c) <==> s0.handlers[identity@].insert(context@).contains(c) by {
                            if e_set.contains(c) && c != context@ {
                                let j = choose|j: int| 0 <= j < e.contexts@.len() && (#[trigger] e.contexts@[j])@ == c;
                                assert(old(self).handlers@[i as int].contexts@[j] == e.contexts@[j]);
                            }
                            if s0.handlers[identity@].contains(c) {
                                let j = choose|j: int| 0 <= j < old(self).handlers@[i as int].contexts@.len() && (#[trigger] old(self).handlers@[i as int].contexts@[j])@ == c;
                                assert(e.contexts@[j] == old(self).handlers@[i as int].contexts@[j]);
                            }
                            if c == context@ && !strings_set(old(self).handlers@[i as int].contexts@).contains(context@) {
                                assert(e.contexts@[e.contexts@.len() - 1] == *context);
                            }
                        }
                    }
                }
                self.handlers.insert(i, e);
                proof {
                    lemma_pm_update(old_pairs, i as int, e_set);
                    assert(handler_pairs(self.handlers@) =~= old_pairs.update(i as int, (old_pairs[i as int].0, e_set)));
                    assert(self.view() =~= spec_register(s0, identity@, context@));
                }
            },
            None => {
                let mut ctxs: Vec<String> = Vec::new();
                ctxs.push(context.clone());
                let e = HandlerEntry { identity: identity.clone(), contexts: ctxs };
                let ghost old_pairs = handler_pairs(self.handlers@);
                proof {
                    assert forall|j: int| 0 <= j < old_pairs.len() implies (#[trigger] old_pairs[j]).0 != identity@ by {
                        assert(old_pairs[j].0 == self.handlers@[j].identity@);
                    }
                    lemma_pm_absent(old_pairs, identity@);
                    assert(strings_set(e.contexts@) =~= Set::<Seq<char>>::empty().insert(context@)) by {
                        assert(e.contexts@[0] == *context);
                    }
                    lemma_pm_push(old_pairs, identity@, strings_set(e.contexts@));
                }
                self.handlers.push(e);
                proof {
                    assert(handler_pairs(self.handlers@) =~= old_pairs.push((identity@, strings_set(e.contexts@))));
                    assert(self.view() =~= spec_register(s0, identity@, context@));
                }
            },
        }
    }
}

impl TeamStore {
    /// Unregisters `context` for `identity`.
    pub fn unregister_handler(&mut self, identity: &String, context: &String)
        requires
            old(self).wf(),
        ensures
            final(self).wf(),
            final(self).view() == spec_unregister(old(self).view(), identity@, context@),
    {
        let ghost s0 = self.view();
        let ghost old_pairs = handler_pairs(self.handlers@);
        match self.find_handler(identity) {
            None => {
                proof {
                    assert forall|j: int| 0 <= j < old_pairs.len() implies (#[trigger] old_pairs[j]).0 != identity@ by {
                        assert(old_pairs[j].0 == self.handlers@[j].identity@);
                    }
                    lemma_pm_absent(old_pairs, identity@);
                }
            },
            Some(i) => {
                proof {
                    lemma_pm_at(old_pairs, i as int);
                }
                let e = self.handlers.remove(i);
                let rest = strings_without(&e.contexts, context);
                if rest.len() == 0 {
                    proof {
                        lemma_pm_remove(old_pairs, i as int);
                        assert(handler_pairs(self.handlers@) =~= old_pairs.remove(i as int));
                        assert(self.view() =~= spec_unregister(s0, identity@, context@));
                    }
                } else {
                    let ghost rs = strings_set(rest@);
                    let ne = HandlerEntry { identity: e.identity, contexts: rest };
                    self.handlers.insert(i, ne);
                    proof {
                        lemma_pm_update(old_pairs, i as int, rs);
                        assert(handler_pairs(self.handlers@) =~= old_pairs.update(i as int, (old_pairs[i as int].0, rs)));
                        assert(self.view() =~= spec_unregister(s0, identity@, context@));
                    }
                }
            },
        }
    }
}

/// Copy of `v` without the strings equal to `c`.
fn strings_without(v: &Vec<String>, c: &String) -> (r: Vec<String>)
    ensures
        strings_set(r@) == strings_set(v@).remove(c@),
        (r@.len() == 0) == (strings_set(r@) == Set::<Seq<char>>::empty()),
{
    let mut r: Vec<String> = Vec::new();
    let mut i: usize = 0;
    while i < v.len()
        invariant
            i <= v@.len(),
            strings_set(r@) == strings_set(v@.subrange(0, i as int)).remove(c@),
        decreases v@.len() - i,
    {
        let ghost sub0 = v@.subrange(0, i as int);
        let ghost sub1 = v@.subrange(0, i as int + 1);
        proof {
            assert(strings_set(sub1) =~= strings_set(sub0).insert(v@[i as int]@)) by {
                assert forall|x: Seq<char>| #[trigger] strings_set(sub1).contains(x) <==> strings_set(sub0).insert(v@[i as int]@).contains(x) by {
                    if strings_set(sub1).contains(x) {
                        let j = choose|j: int| 0 <= j < sub1.len() && (#[trigger] sub1[j])@ == x;
                        if j < i {
                            assert(sub0[j] == sub1[j]);
                        }
                    }
                    if strings_set(sub0).contains(x) {
                        let j = choose|j: int| 0 <= j < sub0.len() && (#[trigger] sub0[j])@ == x;
                        assert(sub1[j] == sub0[j]);
                    }
                    if x == v@[i as int]@ {
                        assert(sub1[i as int] == v@[i as int]);
                    }
                }
            }
        }
        if v[i] != *c {
            let ghost r0 = r@;
            r.push(v[i].clone());
            proof {
                assert(strings_set(r@) =~= strings_set(r0).insert(v@[i as int]@)) by {
                    assert forall|x: Seq<char>| #[trigger] strings_set(r@).contains(x) <==> strings_set(r0).insert(v@[i as int]@).contains(x) by {
                        if strings_set(r@).contains(x) {
                            let j = choose|j: int| 0 <= j < r@.len() && (#[trigger] r@[j])@ == x;
                            if j < r0.len() {
                                assert(r0[j] == r@[j]);
                            }
                        }
                        if strings_set(r0).contains(x) {
                            let j = choose|j: int| 0 <= j < r0.len() && (#[trigger] r0[j])@ == x;
                            assert(r@[j] == r0[j]);
                        }
                        if x == v@[i as int]@ {
                            assert(r@[r0.len() as int] == v@[i as int]);
                        }
                    }
                }
                assert(strings_set(r@) =~= strings_set(sub1).remove(c@));
            }
        } else {
            proof {
                assert(strings_set(r@) =~= strings_set(sub1).remove(c@));
            }
        }
        i = i + 1;
    }
    proof {
        assert(v@.subrange(0, v@.len() as int) =~= v@);
        if r@.len() != 0 {
            assert(strings_set(r@).contains(r@[0]@));
        } else {
            assert(strings_set(r@) =~= Set::<Seq<char>>::empty());
        }
    }
    r
}

/// Refusal text for an oversized payload.
pub open spec fn payload_too_large_text(n: nat) -> Seq<char> {
    "payload "@ + decimal(n) + " bytes exceeds MAX_PAYLOAD_BYTES (32768)"@
}

/// Why a dispatch is refused, if it is: empty context, oversized payload,
/// timeout outside `[MIN_TIMEOUT_MS, MAX_TIMEOUT_MS]`, or no handler of
/// the target registered for the context — checked in that order.
pub open spec fn dispatch_refusal(
    s: TeamStoreView,
    target: Seq<char>,
    ctx: Seq<char>,
    payload_len: nat,
    timeout_ms: u32,
) -> Option<WakeErrorView> {
    if ctx.len() == 0 {
        Some(WakeErrorView::DispatchRefused("context_id must be non-empty"@))
    } else if payload_len > MAX_PAYLOAD_BYTES {
        Some(WakeErrorView::DispatchRefused(payload_too_large_text(payload_len)))
    } else if timeout_ms < MIN_TIMEOUT_MS || timeout_ms > MAX_TIMEOUT_MS {
        Some(WakeErrorView::InvalidTimeout)
    } else if !handlers_of(s, target).contains(ctx) {
        Some(WakeErrorView::HandlerNotFound)
    } else {
        None
    }
}

/// The row a dispatch writes: a pending wake created at `now`.
pub open spec fn new_wake_view(
    caller: Seq<char>,
    target: Seq<char>,
    ctx: Seq<char>,
    payload: Seq<u8>,
    timeout_ms: u32,
    id: WakeId,
    now: u64,
) -> WakeRecordView {
    WakeRecordView {
        wake_id: id,
        target_identity: target,
        caller_identity: caller,
        context_id: ctx,
        payload,
        state: WakeState::Pending,
        created_at: now,
        timeout_ms,
        response_payload: None,
    }
}

/// The oldest entry, evicted when appending `id` overflows the inbox.
pub open spec fn evicted_by_push(inbox: Seq<WakeId>, id: WakeId) -> Option<WakeId> {
    if inbox.len() + 1 > INBOX_LIMIT {
        Some(inbox.push(id)[0])
    } else {
        None
    }
}

/// The inbox after appending `id` at the tail, evicting the head on overflow.
pub open spec fn inbox_after_push(inbox: Seq<WakeId>, id: WakeId) -> Seq<WakeId> {
    if inbox.len() + 1 > INBOX_LIMIT {
        inbox.push(id).drop_first()
    } else {
        inbox.push(id)
    }
}

/// The alarm queue with `w` removed from every slot; a slot that held
/// `w` and is left empty disappears.
pub open spec fn alarms_drop(a: Map<u64, Seq<WakeId>>, w: WakeId) -> Map<u64, Seq<WakeId>> {
    Map::new(
        |k: u64| a.contains_key(k) && !(a[k].contains(w) && remove_all(a[k], w).len() == 0),
        |k: u64| if a[k].contains(w) { remove_all(a[k], w) } else { a[k] },
    )
}

/// The state after a successful dispatch: the new pending row, the target's
/// inbox with the wake appended (its oldest entry evicted on overflow, row
/// and alarm entry included), and the wake filed under its deadline.
pub open spec fn spec_dispatch(
    s: TeamStoreView,
    caller: Seq<char>,
    target: Seq<char>,
    ctx: Seq<char>,
    payload: Seq<u8>,
    timeout_ms: u32,
    id: WakeId,
    now: u64,
) -> TeamStoreView {
    let inbox = inbox_of(s, target);
    let k = (now + timeout_ms) as u64;
    let a1 = s.alarms.insert(k, slot_of(s, k).push(id));
    let rec = new_wake_view(caller, target, ctx, payload, timeout_ms, id, now);
    match evicted_by_push(inbox, id) {
        Some(ov) => TeamStoreView {
            inboxes: s.inboxes.insert(target, inbox_after_push(inbox, id)),
            alarms: alarms_drop(a1, ov),
            wakes: s.wakes.remove(ov).insert(id, rec),
            ..s
        },
        None => TeamStoreView {
            inboxes: s.inboxes.insert(target, inbox_after_push(inbox, id)),
            alarms: a1,
            wakes: s.wakes.insert(id, rec),
            ..s
        },
    }
}

/// The earliest deadline in the alarm queue.
pub open spec fn earliest_alarm(a: Map<u64, Seq<WakeId>>) -> Option<u64> {
    if a.dom().is_empty() {
        None
    } else {
        Some(choose|k: u64| a.contains_key(k) && forall|k2: u64| a.contains_key(k2) ==> k <= k2)
    }
}

proof fn lemma_min_key_below(a: Map<u64, Seq<WakeId>>, k: u64)
    requires
        a.contains_key(k),
    ensures
        exists|m: u64| a.contains_key(m) && m <= k && forall|k2: u64| a.contains_key(k2) ==> m <= k2,
    decreases k,
{
    if exists|k2: u64| a.contains_key(k2) && k2 < k {
        let k2 = choose|k2: u64| a.contains_key(k2) && k2 < k;
        lemma_min_key_below(a, k2);
        let m = choose|m: u64| a.contains_key(m) && m <= k2 && forall|k3: u64| a.contains_key(k3) ==> m <= k3;
        assert(a.contains_key(m) && m <= k && forall|k3: u64| a.contains_key(k3) ==> m <= k3);
    } else {
        assert(forall|k2: u64| a.contains_key(k2) ==> k <= k2);
    }
}

/// The alarm to set is the earliest deadline in the queue: it is one of
/// the queue's deadlines and no deadline in the queue is earlier; there is
/// none exactly when the queue is empty.
pub proof fn lemma_earliest_alarm_is_min(a: Map<u64, Seq<WakeId>>)
    ensures
        earliest_alarm(a) is None <==> a.dom().is_empty(),
        earliest_alarm(a) matches Some(k) ==> a.contains_key(k) && forall|k2: u64| a.contains_key(k2) ==> k <= k2,
        forall|k2: u64| a.contains_key(k2) ==> (earliest_alarm(a) matches Some(k) && k <= k2),
{
    if !a.dom().is_empty() {
        let k0 = a.dom().choose();
        assert(a.contains_key(k0));
        lemma_min_key_below(a, k0);
    }
}

/// What the caller of a store operation does next: evicted wake (if any)
/// and the time the team's alarm must be set to (`None`: delete it).
#[derive(Debug)]
pub struct DispatchEffects {
    pub evicted: Option<WakeId>,
    pub next_alarm: Option<u64>,
}

fn vec_contains(v: &Vec<WakeId>, x: WakeId) -> (r: bool)
    ensures
        r == v@.contains(x),
{
    let mut i: usize = 0;
    while i < v.len()
        invariant
            i <= v@.len(),
            forall|j: int| 0 <= j < i ==> v@[j] != x,
        decreases v@.len() - i,
    {
        if v[i] == x {
            return true;
        }
        i = i + 1;
    }
    false
}

/// The entries of a queue, front first, as a vector.
fn deque_to_vec(v: &VecDeque<WakeId>) -> (r: Vec<WakeId>)
    ensures
        r@ == v@,
{
    let mut r: Vec<WakeId> = Vec::new();
    let mut i: usize = 0;
    while i < v.len()
        invariant
            i <= v@.len(),
            r@ == v@.subrange(0, i as int),
        decreases v@.len() - i,
    {
        r.push(v[i]);
        i = i + 1;
    }
    assert(v@.subrange(0, v@.len() as int) =~= v@);
    r
}

/// A queue holding the entries of `v`, first entry at the front.
fn vec_to_deque(v: &Vec<WakeId>) -> (r: VecDeque<WakeId>)
    ensures
        r@ == v@,
{
    let mut r: VecDeque<WakeId> = VecDeque::new();
    let mut i: usize = 0;
    while i < v.len()
        invariant
            i <= v@.len(),
            r@ == v@.subrange(0, i as int),
        decreases v@.len() - i,
    {
        r.push_back(v[i]);
        assert(v@.subrange(0, i as int + 1) =~= v@.subrange(0, i as int).push(v@[i as int]));
        i = i + 1;
    }
    assert(v@.subrange(0, v@.len() as int) =~= v@);
    r
}

/// A copy of a queue.
fn deque_copy(v: &VecDeque<WakeId>) -> (r: VecDeque<WakeId>)
    ensures
        r@ == v@,
{
    vec_to_deque(&deque_to_vec(v))
}

/// A queue without any occurrence of `x`, order kept.
fn deque_without(v: &VecDeque<WakeId>, x: WakeId) -> (r: VecDeque<WakeId>)
    ensures
        r@ == remove_all(v@, x),
{
    vec_to_deque(&vec_without(&deque_to_vec(v), x))
}

fn vec_copy(v: &Vec<WakeId>) -> (r: Vec<WakeId>)
    ensures
        r@ == v@,
{
    let mut r: Vec<WakeId> = Vec::new();
    let mut i: usize = 0;
    while i < v.len()
        invariant
            i <= v@.len(),
            r@ == v@.subrange(0, i as int),
        decreases v@.len() - i,
    {
        r.push(v[i]);
        i = i + 1;
    }
    assert(v@.subrange(0, v@.len() as int) =~= v@);
    r
}

proof fn lemma_distinct_prefix<K, V>(p: Seq<(K, V)>, i: int)
    requires
        pm_distinct(p),
        0 <= i <= p.len(),
    ensures
        pm_distinct(p.subrange(0, i)),
        forall|j: int| i <= j < p.len() ==> !pm_map(p.subrange(0, i)).contains_key(#[trigger] p[j].0),
{
    let q = p.subrange(0, i);
    assert forall|a: int, b: int| 0 <= a < q.len() && 0 <= b < q.len() && a != b implies (#[trigger] q[a]).0 != (#[trigger] q[b]).0 by {
        assert(q[a] == p[a] && q[b] == p[b]);
    }
    assert forall|j: int| i <= j < p.len() implies !pm_map(q).contains_key(#[trigger] p[j].0) by {
        assert forall|m: int| 0 <= m < q.len() implies (#[trigger] q[m]).0 != p[j].0 by {
            assert(q[m] == p[m]);
        }
        lemma_pm_absent(q, p[j].0);
    }
}

impl TeamStore {
    /// The earliest deadline in the alarm queue.
    pub fn next_alarm(&self) -> (r: Option<u64>)
        requires
            self.wf(),
        ensures
            r == earliest_alarm(self.view().alarms),
            r is None <==> self.view().alarms.dom().is_empty(),
            r matches Some(k) ==> self.view().alarms.contains_key(k)
                && forall|k2: u64| self.view().alarms.contains_key(k2) ==> k <= k2,
    {
        proof {
            lemma_earliest_alarm_is_min(self.view().alarms);
        }
        let ghost a = self.view().alarms;
        let ghost p = alarm_pairs(self.alarms@);
        let mut best: Option<u64> = None;
        let mut i: usize = 0;
        while i < self.alarms.len()
            invariant
                i <= self.alarms@.len(),
                p == alarm_pairs(self.alarms@),
                a == pm_map(p),
                pm_distinct(p),
                match best {
                    None => i == 0,
                    Some(b) => (exists|j: int| 0 <= j < i && self.alarms@[j].at == b)
                        && forall|j: int| 0 <= j < i ==> b <= (#[trigger] self.alarms@[j]).at,
                },
            decreases self.alarms@.len() - i,
        {
            let at = self.alarms[i].at;
            match best {
                None => {
                    best = Some(at);
                },
                Some(b) => {
                    if at < b {
                        best = Some(at);
                    }
                },
            }
            i = i + 1;
        }
        proof {
            match best {
                None => {
                    assert(self.alarms@.len() == 0);
                    assert(a.dom() =~= Set::<u64>::empty()) by {
                        lemma_pm_empty::<u64, Seq<WakeId>>();
                        assert(p =~= Seq::<(u64, Seq<WakeId>)>::empty());
                    }
                },
                Some(b) => {
                    let j = choose|j: int| 0 <= j < self.alarms@.len() && self.alarms@[j].at == b;
                    assert(p[j].0 == b);
                    lemma_pm_at(p, j);
                    assert(a.contains_key(b));
                    assert forall|k2: u64| a.contains_key(k2) implies b <= k2 by {
                        let m = crate::kvmap::pm_index(p, k2);
                        assert(p[m].0 == self.alarms@[m].at);
                    }
                    assert(!a.dom().is_empty()) by {
                        assert(a.dom().contains(b));
                    }
                    let c = choose|k: u64| a.contains_key(k) && forall|k2: u64| a.contains_key(k2) ==> k <= k2;
                    assert(c <= b && b <= c);
                },
            }
        }
        best
    }

    /// Dispatches a wake: validates the request, writes the pending row,
    /// appends the wake to the target's inbox (evicting the oldest entry on
    /// overflow) and files it under its deadline `now_ms + timeout_ms`.
    pub fn dispatch(
        &mut self,
        caller: &String,
        target: &String,
        context: &String,
        payload: Vec<u8>,
        timeout_ms: u32,
        wake_id: WakeId,
        now_ms: u64,
    ) -> (r: Result<DispatchEffects, WakeError>)
        requires
            old(self).wf(),
            now_ms <= u64::MAX - MAX_TIMEOUT_MS,
        ensures
            final(self).wf(),
            match dispatch_refusal(old(self).view(), target@, context@, payload@.len(), timeout_ms) {
                Some(e) => r matches Err(x) && x@ == e && final(self).view() == old(self).view(),
                None => r matches Ok(eff) && final(self).view() == spec_dispatch(
                    old(self).view(),
                    caller@,
                    target@,
                    context@,
                    payload@,
                    timeout_ms,
                    wake_id,
                    now_ms,
                ) && eff.evicted == evicted_by_push(inbox_of(old(self).view(), target@), wake_id)
                    && eff.next_alarm == earliest_alarm(final(self).view().alarms),
            },
    {
        let ghost s0 = self.view();
        if context.as_str().unicode_len() == 0 {
            return Err(WakeError::DispatchRefused { reason: String::from_str("context_id must be non-empty") });
        }
        if payload.len() > MAX_PAYLOAD_BYTES {
            let mut reason = String::from_str("payload ");
            push_decimal(&mut reason, payload.len() as u64);
            push_str(&mut reason, " bytes exceeds MAX_PAYLOAD_BYTES (32768)");
            return Err(WakeError::DispatchRefused { reason });
        }
        if timeout_ms < MIN_TIMEOUT_MS || timeout_ms > MAX_TIMEOUT_MS {
            return Err(WakeError::InvalidTimeout);
        }
        let registered = match self.find_handler(target) {
            Some(i) => {
                proof {
                    lemma_pm_at(handler_pairs(self.handlers@), i as int);
                }
                strings_contain(&self.handlers[i].contexts, context)
            },
            None => {
                proof {
                    let hp = handler_pairs(self.handlers@);
                    assert forall|j: int| 0 <= j < hp.len() implies (#[trigger] hp[j]).0 != target@ by {
                        assert(hp[j].0 == self.handlers@[j].identity@);
                    }
                    lemma_pm_absent(hp, target@);
                }
                false
            },
        };
        if !registered {
            return Err(WakeError::HandlerNotFound);
        }
        proof {
            assert(context@.len() > 0);
        }
        // Inbox: append, evict the head on overflow.
        let ghost inbox0 = inbox_of(s0, target@);
        let ghost ip0 = inbox_pairs(self.inboxes@);
        let (mut ids, pos) = match self.find_inbox(target) {
            Some(i) => {
                proof {
                    lemma_pm_at(ip0, i as int);
                }
                let e = self.inboxes.remove(i);
                (e.wakes, Some(i))
            },
            None => {
                proof {
                    assert forall|j: int| 0 <= j < ip0.len() implies (#[trigger] ip0[j]).0 != target@ by {
                        assert(ip0[j].0 == self.inboxes@[j].identity@);
                    }
                    lemma_pm_absent(ip0, target@);
                }
                (VecDeque::new(), None)
            },
        };
        assert(ids@ == inbox0);
        ids.push_back(wake_id);
        let mut evicted: Option<WakeId> = None;
        if ids.len() > INBOX_LIMIT {
            let ghost before = ids@;
            evicted = ids.pop_front();
            assert(ids@ =~= before.drop_first());
        }
        assert(ids@ == inbox_after_push(inbox0, wake_id));
        assert(evicted == evicted_by_push(inbox0, wake_id));
        let ghost new_inbox = ids@;
        match pos {
            Some(i) => {
                self.inboxes.insert(i, InboxEntry { identity: target.clone(), wakes: ids });
                proof {
                    lemma_pm_update(ip0, i as int, new_inbox);
                    assert(inbox_pairs(self.inboxes@) =~= ip0.update(i as int, (ip0[i as int].0, new_inbox)));
                }
            },
            None => {
                self.inboxes.push(InboxEntry { identity: target.clone(), wakes: ids });
                proof {
                    lemma_pm_push(ip0, target@, new_inbox);
                    assert(inbox_pairs(self.inboxes@) =~= ip0.push((target@, new_inbox)));
                }
            },
        }
        // Alarm queue: file the wake under its deadline.
        let k = now_ms + timeout_ms as u64;
        let ghost ap0 = alarm_pairs(self.alarms@);
        match self.find_alarm(k) {
            Some(j) => {
                proof {
                    lemma_pm_at(ap0, j as int);
                }
                let mut slot = self.alarms.remove(j);
                slot.wakes.push(wake_id);
                let ghost sw = slot.wakes@;
                self.alarms.insert(j, slot);
                proof {
                    lemma_pm_update(ap0, j as int, sw);
                    assert(alarm_pairs(self.alarms@) =~= ap0.update(j as int, (ap0[j as int].0, sw)));
                }
            },
            None => {
                proof {
                    assert forall|j: int| 0 <= j < ap0.len() implies (#[trigger] ap0[j]).0 != k by {
                        assert(ap0[j].0 == self.alarms@[j].at);
                    }
                    lemma_pm_absent(ap0, k);
                }
                let mut w: Vec<WakeId> = Vec::new();
                w.push(wake_id);
                let ghost sw = w@;
                self.alarms.push(AlarmSlot { at: k, wakes: w });
                proof {
                    lemma_pm_push(ap0, k, sw);
                    assert(alarm_pairs(self.alarms@) =~= ap0.push((k, sw)));
                }
            },
        }
        assert(self.view().alarms =~= s0.alarms.insert(k, slot_of(s0, k).push(wake_id)));
        // Evicted wake: drop its alarm entry and its row.
        if let Some(ov) = evicted {
            self.drop_from_alarms(ov);
            let ghost wp0 = wake_pairs(self.wakes@);
            match self.find_wake(ov) {
                Some(j) => {
                    proof {
                        lemma_pm_at(wp0, j as int);
                        lemma_pm_remove(wp0, j as int);
                    }
                    self.wakes.remove(j);
                    proof {
                        assert(wake_pairs(self.wakes@) =~= wp0.remove(j as int));
                    }
                },
                None => {
                    proof {
                        assert forall|j: int| 0 <= j < wp0.len() implies (#[trigger] wp0[j]).0 != ov by {
                            assert(wp0[j].0 == self.wakes@[j].wake_id);
                        }
                        lemma_pm_absent(wp0, ov);
                        assert(pm_map(wp0) =~= pm_map(wp0).remove(ov));
                    }
                },
            }
        }
        // The new row.
        let rec = WakeRecord {
            wake_id,
            target_identity: target.clone(),
            caller_identity: caller.clone(),
            context_id: context.clone(),
            payload,
            state: WakeState::Pending,
            created_at: now_ms,
            timeout_ms,
            response_payload: None,
        };
        self.put_wake(rec);
        let next = self.next_alarm();
        proof {
            assert(self.view() =~= spec_dispatch(s0, caller@, target@, context@, payload@, timeout_ms, wake_id, now_ms));
        }
        Ok(DispatchEffects { evicted, next_alarm: next })
    }

    /// Writes a wake row, replacing any row with the same identifier.
    fn put_wake(&mut self, rec: WakeRecord)
        requires
            old(self).wf(),
            rec.created_at + rec.timeout_ms <= u64::MAX,
        ensures
            final(self).wf(),
            final(self).view() == (TeamStoreView {
                wakes: old(self).view().wakes.insert(rec.wake_id, rec@),
                ..old(self).view()
            }),
    {
        let ghost s0 = self.view();
        let ghost rv = rec@;
        let id = rec.wake_id;
        match self.find_wake(id) {
            Some(j) => {
                let ghost wp0 = wake_pairs(self.wakes@);
                proof {
                    lemma_pm_at(wp0, j as int);
                    lemma_pm_update(wp0, j as int, rv);
                }
                self.wakes.remove(j);
                self.wakes.insert(j, rec);
                proof {
                    assert(wake_pairs(self.wakes@) =~= wp0.update(j as int, (wp0[j as int].0, rv)));
                }
            },
            None => {
                let ghost wp0 = wake_pairs(self.wakes@);
                proof {
                    assert forall|j: int| 0 <= j < wp0.len() implies (#[trigger] wp0[j]).0 != id by {
                        assert(wp0[j].0 == self.wakes@[j].wake_id);
                    }
                    lemma_pm_absent(wp0, id);
                    lemma_pm_push(wp0, id, rv);
                }
                self.wakes.push(rec);
                proof {
                    assert(wake_pairs(self.wakes@) =~= wp0.push((id, rv)));
                }
            },
        }
        proof {
            assert(self.view() =~= (TeamStoreView { wakes: s0.wakes.insert(id, rv), ..s0 }));
        }
    }

    /// Removes `w` from every alarm slot, dropping slots it leaves empty.
    fn drop_from_alarms(&mut self, w: WakeId)
        requires
            old(self).wf(),
        ensures
            final(self).wf(),
            final(self).view() == (TeamStoreView {
                alarms: alarms_drop(old(self).view().alarms, w),
                ..old(self).view()
            }),
    {
        let ghost s0 = self.view();
        let ghost p = alarm_pairs(self.alarms@);
        let mut out: Vec<AlarmSlot> = Vec::new();
        let mut i: usize = 0;
        proof {
            lemma_pm_empty::<u64, Seq<WakeId>>();
            assert(alarm_pairs(out@) =~= Seq::<(u64, Seq<WakeId>)>::empty());
            assert(p.subrange(0, 0) =~= Seq::<(u64, Seq<WakeId>)>::empty());
            assert(alarms_drop(Map::<u64, Seq<WakeId>>::empty(), w) =~= Map::<u64, Seq<WakeId>>::empty());
        }
        while i < self.alarms.len()
            invariant
                i <= self.alarms@.len(),
                p == alarm_pairs(self.alarms@),
                pm_distinct(p),
                pm_distinct(alarm_pairs(out@)),
                pm_map(alarm_pairs(out@)) == alarms_drop(pm_map(p.subrange(0, i as int)), w),
                forall|m: int| 0 <= m < out@.len() ==> exists|q: int| 0 <= q < i && (#[trigger] out@[m]).at == p[q].0,
            decreases self.alarms@.len() - i,
        {
            let ghost pre = p.subrange(0, i as int);
            let ghost pre1 = p.subrange(0, i as int + 1);
            let at = self.alarms[i].at;
            let found = vec_contains(&self.alarms[i].wakes, w);
            let rest = vec_without(&self.alarms[i].wakes, w);
            proof {
                lemma_distinct_prefix(p, i as int);
                assert(pre1 =~= pre.push(p[i as int]));
                assert(p[i as int] == (at, self.alarms@[i as int].wakes@));
                lemma_pm_push(pre, at, self.alarms@[i as int].wakes@);
                if !found {
                    assert forall|m: int| 0 <= m < self.alarms@[i as int].wakes@.len() implies !set![w].contains(#[trigger] self.alarms@[i as int].wakes@[m]) by {
                        assert(self.alarms@[i as int].wakes@.contains(self.alarms@[i as int].wakes@[m]));
                    }
                    lemma_remove_all_in_noop(self.alarms@[i as int].wakes@, set![w]);
                }
                assert forall|m: int| 0 <= m < alarm_pairs(out@).len() implies (#[trigger] alarm_pairs(out@)[m]).0 != at by {
                    let q = choose|q: int| 0 <= q < i && out@[m].at == p[q].0;
                    assert(alarm_pairs(out@)[m].0 == out@[m].at);
                    assert(p[q].0 != p[i as int].0);
                }
                lemma_pm_absent(alarm_pairs(out@), at);
            }
            let ghost out0 = out@;
            if !found || rest.len() > 0 {
                let ghost rs = rest@;
                out.push(AlarmSlot { at, wakes: rest });
                proof {
                    lemma_pm_push(alarm_pairs(out0), at, rs);
                    assert(alarm_pairs(out@) =~= alarm_pairs(out0).push((at, rs)));
                    assert forall|m: int| 0 <= m < out@.len() implies exists|q: int| 0 <= q < i + 1 && (#[trigger] out@[m]).at == p[q].0 by {
                        if m < out0.len() {
                            assert(out@[m] == out0[m]);
                            let q = choose|q: int| 0 <= q < i && out0[m].at == p[q].0;
                        } else {
                            assert(out@[m].at == p[i as int].0);
                        }
                    }
                }
            } else {
                proof {
                    assert forall|m: int| 0 <= m < out@.len() implies exists|q: int| 0 <= q < i + 1 && (#[trigger] out@[m]).at == p[q].0 by {
                        let q = choose|q: int| 0 <= q < i && out@[m].at == p[q].0;
                    }
                }
            }
            proof {
                assert(pm_map(alarm_pairs(out@)) =~= alarms_drop(pm_map(pre1), w));
            }
            i = i + 1;
        }
        proof {
            assert(p.subrange(0, p.len() as int) =~= p);
        }
        self.alarms = out;
        proof {
            assert(self.view() =~= (TeamStoreView { alarms: alarms_drop(s0.alarms, w), ..s0 }));
        }
    }
}

/// Why completing `id` as `by` is refused, if it is: no such wake, the wake
/// is no longer pending, or `by` is not its target — checked in that order.
pub open spec fn completion_refusal(s: TeamStoreView, id: WakeId, by: Seq<char>) -> Option<TallyErrorView> {
    if !s.wakes.contains_key(id) {
        Some(TallyErrorView::WakeNotFound)
    } else if s.wakes[id].state != WakeState::Pending {
        Some(TallyErrorView::AlreadyTerminal)
    } else if by != s.wakes[id].target_identity {
        Some(TallyErrorView::IdentityMismatch)
    } else {
        None
    }
}

/// The alarm queue with `w` removed from the slot at `k`; the slot
/// disappears if left empty.
pub open spec fn alarms_remove_at(a: Map<u64, Seq<WakeId>>, k: u64, w: WakeId) -> Map<u64, Seq<WakeId>> {
    if a.contains_key(k) {
        if remove_all(a[k], w).len() == 0 {
            a.remove(k)
        } else {
            a.insert(k, remove_all(a[k], w))
        }
    } else {
        a
    }
}

/// A wake row after completion with `resp`.
pub open spec fn completed_view(r: WakeRecordView, resp: Seq<u8>) -> WakeRecordView {
    WakeRecordView { state: WakeState::Completed, response_payload: Some(resp), ..r }
}

/// The state after completing pending wake `id`: the row turns `Completed`
/// with the response, and the wake leaves its target's inbox and its
/// deadline's alarm slot.
pub open spec fn spec_complete(s: TeamStoreView, id: WakeId, resp: Seq<u8>) -> TeamStoreView {
    let r = s.wakes[id];
    TeamStoreView {
        alarms: alarms_remove_at(s.alarms, r.deadline() as u64, id),
        inboxes: s.inboxes.insert(r.target_identity, remove_all(inbox_of(s, r.target_identity), id)),
        wakes: s.wakes.insert(id, completed_view(r, resp)),
        ..s
    }
}

/// What the caller does after a completion: the target (whose resolver
/// receives the response) and the time the team's alarm must be set to.
#[derive(Debug)]
pub struct CompleteEffects {
    pub target_identity: String,
    pub next_alarm: Option<u64>,
}

impl TeamStore {
    /// Completes a pending wake on behalf of its target, storing the
    /// response.
    pub fn complete_wake(&mut self, wake_id: WakeId, by_identity: &String, response: Vec<u8>) -> (r: Result<CompleteEffects, TallyError>)
        requires
            old(self).wf(),
        ensures
            final(self).wf(),
            match completion_refusal(old(self).view(), wake_id, by_identity@) {
                Some(e) => r matches Err(x) && x@ == e && final(self).view() == old(self).view(),
                None => r matches Ok(eff) && final(self).view() == spec_complete(old(self).view(), wake_id, response@)
                    && eff.target_identity@ == old(self).view().wakes[wake_id].target_identity
                    && eff.next_alarm == earliest_alarm(final(self).view().alarms),
            },
    {
        let ghost s0 = self.view();
        let ghost wp0 = wake_pairs(self.wakes@);
        let j = match self.find_wake(wake_id) {
            Some(j) => j,
            None => {
                proof {
                    assert forall|m: int| 0 <= m < wp0.len() implies (#[trigger] wp0[m]).0 != wake_id by {
                        assert(wp0[m].0 == self.wakes@[m].wake_id);
                    }
                    lemma_pm_absent(wp0, wake_id);
                }
                return Err(TallyError::WakeNotFound);
            },
        };
        proof {
            lemma_pm_at(wp0, j as int);
        }
        if self.wakes[j].state != WakeState::Pending {
            return Err(TallyError::AlreadyTerminal);
        }
        if self.wakes[j].target_identity != *by_identity {
            return Err(TallyError::IdentityMismatch);
        }
        let target = self.wakes[j].target_identity.clone();
        let k = self.wakes[j].absolute_timeout();
        let ghost rv = s0.wakes[wake_id];
        // Alarm slot at the deadline.
        let ghost ap0 = alarm_pairs(self.alarms@);
        match self.find_alarm(k) {
            Some(a) => {
                proof {
                    lemma_pm_at(ap0, a as int);
                }
                let slot = self.alarms.remove(a);
                let rest = vec_without(&slot.wakes, wake_id);
                if rest.len() == 0 {
                    proof {
                        lemma_pm_remove(ap0, a as int);
                        assert(alarm_pairs(self.alarms@) =~= ap0.remove(a as int));
                    }
                } else {
                    let ghost rs = rest@;
                    self.alarms.insert(a, AlarmSlot { at: k, wakes: rest });
                    proof {
                        lemma_pm_update(ap0, a as int, rs);
                        assert(alarm_pairs(self.alarms@) =~= ap0.update(a as int, (ap0[a as int].0, rs)));
                    }
                }
            },
            None => {
                proof {
                    assert forall|m: int| 0 <= m < ap0.len() implies (#[trigger] ap0[m]).0 != k by {
                        assert(ap0[m].0 == self.alarms@[m].at);
                    }
                    lemma_pm_absent(ap0, k);
                }
            },
        }
        // Target inbox.
        let ghost ip0 = inbox_pairs(self.inboxes@);
        match self.find_inbox(&target) {
            Some(b) => {
                proof {
                    lemma_pm_at(ip0, b as int);
                }
                let e = self.inboxes.remove(b);
                let rest = deque_without(&e.wakes, wake_id);
                let ghost rs = rest@;
                self.inboxes.insert(b, InboxEntry { identity: e.identity, wakes: rest });
                proof {
                    lemma_pm_update(ip0, b as int, rs);
                    assert(inbox_pairs(self.inboxes@) =~= ip0.update(b as int, (ip0[b as int].0, rs)));
                }
            },
            None => {
                proof {
                    assert forall|m: int| 0 <= m < ip0.len() implies (#[trigger] ip0[m]).0 != target@ by {
                        assert(ip0[m].0 == self.inboxes@[m].identity@);
                    }
                    lemma_pm_absent(ip0, target@);
                    lemma_pm_push(ip0, target@, Seq::<WakeId>::empty());
                    assert(remove_all(Seq::<WakeId>::empty(), wake_id) =~= Seq::<WakeId>::empty());
                }
                self.inboxes.push(InboxEntry { identity: target.clone(), wakes: VecDeque::new() });
                proof {
                    assert(inbox_pairs(self.inboxes@) =~= ip0.push((target@, Seq::<WakeId>::empty())));
                }
            },
        }
        // The row itself.
        let ghost wp1 = wake_pairs(self.wakes@);
        let mut rec = self.wakes.remove(j);
        rec.state = WakeState::Completed;
        rec.response_payload = Some(response);
        let ghost nv = rec@;
        self.wakes.insert(j, rec);
        proof {
            lemma_pm_update(wp1, j as int, nv);
            assert(wake_pairs(self.wakes@) =~= wp1.update(j as int, (wp1[j as int].0, nv)));
            assert(nv == completed_view(rv, response@));
        }
        let next = self.next_alarm();
        proof {
            assert(self.view() =~= spec_complete(s0, wake_id, response@));
        }
        Ok(CompleteEffects { target_identity: target, next_alarm: next })
    }
}

/// Wakes filed in an alarm slot due at or before `now`.
pub open spec fn due_ids(s: TeamStoreView, now: u64) -> Set<WakeId> {
    Set::new(|w: WakeId| exists|k: u64| k <= now && s.alarms.contains_key(k) && #[trigger] s.alarms[k].contains(w))
}

/// The due wakes that are still pending: those an alarm at `now` times out.
pub open spec fn timed_out_ids(s: TeamStoreView, now: u64) -> Set<WakeId> {
    Set::new(|w: WakeId| due_ids(s, now).contains(w) && s.wakes.contains_key(w) && s.wakes[w].state == WakeState::Pending)
}

/// The wakes of `t` that target `x`.
pub open spec fn removed_for(s: TeamStoreView, t: Set<WakeId>, x: Seq<char>) -> Set<WakeId> {
    Set::new(|w: WakeId| t.contains(w) && s.wakes[w].target_identity == x)
}

/// A wake row after timing out.
pub open spec fn timed_out_view(r: WakeRecordView) -> WakeRecordView {
    WakeRecordView { state: WakeState::TimedOut, ..r }
}

/// The state after the wakes of `t` time out: their rows turn `TimedOut`
/// and each leaves its target's inbox.
pub open spec fn timeout_batch(s: TeamStoreView, t: Set<WakeId>) -> TeamStoreView {
    TeamStoreView {
        wakes: Map::new(
            |w: WakeId| s.wakes.contains_key(w),
            |w: WakeId| if t.contains(w) { timed_out_view(s.wakes[w]) } else { s.wakes[w] },
        ),
        inboxes: Map::new(
            |x: Seq<char>| s.inboxes.contains_key(x) || exists|w: WakeId| t.contains(w) && #[trigger] s.wakes[w].target_identity == x,
            |x: Seq<char>| remove_all_in(inbox_of(s, x), removed_for(s, t, x)),
        ),
        ..s
    }
}

/// The state after the alarm fires at `now`: every slot due at or before
/// `now` leaves the queue, and the pending wakes among them time out.
pub open spec fn spec_fire(s: TeamStoreView, now: u64) -> TeamStoreView {
    let b = timeout_batch(s, timed_out_ids(s, now));
    TeamStoreView {
        alarms: Map::new(|k: u64| s.alarms.contains_key(k) && k > now, |k: u64| s.alarms[k]),
        ..b
    }
}

/// What the caller does after an alarm: deliver a timeout to the resolver
/// of each timed-out wake (with its timeout) and reschedule the alarm.
#[derive(Debug)]
pub struct AlarmEffects {
    pub timed_out: Vec<(WakeId, u32)>,
    pub next_alarm: Option<u64>,
}

proof fn lemma_batch_step(s: TeamStoreView, t: Set<WakeId>, w: WakeId)
    requires
        s.wakes.contains_key(w),
        s.wakes[w].state == WakeState::Pending,
        !t.contains(w),
    ensures
        ({
            let b = timeout_batch(s, t);
            let x = s.wakes[w].target_identity;
            timeout_batch(s, t.insert(w)) == (TeamStoreView {
                wakes: b.wakes.insert(w, timed_out_view(b.wakes[w])),
                inboxes: b.inboxes.insert(x, remove_all(inbox_of(b, x), w)),
                ..b
            })
        }),
{
    let b = timeout_batch(s, t);
    let t2 = t.insert(w);
    let b2 = timeout_batch(s, t2);
    let x = s.wakes[w].target_identity;
    assert(b2.wakes =~= b.wakes.insert(w, timed_out_view(b.wakes[w])));
    assert forall|y: Seq<char>| #[trigger] b2.inboxes.contains_key(y) == b.inboxes.insert(x, remove_all(inbox_of(b, x), w)).contains_key(y) by {
        if y == x {
            assert(t2.contains(w) && s.wakes[w].target_identity == x);
        }
        if b2.inboxes.contains_key(y) && y != x && !s.inboxes.contains_key(y) {
            let w2 = choose|w2: WakeId| t2.contains(w2) && #[trigger] s.wakes[w2].target_identity == y;
            assert(w2 != w);
            assert(t.contains(w2));
        }
    }
    assert forall|y: Seq<char>| #[trigger] b2.inboxes.contains_key(y) implies b2.inboxes[y] == b.inboxes.insert(x, remove_all(inbox_of(b, x), w))[y] by {
        if y == x {
            assert(removed_for(s, t2, x) =~= removed_for(s, t, x).union(set![w]));
            lemma_remove_all_in_union(inbox_of(s, x), removed_for(s, t, x), set![w]);
            if b.inboxes.contains_key(x) {
            } else {
                assert(!s.inboxes.contains_key(x));
                assert(inbox_of(s, x) =~= Seq::<WakeId>::empty());
                assert(remove_all_in(Seq::<WakeId>::empty(), removed_for(s, t, x)) =~= Seq::<WakeId>::empty());
            }
        } else {
            assert(removed_for(s, t2, y) =~= removed_for(s, t, y));
            if !b.inboxes.contains_key(y) {
                let w2 = choose|w2: WakeId| t2.contains(w2) && #[trigger] s.wakes[w2].target_identity == y;
                assert(w2 != w);
                assert(false);
            }
        }
    }
    assert(b2.inboxes =~= b.inboxes.insert(x, remove_all(inbox_of(b, x), w)));
    assert(b2 =~= (TeamStoreView {
        wakes: b.wakes.insert(w, timed_out_view(b.wakes[w])),
        inboxes: b.inboxes.insert(x, remove_all(inbox_of(b, x), w)),
        ..b
    }));
}

proof fn lemma_batch_empty(s: TeamStoreView)
    ensures
        timeout_batch(s, Set::empty()) == s,
{
    let b = timeout_batch(s, Set::empty());
    assert(b.wakes =~= s.wakes);
    assert forall|x: Seq<char>| #[trigger] b.inboxes.contains_key(x) implies b.inboxes[x] == s.inboxes[x] by {
        assert(removed_for(s, Set::empty(), x) =~= Set::<WakeId>::empty());
        lemma_remove_all_in_noop(inbox_of(s, x), Set::<WakeId>::empty());
    }
    assert(b.inboxes =~= s.inboxes);
}

impl TeamStore {
    /// Removes the alarm slots due at or before `now_ms`; returns their
    /// wakes.
    fn take_due(&mut self, now_ms: u64) -> (due: Vec<WakeId>)
        requires
            old(self).wf(),
        ensures
            final(self).wf(),
            final(self).view() == (TeamStoreView {
                alarms: Map::new(|k: u64| old(self).view().alarms.contains_key(k) && k > now_ms, |k: u64| old(self).view().alarms[k]),
                ..old(self).view()
            }),
            forall|w: WakeId| due@.contains(w) <==> due_ids(old(self).view(), now_ms).contains(w),
    {
        let ghost s0 = self.view();
        let ghost p = alarm_pairs(self.alarms@);
        let mut keep: Vec<AlarmSlot> = Vec::new();
        let mut due: Vec<WakeId> = Vec::new();
        let mut i: usize = 0;
        proof {
            lemma_pm_empty::<u64, Seq<WakeId>>();
            assert(alarm_pairs(keep@) =~= Seq::<(u64, Seq<WakeId>)>::empty());
            assert(p.subrange(0, 0) =~= Seq::<(u64, Seq<WakeId>)>::empty());
        }
        while i < self.alarms.len()
            invariant
                i <= self.alarms@.len(),
                p == alarm_pairs(self.alarms@),
                pm_distinct(p),
                s0.alarms == pm_map(p),
                pm_distinct(alarm_pairs(keep@)),
                pm_map(alarm_pairs(keep@)) == Map::new(|k: u64| pm_map(p.subrange(0, i as int)).contains_key(k) && k > now_ms, |k: u64| pm_map(p.subrange(0, i as int))[k]),
                forall|m: int| 0 <= m < keep@.len() ==> exists|q: int| 0 <= q < i && (#[trigger] keep@[m]).at == p[q].0,
                forall|w: WakeId| due@.contains(w) <==> exists|q: int| 0 <= q < i && p[q].0 <= now_ms && (#[trigger] p[q].1.contains(w)),
            decreases self.alarms@.len() - i,
        {
            let ghost pre = p.subrange(0, i as int);
            let ghost pre1 = p.subrange(0, i as int + 1);
            let at = self.alarms[i].at;
            proof {
                lemma_distinct_prefix(p, i as int);
                assert(pre1 =~= pre.push(p[i as int]));
                assert(p[i as int] == (at, self.alarms@[i as int].wakes@));
                lemma_pm_push(pre, at, self.alarms@[i as int].wakes@);
            }
            if at <= now_ms {
                let ghost due0 = due@;
                assert(forall|w: WakeId| due0.contains(w) <==> exists|q: int| 0 <= q < i && p[q].0 <= now_ms && (#[trigger] p[q].1.contains(w)));
                let mut m: usize = 0;
                while m < self.alarms[i].wakes.len()
                    invariant
                        i < self.alarms@.len(),
                        m <= self.alarms@[i as int].wakes@.len(),
                        due@ == due0 + self.alarms@[i as int].wakes@.subrange(0, m as int),
                    decreases self.alarms@[i as int].wakes@.len() - m,
                {
                    due.push(self.alarms[i].wakes[m]);
                    m = m + 1;
                }
                proof {
                    let sw = self.alarms@[i as int].wakes@;
                    assert(sw.subrange(0, sw.len() as int) =~= sw);
                    assert forall|w: WakeId| due@.contains(w) <==> exists|q: int| 0 <= q < i + 1 && p[q].0 <= now_ms && (#[trigger] p[q].1.contains(w)) by {
                        if due@.contains(w) {
                            let n = choose|n: int| 0 <= n < due@.len() && due@[n] == w;
                            if n < due0.len() {
                                assert(due0[n] == w);
                                assert(due0.contains(w));
                            } else {
                                assert(sw[n - due0.len()] == w);
                                assert(p[i as int].1.contains(w));
                            }
                        }
                        if exists|q: int| 0 <= q < i + 1 && p[q].0 <= now_ms && (#[trigger] p[q].1.contains(w)) {
                            let q = choose|q: int| 0 <= q < i + 1 && p[q].0 <= now_ms && (#[trigger] p[q].1.contains(w));
                            if q < i {
                                assert(due0.contains(w));
                                let n = choose|n: int| 0 <= n < due0.len() && due0[n] == w;
                                assert(due@[n] == w);
                            } else {
                                let n = choose|n: int| 0 <= n < sw.len() && sw[n] == w;
                                assert(due@[due0.len() + n] == w);
                            }
                        }
                    }
                    assert(pm_map(alarm_pairs(keep@)) =~= Map::new(|k: u64| pm_map(pre1).contains_key(k) && k > now_ms, |k: u64| pm_map(pre1)[k]));
                }
            } else {
                let w = vec_copy(&self.alarms[i].wakes);
                let ghost ws = w@;
                let ghost keep0 = keep@;
                proof {
                    assert forall|m: int| 0 <= m < alarm_pairs(keep@).len() implies (#[trigger] alarm_pairs(keep@)[m]).0 != at by {
                        let q = choose|q: int| 0 <= q < i && keep@[m].at == p[q].0;
                        assert(alarm_pairs(keep@)[m].0 == keep@[m].at);
                        assert(p[q].0 != p[i as int].0);
                    }
                    lemma_pm_absent(alarm_pairs(keep@), at);
                    lemma_pm_push(alarm_pairs(keep@), at, ws);
                }
                keep.push(AlarmSlot { at, wakes: w });
                proof {
                    assert(alarm_pairs(keep@) =~= alarm_pairs(keep0).push((at, ws)));
                    assert forall|m: int| 0 <= m < keep@.len() implies exists|q: int| 0 <= q < i + 1 && (#[trigger] keep@[m]).at == p[q].0 by {
                        if m < keep0.len() {
                            assert(keep@[m] == keep0[m]);
                            let q = choose|q: int| 0 <= q < i && keep0[m].at == p[q].0;
                        } else {
                            assert(keep@[m].at == p[i as int].0);
                        }
                    }
                    assert(pm_map(alarm_pairs(keep@)) =~= Map::new(|k: u64| pm_map(pre1).contains_key(k) && k > now_ms, |k: u64| pm_map(pre1)[k]));
                    assert forall|w2: WakeId| due@.contains(w2) <==> exists|q: int| 0 <= q < i + 1 && p[q].0 <= now_ms && (#[trigger] p[q].1.contains(w2)) by {
                        if exists|q: int| 0 <= q < i + 1 && p[q].0 <= now_ms && (#[trigger] p[q].1.contains(w2)) {
                            let q = choose|q: int| 0 <= q < i + 1 && p[q].0 <= now_ms && (#[trigger] p[q].1.contains(w2));
                            assert(q < i);
                        }
                    }
                }
            }
            i = i + 1;
        }
        proof {
            assert(p.subrange(0, p.len() as int) =~= p);
            assert forall|w: WakeId| due@.contains(w) <==> due_ids(s0, now_ms).contains(w) by {
                if due@.contains(w) {
                    let q = choose|q: int| 0 <= q < p.len() && p[q].0 <= now_ms && (#[trigger] p[q].1.contains(w));
                    lemma_pm_at(p, q);
                    assert(s0.alarms[p[q].0].contains(w));
                }
                if due_ids(s0, now_ms).contains(w) {
                    let k = choose|k: u64| k <= now_ms && s0.alarms.contains_key(k) && #[trigger] s0.alarms[k].contains(w);
                    let q = crate::kvmap::pm_index(p, k);
                    lemma_pm_at(p, q);
                    assert(p[q].1.contains(w));
                }
            }
        }
        self.alarms = keep;
        proof {
            assert(self.view() =~= (TeamStoreView {
                alarms: Map::new(|k: u64| s0.alarms.contains_key(k) && k > now_ms, |k: u64| s0.alarms[k]),
                ..s0
            }));
        }
        due
    }
}

impl TeamStore {
    /// Removes `w` from the inbox of `target` (writing an empty inbox when
    /// none existed).
    fn remove_from_inbox(&mut self, target: &String, w: WakeId)
        requires
            old(self).wf(),
        ensures
            final(self).wf(),
            final(self).view() == (TeamStoreView {
                inboxes: old(self).view().inboxes.insert(target@, remove_all(inbox_of(old(self).view(), target@), w)),
                ..old(self).view()
            }),
    {
        let ghost s0 = self.view();
        let ghost ip0 = inbox_pairs(self.inboxes@);
        match self.find_inbox(target) {
            Some(b) => {
                proof {
                    lemma_pm_at(ip0, b as int);
                }
                let e = self.inboxes.remove(b);
                let rest = deque_without(&e.wakes, w);
                let ghost rs = rest@;
                self.inboxes.insert(b, InboxEntry { identity: e.identity, wakes: rest });
                proof {
                    lemma_pm_update(ip0, b as int, rs);
                    assert(inbox_pairs(self.inboxes@) =~= ip0.update(b as int, (ip0[b as int].0, rs)));
                }
            },
            None => {
                proof {
                    assert forall|m: int| 0 <= m < ip0.len() implies (#[trigger] ip0[m]).0 != target@ by {
                        assert(ip0[m].0 == self.inboxes@[m].identity@);
                    }
                    lemma_pm_absent(ip0, target@);
                    lemma_pm_push(ip0, target@, Seq::<WakeId>::empty());
                    assert(remove_all(Seq::<WakeId>::empty(), w) =~= Seq::<WakeId>::empty());
                }
                self.inboxes.push(InboxEntry { identity: target.clone(), wakes: VecDeque::new() });
                proof {
                    assert(inbox_pairs(self.inboxes@) =~= ip0.push((target@, Seq::<WakeId>::empty())));
                }
            },
        }
        proof {
            assert(self.view() =~= (TeamStoreView {
                inboxes: s0.inboxes.insert(target@, remove_all(inbox_of(s0, target@), w)),
                ..s0
            }));
        }
    }

    /// Fires the team's alarm at `now_ms`: every alarm slot due at or
    /// before `now_ms` leaves the queue and each still-pending wake in it
    /// times out and leaves its target's inbox. Wakes already completed
    /// and identifiers without a row are skipped.
    pub fn fire_alarm(&mut self, now_ms: u64) -> (r: AlarmEffects)
        requires
            old(self).wf(),
        ensures
            final(self).wf(),
            final(self).view() == spec_fire(old(self).view(), now_ms),
            r.next_alarm == earliest_alarm(final(self).view().alarms),
            forall|i: int| 0 <= i < r.timed_out@.len() ==> timed_out_ids(old(self).view(), now_ms).contains(
                (#[trigger] r.timed_out@[i]).0) && r.timed_out@[i].1 == old(self).view().wakes[r.timed_out@[i].0].timeout_ms,
            forall|w: WakeId| timed_out_ids(old(self).view(), now_ms).contains(w) ==> exists|i: int|
                0 <= i < r.timed_out@.len() && (#[trigger] r.timed_out@[i]).0 == w,
            forall|i: int, j: int| 0 <= i < j < r.timed_out@.len() ==> (#[trigger] r.timed_out@[i]).0 != (#[trigger] r.timed_out@[j]).0,
    {
        let ghost s0 = self.view();
        let due = self.take_due(now_ms);
        let ghost s1 = self.view();
        let mut out: Vec<(WakeId, u32)> = Vec::new();
        let ghost mut t: Set<WakeId> = Set::empty();
        proof {
            lemma_batch_empty(s1);
            assert(t =~= Set::new(|w: WakeId| (exists|q: int| 0 <= q < 0 && due@[q] == w) && s1.wakes.contains_key(w) && s1.wakes[w].state == WakeState::Pending));
        }
        let mut d: usize = 0;
        while d < due.len()
            invariant
                d <= due@.len(),
                self.wf(),
                s1.wakes == s0.wakes,
                self.view() == timeout_batch(s1, t),
                t == Set::new(|w: WakeId| (exists|q: int| 0 <= q < d && due@[q] == w) && s1.wakes.contains_key(w) && s1.wakes[w].state == WakeState::Pending),
                forall|i: int| 0 <= i < out@.len() ==> t.contains((#[trigger] out@[i]).0) && out@[i].1 == s1.wakes[out@[i].0].timeout_ms,
                forall|w: WakeId| t.contains(w) ==> exists|i: int| 0 <= i < out@.len() && (#[trigger] out@[i]).0 == w,
                forall|i: int, j: int| 0 <= i < j < out@.len() ==> (#[trigger] out@[i]).0 != (#[trigger] out@[j]).0,
            decreases due@.len() - d,
        {
            let w = due[d];
            let ghost t_next = Set::new(|x: WakeId| (exists|q: int| 0 <= q < d + 1 && due@[q] == x) && s1.wakes.contains_key(x) && s1.wakes[x].state == WakeState::Pending);
            let ghost wp = wake_pairs(self.wakes@);
            let found = self.find_wake(w);
            let pending = match found {
                Some(j) => self.wakes[j].state == WakeState::Pending,
                None => false,
            };
            proof {
                match found {
                    Some(j) => { lemma_pm_at(wp, j as int); },
                    None => {
                        assert forall|m: int| 0 <= m < wp.len() implies (#[trigger] wp[m]).0 != w by {
                            assert(wp[m].0 == self.wakes@[m].wake_id);
                        }
                        lemma_pm_absent(wp, w);
                    },
                }
            }
            if pending {
                let j = found.unwrap();
                proof {
                    assert(s1.wakes.contains_key(w));
                    assert(!t.contains(w));
                    assert(s1.wakes[w].state == WakeState::Pending);
                    lemma_batch_step(s1, t, w);
                    assert(t_next =~= t.insert(w)) by {
                        assert forall|x: WakeId| #[trigger] t_next.contains(x) <==> t.insert(w).contains(x) by {
                            if x == w {
                                assert(due@[d as int] == w);
                            } else if t_next.contains(x) {
                                let q = choose|q: int| 0 <= q < d + 1 && due@[q] == x;
                                assert(q < d);
                            }
                        }
                    }
                }
                let target = self.wakes[j].target_identity.clone();
                let tm = self.wakes[j].timeout_ms;
                let ghost b = self.view();
                let ghost wp1 = wake_pairs(self.wakes@);
                let mut rec = self.wakes.remove(j);
                rec.state = WakeState::TimedOut;
                let ghost nv = rec@;
                self.wakes.insert(j, rec);
                proof {
                    lemma_pm_update(wp1, j as int, nv);
                    assert(wake_pairs(self.wakes@) =~= wp1.update(j as int, (wp1[j as int].0, nv)));
                    assert(nv == timed_out_view(b.wakes[w]));
                }
                self.remove_from_inbox(&target, w);
                let ghost out0 = out@;
                out.push((w, tm));
                proof {
                    t = t.insert(w);
                    assert(self.view() =~= timeout_batch(s1, t));
                    assert forall|i: int| 0 <= i < out@.len() implies t.contains((#[trigger] out@[i]).0) && out@[i].1 == s1.wakes[out@[i].0].timeout_ms by {
                        if i < out0.len() {
                            assert(out@[i] == out0[i]);
                        }
                    }
                    assert forall|x: WakeId| t.contains(x) implies exists|i: int| 0 <= i < out@.len() && (#[trigger] out@[i]).0 == x by {
                        if x == w {
                            assert(out@[out0.len() as int].0 == w);
                        } else {
                            let i = choose|i: int| 0 <= i < out0.len() && (#[trigger] out0[i]).0 == x;
                            assert(out@[i] == out0[i]);
                        }
                    }
                    assert forall|i: int, k: int| 0 <= i < k < out@.len() implies (#[trigger] out@[i]).0 != (#[trigger] out@[k]).0 by {
                        if k < out0.len() {
                            assert(out@[i] == out0[i] && out@[k] == out0[k]);
                        } else {
                            assert(out@[i] == out0[i]);
                            assert(t.remove(w).contains(out0[i].0) || out0[i].0 != w);
                        }
                    }
                    assert(t =~= t_next);
                }
            } else {
                proof {
                    assert(t_next =~= t) by {
                        assert forall|x: WakeId| #[trigger] t_next.contains(x) <==> t.contains(x) by {
                            if t_next.contains(x) && x == w && !t.contains(x) {
                                assert(s1.wakes.contains_key(w));
                                assert(self.view().wakes[w].state == WakeState::Pending);
                            }
                            if t_next.contains(x) && x != w {
                                let q = choose|q: int| 0 <= q < d + 1 && due@[q] == x;
                                assert(q < d);
                            }
                        }
                    }
                }
            }
            d = d + 1;
        }
        proof {
            assert(t =~= timed_out_ids(s0, now_ms)) by {
                assert forall|w: WakeId| #[trigger] t.contains(w) <==> timed_out_ids(s0, now_ms).contains(w) by {
                    if due_ids(s0, now_ms).contains(w) {
                        assert(due@.contains(w));
                        let q = choose|q: int| 0 <= q < due@.len() && due@[q] == w;
                    }
                    if t.contains(w) {
                        let q = choose|q: int| 0 <= q < due@.len() && due@[q] == w;
                        assert(due@.contains(w));
                    }
                }
            }
            let tb = timeout_batch(s0, t);
            assert(s1.inboxes == s0.inboxes && s1.handlers == s0.handlers && s1.meta == s0.meta);
            assert(timeout_batch(s1, t).wakes =~= tb.wakes);
            assert(timeout_batch(s1, t).inboxes =~= tb.inboxes);
            assert(self.view() =~= spec_fire(s0, now_ms));
        }
        let next = self.next_alarm();
        AlarmEffects { timed_out: out, next_alarm: next }
    }
}

/// The tenancy namespace of every team in this release.
pub const TENANCY_PREFIX_MVP: &'static str = "tally-cli-local";

/// How a wake row is listed in an inbox page.
pub open spec fn summary_view(r: WakeRecordView) -> WakeSummaryView {
    WakeSummaryView {
        wake_id: wake_id_text(r.wake_id),
        caller_identity_b64: r.caller_identity,
        context_id: r.context_id,
        payload_b64: b64_encoding(r.payload),
        expires_at_ms: r.deadline() as u64,
    }
}

/// Listing of the wakes `ids`, skipping identifiers without a row.
pub open spec fn summaries_of(s: TeamStoreView, ids: Seq<WakeId>) -> Seq<WakeSummaryView>
    decreases ids.len(),
{
    if ids.len() == 0 {
        Seq::empty()
    } else if s.wakes.contains_key(ids.last()) {
        summaries_of(s, ids.drop_last()).push(summary_view(s.wakes[ids.last()]))
    } else {
        summaries_of(s, ids.drop_last())
    }
}

/// The first `limit` entries of the inbox of `id`.
pub open spec fn page_ids(s: TeamStoreView, id: Seq<char>, limit: nat) -> Seq<WakeId> {
    let inbox = inbox_of(s, id);
    if limit < inbox.len() {
        inbox.take(limit as int)
    } else {
        inbox
    }
}

/// Sum of inbox depths, saturating at `u64::MAX`.
pub open spec fn saturating_total(ds: Seq<u64>) -> u64
    decreases ds.len(),
{
    if ds.len() == 0 {
        0
    } else {
        let t = saturating_total(ds.drop_last()) + ds.last();
        if t > u64::MAX {
            u64::MAX
        } else {
            t as u64
        }
    }
}

/// The state after a request reaches the team: metadata is written on the
/// first request and left unchanged afterwards.
pub open spec fn spec_ensure_meta(s: TeamStoreView, team_id: Seq<char>, now_ms: i64) -> TeamStoreView {
    TeamStoreView {
        meta: match s.meta {
            Some(m) => Some(m),
            None => Some(initial_meta(team_id, now_ms)),
        },
        ..s
    }
}

/// The metadata a team gets on its first request.
pub open spec fn initial_meta(team_id: Seq<char>, now_ms: i64) -> TeamMetaView {
    TeamMetaView { tenancy_prefix: TENANCY_PREFIX_MVP@, team_id_b64: team_id, created_at: now_ms }
}

/// No two strings of `v` are equal.
pub open spec fn strings_distinct(v: Seq<String>) -> bool {
    forall|i: int, j: int| 0 <= i < j < v.len() ==> (#[trigger] v[i])@ != (#[trigger] v[j])@
}

/// The strings of `v` in order of first occurrence, each once.
fn strings_unique(v: &Vec<String>) -> (r: Vec<String>)
    ensures
        strings_set(r@) == strings_set(v@),
        strings_distinct(r@),
{
    let mut r: Vec<String> = Vec::new();
    let mut i: usize = 0;
    while i < v.len()
        invariant
            i <= v@.len(),
            strings_distinct(r@),
            forall|k: int| 0 <= k < i ==> strings_set(r@).contains((#[trigger] v@[k])@),
            forall|j: int| 0 <= j < r@.len() ==> exists|k: int| 0 <= k < i && (#[trigger] r@[j])@ == v@[k]@,
        decreases v@.len() - i,
    {
        if !strings_contain(&r, &v[i]) {
            let ghost r0 = r@;
            let c = v[i].clone();
            r.push(c);
            proof {
                assert forall|k: int| 0 <= k < i implies strings_set(r@).contains((#[trigger] v@[k])@) by {
                    let j = choose|j: int| 0 <= j < r0.len() && (#[trigger] r0[j])@ == v@[k]@;
                    assert(r@[j] == r0[j]);
                }
                assert(strings_set(r@).contains(v@[i as int]@)) by {
                    assert(r@[r@.len() - 1]@ == v@[i as int]@);
                }
                assert forall|a: int, b: int| 0 <= a < b < r@.len() implies (#[trigger] r@[a])@ != (#[trigger] r@[b])@ by {
                    if b == r@.len() - 1 {
                        assert(r@[a] == r0[a]);
                        assert(strings_set(r0).contains(r0[a]@));
                    } else {
                        assert(r@[a] == r0[a] && r@[b] == r0[b]);
                    }
                }
                assert forall|j: int| 0 <= j < r@.len() implies exists|k: int| 0 <= k < i + 1 && (#[trigger] r@[j])@ == v@[k]@ by {
                    if j < r0.len() {
                        assert(r@[j] == r0[j]);
                        let k = choose|k: int| 0 <= k < i && r0[j]@ == v@[k]@;
                        assert(0 <= k < i + 1 && r@[j]@ == v@[k]@);
                    } else {
                        assert(r@[j]@ == v@[i as int]@);
                    }
                }
            }
        } else {
            proof {
                assert forall|j: int| 0 <= j < r@.len() implies exists|k: int| 0 <= k < i + 1 && (#[trigger] r@[j])@ == v@[k]@ by {
                    let k = choose|k: int| 0 <= k < i && r@[j]@ == v@[k]@;
                    assert(0 <= k < i + 1 && r@[j]@ == v@[k]@);
                }
            }
        }
        i = i + 1;
    }
    proof {
        assert(strings_set(r@) =~= strings_set(v@)) by {
            assert forall|c: Seq<char>| strings_set(r@).contains(c) implies strings_set(v@).contains(c) by {
                let j = choose|j: int| 0 <= j < r@.len() && (#[trigger] r@[j])@ == c;
                let k = choose|k: int| 0 <= k < v@.len() && r@[j]@ == v@[k]@;
                assert(v@[k]@ == c);
            }
            assert forall|c: Seq<char>| strings_set(v@).contains(c) implies strings_set(r@).contains(c) by {
                let k = choose|k: int| 0 <= k < v@.len() && (#[trigger] v@[k])@ == c;
                assert(strings_set(r@).contains(v@[k]@));
            }
        }
    }
    r
}

fn strings_copy(v: &Vec<String>) -> (r: Vec<String>)
    ensures
        r@.len() == v@.len(),
        forall|i: int| 0 <= i < v@.len() ==> (#[trigger] r@[i])@ == v@[i]@,
        strings_set(r@) == strings_set(v@),
{
    let mut r: Vec<String> = Vec::new();
    let mut i: usize = 0;
    while i < v.len()
        invariant
            i <= v@.len(),
            r@.len() == i,
            forall|j: int| 0 <= j < i ==> (#[trigger] r@[j])@ == v@[j]@,
        decreases v@.len() - i,
    {
        r.push(v[i].clone());
        i = i + 1;
    }
    proof {
        assert forall|c: Seq<char>| #[trigger] strings_set(r@).contains(c) <==> strings_set(v@).contains(c) by {
            if strings_set(r@).contains(c) {
                let j = choose|j: int| 0 <= j < r@.len() && (#[trigger] r@[j])@ == c;
                assert(v@[j]@ == c);
            }
            if strings_set(v@).contains(c) {
                let j = choose|j: int| 0 <= j < v@.len() && (#[trigger] v@[j])@ == c;
                assert(r@[j]@ == c);
            }
        }
        assert(strings_set(r@) =~= strings_set(v@));
    }
    r
}

impl TeamStore {
    /// The team metadata, if initialized.
    pub fn meta(&self) -> (m: Option<&TeamMeta>)
        ensures
            match m {
                Some(x) => self.view().meta == Some(x@),
                None => self.view().meta is None,
            },
    {
        match &self.meta {
            Some(x) => Some(x),
            None => None,
        }
    }

    /// Writes the team metadata on the first request: the MVP tenancy
    /// prefix, the team's durable-object id and the current time. Later
    /// calls leave it unchanged.
    pub fn ensure_team_meta(&mut self, team_id_b64: &String, now_ms: i64)
        requires
            old(self).wf(),
        ensures
            final(self).wf(),
            final(self).view() == spec_ensure_meta(old(self).view(), team_id_b64@, now_ms),
    {
        let ghost s0 = self.view();
        if self.meta.is_none() {
            self.meta = Some(TeamMeta {
                tenancy_prefix: String::from_str(TENANCY_PREFIX_MVP),
                team_id_b64: team_id_b64.clone(),
                created_at: now_ms,
            });
        }
        proof {
            assert(self.view() =~= (TeamStoreView {
                meta: match s0.meta {
                    Some(m) => Some(m),
                    None => Some(initial_meta(team_id_b64@, now_ms)),
                },
                ..s0
            }));
        }
    }

    /// Deletes all state of the team (metadata included).
    pub fn reset(&mut self)
        ensures
            final(self).wf(),
            final(self).view() == empty_store(),
    {
        *self = TeamStore::new();
    }

    /// The team's metadata as an init answer, if initialized.
    pub fn init_response(&self) -> (r: Option<InitTeamResponse>)
        ensures
            match self.view().meta {
                None => r is None,
                Some(m) => r matches Some(x) && x.team_id_b64@ == m.team_id_b64
                    && x.initialized_at_ms == m.created_at as u64 && x.tenancy_prefix@ == m.tenancy_prefix,
            },
    {
        match &self.meta {
            None => None,
            Some(m) => Some(InitTeamResponse {
                team_id_b64: m.team_id_b64.clone(),
                initialized_at_ms: m.created_at as u64,
                tenancy_prefix: m.tenancy_prefix.clone(),
            }),
        }
    }

    /// Number of entries in the inbox of `identity`.
    pub fn inbox_len(&self, identity: &String) -> (n: usize)
        requires
            self.wf(),
        ensures
            n == inbox_of(self.view(), identity@).len(),
    {
        match self.find_inbox(identity) {
            Some(i) => {
                proof {
                    lemma_pm_at(inbox_pairs(self.inboxes@), i as int);
                }
                self.inboxes[i].wakes.len()
            },
            None => {
                proof {
                    let ip = inbox_pairs(self.inboxes@);
                    assert forall|m: int| 0 <= m < ip.len() implies (#[trigger] ip[m]).0 != identity@ by {
                        assert(ip[m].0 == self.inboxes@[m].identity@);
                    }
                    lemma_pm_absent(ip, identity@);
                }
                0
            },
        }
    }

    /// The wake identifiers in the inbox of `identity`, oldest first.
    pub fn inbox(&self, identity: &String) -> (v: Vec<WakeId>)
        requires
            self.wf(),
        ensures
            v@ == inbox_of(self.view(), identity@),
    {
        match self.find_inbox(identity) {
            Some(i) => {
                proof {
                    lemma_pm_at(inbox_pairs(self.inboxes@), i as int);
                }
                deque_to_vec(&self.inboxes[i].wakes)
            },
            None => {
                proof {
                    let ip = inbox_pairs(self.inboxes@);
                    assert forall|m: int| 0 <= m < ip.len() implies (#[trigger] ip[m]).0 != identity@ by {
                        assert(ip[m].0 == self.inboxes@[m].identity@);
                    }
                    lemma_pm_absent(ip, identity@);
                }
                Vec::new()
            },
        }
    }

    /// The row of wake `id`, if any.
    pub fn wake(&self, id: WakeId) -> (r: Option<&WakeRecord>)
        requires
            self.wf(),
        ensures
            match r {
                Some(x) => self.view().wakes.contains_key(id) && self.view().wakes[id] == x@,
                None => !self.view().wakes.contains_key(id),
            },
    {
        let ghost wp = wake_pairs(self.wakes@);
        match self.find_wake(id) {
            Some(j) => {
                proof {
                    lemma_pm_at(wp, j as int);
                }
                Some(&self.wakes[j])
            },
            None => {
                proof {
                    assert forall|m: int| 0 <= m < wp.len() implies (#[trigger] wp[m]).0 != id by {
                        assert(wp[m].0 == self.wakes@[m].wake_id);
                    }
                    lemma_pm_absent(wp, id);
                }
                None
            },
        }
    }

    /// Lists the first `limit` wakes of the inbox of `identity`, oldest
    /// first, skipping entries whose row is missing; `more_available`
    /// tells whether the inbox holds more than `limit` entries.
    pub fn read_inbox(&self, identity: &String, limit: usize) -> (r: ReadInboxResponse)
        requires
            self.wf(),
        ensures
            r.wakes@.map_values(|w: WakeSummary| w@) == summaries_of(self.view(), page_ids(self.view(), identity@, limit as nat)),
            r.more_available == (inbox_of(self.view(), identity@).len() > limit),
    {
        let ids = self.inbox(identity);
        let more = ids.len() > limit;
        let n = if more { limit } else { ids.len() };
        let ghost page = page_ids(self.view(), identity@, limit as nat);
        proof {
            assert(page =~= ids@.subrange(0, n as int));
        }
        let mut out: Vec<WakeSummary> = Vec::new();
        let mut i: usize = 0;
        while i < n
            invariant
                self.wf(),
                n <= ids@.len(),
                i <= n,
                page == ids@.subrange(0, n as int),
                out@.map_values(|w: WakeSummary| w@) == summaries_of(self.view(), ids@.subrange(0, i as int)),
            decreases n - i,
        {
            let w = ids[i];
            let ghost sub1 = ids@.subrange(0, i as int + 1);
            proof {
                assert(sub1.drop_last() =~= ids@.subrange(0, i as int));
                assert(sub1.last() == w);
            }
            let ghost out0 = out@;
            match self.wake(w) {
                Some(rec) => {
                    let ghost wp = wake_pairs(self.wakes@);
                    proof {
                        let j = crate::kvmap::pm_index(wp, w);
                        lemma_pm_at(wp, j);
                        assert(rec@.wake_id == w);
                    }
                    let summary = WakeSummary {
                        wake_id: rec.wake_id.to_string(),
                        caller_identity_b64: rec.caller_identity.clone(),
                        context_id: rec.context_id.clone(),
                        payload_b64: b64_encode_bytes(rec.payload.as_slice()),
                        expires_at_ms: rec.absolute_timeout_of(),
                    };
                    out.push(summary);
                    proof {
                        assert(out@.map_values(|x: WakeSummary| x@) =~= out0.map_values(|x: WakeSummary| x@).push(summary_view(self.view().wakes[w])));
                    }
                },
                None => {},
            }
            i = i + 1;
        }
        ReadInboxResponse { wakes: out, more_available: more }
    }

    /// The team's routing state: each registered identity with its
    /// contexts and inbox depth, and the total depth (saturating).
    #[verifier::spinoff_prover]
    #[verifier::rlimit(40)]
    pub fn status(&self) -> (r: Option<TeamStatusResponse>)
        requires
            self.wf(),
        ensures
            match self.view().meta {
                None => r is None,
                Some(m) => r matches Some(x) && x.team_id_b64@ == m.team_id_b64
                    && x.initialized_at_ms == m.created_at as u64 && x.tenancy_prefix@ == m.tenancy_prefix
                    && x.registered_agents@.len() == self.view().handlers.dom().len()
                    && (forall|i: int| 0 <= i < x.registered_agents@.len() ==> {
                        let a = #[trigger] x.registered_agents@[i];
                        &&& self.view().handlers.contains_key(a.identity_b64@)
                        &&& strings_set(a.contexts@) == self.view().handlers[a.identity_b64@]
                        &&& strings_distinct(a.contexts@)
                        &&& a.inbox_depth == inbox_of(self.view(), a.identity_b64@).len()
                    })
                    && (forall|id: Seq<char>| self.view().handlers.contains_key(id) ==> exists|i: int|
                        0 <= i < x.registered_agents@.len() && (#[trigger] x.registered_agents@[i]).identity_b64@ == id)
                    && (forall|i: int, j: int| 0 <= i < j < x.registered_agents@.len() ==>
                        (#[trigger] x.registered_agents@[i]).identity_b64@ != (#[trigger] x.registered_agents@[j]).identity_b64@)
                    && x.total_inbox_depth == saturating_total(x.registered_agents@.map_values(|a: RegisteredAgent| a.inbox_depth)),
            },
    {
        let m = match &self.meta {
            None => { return None; },
            Some(m) => m,
        };
        let ghost hp = handler_pairs(self.handlers@);
        let mut agents: Vec<RegisteredAgent> = Vec::new();
        let mut total: u64 = 0;
        let mut i: usize = 0;
        while i < self.handlers.len()
            invariant
                self.wf(),
                i <= self.handlers@.len(),
                hp == handler_pairs(self.handlers@),
                agents@.len() == i,
                forall|j: int| 0 <= j < i ==> {
                    let a = #[trigger] agents@[j];
                    &&& a.identity_b64@ == self.handlers@[j].identity@
                    &&& strings_set(a.contexts@) == strings_set(self.handlers@[j].contexts@)
                    &&& strings_distinct(a.contexts@)
                    &&& a.inbox_depth == inbox_of(self.view(), a.identity_b64@).len()
                },
                total == saturating_total(agents@.map_values(|a: RegisteredAgent| a.inbox_depth)),
            decreases self.handlers@.len() - i,
        {
            let depth = self.inbox_len(&self.handlers[i].identity) as u64;
            let a = RegisteredAgent {
                identity_b64: self.handlers[i].identity.clone(),
                contexts: strings_unique(&self.handlers[i].contexts),
                inbox_depth: depth,
            };
            let ghost ag0 = agents@;
            agents.push(a);
            proof {
                assert(agents@.map_values(|x: RegisteredAgent| x.inbox_depth).drop_last() =~= ag0.map_values(|x: RegisteredAgent| x.inbox_depth));
            }
            total = total.saturating_add(depth);
            i = i + 1;
        }
        proof {
            let v = self.view();
            assert forall|j: int| 0 <= j < agents@.len() implies {
                let a = #[trigger] agents@[j];
                &&& v.handlers.contains_key(a.identity_b64@)
                &&& strings_set(a.contexts@) == v.handlers[a.identity_b64@]
            } by {
                lemma_pm_at(hp, j);
            }
            assert forall|id: Seq<char>| v.handlers.contains_key(id) implies exists|j: int|
                0 <= j < agents@.len() && (#[trigger] agents@[j]).identity_b64@ == id by {
                let j = crate::kvmap::pm_index(hp, id);
                assert(agents@[j].identity_b64@ == id);
            }
            lemma_handlers_dom_len(hp);
            assert forall|a: int, b: int| 0 <= a < b < agents@.len() implies
                (#[trigger] agents@[a]).identity_b64@ != (#[trigger] agents@[b]).identity_b64@ by {
                assert(hp[a].0 == self.handlers@[a].identity@);
                assert(hp[b].0 == self.handlers@[b].identity@);
            }
        }
        let at = m.created_at as u64;
        let resp = TeamStatusResponse {
            team_id_b64: m.team_id_b64.clone(),
            initialized_at_ms: at,
            tenancy_prefix: m.tenancy_prefix.clone(),
            registered_agents: agents,
            total_inbox_depth: total,
        };
        proof {
            let v = self.view();
            let ra = resp.registered_agents@;
            assert(v.meta == Some(m@));
            assert(resp.initialized_at_ms == v.meta.unwrap().created_at as u64);
            assert(ra.len() == v.handlers.dom().len());
            assert(forall|i: int| 0 <= i < ra.len() ==> {
                let a = #[trigger] ra[i];
                &&& v.handlers.contains_key(a.identity_b64@)
                &&& strings_set(a.contexts@) == v.handlers[a.identity_b64@]
                &&& strings_distinct(a.contexts@)
                &&& a.inbox_depth == inbox_of(v, a.identity_b64@).len()
            });
            assert(forall|id: Seq<char>| v.handlers.contains_key(id) ==> exists|i: int|
                0 <= i < ra.len() && (#[trigger] ra[i]).identity_b64@ == id);
            assert(forall|i: int, j: int| 0 <= i < j < ra.len() ==>
                (#[trigger] ra[i]).identity_b64@ != (#[trigger] ra[j]).identity_b64@);
            assert(resp.total_inbox_depth == saturating_total(ra.map_values(|a: RegisteredAgent| a.inbox_depth)));
        }
        Some(resp)
    }
}

impl WakeRecord {
    /// Absolute deadline of a row whose deadline fits in `u64`.
    fn absolute_timeout_of(&self) -> (t: u64)
        requires
            self.created_at + self.timeout_ms <= u64::MAX,
        ensures
            t == self@.deadline(),
    {
        self.absolute_timeout()
    }
}

proof fn lemma_handlers_dom_len(hp: Seq<(Seq<char>, Set<Seq<char>>)>)
    requires
        pm_distinct(hp),
    ensures
        pm_map(hp).dom().len() == hp.len(),
        pm_map(hp).dom().finite(),
    decreases hp.len(),
{
    if hp.len() == 0 {
        lemma_pm_empty::<Seq<char>, Set<Seq<char>>>();
        assert(hp =~= Seq::<(Seq<char>, Set<Seq<char>>)>::empty());
    } else {
        let q = hp.drop_last();
        assert forall|a: int, b: int| 0 <= a < q.len() && 0 <= b < q.len() && a != b implies (#[trigger] q[a]).0 != (#[trigger] q[b]).0 by {
            assert(q[a] == hp[a] && q[b] == hp[b]);
        }
        lemma_handlers_dom_len(q);
        let last = hp.last();
        assert forall|m: int| 0 <= m < q.len() implies (#[trigger] q[m]).0 != last.0 by {
            assert(q[m] == hp[m]);
            assert(hp[hp.len() - 1] == last);
        }
        lemma_pm_absent(q, last.0);
        lemma_pm_push(q, last.0, last.1);
        assert(q.push(last) =~= hp);
    }
}

/// The empty team state.
pub open spec fn empty_store() -> TeamStoreView {
    TeamStoreView {
        meta: None,
        handlers: Map::empty(),
        inboxes: Map::empty(),
        wakes: Map::empty(),
        alarms: Map::empty(),
    }
}

/// `v` holds a string equal to `c`.
fn strings_contain(v: &Vec<String>, c: &String) -> (r: bool)
    ensures
        r == strings_set(v@).contains(c@),
{
    let mut i: usize = 0;
    while i < v.len()
        invariant
            i <= v@.len(),
            forall|j: int| 0 <= j < i ==> (#[trigger] v@[j])@ != c@,
        decreases v@.len() - i,
    {
        if v[i] == *c {
            return true;
        }
        i = i + 1;
    }
    false
}


impl TeamStore {
    /// Some alarm slot is due at or before `now_ms`.
    pub fn has_due(&self, now_ms: u64) -> (r: bool)
        requires
            self.wf(),
        ensures
            r == exists|k: u64| k <= now_ms && #[trigger] self.view().alarms.contains_key(k),
    {
        let ghost p = alarm_pairs(self.alarms@);
        let mut i: usize = 0;
        while i < self.alarms.len()
            invariant
                i <= self.alarms@.len(),
                self.wf(),
                p == alarm_pairs(self.alarms@),
                forall|j: int| 0 <= j < i ==> (#[trigger] self.alarms@[j]).at > now_ms,
            decreases self.alarms@.len() - i,
        {
            if self.alarms[i].at <= now_ms {
                proof {
                    assert(p[i as int].0 == self.alarms@[i as int].at);
                    lemma_pm_at(p, i as int);
                    assert(self.view().alarms.contains_key(self.alarms@[i as int].at));
                }
                return true;
            }
            i = i + 1;
        }
        proof {
            assert forall|k: u64| k <= now_ms implies !#[trigger] self.view().alarms.contains_key(k) by {
                if self.view().alarms.contains_key(k) {
                    let m = crate::kvmap::pm_index(p, k);
                    assert(p[m].0 == self.alarms@[m].at);
                }
            }
        }
        false
    }
}


fn copy_bytes(v: &Vec<u8>) -> (r: Vec<u8>)
    ensures
        r@ == v@,
{
    let mut r: Vec<u8> = Vec::new();
    let mut i: usize = 0;
    while i < v.len()
        invariant
            i <= v@.len(),
            r@ == v@.subrange(0, i as int),
        decreases v@.len() - i,
    {
        r.push(v[i]);
        i = i + 1;
    }
    proof {
        assert(v@.subrange(0, v@.len() as int) =~= v@);
    }
    r
}

/// A copy of a wake row.
pub fn copy_record(x: &WakeRecord) -> (r: WakeRecord)
    ensures
        r@ == x@,
{
    WakeRecord {
        wake_id: x.wake_id,
        target_identity: x.target_identity.clone(),
        caller_identity: x.caller_identity.clone(),
        context_id: x.context_id.clone(),
        payload: copy_bytes(&x.payload),
        state: x.state,
        created_at: x.created_at,
        timeout_ms: x.timeout_ms,
        response_payload: match &x.response_payload {
            Some(b) => Some(copy_bytes(b)),
            None => None,
        },
    }
}

impl TeamStore {
    /// Stores the team metadata.
    pub fn load_meta(&mut self, meta: TeamMeta)
        requires
            old(self).wf(),
        ensures
            final(self).wf(),
            final(self).view() == (TeamStoreView { meta: Some(meta@), ..old(self).view() }),
    {
        self.meta = Some(meta);
    }

    /// Stores the contexts `entry.identity` handles, replacing earlier ones.
    pub fn load_handlers(&mut self, entry: HandlerEntry)
        requires
            old(self).wf(),
        ensures
            final(self).wf(),
            final(self).view() == (TeamStoreView {
                handlers: old(self).view().handlers.insert(entry.identity@, strings_set(entry.contexts@)),
                ..old(self).view()
            }),
    {
        let ghost s0 = self.view();
        let ghost k = entry.identity@;
        let ghost v = strings_set(entry.contexts@);
        let ghost p0 = handler_pairs(self.handlers@);
        match self.find_handler(&entry.identity) {
            Some(j) => {
                proof {
                    lemma_pm_at(p0, j as int);
                    lemma_pm_update(p0, j as int, v);
                }
                self.handlers.remove(j);
                self.handlers.insert(j, entry);
                proof {
                    assert(handler_pairs(self.handlers@) =~= p0.update(j as int, (p0[j as int].0, v)));
                }
            },
            None => {
                proof {
                    assert forall|m: int| 0 <= m < p0.len() implies (#[trigger] p0[m]).0 != k by {
                        assert(p0[m].0 == self.handlers@[m].identity@);
                    }
                    lemma_pm_absent(p0, k);
                    lemma_pm_push(p0, k, v);
                }
                self.handlers.push(entry);
                proof {
                    assert(handler_pairs(self.handlers@) =~= p0.push((k, v)));
                }
            },
        }
        proof {
            assert(self.view() =~= (TeamStoreView { handlers: s0.handlers.insert(k, v), ..s0 }));
        }
    }

    /// Stores the inbox of `entry.identity`, replacing an earlier one.
    pub fn load_inbox(&mut self, entry: InboxEntry)
        requires
            old(self).wf(),
        ensures
            final(self).wf(),
            final(self).view() == (TeamStoreView {
                inboxes: old(self).view().inboxes.insert(entry.identity@, entry.wakes@),
                ..old(self).view()
            }),
    {
        let ghost s0 = self.view();
        let ghost k = entry.identity@;
        let ghost v = entry.wakes@;
        let ghost p0 = inbox_pairs(self.inboxes@);
        match self.find_inbox(&entry.identity) {
            Some(j) => {
                proof {
                    lemma_pm_at(p0, j as int);
                    lemma_pm_update(p0, j as int, v);
                }
                self.inboxes.remove(j);
                self.inboxes.insert(j, entry);
                proof {
                    assert(inbox_pairs(self.inboxes@) =~= p0.update(j as int, (p0[j as int].0, v)));
                }
            },
            None => {
                proof {
                    assert forall|m: int| 0 <= m < p0.len() implies (#[trigger] p0[m]).0 != k by {
                        assert(p0[m].0 == self.inboxes@[m].identity@);
                    }
                    lemma_pm_absent(p0, k);
                    lemma_pm_push(p0, k, v);
                }
                self.inboxes.push(entry);
                proof {
                    assert(inbox_pairs(self.inboxes@) =~= p0.push((k, v)));
                }
            },
        }
        proof {
            assert(self.view() =~= (TeamStoreView { inboxes: s0.inboxes.insert(k, v), ..s0 }));
        }
    }

    /// Stores the alarm slot at `slot.at`, replacing an earlier one.
    pub fn load_alarm(&mut self, slot: AlarmSlot)
        requires
            old(self).wf(),
        ensures
            final(self).wf(),
            final(self).view() == (TeamStoreView {
                alarms: old(self).view().alarms.insert(slot.at, slot.wakes@),
                ..old(self).view()
            }),
    {
        let ghost s0 = self.view();
        let ghost k = slot.at;
        let ghost v = slot.wakes@;
        let ghost p0 = alarm_pairs(self.alarms@);
        match self.find_alarm(slot.at) {
            Some(j) => {
                proof {
                    lemma_pm_at(p0, j as int);
                    lemma_pm_update(p0, j as int, v);
                }
                self.alarms.remove(j);
                self.alarms.insert(j, slot);
                proof {
                    assert(alarm_pairs(self.alarms@) =~= p0.update(j as int, (p0[j as int].0, v)));
                }
            },
            None => {
                proof {
                    assert forall|m: int| 0 <= m < p0.len() implies (#[trigger] p0[m]).0 != k by {
                        assert(p0[m].0 == self.alarms@[m].at);
                    }
                    lemma_pm_absent(p0, k);
                    lemma_pm_push(p0, k, v);
                }
                self.alarms.push(slot);
                proof {
                    assert(alarm_pairs(self.alarms@) =~= p0.push((k, v)));
                }
            },
        }
        proof {
            assert(self.view() =~= (TeamStoreView { alarms: s0.alarms.insert(k, v), ..s0 }));
        }
    }

    /// Stores a wake row, replacing one with the same identifier; a row
    /// whose deadline does not fit in `u64` is not stored (`false`).
    pub fn load_wake(&mut self, rec: WakeRecord) -> (r: bool)
        requires
            old(self).wf(),
        ensures
            final(self).wf(),
            r == (rec@.deadline() <= u64::MAX),
            r ==> final(self).view() == (TeamStoreView { wakes: old(self).view().wakes.insert(rec.wake_id, rec@), ..old(self).view() }),
            !r ==> final(self).view() == old(self).view(),
    {
        if rec.created_at > u64::MAX - rec.timeout_ms as u64 {
            return false;
        }
        self.put_wake(rec);
        true
    }

    /// The handler table: one entry per identity, as stored.
    pub fn handler_table(&self) -> (r: Vec<HandlerEntry>)
        requires
            self.wf(),
        ensures
            pm_distinct(handler_pairs(r@)),
            pm_map(handler_pairs(r@)) == self.view().handlers,
    {
        let mut r: Vec<HandlerEntry> = Vec::new();
        let mut i: usize = 0;
        while i < self.handlers.len()
            invariant
                i <= self.handlers@.len(),
                handler_pairs(r@) == handler_pairs(self.handlers@).subrange(0, i as int),
            decreases self.handlers@.len() - i,
        {
            let e = &self.handlers[i];
            let copy = HandlerEntry { identity: e.identity.clone(), contexts: strings_copy(&e.contexts) };
            let ghost r0 = r@;
            r.push(copy);
            proof {
                assert(handler_pairs(r@) =~= handler_pairs(r0).push((copy.identity@, strings_set(copy.contexts@))));
                assert(handler_pairs(self.handlers@).subrange(0, i as int + 1) =~= handler_pairs(self.handlers@).subrange(0, i as int).push(handler_pairs(self.handlers@)[i as int]));
            }
            i = i + 1;
        }
        proof {
            assert(handler_pairs(self.handlers@).subrange(0, self.handlers@.len() as int) =~= handler_pairs(self.handlers@));
            assert(handler_pairs(r@) == handler_pairs(self.handlers@));
        }
        r
    }

    /// The inbox table: one entry per identity, as stored.
    pub fn inbox_table(&self) -> (r: Vec<InboxEntry>)
        requires
            self.wf(),
        ensures
            pm_distinct(inbox_pairs(r@)),
            pm_map(inbox_pairs(r@)) == self.view().inboxes,
    {
        let mut r: Vec<InboxEntry> = Vec::new();
        let mut i: usize = 0;
        while i < self.inboxes.len()
            invariant
                i <= self.inboxes@.len(),
                inbox_pairs(r@) == inbox_pairs(self.inboxes@).subrange(0, i as int),
            decreases self.inboxes@.len() - i,
        {
            let e = &self.inboxes[i];
            let copy = InboxEntry { identity: e.identity.clone(), wakes: deque_copy(&e.wakes) };
            let ghost r0 = r@;
            r.push(copy);
            proof {
                assert(inbox_pairs(r@) =~= inbox_pairs(r0).push((copy.identity@, copy.wakes@)));
                assert(inbox_pairs(self.inboxes@).subrange(0, i as int + 1) =~= inbox_pairs(self.inboxes@).subrange(0, i as int).push(inbox_pairs(self.inboxes@)[i as int]));
            }
            i = i + 1;
        }
        proof {
            assert(inbox_pairs(self.inboxes@).subrange(0, self.inboxes@.len() as int) =~= inbox_pairs(self.inboxes@));
            assert(inbox_pairs(r@) == inbox_pairs(self.inboxes@));
        }
        r
    }

    /// The alarm table: one slot per deadline, as stored.
    pub fn alarm_table(&self) -> (r: Vec<AlarmSlot>)
        requires
            self.wf(),
        ensures
            pm_distinct(alarm_pairs(r@)),
            pm_map(alarm_pairs(r@)) == self.view().alarms,
    {
        let mut r: Vec<AlarmSlot> = Vec::new();
        let mut i: usize = 0;
        while i < self.alarms.len()
            invariant
                i <= self.alarms@.len(),
                alarm_pairs(r@) == alarm_pairs(self.alarms@).subrange(0, i as int),
            decreases self.alarms@.len() - i,
        {
            let e = &self.alarms[i];
            let copy = AlarmSlot { at: e.at, wakes: vec_copy(&e.wakes) };
            let ghost r0 = r@;
            r.push(copy);
            proof {
                assert(alarm_pairs(r@) =~= alarm_pairs(r0).push((copy.at, copy.wakes@)));
                assert(alarm_pairs(self.alarms@).subrange(0, i as int + 1) =~= alarm_pairs(self.alarms@).subrange(0, i as int).push(alarm_pairs(self.alarms@)[i as int]));
            }
            i = i + 1;
        }
        proof {
            assert(alarm_pairs(self.alarms@).subrange(0, self.alarms@.len() as int) =~= alarm_pairs(self.alarms@));
            assert(alarm_pairs(r@) == alarm_pairs(self.alarms@));
        }
        r
    }

    /// Copies of all wake rows, as stored.
    pub fn wake_rows(&self) -> (r: Vec<WakeRecord>)
        requires
            self.wf(),
        ensures
            pm_distinct(wake_pairs(r@)),
            pm_map(wake_pairs(r@)) == self.view().wakes,
    {
        let mut r: Vec<WakeRecord> = Vec::new();
        let mut i: usize = 0;
        while i < self.wakes.len()
            invariant
                i <= self.wakes@.len(),
                wake_pairs(r@) == wake_pairs(self.wakes@).subrange(0, i as int),
            decreases self.wakes@.len() - i,
        {
            let copy = copy_record(&self.wakes[i]);
            let ghost r0 = r@;
            r.push(copy);
            proof {
                assert(wake_pairs(r@) =~= wake_pairs(r0).push((copy.wake_id, copy@)));
                assert(wake_pairs(self.wakes@).subrange(0, i as int + 1) =~= wake_pairs(self.wakes@).subrange(0, i as int).push(wake_pairs(self.wakes@)[i as int]));
            }
            i = i + 1;
        }
        proof {
            assert(wake_pairs(self.wakes@).subrange(0, self.wakes@.len() as int) =~= wake_pairs(self.wakes@));
            assert(wake_pairs(r@) == wake_pairs(self.wakes@));
        }
        r
    }
}

} // verus!
