use tally::errors::{TallyError, WakeError};
use tally::store::TeamStore;
use tally::team_api::handle_alarm;
use tally::wake::{WakeId, WakeState};

const NOW: u64 = 1_700_000_000_000;

fn s(x: &str) -> String {
    x.to_string()
}

fn team_with_handler(identity: &str, ctx: &str) -> TeamStore {
    let mut t = TeamStore::new();
    t.register_handler(&s(identity), &s(ctx));
    t
}

#[test]
fn register_is_idempotent() {
    let mut t = team_with_handler("bob", "ctx");
    t.register_handler(&s("bob"), &s("ctx"));
    t.ensure_team_meta(&s("team"), 0);
    let status = t.status().unwrap();
    assert_eq!(status.registered_agents.len(), 1);
    assert_eq!(status.registered_agents[0].contexts, vec![s("ctx")]);
}

#[test]
fn register_then_unregister_restores() {
    let mut t = team_with_handler("bob", "ctx");
    t.unregister_handler(&s("bob"), &s("ctx"));
    t.ensure_team_meta(&s("team"), 0);
    assert!(t.status().unwrap().registered_agents.is_empty());
    let r = t.dispatch(&s("alice"), &s("bob"), &s("ctx"), vec![1], 1000, WakeId::from_bits(1), NOW);
    assert!(matches!(r, Err(WakeError::HandlerNotFound)));
}

#[test]
fn completes_once_and_only_by_its_target() {
    let mut t = team_with_handler("bob", "ctx");
    let id = WakeId::from_bits(9);
    t.dispatch(&s("alice"), &s("bob"), &s("ctx"), b"q".to_vec(), 5000, id, NOW).unwrap();
    assert_eq!(t.inbox(&s("bob")), vec![id]);
    assert!(matches!(t.complete_wake(id, &s("carol"), b"a".to_vec()), Err(TallyError::IdentityMismatch)));
    let eff = t.complete_wake(id, &s("bob"), b"a".to_vec()).unwrap();
    assert_eq!(eff.target_identity, "bob");
    assert_eq!(eff.next_alarm, None);
    assert!(t.inbox(&s("bob")).is_empty());
    let row = t.wake(id).unwrap();
    assert_eq!(row.state, WakeState::Completed);
    assert_eq!(row.response_payload, Some(b"a".to_vec()));
    assert!(matches!(t.complete_wake(id, &s("bob"), b"b".to_vec()), Err(TallyError::AlreadyTerminal)));
    assert!(matches!(t.complete_wake(WakeId::from_bits(10), &s("bob"), vec![]), Err(TallyError::WakeNotFound)));
}

#[test]
fn terminal_rows_survive_alarms() {
    let mut t = team_with_handler("bob", "ctx");
    let done = WakeId::from_bits(1);
    let late = WakeId::from_bits(2);
    t.dispatch(&s("alice"), &s("bob"), &s("ctx"), vec![], 1000, done, NOW).unwrap();
    t.dispatch(&s("alice"), &s("bob"), &s("ctx"), vec![], 1000, late, NOW).unwrap();
    t.complete_wake(done, &s("bob"), vec![7]).unwrap();
    let fired = handle_alarm(&mut t, NOW + 1000);
    assert!(fired.processed);
    assert_eq!(fired.effects.timed_out, vec![(late, 1000)]);
    assert_eq!(t.wake(done).unwrap().state, WakeState::Completed);
    assert_eq!(t.wake(late).unwrap().state, WakeState::TimedOut);
    assert!(t.inbox(&s("bob")).is_empty());
}

#[test]
fn alarm_twice_at_same_time_changes_nothing() {
    let mut t = team_with_handler("bob", "ctx");
    let id = WakeId::from_bits(3);
    t.dispatch(&s("alice"), &s("bob"), &s("ctx"), vec![], 2000, id, NOW).unwrap();
    let first = t.fire_alarm(NOW + 2000);
    assert_eq!(first.timed_out, vec![(id, 2000)]);
    let second = t.fire_alarm(NOW + 2000);
    assert!(second.timed_out.is_empty());
    assert_eq!(second.next_alarm, None);
    assert!(!t.has_due(NOW + 2000));
}

#[test]
fn no_timeout_before_deadline() {
    let mut t = team_with_handler("bob", "ctx");
    let id = WakeId::from_bits(4);
    t.dispatch(&s("alice"), &s("bob"), &s("ctx"), vec![], 3000, id, NOW).unwrap();
    assert_eq!(t.next_alarm(), Some(NOW + 3000));
    let early = t.fire_alarm(NOW + 2999);
    assert!(early.timed_out.is_empty());
    assert_eq!(t.wake(id).unwrap().state, WakeState::Pending);
    assert_eq!(t.inbox_len(&s("bob")), 1);
}

#[test]
fn dispatch_then_read_lists_the_wake_last() {
    let mut t = team_with_handler("bob", "ctx");
    let a = WakeId::from_bits(5);
    let b = WakeId::from_bits(6);
    t.dispatch(&s("alice"), &s("bob"), &s("ctx"), b"one".to_vec(), 1000, a, NOW).unwrap();
    t.dispatch(&s("carol"), &s("bob"), &s("ctx"), b"two".to_vec(), 4000, b, NOW).unwrap();
    let page = t.read_inbox(&s("bob"), 10);
    assert_eq!(page.wakes.len(), 2);
    assert!(!page.more_available);
    let last = &page.wakes[1];
    assert_eq!(last.wake_id, b.to_string());
    assert_eq!(last.caller_identity_b64, "carol");
    assert_eq!(last.payload_b64, "dHdv");
    assert_eq!(last.expires_at_ms, NOW + 4000);
    let page = t.read_inbox(&s("bob"), 1);
    assert_eq!(page.wakes.len(), 1);
    assert!(page.more_available);
}

#[test]
fn init_keeps_first_metadata_and_reset_clears() {
    let mut t = TeamStore::new();
    t.ensure_team_meta(&s("abc"), 10);
    t.ensure_team_meta(&s("other"), 99);
    let m = t.init_response().unwrap();
    assert_eq!((m.team_id_b64.as_str(), m.initialized_at_ms, m.tenancy_prefix.as_str()), ("abc", 10, "tally-cli-local"));
    t.register_handler(&s("bob"), &s("ctx"));
    t.reset();
    assert!(t.init_response().is_none());
    t.ensure_team_meta(&s("abc"), 20);
    assert_eq!(t.init_response().unwrap().initialized_at_ms, 20);
    assert!(t.status().unwrap().registered_agents.is_empty());
}

#[test]
fn tables_round_trip_through_loaders() {
    let mut t = team_with_handler("bob", "ctx");
    let id = WakeId::from_bits(11);
    t.dispatch(&s("alice"), &s("bob"), &s("ctx"), b"p".to_vec(), 1000, id, NOW).unwrap();
    let mut u = TeamStore::new();
    for e in t.handler_table() {
        u.load_handlers(e);
    }
    for e in t.inbox_table() {
        u.load_inbox(e);
    }
    for r in t.wake_rows() {
        assert!(u.load_wake(r));
    }
    for a in t.alarm_table() {
        u.load_alarm(a);
    }
    assert_eq!(u.inbox(&s("bob")), vec![id]);
    assert_eq!(u.next_alarm(), Some(NOW + 1000));
    assert!(u.complete_wake(id, &s("bob"), vec![]).is_ok());
}

#[test]
fn init_twice_keeps_first_answer() {
    let mut t = TeamStore::new();
    t.ensure_team_meta(&s("team-a"), 1_000);
    let first = t.init_response().unwrap();
    t.ensure_team_meta(&s("team-b"), 9_000);
    let second = t.init_response().unwrap();
    assert_eq!(first.team_id_b64, "team-a");
    assert_eq!(first.tenancy_prefix, "tally-cli-local");
    assert_eq!((second.team_id_b64, second.initialized_at_ms, second.tenancy_prefix), (first.team_id_b64, first.initialized_at_ms, first.tenancy_prefix));
}

#[test]
fn reset_then_reinit_shows_new_time() {
    let mut t = team_with_handler("bob", "ctx");
    t.ensure_team_meta(&s("team"), NOW as i64);
    let before = tally::iso8601::format_iso8601_utc(t.init_response().unwrap().initialized_at_ms);
    t.reset();
    t.ensure_team_meta(&s("team"), NOW as i64 + 1_100);
    let after = tally::iso8601::format_iso8601_utc(t.init_response().unwrap().initialized_at_ms);
    assert_ne!(before, after);
    assert_eq!(t.status().unwrap().registered_agents.len(), 0);
}

#[test]
fn status_lists_each_context_once() {
    let mut t = TeamStore::new();
    t.ensure_team_meta(&s("team"), 0);
    t.load_handlers(tally::store::HandlerEntry { identity: s("bob"), contexts: vec![s("a"), s("a"), s("b"), s("a")] });
    t.register_handler(&s("carol"), &s("x"));
    t.register_handler(&s("carol"), &s("x"));
    let status = t.status().unwrap();
    assert_eq!(status.registered_agents.len(), 2);
    let bob = status.registered_agents.iter().find(|a| a.identity_b64 == "bob").unwrap();
    assert_eq!(bob.contexts, vec![s("a"), s("b")]);
    let carol = status.registered_agents.iter().find(|a| a.identity_b64 == "carol").unwrap();
    assert_eq!(carol.contexts, vec![s("x")]);
}

#[test]
fn dispatch_needs_only_its_rows() {
    // Full state: two agents, each with a pending wake.
    let mut full = TeamStore::new();
    full.register_handler(&s("bob"), &s("ctx"));
    full.register_handler(&s("carol"), &s("ctx"));
    full.dispatch(&s("alice"), &s("carol"), &s("ctx"), vec![7], 5000, WakeId::from_bits(10), NOW).unwrap();
    full.dispatch(&s("alice"), &s("bob"), &s("ctx"), vec![8], 5000, WakeId::from_bits(11), NOW).unwrap();
    // Partial state: only the rows a dispatch to bob reads.
    let mut part = TeamStore::new();
    for e in full.handler_table() {
        if e.identity == "bob" {
            part.load_handlers(e);
        }
    }
    for e in full.inbox_table() {
        if e.identity == "bob" {
            part.load_inbox(e);
        }
    }
    for slot in full.alarm_table() {
        part.load_alarm(slot);
    }
    let id = WakeId::from_bits(12);
    let a = full.dispatch(&s("alice"), &s("bob"), &s("ctx"), vec![9], 2000, id, NOW + 1).unwrap();
    let b = part.dispatch(&s("alice"), &s("bob"), &s("ctx"), vec![9], 2000, id, NOW + 1).unwrap();
    assert_eq!((a.evicted, a.next_alarm), (b.evicted, b.next_alarm));
    assert_eq!(full.inbox(&s("bob")), part.inbox(&s("bob")));
    let mut fa: Vec<(u64, Vec<WakeId>)> = full.alarm_table().into_iter().map(|x| (x.at, x.wakes)).collect();
    let mut pa: Vec<(u64, Vec<WakeId>)> = part.alarm_table().into_iter().map(|x| (x.at, x.wakes)).collect();
    fa.sort_by_key(|x| x.0);
    pa.sort_by_key(|x| x.0);
    assert_eq!(fa, pa);
    assert_eq!(full.wake(id).map(|r| r.payload.clone()), part.wake(id).map(|r| r.payload.clone()));
    // Carol's rows are untouched by the dispatch to bob.
    assert_eq!(full.inbox(&s("carol")), vec![WakeId::from_bits(10)]);
}
