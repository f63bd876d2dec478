//! End-to-end scenarios of the public HTTP surface, driven through the
//! library's routing, authentication, team-object and conversion
//! functions with an in-process team table and a manual clock.

use std::collections::HashMap;

use base64::Engine;
use tally::codec::b64_encode;
use tally::gateway::{
    authenticate, complete_reply, complete_request, dispatch_reply, dispatch_request, health_response, inbox_reply,
    init_reply, register_reply, register_request, status_reply, unregister_request, AuthStep,
    REGISTER_STATUS, NO_CONTENT_STATUS, RUNTIME_VERSION,
};
use tally::replies::{ErrorReply, Refusal};
use tally::rpc::{
    PublicCompleteRequest, PublicCompleteResponse, PublicDispatchRequest, PublicDispatchResponse,
    PublicInitTeamResponse, PublicReadInboxResponse, PublicRegisterRequest, PublicTeamStatusResponse,
    ValidateApiKeyRequest,
};
use tally::store::TeamStore;
use tally::team_api::{
    dispatch_outcome, handle_alarm, handle_complete_wake, handle_dispatch, handle_register, handle_unregister,
    handle_validate_api_key, plan_read_inbox, WakeOutcome,
};
use tally::wake::WakeId;

/// What a refused public request was answered.
#[derive(Debug)]
struct Reply {
    status: u16,
    error: String,
    wake_id: Option<String>,
    context_id: Option<String>,
    timeout_seconds: Option<u64>,
}

fn json(e: ErrorReply) -> Reply {
    Reply { status: e.status, error: e.error, wake_id: e.wake_id, context_id: e.context_id, timeout_seconds: e.timeout_seconds }
}

fn refusal(r: Refusal) -> Reply {
    match r {
        Refusal::Json(e) => json(e),
        Refusal::Text(t) => Reply { status: t.status, error: t.message, wake_id: None, context_id: None, timeout_seconds: None },
    }
}

/// A dispatch waiting for its wake to resolve.
struct Pending {
    team_id: String,
    wake_id: WakeId,
    target: String,
    context: String,
    timeout_ms: u64,
}

struct Harness {
    teams: HashMap<String, TeamStore>,
    now_ms: u64,
    counter: u8,
}

/// An identity parses when it is the url-safe base64 of 32 bytes.
fn identity_check(s: &str) -> Result<(), String> {
    match base64::engine::general_purpose::URL_SAFE_NO_PAD.decode(s) {
        Ok(b) if b.len() == 32 => Ok(()),
        Ok(b) => Err(format!("expected 32 bytes, got {}", b.len())),
        Err(e) => Err(e.to_string()),
    }
}

impl Harness {
    fn new() -> Harness {
        Harness { teams: HashMap::new(), now_ms: 1_778_702_400_000, counter: 0 }
    }

    fn new_identity(&mut self) -> (String, String) {
        self.counter += 1;
        let bytes: Vec<u8> = (0..32u8).map(|i| i.wrapping_mul(7).wrapping_add(self.counter)).collect();
        let id = b64_encode(&bytes);
        (id.clone(), id)
    }

    fn new_team_id(&mut self) -> String {
        WakeId::new().to_string()
    }

    fn team(&mut self, team_id: &str) -> &mut TeamStore {
        let now = self.now_ms as i64;
        let store = self.teams.entry(team_id.to_string()).or_insert_with(TeamStore::new);
        store.ensure_team_meta(&team_id.to_string(), now);
        store
    }

    fn auth(&mut self, bearer: Option<&str>, url_identity: Option<&str>) -> Result<String, Reply> {
        let header = bearer.map(|b| format!("Bearer {}", b));
        let mut found = None;
        let mut validation = None;
        loop {
            match authenticate(header.as_deref(), found, validation.as_ref(), url_identity) {
                AuthStep::Refuse(e) => return Err(json(e)),
                AuthStep::Authenticated(id) => return Ok(id),
                AuthStep::LookUpTeam => found = Some(true),
                AuthStep::Validate(token) => {
                    let parses = identity_check(&token).is_ok();
                    validation = Some(Ok(handle_validate_api_key(&ValidateApiKeyRequest { bearer: token }, parses)));
                }
            }
        }
    }

    fn register(&mut self, team_id: &str, identity: &str, bearer: &str, ctx: &str) -> Result<u16, Reply> {
        let id = self.auth(Some(bearer), Some(identity))?;
        let public = PublicRegisterRequest { context_id: ctx.to_string() };
        let body = register_request(id.clone(), &public);
        let check = identity_check(&id);
        handle_register(self.team(team_id), &body, &check).map_err(refusal)?;
        let reply = register_reply(&public);
        assert!(reply.registered);
        assert_eq!(reply.context_id, ctx);
        Ok(REGISTER_STATUS)
    }

    fn unregister(&mut self, team_id: &str, identity: &str, bearer: &str, ctx: &str) -> Result<u16, Reply> {
        let id = self.auth(Some(bearer), Some(identity))?;
        let body = unregister_request(id.clone(), ctx.to_string());
        let check = identity_check(&id);
        handle_unregister(self.team(team_id), &body, &check).map_err(refusal)?;
        Ok(NO_CONTENT_STATUS)
    }

    fn dispatch(&mut self, team_id: &str, bearer: &str, target: &str, ctx: &str, payload: &str, timeout_seconds: u32) -> Result<Pending, Reply> {
        let caller = self.auth(Some(bearer), None)?;
        let public = PublicDispatchRequest {
            target_identity: target.to_string(),
            context_id: ctx.to_string(),
            payload: payload.to_string(),
            timeout_seconds,
        };
        let body = dispatch_request(caller, &public);
        let caller_check = identity_check(&body.caller_identity_b64);
        let target_check = identity_check(&body.target_identity_b64);
        let now = self.now_ms;
        let wake_id = WakeId::new();
        let accepted = handle_dispatch(self.team(team_id), &body, &caller_check, &target_check, wake_id, now).map_err(refusal)?;
        Ok(Pending {
            team_id: team_id.to_string(),
            wake_id: accepted.wake_id,
            target: body.target_identity_b64.clone(),
            context: body.context_id.clone(),
            timeout_ms: body.timeout_ms as u64,
        })
    }

    fn complete(&mut self, team_id: &str, wake_id: &str, bearer: &str, response: &str) -> Result<(PublicCompleteResponse, Vec<u8>), Reply> {
        let by = self.auth(Some(bearer), None)?;
        let body = complete_request(by.clone(), wake_id.to_string(), &PublicCompleteRequest { response: response.to_string() });
        let check = identity_check(&by);
        let accepted = handle_complete_wake(self.team(team_id), &body, &check).map_err(refusal)?;
        Ok((complete_reply(wake_id.to_string()), accepted.response))
    }

    fn resolve(&self, p: &Pending, outcome: WakeOutcome) -> Result<PublicDispatchResponse, Reply> {
        let internal = dispatch_outcome(p.wake_id, &p.target, &p.context, &outcome).map_err(json)?;
        Ok(dispatch_reply(&internal))
    }

    fn read_inbox(&mut self, team_id: &str, identity: &str, bearer: &str, wait_seconds: u32, limit: Option<u32>) -> Result<PublicReadInboxResponse, Reply> {
        let id = self.auth(Some(bearer), Some(identity))?;
        let mut pairs = vec![("wait_seconds".to_string(), wait_seconds.to_string())];
        if let Some(l) = limit {
            pairs.push(("limit".to_string(), l.to_string()));
        }
        let plan = plan_read_inbox(&identity_check(&id), &pairs).map_err(refusal)?;
        let store = self.team(team_id);
        let internal = store.read_inbox(&id, plan.limit);
        Ok(inbox_reply(&internal))
    }

    fn team_init(&mut self, team_id: &str, bearer: Option<&str>) -> Result<PublicInitTeamResponse, Reply> {
        self.auth(bearer, None)?;
        let internal = self.team(team_id).init_response().expect("initialized");
        Ok(init_reply(&internal))
    }

    fn team_status(&mut self, team_id: &str, bearer: &str) -> Result<PublicTeamStatusResponse, Reply> {
        self.auth(Some(bearer), None)?;
        let internal = self.team(team_id).status().expect("initialized");
        Ok(status_reply(&internal))
    }

    fn team_delete(&mut self, team_id: &str, bearer: &str) -> Result<u16, Reply> {
        self.auth(Some(bearer), None)?;
        self.team(team_id).reset();
        Ok(NO_CONTENT_STATUS)
    }
}

#[test]
fn health_check() {
    let body = health_response();
    assert_eq!(body.status, "ok");
    assert!(!body.version.is_empty());
    assert_eq!(body.version, RUNTIME_VERSION);
}

#[test]
fn register_handler() {
    let mut h = Harness::new();
    let team_id = h.new_team_id();
    let (identity_b64, bearer) = h.new_identity();
    assert_eq!(h.register(&team_id, &identity_b64, &bearer, "task-routing").unwrap(), 201);
    assert_eq!(h.register(&team_id, &identity_b64, &bearer, "task-routing-2").unwrap(), 201);
}

#[test]
fn unregister_handler() {
    let mut h = Harness::new();
    let team_id = h.new_team_id();
    let (identity_b64, bearer) = h.new_identity();
    let (_caller_id, caller_bearer) = h.new_identity();
    assert_eq!(h.register(&team_id, &identity_b64, &bearer, "task-routing").unwrap(), 201);
    assert_eq!(h.unregister(&team_id, &identity_b64, &bearer, "task-routing").unwrap(), 204);
    let payload = b64_encode(b"hello");
    let err = h.dispatch(&team_id, &caller_bearer, &identity_b64, "task-routing", &payload, 5).err().unwrap();
    assert_eq!(err.status, 422);
}

#[test]
fn dispatch_and_complete() {
    let mut h = Harness::new();
    let team_id = h.new_team_id();
    let (target_id, target_bearer) = h.new_identity();
    let (caller_id, caller_bearer) = h.new_identity();
    assert_eq!(h.register(&team_id, &target_id, &target_bearer, "task-routing").unwrap(), 201);
    let payload_b64 = b64_encode(b"please respond");
    let pending = h.dispatch(&team_id, &caller_bearer, &target_id, "task-routing", &payload_b64, 10).unwrap();

    let inbox = h.read_inbox(&team_id, &target_id, &target_bearer, 5, None).unwrap();
    assert_eq!(inbox.wakes.len(), 1, "inbox should hold the pending wake");
    let wake = &inbox.wakes[0];
    assert_eq!(wake.caller_identity, caller_id);
    assert_eq!(wake.context_id, "task-routing");
    assert_eq!(wake.payload, payload_b64);
    assert!(wake.expires_at.ends_with('Z'));
    assert_eq!(wake.expires_at, "2026-05-13T20:00:10Z");
    let wake_id = wake.wake_id.clone();

    let response_payload = b64_encode(b"here is the answer");
    let (comp, response) = h.complete(&team_id, &wake_id, &target_bearer, &response_payload).unwrap();
    assert!(comp.completed);
    assert_eq!(comp.wake_id, wake_id);

    let disp = h.resolve(&pending, WakeOutcome::Completed { response, completed_at: h.now_ms + 500 }).unwrap();
    assert_eq!(disp.wake_id, wake_id);
    assert_eq!(disp.response, response_payload);
    assert_eq!(disp.completed_at, "2026-05-13T20:00:00Z");
    assert_eq!(pending.team_id, team_id);
}

#[test]
fn read_inbox_immediate() {
    let mut h = Harness::new();
    let team_id = h.new_team_id();
    let (target_id, target_bearer) = h.new_identity();
    let (_caller_id, caller_bearer) = h.new_identity();
    assert_eq!(h.register(&team_id, &target_id, &target_bearer, "ctx-a").unwrap(), 201);
    let body = h.read_inbox(&team_id, &target_id, &target_bearer, 0, None).unwrap();
    assert!(body.wakes.is_empty());
    assert!(!body.more_available);
    let payload = b64_encode(b"ping");
    h.dispatch(&team_id, &caller_bearer, &target_id, "ctx-a", &payload, 30).unwrap();
    let body = h.read_inbox(&team_id, &target_id, &target_bearer, 0, None).unwrap();
    assert_eq!(body.wakes.len(), 1);
    assert_eq!(body.wakes[0].payload, payload);
}

#[test]
fn read_inbox_with_limit() {
    let mut h = Harness::new();
    let team_id = h.new_team_id();
    let (target_id, target_bearer) = h.new_identity();
    let (_caller_id, caller_bearer) = h.new_identity();
    assert_eq!(h.register(&team_id, &target_id, &target_bearer, "ctx-a").unwrap(), 201);
    for i in 0..3u8 {
        let payload = b64_encode(&[i]);
        h.dispatch(&team_id, &caller_bearer, &target_id, "ctx-a", &payload, 30).unwrap();
    }
    let body = h.read_inbox(&team_id, &target_id, &target_bearer, 0, Some(2)).unwrap();
    assert_eq!(body.wakes.len(), 2, "limit=2 should return 2 wakes; got {}", body.wakes.len());
    assert!(body.more_available, "with 3 pending and limit=2, more_available should be true");
    let body = h.read_inbox(&team_id, &target_id, &target_bearer, 0, Some(10)).unwrap();
    assert_eq!(body.wakes.len(), 3);
    assert!(!body.more_available);
    assert_eq!(body.wakes[0].payload, b64_encode(&[0]));
    assert_eq!(body.wakes[2].payload, b64_encode(&[2]));
}

#[test]
fn error_401_missing_bearer() {
    let mut h = Harness::new();
    let err = h.auth(None, Some("x")).err().unwrap();
    assert_eq!(err.status, 401);
    assert_eq!(err.error, "missing or malformed Authorization header");
}

#[test]
fn error_401_invalid_bearer() {
    let mut h = Harness::new();
    let team_id = h.new_team_id();
    let (target_id, _) = h.new_identity();
    let err = h.read_inbox(&team_id, &target_id, "@@@@not!valid!base64@@@@", 0, None).err().unwrap();
    assert_eq!(err.status, 401);
    assert_eq!(err.error, "invalid Bearer token");
}

#[test]
fn error_403_identity_mismatch() {
    let mut h = Harness::new();
    let team_id = h.new_team_id();
    let (_alice_id, alice_bearer) = h.new_identity();
    let (bob_id, _bob_bearer) = h.new_identity();
    let err = h.read_inbox(&team_id, &bob_id, &alice_bearer, 0, None).err().unwrap();
    assert_eq!(err.status, 403);
    assert_eq!(err.error, "URL identity does not match authenticated identity");
}

#[test]
fn error_404_wake_not_found() {
    let mut h = Harness::new();
    let team_id = h.new_team_id();
    let (_caller, caller_bearer) = h.new_identity();
    let fake_wake_id = WakeId::new().to_string();
    let response = b64_encode(b"unused");
    let err = h.complete(&team_id, &fake_wake_id, &caller_bearer, &response).err().unwrap();
    assert_eq!(err.status, 404);
    assert_eq!(err.error, "wake not found");
    assert_eq!(err.wake_id.as_deref(), Some(fake_wake_id.as_str()));
}

#[test]
fn error_408_timeout() {
    let mut h = Harness::new();
    let team_id = h.new_team_id();
    let (target_id, target_bearer) = h.new_identity();
    let (_caller, caller_bearer) = h.new_identity();
    assert_eq!(h.register(&team_id, &target_id, &target_bearer, "ctx-timeout").unwrap(), 201);
    let payload = b64_encode(b"will timeout");
    let pending = h.dispatch(&team_id, &caller_bearer, &target_id, "ctx-timeout", &payload, 1).unwrap();

    // Before the deadline the alarm times nothing out.
    let early = handle_alarm(h.teams.get_mut(&team_id).unwrap(), h.now_ms + 999);
    assert!(!early.processed);
    assert_eq!(early.effects.next_alarm, Some(h.now_ms + 1000));

    let fired = handle_alarm(h.teams.get_mut(&team_id).unwrap(), h.now_ms + 1000);
    assert!(fired.processed);
    assert_eq!(fired.effects.timed_out, vec![(pending.wake_id, 1000)]);
    assert_eq!(fired.effects.next_alarm, None);

    let err = h.resolve(&pending, WakeOutcome::TimedOut { timeout_ms: pending.timeout_ms }).err().unwrap();
    assert_eq!(err.status, 408);
    assert_eq!(err.error, "wake timed out");
    assert_eq!(err.wake_id, Some(pending.wake_id.to_string()));
    assert_eq!(err.timeout_seconds, Some(1));

    // The timed-out wake left the inbox and can no longer be completed.
    let inbox = h.read_inbox(&team_id, &target_id, &target_bearer, 0, None).unwrap();
    assert!(inbox.wakes.is_empty());
    let again = h.complete(&team_id, &pending.wake_id.to_string(), &target_bearer, &payload).err().unwrap();
    assert_eq!(again.status, 410);
}

#[test]
fn error_410_already_terminal() {
    let mut h = Harness::new();
    let team_id = h.new_team_id();
    let (target_id, target_bearer) = h.new_identity();
    let (_caller, caller_bearer) = h.new_identity();
    assert_eq!(h.register(&team_id, &target_id, &target_bearer, "ctx-x").unwrap(), 201);
    let payload = b64_encode(b"once");
    h.dispatch(&team_id, &caller_bearer, &target_id, "ctx-x", &payload, 10).unwrap();
    let inbox = h.read_inbox(&team_id, &target_id, &target_bearer, 5, None).unwrap();
    assert_eq!(inbox.wakes.len(), 1);
    let wake_id = inbox.wakes[0].wake_id.clone();
    let response_payload = b64_encode(b"answer");
    let (comp, _) = h.complete(&team_id, &wake_id, &target_bearer, &response_payload).unwrap();
    assert!(comp.completed);
    let err = h.complete(&team_id, &wake_id, &target_bearer, &response_payload).err().unwrap();
    assert_eq!(err.status, 410, "second complete should return 410 AlreadyTerminal");
    assert_eq!(err.error, "wake already in terminal state");
    assert_eq!(err.wake_id.as_deref(), Some(wake_id.as_str()));
}

#[test]
fn error_422_handler_not_found() {
    let mut h = Harness::new();
    let team_id = h.new_team_id();
    let (target_id, _target_bearer) = h.new_identity();
    let (_caller, caller_bearer) = h.new_identity();
    let payload = b64_encode(b"x");
    let err = h.dispatch(&team_id, &caller_bearer, &target_id, "no-such-context", &payload, 5).err().unwrap();
    assert_eq!(err.status, 422);
    assert_eq!(err.error, "target has no registered handler for context_id");
    assert_eq!(err.context_id.as_deref(), Some("no-such-context"));
}

#[test]
fn multi_agent_same_team() {
    let mut h = Harness::new();
    let team_id = h.new_team_id();
    let (alice_id, alice_bearer) = h.new_identity();
    let (bob_id, bob_bearer) = h.new_identity();
    assert_eq!(h.register(&team_id, &bob_id, &bob_bearer, "ctx-ab").unwrap(), 201);
    let payload = b64_encode(b"hi bob");
    let pending = h.dispatch(&team_id, &alice_bearer, &bob_id, "ctx-ab", &payload, 10).unwrap();
    let inbox = h.read_inbox(&team_id, &bob_id, &bob_bearer, 5, None).unwrap();
    assert_eq!(inbox.wakes.len(), 1);
    assert_eq!(inbox.wakes[0].caller_identity, alice_id);
    let wake_id = inbox.wakes[0].wake_id.clone();
    let response = b64_encode(b"hi alice");
    let (_, bytes) = h.complete(&team_id, &wake_id, &bob_bearer, &response).unwrap();
    let disp = h.resolve(&pending, WakeOutcome::Completed { response: bytes, completed_at: h.now_ms }).unwrap();
    assert_eq!(disp.wake_id, wake_id);
    assert_eq!(disp.response, response);
}

#[test]
fn cross_team_isolation() {
    let mut h = Harness::new();
    let team_1 = h.new_team_id();
    let team_2 = h.new_team_id();
    let (_alice_id, alice_bearer) = h.new_identity();
    let (bob_id, bob_bearer) = h.new_identity();
    assert_eq!(h.register(&team_2, &bob_id, &bob_bearer, "ctx-shared").unwrap(), 201);
    let payload = b64_encode(b"cross-team");
    let err = h.dispatch(&team_1, &alice_bearer, &bob_id, "ctx-shared", &payload, 5).err().unwrap();
    assert_eq!(err.status, 422);
    assert_eq!(err.context_id.as_deref(), Some("ctx-shared"));
}

#[test]
fn long_poll_wake_up() {
    let mut h = Harness::new();
    let team_id = h.new_team_id();
    let (bob_id, bob_bearer) = h.new_identity();
    let (_alice_id, alice_bearer) = h.new_identity();
    assert_eq!(h.register(&team_id, &bob_id, &bob_bearer, "ctx-poll").unwrap(), 201);
    // An empty inbox with a wait asks for a long poll.
    let pairs = vec![("wait_seconds".to_string(), "30".to_string())];
    let plan = plan_read_inbox(&Ok(()), &pairs).unwrap();
    assert_eq!(plan.wait_seconds, 30);
    assert!(tally::team_api::needs_long_poll(h.team(&team_id), &bob_id, plan.wait_seconds));
    let payload = b64_encode(b"wake up!");
    h.dispatch(&team_id, &alice_bearer, &bob_id, "ctx-poll", &payload, 30).unwrap();
    assert!(!tally::team_api::needs_long_poll(h.team(&team_id), &bob_id, plan.wait_seconds));
    let body = h.read_inbox(&team_id, &bob_id, &bob_bearer, 30, None).unwrap();
    assert_eq!(body.wakes.len(), 1);
    assert_eq!(body.wakes[0].payload, payload);
}

#[test]
fn team_init_idempotent() {
    let mut h = Harness::new();
    let team_id = h.new_team_id();
    let (_op, op_bearer) = h.new_identity();
    let first = h.team_init(&team_id, Some(&op_bearer)).unwrap();
    assert!(!first.team_id.is_empty());
    assert!(first.initialized_at.ends_with('Z'));
    assert_eq!(first.tenancy_prefix, "tally-cli-local");
    h.now_ms += 5_000;
    let second = h.team_init(&team_id, Some(&op_bearer)).unwrap();
    assert_eq!(second.team_id, first.team_id);
    assert_eq!(second.initialized_at, first.initialized_at);
    assert_eq!(second.tenancy_prefix, first.tenancy_prefix);
}

#[test]
fn team_status_empty_team() {
    let mut h = Harness::new();
    let team_id = h.new_team_id();
    let (_op, op_bearer) = h.new_identity();
    let status = h.team_status(&team_id, &op_bearer).unwrap();
    assert!(status.registered_agents.is_empty());
    assert_eq!(status.total_inbox_depth, 0);
    assert_eq!(status.tenancy_prefix, "tally-cli-local");
}

#[test]
fn team_status_with_registrations() {
    let mut h = Harness::new();
    let team_id = h.new_team_id();
    let (_op, op_bearer) = h.new_identity();
    let (alice_id, alice_bearer) = h.new_identity();
    let (bob_id, bob_bearer) = h.new_identity();
    assert_eq!(h.register(&team_id, &alice_id, &alice_bearer, "ctx-A").unwrap(), 201);
    assert_eq!(h.register(&team_id, &bob_id, &bob_bearer, "ctx-B").unwrap(), 201);
    assert_eq!(h.register(&team_id, &bob_id, &bob_bearer, "ctx-C").unwrap(), 201);
    let status = h.team_status(&team_id, &op_bearer).unwrap();
    assert_eq!(status.registered_agents.len(), 2);
    let alice_entry = status.registered_agents.iter().find(|a| a.identity == alice_id).expect("alice entry present");
    let bob_entry = status.registered_agents.iter().find(|a| a.identity == bob_id).expect("bob entry present");
    assert_eq!(alice_entry.contexts, vec!["ctx-A".to_string()]);
    assert_eq!(alice_entry.inbox_depth, 0);
    let mut bob_contexts = bob_entry.contexts.clone();
    bob_contexts.sort();
    assert_eq!(bob_contexts, vec!["ctx-B".to_string(), "ctx-C".to_string()]);
    assert_eq!(bob_entry.inbox_depth, 0);
    assert_eq!(status.total_inbox_depth, 0);
}

#[test]
fn team_delete_resets_state() {
    let mut h = Harness::new();
    let team_id = h.new_team_id();
    let (_op, op_bearer) = h.new_identity();
    let (alice_id, alice_bearer) = h.new_identity();
    assert_eq!(h.register(&team_id, &alice_id, &alice_bearer, "ctx-A").unwrap(), 201);
    let pre = h.team_status(&team_id, &op_bearer).unwrap();
    assert_eq!(pre.registered_agents.len(), 1);
    h.now_ms += 1_100;
    assert_eq!(h.team_delete(&team_id, &op_bearer).unwrap(), 204);
    let post = h.team_status(&team_id, &op_bearer).unwrap();
    assert!(post.registered_agents.is_empty());
    assert_eq!(post.total_inbox_depth, 0);
    assert_ne!(post.initialized_at, pre.initialized_at);
}

#[test]
fn team_init_no_bearer_401() {
    let mut h = Harness::new();
    let team_id = h.new_team_id();
    let err = h.team_init(&team_id, None).err().unwrap();
    assert_eq!(err.status, 401);
    assert!(!err.error.is_empty());
}

#[test]
fn inbox_overflow_evicts_oldest() {
    let mut h = Harness::new();
    let team_id = h.new_team_id();
    let (target_id, target_bearer) = h.new_identity();
    let (_caller, caller_bearer) = h.new_identity();
    assert_eq!(h.register(&team_id, &target_id, &target_bearer, "ctx").unwrap(), 201);
    let mut first = None;
    for i in 0..1001u32 {
        let payload = b64_encode(&i.to_be_bytes());
        let p = h.dispatch(&team_id, &caller_bearer, &target_id, "ctx", &payload, 30).unwrap();
        if i == 0 {
            first = Some(p.wake_id);
        }
    }
    let store = h.team(&team_id);
    assert_eq!(store.inbox_len(&target_id), 1000);
    assert!(store.wake(first.unwrap()).is_none(), "the oldest wake's row is evicted");
    let status = h.team_status(&team_id, &target_bearer).unwrap();
    assert_eq!(status.total_inbox_depth, 1000);
}

#[test]
fn dispatch_validation_errors() {
    let mut h = Harness::new();
    let team_id = h.new_team_id();
    let (target_id, target_bearer) = h.new_identity();
    let (_caller, caller_bearer) = h.new_identity();
    assert_eq!(h.register(&team_id, &target_id, &target_bearer, "ctx").unwrap(), 201);
    let ok_payload = b64_encode(b"x");
    let e = h.dispatch(&team_id, &caller_bearer, "AAAA", "ctx", &ok_payload, 5).err().unwrap();
    assert_eq!(e.status, 400);
    assert!(e.error.starts_with("invalid target_identity_b64: "));
    let e = h.dispatch(&team_id, &caller_bearer, &target_id, "", &ok_payload, 5).err().unwrap();
    assert_eq!((e.status, e.error.as_str()), (422, "context_id must be non-empty"));
    let e = h.dispatch(&team_id, &caller_bearer, &target_id, "ctx", "!!!", 5).err().unwrap();
    assert_eq!(e.status, 422);
    assert!(e.error.starts_with("invalid payload_b64: "));
    let big = b64_encode(&vec![0u8; 32769]);
    let e = h.dispatch(&team_id, &caller_bearer, &target_id, "ctx", &big, 5).err().unwrap();
    assert_eq!((e.status, e.error.as_str()), (422, "payload 32769 bytes exceeds MAX_PAYLOAD_BYTES (32768)"));
    let e = h.dispatch(&team_id, &caller_bearer, &target_id, "ctx", &ok_payload, 0).err().unwrap();
    assert_eq!((e.status, e.error.as_str()), (400, "timeout must be > 0"));
    let e = h.dispatch(&team_id, &caller_bearer, &target_id, "ctx", &ok_payload, 301).err().unwrap();
    assert_eq!(e.status, 400);
    let max = b64_encode(&vec![0u8; 32768]);
    assert!(h.dispatch(&team_id, &caller_bearer, &target_id, "ctx", &max, 300).is_ok());
}

#[test]
fn complete_validation_errors() {
    let mut h = Harness::new();
    let team_id = h.new_team_id();
    let (target_id, target_bearer) = h.new_identity();
    let (_caller, caller_bearer) = h.new_identity();
    assert_eq!(h.register(&team_id, &target_id, &target_bearer, "ctx").unwrap(), 201);
    let p = h.dispatch(&team_id, &caller_bearer, &target_id, "ctx", &b64_encode(b"q"), 5).unwrap();
    let wid = p.wake_id.to_string();
    let e = h.complete(&team_id, "short", &target_bearer, "").err().unwrap();
    assert_eq!((e.status, e.error.as_str()), (400, "invalid wake_id: invalid length"));
    let e = h.complete(&team_id, &wid, &target_bearer, "a").err().unwrap();
    assert_eq!(e.status, 400);
    assert!(e.error.starts_with("invalid response_payload_b64: "));
    let big = b64_encode(&vec![1u8; 40000]);
    let e = h.complete(&team_id, &wid, &target_bearer, &big).err().unwrap();
    assert_eq!((e.status, e.error.as_str()), (422, "response 40000 bytes exceeds MAX_RESPONSE_BYTES (32768)"));
    let e = h.complete(&team_id, &wid, &caller_bearer, "").err().unwrap();
    assert_eq!((e.status, e.error.as_str()), (403, "identity does not match wake target"));
    let (c, bytes) = h.complete(&team_id, &wid, &target_bearer, "").unwrap();
    assert!(c.completed);
    assert!(bytes.is_empty());
}
