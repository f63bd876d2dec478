use tally::rpc::ValidateApiKeyRequest;
use tally::store::CompleteEffects;
use tally::team_api::{completion_outcome, dispatch_outcome, CompleteAccepted};
use tally::wake::WakeId;
use tally::team_api::{do_route, handle_validate_api_key, parse_u32, plan_read_inbox, DoRoute, HttpMethod};

#[test]
fn u32_text() {
    assert_eq!(parse_u32("0"), Some(0));
    assert_eq!(parse_u32("42"), Some(42));
    assert_eq!(parse_u32("+7"), Some(7));
    assert_eq!(parse_u32("4294967295"), Some(u32::MAX));
    assert_eq!(parse_u32("4294967296"), None);
    assert_eq!(parse_u32("99999999999999999999"), None);
    assert_eq!(parse_u32(""), None);
    assert_eq!(parse_u32("+"), None);
    assert_eq!(parse_u32("-1"), None);
    assert_eq!(parse_u32("1a"), None);
    assert_eq!(parse_u32(" 1"), None);
}

#[test]
fn inbox_query_defaults_and_clamps() {
    let none: Vec<(String, String)> = vec![];
    let p = plan_read_inbox(&Ok(()), &none).unwrap();
    assert_eq!((p.limit, p.wait_seconds), (10, 0));
    let q = vec![
        ("limit".to_string(), "500".to_string()),
        ("wait_seconds".to_string(), "99".to_string()),
        ("other".to_string(), "x".to_string()),
    ];
    let p = plan_read_inbox(&Ok(()), &q).unwrap();
    assert_eq!((p.limit, p.wait_seconds), (100, 30));
    let q = vec![("limit".to_string(), "0".to_string())];
    assert_eq!(plan_read_inbox(&Ok(()), &q).unwrap().limit, 1);
    let q = vec![("limit".to_string(), "5".to_string()), ("limit".to_string(), "x".to_string())];
    assert_eq!(plan_read_inbox(&Ok(()), &q).unwrap().limit, 10);
    let q = vec![("limit".to_string(), "x".to_string()), ("limit".to_string(), "5".to_string())];
    assert_eq!(plan_read_inbox(&Ok(()), &q).unwrap().limit, 5);
    let bad = plan_read_inbox(&Err("bad".to_string()), &none);
    assert!(bad.is_err());
}

#[test]
fn validate_api_key_answers() {
    let r = handle_validate_api_key(&ValidateApiKeyRequest { bearer: "ID".to_string() }, true);
    assert!(r.valid);
    assert_eq!(r.identity_b64.as_deref(), Some("ID"));
    let r = handle_validate_api_key(&ValidateApiKeyRequest { bearer: "ID".to_string() }, false);
    assert!(!r.valid);
    assert!(r.identity_b64.is_none());
}

#[test]
fn team_object_routes() {
    assert!(matches!(do_route(HttpMethod::Post, "/register"), DoRoute::Register));
    assert!(matches!(do_route(HttpMethod::Post, "/unregister"), DoRoute::Unregister));
    assert!(matches!(do_route(HttpMethod::Post, "/dispatch"), DoRoute::Dispatch));
    assert!(matches!(do_route(HttpMethod::Post, "/complete"), DoRoute::Complete));
    assert!(matches!(do_route(HttpMethod::Post, "/validate_api_key"), DoRoute::ValidateApiKey));
    assert!(matches!(do_route(HttpMethod::Post, "/team/init"), DoRoute::TeamInit));
    assert!(matches!(do_route(HttpMethod::Get, "/team/status"), DoRoute::TeamStatus));
    assert!(matches!(do_route(HttpMethod::Post, "/team/delete"), DoRoute::TeamDelete));
    match do_route(HttpMethod::Get, "/inbox/ABC") {
        DoRoute::Inbox(id) => assert_eq!(id, "ABC"),
        _ => panic!("expected inbox route"),
    }
    assert!(matches!(do_route(HttpMethod::Get, "/register"), DoRoute::NotFound));
    assert!(matches!(do_route(HttpMethod::Post, "/inbox/ABC"), DoRoute::NotFound));
    assert!(matches!(do_route(HttpMethod::Delete, "/team/delete"), DoRoute::NotFound));
}

#[test]
fn completion_reaches_waiting_dispatch() {
    let id = WakeId::from_bits(42);
    let accepted = CompleteAccepted {
        wake_id: id,
        response: vec![1, 2, 3],
        effects: CompleteEffects { target_identity: "T".to_string(), next_alarm: None },
    };
    let outcome = completion_outcome(&accepted, 1_700_000_000_123);
    let reply = dispatch_outcome(id, &"T".to_string(), &"ctx".to_string(), &outcome).unwrap();
    assert_eq!(reply.wake_id, id);
    assert_eq!(reply.responding_identity_b64, "T");
    assert_eq!(reply.response_payload_b64, "AQID");
    assert_eq!(reply.completed_at, 1_700_000_000_123);
}
