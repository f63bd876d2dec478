use tally::gateway::{authenticate, dispatch_request, AuthStep, inbox_path, is_success_status, parse_bearer, seconds_to_millis};
use tally::rpc::{PublicDispatchRequest, ValidateApiKeyResponse};

#[test]
fn bearer_header_forms() {
    assert_eq!(parse_bearer(Some("Bearer abc")), Some("abc".to_string()));
    assert_eq!(parse_bearer(Some("bEaReR xyz")), Some("xyz".to_string()));
    assert_eq!(parse_bearer(Some("Bearer ")), Some("".to_string()));
    assert_eq!(parse_bearer(Some("Basic abcdef")), None);
    assert_eq!(parse_bearer(Some("Bearer")), None);
    assert_eq!(parse_bearer(Some("Bearer\tabc")), None);
    assert_eq!(parse_bearer(None), None);
}

#[test]
fn malformed_multibyte_header_is_no_bearer() {
    // Byte 7 falls inside a character: the header is simply malformed.
    assert_eq!(parse_bearer(Some("Bear\u{e9}\u{e9}")), None);
    assert_eq!(parse_bearer(Some("Beare\u{1f600}token")), None);
    assert_eq!(parse_bearer(Some("\u{e9}\u{e9}\u{e9}\u{e9}")), None);
}

/// Runs the authentication steps with the given lookup and validation
/// outcomes, and records which steps were asked for.
fn run_auth(
    header: Option<&str>,
    found: bool,
    validation: &dyn Fn() -> Result<ValidateApiKeyResponse, String>,
    url_identity: Option<&str>,
) -> (Result<String, (u16, String)>, Vec<&'static str>) {
    let mut team = None;
    let mut valid = None;
    let mut asked = Vec::new();
    loop {
        match authenticate(header, team, valid.as_ref(), url_identity) {
            AuthStep::Refuse(e) => return (Err((e.status, e.error)), asked),
            AuthStep::Authenticated(id) => return (Ok(id), asked),
            AuthStep::LookUpTeam => {
                asked.push("lookup");
                team = Some(found);
            }
            AuthStep::Validate(bearer) => {
                assert_eq!(bearer, "tok");
                asked.push("validate");
                valid = Some(validation());
            }
        }
    }
}

#[test]
fn authentication_decisions() {
    let ok = || -> Result<ValidateApiKeyResponse, String> { Ok(ValidateApiKeyResponse { valid: true, identity_b64: Some("ID".to_string()) }) };
    let h = Some("Bearer tok");
    assert_eq!(run_auth(h, true, &ok, None), (Ok("ID".to_string()), vec!["lookup", "validate"]));
    assert_eq!(run_auth(h, true, &ok, Some("ID")).0, Ok("ID".to_string()));
    assert_eq!(
        run_auth(h, true, &ok, Some("OTHER")).0,
        Err((403, "URL identity does not match authenticated identity".to_string()))
    );
    let invalid = || -> Result<ValidateApiKeyResponse, String> { Ok(ValidateApiKeyResponse { valid: false, identity_b64: None }) };
    assert_eq!(run_auth(h, true, &invalid, None).0, Err((401, "invalid Bearer token".to_string())));
    let broken = || -> Result<ValidateApiKeyResponse, String> { Ok(ValidateApiKeyResponse { valid: true, identity_b64: None }) };
    assert_eq!(
        run_auth(h, true, &broken, None).0,
        Err((500, "validation returned valid=true without identity_b64".to_string()))
    );
    let failed = || -> Result<ValidateApiKeyResponse, String> { Err("rpc down".to_string()) };
    assert_eq!(run_auth(h, true, &failed, None).0, Err((500, "internal auth error: rpc down".to_string())));
}

#[test]
fn missing_or_malformed_header_refused_before_any_call() {
    let ok = || -> Result<ValidateApiKeyResponse, String> { Ok(ValidateApiKeyResponse { valid: true, identity_b64: Some("ID".to_string()) }) };
    let missing = (Err((401, "missing or malformed Authorization header".to_string())), Vec::<&str>::new());
    assert_eq!(run_auth(None, true, &ok, None), missing);
    assert_eq!(run_auth(Some("Basic tok"), true, &ok, None), missing);
    assert_eq!(run_auth(Some("Bear\u{e9}\u{e9}"), true, &ok, None), missing);
}

#[test]
fn unknown_team_refused_before_validation() {
    let ok = || -> Result<ValidateApiKeyResponse, String> { Ok(ValidateApiKeyResponse { valid: true, identity_b64: Some("ID".to_string()) }) };
    assert_eq!(
        run_auth(Some("Bearer tok"), false, &ok, None),
        (Err((400, "invalid team_id (malformed Durable Object id)".to_string())), vec!["lookup"])
    );
}

#[test]
fn timeout_seconds_saturate() {
    assert_eq!(seconds_to_millis(5), 5000);
    assert_eq!(seconds_to_millis(4_294_967), 4_294_967_000);
    assert_eq!(seconds_to_millis(4_294_968), u32::MAX);
    let public = PublicDispatchRequest {
        target_identity: "T".to_string(),
        context_id: "c".to_string(),
        payload: "cA".to_string(),
        timeout_seconds: u32::MAX,
    };
    let internal = dispatch_request("C".to_string(), &public);
    assert_eq!(internal.timeout_ms, u32::MAX);
    assert_eq!(internal.caller_identity_b64, "C");
    assert_eq!(internal.target_identity_b64, "T");
}

#[test]
fn inbox_paths_and_statuses() {
    assert_eq!(inbox_path("ID", ""), "/inbox/ID");
    assert_eq!(inbox_path("ID", "wait_seconds=3&limit=2"), "/inbox/ID?wait_seconds=3&limit=2");
    assert!(is_success_status(200));
    assert!(is_success_status(204));
    assert!(!is_success_status(300));
    assert!(!is_success_status(199));
}
