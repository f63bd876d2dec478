use tally::errors::{TallyError, WakeError};
use tally::replies::{stoa_error_to_response, tally_error_to_response, ErrorContext};
use tally::wake::WakeId;

#[test]
fn tally_specific_variants_display_as_human_text() {
    assert_eq!(TallyError::WakeNotFound.to_string(), "wake not found");
    assert_eq!(TallyError::AlreadyTerminal.to_string(), "wake already in terminal state");
    assert_eq!(TallyError::IdentityMismatch.to_string(), "identity does not match wake target");
}

#[test]
fn from_stoa_error_lifts_via_question_mark() {
    fn returns_protocol_error() -> Result<(), WakeError> {
        Err(WakeError::InvalidTimeout)
    }
    fn lifts() -> Result<(), TallyError> {
        returns_protocol_error().map_err(TallyError::from_wake_error)?;
        Ok(())
    }
    match lifts() {
        Err(TallyError::Stoa(WakeError::InvalidTimeout)) => {}
        other => panic!("expected Stoa(InvalidTimeout), got {:?}", other),
    }
}

#[test]
fn stoa_pass_through_uses_transparent_display() {
    let inner = WakeError::InvalidTimeout;
    let inner_msg = inner.to_string();
    let wrapped = TallyError::from_wake_error(WakeError::InvalidTimeout);
    assert_eq!(wrapped.to_string(), inner_msg);
    assert_eq!(inner_msg, "timeout must be > 0");
    assert_eq!(WakeError::Other("boom".to_string()).to_string(), "internal error: boom");
}

#[test]
fn protocol_error_replies() {
    let id = WakeId::from_bits(42);
    let ctx = ErrorContext { wake_id: Some(id), context_id: Some("task-routing".to_string()) };
    let r = stoa_error_to_response(&WakeError::HandlerNotFound, &ctx);
    assert_eq!(r.status, 422);
    assert_eq!(r.error, "target has no registered handler for context_id");
    assert_eq!(r.context_id.as_deref(), Some("task-routing"));
    assert!(r.wake_id.is_none());

    let r = stoa_error_to_response(&WakeError::TimeoutExpired { timeout_ms: 30_000 }, &ctx);
    assert_eq!(r.status, 408);
    assert_eq!(r.error, "wake timed out");
    assert_eq!(r.wake_id, Some(id.to_string()));
    assert_eq!(r.timeout_seconds, Some(30));
    assert!(r.context_id.is_none());

    let r = stoa_error_to_response(&WakeError::DispatchRefused { reason: "nope".to_string() }, &ctx);
    assert_eq!((r.status, r.error.as_str()), (422, "nope"));
    let r = stoa_error_to_response(&WakeError::InvalidTimeout, &ctx);
    assert_eq!((r.status, r.error.as_str()), (400, "timeout must be > 0"));
    let r = stoa_error_to_response(&WakeError::Other("disk".to_string()), &ctx);
    assert_eq!((r.status, r.error.as_str()), (500, "internal error: disk"));
}

#[test]
fn completion_error_replies() {
    let id = WakeId::from_bits(7);
    let ctx = ErrorContext { wake_id: Some(id), context_id: None };
    let r = tally_error_to_response(&TallyError::WakeNotFound, &ctx);
    assert_eq!((r.status, r.error.as_str()), (404, "wake not found"));
    assert_eq!(r.wake_id, Some(id.to_string()));
    let r = tally_error_to_response(&TallyError::AlreadyTerminal, &ctx);
    assert_eq!((r.status, r.error.as_str()), (410, "wake already in terminal state"));
    assert_eq!(r.wake_id, Some(id.to_string()));
    let r = tally_error_to_response(&TallyError::IdentityMismatch, &ctx);
    assert_eq!((r.status, r.error.as_str()), (403, "identity does not match wake target"));
    assert!(r.wake_id.is_none());
    let r = tally_error_to_response(&TallyError::Stoa(WakeError::InvalidTimeout), &ctx);
    assert_eq!(r.status, 400);
}
