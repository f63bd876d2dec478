//! Request and response shapes: the internal Worker↔team RPC and the
//! public HTTP API. JSON encoding of these shapes is done by the service
//! around the library.

use vstd::prelude::*;
use crate::wake::WakeId;

verus! {

/// Internal: register `identity_b64` as handler for `context_id`.
#[derive(Debug)]
pub struct RegisterRequest {
    pub identity_b64: String,
    pub context_id: String,
}

/// Internal: remove the registration of `identity_b64` for `context_id`.
#[derive(Debug)]
pub struct UnregisterRequest {
    pub identity_b64: String,
    pub context_id: String,
}

/// Query parameters of an inbox read.
#[derive(Debug)]
pub struct ReadInboxQuery {
    pub wait_seconds: Option<u32>,
    pub limit: Option<u32>,
}

/// Internal: validate a bearer token and resolve it to an identity.
#[derive(Debug)]
pub struct ValidateApiKeyRequest {
    /// The token after `Bearer `.
    pub bearer: String,
}

/// Internal: dispatch a wake.
#[derive(Debug)]
pub struct DispatchRequest {
    pub caller_identity_b64: String,
    pub target_identity_b64: String,
    pub context_id: String,
    pub payload_b64: String,
    pub timeout_ms: u32,
}

/// Internal: complete a pending wake.
#[derive(Debug)]
pub struct CompleteRequest {
    pub by_identity_b64: String,
    pub wake_id: String,
    pub response_payload_b64: String,
}

/// Internal: empty success body.
#[derive(Debug)]
pub struct OkResponse;

/// Internal: verdict of a bearer validation; `identity_b64` is present
/// exactly when `valid`.
#[derive(Debug)]
pub struct ValidateApiKeyResponse {
    pub valid: bool,
    pub identity_b64: Option<String>,
}

/// Internal: one page of an inbox.
#[derive(Debug)]
pub struct ReadInboxResponse {
    pub wakes: Vec<WakeSummary>,
    /// The inbox holds more entries than were returned.
    pub more_available: bool,
}

/// Internal: one pending wake as listed in an inbox.
#[derive(Debug)]
pub struct WakeSummary {
    pub wake_id: String,
    pub caller_identity_b64: String,
    pub context_id: String,
    pub payload_b64: String,
    /// Deadline (unix milliseconds).
    pub expires_at_ms: u64,
}

pub struct WakeSummaryView {
    pub wake_id: Seq<char>,
    pub caller_identity_b64: Seq<char>,
    pub context_id: Seq<char>,
    pub payload_b64: Seq<char>,
    pub expires_at_ms: u64,
}

impl View for WakeSummary {
    type V = WakeSummaryView;

    open spec fn view(&self) -> WakeSummaryView {
        WakeSummaryView {
            wake_id: self.wake_id@,
            caller_identity_b64: self.caller_identity_b64@,
            context_id: self.context_id@,
            payload_b64: self.payload_b64@,
            expires_at_ms: self.expires_at_ms,
        }
    }
}

/// Internal: outcome of a completed dispatch.
#[derive(Debug)]
pub struct DispatchResponse {
    pub wake_id: WakeId,
    /// The identity that completed the wake (its target).
    pub responding_identity_b64: String,
    pub response_payload_b64: String,
    /// Completion time (unix milliseconds).
    pub completed_at: u64,
}

/// Internal: team metadata after initialization.
#[derive(Debug)]
pub struct InitTeamResponse {
    pub team_id_b64: String,
    pub initialized_at_ms: u64,
    pub tenancy_prefix: String,
}

/// Internal: one registered agent of a team.
#[derive(Debug)]
pub struct RegisteredAgent {
    pub identity_b64: String,
    pub contexts: Vec<String>,
    pub inbox_depth: u64,
}

/// Internal: routing state of a team.
#[derive(Debug)]
pub struct TeamStatusResponse {
    pub team_id_b64: String,
    pub initialized_at_ms: u64,
    pub tenancy_prefix: String,
    pub registered_agents: Vec<RegisteredAgent>,
    pub total_inbox_depth: u64,
}

/// Public: body of `POST .../agents/{identity}/register`.
#[derive(Debug)]
pub struct PublicRegisterRequest {
    pub context_id: String,
}

/// Public: answer to a registration (HTTP 201).
#[derive(Debug)]
pub struct PublicRegisterResponse {
    pub registered: bool,
    pub context_id: String,
}

/// Public: body of `POST .../wakes`.
#[derive(Debug)]
pub struct PublicDispatchRequest {
    pub target_identity: String,
    pub context_id: String,
    pub payload: String,
    pub timeout_seconds: u32,
}

/// Public: answer to a completed dispatch.
#[derive(Debug)]
pub struct PublicDispatchResponse {
    pub wake_id: String,
    pub response: String,
    /// ISO-8601 UTC.
    pub completed_at: String,
}

/// Public: body of `POST .../wakes/{wake_id}/complete`.
#[derive(Debug)]
pub struct PublicCompleteRequest {
    pub response: String,
}

/// Public: answer to a completion.
#[derive(Debug)]
pub struct PublicCompleteResponse {
    pub completed: bool,
    pub wake_id: String,
}

/// Public: one pending wake in an inbox page.
#[derive(Debug)]
pub struct PublicWakeSummary {
    pub wake_id: String,
    pub caller_identity: String,
    pub context_id: String,
    pub payload: String,
    /// ISO-8601 UTC.
    pub expires_at: String,
}

/// Public: one inbox page.
#[derive(Debug)]
pub struct PublicReadInboxResponse {
    pub wakes: Vec<PublicWakeSummary>,
    pub more_available: bool,
}

/// Public: answer to `POST /v1/teams/{team_id}/init`.
#[derive(Debug)]
pub struct PublicInitTeamResponse {
    pub team_id: String,
    /// ISO-8601 UTC.
    pub initialized_at: String,
    pub tenancy_prefix: String,
}

/// Public: one registered agent in a team status.
#[derive(Debug)]
pub struct PublicRegisteredAgent {
    pub identity: String,
    pub contexts: Vec<String>,
    pub inbox_depth: u64,
}

/// Public: answer to `GET /v1/teams/{team_id}/status`.
#[derive(Debug)]
pub struct PublicTeamStatusResponse {
    pub team_id: String,
    /// ISO-8601 UTC.
    pub initialized_at: String,
    pub tenancy_prefix: String,
    pub registered_agents: Vec<PublicRegisteredAgent>,
    pub total_inbox_depth: u64,
}

} // verus!
