//! Storage types shared by the runtime and its command-line client: the
//! per-team metadata row and the client-side form of a wake row.

use vstd::prelude::*;

verus! {

/// Per-team metadata, written once on the team's first request.
#[derive(Debug, Clone, PartialEq, Eq)]
pub struct TeamMeta {
    /// Tenancy namespace of the team (constant in this release).
    pub tenancy_prefix: String,
    /// Stringified identifier of the team's durable object.
    pub team_id_b64: String,
    /// Creation time (unix milliseconds).
    pub created_at: i64,
}

pub struct TeamMetaView {
    pub tenancy_prefix: Seq<char>,
    pub team_id_b64: Seq<char>,
    pub created_at: i64,
}

impl View for TeamMeta {
    type V = TeamMetaView;

    open spec fn view(&self) -> TeamMetaView {
        TeamMetaView {
            tenancy_prefix: self.tenancy_prefix@,
            team_id_b64: self.team_id_b64@,
            created_at: self.created_at,
        }
    }
}

/// Lifecycle state of a wake row in its client-side form.
#[derive(Debug, Clone, Copy, PartialEq, Eq, Structural)]
pub enum WakeState {
    Pending,
    Completed,
    TimedOut,
}

/// Client-side form of a wake row: identities, payload and response as
/// base64 text.
#[derive(Debug, Clone, PartialEq, Eq)]
pub struct WakeRecord {
    pub caller_identity_b64: String,
    pub target_identity_b64: String,
    pub context_id: String,
    pub payload_b64: String,
    pub timeout_ms: u32,
    pub state: WakeState,
    pub response_b64: Option<String>,
    pub created_at: i64,
    pub completed_at: Option<i64>,
}

} // verus!
