//! The public HTTP front end: bearer authentication decisions and the
//! conversion between the public request/response shapes and the team
//! object's internal ones.
//!
//! Public shapes differ from internal ones in field names, in timeouts
//! (seconds instead of milliseconds) and in timestamps (ISO-8601 UTC
//! text instead of unix milliseconds).

use vstd::prelude::*;
use crate::iso8601::{format_iso8601_utc, iso8601_text};
use crate::replies::{ErrorReply, ErrorReplyView, json_error};
use crate::rpc::{
    CompleteRequest, DispatchRequest, DispatchResponse, InitTeamResponse, PublicCompleteRequest,
    PublicCompleteResponse, PublicDispatchRequest, PublicDispatchResponse, PublicInitTeamResponse,
    PublicReadInboxResponse, PublicRegisterRequest, PublicRegisterResponse, PublicRegisteredAgent,
    PublicTeamStatusResponse, PublicWakeSummary, ReadInboxResponse, RegisterRequest, RegisteredAgent,
    TeamStatusResponse, UnregisterRequest, ValidateApiKeyResponse, WakeSummary,
};
use crate::text::push_str;
use crate::wake::wake_id_text;

verus! {

/// The lower-case form of an ASCII letter; other characters unchanged.
pub open spec fn ascii_lower(c: char) -> char {
    if 'A' <= c <= 'Z' {
        ((c as u32 + 32) as u32) as char
    } else {
        c
    }
}

/// The authorization scheme, lower-case, with its separating space.
pub open spec fn bearer_scheme() -> Seq<char> {
    seq!['b', 'e', 'a', 'r', 'e', 'r', ' ']
}

/// The token of an `Authorization` header value: what follows a
/// case-insensitive `Bearer ` prefix.
pub open spec fn bearer_token(h: Seq<char>) -> Option<Seq<char>> {
    if h.len() >= 7 && (forall|i: int| 0 <= i < 7 ==> ascii_lower(#[trigger] h[i]) == bearer_scheme()[i]) {
        Some(h.skip(7))
    } else {
        None
    }
}

fn scheme_char(i: usize) -> (c: char)
    requires
        i < 7,
    ensures
        c == bearer_scheme()[i as int],
{
    if i == 0 {
        'b'
    } else if i == 1 {
        'e'
    } else if i == 2 {
        'a'
    } else if i == 3 {
        'r'
    } else if i == 4 {
        'e'
    } else if i == 5 {
        'r'
    } else {
        ' '
    }
}

fn scheme_upper(i: usize) -> (c: char)
    requires
        i < 7,
    ensures
        ascii_lower(c) == bearer_scheme()[i as int],
        forall|d: char| ascii_lower(d) == bearer_scheme()[i as int] ==> d == c || d == bearer_scheme()[i as int],
{
    if i == 0 {
        'B'
    } else if i == 1 {
        'E'
    } else if i == 2 {
        'A'
    } else if i == 3 {
        'R'
    } else if i == 4 {
        'E'
    } else if i == 5 {
        'R'
    } else {
        ' '
    }
}

/// The bearer token of an `Authorization` header value, if the value is
/// `Bearer <token>` with the scheme in any case; `None` for an absent or
/// malformed value.
pub fn parse_bearer(header: Option<&str>) -> (r: Option<String>)
    ensures
        match header {
            None => r is None,
            Some(h) => match r {
                Some(t) => bearer_token(h@) == Some(t@),
                None => bearer_token(h@) is None,
            },
        },
{
    let h = match header {
        None => {
            return None;
        },
        Some(h) => h,
    };
    let n = h.unicode_len();
    if n < 7 {
        return None;
    }
    let mut i: usize = 0;
    while i < 7
        invariant
            header == Some(h),
            i <= 7,
            n == h@.len(),
            n >= 7,
            forall|j: int| 0 <= j < i ==> ascii_lower(#[trigger] h@[j]) == bearer_scheme()[j],
        decreases 7 - i,
    {
        let c = h.get_char(i);
        let lower = scheme_char(i);
        let upper = scheme_upper(i);
        if c != lower && c != upper {
            proof {
                assert(ascii_lower(h@[i as int]) != bearer_scheme()[i as int]);
            }
            return None;
        }
        proof {
            if c == lower {
                assert(bearer_scheme()[i as int] == ' ' || ('a' <= bearer_scheme()[i as int] <= 'z'));
            }
        }
        i = i + 1;
    }
    let token = h.substring_char(7, n);
    Some(token.to_string())
}

/// The reply to a request without a well-formed bearer.
pub open spec fn missing_bearer_reply() -> ErrorReplyView {
    ErrorReplyView { status: 401, error: "missing or malformed Authorization header"@, wake_id: None, context_id: None, timeout_seconds: None }
}

/// The reply when the team identifier names no team object.
pub fn invalid_team_reply() -> (r: ErrorReply)
    ensures
        r@ == invalid_team_view(),
{
    json_error(400, "invalid team_id (malformed Durable Object id)")
}

/// The outcome of authenticating a request from the bearer's validation
/// (or the message of its failure) and the identity in the URL, if any.
pub open spec fn auth_outcome(
    validation: Result<(bool, Option<Seq<char>>), Seq<char>>,
    url_identity: Option<Seq<char>>,
) -> Result<Seq<char>, ErrorReplyView> {
    match validation {
        Err(e) => Err(ErrorReplyView { status: 500, error: "internal auth error: "@ + e, wake_id: None, context_id: None, timeout_seconds: None }),
        Ok((valid, id)) => if !valid {
            Err(ErrorReplyView { status: 401, error: "invalid Bearer token"@, wake_id: None, context_id: None, timeout_seconds: None })
        } else {
            match id {
                None => Err(ErrorReplyView {
                    status: 500,
                    error: "validation returned valid=true without identity_b64"@,
                    wake_id: None,
                    context_id: None,
                    timeout_seconds: None,
                }),
                Some(i) => match url_identity {
                    Some(u) => if u != i {
                        Err(ErrorReplyView {
                            status: 403,
                            error: "URL identity does not match authenticated identity"@,
                            wake_id: None,
                            context_id: None,
                            timeout_seconds: None,
                        })
                    } else {
                        Ok(i)
                    },
                    None => Ok(i),
                },
            }
        },
    }
}

pub open spec fn validation_view(v: Result<ValidateApiKeyResponse, String>) -> Result<(bool, Option<Seq<char>>), Seq<char>> {
    match v {
        Err(e) => Err(e@),
        Ok(r) => Ok((r.valid, match r.identity_b64 {
            Some(i) => Some(i@),
            None => None,
        })),
    }
}

pub open spec fn opt_str(u: Option<&str>) -> Option<Seq<char>> {
    match u {
        Some(s) => Some(s@),
        None => None,
    }
}

/// Decides a request's authentication from the team object's validation
/// of its bearer: the authenticated identity, which must equal the URL's
/// identity when the route has one.
fn validated_identity(validation: &Result<ValidateApiKeyResponse, String>, url_identity: Option<&str>) -> (r: Result<String, ErrorReply>)
    ensures
        match r {
            Ok(id) => auth_outcome(validation_view(*validation), opt_str(url_identity)) == Ok::<Seq<char>, ErrorReplyView>(id@),
            Err(e) => auth_outcome(validation_view(*validation), opt_str(url_identity)) == Err::<Seq<char>, ErrorReplyView>(e@),
        },
{
    let v = match validation {
        Err(e) => {
            let mut m = String::from_str("internal auth error: ");
            push_str(&mut m, e.as_str());
            return Err(ErrorReply { status: 500, error: m, wake_id: None, context_id: None, timeout_seconds: None });
        },
        Ok(v) => v,
    };
    if !v.valid {
        return Err(json_error(401, "invalid Bearer token"));
    }
    let id = match &v.identity_b64 {
        None => {
            return Err(json_error(500, "validation returned valid=true without identity_b64"));
        },
        Some(i) => i.clone(),
    };
    if let Some(u) = url_identity {
        if u.to_string() != id {
            return Err(json_error(403, "URL identity does not match authenticated identity"));
        }
    }
    Ok(id)
}

/// The reply when the team identifier names no team object.
pub open spec fn invalid_team_view() -> ErrorReplyView {
    ErrorReplyView { status: 400, error: "invalid team_id (malformed Durable Object id)"@, wake_id: None, context_id: None, timeout_seconds: None }
}

/// What the front end does next while authenticating a request.
#[derive(Debug)]
pub enum AuthStep {
    /// Answer the request with this error; nothing more is called.
    Refuse(ErrorReply),
    /// Resolve the team object the URL names.
    LookUpTeam,
    /// Ask the team object to validate this bearer.
    Validate(String),
    /// The request is authenticated as this identity.
    Authenticated(String),
}

pub enum AuthStepView {
    Refuse(ErrorReplyView),
    LookUpTeam,
    Validate(Seq<char>),
    Authenticated(Seq<char>),
}

impl View for AuthStep {
    type V = AuthStepView;

    open spec fn view(&self) -> AuthStepView {
        match self {
            AuthStep::Refuse(e) => AuthStepView::Refuse(e@),
            AuthStep::LookUpTeam => AuthStepView::LookUpTeam,
            AuthStep::Validate(b) => AuthStepView::Validate(b@),
            AuthStep::Authenticated(i) => AuthStepView::Authenticated(i@),
        }
    }
}

/// The bearer of an optional `Authorization` header value.
pub open spec fn header_bearer(header: Option<Seq<char>>) -> Option<Seq<char>> {
    match header {
        None => None,
        Some(h) => bearer_token(h),
    }
}

/// The next authentication step, from the `Authorization` header, whether
/// the team object was found (once looked up), the validation of the
/// bearer (once asked) and the URL's identity. A missing or malformed
/// header is refused before anything is looked up; an unknown team before
/// the bearer is validated.
pub open spec fn auth_step(
    header: Option<Seq<char>>,
    team_found: Option<bool>,
    validation: Option<Result<(bool, Option<Seq<char>>), Seq<char>>>,
    url_identity: Option<Seq<char>>,
) -> AuthStepView {
    match header_bearer(header) {
        None => AuthStepView::Refuse(missing_bearer_reply()),
        Some(b) => match team_found {
            None => AuthStepView::LookUpTeam,
            Some(false) => AuthStepView::Refuse(invalid_team_view()),
            Some(true) => match validation {
                None => AuthStepView::Validate(b),
                Some(v) => match auth_outcome(v, url_identity) {
                    Ok(i) => AuthStepView::Authenticated(i),
                    Err(e) => AuthStepView::Refuse(e),
                },
            },
        },
    }
}

pub open spec fn opt_validation_view(v: Option<&Result<ValidateApiKeyResponse, String>>) -> Option<Result<(bool, Option<Seq<char>>), Seq<char>>> {
    match v {
        None => None,
        Some(r) => Some(validation_view(*r)),
    }
}

/// Authenticates a request step by step. The caller starts with no team
/// lookup and no validation, performs the step returned, and calls again
/// with its outcome, until the request is refused or authenticated.
pub fn authenticate(
    header: Option<&str>,
    team_found: Option<bool>,
    validation: Option<&Result<ValidateApiKeyResponse, String>>,
    url_identity: Option<&str>,
) -> (r: AuthStep)
    ensures
        r@ == auth_step(opt_str(header), team_found, opt_validation_view(validation), opt_str(url_identity)),
        header_bearer(opt_str(header)) is None ==> r@ == AuthStepView::Refuse(missing_bearer_reply()),
{
    let bearer = match parse_bearer(header) {
        None => {
            return AuthStep::Refuse(json_error(401, "missing or malformed Authorization header"));
        },
        Some(b) => b,
    };
    match team_found {
        None => AuthStep::LookUpTeam,
        Some(false) => AuthStep::Refuse(invalid_team_reply()),
        Some(true) => match validation {
            None => AuthStep::Validate(bearer),
            Some(v) => match validated_identity(v, url_identity) {
                Ok(i) => AuthStep::Authenticated(i),
                Err(e) => AuthStep::Refuse(e),
            },
        },
    }
}

/// The body of `GET /v1/health`.
#[derive(Debug)]
pub struct HealthResponse {
    pub status: String,
    pub version: String,
}

/// The runtime's version.
pub const RUNTIME_VERSION: &'static str = "0.1.0";

/// `GET /v1/health`: status `ok` and the runtime's version.
pub fn health_response() -> (r: HealthResponse)
    ensures
        r.status@ == "ok"@,
        r.version@ == RUNTIME_VERSION@,
{
    HealthResponse { status: String::from_str("ok"), version: String::from_str(RUNTIME_VERSION) }
}

/// A status code in `200..300`.
pub fn is_success_status(status: u16) -> (r: bool)
    ensures
        r == (200 <= status < 300),
{
    200 <= status && status < 300
}

/// The internal registration of the authenticated identity.
pub fn register_request(identity_b64: String, public: &PublicRegisterRequest) -> (r: RegisterRequest)
    ensures
        r.identity_b64@ == identity_b64@,
        r.context_id@ == public.context_id@,
{
    RegisterRequest { identity_b64, context_id: public.context_id.clone() }
}

/// The public answer to a successful registration (status 201).
pub fn register_reply(public: &PublicRegisterRequest) -> (r: PublicRegisterResponse)
    ensures
        r.registered,
        r.context_id@ == public.context_id@,
{
    PublicRegisterResponse { registered: true, context_id: public.context_id.clone() }
}

/// Status of a successful registration.
pub const REGISTER_STATUS: u16 = 201;

/// Status of a successful unregistration or team deletion (no body).
pub const NO_CONTENT_STATUS: u16 = 204;

/// The internal unregistration of a context of the authenticated identity.
pub fn unregister_request(identity_b64: String, context_id: String) -> (r: UnregisterRequest)
    ensures
        r.identity_b64@ == identity_b64@,
        r.context_id@ == context_id@,
{
    UnregisterRequest { identity_b64, context_id }
}

/// Seconds in milliseconds, saturating at `u32::MAX`.
pub fn seconds_to_millis(secs: u32) -> (ms: u32)
    ensures
        ms == (if secs * 1000 > u32::MAX { u32::MAX as int } else { secs * 1000 }),
{
    if secs > 4_294_967 {
        u32::MAX
    } else {
        secs * 1000
    }
}

/// The internal dispatch of a public one by the authenticated caller: the
/// timeout in milliseconds, saturating at `u32::MAX`.
pub fn dispatch_request(caller_identity_b64: String, public: &PublicDispatchRequest) -> (r: DispatchRequest)
    ensures
        r.caller_identity_b64@ == caller_identity_b64@,
        r.target_identity_b64@ == public.target_identity@,
        r.context_id@ == public.context_id@,
        r.payload_b64@ == public.payload@,
        r.timeout_ms == (if public.timeout_seconds * 1000 > u32::MAX { u32::MAX as int } else { public.timeout_seconds * 1000 }),
{
    DispatchRequest {
        caller_identity_b64,
        target_identity_b64: public.target_identity.clone(),
        context_id: public.context_id.clone(),
        payload_b64: public.payload.clone(),
        timeout_ms: seconds_to_millis(public.timeout_seconds),
    }
}

/// The public answer to a completed dispatch: completion time in ISO-8601.
pub fn dispatch_reply(internal: &DispatchResponse) -> (r: PublicDispatchResponse)
    ensures
        r.wake_id@ == wake_id_text(internal.wake_id),
        r.response@ == internal.response_payload_b64@,
        r.completed_at@ == iso8601_text(internal.completed_at as int),
{
    PublicDispatchResponse {
        wake_id: internal.wake_id.to_string(),
        response: internal.response_payload_b64.clone(),
        completed_at: format_iso8601_utc(internal.completed_at),
    }
}

/// The team object's path for reading `identity_b64`'s inbox, keeping the
/// public query string.
pub fn inbox_path(identity_b64: &str, query: &str) -> (r: String)
    ensures
        r@ == (if query@.len() == 0 { "/inbox/"@ + identity_b64@ } else { "/inbox/"@ + identity_b64@ + "?"@ + query@ }),
{
    let mut p = String::from_str("/inbox/");
    push_str(&mut p, identity_b64);
    if query.unicode_len() > 0 {
        push_str(&mut p, "?");
        push_str(&mut p, query);
    }
    p
}

/// How an internal inbox entry is shown publicly.
pub open spec fn public_summary_ok(p: PublicWakeSummary, w: WakeSummary) -> bool {
    &&& p.wake_id@ == w.wake_id@
    &&& p.caller_identity@ == w.caller_identity_b64@
    &&& p.context_id@ == w.context_id@
    &&& p.payload@ == w.payload_b64@
    &&& p.expires_at@ == iso8601_text(w.expires_at_ms as int)
}

/// The public inbox page: each entry renamed, deadlines in ISO-8601.
pub fn inbox_reply(internal: &ReadInboxResponse) -> (r: PublicReadInboxResponse)
    ensures
        r.more_available == internal.more_available,
        r.wakes@.len() == internal.wakes@.len(),
        forall|i: int| 0 <= i < r.wakes@.len() ==> public_summary_ok(#[trigger] r.wakes@[i], internal.wakes@[i]),
{
    let mut out: Vec<PublicWakeSummary> = Vec::new();
    let mut i: usize = 0;
    while i < internal.wakes.len()
        invariant
            i <= internal.wakes@.len(),
            out@.len() == i,
            forall|j: int| 0 <= j < i ==> public_summary_ok(#[trigger] out@[j], internal.wakes@[j]),
        decreases internal.wakes@.len() - i,
    {
        let w = &internal.wakes[i];
        out.push(PublicWakeSummary {
            wake_id: w.wake_id.clone(),
            caller_identity: w.caller_identity_b64.clone(),
            context_id: w.context_id.clone(),
            payload: w.payload_b64.clone(),
            expires_at: format_iso8601_utc(w.expires_at_ms),
        });
        i = i + 1;
    }
    PublicReadInboxResponse { wakes: out, more_available: internal.more_available }
}

/// The internal completion of a public one by the authenticated identity.
pub fn complete_request(by_identity_b64: String, wake_id: String, public: &PublicCompleteRequest) -> (r: CompleteRequest)
    ensures
        r.by_identity_b64@ == by_identity_b64@,
        r.wake_id@ == wake_id@,
        r.response_payload_b64@ == public.response@,
{
    CompleteRequest { by_identity_b64, wake_id, response_payload_b64: public.response.clone() }
}

/// The public answer to a successful completion.
pub fn complete_reply(wake_id: String) -> (r: PublicCompleteResponse)
    ensures
        r.completed,
        r.wake_id@ == wake_id@,
{
    PublicCompleteResponse { completed: true, wake_id }
}

/// The public answer to a team initialization: time in ISO-8601.
pub fn init_reply(internal: &InitTeamResponse) -> (r: PublicInitTeamResponse)
    ensures
        r.team_id@ == internal.team_id_b64@,
        r.initialized_at@ == iso8601_text(internal.initialized_at_ms as int),
        r.tenancy_prefix@ == internal.tenancy_prefix@,
{
    PublicInitTeamResponse {
        team_id: internal.team_id_b64.clone(),
        initialized_at: format_iso8601_utc(internal.initialized_at_ms),
        tenancy_prefix: internal.tenancy_prefix.clone(),
    }
}

fn copy_strings(v: &Vec<String>) -> (r: Vec<String>)
    ensures
        r@.len() == v@.len(),
        forall|i: int| 0 <= i < v@.len() ==> (#[trigger] r@[i])@ == v@[i]@,
{
    let mut r: Vec<String> = Vec::new();
    let mut i: usize = 0;
    while i < v.len()
        invariant
            i <= v@.len(),
            r@.len() == i,
            forall|j: int| 0 <= j < i ==> (#[trigger] r@[j])@ == v@[j]@,
        decreases v@.len() - i,
    {
        r.push(v[i].clone());
        i = i + 1;
    }
    r
}

/// How an internal agent entry is shown publicly.
pub open spec fn public_agent_ok(p: PublicRegisteredAgent, a: RegisteredAgent) -> bool {
    &&& p.identity@ == a.identity_b64@
    &&& p.contexts@.len() == a.contexts@.len()
    &&& forall|k: int| 0 <= k < p.contexts@.len() ==> (#[trigger] p.contexts@[k])@ == a.contexts@[k]@
    &&& p.inbox_depth == a.inbox_depth
}

/// The public team status: agents renamed, time in ISO-8601.
pub fn status_reply(internal: &TeamStatusResponse) -> (r: PublicTeamStatusResponse)
    ensures
        r.team_id@ == internal.team_id_b64@,
        r.initialized_at@ == iso8601_text(internal.initialized_at_ms as int),
        r.tenancy_prefix@ == internal.tenancy_prefix@,
        r.total_inbox_depth == internal.total_inbox_depth,
        r.registered_agents@.len() == internal.registered_agents@.len(),
        forall|i: int| 0 <= i < r.registered_agents@.len() ==> public_agent_ok(#[trigger] r.registered_agents@[i], internal.registered_agents@[i]),
{
    let mut agents: Vec<PublicRegisteredAgent> = Vec::new();
    let mut i: usize = 0;
    while i < internal.registered_agents.len()
        invariant
            i <= internal.registered_agents@.len(),
            agents@.len() == i,
            forall|j: int| 0 <= j < i ==> public_agent_ok(#[trigger] agents@[j], internal.registered_agents@[j]),
        decreases internal.registered_agents@.len() - i,
    {
        let a = &internal.registered_agents[i];
        agents.push(PublicRegisteredAgent {
            identity: a.identity_b64.clone(),
            contexts: copy_strings(&a.contexts),
            inbox_depth: a.inbox_depth,
        });
        i = i + 1;
    }
    PublicTeamStatusResponse {
        team_id: internal.team_id_b64.clone(),
        initialized_at: format_iso8601_utc(internal.initialized_at_ms),
        tenancy_prefix: internal.tenancy_prefix.clone(),
        registered_agents: agents,
        total_inbox_depth: internal.total_inbox_depth,
    }
}

} // verus!
