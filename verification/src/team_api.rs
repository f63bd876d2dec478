//! The team object's internal routes: what each request does to the
//! team's state and what it is answered.
//!
//! Identities are parsed by the identity layer before these functions run;
//! each function takes the outcome of that parse (`Err` carries the
//! parser's message). Storage writes, resolver bookkeeping and clocks are
//! the caller's: the functions return what the caller must do next.

use vstd::prelude::*;
use crate::codec::{b64_decode_text, b64_decoded, b64_decode_error_text, b64_encoding, b64_encode_bytes, is_b64_text, lemma_b64_decoded, ulid_error_text, utf8_len, UlidDecodeError};
use crate::consts::{MAX_RESPONSE_BYTES, MAX_TIMEOUT_MS, clamp_limit, clamp_wait_seconds, spec_clamp_limit, spec_clamp_wait};
use crate::errors::{TallyError, TallyErrorView, WakeError, WakeErrorView};
use crate::replies::{ErrorContext, ErrorReply, ErrorReplyView, Refusal, RefusalView, TextReply, stoa_error_to_response, tally_error_to_response, wake_error_reply, tally_error_reply};
use crate::rpc::{CompleteRequest, DispatchRequest, DispatchResponse, OkResponse, RegisterRequest, UnregisterRequest, ValidateApiKeyRequest, ValidateApiKeyResponse};
use crate::store::{TeamStore, TeamStoreView, inbox_of, AlarmEffects, spec_fire, timed_out_ids, CompleteEffects, DispatchEffects, dispatch_refusal, spec_dispatch, spec_register, spec_unregister, completion_refusal, spec_complete};
use crate::text::{decimal, push_decimal, push_str};
use crate::wake::{WakeId, parsed_wake_id, wake_id_text};

verus! {

/// The message of a failed parse, if it failed.
pub open spec fn check_error(r: Result<(), String>) -> Option<Seq<char>> {
    match r {
        Ok(_) => None,
        Err(e) => Some(e@),
    }
}

/// `prefix` followed by `detail`, as a new string.
fn message(prefix: &str, detail: &str) -> (s: String)
    ensures
        s@ == prefix@ + detail@,
{
    let mut s = prefix.to_string();
    push_str(&mut s, detail);
    s
}

/// The plain-text 400 answered when an identity does not parse.
pub open spec fn bad_field_reply(field_prefix: Seq<char>, e: Seq<char>) -> RefusalView {
    RefusalView::Text(400, field_prefix + e)
}

/// `POST /register`: registers the context for the identity.
pub fn handle_register(store: &mut TeamStore, body: &RegisterRequest, identity_check: &Result<(), String>) -> (r: Result<OkResponse, Refusal>)
    requires
        old(store).wf(),
    ensures
        final(store).wf(),
        match check_error(*identity_check) {
            Some(e) => r matches Err(x) && x@ == bad_field_reply("invalid identity_b64: "@, e) && final(store).view() == old(store).view(),
            None => r is Ok && final(store).view() == spec_register(old(store).view(), body.identity_b64@, body.context_id@),
        },
{
    if let Err(e) = identity_check {
        return Err(Refusal::Text(TextReply { status: 400, message: message("invalid identity_b64: ", e.as_str()) }));
    }
    store.register_handler(&body.identity_b64, &body.context_id);
    Ok(OkResponse)
}

/// `POST /unregister`: removes the context from the identity's handlers.
pub fn handle_unregister(store: &mut TeamStore, body: &UnregisterRequest, identity_check: &Result<(), String>) -> (r: Result<OkResponse, Refusal>)
    requires
        old(store).wf(),
    ensures
        final(store).wf(),
        match check_error(*identity_check) {
            Some(e) => r matches Err(x) && x@ == bad_field_reply("invalid identity_b64: "@, e) && final(store).view() == old(store).view(),
            None => r is Ok && final(store).view() == spec_unregister(old(store).view(), body.identity_b64@, body.context_id@),
        },
{
    if let Err(e) = identity_check {
        return Err(Refusal::Text(TextReply { status: 400, message: message("invalid identity_b64: ", e.as_str()) }));
    }
    store.unregister_handler(&body.identity_b64, &body.context_id);
    Ok(OkResponse)
}

/// Why a dispatch request is refused, if it is: the caller's identity, the
/// target's identity (plain-text 400s), an empty context, a payload that
/// is not base64, then the dispatch checks of the store (structured
/// errors) — in that order.
pub open spec fn dispatch_request_refusal(
    s: TeamStoreView,
    caller_err: Option<Seq<char>>,
    target_err: Option<Seq<char>>,
    target: Seq<char>,
    ctx: Seq<char>,
    payload_b64: Seq<char>,
    timeout_ms: u32,
) -> Option<RefusalView> {
    if caller_err is Some {
        Some(bad_field_reply("invalid caller_identity_b64: "@, caller_err->0))
    } else if target_err is Some {
        Some(bad_field_reply("invalid target_identity_b64: "@, target_err->0))
    } else if ctx.len() == 0 {
        Some(RefusalView::Json(wake_error_reply(WakeErrorView::DispatchRefused("context_id must be non-empty"@), None, None)))
    } else if !is_b64_text(payload_b64) {
        Some(RefusalView::Json(wake_error_reply(
            WakeErrorView::DispatchRefused("invalid payload_b64: "@ + b64_decode_error_text(payload_b64)),
            None,
            None,
        )))
    } else {
        match dispatch_refusal(s, target, ctx, b64_decoded(payload_b64).len(), timeout_ms) {
            Some(e) => Some(RefusalView::Json(wake_error_reply(e, None, Some(ctx)))),
            None => None,
        }
    }
}

/// A dispatch the store accepted: the new wake and what to do next.
#[derive(Debug)]
pub struct DispatchAccepted {
    pub wake_id: WakeId,
    pub effects: DispatchEffects,
}

/// `POST /dispatch`: validates the request and dispatches the wake under
/// `wake_id` at `now_ms`. The answer comes once the wake resolves (see
/// [`dispatch_outcome`]).
pub fn handle_dispatch(
    store: &mut TeamStore,
    body: &DispatchRequest,
    caller_check: &Result<(), String>,
    target_check: &Result<(), String>,
    wake_id: WakeId,
    now_ms: u64,
) -> (r: Result<DispatchAccepted, Refusal>)
    requires
        old(store).wf(),
        now_ms <= u64::MAX - MAX_TIMEOUT_MS,
    ensures
        final(store).wf(),
        match dispatch_request_refusal(
            old(store).view(),
            check_error(*caller_check),
            check_error(*target_check),
            body.target_identity_b64@,
            body.context_id@,
            body.payload_b64@,
            body.timeout_ms,
        ) {
            Some(e) => r matches Err(x) && x@ == e && final(store).view() == old(store).view(),
            None => r matches Ok(a) && a.wake_id == wake_id && final(store).view() == spec_dispatch(
                old(store).view(),
                body.caller_identity_b64@,
                body.target_identity_b64@,
                body.context_id@,
                b64_decoded(body.payload_b64@),
                body.timeout_ms,
                wake_id,
                now_ms,
            ),
        },
{
    if let Err(e) = caller_check {
        return Err(Refusal::Text(TextReply { status: 400, message: message("invalid caller_identity_b64: ", e.as_str()) }));
    }
    if let Err(e) = target_check {
        return Err(Refusal::Text(TextReply { status: 400, message: message("invalid target_identity_b64: ", e.as_str()) }));
    }
    let none = ErrorContext { wake_id: None, context_id: None };
    if body.context_id.as_str().unicode_len() == 0 {
        let e = WakeError::DispatchRefused { reason: String::from_str("context_id must be non-empty") };
        return Err(Refusal::Json(stoa_error_to_response(&e, &none)));
    }
    let payload = match b64_decode_text(body.payload_b64.as_str()) {
        Ok(b) => b,
        Err(m) => {
            let e = WakeError::DispatchRefused { reason: message("invalid payload_b64: ", m.as_str()) };
            return Err(Refusal::Json(stoa_error_to_response(&e, &none)));
        },
    };
    proof {
        lemma_b64_decoded(payload@);
    }
    let ctx = ErrorContext { wake_id: None, context_id: Some(body.context_id.clone()) };
    match store.dispatch(
        &body.caller_identity_b64,
        &body.target_identity_b64,
        &body.context_id,
        payload,
        body.timeout_ms,
        wake_id,
        now_ms,
    ) {
        Ok(effects) => Ok(DispatchAccepted { wake_id, effects }),
        Err(e) => Err(Refusal::Json(stoa_error_to_response(&e, &ctx))),
    }
}

/// How an accepted wake resolved.
#[derive(Debug)]
pub enum WakeOutcome {
    /// The target completed it with `response` at `completed_at`.
    Completed { response: Vec<u8>, completed_at: u64 },
    /// It timed out after `timeout_ms`.
    TimedOut { timeout_ms: u64 },
    /// Its resolver went away without an answer.
    Dropped,
}

/// The message of a dispatch whose resolver went away.
pub open spec fn dropped_text() -> Seq<char> {
    "resolver dropped without resolution (DO restart or bug)"@
}

/// The answer to a dispatch once its wake resolved: the target's response
/// on completion; a 408 naming the wake and its timeout in seconds on
/// timeout; a 500 when the resolver went away.
pub fn dispatch_outcome(wake_id: WakeId, target_b64: &String, context_id: &String, outcome: &WakeOutcome) -> (r: Result<DispatchResponse, ErrorReply>)
    ensures
        match outcome {
            WakeOutcome::Completed { response, completed_at } => r matches Ok(d)
                && (d.wake_id, d.responding_identity_b64@, d.response_payload_b64@, d.completed_at)
                    == completed_answer(wake_id, target_b64@, response@, *completed_at),
            WakeOutcome::TimedOut { timeout_ms } => r matches Err(e) && e@ == wake_error_reply(
                WakeErrorView::TimeoutExpired(*timeout_ms),
                Some(wake_id),
                Some(context_id@),
            ),
            WakeOutcome::Dropped => r matches Err(e) && e@ == wake_error_reply(WakeErrorView::Other(dropped_text()), Some(wake_id), Some(context_id@)),
        },
{
    let ctx = ErrorContext { wake_id: Some(wake_id), context_id: Some(context_id.clone()) };
    match outcome {
        WakeOutcome::Completed { response, completed_at } => Ok(DispatchResponse {
            wake_id,
            responding_identity_b64: target_b64.clone(),
            response_payload_b64: b64_encode_bytes(response.as_slice()),
            completed_at: *completed_at,
        }),
        WakeOutcome::TimedOut { timeout_ms } => {
            let e = WakeError::TimeoutExpired { timeout_ms: *timeout_ms };
            Err(stoa_error_to_response(&e, &ctx))
        },
        WakeOutcome::Dropped => {
            let e = WakeError::Other(String::from_str("resolver dropped without resolution (DO restart or bug)"));
            Err(stoa_error_to_response(&e, &ctx))
        },
    }
}

/// The answer of a dispatch whose wake was completed with `response` at
/// `completed_at`: the wake, the responding target, the response in
/// base64 and the completion time.
pub open spec fn completed_answer(wake_id: WakeId, target: Seq<char>, response: Seq<u8>, completed_at: u64) -> (WakeId, Seq<char>, Seq<char>, u64) {
    (wake_id, target, b64_encoding(response), completed_at)
}

/// What a completion hands to the dispatch waiting on its wake: the
/// accepted response and the completion time the completer is answered.
pub fn completion_outcome(accepted: &CompleteAccepted, completed_at: u64) -> (o: WakeOutcome)
    ensures
        o matches WakeOutcome::Completed { response, completed_at: t } && response@ == accepted.response@ && t == completed_at,
{
    WakeOutcome::Completed { response: accepted.response.clone(), completed_at }
}

/// A completion's answer reaches the waiting dispatch unchanged. Right
/// after a wake is dispatched to `target`, a completion of it by `target`
/// with a well-formed response text within the size limit is accepted for
/// that wake, and the answer the dispatch builds from what the completion
/// hands on carries the same response text and the completion's time.
pub proof fn lemma_completion_reaches_dispatcher(
    s: TeamStoreView,
    caller: Seq<char>,
    target: Seq<char>,
    ctx: Seq<char>,
    payload: Seq<u8>,
    timeout_ms: u32,
    id: WakeId,
    now: u64,
    response_b64: Seq<char>,
    completed_at: u64,
)
    requires
        dispatch_refusal(s, target, ctx, payload.len(), timeout_ms) is None,
        is_b64_text(response_b64),
        b64_decoded(response_b64).len() <= MAX_RESPONSE_BYTES,
    ensures
        ({
            let s1 = spec_dispatch(s, caller, target, ctx, payload, timeout_ms, id, now);
            &&& complete_request_refusal(s1, None, target, wake_id_text(id), response_b64) is None
            &&& parsed_wake_id(wake_id_text(id)) == id
            &&& completed_answer(id, target, b64_decoded(response_b64), completed_at) == (id, target, response_b64, completed_at)
        }),
{
    crate::lifecycle::lemma_dispatch_then_complete(s, caller, target, ctx, payload, timeout_ms, id, now, b64_decoded(response_b64), target);
    WakeId::lemma_text_round_trip(id);
    WakeId::lemma_with_bits(id.bits_spec());
    WakeId::lemma_bits_injective(WakeId::with_bits(id.bits_spec()), id);
    crate::codec::lemma_b64_text_round_trip(response_b64);
}

/// The message of a wake identifier that does not parse.
pub open spec fn wake_id_parse_error(s: Seq<char>) -> Seq<char> {
    if utf8_len(s) != 26 {
        ulid_error_text(UlidDecodeError::InvalidLength)
    } else {
        ulid_error_text(UlidDecodeError::InvalidChar)
    }
}

/// The refusal text for an oversized response.
pub open spec fn response_too_large_text(n: nat) -> Seq<char> {
    "response "@ + decimal(n) + " bytes exceeds MAX_RESPONSE_BYTES (32768)"@
}

/// Why a completion request is refused, if it is: the completing
/// identity, the wake identifier, the response encoding (plain-text
/// 400s), an oversized response, then the store's completion checks
/// (structured errors naming the wake) — in that order.
pub open spec fn complete_request_refusal(
    s: TeamStoreView,
    by_err: Option<Seq<char>>,
    by: Seq<char>,
    wake_id: Seq<char>,
    response_b64: Seq<char>,
) -> Option<RefusalView> {
    if by_err is Some {
        Some(bad_field_reply("invalid by_identity_b64: "@, by_err->0))
    } else if !(wake_id.len() == 26 && crate::codec::ulid_chars_valid(wake_id)) {
        Some(bad_field_reply("invalid wake_id: "@, wake_id_parse_error(wake_id)))
    } else if !is_b64_text(response_b64) {
        Some(bad_field_reply("invalid response_payload_b64: "@, b64_decode_error_text(response_b64)))
    } else if b64_decoded(response_b64).len() > MAX_RESPONSE_BYTES {
        Some(RefusalView::Json(wake_error_reply(
            WakeErrorView::DispatchRefused(response_too_large_text(b64_decoded(response_b64).len())),
            Some(parsed_wake_id(wake_id)),
            None,
        )))
    } else {
        match completion_refusal(s, parsed_wake_id(wake_id), by) {
            Some(e) => Some(RefusalView::Json(tally_error_reply(e, Some(parsed_wake_id(wake_id)), None))),
            None => None,
        }
    }
}

/// A completion the store accepted: the wake, the response (for the
/// waiting dispatcher) and what to do next.
#[derive(Debug)]
pub struct CompleteAccepted {
    pub wake_id: WakeId,
    pub response: Vec<u8>,
    pub effects: CompleteEffects,
}

/// `POST /complete`: validates the request and completes the wake on
/// behalf of `by_identity_b64`.
pub fn handle_complete_wake(store: &mut TeamStore, body: &CompleteRequest, by_check: &Result<(), String>) -> (r: Result<CompleteAccepted, Refusal>)
    requires
        old(store).wf(),
    ensures
        final(store).wf(),
        match complete_request_refusal(
            old(store).view(),
            check_error(*by_check),
            body.by_identity_b64@,
            body.wake_id@,
            body.response_payload_b64@,
        ) {
            Some(e) => r matches Err(x) && x@ == e && final(store).view() == old(store).view(),
            None => r matches Ok(a) && a.wake_id == parsed_wake_id(body.wake_id@)
                && a.response@ == b64_decoded(body.response_payload_b64@)
                && a.effects.target_identity@ == old(store).view().wakes[a.wake_id].target_identity
                && final(store).view() == spec_complete(old(store).view(), a.wake_id, a.response@),
        },
{
    if let Err(e) = by_check {
        return Err(Refusal::Text(TextReply { status: 400, message: message("invalid by_identity_b64: ", e.as_str()) }));
    }
    let wake_id = match WakeId::from_str(body.wake_id.as_str()) {
        Ok(id) => id,
        Err(e) => {
            let m = e.to_string();
            return Err(Refusal::Text(TextReply { status: 400, message: message("invalid wake_id: ", m.as_str()) }));
        },
    };
    let response = match b64_decode_text(body.response_payload_b64.as_str()) {
        Ok(b) => b,
        Err(m) => {
            return Err(Refusal::Text(TextReply { status: 400, message: message("invalid response_payload_b64: ", m.as_str()) }));
        },
    };
    proof {
        lemma_b64_decoded(response@);
    }
    let ctx = ErrorContext { wake_id: Some(wake_id), context_id: None };
    if response.len() > MAX_RESPONSE_BYTES {
        let mut reason = String::from_str("response ");
        push_decimal(&mut reason, response.len() as u64);
        push_str(&mut reason, " bytes exceeds MAX_RESPONSE_BYTES (32768)");
        let e = WakeError::DispatchRefused { reason };
        return Err(Refusal::Json(stoa_error_to_response(&e, &ctx)));
    }
    let kept = response.clone();
    match store.complete_wake(wake_id, &body.by_identity_b64, response) {
        Ok(effects) => Ok(CompleteAccepted { wake_id, response: kept, effects }),
        Err(e) => Err(Refusal::Json(tally_error_to_response(&e, &ctx))),
    }
}

/// `POST /validate_api_key`: a bearer is valid exactly when it parses as
/// an identity; a valid bearer is the caller's identity.
pub fn handle_validate_api_key(body: &ValidateApiKeyRequest, parses: bool) -> (r: ValidateApiKeyResponse)
    ensures
        r.valid == parses,
        match r.identity_b64 {
            Some(id) => parses && id@ == body.bearer@,
            None => !parses,
        },
{
    if parses {
        ValidateApiKeyResponse { valid: true, identity_b64: Some(body.bearer.clone()) }
    } else {
        ValidateApiKeyResponse { valid: false, identity_b64: None }
    }
}

/// `c` is an ASCII decimal digit.
pub open spec fn is_digit(c: char) -> bool {
    '0' <= c <= '9'
}

/// Value of a string of decimal digits.
pub open spec fn digits_value(s: Seq<char>) -> int
    decreases s.len(),
{
    if s.len() == 0 {
        0
    } else {
        digits_value(s.drop_last()) * 10 + (s.last() as int - 48)
    }
}

/// The digits of an unsigned number's text: what follows an optional `+`.
pub open spec fn unsigned_digits(s: Seq<char>) -> Seq<char> {
    if s.len() > 0 && s[0] == '+' {
        s.skip(1)
    } else {
        s
    }
}

/// Every character is a decimal digit.
pub open spec fn all_digits(d: Seq<char>) -> bool {
    forall|i: int| 0 <= i < d.len() ==> is_digit(#[trigger] d[i])
}

/// The `u32` a text denotes, as Rust's `u32::from_str` reads it: an
/// optional `+`, then one or more decimal digits, the value fitting in
/// `u32`.
pub open spec fn u32_text_value(s: Seq<char>) -> Option<u32> {
    let d = unsigned_digits(s);
    if d.len() == 0 || !all_digits(d) || digits_value(d) > u32::MAX {
        None
    } else {
        Some(digits_value(d) as u32)
    }
}

/// Parses a `u32` as `u32::from_str` does, keeping only whether and to
/// what it parsed.
pub fn parse_u32(s: &str) -> (r: Option<u32>)
    ensures
        r == u32_text_value(s@),
{
    let n = s.unicode_len();
    let mut i: usize = 0;
    if n > 0 && s.get_char(0) == '+' {
        i = 1;
    }
    let start = i;
    let ghost d = s@.skip(start as int);
    proof {
        if start == 0 {
            assert(s@.skip(0) =~= s@);
        }
        assert(d.len() == n - start);
    }
    if i == n {
        proof {
            assert(d.len() == 0);
            assert(unsigned_digits(s@) == d);
        }
        return None;
    }
    // The value of the digits read so far, saturated at 2^32.
    let mut acc: u64 = 0;
    while i < n
        invariant
            start <= i <= n,
            n == s@.len(),
            start == 0 || (start == 1 && s@.len() > 0 && s@[0] == '+'),
            start == 0 ==> !(s@.len() > 0 && s@[0] == '+'),
            d == s@.skip(start as int),
            start == 0 ==> d == s@,
            d.len() == n - start,
            forall|j: int| 0 <= j < i - start ==> is_digit(#[trigger] d[j]),
            acc == if digits_value(d.take(i - start)) > 0x1_0000_0000 { 0x1_0000_0000 } else { digits_value(d.take(i - start)) },
        decreases n - i,
    {
        let c = s.get_char(i);
        if !('0' <= c && c <= '9') {
            proof {
                assert(d[i - start] == c);
                assert(!is_digit(d[i - start]));
                assert(!all_digits(d));
                assert(unsigned_digits(s@) == d);
            }
            return None;
        }
        let v = (c as u32 - 48) as u64;
        proof {
            let t1 = d.take(i - start + 1);
            assert(t1.drop_last() =~= d.take(i - start));
            assert(t1.last() == c);
            assert(digits_value(d.take(i - start)) >= 0) by {
                lemma_digits_value_nonneg(d.take(i - start));
            }
        }
        acc = if acc * 10 + v > 0x1_0000_0000 { 0x1_0000_0000 } else { acc * 10 + v };
        i = i + 1;
    }
    proof {
        assert(d.take(n - start) =~= d);
        assert(d.len() > 0);
        assert(all_digits(d));
        assert(unsigned_digits(s@) == d);
        lemma_digits_value_nonneg(d);
    }
    if acc > 0xffff_ffff {
        None
    } else {
        Some(acc as u32)
    }
}

proof fn lemma_digits_value_nonneg(s: Seq<char>)
    requires
        forall|j: int| 0 <= j < s.len() ==> is_digit(#[trigger] s[j]),
    ensures
        digits_value(s) >= 0,
    decreases s.len(),
{
    if s.len() > 0 {
        assert(is_digit(s[s.len() - 1]));
        lemma_digits_value_nonneg(s.drop_last());
    }
}

/// The value of query parameter `key`: its last occurrence decides, and a
/// value that is not a `u32` counts as absent.
pub open spec fn query_param(pairs: Seq<(String, String)>, key: Seq<char>) -> Option<u32>
    decreases pairs.len(),
{
    if pairs.len() == 0 {
        None
    } else if pairs.last().0@ == key {
        u32_text_value(pairs.last().1@)
    } else {
        query_param(pairs.drop_last(), key)
    }
}

/// What an inbox read asks for: page size and long-poll duration.
#[derive(Debug)]
pub struct InboxRead {
    pub limit: usize,
    pub wait_seconds: u32,
}

/// `GET /inbox/{identity}`: checks the identity and reads `limit` and
/// `wait_seconds` from the decoded query pairs, clamped to their ranges.
pub fn plan_read_inbox(identity_check: &Result<(), String>, pairs: &Vec<(String, String)>) -> (r: Result<InboxRead, Refusal>)
    ensures
        match check_error(*identity_check) {
            Some(e) => r matches Err(x) && x@ == bad_field_reply("invalid identity: "@, e),
            None => r matches Ok(p) && p.limit == spec_clamp_limit(query_param(pairs@, "limit"@))
                && p.wait_seconds == spec_clamp_wait(query_param(pairs@, "wait_seconds"@)),
        },
{
    if let Err(e) = identity_check {
        return Err(Refusal::Text(TextReply { status: 400, message: message("invalid identity: ", e.as_str()) }));
    }
    let limit_key = String::from_str("limit");
    let wait_key = String::from_str("wait_seconds");
    let mut limit: Option<u32> = None;
    let mut wait: Option<u32> = None;
    let mut i: usize = 0;
    while i < pairs.len()
        invariant
            i <= pairs@.len(),
            limit_key@ == "limit"@,
            wait_key@ == "wait_seconds"@,
            limit == query_param(pairs@.take(i as int), "limit"@),
            wait == query_param(pairs@.take(i as int), "wait_seconds"@),
        decreases pairs@.len() - i,
    {
        proof {
            let t1 = pairs@.take(i as int + 1);
            assert(t1.drop_last() =~= pairs@.take(i as int));
            assert(t1.last() == pairs@[i as int]);
        }
        if pairs[i].0 == limit_key {
            limit = parse_u32(pairs[i].1.as_str());
        }
        if pairs[i].0 == wait_key {
            wait = parse_u32(pairs[i].1.as_str());
        }
        i = i + 1;
    }
    proof {
        assert(pairs@.take(pairs@.len() as int) =~= pairs@);
    }
    Ok(InboxRead { limit: clamp_limit(limit), wait_seconds: clamp_wait_seconds(wait) })
}

/// An inbox read long-polls when the inbox is empty and a wait was asked.
pub fn needs_long_poll(store: &TeamStore, identity: &String, wait_seconds: u32) -> (r: bool)
    requires
        store.wf(),
    ensures
        r == (inbox_of(store.view(), identity@).len() == 0 && wait_seconds > 0),
{
    wait_seconds > 0 && store.inbox_len(identity) == 0
}

/// HTTP methods the team object distinguishes.
#[derive(Clone, Copy, Debug, PartialEq, Eq, Structural)]
pub enum HttpMethod {
    Get,
    Post,
    Delete,
    Other,
}

/// The team object's internal routes.
#[derive(Debug)]
pub enum DoRoute {
    Register,
    Unregister,
    Dispatch,
    /// Inbox read for the identity in the path.
    Inbox(String),
    Complete,
    ValidateApiKey,
    TeamInit,
    TeamStatus,
    TeamDelete,
    NotFound,
}

/// The route of a request to the team object, by method and path.
pub open spec fn do_route_spec(m: HttpMethod, p: Seq<char>) -> Option<Seq<char>> {
    if m == HttpMethod::Get && p.len() >= 7 && p.take(7) == "/inbox/"@ {
        Some(p.skip(7))
    } else {
        None
    }
}

/// Routes a request to the team object: `POST /register`, `/unregister`,
/// `/dispatch`, `/complete`, `/validate_api_key`, `/team/init`,
/// `/team/delete`; `GET /team/status` and `GET /inbox/{identity}`;
/// anything else is not found.
pub fn do_route(method: HttpMethod, path: &str) -> (r: DoRoute)
    ensures
        match r {
            DoRoute::Inbox(id) => do_route_spec(method, path@) == Some(id@),
            DoRoute::Register => method == HttpMethod::Post && path@ == "/register"@,
            DoRoute::Unregister => method == HttpMethod::Post && path@ == "/unregister"@,
            DoRoute::Dispatch => method == HttpMethod::Post && path@ == "/dispatch"@,
            DoRoute::Complete => method == HttpMethod::Post && path@ == "/complete"@,
            DoRoute::ValidateApiKey => method == HttpMethod::Post && path@ == "/validate_api_key"@,
            DoRoute::TeamInit => method == HttpMethod::Post && path@ == "/team/init"@,
            DoRoute::TeamStatus => method == HttpMethod::Get && path@ == "/team/status"@,
            DoRoute::TeamDelete => method == HttpMethod::Post && path@ == "/team/delete"@,
            DoRoute::NotFound => do_route_spec(method, path@) is None
                && !(method == HttpMethod::Post && (path@ == "/register"@ || path@ == "/unregister"@ || path@ == "/dispatch"@
                    || path@ == "/complete"@ || path@ == "/validate_api_key"@ || path@ == "/team/init"@ || path@ == "/team/delete"@))
                && !(method == HttpMethod::Get && path@ == "/team/status"@),
        },
{
    let p = path.to_string();
    let n = path.unicode_len();
    if method == HttpMethod::Get && n >= 7 {
        let head = path.substring_char(0, 7);
        if head.to_string() == String::from_str("/inbox/") {
            let rest = path.substring_char(7, n);
            return DoRoute::Inbox(rest.to_string());
        }
    }
    if method == HttpMethod::Post {
        if p == String::from_str("/register") {
            return DoRoute::Register;
        }
        if p == String::from_str("/unregister") {
            return DoRoute::Unregister;
        }
        if p == String::from_str("/dispatch") {
            return DoRoute::Dispatch;
        }
        if p == String::from_str("/complete") {
            return DoRoute::Complete;
        }
        if p == String::from_str("/validate_api_key") {
            return DoRoute::ValidateApiKey;
        }
        if p == String::from_str("/team/init") {
            return DoRoute::TeamInit;
        }
        if p == String::from_str("/team/delete") {
            return DoRoute::TeamDelete;
        }
    }
    if method == HttpMethod::Get && p == String::from_str("/team/status") {
        return DoRoute::TeamStatus;
    }
    DoRoute::NotFound
}

/// What an alarm firing did.
#[derive(Debug)]
pub struct AlarmOutcome {
    /// Whether some slot was due; when none was, nothing changed.
    pub processed: bool,
    pub effects: AlarmEffects,
}

/// The alarm handler at `now_ms`: when some slot is due, every due slot
/// is processed (see `TeamStore::fire_alarm`); otherwise the state is left
/// as it was and only the alarm is rescheduled.
pub fn handle_alarm(store: &mut TeamStore, now_ms: u64) -> (r: AlarmOutcome)
    requires
        old(store).wf(),
    ensures
        final(store).wf(),
        r.processed == exists|k: u64| k <= now_ms && #[trigger] old(store).view().alarms.contains_key(k),
        r.processed ==> final(store).view() == spec_fire(old(store).view(), now_ms),
        !r.processed ==> final(store).view() == old(store).view() && r.effects.timed_out@.len() == 0,
        r.effects.next_alarm == crate::store::earliest_alarm(final(store).view().alarms),
        forall|i: int| 0 <= i < r.effects.timed_out@.len() ==> timed_out_ids(old(store).view(), now_ms).contains(
            (#[trigger] r.effects.timed_out@[i]).0) && r.effects.timed_out@[i].1 == old(store).view().wakes[r.effects.timed_out@[i].0].timeout_ms,
        forall|w: WakeId| timed_out_ids(old(store).view(), now_ms).contains(w) ==> exists|i: int|
            0 <= i < r.effects.timed_out@.len() && (#[trigger] r.effects.timed_out@[i]).0 == w,
{
    if !store.has_due(now_ms) {
        let next = store.next_alarm();
        proof {
            assert(timed_out_ids(store.view(), now_ms) =~= Set::<WakeId>::empty());
        }
        return AlarmOutcome { processed: false, effects: AlarmEffects { timed_out: Vec::new(), next_alarm: next } };
    }
    let effects = store.fire_alarm(now_ms);
    AlarmOutcome { processed: true, effects }
}

} // verus!
