//! Error replies of the runtime's HTTP surface.
//!
//! A structured error is answered with a JSON body `{ "error": ..., }`
//! plus the context fields in scope: the wake identifier for timeouts,
//! missing and terminal wakes, the context identifier for a missing
//! handler, and the timeout in seconds for a timed-out wake. A few
//! malformed-input cases answer with a plain-text body instead.

use vstd::prelude::*;
use crate::errors::{TallyError, TallyErrorView, WakeError, WakeErrorView, wake_error_text, tally_error_text};
use crate::wake::{WakeId, wake_id_text};

verus! {

/// A JSON error reply: status code, message, and the context fields its
/// body carries (absent fields are left out of the body).
#[derive(Debug)]
pub struct ErrorReply {
    pub status: u16,
    pub error: String,
    pub wake_id: Option<String>,
    pub context_id: Option<String>,
    pub timeout_seconds: Option<u64>,
}

/// Mathematical content of an [`ErrorReply`].
pub struct ErrorReplyView {
    pub status: u16,
    pub error: Seq<char>,
    pub wake_id: Option<Seq<char>>,
    pub context_id: Option<Seq<char>>,
    pub timeout_seconds: Option<u64>,
}

pub open spec fn opt_text(s: Option<String>) -> Option<Seq<char>> {
    match s {
        Some(t) => Some(t@),
        None => None,
    }
}

impl View for ErrorReply {
    type V = ErrorReplyView;

    open spec fn view(&self) -> ErrorReplyView {
        ErrorReplyView {
            status: self.status,
            error: self.error@,
            wake_id: opt_text(self.wake_id),
            context_id: opt_text(self.context_id),
            timeout_seconds: self.timeout_seconds,
        }
    }
}

/// A plain-text error reply (status code and body text).
#[derive(Debug)]
pub struct TextReply {
    pub status: u16,
    pub message: String,
}

/// A refused request: answered with a JSON or a plain-text error.
#[derive(Debug)]
pub enum Refusal {
    Json(ErrorReply),
    Text(TextReply),
}

/// Mathematical content of a [`Refusal`].
pub enum RefusalView {
    Json(ErrorReplyView),
    Text(u16, Seq<char>),
}

impl View for Refusal {
    type V = RefusalView;

    open spec fn view(&self) -> RefusalView {
        match self {
            Refusal::Json(e) => RefusalView::Json(e@),
            Refusal::Text(t) => RefusalView::Text(t.status, t.message@),
        }
    }
}

/// The context fields in scope where an error is answered.
#[derive(Debug)]
pub struct ErrorContext {
    pub wake_id: Option<WakeId>,
    pub context_id: Option<String>,
}

/// HTTP status of a protocol error.
pub open spec fn wake_error_status(e: WakeErrorView) -> u16 {
    match e {
        WakeErrorView::HandlerNotFound => 422,
        WakeErrorView::DispatchRefused(_) => 422,
        WakeErrorView::TimeoutExpired(_) => 408,
        WakeErrorView::InvalidTimeout => 400,
        WakeErrorView::Other(_) => 500,
    }
}

pub open spec fn wake_id_field(w: Option<WakeId>) -> Option<Seq<char>> {
    match w {
        Some(id) => Some(wake_id_text(id)),
        None => None,
    }
}

/// The reply to a protocol error: a missing handler names the context, a
/// timeout names the wake (when known) and the timeout in whole seconds.
pub open spec fn wake_error_reply(e: WakeErrorView, wake_id: Option<WakeId>, context_id: Option<Seq<char>>) -> ErrorReplyView {
    ErrorReplyView {
        status: wake_error_status(e),
        error: wake_error_text(e),
        wake_id: match e {
            WakeErrorView::TimeoutExpired(_) => wake_id_field(wake_id),
            _ => None,
        },
        context_id: match e {
            WakeErrorView::HandlerNotFound => context_id,
            _ => None,
        },
        timeout_seconds: match e {
            WakeErrorView::TimeoutExpired(ms) => Some((ms / 1000) as u64),
            _ => None,
        },
    }
}

/// The reply to a completion error: 404 and 410 name the wake, 403
/// carries the message only; protocol errors answer as above.
pub open spec fn tally_error_reply(e: TallyErrorView, wake_id: Option<WakeId>, context_id: Option<Seq<char>>) -> ErrorReplyView {
    match e {
        TallyErrorView::Stoa(w) => wake_error_reply(w, wake_id, context_id),
        TallyErrorView::WakeNotFound => ErrorReplyView {
            status: 404,
            error: tally_error_text(e),
            wake_id: wake_id_field(wake_id),
            context_id: None,
            timeout_seconds: None,
        },
        TallyErrorView::AlreadyTerminal => ErrorReplyView {
            status: 410,
            error: tally_error_text(e),
            wake_id: wake_id_field(wake_id),
            context_id: None,
            timeout_seconds: None,
        },
        TallyErrorView::IdentityMismatch => ErrorReplyView {
            status: 403,
            error: tally_error_text(e),
            wake_id: None,
            context_id: None,
            timeout_seconds: None,
        },
    }
}

fn wake_id_string(w: &Option<WakeId>) -> (r: Option<String>)
    ensures
        opt_text(r) == wake_id_field(*w),
{
    match w {
        Some(id) => Some(id.to_string()),
        None => None,
    }
}

fn copy_text(s: &Option<String>) -> (r: Option<String>)
    ensures
        opt_text(r) == opt_text(*s),
{
    match s {
        Some(t) => Some(t.clone()),
        None => None,
    }
}

/// A JSON error reply with the message only.
pub fn json_error(status: u16, error: &str) -> (r: ErrorReply)
    ensures
        r@ == (ErrorReplyView { status, error: error@, wake_id: None, context_id: None, timeout_seconds: None }),
{
    ErrorReply { status, error: error.to_string(), wake_id: None, context_id: None, timeout_seconds: None }
}

/// The reply to a protocol error in the given context.
pub fn stoa_error_to_response(err: &WakeError, ctx: &ErrorContext) -> (r: ErrorReply)
    ensures
        r@ == wake_error_reply(err@, ctx.wake_id, opt_text(ctx.context_id)),
{
    let error = err.to_string();
    match err {
        WakeError::HandlerNotFound => ErrorReply {
            status: 422,
            error,
            wake_id: None,
            context_id: copy_text(&ctx.context_id),
            timeout_seconds: None,
        },
        WakeError::DispatchRefused { .. } => ErrorReply {
            status: 422,
            error,
            wake_id: None,
            context_id: None,
            timeout_seconds: None,
        },
        WakeError::TimeoutExpired { timeout_ms } => ErrorReply {
            status: 408,
            error,
            wake_id: wake_id_string(&ctx.wake_id),
            context_id: None,
            timeout_seconds: Some(*timeout_ms / 1000),
        },
        WakeError::InvalidTimeout => ErrorReply {
            status: 400,
            error,
            wake_id: None,
            context_id: None,
            timeout_seconds: None,
        },
        WakeError::Other(_) => ErrorReply {
            status: 500,
            error,
            wake_id: None,
            context_id: None,
            timeout_seconds: None,
        },
    }
}

/// The reply to a completion error in the given context.
pub fn tally_error_to_response(err: &TallyError, ctx: &ErrorContext) -> (r: ErrorReply)
    ensures
        r@ == tally_error_reply(err@, ctx.wake_id, opt_text(ctx.context_id)),
{
    match err {
        TallyError::Stoa(e) => stoa_error_to_response(e, ctx),
        TallyError::WakeNotFound => ErrorReply {
            status: 404,
            error: err.to_string(),
            wake_id: wake_id_string(&ctx.wake_id),
            context_id: None,
            timeout_seconds: None,
        },
        TallyError::AlreadyTerminal => ErrorReply {
            status: 410,
            error: err.to_string(),
            wake_id: wake_id_string(&ctx.wake_id),
            context_id: None,
            timeout_seconds: None,
        },
        TallyError::IdentityMismatch => ErrorReply {
            status: 403,
            error: err.to_string(),
            wake_id: None,
            context_id: None,
            timeout_seconds: None,
        },
    }
}

} // verus!
