//! Error types of the wake-routing runtime.
//!
//! [`WakeError`] covers the dispatch protocol's own failures (no handler,
//! refused dispatch, timeout, bad timeout value, internal failure);
//! [`TallyError`] adds the cases specific to completing a wake.

use vstd::prelude::*;
use crate::text::push_str;

verus! {

/// Dispatch-protocol errors.
#[derive(Debug)]
pub enum WakeError {
    /// The target has no handler registered for the context.
    HandlerNotFound,
    /// The dispatch was refused (validation failed).
    DispatchRefused { reason: String },
    /// The target did not complete the wake within its timeout.
    TimeoutExpired { timeout_ms: u64 },
    /// The requested timeout lies outside the accepted range.
    InvalidTimeout,
    /// Internal failure (storage, invariant violation).
    Other(String),
}

/// Mathematical content of a [`WakeError`].
pub enum WakeErrorView {
    HandlerNotFound,
    DispatchRefused(Seq<char>),
    TimeoutExpired(u64),
    InvalidTimeout,
    Other(Seq<char>),
}

impl View for WakeError {
    type V = WakeErrorView;

    open spec fn view(&self) -> WakeErrorView {
        match self {
            WakeError::HandlerNotFound => WakeErrorView::HandlerNotFound,
            WakeError::DispatchRefused { reason } => WakeErrorView::DispatchRefused(reason@),
            WakeError::TimeoutExpired { timeout_ms } => WakeErrorView::TimeoutExpired(*timeout_ms),
            WakeError::InvalidTimeout => WakeErrorView::InvalidTimeout,
            WakeError::Other(m) => WakeErrorView::Other(m@),
        }
    }
}

/// Human-readable text of a protocol error.
pub open spec fn wake_error_text(e: WakeErrorView) -> Seq<char> {
    match e {
        WakeErrorView::HandlerNotFound => "target has no registered handler for context_id"@,
        WakeErrorView::DispatchRefused(r) => r,
        WakeErrorView::TimeoutExpired(_) => "wake timed out"@,
        WakeErrorView::InvalidTimeout => "timeout must be > 0"@,
        WakeErrorView::Other(m) => "internal error: "@ + m,
    }
}

impl WakeError {
    /// Human-readable text of the error.
    pub fn to_string(&self) -> (s: String)
        ensures
            s@ == wake_error_text(self@),
    {
        match self {
            WakeError::HandlerNotFound => String::from_str(
                "target has no registered handler for context_id",
            ),
            WakeError::DispatchRefused { reason } => reason.clone(),
            WakeError::TimeoutExpired { .. } => String::from_str("wake timed out"),
            WakeError::InvalidTimeout => String::from_str("timeout must be > 0"),
            WakeError::Other(m) => {
                let mut s = String::from_str("internal error: ");
                push_str(&mut s, m.as_str());
                s
            },
        }
    }
}

/// Errors of completing a wake: protocol errors plus the cases specific to
/// the wake's lifecycle.
#[derive(Debug)]
pub enum TallyError {
    /// A protocol error passed through.
    Stoa(WakeError),
    /// No wake row under the identifier.
    WakeNotFound,
    /// The wake is already completed or timed out.
    AlreadyTerminal,
    /// The completing identity is not the wake's target.
    IdentityMismatch,
}

pub enum TallyErrorView {
    Stoa(WakeErrorView),
    WakeNotFound,
    AlreadyTerminal,
    IdentityMismatch,
}

impl View for TallyError {
    type V = TallyErrorView;

    open spec fn view(&self) -> TallyErrorView {
        match self {
            TallyError::Stoa(e) => TallyErrorView::Stoa(e@),
            TallyError::WakeNotFound => TallyErrorView::WakeNotFound,
            TallyError::AlreadyTerminal => TallyErrorView::AlreadyTerminal,
            TallyError::IdentityMismatch => TallyErrorView::IdentityMismatch,
        }
    }
}

pub open spec fn tally_error_text(e: TallyErrorView) -> Seq<char> {
    match e {
        TallyErrorView::Stoa(w) => wake_error_text(w),
        TallyErrorView::WakeNotFound => "wake not found"@,
        TallyErrorView::AlreadyTerminal => "wake already in terminal state"@,
        TallyErrorView::IdentityMismatch => "identity does not match wake target"@,
    }
}

impl TallyError {
    /// Human-readable text; a protocol error shows its own text.
    pub fn to_string(&self) -> (s: String)
        ensures
            s@ == tally_error_text(self@),
    {
        match self {
            TallyError::Stoa(e) => e.to_string(),
            TallyError::WakeNotFound => String::from_str("wake not found"),
            TallyError::AlreadyTerminal => String::from_str("wake already in terminal state"),
            TallyError::IdentityMismatch => String::from_str("identity does not match wake target"),
        }
    }

    /// Lifts a protocol error.
    pub fn from_wake_error(e: WakeError) -> (t: TallyError)
        ensures
            t@ == TallyErrorView::Stoa(e@),
    {
        TallyError::Stoa(e)
    }
}

} // verus!
