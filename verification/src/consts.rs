//! Limits of the wake-routing protocol: timeout range, payload and response
//! sizes, inbox capacity, and the inbox-read pagination and long-poll bounds.

use vstd::prelude::*;

verus! {

/// Shortest accepted wake timeout (milliseconds).
pub const MIN_TIMEOUT_MS: u32 = 1_000;

/// Longest accepted wake timeout (milliseconds).
pub const MAX_TIMEOUT_MS: u32 = 300_000;

/// Largest accepted dispatch payload (decoded bytes).
pub const MAX_PAYLOAD_BYTES: usize = 32768;

/// Largest accepted completion response (decoded bytes).
pub const MAX_RESPONSE_BYTES: usize = 32768;

/// Capacity of a target's inbox; a dispatch beyond it evicts the oldest entry.
pub const INBOX_LIMIT: usize = 1_000;

/// Extra time a dispatcher waits past its wake's deadline before giving up
/// on the alarm-driven timeout (milliseconds).
pub const SAFETY_BUFFER_MS: u64 = 5_000;

/// Long-poll duration when the reader names none (seconds).
pub const DEFAULT_WAIT_SECONDS: u32 = 0;

/// Longest long-poll (seconds).
pub const MAX_WAIT_SECONDS: u32 = 30;

/// Inbox page size when the reader names none.
pub const DEFAULT_LIMIT: usize = 10;

/// Largest inbox page.
pub const MAX_LIMIT: usize = 100;

/// Page size for an inbox read: the requested value clamped to
/// `[1, MAX_LIMIT]`, or `DEFAULT_LIMIT` when absent.
pub fn clamp_limit(limit: Option<u32>) -> (r: usize)
    ensures
        r == spec_clamp_limit(limit),
        1 <= r <= MAX_LIMIT,
{
    match limit {
        None => DEFAULT_LIMIT,
        Some(v) => {
            if v < 1 {
                1
            } else if v as usize > MAX_LIMIT {
                MAX_LIMIT
            } else {
                v as usize
            }
        },
    }
}

pub open spec fn spec_clamp_limit(limit: Option<u32>) -> int {
    match limit {
        None => DEFAULT_LIMIT as int,
        Some(v) => if v < 1 {
            1
        } else if v > MAX_LIMIT {
            MAX_LIMIT as int
        } else {
            v as int
        },
    }
}

/// Long-poll duration for an inbox read: the requested value capped at
/// `MAX_WAIT_SECONDS`, or `DEFAULT_WAIT_SECONDS` when absent.
pub fn clamp_wait_seconds(wait: Option<u32>) -> (r: u32)
    ensures
        r == spec_clamp_wait(wait),
        r <= MAX_WAIT_SECONDS,
{
    match wait {
        None => DEFAULT_WAIT_SECONDS,
        Some(v) => if v > MAX_WAIT_SECONDS {
            MAX_WAIT_SECONDS
        } else {
            v
        },
    }
}

pub open spec fn spec_clamp_wait(wait: Option<u32>) -> u32 {
    match wait {
        None => DEFAULT_WAIT_SECONDS,
        Some(v) => if v > MAX_WAIT_SECONDS {
            MAX_WAIT_SECONDS
        } else {
            v
        },
    }
}

/// How long a dispatcher waits for its wake to resolve before reporting a
/// timeout itself: the wake's timeout plus `SAFETY_BUFFER_MS`.
pub fn dispatch_wait_limit_ms(timeout_ms: u32) -> (r: u64)
    ensures
        r == timeout_ms + SAFETY_BUFFER_MS,
{
    timeout_ms as u64 + SAFETY_BUFFER_MS
}

/// The relations the limits are chosen to satisfy.
pub proof fn lemma_limits_consistent()
    ensures
        0 < MIN_TIMEOUT_MS < MAX_TIMEOUT_MS,
        MAX_PAYLOAD_BYTES > 0,
        MAX_RESPONSE_BYTES > 0,
        INBOX_LIMIT > 0,
        SAFETY_BUFFER_MS > 0,
        MAX_WAIT_SECONDS > DEFAULT_WAIT_SECONDS,
        MAX_LIMIT >= DEFAULT_LIMIT,
        DEFAULT_LIMIT >= 1,
{
}

} // verus!
