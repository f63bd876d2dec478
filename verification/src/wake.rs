//! Wake-routing domain types: the wake identifier, the lifecycle state and
//! the persisted per-wake row.
//!
//! A wake is dispatched `Pending`; it leaves that state exactly once, to
//! `Completed` (its target answered) or `TimedOut` (its deadline passed).
//! Terminal states never change again.

use vstd::prelude::*;
use crate::codec::{ulid_decode, ulid_encode, ulid_generate, ulid_text, ulid_value, ulid_chars_valid, lemma_ulid_text_decodes, UlidDecodeError};

verus! {

/// Wake identifier: a 128-bit ULID, written as 26 Crockford-base32
/// characters. Storage key of a wake row: `wake:{wake_id}`.
#[derive(Clone, Copy, Debug, PartialEq, Eq, Structural, Hash, PartialOrd, Ord)]
pub struct WakeId {
    bits: u128,
}

#[verifier::external_type_specification]
#[verifier::external_body]
pub struct ExUlid(ulid::Ulid);

/// Converts 128 bits to a `ulid::Ulid` value (the tuple-struct constructor).
#[verifier::external_body]
fn ulid_from_bits(bits: u128) -> ulid::Ulid {
    ulid::Ulid(bits)
}

impl WakeId {
    /// The 128 bits of the identifier.
    pub closed spec fn bits_spec(self) -> u128 {
        self.bits
    }

    /// Identifiers with the same bits are the same identifier.
    pub proof fn lemma_bits_injective(a: WakeId, b: WakeId)
        ensures
            a.bits_spec() == b.bits_spec() <==> a == b,
    {
    }

    /// The text form parses back to the identifier: it is 26 valid
    /// characters whose decoded value is the identifier's bits, so
    /// `from_str` of `to_string` returns the same identifier.
    pub proof fn lemma_text_round_trip(id: WakeId)
        ensures
            wake_id_text(id).len() == 26,
            ulid_chars_valid(wake_id_text(id)),
            ulid_value(wake_id_text(id)) == id.bits_spec() as int,
    {
        lemma_ulid_text_decodes(id.bits);
    }

    /// The identifier with the given bits.
    pub closed spec fn with_bits(bits: u128) -> WakeId {
        WakeId { bits }
    }

    pub proof fn lemma_with_bits(bits: u128)
        ensures
            WakeId::with_bits(bits).bits_spec() == bits,
    {
    }

    /// Builds an identifier from its 128 bits.
    pub fn from_bits(bits: u128) -> (id: WakeId)
        ensures
            id.bits_spec() == bits,
    {
        WakeId { bits }
    }

    /// The 128 bits of the identifier.
    pub fn bits(&self) -> (b: u128)
        ensures
            b == self.bits_spec(),
    {
        self.bits
    }

    /// A fresh identifier from the current clock and a random suffix.
    /// Every 128-bit value is a possible outcome, so no clause constrains it.
    pub fn new() -> (id: WakeId) {
        WakeId { bits: ulid_generate() }
    }

    /// The underlying `ulid::Ulid`, built from the identifier's bits. That
    /// type is opaque here, so no clause speaks of the value.
    pub fn as_ulid(&self) -> ulid::Ulid {
        ulid_from_bits(self.bits)
    }

    /// The 26-character Crockford-base32 form.
    pub fn to_string(&self) -> (s: String)
        ensures
            s@ == wake_id_text(*self),
    {
        ulid_encode(self.bits)
    }

    /// Parses the 26-character Crockford-base32 form (either case).
    pub fn from_str(s: &str) -> (r: Result<WakeId, UlidDecodeError>)
        ensures
            r matches Ok(id) ==> id.bits_spec() as int == ulid_value(s@) && id == parsed_wake_id(s@),
            r is Ok <==> (s@.len() == 26 && crate::codec::ulid_chars_valid(s@)),
            r matches Err(e) ==> (e == UlidDecodeError::InvalidLength <==> crate::codec::utf8_len(s@) != 26),
    {
        match ulid_decode(s) {
            Ok(bits) => Ok(WakeId { bits }),
            Err(e) => Err(e),
        }
    }
}

pub open spec fn wake_id_text(id: WakeId) -> Seq<char> {
    ulid_text(id.bits_spec())
}

/// The identifier a valid text form names.
pub open spec fn parsed_wake_id(s: Seq<char>) -> WakeId {
    WakeId::with_bits(ulid_value(s) as u128)
}

/// Lifecycle state of a wake.
#[derive(Clone, Copy, Debug, PartialEq, Eq, Structural)]
pub enum WakeState {
    /// Dispatched; neither completed nor timed out.
    Pending,
    /// The target completed the wake.
    Completed,
    /// The deadline passed before completion.
    TimedOut,
}

impl WakeState {
    /// The wire name (`pending`, `completed`, `timed_out`).
    pub fn as_str(&self) -> (s: &'static str)
        ensures
            s@ == wake_state_name(*self),
    {
        match self {
            WakeState::Pending => "pending",
            WakeState::Completed => "completed",
            WakeState::TimedOut => "timed_out",
        }
    }
}

pub open spec fn wake_state_name(s: WakeState) -> Seq<char> {
    match s {
        WakeState::Pending => "pending"@,
        WakeState::Completed => "completed"@,
        WakeState::TimedOut => "timed_out"@,
    }
}

/// Persisted per-wake row.
#[derive(Debug)]
pub struct WakeRecord {
    /// Unique wake identifier.
    pub wake_id: WakeId,
    /// URL-safe-base64 identity of the wake's target.
    pub target_identity: String,
    /// URL-safe-base64 identity of the dispatcher.
    pub caller_identity: String,
    /// Routing context.
    pub context_id: String,
    /// Caller-supplied opaque payload.
    pub payload: Vec<u8>,
    /// Current lifecycle state.
    pub state: WakeState,
    /// Creation time (unix milliseconds).
    pub created_at: u64,
    /// Requested timeout (milliseconds).
    pub timeout_ms: u32,
    /// Response supplied on completion.
    pub response_payload: Option<Vec<u8>>,
}

/// Mathematical content of a wake row.
pub struct WakeRecordView {
    pub wake_id: WakeId,
    pub target_identity: Seq<char>,
    pub caller_identity: Seq<char>,
    pub context_id: Seq<char>,
    pub payload: Seq<u8>,
    pub state: WakeState,
    pub created_at: u64,
    pub timeout_ms: u32,
    pub response_payload: Option<Seq<u8>>,
}

impl View for WakeRecord {
    type V = WakeRecordView;

    open spec fn view(&self) -> WakeRecordView {
        WakeRecordView {
            wake_id: self.wake_id,
            target_identity: self.target_identity@,
            caller_identity: self.caller_identity@,
            context_id: self.context_id@,
            payload: self.payload@,
            state: self.state,
            created_at: self.created_at,
            timeout_ms: self.timeout_ms,
            response_payload: match self.response_payload {
                Some(r) => Some(r@),
                None => None,
            },
        }
    }
}

impl WakeRecordView {
    /// Absolute deadline (unix milliseconds): creation time plus timeout.
    pub open spec fn deadline(self) -> int {
        self.created_at + self.timeout_ms
    }
}

impl WakeRecord {
    /// Absolute deadline (unix milliseconds): `created_at + timeout_ms`.
    pub fn absolute_timeout(&self) -> (t: u64)
        requires
            self.created_at + self.timeout_ms <= u64::MAX,
        ensures
            t == self@.deadline(),
    {
        self.created_at + self.timeout_ms as u64
    }
}

} // verus!
