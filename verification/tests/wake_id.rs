use tally::wake::{WakeId, WakeState};

#[test]
fn wake_id_crockford_base32_round_trip() {
    let original = WakeId::new();
    let s = original.to_string();
    assert_eq!(s.len(), 26);
    let parsed = WakeId::from_str(&s).expect("ULID parses back");
    assert_eq!(parsed, original);
}

#[test]
fn wake_id_display_matches_to_string() {
    let id = WakeId::new();
    assert_eq!(id.as_ulid().to_string(), id.to_string());
}

#[test]
fn wake_id_as_ulid_round_trip() {
    let id = WakeId::new();
    let inner = id.as_ulid();
    assert_eq!(WakeId::from_str(&inner.to_string()).unwrap(), id);
}

#[test]
fn wake_state_serde_snake_case() {
    assert_eq!(WakeState::Pending.as_str(), "pending");
    assert_eq!(WakeState::Completed.as_str(), "completed");
    assert_eq!(WakeState::TimedOut.as_str(), "timed_out");
}

#[test]
fn wake_id_text_of_known_values() {
    assert_eq!(WakeId::from_bits(0).to_string(), "00000000000000000000000000");
    assert_eq!(WakeId::from_bits(u128::MAX).to_string(), "7ZZZZZZZZZZZZZZZZZZZZZZZZZ");
    assert_eq!(WakeId::from_bits(32).to_string(), "00000000000000000000000010");
    let lower = WakeId::from_str("0000000000000000000000000z").unwrap();
    assert_eq!(lower.bits(), 31);
}

#[test]
fn wake_id_rejects_bad_text() {
    assert!(WakeId::from_str("0000000000000000000000000").is_err());
    assert_eq!(WakeId::from_str("0000000000000000000000000").unwrap_err().to_string(), "invalid length");
    assert_eq!(WakeId::from_str("0000000000000000000000000U").unwrap_err().to_string(), "invalid character");
}
