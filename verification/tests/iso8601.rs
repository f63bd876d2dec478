use tally::iso8601::format_iso8601_utc;

#[test]
fn iso8601_format_unix_epoch() {
    assert_eq!(format_iso8601_utc(0), "1970-01-01T00:00:00Z");
}

#[test]
fn iso8601_format_phase_0_example() {
    assert_eq!(format_iso8601_utc(1_778_702_400_000), "2026-05-13T20:00:00Z");
}

#[test]
fn iso8601_format_known_y2k() {
    assert_eq!(format_iso8601_utc(946_684_800_000), "2000-01-01T00:00:00Z");
}

#[test]
fn iso8601_format_leap_year_feb_29() {
    assert_eq!(format_iso8601_utc(1_709_210_096_000), "2024-02-29T12:34:56Z");
}

#[test]
fn iso8601_format_drops_subsecond_fraction() {
    let with_frac = format_iso8601_utc(1_700_000_000_999);
    let without_frac = format_iso8601_utc(1_700_000_000_000);
    assert_eq!(with_frac, without_frac);
}

#[test]
fn iso8601_format_end_of_day_boundary() {
    assert_eq!(format_iso8601_utc(1_767_225_599_000), "2025-12-31T23:59:59Z");
}

#[test]
fn iso8601_century_and_far_dates() {
    assert_eq!(format_iso8601_utc(951_782_400_000), "2000-02-29T00:00:00Z");
    assert_eq!(format_iso8601_utc(4_107_542_400_000), "2100-03-01T00:00:00Z");
    assert_eq!(format_iso8601_utc(253_402_300_799_000), "9999-12-31T23:59:59Z");
}

#[test]
fn iso8601_distinct_seconds_differ() {
    assert_ne!(format_iso8601_utc(999), format_iso8601_utc(1_000));
    assert_eq!(format_iso8601_utc(1_000), "1970-01-01T00:00:01Z");
    assert_ne!(format_iso8601_utc(86_399_000), format_iso8601_utc(86_400_000));
}
