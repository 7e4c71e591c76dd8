use pace::time::{Duration, DurationError, Hours, Minutes, Seconds};

#[test]
fn seconds_from() {
    assert_eq!(Seconds::from_minutes(Minutes(1)), Seconds(60));
    assert_eq!(Seconds::from_hours(Hours(1)), Seconds(60 * 60));
    assert_eq!(Seconds::from_duration(Duration(1, 1, 1)), Seconds(60 * 60 + 60 + 1));
}

#[test]
fn duration_from() {
    assert_eq!(Duration::from_seconds(Seconds(128)), Duration(0, 2, 8));
    assert_eq!(Duration::from_hours(Hours(2)), Duration(2, 0, 0));
    assert_eq!(Duration::from_minutes(Minutes(128)), Duration(2, 8, 0));

    assert_eq!(Duration::try_from("12:34:56").unwrap(), Duration(12, 34, 56));
    assert_eq!(Duration::try_from("34:56").unwrap(), Duration(0, 34, 56));

    assert_eq!(Duration::try_from("56").unwrap(), Duration(0, 0, 56));
}

#[test]
fn duration_clamps_minutes_and_seconds() {
    // A clamp to 59, not a reduction modulo 60.
    assert_eq!(Duration::try_from("1:99:99").unwrap(), Duration(1, 59, 59));
    assert_eq!(Duration::try_from("1:60:60").unwrap(), Duration(1, 59, 59));
    // The two-token form clamps only the seconds.
    assert_eq!(Duration::try_from("99:99").unwrap(), Duration(0, 99, 59));
    // Hours are never clamped.
    assert_eq!(Duration::try_from("100:00:00").unwrap(), Duration(100, 0, 0));
}

#[test]
fn duration_lenient_defaults() {
    // An unparseable minutes token in the two-token form defaults to 0.
    assert_eq!(Duration::try_from("xx:12").unwrap(), Duration(0, 0, 12));
    // An unparseable single token defaults to 0.
    assert_eq!(Duration::try_from("xx").unwrap(), Duration(0, 0, 0));
    assert_eq!(Duration::try_from("").unwrap(), Duration(0, 0, 0));
    // Only the first three tokens are read.
    assert_eq!(Duration::try_from("1:2:3:4").unwrap(), Duration(1, 2, 3));
}

#[test]
fn duration_errors() {
    assert_eq!(Duration::try_from("xx:12:34"), Err(DurationError::InvalidHours));
    assert_eq!(Duration::try_from("1:xx:34"), Err(DurationError::InvalidMinutes));
    assert_eq!(Duration::try_from("1:2:xx"), Err(DurationError::InvalidSeconds));
    assert_eq!(Duration::try_from("12:xx"), Err(DurationError::InvalidSeconds));
    // A second count past u32::MAX fails rather than wrapping.
    assert_eq!(Duration::try_from("1:2:4294967296"), Err(DurationError::InvalidSeconds));
}

#[test]
fn seconds_duration_round_trip() {
    for s in [0u32, 1, 59, 60, 61, 3599, 3600, 3661, 86399, u32::MAX] {
        assert_eq!(Seconds::from_duration(Duration::from_seconds(Seconds(s))), Seconds(s));
    }
}

#[test]
fn minutes_display() {
    assert_eq!(Minutes(90).to_display_string(), "90 min");
}
