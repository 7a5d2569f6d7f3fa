use events_api::rfc3339::Timestamp;

fn ts(s: &str) -> Option<Timestamp> {
    Timestamp::parse(s)
}

#[test]
fn parses_utc_midnight() {
    let t = ts("2024-01-01T00:00:00Z").unwrap();
    assert_eq!(
        t,
        Timestamp {
            year: 2024,
            month: 1,
            day: 1,
            hour: 0,
            minute: 0,
            second: 0,
            nanosecond: 0,
            offset_minutes: 0,
        }
    );
}

#[test]
fn accepts_lowercase_separators() {
    let t = ts("1999-12-31t23:59:59z").unwrap();
    assert_eq!(t.year, 1999);
    assert_eq!(t.hour, 23);
    assert_eq!(t.offset_minutes, 0);
}

#[test]
fn fractional_seconds_scale_to_nanoseconds() {
    assert_eq!(ts("2024-01-01T00:00:00.5Z").unwrap().nanosecond, 500_000_000);
    assert_eq!(ts("2024-01-01T00:00:00.123456789Z").unwrap().nanosecond, 123_456_789);
    assert_eq!(ts("2024-01-01T00:00:00.000000001Z").unwrap().nanosecond, 1);
    // Ten fractional digits are refused, as is a bare dot.
    assert!(ts("2024-01-01T00:00:00.1234567890Z").is_none());
    assert!(ts("2024-01-01T00:00:00.Z").is_none());
}

#[test]
fn numeric_offsets() {
    assert_eq!(ts("2024-01-01T12:00:00+02:30").unwrap().offset_minutes, 150);
    assert_eq!(ts("2024-01-01T12:00:00-05:00").unwrap().offset_minutes, -300);
    assert!(ts("2024-01-01T12:00:00+24:00").is_none());
    assert!(ts("2024-01-01T12:00:00+02:60").is_none());
    assert!(ts("2024-01-01T12:00:00+0230").is_none());
}

#[test]
fn calendar_validation() {
    assert!(ts("2024-02-29T00:00:00Z").is_some());
    assert!(ts("2023-02-29T00:00:00Z").is_none());
    assert!(ts("1900-02-29T00:00:00Z").is_none());
    assert!(ts("2000-02-29T00:00:00Z").is_some());
    assert!(ts("2024-04-31T00:00:00Z").is_none());
    assert!(ts("2024-13-01T00:00:00Z").is_none());
    assert!(ts("2024-00-10T00:00:00Z").is_none());
    assert!(ts("2024-01-00T00:00:00Z").is_none());
}

#[test]
fn clock_validation() {
    assert!(ts("2024-01-01T24:00:00Z").is_none());
    assert!(ts("2024-01-01T00:60:00Z").is_none());
    assert!(ts("2024-01-01T00:00:60Z").is_none());
}

#[test]
fn shape_validation() {
    assert!(ts("").is_none());
    assert!(ts("2024-01-01").is_none());
    assert!(ts("2024-01-01T00:00:00").is_none());
    assert!(ts("2024-01-01 00:00:00Z").is_none());
    assert!(ts("2024-01-01T00:00:00Zx").is_none());
    assert!(ts("202X-01-01T00:00:00Z").is_none());
}
