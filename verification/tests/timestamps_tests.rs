use basalt::model::Message;
use basalt::timestamps::{parse_iso, Timestamp};

/// The calendar date and time of a parsed instant, in its own offset.
fn calendar(t: Timestamp) -> time::OffsetDateTime {
    time::OffsetDateTime::from_unix_timestamp_nanos(t.unix_nanos)
        .unwrap()
        .to_offset(time::UtcOffset::from_whole_seconds(t.offset_secs).unwrap())
}

#[test]
fn message_timestamp_parses_iso8601() {
    let mut m = Message::default();
    m.timestamp = Some("2026-08-30T12:34:56.789000+00:00".into());
    let dt = calendar(m.timestamp_dt().expect("should parse"));
    assert_eq!(dt.year(), 2026);
    assert_eq!(dt.month(), time::Month::August);
    assert_eq!(dt.day(), 30);
}

#[test]
fn message_timestamp_handles_empty() {
    let mut m = Message::default();
    m.timestamp = Some(String::new());
    assert!(m.timestamp_dt().is_none());
}

#[test]
fn message_timestamp_handles_garbage() {
    let mut m = Message::default();
    m.timestamp = Some("not a date".into());
    assert!(m.timestamp_dt().is_none());
}

#[test]
fn edited_timestamp_rules() {
    let mut m = Message::default();
    assert!(m.edited_dt().is_none());
    m.edited_timestamp = Some(String::new());
    assert!(m.edited_dt().is_none());
    m.edited_timestamp = Some("  2024-01-02T03:04:05Z ".into());
    assert_eq!(calendar(m.edited_dt().unwrap()).year(), 2024);
}

#[test]
fn parsed_instant_and_offset_are_exact() {
    let t = parse_iso("1970-01-01T00:00:01.5+01:00").unwrap();
    assert_eq!(t.unix_nanos, 1_500_000_000 - 3_600_000_000_000);
    assert_eq!(t.offset_secs, 3600);
    let u = parse_iso(" 2024-01-02T03:04:05Z").unwrap();
    assert_eq!(u.offset_secs, 0);
    assert_eq!(u.unix_nanos, 1_704_164_645_000_000_000);
    assert!(parse_iso("   ").is_none());
}
