use agent_memory_rs::timestamp::{parse_timestamp, timestamp_from_readings, InvalidTimestamp};

#[test]
fn rfc3339_timestamps() {
    assert_eq!(parse_timestamp("2024-01-01T00:00:00Z"), Ok(1704067200));
    assert_eq!(parse_timestamp("2024-01-01T02:00:00+02:00"), Ok(1704067200));
    assert_eq!(parse_timestamp("1970-01-01T00:00:00Z"), Ok(0));
}

#[test]
fn plain_timestamps_are_utc() {
    assert_eq!(parse_timestamp("2024-01-01 00:00:00"), Ok(1704067200));
    assert_eq!(parse_timestamp("2023-06-15 12:30:45"), Ok(1686832245));
}

#[test]
fn dates_before_the_epoch_wrap() {
    assert_eq!(parse_timestamp("1969-12-31T23:59:59Z"), Ok(u64::MAX));
}

#[test]
fn invalid_timestamps_are_refused() {
    let e = parse_timestamp("yesterday").unwrap_err();
    assert_eq!(e, InvalidTimestamp { text: "yesterday".to_string() });
    assert_eq!(e.message(), "Invalid timestamp format: yesterday");
    assert!(parse_timestamp("2024-01-01").is_err());
}

#[test]
fn readings_decide_in_order() {
    assert_eq!(timestamp_from_readings(Some(5), Some(9), "t"), Ok(5));
    assert_eq!(timestamp_from_readings(None, Some(9), "t"), Ok(9));
    assert_eq!(timestamp_from_readings(None, Some(-1), "t"), Ok(u64::MAX));
    assert_eq!(timestamp_from_readings(None, None, "t"), Err(InvalidTimestamp { text: "t".to_string() }));
}
