use fxoanda_serdes::calendar::Timestamp;
use fxoanda_serdes::errors::DecodeError;
use fxoanda_serdes::json::JsonValue;
use fxoanda_serdes::serdates;

fn text(s: &str) -> JsonValue {
    JsonValue::Text(s.to_string())
}

fn ts(year: u16, month: u8, day: u8, hour: u8, minute: u8, second: u8, nanos: u32) -> Timestamp {
    Timestamp { year, month, day, hour, minute, second, nanos }
}

fn expect_err(v: &JsonValue) -> (String, String) {
    match serdates::decode(v) {
        Err(DecodeError::InvalidFormat { reason, value }) => (reason, value),
        Ok(r) => panic!("expected an error, decoded {:?}", r),
    }
}

fn rendering(v: &JsonValue) -> String {
    match v {
        JsonValue::Text(s) => s.clone(),
        other => panic!("expected a JSON string, got {:?}", other),
    }
}

#[test]
fn test_ts_round_trip() {
    let samples = [
        ts(2024, 1, 15, 9, 45, 30, 0),
        ts(2023, 12, 1, 15, 30, 45, 123_456_789),
        ts(2024, 2, 29, 23, 59, 59, 999_999_999),
        ts(0, 1, 1, 0, 0, 0, 0),
        ts(9999, 12, 31, 23, 59, 59, 1),
    ];
    for t in samples {
        let encoded = serdates::encode(Some(t));
        assert_eq!(serdates::decode(&encoded).unwrap(), Some(t));
    }
}

#[test]
fn test_ts_encode_rendering() {
    let plain = serdates::encode(Some(ts(2024, 1, 15, 9, 45, 30, 0)));
    assert_eq!(rendering(&plain), "2024-01-15T09:45:30Z");
    let fractional = serdates::encode(Some(ts(2023, 12, 1, 15, 30, 45, 123_456_789)));
    assert_eq!(rendering(&fractional), "2023-12-01T15:30:45.123456789Z");
    // a coarser sub-second part keeps its value, padded to nine places
    let millis = serdates::encode(Some(ts(2024, 1, 1, 0, 0, 0, 100_000_000)));
    assert_eq!(rendering(&millis), "2024-01-01T00:00:00.100000000Z");
}

#[test]
fn test_ts_absence_symmetry() {
    let encoded = serdates::encode(None);
    assert!(matches!(encoded, JsonValue::Null));
    assert_eq!(serdates::decode(&encoded).unwrap(), None);
}

#[test]
fn test_ts_sentinel_handling() {
    assert_eq!(serdates::decode(&text("0")).unwrap(), None);
    // only the exact string "0" is the sentinel
    let (reason, value) = expect_err(&text("00"));
    assert_eq!(reason, "invalid RFC3339 timestamp");
    assert_eq!(value, "00");
    let (reason, value) = expect_err(&text("0.0"));
    assert_eq!(reason, "invalid RFC3339 timestamp");
    assert_eq!(value, "0.0");
}

#[test]
fn test_ts_fractional_precision() {
    let decoded = serdates::decode(&text("2023-12-01T15:30:45.123456789Z")).unwrap();
    let t = decoded.expect("nanosecond timestamp should decode");
    assert_eq!(t.nanos, 123_456_789);
    let re_encoded = serdates::encode(Some(t));
    assert_eq!(rendering(&re_encoded), "2023-12-01T15:30:45.123456789Z");
}

#[test]
fn test_ts_fraction_widths() {
    for (input, nanos) in [
        ("2024-01-01T00:00:00.1Z", 100_000_000u32),
        ("2024-01-01T00:00:00.123Z", 123_000_000),
        ("2024-01-01T00:00:00.123456Z", 123_456_000),
        ("2024-01-01T00:00:00.000000001Z", 1),
    ] {
        let t = serdates::decode(&text(input)).unwrap().unwrap();
        assert_eq!(t.nanos, nanos, "fraction of {} should scale to nanoseconds", input);
    }
    // ten fractional digits are more than the codec accepts
    let (reason, _) = expect_err(&text("2024-01-01T00:00:00.0123456789Z"));
    assert_eq!(reason, "invalid RFC3339 timestamp");
}

#[test]
fn test_ts_numeric_offsets() {
    let from_offset = serdates::decode(&text("2024-01-15T10:00:00+02:00")).unwrap();
    let from_utc = serdates::decode(&text("2024-01-15T08:00:00Z")).unwrap();
    assert_eq!(from_offset, from_utc);
    assert_eq!(from_offset, Some(ts(2024, 1, 15, 8, 0, 0, 0)));

    // borrowing a day across a year boundary
    let borrowed = serdates::decode(&text("2024-01-01T00:30:00+01:00")).unwrap();
    assert_eq!(borrowed, Some(ts(2023, 12, 31, 23, 30, 0, 0)));

    // carrying a day across a year boundary
    let carried = serdates::decode(&text("2023-12-31T23:30:00-01:00")).unwrap();
    assert_eq!(carried, Some(ts(2024, 1, 1, 0, 30, 0, 0)));

    // minus-zero offset is plain UTC
    let minus_zero = serdates::decode(&text("2024-01-15T08:00:00-00:00")).unwrap();
    assert_eq!(minus_zero, from_utc);
}

#[test]
fn test_ts_lower_case_markers() {
    let lower = serdates::decode(&text("2024-01-15t09:45:30z")).unwrap();
    assert_eq!(lower, Some(ts(2024, 1, 15, 9, 45, 30, 0)));
}

#[test]
fn test_ts_type_rejection() {
    let (reason, _) = expect_err(&JsonValue::Bool(true));
    assert_eq!(reason, "unsupported type for timestamp field");
    let (reason, value) = expect_err(&JsonValue::NumInt(123));
    assert_eq!(reason, "unsupported type for timestamp field");
    assert_eq!(value, "123");
    let (reason, _) = expect_err(&JsonValue::NumOther);
    assert_eq!(reason, "unsupported type for timestamp field");
    let (reason, _) = expect_err(&JsonValue::Array);
    assert_eq!(reason, "unsupported type for timestamp field");
    let (reason, _) = expect_err(&JsonValue::Object);
    assert_eq!(reason, "unsupported type for timestamp field");
}

#[test]
fn test_ts_malformed_rejection() {
    let bad = [
        "2024-13-45",
        "not a date",
        "2024-13-01T00:00:00Z",
        "2024-01-32T00:00:00Z",
        "2023-02-29T00:00:00Z",
        "2024-01-15T24:00:00Z",
        "2024-01-15T09:60:30Z",
        "2024-01-15T09:45:61Z",
        "2024-01-15T09:45:30",
        "2024-01-15 09:45:30Z",
        "2024-01-15T09:45:30.Z",
        "2024-01-15T09:45:30+24:00",
        "2024-01-15T09:45:30+02:60",
        "2024-01-15T09:45:30Zx",
        "2024-1-15T09:45:30Z",
    ];
    for input in bad {
        let (reason, value) = expect_err(&text(input));
        assert_eq!(reason, "invalid RFC3339 timestamp", "input {:?}", input);
        assert_eq!(value, input);
    }
}

#[test]
fn test_ts_leap_day_acceptance() {
    // leap years: divisible by four, except centuries off the quadricentennial
    assert!(serdates::decode(&text("2024-02-29T00:00:00Z")).unwrap().is_some());
    assert!(serdates::decode(&text("2000-02-29T00:00:00Z")).unwrap().is_some());
    let (reason, _) = expect_err(&text("1900-02-29T00:00:00Z"));
    assert_eq!(reason, "invalid RFC3339 timestamp");
}

#[test]
fn test_ts_range_edges() {
    // shifting past either end of the representable years is rejected
    let (reason, _) = expect_err(&text("0000-01-01T00:30:00+01:00"));
    assert_eq!(reason, "invalid RFC3339 timestamp");
    let (reason, _) = expect_err(&text("9999-12-31T23:30:00-01:00"));
    assert_eq!(reason, "invalid RFC3339 timestamp");
}
