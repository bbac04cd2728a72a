use fxoanda_serdes::calendar::Timestamp;
use fxoanda_serdes::json::JsonValue;
use fxoanda_serdes::serdates;

fn text(s: &str) -> JsonValue {
    JsonValue::Text(s.to_string())
}

#[test]
fn test_custom_date_serialization() {
    // a representative instant with sub-second precision
    let test_time = Timestamp {
        year: 2024,
        month: 6,
        day: 15,
        hour: 12,
        minute: 34,
        second: 56,
        nanos: 789_012_345,
    };

    let encoded_created = serdates::encode(Some(test_time));
    let encoded_updated = serdates::encode(Some(test_time));

    // the instant is serialized in RFC3339 format
    let rendered = match &encoded_created {
        JsonValue::Text(s) => s.clone(),
        _ => panic!("Should serialize datetime data successfully"),
    };
    assert_eq!(rendered, "2024-06-15T12:34:56.789012345Z");

    // round-trip back from the encoded form
    let created_back = serdates::decode(&encoded_created).unwrap();
    let updated_back = serdates::decode(&encoded_updated).unwrap();
    assert_eq!(created_back, Some(test_time), "Created time should match after round-trip");
    assert_eq!(updated_back, Some(test_time), "Updated time should match after round-trip");

    // absent values stay absent
    let encoded_none = serdates::encode(None);
    assert!(matches!(encoded_none, JsonValue::Null));
    assert_eq!(
        serdates::decode(&encoded_none).unwrap(),
        None,
        "None created_time should remain None"
    );
    assert_eq!(serdates::decode(&JsonValue::Null).unwrap(), None, "None updated_time should remain None");

    // RFC3339 strings with and without fractional seconds
    let with_nanos = serdates::decode(&text("2023-12-01T15:30:45.123456789Z")).unwrap();
    assert!(with_nanos.is_some(), "Should parse RFC3339 datetime with nanoseconds");
    let without_nanos = serdates::decode(&text("2024-01-15T09:45:30Z")).unwrap();
    assert!(without_nanos.is_some(), "Should parse RFC3339 datetime without nanoseconds");

    // the broker's sentinel for "unset"
    let zero_created = serdates::decode(&text("0")).unwrap();
    let zero_updated = serdates::decode(&text("0")).unwrap();
    assert_eq!(zero_created, None, "String \"0\" should deserialize to None");
    assert_eq!(zero_updated, None, "String \"0\" should deserialize to None");
}
