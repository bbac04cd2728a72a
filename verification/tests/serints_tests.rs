use fxoanda_serdes::errors::DecodeError;
use fxoanda_serdes::json::JsonValue;
use fxoanda_serdes::serints;

fn text(s: &str) -> JsonValue {
    JsonValue::Text(s.to_string())
}

fn expect_err(v: &JsonValue) -> (String, String) {
    match serints::decode(v) {
        Err(DecodeError::InvalidFormat { reason, value }) => (reason, value),
        Ok(r) => panic!("expected an error, decoded {:?}", r),
    }
}

#[test]
fn test_int_round_trip() {
    for v in [0i32, 1, -1, 7, 42, 1000, i32::MAX, i32::MIN] {
        let encoded = serints::encode(Some(v));
        assert_eq!(serints::decode(&encoded).unwrap(), Some(v));
    }
}

#[test]
fn test_int_encode_renders_decimal() {
    match serints::encode(Some(42)) {
        JsonValue::Text(s) => assert_eq!(s, "42"),
        other => panic!("expected a JSON string, got {:?}", other),
    }
    match serints::encode(Some(-7)) {
        JsonValue::Text(s) => assert_eq!(s, "-7"),
        other => panic!("expected a JSON string, got {:?}", other),
    }
    match serints::encode(Some(i32::MIN)) {
        JsonValue::Text(s) => assert_eq!(s, "-2147483648"),
        other => panic!("expected a JSON string, got {:?}", other),
    }
}

#[test]
fn test_int_absence_symmetry() {
    let encoded = serints::encode(None);
    assert!(matches!(encoded, JsonValue::Null));
    assert_eq!(serints::decode(&encoded).unwrap(), None);
}

#[test]
fn test_int_dual_representation() {
    let from_number = serints::decode(&JsonValue::NumInt(42)).unwrap();
    let from_string = serints::decode(&text("42")).unwrap();
    assert_eq!(from_number, Some(42));
    assert_eq!(from_string, Some(42));
    assert_eq!(from_number, from_string);
}

#[test]
fn test_int_string_forms() {
    assert_eq!(serints::decode(&text("007")).unwrap(), Some(7));
    assert_eq!(serints::decode(&text("+5")).unwrap(), Some(5));
    assert_eq!(serints::decode(&text("-0")).unwrap(), Some(0));
    assert_eq!(serints::decode(&text("2147483647")).unwrap(), Some(i32::MAX));
    assert_eq!(serints::decode(&text("-2147483648")).unwrap(), Some(i32::MIN));
}

#[test]
fn test_int_malformed_string_rejection() {
    for bad in ["not_a_number", "", " 5", "5 ", "+", "-", "5.0", "0x10", "1e3", "½"] {
        let (reason, value) = expect_err(&text(bad));
        assert_eq!(reason, "not a valid integer string");
        assert_eq!(value, bad);
    }
}

#[test]
fn test_int_out_of_range_string_rejection() {
    // out-of-range values fail like any other parse failure: no truncation
    for bad in ["2147483648", "-2147483649", "99999999999999999999999"] {
        let (reason, value) = expect_err(&text(bad));
        assert_eq!(reason, "not a valid integer string");
        assert_eq!(value, bad);
    }
}

#[test]
fn test_int_out_of_range_number_rejection() {
    let (reason, value) = expect_err(&JsonValue::NumInt(2_147_483_648));
    assert_eq!(reason, "number does not fit a 32-bit integer");
    assert_eq!(value, "2147483648");
    let (reason, value) = expect_err(&JsonValue::NumInt(-2_147_483_649));
    assert_eq!(reason, "number does not fit a 32-bit integer");
    assert_eq!(value, "-2147483649");
    let (reason, _) = expect_err(&JsonValue::NumOther);
    assert_eq!(reason, "number does not fit a 32-bit integer");
}

#[test]
fn test_int_type_rejection() {
    for wrong in [JsonValue::Bool(true), JsonValue::Bool(false), JsonValue::Array, JsonValue::Object] {
        let (reason, value) = expect_err(&wrong);
        assert_eq!(reason, "unsupported type for integer field");
        assert_eq!(value, "");
    }
}
