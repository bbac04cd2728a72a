use fxoanda_serdes::calendar::Timestamp;
use fxoanda_serdes::errors::FxError;
use fxoanda_serdes::errors::RequestValidationError;
use fxoanda_serdes::json::JsonValue;
use fxoanda_serdes::serdates;
use fxoanda_serdes::serints;

#[test]
fn test_validation_error_messages() {
    assert_eq!(
        RequestValidationError::MissingAccountId.message(),
        "Account ID is required but was not provided"
    );
    assert_eq!(
        RequestValidationError::MissingTradeSpecifier.message(),
        "Trade specifier is required but was not provided"
    );
    assert_eq!(
        RequestValidationError::MissingInstrument.message(),
        "Instrument is required but was not provided"
    );
    assert_eq!(
        RequestValidationError::MissingTransactionId.message(),
        "Transaction ID is required but was not provided"
    );
    assert_eq!(
        RequestValidationError::MissingOrderSpecifier.message(),
        "Order specifier is required but was not provided"
    );
}

#[test]
fn test_fx_error_messages() {
    let rejection = FxError::OrderRejection {
        instrument: "EUR_USD".to_string(),
        units: "100".to_string(),
        reject_reason: "MARKET_HALTED".to_string(),
        error_code: "HALTED".to_string(),
        error_message: "market is closed".to_string(),
    };
    assert_eq!(
        rejection.message(),
        "OANDA rejected market order for EUR_USD 100 units. Reason: MARKET_HALTED (HALTED). Details: market is closed"
    );

    let api = FxError::ApiError {
        status_code: 404,
        error_code: "NOT_FOUND".to_string(),
        error_message: "no such account".to_string(),
    };
    assert_eq!(api.message(), "OANDA API error (HTTP 404): no such account (NOT_FOUND)");

    let deser = FxError::DeserializationError {
        path: "candles[0].time".to_string(),
        message: "expected value".to_string(),
    };
    assert_eq!(
        deser.message(),
        "Deserialization failed at path 'candles[0].time': expected value"
    );

    let http = FxError::HttpError("connection refused".to_string());
    assert_eq!(http.message(), "HTTP request failed: connection refused");

    let validation = FxError::Validation(RequestValidationError::MissingInstrument);
    assert_eq!(validation.message(), "Instrument is required but was not provided");
}

#[test]
fn test_fx_error_from_validation() {
    let err = FxError::from(RequestValidationError::MissingAccountId);
    assert!(matches!(err, FxError::Validation(RequestValidationError::MissingAccountId)));
}

#[test]
fn test_field_decoding_scenario() {
    // a response fragment as the broker sends it:
    // {"count": "25", "from": "2024-01-15T09:45:30Z", "to": "0"}
    let count = serints::decode(&JsonValue::Text("25".to_string())).unwrap();
    let from = serdates::decode(&JsonValue::Text("2024-01-15T09:45:30Z".to_string())).unwrap();
    let to = serdates::decode(&JsonValue::Text("0".to_string())).unwrap();

    assert_eq!(count, Some(25));
    assert_eq!(
        from,
        Some(Timestamp { year: 2024, month: 1, day: 15, hour: 9, minute: 45, second: 30, nanos: 0 })
    );
    assert_eq!(to, None);
}
