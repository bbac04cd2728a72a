use vstd::prelude::*;

verus! {

/// A request builder was executed while a parameter that the endpoint's URL
/// needs was still unset.
#[derive(Debug, Clone, PartialEq, Eq, Structural)]
pub enum RequestValidationError {
    MissingAccountId,
    MissingTradeSpecifier,
    MissingInstrument,
    MissingTransactionId,
    MissingOrderSpecifier,
}

impl RequestValidationError {
    /// The human-readable description that the client reports for this error.
    pub fn message(&self) -> (r: String)
        ensures
            r@ == self.message_spec(),
    {
        match self {
            RequestValidationError::MissingAccountId => String::from_str(
                "Account ID is required but was not provided",
            ),
            RequestValidationError::MissingTradeSpecifier => String::from_str(
                "Trade specifier is required but was not provided",
            ),
            RequestValidationError::MissingInstrument => String::from_str(
                "Instrument is required but was not provided",
            ),
            RequestValidationError::MissingTransactionId => String::from_str(
                "Transaction ID is required but was not provided",
            ),
            RequestValidationError::MissingOrderSpecifier => String::from_str(
                "Order specifier is required but was not provided",
            ),
        }
    }

    /// What `message` returns, variant by variant.
    pub open spec fn message_spec(self) -> Seq<char> {
        match self {
            RequestValidationError::MissingAccountId => {
                "Account ID is required but was not provided"@
            },
            RequestValidationError::MissingTradeSpecifier => {
                "Trade specifier is required but was not provided"@
            },
            RequestValidationError::MissingInstrument => {
                "Instrument is required but was not provided"@
            },
            RequestValidationError::MissingTransactionId => {
                "Transaction ID is required but was not provided"@
            },
            RequestValidationError::MissingOrderSpecifier => {
                "Order specifier is required but was not provided"@
            },
        }
    }
}

/// Every failure the client surfaces: an order the broker rejected, a
/// non-success HTTP response, a response body that did not deserialize, a
/// transport failure, or a request that was invalid before it was sent.
#[derive(Debug, Clone)]
pub enum FxError {
    OrderRejection {
        instrument: String,
        units: String,
        reject_reason: String,
        error_code: String,
        error_message: String,
    },
    ApiError { status_code: u16, error_code: String, error_message: String },
    DeserializationError { path: String, message: String },
    HttpError(String),
    Validation(RequestValidationError),
}

impl FxError {
    /// What `message` returns, variant by variant.
    pub open spec fn message_spec(self) -> Seq<char> {
        match self {
            FxError::OrderRejection {
                instrument,
                units,
                reject_reason,
                error_code,
                error_message,
            } => {
                "OANDA rejected market order for "@ + instrument@ + " "@ + units@
                    + " units. Reason: "@ + reject_reason@ + " ("@ + error_code@ + "). Details: "@
                    + error_message@
            },
            FxError::ApiError { status_code, error_code, error_message } => {
                "OANDA API error (HTTP "@ + crate::digits::dec_digits(status_code as int) + "): "@
                    + error_message@ + " ("@ + error_code@ + ")"@
            },
            FxError::DeserializationError { path, message } => {
                "Deserialization failed at path '"@ + path@ + "': "@ + message@
            },
            FxError::HttpError(msg) => "HTTP request failed: "@ + msg@,
            FxError::Validation(validation_error) => validation_error.message_spec(),
        }
    }

    /// The human-readable description that the client reports for this error.
    pub fn message(&self) -> (r: String)
        ensures
            r@ == self.message_spec(),
    {
        match self {
            FxError::OrderRejection {
                instrument,
                units,
                reject_reason,
                error_code,
                error_message,
            } => {
                let mut out = String::from_str("OANDA rejected market order for ");
                out.append(instrument.as_str());
                out.append(" ");
                out.append(units.as_str());
                out.append(" units. Reason: ");
                out.append(reject_reason.as_str());
                out.append(" (");
                out.append(error_code.as_str());
                out.append("). Details: ");
                out.append(error_message.as_str());
                proof {
                    assert(out@ =~= self.message_spec());
                }
                out
            },
            FxError::ApiError { status_code, error_code, error_message } => {
                let mut out = String::from_str("OANDA API error (HTTP ");
                crate::digits::push_dec_digits(&mut out, *status_code as u64);
                out.append("): ");
                out.append(error_message.as_str());
                out.append(" (");
                out.append(error_code.as_str());
                out.append(")");
                proof {
                    assert(out@ =~= self.message_spec());
                }
                out
            },
            FxError::DeserializationError { path, message } => {
                let mut out = String::from_str("Deserialization failed at path '");
                out.append(path.as_str());
                out.append("': ");
                out.append(message.as_str());
                proof {
                    assert(out@ =~= self.message_spec());
                }
                out
            },
            FxError::HttpError(msg) => {
                let mut out = String::from_str("HTTP request failed: ");
                out.append(msg.as_str());
                proof {
                    assert(out@ =~= self.message_spec());
                }
                out
            },
            FxError::Validation(validation_error) => validation_error.message(),
        }
    }
}

impl From<RequestValidationError> for FxError {
    fn from(err: RequestValidationError) -> (r: FxError) {
        FxError::Validation(err)
    }
}

impl vstd::std_specs::convert::FromSpecImpl<RequestValidationError> for FxError {
    open spec fn obeys_from_spec() -> bool {
        true
    }

    open spec fn from_spec(err: RequestValidationError) -> FxError {
        FxError::Validation(err)
    }
}

/// A field value whose JSON shape or content cannot be read as the target
/// type.  `reason` says why; `value` carries the offending raw text where
/// there is one, and is empty where the whole JSON type was wrong.
#[derive(Debug, Clone)]
pub enum DecodeError {
    InvalidFormat { reason: String, value: String },
}

impl DecodeError {
    /// The reason this decode failed.
    pub open spec fn reason_view(self) -> Seq<char> {
        match self {
            DecodeError::InvalidFormat { reason, value: _ } => reason@,
        }
    }

    /// The offending raw value, where one applies.
    pub open spec fn value_view(self) -> Seq<char> {
        match self {
            DecodeError::InvalidFormat { reason: _, value } => value@,
        }
    }
}

} // verus!
