//! The numeric-string codec: an optional 32-bit integer whose JSON form is a
//! decimal string on the way out, and either a number or a decimal string on
//! the way in.  JSON null means "no value"; absence is never an error.

use crate::digits::in_i32_range;
use crate::digits::int_digits;
use crate::digits::int_literal_val;
use crate::digits::is_int_literal;
use crate::digits::i32_to_string;
use crate::digits::i64_to_string;
use crate::digits::lemma_int_digits_val;
use crate::digits::parse_i32;
use crate::errors::DecodeError;
use crate::json::JsonValue;
use vstd::prelude::*;
use vstd::string::StringExecFns;

verus! {

/// The JSON shapes `decode` accepts: null; a number that a 32-bit signed
/// integer holds exactly; a string that is an optionally signed decimal
/// numeral whose value fits in 32 bits.
pub open spec fn int_accepted(v: JsonValue) -> bool {
    match v {
        JsonValue::Null => true,
        JsonValue::NumInt(n) => in_i32_range(n as int),
        JsonValue::Text(s) => is_int_literal(s@) && in_i32_range(int_literal_val(s@)),
        _ => false,
    }
}

/// The optional integer a successful decode of `v` yields.
pub open spec fn int_decoded(v: JsonValue) -> Option<i32> {
    match v {
        JsonValue::Null => None,
        JsonValue::NumInt(n) => Some(n as i32),
        JsonValue::Text(s) => Some(int_literal_val(s@) as i32),
        _ => None,
    }
}

/// The reason `decode` reports for a rejected value.
pub open spec fn int_error_reason(v: JsonValue) -> Seq<char> {
    match v {
        JsonValue::Text(_) => "not a valid integer string"@,
        JsonValue::NumInt(_) => "number does not fit a 32-bit integer"@,
        JsonValue::NumOther => "number does not fit a 32-bit integer"@,
        _ => "unsupported type for integer field"@,
    }
}

/// The offending raw value `decode` reports for a rejected value: the string
/// itself, the decimal rendering of the number, or empty where the whole JSON
/// type was wrong.
pub open spec fn int_error_value(v: JsonValue) -> Seq<char> {
    match v {
        JsonValue::Text(s) => s@,
        JsonValue::NumInt(n) => int_digits(n as int),
        _ => Seq::<char>::empty(),
    }
}

/// How `encode` renders an optional integer: absent becomes JSON null, a
/// present integer becomes the JSON string of its decimal form.
pub open spec fn int_encoding_ok(v: Option<i32>, j: JsonValue) -> bool {
    match v {
        None => j is Null,
        Some(n) => j matches JsonValue::Text(s) && s@ == int_digits(n as int),
    }
}

/// Encodes an optional integer for the broker wire format: JSON null when
/// absent, otherwise the JSON string of the integer's decimal form.
pub fn encode(v: Option<i32>) -> (j: JsonValue)
    ensures
        int_encoding_ok(v, j),
{
    match v {
        None => JsonValue::Null,
        Some(n) => JsonValue::Text(i32_to_string(n)),
    }
}

/// Decodes an optional integer from either of the broker's wire shapes.
/// Null yields the absent value; a number or a numeral string yields its
/// value when it fits in 32 bits; everything else is rejected with the
/// reason and offending value pinned by `int_error_reason` and
/// `int_error_value`.
pub fn decode(v: &JsonValue) -> (r: Result<Option<i32>, DecodeError>)
    ensures
        int_accepted(*v) ==> r == Ok::<Option<i32>, DecodeError>(int_decoded(*v)),
        !int_accepted(*v) ==> (r matches Err(e) && e.reason_view() == int_error_reason(*v)
            && e.value_view() == int_error_value(*v)),
{
    match v {
        JsonValue::Null => Ok(None),
        JsonValue::NumInt(n) => {
            if *n >= -0x8000_0000i64 && *n <= 0x7fff_ffffi64 {
                Ok(Some(*n as i32))
            } else {
                Err(DecodeError::InvalidFormat {
                    reason: String::from_str("number does not fit a 32-bit integer"),
                    value: i64_to_string(*n),
                })
            }
        },
        JsonValue::NumOther => Err(DecodeError::InvalidFormat {
            reason: String::from_str("number does not fit a 32-bit integer"),
            value: String::new(),
        }),
        JsonValue::Text(s) => match parse_i32(s.as_str()) {
            Some(n) => Ok(Some(n)),
            None => Err(DecodeError::InvalidFormat {
                reason: String::from_str("not a valid integer string"),
                value: s.clone(),
            }),
        },
        _ => Err(DecodeError::InvalidFormat {
            reason: String::from_str("unsupported type for integer field"),
            value: String::new(),
        }),
    }
}

/// Round-trip law: decoding whatever `encode` produced yields the optional
/// integer that went in, for every representable value including absence.
pub proof fn lemma_int_round_trip(v: Option<i32>, j: JsonValue)
    requires
        int_encoding_ok(v, j),
    ensures
        int_accepted(j),
        int_decoded(j) == v,
{
    match v {
        None => {},
        Some(n) => {
            lemma_int_digits_val(n as int);
        },
    }
}

/// Absence law: encoding the absent value gives JSON null, and decoding that
/// yields the absent value again.
pub proof fn lemma_int_absence(j: JsonValue)
    requires
        int_encoding_ok(None, j),
    ensures
        j is Null,
        int_accepted(j),
        int_decoded(j) is None,
{
}

/// Dual-representation law: a JSON number and any JSON string spelling the
/// same 32-bit value decode to the same present integer.
pub proof fn lemma_int_dual_representation(n: i32, j: JsonValue)
    requires
        j matches JsonValue::Text(t) && is_int_literal(t@) && int_literal_val(t@) == n as int,
    ensures
        int_accepted(j),
        int_decoded(j) == Some(n),
        int_accepted(JsonValue::NumInt(n as i64)),
        int_decoded(JsonValue::NumInt(n as i64)) == Some(n),
{
}

} // verus!
