use vstd::prelude::*;

verus! {

/// A JSON value as the field codecs see one.  Only the outermost shape of the
/// value matters to them, so arrays and objects carry no contents here, and a
/// number is kept only when a 64-bit signed integer holds it exactly.
#[derive(Debug, Clone)]
pub enum JsonValue {
    /// JSON `null`.
    Null,
    /// A JSON boolean.
    Bool(bool),
    /// A JSON number whose value is exactly a 64-bit signed integer.
    NumInt(i64),
    /// A JSON number that no 64-bit signed integer represents exactly:
    /// a fractional value, or one out of that range.
    NumOther,
    /// A JSON string.
    Text(String),
    /// A JSON array; its elements play no part in the field codecs.
    Array,
    /// A JSON object; its members play no part in the field codecs.
    Object,
}

} // verus!
