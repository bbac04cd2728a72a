//! Value-level JSON codecs for a broker API whose wire format is inconsistent:
//! integer fields arrive either as JSON numbers or as decimal strings, and
//! timestamp fields arrive as RFC 3339 strings with the literal string `"0"`
//! standing for "no value".  The codecs normalise both shapes into optional
//! domain values and serialise them back deterministically, together with the
//! error taxonomy of the surrounding client.

pub mod calendar;
pub mod digits;
pub mod errors;
pub mod json;
pub mod serdates;
pub mod serints;

pub use errors::FxError;
pub use errors::RequestValidationError;
