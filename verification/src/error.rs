//! Why a single event or call payload could not be decoded.

use vstd::prelude::*;

verus! {

/// A failure scoped to one event or one call; none of them aborts a batch.
#[derive(Clone, Copy, Debug, PartialEq, Eq, Structural)]
pub enum DecodeError {
    /// The text is not JSON.
    MalformedJson,
    /// A field that identifies the row is absent or has the wrong type.
    MissingField,
    /// A sequence number is not a decimal 32-bit integer.
    InvalidNumber,
    /// A payload is not hexadecimal text.
    MalformedHex,
    /// The module could not be fetched from either network.
    Transport,
    /// The module document lists no exposed functions.
    FunctionDetailsMissing,
    /// The module document does not list the called function.
    FunctionNotFound,
    /// The called function's entry lists no parameters.
    ParametersMissing,
}

} // verus!
