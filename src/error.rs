//! The library's error type.
use vstd::prelude::*;
use crate::wire::DeError;

verus! {

/// Every way an operation of this library can fail.
#[derive(Debug, Clone, PartialEq, Eq)]
pub enum Error {
    /// The text decoder refused a response.
    AvalonDeserializerError(DeError),
    /// The digest challenge could not be answered.
    DigestAuthError,
    /// No host answered at the address.
    NoHostDetected,
    /// A host answered, but no vendor could be recognised.
    UnknownMinerType,
    /// A payload could not be encoded or decoded.
    EncodingError,
    Timeout,
    ConnectionRefused,
    HttpRequestFailed,
    TokenExpired,
    Unauthorized,
    /// The vendor reported a failure; its message is kept as it came.
    ApiCallFailed(String),
    ExpectedReturn,
    NotSupported,
    /// A model that the rated-efficiency table does not know.
    UnknownModel(String),
    InvalidResponse,
}

} // verus!
