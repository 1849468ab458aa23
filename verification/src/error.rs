//! The ways in which decoding a log record can fail.

use vstd::prelude::*;

verus! {

/// Why a log record could not be decoded.
#[derive(Clone, Copy, Debug, PartialEq, Eq, Structural)]
pub enum DecodeError {
    /// The record's topic count or leading hash is not that of the expected event.
    SignatureMismatch,
    /// A read would go past the end of what the record holds.
    TruncatedPayload,
    /// A dynamic offset points into the head of its frame or past the end of the buffer.
    InvalidOffset,
    /// The schema names a type that the decoder does not handle.
    UnsupportedType,
    /// A discriminant holds a value outside the declared set.
    UnknownDiscriminant,
    /// A payload that is to be cut in two halves has odd length.
    OddLengthSplit,
    /// A word has a bit set outside the width that was asked for.
    MalformedScalar,
}

impl DecodeError {
    /// A short description of the error.
    pub fn message(&self) -> (text: &'static str)
        ensures
            text@ == match *self {
                DecodeError::SignatureMismatch => "log does not match the event signature"@,
                DecodeError::TruncatedPayload => "log is shorter than the event requires"@,
                DecodeError::InvalidOffset => "dynamic offset is out of range"@,
                DecodeError::UnsupportedType => "schema holds an unsupported type"@,
                DecodeError::UnknownDiscriminant => "discriminant is outside the declared set"@,
                DecodeError::OddLengthSplit => "payload of odd length cannot be halved"@,
                DecodeError::MalformedScalar => "word exceeds the requested width"@,
            },
    {
        match self {
            DecodeError::SignatureMismatch => "log does not match the event signature",
            DecodeError::TruncatedPayload => "log is shorter than the event requires",
            DecodeError::InvalidOffset => "dynamic offset is out of range",
            DecodeError::UnsupportedType => "schema holds an unsupported type",
            DecodeError::UnknownDiscriminant => "discriminant is outside the declared set",
            DecodeError::OddLengthSplit => "payload of odd length cannot be halved",
            DecodeError::MalformedScalar => "word exceeds the requested width",
        }
    }
}

/// A result as a mathematical value: the view of what was decoded, or the error.
pub open spec fn view_result<T: View>(result: Result<T, DecodeError>) -> Result<T::V, DecodeError> {
    match result {
        Ok(value) => Ok(value@),
        Err(error) => Err(error),
    }
}

} // verus!
