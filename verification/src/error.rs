//! The error returned when text does not parse as an identifier.
use vstd::prelude::*;

verus! {

/// Why a text was refused.
#[derive(Debug, Clone, Copy, PartialEq, Eq, Structural)]
pub enum ParseIdErrorKind {
    /// A ULID text is not 26 bytes long.
    UlidLength,
    /// A ULID text holds a byte that is no Crockford base32 symbol.
    InvalidCrockfordChar,
    /// A UUID text is not 36 bytes long.
    UuidLength,
    /// A UUID text holds too many or too few hex pairs.
    UuidFormat,
    /// A UUID text holds a byte that is no hex digit where one is expected.
    InvalidHexChar,
    /// A NanoID text is empty.
    EmptyNanoId,
    /// A Snowflake text is no decimal `u64`.
    InvalidSnowflake,
}

/// The message that describes an error of the given kind.
pub open spec fn error_message(kind: ParseIdErrorKind) -> Seq<char> {
    match kind {
        ParseIdErrorKind::UlidLength => "ULID must be 26 characters"@,
        ParseIdErrorKind::InvalidCrockfordChar => "invalid Crockford base32 character"@,
        ParseIdErrorKind::UuidLength => "UUID must be 36 characters"@,
        ParseIdErrorKind::UuidFormat => "invalid UUID format"@,
        ParseIdErrorKind::InvalidHexChar => "invalid hex character"@,
        ParseIdErrorKind::EmptyNanoId => "NanoId cannot be empty"@,
        ParseIdErrorKind::InvalidSnowflake => "invalid Snowflake ID"@,
    }
}

/// Error returned when parsing an ID from a string fails.
#[derive(Debug, Clone, Copy, PartialEq, Eq, Structural)]
pub struct ParseIdError {
    pub kind: ParseIdErrorKind,
}

impl ParseIdError {
    /// The message that describes the error.
    pub fn message(&self) -> (m: &'static str)
        ensures
            m@ == error_message(self.kind),
    {
        match self.kind {
            ParseIdErrorKind::UlidLength => "ULID must be 26 characters",
            ParseIdErrorKind::InvalidCrockfordChar => "invalid Crockford base32 character",
            ParseIdErrorKind::UuidLength => "UUID must be 36 characters",
            ParseIdErrorKind::UuidFormat => "invalid UUID format",
            ParseIdErrorKind::InvalidHexChar => "invalid hex character",
            ParseIdErrorKind::EmptyNanoId => "NanoId cannot be empty",
            ParseIdErrorKind::InvalidSnowflake => "invalid Snowflake ID",
        }
    }
}

} // verus!
