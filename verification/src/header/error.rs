//! What can go wrong with a header.

use vstd::prelude::*;

verus! {

/// Why a field is no octal numeral, or why a value has no place in its field.
#[derive(Debug, Clone, Copy, PartialEq, Eq, Structural)]
pub enum IntErrorKind {
    /// Nothing is left once the padding is trimmed.
    Empty,
    /// A byte that is no octal digit.
    InvalidDigit,
    /// The number does not fit: in 64 bits when read, in the field when written.
    PosOverflow,
}

/// A failure of reading or writing bytes.
#[derive(Debug, PartialEq, Eq)]
pub enum IoError {
    /// The archive ends where a block or a payload was still expected.
    UnexpectedEof,
    /// A failure reported by whoever moves the bytes, in its own words.
    Other(String),
}

/// Why a header could not be built, read or trusted.
#[derive(Debug, PartialEq, Eq)]
pub enum HeaderError {
    /// The name is empty, holds a path separator, ends in NUL or is longer
    /// than the name field. Carries the name.
    InvalidFileName(String),
    /// A numeric field could not be read or written.
    IntConversion(IntErrorKind),
    /// The checksum field does not hold the sum of the block.
    ChecksumMismatch,
    /// Magic or version are not those of the format.
    InvalidHeaderFormat,
    /// Bytes could not be read or written.
    Io(IoError),
    /// A field is not UTF-8 text.
    Utf8Conversion,
}

impl From<IoError> for HeaderError {
    fn from(e: IoError) -> (r: HeaderError) {
        HeaderError::Io(e)
    }
}

impl vstd::std_specs::convert::FromSpecImpl<IoError> for HeaderError {
    open spec fn obeys_from_spec() -> bool {
        true
    }

    open spec fn from_spec(e: IoError) -> HeaderError {
        HeaderError::Io(e)
    }
}

impl From<IntErrorKind> for HeaderError {
    fn from(kind: IntErrorKind) -> (r: HeaderError) {
        HeaderError::IntConversion(kind)
    }
}

impl vstd::std_specs::convert::FromSpecImpl<IntErrorKind> for HeaderError {
    open spec fn obeys_from_spec() -> bool {
        true
    }

    open spec fn from_spec(kind: IntErrorKind) -> HeaderError {
        HeaderError::IntConversion(kind)
    }
}

} // verus!
