//! Why an operation on an archive failed: in validation, in a header, or
//! while bytes were moved.

use crate::header::{HeaderError, IoError};
use crate::validation::ValidationError;
use vstd::prelude::*;

verus! {

/// Why an operation on an archive failed.
#[derive(Debug, PartialEq, Eq)]
pub enum ArchiverError {
    /// The archive did not pass validation. Nothing was read or written.
    Validation(ValidationError),
    /// Bytes could not be read or written, or the archive ended too early.
    Io(IoError),
    /// Something the archiver was not set up to do. Carries the reason.
    UnsupportedFeature(String),
    /// A header could not be built or read.
    HeaderError(HeaderError),
}

impl From<IoError> for ArchiverError {
    fn from(e: IoError) -> (r: ArchiverError) {
        ArchiverError::Io(e)
    }
}

impl vstd::std_specs::convert::FromSpecImpl<IoError> for ArchiverError {
    open spec fn obeys_from_spec() -> bool {
        true
    }

    open spec fn from_spec(e: IoError) -> ArchiverError {
        ArchiverError::Io(e)
    }
}

impl From<ValidationError> for ArchiverError {
    fn from(e: ValidationError) -> (r: ArchiverError) {
        ArchiverError::Validation(e)
    }
}

impl vstd::std_specs::convert::FromSpecImpl<ValidationError> for ArchiverError {
    open spec fn obeys_from_spec() -> bool {
        true
    }

    open spec fn from_spec(e: ValidationError) -> ArchiverError {
        ArchiverError::Validation(e)
    }
}

impl From<HeaderError> for ArchiverError {
    fn from(e: HeaderError) -> (r: ArchiverError) {
        ArchiverError::HeaderError(e)
    }
}

impl vstd::std_specs::convert::FromSpecImpl<HeaderError> for ArchiverError {
    open spec fn obeys_from_spec() -> bool {
        true
    }

    open spec fn from_spec(e: HeaderError) -> ArchiverError {
        ArchiverError::HeaderError(e)
    }
}

} // verus!
