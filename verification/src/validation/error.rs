//! Why an archive is refused before anything is read from it or written to it.

use crate::header::{HeaderError, IoError};
use vstd::prelude::*;

verus! {

/// What is wrong with the layout of an archive.
#[derive(Debug, PartialEq, Eq)]
pub enum StructureError {
    /// The archive is shorter than an end marker. Carries its length.
    TooSmall { size: u64 },
    /// Fewer bytes than a block are left where a block begins.
    IncompleteBlock,
    /// A block that is not all zero is no valid header, or declares no size.
    Header(HeaderError),
    /// The last two blocks are not all zero.
    MissingEndMarker,
}

/// Why an archive did not pass validation.
#[derive(Debug, PartialEq, Eq)]
pub enum ValidationError {
    /// The bytes are not laid out as an archive.
    InvalidStructure(StructureError),
    /// What the archive holds is not acceptable. Carries the reason.
    InvalidContent(String),
    /// The name's extension is not among the allowed ones. Carries the
    /// extension, in lower case.
    InvalidExtension(String),
    /// Bytes could not be read.
    Io(IoError),
}

impl From<IoError> for ValidationError {
    fn from(e: IoError) -> (r: ValidationError) {
        ValidationError::Io(e)
    }
}

impl vstd::std_specs::convert::FromSpecImpl<IoError> for ValidationError {
    open spec fn obeys_from_spec() -> bool {
        true
    }

    open spec fn from_spec(e: IoError) -> ValidationError {
        ValidationError::Io(e)
    }
}

} // verus!
