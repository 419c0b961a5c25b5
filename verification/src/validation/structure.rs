//! The scan that shows an archive to be laid out as one.

use super::error::{StructureError, ValidationError};
use crate::block::{all_zero, is_all_zero, padding, padding_for};
use crate::header::constants::{BLOCK_SIZE, END_MARKER_SIZE};
use crate::header::parser::size_value;
use crate::header::validator::validation_result;
use crate::header::{HeaderParser, HeaderValidator};
use vstd::prelude::*;
use vstd::slice::slice_subrange;

verus! {

/// Checks the layout of archives.
pub struct ArchiveStructureValidator;

/// How a scan of an archive ends.
pub enum Scan {
    /// The last record ends where the archive ends.
    Complete,
    /// The last header declares more payload than the archive holds, so the
    /// next block would begin past the end.
    Overrun,
    /// The scan stopped at a block that is not what it should be.
    Failed(StructureError),
}

/// The scan of `archive` from the block boundary `pos` on. A zero block is
/// passed over, at the end or not. Any other block must be a valid header
/// with a readable size; its payload and padding are skipped, whether all of
/// it is there or not.
pub open spec fn scan_from(archive: Seq<u8>, pos: int) -> Scan
    decreases archive.len() - pos,
{
    if pos < 0 || pos > archive.len() {
        Scan::Overrun
    } else if pos == archive.len() {
        Scan::Complete
    } else if pos + BLOCK_SIZE > archive.len() {
        Scan::Failed(StructureError::IncompleteBlock)
    } else {
        let block = archive.subrange(pos, pos + BLOCK_SIZE);
        if all_zero(block) {
            scan_from(archive, pos + BLOCK_SIZE)
        } else {
            match validation_result(block) {
                Err(e) => Scan::Failed(StructureError::Header(e)),
                Ok(()) => match size_value(block) {
                    Err(e) => Scan::Failed(StructureError::Header(e)),
                    Ok(size) => {
                        let next = pos + BLOCK_SIZE + size + padding(size as int);
                        if next > archive.len() {
                            Scan::Overrun
                        } else {
                            scan_from(archive, next)
                        }
                    },
                },
            }
        }
    }
}

/// Whether `archive` ends in an end marker: two blocks of zeros.
pub open spec fn ends_in_marker(archive: Seq<u8>) -> bool {
    archive.len() >= END_MARKER_SIZE && all_zero(
        archive.subrange(archive.len() - END_MARKER_SIZE, archive.len() as int),
    )
}

/// The verdict on the layout of `archive`. An archive shorter than an end
/// marker is too small. Then the scan must not fail. Last, the archive must
/// end in an end marker.
pub open spec fn structure_result(archive: Seq<u8>) -> Result<(), ValidationError> {
    if archive.len() < END_MARKER_SIZE {
        Err(
            ValidationError::InvalidStructure(
                StructureError::TooSmall { size: archive.len() as u64 },
            ),
        )
    } else {
        match scan_from(archive, 0) {
            Scan::Failed(e) => Err(ValidationError::InvalidStructure(e)),
            _ => if ends_in_marker(archive) {
                Ok(())
            } else {
                Err(ValidationError::InvalidStructure(StructureError::MissingEndMarker))
            },
        }
    }
}

impl ArchiveStructureValidator {
    /// Checks the layout of an archive, block by block and then at its end.
    pub fn validate(archive: &[u8]) -> (r: Result<(), ValidationError>)
        ensures
            r == structure_result(archive@),
    {
        let len: usize = archive.len();
        if len < END_MARKER_SIZE {
            return Err(
                ValidationError::InvalidStructure(StructureError::TooSmall { size: len as u64 }),
            );
        }
        let mut pos: usize = 0;
        let mut scanning: bool = true;
        while scanning && pos < len
            invariant
                pos <= len == archive@.len(),
                len >= END_MARKER_SIZE,
                scanning ==> scan_from(archive@, pos as int) == scan_from(archive@, 0),
                !scanning ==> !(scan_from(archive@, 0) is Failed),
            decreases (len - pos) + (if scanning { 1int } else { 0int }),
        {
            if len - pos < BLOCK_SIZE {
                return Err(ValidationError::InvalidStructure(StructureError::IncompleteBlock));
            }
            let block = slice_subrange(archive, pos, pos + BLOCK_SIZE);
            if is_all_zero(block) {
                pos = pos + BLOCK_SIZE;
            } else {
                match HeaderValidator::validate(block) {
                    Err(e) => {
                        return Err(ValidationError::InvalidStructure(StructureError::Header(e)));
                    },
                    Ok(()) => {},
                }
                let size: u64 = match HeaderParser::parse_size(block) {
                    Err(e) => {
                        return Err(ValidationError::InvalidStructure(StructureError::Header(e)));
                    },
                    Ok(size) => size,
                };
                let rest: u64 = (len - pos - BLOCK_SIZE) as u64;
                if size > rest {
                    scanning = false;
                } else {
                    let skip: u64 = size + padding_for(size);
                    if skip > rest {
                        scanning = false;
                    } else {
                        pos = pos + BLOCK_SIZE + skip as usize;
                    }
                }
            }
        }
        if is_all_zero(slice_subrange(archive, len - END_MARKER_SIZE, len)) {
            Ok(())
        } else {
            Err(ValidationError::InvalidStructure(StructureError::MissingEndMarker))
        }
    }
}

} // verus!
