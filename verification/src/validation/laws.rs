//! What holds of the structural check whatever the archive.

use super::error::ValidationError;
use super::structure::{scan_from, structure_result, Scan};
use crate::block::{all_zero, padding};
use crate::header::constants::{BLOCK_SIZE, END_MARKER_SIZE};
use crate::header::parser::size_value;
use crate::header::validator::validation_result;
use vstd::prelude::*;

verus! {

/// A scan that starts on a block boundary only ever stands on block
/// boundaries, so it cannot end where a ragged archive ends. Where it fails,
/// it fails on a block.
pub proof fn lemma_scan_of_ragged_archive(archive: Seq<u8>, pos: int)
    requires
        archive.len() % (BLOCK_SIZE as nat) != 0,
        pos % (BLOCK_SIZE as int) == 0,
        0 <= pos,
    ensures
        !(scan_from(archive, pos) is Complete),
        scan_from(archive, pos) matches Scan::Failed(e) ==> (e is IncompleteBlock || e is Header),
    decreases archive.len() - pos,
{
    if pos < archive.len() && pos + BLOCK_SIZE <= archive.len() {
        let block = archive.subrange(pos, pos + BLOCK_SIZE);
        if all_zero(block) {
            lemma_scan_of_ragged_archive(archive, pos + BLOCK_SIZE);
        } else if validation_result(block) is Ok {
            if let Ok(size) = size_value(block) {
                let next: int = pos + BLOCK_SIZE + size + padding(size as int);
                assert((size + padding(size as int)) % (BLOCK_SIZE as int) == 0);
                if next <= archive.len() {
                    lemma_scan_of_ragged_archive(archive, next);
                }
            }
        }
    }
}

/// An archive whose length is no multiple of the block size is refused, and
/// not for its end: it is too small, or the scan stops at an incomplete block
/// or a bad header before the end marker is looked for. Left out are the
/// archives whose last header declares more payload than is there: their scan
/// runs past the end and the end marker decides.
pub proof fn law_ragged_length_is_refused(archive: Seq<u8>)
    requires
        archive.len() % (BLOCK_SIZE as nat) != 0,
        archive.len() >= END_MARKER_SIZE ==> !(scan_from(archive, 0) is Overrun),
    ensures
        structure_result(archive) matches Err(ValidationError::InvalidStructure(e)) && (e
            is TooSmall || e is IncompleteBlock || e is Header),
{
    lemma_scan_of_ragged_archive(archive, 0);
}

} // verus!
