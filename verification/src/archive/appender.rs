//! Adding files to an archive that exists.

use super::builder::{
    add_files, file_header, first_refused, header_refusal, with_file, with_files, ArchiveBuilder,
};
use super::error::ArchiverError;
use super::FileInput;
use crate::block::zeros;
use crate::header::constants::END_MARKER_SIZE;
use crate::validation::extension::{extension_allowed, extension_of, lowercase_of};
use crate::validation::structure::structure_result;
use crate::validation::{ArchiveValidator, ValidationError};
use vstd::prelude::*;

verus! {

/// Appends to archives that pass validation.
pub struct ArchiveAppender {
    validator: ArchiveValidator,
}

/// `archive` without its last two blocks, where the end marker lies.
pub open spec fn without_marker(archive: Seq<u8>) -> Seq<u8>
    recommends
        archive.len() >= END_MARKER_SIZE,
{
    archive.take(archive.len() - END_MARKER_SIZE)
}

/// `archive` with the records of `files` in the place of its end marker and
/// a new end marker behind them.
pub open spec fn extended(archive: Seq<u8>, files: Seq<FileInput>) -> Seq<u8> {
    with_files(without_marker(archive), files) + zeros(END_MARKER_SIZE as nat)
}

/// Whether `r` and `after` are what appending `files` to the archive
/// `before`, called `name`, owes. An archive that fails validation is left
/// as it was. Else the new records take the place of the end marker, and a
/// new end marker follows them. Where no header can be built for a file, the
/// work ends there, and no end marker is written.
pub open spec fn append_outcome(
    allowed: Seq<Seq<char>>,
    name: Seq<char>,
    before: Seq<u8>,
    files: Seq<FileInput>,
    after: Seq<u8>,
    r: Result<(), ArchiverError>,
) -> bool {
    if !extension_allowed(allowed, name) {
        &&& after == before
        &&& r matches Err(ArchiverError::Validation(ValidationError::InvalidExtension(ext)))
        &&& ext@ == lowercase_of(extension_of(name))
    } else {
        match structure_result(before) {
            Err(e) => after == before && r == Err::<(), _>(ArchiverError::Validation(e)),
            Ok(()) => appended(before, files, after, r),
        }
    }
}

/// Whether `r` and `after` are what appending `files` to `before` owes once
/// the archive's end marker is known to be there.
pub open spec fn appended(
    before: Seq<u8>,
    files: Seq<FileInput>,
    after: Seq<u8>,
    r: Result<(), ArchiverError>,
) -> bool {
    let stop = first_refused(files);
    if stop == files.len() {
        r is Ok && after == extended(before, files)
    } else {
        &&& after == with_files(without_marker(before), files.take(stop))
        &&& r matches Err(ArchiverError::HeaderError(h))
        &&& header_refusal(files[stop], h)
    }
}

/// Puts the records of `files` in the place of the last two blocks of
/// `archive`, and an end marker behind them.
pub fn append_records(archive: &mut Vec<u8>, files: &Vec<FileInput>) -> (r: Result<
    (),
    ArchiverError,
>)
    requires
        old(archive)@.len() >= END_MARKER_SIZE,
    ensures
        appended(old(archive)@, files@, final(archive)@, r),
{
    let len: usize = archive.len();
    archive.truncate(len - END_MARKER_SIZE);
    assert(archive@ =~= without_marker(old(archive)@));
    match add_files(archive, files) {
        Err(e) => Err(e),
        Ok(()) => {
            assert(files@.take(files@.len() as int) =~= files@);
            ArchiveBuilder::new().write_end_marker(archive);
            Ok(())
        },
    }
}

impl ArchiveAppender {
    /// An appender behind `validator`.
    pub fn new(validator: ArchiveValidator) -> (r: Self)
        ensures
            r.allowed() == validator@,
    {
        Self { validator }
    }

    /// The allowed extensions of the validator that guards this appender.
    pub closed spec fn allowed(&self) -> Seq<Seq<char>> {
        self.validator@
    }

    /// Appends `files` to the archive `archive`, whose file is called
    /// `file_name`, once it has passed validation.
    pub fn append(&self, file_name: &str, archive: &mut Vec<u8>, files: &Vec<FileInput>) -> (r:
        Result<(), ArchiverError>)
        ensures
            append_outcome(self.allowed(), file_name@, old(archive)@, files@, final(archive)@, r),
    {
        match self.validator.validate(file_name, archive.as_slice()) {
            Err(e) => Err(ArchiverError::Validation(e)),
            Ok(()) => append_records(archive, files),
        }
    }

    /// Appends the record of `file` to `archive`, which holds no end marker
    /// at this time. Where no header can be built for the file, `archive`
    /// stays as it was.
    pub fn append_file(&self, archive: &mut Vec<u8>, file: &FileInput) -> (r: Result<
        (),
        ArchiverError,
    >)
        ensures
            match r {
                Ok(()) => file_header(*file) is Some && final(archive)@ == with_file(
                    old(archive)@,
                    *file,
                ),
                Err(e) => file_header(*file) is None && final(archive)@ == old(archive)@ && (
                e matches ArchiverError::HeaderError(h) && header_refusal(*file, h)),
            },
    {
        ArchiveBuilder::new().add_file(archive, file)
    }
}

} // verus!
