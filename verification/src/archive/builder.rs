//! Making a new archive: one record for each file, then the end marker.

use super::error::ArchiverError;
use super::FileInput;
use crate::block::{padding, zeros};
use crate::header::constants::{BLOCK_SIZE, END_MARKER_SIZE};
use crate::header::layout::{fields_fit, header_block, name_ok};
use crate::header::{HeaderBuilder, HeaderError, IntErrorKind};
use vstd::prelude::*;
use vstd::utf8::encode_utf8;

verus! {

/// Builds archives.
pub struct ArchiveBuilder {}

/// The header block of `file`, or `None` where no header can be built for it:
/// it has no name, a name that no header can hold, or a number that does not
/// fit its field.
pub open spec fn file_header(file: FileInput) -> Option<Seq<u8>> {
    match file.file_name {
        None => None,
        Some(name) => if name_ok(encode_utf8(name@)) && fields_fit(file.metadata) {
            Some(header_block(encode_utf8(name@), file.metadata))
        } else {
            None
        },
    }
}

/// Whether `e` is the error owed for `file`, for which no header can be built.
pub open spec fn header_refusal(file: FileInput, e: HeaderError) -> bool {
    match file.file_name {
        None => e matches HeaderError::InvalidFileName(n) && n@ == file.path@,
        Some(name) => if !name_ok(encode_utf8(name@)) {
            e matches HeaderError::InvalidFileName(n) && n@ == name@
        } else {
            e == HeaderError::IntConversion(IntErrorKind::PosOverflow)
        },
    }
}

/// `archive` with the record of `file` behind it: its header, its bytes, and
/// zeros up to the next block boundary.
pub open spec fn with_file(archive: Seq<u8>, file: FileInput) -> Seq<u8>
    recommends
        file_header(file) is Some,
{
    let unpadded = archive + file_header(file).unwrap() + file.data@;
    unpadded + zeros(padding(unpadded.len() as int) as nat)
}

/// `archive` with the records of `files` behind it, in their order.
pub open spec fn with_files(archive: Seq<u8>, files: Seq<FileInput>) -> Seq<u8>
    decreases files.len(),
{
    if files.len() == 0 {
        archive
    } else {
        with_files(with_file(archive, files[0]), files.skip(1))
    }
}

/// The index of the first of `files` for which no header can be built, or
/// the number of files if there is none.
pub open spec fn first_refused(files: Seq<FileInput>) -> int
    decreases files.len(),
{
    if files.len() == 0 || file_header(files[0]) is None {
        0
    } else {
        1 + first_refused(files.skip(1))
    }
}

/// The archive that holds `files`: their records and the end marker.
pub open spec fn archive_of(files: Seq<FileInput>) -> Seq<u8> {
    with_files(Seq::empty(), files) + zeros(END_MARKER_SIZE as nat)
}

/// Appends `n` zero bytes.
pub fn append_zeros(archive: &mut Vec<u8>, n: usize)
    ensures
        final(archive)@ == old(archive)@ + zeros(n as nat),
{
    let mut k: usize = 0;
    assert(archive@ =~= old(archive)@ + zeros(0));
    while k < n
        invariant
            k <= n,
            archive@ == old(archive)@ + zeros(k as nat),
        decreases n - k,
    {
        archive.push(0u8);
        assert(archive@ =~= old(archive)@ + zeros((k + 1) as nat));
        k = k + 1;
    }
}

/// Appends the bytes of `bytes`.
pub fn append_bytes(archive: &mut Vec<u8>, bytes: &[u8])
    ensures
        final(archive)@ == old(archive)@ + bytes@,
{
    archive.extend_from_slice(bytes);
    assert(archive@ =~= old(archive)@ + bytes@);
}

/// Adding one more file at the end is adding its record last.
pub proof fn lemma_with_files_push(archive: Seq<u8>, files: Seq<FileInput>, file: FileInput)
    ensures
        with_files(archive, files.push(file)) == with_file(with_files(archive, files), file),
    decreases files.len(),
{
    if files.len() == 0 {
        assert(files.push(file).skip(1) =~= Seq::<FileInput>::empty());
        reveal_with_fuel(with_files, 2);
    } else {
        assert(files.push(file)[0] == files[0]);
        assert(files.push(file).skip(1) =~= files.skip(1).push(file));
        lemma_with_files_push(with_file(archive, files[0]), files.skip(1), file);
    }
}

/// Appends the records of `files` to `archive`, in their order. The first
/// file for which no header can be built ends the work with its error; the
/// records of the files before it are then in place.
pub fn add_files(archive: &mut Vec<u8>, files: &Vec<FileInput>) -> (r: Result<(), ArchiverError>)
    ensures
        final(archive)@ == with_files(old(archive)@, files@.take(first_refused(files@))),
        match r {
            Ok(()) => first_refused(files@) == files@.len(),
            Err(e) => first_refused(files@) < files@.len() && (e matches ArchiverError::HeaderError(
                h,
            ) && header_refusal(files@[first_refused(files@)], h)),
        },
{
    let builder = ArchiveBuilder::new();
    let mut i: usize = 0;
    assert(files@.skip(0) =~= files@);
    assert(files@.take(0) =~= Seq::<FileInput>::empty());
    while i < files.len()
        invariant
            i <= files@.len(),
            first_refused(files@) == i + first_refused(files@.skip(i as int)),
            archive@ == with_files(old(archive)@, files@.take(i as int)),
        decreases files@.len() - i,
    {
        let ghost rest = files@.skip(i as int);
        assert(rest[0] == files@[i as int]);
        assert(rest.skip(1) =~= files@.skip(i + 1));
        match builder.add_file(archive, &files[i]) {
            Err(e) => {
                return Err(e);
            },
            Ok(()) => {},
        }
        proof {
            lemma_with_files_push(old(archive)@, files@.take(i as int), files@[i as int]);
            assert(files@.take(i as int).push(files@[i as int]) =~= files@.take(i + 1));
        }
        i = i + 1;
    }
    Ok(())
}

impl ArchiveBuilder {
    pub fn new() -> (r: Self) {
        Self {  }
    }

    /// The archive that holds `files`, in their order: a record for each,
    /// and the end marker. The first file for which no header can be built
    /// ends the work with its error.
    pub fn build(&self, files: &Vec<FileInput>) -> (r: Result<Vec<u8>, ArchiverError>)
        ensures
            match r {
                Ok(archive) => first_refused(files@) == files@.len() && archive@ == archive_of(
                    files@,
                ),
                Err(e) => first_refused(files@) < files@.len() && (e matches ArchiverError::HeaderError(
                    h,
                ) && header_refusal(files@[first_refused(files@)], h)),
            },
    {
        let mut archive: Vec<u8> = Vec::new();
        match add_files(&mut archive, files) {
            Err(e) => Err(e),
            Ok(()) => {
                assert(files@.take(files@.len() as int) =~= files@);
                self.write_end_marker(&mut archive);
                Ok(archive)
            },
        }
    }

    /// Appends the record of `file` to `archive`. Where no header can be
    /// built for the file, `archive` stays as it was.
    pub fn add_file(&self, archive: &mut Vec<u8>, file: &FileInput) -> (r: Result<
        (),
        ArchiverError,
    >)
        ensures
            match r {
                Ok(()) => file_header(*file) is Some && final(archive)@ == with_file(
                    old(archive)@,
                    *file,
                ),
                Err(e) => file_header(*file) is None && final(archive)@ == old(archive)@ && (
                e matches ArchiverError::HeaderError(h) && header_refusal(*file, h)),
            },
    {
        let header = match &file.file_name {
            None => HeaderBuilder::build_from_path(file.path.as_str(), None, &file.metadata),
            Some(name) => HeaderBuilder::build_from_path(
                file.path.as_str(),
                Some(name.as_str()),
                &file.metadata,
            ),
        };
        match header {
            Err(e) => Err(ArchiverError::HeaderError(e)),
            Ok(block) => {
                append_bytes(archive, block.as_slice());
                append_bytes(archive, file.data.as_slice());
                let len: usize = archive.len();
                let pad: usize = (BLOCK_SIZE - len % BLOCK_SIZE) % BLOCK_SIZE;
                append_zeros(archive, pad);
                Ok(())
            },
        }
    }

    /// Appends the end marker: two blocks of zeros.
    pub fn write_end_marker(&self, archive: &mut Vec<u8>)
        ensures
            final(archive)@ == old(archive)@ + zeros(END_MARKER_SIZE as nat),
    {
        append_zeros(archive, END_MARKER_SIZE);
    }
}

} // verus!
