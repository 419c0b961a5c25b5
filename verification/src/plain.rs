//! An archiver that validates nothing. It takes every archive as it is: no name is
//! checked, no layout, no checksum, and extraction overwrites.

use crate::archive::appender::{append_records, appended};
use crate::archive::builder::{archive_of, file_header, first_refused, header_refusal};
use crate::archive::extractor::{extract_entries, files_from, is_extraction};
use crate::archive::lister::{entries_of, names, names_of, read_entries};
use crate::archive::{ArchiveBuilder, ArchiverError, ExtractedFile, FileInput};
use crate::header::constants::{BLOCK_SIZE, END_MARKER_SIZE};
use crate::header::octal::{field_value, octal_digits, octal_fits};
use crate::header::parser::parse_result;
use crate::header::{HeaderBuilder, HeaderError, HeaderParser, IntErrorKind};
use vstd::prelude::*;

verus! {

/// The archiver that validates nothing.
pub struct Archiver {}

impl Archiver {
    pub fn new() -> (r: Self) {
        Archiver {  }
    }

    /// The archive that holds `files`, in their order.
    pub fn create(&self, files: &Vec<FileInput>) -> (r: Result<Vec<u8>, ArchiverError>)
        ensures
            match r {
                Ok(archive) => first_refused(files@) == files@.len() && archive@ == archive_of(
                    files@,
                ),
                Err(e) => first_refused(files@) < files@.len() && (e matches ArchiverError::HeaderError(
                    h,
                ) && header_refusal(files@[first_refused(files@)], h)),
            },
    {
        ArchiveBuilder::new().build(files)
    }

    /// The header block of `file`.
    pub fn generate_header(&self, file: &FileInput) -> (r: Result<[u8; BLOCK_SIZE], ArchiverError>)
        ensures
            match r {
                Ok(block) => file_header(*file) == Some(block@),
                Err(e) => file_header(*file) is None && (e matches ArchiverError::HeaderError(h)
                    && header_refusal(*file, h)),
            },
    {
        let header = match &file.file_name {
            None => HeaderBuilder::build_from_path(file.path.as_str(), None, &file.metadata),
            Some(name) => HeaderBuilder::build_from_path(
                file.path.as_str(),
                Some(name.as_str()),
                &file.metadata,
            ),
        };
        match header {
            Err(e) => Err(ArchiverError::HeaderError(e)),
            Ok(block) => Ok(block),
        }
    }

    /// Writes `value` into the first `len` bytes of `dst`: `len - 1` octal
    /// digits, padded with zeros on the left, and a NUL. A value with more
    /// digits than that is refused, and `dst` stays as it was.
    pub fn write_octal(&self, dst: &mut [u8], value: u64, len: usize) -> (r: Result<
        (),
        ArchiverError,
    >)
        requires
            1 <= len <= old(dst)@.len(),
        ensures
            r is Ok <==> octal_fits(value as nat, (len - 1) as nat),
            r is Ok ==> final(dst)@ == octal_digits(value as nat, (len - 1) as nat).push(0u8)
                + old(dst)@.skip(len as int),
            r is Err ==> r == Err::<(), _>(
                ArchiverError::HeaderError(HeaderError::IntConversion(IntErrorKind::PosOverflow)),
            ) && final(dst)@ == old(dst)@,
    {
        match HeaderBuilder::write_octal(dst, value, len) {
            Err(e) => Err(ArchiverError::HeaderError(e)),
            Ok(()) => Ok(()),
        }
    }

    /// Reads a numeric field.
    pub fn read_octal(&self, src: &[u8]) -> (r: Result<u64, ArchiverError>)
        ensures
            match field_value(src@) {
                Ok(v) => r == Ok::<u64, ArchiverError>(v),
                Err(e) => r == Err::<u64, _>(ArchiverError::HeaderError(e)),
            },
    {
        match HeaderParser::read_octal(src) {
            Err(e) => Err(ArchiverError::HeaderError(e)),
            Ok(v) => Ok(v),
        }
    }

    /// Name and size of the file that a header block describes. Every field
    /// must be readable, though only these two are handed out.
    pub fn parse_header(&self, header: &[u8]) -> (r: Result<(String, u64), ArchiverError>)
        requires
            header@.len() == BLOCK_SIZE,
        ensures
            match parse_result(header@) {
                Ok(h) => r matches Ok(found) && found.0@ == h.name && found.1 == h.size,
                Err(e) => r == Err::<(String, u64), _>(ArchiverError::HeaderError(e)),
            },
    {
        match HeaderParser::parse(header) {
            Err(e) => Err(ArchiverError::HeaderError(e)),
            Ok(h) => Ok((h.name, h.size)),
        }
    }

    /// The files of `archive`, whatever stands in their place.
    pub fn extract(&self, archive: &[u8]) -> (r: Result<Vec<ExtractedFile>, ArchiverError>)
        ensures
            is_extraction(files_from(archive@, 0, true, Seq::empty()), r),
    {
        let occupied: Vec<String> = Vec::new();
        assert(occupied.deep_view() =~= Seq::<Seq<char>>::empty());
        extract_entries(archive, true, &occupied)
    }

    /// The names of the entries of `archive`, in their order.
    pub fn list(&self, archive: &[u8]) -> (r: Result<Vec<String>, ArchiverError>)
        ensures
            match entries_of(archive@) {
                Ok(entries) => r matches Ok(v) && v.deep_view() == names(entries),
                Err(e) => r == Err::<Vec<String>, _>(e),
            },
    {
        match read_entries(archive) {
            Err(e) => Err(e),
            Ok(entries) => Ok(names_of(entries)),
        }
    }

    /// Puts the records of `files` in the place of the last two blocks of
    /// `archive`, and an end marker behind them.
    pub fn append(&self, archive: &mut Vec<u8>, files: &Vec<FileInput>) -> (r: Result<
        (),
        ArchiverError,
    >)
        requires
            old(archive)@.len() >= END_MARKER_SIZE,
        ensures
            appended(old(archive)@, files@, final(archive)@, r),
    {
        append_records(archive, files)
    }
}

} // verus!
