//! Listing an archive: the entries, in the order in which they lie in it.

use super::error::ArchiverError;
use crate::block::{all_zero, is_all_zero, padding, padding_for};
use crate::header::constants::BLOCK_SIZE;
use crate::header::parser::parse_result;
use crate::header::{HeaderData, HeaderParser, IoError};
use crate::validation::extension::{extension_allowed, extension_of, lowercase_of};
use crate::validation::structure::structure_result;
use crate::validation::{ArchiveValidator, ValidationError};
use vstd::prelude::*;
use vstd::slice::slice_subrange;

verus! {

/// What an archive says of one file in it. The payload is not part of it.
#[derive(Debug, PartialEq, Eq)]
pub struct ArchiveEntry {
    pub name: String,
    pub size: u64,
    pub mode: u64,
    pub uid: u64,
    pub gid: u64,
    pub mtime: u64,
}

impl View for ArchiveEntry {
    type V = HeaderData;

    open spec fn view(&self) -> HeaderData {
        HeaderData {
            name: self.name@,
            size: self.size,
            mode: self.mode,
            uid: self.uid,
            gid: self.gid,
            mtime: self.mtime,
        }
    }
}

impl DeepView for ArchiveEntry {
    type V = HeaderData;

    open spec fn deep_view(&self) -> HeaderData {
        self@
    }
}

/// Lists archives that pass validation.
pub struct ArchiveLister {
    validator: ArchiveValidator,
    show_metadata: bool,
}

/// The entries of `archive` from the block at `pos` on. The first zero block
/// ends the list. Every other block is read as a header; its payload and
/// padding are passed over. An archive that ends before a zero block was met
/// gives no list, but the error of a read past the end.
pub open spec fn entries_from(archive: Seq<u8>, pos: int) -> Result<Seq<HeaderData>, ArchiverError>
    decreases archive.len() - pos,
{
    if pos < 0 || pos + BLOCK_SIZE > archive.len() {
        Err(ArchiverError::Io(IoError::UnexpectedEof))
    } else {
        let block = archive.subrange(pos, pos + BLOCK_SIZE);
        if all_zero(block) {
            Ok(Seq::empty())
        } else {
            match parse_result(block) {
                Err(e) => Err(ArchiverError::HeaderError(e)),
                Ok(entry) => {
                    let next = pos + BLOCK_SIZE + entry.size + padding(entry.size as int);
                    if next > archive.len() {
                        Err(ArchiverError::Io(IoError::UnexpectedEof))
                    } else {
                        after(entry, entries_from(archive, next))
                    }
                },
            }
        }
    }
}

/// `rest` with `entry` before it, where `rest` is a list.
pub open spec fn after(entry: HeaderData, rest: Result<Seq<HeaderData>, ArchiverError>) -> Result<
    Seq<HeaderData>,
    ArchiverError,
> {
    match rest {
        Ok(entries) => Ok(seq![entry] + entries),
        Err(e) => Err(e),
    }
}

/// `rest` with all of `done` before it, where `rest` is a list.
pub open spec fn after_all(done: Seq<HeaderData>, rest: Result<Seq<HeaderData>, ArchiverError>)
    -> Result<Seq<HeaderData>, ArchiverError> {
    match rest {
        Ok(entries) => Ok(done + entries),
        Err(e) => Err(e),
    }
}

/// The entries of `archive`.
pub open spec fn entries_of(archive: Seq<u8>) -> Result<Seq<HeaderData>, ArchiverError> {
    entries_from(archive, 0)
}

/// Whether `r` is what reading the entries of `archive` owes.
pub open spec fn is_listing(archive: Seq<u8>, r: Result<Vec<ArchiveEntry>, ArchiverError>) -> bool {
    match entries_of(archive) {
        Ok(entries) => r matches Ok(v) && v.deep_view() == entries,
        Err(e) => r == Err::<Vec<ArchiveEntry>, _>(e),
    }
}

/// Whether `r` is what listing the archive `archive`, called `name`, owes
/// when `allowed` are the allowed extensions: the error of the validation
/// where that fails, else the entries.
pub open spec fn list_outcome(
    allowed: Seq<Seq<char>>,
    name: Seq<char>,
    archive: Seq<u8>,
    r: Result<Vec<ArchiveEntry>, ArchiverError>,
) -> bool {
    if !extension_allowed(allowed, name) {
        r matches Err(ArchiverError::Validation(ValidationError::InvalidExtension(ext))) && ext@
            == lowercase_of(extension_of(name))
    } else {
        match structure_result(archive) {
            Err(e) => r == Err::<Vec<ArchiveEntry>, _>(ArchiverError::Validation(e)),
            Ok(()) => is_listing(archive, r),
        }
    }
}

/// Reads the entries of an archive that is taken as it is, unchecked.
pub fn read_entries(archive: &[u8]) -> (r: Result<Vec<ArchiveEntry>, ArchiverError>)
    ensures
        is_listing(archive@, r),
{
    let len: usize = archive.len();
    let mut entries: Vec<ArchiveEntry> = Vec::new();
    let mut pos: usize = 0;
    assert(entries.deep_view() =~= Seq::<HeaderData>::empty());
    loop
        invariant
            pos <= len == archive@.len(),
            entries_of(archive@) == after_all(entries.deep_view(), entries_from(archive@, pos as int)),
        decreases len - pos,
    {
        if len - pos < BLOCK_SIZE {
            return Err(ArchiverError::Io(IoError::UnexpectedEof));
        }
        let block = slice_subrange(archive, pos, pos + BLOCK_SIZE);
        if is_all_zero(block) {
            assert(entries.deep_view() + Seq::<HeaderData>::empty() =~= entries.deep_view());
            return Ok(entries);
        }
        let header = match HeaderParser::parse(block) {
            Err(e) => {
                return Err(ArchiverError::HeaderError(e));
            },
            Ok(header) => header,
        };
        let size: u64 = header.size;
        let rest: u64 = (len - pos - BLOCK_SIZE) as u64;
        if size > rest {
            return Err(ArchiverError::Io(IoError::UnexpectedEof));
        }
        let skip: u64 = size + padding_for(size);
        if skip > rest {
            return Err(ArchiverError::Io(IoError::UnexpectedEof));
        }
        let ghost done = entries.deep_view();
        let ghost entry = header@;
        let ghost next = pos + BLOCK_SIZE + skip;
        entries.push(
            ArchiveEntry {
                name: header.name,
                size: header.size,
                mode: header.mode,
                uid: header.uid,
                gid: header.gid,
                mtime: header.mtime,
            },
        );
        proof {
            assert(entries.deep_view() =~= done.push(entry));
            match entries_from(archive@, next) {
                Ok(tail) => {
                    assert(done + (seq![entry] + tail) =~= done.push(entry) + tail);
                },
                Err(_) => {},
            }
        }
        pos = pos + BLOCK_SIZE + skip as usize;
    }
}

impl ArchiveLister {
    /// A lister behind `validator`.
    pub fn new(validator: ArchiveValidator) -> (r: Self)
        ensures
            r.allowed() == validator@,
            !r.shows_metadata(),
    {
        Self { validator, show_metadata: false }
    }

    /// The allowed extensions of the validator that guards this lister.
    pub closed spec fn allowed(&self) -> Seq<Seq<char>> {
        self.validator@
    }

    /// Whether the metadata of the entries is meant to be shown with their names.
    pub closed spec fn shows_metadata(&self) -> bool {
        self.show_metadata
    }

    /// Says whether the metadata of the entries is meant to be shown. What
    /// is listed does not depend on it.
    pub fn show_metadata(&mut self, show: bool) -> (r: &mut Self)
        ensures
            r.shows_metadata() == show,
            r.allowed() == old(self).allowed(),
            *final(self) == *final(r),
    {
        self.show_metadata = show;
        self
    }

    /// Lists the archive `archive`, whose file is called `file_name`, once
    /// it has passed validation.
    pub fn list(&self, file_name: &str, archive: &[u8]) -> (r: Result<
        Vec<ArchiveEntry>,
        ArchiverError,
    >)
        ensures
            list_outcome(self.allowed(), file_name@, archive@, r),
    {
        match self.validator.validate(file_name, archive) {
            Err(e) => Err(ArchiverError::Validation(e)),
            Ok(()) => read_entries(archive),
        }
    }

    /// The names of the entries, in their order.
    pub fn _list_names(&self, file_name: &str, archive: &[u8]) -> (r: Result<
        Vec<String>,
        ArchiverError,
    >)
        ensures
            names_outcome(self.allowed(), file_name@, archive@, r),
    {
        match self.list(file_name, archive) {
            Err(e) => Err(e),
            Ok(entries) => Ok(names_of(entries)),
        }
    }
}

/// The names of `entries`.
pub open spec fn names(entries: Seq<HeaderData>) -> Seq<Seq<char>> {
    entries.map_values(|entry: HeaderData| entry.name)
}

/// Whether `r` is what listing the names of the archive owes: the outcome
/// of listing it, with each entry cut down to its name.
pub open spec fn names_outcome(
    allowed: Seq<Seq<char>>,
    name: Seq<char>,
    archive: Seq<u8>,
    r: Result<Vec<String>, ArchiverError>,
) -> bool {
    if !extension_allowed(allowed, name) {
        r matches Err(ArchiverError::Validation(ValidationError::InvalidExtension(ext))) && ext@
            == lowercase_of(extension_of(name))
    } else {
        match structure_result(archive) {
            Err(e) => r == Err::<Vec<String>, _>(ArchiverError::Validation(e)),
            Ok(()) => match entries_of(archive) {
                Ok(entries) => r matches Ok(v) && v.deep_view() == names(entries),
                Err(e) => r == Err::<Vec<String>, _>(e),
            },
        }
    }
}

/// Takes the names out of `entries`.
pub fn names_of(entries: Vec<ArchiveEntry>) -> (r: Vec<String>)
    ensures
        r.deep_view() == names(entries.deep_view()),
{
    let mut out: Vec<String> = Vec::new();
    let mut i: usize = 0;
    while i < entries.len()
        invariant
            i <= entries@.len(),
            out@.len() == i,
            out.deep_view() == names(entries.deep_view()).take(i as int),
        decreases entries@.len() - i,
    {
        out.push(entries[i].name.clone());
        assert(out.deep_view() =~= names(entries.deep_view()).take(i + 1));
        i = i + 1;
    }
    assert(names(entries.deep_view()).take(i as int) =~= names(entries.deep_view()));
    out
}

} // verus!
