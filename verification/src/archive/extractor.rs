//! Extracting an archive: the files it holds, with their bytes.

use super::error::ArchiverError;
use crate::block::{all_zero, is_all_zero, padding, padding_for};
use crate::header::constants::BLOCK_SIZE;
use crate::header::parser::parse_result;
use crate::header::{HeaderParser, IoError};
use crate::validation::extension::{extension_allowed, extension_of, lowercase_of};
use crate::validation::structure::structure_result;
use crate::validation::{ArchiveValidator, ValidationError};
use vstd::prelude::*;
use vstd::slice::{slice_subrange, slice_to_vec};

verus! {

/// A file taken out of an archive: the name its header gives it, and its bytes.
#[derive(Debug, PartialEq, Eq)]
pub struct ExtractedFile {
    pub name: String,
    pub data: Vec<u8>,
}

/// An extracted file as a mathematical value.
pub struct FileData {
    pub name: Seq<char>,
    pub data: Seq<u8>,
}

impl View for ExtractedFile {
    type V = FileData;

    open spec fn view(&self) -> FileData {
        FileData { name: self.name@, data: self.data@ }
    }
}

impl DeepView for ExtractedFile {
    type V = FileData;

    open spec fn deep_view(&self) -> FileData {
        self@
    }
}

/// Extracts archives that pass validation.
pub struct ArchiveExtractor {
    validator: ArchiveValidator,
    overwrite: bool,
}

/// How an extraction ends.
pub enum Extraction {
    /// With the files of the archive, in their order.
    Files(Seq<FileData>),
    /// At an entry whose name is taken, overwriting being off. Carries the name.
    Exists(Seq<char>),
    /// At a header that cannot be read, or at the archive's early end.
    Failed(ArchiverError),
}

/// The reason given where a file exists and may not be overwritten.
pub open spec fn file_exists_reason() -> Seq<char> {
    "File exists and overwrite disabled"@
}

/// The names of `files`.
pub open spec fn file_names(files: Seq<FileData>) -> Seq<Seq<char>> {
    files.map_values(|file: FileData| file.name)
}

/// The extraction of `archive` from the block at `pos` on, where the names
/// in `taken` are in use. The first zero block ends it. Every other block is
/// read as a header. Unless `overwrite` is on, a name that is taken ends the
/// extraction; a name once extracted is taken from then on. The payload must
/// be there in full, and so must the block after its padding.
pub open spec fn files_from(archive: Seq<u8>, pos: int, overwrite: bool, taken: Seq<Seq<char>>)
    -> Extraction
    decreases archive.len() - pos,
{
    if pos < 0 || pos + BLOCK_SIZE > archive.len() {
        Extraction::Failed(ArchiverError::Io(IoError::UnexpectedEof))
    } else {
        let block = archive.subrange(pos, pos + BLOCK_SIZE);
        if all_zero(block) {
            Extraction::Files(Seq::empty())
        } else {
            match parse_result(block) {
                Err(e) => Extraction::Failed(ArchiverError::HeaderError(e)),
                Ok(entry) => {
                    let start = pos + BLOCK_SIZE;
                    let next = start + entry.size + padding(entry.size as int);
                    if !overwrite && taken.contains(entry.name) {
                        Extraction::Exists(entry.name)
                    } else if next > archive.len() {
                        Extraction::Failed(ArchiverError::Io(IoError::UnexpectedEof))
                    } else {
                        let file = FileData {
                            name: entry.name,
                            data: archive.subrange(start, start + entry.size),
                        };
                        after_all(
                            seq![file],
                            files_from(archive, next, overwrite, taken.push(entry.name)),
                        )
                    }
                },
            }
        }
    }
}

/// `rest` with the files `done` before what it extracted.
pub open spec fn after_all(done: Seq<FileData>, rest: Extraction) -> Extraction {
    match rest {
        Extraction::Files(files) => Extraction::Files(done + files),
        other => other,
    }
}

/// Whether `r` is the result owed where an extraction ends as `end`.
pub open spec fn is_extraction(end: Extraction, r: Result<Vec<ExtractedFile>, ArchiverError>)
    -> bool {
    match end {
        Extraction::Files(files) => r matches Ok(v) && v.deep_view() == files,
        Extraction::Exists(_) => r matches Err(ArchiverError::UnsupportedFeature(reason))
            && reason@ == file_exists_reason(),
        Extraction::Failed(e) => r == Err::<Vec<ExtractedFile>, _>(e),
    }
}

/// Whether `r` is what extracting the archive `archive`, called `name`,
/// owes: the error of the validation where that fails, else the extraction.
pub open spec fn extract_outcome(
    allowed: Seq<Seq<char>>,
    overwrite: bool,
    name: Seq<char>,
    archive: Seq<u8>,
    occupied: Seq<Seq<char>>,
    r: Result<Vec<ExtractedFile>, ArchiverError>,
) -> bool {
    if !extension_allowed(allowed, name) {
        r matches Err(ArchiverError::Validation(ValidationError::InvalidExtension(ext))) && ext@
            == lowercase_of(extension_of(name))
    } else {
        match structure_result(archive) {
            Err(e) => r == Err::<Vec<ExtractedFile>, _>(ArchiverError::Validation(e)),
            Ok(()) => is_extraction(files_from(archive, 0, overwrite, occupied), r),
        }
    }
}

/// Whether `name` is one of `list`.
fn is_occupied(list: &Vec<String>, name: &String) -> (r: bool)
    ensures
        r == list.deep_view().contains(name@),
{
    let mut i: usize = 0;
    while i < list.len()
        invariant
            i <= list@.len(),
            forall|j: int| 0 <= j < i ==> #[trigger] list.deep_view()[j] != name@,
        decreases list@.len() - i,
    {
        if list[i] == *name {
            assert(list.deep_view()[i as int] == name@);
            return true;
        }
        i = i + 1;
    }
    false
}

/// Whether one of `files` is called `name`.
fn is_extracted(files: &Vec<ExtractedFile>, name: &String) -> (r: bool)
    ensures
        r == file_names(files.deep_view()).contains(name@),
{
    let mut i: usize = 0;
    while i < files.len()
        invariant
            i <= files@.len(),
            forall|j: int| 0 <= j < i ==> #[trigger] file_names(files.deep_view())[j] != name@,
        decreases files@.len() - i,
    {
        if files[i].name == *name {
            assert(file_names(files.deep_view())[i as int] == name@);
            return true;
        }
        i = i + 1;
    }
    false
}

/// Extracts an archive that is taken as it is, unchecked. `occupied` holds
/// the entry names whose place is taken before the extraction begins.
pub fn extract_entries(archive: &[u8], overwrite: bool, occupied: &Vec<String>) -> (r: Result<
    Vec<ExtractedFile>,
    ArchiverError,
>)
    ensures
        is_extraction(files_from(archive@, 0, overwrite, occupied.deep_view()), r),
{
    let len: usize = archive.len();
    let mut files: Vec<ExtractedFile> = Vec::new();
    let mut pos: usize = 0;
    let ghost whole = files_from(archive@, 0, overwrite, occupied.deep_view());
    assert(files.deep_view() =~= Seq::<FileData>::empty());
    assert(occupied.deep_view() + file_names(files.deep_view()) =~= occupied.deep_view());
    loop
        invariant
            pos <= len == archive@.len(),
            whole == files_from(archive@, 0, overwrite, occupied.deep_view()),
            whole == after_all(
                files.deep_view(),
                files_from(
                    archive@,
                    pos as int,
                    overwrite,
                    occupied.deep_view() + file_names(files.deep_view()),
                ),
            ),
        decreases len - pos,
    {
        let ghost done = files.deep_view();
        let ghost taken = occupied.deep_view() + file_names(done);
        if len - pos < BLOCK_SIZE {
            return Err(ArchiverError::Io(IoError::UnexpectedEof));
        }
        let block = slice_subrange(archive, pos, pos + BLOCK_SIZE);
        if is_all_zero(block) {
            assert(done + Seq::<FileData>::empty() =~= done);
            return Ok(files);
        }
        let header = match HeaderParser::parse(block) {
            Err(e) => {
                return Err(ArchiverError::HeaderError(e));
            },
            Ok(header) => header,
        };
        if !overwrite {
            let listed: bool = is_occupied(occupied, &header.name);
            let extracted: bool = is_extracted(&files, &header.name);
            proof {
                let name = header.name@;
                if taken.contains(name) {
                    let k = choose|k: int| 0 <= k < taken.len() && taken[k] == name;
                    if k < occupied.deep_view().len() {
                        assert(occupied.deep_view()[k] == name);
                    } else {
                        assert(file_names(done)[k - occupied.deep_view().len()] == name);
                    }
                }
                if listed {
                    let k = choose|k: int|
                        0 <= k < occupied.deep_view().len() && occupied.deep_view()[k] == name;
                    assert(taken[k] == name);
                }
                if extracted {
                    let k = choose|k: int|
                        0 <= k < file_names(done).len() && file_names(done)[k] == name;
                    assert(taken[occupied.deep_view().len() + k] == name);
                }
                assert(taken.contains(name) == (listed || extracted));
            }
            if listed || extracted {
                return Err(
                    ArchiverError::UnsupportedFeature(
                        "File exists and overwrite disabled".to_owned(),
                    ),
                );
            }
        }
        let size: u64 = header.size;
        let rest: u64 = (len - pos - BLOCK_SIZE) as u64;
        if size > rest {
            return Err(ArchiverError::Io(IoError::UnexpectedEof));
        }
        let skip: u64 = size + padding_for(size);
        if skip > rest {
            return Err(ArchiverError::Io(IoError::UnexpectedEof));
        }
        let start: usize = pos + BLOCK_SIZE;
        let data: Vec<u8> = slice_to_vec(slice_subrange(archive, start, start + size as usize));
        let ghost file = FileData { name: header.name@, data: data@ };
        let ghost next = start + skip;
        files.push(ExtractedFile { name: header.name, data });
        proof {
            assert(files.deep_view() =~= done.push(file));
            assert(occupied.deep_view() + file_names(files.deep_view()) =~= taken.push(file.name));
            match files_from(archive@, next, overwrite, taken.push(file.name)) {
                Extraction::Files(tail) => {
                    assert(done + (seq![file] + tail) =~= done.push(file) + tail);
                },
                _ => {},
            }
        }
        pos = start + skip as usize;
    }
}

impl ArchiveExtractor {
    /// An extractor behind `validator` that overwrites nothing.
    pub fn new(validator: ArchiveValidator) -> (r: Self)
        ensures
            r.allowed() == validator@,
            !r.overwrites(),
    {
        Self { validator, overwrite: false }
    }

    /// The allowed extensions of the validator that guards this extractor.
    pub closed spec fn allowed(&self) -> Seq<Seq<char>> {
        self.validator@
    }

    /// Whether a file whose place is taken is extracted all the same.
    pub closed spec fn overwrites(&self) -> bool {
        self.overwrite
    }

    /// Turns overwriting on or off.
    pub fn _set_overwrite(&mut self, overwrite: bool) -> (r: &mut Self)
        ensures
            r.overwrites() == overwrite,
            r.allowed() == old(self).allowed(),
            *final(self) == *final(r),
    {
        self.overwrite = overwrite;
        self
    }

    /// Extracts the archive `archive`, whose file is called `file_name`,
    /// once it has passed validation. `occupied` holds the entry names whose
    /// target exists already.
    pub fn extract(&self, file_name: &str, archive: &[u8], occupied: &Vec<String>) -> (r: Result<
        Vec<ExtractedFile>,
        ArchiverError,
    >)
        ensures
            extract_outcome(
                self.allowed(),
                self.overwrites(),
                file_name@,
                archive@,
                occupied.deep_view(),
                r,
            ),
    {
        match self.validator.validate(file_name, archive) {
            Err(e) => Err(ArchiverError::Validation(e)),
            Ok(()) => extract_entries(archive, self.overwrite, occupied),
        }
    }
}

} // verus!
