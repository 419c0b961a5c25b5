//! The operations on whole archives: build, list, extract, append.

use crate::header::FileMetadata;
use crate::validation::extension::{extension_allowed, extension_of, lowercase_of};
use crate::validation::{ArchiveValidator, ValidationError};
use vstd::prelude::*;

pub mod appender;
pub mod builder;
pub mod error;
pub mod extractor;
pub mod laws;
pub mod lister;

pub use appender::ArchiveAppender;
pub use builder::ArchiveBuilder;
pub use error::ArchiverError;
pub use extractor::{ArchiveExtractor, ExtractedFile};
pub use lister::{ArchiveEntry, ArchiveLister};

use appender::append_outcome;
use builder::{archive_of, first_refused, header_refusal};
use extractor::extract_outcome;
use lister::list_outcome;

verus! {

/// A file that goes into an archive, as read by the caller.
#[derive(Debug, PartialEq, Eq)]
pub struct FileInput {
    /// The path the file was read from, as text.
    pub path: String,
    /// The last component of the path, or `None` where the path has none or
    /// none that is text.
    pub file_name: Option<String>,
    pub metadata: FileMetadata,
    /// The bytes of the file.
    pub data: Vec<u8>,
}

/// The four operations under one validator: each archive is held to the same
/// allowed extensions, and extraction overwrites nothing.
pub struct Archiver {
    builder: ArchiveBuilder,
    extractor: ArchiveExtractor,
    lister: ArchiveLister,
    appender: ArchiveAppender,
    validator: ArchiveValidator,
}

/// Whether `r` is what creating an archive called `name` from `files` owes:
/// the name must have an allowed extension, and then the archive is built.
pub open spec fn create_outcome(
    allowed: Seq<Seq<char>>,
    name: Seq<char>,
    files: Seq<FileInput>,
    r: Result<Vec<u8>, ArchiverError>,
) -> bool {
    if !extension_allowed(allowed, name) {
        r matches Err(ArchiverError::Validation(ValidationError::InvalidExtension(ext))) && ext@
            == lowercase_of(extension_of(name))
    } else if first_refused(files) == files.len() {
        r matches Ok(archive) && archive@ == archive_of(files)
    } else {
        r matches Err(ArchiverError::HeaderError(h)) && header_refusal(
            files[first_refused(files)],
            h,
        )
    }
}

impl Archiver {
    /// The parts all answer to the one list of allowed extensions.
    #[verifier::type_invariant]
    spec fn parts_agree(self) -> bool {
        &&& self.extractor.allowed() == self.validator@
        &&& self.lister.allowed() == self.validator@
        &&& self.appender.allowed() == self.validator@
        &&& !self.extractor.overwrites()
    }

    /// The allowed extensions.
    pub closed spec fn allowed(&self) -> Seq<Seq<char>> {
        self.validator@
    }

    /// An archiver for archives whose names end in one of `allowed_extensions`.
    pub fn new(allowed_extensions: Vec<String>) -> (r: Self)
        ensures
            r.allowed() == allowed_extensions.deep_view(),
    {
        let validator = ArchiveValidator::new(allowed_extensions);
        Self {
            builder: ArchiveBuilder::new(),
            extractor: ArchiveExtractor::new(validator.clone()),
            lister: ArchiveLister::new(validator.clone()),
            appender: ArchiveAppender::new(validator.clone()),
            validator,
        }
    }

    /// The bytes of a new archive that is to be called `file_name` and to
    /// hold `files`.
    pub fn create(&self, file_name: &str, files: &Vec<FileInput>) -> (r: Result<
        Vec<u8>,
        ArchiverError,
    >)
        ensures
            create_outcome(self.allowed(), file_name@, files@, r),
    {
        match self.validator.validate_extension(file_name) {
            Err(e) => Err(ArchiverError::Validation(e)),
            Ok(()) => self.builder.build(files),
        }
    }

    /// The files of the archive `archive`, called `file_name`. `occupied`
    /// holds the entry names whose target exists already: none of them is
    /// extracted, and the first that is met ends the work.
    pub fn extract(&self, file_name: &str, archive: &[u8], occupied: &Vec<String>) -> (r: Result<
        Vec<ExtractedFile>,
        ArchiverError,
    >)
        ensures
            extract_outcome(
                self.allowed(),
                false,
                file_name@,
                archive@,
                occupied.deep_view(),
                r,
            ),
    {
        proof {
            use_type_invariant(self);
        }
        self.extractor.extract(file_name, archive, occupied)
    }

    /// The entries of the archive `archive`, called `file_name`.
    pub fn list(&self, file_name: &str, archive: &[u8]) -> (r: Result<
        Vec<ArchiveEntry>,
        ArchiverError,
    >)
        ensures
            list_outcome(self.allowed(), file_name@, archive@, r),
    {
        proof {
            use_type_invariant(self);
        }
        self.lister.list(file_name, archive)
    }

    /// Appends `files` to the archive `archive`, called `file_name`.
    pub fn append(&self, file_name: &str, archive: &mut Vec<u8>, files: &Vec<FileInput>) -> (r:
        Result<(), ArchiverError>)
        ensures
            append_outcome(self.allowed(), file_name@, old(archive)@, files@, final(archive)@, r),
    {
        proof {
            use_type_invariant(self);
        }
        self.appender.append(file_name, archive, files)
    }
}

} // verus!
