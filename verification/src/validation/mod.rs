//! The checks that an archive passes before it is read or extended.

use vstd::prelude::*;

pub mod error;
pub mod extension;
pub mod laws;
pub mod structure;

pub use error::{StructureError, ValidationError};
pub use extension::ExtensionValidator;
pub use structure::ArchiveStructureValidator;

use extension::extension_allowed;
use structure::structure_result;

verus! {

/// The two checks together, with the allowed extensions as its only setting.
/// It holds no state: one validator serves any number of archives.
pub struct ArchiveValidator {
    ext_validator: ExtensionValidator,
}

impl View for ArchiveValidator {
    type V = Seq<Seq<char>>;

    /// The allowed extensions.
    closed spec fn view(&self) -> Seq<Seq<char>> {
        self.ext_validator@
    }
}

impl Clone for ArchiveValidator {
    fn clone(&self) -> (copy: Self)
        ensures
            copy@ == self@,
    {
        ArchiveValidator { ext_validator: self.ext_validator.clone() }
    }
}

/// The verdict on an archive called `name` when `allowed` are the allowed
/// extensions: the name is looked at first, the bytes only if it passes.
pub open spec fn validation_outcome(
    allowed: Seq<Seq<char>>,
    name: Seq<char>,
    archive: Seq<u8>,
    r: Result<(), ValidationError>,
) -> bool {
    if extension_allowed(allowed, name) {
        r == structure_result(archive)
    } else {
        r matches Err(ValidationError::InvalidExtension(ext)) && ext@ == extension::lowercase_of(
            extension::extension_of(name),
        )
    }
}

impl ArchiveValidator {
    /// A validator that allows the extensions `allowed_extensions`.
    pub fn new(allowed_extensions: Vec<String>) -> (r: Self)
        ensures
            r@ == allowed_extensions.deep_view(),
    {
        Self { ext_validator: ExtensionValidator::new(allowed_extensions) }
    }

    /// Checks the extension of the archive's file name.
    pub fn validate_extension(&self, file_name: &str) -> (r: Result<(), ValidationError>)
        ensures
            r is Ok <==> extension_allowed(self@, file_name@),
            r matches Err(e) ==> (e matches ValidationError::InvalidExtension(ext) && ext@
                == extension::lowercase_of(extension::extension_of(file_name@))),
    {
        self.ext_validator.validate(file_name)
    }

    /// Checks the layout of the archive's bytes.
    pub fn validate_structure(&self, archive: &[u8]) -> (r: Result<(), ValidationError>)
        ensures
            r == structure_result(archive@),
    {
        ArchiveStructureValidator::validate(archive)
    }

    /// Checks the name, then the bytes.
    pub fn validate(&self, file_name: &str, archive: &[u8]) -> (r: Result<(), ValidationError>)
        ensures
            validation_outcome(self@, file_name@, archive@, r),
    {
        match self.ext_validator.validate(file_name) {
            Err(e) => Err(e),
            Ok(()) => ArchiveStructureValidator::validate(archive),
        }
    }
}

} // verus!
