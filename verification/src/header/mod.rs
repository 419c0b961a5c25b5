//! The header block of one archived file: its layout, how it is written,
//! read and checked.

use vstd::prelude::*;

pub mod builder;
pub mod constants;
pub mod error;
pub mod laws;
pub mod layout;
pub mod octal;
pub mod parser;
pub mod text;
pub mod validator;

pub use builder::HeaderBuilder;
pub use error::{HeaderError, IntErrorKind, IoError};
pub use parser::HeaderParser;
pub use validator::HeaderValidator;

verus! {

/// What the file system knows of a file that goes into an archive.
#[derive(Debug, Clone, Copy, PartialEq, Eq)]
pub struct FileMetadata {
    /// Permission bits.
    pub mode: u64,
    pub uid: u64,
    pub gid: u64,
    /// Length of the file in bytes.
    pub size: u64,
    /// Time of the last change, in seconds since the epoch.
    pub mtime: u64,
}

/// A header block, decoded.
#[derive(Debug, PartialEq, Eq)]
pub struct ParsedHeader {
    pub name: String,
    pub size: u64,
    pub mode: u64,
    pub uid: u64,
    pub gid: u64,
    pub mtime: u64,
}

/// What a header says of its file, as a mathematical value.
pub struct HeaderData {
    pub name: Seq<char>,
    pub size: u64,
    pub mode: u64,
    pub uid: u64,
    pub gid: u64,
    pub mtime: u64,
}

impl View for ParsedHeader {
    type V = HeaderData;

    open spec fn view(&self) -> HeaderData {
        HeaderData {
            name: self.name@,
            size: self.size,
            mode: self.mode,
            uid: self.uid,
            gid: self.gid,
            mtime: self.mtime,
        }
    }
}

/// The header data of a file called `name` with the metadata `m`.
pub open spec fn header_data(name: Seq<char>, m: FileMetadata) -> HeaderData {
    HeaderData { name, size: m.size, mode: m.mode, uid: m.uid, gid: m.gid, mtime: m.mtime }
}

} // verus!
