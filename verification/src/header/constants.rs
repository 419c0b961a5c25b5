//! Where each field lies in a header block.

use vstd::prelude::*;

verus! {

/// Size of a block. Headers are one block; payloads are padded to whole blocks.
pub const BLOCK_SIZE: usize = 512;

/// Number of zero blocks that end an archive.
pub const END_MARKER_BLOCKS: usize = 2;

/// Length of the end marker in bytes.
pub const END_MARKER_SIZE: usize = 1024;

pub const NAME_OFFSET: usize = 0;

pub const NAME_LEN: usize = 100;

pub const MODE_OFFSET: usize = 100;

pub const MODE_LEN: usize = 8;

pub const UID_OFFSET: usize = 108;

pub const UID_LEN: usize = 8;

pub const GID_OFFSET: usize = 116;

pub const GID_LEN: usize = 8;

pub const SIZE_OFFSET: usize = 124;

pub const SIZE_LEN: usize = 12;

pub const MTIME_OFFSET: usize = 136;

pub const MTIME_LEN: usize = 12;

pub const CHECKSUM_OFFSET: usize = 148;

pub const CHECKSUM_LEN: usize = 8;

/// Number of octal digits written into the checksum field.
pub const CHECKSUM_DIGITS: usize = 6;

pub const TYPEFLAG_OFFSET: usize = 156;

pub const MAGIC_OFFSET: usize = 257;

pub const MAGIC_LEN: usize = 6;

pub const VERSION_OFFSET: usize = 263;

pub const VERSION_LEN: usize = 2;

/// The largest number that the mode, uid and gid fields hold: seven octal digits.
pub const SHORT_FIELD_MAX: u64 = 0o7777777;

/// The largest number that the size and mtime fields hold: eleven octal digits.
pub const LONG_FIELD_MAX: u64 = 0o77777777777;

/// Type flag of a regular file, the only kind of entry written.
pub const TYPEFLAG_REGULAR: u8 = 0x30;

/// The byte that blanks the checksum field while the checksum is taken.
pub const SPACE: u8 = 0x20;

/// The format's magic, `ustar` and a NUL.
pub open spec fn ustar_magic() -> Seq<u8> {
    seq![0x75u8, 0x73u8, 0x74u8, 0x61u8, 0x72u8, 0x00u8]
}

/// The format's version, two ASCII zeros.
pub open spec fn ustar_version() -> Seq<u8> {
    seq![0x30u8, 0x30u8]
}

} // verus!
