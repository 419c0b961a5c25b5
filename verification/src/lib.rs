//! A tape-archive codec: 512-byte headers with octal fields and a checksum,
//! payloads padded to whole blocks, and a two-block zero end marker.
//!
//! Everything here works on bytes in memory. Reading and writing files is
//! left to the caller.

pub mod block;
pub mod header;
pub mod validation;
pub mod archive;
pub mod plain;
