//! Reading a header block.

use super::constants::{
    BLOCK_SIZE, GID_LEN, GID_OFFSET, MODE_LEN, MODE_OFFSET, MTIME_LEN, MTIME_OFFSET, NAME_LEN,
    NAME_OFFSET, SIZE_LEN, SIZE_OFFSET, UID_LEN, UID_OFFSET,
};
use super::error::HeaderError;
use super::octal::{decode_octal, field_value};
use super::text::{trim_nul_end, trimmed_len, utf8_text};
use super::{HeaderData, ParsedHeader};
use vstd::prelude::*;
use vstd::slice::slice_subrange;
use vstd::utf8::{decode_utf8, valid_utf8};

verus! {

/// Reads header blocks.
pub struct HeaderParser;

/// The `len` bytes of `block` from `offset` on.
pub open spec fn field(block: Seq<u8>, offset: usize, len: usize) -> Seq<u8> {
    block.subrange(offset as int, offset + len)
}

/// The name that a header block holds: its name field without the NUL
/// padding, read as UTF-8.
pub open spec fn name_value(block: Seq<u8>) -> Result<Seq<char>, HeaderError> {
    let text = trim_nul_end(field(block, NAME_OFFSET, NAME_LEN));
    if valid_utf8(text) {
        Ok(decode_utf8(text))
    } else {
        Err(HeaderError::Utf8Conversion)
    }
}

/// The size that a header block declares.
pub open spec fn size_value(block: Seq<u8>) -> Result<u64, HeaderError> {
    field_value(field(block, SIZE_OFFSET, SIZE_LEN))
}

/// What a header block decodes to. The fields are read in the order name,
/// mode, uid, gid, size, mtime, and the first that cannot be read gives the
/// error. Neither magic nor checksum are looked at.
pub open spec fn parse_result(block: Seq<u8>) -> Result<HeaderData, HeaderError> {
    match name_value(block) {
        Err(e) => Err(e),
        Ok(name) => match field_value(field(block, MODE_OFFSET, MODE_LEN)) {
            Err(e) => Err(e),
            Ok(mode) => match field_value(field(block, UID_OFFSET, UID_LEN)) {
                Err(e) => Err(e),
                Ok(uid) => match field_value(field(block, GID_OFFSET, GID_LEN)) {
                    Err(e) => Err(e),
                    Ok(gid) => match size_value(block) {
                        Err(e) => Err(e),
                        Ok(size) => match field_value(field(block, MTIME_OFFSET, MTIME_LEN)) {
                            Err(e) => Err(e),
                            Ok(mtime) => Ok(HeaderData { name, size, mode, uid, gid, mtime }),
                        },
                    },
                },
            },
        },
    }
}

/// Reads the numeric field of `len` bytes at `offset`.
fn read_field(header: &[u8], offset: usize, len: usize) -> (r: Result<u64, HeaderError>)
    requires
        header@.len() == BLOCK_SIZE,
        offset + len <= BLOCK_SIZE,
    ensures
        r == field_value(field(header@, offset, len)),
{
    decode_octal(slice_subrange(header, offset, offset + len))
}

impl HeaderParser {
    /// Decodes a header block.
    pub fn parse(header: &[u8]) -> (r: Result<ParsedHeader, HeaderError>)
        requires
            header@.len() == BLOCK_SIZE,
        ensures
            match r {
                Ok(h) => parse_result(header@) == Ok::<_, HeaderError>(h@),
                Err(e) => parse_result(header@) == Err::<HeaderData, _>(e),
            },
    {
        let name_field = slice_subrange(header, NAME_OFFSET, NAME_OFFSET + NAME_LEN);
        let n: usize = trimmed_len(name_field);
        let name = match utf8_text(slice_subrange(name_field, 0, n)) {
            None => {
                return Err(HeaderError::Utf8Conversion);
            },
            Some(text) => {
                proof {
                    vstd::utf8::encode_utf8_decode_utf8(text@);
                }
                text.to_owned()
            },
        };
        let mode = match read_field(header, MODE_OFFSET, MODE_LEN) {
            Err(e) => {
                return Err(e);
            },
            Ok(v) => v,
        };
        let uid = match read_field(header, UID_OFFSET, UID_LEN) {
            Err(e) => {
                return Err(e);
            },
            Ok(v) => v,
        };
        let gid = match read_field(header, GID_OFFSET, GID_LEN) {
            Err(e) => {
                return Err(e);
            },
            Ok(v) => v,
        };
        let size = match read_field(header, SIZE_OFFSET, SIZE_LEN) {
            Err(e) => {
                return Err(e);
            },
            Ok(v) => v,
        };
        let mtime = match read_field(header, MTIME_OFFSET, MTIME_LEN) {
            Err(e) => {
                return Err(e);
            },
            Ok(v) => v,
        };
        Ok(ParsedHeader { name, size, mode, gid, uid, mtime })
    }

    /// The size that a header block declares, without reading the rest.
    pub fn parse_size(header: &[u8]) -> (r: Result<u64, HeaderError>)
        requires
            header@.len() == BLOCK_SIZE,
        ensures
            r == size_value(header@),
    {
        read_field(header, SIZE_OFFSET, SIZE_LEN)
    }

    /// Reads a numeric field: an octal numeral, once the NUL padding at the
    /// end and the white space around it are gone.
    pub fn read_octal(src: &[u8]) -> (r: Result<u64, HeaderError>)
        ensures
            r == field_value(src@),
    {
        decode_octal(src)
    }
}

} // verus!
