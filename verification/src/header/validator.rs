//! Checking a header block before it is trusted.

use super::constants::{
    ustar_magic, ustar_version, BLOCK_SIZE, CHECKSUM_LEN, CHECKSUM_OFFSET, MAGIC_LEN,
    MAGIC_OFFSET, SPACE, VERSION_LEN, VERSION_OFFSET,
};
use super::error::HeaderError;
use super::layout::{
    block_checksum, checksum_of, declared_checksum, octal_value, trim_terminators,
};
use super::octal::{is_octal_digit, pow8};
use super::parser::field;
use vstd::prelude::*;

verus! {

/// Checks header blocks.
pub struct HeaderValidator;

/// Whether magic and version of a header block are those of the format.
pub open spec fn magic_ok(block: Seq<u8>) -> bool {
    &&& field(block, MAGIC_OFFSET, MAGIC_LEN) == ustar_magic()
    &&& field(block, VERSION_OFFSET, VERSION_LEN) == ustar_version()
}

/// Whether the checksum field of a header block declares the block's checksum.
pub open spec fn checksum_ok(block: Seq<u8>) -> bool {
    declared_checksum(field(block, CHECKSUM_OFFSET, CHECKSUM_LEN)) == Some(block_checksum(block))
}

/// The verdict on a block's checksum.
pub open spec fn checksum_result(block: Seq<u8>) -> Result<(), HeaderError> {
    if checksum_ok(block) {
        Ok(())
    } else {
        Err(HeaderError::ChecksumMismatch)
    }
}

/// The verdict on a header block: magic and version first, then the checksum.
pub open spec fn validation_result(block: Seq<u8>) -> Result<(), HeaderError> {
    if !magic_ok(block) {
        Err(HeaderError::InvalidHeaderFormat)
    } else {
        checksum_result(block)
    }
}

/// The checksum that the field `src` declares.
fn read_checksum(src: &[u8]) -> (declared: Option<u32>)
    requires
        src@.len() == CHECKSUM_LEN,
    ensures
        match declared {
            Some(v) => declared_checksum(src@) == Some(v as nat),
            None => declared_checksum(src@) is None,
        },
{
    let mut n: usize = src.len();
    assert(src@.subrange(0, n as int) =~= src@);
    while n > 0 && (src[n - 1] == 0 || src[n - 1] == SPACE)
        invariant
            n <= src@.len(),
            trim_terminators(src@.subrange(0, n as int)) == trim_terminators(src@),
        decreases n,
    {
        assert(src@.subrange(0, n as int).drop_last() =~= src@.subrange(0, n - 1));
        n = n - 1;
    }
    let ghost digits = src@.subrange(0, n as int);
    assert(trim_terminators(src@) == digits);
    if n == 0 {
        return None;
    }
    let mut value: u32 = 0;
    let mut i: usize = 0;
    while i < n
        invariant
            i <= n <= src@.len() == CHECKSUM_LEN,
            digits == src@.subrange(0, n as int),
            digits == trim_terminators(src@),
            forall|j: int| 0 <= j < i ==> is_octal_digit(digits[j]),
            value == octal_value(digits.subrange(0, i as int)),
            value < pow8(i as nat),
        decreases n - i,
    {
        let c: u8 = src[i];
        if c < 0x30 || c > 0x37 {
            assert(!is_octal_digit(digits[i as int]));
            return None;
        }
        assert(digits.subrange(0, i + 1).drop_last() =~= digits.subrange(0, i as int));
        proof {
            reveal_with_fuel(pow8, 9);
        }
        value = value * 8 + (c - 0x30) as u32;
        i = i + 1;
    }
    assert(digits.subrange(0, n as int) =~= digits);
    Some(value)
}

impl HeaderValidator {
    /// Checks magic, version and checksum of a header block.
    pub fn validate(header: &[u8]) -> (r: Result<(), HeaderError>)
        requires
            header@.len() == BLOCK_SIZE,
        ensures
            r == validation_result(header@),
    {
        match Self::validate_magic(header) {
            Err(e) => Err(e),
            Ok(()) => Self::validate_checksum(header),
        }
    }

    fn validate_magic(header: &[u8]) -> (r: Result<(), HeaderError>)
        requires
            header@.len() == BLOCK_SIZE,
        ensures
            r == (if magic_ok(header@) {
                Ok::<(), HeaderError>(())
            } else {
                Err(HeaderError::InvalidHeaderFormat)
            }),
    {
        let ghost magic = field(header@, MAGIC_OFFSET, MAGIC_LEN);
        let ghost version = field(header@, VERSION_OFFSET, VERSION_LEN);
        let same: bool = header[MAGIC_OFFSET] == 0x75 && header[MAGIC_OFFSET + 1] == 0x73
            && header[MAGIC_OFFSET + 2] == 0x74 && header[MAGIC_OFFSET + 3] == 0x61
            && header[MAGIC_OFFSET + 4] == 0x72 && header[MAGIC_OFFSET + 5] == 0
            && header[VERSION_OFFSET] == 0x30 && header[VERSION_OFFSET + 1] == 0x30;
        proof {
            assert(magic[0] == header@[257] && magic[1] == header@[258] && magic[2] == header@[259]
                && magic[3] == header@[260] && magic[4] == header@[261] && magic[5]
                == header@[262]);
            assert(version[0] == header@[263] && version[1] == header@[264]);
            if same {
                assert(magic =~= ustar_magic());
                assert(version =~= ustar_version());
            }
        }
        if same {
            Ok(())
        } else {
            Err(HeaderError::InvalidHeaderFormat)
        }
    }

    /// Checks that the checksum field declares the block's checksum: the sum
    /// of its bytes with the checksum field itself counted as spaces.
    pub fn validate_checksum(header: &[u8]) -> (r: Result<(), HeaderError>)
        requires
            header@.len() == BLOCK_SIZE,
        ensures
            r == checksum_result(header@),
    {
        let declared = read_checksum(
            vstd::slice::slice_subrange(header, CHECKSUM_OFFSET, CHECKSUM_OFFSET + CHECKSUM_LEN),
        );
        let actual: u32 = checksum_of(header);
        match declared {
            Some(v) => {
                if v == actual {
                    Ok(())
                } else {
                    Err(HeaderError::ChecksumMismatch)
                }
            },
            None => Err(HeaderError::ChecksumMismatch),
        }
    }
}

} // verus!
