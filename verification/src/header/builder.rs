//! Writing a header block.

use super::constants::{
    BLOCK_SIZE, CHECKSUM_DIGITS, CHECKSUM_OFFSET, GID_LEN, GID_OFFSET, MAGIC_OFFSET, MODE_LEN,
    MODE_OFFSET, MTIME_LEN, MTIME_OFFSET, NAME_LEN, NAME_OFFSET, SIZE_LEN, SIZE_OFFSET, SPACE,
    TYPEFLAG_OFFSET, TYPEFLAG_REGULAR, UID_LEN, UID_OFFSET, VERSION_OFFSET,
};
use super::error::{HeaderError, IntErrorKind};
use super::layout::{
    checksum_of, fields_fit, header_block, lemma_checksum_fits, lemma_fields_fit_their_digits,
    name_ok, unsummed_block, SEPARATOR,
};
use super::octal::{encode_octal, lemma_octal_digits_len, octal_digits, octal_fits};
use super::laws::law_build_round_trip;
use super::parser::parse_result;
use super::validator::validation_result;
use super::{header_data, FileMetadata, HeaderData};
use vstd::prelude::*;
use vstd::utf8::encode_utf8;

verus! {

/// Writes header blocks.
pub struct HeaderBuilder;

/// Whether a header can hold `name` and give it back.
fn name_is_ok(name: &[u8]) -> (ok: bool)
    ensures
        ok == name_ok(name@),
{
    let len: usize = name.len();
    if len == 0 || len > NAME_LEN || name[len - 1] == 0 {
        return false;
    }
    let mut i: usize = 0;
    while i < len
        invariant
            i <= len == name@.len(),
            forall|j: int| 0 <= j < i ==> name@[j] != SEPARATOR,
        decreases len - i,
    {
        if name[i] == SEPARATOR {
            return false;
        }
        i = i + 1;
    }
    true
}

/// Copies `bytes` into `block` at `offset`.
fn put_bytes(block: &mut [u8; BLOCK_SIZE], offset: usize, bytes: &[u8])
    requires
        offset + bytes@.len() <= BLOCK_SIZE,
    ensures
        forall|i: int|
            0 <= i < BLOCK_SIZE ==> #[trigger] final(block)@[i] == (if offset <= i < offset
                + bytes@.len() {
                bytes@[i - offset]
            } else {
                old(block)@[i]
            }),
{
    let mut k: usize = 0;
    while k < bytes.len()
        invariant
            k <= bytes@.len(),
            offset + bytes@.len() <= BLOCK_SIZE,
            forall|i: int|
                0 <= i < BLOCK_SIZE ==> #[trigger] block@[i] == (if offset <= i < offset + k {
                    bytes@[i - offset]
                } else {
                    old(block)@[i]
                }),
        decreases bytes@.len() - k,
    {
        block[offset + k] = bytes[k];
        k = k + 1;
    }
}

impl HeaderBuilder {
    /// The header for the file at `path`, whose final component is
    /// `file_name`: `None` where the path has none, or none that is text.
    pub fn build_from_path(path: &str, file_name: Option<&str>, metadata: &FileMetadata) -> (r:
        Result<[u8; BLOCK_SIZE], HeaderError>)
        ensures
            file_name is None ==> (r matches Err(HeaderError::InvalidFileName(n)) && n@ == path@),
            file_name matches Some(name) ==> build_outcome(name@, *metadata, r),
    {
        match file_name {
            None => Err(HeaderError::InvalidFileName(path.to_owned())),
            Some(name) => Self::build(name, metadata),
        }
    }

    /// The header for a file called `name`. A name that no header can hold is
    /// refused; so is a number that does not fit its field. The header that
    /// is built passes validation, and decodes to `name` and `metadata`.
    pub fn build(name: &str, metadata: &FileMetadata) -> (r: Result<
        [u8; BLOCK_SIZE],
        HeaderError,
    >)
        ensures
            build_outcome(name@, *metadata, r),
            r matches Ok(block) ==> validation_result(block@) == Ok::<(), HeaderError>(()),
            r matches Ok(block) ==> parse_result(block@) == Ok::<HeaderData, HeaderError>(
                header_data(name@, *metadata),
            ),
    {
        let name_bytes = name.as_bytes();
        if !name_is_ok(name_bytes) {
            return Err(HeaderError::InvalidFileName(name.to_owned()));
        }
        let mode = encode_octal(metadata.mode, MODE_LEN - 1);
        let uid = encode_octal(metadata.uid, UID_LEN - 1);
        let gid = encode_octal(metadata.gid, GID_LEN - 1);
        let size = encode_octal(metadata.size, SIZE_LEN - 1);
        let mtime = encode_octal(metadata.mtime, MTIME_LEN - 1);
        proof {
            lemma_fields_fit_their_digits(*metadata);
        }
        match (mode, uid, gid, size, mtime) {
            (Some(mode), Some(uid), Some(gid), Some(size), Some(mtime)) => {
                let ghost m = *metadata;
                let ghost raw = unsummed_block(name_bytes@, m);
                proof {
                    lemma_octal_digits_len(m.mode as nat, (MODE_LEN - 1) as nat);
                    lemma_octal_digits_len(m.uid as nat, (UID_LEN - 1) as nat);
                    lemma_octal_digits_len(m.gid as nat, (GID_LEN - 1) as nat);
                    lemma_octal_digits_len(m.size as nat, (SIZE_LEN - 1) as nat);
                    lemma_octal_digits_len(m.mtime as nat, (MTIME_LEN - 1) as nat);
                }
                let mut header: [u8; BLOCK_SIZE] = [0u8; BLOCK_SIZE];
                put_bytes(&mut header, NAME_OFFSET, name_bytes);
                put_bytes(&mut header, MODE_OFFSET, mode.as_slice());
                put_bytes(&mut header, UID_OFFSET, uid.as_slice());
                put_bytes(&mut header, GID_OFFSET, gid.as_slice());
                put_bytes(&mut header, SIZE_OFFSET, size.as_slice());
                put_bytes(&mut header, MTIME_OFFSET, mtime.as_slice());
                header[TYPEFLAG_OFFSET] = TYPEFLAG_REGULAR;
                header[MAGIC_OFFSET] = 0x75;
                header[MAGIC_OFFSET + 1] = 0x73;
                header[MAGIC_OFFSET + 2] = 0x74;
                header[MAGIC_OFFSET + 3] = 0x61;
                header[MAGIC_OFFSET + 4] = 0x72;
                header[VERSION_OFFSET] = 0x30;
                header[VERSION_OFFSET + 1] = 0x30;
                assert forall|i: int|
                    0 <= i < BLOCK_SIZE && !(CHECKSUM_OFFSET <= i
                        < TYPEFLAG_OFFSET) implies #[trigger] header@[i] == raw[i] by {}
                assert(header@.subrange(0, CHECKSUM_OFFSET as int) =~= raw.subrange(
                    0,
                    CHECKSUM_OFFSET as int,
                ));
                assert(header@.subrange(TYPEFLAG_OFFSET as int, BLOCK_SIZE as int)
                    =~= raw.subrange(TYPEFLAG_OFFSET as int, BLOCK_SIZE as int));
                let sum: u32 = checksum_of(header.as_slice());
                proof {
                    lemma_checksum_fits(raw);
                    lemma_octal_digits_len(sum as nat, CHECKSUM_DIGITS as nat);
                }
                match encode_octal(sum as u64, CHECKSUM_DIGITS) {
                    Some(digits) => {
                        put_bytes(&mut header, CHECKSUM_OFFSET, digits.as_slice());
                        header[CHECKSUM_OFFSET + CHECKSUM_DIGITS + 1] = SPACE;
                        assert(header@ =~= header_block(name_bytes@, m));
                        proof {
                            law_build_round_trip(name@, m);
                        }
                        Ok(header)
                    },
                    None => Err(HeaderError::IntConversion(IntErrorKind::PosOverflow)),
                }
            },
            _ => Err(HeaderError::IntConversion(IntErrorKind::PosOverflow)),
        }
    }

    /// Writes `value` into the first `len` bytes of `dst`: `len - 1` octal
    /// digits, padded with zeros on the left, and a NUL. A value with more
    /// digits than that is refused, and `dst` stays as it was.
    pub fn write_octal(dst: &mut [u8], value: u64, len: usize) -> (r: Result<(), HeaderError>)
        requires
            1 <= len <= old(dst)@.len(),
        ensures
            r is Ok <==> octal_fits(value as nat, (len - 1) as nat),
            r is Ok ==> final(dst)@ == octal_digits(value as nat, (len - 1) as nat).push(0u8)
                + old(dst)@.skip(len as int),
            r is Err ==> r == Err::<(), _>(HeaderError::IntConversion(IntErrorKind::PosOverflow))
                && final(dst)@ == old(dst)@,
    {
        match encode_octal(value, len - 1) {
            None => Err(HeaderError::IntConversion(IntErrorKind::PosOverflow)),
            Some(digits) => {
                proof {
                    lemma_octal_digits_len(value as nat, (len - 1) as nat);
                }
                let mut k: usize = 0;
                while k < len - 1
                    invariant
                        k <= len - 1,
                        digits@.len() == len - 1,
                        len <= dst@.len() == old(dst)@.len(),
                        forall|i: int|
                            0 <= i < dst@.len() ==> #[trigger] dst@[i] == (if i < k {
                                digits@[i]
                            } else {
                                old(dst)@[i]
                            }),
                    decreases len - 1 - k,
                {
                    dst[k] = digits[k];
                    k = k + 1;
                }
                dst[len - 1] = 0;
                assert(dst@ =~= digits@.push(0u8) + old(dst)@.skip(len as int));
                Ok(())
            },
        }
    }
}

/// What [`HeaderBuilder::build`] owes for a file called `name` with the
/// metadata `m`: the header block, or the reason why there is none.
pub open spec fn build_outcome(
    name: Seq<char>,
    m: FileMetadata,
    r: Result<[u8; BLOCK_SIZE], HeaderError>,
) -> bool {
    let bytes = encode_utf8(name);
    if !name_ok(bytes) {
        r matches Err(HeaderError::InvalidFileName(n)) && n@ == name
    } else if !fields_fit(m) {
        r == Err::<[u8; BLOCK_SIZE], _>(HeaderError::IntConversion(IntErrorKind::PosOverflow))
    } else {
        r matches Ok(block) && block@ == header_block(bytes, m)
    }
}

} // verus!
