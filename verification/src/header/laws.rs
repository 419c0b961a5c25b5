//! What holds of building, reading and checking headers together.

use super::constants::{
    ustar_magic, ustar_version, BLOCK_SIZE, CHECKSUM_DIGITS, CHECKSUM_LEN, CHECKSUM_OFFSET,
    GID_LEN, GID_OFFSET, MAGIC_LEN, MAGIC_OFFSET, MODE_LEN, MODE_OFFSET, MTIME_LEN, MTIME_OFFSET,
    NAME_LEN, NAME_OFFSET, SIZE_LEN, SIZE_OFFSET, UID_LEN, UID_OFFSET, VERSION_LEN,
    VERSION_OFFSET,
};
use super::error::HeaderError;
use super::layout::{
    block_checksum, checksum_field, fields_fit, header_block, lemma_byte_sum_update,
    lemma_checksum_fits, lemma_declared_checksum_round_trip, lemma_fields_fit_their_digits,
    name_ok, unsummed_block,
};
use super::octal::{lemma_field_round_trip, lemma_octal_digits_len, octal_field};
use super::parser::{field, name_value, parse_result};
use super::text::trim_nul_end;
use super::validator::{checksum_ok, checksum_result, magic_ok, validation_result};
use super::{header_data, FileMetadata, HeaderData};
use vstd::prelude::*;
use vstd::utf8::encode_utf8;

verus! {

/// Text that does not end in NUL loses exactly its NUL padding when trimmed.
pub proof fn lemma_trim_nul_padding(text: Seq<u8>, padded: Seq<u8>)
    requires
        text.len() <= padded.len(),
        padded.subrange(0, text.len() as int) == text,
        forall|i: int| text.len() <= i < padded.len() ==> padded[i] == 0,
        text.len() > 0 ==> text.last() != 0,
    ensures
        trim_nul_end(padded) == text,
    decreases padded.len(),
{
    if padded.len() == text.len() {
        assert(padded =~= text);
    } else {
        let shorter = padded.drop_last();
        assert(shorter.subrange(0, text.len() as int) =~= text);
        lemma_trim_nul_padding(text, shorter);
    }
}

/// Round trip. A header built for a name that a header can hold, with
/// numbers that fit their fields, passes validation and decodes to that name
/// and those numbers.
pub proof fn law_build_round_trip(name: Seq<char>, m: FileMetadata)
    requires
        name_ok(encode_utf8(name)),
        fields_fit(m),
    ensures
        parse_result(header_block(encode_utf8(name), m)) == Ok::<HeaderData, HeaderError>(
            header_data(name, m),
        ),
        validation_result(header_block(encode_utf8(name), m)) == Ok::<(), HeaderError>(()),
{
    let bytes = encode_utf8(name);
    let raw = unsummed_block(bytes, m);
    let block = header_block(bytes, m);
    let sum = block_checksum(raw);
    lemma_checksum_fits(raw);
    lemma_octal_digits_len(sum, CHECKSUM_DIGITS as nat);
    lemma_octal_digits_len(m.mode as nat, (MODE_LEN - 1) as nat);
    lemma_octal_digits_len(m.uid as nat, (UID_LEN - 1) as nat);
    lemma_octal_digits_len(m.gid as nat, (GID_LEN - 1) as nat);
    lemma_octal_digits_len(m.size as nat, (SIZE_LEN - 1) as nat);
    lemma_octal_digits_len(m.mtime as nat, (MTIME_LEN - 1) as nat);
    assert(block.len() == BLOCK_SIZE);
    assert forall|i: int|
        0 <= i < BLOCK_SIZE && !(CHECKSUM_OFFSET <= i < CHECKSUM_OFFSET
            + CHECKSUM_LEN) implies #[trigger] block[i] == raw[i] by {}

    // The name.
    assert(name_value(block) == Ok::<Seq<char>, HeaderError>(name)) by {
        let padded = field(block, NAME_OFFSET, NAME_LEN);
        assert(padded.subrange(0, bytes.len() as int) =~= bytes);
        lemma_trim_nul_padding(bytes, padded);
        vstd::utf8::encode_utf8_valid_utf8(name);
        vstd::utf8::encode_utf8_decode_utf8(name);
    }

    // The numbers.
    assert(field(block, MODE_OFFSET, MODE_LEN) =~= octal_field(m.mode as nat, MODE_LEN as nat));
    assert(field(block, UID_OFFSET, UID_LEN) =~= octal_field(m.uid as nat, UID_LEN as nat));
    assert(field(block, GID_OFFSET, GID_LEN) =~= octal_field(m.gid as nat, GID_LEN as nat));
    assert(field(block, SIZE_OFFSET, SIZE_LEN) =~= octal_field(m.size as nat, SIZE_LEN as nat));
    assert(field(block, MTIME_OFFSET, MTIME_LEN) =~= octal_field(
        m.mtime as nat,
        MTIME_LEN as nat,
    ));
    lemma_fields_fit_their_digits(m);
    lemma_field_round_trip(m.mode, MODE_LEN as nat);
    lemma_field_round_trip(m.uid, UID_LEN as nat);
    lemma_field_round_trip(m.gid, GID_LEN as nat);
    lemma_field_round_trip(m.size, SIZE_LEN as nat);
    lemma_field_round_trip(m.mtime, MTIME_LEN as nat);

    // Magic, version and checksum.
    assert(field(block, MAGIC_OFFSET, MAGIC_LEN) =~= ustar_magic());
    assert(field(block, VERSION_OFFSET, VERSION_LEN) =~= ustar_version());
    assert(field(block, CHECKSUM_OFFSET, CHECKSUM_LEN) =~= checksum_field(sum));
    assert(block.subrange(0, CHECKSUM_OFFSET as int) =~= raw.subrange(0, CHECKSUM_OFFSET as int));
    assert(block.subrange(CHECKSUM_OFFSET + CHECKSUM_LEN, BLOCK_SIZE as int) =~= raw.subrange(
        CHECKSUM_OFFSET + CHECKSUM_LEN,
        BLOCK_SIZE as int,
    ));
    lemma_declared_checksum_round_trip(sum);
}

/// Corruption shows. Take a block whose checksum field declares its
/// checksum, and change one byte outside that field. The checksum no longer
/// matches; validation says so, unless the change has spoilt magic or
/// version, which it reports first.
pub proof fn law_corruption_is_detected(block: Seq<u8>, at: int, byte: u8)
    requires
        block.len() == BLOCK_SIZE,
        checksum_ok(block),
        0 <= at < BLOCK_SIZE,
        !(CHECKSUM_OFFSET <= at < CHECKSUM_OFFSET + CHECKSUM_LEN),
        byte != block[at],
    ensures
        checksum_result(block.update(at, byte)) == Err::<(), HeaderError>(
            HeaderError::ChecksumMismatch,
        ),
        validation_result(block.update(at, byte)) == Err::<(), HeaderError>(
            if magic_ok(block.update(at, byte)) {
                HeaderError::ChecksumMismatch
            } else {
                HeaderError::InvalidHeaderFormat
            },
        ),
{
    let changed = block.update(at, byte);
    let tail_start: int = CHECKSUM_OFFSET + CHECKSUM_LEN;
    assert(field(changed, CHECKSUM_OFFSET, CHECKSUM_LEN) =~= field(
        block,
        CHECKSUM_OFFSET,
        CHECKSUM_LEN,
    ));
    if at < CHECKSUM_OFFSET {
        let head = block.subrange(0, CHECKSUM_OFFSET as int);
        assert(changed.subrange(0, CHECKSUM_OFFSET as int) =~= head.update(at, byte));
        assert(changed.subrange(tail_start, BLOCK_SIZE as int) =~= block.subrange(
            tail_start,
            BLOCK_SIZE as int,
        ));
        lemma_byte_sum_update(head, at, byte);
    } else {
        let tail = block.subrange(tail_start, BLOCK_SIZE as int);
        assert(changed.subrange(tail_start, BLOCK_SIZE as int) =~= tail.update(
            at - tail_start,
            byte,
        ));
        assert(changed.subrange(0, CHECKSUM_OFFSET as int) =~= block.subrange(
            0,
            CHECKSUM_OFFSET as int,
        ));
        lemma_byte_sum_update(tail, at - tail_start, byte);
    }
    assert(block_checksum(changed) != block_checksum(block));
}

} // verus!
