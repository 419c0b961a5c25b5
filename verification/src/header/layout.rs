//! The bytes of a header block, field by field, and its checksum.

use super::constants::{
    ustar_magic, ustar_version, BLOCK_SIZE, CHECKSUM_DIGITS, CHECKSUM_LEN, CHECKSUM_OFFSET,
    GID_LEN, GID_OFFSET, LONG_FIELD_MAX, MAGIC_OFFSET, MODE_LEN, MODE_OFFSET, MTIME_LEN,
    MTIME_OFFSET, NAME_LEN, SHORT_FIELD_MAX, SIZE_LEN, SIZE_OFFSET, SPACE, TYPEFLAG_OFFSET,
    TYPEFLAG_REGULAR, UID_LEN, UID_OFFSET, VERSION_LEN, VERSION_OFFSET,
};
use super::octal::{
    is_octal_digit, lemma_octal_fits_bound, octal_digits, octal_field, octal_fits, pow8,
};
use super::FileMetadata;
use vstd::prelude::*;

verus! {

/// ASCII `/`, the path separator.
pub const SEPARATOR: u8 = 0x2F;

/// The sum of the bytes of `s`.
pub open spec fn byte_sum(s: Seq<u8>) -> nat
    decreases s.len(),
{
    if s.len() == 0 {
        0
    } else {
        byte_sum(s.drop_last()) + s.last() as nat
    }
}

/// The checksum of a header block: the sum of its bytes, with each byte of
/// the checksum field counted as a space.
pub open spec fn block_checksum(block: Seq<u8>) -> nat {
    byte_sum(block.subrange(0, CHECKSUM_OFFSET as int)) + (CHECKSUM_LEN * SPACE) as nat + byte_sum(
        block.subrange(CHECKSUM_OFFSET + CHECKSUM_LEN, BLOCK_SIZE as int),
    )
}

/// A name, in UTF-8, that a header can hold and give back: not empty, no
/// longer than the name field, without a path separator, and not ending in
/// NUL, which would be taken for padding.
pub open spec fn name_ok(name: Seq<u8>) -> bool {
    &&& 0 < name.len() <= NAME_LEN
    &&& forall|i: int| 0 <= i < name.len() ==> name[i] != SEPARATOR
    &&& name.last() != 0
}

/// Whether each number of `m` fits its field.
pub open spec fn fields_fit(m: FileMetadata) -> bool {
    &&& m.mode <= SHORT_FIELD_MAX
    &&& m.uid <= SHORT_FIELD_MAX
    &&& m.gid <= SHORT_FIELD_MAX
    &&& m.size <= LONG_FIELD_MAX
    &&& m.mtime <= LONG_FIELD_MAX
}

/// The numbers that fit their fields are those whose digits do: a field
/// holds one digit less than it has bytes.
pub proof fn lemma_fields_fit_their_digits(m: FileMetadata)
    ensures
        m.mode <= SHORT_FIELD_MAX <==> octal_fits(m.mode as nat, (MODE_LEN - 1) as nat),
        m.uid <= SHORT_FIELD_MAX <==> octal_fits(m.uid as nat, (UID_LEN - 1) as nat),
        m.gid <= SHORT_FIELD_MAX <==> octal_fits(m.gid as nat, (GID_LEN - 1) as nat),
        m.size <= LONG_FIELD_MAX <==> octal_fits(m.size as nat, (SIZE_LEN - 1) as nat),
        m.mtime <= LONG_FIELD_MAX <==> octal_fits(m.mtime as nat, (MTIME_LEN - 1) as nat),
{
    reveal_with_fuel(pow8, 12);
    lemma_octal_fits_bound(m.mode as nat, (MODE_LEN - 1) as nat);
    lemma_octal_fits_bound(m.uid as nat, (UID_LEN - 1) as nat);
    lemma_octal_fits_bound(m.gid as nat, (GID_LEN - 1) as nat);
    lemma_octal_fits_bound(m.size as nat, (SIZE_LEN - 1) as nat);
    lemma_octal_fits_bound(m.mtime as nat, (MTIME_LEN - 1) as nat);
}

/// The byte at offset `i` of the header for `name` and `m`, before the
/// checksum is filled in: the checksum field holds spaces, and what no field
/// covers is zero.
pub open spec fn unsummed_byte(name: Seq<u8>, m: FileMetadata, i: int) -> u8 {
    if i < MODE_OFFSET {
        if i < name.len() {
            name[i]
        } else {
            0
        }
    } else if i < UID_OFFSET {
        octal_field(m.mode as nat, MODE_LEN as nat)[i - MODE_OFFSET]
    } else if i < GID_OFFSET {
        octal_field(m.uid as nat, UID_LEN as nat)[i - UID_OFFSET]
    } else if i < SIZE_OFFSET {
        octal_field(m.gid as nat, GID_LEN as nat)[i - GID_OFFSET]
    } else if i < MTIME_OFFSET {
        octal_field(m.size as nat, SIZE_LEN as nat)[i - SIZE_OFFSET]
    } else if i < CHECKSUM_OFFSET {
        octal_field(m.mtime as nat, MTIME_LEN as nat)[i - MTIME_OFFSET]
    } else if i < TYPEFLAG_OFFSET {
        SPACE
    } else if i == TYPEFLAG_OFFSET {
        TYPEFLAG_REGULAR
    } else if MAGIC_OFFSET <= i < VERSION_OFFSET {
        ustar_magic()[i - MAGIC_OFFSET]
    } else if VERSION_OFFSET <= i < VERSION_OFFSET + VERSION_LEN {
        ustar_version()[i - VERSION_OFFSET]
    } else {
        0
    }
}

/// The header for `name` and `m` with a blank checksum field.
pub open spec fn unsummed_block(name: Seq<u8>, m: FileMetadata) -> Seq<u8> {
    Seq::new(BLOCK_SIZE as nat, |i: int| unsummed_byte(name, m, i))
}

/// The checksum field for the checksum `sum`: six digits, a NUL and a space.
pub open spec fn checksum_field(sum: nat) -> Seq<u8> {
    octal_digits(sum, CHECKSUM_DIGITS as nat).push(0u8).push(SPACE)
}

/// The header block for a file called `name` (in UTF-8) with the metadata `m`.
pub open spec fn header_block(name: Seq<u8>, m: FileMetadata) -> Seq<u8> {
    let raw = unsummed_block(name, m);
    raw.subrange(0, CHECKSUM_OFFSET as int) + checksum_field(block_checksum(raw)) + raw.subrange(
        CHECKSUM_OFFSET + CHECKSUM_LEN,
        BLOCK_SIZE as int,
    )
}

/// `s` without the NULs and spaces at its end.
pub open spec fn trim_terminators(s: Seq<u8>) -> Seq<u8>
    decreases s.len(),
{
    if s.len() > 0 && (s.last() == 0 || s.last() == SPACE) {
        trim_terminators(s.drop_last())
    } else {
        s
    }
}

/// The number that the octal digits `s` denote.
pub open spec fn octal_value(s: Seq<u8>) -> nat
    decreases s.len(),
{
    if s.len() == 0 {
        0
    } else {
        octal_value(s.drop_last()) * 8 + (s.last() - 0x30) as nat
    }
}

/// The checksum that a checksum field declares: the field is octal digits, at
/// least one, followed by nothing but NULs and spaces. Any other field
/// declares none.
pub open spec fn declared_checksum(field: Seq<u8>) -> Option<nat> {
    let digits = trim_terminators(field);
    if digits.len() > 0 && (forall|i: int| 0 <= i < digits.len() ==> is_octal_digit(digits[i])) {
        Some(octal_value(digits))
    } else {
        None
    }
}

/// A sum of bytes is at most 255 for each byte.
pub proof fn lemma_byte_sum_bound(s: Seq<u8>)
    ensures
        byte_sum(s) <= 255 * s.len(),
    decreases s.len(),
{
    if s.len() > 0 {
        lemma_byte_sum_bound(s.drop_last());
    }
}

/// A block's checksum has no more than six octal digits.
pub proof fn lemma_checksum_fits(block: Seq<u8>)
    requires
        block.len() == BLOCK_SIZE,
    ensures
        block_checksum(block) <= 128776,
        octal_fits(block_checksum(block), CHECKSUM_DIGITS as nat),
{
    lemma_byte_sum_bound(block.subrange(0, CHECKSUM_OFFSET as int));
    lemma_byte_sum_bound(block.subrange(CHECKSUM_OFFSET + CHECKSUM_LEN, BLOCK_SIZE as int));
    reveal_with_fuel(octal_fits, 7);
}

/// Changing one byte changes the sum by the difference of the two bytes.
pub proof fn lemma_byte_sum_update(s: Seq<u8>, i: int, v: u8)
    requires
        0 <= i < s.len(),
    ensures
        byte_sum(s.update(i, v)) + s[i] == byte_sum(s) + v,
    decreases s.len(),
{
    let t = s.update(i, v);
    if i == s.len() - 1 {
        assert(t.drop_last() =~= s.drop_last());
    } else {
        lemma_byte_sum_update(s.drop_last(), i, v);
        assert(t.drop_last() =~= s.drop_last().update(i, v));
    }
}

/// The digits written for a value denote that value.
pub proof fn lemma_octal_value_round_trip(value: nat, width: nat)
    requires
        octal_fits(value, width),
    ensures
        octal_value(octal_digits(value, width)) == value,
    decreases width,
{
    if width > 0 {
        let head = octal_digits(value / 8, (width - 1) as nat);
        lemma_octal_value_round_trip(value / 8, (width - 1) as nat);
        assert(octal_digits(value, width).drop_last() =~= head);
    }
}

/// A checksum field that was written for a checksum declares it.
pub proof fn lemma_declared_checksum_round_trip(sum: nat)
    requires
        octal_fits(sum, CHECKSUM_DIGITS as nat),
    ensures
        declared_checksum(checksum_field(sum)) == Some(sum),
{
    let digits = octal_digits(sum, CHECKSUM_DIGITS as nat);
    let field = checksum_field(sum);
    super::octal::lemma_octal_digits_len(sum, CHECKSUM_DIGITS as nat);
    super::octal::lemma_octal_digits_are_digits(sum, CHECKSUM_DIGITS as nat);
    lemma_octal_value_round_trip(sum, CHECKSUM_DIGITS as nat);
    assert(is_octal_digit(digits[CHECKSUM_DIGITS - 1]));
    assert(trim_terminators(field) == digits) by {
        assert(field.drop_last() =~= digits.push(0u8));
        assert(digits.push(0u8).drop_last() =~= digits);
        reveal_with_fuel(trim_terminators, 3);
    }
}

/// Takes the checksum of a header block.
pub fn checksum_of(block: &[u8]) -> (sum: u32)
    requires
        block@.len() == BLOCK_SIZE,
    ensures
        sum == block_checksum(block@),
{
    let mut sum: u32 = 256;
    let mut i: usize = 0;
    while i < CHECKSUM_OFFSET
        invariant
            i <= CHECKSUM_OFFSET,
            block@.len() == BLOCK_SIZE,
            sum == 256 + byte_sum(block@.subrange(0, i as int)),
            sum <= 256 + 255 * i,
        decreases CHECKSUM_OFFSET - i,
    {
        assert(block@.subrange(0, i + 1).drop_last() =~= block@.subrange(0, i as int));
        sum = sum + block[i] as u32;
        i = i + 1;
    }
    let ghost head = byte_sum(block@.subrange(0, CHECKSUM_OFFSET as int));
    i = CHECKSUM_OFFSET + CHECKSUM_LEN;
    while i < BLOCK_SIZE
        invariant
            CHECKSUM_OFFSET + CHECKSUM_LEN <= i <= BLOCK_SIZE,
            block@.len() == BLOCK_SIZE,
            sum == 256 + head + byte_sum(
                block@.subrange(CHECKSUM_OFFSET + CHECKSUM_LEN, i as int),
            ),
            sum <= 256 + 255 * (i - CHECKSUM_LEN),
        decreases BLOCK_SIZE - i,
    {
        assert(block@.subrange(CHECKSUM_OFFSET + CHECKSUM_LEN, i + 1).drop_last()
            =~= block@.subrange(CHECKSUM_OFFSET + CHECKSUM_LEN, i as int));
        sum = sum + block[i] as u32;
        i = i + 1;
    }
    sum
}

} // verus!
