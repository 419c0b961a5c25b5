//! Octal numerals, as the numeric header fields hold them.
//!
//! A field is written as zero-padded digits and one NUL. It is read more
//! leniently: NUL padding at the end and white space around the numeral are
//! dropped, and a leading `+` is accepted.

use super::error::{HeaderError, IntErrorKind};
use super::text::{trim_nul_end, trimmed_len, utf8_text};
use vstd::prelude::*;
use vstd::utf8::valid_utf8;

verus! {

/// ASCII `0`.
pub const DIGIT_ZERO: u8 = 0x30;

/// ASCII `+`.
pub const PLUS: u8 = 0x2B;

/// ASCII `-`.
pub const MINUS: u8 = 0x2D;

pub open spec fn is_octal_digit(b: u8) -> bool {
    0x30 <= b <= 0x37
}

/// The `width` low-order octal digits of `value` in ASCII, most significant first.
pub open spec fn octal_digits(value: nat, width: nat) -> Seq<u8>
    decreases width,
{
    if width == 0 {
        Seq::empty()
    } else {
        octal_digits(value / 8, (width - 1) as nat).push((0x30 + value % 8) as u8)
    }
}

/// 8 to the power `n`.
pub open spec fn pow8(n: nat) -> nat
    decreases n,
{
    if n == 0 {
        1
    } else {
        8 * pow8((n - 1) as nat)
    }
}

/// Whether `value` has no more than `width` octal digits.
pub open spec fn octal_fits(value: nat, width: nat) -> bool
    decreases width,
{
    if width == 0 {
        value == 0
    } else {
        octal_fits(value / 8, (width - 1) as nat)
    }
}

/// A numeric field of `len` bytes that holds `value`: `len - 1` digits and a NUL.
pub open spec fn octal_field(value: nat, len: nat) -> Seq<u8>
    recommends
        len >= 1,
{
    octal_digits(value, (len - 1) as nat).push(0u8)
}

/// One-byte white space: tab, line feed, vertical tab, form feed, carriage
/// return and space.
pub open spec fn is_ascii_space(b: u8) -> bool {
    (0x09 <= b <= 0x0D) || b == 0x20
}

/// Two-byte white space: U+0085 and U+00A0 in UTF-8.
pub open spec fn is_two_byte_space(a: u8, b: u8) -> bool {
    a == 0xC2 && (b == 0x85 || b == 0xA0)
}

/// Three-byte white space in UTF-8: U+1680, U+2000 to U+200A, U+2028,
/// U+2029, U+202F, U+205F and U+3000.
pub open spec fn is_three_byte_space(a: u8, b: u8, c: u8) -> bool {
    ||| a == 0xE1 && b == 0x9A && c == 0x80
    ||| a == 0xE2 && b == 0x80 && ((0x80 <= c <= 0x8A) || c == 0xA8 || c == 0xA9 || c == 0xAF)
    ||| a == 0xE2 && b == 0x81 && c == 0x9F
    ||| a == 0xE3 && b == 0x80 && c == 0x80
}

/// Length of the white-space character that `s` begins with, 0 if it begins with none.
pub open spec fn space_prefix_len(s: Seq<u8>) -> nat {
    if s.len() >= 1 && is_ascii_space(s[0]) {
        1
    } else if s.len() >= 2 && is_two_byte_space(s[0], s[1]) {
        2
    } else if s.len() >= 3 && is_three_byte_space(s[0], s[1], s[2]) {
        3
    } else {
        0
    }
}

/// Length of the white-space character that `s` ends with, 0 if it ends with none.
pub open spec fn space_suffix_len(s: Seq<u8>) -> nat {
    let n = s.len() as int;
    if n >= 1 && is_ascii_space(s[n - 1]) {
        1
    } else if n >= 2 && is_two_byte_space(s[n - 2], s[n - 1]) {
        2
    } else if n >= 3 && is_three_byte_space(s[n - 3], s[n - 2], s[n - 1]) {
        3
    } else {
        0
    }
}

/// `s` without the white space it begins with.
pub open spec fn trim_space_start(s: Seq<u8>) -> Seq<u8>
    decreases s.len(),
{
    let n = space_prefix_len(s);
    if n > 0 {
        trim_space_start(s.skip(n as int))
    } else {
        s
    }
}

/// `s` without the white space it ends with.
pub open spec fn trim_space_end(s: Seq<u8>) -> Seq<u8>
    decreases s.len(),
{
    let n = space_suffix_len(s);
    if n > 0 {
        trim_space_end(s.take(s.len() - n))
    } else {
        s
    }
}

/// `s` without the white space around it.
pub open spec fn trim_space(s: Seq<u8>) -> Seq<u8> {
    trim_space_end(trim_space_start(s))
}

/// Reads `s` digit by digit, left to right, onto the number `acc` read so far.
/// The first byte that is no digit, or the first digit that takes the number
/// out of 64 bits, ends the reading with that error.
pub open spec fn digits_value(s: Seq<u8>, acc: nat) -> Result<u64, IntErrorKind>
    decreases s.len(),
{
    if s.len() == 0 {
        Ok(acc as u64)
    } else if !is_octal_digit(s[0]) {
        Err(IntErrorKind::InvalidDigit)
    } else if acc * 8 + (s[0] - 0x30) > u64::MAX {
        Err(IntErrorKind::PosOverflow)
    } else {
        digits_value(s.skip(1), (acc * 8 + (s[0] - 0x30)) as nat)
    }
}

/// The number that the trimmed text `s` denotes: digits, after an optional `+`.
pub open spec fn numeral_value(s: Seq<u8>) -> Result<u64, IntErrorKind> {
    if s.len() == 0 {
        Err(IntErrorKind::Empty)
    } else if s.len() == 1 && (s[0] == PLUS || s[0] == MINUS) {
        Err(IntErrorKind::InvalidDigit)
    } else if s[0] == PLUS {
        digits_value(s.skip(1), 0)
    } else {
        digits_value(s, 0)
    }
}

/// What a numeric field holds. The field must be UTF-8; its NUL padding goes
/// first, then the white space around what is left.
pub open spec fn field_value(field: Seq<u8>) -> Result<u64, HeaderError> {
    if !valid_utf8(field) {
        Err(HeaderError::Utf8Conversion)
    } else {
        match numeral_value(trim_space(trim_nul_end(field))) {
            Ok(v) => Ok(v),
            Err(kind) => Err(HeaderError::IntConversion(kind)),
        }
    }
}

/// A value has no more than `width` octal digits exactly if it is below 8
/// to the power `width`.
pub proof fn lemma_octal_fits_bound(value: nat, width: nat)
    ensures
        octal_fits(value, width) <==> value < pow8(width),
    decreases width,
{
    if width > 0 {
        lemma_octal_fits_bound(value / 8, (width - 1) as nat);
    }
}

/// `octal_digits` gives as many digits as it is asked for.
pub proof fn lemma_octal_digits_len(value: nat, width: nat)
    ensures
        octal_digits(value, width).len() == width,
    decreases width,
{
    if width > 0 {
        lemma_octal_digits_len(value / 8, (width - 1) as nat);
    }
}

/// Every byte that `octal_digits` gives is an octal digit.
pub proof fn lemma_octal_digits_are_digits(value: nat, width: nat)
    ensures
        forall|i: int| 0 <= i < width ==> is_octal_digit(#[trigger] octal_digits(value, width)[i]),
    decreases width,
{
    lemma_octal_digits_len(value, width);
    if width > 0 {
        lemma_octal_digits_len(value / 8, (width - 1) as nat);
        lemma_octal_digits_are_digits(value / 8, (width - 1) as nat);
    }
}

/// Zero fits any width.
pub proof fn lemma_zero_fits(width: nat)
    ensures
        octal_fits(0, width),
    decreases width,
{
    if width > 0 {
        lemma_zero_fits((width - 1) as nat);
    }
}

/// Reading one more digit at the end: what was read so far, times eight, plus
/// the digit.
pub proof fn lemma_digits_value_push(s: Seq<u8>, acc: nat, d: u8)
    requires
        acc <= u64::MAX,
    ensures
        digits_value(s.push(d), acc) == (match digits_value(s, acc) {
            Err(kind) => Err(kind),
            Ok(read) => if !is_octal_digit(d) {
                Err(IntErrorKind::InvalidDigit)
            } else if read * 8 + (d - 0x30) > u64::MAX {
                Err(IntErrorKind::PosOverflow)
            } else {
                Ok((read * 8 + (d - 0x30)) as u64)
            },
        }),
    decreases s.len(),
{
    if s.len() == 0 {
        assert(s.push(d).skip(1) =~= Seq::<u8>::empty());
        reveal_with_fuel(digits_value, 2);
    } else {
        assert(s.push(d)[0] == s[0]);
        assert(s.push(d).skip(1) =~= s.skip(1).push(d));
        if is_octal_digit(s[0]) && acc * 8 + (s[0] - 0x30) <= u64::MAX {
            lemma_digits_value_push(s.skip(1), (acc * 8 + (s[0] - 0x30)) as nat, d);
        }
    }
}

/// The digits written for a value read back as that value.
pub proof fn lemma_digits_round_trip(value: nat, width: nat)
    requires
        value <= u64::MAX,
        octal_fits(value, width),
    ensures
        digits_value(octal_digits(value, width), 0) == Ok::<u64, IntErrorKind>(value as u64),
    decreases width,
{
    if width > 0 {
        let head = octal_digits(value / 8, (width - 1) as nat);
        let d = (0x30 + value % 8) as u8;
        lemma_digits_round_trip(value / 8, (width - 1) as nat);
        lemma_digits_value_push(head, 0, d);
    }
}

/// Bytes below 0x80 are UTF-8.
pub proof fn lemma_ascii_is_utf8(s: Seq<u8>)
    requires
        forall|i: int| 0 <= i < s.len() ==> s[i] < 0x80,
    ensures
        valid_utf8(s),
{
    assert forall|i: int| 0 <= i < s.len() implies #[trigger] vstd::utf8::is_leading_byte_width_1(
        s[i],
    ) by {
        vstd::utf8::utf8_byte_ranges_bitwise(s[i]);
    }
    assert(s.subrange(0, 0) =~= Seq::<u8>::empty());
    assert(vstd::utf8::partial_valid_utf8(s, 0));
    vstd::utf8::partial_valid_utf8_extend_ascii_block(s, 0, s.len() as int);
    assert(s.subrange(0, s.len() as int) =~= s);
}

/// A field that was written for a value reads back as that value.
pub proof fn lemma_field_round_trip(value: u64, len: nat)
    requires
        len >= 2,
        octal_fits(value as nat, (len - 1) as nat),
    ensures
        field_value(octal_field(value as nat, len)) == Ok::<u64, HeaderError>(value),
{
    let width = (len - 1) as nat;
    let digits = octal_digits(value as nat, width);
    let field = octal_field(value as nat, len);
    lemma_octal_digits_len(value as nat, width);
    lemma_octal_digits_are_digits(value as nat, width);
    lemma_ascii_is_utf8(field);
    assert(is_octal_digit(digits[0]));
    assert(is_octal_digit(digits[width - 1]));
    assert(trim_nul_end(field) == digits) by {
        assert(field.drop_last() =~= digits);
        reveal_with_fuel(trim_nul_end, 2);
    }
    assert(trim_space_start(digits) == digits);
    assert(trim_space_end(digits) == digits);
    lemma_digits_round_trip(value as nat, width);
}

/// The digits of `value`, if `width` of them are enough.
pub fn encode_octal(value: u64, width: usize) -> (digits: Option<Vec<u8>>)
    ensures
        digits is Some <==> octal_fits(value as nat, width as nat),
        digits matches Some(d) ==> d@ == octal_digits(value as nat, width as nat),
{
    let mut rest: u64 = value;
    let mut k: usize = 0;
    while k < width && rest != 0
        invariant
            k <= width,
            octal_fits(value as nat, width as nat) == octal_fits(rest as nat, (width - k) as nat),
        decreases width - k,
    {
        rest = rest / 8;
        k = k + 1;
    }
    if rest != 0 {
        return None;
    }
    proof {
        lemma_zero_fits((width - k) as nat);
    }
    let mut out: Vec<u8> = vec![DIGIT_ZERO; width];
    let mut left: u64 = value;
    let mut i: usize = width;
    while i > 0
        invariant
            i <= width,
            out@.len() == width,
            octal_digits(value as nat, width as nat) == octal_digits(left as nat, i as nat)
                + out@.subrange(i as int, width as int),
        decreases i,
    {
        let digit: u8 = DIGIT_ZERO + (left % 8) as u8;
        let ghost before = out@;
        out.set(i - 1, digit);
        proof {
            let head = octal_digits((left / 8) as nat, (i - 1) as nat);
            lemma_octal_digits_len((left / 8) as nat, (i - 1) as nat);
            assert(octal_digits(left as nat, i as nat) == head.push(digit));
            assert(head.push(digit) + before.subrange(i as int, width as int) =~= head
                + out@.subrange(i - 1, width as int));
        }
        left = left / 8;
        i = i - 1;
    }
    assert(out@.subrange(0, width as int) =~= out@);
    assert(octal_digits(left as nat, 0) + out@ =~= out@);
    Some(out)
}

/// Length of the white-space character at `src[lo..hi]`'s start.
fn space_prefix(src: &[u8], lo: usize, hi: usize) -> (n: usize)
    requires
        lo <= hi <= src@.len(),
    ensures
        n == space_prefix_len(src@.subrange(lo as int, hi as int)),
        lo + n <= hi,
{
    let len: usize = hi - lo;
    if len >= 1 && ((0x09 <= src[lo] && src[lo] <= 0x0D) || src[lo] == 0x20) {
        1
    } else if len >= 2 && src[lo] == 0xC2 && (src[lo + 1] == 0x85 || src[lo + 1] == 0xA0) {
        2
    } else if len >= 3 && three_byte_space(src[lo], src[lo + 1], src[lo + 2]) {
        3
    } else {
        0
    }
}

/// Length of the white-space character at `src[lo..hi]`'s end.
fn space_suffix(src: &[u8], lo: usize, hi: usize) -> (n: usize)
    requires
        lo <= hi <= src@.len(),
    ensures
        n == space_suffix_len(src@.subrange(lo as int, hi as int)),
        lo + n <= hi,
{
    let len: usize = hi - lo;
    if len >= 1 && ((0x09 <= src[hi - 1] && src[hi - 1] <= 0x0D) || src[hi - 1] == 0x20) {
        1
    } else if len >= 2 && src[hi - 2] == 0xC2 && (src[hi - 1] == 0x85 || src[hi - 1] == 0xA0) {
        2
    } else if len >= 3 && three_byte_space(src[hi - 3], src[hi - 2], src[hi - 1]) {
        3
    } else {
        0
    }
}

fn three_byte_space(a: u8, b: u8, c: u8) -> (r: bool)
    ensures
        r == is_three_byte_space(a, b, c),
{
    (a == 0xE1 && b == 0x9A && c == 0x80) || (a == 0xE2 && b == 0x80 && ((0x80 <= c && c <= 0x8A)
        || c == 0xA8 || c == 0xA9 || c == 0xAF)) || (a == 0xE2 && b == 0x81 && c == 0x9F) || (a
        == 0xE3 && b == 0x80 && c == 0x80)
}

/// Reads the digits `src[lo..hi]`.
fn decode_digits(src: &[u8], lo: usize, hi: usize) -> (r: Result<u64, IntErrorKind>)
    requires
        lo <= hi <= src@.len(),
    ensures
        r == digits_value(src@.subrange(lo as int, hi as int), 0),
{
    let mut acc: u64 = 0;
    let mut i: usize = lo;
    while i < hi
        invariant
            lo <= i <= hi <= src@.len(),
            digits_value(src@.subrange(i as int, hi as int), acc as nat) == digits_value(
                src@.subrange(lo as int, hi as int),
                0,
            ),
        decreases hi - i,
    {
        let c: u8 = src[i];
        assert(src@.subrange(i as int, hi as int)[0] == c);
        assert(src@.subrange(i as int, hi as int).skip(1) =~= src@.subrange(i + 1, hi as int));
        if c < 0x30 || c > 0x37 {
            return Err(IntErrorKind::InvalidDigit);
        }
        let digit: u64 = (c - DIGIT_ZERO) as u64;
        let next: u64 = match acc.checked_mul(8) {
            None => {
                return Err(IntErrorKind::PosOverflow);
            },
            Some(shifted) => match shifted.checked_add(digit) {
                None => {
                    return Err(IntErrorKind::PosOverflow);
                },
                Some(sum) => sum,
            },
        };
        acc = next;
        i = i + 1;
    }
    Ok(acc)
}

/// Reads a numeric field.
pub fn decode_octal(src: &[u8]) -> (r: Result<u64, HeaderError>)
    ensures
        r == field_value(src@),
{
    if utf8_text(src).is_none() {
        return Err(HeaderError::Utf8Conversion);
    }
    let mut hi: usize = trimmed_len(src);
    let mut lo: usize = 0;
    let ghost unpadded = trim_nul_end(src@);
    loop
        invariant
            lo <= hi <= src@.len(),
            trim_space_start(src@.subrange(lo as int, hi as int)) == trim_space_start(unpadded),
        ensures
            lo <= hi <= src@.len(),
            src@.subrange(lo as int, hi as int) == trim_space_start(unpadded),
        decreases hi - lo,
    {
        let n: usize = space_prefix(src, lo, hi);
        if n == 0 {
            break ;
        }
        assert(src@.subrange(lo as int, hi as int).skip(n as int) =~= src@.subrange(
            lo + n,
            hi as int,
        ));
        lo = lo + n;
    }
    let ghost started = trim_space_start(unpadded);
    loop
        invariant
            lo <= hi <= src@.len(),
            trim_space_end(src@.subrange(lo as int, hi as int)) == trim_space_end(started),
        ensures
            lo <= hi <= src@.len(),
            src@.subrange(lo as int, hi as int) == trim_space_end(started),
        decreases hi - lo,
    {
        let n: usize = space_suffix(src, lo, hi);
        if n == 0 {
            break ;
        }
        assert(src@.subrange(lo as int, hi as int).take(hi - lo - n) =~= src@.subrange(
            lo as int,
            hi - n,
        ));
        hi = hi - n;
    }
    let ghost text = src@.subrange(lo as int, hi as int);
    if lo == hi {
        return Err(HeaderError::IntConversion(IntErrorKind::Empty));
    }
    let first: u8 = src[lo];
    assert(text[0] == first);
    if hi - lo == 1 && (first == PLUS || first == MINUS) {
        return Err(HeaderError::IntConversion(IntErrorKind::InvalidDigit));
    }
    let start: usize = if first == PLUS {
        assert(text.skip(1) =~= src@.subrange(lo + 1, hi as int));
        lo + 1
    } else {
        lo
    };
    match decode_digits(src, start, hi) {
        Ok(v) => Ok(v),
        Err(kind) => Err(HeaderError::IntConversion(kind)),
    }
}

} // verus!
