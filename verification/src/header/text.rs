//! Text in header fields: UTF-8, padded with NUL.

use vstd::prelude::*;
use vstd::utf8::{encode_utf8, valid_utf8};

verus! {

/// `s` without the NUL bytes at its end.
pub open spec fn trim_nul_end(s: Seq<u8>) -> Seq<u8>
    decreases s.len(),
{
    if s.len() > 0 && s.last() == 0 {
        trim_nul_end(s.drop_last())
    } else {
        s
    }
}

/// Calls `std::str::from_utf8`. The contract claims what its documentation
/// says: the call succeeds exactly on well-formed UTF-8, and the text it
/// returns is made of the very bytes it was given.
#[verifier::external_body]
pub(crate) fn utf8_text(bytes: &[u8]) -> (text: Option<&str>)
    ensures
        text is Some <==> valid_utf8(bytes@),
        text matches Some(s) ==> encode_utf8(s@) == bytes@,
{
    std::str::from_utf8(bytes).ok()
}

/// Number of bytes of `src` before its trailing NUL padding.
pub fn trimmed_len(src: &[u8]) -> (n: usize)
    ensures
        n <= src@.len(),
        src@.subrange(0, n as int) == trim_nul_end(src@),
{
    let mut n: usize = src.len();
    assert(src@.subrange(0, n as int) =~= src@);
    while n > 0 && src[n - 1] == 0
        invariant
            n <= src@.len(),
            trim_nul_end(src@.subrange(0, n as int)) == trim_nul_end(src@),
        decreases n,
    {
        assert(src@.subrange(0, n as int).drop_last() =~= src@.subrange(0, n - 1));
        n = n - 1;
    }
    n
}

} // verus!
