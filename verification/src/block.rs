//! Blocks: the unit in which an archive is laid out.

use crate::header::constants::BLOCK_SIZE;
use vstd::prelude::*;

verus! {

/// Whether every byte of `s` is zero.
pub open spec fn all_zero(s: Seq<u8>) -> bool {
    forall|i: int| 0 <= i < s.len() ==> s[i] == 0
}

/// `n` zero bytes.
pub open spec fn zeros(n: nat) -> Seq<u8> {
    Seq::new(n, |i: int| 0u8)
}

/// How many bytes bring a length of `len` to the next block boundary.
pub open spec fn padding(len: int) -> int {
    (BLOCK_SIZE - len % (BLOCK_SIZE as int)) % (BLOCK_SIZE as int)
}

/// Whether every byte of `bytes` is zero.
pub fn is_all_zero(bytes: &[u8]) -> (r: bool)
    ensures
        r == all_zero(bytes@),
{
    let mut i: usize = 0;
    while i < bytes.len()
        invariant
            i <= bytes@.len(),
            forall|j: int| 0 <= j < i ==> bytes@[j] == 0,
        decreases bytes@.len() - i,
    {
        if bytes[i] != 0 {
            return false;
        }
        i = i + 1;
    }
    true
}

/// How many bytes bring a length of `len` to the next block boundary.
pub fn padding_for(len: u64) -> (pad: u64)
    ensures
        pad == padding(len as int),
        pad < BLOCK_SIZE,
        (len + pad) % (BLOCK_SIZE as int) == 0,
{
    let block: u64 = BLOCK_SIZE as u64;
    (block - len % block) % block
}

} // verus!
