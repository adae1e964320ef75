//! Absolute values by clearing the sign bit.
use vstd::prelude::*;
use crate::arith::{lemma_u64_bits, lemma_u32_bits};

verus! {

/// Absolute value (magnitude) of a binary64 value given by its bit
/// pattern: the sign bit is cleared, every other bit kept.
pub fn fabs(x: u64) -> (r: u64)
    ensures
        r == x % 0x8000_0000_0000_0000,
{
    proof {
        lemma_u64_bits(x);
    }
    x & (u64::MAX / 2)
}

/// Absolute value (magnitude) of a binary32 value given by its bit
/// pattern: the sign bit is cleared, every other bit kept.
pub fn fabsf(x: u32) -> (r: u32)
    ensures
        r == x % 0x8000_0000,
{
    proof {
        lemma_u32_bits(x);
    }
    x & 0x7fff_ffff
}

/// Taking the absolute value twice is taking it once, and the result has a
/// clear sign bit.
pub proof fn law_fabs_idempotent(x: u64, y: u32)
    ensures
        (x % 0x8000_0000_0000_0000) % 0x8000_0000_0000_0000 == x % 0x8000_0000_0000_0000,
        (x % 0x8000_0000_0000_0000) / 0x8000_0000_0000_0000 == 0,
        (y % 0x8000_0000) % 0x8000_0000 == y % 0x8000_0000,
        (y % 0x8000_0000) / 0x8000_0000 == 0,
{
    vstd::arithmetic::div_mod::lemma_mod_twice(x as int, 0x8000_0000_0000_0000);
    vstd::arithmetic::div_mod::lemma_mod_twice(y as int, 0x8000_0000);
}

} // verus!
