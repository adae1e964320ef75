//! The 32-bit halves of binary64 bit patterns.
use vstd::prelude::*;
use crate::arith::{lemma_u64_bits, lemma_u64_join32};

verus! {

/// The high 32 bits of a binary64 pattern (sign, exponent and the top of
/// the fraction).
pub fn get_high_word(x: u64) -> (r: u32)
    ensures
        r == x / 0x1_0000_0000,
{
    proof {
        lemma_u64_bits(x);
    }
    (x >> 32) as u32
}

/// The low 32 bits of a binary64 pattern.
pub fn get_low_word(x: u64) -> (r: u32)
    ensures
        r == x % 0x1_0000_0000,
{
    proof {
        lemma_u64_bits(x);
    }
    x as u32
}

/// `f` with its high 32 bits replaced by `hi`.
pub fn with_set_high_word(f: u64, hi: u32) -> (r: u64)
    ensures
        r == hi * 0x1_0000_0000 + f % 0x1_0000_0000,
{
    let mut tmp = f;
    tmp &= 0x00000000_ffffffff;
    proof {
        lemma_u64_bits(f);
        lemma_u64_bits(hi as u64);
        lemma_u64_join32(hi as u64, tmp);
    }
    tmp |= (hi as u64) << 32;
    tmp
}

/// `f` with its low 32 bits replaced by `lo`.
pub fn with_set_low_word(f: u64, lo: u32) -> (r: u64)
    ensures
        r == (f / 0x1_0000_0000) * 0x1_0000_0000 + lo,
{
    let mut tmp = f;
    tmp &= 0xffffffff_00000000;
    proof {
        lemma_u64_bits(f);
        let h = f / 0x1_0000_0000;
        lemma_u64_bits(h);
        lemma_u64_join32(h, lo as u64);
    }
    tmp |= lo as u64;
    tmp
}

/// The binary64 pattern with high half `hi` and low half `lo`.
pub fn combine_words(hi: u32, lo: u32) -> (r: u64)
    ensures
        r == hi * 0x1_0000_0000 + lo,
{
    proof {
        lemma_u64_bits(hi as u64);
        lemma_u64_join32(hi as u64, lo as u64);
    }
    (hi as u64) << 32 | lo as u64
}

/// Splitting a pattern into its halves and joining them gives it back, and
/// joining two halves then splitting gives the halves back.
pub proof fn law_words_round_trip(x: u64, hi: u32, lo: u32)
    ensures
        (x / 0x1_0000_0000) * 0x1_0000_0000 + x % 0x1_0000_0000 == x,
        (hi * 0x1_0000_0000 + lo) / 0x1_0000_0000 == hi,
        (hi * 0x1_0000_0000 + lo) % 0x1_0000_0000 == lo,
{
    vstd::arithmetic::div_mod::lemma_fundamental_div_mod(x as int, 0x1_0000_0000);
    vstd::arithmetic::div_mod::lemma_fundamental_div_mod_converse(
        (hi * 0x1_0000_0000 + lo) as int, 0x1_0000_0000, hi as int, lo as int);
}

} // verus!
