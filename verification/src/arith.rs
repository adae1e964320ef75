//! Facts about powers of two, binary length and shifts of wide unsigned
//! integers, shared by the bit-level algorithms.
use vstd::prelude::*;
use vstd::arithmetic::power2::*;
use vstd::arithmetic::div_mod::*;
use vstd::arithmetic::mul::*;
use vstd::std_specs::bits::u64_leading_zeros;
use crate::float_bits::{f32_exp, f32_frac, f32_sig, f32_scaled, f64_exp, f64_frac, f64_mant, f64_scaled};

verus! {

/// The number of binary digits of `n` (zero for zero).
pub open spec fn bit_len(n: nat) -> nat
    decreases n,
{
    if n == 0 {
        0
    } else {
        1 + bit_len(n / 2)
    }
}

/// A positive `n` lies between the powers of two around its binary length.
pub proof fn lemma_bit_len_bounds(n: nat)
    requires
        n > 0,
    ensures
        bit_len(n) >= 1,
        pow2((bit_len(n) - 1) as nat) <= n < pow2(bit_len(n)),
    decreases n,
{
    reveal(pow2);
    if n / 2 == 0 {
        assert(bit_len(0) == 0);
        lemma2_to64();
    } else {
        lemma_bit_len_bounds(n / 2);
        let k = bit_len(n / 2);
        lemma_pow2_unfold(k);
        lemma_pow2_unfold((k + 1) as nat);
        assert(pow2(k) == 2 * pow2((k - 1) as nat));
    }
}

/// The binary length is fixed by the powers of two around a number.
pub proof fn lemma_bit_len_unique(n: nat, k: nat)
    requires
        k >= 1,
        pow2((k - 1) as nat) <= n < pow2(k),
    ensures
        bit_len(n) == k,
{
    lemma_pow2_pos((k - 1) as nat);
    lemma_bit_len_bounds(n);
    let b = bit_len(n);
    if b < k {
        lemma_pow2_increases(b, (k - 1) as nat);
    } else if b > k {
        lemma_pow2_increases(k, (b - 1) as nat);
    }
}

/// A number below `2^k` has at most `k` binary digits.
pub proof fn lemma_bit_len_le(n: nat, k: nat)
    requires
        n < pow2(k),
    ensures
        bit_len(n) <= k,
{
    if n > 0 {
        lemma_bit_len_bounds(n);
        if bit_len(n) > k {
            lemma_pow2_increases(k, (bit_len(n) - 1) as nat);
        }
    }
}

/// `2^128` and `2^64`.
pub proof fn lemma_pow2_128()
    ensures
        pow2(63) == 0x8000_0000_0000_0000,
        pow2(64) == 0x1_0000_0000_0000_0000,
        pow2(127) == 0x8000_0000_0000_0000_0000_0000_0000_0000,
        pow2(128) == 0x1_0000_0000_0000_0000_0000_0000_0000_0000,
{
    lemma2_to64();
    lemma2_to64_rest();
    lemma_pow2_adds(64, 64);
    lemma_pow2_adds(63, 64);
}

/// Shifting a 128-bit word left keeps the low 128 bits of the product with
/// a power of two.
pub proof fn lemma_u128_shl_mod(x: u128, shift: u128)
    requires
        0 <= shift < 128,
    ensures
        x << shift == (x as nat * pow2(shift as nat)) % pow2(128),
    decreases shift,
{
    lemma_pow2_128();
    lemma_pow2_pos(shift as nat);
    if shift == 0 {
        assert(x << 0 == x) by (bit_vector);
        lemma2_to64();
        lemma_small_mod(x as nat, pow2(128));
    } else {
        assert(x << shift == ((x << ((shift - 1) as u128)) * 2)
            % 0x1_0000_0000_0000_0000_0000_0000_0000_0000int) by (bit_vector)
            requires
                0 < shift < 128,
        ;
        let y = x << ((shift - 1) as u128);
        lemma_u128_shl_mod(x, (shift - 1) as u128);
        let p = pow2((shift - 1) as nat);
        lemma_pow2_unfold(shift as nat);
        let n = pow2(128) as int;
        lemma_mul_mod_noop_left(x as int * p as int, 2, n);
        lemma_mul_is_associative(x as int, p as int, 2);
        lemma_mul_is_commutative(p as int, 2);
    }
}

/// Halves, low bits and single-bit shifts of a 128-bit word.
pub proof fn lemma_u128_bits(x: u128)
    by (bit_vector)
    ensures
        x == ((x >> 64) as u64) as u128 * 0x1_0000_0000_0000_0000u128 + (x as u64) as u128,
        x >> 64 == x / 0x1_0000_0000_0000_0000u128,
        (x & 0xffff_ffff_ffff_ffffu128) as u64 == x as u64,
        (x & 0xffff_ffff_ffff_ffffu128) >> 63 == (x % 0x1_0000_0000_0000_0000u128)
            / 0x8000_0000_0000_0000u128,
        x & 1 == x % 2,
        1 & x == x % 2,
        (x >> 127 == 0) == (x < 0x8000_0000_0000_0000_0000_0000_0000_0000u128),
        x < 0x8000_0000_0000_0000_0000_0000_0000_0000u128 ==> x << 1 == x * 2,
        x <= 0xffff_ffff_ffff_ffff_ffff_ffff_ffff_fffeu128 ==> (1u128 << 127) | (x >> 1)
            == 0x8000_0000_0000_0000_0000_0000_0000_0000u128 + x / 2,
{
}

/// A 128-bit word from its two halves.
pub proof fn lemma_u128_join(hi: u64, lo: u64)
    by (bit_vector)
    ensures
        ((hi as u128) << 64) | lo as u128 == hi as u128 * 0x1_0000_0000_0000_0000u128 + lo as u128,
        (hi | lo) == 0 <==> (hi == 0 && lo == 0),
        hi ^ lo == lo ^ hi,
        (hi ^ lo == 0) == (hi == lo),
        hi <= 1 && lo <= 1 ==> hi ^ lo <= 1,
{
}

/// The binary64 fields and other bit slices of a 64-bit word.
pub proof fn lemma_u64_bits(x: u64)
    by (bit_vector)
    ensures
        (x >> 52) & 0x7ff == (x / 0x10_0000_0000_0000) % 0x800,
        x & (u64::MAX >> 12) == x % 0x10_0000_0000_0000,
        x & (u64::MAX >> 1) == x % 0x8000_0000_0000_0000,
        x & (u64::MAX / 2) == x % 0x8000_0000_0000_0000,
        x >> 63 == x / 0x8000_0000_0000_0000,
        x >> 32 == x / 0x1_0000_0000,
        (x >> 55) as u16 as u64 == x / 0x80_0000_0000_0000,
        x as u8 as u64 == x % 256,
        x as u32 as u64 == x % 0x1_0000_0000,
        ((x >> 11) | (0x3ffu64 << 52)) & 0xf_ffff_ffff_ffff == (x / 0x800) % 0x10_0000_0000_0000,
        ((x >> 10) & 0x1 != 0) == ((x / 0x400) % 2 == 1),
        ((x & 0x3ff) != 0) == (x % 0x400 != 0),
        (x & 0x1 != 0) == (x % 2 == 1),
        x <= 1 ==> x << 63 == x * 0x8000_0000_0000_0000,
        x <= 2047 ==> x << 52 == x * 0x10_0000_0000_0000,
        x <= 0xffff_ffff ==> x << 32 == x * 0x1_0000_0000,
        x <= 1 ==> x % 256 <= 1,
        x <= 1 ==> x ^ (if x == 0 { 1u64 } else { 0u64 }) != 0,
        (1u64 << 52) == 0x10_0000_0000_0000u64,
        x < 0x8000_0000_0000_0000 ==> x << 1 == x * 2,
        x << 12 == (x % 0x10_0000_0000_0000) * 0x1000,
        x & 0x0000_0000_ffff_ffff == x % 0x1_0000_0000,
        x & 0xffff_ffff_0000_0000 == (x / 0x1_0000_0000) * 0x1_0000_0000,
{
}

/// The high word of a 64-bit word without its top bit.
pub proof fn lemma_u64_high_abs(x: u64)
    by (bit_vector)
    ensures
        (((x >> 32) as u32) & 0x7fff_ffff) as u64 == (x & (u64::MAX >> 1)) / 0x1_0000_0000,
{
}

/// Exclusive or on single bits.
pub proof fn lemma_xor_bits()
    by (bit_vector)
    ensures
        0u64 ^ 0u64 == 0u64,
        0u64 ^ 1u64 == 1u64,
        1u64 ^ 0u64 == 1u64,
        1u64 ^ 1u64 == 0u64,
{
}

/// The binary32 fields and other bit slices of a 32-bit word.
pub proof fn lemma_u32_bits(x: u32)
    by (bit_vector)
    ensures
        (x >> 23) & 0xff == (x / 0x80_0000) % 0x100,
        x & 0x7f_ffff == x % 0x80_0000,
        x & 0x7fff_ffff == x % 0x8000_0000,
        x >> 31 == x / 0x8000_0000,
        (x << 1 != 0) == (x % 0x8000_0000 != 0),
        x == (x / 0x8000_0000) * 0x8000_0000 + ((x / 0x80_0000) % 0x100) * 0x80_0000
            + x % 0x80_0000,
        x % 0x8000_0000 == ((x / 0x80_0000) % 0x100) * 0x80_0000 + x % 0x80_0000,
        (x & 0x7fff_ffff) >> 23 == (x / 0x80_0000) % 0x100,
        (x / 0x40_0000) % 2 == 0 ==> x | 0x40_0000 == x + 0x40_0000,
        (x / 0x40_0000) % 2 == 1 ==> x | 0x40_0000 == x,
{
}

/// Clearing the bits of a mask.
pub proof fn lemma_u32_and_not(x: u32, m: u32)
    by (bit_vector)
    ensures
        x & !m == x - (x & m),
{
}

/// Joining a high and a low 32-bit half into a 64-bit word.
pub proof fn lemma_u64_join32(hi: u64, lo: u64)
    by (bit_vector)
    requires
        hi <= 0xffff_ffff,
        lo <= 0xffff_ffff,
    ensures
        (hi << 32) | lo == hi * 0x1_0000_0000 + lo,
        lo | (hi << 32) == hi * 0x1_0000_0000 + lo,
{
}

/// Reinterpreting a 64-bit signed integer as unsigned.
pub proof fn lemma_i64_as_u64(x: i64)
    by (bit_vector)
    ensures
        x >= 0 ==> x as u64 == x,
        x < 0 ==> x as u64 >= 0x8000_0000_0000_0000u64,
{
}

/// The binary16 fields of a 16-bit word.
pub proof fn lemma_u16_bits(x: u16)
    by (bit_vector)
    ensures
        (x >> 10) & 0x1f == (x / 0x400) % 0x20,
        x & 0x8000 == (x / 0x8000) * 0x8000,
        (x & 0x3ff) as u32 == x % 0x400,
        x == (x / 0x8000) * 0x8000 + ((x / 0x400) % 0x20) * 0x400 + x % 0x400,
        x % 0x8000 == ((x / 0x400) % 0x20) * 0x400 + x % 0x400,
        x >> 1 == x / 2,
{
}

/// `pow2` is monotone.
pub proof fn lemma_pow2_increases(a: nat, b: nat)
    requires
        a <= b,
    ensures
        pow2(a) <= pow2(b),
{
    if a < b {
        lemma_pow2_strictly_increases(a, b);
    }
}

/// The leading zeros of a 64-bit word complement its binary length.
pub proof fn lemma_u64_leading_zeros(x: u64)
    ensures
        u64_leading_zeros(x) == 64 - bit_len(x as nat),
    decreases x,
{
    reveal(u64_leading_zeros);
    if x != 0 {
        lemma_u64_leading_zeros(x / 2);
    }
}

/// Shifting a 128-bit word left multiplies it by a power of two when nothing
/// is shifted out.
pub proof fn lemma_u128_shl_is_mul(x: u128, shift: u128)
    requires
        0 <= shift < 128,
        x * pow2(shift as nat) <= u128::MAX,
    ensures
        x << shift == x * pow2(shift as nat),
    decreases shift,
{
    lemma_pow2_pos(shift as nat);
    if shift == 0 {
        assert(x << 0 == x) by (bit_vector);
        lemma2_to64();
    } else {
        assert(x << shift == ((x << ((shift - 1) as u128)) * 2) as u128) by (bit_vector)
            requires
                0 < shift < 128,
        ;
        lemma_pow2_unfold(shift as nat);
        let p = pow2((shift - 1) as nat);
        assert(x * p <= u128::MAX) by {
            lemma_mul_inequality(p as int, pow2(shift as nat) as int, x as int);
            lemma_mul_is_commutative(x as int, p as int);
            lemma_mul_is_commutative(x as int, pow2(shift as nat) as int);
        }
        lemma_u128_shl_is_mul(x, (shift - 1) as u128);
        lemma_mul_is_associative(x as int, p as int, 2);
        lemma_mul_is_commutative(p as int, 2);
        assert((x << ((shift - 1) as u128)) * 2 == x * pow2(shift as nat));
    }
}

/// A binary32 magnitude is below `2^(k - 127)` exactly when its exponent
/// field is below `k`: `|x| * 2^150 < 2^(k + 23)`.
pub proof fn lemma_f32_scaled_below(x: u32, k: nat)
    requires
        1 <= k <= 0xff,
    ensures
        (f32_scaled(x) < pow2(k + 23)) == (f32_exp(x) < k),
{
    lemma_u32_bits(x);
    lemma2_to64();
    let e = f32_exp(x);
    let e1: nat = if e == 0 { 1 } else { e };
    lemma_pow2_pos(e1);
    if e < k {
        assert(f32_sig(x) < pow2(24));
        lemma_mul_strict_inequality(f32_sig(x) as int, pow2(24) as int, pow2(e1) as int);
        lemma_pow2_adds(24, e1);
        if 24 + e1 < k + 23 {
            lemma_pow2_strictly_increases(24 + e1, k + 23);
        }
    } else {
        assert(f32_sig(x) >= pow2(23));
        lemma_mul_inequality(pow2(23) as int, f32_sig(x) as int, pow2(e1) as int);
        lemma_pow2_adds(23, e1);
        if k + 23 < 23 + e1 {
            lemma_pow2_strictly_increases(k + 23, 23 + e1);
        }
    }
}

/// A binary64 magnitude is below `2^(k - 1023)` exactly when its exponent
/// field is below `k`: `|x| * 2^1075 < 2^(k + 52)`.
pub proof fn lemma_f64_scaled_below(x: u64, k: nat)
    requires
        1 <= k <= 0x7ff,
    ensures
        (f64_scaled(x) < pow2(k + 52)) == (f64_exp(x) < k),
{
    lemma_u64_bits(x);
    lemma2_to64();
    lemma2_to64_rest();
    let e = f64_exp(x);
    let e1: nat = if e == 0 { 1 } else { e };
    lemma_pow2_pos(e1);
    assert(e < 0x800) by {
        lemma_mod_bound((x as nat / 0x10_0000_0000_0000) as int, 0x800);
    }
    assert(f64_frac(x) < 0x10_0000_0000_0000) by {
        lemma_mod_bound(x as int, 0x10_0000_0000_0000);
    }
    if e < k {
        assert(f64_mant(x) < pow2(53));
        lemma_mul_strict_inequality(f64_mant(x) as int, pow2(53) as int, pow2(e1) as int);
        lemma_pow2_adds(53, e1);
        if 53 + e1 < k + 52 {
            lemma_pow2_strictly_increases(53 + e1, k + 52);
        }
    } else {
        assert(f64_mant(x) >= pow2(52));
        lemma_mul_inequality(pow2(52) as int, f64_mant(x) as int, pow2(e1) as int);
        lemma_pow2_adds(52, e1);
        if k + 52 < 52 + e1 {
            lemma_pow2_strictly_increases(k + 52, 52 + e1);
        }
    }
}

} // verus!
