//! The binary exponent of a binary64 value.
use vstd::prelude::*;
use vstd::arithmetic::power2::*;
use vstd::arithmetic::mul::*;
use crate::arith::{bit_len, lemma_bit_len_bounds, lemma_bit_len_le, lemma_bit_len_unique, lemma_pow2_128, lemma_u64_bits};
use crate::float_bits::{f64_exp, f64_frac, f64_mant};

verus! {

/// The result for a NaN argument.
pub const FP_ILOGBNAN: isize = -1 - ((!0) >> 1);

/// The result for a zero argument.
pub const FP_ILOGB0: isize = FP_ILOGBNAN;

/// What `ilogb` returns for a binary64 bit pattern: the exponent `p` of
/// `m * 2^p` with `1 <= m < 2` for nonzero finite values.
pub open spec fn ilogb_spec(x: u64) -> int {
    let e = f64_exp(x);
    let f = f64_frac(x);
    if e == 0 {
        if f == 0 {
            FP_ILOGB0 as int
        } else {
            bit_len(f) - 1075
        }
    } else if e == 0x7ff {
        if f != 0 {
            FP_ILOGBNAN as int
        } else {
            isize::MAX as int
        }
    } else {
        e - 0x3ff
    }
}

/// Get exponent (f64)
///
/// All nonzero, normal numbers can be described as `m*2^p`.
/// Examines the argument `x`, given by its bit pattern, and returns *p*.
pub fn ilogb(x: u64) -> (r: isize)
    ensures
        r == ilogb_spec(x),
{
    let mut i: u64 = x;
    proof {
        lemma_u64_bits(x);
    }
    let e = ((i >> 52) & 0x7ff) as isize;
    if e == 0 {
        proof {
            lemma_pow2_128();
            lemma2_to64();
        }
        i <<= 12;
        assert(i == f64_frac(x) * 0x1000 * pow2(0));
        if i == 0 {
            return FP_ILOGB0;
        }
        /* subnormal x */
        let ghost fr = f64_frac(x);
        proof {
            lemma_bit_len_bounds(fr);
            lemma2_to64_rest();
            lemma_bit_len_le(fr, 52);
            lemma2_to64();
            lemma_pow2_adds(bit_len(fr), 12);
            lemma_pow2_adds((bit_len(fr) - 1) as nat, 12);
            lemma_mul_strict_inequality(fr as int, pow2(bit_len(fr)) as int, 0x1000);
            lemma_mul_inequality(pow2((bit_len(fr) - 1) as nat) as int, fr as int, 0x1000);
        }
        let mut e: isize = -0x3ff;
        let mut k: u64 = 0;
        while (i >> 63) == 0
            invariant
                0 < fr < 0x10_0000_0000_0000,
                1 <= bit_len(fr) <= 52,
                k + bit_len(fr) <= 52,
                i == fr * 0x1000 * pow2(k as nat),
                i < pow2((bit_len(fr) + 12 + k) as nat),
                pow2((bit_len(fr) + 11 + k) as nat) <= i,
                e == -0x3ff - k,
            decreases 52 - k - bit_len(fr),
        {
            proof {
                lemma_u64_bits(i);
                lemma_pow2_128();
                if k + bit_len(fr) == 52 {
                    assert(pow2(63) <= i);
                }
                lemma_pow2_unfold((k + 1) as nat);
                lemma_pow2_unfold((bit_len(fr) + 12 + k + 1) as nat);
                lemma_pow2_unfold((bit_len(fr) + 11 + k + 1) as nat);
                lemma_mul_is_associative(fr as int * 0x1000, pow2(k as nat) as int, 2);
                lemma_pow2_increases_to((bit_len(fr) + 12 + k) as nat, 63);
            }
            e -= 1;
            i <<= 1;
            k += 1;
        }
        proof {
            lemma_u64_bits(i);
            lemma_pow2_128();
            if k + bit_len(fr) < 52 {
                lemma_pow2_increases_to((bit_len(fr) + 12 + k) as nat, 63);
            }
        }
        return e;
    }
    if e == 0x7ff {
        proof {
            lemma_u64_bits(x);
        }
        if (i << 12) != 0 {
            return FP_ILOGBNAN;
        } else {
            return isize::MAX;
        }
    }
    e - 0x3ff
}

/// `ilogb` is the floor of the binary logarithm: for a finite nonzero `x`
/// with result `p`, `2^p <= |x| < 2^(p + 1)`. With `|x| = m * 2^(e - 1075)`
/// (`m` the integer significand, `e` the exponent field, at least 1), that
/// is `2^(p + 1075) <= m * 2^e < 2^(p + 1076)`.
pub proof fn law_ilogb_floor_log2(x: u64)
    requires
        f64_exp(x) != 0x7ff,
        f64_mant(x) != 0,
    ensures
        ({
            let p = ilogb_spec(x);
            let e: nat = if f64_exp(x) == 0 { 1 } else { f64_exp(x) };
            &&& pow2((p + 1075) as nat) <= f64_mant(x) * pow2(e)
            &&& f64_mant(x) * pow2(e) < pow2((p + 1076) as nat)
        }),
{
    lemma2_to64();
    lemma2_to64_rest();
    let m = f64_mant(x);
    if f64_exp(x) == 0 {
        let b = bit_len(m);
        lemma_bit_len_bounds(m);
        lemma_bit_len_le(m, 52);
        lemma_pow2_unfold(b);
        lemma_pow2_unfold(b + 1);
        assert(m * pow2(1) == m * 2);
    } else {
        let e = f64_exp(x);
        lemma_pow2_adds(52, e);
        lemma_pow2_adds(53, e);
        lemma_mul_inequality(pow2(52) as int, m as int, pow2(e) as int);
        lemma_pow2_pos(e);
        lemma_mul_strict_inequality(m as int, pow2(53) as int, pow2(e) as int);
    }
}

/// `pow2` is monotone.
proof fn lemma_pow2_increases_to(a: nat, b: nat)
    requires
        a <= b,
    ensures
        pow2(a) <= pow2(b),
{
    if a < b {
        lemma_pow2_strictly_increases(a, b);
    }
}

} // verus!
