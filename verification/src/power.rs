//! Whether the exponent of a power is an integer, and of which parity: the
//! classification that decides the sign of `x^y` for a negative base.
use vstd::prelude::*;
use vstd::arithmetic::power2::*;
use vstd::arithmetic::div_mod::*;
use vstd::arithmetic::mul::*;
use vstd::bits::{lemma_u32_shr_is_div, lemma_u32_shl_is_mul};
use crate::arith::{lemma_u32_bits, lemma_u64_bits};
use crate::float_bits::{f32_exp, f32_frac, f32_sig, f64_exp, f64_frac, f64_mant};

verus! {

/// Not an integer.
pub const NOT_INT: i32 = 0;

/// An odd integer.
pub const ODD_INT: i32 = 1;

/// An even integer.
pub const EVEN_INT: i32 = 2;

/// How the magnitude `m / 2^s` relates to the integers: `NOT_INT` when
/// `2^s` does not divide `m`, else `ODD_INT` or `EVEN_INT` by the parity
/// of the quotient.
pub open spec fn int_kind(m: nat, s: nat) -> i32 {
    if m % pow2(s) != 0 {
        NOT_INT
    } else if (m / pow2(s)) % 2 == 1 {
        ODD_INT
    } else {
        EVEN_INT
    }
}

/// The classification of a binary32 exponent `y` (either sign): its
/// magnitude is `f32_sig(y) / 2^(150 - e)` for the exponent field `e`.
/// Magnitudes below one (zero among them) count as not integral, and
/// fields of 151 and above (infinities and NaNs among them) as even.
pub open spec fn f32_int_kind(y: u32) -> i32 {
    let e = f32_exp(y);
    if e >= 151 {
        EVEN_INT
    } else if e < 127 {
        NOT_INT
    } else {
        int_kind(f32_sig(y), (150 - e) as nat)
    }
}

/// Determine whether the binary32 `y`, given by its bit pattern, is an odd
/// integer, an even integer or not an integer.
pub fn yisintf(y: u32) -> (r: i32)
    ensures
        r == f32_int_kind(y),
{
    let iy: u32 = y & 0x7fff_ffff;
    proof {
        lemma_u32_bits(y);
        lemma_u32_bits(iy);
        assert(iy == f32_exp(y) * 0x80_0000 + f32_frac(y));
    }
    if iy >= 0x4b80_0000 {
        EVEN_INT
    } else if iy >= 0x3f80_0000 {
        let k: u32 = (iy >> 23) - 0x7f;
        let sh: u32 = 23 - k;
        let j: u32 = iy >> sh;
        proof {
            let e = f32_exp(y);
            let f = f32_frac(y);
            assert(e == iy >> 23);
            assert(sh == 150 - e);
            lemma_shift_parts(iy, sh);
            lemma_pow2_pos(sh as nat);
            lemma2_to64();
            if sh < 23 {
                lemma_split_parity(1, f, 23, sh as nat);
                lemma_split_parity(e, f, 23, sh as nat);
            } else {
                assert(pow2(23) == 0x80_0000);
                assert(f32_sig(y) == 0x80_0000 + f);
                lemma_fundamental_div_mod_converse(f32_sig(y) as int, 0x80_0000, 1, f as int);
                lemma_fundamental_div_mod_converse(iy as int, 0x80_0000, e as int, f as int);
            }
        }
        if (j << sh) == iy {
            2 - (j & 1) as i32
        } else {
            NOT_INT
        }
    } else {
        NOT_INT
    }
}

/// The classification of a binary64 exponent `y` (either sign): its
/// magnitude is `f64_mant(y) / 2^(1075 - e)` for the exponent field `e`.
/// Magnitudes below one (zero among them) count as not integral, and
/// fields of 1076 and above (infinities and NaNs among them) as even.
pub open spec fn f64_int_kind(y: u64) -> i32 {
    let e = f64_exp(y);
    if e >= 1076 {
        EVEN_INT
    } else if e < 1023 {
        NOT_INT
    } else {
        int_kind(f64_mant(y), (1075 - e) as nat)
    }
}

/// The high word of a binary64 pattern without its sign, and the low word.
proof fn lemma_f64_words(y: u64, iy: u32, ly: u32)
    requires
        iy == ((y >> 32) as u32) & 0x7fff_ffff,
        ly == y as u32,
    ensures
        iy == f64_exp(y) * 0x10_0000 + f64_frac(y) / 0x1_0000_0000,
        ly == f64_frac(y) % 0x1_0000_0000,
        f64_frac(y) == (f64_frac(y) / 0x1_0000_0000) * 0x1_0000_0000 + ly,
        f64_frac(y) / 0x1_0000_0000 < 0x10_0000,
{
    let fb: u64 = y & (u64::MAX >> 12);
    assert(iy as u64 == ((y >> 52) & 0x7ff) * 0x10_0000 + (fb >> 32)) by (bit_vector)
        requires
            iy == ((y >> 32) as u32) & 0x7fff_ffff,
            fb == y & (u64::MAX >> 12),
    ;
    assert(ly as u64 == fb & 0x0000_0000_ffff_ffff) by (bit_vector)
        requires
            ly == y as u32,
            fb == y & (u64::MAX >> 12),
    ;
    lemma_u64_bits(y);
    lemma_u64_bits(fb);
    lemma_fundamental_div_mod(fb as int, 0x1_0000_0000);
}

/// Determine whether the binary64 `y`, given by its bit pattern, is an odd
/// integer, an even integer or not an integer.
pub fn yisint(y: u64) -> (r: i32)
    ensures
        r == f64_int_kind(y),
{
    let iy: u32 = ((y >> 32) as u32) & 0x7fff_ffff;
    let ly: u32 = y as u32;
    let ghost e = f64_exp(y);
    let ghost h = f64_frac(y) / 0x1_0000_0000;
    proof {
        lemma_f64_words(y, iy, ly);
        lemma_u32_bits(iy);
        lemma2_to64();
        lemma2_to64_rest();
        assert(iy as nat / 0x10_0000 == e) by {
            lemma_fundamental_div_mod_converse(iy as int, 0x10_0000, e as int, h as int);
        }
        assert(e != 0 ==> f64_mant(y) == (h + 0x10_0000) * 0x1_0000_0000 + ly);
    }
    if iy >= 0x4340_0000 {
        EVEN_INT
    } else if iy >= 0x3ff0_0000 {
        assert(iy >> 20 == iy / 0x10_0000) by (bit_vector);
        let k: u32 = (iy >> 20) - 0x3ff;
        if k > 20 {
            let sh: u32 = 52 - k;
            let j: u32 = ly >> sh;
            proof {
                lemma_shift_parts(ly, sh);
                lemma_split_parity(h + 0x10_0000, ly as nat, 32, sh as nat);
            }
            if (j << sh) == ly {
                2 - (j & 1) as i32
            } else {
                NOT_INT
            }
        } else if ly == 0 {
            let sh: u32 = 20 - k;
            let j: u32 = iy >> sh;
            proof {
                let a = h + 0x10_0000;
                let s = (1075 - e) as nat;
                lemma_shift_parts(iy, sh);
                lemma_pow2_pos(sh as nat);
                lemma_pow2_adds(32, sh as nat);
                lemma_mul_is_commutative(a as int, 0x1_0000_0000);
                lemma_truncate_middle(a as int, 0x1_0000_0000, pow2(sh as nat) as int);
                lemma_div_denominator((a * 0x1_0000_0000) as int, 0x1_0000_0000, pow2(sh as nat) as int);
                lemma_div_by_multiple(a as int, 0x1_0000_0000);
                assert(int_kind(f64_mant(y), s) == int_kind(a, sh as nat));
                if sh < 20 {
                    lemma_split_parity(1, h, 20, sh as nat);
                    lemma_split_parity(e, h, 20, sh as nat);
                } else {
                    lemma_fundamental_div_mod_converse(a as int, 0x10_0000, 1, h as int);
                    lemma_fundamental_div_mod_converse(iy as int, 0x10_0000, e as int, h as int);
                }
            }
            if (j << sh) == iy {
                2 - (j & 1) as i32
            } else {
                NOT_INT
            }
        } else {
            proof {
                let s = (1075 - e) as nat;
                let m = f64_mant(y) as int;
                lemma_pow2_pos((s - 32) as nat);
                lemma_pow2_adds(32, (s - 32) as nat);
                lemma_mod_mod(m, 0x1_0000_0000, pow2((s - 32) as nat) as int);
                lemma_fundamental_div_mod_converse(m, 0x1_0000_0000, (h + 0x10_0000) as int, ly as int);
            }
            NOT_INT
        }
    } else {
        NOT_INT
    }
}

/// What the power functions do with a pair of arguments before, or instead
/// of, evaluating `|x|^y` in floating point.
#[derive(PartialEq, Eq, Structural, Debug, Clone, Copy)]
pub enum PowStep {
    /// The result is `1`.
    One,
    /// An argument is a NaN: the result is `x + y`.
    Sum,
    /// The result is `y`.
    Y,
    /// The result is `+0`.
    Zero,
    /// The result is `-y`.
    NegY,
    /// The result is `x`.
    X,
    /// The result is `1 / x`.
    RecipX,
    /// The result is `x * x`.
    Square,
    /// The result is the square root of `x`.
    Sqrt,
    /// `x` is a zero, an infinity or a one: the result is `|x|`, or `1 / |x|`
    /// when `recip`, negated when `negate`.
    Edge { recip: bool, negate: bool },
    /// The result is a NaN.
    Nan,
    /// The result overflows, with the sign given by `negative`.
    Overflow { negative: bool },
    /// The result underflows, with the sign given by `negative`.
    Underflow { negative: bool },
    /// `|y|` is huge and `x` close to one: `log(x)` comes from a short
    /// series; the result's sign is given by `negative`.
    NearOne { negative: bool },
    /// The general evaluation, with the result's sign given by `negative`.
    Regular { negative: bool },
}

/// The binary64 pattern without its sign bit.
pub open spec fn abs64(x: u64) -> nat {
    x as nat % 0x8000_0000_0000_0000
}

/// The binary64 pattern has its sign bit set.
pub open spec fn neg64(x: u64) -> bool {
    x as nat >= 0x8000_0000_0000_0000
}

/// The binary64 pattern of `1`.
pub const F64_ONE: u64 = 0x3ff0_0000_0000_0000;

/// The binary64 pattern of `2`.
pub const F64_TWO: u64 = 0x4000_0000_0000_0000;

/// The binary64 pattern of `0.5`.
pub const F64_HALF: u64 = 0x3fe0_0000_0000_0000;

/// The binary64 pattern of positive infinity.
pub const F64_INF: u64 = 0x7ff0_0000_0000_0000;

/// The step that `pow` takes for the binary64 patterns `x` and `y`.
pub open spec fn pow_step(x: u64, y: u64) -> PowStep {
    let ax = abs64(x);
    let ay = abs64(y);
    let kind = if neg64(x) { f64_int_kind(y) } else { NOT_INT };
    let s = neg64(x) && kind == ODD_INT;
    if ay == 0 || x == F64_ONE {
        PowStep::One
    } else if ax > F64_INF || ay > F64_INF {
        PowStep::Sum
    } else if ay == F64_INF {
        if ax == F64_ONE {
            PowStep::One
        } else if ax > F64_ONE {
            if neg64(y) { PowStep::Zero } else { PowStep::Y }
        } else if neg64(y) {
            PowStep::NegY
        } else {
            PowStep::Zero
        }
    } else if ay == F64_ONE {
        if neg64(y) { PowStep::RecipX } else { PowStep::X }
    } else if y == F64_TWO {
        PowStep::Square
    } else if y == F64_HALF && !neg64(x) {
        PowStep::Sqrt
    } else if ax == 0 || ax == F64_INF || ax == F64_ONE {
        if neg64(x) && ax == F64_ONE && kind == NOT_INT {
            PowStep::Nan
        } else {
            PowStep::Edge { recip: neg64(y), negate: s }
        }
    } else if neg64(x) && kind == NOT_INT {
        PowStep::Nan
    } else if ay >= 0x41e0_0001_0000_0000 {
        if ay >= 0x43f0_0001_0000_0000 {
            if (ax < F64_ONE) == neg64(y) {
                PowStep::Overflow { negative: false }
            } else {
                PowStep::Underflow { negative: false }
            }
        } else if ax < 0x3fef_ffff_0000_0000 {
            if neg64(y) { PowStep::Overflow { negative: s } } else { PowStep::Underflow { negative: s } }
        } else if ax >= 0x3ff0_0001_0000_0000 {
            if neg64(y) { PowStep::Underflow { negative: s } } else { PowStep::Overflow { negative: s } }
        } else {
            PowStep::NearOne { negative: s }
        }
    } else {
        PowStep::Regular { negative: s }
    }
}

/// The high and low words of a binary64 pattern, and the high word without
/// the sign.
proof fn lemma_words64(x: u64, hx: u32, lx: u32, ix: u32)
    requires
        hx == (x >> 32) as u32,
        lx == x as u32,
        ix == hx & 0x7fff_ffff,
    ensures
        x == hx * 0x1_0000_0000 + lx,
        abs64(x) == ix * 0x1_0000_0000 + lx,
        neg64(x) == (hx >= 0x8000_0000),
        hx == ix + if hx >= 0x8000_0000 { 0x8000_0000nat } else { 0 },
{
    assert(x == (hx as u64) * 0x1_0000_0000 + lx as u64) by (bit_vector)
        requires
            hx == (x >> 32) as u32,
            lx == x as u32,
    ;
    assert(hx as u64 == ix as u64 + (if hx >= 0x8000_0000 { 0x8000_0000u64 } else { 0u64 }))
        by (bit_vector)
        requires
            ix == hx & 0x7fff_ffff,
    ;
}

/// Decide the step `pow` takes for `x` and `y`, given by their bit
/// patterns: the special values of either argument, the sign of the result
/// for a negative base, and the ranges where it surely overflows or
/// underflows.
pub fn pow_step_of(x: u64, y: u64) -> (r: PowStep)
    ensures
        r == pow_step(x, y),
{
    let hx: u32 = (x >> 32) as u32;
    let lx: u32 = x as u32;
    let hy: u32 = (y >> 32) as u32;
    let ly: u32 = y as u32;
    let ix: u32 = hx & 0x7fff_ffff;
    let iy: u32 = hy & 0x7fff_ffff;
    proof {
        lemma_words64(x, hx, lx, ix);
        lemma_words64(y, hy, ly, iy);
    }
    let x_neg: bool = hx >= 0x8000_0000;
    let y_neg: bool = hy >= 0x8000_0000;
    /* x**0 = 1, even if x is NaN */
    if (iy | ly) == 0 {
        assert((iy | ly) == 0 <==> (iy == 0 && ly == 0)) by (bit_vector);
        return PowStep::One;
    }
    assert((iy | ly) == 0 <==> (iy == 0 && ly == 0)) by (bit_vector);
    /* 1**y = 1, even if y is NaN */
    if hx == 0x3ff0_0000 && lx == 0 {
        return PowStep::One;
    }
    /* NaN if either arg is NaN */
    if ix > 0x7ff0_0000 || (ix == 0x7ff0_0000 && lx != 0) || iy > 0x7ff0_0000 || (iy
        == 0x7ff0_0000 && ly != 0) {
        return PowStep::Sum;
    }
    let yisint: i32 = if x_neg { yisint(y) } else { NOT_INT };
    let s: bool = x_neg && yisint == ODD_INT;
    if ly == 0 {
        /* special value of y */
        if iy == 0x7ff0_0000 {
            /* y is +-inf */
            return if ix == 0x3ff0_0000 && lx == 0 {
                PowStep::One
            } else if ix >= 0x3ff0_0000 {
                if !y_neg { PowStep::Y } else { PowStep::Zero }
            } else {
                if !y_neg { PowStep::Zero } else { PowStep::NegY }
            };
        }
        if iy == 0x3ff0_0000 {
            /* y is +-1 */
            return if !y_neg { PowStep::X } else { PowStep::RecipX };
        }
        if hy == 0x4000_0000 {
            /* y is 2 */
            return PowStep::Square;
        }
        if hy == 0x3fe0_0000 && !x_neg {
            /* y is 0.5 and x >= +0 */
            return PowStep::Sqrt;
        }
    }
    if lx == 0 && (ix == 0x7ff0_0000 || ix == 0 || ix == 0x3ff0_0000) {
        /* x is +-0,+-inf,+-1 */
        if x_neg && ix == 0x3ff0_0000 && yisint == NOT_INT {
            /* (-1)**non-int is NaN */
            return PowStep::Nan;
        }
        return PowStep::Edge { recip: y_neg, negate: s };
    }
    if x_neg && yisint == NOT_INT {
        /* (x<0)**(non-int) is NaN */
        return PowStep::Nan;
    }
    /* |y| is huge */
    if iy > 0x41e0_0000 {
        /* if |y| > 2**31 */
        if iy > 0x43f0_0000 {
            /* if |y| > 2**64, must o/uflow */
            return if (ix <= 0x3fef_ffff) == y_neg {
                PowStep::Overflow { negative: false }
            } else {
                PowStep::Underflow { negative: false }
            };
        }
        /* over/underflow if x is not close to one */
        if ix < 0x3fef_ffff {
            return if y_neg {
                PowStep::Overflow { negative: s }
            } else {
                PowStep::Underflow { negative: s }
            };
        }
        if ix > 0x3ff0_0000 {
            return if !y_neg {
                PowStep::Overflow { negative: s }
            } else {
                PowStep::Underflow { negative: s }
            };
        }
        return PowStep::NearOne { negative: s };
    }
    PowStep::Regular { negative: s }
}

/// The binary32 pattern without its sign bit.
pub open spec fn abs32(x: u32) -> nat {
    x as nat % 0x8000_0000
}

/// The binary32 pattern has its sign bit set.
pub open spec fn neg32(x: u32) -> bool {
    x as nat >= 0x8000_0000
}

/// The binary32 pattern of `1`.
pub const F32_ONE: u32 = 0x3f80_0000;

/// The binary32 pattern of `2`.
pub const F32_TWO: u32 = 0x4000_0000;

/// The binary32 pattern of `0.5`.
pub const F32_HALF: u32 = 0x3f00_0000;

/// The binary32 pattern of positive infinity.
pub const F32_INF: u32 = 0x7f80_0000;

/// The step that `powf` takes for the binary32 patterns `x` and `y`.
pub open spec fn powf_step(x: u32, y: u32) -> PowStep {
    let ax = abs32(x);
    let ay = abs32(y);
    let kind = if neg32(x) { f32_int_kind(y) } else { NOT_INT };
    let s = neg32(x) && kind == ODD_INT;
    if ay == 0 || x == F32_ONE {
        PowStep::One
    } else if ax > F32_INF || ay > F32_INF {
        PowStep::Sum
    } else if ay == F32_INF {
        if ax == F32_ONE {
            PowStep::One
        } else if ax > F32_ONE {
            if neg32(y) { PowStep::Zero } else { PowStep::Y }
        } else if neg32(y) {
            PowStep::NegY
        } else {
            PowStep::Zero
        }
    } else if ay == F32_ONE {
        if neg32(y) { PowStep::RecipX } else { PowStep::X }
    } else if y == F32_TWO {
        PowStep::Square
    } else if y == F32_HALF && !neg32(x) {
        PowStep::Sqrt
    } else if ax == 0 || ax == F32_INF || ax == F32_ONE {
        if neg32(x) && ax == F32_ONE && kind == NOT_INT {
            PowStep::Nan
        } else {
            PowStep::Edge { recip: neg32(y), negate: s }
        }
    } else if neg32(x) && kind == NOT_INT {
        PowStep::Nan
    } else if ay > 0x4d00_0000 {
        if ax < 0x3f7f_fff8 {
            if neg32(y) { PowStep::Overflow { negative: s } } else { PowStep::Underflow { negative: s } }
        } else if ax > 0x3f80_0007 {
            if neg32(y) { PowStep::Underflow { negative: s } } else { PowStep::Overflow { negative: s } }
        } else {
            PowStep::NearOne { negative: s }
        }
    } else {
        PowStep::Regular { negative: s }
    }
}

/// Decide the step `powf` takes for `x` and `y`, given by their bit
/// patterns: the special values of either argument, the sign of the result
/// for a negative base, and the ranges where it surely overflows or
/// underflows.
pub fn powf_step_of(x: u32, y: u32) -> (r: PowStep)
    ensures
        r == powf_step(x, y),
{
    let ix: u32 = x & 0x7fff_ffff;
    let iy: u32 = y & 0x7fff_ffff;
    proof {
        lemma_u32_bits(x);
        lemma_u32_bits(y);
    }
    let x_neg: bool = x >= 0x8000_0000;
    let y_neg: bool = y >= 0x8000_0000;
    /* x**0 = 1, even if x is NaN */
    if iy == 0 {
        return PowStep::One;
    }
    /* 1**y = 1, even if y is NaN */
    if x == F32_ONE {
        return PowStep::One;
    }
    /* NaN if either arg is NaN */
    if ix > F32_INF || iy > F32_INF {
        return PowStep::Sum;
    }
    let yisint: i32 = if x_neg { yisintf(y) } else { NOT_INT };
    let s: bool = x_neg && yisint == ODD_INT;
    if iy == F32_INF {
        /* y is +-inf */
        return if ix == F32_ONE {
            PowStep::One
        } else if ix > F32_ONE {
            if !y_neg { PowStep::Y } else { PowStep::Zero }
        } else {
            if !y_neg { PowStep::Zero } else { PowStep::NegY }
        };
    }
    if iy == F32_ONE {
        /* y is +-1 */
        return if !y_neg { PowStep::X } else { PowStep::RecipX };
    }
    if y == F32_TWO {
        /* y is 2 */
        return PowStep::Square;
    }
    if y == F32_HALF && !x_neg {
        /* y is 0.5 and x >= +0 */
        return PowStep::Sqrt;
    }
    if ix == F32_INF || ix == 0 || ix == F32_ONE {
        /* x is +-0,+-inf,+-1 */
        if x_neg && ix == F32_ONE && yisint == NOT_INT {
            /* (-1)**non-int is NaN */
            return PowStep::Nan;
        }
        return PowStep::Edge { recip: y_neg, negate: s };
    }
    if x_neg && yisint == NOT_INT {
        /* (x<0)**(non-int) is NaN */
        return PowStep::Nan;
    }
    /* |y| is huge */
    if iy > 0x4d00_0000 {
        /* over/underflow if x is not close to one */
        if ix < 0x3f7f_fff8 {
            return if y_neg {
                PowStep::Overflow { negative: s }
            } else {
                PowStep::Underflow { negative: s }
            };
        }
        if ix > 0x3f80_0007 {
            return if !y_neg {
                PowStep::Overflow { negative: s }
            } else {
                PowStep::Underflow { negative: s }
            };
        }
        return PowStep::NearOne { negative: s };
    }
    PowStep::Regular { negative: s }
}

/// `x^0 = 1` even when `x` is a NaN, and `1^y = 1` even when `y` is a NaN,
/// for both formats.
pub proof fn law_pow_one(x: u64, y: u64, xf: u32, yf: u32)
    ensures
        abs64(y) == 0 ==> pow_step(x, y) == PowStep::One,
        x == F64_ONE ==> pow_step(x, y) == PowStep::One,
        abs32(yf) == 0 ==> powf_step(xf, yf) == PowStep::One,
        xf == F32_ONE ==> powf_step(xf, yf) == PowStep::One,
{
}

/// A NaN argument gives the NaN `x + y`, but for the two cases above.
pub proof fn law_pow_nan(x: u64, y: u64, xf: u32, yf: u32)
    ensures
        abs64(y) != 0 && x != F64_ONE && (abs64(x) > F64_INF || abs64(y) > F64_INF)
            ==> pow_step(x, y) == PowStep::Sum,
        abs32(yf) != 0 && xf != F32_ONE && (abs32(xf) > F32_INF || abs32(yf) > F32_INF)
            ==> powf_step(xf, yf) == PowStep::Sum,
{
}

/// For a negative finite base other than `-0` and `-1`, and a finite
/// exponent other than `0`, `1`, `-1`, `2` and `0.5`: a non-integral
/// exponent gives a NaN, an odd one a negative result and an even one a
/// positive result (`(-x)^y = -(x^y)` for odd `y`).
pub proof fn law_pow_negative_base(x: u64, y: u64)
    requires
        neg64(x),
        0 < abs64(x) < F64_INF,
        abs64(x) != F64_ONE,
        0 < abs64(y) < F64_INF,
        abs64(y) != F64_ONE,
        y != F64_TWO,
    ensures
        f64_int_kind(y) == NOT_INT ==> pow_step(x, y) == PowStep::Nan,
        f64_int_kind(y) != NOT_INT ==> match pow_step(x, y) {
            PowStep::Overflow { negative } => negative == (f64_int_kind(y) == ODD_INT),
            PowStep::Underflow { negative } => negative == (f64_int_kind(y) == ODD_INT),
            PowStep::NearOne { negative } => negative == (f64_int_kind(y) == ODD_INT),
            PowStep::Regular { negative } => negative == (f64_int_kind(y) == ODD_INT),
            _ => false,
        },
{
    lemma_u64_bits(y);
}

/// A huge exponent on a positive finite base away from one: `x^y` surely
/// overflows when `x > 1` and `y > 0`, or when `x < 1` and `y < 0`, and
/// surely underflows in the other two cases. `x` is away from one when it
/// is below `1 - 2^-20` or above `1 + 2^-20`; `y` is huge when `|y| > 2^31`.
pub proof fn law_pow_huge_exponent(x: u64, y: u64)
    requires
        !neg64(x),
        0 < abs64(x) < F64_INF,
        abs64(x) < 0x3fef_ffff_0000_0000 || abs64(x) >= 0x3ff0_0001_0000_0000,
        0x41e0_0001_0000_0000 <= abs64(y) < F64_INF,
    ensures
        pow_step(x, y) == (if (abs64(x) > F64_ONE) == !neg64(y) {
            PowStep::Overflow { negative: false }
        } else {
            PowStep::Underflow { negative: false }
        }),
{
    lemma_u64_bits(x);
    lemma_f64_abs_fields(y);
}

/// The binary32 counterpart of `law_pow_huge_exponent`: `x` is away from
/// one below `1 - 2^-21` or above `1 + 2^-20`, `y` huge when `|y| > 2^27`.
pub proof fn law_powf_huge_exponent(x: u32, y: u32)
    requires
        !neg32(x),
        0 < abs32(x) < F32_INF,
        abs32(x) < 0x3f7f_fff8 || abs32(x) > 0x3f80_0007,
        0x4d00_0000 < abs32(y) < F32_INF,
    ensures
        powf_step(x, y) == (if (abs32(x) > F32_ONE) == !neg32(y) {
            PowStep::Overflow { negative: false }
        } else {
            PowStep::Underflow { negative: false }
        }),
{
    lemma_u32_bits(x);
    lemma_f32_abs_fields(y);
}

/// The binary32 counterpart of `law_pow_negative_base`.
pub proof fn law_powf_negative_base(x: u32, y: u32)
    requires
        neg32(x),
        0 < abs32(x) < F32_INF,
        abs32(x) != F32_ONE,
        0 < abs32(y) < F32_INF,
        abs32(y) != F32_ONE,
        y != F32_TWO,
    ensures
        f32_int_kind(y) == NOT_INT ==> powf_step(x, y) == PowStep::Nan,
        f32_int_kind(y) != NOT_INT ==> match powf_step(x, y) {
            PowStep::Overflow { negative } => negative == (f32_int_kind(y) == ODD_INT),
            PowStep::Underflow { negative } => negative == (f32_int_kind(y) == ODD_INT),
            PowStep::NearOne { negative } => negative == (f32_int_kind(y) == ODD_INT),
            PowStep::Regular { negative } => negative == (f32_int_kind(y) == ODD_INT),
            _ => false,
        },
{
}

/// The binary64 pattern with its sign bit flipped: `-x`.
pub open spec fn flip64(x: u64) -> u64 {
    if neg64(x) {
        (x - 0x8000_0000_0000_0000) as u64
    } else {
        (x + 0x8000_0000_0000_0000) as u64
    }
}

/// The binary64 pattern of `-0`.
pub open spec fn f64_neg_zero() -> u64 {
    0x8000_0000_0000_0000
}

/// The bit pattern that a step gives for a base that is a zero or an
/// infinity, where no rounding is involved: `|x|`, `1 / |x|` and `x * x`
/// are then zeros or infinities. `None` for the steps that do not end
/// there.
pub open spec fn zero_inf_result(step: PowStep, x: u64, y: u64) -> Option<u64> {
    let ax = abs64(x) as u64;
    let inv: u64 = if ax == 0 { F64_INF } else { 0 };
    match step {
        PowStep::One => Some(F64_ONE),
        PowStep::Y => Some(y),
        PowStep::Zero => Some(0),
        PowStep::NegY => Some(flip64(y)),
        PowStep::X => Some(x),
        PowStep::RecipX => Some(if neg64(x) { flip64(inv) } else { inv }),
        PowStep::Square => Some(ax),
        PowStep::Sqrt => Some(x),
        PowStep::Edge { recip, negate } => {
            let z = if recip { inv } else { ax };
            Some(if negate { flip64(z) } else { z })
        },
        _ => None,
    }
}

/// The fields of `-y` are those of `y`, but for the sign.
pub(crate) proof fn lemma_flip64(y: u64)
    ensures
        abs64(flip64(y)) == abs64(y),
        neg64(flip64(y)) == !neg64(y),
        f64_exp(flip64(y)) == f64_exp(y),
        f64_frac(flip64(y)) == f64_frac(y),
        f64_mant(flip64(y)) == f64_mant(y),
        f64_int_kind(flip64(y)) == f64_int_kind(y),
        flip64(flip64(y)) == y,
{
    lemma_u64_bits(y);
    let f = flip64(y);
    lemma_u64_bits(f);
    let a = abs64(y) as int;
    if neg64(y) {
        lemma_fundamental_div_mod_converse(y as int, 0x8000_0000_0000_0000, 1, a);
        lemma_fundamental_div_mod_converse(f as int, 0x8000_0000_0000_0000, 0, a);
    } else {
        lemma_fundamental_div_mod_converse(y as int, 0x8000_0000_0000_0000, 0, a);
        lemma_fundamental_div_mod_converse(f as int, 0x8000_0000_0000_0000, 1, a);
    }
}

/// The exponent and fraction fields read from the magnitude bits alone,
/// and the classification of a few exponents.
pub(crate) proof fn lemma_f64_abs_fields(y: u64)
    ensures
        f64_exp(y) == abs64(y) / 0x10_0000_0000_0000,
        f64_frac(y) == abs64(y) % 0x10_0000_0000_0000,
        abs64(y) == 0x3ff0_0000_0000_0000 ==> f64_int_kind(y) == ODD_INT,
        abs64(y) == 0x4000_0000_0000_0000 ==> f64_int_kind(y) == EVEN_INT,
        abs64(y) == 0x3fe0_0000_0000_0000 ==> f64_int_kind(y) == NOT_INT,
        abs64(y) >= 0x4340_0000_0000_0000 ==> f64_int_kind(y) == EVEN_INT,
{
    let a = abs64(y) as int;
    let sg = y as int / 0x8000_0000_0000_0000;
    lemma_fundamental_div_mod(y as int, 0x8000_0000_0000_0000);
    let q = a / 0x10_0000_0000_0000;
    let r = a % 0x10_0000_0000_0000;
    lemma_fundamental_div_mod(a, 0x10_0000_0000_0000);
    assert(y as int == (sg * 0x800 + q) * 0x10_0000_0000_0000 + r);
    lemma_fundamental_div_mod_converse(y as int, 0x10_0000_0000_0000, sg * 0x800 + q, r);
    lemma_fundamental_div_mod_converse(sg * 0x800 + q, 0x800, sg, q);
    lemma_fundamental_div_mod_converse(y as int, 0x10_0000_0000_0000, sg * 0x800 + q, r);
    lemma2_to64();
    lemma2_to64_rest();
    if a == 0x3ff0_0000_0000_0000 {
        assert(f64_mant(y) == 0x10_0000_0000_0000);
        lemma_fundamental_div_mod_converse(0x10_0000_0000_0000, pow2(52) as int, 1, 0);
    }
    if a == 0x4000_0000_0000_0000 {
        assert(f64_mant(y) == 0x10_0000_0000_0000);
        lemma_fundamental_div_mod_converse(0x10_0000_0000_0000, pow2(51) as int, 2, 0);
    }
}

/// An infinite base: `(+inf)^y` is `+inf` for `y > 0` and `+0` for `y < 0`,
/// and `(-inf)^y` is `(-0)^(-y)`, for every `y` that is not a zero or a
/// NaN. Both results come without rounding.
pub proof fn law_pow_infinite_base(x: u64, y: u64)
    requires
        abs64(x) == F64_INF,
        0 < abs64(y) <= F64_INF,
    ensures
        !neg64(x) ==> zero_inf_result(pow_step(x, y), x, y) == Some(
            if neg64(y) { 0u64 } else { F64_INF },
        ),
        neg64(x) ==> zero_inf_result(pow_step(x, y), x, y) is Some,
        neg64(x) ==> zero_inf_result(pow_step(x, y), x, y) == zero_inf_result(
            pow_step(f64_neg_zero(), flip64(y)),
            f64_neg_zero(),
            flip64(y),
        ),
{
    lemma_u64_bits(x);
    lemma_u64_bits(y);
    lemma_flip64(y);
    lemma_f64_abs_fields(y);
    lemma_f64_abs_fields(x);
    lemma_flip64(0);
    lemma_flip64(F64_INF);
    assert(abs64(f64_neg_zero()) == 0);
    assert(neg64(f64_neg_zero()));
}

/// The step for a negative base `x` and an integral `y` gives the result for
/// `|x|` (whose step is `sa`), negated when `y` is odd. The steps that
/// evaluate `|x|^y` carry that sign in their flag; `x` and `1 / x` are odd
/// in `x`, `x * x` even; `|x|` and `1 / |x|` are negated by `negate`. A
/// base of `-1` turns the step `One` of `+1` into one of those.
pub open spec fn sign_mirror(sx: PowStep, sa: PowStep, odd: bool, minus_one: bool) -> bool {
    match sa {
        PowStep::Regular { negative } => !negative && sx == PowStep::Regular { negative: odd },
        PowStep::NearOne { negative } => !negative && sx == PowStep::NearOne { negative: odd },
        PowStep::Overflow { negative } => !negative && sx == PowStep::Overflow { negative: odd },
        PowStep::Underflow { negative } => !negative && sx == PowStep::Underflow { negative: odd },
        PowStep::X => sx == PowStep::X && odd,
        PowStep::RecipX => sx == PowStep::RecipX && odd,
        PowStep::Square => sx == PowStep::Square && !odd,
        PowStep::Edge { recip, negate } => !negate && sx == PowStep::Edge { recip, negate: odd },
        PowStep::One => sx == PowStep::One || (minus_one && (
            (sx == PowStep::X && odd) || (sx == PowStep::RecipX && odd) || (sx == PowStep::Square
                && !odd) || (sx matches PowStep::Edge { negate, .. } && negate == odd))),
        _ => false,
    }
}

/// `(-a)^n == (-1)^n * a^n`: for a negative base that is not a NaN and a
/// finite integral exponent, the step of `pow` mirrors the step for `|x|`,
/// with the sign of the result set exactly when the exponent is odd.
pub proof fn law_pow_negative_integer_power(x: u64, y: u64)
    requires
        neg64(x),
        abs64(x) <= F64_INF,
        abs64(y) < F64_INF,
        abs64(y) == 0 || f64_int_kind(y) != NOT_INT,
    ensures
        sign_mirror(
            pow_step(x, y),
            pow_step(abs64(x) as u64, y),
            abs64(y) != 0 && f64_int_kind(y) == ODD_INT,
            abs64(x) == F64_ONE,
        ),
{
    lemma_u64_bits(x);
    lemma_u64_bits(y);
    let a = abs64(x) as u64;
    lemma_u64_bits(a);
    assert(abs64(a) == abs64(x) && !neg64(a)) by {
        lemma_fundamental_div_mod_converse(a as int, 0x8000_0000_0000_0000, 0, a as int);
    }
    lemma_f64_abs_fields(y);
}

/// The binary32 exponent field read from the magnitude bits alone, and the
/// classification of a few exponents.
pub(crate) proof fn lemma_f32_abs_fields(y: u32)
    ensures
        f32_exp(y) == abs32(y) / 0x80_0000,
        f32_frac(y) == abs32(y) % 0x80_0000,
        abs32(y) == 0x3f80_0000 ==> f32_int_kind(y) == ODD_INT,
        abs32(y) == 0x4000_0000 ==> f32_int_kind(y) == EVEN_INT,
        abs32(y) == 0x3f00_0000 ==> f32_int_kind(y) == NOT_INT,
        abs32(y) >= 0x4b80_0000 ==> f32_int_kind(y) == EVEN_INT,
{
    let a = abs32(y) as int;
    let sg = y as int / 0x8000_0000;
    lemma_fundamental_div_mod(y as int, 0x8000_0000);
    let q = a / 0x80_0000;
    let r = a % 0x80_0000;
    lemma_fundamental_div_mod(a, 0x80_0000);
    assert(y as int == (sg * 0x100 + q) * 0x80_0000 + r);
    lemma_fundamental_div_mod_converse(y as int, 0x80_0000, sg * 0x100 + q, r);
    lemma_fundamental_div_mod_converse(sg * 0x100 + q, 0x100, sg, q);
    lemma2_to64();
    if a == 0x3f80_0000 {
        assert(f32_sig(y) == 0x80_0000);
        lemma_fundamental_div_mod_converse(0x80_0000, pow2(23) as int, 1, 0);
    }
    if a == 0x4000_0000 {
        assert(f32_sig(y) == 0x80_0000);
        lemma_fundamental_div_mod_converse(0x80_0000, pow2(22) as int, 2, 0);
    }
}

/// The binary32 counterpart of `law_pow_negative_integer_power`:
/// `(-a)^n == (-1)^n * a^n` at the level of the steps of `powf`.
pub proof fn law_powf_negative_integer_power(x: u32, y: u32)
    requires
        neg32(x),
        abs32(x) <= F32_INF,
        abs32(y) < F32_INF,
        abs32(y) == 0 || f32_int_kind(y) != NOT_INT,
    ensures
        sign_mirror(
            powf_step(x, y),
            powf_step(abs32(x) as u32, y),
            abs32(y) != 0 && f32_int_kind(y) == ODD_INT,
            abs32(x) == F32_ONE,
        ),
{
    lemma_u32_bits(x);
    lemma_u32_bits(y);
    let a = abs32(x) as u32;
    assert(abs32(a) == abs32(x) && !neg32(a)) by {
        lemma_fundamental_div_mod_converse(a as int, 0x8000_0000, 0, a as int);
    }
    lemma_f32_abs_fields(y);
}

/// Shifting `x` right and back left by `sh` gives `x` back exactly when
/// `2^sh` divides `x`, and the low bit of the shifted value
/// is the parity of the quotient.
proof fn lemma_shift_parts(x: u32, sh: u32)
    requires
        sh < 32,
    ensures
        (x >> sh) == x as nat / pow2(sh as nat),
        ((x >> sh) << sh == x) == (x as nat % pow2(sh as nat) == 0),
        (x >> sh) & 1 == (x as nat / pow2(sh as nat)) % 2,
{
    lemma_u32_shr_is_div(x, sh);
    lemma_pow2_pos(sh as nat);
    let j = x >> sh;
    let p = pow2(sh as nat) as int;
    lemma_fundamental_div_mod(x as int, p);
    lemma_mod_bound(x as int, p);
    lemma_mul_is_commutative(p, j as int);
    lemma_u32_shl_is_mul(j, sh);
    assert(j & 1 == j % 2) by (bit_vector);
}

/// Splitting `e * 2^t + f` (with `f < 2^t`) by `2^s` for `s < t`: the
/// remainder is that of `f`, and the quotient has the parity of `f / 2^s`.
proof fn lemma_split_parity(e: nat, f: nat, t: nat, s: nat)
    requires
        s < t,
        f < pow2(t),
    ensures
        (e * pow2(t) + f) % pow2(s) == f % pow2(s),
        ((e * pow2(t) + f) / pow2(s)) % 2 == (f / pow2(s)) % 2,
{
    let p = pow2(s) as int;
    let u = pow2((t - s - 1) as nat) as int;
    lemma_pow2_pos(s);
    lemma_pow2_adds(s, (t - s) as nat);
    lemma_pow2_unfold((t - s) as nat);
    assert(pow2((t - s) as nat) == 2 * u);
    let q = f as int / p;
    let r = f as int % p;
    lemma_fundamental_div_mod(f as int, p);
    lemma_mod_bound(f as int, p);
    let hi = 2 * (e * u);
    assert(e * pow2(t) == hi * p) by {
        lemma_mul_is_associative(e as int, 2 * u, p);
        lemma_mul_is_commutative(2 * u, p);
        lemma_mul_is_associative(2, e as int, u);
        lemma_mul_is_commutative(2, e as int);
        lemma_mul_is_associative(e as int, 2, u);
        lemma_mul_is_associative(2 * (e * u), 1, p);
    }
    assert(e * pow2(t) + f == (hi + q) * p + r) by {
        lemma_mul_is_distributive_add_other_way(p, hi, q);
        lemma_mul_is_commutative(q, p);
    }
    lemma_fundamental_div_mod_converse((e * pow2(t) + f) as int, p, hi + q, r);
    lemma_mod_multiples_vanish(e * u, q, 2);
}

} // verus!
