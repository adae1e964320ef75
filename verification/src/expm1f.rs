//! The decisions of `expm1f` on the bit pattern of its argument: the
//! special and huge arguments, and how the argument is reduced by `ln 2`.
use vstd::prelude::*;
use vstd::arithmetic::power2::pow2;
use crate::arith::{lemma_u32_bits, lemma_f32_scaled_below};
use crate::ceilf::lemma_f32_split;
use crate::float_bits::{f32_exp, f32_scaled};
use crate::power::{abs32, neg32};

verus! {

/// What `expm1f` does with a binary32 argument before its polynomial.
#[derive(PartialEq, Eq, Structural, Debug, Clone, Copy)]
pub enum Expm1fStep {
    /// A NaN: it is returned.
    Nan,
    /// `x <= -27 ln 2`: the result is `-1`.
    MinusOne,
    /// `x > 128 ln 2` (below the largest finite value of the result):
    /// the result overflows.
    Overflow,
    /// `ln2 / 2 < |x| < 3 ln2 / 2`: reduce by one `ln 2`, with the sign of
    /// `x`.
    OneLn2 { negative: bool },
    /// `|x| >= 3 ln2 / 2`: reduce by `k ln 2` for the nearest integer `k`.
    Reduce,
    /// `|x| < 2^-25`: the result is `x`; `subnormal` below the normal range.
    Tiny { subnormal: bool },
    /// The polynomial on `x` itself.
    Primary,
}

/// The step `expm1f` takes for the binary32 pattern `x`.
pub open spec fn expm1f_step(x: u32) -> Expm1fStep {
    let hx = abs32(x);
    if hx >= 0x4195_b844 && hx > 0x7f80_0000 {
        Expm1fStep::Nan
    } else if hx >= 0x4195_b844 && neg32(x) {
        Expm1fStep::MinusOne
    } else if hx >= 0x4195_b844 && hx > 0x42b1_7180 {
        Expm1fStep::Overflow
    } else if hx > 0x3eb1_7218 {
        if hx < 0x3f85_1592 {
            Expm1fStep::OneLn2 { negative: neg32(x) }
        } else {
            Expm1fStep::Reduce
        }
    } else if hx < 0x3300_0000 {
        Expm1fStep::Tiny { subnormal: hx < 0x0080_0000 }
    } else {
        Expm1fStep::Primary
    }
}

/// Decide the step `expm1f` takes for `x`, given by its binary32 bit
/// pattern: the special and huge arguments, and the reduction.
pub fn expm1f_step_of(x: u32) -> (r: Expm1fStep)
    ensures
        r == expm1f_step(x),
{
    let hx: u32 = x & 0x7fff_ffff;
    let sign: bool = (x >> 31) != 0;
    proof {
        lemma_u32_bits(x);
    }
    /* filter out huge and non-finite argument */
    if hx >= 0x4195_b844 {
        /* if |x|>=27*ln2 */
        if hx > 0x7f80_0000 {
            return Expm1fStep::Nan;
        }
        if sign {
            return Expm1fStep::MinusOne;
        }
        if hx > 0x42b1_7180 {
            return Expm1fStep::Overflow;
        }
    }
    /* argument reduction */
    if hx > 0x3eb1_7218 {
        /* if |x| > 0.5 ln2 */
        if hx < 0x3f85_1592 {
            /* and |x| < 1.5 ln2 */
            return Expm1fStep::OneLn2 { negative: sign };
        }
        return Expm1fStep::Reduce;
    }
    if hx < 0x3300_0000 {
        /* when |x|<2**-25, return x */
        return Expm1fStep::Tiny { subnormal: hx < 0x0080_0000 };
    }
    Expm1fStep::Primary
}

/// `expm1f` returns its argument unchanged exactly when `|x| < 2^-25`,
/// where `x` is within half a unit in the last place of `expm1(x)`; it
/// raises underflow there exactly for the subnormal arguments.
pub proof fn law_expm1f_tiny(x: u32)
    ensures
        (expm1f_step(x) is Tiny) == (f32_scaled(x) < pow2(125)),
        expm1f_step(x) matches Expm1fStep::Tiny { subnormal } ==> subnormal == (f32_exp(x) == 0),
{
    lemma_u32_bits(x);
    lemma_f32_split(x);
    lemma_f32_scaled_below(x, 102);
}

/// The binary32 patterns of `27 ln 2`, `ln 2 / 2` and `3 ln 2 / 2`, and of
/// the largest argument whose result is finite.
pub open spec fn ln2_27() -> nat { 0x4195_b844 }
pub open spec fn ln2_half() -> nat { 0x3eb1_7218 }
pub open spec fn ln2_3_half() -> nat { 0x3f85_1592 }
pub open spec fn expm1f_max() -> nat { 0x42b1_7180 }

/// The ranges of `expm1f`: a NaN comes back; `x <= -27 ln 2` gives `-1`;
/// arguments above the largest with a finite result overflow; `ln 2 / 2 <
/// |x| < 3 ln 2 / 2` is reduced by `ln 2` with the sign of `x`; larger ones
/// by a multiple of `ln 2`; the polynomial runs on `|x| <= ln 2 / 2`.
pub proof fn law_expm1f_ranges(x: u32)
    ensures
        (expm1f_step(x) is Nan) == (abs32(x) > 0x7f80_0000),
        (expm1f_step(x) is MinusOne) == (neg32(x) && ln2_27() <= abs32(x) <= 0x7f80_0000),
        (expm1f_step(x) is Overflow) == (!neg32(x) && expm1f_max() < abs32(x) <= 0x7f80_0000),
        expm1f_step(x) matches Expm1fStep::OneLn2 { negative } ==> {
            &&& negative == neg32(x)
            &&& ln2_half() < abs32(x) < ln2_3_half()
        },
        expm1f_step(x) is Reduce ==> ln2_3_half() <= abs32(x) <= expm1f_max(),
        expm1f_step(x) is Primary ==> abs32(x) <= ln2_half(),
{
}

} // verus!
