//! Integer-level building blocks of a floating-point math library: a
//! 128-bit-significand software float used by the correctly rounded natural
//! logarithm, the argument reductions and special-case decisions of the
//! logarithms, power, exponential and trigonometric functions, the
//! multi-limb integers of the trigonometric argument reduction, and the bit-pattern algorithms of the
//! rounding and classification routines. Floating-point values are passed
//! as their bit patterns.
use vstd::prelude::*;

mod arith;
pub mod float_bits;
pub mod dint;
pub mod dint_laws;
pub mod expm1f;
pub mod hypotf;
pub mod lgamma;
pub mod log;
pub mod log_laws;
pub mod log_tables;
pub mod newlib;
pub mod rintf16;
pub mod trig_reduction;
pub mod words;
pub mod fabs;
pub mod ilogb;
pub mod ceilf;
pub mod floorf;
pub mod rounding_laws;
pub mod power;
pub mod pow_result;
pub mod limbs;
pub mod log_split;

verus! {

} // verus!
