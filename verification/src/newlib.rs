//! Shared types of the single-precision routines.
use vstd::prelude::*;

verus! {

/// The class of a single-precision value.
#[derive(Clone, Copy, Debug, PartialEq, Eq, Structural)]
pub enum NumState {
    Zero,
    Inf,
    Nan,
    Num,
}

/// The precision that the large-argument reduction by `pi/2` works to.
#[derive(Clone, Copy, Debug, PartialEq, Eq, Structural)]
pub enum Precision {
    Zero,
    One,
    Two,
}

impl Precision {
    /// The number of terms of `2/pi` that the reduction starts with
    /// (`jk`): 4, 7 or 9 terms for the three precisions.
    pub fn jk(&self) -> (r: usize)
        ensures
            r == (match *self {
                Precision::Zero => 4usize,
                Precision::One => 7usize,
                Precision::Two => 9usize,
            }),
    {
        match self {
            Precision::Zero => 4,
            Precision::One => 7,
            Precision::Two => 9,
        }
    }
}

} // verus!
