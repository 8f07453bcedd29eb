//! Subtraction that floors at zero instead of wrapping around.

use vstd::prelude::*;

verus! {

/// Subtraction clamped to zero: the result is the difference where it is
/// non-negative and zero otherwise.
pub trait WrappingSubZero where Self: core::marker::Sized {
    /// Subtracts `rhs`, flooring at zero.
    fn wrapping_sub_zero(self, rhs: Self) -> Self;
}

impl WrappingSubZero for u8 {
    fn wrapping_sub_zero(self, rhs: u8) -> (r: u8)
        ensures
            r == if self < rhs {
                0
            } else {
                (self - rhs) as u8
            },
    {
        if self < rhs {
            0
        } else {
            self - rhs
        }
    }
}

impl WrappingSubZero for u16 {
    fn wrapping_sub_zero(self, rhs: u16) -> (r: u16)
        ensures
            r == if self < rhs {
                0
            } else {
                (self - rhs) as u16
            },
    {
        if self < rhs {
            0
        } else {
            self - rhs
        }
    }
}

impl WrappingSubZero for u32 {
    fn wrapping_sub_zero(self, rhs: u32) -> (r: u32)
        ensures
            r == if self < rhs {
                0
            } else {
                (self - rhs) as u32
            },
    {
        if self < rhs {
            0
        } else {
            self - rhs
        }
    }
}

impl WrappingSubZero for u64 {
    fn wrapping_sub_zero(self, rhs: u64) -> (r: u64)
        ensures
            r == if self < rhs {
                0
            } else {
                (self - rhs) as u64
            },
    {
        if self < rhs {
            0
        } else {
            self - rhs
        }
    }
}

impl WrappingSubZero for usize {
    fn wrapping_sub_zero(self, rhs: usize) -> (r: usize)
        ensures
            r == if self < rhs {
                0
            } else {
                (self - rhs) as usize
            },
    {
        if self < rhs {
            0
        } else {
            self - rhs
        }
    }
}

} // verus!
