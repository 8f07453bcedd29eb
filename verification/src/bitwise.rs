//! Small bit-manipulation helpers used across the kernel.

use vstd::prelude::*;

verus! {

/// Clears every bit of `bitmask` in `value`.
pub fn clear_bit(value: u8, bitmask: u8) -> (r: u8)
    ensures
        r == value & !bitmask,
{
    value & !bitmask
}

/// Sets every bit of `bitmask` in `value`.
pub fn set_bit(value: u8, bitmask: u8) -> (r: u8)
    ensures
        r == value | bitmask,
{
    value | bitmask
}

/// Whether `value` has any bit of `bitmask` set.
pub fn contains_bit(value: u8, bitmask: u8) -> (r: bool)
    ensures
        r == (value & bitmask > 0),
{
    (value & bitmask) > 0
}

/// Flips every bit of `bitmask` in `value`.
pub fn toggle_bit(value: u8, bitmask: u8) -> (r: u8)
    ensures
        r == value ^ bitmask,
{
    value ^ bitmask
}

} // verus!
