//! PS/2 mouse packet state machine: three- or four-byte packets digested
//! one byte at a time, moving the tracked pointer.  Reading the bytes
//! from the controller is the surrounding system's job.

use vstd::prelude::*;

use crate::bitwise;
use crate::ps2::PS2Device;

verus! {

/// Flag bit of a packet's first byte: left button.
pub const MOUSE_LEFT_BTN: u8 = 0b0000_0001;

/// Flag bit of a packet's first byte: right button.
pub const MOUSE_RIGHT_BTN: u8 = 0b0000_0010;

/// Flag bit of a packet's first byte: always set in a well-formed packet.
pub const MOUSE_IS_FOUR: u8 = 0b0000_1000;

/// Flag bit of a packet's first byte: the X movement is negative.
pub const MOUSE_X_SIGN: u8 = 0b0001_0000;

/// Flag bit of a packet's first byte: the Y movement is negative.
pub const MOUSE_Y_SIGN: u8 = 0b0010_0000;

/// Flag bit of a packet's first byte: the X movement overflowed.
pub const MOUSE_X_OVERFLOW: u8 = 0b0100_0000;

/// Flag bit of a packet's first byte: the Y movement overflowed.
pub const MOUSE_Y_OVERFLOW: u8 = 0b1000_0000;

/// Mouse state: pointer position, scroll accumulator, the flags of the
/// packet in progress and how many of its bytes arrived.
pub struct Mouse {
    pub x: usize,
    pub y: usize,
    pub z: usize,
    pub flags: u8,
    pub current_byte: usize,
    pub variety: PS2Device,
}

impl Mouse {
    /// A mouse parked mid-screen, expecting a packet's first byte.
    pub fn init() -> (m: Mouse)
        ensures
            m.x == 512,
            m.y == 384,
            m.current_byte == 0,
            m.variety == PS2Device::PS2MouseScrollWheel,
    {
        Mouse {
            x: 512,
            y: 384,
            z: 0,
            flags: 0,
            current_byte: 0,
            variety: PS2Device::PS2MouseScrollWheel,
        }
    }

    /// Digests one packet byte.  The first byte must carry the always-set
    /// bit or the packet is dropped; the second and third bytes shift the
    /// pointer by the 8-bit movement, the sign bits of the first byte
    /// extending it to a negative delta (a movement of `byte - 256`), and
    /// the screen's downward Y axis inverting the vertical one; an
    /// overflowed movement is ignored; the fourth byte feeds the scroll
    /// wheel.  All pointer arithmetic wraps at the machine limit.
    pub fn handle_mouse_interrupt(&mut self, byte: u8)
        ensures
            old(self).current_byte == 0 && !(byte & MOUSE_IS_FOUR > 0) ==> *final(self) == *old(
                self,
            ),
            old(self).current_byte == 0 && byte & MOUSE_IS_FOUR > 0 ==> final(self).flags == byte
                && final(self).current_byte == 1,
            old(self).current_byte == 1 && old(self).flags & MOUSE_X_OVERFLOW > 0 ==> *final(self)
                == *old(self),
            old(self).current_byte == 2 && old(self).flags & MOUSE_Y_OVERFLOW > 0 ==> *final(self)
                == *old(self),
            old(self).current_byte == 1 && !(old(self).flags & MOUSE_X_OVERFLOW > 0) ==> {
                &&& final(self).current_byte == 2
                &&& final(self).y == old(self).y
                &&& final(self).z == old(self).z
                &&& final(self).flags == old(self).flags
                &&& final(self).x as int == if old(self).flags & MOUSE_X_SIGN > 0 {
                    if old(self).x >= 256 - byte {
                        old(self).x - (256 - byte)
                    } else {
                        old(self).x - (256 - byte) + usize::MAX + 1
                    }
                } else {
                    (old(self).x + byte) % (usize::MAX as int + 1)
                }
            },
            old(self).current_byte == 2 && !(old(self).flags & MOUSE_Y_OVERFLOW > 0) ==> {
                &&& final(self).current_byte == 3
                &&& final(self).x == old(self).x
                &&& final(self).z == old(self).z
                &&& final(self).flags == old(self).flags
                &&& final(self).y as int == if old(self).flags & MOUSE_Y_SIGN > 0 {
                    (old(self).y + (256 - byte)) % (usize::MAX as int + 1)
                } else {
                    if old(self).y >= byte {
                        old(self).y - byte
                    } else {
                        old(self).y - byte + usize::MAX + 1
                    }
                }
            },
            old(self).current_byte >= 3 ==> {
                &&& final(self).current_byte == 0
                &&& final(self).x == old(self).x
                &&& final(self).y == old(self).y
                &&& final(self).z as int == (old(self).z + byte) % (usize::MAX as int + 1)
            },
            final(self).current_byte < 4,
    {
        match self.current_byte {
            0 => {
                if !bitwise::contains_bit(byte, MOUSE_IS_FOUR) {
                    return ;
                }
                self.flags = byte;
                self.current_byte = 1;
            }
            1 => {
                if bitwise::contains_bit(self.flags, MOUSE_X_OVERFLOW) {
                    return ;
                }
                if bitwise::contains_bit(self.flags, MOUSE_X_SIGN) {
                    // Sign extension: a negative movement of 256 - byte.
                    self.x = sub_wrapping(self.x, 256 - byte as usize);
                } else {
                    self.x = add_wrapping(self.x, byte as usize);
                }
                self.current_byte = 2;
            }
            2 => {
                if bitwise::contains_bit(self.flags, MOUSE_Y_OVERFLOW) {
                    return ;
                }
                // The screen's Y axis runs downward, so the movement is
                // applied inverted.
                if bitwise::contains_bit(self.flags, MOUSE_Y_SIGN) {
                    self.y = add_wrapping(self.y, 256 - byte as usize);
                } else {
                    self.y = sub_wrapping(self.y, byte as usize);
                }
                self.current_byte = 3;
            }
            _ => {
                self.z = add_wrapping(self.z, byte as usize);
                self.current_byte = 0;
            }
        }
    }

    /// The packet's buttons, from its first byte: left and right.
    pub fn buttons(&self) -> (b: (bool, bool))
        ensures
            b.0 == (self.flags & MOUSE_LEFT_BTN > 0),
            b.1 == (self.flags & MOUSE_RIGHT_BTN > 0),
    {
        (
            bitwise::contains_bit(self.flags, MOUSE_LEFT_BTN),
            bitwise::contains_bit(self.flags, MOUSE_RIGHT_BTN),
        )
    }
}

/// Addition that wraps at the machine limit, as pointer movement does.
fn add_wrapping(a: usize, b: usize) -> (r: usize)
    ensures
        r == (a + b) % (usize::MAX as int + 1),
{
    if b <= usize::MAX - a {
        proof {
            assert((a + b) % (usize::MAX as int + 1) == a + b) by (nonlinear_arith)
                requires
                    0 <= a + b <= usize::MAX as int,
            ;
        }
        a + b
    } else {
        proof {
            assert((a + b) % (usize::MAX as int + 1) == a + b - (usize::MAX as int + 1))
                by (nonlinear_arith)
                requires
                    usize::MAX as int + 1 <= a + b < 2 * (usize::MAX as int + 1),
            ;
        }
        (b - (usize::MAX - a)) - 1
    }
}

/// Subtraction that wraps below zero, as pointer movement does.
fn sub_wrapping(a: usize, b: usize) -> (r: usize)
    ensures
        a >= b ==> r == a - b,
        a < b ==> r as int == a - b + usize::MAX + 1,
{
    if a >= b {
        a - b
    } else {
        (usize::MAX - (b - a)) + 1
    }
}

} // verus!
