//! Programmable interval timer: tick bookkeeping and the divisor derived
//! from the requested frequency.  Programming the timer's ports is left to
//! the surrounding system.

use vstd::prelude::*;

verus! {

/// Base frequency of the timer chip's input clock, in hertz.
pub const INPUT_CLOCK: usize = 1193180;

/// Timer state: the divisor programmed into the chip and the ticks seen.
pub struct Pit {
    divisor: usize,
    ticks: usize,
}

impl Pit {
    /// The programmed divisor.
    pub closed spec fn divisor(&self) -> int {
        self.divisor as int
    }

    /// Ticks counted so far.
    pub closed spec fn ticks(&self) -> int {
        self.ticks as int
    }

    /// A timer for the given interrupt frequency in hertz.
    pub fn new(frequency: usize) -> (pit: Pit)
        requires
            frequency >= 1,
        ensures
            pit.divisor() == INPUT_CLOCK as int / frequency as int,
            pit.ticks() == 0,
    {
        Pit { ticks: 0, divisor: INPUT_CLOCK / frequency }
    }

    /// Counts one timer interrupt.
    pub fn handle_timer(&mut self)
        requires
            old(self).ticks() < usize::MAX,
        ensures
            final(self).ticks() == old(self).ticks() + 1,
            final(self).divisor() == old(self).divisor(),
    {
        self.ticks = self.ticks + 1;
    }

    /// The low and high bytes of the divisor, in the order the chip's data
    /// port expects them.
    pub fn frequency_bytes(&self) -> (b: (u8, u8))
        ensures
            b.0 == (self.divisor() % 256),
            b.1 == ((self.divisor() as u64 >> 8) & 0xff),
    {
        proof {
            let d = self.divisor as u64;
            assert((d >> 8) & 0xff < 256u64) by (bit_vector);
            assert(d & 0xff == d % 256) by (bit_vector);
        }
        ((self.divisor % 256) as u8, ((self.divisor as u64 >> 8) & 0xff) as u8)
    }
}

} // verus!
