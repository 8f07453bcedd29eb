//! Date and time kept by the real-time clock, and the conversions the
//! kernel applies to the raw register values: BCD decoding, 12- to
//! 24-hour form, summer-time shift and century completion.  Reading the
//! clock's ports is left to the surrounding system; this module works on
//! the register values it is handed.

use vstd::prelude::*;

use crate::bitwise;

verus! {

/// The year the conversion rules were written against; completes the
/// two-digit year register to a full year.
pub const CURRENT_YEAR: u16 = 2024;

/// A moment in time as read from the clock.
#[derive(Clone, Copy, Debug, PartialEq, Eq, Structural)]
pub struct DateTime {
    second: u8,
    minute: u8,
    hour: u8,
    day: u8,
    month: u8,
    year: u16,
}

impl DateTime {
    /// The fields as a tuple, for specification.
    pub closed spec fn view(&self) -> (u8, u8, u8, u8, u8, u16) {
        (self.second, self.minute, self.hour, self.day, self.month, self.year)
    }

    /// The all-zero moment.
    pub fn new() -> (dt: DateTime)
        ensures
            dt.view() == (0u8, 0u8, 0u8, 0u8, 0u8, 0u16),
    {
        DateTime { second: 0, minute: 0, hour: 0, day: 0, month: 0, year: 0 }
    }

    /// Copies every field of `other`.
    pub fn copy_from(&mut self, other: &DateTime)
        ensures
            final(self).view() == other.view(),
    {
        self.second = other.second;
        self.minute = other.minute;
        self.hour = other.hour;
        self.day = other.day;
        self.month = other.month;
        self.year = other.year;
    }

    /// Hour, minute and second.
    pub fn get_time(&self) -> (t: (u8, u8, u8))
        ensures
            t == (self.view().2, self.view().1, self.view().0),
    {
        (self.hour, self.minute, self.second)
    }

    /// Day, month and year.
    pub fn get_date(&self) -> (d: (u8, u8, u16))
        ensures
            d == (self.view().3, self.view().4, self.view().5),
    {
        (self.day, self.month, self.year)
    }

    /// Adopts the six raw register values: second, minute, hour, day,
    /// month and two-digit year, exactly as the clock reported them.
    pub fn update_values(&mut self, raw: (u8, u8, u8, u8, u8, u8))
        ensures
            final(self).view() == (raw.0, raw.1, raw.2, raw.3, raw.4, raw.5 as u16),
    {
        self.second = raw.0;
        self.minute = raw.1;
        self.hour = raw.2;
        self.day = raw.3;
        self.month = raw.4;
        self.year = raw.5 as u16;
    }

    /// Completes the two-digit year with the current century, moving one
    /// century up when the completed year would lie in the past.
    pub fn calculate_year(&mut self)
        requires
            old(self).view().5 + (CURRENT_YEAR / 100) * 100 + 100 <= u16::MAX,
        ensures
            final(self).view().5 == {
                let y = old(self).view().5 + (CURRENT_YEAR / 100) * 100;
                if y < CURRENT_YEAR {
                    (y + 100) as u16
                } else {
                    y as u16
                }
            },
            final(self).view().0 == old(self).view().0,
            final(self).view().1 == old(self).view().1,
            final(self).view().2 == old(self).view().2,
            final(self).view().3 == old(self).view().3,
            final(self).view().4 == old(self).view().4,
    {
        self.year = self.year + (CURRENT_YEAR / 100) * 100;
        if self.year < CURRENT_YEAR {
            self.year = self.year + 100;
        }
    }

    /// What decoding one BCD-coded byte yields.
    pub open spec fn bcd(v: u8) -> int {
        (v & 0x0f) + (v / 16) * 10
    }

    /// Decodes every field from BCD when register B says the clock is in
    /// BCD mode (bit 2 clear); the hour keeps its 12-hour flag bit.
    pub fn convert_to_binary(&mut self, register_b: u8)
        ensures
            bitwise_has(register_b, 0x04) ==> *final(self) == *old(self),
            !bitwise_has(register_b, 0x04) ==> {
                let o = old(self).view();
                let f = final(self).view();
                &&& f.0 == Self::bcd(o.0)
                &&& f.1 == Self::bcd(o.1)
                &&& f.2 == ((((o.2 & 0x0f) + ((o.2 / 16) * 10)) as u8) | (o.2 & 0x80))
                &&& f.3 == Self::bcd(o.3)
                &&& f.4 == Self::bcd(o.4)
                &&& f.5 == Self::bcd((o.5 & 0xff) as u8)
            },
    {
        if !bitwise::contains_bit(register_b, 0x04) {
            proof {
                lemma_bcd_bounds(self.second);
                lemma_bcd_bounds(self.minute);
                lemma_bcd_bounds(self.hour);
                lemma_bcd_bounds(self.day);
                lemma_bcd_bounds(self.month);
                lemma_bcd_bounds((self.year & 0xff) as u8);
            }
            self.second = (self.second & 0x0f) + (self.second / 16) * 10;
            self.minute = (self.minute & 0x0f) + (self.minute / 16) * 10;
            self.hour = ((self.hour & 0x0f) + (self.hour / 16) * 10) | (self.hour & 0x80);
            self.day = (self.day & 0x0f) + (self.day / 16) * 10;
            self.month = (self.month & 0x0f) + (self.month / 16) * 10;
            let y = (self.year & 0xff) as u8;
            self.year = ((y & 0x0f) + (y / 16) * 10) as u16;
        }
    }

    /// Shifts the hour one forward for British Summer Time.
    pub fn convert_to_bst(&mut self, register_b: u8)
        requires
            old(self).view().2 < 255,
        ensures
            final(self).view().2 == old(self).view().2 + 1,
            final(self).view().0 == old(self).view().0,
            final(self).view().1 == old(self).view().1,
            final(self).view().3 == old(self).view().3,
            final(self).view().4 == old(self).view().4,
            final(self).view().5 == old(self).view().5,
    {
        self.hour = self.hour + 1;
    }

    /// Converts a 12-hour value with the PM bit set to 24-hour form, when
    /// register B says the clock is in 12-hour mode (bit 1 clear).
    pub fn convert_to_24(&mut self, register_b: u8)
        ensures
            (bitwise_has(register_b, 0x02) || !bitwise_has(old(self).view().2, 0x80))
                ==> *final(self) == *old(self),
            (!bitwise_has(register_b, 0x02) && bitwise_has(old(self).view().2, 0x80))
                ==> final(self).view().2 == ((old(self).view().2 & 0x7f) + 12) % 24,
    {
        if !bitwise::contains_bit(register_b, 0x02) && bitwise::contains_bit(self.hour, 0x80) {
            proof {
                let h = self.hour;
                assert((h & 0x7f) <= 0x7f) by (bit_vector);
            }
            self.hour = ((self.hour & 0x7f) + 12) % 24;
        }
    }
}

/// Whether `value` has any bit of `mask` set, for specifications.
pub open spec fn bitwise_has(value: u8, mask: u8) -> bool {
    value & mask > 0
}

/// A decoded BCD digit pair fits in a byte.
proof fn lemma_bcd_bounds(v: u8)
    ensures
        0 <= (v & 0x0f) + (v / 16) * 10 < 175,
        ((v & 0x0f) + (v / 16) * 10) < 256,
{
    assert((v & 0x0f) < 16u8) by (bit_vector);
    assert(v / 16 < 16);
}

} // verus!
