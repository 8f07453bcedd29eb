//! Input events passed from the interrupt handlers to userland: one slot
//! holding the latest keyboard or mouse state, cleared on every read.

use vstd::prelude::*;

use crate::bitwise;

verus! {

/// Flag bit marking a key press.
pub const KEY_PRESSED_FLAG: u8 = 0b0000_0001;

/// Flag bit marking a left mouse click.
pub const MOUSE_LEFT_FLAG: u8 = 0b0000_0010;

/// Flag bit marking a right mouse click.
pub const MOUSE_RIGHT_FLAG: u8 = 0b0000_0100;

/// One input event: flag bits plus the key and pointer state behind them.
#[derive(Clone, Copy, Debug, PartialEq, Eq, Structural)]
pub struct Event {
    pub flags: u8,
    pub scancode: u8,
    pub character: u8,
    pub mouse_x: usize,
    pub mouse_y: usize,
}

impl Event {
    /// Resets every field to zero.
    pub fn clear(&mut self)
        ensures
            *final(self) == (Event { flags: 0, scancode: 0, character: 0, mouse_x: 0, mouse_y: 0 }),
    {
        self.flags = 0;
        self.scancode = 0;
        self.character = 0;
        self.mouse_x = 0;
        self.mouse_y = 0;
    }
}

/// Holds the pending event and the copy handed out on the last read.
pub struct EventManager {
    event: Event,
    event_rtn: Event,
}

impl EventManager {
    /// The pending event.
    pub closed spec fn pending(&self) -> Event {
        self.event
    }

    /// A manager with no pending event.
    pub fn init() -> (m: EventManager)
        ensures
            m.pending() == (Event { flags: 0, scancode: 0, character: 0, mouse_x: 0, mouse_y: 0 }),
    {
        let zero = Event { flags: 0, scancode: 0, character: 0, mouse_x: 0, mouse_y: 0 };
        EventManager { event: zero, event_rtn: zero }
    }

    /// Records a key press: scancode, character, and the key-pressed flag.
    pub fn update_key_event(&mut self, scancode: u8, character: u8)
        ensures
            final(self).pending().scancode == scancode,
            final(self).pending().character == character,
            final(self).pending().flags == old(self).pending().flags | KEY_PRESSED_FLAG,
            final(self).pending().mouse_x == old(self).pending().mouse_x,
            final(self).pending().mouse_y == old(self).pending().mouse_y,
    {
        self.event.scancode = scancode;
        self.event.character = character;
        self.event.flags = bitwise::set_bit(self.event.flags, KEY_PRESSED_FLAG);
    }

    /// Records a pointer move and its buttons.
    pub fn update_mouse_event(&mut self, x: usize, y: usize, is_left_click: bool, is_right_click: bool)
        ensures
            final(self).pending().mouse_x == x,
            final(self).pending().mouse_y == y,
            final(self).pending().flags == {
                let f1 = if is_left_click {
                    old(self).pending().flags | MOUSE_LEFT_FLAG
                } else {
                    old(self).pending().flags
                };
                if is_right_click {
                    f1 | MOUSE_RIGHT_FLAG
                } else {
                    f1
                }
            },
            final(self).pending().scancode == old(self).pending().scancode,
            final(self).pending().character == old(self).pending().character,
    {
        self.event.mouse_x = x;
        self.event.mouse_y = y;
        if is_left_click {
            self.event.flags = bitwise::set_bit(self.event.flags, MOUSE_LEFT_FLAG);
        }
        if is_right_click {
            self.event.flags = bitwise::set_bit(self.event.flags, MOUSE_RIGHT_FLAG);
        }
    }

    /// Hands out the pending event and clears the slot.
    pub fn get_event(&mut self) -> (e: Event)
        ensures
            e == old(self).pending(),
            final(self).pending() == (Event {
                flags: 0,
                scancode: 0,
                character: 0,
                mouse_x: 0,
                mouse_y: 0,
            }),
    {
        self.event_rtn = self.event;
        self.event.clear();
        self.event_rtn
    }
}

} // verus!
