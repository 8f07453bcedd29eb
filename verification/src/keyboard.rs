//! PS/2 keyboard state: scancode translation under the first scancode
//! set, and the shift state driven by the scancodes themselves.  Reading
//! the scancodes from the controller is the surrounding system's job.

use vstd::prelude::*;

verus! {

/// The scancode sets a keyboard can report.
#[derive(Clone, Copy, Debug, PartialEq, Eq, Structural)]
pub enum ScancodeSet {
    ScancodeSet1,
    ScancodeSet2,
    ScancodeSet3,
}

/// The US layout of the first scancode set: the character each scancode
/// names, zero where a scancode has no printable character.
pub open spec fn us_layout() -> Seq<u8> {
    seq![0u8, 0u8, 49u8, 50u8, 51u8, 52u8, 53u8, 54u8, 55u8, 56u8, 57u8, 48u8, 45u8, 61u8, 0u8, 9u8, 113u8, 119u8, 101u8, 114u8, 116u8, 121u8, 117u8, 105u8, 111u8, 112u8, 91u8, 93u8, 10u8, 0u8, 97u8, 115u8, 100u8, 102u8, 103u8, 104u8, 106u8, 107u8, 0u8, 59u8, 39u8, 96u8, 0u8, 92u8, 122u8, 120u8, 99u8, 118u8, 98u8, 110u8, 109u8, 44u8, 46u8, 47u8, 0u8, 42u8, 0u8, 32u8]
}

/// Keyboard state: the shift flag and the scancode-to-character table of
/// the first set.
pub struct Keyboard {
    pub is_upper: bool,
    pub kbd_us: Vec<u8>,
    pub scancode_set: ScancodeSet,
}

impl Keyboard {
    /// The translation table in use.
    pub closed spec fn table(&self) -> Seq<u8> {
        self.kbd_us@
    }

    /// A keyboard in lower-case state with the US layout of the first
    /// scancode set.
    pub fn init() -> (k: Keyboard)
        ensures
            !k.is_upper,
            k.table() == us_layout(),
            k.table().len() == 58,
    {
        let mut kbd_us: Vec<u8> = Vec::new();
        kbd_us.push(0);
        kbd_us.push(0);
        kbd_us.push(49);
        kbd_us.push(50);
        kbd_us.push(51);
        kbd_us.push(52);
        kbd_us.push(53);
        kbd_us.push(54);
        kbd_us.push(55);
        kbd_us.push(56);
        kbd_us.push(57);
        kbd_us.push(48);
        kbd_us.push(45);
        kbd_us.push(61);
        kbd_us.push(0);
        kbd_us.push(9);
        kbd_us.push(113);
        kbd_us.push(119);
        kbd_us.push(101);
        kbd_us.push(114);
        kbd_us.push(116);
        kbd_us.push(121);
        kbd_us.push(117);
        kbd_us.push(105);
        kbd_us.push(111);
        kbd_us.push(112);
        kbd_us.push(91);
        kbd_us.push(93);
        kbd_us.push(10);
        kbd_us.push(0);
        kbd_us.push(97);
        kbd_us.push(115);
        kbd_us.push(100);
        kbd_us.push(102);
        kbd_us.push(103);
        kbd_us.push(104);
        kbd_us.push(106);
        kbd_us.push(107);
        kbd_us.push(0);
        kbd_us.push(59);
        kbd_us.push(39);
        kbd_us.push(96);
        kbd_us.push(0);
        kbd_us.push(92);
        kbd_us.push(122);
        kbd_us.push(120);
        kbd_us.push(99);
        kbd_us.push(118);
        kbd_us.push(98);
        kbd_us.push(110);
        kbd_us.push(109);
        kbd_us.push(44);
        kbd_us.push(46);
        kbd_us.push(47);
        kbd_us.push(0);
        kbd_us.push(42);
        kbd_us.push(0);
        kbd_us.push(32);
        proof {
            assert(kbd_us@ =~= us_layout());
        }
        Keyboard { is_upper: false, kbd_us, scancode_set: ScancodeSet::ScancodeSet1 }
    }

    /// The character a scancode names: the enter scancode stands for
    /// itself, released keys (codes past the table) give `b'0'`, and the
    /// upper-case form subtracts the ASCII case distance.
    pub fn translate(&self, scancode: u8, uppercase: bool) -> (c: u8)
        requires
            self.table().len() == 58,
        ensures
            scancode == 0x1c ==> c == 0x1c,
            scancode >= 0x3a && scancode != 0x1c ==> c == 48,
            scancode != 0x1c && scancode < 0x3a && uppercase ==> c as int == if self.table()[scancode as int] >= 0x20 {
                self.table()[scancode as int] - 0x20
            } else {
                self.table()[scancode as int] + 224
            },
            scancode != 0x1c && scancode < 0x3a && !uppercase ==> c == self.table()[scancode as int],
    {
        if scancode == 0x1c {
            return 0x1c;
        }
        if scancode >= 0x3a {
            return 48;
        }
        if uppercase {
            let v = self.kbd_us[scancode as usize];
            if v >= 0x20 {
                v - 0x20
            } else {
                v + 224
            }
        } else {
            self.kbd_us[scancode as usize]
        }
    }

    /// Digests one scancode: shift and caps-lock codes flip the case
    /// state and give nothing; the enter key and every key with a
    /// translation give their character.
    pub fn handle_keyboard(&mut self, scancode: u8) -> (c: Option<u8>)
        requires
            old(self).table().len() == 58,
        ensures
            final(self).table() == old(self).table(),
            scancode == 0x2a || scancode == 0x36 ==> final(self).is_upper && c is None,
            scancode == 0xaa || scancode == 0xb6 ==> !final(self).is_upper && c is None,
            scancode == 0x3a ==> final(self).is_upper == !old(self).is_upper && c is None,
    {
        match scancode {
            0x2a => {
                self.is_upper = true;
                None
            }
            0x36 => {
                self.is_upper = true;
                None
            }
            0xaa => {
                self.is_upper = false;
                None
            }
            0xb6 => {
                self.is_upper = false;
                None
            }
            0x3a => {
                self.is_upper = !self.is_upper;
                None
            }
            _ => {
                let letter = self.translate(scancode, self.is_upper);
                if scancode == 0x1c || letter != 48 {
                    Some(letter)
                } else {
                    None
                }
            }
        }
    }
}

} // verus!
