//! The two chained programmable interrupt controllers and the values they
//! are programmed with.  Writing the command and data ports is left to the
//! surrounding system; this module fixes the offsets, ports and mask
//! arithmetic.

use vstd::prelude::*;

verus! {

/// Command port of the master controller.
pub const PIC1_PORT_COMMAND: u16 = 0x20;

/// Command port of the slave controller.
pub const PIC2_PORT_COMMAND: u16 = 0xa0;

/// Data port of the master controller.
pub const PIC1_PORT_DATA: u16 = 0x21;

/// Data port of the slave controller.
pub const PIC2_PORT_DATA: u16 = 0xa1;

/// First interrupt vector of the slave controller.
pub const PIC2_START_INTERRUPT: u8 = 0x28;

/// One controller: its vector offset and its two ports.
#[derive(Clone, Copy, Debug, PartialEq, Eq, Structural)]
pub struct Pic {
    pub offset: u8,
    pub command: u16,
    pub data: u16,
}

/// The master and slave controller pair.
#[derive(Clone, Copy, Debug, PartialEq, Eq, Structural)]
pub struct ChainedPics {
    pub master: Pic,
    pub slave: Pic,
}

impl ChainedPics {
    /// A pair remapped to the two vector offsets.
    pub fn new(offset1: u8, offset2: u8) -> (p: ChainedPics)
        ensures
            p.master == (Pic { offset: offset1, command: PIC1_PORT_COMMAND, data: PIC1_PORT_DATA }),
            p.slave == (Pic { offset: offset2, command: PIC2_PORT_COMMAND, data: PIC2_PORT_DATA }),
    {
        ChainedPics {
            master: Pic { offset: offset1, command: PIC1_PORT_COMMAND, data: PIC1_PORT_DATA },
            slave: Pic { offset: offset2, command: PIC2_PORT_COMMAND, data: PIC2_PORT_DATA },
        }
    }

    /// Which controller handles `interrupt`: the master below the slave's
    /// first vector, the slave from there on.
    pub fn controller_for(&self, interrupt: u8) -> (p: Pic)
        ensures
            interrupt < PIC2_START_INTERRUPT ==> p == self.master,
            interrupt >= PIC2_START_INTERRUPT ==> p == self.slave,
    {
        if interrupt < PIC2_START_INTERRUPT {
            self.master
        } else {
            self.slave
        }
    }
}

/// The mask value that disables `interrupt` given the current mask: its
/// bit, counted from the controller's first vector, is set.
pub fn masked_value(current: u8, interrupt: u8) -> (r: u8)
    requires
        0x20 <= interrupt < 0x28,
    ensures
        r == current | (1u8 << ((interrupt - 0x20) as u8)),
{
    proof {
        let sh = (interrupt - 0x20) as u8;
        assert(sh < 8 ==> (1u8 << sh) <= 0x80u8) by (bit_vector);
    }
    current | (1u8 << (interrupt - 0x20))
}

/// The mask value that enables `interrupt` given the current mask: its
/// bit is cleared.
pub fn unmasked_value(current: u8, interrupt: u8) -> (r: u8)
    requires
        0x20 <= interrupt < 0x28,
    ensures
        r == current & !(1u8 << ((interrupt - 0x20) as u8)),
{
    proof {
        let sh = (interrupt - 0x20) as u8;
        assert(sh < 8 ==> (1u8 << sh) <= 0x80u8) by (bit_vector);
    }
    current & !(1u8 << (interrupt - 0x20))
}

} // verus!
