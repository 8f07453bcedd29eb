//! PS/2 controller protocol values: which device an identification reply
//! names, and what the status byte says.  The port reads and writes
//! themselves happen at the system's edge; this module decides what the
//! bytes mean.

use vstd::prelude::*;

verus! {

/// The devices the controller can identify.
#[derive(Clone, Copy, Debug, PartialEq, Eq, Structural)]
pub enum PS2Device {
    PS2Mouse,
    PS2MouseScrollWheel,
    PS2MouseFiveButtons,
    MF2Keyboard,
    MF2KeyboardTranslation,
}

/// Why an identification reply was refused.
#[derive(Clone, Copy, Debug, PartialEq, Eq, Structural)]
pub enum PS2Error {
    /// The reply bytes name no known device.
    UnknownDevice,
}

/// Which device an identification reply names: one byte for mice, a
/// leading `0xAB` plus a second byte for keyboards.
pub fn identify_device_type(first: u8, second: u8) -> (r: Result<PS2Device, PS2Error>)
    ensures
        first == 0x00 ==> r == Ok::<PS2Device, PS2Error>(PS2Device::PS2Mouse),
        first == 0x03 ==> r == Ok::<PS2Device, PS2Error>(PS2Device::PS2MouseScrollWheel),
        first == 0x04 ==> r == Ok::<PS2Device, PS2Error>(PS2Device::PS2MouseFiveButtons),
        first == 0xab && (second == 0x41 || second == 0xc1) ==> r == Ok::<PS2Device, PS2Error>(
            PS2Device::MF2KeyboardTranslation,
        ),
        first == 0xab && second == 0x83 ==> r == Ok::<PS2Device, PS2Error>(PS2Device::MF2Keyboard),
        !(first == 0x00 || first == 0x03 || first == 0x04 || (first == 0xab && (second == 0x41
            || second == 0xc1 || second == 0x83))) ==> r == Err::<PS2Device, PS2Error>(
            PS2Error::UnknownDevice,
        ),
{
    match first {
        0x00 => Ok(PS2Device::PS2Mouse),
        0x03 => Ok(PS2Device::PS2MouseScrollWheel),
        0x04 => Ok(PS2Device::PS2MouseFiveButtons),
        0xab => match second {
            0x41 => Ok(PS2Device::MF2KeyboardTranslation),
            0xc1 => Ok(PS2Device::MF2KeyboardTranslation),
            0x83 => Ok(PS2Device::MF2Keyboard),
            _ => Err(PS2Error::UnknownDevice),
        },
        _ => Err(PS2Error::UnknownDevice),
    }
}

/// Whether a status byte marks pending data as coming from the mouse:
/// bit 5 of the status register.
pub fn is_from_mouse(status: u8) -> (r: bool)
    ensures
        r == (status & 0x20 == 0x20),
{
    status & 0x20 == 0x20
}

/// Whether a status byte says the controller's input buffer is full, so a
/// write must wait: bit 1.
pub fn write_must_wait(status: u8) -> (r: bool)
    ensures
        r == (status & 2 > 0),
{
    (status & 2) > 0
}

/// Whether a status byte says output data is ready to read: bit 0.
pub fn read_is_ready(status: u8) -> (r: bool)
    ensures
        r == (status & 1 > 0),
{
    (status & 1) > 0
}

} // verus!
