//! Interrupt descriptor table entries: the bit layout of one gate.

use vstd::prelude::*;

verus! {

/// Number of gates the table can hold.
pub const IDT_MAX_DESCRIPTIONS: usize = 256;

/// Whether a gate is a plain interrupt gate or a trap gate for
/// exceptions.
pub enum GateType {
    Interrupt,
    Trap,
}

/// The privilege ring allowed to raise the entry's interrupt.
pub enum PrivilegeLevel {
    Ring0,
    Ring3,
}

/// One gate of the table: the handler address split over three fields,
/// the kernel code selector and the attribute byte.
#[derive(Clone, Copy, Debug, PartialEq, Eq, Structural)]
pub struct IDTEntry {
    pub isr_low: u16,
    pub kernel_cs: u16,
    pub ist: u8,
    pub attributes: u8,
    pub isr_mid: u16,
    pub isr_high: u32,
    pub reserved: u32,
}

/// The register value describing the table: its byte size minus one and
/// its base address.
#[derive(Clone, Copy, Debug, PartialEq, Eq, Structural)]
pub struct Idtr {
    pub limit: u16,
    pub base: u64,
}

/// The attribute byte for a gate: trap gates get type `0xF`, interrupt
/// gates `0xE`, both marked present; ring-3 gates add the two DPL bits.
pub open spec fn flags_for(gate_type: GateType, privilege_level: PrivilegeLevel) -> u8 {
    let base: u8 = match gate_type {
        GateType::Trap => 0x8f,
        GateType::Interrupt => 0x8e,
    };
    match privilege_level {
        PrivilegeLevel::Ring3 => base | 0x20 | 0x40,
        PrivilegeLevel::Ring0 => base,
    }
}

impl IDTEntry {
    /// Builds a gate for the handler at `func_addr`, splitting the address
    /// into its low, middle and high parts and using the kernel code
    /// selector.
    pub fn new(gate_type: GateType, privilege_level: PrivilegeLevel, func_addr: u64) -> (e:
        IDTEntry)
        ensures
            e.isr_low == func_addr & 0xffff,
            e.isr_mid == (func_addr >> 16) & 0xffff,
            e.isr_high == func_addr >> 32,
            e.kernel_cs == 0x08,
            e.ist == 0,
            e.reserved == 0,
            e.attributes == flags_for(gate_type, privilege_level),
    {
        proof {
            assert(func_addr & 0xffff < 0x10000u64) by (bit_vector);
            assert((func_addr >> 16) & 0xffff < 0x10000u64) by (bit_vector);
            assert(func_addr >> 32 < 0x1_0000_0000u64) by (bit_vector);
        }
        let attributes = IDTEntry::generate_flags(gate_type, privilege_level);
        IDTEntry {
            isr_low: (func_addr & 0xffff) as u16,
            kernel_cs: 0x08,
            ist: 0,
            attributes,
            isr_mid: ((func_addr >> 16) & 0xffff) as u16,
            isr_high: (func_addr >> 32) as u32,
            reserved: 0,
        }
    }

    /// The attribute byte for the entry kind and ring.
    fn generate_flags(gate_type: GateType, privilege_level: PrivilegeLevel) -> (a: u8)
        ensures
            a == flags_for(gate_type, privilege_level),
    {
        let attributes: u8 = match gate_type {
            GateType::Trap => 0x8f,
            GateType::Interrupt => 0x8e,
        };
        match privilege_level {
            PrivilegeLevel::Ring3 => attributes | 0x20 | 0x40,
            PrivilegeLevel::Ring0 => attributes,
        }
    }
}

} // verus!
