//! Global descriptor table: the bit layout of segment descriptors and the
//! table they are collected in.  Loading the table register is left to the
//! surrounding system.

use vstd::prelude::*;

verus! {

/// A segment descriptor: code and data segments fit one entry, the task
/// state segment needs a second, all-zero entry after its low half.
pub enum Descriptor {
    UserSegment(u64),
    SystemSegment(u64),
}

/// The bits a flag contributes to a descriptor.
pub open spec fn gdt_bit(flag: GDTBits) -> u64 {
    match flag {
        GDTBits::IsAccessed => 1u64 << 40,
        GDTBits::IsWriteable => 1u64 << 41,
        GDTBits::IsExecutable => 1u64 << 43,
        GDTBits::IsCodeOrData => 1u64 << 44,
        GDTBits::IsUserPage => 3u64 << 45,
        GDTBits::IsPresent => 1u64 << 47,
        GDTBits::Is64Bit => 1u64 << 53,
    }
}

/// The flag bits a descriptor can carry.
pub enum GDTBits {
    IsAccessed,
    IsWriteable,
    IsExecutable,
    IsCodeOrData,
    IsUserPage,
    IsPresent,
    Is64Bit,
}

impl GDTBits {
    /// Folds the given flags into one descriptor word.
    pub fn parse_flags(required_bits: &Vec<GDTBits>) -> (value: u64)
        ensures
            value == flags_value(required_bits@, required_bits@.len() as int),
    {
        let mut value: u64 = 0;
        let mut i: usize = 0;
        while i < required_bits.len()
            invariant
                i <= required_bits@.len(),
                value == flags_value(required_bits@, i as int),
            decreases required_bits@.len() - i,
        {
            value = match required_bits[i] {
                GDTBits::IsAccessed => value | (1u64 << 40),
                GDTBits::IsWriteable => value | (1u64 << 41),
                GDTBits::IsExecutable => value | (1u64 << 43),
                GDTBits::IsCodeOrData => value | (1u64 << 44),
                GDTBits::IsUserPage => value | (3u64 << 45),
                GDTBits::IsPresent => value | (1u64 << 47),
                GDTBits::Is64Bit => value | (1u64 << 53),
            };
            i = i + 1;
        }
        value
    }
}

/// The first `n` flags of `s` folded into one descriptor word.
pub open spec fn flags_value(s: Seq<GDTBits>, n: int) -> u64
    decreases n,
{
    if n <= 0 || n > s.len() {
        0
    } else {
        flags_value(s, n - 1) | gdt_bit(s[n - 1])
    }
}

impl Descriptor {
    /// The common base of every code and data descriptor: maximal limit
    /// bits.
    pub fn generate(entry: u64) -> (r: u64)
        ensures
            r == entry | 0xffff | (0xfu64 << 48),
    {
        entry | 0xffff | (0xfu64 << 48)
    }

    /// The kernel code segment descriptor.
    pub fn kernel_code_segment() -> (d: Descriptor)
        ensures
            d matches Descriptor::UserSegment(v),
    {
        let mut flags: Vec<GDTBits> = Vec::new();
        flags.push(GDTBits::IsAccessed);
        flags.push(GDTBits::IsWriteable);
        flags.push(GDTBits::IsExecutable);
        flags.push(GDTBits::IsCodeOrData);
        flags.push(GDTBits::IsPresent);
        flags.push(GDTBits::Is64Bit);
        Descriptor::UserSegment(Descriptor::generate(GDTBits::parse_flags(&flags)))
    }

    /// The kernel data segment descriptor.
    pub fn kernel_data_segment() -> (d: Descriptor)
        ensures
            d matches Descriptor::UserSegment(v),
    {
        let mut flags: Vec<GDTBits> = Vec::new();
        flags.push(GDTBits::IsAccessed);
        flags.push(GDTBits::IsWriteable);
        flags.push(GDTBits::IsCodeOrData);
        flags.push(GDTBits::IsPresent);
        flags.push(GDTBits::Is64Bit);
        Descriptor::UserSegment(Descriptor::generate(GDTBits::parse_flags(&flags)))
    }

    /// The user code segment descriptor.
    pub fn user_code_segment() -> (d: Descriptor)
        ensures
            d matches Descriptor::UserSegment(v),
    {
        let mut flags: Vec<GDTBits> = Vec::new();
        flags.push(GDTBits::IsAccessed);
        flags.push(GDTBits::IsWriteable);
        flags.push(GDTBits::IsExecutable);
        flags.push(GDTBits::IsUserPage);
        flags.push(GDTBits::IsCodeOrData);
        flags.push(GDTBits::IsPresent);
        flags.push(GDTBits::Is64Bit);
        Descriptor::UserSegment(Descriptor::generate(GDTBits::parse_flags(&flags)))
    }

    /// The user data segment descriptor.
    pub fn user_data_segment() -> (d: Descriptor)
        ensures
            d matches Descriptor::UserSegment(v),
    {
        let mut flags: Vec<GDTBits> = Vec::new();
        flags.push(GDTBits::IsAccessed);
        flags.push(GDTBits::IsWriteable);
        flags.push(GDTBits::IsCodeOrData);
        flags.push(GDTBits::IsUserPage);
        flags.push(GDTBits::IsPresent);
        flags.push(GDTBits::Is64Bit);
        Descriptor::UserSegment(Descriptor::generate(GDTBits::parse_flags(&flags)))
    }

    /// The task state segment descriptor for a segment at `base` of
    /// `limit` bytes minus one: limit and base bits packed around the TSS
    /// type nibble, shifted to the high half, with the low half holding
    /// base and limit bits again.
    pub fn task_state_segment(base: u64, limit: u64) -> (d: Descriptor)
        ensures
            d matches Descriptor::SystemSegment(v) && v == ((((limit & 0x000f_0000) | ((0x89u64
                << 8) & 0x00f0_ff00) | ((base >> 16) & 0xff) | (base & 0xff00_0000)) << 32) | (
            base << 16)) | (limit & 0xffff),
    {
        let mut descriptor: u64 = limit & 0x000f_0000;
        descriptor = descriptor | ((0x89u64 << 8) & 0x00f0_ff00);
        descriptor = descriptor | ((base >> 16) & 0xff);
        descriptor = descriptor | (base & 0xff00_0000);
        descriptor = descriptor << 32;
        descriptor = descriptor | (base << 16);
        descriptor = descriptor | (limit & 0xffff);
        Descriptor::SystemSegment(descriptor)
    }
}

/// The in-memory table: eight slots and the number in use.
pub struct GlobalDescriptorTable {
    table: Vec<u64>,
    len: usize,
}

/// The register value describing the table: its byte size minus one and
/// its base address.
#[derive(Clone, Copy, Debug, PartialEq, Eq, Structural)]
pub struct GDTPointer {
    pub limit: u16,
    pub base: u64,
}

impl GlobalDescriptorTable {
    /// The slot words.
    pub closed spec fn view(&self) -> Seq<u64> {
        self.table@
    }

    /// Slots in use, the mandatory null descriptor included.
    pub closed spec fn used(&self) -> int {
        self.len as int
    }

    /// Table invariant: eight slots with at least the null one in use.
    pub open spec fn wf(&self) -> bool {
        self.view().len() == 8 && 1 <= self.used() <= 8
    }

    /// An empty table: all-zero slots, only the null descriptor in use.
    pub fn new() -> (t: GlobalDescriptorTable)
        ensures
            t.wf(),
            t.used() == 1,
            forall|i: int| 0 <= i < 8 ==> t.view()[i] == 0u64,
    {
        let mut table: Vec<u64> = Vec::new();
        let mut i: usize = 0;
        while i < 8
            invariant
                i <= 8,
                table@.len() == i as int,
                forall|k: int| 0 <= k < i as int ==> table@[k] == 0u64,
            decreases 8 - i,
        {
            table.push(0);
            i = i + 1;
        }
        GlobalDescriptorTable { table, len: 1 }
    }

    /// Appends a descriptor: one slot for a segment, two — value then
    /// zero — for the task state segment.  A full table is left unchanged
    /// and `false` is returned.
    pub fn add_entry(&mut self, entry: Descriptor) -> (added: bool)
        requires
            old(self).wf(),
        ensures
            final(self).wf(),
            added ==> match entry {
                Descriptor::UserSegment(v) => final(self).used() == old(self).used() + 1
                    && final(self).view() == old(self).view().update(old(self).used(), v),
                Descriptor::SystemSegment(v) => final(self).used() == old(self).used() + 2
                    && final(self).view() == old(self).view().update(old(self).used(), v).update(
                    old(self).used() + 1,
                    0u64,
                ),
            },
            !added ==> *final(self) == *old(self),
    {
        match entry {
            Descriptor::UserSegment(value) => {
                if self.len < 8 {
                    self.table.set(self.len, value);
                    self.len = self.len + 1;
                    true
                } else {
                    false
                }
            }
            Descriptor::SystemSegment(low) => {
                if self.len < 7 {
                    self.table.set(self.len, low);
                    self.table.set(self.len + 1, 0);
                    self.len = self.len + 2;
                    true
                } else {
                    false
                }
            }
        }
    }

    /// The register value for a table living at `base`: the bytes in use
    /// minus one, and the address.
    pub fn pointer(&self, base: u64) -> (p: GDTPointer)
        requires
            self.wf(),
        ensures
            p.base == base,
            p.limit == self.used() * 8 - 1,
    {
        GDTPointer { limit: (self.len * 8 - 1) as u16, base }
    }

    /// The descriptor word at `index`.
    pub fn entry(&self, index: usize) -> (v: u64)
        requires
            self.wf(),
            index < 8,
        ensures
            v == self.view()[index as int],
    {
        self.table[index]
    }
}

} // verus!
