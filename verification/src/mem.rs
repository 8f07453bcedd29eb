//! Explicit model of the physical memory the kernel manages.
//!
//! The managed region is held as a vector of bytes together with the
//! physical address of its first byte, so frame zeroing and reads or writes
//! through mapped addresses are ordinary, fully checked vector accesses.

use vstd::prelude::*;

verus! {

/// Fixed size of one page frame in bytes.
pub const PAGE_SIZE: usize = 4096;

/// The physical memory range the kernel manages: a base address and one
/// byte of storage for every address in `[base, base + size)`.
pub struct PhysicalMemory {
    base: usize,
    bytes: Vec<u8>,
}

impl PhysicalMemory {
    /// Physical address of the first managed byte.
    pub closed spec fn base_addr(&self) -> int {
        self.base as int
    }

    /// Number of managed bytes.
    pub closed spec fn size(&self) -> int {
        self.bytes@.len() as int
    }

    /// One past the last managed physical address.
    pub open spec fn end_addr(&self) -> int {
        self.base_addr() + self.size()
    }

    /// The byte stored at physical address `addr`.
    pub closed spec fn byte_at(&self, addr: int) -> u8 {
        self.bytes@[addr - self.base_addr()]
    }

    /// Whether `[start, end)` lies inside the managed region.
    pub open spec fn contains_range(&self, start: int, end: int) -> bool {
        self.base_addr() <= start && start <= end && end <= self.end_addr()
    }

    /// Whether the single address `addr` is managed.
    pub open spec fn contains(&self, addr: int) -> bool {
        self.base_addr() <= addr < self.end_addr()
    }

    /// Every byte of `[start, end)` is zero.
    pub open spec fn range_zero(&self, start: int, end: int) -> bool {
        forall|a: int| start <= a < end ==> self.byte_at(a) == 0u8
    }

    /// `self` and `other` cover the same region and agree outside
    /// `[start, end)`.
    pub open spec fn agrees_outside(&self, other: &Self, start: int, end: int) -> bool {
        &&& self.base_addr() == other.base_addr()
        &&& self.size() == other.size()
        &&& forall|a: int|
            self.base_addr() <= a < self.end_addr() && !(start <= a < end)
                ==> self.byte_at(a) == other.byte_at(a)
    }

    /// The managed addresses fit in a machine word.
    pub open spec fn wf(&self) -> bool {
        self.end_addr() <= usize::MAX as int
    }

    /// Creates a zero-filled region of `size` bytes starting at `base`.
    pub fn new(base: usize, size: usize) -> (m: Self)
        requires
            base + size <= usize::MAX,
        ensures
            m.wf(),
            m.base_addr() == base,
            m.size() == size,
            m.range_zero(base as int, base as int + size as int),
    {
        let mut bytes: Vec<u8> = Vec::new();
        let mut i: usize = 0;
        while i < size
            invariant
                i <= size,
                bytes@.len() == i as int,
                forall|k: int| 0 <= k < i as int ==> bytes@[k] == 0u8,
            decreases size - i,
        {
            bytes.push(0u8);
            i = i + 1;
        }
        PhysicalMemory { base, bytes }
    }

    /// Reads the byte at physical address `addr`.
    pub fn read_byte(&self, addr: usize) -> (b: u8)
        requires
            self.contains(addr as int),
        ensures
            b == self.byte_at(addr as int),
    {
        self.bytes[addr - self.base]
    }

    /// Writes `value` at physical address `addr`, leaving every other byte
    /// untouched.
    pub fn write_byte(&mut self, addr: usize, value: u8)
        requires
            old(self).contains(addr as int),
        ensures
            final(self).byte_at(addr as int) == value,
            final(self).agrees_outside(old(self), addr as int, addr as int + 1),
    {
        let i = addr - self.base;
        self.bytes.set(i, value);
    }

    /// Zeroes the `count` bytes starting at `start`.
    pub fn zero_range(&mut self, start: usize, count: usize)
        requires
            start + count <= usize::MAX,
            old(self).contains_range(start as int, start as int + count as int),
        ensures
            final(self).range_zero(start as int, start as int + count as int),
            final(self).agrees_outside(old(self), start as int, start as int + count as int),
    {
        let mut i: usize = 0;
        while i < count
            invariant
                i <= count,
                start + count <= usize::MAX,
                self.contains_range(start as int, start as int + count as int),
                self.range_zero(start as int, start as int + i as int),
                self.agrees_outside(old(self), start as int, start as int + count as int),
            decreases count - i,
        {
            self.write_byte(start + i, 0u8);
            i = i + 1;
        }
    }

    /// Whether `addr` is a managed address; the executable counterpart of
    /// [`Self::contains`].
    pub fn contains_addr(&self, addr: usize) -> (r: bool)
        requires
            self.wf(),
        ensures
            r == self.contains(addr as int),
    {
        self.base <= addr && addr - self.base < self.bytes.len()
    }

    /// Whether `[start, end)` consists of zero bytes only; the executable
    /// counterpart of [`Self::range_zero`].
    pub fn is_range_zero(&self, start: usize, end: usize) -> (r: bool)
        requires
            self.contains_range(start as int, end as int),
        ensures
            r == self.range_zero(start as int, end as int),
    {
        let mut i: usize = start;
        while i < end
            invariant
                start <= i <= end,
                self.contains_range(start as int, end as int),
                self.range_zero(start as int, i as int),
            decreases end - i,
        {
            if self.read_byte(i) != 0u8 {
                return false;
            }
            i = i + 1;
        }
        true
    }
}

} // verus!
