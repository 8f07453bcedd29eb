//! The boot information handed over by the bootloader: a sized block of
//! tagged records.  The block is held as bytes and parsed with checked
//! reads, exactly as it lies in memory: a total-size header, then tags of
//! (type, size) aligned to eight bytes, ended by a type-zero tag.

use vstd::prelude::*;

verus! {

/// Magic value the bootloader leaves in a register.
pub const MULTIBOOT2_BOOTLOADER_MAGIC: usize = 0x36d76289;

/// Tag type numbers this kernel reads.
pub enum TagType {
    End,
    BootLoaderName,
    Module,
    BasicMemInfo,
    BootDev,
    MemoryMap,
    Framebuffer,
}

/// The number a tag type is stored as.
pub open spec fn tag_type_code(t: TagType) -> u32 {
    match t {
        TagType::End => 0,
        TagType::BootLoaderName => 2,
        TagType::Module => 3,
        TagType::BasicMemInfo => 4,
        TagType::BootDev => 5,
        TagType::MemoryMap => 6,
        TagType::Framebuffer => 8,
    }
}

/// Memory-map area kinds.
pub enum MemoryAreaType {
    Available,
    Reserved,
}

/// The number a memory area kind is stored as.
pub open spec fn area_type_code(t: MemoryAreaType) -> u32 {
    match t {
        MemoryAreaType::Available => 1,
        MemoryAreaType::Reserved => 2,
    }
}

/// A tag header: its type number and its byte size, header included.
#[derive(Clone, Copy, Debug, PartialEq, Eq, Structural)]
pub struct Tag {
    pub typ: u32,
    pub size: u32,
    pub offset: usize,
}

/// A bootloader-name tag's header; its string bytes follow it.
#[derive(Clone, Copy, Debug, PartialEq, Eq, Structural)]
pub struct TagString {
    pub ty: u32,
    pub size: u32,
}

/// A module tag: where the bootloader placed one loaded module.
#[derive(Clone, Copy, Debug, PartialEq, Eq, Structural)]
pub struct ModuleTag {
    pub ty: u32,
    pub size: u32,
    pub mod_start: u32,
    pub mod_end: u32,
}

/// One memory-map entry: a physical range and its kind.
#[derive(Clone, Copy, Debug, PartialEq, Eq, Structural)]
pub struct MmapEntry {
    pub addr: u64,
    pub len: u64,
    pub typ: u32,
}

impl MmapEntry {
    /// First address of the area.
    pub fn start_address(&self) -> (a: u64)
        ensures
            a == self.addr,
    {
        self.addr
    }

    /// One past the last address of the area, saturating at the 64-bit
    /// limit.
    pub fn end_address(&self) -> (a: u64)
        ensures
            a == if self.addr + self.len <= u64::MAX {
                (self.addr + self.len) as u64
            } else {
                u64::MAX
            },
    {
        if self.len <= u64::MAX - self.addr {
            self.addr + self.len
        } else {
            u64::MAX
        }
    }
}

/// The memory-map tag's header and where its entries start.
#[derive(Clone, Copy, Debug, PartialEq, Eq, Structural)]
pub struct MmapTag {
    pub ty: u32,
    pub size: u32,
    pub entry_size: u32,
    pub entry_version: u32,
    pub offset: usize,
}

/// The framebuffer tag: where the screen lives and its shape.
#[derive(Clone, Copy, Debug, PartialEq, Eq, Structural)]
pub struct FramebufferTag {
    pub typ: u32,
    pub size: u32,
    pub addr: u64,
    pub pitch: u32,
    pub width: u32,
    pub height: u32,
    pub bpp: u8,
    pub fb_type: u8,
}

/// The little-endian 32-bit value at `off`.
pub open spec fn u32_at(b: Seq<u8>, off: int) -> u32 {
    (b[off] as u32) | ((b[off + 1] as u32) << 8) | ((b[off + 2] as u32) << 16) | ((b[off
        + 3] as u32) << 24)
}

/// The boot information block: its physical address and its bytes.
pub struct MultibootBootInfo {
    base: usize,
    bytes: Vec<u8>,
}

impl MultibootBootInfo {
    /// The block's bytes.
    pub closed spec fn view(&self) -> Seq<u8> {
        self.bytes@
    }

    /// The block's physical address.
    pub closed spec fn base(&self) -> usize {
        self.base
    }

    /// Wraps a copied boot information block found at `base`.
    pub fn load(base: usize, bytes: Vec<u8>) -> (info: MultibootBootInfo)
        ensures
            info.base() == base,
            info.view() == bytes@,
    {
        MultibootBootInfo { base, bytes }
    }

    /// The little-endian 32-bit value at `off`, when it fits.
    fn read_u32(&self, off: usize) -> (r: Option<u32>)
        ensures
            off + 4 <= self.view().len() ==> r == Some(u32_at(self.view(), off as int)),
            off + 4 > self.view().len() ==> r is None,
    {
        if off <= self.bytes.len() && self.bytes.len() - off >= 4 {
            let r = (self.bytes[off] as u32) | ((self.bytes[off + 1] as u32) << 8) | ((self.bytes[
                off + 2] as u32) << 16) | ((self.bytes[off + 3] as u32) << 24);
            Some(r)
        } else {
            None
        }
    }

    /// The little-endian 64-bit value at `off`, when it fits.
    fn read_u64(&self, off: usize) -> (r: Option<u64>)
        ensures
            off + 8 <= self.view().len() ==> (r matches Some(v) && v == (u32_at(
                self.view(),
                off as int,
            ) as u64) | ((u32_at(self.view(), off as int + 4) as u64) << 32)),
            off + 8 > self.view().len() ==> r is None,
    {
        if off <= self.bytes.len() && self.bytes.len() - off >= 8 {
            let lo = match self.read_u32(off) {
                Some(v) => v,
                None => {
                    proof {
                        assert(false);
                    }
                    0
                }
            };
            let hi = match self.read_u32(off + 4) {
                Some(v) => v,
                None => {
                    proof {
                        assert(false);
                    }
                    0
                }
            };
            Some((lo as u64) | ((hi as u64) << 32))
        } else {
            None
        }
    }

    /// Number of bytes the block holds.
    pub fn size_bytes(&self) -> (n: usize)
        ensures
            n == self.view().len(),
    {
        self.bytes.len()
    }

    /// The block's declared total size.
    pub fn get_size(&self) -> (n: usize)
        ensures
            self.view().len() >= 4 ==> n == u32_at(self.view(), 0),
            self.view().len() < 4 ==> n == 0,
    {
        match self.read_u32(0) {
            Some(v) => v as usize,
            None => 0,
        }
    }

    /// The block's physical address.
    pub fn start_address(&self) -> (a: usize)
        ensures
            a == self.base(),
    {
        self.base
    }

    /// One past the block, by its declared size.
    pub fn end_address(&self) -> (a: usize)
        requires
            self.base() + u32::MAX < usize::MAX,
        ensures
            self.view().len() >= 4 ==> a == self.base() + u32_at(self.view(), 0),
            self.view().len() < 4 ==> a == self.base(),
    {
        self.base + self.get_size()
    }

    /// Offset of the first tag within the block.
    pub fn get_tag_address(&self) -> (off: usize)
        ensures
            off == 8,
    {
        8
    }

    /// A walker over the block's tags.
    pub fn tags(&self) -> (it: TagIter)
        ensures
            it.offset == 8,
    {
        TagIter::new(8)
    }

    /// A walker over the block's module tags.
    pub fn get_module_tags(&self) -> (it: ModuleTagIter)
        ensures
            it.iter.offset == 8,
    {
        ModuleTagIter::new(self.tags())
    }

    /// The first memory-map tag, if the block has one.
    pub fn get_memory_map_tag(&self) -> (r: Option<MmapTag>)
        ensures
            r matches Some(t) ==> t.ty == 6,
    {
        let mut it = self.tags();
        let mut fuel: usize = self.bytes.len() / 8 + 2;
        loop
            decreases fuel,
        {
            if fuel == 0 {
                return None;
            }
            fuel = fuel - 1;
            match it.next(self) {
                Some(tag) => {
                    if tag.typ == 6 {
                        if tag.offset > usize::MAX - 16 {
                            return None;
                        }
                        let entry_size = match self.read_u32(tag.offset + 8) {
                            Some(v) => v,
                            None => {
                                return None;
                            }
                        };
                        let entry_version = match self.read_u32(tag.offset + 12) {
                            Some(v) => v,
                            None => {
                                return None;
                            }
                        };
                        return Some(
                            MmapTag {
                                ty: 6,
                                size: tag.size,
                                entry_size,
                                entry_version,
                                offset: tag.offset,
                            },
                        );
                    }
                }
                None => {
                    return None;
                }
            }
        }
    }

    /// The first framebuffer tag, if the block has one.
    pub fn get_framebuffer_tag(&self) -> (r: Option<FramebufferTag>)
        ensures
            r matches Some(t) ==> t.typ == 8,
    {
        let mut it = self.tags();
        let mut fuel: usize = self.bytes.len() / 8 + 2;
        loop
            decreases fuel,
        {
            if fuel == 0 {
                return None;
            }
            fuel = fuel - 1;
            match it.next(self) {
                Some(tag) => {
                    if tag.typ == 8 {
                        if tag.offset > usize::MAX - 32 {
                            return None;
                        }
                        let addr = match self.read_u64(tag.offset + 8) {
                            Some(v) => v,
                            None => {
                                return None;
                            }
                        };
                        let pitch = match self.read_u32(tag.offset + 16) {
                            Some(v) => v,
                            None => {
                                return None;
                            }
                        };
                        let width = match self.read_u32(tag.offset + 20) {
                            Some(v) => v,
                            None => {
                                return None;
                            }
                        };
                        let height = match self.read_u32(tag.offset + 24) {
                            Some(v) => v,
                            None => {
                                return None;
                            }
                        };
                        let packed = match self.read_u32(tag.offset + 28) {
                            Some(v) => v,
                            None => {
                                return None;
                            }
                        };
                        return Some(
                            FramebufferTag {
                                typ: 8,
                                size: tag.size,
                                addr,
                                pitch,
                                width,
                                height,
                                bpp: (packed % 256) as u8,
                                fb_type: ((packed / 256) % 256) as u8,
                            },
                        );
                    }
                }
                None => {
                    return None;
                }
            }
        }
    }

    /// The memory-map entries of kind available, in block order.
    pub fn get_available_mmap_entries(&self, tag: &MmapTag) -> (entries: Vec<MmapEntry>)
        ensures
            forall|i: int| 0 <= i < entries@.len() ==> (#[trigger] entries@[i]).typ == 1,
    {
        let mut it = MmapIter::new(tag);
        let mut out: Vec<MmapEntry> = Vec::new();
        let mut fuel: usize = self.bytes.len() / 24 + 2;
        loop
            invariant
                forall|i: int| 0 <= i < out@.len() ==> (#[trigger] out@[i]).typ == 1,
            decreases fuel,
        {
            if fuel == 0 {
                return out;
            }
            fuel = fuel - 1;
            match it.next(self) {
                Some(e) => {
                    if e.typ == 1 {
                        out.push(e);
                    }
                }
                None => {
                    return out;
                }
            }
        }
    }

    /// The highest end address over the available memory areas: the upper
    /// bound of useable physical memory.
    pub fn end_of_useable_memory(&self) -> (end: u64)
    {
        match self.get_memory_map_tag() {
            Some(tag) => {
                let entries = self.get_available_mmap_entries(&tag);
                let mut best: u64 = 0;
                let mut i: usize = 0;
                while i < entries.len()
                    invariant
                        i <= entries@.len(),
                    decreases entries@.len() - i,
                {
                    let e = entries[i].end_address();
                    if e > best {
                        best = e;
                    }
                    i = i + 1;
                }
                best
            }
            None => 0,
        }
    }
}

/// A cursor over the block's tags.
pub struct TagIter {
    pub offset: usize,
}

impl TagIter {
    /// A cursor starting at byte offset `offset`.
    pub fn new(offset: usize) -> (it: TagIter)
        ensures
            it.offset == offset,
    {
        TagIter { offset }
    }

    /// The tag under the cursor, advancing past it; `None` on the end tag
    /// or a malformed block.
    pub fn next(&mut self, info: &MultibootBootInfo) -> (r: Option<Tag>)
        ensures
            r matches Some(t) ==> {
                &&& t.offset == old(self).offset
                &&& old(self).offset + 8 <= info.view().len()
                &&& t.typ == u32_at(info.view(), old(self).offset as int)
                &&& t.typ != 0
                &&& t.size == u32_at(info.view(), old(self).offset as int + 4)
                &&& final(self).offset >= old(self).offset + 8
            },
            r is None ==> final(self).offset == old(self).offset,
    {
        let typ = match info.read_u32(self.offset) {
            Some(v) => v,
            None => {
                return None;
            }
        };
        if self.offset > usize::MAX - 4 {
            return None;
        }
        let size = match info.read_u32(self.offset + 4) {
            Some(v) => v,
            None => {
                return None;
            }
        };
        if typ == 0 {
            return None;
        }
        // Tags are aligned to eight bytes; a declared size below the
        // header's own eight bytes marks a malformed block.
        if size < 8 {
            return None;
        }
        proof {
            assert((size as usize / 8) * 8 <= size as usize) by (nonlinear_arith);
        }
        let base8: usize = (size as usize / 8) * 8;
        let aligned: usize = if size as usize % 8 == 0 {
            size as usize
        } else {
            if base8 > usize::MAX - 8 {
                return None;
            }
            base8 + 8
        };
        if self.offset > usize::MAX - aligned {
            return None;
        }
        let tag = Tag { typ, size, offset: self.offset };
        self.offset = self.offset + aligned;
        Some(tag)
    }
}

/// A cursor over the module tags only.
pub struct ModuleTagIter {
    pub iter: TagIter,
}

impl ModuleTagIter {
    /// Wraps a tag cursor.
    pub fn new(iter: TagIter) -> (it: ModuleTagIter)
        ensures
            it.iter == iter,
    {
        ModuleTagIter { iter }
    }

    /// The next module tag, skipping every other kind.
    pub fn next(&mut self, info: &MultibootBootInfo) -> (r: Option<ModuleTag>)
        ensures
            r matches Some(m) ==> m.ty == 3,
    {
        let mut fuel: usize = info.bytes.len() / 8 + 2;
        loop
            decreases fuel,
        {
            if fuel == 0 {
                return None;
            }
            fuel = fuel - 1;
            match self.iter.next(info) {
                Some(tag) => {
                    if tag.typ == 3 {
                        if tag.offset > usize::MAX - 16 {
                            return None;
                        }
                        let mod_start = match info.read_u32(tag.offset + 8) {
                            Some(v) => v,
                            None => {
                                return None;
                            }
                        };
                        let mod_end = match info.read_u32(tag.offset + 12) {
                            Some(v) => v,
                            None => {
                                return None;
                            }
                        };
                        return Some(
                            ModuleTag { ty: 3, size: tag.size, mod_start, mod_end },
                        );
                    }
                }
                None => {
                    return None;
                }
            }
        }
    }
}

/// A cursor over a memory-map tag's entries.
pub struct MmapIter {
    pub end_offset: usize,
    pub current: usize,
}

impl MmapIter {
    /// A cursor over the entries of `tag`.
    pub fn new(tag: &MmapTag) -> (it: MmapIter)
        ensures
            tag.offset + 16 <= usize::MAX ==> it.current == tag.offset + 16,
            tag.offset + tag.size <= usize::MAX ==> it.end_offset == tag.offset + tag.size,
    {
        MmapIter {
            end_offset: if tag.size as usize <= usize::MAX - tag.offset {
                tag.offset + tag.size as usize
            } else {
                usize::MAX
            },
            current: if tag.offset <= usize::MAX - 16 {
                tag.offset + 16
            } else {
                usize::MAX
            },
        }
    }

    /// The entry under the cursor, advancing past it.
    pub fn next(&mut self, info: &MultibootBootInfo) -> (r: Option<MmapEntry>)
        ensures
            r is Some ==> final(self).current == old(self).current + 24,
            r is None ==> final(self).current == old(self).current,
    {
        if self.current >= self.end_offset {
            return None;
        }
        if self.current > usize::MAX - 24 {
            return None;
        }
        let addr = match info.read_u64(self.current) {
            Some(v) => v,
            None => {
                return None;
            }
        };
        let len = match info.read_u64(self.current + 8) {
            Some(v) => v,
            None => {
                return None;
            }
        };
        let typ = match info.read_u32(self.current + 16) {
            Some(v) => v,
            None => {
                return None;
            }
        };
        self.current = self.current + 24;
        Some(MmapEntry { addr, len, typ })
    }
}

} // verus!
