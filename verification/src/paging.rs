//! Four-level page-table mapper.
//!
//! The root table (level 3) and every intermediate table live in page
//! frames obtained from the page-frame allocator; the mapper keeps them in
//! an arena keyed by frame address, standing in for the recursive
//! self-mapping trick that lets hardware edit tables in place.  An entry
//! is one 64-bit word packing a
//! physical frame address with the default flags (present, writable, user
//! accessible); the value `0` means unused.  Tables are created lazily on
//! mapping and given back to the frame allocator as soon as all of their
//! 512 entries are unused again.

use vstd::prelude::*;

use crate::mem::{PhysicalMemory, PAGE_SIZE};
use crate::page_frame_allocator::{
    lemma_available_empty, lemma_available_step, PageFrameAllocator,
};

verus! {

/// Bits of an entry that hold the physical frame address.
pub const ADDRESS_MASK: u64 = 0x000f_ffff_ffff_f000;

/// Present, writable and user accessible: the flags every mapping gets.
pub const DEFAULT_FLAGS: u64 = 0b111;

/// Entries per table.
pub const TABLE_ENTRIES: usize = 512;

/// A page-table entry: a packed frame address plus flag bits, `0` when
/// unused.
pub struct Page(pub u64);

impl Page {
    /// Packs `p_addr` with the default flags.
    pub fn new(p_addr: u64) -> (page: Page)
        ensures
            page.0 == (p_addr & ADDRESS_MASK) | DEFAULT_FLAGS,
    {
        Page((p_addr & ADDRESS_MASK) | DEFAULT_FLAGS)
    }

    /// Whether the entry holds no mapping.
    pub fn is_unused(&self) -> (r: bool)
        ensures
            r == (self.0 == 0),
    {
        self.0 == 0
    }

    /// Clears the entry; used to unmap a page.
    pub fn set_to_unused(&mut self)
        ensures
            final(self).0 == 0,
    {
        self.0 = 0;
    }

    /// The physical frame address packed into the entry.
    pub fn get_physical_address(&self) -> (a: u64)
        ensures
            a == self.0 & ADDRESS_MASK,
    {
        self.0 & ADDRESS_MASK
    }
}

/// One 512-entry table of the paging hierarchy.
pub struct PageTable {
    pub entries: Vec<u64>,
}

impl PageTable {
    /// A table's shape: exactly 512 entries.
    pub open spec fn wf(&self) -> bool {
        self.entries@.len() == TABLE_ENTRIES
    }

    /// All entries unused.
    pub open spec fn all_unused(&self) -> bool {
        forall|k: int| 0 <= k < self.entries@.len() ==> self.entries@[k] == 0u64
    }

    /// Creates a table with every entry unused.
    pub fn new() -> (t: PageTable)
        ensures
            t.wf(),
            t.all_unused(),
    {
        let mut entries: Vec<u64> = Vec::new();
        let mut i: usize = 0;
        while i < TABLE_ENTRIES
            invariant
                i <= TABLE_ENTRIES,
                entries@.len() == i as int,
                forall|k: int| 0 <= k < i as int ==> entries@[k] == 0u64,
            decreases TABLE_ENTRIES - i,
        {
            entries.push(0);
            i = i + 1;
        }
        PageTable { entries }
    }

    /// Whether every entry of the table is unused; such a table can be
    /// reclaimed.
    pub fn is_empty(&self) -> (r: bool)
        requires
            self.wf(),
        ensures
            r == self.all_unused(),
    {
        let mut i: usize = 0;
        while i < TABLE_ENTRIES
            invariant
                i <= TABLE_ENTRIES,
                self.wf(),
                forall|k: int| 0 <= k < i as int ==> self.entries@[k] == 0u64,
            decreases TABLE_ENTRIES - i,
        {
            if self.entries[i] != 0 {
                return false;
            }
            i = i + 1;
        }
        true
    }
}

/// Why a mapping operation failed.
#[derive(Clone, Copy, Debug, PartialEq, Eq, Structural)]
pub enum MapError {
    /// No frame was left for a new intermediate table.
    OutOfFrames,
}

/// A table of the arena: its backing frame address, its level (3 is the
/// root, 0 holds the leaf mappings) and its entries.
struct TableSlot {
    addr: usize,
    level: u8,
    table: PageTable,
}

/// The 9-bit index virtual address `v` selects at level `l`.
pub open spec fn vidx(v: u64, l: int) -> int {
    ((v >> ((l * 9 + 12) as u64)) & 0x1ff) as int
}

/// Whether two virtual addresses walk the tables through the same four
/// indices, and so stand or fall together as mappings.
pub open spec fn same_walk(v: u64, w: u64) -> bool {
    &&& vidx(w, 3) == vidx(v, 3)
    &&& vidx(w, 2) == vidx(v, 2)
    &&& vidx(w, 1) == vidx(v, 1)
    &&& vidx(w, 0) == vidx(v, 0)
}

/// The mapper: the arena of page tables, rooted at index 0.
pub struct Mapper {
    tables: Vec<TableSlot>,
}

impl Mapper {
    /// Frame address of the arena table at `i`.
    pub closed spec fn addr_of(&self, i: int) -> usize {
        self.tables@[i].addr
    }

    /// Level of the arena table at `i`.
    pub closed spec fn level_of(&self, i: int) -> int {
        self.tables@[i].level as int
    }

    /// Entry `k` of the arena table at `i`.
    pub closed spec fn ent(&self, i: int, k: int) -> u64 {
        self.tables@[i].table.entries@[k]
    }

    /// Number of tables in the arena.
    pub closed spec fn n(&self) -> int {
        self.tables@.len() as int
    }

    /// Number of entries of the arena table at `i`.
    pub closed spec fn ents_len(&self, i: int) -> int {
        self.tables@[i].table.entries@.len() as int
    }

    /// Whether some arena table is backed by frame `a`.
    pub open spec fn has_addr(&self, a: u64) -> bool {
        exists|i: int| 0 <= i < self.n() && self.addr_of(i) as u64 == a
    }

    /// Arena index of the table backed by frame `a`.
    pub open spec fn index_of(&self, a: u64) -> int {
        choose|i: int| 0 <= i < self.n() && self.addr_of(i) as u64 == a
    }

    /// Arena index of the table entry `(i, k)` points to.
    pub open spec fn child(&self, i: int, k: int) -> int {
        self.index_of(self.ent(i, k) & ADDRESS_MASK)
    }

    /// Mapper invariant.  The root is the single level-3 table; every
    /// present entry of a table above level 0 points to exactly one arena
    /// table one level down, and no two entries share a target.
    pub open spec fn wf(&self) -> bool {
        &&& 1 <= self.n()
        &&& self.level_of(0) == 3
        &&& forall|i: int| 0 <= i < self.n() ==> #[trigger] self.ents_len(i) == TABLE_ENTRIES
        &&& forall|i: int| 0 <= i < self.n() ==> #[trigger] self.level_of(i) <= 3
        &&& forall|i: int|
            0 <= i < self.n() ==> (#[trigger] self.addr_of(i)) as u64 & ADDRESS_MASK == self.addr_of(
                i,
            ) as u64 && self.addr_of(i) != 0
        &&& forall|i: int, j: int| 0 <= i < j < self.n() ==> self.addr_of(i) != self.addr_of(j)
        &&& forall|i: int, k: int|
            0 <= i < self.n() && 0 <= k < TABLE_ENTRIES && self.level_of(i) >= 1
                && #[trigger] self.ent(i, k) != 0 ==> {
                &&& self.has_addr(self.ent(i, k) & ADDRESS_MASK)
                &&& self.level_of(self.child(i, k)) == self.level_of(i) - 1
            }
        &&& forall|i: int, k: int, j: int, m: int|
            0 <= i < self.n() && 0 <= k < TABLE_ENTRIES && self.level_of(i) >= 1
                && #[trigger] self.ent(i, k) != 0 && 0 <= j < self.n() && 0 <= m < TABLE_ENTRIES
                && self.level_of(j) >= 1 && #[trigger] self.ent(j, m) != 0 && (i != j || k != m)
                ==> self.ent(i, k) & ADDRESS_MASK != self.ent(j, m) & ADDRESS_MASK
    }

    /// Every table frame is a live allocation of `pfa`.
    pub open spec fn tables_live(&self, pfa: &PageFrameAllocator) -> bool {
        forall|i: int| 0 <= i < self.n() ==> pfa.live().contains(#[trigger] self.addr_of(i))
    }

    /// Whether the arena table at `i` holds at least one used entry.
    pub open spec fn table_used(&self, i: int) -> bool {
        exists|k: int| 0 <= k < TABLE_ENTRIES && (#[trigger] self.ent(i, k)) != 0
    }

    /// Every table but the root keeps at least one used entry: empty
    /// tables are reclaimed at once, never left allocated.
    pub open spec fn no_empty_tables(&self) -> bool {
        forall|i: int| 1 <= i < self.n() ==> #[trigger] self.table_used(i)
    }

    /// The translations of every four-index path agree between `self` and
    /// `other`.
    pub open spec fn same_translations(&self, other: &Mapper) -> bool {
        forall|i3: int, i2: int, i1: int, i0: int|
            0 <= i3 < TABLE_ENTRIES && 0 <= i2 < TABLE_ENTRIES && 0 <= i1 < TABLE_ENTRIES && 0
                <= i0 < TABLE_ENTRIES ==> #[trigger] self.translate_idx(i3, i2, i1, i0)
                == other.translate_idx(i3, i2, i1, i0)
    }

    /// The frame a four-index path leads to, walking the arena from the
    /// root.
    pub open spec fn translate_idx(&self, i3: int, i2: int, i1: int, i0: int) -> Option<u64> {
        if self.ent(0, i3) == 0 {
            None
        } else {
            let t2 = self.child(0, i3);
            if self.ent(t2, i2) == 0 {
                None
            } else {
                let t1 = self.child(t2, i2);
                if self.ent(t1, i1) == 0 {
                    None
                } else {
                    let t0 = self.child(t1, i1);
                    if self.ent(t0, i0) == 0 {
                        None
                    } else {
                        Some(self.ent(t0, i0) & ADDRESS_MASK)
                    }
                }
            }
        }
    }

    /// The physical frame virtual address `v` is mapped to, if any.
    pub open spec fn translate(&self, v: u64) -> Option<u64> {
        self.translate_idx(vidx(v, 3), vidx(v, 2), vidx(v, 1), vidx(v, 0))
    }

    /// Creates a mapper whose root table lives in one fresh frame of
    /// `pfa`; `None` when no frame is left.
    pub fn new(pfa: &mut PageFrameAllocator) -> (r: Option<Mapper>)
        requires
            old(pfa).wf(),
            old(pfa).end() <= ADDRESS_MASK as int,
        ensures
            final(pfa).wf(),
            final(pfa).start() == old(pfa).start(),
            final(pfa).end() == old(pfa).end(),
            r is Some <==> old(pfa).stack().len() > 0 || old(pfa).watermark() < old(pfa).end(),
            r is None ==> final(pfa).live() == old(pfa).live() && final(pfa).stack() == old(
                pfa,
            ).stack() && final(pfa).watermark() == old(pfa).watermark(),
            r matches Some(m) ==> {
                &&& m.wf()
                &&& m.n() == 1
                &&& m.no_empty_tables()
                &&& m.tables_live(final(pfa))
                &&& forall|i3: int, i2: int, i1: int, i0: int|
                    0 <= i3 < TABLE_ENTRIES && 0 <= i2 < TABLE_ENTRIES && 0 <= i1 < TABLE_ENTRIES
                        && 0 <= i0 < TABLE_ENTRIES ==> #[trigger] m.translate_idx(
                        i3,
                        i2,
                        i1,
                        i0,
                    ) is None
                &&& forall|v: u64| #[trigger] m.translate(v) is None
            },
    {
        match pfa.alloc_page_frame() {
            Some(addr) => {
                proof {
                    assert(pfa.issuable(addr as int));
                    assert(addr as int + PAGE_SIZE <= pfa.watermark());
                    assert(pfa.watermark() <= pfa.end());
                    assert(pfa.end() == old(pfa).end());
                    lemma_frame_maskable(addr as u64);
                }
                let table = PageTable::new();
                let ghost tview = table.entries@;
                proof {
                    assert(table.all_unused());
                    assert(forall|k: int| 0 <= k < tview.len() ==> tview[k] == 0u64);
                }
                let slot = TableSlot { addr, level: 3, table };
                let mut tables: Vec<TableSlot> = Vec::new();
                tables.push(slot);
                let m = Mapper { tables };
                proof {
                    assert(m.tables@.len() == 1);
                    assert(m.tables@[0].table.entries@ == tview);
                    assert forall|k: int| 0 <= k < TABLE_ENTRIES implies #[trigger] m.ent(0, k)
                        == 0u64 by {
                        assert(tview.len() == TABLE_ENTRIES);
                        assert(m.ent(0, k) == tview[k]);
                        assert(tview[k] == 0u64);
                    }
                    assert forall|i3: int, i2: int, i1: int, i0: int|
                        0 <= i3 < TABLE_ENTRIES && 0 <= i2 < TABLE_ENTRIES && 0 <= i1
                            < TABLE_ENTRIES && 0 <= i0 < TABLE_ENTRIES implies #[trigger] m
                        .translate_idx(i3, i2, i1, i0) is None by {
                        assert(m.ent(0, i3) == 0u64);
                    }
                    assert forall|v: u64| #[trigger] m.translate(v) is None by {
                        lemma_vidx_range(v, 3);
                        lemma_vidx_range(v, 2);
                        lemma_vidx_range(v, 1);
                        lemma_vidx_range(v, 0);
                    }
                }
                Some(m)
            }
            None => None,
        }
    }

    /// Resolves a present non-leaf entry to the arena index of its target
    /// table, by scan.
    fn find_child(&self, i: usize, e: u64) -> (t: usize)
        requires
            self.wf(),
            0 <= i < self.n(),
            self.level_of(i as int) >= 1,
            e != 0,
            exists|k: int| 0 <= k < TABLE_ENTRIES && #[trigger] self.ent(i as int, k) == e,
        ensures
            0 <= t < self.n(),
            t as int == self.index_of(e & ADDRESS_MASK),
            self.addr_of(t as int) as u64 == e & ADDRESS_MASK,
            self.level_of(t as int) == self.level_of(i as int) - 1,
    {
        proof {
            let k = choose|k: int| 0 <= k < TABLE_ENTRIES && #[trigger] self.ent(i as int, k) == e;
            assert(self.has_addr(self.ent(i as int, k) & ADDRESS_MASK));
        }
        let target = e & ADDRESS_MASK;
        let mut i2: usize = 0;
        loop
            invariant
                i2 <= self.n(),
                self.wf(),
                self.has_addr(e & ADDRESS_MASK),
                target == e & ADDRESS_MASK,
                exists|k: int| 0 <= k < TABLE_ENTRIES && #[trigger] self.ent(i as int, k) == e,
                0 <= i < self.n(),
                self.level_of(i as int) >= 1,
                e != 0,
                forall|j: int| 0 <= j < i2 ==> (#[trigger] self.addr_of(j)) as u64 != target,
            decreases self.n() - i2,
        {
            if i2 >= self.tables.len() {
                proof {
                    let w = self.index_of(e & ADDRESS_MASK);
                    assert(0 <= w < self.n() && self.addr_of(w) as u64 == e & ADDRESS_MASK);
                    assert(false);
                }
                return 0;
            }
            if self.tables[i2].addr as u64 == target {
                proof {
                    let w = self.index_of(e & ADDRESS_MASK);
                    assert(0 <= w < self.n() && self.addr_of(w) as u64 == e & ADDRESS_MASK);
                    if w != i2 as int {
                        assert(self.addr_of(w) != self.addr_of(i2 as int));
                        assert(false);
                    }
                    let k = choose|k: int|
                        0 <= k < TABLE_ENTRIES && #[trigger] self.ent(i as int, k) == e;
                    assert(self.level_of(self.child(i as int, k)) == self.level_of(i as int) - 1);
                    assert(self.child(i as int, k) == w);
                }
                return i2;
            }
            i2 = i2 + 1;
        }
    }


    /// Replaces entry `k` of the arena table at `ti`, leaving every other
    /// table and entry as it was.
    fn set_entry(&mut self, ti: usize, k: usize, value: u64)
        requires
            0 <= ti < old(self).n(),
            0 <= k < TABLE_ENTRIES,
            old(self).ents_len(ti as int) == TABLE_ENTRIES,
        ensures
            final(self).n() == old(self).n(),
            forall|i: int|
                0 <= i < old(self).n() ==> final(self).addr_of(i) == old(self).addr_of(i)
                    && final(self).level_of(i) == old(self).level_of(i) && final(self).ents_len(i)
                    == old(self).ents_len(i),
            forall|i: int, k2: int|
                0 <= i < old(self).n() && 0 <= k2 < TABLE_ENTRIES && !(i == ti as int && k2
                    == k as int) ==> final(self).ent(i, k2) == old(self).ent(i, k2),
            final(self).ent(ti as int, k as int) == value,
    {
        let addr = self.tables[ti].addr;
        let level = self.tables[ti].level;
        let n = self.tables[ti].table.entries.len();
        let mut entries: Vec<u64> = Vec::new();
        let mut i: usize = 0;
        while i < n
            invariant
                i <= n,
                0 <= ti < self.n(),
                n == self.ents_len(ti as int),
                entries@.len() == i as int,
                forall|j: int| 0 <= j < i as int ==> entries@[j] == self.ent(ti as int, j),
            decreases n - i,
        {
            let e = self.tables[ti].table.entries[i];
            entries.push(e);
            i = i + 1;
        }
        entries.set(k, value);
        self.tables.set(ti, TableSlot { addr, level, table: PageTable { entries } });
    }

    /// Returns the arena index of the table entry `(ti, k)` points to,
    /// installing a fresh zeroed table from `pfa` when the entry is
    /// unused.  Fails only when the frame allocator is exhausted, leaving
    /// everything unchanged.
    #[verifier::rlimit(80)]
    fn ensure_child(&mut self, pfa: &mut PageFrameAllocator, ti: usize, k: usize) -> (r: Result<
        usize,
        MapError,
    >)
        requires
            old(self).wf(),
            old(pfa).wf(),
            old(self).tables_live(old(pfa)),
            old(pfa).end() <= ADDRESS_MASK as int,
            0 <= ti < old(self).n(),
            old(self).level_of(ti as int) >= 1,
            0 <= k < TABLE_ENTRIES,
        ensures
            final(self).wf(),
            final(pfa).wf(),
            final(self).tables_live(final(pfa)),
            final(pfa).start() == old(pfa).start(),
            final(pfa).end() == old(pfa).end(),
            final(pfa).available() >= old(pfa).available() - 1,
            r is Err ==> old(pfa).available() == 0 && *final(self) == *old(self)
                && final(pfa).available() == 0,
            r matches Ok(t) ==> {
                &&& 0 <= t < final(self).n()
                &&& final(self).n() >= old(self).n()
                &&& final(self).same_translations(old(self))
                &&& final(self).level_of(t as int) == old(self).level_of(ti as int) - 1
                &&& final(self).ent(ti as int, k as int) != 0
                &&& final(self).child(ti as int, k as int) == t as int
                &&& forall|i: int|
                    0 <= i < old(self).n() ==> final(self).addr_of(i) == old(self).addr_of(i)
                        && final(self).level_of(i) == old(self).level_of(i)
                &&& forall|i: int, k2: int|
                    0 <= i < old(self).n() && 0 <= k2 < TABLE_ENTRIES && !(i == ti as int && k2
                        == k as int) ==> final(self).ent(i, k2) == old(self).ent(i, k2)
                &&& forall|i: int, k2: int|
                    0 <= i < old(self).n() && 0 <= k2 < TABLE_ENTRIES && old(self).level_of(i) >= 1
                        && old(self).ent(i, k2) != 0 && !(i == ti as int && k2 == k as int)
                        ==> #[trigger] final(self).child(i, k2) == old(self).child(i, k2)
                &&& (old(self).ent(ti as int, k as int) != 0 ==> *final(self) == *old(self)
                    && *final(pfa) == *old(pfa) && t as int == old(self).child(
                    ti as int,
                    k as int,
                ))
                &&& (old(self).ent(ti as int, k as int) == 0 ==> t as int == old(self).n()
                    && final(self).n() == old(self).n() + 1 && forall|k2: int|
                    0 <= k2 < TABLE_ENTRIES ==> final(self).ent(t as int, k2) == 0u64)
            },
    {
        proof {
            assert(self.ents_len(ti as int) == TABLE_ENTRIES);
        }
        let existing = self.tables[ti].table.entries[k];
        if existing != 0 {
            proof {
                assert(self.ent(ti as int, k as int) == existing);
                assert(exists|k2: int|
                    0 <= k2 < TABLE_ENTRIES && #[trigger] self.ent(ti as int, k2) == existing);
            }
            let t = self.find_child(ti, existing);
            proof {
                let w = self.index_of(existing & ADDRESS_MASK);
                assert(self.child(ti as int, k as int) == w);
            }
            proof {
                vstd::arithmetic::div_mod::lemma_div_is_ordered(
                    0,
                    old(pfa).end() - old(pfa).watermark(),
                    PAGE_SIZE as int,
                );
            }
            return Ok(t);
        }
        match pfa.alloc_page_frame() {
            Some(addr) => {
                proof {
                    assert(pfa.issuable(addr as int));
                    lemma_frame_maskable(addr as u64);
                    lemma_available_step_paging(old(pfa), pfa, addr);
                }
                let table = PageTable::new();
                let ghost tview = table.entries@;
                proof {
                    assert(forall|k2: int| 0 <= k2 < tview.len() ==> tview[k2] == 0u64);
                }
                let new_index = self.tables.len();
                let level = self.tables[ti].level - 1;
                self.tables.push(TableSlot { addr, level, table });
                let entry_value = (addr as u64 & ADDRESS_MASK) | DEFAULT_FLAGS;
                proof {
                    lemma_entry_mask(addr as u64);
                    assert forall|i: int| 0 <= i < self.n() implies pfa.live().contains(
                        #[trigger] self.addr_of(i),
                    ) by {
                        if i < old(self).n() {
                            assert(old(self).addr_of(i) == self.addr_of(i));
                            assert(old(pfa).live().contains(self.addr_of(i)));
                        }
                    }
                    assert forall|i: int| 0 <= i < old(self).n() implies self.addr_of(i) as u64
                        != addr as u64 by {
                        assert(old(pfa).live().contains(old(self).addr_of(i)));
                    }
                }
                proof {
                    assert forall|i: int| 0 <= i < self.n() implies #[trigger] self.ents_len(i)
                        == TABLE_ENTRIES by {
                        if i < old(self).n() {
                            assert(old(self).ents_len(i) == TABLE_ENTRIES);
                        } else {
                            assert(self.tables@[i].table.entries@ == tview);
                            assert(tview.len() == TABLE_ENTRIES);
                        }
                    }
                }
                let ghost m_mid = *self;
                self.set_entry(ti, k, entry_value);
                proof {
                    assert forall|i: int| 0 <= i < self.n() implies #[trigger] self.ents_len(i)
                        == TABLE_ENTRIES by {
                        assert(m_mid.ents_len(i) == TABLE_ENTRIES);
                    }
                    lemma_after_install(
                        *old(self),
                        *self,
                        ti as int,
                        k as int,
                        new_index as int,
                        addr,
                    );
                }
                Ok(new_index)
            }
            None => {
                proof {
                    lemma_available_empty(old(pfa).watermark(), old(pfa).end());
                }
                Err(MapError::OutOfFrames)
            }
        }
    }

    /// Maps virtual address `v_addr` to the physical frame `p_addr`,
    /// creating the intermediate tables on demand from `pfa` — a table is
    /// allocated exactly where the walk found an unused entry.  Every
    /// other virtual address keeps the translation it had.  With at least
    /// three frames still available the mapping always succeeds;
    /// exhaustion of physical memory while building the chain is the only
    /// failure and is handed to the caller as a fatal error, leaving
    /// every translation as it was (a partially built chain of empty
    /// tables may remain allocated).  The platform requires the TLB to be
    /// invalidated for the affected range before the new mapping is
    /// trusted; that step lives with the caller, outside this model.
    #[verifier::rlimit(80)]
    pub fn map_one(&mut self, pfa: &mut PageFrameAllocator, v_addr: u64, p_addr: u64) -> (r:
        Result<(), MapError>)
        requires
            old(self).wf(),
            old(pfa).wf(),
            old(self).tables_live(old(pfa)),
            old(self).no_empty_tables(),
            old(pfa).end() <= ADDRESS_MASK as int,
            p_addr & ADDRESS_MASK == p_addr,
            p_addr != 0,
        ensures
            final(self).wf(),
            final(pfa).wf(),
            final(self).tables_live(final(pfa)),
            final(pfa).start() == old(pfa).start(),
            final(pfa).end() == old(pfa).end(),
            final(pfa).available() >= old(pfa).available() - 3,
            old(pfa).available() >= 3 ==> r is Ok,
            old(self).n() <= final(self).n() <= old(self).n() + 3,
            r is Ok ==> final(self).translate(v_addr) == Some(p_addr),
            r is Ok ==> final(self).no_empty_tables(),
            r is Err ==> final(self).same_translations(old(self)),
            forall|w: u64|
                !same_walk(v_addr, w) ==> #[trigger] final(self).translate(w) == old(
                    self,
                ).translate(w),
    {
        let ghost s0 = *self;
        let i3 = index_for(v_addr, 3);
        let t2 = match self.ensure_child(pfa, 0, i3) {
            Ok(t) => t,
            Err(e) => {
                proof {
                    lemma_preservation_to_translate(s0, *self, v_addr);
                }
                return Err(e);
            }
        };
        let ghost s1 = *self;
        let i2 = index_for(v_addr, 2);
        let t1 = match self.ensure_child(pfa, t2, i2) {
            Ok(t) => t,
            Err(e) => {
                proof {
                    lemma_same_translations_trans(s0, s1, *self);
                    lemma_preservation_to_translate(s0, *self, v_addr);
                }
                return Err(e);
            }
        };
        let ghost s2 = *self;
        proof {
            assert(s2.ent(0, i3 as int) != 0 && s2.child(0, i3 as int) == t2 as int) by {
                assert(s1.level_of(t2 as int) == 2);
                assert(s1.level_of(0) == 3);
            }
        }
        let i1 = index_for(v_addr, 1);
        let t0 = match self.ensure_child(pfa, t1, i1) {
            Ok(t) => t,
            Err(e) => {
                proof {
                    lemma_same_translations_trans(s0, s1, s2);
                    lemma_same_translations_trans(s0, s2, *self);
                    lemma_preservation_to_translate(s0, *self, v_addr);
                }
                return Err(e);
            }
        };
        let ghost s3 = *self;
        proof {
            assert(s3.ent(0, i3 as int) != 0 && s3.child(0, i3 as int) == t2 as int) by {
                assert(s2.level_of(t1 as int) == 1);
                assert(s2.level_of(0) == 3);
            }
            assert(s3.ent(t2 as int, i2 as int) != 0 && s3.child(t2 as int, i2 as int)
                == t1 as int) by {
                assert(s2.level_of(t1 as int) == 1);
                assert(s2.level_of(t2 as int) == 2);
            }
            assert(self.ents_len(t0 as int) == TABLE_ENTRIES);
        }
        let i0 = index_for(v_addr, 0);
        let entry_value = (p_addr & ADDRESS_MASK) | DEFAULT_FLAGS;
        self.set_entry(t0, i0, entry_value);
        proof {
            lemma_entry_mask(p_addr);
            let m1 = *self;
            // The leaf table has level 0, so no table entry the invariant
            // speaks of has changed.
            assert(s3.level_of(t0 as int) == 0);
            assert forall|i: int, k2: int|
                0 <= i < m1.n() && 0 <= k2 < TABLE_ENTRIES && m1.level_of(i) >= 1
                    implies #[trigger] m1.ent(i, k2) == s3.ent(i, k2) by {
                assert(s3.level_of(i) == m1.level_of(i));
            }
            assert forall|i: int, k2: int|
                0 <= i < m1.n() && 0 <= k2 < TABLE_ENTRIES && m1.level_of(i) >= 1
                    && #[trigger] m1.ent(i, k2) != 0 implies {
                &&& m1.has_addr(m1.ent(i, k2) & ADDRESS_MASK)
                &&& m1.level_of(m1.child(i, k2)) == m1.level_of(i) - 1
            } by {
                assert(m1.ent(i, k2) == s3.ent(i, k2));
                assert(s3.has_addr(s3.ent(i, k2) & ADDRESS_MASK));
                lemma_index_of_stable(s3, m1, s3.ent(i, k2) & ADDRESS_MASK);
            }
            assert(m1.wf());
            // The path facts survive the leaf write: the three parent
            // tables all have level at least 1, unlike the leaf table.
            assert(m1.ent(0, i3 as int) == s3.ent(0, i3 as int)) by {
                assert(s3.level_of(0) == 3);
            }
            lemma_index_of_stable(s3, m1, s3.ent(0, i3 as int) & ADDRESS_MASK);
            assert(m1.child(0, i3 as int) == t2 as int);
            assert(m1.ent(t2 as int, i2 as int) == s3.ent(t2 as int, i2 as int)) by {
                assert(s3.level_of(t2 as int) == 2);
            }
            lemma_index_of_stable(s3, m1, s3.ent(t2 as int, i2 as int) & ADDRESS_MASK);
            assert(m1.child(t2 as int, i2 as int) == t1 as int);
            assert(m1.ent(t1 as int, i1 as int) == s3.ent(t1 as int, i1 as int)) by {
                assert(s3.level_of(t1 as int) == 1);
            }
            lemma_index_of_stable(s3, m1, s3.ent(t1 as int, i1 as int) & ADDRESS_MASK);
            assert(m1.child(t1 as int, i1 as int) == t0 as int);
            assert(m1.ent(t0 as int, i0 as int) == entry_value);
            assert(entry_value != 0 && entry_value & ADDRESS_MASK == p_addr);
            assert(m1.translate_idx(i3 as int, i2 as int, i1 as int, i0 as int) == Some(p_addr));
            assert(m1.translate(v_addr) == Some(p_addr));
            // Every other translation survives: the installs changed
            // nothing and the leaf write pinned one path.
            lemma_same_translations_trans(s0, s1, s2);
            lemma_same_translations_trans(s0, s2, s3);
            assert((t2 as int) < s3.n() && (t1 as int) < s3.n() && (t0 as int) < s3.n());
            lemma_leaf_set_preserves(
                s3,
                m1,
                i3 as int,
                i2 as int,
                i1 as int,
                i0 as int,
                t2 as int,
                t1 as int,
                t0 as int,
            );
            assert forall|w: u64| !same_walk(v_addr, w) implies #[trigger] m1.translate(w)
                == s0.translate(w) by {
                lemma_vidx_range(w, 3);
                lemma_vidx_range(w, 2);
                lemma_vidx_range(w, 1);
                lemma_vidx_range(w, 0);
                let j3 = vidx(w, 3);
                let j2 = vidx(w, 2);
                let j1 = vidx(w, 1);
                let j0 = vidx(w, 0);
                assert(!(j3 == i3 as int && j2 == i2 as int && j1 == i1 as int && j0
                    == i0 as int));
                assert(m1.translate_idx(j3, j2, j1, j0) == s3.translate_idx(j3, j2, j1, j0));
                assert(s3.translate_idx(j3, j2, j1, j0) == s0.translate_idx(j3, j2, j1, j0));
            }
            // No table was left without a used entry: old witnesses
            // survive, and each freshly created table received the next
            // entry of the chain.
            assert forall|i: int, k: int|
                0 <= i < s0.n() && 0 <= k < TABLE_ENTRIES && (#[trigger] s0.ent(i, k)) != 0
                implies s1.ent(i, k) != 0 by {
                if i == 0 && k == i3 as int {
                    if s0.ent(0, i3 as int) != 0 {
                        assert(s1.ent(i, k) == s0.ent(i, k));
                    }
                }
            }
            lemma_used_carries(s0, s1);
            assert forall|i: int, k: int|
                0 <= i < s1.n() && 0 <= k < TABLE_ENTRIES && (#[trigger] s1.ent(i, k)) != 0
                implies s2.ent(i, k) != 0 by {
                if i == t2 as int && k == i2 as int {
                    if s1.ent(t2 as int, i2 as int) != 0 {
                        assert(s2.ent(i, k) == s1.ent(i, k));
                    }
                }
            }
            lemma_used_carries(s1, s2);
            assert forall|i: int, k: int|
                0 <= i < s2.n() && 0 <= k < TABLE_ENTRIES && (#[trigger] s2.ent(i, k)) != 0
                implies s3.ent(i, k) != 0 by {
                if i == t1 as int && k == i1 as int {
                    if s2.ent(t1 as int, i1 as int) != 0 {
                        assert(s3.ent(i, k) == s2.ent(i, k));
                    }
                }
            }
            lemma_used_carries(s2, s3);
            assert forall|i: int, k: int|
                0 <= i < s3.n() && 0 <= k < TABLE_ENTRIES && (#[trigger] s3.ent(i, k)) != 0
                implies m1.ent(i, k) != 0 by {
                if i == t0 as int && k == i0 as int {
                    assert(m1.ent(i, k) == entry_value);
                }
            }
            lemma_used_carries(s3, m1);
            assert forall|i: int| 1 <= i < m1.n() implies #[trigger] m1.table_used(i) by {
                if i < s0.n() {
                    assert(s0.table_used(i));
                    assert(s1.table_used(i));
                    assert(s2.table_used(i));
                    assert(s3.table_used(i));
                } else if i < s1.n() {
                    // Created by the first step: it holds the entry the
                    // second step installed.
                    assert(s0.ent(0, i3 as int) == 0 && i == t2 as int);
                    assert(s1.ent(t2 as int, i2 as int) == 0);
                    assert(s2.ent(t2 as int, i2 as int) != 0);
                    assert(s2.level_of(t2 as int) == 2 && s2.level_of(t1 as int) == 1);
                    assert(s3.ent(t2 as int, i2 as int) == s2.ent(t2 as int, i2 as int));
                    assert(s3.level_of(t2 as int) == 2 && s3.level_of(t0 as int) == 0);
                    assert(m1.ent(t2 as int, i2 as int) == s3.ent(t2 as int, i2 as int));
                    assert(m1.table_used(i));
                } else if i < s2.n() {
                    // Created by the second step: it holds the entry the
                    // third step installed.
                    assert(s1.ent(t2 as int, i2 as int) == 0 && i == t1 as int);
                    assert(s3.ent(t1 as int, i1 as int) != 0);
                    assert(s3.level_of(t1 as int) == 1 && s3.level_of(t0 as int) == 0);
                    assert(m1.ent(t1 as int, i1 as int) == s3.ent(t1 as int, i1 as int));
                    assert(m1.table_used(i));
                } else {
                    // Created by the third step: it holds the leaf entry.
                    assert(s2.ent(t1 as int, i1 as int) == 0 && i == t0 as int);
                    assert(m1.ent(t0 as int, i0 as int) == entry_value && entry_value != 0);
                    assert(m1.table_used(i));
                }
            }
        }
        Ok(())
    }

    /// Frees the table at `tc` — pointed at by entry `(tp, kp)` — when all
    /// of its entries are unused: the parent entry is cleared, the table
    /// leaves the arena and its frame goes back to `pfa`, zeroed.  A table
    /// still holding a mapping is left alone.
    #[verifier::rlimit(100)]
    fn reclaim_if_empty(
        &mut self,
        pfa: &mut PageFrameAllocator,
        mem: &mut PhysicalMemory,
        tp: usize,
        kp: usize,
        tc: usize,
    ) -> (freed: bool)
        requires
            old(self).wf(),
            old(pfa).wf(),
            old(self).tables_live(old(pfa)),
            old(mem).contains_range(old(pfa).start(), old(pfa).end()),
            0 <= tp < old(self).n(),
            0 <= kp < TABLE_ENTRIES,
            0 <= tc < old(self).n(),
            old(self).level_of(tp as int) >= 1,
            old(self).ent(tp as int, kp as int) != 0,
            old(self).ent(tp as int, kp as int) & ADDRESS_MASK == old(self).addr_of(
                tc as int,
            ) as u64,
            old(self).level_of(tc as int) < 3,
            // Every table other than the candidate still holds a used
            // entry.
            forall|i: int|
                1 <= i < old(self).n() && old(self).addr_of(i) != old(self).addr_of(tc as int)
                    ==> #[trigger] old(self).table_used(i),
        ensures
            final(self).wf(),
            final(pfa).wf(),
            final(self).tables_live(final(pfa)),
            final(pfa).start() == old(pfa).start(),
            final(pfa).end() == old(pfa).end(),
            final(pfa).watermark() == old(pfa).watermark(),
            final(mem).agrees_outside(old(mem), old(pfa).start(), old(pfa).end()),
            final(self).same_translations(old(self)),
            freed <==> (forall|k: int|
                0 <= k < TABLE_ENTRIES ==> old(self).ent(tc as int, k) == 0u64),
            !freed ==> old(self).table_used(tc as int),
            freed ==> forall|i: int|
                1 <= i < final(self).n() && final(self).addr_of(i) != old(self).addr_of(
                    tp as int,
                ) ==> #[trigger] final(self).table_used(i),
            !freed ==> *final(self) == *old(self) && *final(pfa) == *old(pfa) && *final(mem)
                == *old(mem),
            freed ==> {
                &&& final(self).n() == old(self).n() - 1
                &&& final(pfa).stack().len() == old(pfa).stack().len() + 1
                &&& forall|i: int|
                    0 <= i < final(self).n() ==> {
                        let j = pre_remove_index(tc as int, old(self).n(), i);
                        &&& (#[trigger] final(self).addr_of(i)) == old(self).addr_of(j)
                        &&& final(self).level_of(i) == old(self).level_of(j)
                        &&& forall|k: int|
                            0 <= k < TABLE_ENTRIES ==> (#[trigger] final(self).ent(i, k)) == (
                            if j == tp as int && k == kp as int {
                                0u64
                            } else {
                                old(self).ent(j, k)
                            })
                    }
            },
    {
        proof {
            assert(self.ents_len(tc as int) == TABLE_ENTRIES);
        }
        if self.tables[tc].table.is_empty() {
            proof {
                assert forall|k: int| 0 <= k < TABLE_ENTRIES implies old(self).ent(tc as int, k)
                    == 0u64 by {
                    assert(old(self).tables@[tc as int].table.entries@[k] == 0u64);
                }
            }
            let a = self.tables[tc].addr;
            let ghost m_b = *self;
            proof {
                assert(self.addr_of(tc as int) == a);
                assert(self.ents_len(tp as int) == TABLE_ENTRIES);
                assert(tc != 0) by {
                    assert(m_b.level_of(0) == 3);
                }
            }
            self.set_entry(tp, kp, 0);
            proof {
                lemma_after_clear(m_b, *self, tp as int, kp as int);
                lemma_no_targets_after_clear(m_b, *self, tp as int, kp as int, a as u64);
            }
            let ghost m_c = *self;
            self.tables.swap_remove(tc);
            proof {
                lemma_after_remove(m_c, *self, tc as int);
                assert(old(pfa).live().contains(a)) by {
                    assert(m_b.addr_of(tc as int) == a);
                }
                assert(pfa.issuable(a as int));
                assert(old(mem).contains_range(a as int, a as int + PAGE_SIZE));
            }
            pfa.free_page_frame(mem, a);
            proof {
                assert forall|i: int| 0 <= i < self.n() implies pfa.live().contains(
                    #[trigger] self.addr_of(i),
                ) by {
                    let j = pre_remove_index(tc as int, m_c.n(), i);
                    assert(self.addr_of(i) == m_c.addr_of(j));
                    assert(self.addr_of(i) != m_c.addr_of(tc as int));
                    assert(old(pfa).live().contains(m_b.addr_of(j)));
                }
                assert(old(pfa).start() <= a as int && a as int + PAGE_SIZE <= old(pfa).end());
                assert(mem.agrees_outside(old(mem), a as int, a as int + PAGE_SIZE));
                assert forall|x: int|
                    mem.base_addr() <= x < mem.end_addr() && !(old(pfa).start() <= x < old(
                        pfa,
                    ).end()) implies mem.byte_at(x) == old(mem).byte_at(x) by {
                    assert(!(a as int <= x < a as int + PAGE_SIZE));
                }
                assert(mem.agrees_outside(old(mem), old(pfa).start(), old(pfa).end()));
                assert forall|i: int| 0 <= i < self.n() implies {
                    let j = pre_remove_index(tc as int, old(self).n(), i);
                    &&& (#[trigger] self.addr_of(i)) == old(self).addr_of(j)
                    &&& self.level_of(i) == old(self).level_of(j)
                    &&& forall|k: int|
                        0 <= k < TABLE_ENTRIES ==> (#[trigger] self.ent(i, k)) == (if j
                            == tp as int && k == kp as int {
                            0u64
                        } else {
                            old(self).ent(j, k)
                        })
                } by {
                    let j = pre_remove_index(tc as int, old(self).n(), i);
                    assert(self.addr_of(i) == m_c.addr_of(j));
                    assert(self.level_of(i) == m_c.level_of(j));
                    assert(forall|k: int|
                        0 <= k < TABLE_ENTRIES ==> (#[trigger] self.ent(i, k)) == m_c.ent(j, k));
                }
                assert(remove_shape(m_b, m_c, *self, tp as int, kp as int, tc as int));
                lemma_reclaim_preserves(m_b, m_c, *self, tp as int, kp as int, tc as int);
                assert forall|i: int|
                    1 <= i < self.n() && self.addr_of(i) != old(self).addr_of(tp as int)
                    implies #[trigger] self.table_used(i) by {
                    let j = pre_remove_index(tc as int, old(self).n(), i);
                    assert(self.addr_of(i) == m_b.addr_of(j));
                    assert(j != tc as int);
                    if j == tp as int {
                        assert(self.addr_of(i) == old(self).addr_of(tp as int));
                        assert(false);
                    }
                    assert(j >= 1);
                    assert(m_b.addr_of(j) != m_b.addr_of(tc as int)) by {
                        if j < tc as int {
                            assert(m_b.addr_of(j) != m_b.addr_of(tc as int));
                        } else {
                            assert(m_b.addr_of(tc as int) != m_b.addr_of(j));
                        }
                    }
                    assert(old(self).table_used(j));
                    let k = choose|k: int|
                        0 <= k < TABLE_ENTRIES && (#[trigger] old(self).ent(j, k)) != 0;
                    assert(self.ent(i, k) == old(self).ent(j, k));
                }
            }
            true
        } else {
            proof {
                let w = choose|k: int|
                    0 <= k < self.tables@[tc as int].table.entries@.len()
                        && #[trigger] self.tables@[tc as int].table.entries@[k] != 0u64;
                assert(old(self).ent(tc as int, w) != 0u64);
            }
            false
        }
    }

    /// Removes the mapping for `v_addr`: the leaf entry is cleared, and
    /// every table of the walk that is left without a single used entry is
    /// handed back to the page-frame allocator, bottom up and zeroed —
    /// afterwards no table but the root is all-unused, so unmapping the
    /// last page a table served always returns its frame, observable as
    /// the frame-count delta.  Every other virtual address keeps the
    /// translation it had.  Returns how many table frames were reclaimed.
    /// The platform requires the TLB to be invalidated for the affected
    /// range before the cleared mapping is trusted; that step lives with
    /// the caller, outside this model.
    #[verifier::rlimit(100)]
    pub fn unmap_one(
        &mut self,
        pfa: &mut PageFrameAllocator,
        mem: &mut PhysicalMemory,
        v_addr: u64,
    ) -> (freed: usize)
        requires
            old(self).wf(),
            old(pfa).wf(),
            old(self).tables_live(old(pfa)),
            old(self).no_empty_tables(),
            old(mem).contains_range(old(pfa).start(), old(pfa).end()),
        ensures
            final(self).wf(),
            final(pfa).wf(),
            final(self).tables_live(final(pfa)),
            final(self).no_empty_tables(),
            final(pfa).start() == old(pfa).start(),
            final(pfa).end() == old(pfa).end(),
            final(pfa).watermark() == old(pfa).watermark(),
            final(self).translate(v_addr) is None,
            freed as int == old(self).n() - final(self).n(),
            freed <= 3,
            final(pfa).stack().len() == old(pfa).stack().len() + freed,
            final(mem).agrees_outside(old(mem), old(pfa).start(), old(pfa).end()),
            forall|w: u64|
                !same_walk(v_addr, w) ==> #[trigger] final(self).translate(w) == old(
                    self,
                ).translate(w),
    {
        let i3 = index_for(v_addr, 3);
        proof {
            assert(self.ents_len(0) == TABLE_ENTRIES);
        }
        let e3 = self.tables[0].table.entries[i3];
        if e3 == 0 {
            proof {
                assert(self.ent(0, vidx(v_addr, 3)) == 0);
            }
            return 0;
        }
        proof {
            assert(self.ent(0, vidx(v_addr, 3)) == e3);
            assert(exists|k: int| 0 <= k < TABLE_ENTRIES && #[trigger] self.ent(0, k) == e3);
        }
        let t2 = self.find_child(0, e3);
        proof {
            assert(self.ents_len(t2 as int) == TABLE_ENTRIES);
        }
        let i2 = index_for(v_addr, 2);
        let e2 = self.tables[t2].table.entries[i2];
        if e2 == 0 {
            proof {
                assert(self.child(0, vidx(v_addr, 3)) == t2 as int);
                assert(self.ent(t2 as int, vidx(v_addr, 2)) == 0);
            }
            return 0;
        }
        proof {
            assert(self.ent(t2 as int, vidx(v_addr, 2)) == e2);
            assert(exists|k: int|
                0 <= k < TABLE_ENTRIES && #[trigger] self.ent(t2 as int, k) == e2);
        }
        let t1 = self.find_child(t2, e2);
        proof {
            assert(self.ents_len(t1 as int) == TABLE_ENTRIES);
        }
        let i1 = index_for(v_addr, 1);
        let e1 = self.tables[t1].table.entries[i1];
        if e1 == 0 {
            proof {
                assert(self.child(0, vidx(v_addr, 3)) == t2 as int);
                assert(self.child(t2 as int, vidx(v_addr, 2)) == t1 as int);
                assert(self.ent(t1 as int, vidx(v_addr, 1)) == 0);
            }
            return 0;
        }
        proof {
            assert(self.ent(t1 as int, vidx(v_addr, 1)) == e1);
            assert(exists|k: int|
                0 <= k < TABLE_ENTRIES && #[trigger] self.ent(t1 as int, k) == e1);
        }
        let t0 = self.find_child(t1, e1);
        proof {
            assert(self.ents_len(t0 as int) == TABLE_ENTRIES);
        }
        let i0 = index_for(v_addr, 0);
        let ghost m_w = *self;
        self.set_entry(t0, i0, 0);
        proof {
            lemma_after_clear(m_w, *self, t0 as int, i0 as int);
            assert(m_w.level_of(t0 as int) == 0 && m_w.level_of(t1 as int) == 1 && m_w.level_of(
                t2 as int,
            ) == 2 && m_w.level_of(0) == 3);
            assert(self.ent(0, i3 as int) == e3);
            assert(self.ent(t2 as int, i2 as int) == e2);
            assert(self.ent(t1 as int, i1 as int) == e1);
            assert(self.child(0, i3 as int) == t2 as int);
            assert(self.child(t2 as int, i2 as int) == t1 as int);
            assert(self.child(t1 as int, i1 as int) == t0 as int);
            assert(self.ent(t0 as int, i0 as int) == 0);
            assert(self.addr_of(t0 as int) as u64 == e1 & ADDRESS_MASK);
            assert(self.addr_of(t1 as int) as u64 == e2 & ADDRESS_MASK);
            assert(self.addr_of(t2 as int) as u64 == e3 & ADDRESS_MASK);
            assert(m_w.ent(0, i3 as int) == e3 && m_w.child(0, i3 as int) == t2 as int);
            assert(m_w.ent(t2 as int, i2 as int) == e2 && m_w.child(t2 as int, i2 as int)
                == t1 as int);
            assert(m_w.ent(t1 as int, i1 as int) == e1 && m_w.child(t1 as int, i1 as int)
                == t0 as int);
            lemma_leaf_set_preserves(
                m_w,
                *self,
                i3 as int,
                i2 as int,
                i1 as int,
                i0 as int,
                t2 as int,
                t1 as int,
                t0 as int,
            );
            // Every table but the cleared leaf table keeps its witness.
            assert forall|i: int|
                1 <= i < self.n() && self.addr_of(i) != self.addr_of(t0 as int)
                implies #[trigger] self.table_used(i) by {
                if i == t0 as int {
                } else {
                    assert(m_w == *old(self));
                    assert(old(self).table_used(i));
                    assert(m_w.table_used(i));
                    let k = choose|k: int|
                        0 <= k < TABLE_ENTRIES && (#[trigger] m_w.ent(i, k)) != 0;
                    assert(self.ent(i, k) == m_w.ent(i, k));
                }
            }
        }
        let ghost s_a = *self;
        if !self.reclaim_if_empty(pfa, mem, t1, i1, t0) {
            proof {
                assert(self.translate_idx(i3 as int, i2 as int, i1 as int, i0 as int) is None);
                lemma_unmap_exit(m_w, s_a, *self, v_addr, i3 as int, i2 as int, i1 as int, i0 as int);
                assert(s_a.table_used(t0 as int));
                assert forall|i: int| 1 <= i < self.n() implies #[trigger] self.table_used(i) by {
                    if i == t0 as int {
                    } else {
                        assert(s_a.addr_of(i) != s_a.addr_of(t0 as int)) by {
                            if i < t0 as int {
                                assert(s_a.addr_of(i) != s_a.addr_of(t0 as int));
                            } else {
                                assert(s_a.addr_of(t0 as int) != s_a.addr_of(i));
                            }
                        }
                        assert(s_a.table_used(i));
                    }
                }
            }
            return 0;
        }
        let c1 = if t1 == self.tables.len() {
            t0
        } else {
            t1
        };
        let c2 = if t2 == self.tables.len() {
            t0
        } else {
            t2
        };
        proof {
            assert(t1 != t0 && t2 != t0 && t1 != t2);
            assert(pre_remove_index(t0 as int, s_a.n(), c1 as int) == t1 as int);
            assert(pre_remove_index(t0 as int, s_a.n(), c2 as int) == t2 as int);
            assert(0 <= c1 < self.n() && 0 <= c2 < self.n());
            assert(self.addr_of(c1 as int) == s_a.addr_of(t1 as int));
            assert(self.level_of(c1 as int) == 1);
            assert(self.ent(c1 as int, i1 as int) == 0);
            assert(self.addr_of(c2 as int) == s_a.addr_of(t2 as int));
            assert(self.level_of(c2 as int) == 2);
            assert(self.ent(c2 as int, i2 as int) == e2);
            assert(t1 != 0);
            assert(pre_remove_index(t0 as int, s_a.n(), 0) == 0);
            assert(self.addr_of(0) == s_a.addr_of(0));
            assert(self.ent(0, i3 as int) == e3);
            assert(e2 & ADDRESS_MASK == self.addr_of(c1 as int) as u64);
        }
        proof {
            // The first reclamation's guarantee carries over: every table
            // other than the one that just lost its pointer keeps a
            // witness.
            assert forall|i: int|
                1 <= i < self.n() && self.addr_of(i) != self.addr_of(c1 as int)
                implies #[trigger] self.table_used(i) by {
                assert(self.addr_of(i) != s_a.addr_of(t1 as int));
            }
        }
        let ghost s_b = *self;
        let ghost mem_b = *mem;
        if !self.reclaim_if_empty(pfa, mem, c2, i2, c1) {
            proof {
                lemma_index_is(*self, e3 & ADDRESS_MASK, c2 as int);
                assert(self.child(0, i3 as int) == c2 as int);
                lemma_index_is(*self, e2 & ADDRESS_MASK, c1 as int);
                assert(self.child(c2 as int, i2 as int) == c1 as int);
                assert(self.translate_idx(i3 as int, i2 as int, i1 as int, i0 as int) is None);
                lemma_unmap_exit(m_w, s_a, *self, v_addr, i3 as int, i2 as int, i1 as int, i0 as int);
                assert(s_b.table_used(c1 as int));
                assert forall|i: int| 1 <= i < self.n() implies #[trigger] self.table_used(i) by {
                    if i == c1 as int {
                    } else {
                        assert(s_b.addr_of(i) != s_b.addr_of(c1 as int)) by {
                            if i < c1 as int {
                                assert(s_b.addr_of(i) != s_b.addr_of(c1 as int));
                            } else {
                                assert(s_b.addr_of(c1 as int) != s_b.addr_of(i));
                            }
                        }
                    }
                }
            }
            return 1;
        }
        proof {
            assert forall|x: int|
                mem.base_addr() <= x < mem.end_addr() && !(old(pfa).start() <= x < old(
                    pfa,
                ).end()) implies mem.byte_at(x) == old(mem).byte_at(x) by {
                assert(mem.byte_at(x) == mem_b.byte_at(x));
            }
            assert(mem.agrees_outside(old(mem), old(pfa).start(), old(pfa).end()));
        }
        let d2 = if c2 == self.tables.len() {
            c1
        } else {
            c2
        };
        proof {
            assert(c1 != c2);
            assert(pre_remove_index(c1 as int, s_b.n(), d2 as int) == c2 as int);
            assert(0 <= d2 < self.n());
            assert(self.addr_of(d2 as int) == s_b.addr_of(c2 as int));
            assert(self.level_of(d2 as int) == 2);
            assert(self.ent(d2 as int, i2 as int) == 0);
            assert(c2 != 0);
            assert(pre_remove_index(c1 as int, s_b.n(), 0) == 0);
            assert(self.addr_of(0) == s_b.addr_of(0));
            assert(self.ent(0, i3 as int) == e3);
            assert(e3 & ADDRESS_MASK == self.addr_of(d2 as int) as u64);
        }
        proof {
            assert forall|i: int|
                1 <= i < self.n() && self.addr_of(i) != self.addr_of(d2 as int)
                implies #[trigger] self.table_used(i) by {
                assert(self.addr_of(i) != s_b.addr_of(c2 as int));
            }
        }
        let ghost s_c = *self;
        let ghost mem_c = *mem;
        if !self.reclaim_if_empty(pfa, mem, 0, i3, d2) {
            proof {
                lemma_index_is(*self, e3 & ADDRESS_MASK, d2 as int);
                assert(self.child(0, i3 as int) == d2 as int);
                assert(self.translate_idx(i3 as int, i2 as int, i1 as int, i0 as int) is None);
                lemma_same_translations_trans(s_a, s_b, s_c);
                assert(self.same_translations(&s_a)) by {
                    lemma_same_translations_trans(s_a, s_c, *self);
                }
                lemma_unmap_exit(m_w, s_a, *self, v_addr, i3 as int, i2 as int, i1 as int, i0 as int);
                assert(s_c.table_used(d2 as int));
                assert forall|i: int| 1 <= i < self.n() implies #[trigger] self.table_used(i) by {
                    if i == d2 as int {
                    } else {
                        assert(s_c.addr_of(i) != s_c.addr_of(d2 as int)) by {
                            if i < d2 as int {
                                assert(s_c.addr_of(i) != s_c.addr_of(d2 as int));
                            } else {
                                assert(s_c.addr_of(d2 as int) != s_c.addr_of(i));
                            }
                        }
                    }
                }
            }
            return 2;
        }
        proof {
            assert(pre_remove_index(d2 as int, s_c.n(), 0) == 0);
            assert(self.addr_of(0) == s_c.addr_of(0));
            assert(self.ent(0, i3 as int) == 0);
            assert(self.translate_idx(i3 as int, i2 as int, i1 as int, i0 as int) is None);
            assert forall|x: int|
                mem.base_addr() <= x < mem.end_addr() && !(old(pfa).start() <= x < old(
                    pfa,
                ).end()) implies mem.byte_at(x) == old(mem).byte_at(x) by {
                assert(mem.byte_at(x) == mem_c.byte_at(x));
                assert(mem_c.byte_at(x) == mem_b.byte_at(x));
            }
            assert(mem.agrees_outside(old(mem), old(pfa).start(), old(pfa).end()));
            lemma_same_translations_trans(s_a, s_b, s_c);
            assert(self.same_translations(&s_a)) by {
                lemma_same_translations_trans(s_a, s_c, *self);
            }
            lemma_unmap_exit(m_w, s_a, *self, v_addr, i3 as int, i2 as int, i1 as int, i0 as int);
            // The root's frame never moves; every surviving table differs
            // from it in address and so keeps its witness.
            assert forall|i: int| 1 <= i < self.n() implies #[trigger] self.table_used(i) by {
                assert(self.addr_of(i) != self.addr_of(0)) by {
                    assert(self.addr_of(0) != self.addr_of(i));
                }
                assert(self.addr_of(i) != s_c.addr_of(0));
            }
        }
        3
    }

    /// Maps `number_of_pages` consecutive pages, virtual and physical
    /// both advancing one frame per page.  On success every page of the
    /// range is mapped to its frame, and addresses outside the range keep
    /// the translations they had.  With three frames per page still
    /// available the whole range succeeds; exhaustion mid-range stops the
    /// walk as a fatal error, the pages mapped so far staying mapped.
    /// The platform requires the TLB to be invalidated for the range
    /// afterwards; that step lives with the caller, outside this model.
    #[verifier::rlimit(100)]
    pub fn map_pages(
        &mut self,
        pfa: &mut PageFrameAllocator,
        number_of_pages: usize,
        v_addr: u64,
        p_addr: u64,
    ) -> (r: Result<(), MapError>)
        requires
            old(self).wf(),
            old(pfa).wf(),
            old(self).tables_live(old(pfa)),
            old(self).no_empty_tables(),
            old(pfa).end() <= ADDRESS_MASK as int,
            p_addr & ADDRESS_MASK == p_addr,
            p_addr != 0,
            // The whole range lies below the 48-bit walk-indexed space.
            v_addr + number_of_pages * PAGE_SIZE <= 0x1_0000_0000_0000,
            p_addr + number_of_pages * PAGE_SIZE <= ADDRESS_MASK,
        ensures
            final(self).wf(),
            final(pfa).wf(),
            final(self).tables_live(final(pfa)),
            r is Ok ==> final(self).no_empty_tables(),
            final(pfa).start() == old(pfa).start(),
            final(pfa).end() == old(pfa).end(),
            old(pfa).available() >= 3 * number_of_pages ==> r is Ok,
            r is Ok ==> forall|k: int|
                0 <= k < number_of_pages ==> #[trigger] final(self).translate(
                    (v_addr + k * PAGE_SIZE) as u64,
                ) == Some((p_addr + k * PAGE_SIZE) as u64),
    {
        let mut i: usize = 0;
        while i < number_of_pages
            invariant
                i <= number_of_pages,
                self.wf(),
                pfa.wf(),
                self.tables_live(pfa),
                self.no_empty_tables(),
                pfa.start() == old(pfa).start(),
                pfa.end() == old(pfa).end(),
                pfa.end() <= ADDRESS_MASK as int,
                p_addr & ADDRESS_MASK == p_addr,
                p_addr != 0,
                v_addr + number_of_pages * PAGE_SIZE <= 0x1_0000_0000_0000,
                p_addr + number_of_pages * PAGE_SIZE <= ADDRESS_MASK,
                pfa.available() >= old(pfa).available() - 3 * i,
                forall|k: int|
                    0 <= k < i ==> #[trigger] self.translate((v_addr + k * PAGE_SIZE) as u64)
                        == Some((p_addr + k * PAGE_SIZE) as u64),
            decreases number_of_pages - i,
        {
            proof {
                assert((i as u64) * (PAGE_SIZE as u64) <= number_of_pages * PAGE_SIZE)
                    by (nonlinear_arith)
                    requires
                        0 <= i <= number_of_pages,
                ;
            }
            let v = v_addr + (i as u64) * (PAGE_SIZE as u64);
            let p = p_addr + (i as u64) * (PAGE_SIZE as u64);
            proof {
                lemma_stride_masked(p_addr, i as u64, number_of_pages as u64, p);
            }
            let ghost pre = *self;
            let ghost avail0 = pfa.available();
            match self.map_one(pfa, v, p) {
                Ok(()) => {
                    proof {
                        assert(pfa.available() >= avail0 - 3);
                        assert forall|k: int| 0 <= k < i + 1 implies #[trigger] self.translate(
                            (v_addr + k * PAGE_SIZE) as u64,
                        ) == Some((p_addr + k * PAGE_SIZE) as u64) by {
                            if k < i {
                                let wk = (v_addr + k * PAGE_SIZE) as u64;
                                lemma_stride_distinct(
                                    v_addr,
                                    k as u64,
                                    i as u64,
                                    number_of_pages as u64,
                                );
                                assert(!same_walk(v, wk));
                                assert(self.translate(wk) == pre.translate(wk));
                            } else {
                                assert((v_addr + k * PAGE_SIZE) as u64 == v);
                                assert((p_addr + k * PAGE_SIZE) as u64 == p);
                            }
                        }
                    }
                }
                Err(e) => {
                    proof {
                        if old(pfa).available() >= 3 * number_of_pages {
                            assert(avail0 >= old(pfa).available() - 3 * i);
                            assert(avail0 >= 3) by (nonlinear_arith)
                                requires
                                    avail0 >= 3 * number_of_pages - 3 * i,
                                    i < number_of_pages,
                            ;
                            assert(false);
                        }
                    }
                    return Err(e);
                }
            }
            i = i + 1;
        }
        Ok(())
    }

    /// Maps a single page; the user-accessible bit is always set, so the
    /// `is_user` argument only documents the caller's intent.
    pub fn map_page(
        &mut self,
        pfa: &mut PageFrameAllocator,
        v_addr: u64,
        p_addr: u64,
        is_user: bool,
    ) -> (r: Result<(), MapError>)
        requires
            old(self).wf(),
            old(pfa).wf(),
            old(self).tables_live(old(pfa)),
            old(self).no_empty_tables(),
            old(pfa).end() <= ADDRESS_MASK as int,
            p_addr & ADDRESS_MASK == p_addr,
            p_addr != 0,
        ensures
            final(self).wf(),
            final(pfa).wf(),
            final(self).tables_live(final(pfa)),
            final(pfa).start() == old(pfa).start(),
            final(pfa).end() == old(pfa).end(),
            old(pfa).available() >= 3 ==> r is Ok,
            r is Ok ==> final(self).translate(v_addr) == Some(p_addr),
            r is Ok ==> final(self).no_empty_tables(),
            forall|w: u64|
                !same_walk(v_addr, w) ==> #[trigger] final(self).translate(w) == old(
                    self,
                ).translate(w),
    {
        self.map_one(pfa, v_addr, p_addr)
    }

    /// Writes one byte through a mapped virtual address: the write lands
    /// in the mapped physical frame at the address's page offset.
    /// Returns `false`, changing nothing, when `v_addr` is unmapped or the
    /// target lies outside the modelled memory.
    pub fn vm_write_byte(&self, mem: &mut PhysicalMemory, v_addr: u64, value: u8) -> (r: bool)
        requires
            self.wf(),
            old(mem).wf(),
        ensures
            final(mem).wf(),
            r <==> (self.translate(v_addr) matches Some(p) && p + (v_addr & 0xfff)
                <= usize::MAX && old(mem).contains((p + (v_addr & 0xfff)) as int)),
            r ==> (self.translate(v_addr) matches Some(p) && final(mem).byte_at(
                (p + (v_addr & 0xfff)) as int,
            ) == value && final(mem).agrees_outside(
                old(mem),
                (p + (v_addr & 0xfff)) as int,
                (p + (v_addr & 0xfff)) as int + 1,
            )),
            !r ==> *final(mem) == *old(mem),
    {
        match self.translate_addr(v_addr) {
            Some(p) => {
                proof {
                    lemma_page_offset(p, v_addr);
                    let tt2 = self.child(0, vidx(v_addr, 3));
                    let tt1 = self.child(tt2, vidx(v_addr, 2));
                    let tt0 = self.child(tt1, vidx(v_addr, 1));
                    assert(p == self.ent(tt0, vidx(v_addr, 0)) & ADDRESS_MASK);
                    lemma_masked_le(self.ent(tt0, vidx(v_addr, 0)));
                }
                let pa = p + (v_addr & 0xfff);
                if pa <= usize::MAX as u64 && mem.contains_addr(pa as usize) {
                    mem.write_byte(pa as usize, value);
                    true
                } else {
                    false
                }
            }
            None => false,
        }
    }

    /// Reads one byte through a mapped virtual address, from the mapped
    /// physical frame at the address's page offset.
    pub fn vm_read_byte(&self, mem: &PhysicalMemory, v_addr: u64) -> (r: Option<u8>)
        requires
            self.wf(),
            mem.wf(),
        ensures
            r is Some <==> (self.translate(v_addr) matches Some(p) && p + (v_addr & 0xfff)
                <= usize::MAX && mem.contains((p + (v_addr & 0xfff)) as int)),
            r matches Some(b) ==> (self.translate(v_addr) matches Some(p) && b == mem.byte_at(
                (p + (v_addr & 0xfff)) as int,
            )),
    {
        match self.translate_addr(v_addr) {
            Some(p) => {
                proof {
                    lemma_page_offset(p, v_addr);
                    let tt2 = self.child(0, vidx(v_addr, 3));
                    let tt1 = self.child(tt2, vidx(v_addr, 2));
                    let tt0 = self.child(tt1, vidx(v_addr, 1));
                    assert(p == self.ent(tt0, vidx(v_addr, 0)) & ADDRESS_MASK);
                    lemma_masked_le(self.ent(tt0, vidx(v_addr, 0)));
                }
                let pa = p + (v_addr & 0xfff);
                if pa <= usize::MAX as u64 && mem.contains_addr(pa as usize) {
                    Some(mem.read_byte(pa as usize))
                } else {
                    None
                }
            }
            None => None,
        }
    }

    /// The frame `v` is mapped to, by an executable walk of the tables.
    pub fn translate_addr(&self, v: u64) -> (r: Option<u64>)
        requires
            self.wf(),
        ensures
            r == self.translate(v),
    {
        let i3 = index_for(v, 3);
        proof {
            assert(self.ents_len(0) == TABLE_ENTRIES);
        }
        let e3 = self.tables[0].table.entries[i3];
        if e3 == 0 {
            return None;
        }
        proof {
            assert(self.ent(0, vidx(v, 3)) == e3);
            assert(exists|k: int| 0 <= k < TABLE_ENTRIES && #[trigger] self.ent(0, k) == e3);
        }
        let t2 = self.find_child(0, e3);
        proof {
            assert(self.ents_len(t2 as int) == TABLE_ENTRIES);
        }
        let e2 = self.tables[t2].table.entries[index_for(v, 2)];
        if e2 == 0 {
            return None;
        }
        proof {
            assert(self.ent(t2 as int, vidx(v, 2)) == e2);
            assert(exists|k: int|
                0 <= k < TABLE_ENTRIES && #[trigger] self.ent(t2 as int, k) == e2);
        }
        let t1 = self.find_child(t2, e2);
        proof {
            assert(self.ents_len(t1 as int) == TABLE_ENTRIES);
        }
        let e1 = self.tables[t1].table.entries[index_for(v, 1)];
        if e1 == 0 {
            return None;
        }
        proof {
            assert(self.ent(t1 as int, vidx(v, 1)) == e1);
            assert(exists|k: int|
                0 <= k < TABLE_ENTRIES && #[trigger] self.ent(t1 as int, k) == e1);
        }
        let t0 = self.find_child(t1, e1);
        proof {
            assert(self.ents_len(t0 as int) == TABLE_ENTRIES);
        }
        let e0 = self.tables[t0].table.entries[index_for(v, 0)];
        if e0 == 0 {
            return None;
        }
        Some(e0 & ADDRESS_MASK)
    }
}

/// The 9-bit index `v` selects at level `l`, executable form.
fn index_for(v: u64, l: u64) -> (i: usize)
    requires
        l <= 3,
    ensures
        i as int == vidx(v, l as int),
        i < TABLE_ENTRIES,
{
    proof {
        let sh: u64 = (l * 9 + 12) as u64;
        assert((v >> sh) & 0x1ff < 512u64) by (bit_vector);
    }
    ((v >> (l * 9 + 12)) & 0x1ff) as usize
}


/// One frame left the allocator: availability sinks by exactly one.
proof fn lemma_available_step_paging(
    pfa0: &PageFrameAllocator,
    pfa1: &PageFrameAllocator,
    addr: usize,
)
    requires
        pfa0.wf(),
        pfa1.wf(),
        pfa1.end() == pfa0.end(),
        (pfa1.stack().len() == pfa0.stack().len() - 1 && pfa1.watermark() == pfa0.watermark()) || (
        pfa1.stack() == pfa0.stack() && pfa1.watermark() == pfa0.watermark() + PAGE_SIZE),
    ensures
        pfa1.available() == pfa0.available() - 1,
        pfa0.available() >= 1,
{
    if pfa1.watermark() == pfa0.watermark() + PAGE_SIZE {
        lemma_available_step(pfa0.watermark(), pfa0.end());
    } else {
        lemma_available_empty(pfa0.watermark(), pfa0.end());
    }
}

/// Packing an aligned arena address keeps it recoverable by the mask, and
/// the packed entry is present.
proof fn lemma_entry_mask(addr: u64)
    requires
        addr & ADDRESS_MASK == addr,
    ensures
        ((addr & ADDRESS_MASK) | DEFAULT_FLAGS) & ADDRESS_MASK == addr,
        ((addr & ADDRESS_MASK) | DEFAULT_FLAGS) != 0,
{
    assert(((addr & 0x000f_ffff_ffff_f000u64) | 0b111u64) & 0x000f_ffff_ffff_f000u64 == addr
        & 0x000f_ffff_ffff_f000u64) by (bit_vector);
    assert(((addr & 0x000f_ffff_ffff_f000u64) | 0b111u64) != 0u64) by (bit_vector);
}

/// Installing a fresh empty table behind a previously unused entry keeps
/// the mapper invariant, and the new entry's child is the new table.
proof fn lemma_after_install(m0: Mapper, m1: Mapper, ti: int, k: int, t: int, addr: usize)
    requires
        m0.wf(),
        0 <= ti < m0.n(),
        m0.level_of(ti) >= 1,
        0 <= k < TABLE_ENTRIES,
        m0.ent(ti, k) == 0,
        t == m0.n(),
        m1.n() == m0.n() + 1,
        m1.level_of(t) == m0.level_of(ti) - 1,
        m1.addr_of(t) == addr,
        addr as u64 & ADDRESS_MASK == addr as u64,
        addr != 0,
        forall|i: int| 0 <= i < m0.n() ==> #[trigger] m1.addr_of(i) == m0.addr_of(i),
        forall|i: int| 0 <= i < m0.n() ==> #[trigger] m1.level_of(i) == m0.level_of(i),
        forall|i: int| 0 <= i < m1.n() ==> #[trigger] m1.ents_len(i) == TABLE_ENTRIES,
        forall|i: int| 0 <= i < m0.n() ==> m1.addr_of(i) != addr,
        forall|i: int, k2: int|
            0 <= i < m0.n() && 0 <= k2 < TABLE_ENTRIES && !(i == ti && k2 == k)
                ==> #[trigger] m1.ent(i, k2) == m0.ent(i, k2),
        forall|k2: int| 0 <= k2 < TABLE_ENTRIES ==> #[trigger] m1.ent(t, k2) == 0u64,
        m1.ent(ti, k) == ((addr as u64 & ADDRESS_MASK) | DEFAULT_FLAGS),
        m1.ent(ti, k) & ADDRESS_MASK == addr as u64,
        m1.ent(ti, k) != 0,
    ensures
        m1.wf(),
        m1.child(ti, k) == t,
        forall|i: int, k2: int|
            0 <= i < m0.n() && 0 <= k2 < TABLE_ENTRIES && m0.level_of(i) >= 1 && m0.ent(i, k2) != 0
                && !(i == ti && k2 == k) ==> #[trigger] m1.child(i, k2) == m0.child(i, k2),
{
    // Addresses stay distinct: the fresh frame differs from every old one.
    assert forall|i: int, j: int| 0 <= i < j < m1.n() implies m1.addr_of(i) != m1.addr_of(j) by {
        if j < m0.n() {
            assert(m0.addr_of(i) != m0.addr_of(j));
        }
    }
    // The new entry points to the new table.
    assert(m1.has_addr(m1.ent(ti, k) & ADDRESS_MASK));
    let w = m1.index_of(m1.ent(ti, k) & ADDRESS_MASK);
    assert(0 <= w < m1.n() && m1.addr_of(w) as u64 == addr as u64);
    if w != t {
        if w < m0.n() {
            assert(m1.addr_of(w) != addr);
            assert(m1.addr_of(w) as u64 != addr as u64);
        }
        assert(false);
    }
    assert(m1.child(ti, k) == t);
    // Every other present entry keeps its target.
    assert forall|i: int, k2: int|
        0 <= i < m1.n() && 0 <= k2 < TABLE_ENTRIES && m1.level_of(i) >= 1 && #[trigger] m1.ent(
            i,
            k2,
        ) != 0 implies {
        &&& m1.has_addr(m1.ent(i, k2) & ADDRESS_MASK)
        &&& m1.level_of(m1.child(i, k2)) == m1.level_of(i) - 1
    } by {
        if i == ti && k2 == k {
        } else if i < m0.n() {
            assert(m1.ent(i, k2) == m0.ent(i, k2));
            assert(m0.has_addr(m0.ent(i, k2) & ADDRESS_MASK));
            let w0 = m0.index_of(m0.ent(i, k2) & ADDRESS_MASK);
            assert(0 <= w0 < m0.n() && m0.addr_of(w0) as u64 == m0.ent(i, k2) & ADDRESS_MASK);
            assert(m1.addr_of(w0) as u64 == m1.ent(i, k2) & ADDRESS_MASK);
            assert(m1.has_addr(m1.ent(i, k2) & ADDRESS_MASK));
            let w1 = m1.index_of(m1.ent(i, k2) & ADDRESS_MASK);
            if w1 != w0 {
                if w1 == t {
                    assert(m1.addr_of(w0) != addr);
                    assert(false);
                } else {
                    let a = if w0 < w1 { w0 } else { w1 };
                    let b = if w0 < w1 { w1 } else { w0 };
                    assert(m1.addr_of(a) != m1.addr_of(b));
                    assert(false);
                }
            }
            assert(m1.child(i, k2) == w0 && w0 == m0.child(i, k2));
            assert(m1.level_of(m0.child(i, k2)) == m0.level_of(m0.child(i, k2)));
        } else {
            assert(m1.ent(i, k2) == 0u64);
            assert(false);
        }
    }
    // Entry targets stay pairwise distinct.
    assert forall|i: int, k2: int, j: int, m: int|
        0 <= i < m1.n() && 0 <= k2 < TABLE_ENTRIES && m1.level_of(i) >= 1 && #[trigger] m1.ent(
            i,
            k2,
        ) != 0 && 0 <= j < m1.n() && 0 <= m < TABLE_ENTRIES && m1.level_of(j) >= 1
        && #[trigger] m1.ent(j, m) != 0 && (i != j || k2 != m) implies m1.ent(i, k2) & ADDRESS_MASK
        != m1.ent(j, m) & ADDRESS_MASK by {
        if i == ti && k2 == k {
            // the new entry targets the fresh address, no old entry does
            if j < m0.n() {
                assert(m1.ent(j, m) == m0.ent(j, m));
                assert(m0.has_addr(m0.ent(j, m) & ADDRESS_MASK));
                let wj = m0.index_of(m0.ent(j, m) & ADDRESS_MASK);
                assert(m0.addr_of(wj) as u64 == m0.ent(j, m) & ADDRESS_MASK);
                assert(m1.addr_of(wj) != addr);
            } else {
                assert(m1.ent(j, m) == 0u64);
            }
        } else if j == ti && m == k {
            if i < m0.n() {
                assert(m1.ent(i, k2) == m0.ent(i, k2));
                assert(m0.has_addr(m0.ent(i, k2) & ADDRESS_MASK));
                let wi = m0.index_of(m0.ent(i, k2) & ADDRESS_MASK);
                assert(m0.addr_of(wi) as u64 == m0.ent(i, k2) & ADDRESS_MASK);
                assert(m1.addr_of(wi) != addr);
            } else {
                assert(m1.ent(i, k2) == 0u64);
            }
        } else {
            if i < m0.n() && j < m0.n() {
                assert(m1.ent(i, k2) == m0.ent(i, k2));
                assert(m1.ent(j, m) == m0.ent(j, m));
                assert(m0.ent(i, k2) & ADDRESS_MASK != m0.ent(j, m) & ADDRESS_MASK);
            } else {
                if i >= m0.n() && i != t {
                    assert(false);
                }
                if i == t {
                    assert(m1.ent(i, k2) == 0u64);
                    assert(false);
                }
                if j == t {
                    assert(m1.ent(j, m) == 0u64);
                    assert(false);
                }
            }
        }
    }
}



/// Installing a fresh all-unused table behind a previously unused entry
/// changes no translation: every path that reaches the new entry was dead
/// before and now dies one level further down, in the empty table.
#[verifier::rlimit(100)]
#[verifier::spinoff_prover]
proof fn lemma_install_preserves(m0: Mapper, m1: Mapper, ti: int, k: int, t: int)
    requires
        m0.wf(),
        m1.wf(),
        0 <= ti < m0.n(),
        0 <= k < TABLE_ENTRIES,
        m0.level_of(ti) >= 1,
        m0.ent(ti, k) == 0,
        t == m0.n(),
        m1.n() == m0.n() + 1,
        forall|i: int| 0 <= i < m0.n() ==> (#[trigger] m1.addr_of(i)) == m0.addr_of(i),
        forall|i: int| 0 <= i < m0.n() ==> (#[trigger] m1.level_of(i)) == m0.level_of(i),
        forall|i: int, k2: int|
            0 <= i < m0.n() && 0 <= k2 < TABLE_ENTRIES && !(i == ti && k2 == k) ==> (
            #[trigger] m1.ent(i, k2)) == m0.ent(i, k2),
        forall|k2: int| 0 <= k2 < TABLE_ENTRIES ==> (#[trigger] m1.ent(t, k2)) == 0u64,
        m1.ent(ti, k) != 0,
        m1.child(ti, k) == t,
    ensures
        m1.same_translations(&m0),
{
    assert forall|i3: int, i2: int, i1: int, i0: int|
        0 <= i3 < TABLE_ENTRIES && 0 <= i2 < TABLE_ENTRIES && 0 <= i1 < TABLE_ENTRIES && 0 <= i0
            < TABLE_ENTRIES implies #[trigger] m1.translate_idx(i3, i2, i1, i0)
        == m0.translate_idx(i3, i2, i1, i0) by {
        lemma_install_walk(m0, m1, ti, k, t, i3, i2, i1, i0);
    }
}

/// One path of [`lemma_install_preserves`], walked level by level.
#[verifier::rlimit(100)]
#[verifier::spinoff_prover]
proof fn lemma_install_walk(
    m0: Mapper,
    m1: Mapper,
    ti: int,
    k: int,
    t: int,
    i3: int,
    i2: int,
    i1: int,
    i0: int,
)
    requires
        m0.wf(),
        m1.wf(),
        0 <= ti < m0.n(),
        0 <= k < TABLE_ENTRIES,
        m0.level_of(ti) >= 1,
        m0.ent(ti, k) == 0,
        t == m0.n(),
        m1.n() == m0.n() + 1,
        forall|i: int| 0 <= i < m0.n() ==> (#[trigger] m1.addr_of(i)) == m0.addr_of(i),
        forall|i: int| 0 <= i < m0.n() ==> (#[trigger] m1.level_of(i)) == m0.level_of(i),
        forall|i: int, k2: int|
            0 <= i < m0.n() && 0 <= k2 < TABLE_ENTRIES && !(i == ti && k2 == k) ==> (
            #[trigger] m1.ent(i, k2)) == m0.ent(i, k2),
        forall|k2: int| 0 <= k2 < TABLE_ENTRIES ==> (#[trigger] m1.ent(t, k2)) == 0u64,
        m1.ent(ti, k) != 0,
        m1.child(ti, k) == t,
        0 <= i3 < TABLE_ENTRIES,
        0 <= i2 < TABLE_ENTRIES,
        0 <= i1 < TABLE_ENTRIES,
        0 <= i0 < TABLE_ENTRIES,
    ensures
        m1.translate_idx(i3, i2, i1, i0) == m0.translate_idx(i3, i2, i1, i0),
{
    if ti == 0 && i3 == k {
        // The installed entry: the old walk died at the root, the new one
        // dies in the empty table below it.
        assert(m0.translate_idx(i3, i2, i1, i0) is None);
        assert(m1.ent(t, i2) == 0);
        assert(m1.translate_idx(i3, i2, i1, i0) is None);
    } else {
        assert(m1.ent(0, i3) == m0.ent(0, i3));
        if m0.ent(0, i3) == 0 {
        } else {
            let u2 = lemma_same_child(m0, m1, t, 0, i3);
            if ti == u2 && i2 == k {
                assert(m0.translate_idx(i3, i2, i1, i0) is None);
                assert(m1.ent(t, i1) == 0);
                assert(m1.translate_idx(i3, i2, i1, i0) is None);
            } else {
                assert(m1.ent(u2, i2) == m0.ent(u2, i2));
                if m0.ent(u2, i2) == 0 {
                } else {
                    let u1 = lemma_same_child(m0, m1, t, u2, i2);
                    if ti == u1 && i1 == k {
                        assert(m0.translate_idx(i3, i2, i1, i0) is None);
                        assert(m1.ent(t, i0) == 0);
                        assert(m1.translate_idx(i3, i2, i1, i0) is None);
                    } else {
                        assert(m1.ent(u1, i1) == m0.ent(u1, i1));
                        if m0.ent(u1, i1) == 0 {
                        } else {
                            let u0 = lemma_same_child(m0, m1, t, u1, i1);
                            assert(m0.level_of(u0) == 0 && m0.level_of(ti) >= 1);
                            assert(u0 != ti);
                            assert(m1.ent(u0, i0) == m0.ent(u0, i0));
                        }
                    }
                }
            }
        }
    }
}

/// A present entry of a pre-existing table points at the same
/// pre-existing child table before and after the arena grew by one.
proof fn lemma_same_child(m0: Mapper, m1: Mapper, t: int, i: int, k: int) -> (u: int)
    requires
        m0.wf(),
        m1.wf(),
        t == m0.n(),
        m1.n() == m0.n() + 1,
        forall|x: int| 0 <= x < m0.n() ==> (#[trigger] m1.addr_of(x)) == m0.addr_of(x),
        forall|x: int| 0 <= x < m0.n() ==> (#[trigger] m1.level_of(x)) == m0.level_of(x),
        0 <= i < m0.n(),
        0 <= k < TABLE_ENTRIES,
        m0.level_of(i) >= 1,
        m0.ent(i, k) != 0,
        m1.ent(i, k) == m0.ent(i, k),
    ensures
        u == m0.child(i, k),
        u == m1.child(i, k),
        0 <= u < m0.n(),
        m0.level_of(u) == m0.level_of(i) - 1,
        m1.level_of(u) == m0.level_of(u),
{
    assert(m0.has_addr(m0.ent(i, k) & ADDRESS_MASK));
    let u = m0.child(i, k);
    assert(0 <= u < m0.n() && m0.addr_of(u) as u64 == m0.ent(i, k) & ADDRESS_MASK);
    assert(m1.addr_of(u) as u64 == m1.ent(i, k) & ADDRESS_MASK);
    assert(m1.has_addr(m1.ent(i, k) & ADDRESS_MASK));
    let w = m1.index_of(m1.ent(i, k) & ADDRESS_MASK);
    assert(0 <= w < m1.n() && m1.addr_of(w) as u64 == m1.ent(i, k) & ADDRESS_MASK);
    if w != u {
        let x = if w < u {
            w
        } else {
            u
        };
        let y = if w < u {
            u
        } else {
            w
        };
        assert(m1.addr_of(x) != m1.addr_of(y));
        assert(false);
    }
    u
}


/// Writing one leaf entry changes at most the one translation whose walk
/// ends in that entry: parent uniqueness pins the four indices reaching a
/// given leaf slot.
#[verifier::rlimit(100)]
#[verifier::spinoff_prover]
proof fn lemma_leaf_set_preserves(
    m0: Mapper,
    m1: Mapper,
    p3: int,
    p2: int,
    p1: int,
    p0: int,
    c2: int,
    c1: int,
    c0: int,
)
    requires
        m0.wf(),
        m1.wf(),
        m1.n() == m0.n(),
        forall|i: int| 0 <= i < m0.n() ==> (#[trigger] m1.addr_of(i)) == m0.addr_of(i),
        forall|i: int| 0 <= i < m0.n() ==> (#[trigger] m1.level_of(i)) == m0.level_of(i),
        forall|i: int, k2: int|
            0 <= i < m0.n() && 0 <= k2 < TABLE_ENTRIES && !(i == c0 && k2 == p0) ==> (
            #[trigger] m1.ent(i, k2)) == m0.ent(i, k2),
        0 <= p3 < TABLE_ENTRIES,
        0 <= p2 < TABLE_ENTRIES,
        0 <= p1 < TABLE_ENTRIES,
        0 <= p0 < TABLE_ENTRIES,
        m0.ent(0, p3) != 0,
        m0.child(0, p3) == c2,
        0 <= c2 < m0.n(),
        m0.ent(c2, p2) != 0,
        m0.child(c2, p2) == c1,
        0 <= c1 < m0.n(),
        m0.ent(c1, p1) != 0,
        m0.child(c1, p1) == c0,
        0 <= c0 < m0.n(),
    ensures
        forall|i3: int, i2: int, i1: int, i0: int|
            0 <= i3 < TABLE_ENTRIES && 0 <= i2 < TABLE_ENTRIES && 0 <= i1 < TABLE_ENTRIES && 0
                <= i0 < TABLE_ENTRIES && !(i3 == p3 && i2 == p2 && i1 == p1 && i0 == p0)
                ==> #[trigger] m1.translate_idx(i3, i2, i1, i0) == m0.translate_idx(
                i3,
                i2,
                i1,
                i0,
            ),
{
    assert(m0.level_of(c2) == 2 && m0.level_of(c1) == 1 && m0.level_of(c0) == 0);
    assert(m0.addr_of(c2) as u64 == m0.ent(0, p3) & ADDRESS_MASK) by {
        assert(m0.has_addr(m0.ent(0, p3) & ADDRESS_MASK));
    }
    assert(m0.addr_of(c1) as u64 == m0.ent(c2, p2) & ADDRESS_MASK) by {
        assert(m0.has_addr(m0.ent(c2, p2) & ADDRESS_MASK));
    }
    assert(m0.addr_of(c0) as u64 == m0.ent(c1, p1) & ADDRESS_MASK) by {
        assert(m0.has_addr(m0.ent(c1, p1) & ADDRESS_MASK));
    }
    assert forall|i3: int, i2: int, i1: int, i0: int|
        0 <= i3 < TABLE_ENTRIES && 0 <= i2 < TABLE_ENTRIES && 0 <= i1 < TABLE_ENTRIES && 0 <= i0
            < TABLE_ENTRIES && !(i3 == p3 && i2 == p2 && i1 == p1 && i0 == p0)
        implies #[trigger] m1.translate_idx(i3, i2, i1, i0) == m0.translate_idx(
        i3,
        i2,
        i1,
        i0,
    ) by {
        assert(m1.ent(0, i3) == m0.ent(0, i3)) by {
            assert(m0.level_of(0) == 3);
        }
        if m0.ent(0, i3) != 0 {
            let u2 = lemma_stable_child(m0, m1, 0, i3);
            assert(m1.ent(u2, i2) == m0.ent(u2, i2)) by {
                assert(m0.level_of(u2) == 2);
            }
            if m0.ent(u2, i2) != 0 {
                let u1 = lemma_stable_child(m0, m1, u2, i2);
                assert(m1.ent(u1, i1) == m0.ent(u1, i1)) by {
                    assert(m0.level_of(u1) == 1);
                }
                if m0.ent(u1, i1) != 0 {
                    let u0 = lemma_stable_child(m0, m1, u1, i1);
                    if u0 == c0 && i0 == p0 {
                        // The walk would end in the changed slot; parent
                        // uniqueness forces the whole path to be the
                        // changed one, which the hypothesis excludes.
                        assert(m0.addr_of(u0) as u64 == m0.ent(u1, i1) & ADDRESS_MASK) by {
                            assert(m0.has_addr(m0.ent(u1, i1) & ADDRESS_MASK));
                        }
                        assert(m0.ent(u1, i1) & ADDRESS_MASK == m0.ent(c1, p1) & ADDRESS_MASK);
                        assert(u1 == c1 && i1 == p1);
                        assert(m0.addr_of(u1) as u64 == m0.ent(u2, i2) & ADDRESS_MASK) by {
                            assert(m0.has_addr(m0.ent(u2, i2) & ADDRESS_MASK));
                        }
                        assert(m0.ent(u2, i2) & ADDRESS_MASK == m0.ent(c2, p2) & ADDRESS_MASK);
                        assert(u2 == c2 && i2 == p2);
                        assert(m0.addr_of(u2) as u64 == m0.ent(0, i3) & ADDRESS_MASK) by {
                            assert(m0.has_addr(m0.ent(0, i3) & ADDRESS_MASK));
                        }
                        assert(m0.ent(0, i3) & ADDRESS_MASK == m0.ent(0, p3) & ADDRESS_MASK);
                        assert(i3 == p3);
                        assert(false);
                    } else {
                        assert(m1.ent(u0, i0) == m0.ent(u0, i0));
                    }
                }
            }
        }
    }
}

/// With unchanged addresses and an unchanged entry, a present entry keeps
/// its child index.
proof fn lemma_stable_child(m0: Mapper, m1: Mapper, i: int, k: int) -> (u: int)
    requires
        m0.wf(),
        m1.wf(),
        m1.n() == m0.n(),
        forall|x: int| 0 <= x < m0.n() ==> (#[trigger] m1.addr_of(x)) == m0.addr_of(x),
        forall|x: int| 0 <= x < m0.n() ==> (#[trigger] m1.level_of(x)) == m0.level_of(x),
        0 <= i < m0.n(),
        0 <= k < TABLE_ENTRIES,
        m0.level_of(i) >= 1,
        m0.ent(i, k) != 0,
        m1.ent(i, k) == m0.ent(i, k),
    ensures
        u == m0.child(i, k),
        u == m1.child(i, k),
        0 <= u < m0.n(),
        m0.level_of(u) == m0.level_of(i) - 1,
        m1.level_of(u) == m0.level_of(u),
        m0.addr_of(u) as u64 == m0.ent(i, k) & ADDRESS_MASK,
{
    assert(m0.has_addr(m0.ent(i, k) & ADDRESS_MASK));
    let u = m0.child(i, k);
    assert(0 <= u < m0.n() && m0.addr_of(u) as u64 == m0.ent(i, k) & ADDRESS_MASK);
    assert(m1.addr_of(u) as u64 == m1.ent(i, k) & ADDRESS_MASK);
    assert(m1.has_addr(m1.ent(i, k) & ADDRESS_MASK));
    let w = m1.index_of(m1.ent(i, k) & ADDRESS_MASK);
    assert(0 <= w < m1.n() && m1.addr_of(w) as u64 == m1.ent(i, k) & ADDRESS_MASK);
    if w != u {
        let x = if w < u {
            w
        } else {
            u
        };
        let y = if w < u {
            u
        } else {
            w
        };
        assert(m1.addr_of(x) != m1.addr_of(y));
        assert(false);
    }
    u
}


/// Translation agreement is transitive.
proof fn lemma_same_translations_trans(a: Mapper, b: Mapper, c: Mapper)
    requires
        b.same_translations(&a),
        c.same_translations(&b),
    ensures
        c.same_translations(&a),
{
    assert forall|i3: int, i2: int, i1: int, i0: int|
        0 <= i3 < TABLE_ENTRIES && 0 <= i2 < TABLE_ENTRIES && 0 <= i1 < TABLE_ENTRIES && 0 <= i0
            < TABLE_ENTRIES implies #[trigger] c.translate_idx(i3, i2, i1, i0) == a.translate_idx(
        i3,
        i2,
        i1,
        i0,
    ) by {
        assert(c.translate_idx(i3, i2, i1, i0) == b.translate_idx(i3, i2, i1, i0));
        assert(b.translate_idx(i3, i2, i1, i0) == a.translate_idx(i3, i2, i1, i0));
    }
}

/// Index-level translation agreement carries to every virtual address.
proof fn lemma_preservation_to_translate(a: Mapper, c: Mapper, v: u64)
    requires
        c.same_translations(&a),
    ensures
        forall|w: u64| #[trigger] c.translate(w) == a.translate(w),
{
    assert forall|w: u64| #[trigger] c.translate(w) == a.translate(w) by {
        lemma_vidx_range(w, 3);
        lemma_vidx_range(w, 2);
        lemma_vidx_range(w, 1);
        lemma_vidx_range(w, 0);
        assert(c.translate_idx(vidx(w, 3), vidx(w, 2), vidx(w, 1), vidx(w, 0)) == a.translate_idx(
            vidx(w, 3),
            vidx(w, 2),
            vidx(w, 1),
            vidx(w, 0),
        ));
    }
}

/// A table with a used entry keeps one when no used entry is zeroed.
proof fn lemma_used_carries(a: Mapper, b: Mapper)
    requires
        b.n() >= a.n(),
        forall|i: int, k: int|
            0 <= i < a.n() && 0 <= k < TABLE_ENTRIES && (#[trigger] a.ent(i, k)) != 0 ==> b.ent(
                i,
                k,
            ) != 0,
    ensures
        forall|i: int| 0 <= i < a.n() && a.table_used(i) ==> #[trigger] b.table_used(i),
{
    assert forall|i: int| 0 <= i < a.n() && a.table_used(i) implies #[trigger] b.table_used(i) by {
        let k = choose|k: int| 0 <= k < TABLE_ENTRIES && (#[trigger] a.ent(i, k)) != 0;
        assert(b.ent(i, k) != 0);
    }
}

/// With the same table addresses in the same order, address lookup gives
/// the same index.
proof fn lemma_index_of_stable(m0: Mapper, m1: Mapper, a: u64)
    requires
        m0.n() == m1.n(),
        forall|i: int| 0 <= i < m0.n() ==> #[trigger] m1.addr_of(i) == m0.addr_of(i),
        forall|i: int, j: int| 0 <= i < j < m0.n() ==> m0.addr_of(i) != m0.addr_of(j),
        m0.has_addr(a),
    ensures
        m1.has_addr(a),
        m1.index_of(a) == m0.index_of(a),
{
    let w0 = m0.index_of(a);
    assert(0 <= w0 < m0.n() && m0.addr_of(w0) as u64 == a);
    assert(m1.addr_of(w0) as u64 == a);
    assert(m1.has_addr(a));
    let w1 = m1.index_of(a);
    assert(0 <= w1 < m1.n() && m1.addr_of(w1) as u64 == a);
    if w0 != w1 {
        let x = if w0 < w1 { w0 } else { w1 };
        let y = if w0 < w1 { w1 } else { w0 };
        assert(m0.addr_of(x) != m0.addr_of(y));
        assert(false);
    }
}


/// Clearing one entry keeps the mapper invariant; every other present
/// entry keeps its target.
proof fn lemma_after_clear(m0: Mapper, m1: Mapper, ti: int, k: int)
    requires
        m0.wf(),
        0 <= ti < m0.n(),
        0 <= k < TABLE_ENTRIES,
        m1.n() == m0.n(),
        forall|i: int| 0 <= i < m0.n() ==> (#[trigger] m1.addr_of(i)) == m0.addr_of(i),
        forall|i: int| 0 <= i < m0.n() ==> (#[trigger] m1.level_of(i)) == m0.level_of(i),
        forall|i: int| 0 <= i < m0.n() ==> (#[trigger] m1.ents_len(i)) == m0.ents_len(i),
        forall|i: int, k2: int|
            0 <= i < m0.n() && 0 <= k2 < TABLE_ENTRIES && !(i == ti && k2 == k) ==> (
            #[trigger] m1.ent(i, k2)) == m0.ent(i, k2),
        m1.ent(ti, k) == 0,
    ensures
        m1.wf(),
        forall|i: int, k2: int|
            0 <= i < m1.n() && 0 <= k2 < TABLE_ENTRIES && m1.level_of(i) >= 1
                && #[trigger] m1.ent(i, k2) != 0 ==> m1.child(i, k2) == m0.child(i, k2),
{
    assert forall|i: int, k2: int|
        0 <= i < m1.n() && 0 <= k2 < TABLE_ENTRIES && m1.level_of(i) >= 1 && #[trigger] m1.ent(
            i,
            k2,
        ) != 0 implies {
        &&& m1.has_addr(m1.ent(i, k2) & ADDRESS_MASK)
        &&& m1.level_of(m1.child(i, k2)) == m1.level_of(i) - 1
        &&& m1.child(i, k2) == m0.child(i, k2)
    } by {
        if i == ti && k2 == k {
            assert(m1.ent(ti, k) == 0);
            assert(false);
        } else {
            assert(m1.addr_of(i) == m0.addr_of(i) && m1.level_of(i) == m0.level_of(i));
            assert(m1.ent(i, k2) == m0.ent(i, k2));
            assert(m0.has_addr(m0.ent(i, k2) & ADDRESS_MASK));
            lemma_index_of_stable(m0, m1, m0.ent(i, k2) & ADDRESS_MASK);
            assert(m1.child(i, k2) == m0.child(i, k2));
            assert(m0.level_of(m0.child(i, k2)) == m0.level_of(i) - 1);
            let w = m0.child(i, k2);
            assert(m1.addr_of(w) == m0.addr_of(w) && m1.level_of(w) == m0.level_of(w));
        }
    }
    assert forall|i: int, k2: int, j: int, m: int|
        0 <= i < m1.n() && 0 <= k2 < TABLE_ENTRIES && m1.level_of(i) >= 1 && #[trigger] m1.ent(
            i,
            k2,
        ) != 0 && 0 <= j < m1.n() && 0 <= m < TABLE_ENTRIES && m1.level_of(j) >= 1
        && #[trigger] m1.ent(j, m) != 0 && (i != j || k2 != m) implies m1.ent(i, k2) & ADDRESS_MASK
        != m1.ent(j, m) & ADDRESS_MASK by {
        if i == ti && k2 == k {
            assert(m1.ent(ti, k) == 0);
            assert(false);
        } else if j == ti && m == k {
            assert(m1.ent(ti, k) == 0);
            assert(false);
        } else {
            assert(m1.addr_of(i) == m0.addr_of(i) && m1.level_of(i) == m0.level_of(i));
            assert(m1.addr_of(j) == m0.addr_of(j) && m1.level_of(j) == m0.level_of(j));
            assert(m1.ent(i, k2) == m0.ent(i, k2));
            assert(m1.ent(j, m) == m0.ent(j, m));
        }
    }
}

/// Which old arena index the table now at `i` came from, after the table
/// at `rm` was swap-removed from an arena of `n0` tables.
pub open spec fn pre_remove_index(rm: int, n0: int, i: int) -> int {
    if i == rm && rm != n0 - 1 {
        n0 - 1
    } else {
        i
    }
}

/// Swap-removing a table that no entry points at keeps the mapper
/// invariant; the surviving tables keep their contents.
proof fn lemma_after_remove(m0: Mapper, m1: Mapper, rm: int)
    requires
        m0.wf(),
        1 <= rm < m0.n(),
        forall|i: int, k: int|
            0 <= i < m0.n() && 0 <= k < TABLE_ENTRIES && m0.level_of(i) >= 1 && #[trigger] m0.ent(
                i,
                k,
            ) != 0 ==> m0.ent(i, k) & ADDRESS_MASK != m0.addr_of(rm) as u64,
        m1.tables@ == m0.tables@.update(rm, m0.tables@.last()).drop_last(),
    ensures
        m1.wf(),
        m1.n() == m0.n() - 1,
        forall|i: int|
            0 <= i < m1.n() ==> {
                let j = pre_remove_index(rm, m0.n(), i);
                &&& #[trigger] m1.addr_of(i) == m0.addr_of(j)
                &&& m1.level_of(i) == m0.level_of(j)
                &&& forall|k: int|
                    0 <= k < TABLE_ENTRIES ==> #[trigger] m1.ent(i, k) == m0.ent(j, k)
            },
        forall|i: int| 0 <= i < m1.n() ==> #[trigger] m1.addr_of(i) != m0.addr_of(rm),
{
    assert forall|i: int| 0 <= i < m1.n() implies {
        let j = pre_remove_index(rm, m0.n(), i);
        &&& #[trigger] m1.addr_of(i) == m0.addr_of(j)
        &&& m1.level_of(i) == m0.level_of(j)
        &&& m1.ents_len(i) == m0.ents_len(j)
        &&& forall|k: int| 0 <= k < TABLE_ENTRIES ==> #[trigger] m1.ent(i, k) == m0.ent(j, k)
    } by {
        let j = pre_remove_index(rm, m0.n(), i);
        assert(m1.tables@[i] == m0.tables@[j]);
    }
    assert forall|i: int| 0 <= i < m1.n() implies #[trigger] m1.addr_of(i) != m0.addr_of(rm) by {
        let j = pre_remove_index(rm, m0.n(), i);
        assert(j != rm);
        assert(m0.addr_of(j) != m0.addr_of(rm));
    }
    assert(m1.level_of(0) == 3);
    assert forall|i: int| 0 <= i < m1.n() implies #[trigger] m1.ents_len(i) == TABLE_ENTRIES by {
        let j = pre_remove_index(rm, m0.n(), i);
        assert(m0.ents_len(j) == TABLE_ENTRIES);
    }
    assert forall|i: int| 0 <= i < m1.n() implies #[trigger] m1.level_of(i) <= 3 by {
        let j = pre_remove_index(rm, m0.n(), i);
        assert(m0.level_of(j) <= 3);
    }
    assert forall|i: int|
        0 <= i < m1.n() implies (#[trigger] m1.addr_of(i)) as u64 & ADDRESS_MASK == m1.addr_of(
        i,
    ) as u64 && m1.addr_of(i) != 0 by {
        let j = pre_remove_index(rm, m0.n(), i);
        assert((m0.addr_of(j)) as u64 & ADDRESS_MASK == m0.addr_of(j) as u64);
    }
    assert forall|i: int, j: int| 0 <= i < j < m1.n() implies m1.addr_of(i) != m1.addr_of(j) by {
        let pi = pre_remove_index(rm, m0.n(), i);
        let pj = pre_remove_index(rm, m0.n(), j);
        assert(pi != pj);
        if pi < pj {
            assert(m0.addr_of(pi) != m0.addr_of(pj));
        } else {
            assert(m0.addr_of(pj) != m0.addr_of(pi));
        }
    }
    assert forall|i: int, k: int|
        0 <= i < m1.n() && 0 <= k < TABLE_ENTRIES && m1.level_of(i) >= 1 && #[trigger] m1.ent(
            i,
            k,
        ) != 0 implies {
        &&& m1.has_addr(m1.ent(i, k) & ADDRESS_MASK)
        &&& m1.level_of(m1.child(i, k)) == m1.level_of(i) - 1
    } by {
        let pi = pre_remove_index(rm, m0.n(), i);
        assert(m1.ent(i, k) == m0.ent(pi, k));
        assert(m0.has_addr(m0.ent(pi, k) & ADDRESS_MASK));
        let w = m0.index_of(m0.ent(pi, k) & ADDRESS_MASK);
        assert(0 <= w < m0.n() && m0.addr_of(w) as u64 == m0.ent(pi, k) & ADDRESS_MASK);
        assert(w != rm);
        // the old target's new position
        let wn = if w == m0.n() - 1 {
            rm
        } else {
            w
        };
        assert(pre_remove_index(rm, m0.n(), wn) == w);
        assert(0 <= wn < m1.n());
        assert(m1.addr_of(wn) == m0.addr_of(w));
        assert(m1.has_addr(m1.ent(i, k) & ADDRESS_MASK));
        let w1 = m1.index_of(m1.ent(i, k) & ADDRESS_MASK);
        assert(0 <= w1 < m1.n() && m1.addr_of(w1) as u64 == m1.ent(i, k) & ADDRESS_MASK);
        if w1 != wn {
            let x = if w1 < wn {
                w1
            } else {
                wn
            };
            let y = if w1 < wn {
                wn
            } else {
                w1
            };
            assert(m1.addr_of(x) != m1.addr_of(y));
            assert(false);
        }
        assert(m1.level_of(wn) == m0.level_of(w));
    }
    assert forall|i: int, k2: int, j: int, m: int|
        0 <= i < m1.n() && 0 <= k2 < TABLE_ENTRIES && m1.level_of(i) >= 1 && #[trigger] m1.ent(
            i,
            k2,
        ) != 0 && 0 <= j < m1.n() && 0 <= m < TABLE_ENTRIES && m1.level_of(j) >= 1
        && #[trigger] m1.ent(j, m) != 0 && (i != j || k2 != m) implies m1.ent(i, k2) & ADDRESS_MASK
        != m1.ent(j, m) & ADDRESS_MASK by {
        let pi = pre_remove_index(rm, m0.n(), i);
        let pj = pre_remove_index(rm, m0.n(), j);
        assert(m1.ent(i, k2) == m0.ent(pi, k2));
        assert(m1.ent(j, m) == m0.ent(pj, m));
        assert(pi != pj || i == j);
    }
}


/// After its unique parent entry is cleared, no entry points at the
/// child's frame any more.
proof fn lemma_no_targets_after_clear(m_b: Mapper, m_c: Mapper, tp: int, kp: int, a: u64)
    requires
        m_b.wf(),
        0 <= tp < m_b.n(),
        0 <= kp < TABLE_ENTRIES,
        m_b.level_of(tp) >= 1,
        m_b.ent(tp, kp) != 0,
        m_b.ent(tp, kp) & ADDRESS_MASK == a,
        m_c.n() == m_b.n(),
        forall|i: int| 0 <= i < m_b.n() ==> (#[trigger] m_c.addr_of(i)) == m_b.addr_of(i),
        forall|i: int| 0 <= i < m_b.n() ==> (#[trigger] m_c.level_of(i)) == m_b.level_of(i),
        forall|i: int, k2: int|
            0 <= i < m_b.n() && 0 <= k2 < TABLE_ENTRIES && !(i == tp && k2 == kp) ==> (
            #[trigger] m_c.ent(i, k2)) == m_b.ent(i, k2),
        m_c.ent(tp, kp) == 0,
    ensures
        forall|i: int, k: int|
            0 <= i < m_c.n() && 0 <= k < TABLE_ENTRIES && m_c.level_of(i) >= 1
                && #[trigger] m_c.ent(i, k) != 0 ==> m_c.ent(i, k) & ADDRESS_MASK != a,
{
    assert forall|i: int, k: int|
        0 <= i < m_c.n() && 0 <= k < TABLE_ENTRIES && m_c.level_of(i) >= 1 && #[trigger] m_c.ent(
            i,
            k,
        ) != 0 implies m_c.ent(i, k) & ADDRESS_MASK != a by {
        if i == tp && k == kp {
            assert(m_c.ent(tp, kp) == 0);
            assert(false);
        } else {
            assert(m_c.ent(i, k) == m_b.ent(i, k));
            assert(m_c.level_of(i) == m_b.level_of(i));
            if m_b.ent(i, k) & ADDRESS_MASK == a {
                assert(m_b.ent(i, k) & ADDRESS_MASK != m_b.ent(tp, kp) & ADDRESS_MASK);
                assert(false);
            }
        }
    }
}


/// An address found at index `i` of a well-formed arena is found there by
/// lookup too.
proof fn lemma_index_is(m: Mapper, a: u64, i: int)
    requires
        m.wf(),
        0 <= i < m.n(),
        m.addr_of(i) as u64 == a,
    ensures
        m.has_addr(a),
        m.index_of(a) == i,
{
    assert(m.has_addr(a));
    let w = m.index_of(a);
    assert(0 <= w < m.n() && m.addr_of(w) as u64 == a);
    if w != i {
        let x = if w < i { w } else { i };
        let y = if w < i { i } else { w };
        assert(m.addr_of(x) != m.addr_of(y));
        assert(false);
    }
}


/// An address's offset within its page is below the page size.
proof fn lemma_page_offset(p: u64, v: u64)
    ensures
        (v & 0xfff) < 4096,
{
    assert((v & 0xfff) < 4096u64) by (bit_vector);
}

/// Any masked value stays below the mask itself.
proof fn lemma_masked_le(x: u64)
    ensures
        x & ADDRESS_MASK <= ADDRESS_MASK,
{
    assert(x & 0x000f_ffff_ffff_f000u64 <= 0x000f_ffff_ffff_f000u64) by (bit_vector);
}

/// Two different pages of one stride walk the tables through different
/// indices.
proof fn lemma_stride_distinct(v0: u64, a: u64, b: u64, n: u64)
    requires
        a < b,
        b < n,
        v0 + n * 4096 <= 0x1_0000_0000_0000,
    ensures
        !same_walk((v0 + b * 4096) as u64, (v0 + a * 4096) as u64),
{
    assert(a * 4096 < b * 4096 && b * 4096 <= n * 4096) by (nonlinear_arith)
        requires
            a < b,
            b <= n,
    ;
    let x = (v0 + b * 4096) as u64;
    let y = (v0 + a * 4096) as u64;
    assert(x != y);
    assert(x % 4096 == y % 4096) by (nonlinear_arith)
        requires
            x == v0 + b * 4096,
            y == v0 + a * 4096,
    ;
    assert(x < 0x1_0000_0000_0000u64 && y < 0x1_0000_0000_0000u64 && x % 4096 == y % 4096 && ((x
        >> 39) & 0x1ff == (y >> 39) & 0x1ff) && ((x >> 30) & 0x1ff == (y >> 30) & 0x1ff) && ((x
        >> 21) & 0x1ff == (y >> 21) & 0x1ff) && ((x >> 12) & 0x1ff == (y >> 12) & 0x1ff) ==> x
        == y) by (bit_vector);
    if same_walk(x, y) {
        assert(vidx(x, 3) == ((x >> 39u64) & 0x1ff) as int);
        assert(vidx(x, 2) == ((x >> 30u64) & 0x1ff) as int);
        assert(vidx(x, 1) == ((x >> 21u64) & 0x1ff) as int);
        assert(vidx(x, 0) == ((x >> 12u64) & 0x1ff) as int);
        assert(false);
    }
}

/// A masked base address advanced by whole frames stays masked.
proof fn lemma_stride_masked(p: u64, i: u64, n: u64, q: u64)
    requires
        p & 0x000f_ffff_ffff_f000 == p,
        p != 0,
        i < n,
        p + n * 4096 <= 0x000f_ffff_ffff_f000,
        q == p + i * 4096,
    ensures
        q & ADDRESS_MASK == q,
        q != 0,
{
    assert(i * 4096 <= n * 4096) by (nonlinear_arith)
        requires
            i < n,
    ;
    assert(p % 4096 == 0) by (bit_vector)
        requires
            p & 0x000f_ffff_ffff_f000u64 == p,
    ;
    assert(q % 4096 == 0) by (nonlinear_arith)
        requires
            p % 4096 == 0,
            q == p + i * 4096,
    ;
    assert(q % 4096 == 0 && q <= 0x000f_ffff_ffff_f000u64 && q != 0 ==> q & 0x000f_ffff_ffff_f000
        == q) by (bit_vector);
}


/// The three states of one reclamation — before, parent entry cleared,
/// table removed — and how they relate.
pub open spec fn remove_shape(
    m_b: Mapper,
    m_c: Mapper,
    m_f: Mapper,
    tp: int,
    kp: int,
    tc: int,
) -> bool {
    &&& m_b.wf()
    &&& m_c.wf()
    &&& m_f.wf()
    &&& 0 <= tp < m_b.n()
    &&& 0 <= kp < TABLE_ENTRIES
    &&& 1 <= tc < m_b.n()
    &&& m_b.level_of(tp) >= 1
    &&& m_b.ent(tp, kp) != 0
    &&& m_b.ent(tp, kp) & ADDRESS_MASK == m_b.addr_of(tc) as u64
    &&& forall|k: int| 0 <= k < TABLE_ENTRIES ==> (#[trigger] m_b.ent(tc, k)) == 0u64
    &&& m_c.n() == m_b.n()
    &&& forall|i: int| 0 <= i < m_b.n() ==> (#[trigger] m_c.addr_of(i)) == m_b.addr_of(i)
    &&& forall|i: int| 0 <= i < m_b.n() ==> (#[trigger] m_c.level_of(i)) == m_b.level_of(i)
    &&& forall|i: int, k: int|
        0 <= i < m_b.n() && 0 <= k < TABLE_ENTRIES && !(i == tp && k == kp) ==> (
        #[trigger] m_c.ent(i, k)) == m_b.ent(i, k)
    &&& m_c.ent(tp, kp) == 0
    &&& m_f.n() == m_b.n() - 1
    &&& forall|i: int|
        0 <= i < m_f.n() ==> {
            let j = pre_remove_index(tc, m_b.n(), i);
            &&& (#[trigger] m_f.addr_of(i)) == m_c.addr_of(j)
            &&& m_f.level_of(i) == m_c.level_of(j)
            &&& forall|k: int| 0 <= k < TABLE_ENTRIES ==> (#[trigger] m_f.ent(i, k)) == m_c.ent(j, k)
        }
    &&& forall|i: int| 0 <= i < m_f.n() ==> (#[trigger] m_f.addr_of(i)) != m_b.addr_of(tc)
}

/// Where a surviving table sits after the removal.
proof fn lemma_survivor_index(m_b: Mapper, m_c: Mapper, m_f: Mapper, tp: int, kp: int, tc: int, u: int) -> (uf: int)
    requires
        remove_shape(m_b, m_c, m_f, tp, kp, tc),
        0 <= u < m_b.n(),
        u != tc,
    ensures
        0 <= uf < m_f.n(),
        m_f.addr_of(uf) == m_b.addr_of(u),
        m_f.level_of(uf) == m_b.level_of(u),
        forall|k: int|
            0 <= k < TABLE_ENTRIES ==> (#[trigger] m_f.ent(uf, k)) == (if u == tp && k == kp {
                0u64
            } else {
                m_b.ent(u, k)
            }),
{
    let uf = if u == m_b.n() - 1 {
        tc
    } else {
        u
    };
    assert(pre_remove_index(tc, m_b.n(), uf) == u);
    assert(0 <= uf < m_f.n());
    uf
}

/// Reclaiming an all-unused table changes no translation: every path into
/// the cleared entry was already dead in the empty table.
#[verifier::rlimit(100)]
#[verifier::spinoff_prover]
proof fn lemma_reclaim_preserves(m_b: Mapper, m_c: Mapper, m_f: Mapper, tp: int, kp: int, tc: int)
    requires
        remove_shape(m_b, m_c, m_f, tp, kp, tc),
    ensures
        m_f.same_translations(&m_b),
{
    assert forall|i3: int, i2: int, i1: int, i0: int|
        0 <= i3 < TABLE_ENTRIES && 0 <= i2 < TABLE_ENTRIES && 0 <= i1 < TABLE_ENTRIES && 0 <= i0
            < TABLE_ENTRIES implies #[trigger] m_f.translate_idx(i3, i2, i1, i0)
        == m_b.translate_idx(i3, i2, i1, i0) by {
        lemma_reclaim_walk(m_b, m_c, m_f, tp, kp, tc, i3, i2, i1, i0);
    }
}

/// One path of [`lemma_reclaim_preserves`], walked level by level.
#[verifier::rlimit(100)]
#[verifier::spinoff_prover]
proof fn lemma_reclaim_walk(
    m_b: Mapper,
    m_c: Mapper,
    m_f: Mapper,
    tp: int,
    kp: int,
    tc: int,
    i3: int,
    i2: int,
    i1: int,
    i0: int,
)
    requires
        remove_shape(m_b, m_c, m_f, tp, kp, tc),
        0 <= i3 < TABLE_ENTRIES,
        0 <= i2 < TABLE_ENTRIES,
        0 <= i1 < TABLE_ENTRIES,
        0 <= i0 < TABLE_ENTRIES,
    ensures
        m_f.translate_idx(i3, i2, i1, i0) == m_b.translate_idx(i3, i2, i1, i0),
{
    assert(m_b.addr_of(0) != m_b.addr_of(tc));
    assert(m_f.addr_of(0) == m_b.addr_of(0) && m_f.level_of(0) == 3) by {
        assert(pre_remove_index(tc, m_b.n(), 0) == 0);
    }
    if tp == 0 && i3 == kp {
        // The cleared root entry: the walk died in the empty table before
        // and dies at the root now.
        assert(m_b.child(0, i3) == tc) by {
            lemma_index_is(m_b, m_b.ent(0, i3) & ADDRESS_MASK, tc);
        }
        assert(m_b.ent(tc, i2) == 0);
        assert(m_f.ent(0, i3) == 0) by {
            assert(pre_remove_index(tc, m_b.n(), 0) == 0);
        }
    } else {
        assert(m_f.ent(0, i3) == m_b.ent(0, i3)) by {
            assert(pre_remove_index(tc, m_b.n(), 0) == 0);
        }
        if m_b.ent(0, i3) == 0 {
        } else {
            let (b2, f2) = lemma_reclaim_step(m_b, m_c, m_f, tp, kp, tc, 0, 0, i3);
            if tp == b2 && i2 == kp {
                assert(m_b.child(b2, i2) == tc) by {
                    lemma_index_is(m_b, m_b.ent(b2, i2) & ADDRESS_MASK, tc);
                }
                assert(m_b.ent(tc, i1) == 0);
                assert(m_f.ent(f2, i2) == 0);
            } else {
                assert(m_f.ent(f2, i2) == m_b.ent(b2, i2));
                if m_b.ent(b2, i2) == 0 {
                } else {
                    let (b1, f1) = lemma_reclaim_step(m_b, m_c, m_f, tp, kp, tc, b2, f2, i2);
                    if tp == b1 && i1 == kp {
                        assert(m_b.child(b1, i1) == tc) by {
                            lemma_index_is(m_b, m_b.ent(b1, i1) & ADDRESS_MASK, tc);
                        }
                        assert(m_b.ent(tc, i0) == 0);
                        assert(m_f.ent(f1, i1) == 0);
                    } else {
                        assert(m_f.ent(f1, i1) == m_b.ent(b1, i1));
                        if m_b.ent(b1, i1) == 0 {
                        } else {
                            let (b0, f0) = lemma_reclaim_step(
                                m_b,
                                m_c,
                                m_f,
                                tp,
                                kp,
                                tc,
                                b1,
                                f1,
                                i1,
                            );
                            assert(m_b.level_of(b0) == 0 && m_b.level_of(tp) >= 1);
                            assert(b0 != tp);
                            assert(m_f.ent(f0, i0) == m_b.ent(b0, i0));
                        }
                    }
                }
            }
        }
    }
}

/// One walk step of the reclamation chase: a present entry off the
/// cleared slot leads to the same surviving child on both sides.
#[verifier::rlimit(100)]
proof fn lemma_reclaim_step(
    m_b: Mapper,
    m_c: Mapper,
    m_f: Mapper,
    tp: int,
    kp: int,
    tc: int,
    ub: int,
    uf: int,
    j: int,
) -> (pair: (int, int))
    requires
        remove_shape(m_b, m_c, m_f, tp, kp, tc),
        0 <= ub < m_b.n(),
        0 <= uf < m_f.n(),
        m_f.addr_of(uf) == m_b.addr_of(ub),
        m_f.level_of(uf) == m_b.level_of(ub),
        m_b.level_of(ub) >= 1,
        0 <= j < TABLE_ENTRIES,
        m_b.ent(ub, j) != 0,
        !(ub == tp && j == kp),
        m_f.ent(uf, j) == m_b.ent(ub, j),
    ensures
        pair.0 == m_b.child(ub, j),
        pair.1 == m_f.child(uf, j),
        0 <= pair.0 < m_b.n(),
        0 <= pair.1 < m_f.n(),
        pair.0 != tc,
        m_f.addr_of(pair.1) == m_b.addr_of(pair.0),
        m_f.level_of(pair.1) == m_b.level_of(pair.0),
        m_b.level_of(pair.0) == m_b.level_of(ub) - 1,
        forall|k: int|
            0 <= k < TABLE_ENTRIES ==> (#[trigger] m_f.ent(pair.1, k)) == (if pair.0 == tp && k
                == kp {
                0u64
            } else {
                m_b.ent(pair.0, k)
            }),
{
    assert(m_b.has_addr(m_b.ent(ub, j) & ADDRESS_MASK));
    let cb = m_b.child(ub, j);
    assert(0 <= cb < m_b.n() && m_b.addr_of(cb) as u64 == m_b.ent(ub, j) & ADDRESS_MASK);
    // The child is not the removed table: its unique pointer is the
    // cleared slot, and this entry is a different one.
    if cb == tc {
        assert(m_b.ent(ub, j) & ADDRESS_MASK == m_b.ent(tp, kp) & ADDRESS_MASK);
        assert(false);
    }
    let cf = lemma_survivor_index(m_b, m_c, m_f, tp, kp, tc, cb);
    assert(m_f.addr_of(cf) as u64 == m_f.ent(uf, j) & ADDRESS_MASK);
    assert(m_f.has_addr(m_f.ent(uf, j) & ADDRESS_MASK));
    let w = m_f.index_of(m_f.ent(uf, j) & ADDRESS_MASK);
    assert(0 <= w < m_f.n() && m_f.addr_of(w) as u64 == m_f.ent(uf, j) & ADDRESS_MASK);
    if w != cf {
        let x = if w < cf {
            w
        } else {
            cf
        };
        let y = if w < cf {
            cf
        } else {
            w
        };
        assert(m_f.addr_of(x) != m_f.addr_of(y));
        assert(false);
    }
    (cb, cf)
}


/// Combines the leaf-clearing step with any number of translation-neutral
/// reclamations: every address off the cleared walk keeps its
/// translation.
proof fn lemma_unmap_exit(
    m_w: Mapper,
    s_a: Mapper,
    cur: Mapper,
    v: u64,
    p3: int,
    p2: int,
    p1: int,
    p0: int,
)
    requires
        p3 == vidx(v, 3),
        p2 == vidx(v, 2),
        p1 == vidx(v, 1),
        p0 == vidx(v, 0),
        forall|i3: int, i2: int, i1: int, i0: int|
            0 <= i3 < TABLE_ENTRIES && 0 <= i2 < TABLE_ENTRIES && 0 <= i1 < TABLE_ENTRIES && 0
                <= i0 < TABLE_ENTRIES && !(i3 == p3 && i2 == p2 && i1 == p1 && i0 == p0)
                ==> #[trigger] s_a.translate_idx(i3, i2, i1, i0) == m_w.translate_idx(
                i3,
                i2,
                i1,
                i0,
            ),
        cur.same_translations(&s_a),
    ensures
        forall|w: u64|
            !same_walk(v, w) ==> #[trigger] cur.translate(w) == m_w.translate(w),
{
    assert forall|w: u64| !same_walk(v, w) implies #[trigger] cur.translate(w) == m_w.translate(
        w,
    ) by {
        lemma_vidx_range(w, 3);
        lemma_vidx_range(w, 2);
        lemma_vidx_range(w, 1);
        lemma_vidx_range(w, 0);
        let j3 = vidx(w, 3);
        let j2 = vidx(w, 2);
        let j1 = vidx(w, 1);
        let j0 = vidx(w, 0);
        assert(!(j3 == p3 && j2 == p2 && j1 == p1 && j0 == p0));
        assert(cur.translate_idx(j3, j2, j1, j0) == s_a.translate_idx(j3, j2, j1, j0));
        assert(s_a.translate_idx(j3, j2, j1, j0) == m_w.translate_idx(j3, j2, j1, j0));
    }
}

/// Every level index a virtual address selects is a valid table index.
pub proof fn lemma_vidx_range(v: u64, l: int)
    requires
        0 <= l <= 3,
    ensures
        0 <= vidx(v, l) < TABLE_ENTRIES,
{
    let sh: u64 = (l * 9 + 12) as u64;
    assert((v >> sh) & 0x1ff < 512u64) by (bit_vector);
}

/// A page-aligned nonzero frame address no larger than the mask keeps its
/// value under the entry mask.
proof fn lemma_frame_maskable(addr: u64)
    requires
        addr as int % 4096 == 0,
        0 < addr as int,
        addr as int <= ADDRESS_MASK as int,
    ensures
        addr & ADDRESS_MASK == addr,
        addr != 0,
{
    assert(addr % 4096 == 0);
    assert(addr <= 0x000f_ffff_ffff_f000u64);
    assert(addr % 4096 == 0 && addr <= 0x000f_ffff_ffff_f000u64 ==> addr
        & 0x000f_ffff_ffff_f000 == addr) by (bit_vector);
}

} // verus!
