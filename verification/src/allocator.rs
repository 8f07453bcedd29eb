//! Free-list heap allocator (`kmalloc` / `kfree`) built on the page-frame
//! allocator.
//!
//! Every block carries a header-sized prefix, so the payload pointer handed
//! to a caller is always one header width past the block's base.  Free
//! blocks live on a list scanned front to back (first fit); an allocation
//! splits an oversized block and re-inserts the remainder at the tail, and
//! a release zeroes the block and coalesces it with physically adjacent
//! free blocks.  Live blocks are recorded in an explicit side table, so
//! the proofs can rule out overlapping allocations and double frees
//! without reading headers back out of raw memory.

use vstd::prelude::*;

use crate::mem::{PhysicalMemory, PAGE_SIZE};
use crate::page_frame_allocator::{
    get_number_of_pages, round_to_nearest_page, round_to_nearest_page_spec, PageFrameAllocator,
};

verus! {

/// Bytes every block reserves in front of its payload: room for the
/// block's list-node header.
pub const LIST_NODE_MEMORY_SIZE: usize = 48;

/// Largest accepted request in bytes; anything above is rejected as
/// invalid rather than fed into the frame arithmetic.
pub const MAX_REQUEST_BYTES: usize = 0x1000_0000;

/// A heap block: its total size in bytes (header included) and the address
/// of its payload, one header width past the block's base.
#[derive(Clone, Copy, Debug, PartialEq, Eq, Structural)]
pub struct MemoryBlock {
    pub size: usize,
    pub data: usize,
}

impl MemoryBlock {
    /// Builds a block descriptor from its payload address and total size.
    pub fn new(data: usize, size: usize) -> (b: MemoryBlock)
        ensures
            b.data == data,
            b.size == size,
    {
        MemoryBlock { size, data }
    }
}

/// Why an allocation was refused.
#[derive(Clone, Copy, Debug, PartialEq, Eq, Structural)]
pub enum HeapError {
    /// Zero-sized or unreasonably large request.
    InvalidRequest,
    /// The page-frame allocator has no room left for the needed frames.
    OutOfMemory,
}

/// First byte of the block owning payload address `data`.
pub open spec fn block_base(b: MemoryBlock) -> int {
    b.data - LIST_NODE_MEMORY_SIZE
}

/// One past the last byte of the block.
pub open spec fn block_end(b: MemoryBlock) -> int {
    block_base(b) + b.size
}

/// Shape every block must have: 8-byte aligned size and payload, room for
/// the header, and an extent that fits in a machine word.
pub open spec fn valid_block(b: MemoryBlock) -> bool {
    &&& b.size % 8 == 0
    &&& b.data % 8 == 0
    &&& b.size > LIST_NODE_MEMORY_SIZE
    &&& b.data >= LIST_NODE_MEMORY_SIZE
    &&& block_end(b) <= usize::MAX
}

/// The byte ranges of `a` and `b` do not overlap.
pub open spec fn blocks_disjoint(a: MemoryBlock, b: MemoryBlock) -> bool {
    block_end(a) <= block_base(b) || block_end(b) <= block_base(a)
}

/// `i` is the first position of the free list whose block fits `need`
/// bytes.
pub open spec fn is_first_fit(frees: Seq<MemoryBlock>, need: int, i: int) -> bool {
    &&& 0 <= i < frees.len()
    &&& frees[i].size >= need
    &&& forall|j: int| 0 <= j < i ==> (#[trigger] frees[j]).size < need
}

/// Some free block fits `need` bytes.
pub open spec fn has_fit(frees: Seq<MemoryBlock>, need: int) -> bool {
    exists|i: int| is_first_fit(frees, need, i)
}

/// `i` indexes the live block with payload address `d`.
pub open spec fn is_live_at(lives: Seq<MemoryBlock>, d: usize, i: int) -> bool {
    0 <= i < lives.len() && lives[i].data == d
}

/// A live block with payload address `d` exists.
pub open spec fn has_live(lives: Seq<MemoryBlock>, d: usize) -> bool {
    exists|i: int| is_live_at(lives, d, i)
}

/// The index of the live block with payload address `d` (unique in a
/// well-formed heap).
pub open spec fn live_index(lives: Seq<MemoryBlock>, d: usize) -> int {
    choose|i: int| is_live_at(lives, d, i)
}

/// The live block with payload address `d`.
pub open spec fn the_live_block(lives: Seq<MemoryBlock>, d: usize) -> MemoryBlock {
    lives[live_index(lives, d)]
}

/// What the internal size of a request is: the request plus one header,
/// rounded up to 8 bytes.
pub open spec fn internal_size(size: int) -> int {
    ((size + LIST_NODE_MEMORY_SIZE + 7) / 8) * 8
}

/// A request this allocator accepts.
pub open spec fn acceptable_request(size: int) -> bool {
    1 <= size <= MAX_REQUEST_BYTES
}

/// How one allocation transforms the free list and the live table: the
/// first-fit block at `i` leaves the list; when it is more than one header
/// larger than `need`, its tail is re-inserted as a new free block at the
/// end of the list, otherwise the whole block goes to the caller.
pub open spec fn alloc_transition(
    f0: Seq<MemoryBlock>,
    l0: Seq<MemoryBlock>,
    f1: Seq<MemoryBlock>,
    l1: Seq<MemoryBlock>,
    i: int,
    need: int,
    p: usize,
) -> bool {
    let b = f0[i];
    &&& is_first_fit(f0, need, i)
    &&& p == b.data
    &&& if b.size > need + LIST_NODE_MEMORY_SIZE {
        &&& f1 == f0.remove(i).push(
            MemoryBlock { size: (b.size - need) as usize, data: (b.data + need) as usize },
        )
        &&& l1 == l0.push(MemoryBlock { size: need as usize, data: p })
    } else {
        &&& f1 == f0.remove(i)
        &&& l1 == l0.push(MemoryBlock { size: b.size, data: p })
    }
}

/// `i` indexes a free block that ends exactly where `blk` begins.
pub open spec fn is_pred_at(frees: Seq<MemoryBlock>, blk: MemoryBlock, i: int) -> bool {
    0 <= i < frees.len() && block_end(frees[i]) == block_base(blk)
}

/// `i` indexes a free block that begins exactly where `blk` ends.
pub open spec fn is_succ_at(frees: Seq<MemoryBlock>, blk: MemoryBlock, i: int) -> bool {
    0 <= i < frees.len() && block_base(frees[i]) == block_end(blk)
}

/// How one release transforms the free list: the freed block is merged
/// with the free block ending at its base, with the free block starting at
/// its end, or with both; with no physical neighbour on the list it joins
/// the tail.
pub open spec fn free_transition(
    f0: Seq<MemoryBlock>,
    f1: Seq<MemoryBlock>,
    blk: MemoryBlock,
) -> bool {
    if exists|pi: int| is_pred_at(f0, blk, pi) {
        let pi = choose|pi: int| is_pred_at(f0, blk, pi);
        if exists|si: int| is_succ_at(f0, blk, si) {
            let si = choose|si: int| is_succ_at(f0, blk, si);
            f1 == f0.update(
                pi,
                MemoryBlock {
                    size: (f0[pi].size + blk.size + f0[si].size) as usize,
                    data: f0[pi].data,
                },
            ).remove(si)
        } else {
            f1 == f0.update(
                pi,
                MemoryBlock { size: (f0[pi].size + blk.size) as usize, data: f0[pi].data },
            )
        }
    } else {
        if exists|si: int| is_succ_at(f0, blk, si) {
            let si = choose|si: int| is_succ_at(f0, blk, si);
            f1 == f0.update(
                si,
                MemoryBlock { size: (blk.size + f0[si].size) as usize, data: blk.data },
            )
        } else {
            f1 == f0.push(blk)
        }
    }
}

/// Elementwise shape of `s.remove(i)`.
proof fn lemma_seq_remove_index(s: Seq<MemoryBlock>, i: int)
    requires
        0 <= i < s.len(),
    ensures
        s.remove(i).len() == s.len() - 1,
        forall|k: int|
            0 <= k < s.len() - 1 ==> #[trigger] s.remove(i)[k] == if k < i {
                s[k]
            } else {
                s[k + 1]
            },
{
    assert forall|k: int| 0 <= k < s.len() - 1 implies #[trigger] s.remove(i)[k] == if k < i {
        s[k]
    } else {
        s[k + 1]
    } by {
        if k < i {
            assert(s.remove(i)[k] == s[k]);
        } else {
            assert(s.remove(i)[k] == s[k + 1]);
        }
    }
}

/// What a successful or exhausted allocation of `size` bytes does, given
/// the watermark and end of the backing page-frame allocator: a first fit
/// is taken as it stands; otherwise exactly one extension of the needed
/// frame count is made at the watermark and the new block is taken.
pub open spec fn kmalloc_post(
    f0: Seq<MemoryBlock>,
    l0: Seq<MemoryBlock>,
    f1: Seq<MemoryBlock>,
    l1: Seq<MemoryBlock>,
    wm0: int,
    end: int,
    wm1: int,
    size: int,
    r: Result<usize, HeapError>,
) -> bool {
    let need = internal_size(size);
    if has_fit(f0, need) {
        &&& wm1 == wm0
        &&& alloc_case(f0, l0, f1, l1, need, r)
    } else {
        let pages = round_to_nearest_page_spec(need) / PAGE_SIZE as int;
        if wm0 + pages * PAGE_SIZE <= end {
            &&& wm1 == wm0 + pages * PAGE_SIZE
            &&& alloc_case(
                f0.push(
                    MemoryBlock {
                        size: (pages * PAGE_SIZE) as usize,
                        data: (wm0 + LIST_NODE_MEMORY_SIZE) as usize,
                    },
                ),
                l0,
                f1,
                l1,
                need,
                r,
            )
        } else {
            &&& r == Err::<usize, HeapError>(HeapError::OutOfMemory)
            &&& f1 == f0
            &&& l1 == l0
            &&& wm1 == wm0
        }
    }
}

/// The request succeeded and some first fit of the scanned list accounts
/// for the new state.
#[verifier::opaque]
pub open spec fn alloc_case(
    f0: Seq<MemoryBlock>,
    l0: Seq<MemoryBlock>,
    f1: Seq<MemoryBlock>,
    l1: Seq<MemoryBlock>,
    need: int,
    r: Result<usize, HeapError>,
) -> bool {
    &&& r is Ok
    &&& exists|i: int| #[trigger] alloc_transition(f0, l0, f1, l1, i, need, r->Ok_0)
}

/// A taken first fit satisfies the allocation postcondition.
proof fn lemma_kmalloc_post_fit(
    f0: Seq<MemoryBlock>,
    l0: Seq<MemoryBlock>,
    f1: Seq<MemoryBlock>,
    l1: Seq<MemoryBlock>,
    wm0: int,
    end: int,
    size: int,
    p: usize,
    i: int,
)
    requires
        alloc_transition(f0, l0, f1, l1, i, internal_size(size), p),
        acceptable_request(size),
    ensures
        kmalloc_post(f0, l0, f1, l1, wm0, end, wm0, size, Ok::<usize, HeapError>(p)),
{
    assert(is_first_fit(f0, internal_size(size), i));
    assert(has_fit(f0, internal_size(size)));
    lemma_alloc_case(f0, l0, f1, l1, i, internal_size(size), p);
}

/// A fit taken from the freshly extended list satisfies the allocation
/// postcondition.
proof fn lemma_kmalloc_post_grow(
    f0: Seq<MemoryBlock>,
    l0: Seq<MemoryBlock>,
    f1: Seq<MemoryBlock>,
    l1: Seq<MemoryBlock>,
    wm0: int,
    end: int,
    size: int,
    p: usize,
    i: int,
)
    requires
        !has_fit(f0, internal_size(size)),
        acceptable_request(size),
        wm0 + (round_to_nearest_page_spec(internal_size(size)) / PAGE_SIZE as int) * PAGE_SIZE
            <= end,
        alloc_transition(
            f0.push(
                MemoryBlock {
                    size: ((round_to_nearest_page_spec(internal_size(size)) / PAGE_SIZE as int)
                        * PAGE_SIZE) as usize,
                    data: (wm0 + LIST_NODE_MEMORY_SIZE) as usize,
                },
            ),
            l0,
            f1,
            l1,
            i,
            internal_size(size),
            p,
        ),
    ensures
        kmalloc_post(
            f0,
            l0,
            f1,
            l1,
            wm0,
            end,
            wm0 + (round_to_nearest_page_spec(internal_size(size)) / PAGE_SIZE as int) * PAGE_SIZE,
            size,
            Ok::<usize, HeapError>(p),
        ),
{
    let nb = MemoryBlock {
        size: ((round_to_nearest_page_spec(internal_size(size)) / PAGE_SIZE as int)
            * PAGE_SIZE) as usize,
        data: (wm0 + LIST_NODE_MEMORY_SIZE) as usize,
    };
    lemma_alloc_case(f0.push(nb), l0, f1, l1, i, internal_size(size), p);
}

/// The kernel heap: the free list in scan order and the table of live
/// blocks.
pub struct HeapAllocator {
    free_blocks: Vec<MemoryBlock>,
    live_blocks: Vec<MemoryBlock>,
}

impl HeapAllocator {
    /// The free list in scan order.
    pub closed spec fn frees(&self) -> Seq<MemoryBlock> {
        self.free_blocks@
    }

    /// The live blocks, in order of allocation.
    pub closed spec fn lives(&self) -> Seq<MemoryBlock> {
        self.live_blocks@
    }

    /// Heap invariant: every block is well shaped, and no two blocks —
    /// free or live — overlap.
    pub open spec fn wf(&self) -> bool {
        &&& forall|i: int| 0 <= i < self.frees().len() ==> valid_block(#[trigger] self.frees()[i])
        &&& forall|i: int| 0 <= i < self.lives().len() ==> valid_block(#[trigger] self.lives()[i])
        &&& forall|i: int, j: int|
            0 <= i < j < self.frees().len() ==> blocks_disjoint(
                #[trigger] self.frees()[i],
                #[trigger] self.frees()[j],
            )
        &&& forall|i: int, j: int|
            0 <= i < j < self.lives().len() ==> blocks_disjoint(
                #[trigger] self.lives()[i],
                #[trigger] self.lives()[j],
            )
        &&& forall|i: int, j: int|
            0 <= i < self.frees().len() && 0 <= j < self.lives().len() ==> blocks_disjoint(
                #[trigger] self.frees()[i],
                #[trigger] self.lives()[j],
            )
    }

    /// Every block, free or live, lies within `[lo, hi)`.
    pub open spec fn bounded(&self, lo: int, hi: int) -> bool {
        &&& forall|i: int|
            0 <= i < self.frees().len() ==> lo <= block_base(#[trigger] self.frees()[i])
                && block_end(self.frees()[i]) <= hi
        &&& forall|i: int|
            0 <= i < self.lives().len() ==> lo <= block_base(#[trigger] self.lives()[i])
                && block_end(self.lives()[i]) <= hi
    }

    /// Creates an empty heap with no memory yet.
    pub fn new() -> (h: Self)
        ensures
            h.wf(),
            h.frees() == Seq::<MemoryBlock>::empty(),
            h.lives() == Seq::<MemoryBlock>::empty(),
            forall|lo: int, hi: int| #[trigger] h.bounded(lo, hi),
    {
        HeapAllocator { free_blocks: Vec::new(), live_blocks: Vec::new() }
    }

    /// Reports the current free list, for diagnostics.
    pub fn print_memory_list(&self) -> (blocks: Vec<MemoryBlock>)
        ensures
            blocks@ == self.frees(),
    {
        let mut out: Vec<MemoryBlock> = Vec::new();
        let mut i: usize = 0;
        while i < self.free_blocks.len()
            invariant
                i <= self.free_blocks.len(),
                out@ == self.frees().take(i as int),
            decreases self.free_blocks.len() - i,
        {
            out.push(self.free_blocks[i]);
            proof {
                assert(out@ =~= self.frees().take(i as int + 1));
            }
            i = i + 1;
        }
        proof {
            assert(out@ =~= self.frees());
        }
        out
    }

    /// First-fit scan: the index of the first free block of at least
    /// `size` bytes.
    fn find_first_fit(&self, size: usize) -> (r: Option<usize>)
        ensures
            match r {
                Some(i) => is_first_fit(self.frees(), size as int, i as int),
                None => !has_fit(self.frees(), size as int),
            },
    {
        let mut i: usize = 0;
        while i < self.free_blocks.len()
            invariant
                i <= self.free_blocks.len(),
                forall|j: int| 0 <= j < i ==> (#[trigger] self.frees()[j]).size < size,
            decreases self.free_blocks.len() - i,
        {
            if self.free_blocks[i].size >= size {
                return Some(i);
            }
            i = i + 1;
        }
        proof {
            assert forall|k: int| !is_first_fit(self.frees(), size as int, k) by {
                if 0 <= k < self.frees().len() {
                    assert(self.frees()[k].size < size);
                }
            }
        }
        None
    }

    /// Takes the free block at `index` for a request of `need` internal
    /// bytes, splitting off the tail when it is worth a header.
    fn alloc_from(&mut self, index: usize, need: usize) -> (p: usize)
        requires
            old(self).wf(),
            is_first_fit(old(self).frees(), need as int, index as int),
            need > LIST_NODE_MEMORY_SIZE,
            need + LIST_NODE_MEMORY_SIZE <= usize::MAX,
            need % 8 == 0,
        ensures
            final(self).wf(),
            alloc_transition(
                old(self).frees(),
                old(self).lives(),
                final(self).frees(),
                final(self).lives(),
                index as int,
                need as int,
                p,
            ),
            !has_live(old(self).lives(), p),
            forall|lo: int, hi: int|
                #[trigger] old(self).bounded(lo, hi) ==> final(self).bounded(lo, hi),
    {
        let b = self.free_blocks[index];
        proof {
            assert(valid_block(old(self).frees()[index as int]));
        }
        self.free_blocks.remove(index);
        proof {
            lemma_seq_remove_index(old(self).frees(), index as int);
            assert forall|li: int| !is_live_at(old(self).lives(), b.data, li) by {
                if 0 <= li < old(self).lives().len() {
                    assert(blocks_disjoint(
                        old(self).frees()[index as int],
                        old(self).lives()[li],
                    ));
                }
            }
        }
        if b.size > need + LIST_NODE_MEMORY_SIZE {
            proof {
                assert(b == old(self).frees()[index as int]);
                assert(valid_block(b));
                assert(b.data + need < block_end(b));
            }
            let remainder = MemoryBlock::new(b.data + need, b.size - need);
            self.free_blocks.push(remainder);
            self.live_blocks.push(MemoryBlock::new(b.data, need));
            proof {
                lemma_alloc_wf(*old(self), *self, index as int, need as int, b.data);
            }
        } else {
            self.live_blocks.push(MemoryBlock::new(b.data, b.size));
            proof {
                lemma_alloc_wf(*old(self), *self, index as int, need as int, b.data);
            }
        }
        b.data
    }

    /// Wraps `pages` fresh contiguous frames from the page-frame allocator
    /// as one new free block at the tail of the list.  Returns `false`,
    /// changing nothing, when the frame allocator has no room.
    #[verifier::rlimit(100)]
    #[verifier::spinoff_prover]
    pub fn extend_memory_region(
        &mut self,
        pfa: &mut PageFrameAllocator,
        pages: usize,
    ) -> (grown: bool)
        requires
            old(self).wf(),
            old(pfa).wf(),
            old(self).bounded(old(pfa).start() + PAGE_SIZE, old(pfa).watermark()),
            1 <= pages <= MAX_REQUEST_BYTES,
        ensures
            final(self).wf(),
            final(pfa).wf(),
            final(pfa).start() == old(pfa).start(),
            final(pfa).end() == old(pfa).end(),
            final(self).bounded(final(pfa).start() + PAGE_SIZE, final(pfa).watermark()),
            final(self).lives() == old(self).lives(),
            grown <==> old(pfa).watermark() + pages * PAGE_SIZE <= old(pfa).end(),
            !grown ==> final(self).frees() == old(self).frees() && final(pfa).watermark() == old(
                pfa,
            ).watermark(),
            grown ==> {
                &&& final(pfa).watermark() == old(pfa).watermark() + pages * PAGE_SIZE
                &&& final(self).frees() == old(self).frees().push(
                    MemoryBlock {
                        size: (pages * PAGE_SIZE) as usize,
                        data: (old(pfa).watermark() + LIST_NODE_MEMORY_SIZE) as usize,
                    },
                )
            },
    {
        match pfa.alloc_page_frames(pages) {
            Some(address) => {
                let block = MemoryBlock::new(address + LIST_NODE_MEMORY_SIZE, pages * PAGE_SIZE);
                self.free_blocks.push(block);
                proof {
                    let f0 = old(self).frees();
                    assert(pages * PAGE_SIZE >= PAGE_SIZE) by (nonlinear_arith)
                        requires
                            pages >= 1,
                    ;
                    assert(block.size % 8 == 0) by (nonlinear_arith)
                        requires
                            block.size == pages * PAGE_SIZE,
                    ;
                    assert(valid_block(block));
                    assert forall|i: int, j: int|
                        0 <= i < j < self.frees().len() implies blocks_disjoint(
                        #[trigger] self.frees()[i],
                        #[trigger] self.frees()[j],
                    ) by {
                        if j == self.frees().len() - 1 {
                            assert(block_end(f0[i]) <= old(pfa).watermark());
                        } else {
                            assert(blocks_disjoint(f0[i], f0[j]));
                        }
                    }
                    assert forall|i: int, j: int|
                        0 <= i < self.frees().len() && 0 <= j < self.lives().len()
                        implies blocks_disjoint(
                        #[trigger] self.frees()[i],
                        #[trigger] self.lives()[j],
                    ) by {
                        if i == self.frees().len() - 1 {
                            assert(block_end(old(self).lives()[j]) <= old(pfa).watermark());
                        } else {
                            assert(blocks_disjoint(f0[i], old(self).lives()[j]));
                        }
                    }
                    assert forall|i: int| 0 <= i < self.frees().len() implies valid_block(
                        #[trigger] self.frees()[i],
                    ) by {
                        if i < f0.len() {
                            assert(valid_block(f0[i]));
                        }
                    }
                    assert forall|i: int| 0 <= i < self.frees().len() implies old(pfa).start()
                        + PAGE_SIZE <= block_base(#[trigger] self.frees()[i]) && block_end(
                        self.frees()[i],
                    ) <= pfa.watermark() by {
                        if i < f0.len() {
                            assert(block_base(f0[i]) >= old(pfa).start() + PAGE_SIZE);
                            assert(block_end(f0[i]) <= old(pfa).watermark());
                        }
                    }
                    assert forall|i: int| 0 <= i < self.lives().len() implies old(pfa).start()
                        + PAGE_SIZE <= block_base(#[trigger] self.lives()[i]) && block_end(
                        self.lives()[i],
                    ) <= pfa.watermark() by {
                        assert(block_base(old(self).lives()[i]) >= old(pfa).start() + PAGE_SIZE);
                        assert(block_end(old(self).lives()[i]) <= old(pfa).watermark());
                    }
                }
                true
            }
            None => false,
        }
    }

    /// Allocates `size` bytes and returns the payload address, one header
    /// width past the block's base.  A zero-sized or oversized request is
    /// refused as invalid; when no free block fits, exactly one extension
    /// of the needed frame count is requested from the page-frame
    /// allocator and the new block is used, so exhaustion of physical
    /// memory is the only other failure.
    #[verifier::rlimit(80)]
    #[verifier::spinoff_prover]
    pub fn kmalloc(&mut self, pfa: &mut PageFrameAllocator, size: usize) -> (r: Result<
        usize,
        HeapError,
    >)
        requires
            old(self).wf(),
            old(pfa).wf(),
            old(self).bounded(old(pfa).start() + PAGE_SIZE, old(pfa).watermark()),
        ensures
            final(self).wf(),
            final(pfa).wf(),
            final(pfa).start() == old(pfa).start(),
            final(pfa).end() == old(pfa).end(),
            final(self).bounded(final(pfa).start() + PAGE_SIZE, final(pfa).watermark()),
            r == Err::<usize, HeapError>(HeapError::InvalidRequest) <==> !acceptable_request(
                size as int,
            ),
            !acceptable_request(size as int) ==> final(self).frees() == old(self).frees()
                && final(self).lives() == old(self).lives()
                && final(pfa).watermark() == old(pfa).watermark(),
            acceptable_request(size as int) ==> kmalloc_post(
                old(self).frees(),
                old(self).lives(),
                final(self).frees(),
                final(self).lives(),
                old(pfa).watermark(),
                old(pfa).end(),
                final(pfa).watermark(),
                size as int,
                r,
            ),
            r matches Ok(p) ==> !has_live(old(self).lives(), p) && has_live(
                final(self).lives(),
                p,
            ),
    {
        if size == 0 || size > MAX_REQUEST_BYTES {
            return Err(HeapError::InvalidRequest);
        }
        let need = align(size + LIST_NODE_MEMORY_SIZE);
        match self.find_first_fit(need) {
            Some(index) => {
                let p = self.alloc_from(index, need);
                proof {
                    lemma_live_pushed(old(self).lives(), self.lives(), p);
                    assert(need as int == internal_size(size as int));
                    assert(alloc_transition(
                        old(self).frees(),
                        old(self).lives(),
                        self.frees(),
                        self.lives(),
                        index as int,
                        internal_size(size as int),
                        p,
                    ));
                    lemma_kmalloc_post_fit(
                        old(self).frees(),
                        old(self).lives(),
                        self.frees(),
                        self.lives(),
                        old(pfa).watermark(),
                        old(pfa).end(),
                        size as int,
                        p,
                        index as int,
                    );
                }
                Ok(p)
            }
            None => {
                let pages = get_number_of_pages(round_to_nearest_page(need));
                proof {
                    assert(pages >= 1 && pages <= MAX_REQUEST_BYTES) by (nonlinear_arith)
                        requires
                            pages == round_to_nearest_page_spec(need as int) / (PAGE_SIZE as int),
                            need >= 56,
                            need <= MAX_REQUEST_BYTES + 56,
                            round_to_nearest_page_spec(need as int) >= need,
                            round_to_nearest_page_spec(need as int) < need + PAGE_SIZE,
                            round_to_nearest_page_spec(need as int) % (PAGE_SIZE as int) == 0,
                    ;
                }
                if self.extend_memory_region(pfa, pages) {
                    let index = self.free_blocks.len() - 1;
                    proof {
                        let f1 = self.frees();
                        let f0 = old(self).frees();
                        assert(pages * PAGE_SIZE >= need) by (nonlinear_arith)
                            requires
                                pages == round_to_nearest_page_spec(need as int) / (
                                PAGE_SIZE as int),
                                round_to_nearest_page_spec(need as int) % (PAGE_SIZE as int) == 0,
                                round_to_nearest_page_spec(need as int) >= need,
                        ;
                        assert forall|j: int| 0 <= j < index as int implies (#[trigger] f1[j]).size
                            < need by {
                            assert(f1[j] == f0[j]);
                            assert(!has_fit(f0, need as int));
                            lemma_no_fit_all_small(f0, need as int);
                        }
                        assert(is_first_fit(f1, need as int, index as int));
                    }
                    let ghost nb = MemoryBlock {
                        size: (pages * PAGE_SIZE) as usize,
                        data: (old(pfa).watermark() + LIST_NODE_MEMORY_SIZE) as usize,
                    };
                    let ghost f_ext = self.frees();
                    let p = self.alloc_from(index, need);
                    proof {
                        lemma_live_pushed(old(self).lives(), self.lives(), p);
                        assert(f_ext == old(self).frees().push(nb));
                        assert(need as int == internal_size(size as int));
                        assert(pages as int == round_to_nearest_page_spec(need as int) / (
                        PAGE_SIZE as int));
                        assert(nb == MemoryBlock {
                            size: ((round_to_nearest_page_spec(internal_size(size as int))
                                / PAGE_SIZE as int) * PAGE_SIZE) as usize,
                            data: (old(pfa).watermark() + LIST_NODE_MEMORY_SIZE) as usize,
                        });
                        assert(alloc_transition(
                            old(self).frees().push(nb),
                            old(self).lives(),
                            self.frees(),
                            self.lives(),
                            index as int,
                            internal_size(size as int),
                            p,
                        ));
                        lemma_kmalloc_post_grow(
                            old(self).frees(),
                            old(self).lives(),
                            self.frees(),
                            self.lives(),
                            old(pfa).watermark(),
                            old(pfa).end(),
                            size as int,
                            p,
                            index as int,
                        );
                    }
                    Ok(p)
                } else {
                    proof {
                        assert(kmalloc_post(
                            old(self).frees(),
                            old(self).lives(),
                            self.frees(),
                            self.lives(),
                            old(pfa).watermark(),
                            old(pfa).end(),
                            pfa.watermark(),
                            size as int,
                            Err::<usize, HeapError>(HeapError::OutOfMemory),
                        ));
                    }
                    Err(HeapError::OutOfMemory)
                }
            }
        }
    }

    /// Releases the live block whose payload address is `data_addr`:
    /// zeroes every byte of the block — header and payload — in `mem`,
    /// removes it from the live table, and returns it to the free list,
    /// merging it with any physically adjacent free block.  The
    /// precondition demands a live block, which rules out double and
    /// invalid frees.
    #[verifier::spinoff_prover]
    pub fn kfree(&mut self, mem: &mut PhysicalMemory, data_addr: usize)
        requires
            old(self).wf(),
            has_live(old(self).lives(), data_addr),
            old(self).bounded(old(mem).base_addr(), old(mem).end_addr()),
        ensures
            final(self).wf(),
            final(self).lives() == old(self).lives().remove(
                live_index(old(self).lives(), data_addr),
            ),
            free_transition(
                old(self).frees(),
                final(self).frees(),
                the_live_block(old(self).lives(), data_addr),
            ),
            final(mem).range_zero(
                block_base(the_live_block(old(self).lives(), data_addr)),
                block_end(the_live_block(old(self).lives(), data_addr)),
            ),
            final(mem).agrees_outside(
                old(mem),
                block_base(the_live_block(old(self).lives(), data_addr)),
                block_end(the_live_block(old(self).lives(), data_addr)),
            ),
            forall|lo: int, hi: int|
                #[trigger] old(self).bounded(lo, hi) ==> final(self).bounded(lo, hi),
    {
        let li = self.find_live(data_addr);
        let blk = self.live_blocks[li];
        proof {
            assert(is_live_at(old(self).lives(), data_addr, li as int));
            lemma_live_unique(*old(self), data_addr, li as int);
            assert(blk == the_live_block(old(self).lives(), data_addr));
        }
        proof {
            assert(valid_block(old(self).lives()[li as int]));
        }
        self.live_blocks.remove(li);
        proof {
            let l0 = old(self).lives();
            lemma_seq_remove_index(l0, li as int);
            assert forall|x: int| 0 <= x < self.lives().len() implies valid_block(
                #[trigger] self.lives()[x],
            ) by {
                let ox: int = if x < li as int { x } else { x + 1 };
                assert(self.lives()[x] == l0[ox]);
            }
            assert forall|x: int, y: int| 0 <= x < y < self.lives().len() implies blocks_disjoint(
                #[trigger] self.lives()[x],
                #[trigger] self.lives()[y],
            ) by {
                let ox: int = if x < li as int { x } else { x + 1 };
                let oy: int = if y < li as int { y } else { y + 1 };
                assert(self.lives()[x] == l0[ox]);
                assert(self.lives()[y] == l0[oy]);
                assert(blocks_disjoint(l0[ox], l0[oy]));
            }
            assert forall|x: int, y: int|
                0 <= x < self.frees().len() && 0 <= y < self.lives().len() implies blocks_disjoint(
                #[trigger] self.frees()[x],
                #[trigger] self.lives()[y],
            ) by {
                let oy: int = if y < li as int { y } else { y + 1 };
                assert(self.lives()[y] == l0[oy]);
                assert(self.frees() == old(self).frees());
                assert(0 <= x < old(self).frees().len());
                assert(0 <= oy < old(self).lives().len());
                assert(blocks_disjoint(old(self).frees()[x], old(self).lives()[oy]));
            }
            assert(self.wf());
        }
        mem.zero_range(data_addr - LIST_NODE_MEMORY_SIZE, blk.size);
        let pred = self.find_adjacent_before(blk);
        let succ = self.find_adjacent_after(blk);
        match (pred, succ) {
            (Some(pi), Some(si)) => {
                let merged = MemoryBlock::new(
                    self.free_blocks[pi].data,
                    self.free_blocks[pi].size + blk.size + self.free_blocks[si].size,
                );
                self.free_blocks.set(pi, merged);
                self.free_blocks.remove(si);
                proof {
                    lemma_free_wf(*old(self), *self, li as int, blk, Some(pi as int), Some(
                        si as int,
                    ));
                }
            }
            (Some(pi), None) => {
                let merged = MemoryBlock::new(
                    self.free_blocks[pi].data,
                    self.free_blocks[pi].size + blk.size,
                );
                self.free_blocks.set(pi, merged);
                proof {
                    lemma_free_wf(*old(self), *self, li as int, blk, Some(pi as int), None);
                }
            }
            (None, Some(si)) => {
                let merged = MemoryBlock::new(
                    data_addr,
                    blk.size + self.free_blocks[si].size,
                );
                self.free_blocks.set(si, merged);
                proof {
                    lemma_free_wf(*old(self), *self, li as int, blk, None, Some(si as int));
                }
            }
            (None, None) => {
                self.free_blocks.push(blk);
                proof {
                    lemma_free_wf(*old(self), *self, li as int, blk, None, None);
                }
            }
        }
    }

    /// Scans the live table for the block with payload address
    /// `data_addr`.
    fn find_live(&self, data_addr: usize) -> (li: usize)
        requires
            has_live(self.lives(), data_addr),
        ensures
            is_live_at(self.lives(), data_addr, li as int),
    {
        let mut i: usize = 0;
        while i < self.live_blocks.len()
            invariant
                i <= self.live_blocks.len(),
                has_live(self.lives(), data_addr),
                forall|j: int| 0 <= j < i ==> (#[trigger] self.lives()[j]).data != data_addr,
            decreases self.live_blocks.len() - i,
        {
            if self.live_blocks[i].data == data_addr {
                return i;
            }
            i = i + 1;
        }
        proof {
            let w = choose|k: int| is_live_at(self.lives(), data_addr, k);
            assert(self.lives()[w].data != data_addr);
        }
        0
    }

    /// Index of the free block ending exactly at `blk`'s base, if any.
    fn find_adjacent_before(&self, blk: MemoryBlock) -> (r: Option<usize>)
        requires
            self.wf(),
            valid_block(blk),
        ensures
            match r {
                Some(i) => is_pred_at(self.frees(), blk, i as int),
                None => !exists|i: int| is_pred_at(self.frees(), blk, i),
            },
    {
        let mut i: usize = 0;
        while i < self.free_blocks.len()
            invariant
                i <= self.free_blocks.len(),
                self.wf(),
                valid_block(blk),
                forall|j: int| 0 <= j < i ==> !is_pred_at(self.frees(), blk, j),
            decreases self.free_blocks.len() - i,
        {
            let b = self.free_blocks[i];
            proof {
                assert(valid_block(self.frees()[i as int]));
            }
            if (b.data - LIST_NODE_MEMORY_SIZE) + b.size == blk.data - LIST_NODE_MEMORY_SIZE {
                return Some(i);
            }
            i = i + 1;
        }
        None
    }

    /// Index of the free block starting exactly at `blk`'s end, if any.
    fn find_adjacent_after(&self, blk: MemoryBlock) -> (r: Option<usize>)
        requires
            self.wf(),
            valid_block(blk),
        ensures
            match r {
                Some(i) => is_succ_at(self.frees(), blk, i as int),
                None => !exists|i: int| is_succ_at(self.frees(), blk, i),
            },
    {
        let mut i: usize = 0;
        while i < self.free_blocks.len()
            invariant
                i <= self.free_blocks.len(),
                self.wf(),
                valid_block(blk),
                forall|j: int| 0 <= j < i ==> !is_succ_at(self.frees(), blk, j),
            decreases self.free_blocks.len() - i,
        {
            let b = self.free_blocks[i];
            proof {
                assert(valid_block(self.frees()[i as int]));
            }
            if b.data - LIST_NODE_MEMORY_SIZE == (blk.data - LIST_NODE_MEMORY_SIZE) + blk.size {
                return Some(i);
            }
            i = i + 1;
        }
        None
    }
}

/// No block of a fit-free list is big enough.
proof fn lemma_no_fit_all_small(frees: Seq<MemoryBlock>, need: int)
    requires
        !has_fit(frees, need),
    ensures
        forall|j: int| 0 <= j < frees.len() ==> (#[trigger] frees[j]).size < need,
    decreases frees.len(),
{
    assert forall|j: int| 0 <= j < frees.len() implies (#[trigger] frees[j]).size < need by {
        if frees[j].size >= need {
            lemma_first_fit_exists(frees, need, j);
        }
    }
}

/// If any block fits, a first fit exists.
proof fn lemma_first_fit_exists(frees: Seq<MemoryBlock>, need: int, j: int)
    requires
        0 <= j < frees.len(),
        frees[j].size >= need,
    ensures
        has_fit(frees, need),
    decreases j,
{
    if forall|k: int| 0 <= k < j ==> (#[trigger] frees[k]).size < need {
        assert(is_first_fit(frees, need, j));
    } else {
        let k = choose|k: int| 0 <= k < j && (#[trigger] frees[k]).size >= need;
        lemma_first_fit_exists(frees, need, k);
    }
}

/// A pushed live block is found by `has_live`.
proof fn lemma_live_pushed(l0: Seq<MemoryBlock>, l1: Seq<MemoryBlock>, p: usize)
    requires
        l1.len() == l0.len() + 1,
        l1[l1.len() - 1].data == p,
    ensures
        has_live(l1, p),
{
    assert(is_live_at(l1, p, l1.len() - 1));
}

/// In a well-formed heap at most one live block owns a payload address.
proof fn lemma_live_unique(h: HeapAllocator, d: usize, li: int)
    requires
        h.wf(),
        is_live_at(h.lives(), d, li),
    ensures
        live_index(h.lives(), d) == li,
        the_live_block(h.lives(), d) == h.lives()[li],
{
    let w = live_index(h.lives(), d);
    assert(is_live_at(h.lives(), d, w));
    if w != li {
        let a = if w < li {
            w
        } else {
            li
        };
        let b = if w < li {
            li
        } else {
            w
        };
        assert(blocks_disjoint(h.lives()[a], h.lives()[b]));
        assert(valid_block(h.lives()[a]));
        assert(valid_block(h.lives()[b]));
        assert(false);
    }
}

/// Allocation preserves the heap invariant and all bounds.
proof fn lemma_alloc_wf(h0: HeapAllocator, h1: HeapAllocator, i: int, need: int, p: usize)
    requires
        h0.wf(),
        need > LIST_NODE_MEMORY_SIZE,
        need % 8 == 0,
        alloc_transition(h0.frees(), h0.lives(), h1.frees(), h1.lives(), i, need, p),
    ensures
        h1.wf(),
        forall|lo: int, hi: int| #[trigger] h0.bounded(lo, hi) ==> h1.bounded(lo, hi),
{
    let f0 = h0.frees();
    let l0 = h0.lives();
    let b = f0[i];
    lemma_seq_remove_index(f0, i);
    let nb = MemoryBlock {
        size: if b.size > need + LIST_NODE_MEMORY_SIZE {
            need as usize
        } else {
            b.size
        },
        data: p,
    };
    assert(h1.lives() == l0.push(nb));
    // The new live block lies inside the old free block's range.
    assert(block_base(nb) == block_base(b));
    assert(block_end(nb) <= block_end(b));
    assert(valid_block(nb));
    if b.size > need + LIST_NODE_MEMORY_SIZE {
        let rem = MemoryBlock { size: (b.size - need) as usize, data: (b.data + need) as usize };
        assert(h1.frees() == f0.remove(i).push(rem));
        assert(block_base(rem) == block_base(b) + need);
        assert(block_end(rem) == block_end(b));
        assert(valid_block(rem));
        assert forall|x: int, y: int| 0 <= x < y < h1.frees().len() implies blocks_disjoint(
            #[trigger] h1.frees()[x],
            #[trigger] h1.frees()[y],
        ) by {
            lemma_block_of_removed(f0, i, x);
            lemma_block_of_removed(f0, i, y);
        }
        assert forall|x: int, y: int|
            0 <= x < h1.frees().len() && 0 <= y < h1.lives().len() implies blocks_disjoint(
            #[trigger] h1.frees()[x],
            #[trigger] h1.lives()[y],
        ) by {
            lemma_block_of_removed(f0, i, x);
        }
        assert forall|x: int, y: int| 0 <= x < y < h1.lives().len() implies blocks_disjoint(
            #[trigger] h1.lives()[x],
            #[trigger] h1.lives()[y],
        ) by {}
        assert forall|lo: int, hi: int| #[trigger] h0.bounded(lo, hi) implies h1.bounded(
            lo,
            hi,
        ) by {
            assert forall|x: int| 0 <= x < h1.frees().len() implies lo <= block_base(
                #[trigger] h1.frees()[x],
            ) && block_end(h1.frees()[x]) <= hi by {
                lemma_block_of_removed(f0, i, x);
            }
        }
    } else {
        assert(h1.frees() == f0.remove(i));
        assert forall|x: int, y: int| 0 <= x < y < h1.frees().len() implies blocks_disjoint(
            #[trigger] h1.frees()[x],
            #[trigger] h1.frees()[y],
        ) by {}
        assert forall|lo: int, hi: int| #[trigger] h0.bounded(lo, hi) implies h1.bounded(
            lo,
            hi,
        ) by {
            assert forall|x: int| 0 <= x < h1.frees().len() implies lo <= block_base(
                #[trigger] h1.frees()[x],
            ) && block_end(h1.frees()[x]) <= hi by {}
        }
    }
}

/// Every element of `f0.remove(i)`, and of anything built from it by a
/// push, is either an old element or the pushed one; here: the element at
/// `x` of the removed list is an old element.
proof fn lemma_block_of_removed(f0: Seq<MemoryBlock>, i: int, x: int)
    requires
        0 <= i < f0.len(),
    ensures
        0 <= x < f0.len() - 1 ==> #[trigger] f0.remove(i)[x] == if x < i {
            f0[x]
        } else {
            f0[x + 1]
        },
{
    lemma_seq_remove_index(f0, i);
}

/// Release preserves the heap invariant and all bounds.
proof fn lemma_free_wf(
    h0: HeapAllocator,
    h1: HeapAllocator,
    li: int,
    blk: MemoryBlock,
    pred: Option<int>,
    succ: Option<int>,
)
    requires
        h0.wf(),
        is_live_at(h0.lives(), blk.data, li),
        blk == h0.lives()[li],
        h1.lives() == h0.lives().remove(li),
        match pred {
            Some(pi) => is_pred_at(h0.frees(), blk, pi),
            None => !exists|i: int| is_pred_at(h0.frees(), blk, i),
        },
        match succ {
            Some(si) => is_succ_at(h0.frees(), blk, si),
            None => !exists|i: int| is_succ_at(h0.frees(), blk, i),
        },
        match (pred, succ) {
            (Some(pi), Some(si)) => h1.frees() == h0.frees().update(
                pi,
                MemoryBlock {
                    size: (h0.frees()[pi].size + blk.size + h0.frees()[si].size) as usize,
                    data: h0.frees()[pi].data,
                },
            ).remove(si),
            (Some(pi), None) => h1.frees() == h0.frees().update(
                pi,
                MemoryBlock {
                    size: (h0.frees()[pi].size + blk.size) as usize,
                    data: h0.frees()[pi].data,
                },
            ),
            (None, Some(si)) => h1.frees() == h0.frees().update(
                si,
                MemoryBlock { size: (blk.size + h0.frees()[si].size) as usize, data: blk.data },
            ),
            (None, None) => h1.frees() == h0.frees().push(blk),
        },
    ensures
        h1.wf(),
        free_transition(h0.frees(), h1.frees(), blk),
        forall|lo: int, hi: int| #[trigger] h0.bounded(lo, hi) ==> h1.bounded(lo, hi),
{
    let f0 = h0.frees();
    let l0 = h0.lives();
    lemma_seq_remove_index(l0, li);
    assert(valid_block(blk));
    // The freed block is disjoint from every free block and from every
    // other live block.
    assert forall|k: int| 0 <= k < f0.len() implies blocks_disjoint(f0[k], blk) by {
        assert(blocks_disjoint(#[trigger] f0[k], l0[li]));
    }
    match (pred, succ) {
        (Some(pi), Some(si)) => {
            assert(pi != si);
            let merged = MemoryBlock {
                size: (f0[pi].size + blk.size + f0[si].size) as usize,
                data: f0[pi].data,
            };
            let fu = f0.update(pi, merged);
            assert(block_base(merged) == block_base(f0[pi]));
            assert(block_end(merged) == block_end(f0[si])) by {
                assert(block_end(f0[pi]) == block_base(blk));
                assert(block_base(f0[si]) == block_end(blk));
            }
            assert(valid_block(merged));
            lemma_seq_remove_index(fu, si);
            assert forall|x: int, y: int| 0 <= x < y < h1.frees().len() implies blocks_disjoint(
                #[trigger] h1.frees()[x],
                #[trigger] h1.frees()[y],
            ) by {
                lemma_merged_disjoint(f0, blk, pi, si, merged, x);
                lemma_merged_disjoint(f0, blk, pi, si, merged, y);
            }
            assert forall|x: int, y: int|
                0 <= x < h1.frees().len() && 0 <= y < h1.lives().len() implies blocks_disjoint(
                #[trigger] h1.frees()[x],
                #[trigger] h1.lives()[y],
            ) by {
                lemma_merged_disjoint(f0, blk, pi, si, merged, x);
                let oy = if y < li {
                    y
                } else {
                    y + 1
                };
                assert(h1.lives()[y] == l0[oy]);
                assert(blocks_disjoint(blk, l0[oy]));
            }
            assert forall|x: int| 0 <= x < h1.frees().len() implies valid_block(
                #[trigger] h1.frees()[x],
            ) by {
                lemma_merged_disjoint(f0, blk, pi, si, merged, x);
            }
            assert forall|lo: int, hi: int| #[trigger] h0.bounded(lo, hi) implies h1.bounded(
                lo,
                hi,
            ) by {
                assert(lo <= block_base(l0[li]) && block_end(l0[li]) <= hi);
                assert forall|x: int| 0 <= x < h1.frees().len() implies lo <= block_base(
                    #[trigger] h1.frees()[x],
                ) && block_end(h1.frees()[x]) <= hi by {
                    lemma_merged_disjoint(f0, blk, pi, si, merged, x);
                }
            }
        }
        (Some(pi), None) => {
            let merged = MemoryBlock {
                size: (f0[pi].size + blk.size) as usize,
                data: f0[pi].data,
            };
            assert(block_base(merged) == block_base(f0[pi]));
            assert(block_end(merged) == block_end(blk));
            assert(valid_block(merged));
            assert forall|x: int, y: int| 0 <= x < y < h1.frees().len() implies blocks_disjoint(
                #[trigger] h1.frees()[x],
                #[trigger] h1.frees()[y],
            ) by {}
            assert forall|x: int, y: int|
                0 <= x < h1.frees().len() && 0 <= y < h1.lives().len() implies blocks_disjoint(
                #[trigger] h1.frees()[x],
                #[trigger] h1.lives()[y],
            ) by {
                let oy = if y < li {
                    y
                } else {
                    y + 1
                };
                assert(h1.lives()[y] == l0[oy]);
                assert(blocks_disjoint(blk, l0[oy]));
                assert(blocks_disjoint(f0[x], l0[oy]));
            }
        }
        (None, Some(si)) => {
            let merged = MemoryBlock {
                size: (blk.size + f0[si].size) as usize,
                data: blk.data,
            };
            assert(block_base(merged) == block_base(blk));
            assert(block_end(merged) == block_end(f0[si]));
            assert(valid_block(merged));
            assert forall|x: int, y: int| 0 <= x < y < h1.frees().len() implies blocks_disjoint(
                #[trigger] h1.frees()[x],
                #[trigger] h1.frees()[y],
            ) by {}
            assert forall|x: int, y: int|
                0 <= x < h1.frees().len() && 0 <= y < h1.lives().len() implies blocks_disjoint(
                #[trigger] h1.frees()[x],
                #[trigger] h1.lives()[y],
            ) by {
                let oy = if y < li {
                    y
                } else {
                    y + 1
                };
                assert(h1.lives()[y] == l0[oy]);
                assert(blocks_disjoint(blk, l0[oy]));
                assert(blocks_disjoint(f0[x], l0[oy]));
            }
        }
        (None, None) => {
            assert forall|x: int, y: int| 0 <= x < y < h1.frees().len() implies blocks_disjoint(
                #[trigger] h1.frees()[x],
                #[trigger] h1.frees()[y],
            ) by {}
            assert forall|x: int, y: int|
                0 <= x < h1.frees().len() && 0 <= y < h1.lives().len() implies blocks_disjoint(
                #[trigger] h1.frees()[x],
                #[trigger] h1.lives()[y],
            ) by {
                let oy = if y < li {
                    y
                } else {
                    y + 1
                };
                assert(h1.lives()[y] == l0[oy]);
                assert(blocks_disjoint(blk, l0[oy]));
            }
        }
    }
    assert forall|x: int, y: int| 0 <= x < y < h1.lives().len() implies blocks_disjoint(
        #[trigger] h1.lives()[x],
        #[trigger] h1.lives()[y],
    ) by {
        let ox = if x < li {
            x
        } else {
            x + 1
        };
        let oy = if y < li {
            y
        } else {
            y + 1
        };
        assert(h1.lives()[x] == l0[ox]);
        assert(h1.lives()[y] == l0[oy]);
        assert(blocks_disjoint(l0[ox], l0[oy]));
    }
}

/// The element at `x` of the both-sides-merged free list is either the
/// merged block (covering pred, freed block and succ) or an untouched old
/// block.
proof fn lemma_merged_disjoint(
    f0: Seq<MemoryBlock>,
    blk: MemoryBlock,
    pi: int,
    si: int,
    merged: MemoryBlock,
    x: int,
)
    requires
        0 <= pi < f0.len(),
        0 <= si < f0.len(),
        pi != si,
    ensures
        0 <= x < f0.len() - 1 ==> {
            let fu = f0.update(pi, merged);
            #[trigger] fu.remove(si)[x] == if x < si {
                fu[x]
            } else {
                fu[x + 1]
            }
        },
{
    let fu = f0.update(pi, merged);
    lemma_seq_remove_index(fu, si);
}

/// Rounds `size` up to the next multiple of 8 bytes.
pub fn align(size: usize) -> (r: usize)
    requires
        size + 7 <= usize::MAX,
    ensures
        r == ((size + 7) / 8) * 8,
        r % 8 == 0,
        size <= r < size + 8,
{
    proof {
        vstd::arithmetic::div_mod::lemma_fundamental_div_mod(size as int + 7, 8);
    }
    ((size + 7) / 8) * 8
}


/// Every block of `f` is well shaped and no two overlap.
pub open spec fn frees_wf(f: Seq<MemoryBlock>) -> bool {
    &&& forall|i: int| 0 <= i < f.len() ==> valid_block(#[trigger] f[i])
    &&& forall|i: int, j: int|
        0 <= i < j < f.len() ==> blocks_disjoint(#[trigger] f[i], #[trigger] f[j])
}

/// The block an allocation taking the fit at `i` hands out.
pub open spec fn alloc_block(f0: Seq<MemoryBlock>, i: int, need: int) -> MemoryBlock {
    if f0[i].size > need + LIST_NODE_MEMORY_SIZE {
        MemoryBlock { size: need as usize, data: f0[i].data }
    } else {
        f0[i]
    }
}

/// Heap round trip: allocating, releasing the block at once, and
/// allocating the same size again hands back the same payload pointer.
/// The law holds whenever the taken block was the only one fitting the
/// request and no free block ended exactly at its base: the release then
/// merges the block (and, after a split, its remainder) back in place, and
/// the repeated first-fit scan lands on the same address.  With another
/// fitting block on the list, or a physically adjacent earlier neighbour,
/// the rebuilt block can end up behind a different pointer.
pub proof fn lemma_heap_round_trip(
    f0: Seq<MemoryBlock>,
    l0: Seq<MemoryBlock>,
    f1: Seq<MemoryBlock>,
    l1: Seq<MemoryBlock>,
    i: int,
    size: int,
    p: usize,
    f2: Seq<MemoryBlock>,
    l2: Seq<MemoryBlock>,
    f3: Seq<MemoryBlock>,
    l3: Seq<MemoryBlock>,
    i2: int,
    p2: usize,
)
    requires
        frees_wf(f0),
        acceptable_request(size),
        alloc_transition(f0, l0, f1, l1, i, internal_size(size), p),
        forall|j: int|
            0 <= j < f0.len() && j != i ==> (#[trigger] f0[j]).size < internal_size(size),
        forall|j: int| 0 <= j < f0.len() ==> block_end(#[trigger] f0[j]) != block_base(f0[i]),
        free_transition(f1, f2, alloc_block(f0, i, internal_size(size))),
        alloc_transition(f2, l2, f3, l3, i2, internal_size(size), p2),
    ensures
        p2 == p,
{
    let need = internal_size(size);
    assert(need > LIST_NODE_MEMORY_SIZE) by {
        vstd::arithmetic::div_mod::lemma_fundamental_div_mod(
            size + LIST_NODE_MEMORY_SIZE + 7,
            8,
        );
    }
    lemma_no_pred_after_alloc(f0, f1, i, need);
    if f0[i].size > need + LIST_NODE_MEMORY_SIZE {
        lemma_round_trip_split(f0, f1, i, need, p, f2);
    } else {
        lemma_round_trip_whole(f0, f1, i, need, p, f2);
    }
    assert(is_first_fit(f2, need, i2));
    let w = choose|k: int| is_first_fit(f2, need, k) && f2[k].data == p;
    assert(is_first_fit(f2, need, w) && f2[w].data == p);
    if i2 != w {
        if i2 < w {
            assert(f2[i2].size < need);
        } else {
            assert(f2[w].size >= need);
        }
        assert(false);
    }
}

/// After the allocation no free block ends at the taken block's base.
proof fn lemma_no_pred_after_alloc(f0: Seq<MemoryBlock>, f1: Seq<MemoryBlock>, i: int, need: int)
    requires
        frees_wf(f0),
        0 <= i < f0.len(),
        need > 0,
        forall|j: int| 0 <= j < f0.len() ==> block_end(#[trigger] f0[j]) != block_base(f0[i]),
        f1 == if f0[i].size > need + LIST_NODE_MEMORY_SIZE {
            f0.remove(i).push(
                MemoryBlock {
                    size: (f0[i].size - need) as usize,
                    data: (f0[i].data + need) as usize,
                },
            )
        } else {
            f0.remove(i)
        },
    ensures
        forall|pi: int| !is_pred_at(f1, alloc_block(f0, i, need), pi),
{
    let b = f0[i];
    let blk = alloc_block(f0, i, need);
    assert(valid_block(b));
    assert(block_base(blk) == block_base(b));
    lemma_seq_remove_index(f0, i);
    assert forall|pi: int| !is_pred_at(f1, blk, pi) by {
        if 0 <= pi < f1.len() {
            if b.size > need + LIST_NODE_MEMORY_SIZE && pi == f1.len() - 1 {
                assert(f1[pi].size == b.size - need && f1[pi].data == b.data + need);
                assert(block_end(f1[pi]) == block_end(b));
                assert(block_end(b) != block_base(b));
            } else {
                let oj = if pi < i {
                    pi
                } else {
                    pi + 1
                };
                assert(f1[pi] == f0[oj]);
                assert(block_end(f0[oj]) != block_base(f0[i]));
            }
        }
    }
}

/// Round trip through a split: the release merges the freed block with
/// its remainder, rebuilding the block that was taken, at the tail, the
/// unique fit.
#[verifier::spinoff_prover]
proof fn lemma_round_trip_split(
    f0: Seq<MemoryBlock>,
    f1: Seq<MemoryBlock>,
    i: int,
    need: int,
    p: usize,
    f2: Seq<MemoryBlock>,
)
    requires
        frees_wf(f0),
        0 <= i < f0.len(),
        need > LIST_NODE_MEMORY_SIZE,
        f0[i].size > need + LIST_NODE_MEMORY_SIZE,
        p == f0[i].data,
        forall|j: int| 0 <= j < f0.len() && j != i ==> (#[trigger] f0[j]).size < need,
        f1 == f0.remove(i).push(
            MemoryBlock { size: (f0[i].size - need) as usize, data: (f0[i].data + need) as usize },
        ),
        forall|pi: int| !is_pred_at(f1, alloc_block(f0, i, need), pi),
        free_transition(f1, f2, alloc_block(f0, i, need)),
    ensures
        exists|k: int| #[trigger] is_first_fit(f2, need, k) && f2[k].data == p,
{
    let b = f0[i];
    let blk = alloc_block(f0, i, need);
    assert(valid_block(b));
    lemma_seq_remove_index(f0, i);
    let rem = MemoryBlock { size: (b.size - need) as usize, data: (b.data + need) as usize };
    let ri = f1.len() - 1;
    assert(f1[ri] == rem);
    assert(block_base(rem) == block_base(b) + need == block_end(blk));
    assert(is_succ_at(f1, blk, ri));
    let si = choose|s2: int| is_succ_at(f1, blk, s2);
    assert(is_succ_at(f1, blk, si));
    if si != ri {
        let oj = if si < i {
            si
        } else {
            si + 1
        };
        assert(f1[si] == f0[oj]);
        assert(oj != i);
        if oj < i {
            assert(blocks_disjoint(f0[oj], f0[i]));
        } else {
            assert(blocks_disjoint(f0[i], f0[oj]));
        }
        assert(valid_block(f0[oj]));
        assert(block_base(f0[oj]) == block_end(blk));
        assert(block_end(blk) == block_base(b) + need < block_end(b));
        assert(block_end(f0[oj]) > block_base(b) + need);
        assert(false);
    }
    assert(f2 == f1.update(
        ri,
        MemoryBlock { size: (blk.size + f1[ri].size) as usize, data: blk.data },
    ));
    assert(f2[ri].data == p && f2[ri].size == b.size);
    assert forall|j: int| 0 <= j < ri implies (#[trigger] f2[j]).size < need by {
        let oj = if j < i {
            j
        } else {
            j + 1
        };
        assert(f2[j] == f0[oj]);
    }
    assert(is_first_fit(f2, need, ri) && f2[ri].data == p);
}

/// Round trip without a split: the freed block either merges into its
/// following neighbour, keeping its payload address, or rejoins the tail.
#[verifier::spinoff_prover]
proof fn lemma_round_trip_whole(
    f0: Seq<MemoryBlock>,
    f1: Seq<MemoryBlock>,
    i: int,
    need: int,
    p: usize,
    f2: Seq<MemoryBlock>,
)
    requires
        frees_wf(f0),
        0 <= i < f0.len(),
        need > LIST_NODE_MEMORY_SIZE,
        !(f0[i].size > need + LIST_NODE_MEMORY_SIZE),
        f0[i].size >= need,
        p == f0[i].data,
        forall|j: int| 0 <= j < f0.len() && j != i ==> (#[trigger] f0[j]).size < need,
        f1 == f0.remove(i),
        forall|pi: int| !is_pred_at(f1, alloc_block(f0, i, need), pi),
        free_transition(f1, f2, alloc_block(f0, i, need)),
    ensures
        exists|k: int| #[trigger] is_first_fit(f2, need, k) && f2[k].data == p,
{
    let b = f0[i];
    let blk = alloc_block(f0, i, need);
    assert(blk == b);
    lemma_seq_remove_index(f0, i);
    assert forall|j: int| 0 <= j < f1.len() implies (#[trigger] f1[j]).size < need by {
        let oj = if j < i {
            j
        } else {
            j + 1
        };
        assert(f1[j] == f0[oj]);
    }
    if exists|s2: int| is_succ_at(f1, blk, s2) {
        let si = choose|s2: int| is_succ_at(f1, blk, s2);
        assert(is_succ_at(f1, blk, si));
        assert(f2 == f1.update(
            si,
            MemoryBlock { size: (blk.size + f1[si].size) as usize, data: blk.data },
        ));
        assert(f2[si].data == p && f2[si].size >= need);
        assert forall|j: int| 0 <= j < si implies (#[trigger] f2[j]).size < need by {
            assert(f2[j] == f1[j]);
        }
        assert(is_first_fit(f2, need, si) && f2[si].data == p);
    } else {
        assert(f2 == f1.push(blk));
        let ti = f2.len() - 1;
        assert(f2[ti] == blk && blk.size >= need);
        assert forall|j: int| 0 <= j < ti implies (#[trigger] f2[j]).size < need by {
            assert(f2[j] == f1[j]);
        }
        assert(is_first_fit(f2, need, ti) && f2[ti].data == p);
    }
}

/// Heap non-overlap: in a well-formed heap no two live blocks — and so no
/// two payload ranges handed to callers — overlap, and no live block
/// overlaps a free one.
pub proof fn lemma_heap_non_overlap(h: &HeapAllocator)
    requires
        h.wf(),
    ensures
        forall|i: int, j: int|
            0 <= i < j < h.lives().len() ==> blocks_disjoint(
                #[trigger] h.lives()[i],
                #[trigger] h.lives()[j],
            ),
        forall|i: int, j: int|
            0 <= i < h.frees().len() && 0 <= j < h.lives().len() ==> blocks_disjoint(
                #[trigger] h.frees()[i],
                #[trigger] h.lives()[j],
            ),
{
}

proof fn lemma_alloc_case(
    f0: Seq<MemoryBlock>,
    l0: Seq<MemoryBlock>,
    f1: Seq<MemoryBlock>,
    l1: Seq<MemoryBlock>,
    i: int,
    need: int,
    p: usize,
)
    requires
        alloc_transition(f0, l0, f1, l1, i, need, p),
    ensures
        alloc_case(f0, l0, f1, l1, need, Ok::<usize, HeapError>(p)),
{
    reveal(alloc_case);
    let r = Ok::<usize, HeapError>(p);
    assert(r is Ok);
    let q = r->Ok_0;
    assert(q == p);
    assert(alloc_transition(f0, l0, f1, l1, i, need, q));
    assert(exists|k: int| #[trigger] alloc_transition(f0, l0, f1, l1, k, need, q));
    assert(alloc_case(f0, l0, f1, l1, need, r));
}

} // verus!
