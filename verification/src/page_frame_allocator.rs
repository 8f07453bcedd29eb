//! Page-frame allocator: hands out fixed 4096-byte physical frames.
//!
//! Frames released by callers are kept on a LIFO free stack and reused
//! before the watermark `current_page` is advanced into never-yet-issued
//! memory.  A ghost set of live frames records every frame that has been
//! handed out and not released, so the proofs rule out double hand-outs:
//! an allocated frame is never also on the free stack, and no two live
//! allocations alias.

use vstd::prelude::*;

use crate::mem::{PhysicalMemory, PAGE_SIZE};

verus! {

/// Whether `a` is a frame boundary.
pub open spec fn page_aligned(a: int) -> bool {
    a % (PAGE_SIZE as int) == 0
}

/// Two distinct frame boundaries are at least one frame apart.
proof fn lemma_aligned_step(a: int, b: int)
    requires
        page_aligned(a),
        page_aligned(b),
        a < b,
    ensures
        a + PAGE_SIZE <= b,
{
}

/// A handle naming one physical frame by its page-aligned address.
pub struct PageFrame {
    addr: usize,
}

impl PageFrame {
    /// Wraps a frame address.
    pub fn new(addr: usize) -> (f: Self)
        ensures
            f.addr() == addr,
    {
        PageFrame { addr }
    }

    /// The address this handle names.
    pub closed spec fn addr(&self) -> usize {
        self.addr
    }

    /// Returns the physical address of the frame.
    pub fn get_address(&self) -> (a: usize)
        ensures
            a == self.addr(),
    {
        self.addr
    }
}

/// LIFO stack of released frames, stored by address; the last element is
/// the top of the stack.
pub struct FreeStack {
    frames: Vec<usize>,
}

impl FreeStack {
    /// The stacked frame addresses, bottom first.
    pub closed spec fn view(&self) -> Seq<usize> {
        self.frames@
    }

    /// Creates an empty stack.
    pub fn new() -> (s: Self)
        ensures
            s.view() == Seq::<usize>::empty(),
    {
        FreeStack { frames: Vec::new() }
    }

    /// Empties the stack.
    pub fn initalise(&mut self)
        ensures
            final(self).view() == Seq::<usize>::empty(),
    {
        self.frames.clear();
    }

    /// Whether no frame is stacked.
    pub fn is_empty(&self) -> (r: bool)
        ensures
            r == (self.view().len() == 0),
    {
        self.frames.len() == 0
    }

    /// Number of stacked frames.
    pub fn length(&self) -> (n: usize)
        ensures
            n == self.view().len(),
    {
        self.frames.len()
    }

    /// Pushes `node` on top of the stack.
    pub fn push(&mut self, node: PageFrame)
        ensures
            final(self).view() == old(self).view().push(node.addr()),
    {
        self.frames.push(node.get_address());
    }

    /// Pops the top frame, if any.
    pub fn pop(&mut self) -> (r: Option<PageFrame>)
        ensures
            old(self).view().len() == 0 ==> r is None && final(self).view() == old(self).view(),
            old(self).view().len() > 0 ==> {
                &&& r is Some
                &&& r->Some_0.addr() == old(self).view().last()
                &&& final(self).view() == old(self).view().drop_last()
            },
    {
        match self.frames.pop() {
            Some(addr) => Some(PageFrame::new(addr)),
            None => None,
        }
    }
}

/// Allocator state: the managed range `[memory_start, memory_end)`, the
/// stack of released frames, and the watermark `current_page` below which
/// every frame has been issued at least once.
pub struct PageFrameAllocator {
    memory_start: usize,
    memory_end: usize,
    pub free_page_frames: FreeStack,
    pub current_page: usize,
    live: Ghost<Set<usize>>,
}

impl PageFrameAllocator {
    /// First managed address.
    pub closed spec fn start(&self) -> int {
        self.memory_start as int
    }

    /// One past the last managed address.
    pub closed spec fn end(&self) -> int {
        self.memory_end as int
    }

    /// The watermark: the next never-yet-issued frame address.
    pub closed spec fn watermark(&self) -> int {
        self.current_page as int
    }

    /// Addresses of the frames currently on the free stack.
    pub closed spec fn stack(&self) -> Seq<usize> {
        self.free_page_frames.view()
    }

    /// The frames handed out and not yet released.
    pub closed spec fn live(&self) -> Set<usize> {
        self.live@
    }

    /// Number of frames that can still be handed out: the stacked ones
    /// plus the never-issued ones below `memory_end`.
    pub open spec fn available(&self) -> int {
        self.stack().len() + (self.end() - self.watermark()) / (PAGE_SIZE as int)
    }

    /// Whether `a` is a frame the allocator may ever hand out: page
    /// aligned, past the reserved header frame, below the watermark.
    pub open spec fn issuable(&self, a: int) -> bool {
        &&& page_aligned(a)
        &&& self.start() + PAGE_SIZE <= a
        &&& a + PAGE_SIZE <= self.watermark()
    }

    /// Allocator invariant.  The header frame at `memory_start` is
    /// reserved; every stacked or live frame was issued below the
    /// watermark; stacked frames are mutually distinct and never live.
    pub open spec fn wf(&self) -> bool {
        &&& 0 <= self.start()
        &&& page_aligned(self.start())
        &&& page_aligned(self.end())
        &&& page_aligned(self.watermark())
        &&& self.start() + PAGE_SIZE <= self.watermark() <= self.end()
        &&& self.end() <= usize::MAX as int
        &&& forall|i: int| 0 <= i < self.stack().len() ==> self.issuable(#[trigger] self.stack()[i] as int)
        &&& forall|i: int, j: int|
            0 <= i < j < self.stack().len() ==> self.stack()[i] != self.stack()[j]
        &&& forall|a: usize| #[trigger] self.live().contains(a) ==> self.issuable(a as int)
        &&& forall|i: int|
            0 <= i < self.stack().len() ==> !self.live().contains(#[trigger] self.stack()[i])
    }

    /// Creates an allocator with no managed memory; [`Self::init`] must be
    /// called before any allocation.
    pub fn new() -> (pfa: Self)
        ensures
            pfa.start() == 0,
            pfa.end() == 0,
            pfa.watermark() == 0,
            pfa.stack().len() == 0,
            pfa.live() == Set::<usize>::empty(),
    {
        PageFrameAllocator {
            memory_start: 0,
            memory_end: 0,
            free_page_frames: FreeStack::new(),
            current_page: 0,
            live: Ghost(Set::empty()),
        }
    }

    /// Adopts the managed range `[start, end)`, rounding `start` up and
    /// `end` down to frame boundaries.  The first frame holds the free
    /// stack's header and is never handed out; the watermark starts just
    /// past it.  A degenerate region (no full frame between the rounded
    /// bounds) is ruled out by the precondition: such a range is a boot
    /// error with nothing to manage.
    pub fn init(&mut self, start: usize, end: usize)
        requires
            start + PAGE_SIZE <= usize::MAX,
            // At least one frame remains after rounding.
            round_to_nearest_page_spec(start as int) + PAGE_SIZE <= (end as int / PAGE_SIZE as int) * (PAGE_SIZE as int),
        ensures
            final(self).wf(),
            final(self).start() == round_to_nearest_page_spec(start as int),
            final(self).end() == (end as int / PAGE_SIZE as int) * (PAGE_SIZE as int),
            final(self).watermark() == final(self).start() + PAGE_SIZE,
            final(self).stack().len() == 0,
            final(self).live() == Set::<usize>::empty(),
    {
        let s = round_to_nearest_page(start);
        let e = (end / PAGE_SIZE) * PAGE_SIZE;
        self.memory_start = s;
        self.memory_end = e;
        self.free_page_frames.initalise();
        self.current_page = s + PAGE_SIZE;
        self.live = Ghost(Set::empty());
    }

    /// Hands out one frame: the top of the free stack when one is
    /// available, otherwise the watermark frame.  Returns `None` exactly
    /// when the stack is empty and the managed range is exhausted.  The
    /// returned frame is never a frame that is still live and never stays
    /// reachable from the free stack (frame uniqueness).
    pub fn alloc_page_frame(&mut self) -> (r: Option<usize>)
        requires
            old(self).wf(),
        ensures
            final(self).wf(),
            final(self).start() == old(self).start(),
            final(self).end() == old(self).end(),
            r is None <==> old(self).stack().len() == 0 && old(self).watermark() == old(self).end(),
            r is None ==> final(self).stack() == old(self).stack()
                && final(self).live() == old(self).live()
                && final(self).watermark() == old(self).watermark(),
            r matches Some(addr) ==> {
                &&& !old(self).live().contains(addr)
                &&& final(self).live() == old(self).live().insert(addr)
                &&& final(self).issuable(addr as int)
                &&& forall|i: int|
                    0 <= i < final(self).stack().len() ==> final(self).stack()[i] != addr
                &&& if old(self).stack().len() > 0 {
                    &&& addr == old(self).stack().last()
                    &&& final(self).stack() == old(self).stack().drop_last()
                    &&& final(self).watermark() == old(self).watermark()
                } else {
                    &&& addr == old(self).watermark()
                    &&& final(self).stack() == old(self).stack()
                    &&& final(self).watermark() == old(self).watermark() + PAGE_SIZE
                }
            },
    {
        match self.free_page_frames.pop() {
            Some(frame) => {
                let addr = frame.get_address();
                proof {
                    let os = old(self).stack();
                    assert(addr == os[os.len() - 1]);
                    assert(old(self).issuable(os[os.len() - 1] as int));
                    assert(!old(self).live().contains(os[os.len() - 1]));
                    assert forall|i: int| 0 <= i < self.stack().len() implies #[trigger] self.stack()[i]
                        != addr by {
                        assert(self.stack()[i] == os[i]);
                        assert(os[i] != os[os.len() - 1]);
                    }
                    self.live@ = self.live@.insert(addr);
                    assert forall|a: usize| #[trigger] self.live@.contains(a) implies self.issuable(
                        a as int,
                    ) by {
                        if a == addr {
                            assert(old(self).issuable(addr as int));
                        } else {
                            assert(old(self).live().contains(a));
                            assert(old(self).issuable(a as int));
                        }
                    }
                }
                Some(addr)
            }
            None => {
                if self.current_page < self.memory_end {
                    proof {
                        lemma_aligned_step(self.current_page as int, self.memory_end as int);
                    }
                    let addr = self.current_page;
                    self.current_page = self.current_page + PAGE_SIZE;
                    proof {
                        self.live@ = self.live@.insert(addr);
                        assert forall|a: usize| #[trigger] self.live@.contains(a) implies self
                            .issuable(a as int) by {
                            if a != addr {
                                assert(old(self).live().contains(a));
                                assert(old(self).issuable(a as int));
                            }
                        }
                    }
                    Some(addr)
                } else {
                    proof {
                        assert forall|a: usize| #[trigger] self.live@.contains(a) implies self
                            .issuable(a as int) by {
                            assert(old(self).live().contains(a));
                            assert(old(self).issuable(a as int));
                        }
                    }
                    None
                }
            }
        }
    }

    /// Releases a live frame: zeroes all of its 4096 bytes in `mem` (so no
    /// stale data can leak to the next owner) and pushes it on the free
    /// stack.  The precondition demands a currently live frame, which
    /// rules out double and invalid frees.
    pub fn free_page_frame(&mut self, mem: &mut PhysicalMemory, frame_address: usize)
        requires
            old(self).wf(),
            old(self).live().contains(frame_address),
            old(mem).contains_range(frame_address as int, frame_address as int + PAGE_SIZE),
        ensures
            final(self).wf(),
            final(self).start() == old(self).start(),
            final(self).end() == old(self).end(),
            final(self).watermark() == old(self).watermark(),
            final(self).stack() == old(self).stack().push(frame_address),
            final(self).live() == old(self).live().remove(frame_address),
            final(mem).range_zero(frame_address as int, frame_address as int + PAGE_SIZE),
            final(mem).agrees_outside(
                old(mem),
                frame_address as int,
                frame_address as int + PAGE_SIZE,
            ),
    {
        proof {
            assert(old(self).live().contains(frame_address));
            assert(self.issuable(frame_address as int));
        }
        mem.zero_range(frame_address, PAGE_SIZE);
        proof {
            self.live@ = self.live@.remove(frame_address);
        }
        self.free_page_frames.push(PageFrame::new(frame_address));
        proof {
            let s = self.stack();
            let os = old(self).stack();
            assert(forall|i: int| 0 <= i < os.len() ==> s[i] == #[trigger] os[i]);
            assert(s[s.len() - 1] == frame_address);
            assert forall|i: int, j: int| 0 <= i < j < s.len() implies s[i] != s[j] by {
                if j < s.len() - 1 {
                    assert(os[i] != os[j]);
                } else {
                    assert(!old(self).live().contains(os[i]));
                }
            }
            assert forall|i: int| 0 <= i < s.len() implies !self.live@.contains(
                #[trigger] s[i],
            ) by {
                if i < s.len() - 1 {
                    assert(!old(self).live().contains(os[i]));
                }
            }
        }
    }

    /// Hands out `pages_required` contiguous never-yet-issued frames by
    /// advancing the watermark; the free stack is not consulted, so
    /// released single frames are never reused here — a deliberate,
    /// documented limitation of range allocation.  Returns `None` exactly
    /// when the request does not fit below `memory_end`.
    pub fn alloc_page_frames(&mut self, pages_required: usize) -> (r: Option<usize>)
        requires
            old(self).wf(),
            pages_required >= 1,
        ensures
            final(self).wf(),
            final(self).start() == old(self).start(),
            final(self).end() == old(self).end(),
            final(self).stack() == old(self).stack(),
            r is None <==> old(self).watermark() + pages_required * PAGE_SIZE > old(self).end(),
            r is None ==> final(self).live() == old(self).live()
                && final(self).watermark() == old(self).watermark(),
            r matches Some(addr) ==> {
                &&& addr == old(self).watermark()
                &&& final(self).watermark() == old(self).watermark() + pages_required * PAGE_SIZE
                &&& forall|i: int|
                    0 <= i < pages_required ==> !(#[trigger] old(self).live().contains(
                        (addr + i * PAGE_SIZE) as usize,
                    ))
                &&& final(self).live() == old(self).live().union(
                    contiguous_frames(addr as int, pages_required as nat),
                )
                &&& forall|i: int|
                    0 <= i < pages_required ==> #[trigger] final(self).live().contains(
                        (addr + i * PAGE_SIZE) as usize,
                    )
            },
    {
        let ghost pd = self.memory_end as int - self.current_page as int;
        let room = (self.memory_end - self.current_page) / PAGE_SIZE;
        proof {
            assert(pd % (PAGE_SIZE as int) == 0) by (nonlinear_arith)
                requires
                    self.memory_end as int % (PAGE_SIZE as int) == 0,
                    self.current_page as int % (PAGE_SIZE as int) == 0,
                    pd == self.memory_end as int - self.current_page as int,
            ;
            assert(room as int * PAGE_SIZE == pd) by (nonlinear_arith)
                requires
                    pd % (PAGE_SIZE as int) == 0,
                    pd >= 0,
                    room as int == pd / (PAGE_SIZE as int),
            ;
        }
        if pages_required > room {
            proof {
                assert(pages_required as int * PAGE_SIZE > pd) by (nonlinear_arith)
                    requires
                        pages_required as int > room as int,
                        room as int * PAGE_SIZE == pd,
                ;
            }
            return None;
        }
        proof {
            assert(pages_required as int * PAGE_SIZE <= pd) by (nonlinear_arith)
                requires
                    1 <= pages_required as int <= room as int,
                    room as int * PAGE_SIZE == pd,
            ;
        }
        let address = self.current_page;
        self.current_page = self.current_page + pages_required * PAGE_SIZE;
        proof {
            assert(self.current_page as int % (PAGE_SIZE as int) == 0) by (nonlinear_arith)
                requires
                    address as int % (PAGE_SIZE as int) == 0,
                    self.current_page as int == address as int + pages_required as int * PAGE_SIZE,
            ;
            self.live@ = self.live@.union(
                contiguous_frames(address as int, pages_required as nat),
            );
            lemma_contiguous_frames(address as int, pages_required as nat);
            let fresh = contiguous_frames(address as int, pages_required as nat);
            assert forall|i: int| 0 <= i < pages_required implies #[trigger] self.live@.contains(
                (address + i * PAGE_SIZE) as usize,
            ) by {
                assert(fresh.contains((address as int + i * PAGE_SIZE) as usize));
            }
            assert forall|i: int| 0 <= i < pages_required implies !(
            #[trigger] old(self).live().contains((address + i * PAGE_SIZE) as usize)) by {
                let a = (address + i * PAGE_SIZE) as usize;
                if old(self).live().contains(a) {
                    assert(old(self).issuable(a as int));
                }
            }
            assert forall|a: usize| self.live@.contains(a) implies self.issuable(a as int) by {
                if fresh.contains(a) {
                    assert(page_aligned(a as int));
                } else {
                    assert(old(self).live().contains(a));
                    assert(old(self).issuable(a as int));
                }
            }
            assert forall|i: int| 0 <= i < self.stack().len() implies !self.live@.contains(
                #[trigger] self.stack()[i],
            ) by {
                assert(self.stack() == old(self).stack());
                let a = old(self).stack()[i];
                assert(old(self).issuable(a as int));
                assert(!old(self).live().contains(a));
                if fresh.contains(a) {
                    assert(address as int <= a as int);
                }
            }
        }
        Some(address)
    }

    /// Releases `pages_required` frames one by one, starting at
    /// `frame_address`; each goes through the zero-and-push path of
    /// [`Self::free_page_frame`].
    pub fn free_page_frames(
        &mut self,
        mem: &mut PhysicalMemory,
        frame_address: usize,
        pages_required: usize,
    )
        requires
            old(self).wf(),
            frame_address + pages_required * PAGE_SIZE <= usize::MAX,
            forall|i: int|
                0 <= i < pages_required ==> #[trigger] old(self).live().contains(
                    (frame_address + i * PAGE_SIZE) as usize,
                ),
            old(mem).contains_range(
                frame_address as int,
                frame_address as int + pages_required * PAGE_SIZE,
            ),
        ensures
            final(self).wf(),
            final(self).start() == old(self).start(),
            final(self).end() == old(self).end(),
            final(self).watermark() == old(self).watermark(),
            final(mem).range_zero(
                frame_address as int,
                frame_address as int + pages_required * PAGE_SIZE,
            ),
            final(mem).agrees_outside(
                old(mem),
                frame_address as int,
                frame_address as int + pages_required * PAGE_SIZE,
            ),
            final(self).stack().len() == old(self).stack().len() + pages_required,
    {
        let mut i: usize = 0;
        while i < pages_required
            invariant
                self.wf(),
                i <= pages_required,
                frame_address + pages_required * PAGE_SIZE <= usize::MAX,
                self.start() == old(self).start(),
                self.end() == old(self).end(),
                self.watermark() == old(self).watermark(),
                forall|k: int|
                    i <= k < pages_required ==> #[trigger] self.live().contains(
                        (frame_address + k * PAGE_SIZE) as usize,
                    ),
                mem.contains_range(
                    frame_address as int,
                    frame_address as int + pages_required * PAGE_SIZE,
                ),
                mem.range_zero(frame_address as int, frame_address as int + i * PAGE_SIZE),
                mem.agrees_outside(
                    old(mem),
                    frame_address as int,
                    frame_address as int + pages_required * PAGE_SIZE,
                ),
                self.stack().len() == old(self).stack().len() + i,
            decreases pages_required - i,
        {
            self.free_page_frame(mem, frame_address + i * PAGE_SIZE);
            i = i + 1;
        }
    }
}

/// Advancing the watermark by one frame lowers the number of never-issued
/// frames by exactly one.
pub proof fn lemma_available_step(wm: int, end: int)
    requires
        page_aligned(wm),
        page_aligned(end),
        wm + PAGE_SIZE <= end,
    ensures
        (end - (wm + PAGE_SIZE)) / (PAGE_SIZE as int) == (end - wm) / (PAGE_SIZE as int) - 1,
        (end - wm) / (PAGE_SIZE as int) >= 1,
{
    let p = PAGE_SIZE as int;
    let d = end - wm;
    assert(d % p == 0) by (nonlinear_arith)
        requires
            wm % p == 0,
            end % p == 0,
            d == end - wm,
            p == 4096,
    ;
    assert((d - p) / p == d / p - 1 && d / p >= 1) by (nonlinear_arith)
        requires
            d % p == 0,
            d >= p,
            p == 4096,
    ;
}

/// An exhausted watermark means no never-issued frame remains.
pub proof fn lemma_available_empty(wm: int, end: int)
    requires
        page_aligned(wm),
        page_aligned(end),
        wm <= end,
    ensures
        wm == end ==> (end - wm) / (PAGE_SIZE as int) == 0,
        wm < end ==> (end - wm) / (PAGE_SIZE as int) >= 1,
{
    let p = PAGE_SIZE as int;
    let d = end - wm;
    assert(d % p == 0) by (nonlinear_arith)
        requires
            wm % p == 0,
            end % p == 0,
            d == end - wm,
            p == 4096,
    ;
    if wm < end {
        assert(d / p >= 1) by (nonlinear_arith)
            requires
                d % p == 0,
                d >= 1,
                p == 4096,
        ;
    }
}

/// The set of `n` frame addresses starting at `start`.
pub open spec fn contiguous_frames(start: int, n: nat) -> Set<usize>
    decreases n,
{
    if n == 0 {
        Set::empty()
    } else {
        contiguous_frames(start, (n - 1) as nat).insert((start + (n - 1) * PAGE_SIZE) as usize)
    }
}

/// `contiguous_frames` holds exactly the addresses `start + i * PAGE_SIZE`.
proof fn lemma_contiguous_frames(start: int, n: nat)
    requires
        0 <= start,
        page_aligned(start),
        start + n * PAGE_SIZE <= usize::MAX,
    ensures
        forall|i: int|
            0 <= i < n ==> #[trigger] contiguous_frames(start, n).contains(
                (start + i * PAGE_SIZE) as usize,
            ),
        forall|a: usize|
            #[trigger] contiguous_frames(start, n).contains(a) ==> page_aligned(a as int)
                && start <= a && a + PAGE_SIZE <= start + n * PAGE_SIZE,
    decreases n,
{
    if n > 0 {
        lemma_contiguous_frames(start, (n - 1) as nat);
        let top = start + (n - 1) * PAGE_SIZE;
        assert(top % (PAGE_SIZE as int) == 0) by (nonlinear_arith)
            requires
                start % (PAGE_SIZE as int) == 0,
                top == start + (n - 1) * PAGE_SIZE,
        ;
        assert(contiguous_frames(start, n) == contiguous_frames(start, (n - 1) as nat).insert(
            top as usize,
        ));
        assert(forall|a: usize|
            #[trigger] contiguous_frames(start, n).contains(a) ==> page_aligned(a as int)
                && start <= a && a + PAGE_SIZE <= start + n * PAGE_SIZE);
    }
}

/// What rounding a byte count up to the next frame boundary yields.
pub open spec fn round_to_nearest_page_spec(size: int) -> int {
    ((size + PAGE_SIZE - 1) / PAGE_SIZE as int) * PAGE_SIZE as int
}

/// Rounds `size` up to the next multiple of the frame size.
pub fn round_to_nearest_page(size: usize) -> (r: usize)
    requires
        size + PAGE_SIZE <= usize::MAX,
    ensures
        r == round_to_nearest_page_spec(size as int),
        page_aligned(r as int),
        size <= r < size + PAGE_SIZE,
{
    proof {
        vstd::arithmetic::div_mod::lemma_fundamental_div_mod(
            size as int + PAGE_SIZE - 1,
            PAGE_SIZE as int,
        );
    }
    ((size + PAGE_SIZE - 1) / PAGE_SIZE) * PAGE_SIZE
}

/// Number of frames needed to cover `size` bytes: the count rounded up,
/// so a single byte already takes one frame.
pub fn get_number_of_pages(size: usize) -> (n: usize)
    requires
        size + PAGE_SIZE - 1 <= usize::MAX,
    ensures
        n == (size + PAGE_SIZE - 1) as int / PAGE_SIZE as int,
{
    (size + (PAGE_SIZE - 1)) / PAGE_SIZE
}

/// Frame uniqueness: in a well-formed allocator the free stack never
/// holds the same frame twice, and no frame on the free stack is live
/// (handed out and unreleased).  Together with the postcondition of
/// [`PageFrameAllocator::alloc_page_frame`] — the returned frame is not
/// live and not reachable from the stack — no two live allocations can
/// ever alias.
pub proof fn lemma_frame_uniqueness(pfa: &PageFrameAllocator)
    requires
        pfa.wf(),
    ensures
        forall|i: int, j: int|
            0 <= i < j < pfa.stack().len() ==> pfa.stack()[i] != pfa.stack()[j],
        forall|i: int| 0 <= i < pfa.stack().len() ==> !pfa.live().contains(#[trigger] pfa.stack()[i]),
{
}

} // verus!
