//! Simple page frame allocator.
//!
//! A `Frame` names a physical page that a virtual page may be mapped to. The
//! allocator carves frames, one at a time, out of the largest usable region of
//! the boot memory map. Frames are never reused: a cursor moves forward through
//! the window and each frame is issued at most once. Frames that overlap a
//! protected region (the kernel image, the boot information) are skipped.
use vstd::prelude::*;

use crate::multiboot::MMapEntry;

verus! {

/// The size in bytes of a normal page
pub const PAGE_SIZE: u64 = 4096;

/// The first and the last byte of a region
pub type MemRegion = (u64, u64);

/// Regions of physical memory which cannot be allocated
///
/// This reserves the physical memory of the kernel image and of the
/// multiboot information structure.
pub type ProtectedRegions = [MemRegion; 2];

/// Why the allocator could not be created.
#[derive(Clone, Copy, Debug, PartialEq, Eq, Structural)]
pub enum InitError {
    /// The memory map holds no free region.
    NoUsableMemory,
}

/// Why no frame could be handed out.
#[derive(Clone, Copy, Debug, PartialEq, Eq, Structural)]
pub enum AllocError {
    /// Every page of the window has been examined.
    OutOfMemory,
}

/// A unique reference to a physical memory page.
#[derive(Debug, PartialEq, Eq, Structural, PartialOrd, Ord)]
pub struct Frame {
    index: u64,
}

/// The largest page index whose address fits in 64 bits.
pub const MAX_FRAME_INDEX: u64 = 0xf_ffff_ffff_ffff;

impl Frame {
    #[verifier::type_invariant]
    spec fn addressable(self) -> bool {
        self.index <= MAX_FRAME_INDEX
    }

    /// The page number of this frame.
    pub closed spec fn index(&self) -> int {
        self.index as int
    }

    /// The page number of this frame.
    pub fn page_index(&self) -> (r: u64)
        ensures
            r == self.index(),
            r <= MAX_FRAME_INDEX,
    {
        proof {
            use_type_invariant(self);
        }
        self.index
    }

    /// Get address to the start of this frame
    pub fn addr(&self) -> (r: u64)
        ensures
            r == self.index() * PAGE_SIZE,
    {
        proof {
            use_type_invariant(self);
        }
        self.index * PAGE_SIZE
    }

    /// Get the Frame containing this address
    pub fn containing(addr: u64) -> (r: Frame)
        ensures
            r.index() == addr / PAGE_SIZE,
    {
        Frame { index: addr / PAGE_SIZE }
    }

    /// Round up to the next Frame if necessary
    ///
    /// A region that starts in the middle of a frame is only of use from the
    /// first whole frame after it.
    pub fn after(addr: u64) -> (r: Frame)
        requires
            addr <= u64::MAX - (PAGE_SIZE - 1),
        ensures
            r.index() == round_up_index(addr as int),
    {
        let rounded = addr + (PAGE_SIZE - 1);
        Frame { index: rounded / PAGE_SIZE }
    }
}

/// The number of the first page that starts at or after `addr`.
pub open spec fn round_up_index(addr: int) -> int {
    (addr + PAGE_SIZE - 1) / PAGE_SIZE as int
}

/// A simplistic frame allocator that provides access to a supply of
/// unique frames.
///
/// No frame it provides overlaps one of its protected regions.
pub struct FrameAllocator {
    start: u64,
    end: u64,
    protected_regions: ProtectedRegions,
}

/// The memory-map index of the region an allocator is built over: the free
/// region of the largest size, the last one among equals; -1 when there is no
/// free region.
pub open spec fn largest_free(regions: Seq<MMapEntry>) -> int
    decreases regions.len(),
{
    if regions.len() == 0 {
        -1
    } else {
        let best = largest_free(regions.drop_last());
        let last = regions.last();
        if last.ty == crate::multiboot::MMapEntryType::Free && (best < 0 || regions[best].length
            <= last.length) {
            regions.len() - 1
        } else {
            best
        }
    }
}

/// Page `idx` overlaps one of the inclusive byte ranges `protected`.
pub open spec fn page_blocked(protected: Seq<MemRegion>, idx: int) -> bool {
    exists|r: int|
        0 <= r < protected.len() && #[trigger] protected[r].0 as int / PAGE_SIZE as int <= idx
            <= protected[r].1 as int / PAGE_SIZE as int
}

/// The first page from `idx` on, below `limit`, that `protected` does not block;
/// the first page at or past `limit` when there is none.
pub open spec fn first_unblocked(protected: Seq<MemRegion>, limit: int, idx: int) -> int
    decreases limit - idx,
{
    if idx >= limit {
        idx
    } else if page_blocked(protected, idx) {
        first_unblocked(protected, limit, idx + 1)
    } else {
        idx
    }
}

/// How many pages from `idx` on, below `limit`, `protected` does not block.
pub open spec fn free_count(protected: Seq<MemRegion>, limit: int, idx: int) -> nat
    decreases limit - idx,
{
    if idx >= limit {
        0
    } else {
        (if page_blocked(protected, idx) {
            0nat
        } else {
            1nat
        }) + free_count(protected, limit, idx + 1)
    }
}

/// The page number one past the window of a region: the window ends at the page
/// holding the region's last byte, which is not handed out. An empty region
/// gives an empty window.
pub open spec fn window_limit(e: MMapEntry) -> int {
    if e.length == 0 {
        e.base_addr as int / PAGE_SIZE as int
    } else {
        (e.base_addr + e.length - 1) / PAGE_SIZE as int
    }
}

impl FrameAllocator {
    #[verifier::type_invariant]
    spec fn aligned(self) -> bool {
        &&& self.start % PAGE_SIZE == 0
        &&& self.end % PAGE_SIZE == 0
    }

    /// The page the cursor stands on: the next one to examine.
    pub closed spec fn next_index(&self) -> int {
        self.start as int / PAGE_SIZE as int
    }

    /// The page number one past the window.
    pub closed spec fn limit_index(&self) -> int {
        self.end as int / PAGE_SIZE as int
    }

    /// The protected regions, as given at creation.
    pub closed spec fn protected(&self) -> Seq<MemRegion> {
        self.protected_regions@
    }

    /// The cursor and the limit are page numbers, so never negative.
    pub proof fn lemma_indices_nonnegative(&self)
        ensures
            self.next_index() >= 0,
            self.limit_index() >= 0,
    {
    }

    /// Page `idx` overlaps a protected region.
    pub open spec fn blocked(&self, idx: int) -> bool {
        page_blocked(self.protected(), idx)
    }

    /// The first page at or after `idx` that is not protected, or the first
    /// page at or past the limit when there is none.
    pub open spec fn first_free(&self, idx: int) -> int {
        first_unblocked(self.protected(), self.limit_index(), idx)
    }

    /// How many frames the allocator can still hand out.
    pub open spec fn available(&self) -> nat {
        free_count(self.protected(), self.limit_index(), self.next_index())
    }

    /// One call of `allocate` from `pre` leaves `post`, handing out the page
    /// `got`, or none.
    pub open spec fn alloc_outcome(pre: FrameAllocator, got: Option<int>, post: FrameAllocator) -> bool {
        let k = pre.first_free(pre.next_index());
        &&& post.limit_index() == pre.limit_index()
        &&& post.protected() == pre.protected()
        &&& match got {
            Some(idx) => {
                &&& k < pre.limit_index()
                &&& idx == k
                &&& post.next_index() == k + 1
            },
            None => {
                &&& k >= pre.limit_index()
                &&& post.next_index() == k
            },
        }
    }

    /// What one call of `allocate` does: from `pre` it returns `r` and leaves `post`.
    pub open spec fn alloc_step(
        pre: FrameAllocator,
        r: Result<Frame, AllocError>,
        post: FrameAllocator,
    ) -> bool {
        match r {
            Ok(f) => FrameAllocator::alloc_outcome(pre, Some(f.index()), post),
            Err(e) => e == AllocError::OutOfMemory && FrameAllocator::alloc_outcome(pre, None, post),
        }
    }

    /// Creates an allocator over the largest free region of `mem_regions`.
    ///
    /// The window runs from the first page at or after the region's start up
    /// to the page holding its last byte, which is excluded.
    pub fn new(mem_regions: &[MMapEntry], protected_regions: ProtectedRegions) -> (r: Result<
        FrameAllocator,
        InitError,
    >)
        requires
            forall|i: int| 0 <= i < mem_regions@.len() ==> #[trigger] mem_regions@[i].in_address_space(),
        ensures
            largest_free(mem_regions@) < 0 <==> r == Err::<FrameAllocator, InitError>(
                InitError::NoUsableMemory,
            ),
            match r {
                Ok(a) => {
                    let e = mem_regions@[largest_free(mem_regions@)];
                    &&& a.next_index() == round_up_index(e.base_addr as int)
                    &&& a.limit_index() == window_limit(e)
                    &&& a.protected() == protected_regions@
                },
                Err(_) => true,
            },
    {
        let mut best: Option<usize> = None;
        let mut i: usize = 0;
        while i < mem_regions.len()
            invariant
                i <= mem_regions@.len(),
                match best {
                    Some(b) => b as int == largest_free(mem_regions@.subrange(0, i as int)),
                    None => largest_free(mem_regions@.subrange(0, i as int)) < 0,
                },
            decreases mem_regions@.len() - i,
        {
            proof {
                let s = mem_regions@.subrange(0, i as int + 1);
                assert(s.drop_last() =~= mem_regions@.subrange(0, i as int));
                lemma_largest_free_bounds(mem_regions@.subrange(0, i as int));
            }
            let r = &mem_regions[i];
            if r.is_free() {
                match best {
                    Some(b) => {
                        if mem_regions[b].size() <= r.size() {
                            best = Some(i);
                        }
                    },
                    None => {
                        best = Some(i);
                    },
                }
            }
            i = i + 1;
        }
        assert(mem_regions@.subrange(0, mem_regions@.len() as int) =~= mem_regions@);
        match best {
            None => Err(InitError::NoUsableMemory),
            Some(b) => {
                proof {
                    lemma_largest_free_bounds(mem_regions@);
                }
                let region = &mem_regions[b];
                assert(region.in_address_space());
                let base = region.start();
                let last = if region.size() == 0 {
                    base
                } else {
                    region.end()
                };
                let first = Frame::after(base);
                let limit = Frame::containing(last);
                let allocator = FrameAllocator {
                    start: first.addr(),
                    end: limit.addr(),
                    protected_regions: protected_regions,
                };
                proof {
                    lemma_page_address_index(limit.index());
                }
                Ok(allocator)
            },
        }
    }

    /// Page `index` overlaps one of the protected regions.
    fn is_protected(&self, index: u64) -> (r: bool)
        ensures
            r == self.blocked(index as int),
    {
        let mut i: usize = 0;
        while i < 2
            invariant
                i <= 2,
                self.protected().len() == 2,
                forall|j: int|
                    0 <= j < i ==> !(#[trigger] self.protected()[j].0 as int / PAGE_SIZE as int <= index
                        <= self.protected()[j].1 as int / PAGE_SIZE as int),
            decreases 2 - i,
        {
            let region = self.protected_regions[i];
            if Frame::containing(region.0).page_index() <= index && index <= Frame::containing(
                region.1,
            ).page_index() {
                return true;
            }
            i = i + 1;
        }
        false
    }

    /// Allocate a unique Frame
    ///
    /// Pages are examined in order from the cursor; protected ones are passed
    /// over, and the cursor ends just past the page handed out.
    pub fn allocate(&mut self) -> (r: Result<Frame, AllocError>)
        ensures
            FrameAllocator::alloc_step(*old(self), r, *final(self)),
            final(self).next_index() >= old(self).next_index(),
            r matches Ok(f) ==> old(self).next_index() <= f.index() < final(self).next_index(),
            r matches Ok(f) ==> forall|i: int|
                0 <= i < old(self).protected().len() ==> !regions_overlap(
                    f.index() * PAGE_SIZE,
                    #[trigger] old(self).protected()[i],
                ),
    {
        let ghost k = self.first_free(self.next_index());
        proof {
            lemma_first_unblocked_at_least(self.protected(), self.limit_index(), self.next_index());
        }
        loop
            invariant
                self.limit_index() == old(self).limit_index(),
                self.protected() == old(self).protected(),
                self.protected().len() == 2,
                old(self).next_index() <= self.next_index(),
                self.first_free(self.next_index()) == k,
                k == old(self).first_free(old(self).next_index()),
                k >= old(self).next_index(),
            decreases self.limit_index() - self.next_index(),
        {
            proof {
                use_type_invariant(&*self);
            }
            match self.next_page() {
                None => {
                    return Err(AllocError::OutOfMemory);
                },
                Some(frame) => {
                    let index = frame.page_index();
                    if !self.is_protected(index) {
                        proof {
                            lemma_unblocked_is_disjoint(*old(self), index as int);
                        }
                        return Ok(frame);
                    }
                },
            }
        }
    }

    /// Deallocate a Frame.
    ///
    /// Frames are never reclaimed: this does nothing, by design.
    pub fn free(&mut self, frame: Frame)
        ensures
            *final(self) == *old(self),
    {
    }

    /// Approximate the remaining number of pages.
    /// Does not consider protected regions.
    pub fn free_pages(&self) -> (r: u64)
        ensures
            r == if self.next_index() < self.limit_index() {
                self.limit_index() - self.next_index()
            } else {
                0
            },
    {
        proof {
            use_type_invariant(self);
        }
        if self.start >= self.end {
            0
        } else {
            (self.end - self.start) / PAGE_SIZE
        }
    }

    /// Takes the page under the cursor, unless the window is exhausted.
    fn next_page(&mut self) -> (r: Option<Frame>)
        ensures
            final(self).limit_index() == old(self).limit_index(),
            final(self).protected() == old(self).protected(),
            old(self).next_index() < old(self).limit_index() ==> {
                &&& r matches Some(f)
                &&& f.index() == old(self).next_index()
                &&& final(self).next_index() == old(self).next_index() + 1
            },
            old(self).next_index() >= old(self).limit_index() ==> {
                &&& r is None
                &&& final(self).next_index() == old(self).next_index()
            },
    {
        proof {
            use_type_invariant(&*self);
        }
        if self.start >= self.end {
            return None;
        }
        let addr = self.start;
        self.start = self.start + PAGE_SIZE;
        Some(Frame::containing(addr))
    }
}

/// The page starting at `addr` shares a byte with the inclusive byte range
/// `region`.
pub open spec fn regions_overlap(addr: int, region: MemRegion) -> bool {
    region.0 <= addr + PAGE_SIZE - 1 && addr <= region.1
}

/// `states` and `results` record successive calls of `allocate` on one
/// allocator: call `k` went from `states[k]` to `states[k + 1]` and returned
/// `results[k]`.
pub open spec fn alloc_run(states: Seq<FrameAllocator>, results: Seq<Result<Frame, AllocError>>) -> bool {
    &&& states.len() == results.len() + 1
    &&& forall|k: int|
        0 <= k < results.len() ==> FrameAllocator::alloc_step(
            states[k],
            #[trigger] results[k],
            states[k + 1],
        )
}

proof fn lemma_free_count_step(protected: Seq<MemRegion>, limit: int, idx: int)
    ensures
        first_unblocked(protected, limit, idx) >= limit <==> free_count(protected, limit, idx) == 0,
        first_unblocked(protected, limit, idx) >= limit ==> free_count(
            protected,
            limit,
            first_unblocked(protected, limit, idx),
        ) == 0,
        first_unblocked(protected, limit, idx) < limit ==> free_count(
            protected,
            limit,
            first_unblocked(protected, limit, idx) + 1,
        ) == free_count(protected, limit, idx) - 1,
    decreases limit - idx,
{
    if idx < limit && page_blocked(protected, idx) {
        lemma_free_count_step(protected, limit, idx + 1);
    }
}

/// Each frame handed out lowers the count of frames still available by one;
/// `allocate` fails exactly when none is available.
pub proof fn lemma_available_step(pre: FrameAllocator, got: Option<int>, post: FrameAllocator)
    requires
        FrameAllocator::alloc_outcome(pre, got, post),
    ensures
        got is None <==> pre.available() == 0,
        got is Some ==> post.available() == pre.available() - 1,
        got is None ==> post.available() == 0,
{
    lemma_free_count_step(pre.protected(), pre.limit_index(), pre.next_index());
}

proof fn lemma_first_unblocked_at_least(protected: Seq<MemRegion>, limit: int, idx: int)
    ensures
        first_unblocked(protected, limit, idx) >= idx,
    decreases limit - idx,
{
    if idx < limit && page_blocked(protected, idx) {
        lemma_first_unblocked_at_least(protected, limit, idx + 1);
    }
}

proof fn lemma_run_cursor(
    states: Seq<FrameAllocator>,
    results: Seq<Result<Frame, AllocError>>,
    a: int,
    b: int,
)
    requires
        alloc_run(states, results),
        0 <= a <= b < states.len(),
    ensures
        states[a].next_index() <= states[b].next_index(),
        a < b && results[a] is Ok ==> results[a]->Ok_0.index() < states[b].next_index(),
    decreases b - a,
{
    if a < b {
        lemma_run_cursor(states, results, a, b - 1);
        let pre = states[b - 1];
        lemma_first_unblocked_at_least(pre.protected(), pre.limit_index(), pre.next_index());
        assert(FrameAllocator::alloc_step(pre, results[b - 1], states[b]));
    }
}

/// Frames returned by two successful calls of `allocate` on one allocator are
/// distinct.
pub proof fn lemma_allocations_distinct(
    states: Seq<FrameAllocator>,
    results: Seq<Result<Frame, AllocError>>,
    i: int,
    j: int,
)
    requires
        alloc_run(states, results),
        0 <= i < j < results.len(),
        results[i] is Ok,
        results[j] is Ok,
    ensures
        results[i]->Ok_0 != results[j]->Ok_0,
{
    lemma_run_cursor(states, results, i, j);
    let pre = states[j];
    lemma_first_unblocked_at_least(pre.protected(), pre.limit_index(), pre.next_index());
    assert(FrameAllocator::alloc_step(pre, results[j], states[j + 1]));
    assert(results[i]->Ok_0.index() < results[j]->Ok_0.index());
}

/// A frame that `allocate` returned, and a frame that a later call on the
/// same allocator returned: the cursor passed the first before the second
/// call started, and only moves forward in between, so the second frame has
/// a higher page number and the two are distinct.
pub proof fn lemma_earlier_frame_lower(
    after_first: FrameAllocator,
    first: Frame,
    before_second: FrameAllocator,
    second: Frame,
)
    requires
        first.index() < after_first.next_index(),
        after_first.next_index() <= before_second.next_index(),
        before_second.next_index() <= second.index(),
    ensures
        first.index() < second.index(),
        first != second,
{
}

proof fn lemma_run_unprotected(
    states: Seq<FrameAllocator>,
    results: Seq<Result<Frame, AllocError>>,
    k: int,
)
    requires
        alloc_run(states, results),
        0 <= k < states.len(),
        k <= states[0].limit_index() - states[0].next_index(),
        forall|idx: int|
            states[0].next_index() <= idx < states[0].limit_index() ==> !#[trigger] states[0].blocked(
                idx,
            ),
    ensures
        states[k].next_index() == states[0].next_index() + k,
        states[k].limit_index() == states[0].limit_index(),
        states[k].protected() == states[0].protected(),
        forall|m: int| 0 <= m < k ==> #[trigger] results[m] is Ok,
    decreases k,
{
    if k > 0 {
        lemma_run_unprotected(states, results, k - 1);
        let pre = states[k - 1];
        assert(FrameAllocator::alloc_step(pre, results[k - 1], states[k]));
        assert(!states[0].blocked(pre.next_index()));
        assert(pre.first_free(pre.next_index()) == pre.next_index());
    }
}

/// An allocator whose window holds exactly `n` pages, none of them protected,
/// hands out exactly `n` frames, and the call after them fails with
/// `OutOfMemory`.
pub proof fn lemma_exhaustion(
    states: Seq<FrameAllocator>,
    results: Seq<Result<Frame, AllocError>>,
    n: int,
)
    requires
        alloc_run(states, results),
        results.len() == n + 1,
        n >= 0,
        states[0].limit_index() - states[0].next_index() == n,
        forall|idx: int|
            states[0].next_index() <= idx < states[0].limit_index() ==> !#[trigger] states[0].blocked(
                idx,
            ),
    ensures
        forall|k: int| 0 <= k < n ==> #[trigger] results[k] is Ok,
        results[n] == Err::<Frame, AllocError>(AllocError::OutOfMemory),
{
    lemma_run_unprotected(states, results, n);
    let pre = states[n];
    assert(FrameAllocator::alloc_step(pre, results[n], states[n + 1]));
}

pub proof fn lemma_page_address_index(idx: int)
    ensures
        (idx * PAGE_SIZE) / PAGE_SIZE as int == idx,
        (idx * PAGE_SIZE) % PAGE_SIZE as int == 0,
{
    assert((idx * 4096) / 4096 == idx && (idx * 4096) % 4096 == 0) by (nonlinear_arith);
}

proof fn lemma_largest_free_bounds(regions: Seq<MMapEntry>)
    ensures
        -1 <= largest_free(regions) < regions.len(),
        largest_free(regions) >= 0 ==> regions[largest_free(regions)].ty
            == crate::multiboot::MMapEntryType::Free,
    decreases regions.len(),
{
    if regions.len() > 0 {
        lemma_largest_free_bounds(regions.drop_last());
    }
}

proof fn lemma_unblocked_is_disjoint(a: FrameAllocator, idx: int)
    requires
        !a.blocked(idx),
        idx >= 0,
    ensures
        forall|i: int|
            0 <= i < a.protected().len() ==> !regions_overlap(
                idx * PAGE_SIZE,
                #[trigger] a.protected()[i],
            ),
{
    assert forall|i: int| 0 <= i < a.protected().len() implies !regions_overlap(
        idx * PAGE_SIZE,
        #[trigger] a.protected()[i],
    ) by {
        let s = a.protected()[i].0 as int;
        let e = a.protected()[i].1 as int;
        if regions_overlap(idx * PAGE_SIZE, a.protected()[i]) {
            assert(s / 4096 <= idx) by (nonlinear_arith)
                requires
                    s <= idx * 4096 + 4095,
                    s >= 0,
            ;
            assert(idx <= e / 4096) by (nonlinear_arith)
                requires
                    idx * 4096 <= e,
            ;
            assert(a.blocked(idx));
        }
    }
}

} // verus!
