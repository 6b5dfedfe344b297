//! Kernel heap allocator.
//!
//! A bump allocator: each allocation starts at the first suitably aligned
//! address past the previous one. Freed memory is never reused.
use vstd::prelude::*;

verus! {

/// Size in bytes of the kernel heap (1 MiB).
pub const HEAP_SIZE: u64 = 1024 * 1024;

/// Virtual address at which the kernel heap starts.
pub const HEAP_START: u64 = 0xffff_e000_0000_0000;

/// `align` is a power of two.
pub open spec fn is_power_of_two(align: u64) -> bool {
    align > 0 && align & ((align - 1) as u64) == 0
}

/// `start` rounded up to a multiple of the power of two `align`: the low bits
/// below `align` cleared from `start + align - 1`.
pub open spec fn aligned_up(start: u64, align: u64) -> u64 {
    ((start + align - 1) as u64) & !((align - 1) as u64)
}

/// Rounds `start` up to a multiple of `align`.
pub fn align_up(start: u64, align: u64) -> (r: u64)
    requires
        is_power_of_two(align),
        start + align - 1 <= u64::MAX,
    ensures
        r == aligned_up(start, align),
        r & ((align - 1) as u64) == 0,
        start <= r < start + align,
{
    let mask = align - 1;
    let r = (start + mask) & !mask;
    assert(r & mask == 0 && start <= r && r <= start + mask) by (bit_vector)
        requires
            mask == align - 1,
            start + mask <= 0xffff_ffff_ffff_ffff,
            r == ((start + mask) as u64) & !mask,
    ;
    r
}

/// Hands out consecutive, aligned pieces of `[next, end)`.
pub struct BumpAllocator {
    next: u64,
    end: u64,
}

impl BumpAllocator {
    /// The first address not yet handed out.
    pub closed spec fn next_addr(&self) -> int {
        self.next as int
    }

    /// The address just past the heap.
    pub closed spec fn end_addr(&self) -> int {
        self.end as int
    }

    /// An allocator over the `size` bytes starting at `start`.
    pub fn new(start: u64, size: u64) -> (r: BumpAllocator)
        requires
            start + size <= u64::MAX,
        ensures
            r.next_addr() == start,
            r.end_addr() == start + size,
    {
        BumpAllocator { next: start, end: start + size }
    }

    /// Takes `size` bytes aligned to `align`, or `None` when they do not fit
    /// before the end of the heap.
    pub fn allocate(&mut self, size: u64, align: u64) -> (r: Option<u64>)
        requires
            is_power_of_two(align),
        ensures
            final(self).end_addr() == old(self).end_addr(),
            ({
                let n = old(self).next_addr();
                let a = aligned_up(n as u64, align);
                let fits = n + align - 1 <= u64::MAX && a + size <= old(self).end_addr();
                match r {
                    Some(p) => {
                        &&& fits
                        &&& p == a
                        &&& final(self).next_addr() == a + size
                    },
                    None => {
                        &&& !fits
                        &&& final(self).next_addr() == n
                    },
                }
            }),
    {
        if self.next > u64::MAX - (align - 1) {
            return None;
        }
        let alloc_start = align_up(self.next, align);
        if alloc_start > self.end || size > self.end - alloc_start {
            return None;
        }
        self.next = alloc_start + size;
        Some(alloc_start)
    }

    /// Returns memory to the heap: it is never reused, so nothing happens.
    pub fn dealloc(&mut self, ptr: u64, size: u64)
        ensures
            *final(self) == *old(self),
    {
    }
}

} // verus!
