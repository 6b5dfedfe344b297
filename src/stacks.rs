//! Statically allocated stacks, referenced by the task state segment.
use vstd::prelude::*;

verus! {

/// The size in bytes of the various kernel stacks
pub const STACK_SIZE: usize = 16384;

/// A byte array which allocates space for a stack
pub struct StaticStack(pub [u8; STACK_SIZE]);

impl StaticStack {
    /// Returns a zero initialized stack
    pub fn zero() -> (r: StaticStack)
        ensures
            forall|i: int| 0 <= i < STACK_SIZE ==> #[trigger] r.0@[i] == 0,
    {
        StaticStack([0u8; STACK_SIZE])
    }

    /// The starting address of the stack (which grows down), for a stack whose
    /// first byte is at `base`.
    pub fn top(&self, base: u64) -> (r: u64)
        requires
            base + STACK_SIZE <= u64::MAX,
        ensures
            r == base + STACK_SIZE,
    {
        base + STACK_SIZE as u64
    }
}

} // verus!
