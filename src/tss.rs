//! Task State Segment
//!
//! On the way back to ring 0 the processor loads the kernel stack from the
//! task state segment; the stack for non-maskable interrupts comes from its
//! first interrupt stack table slot.
use vstd::prelude::*;

verus! {

/// A wrapper around a Task State Segment
#[derive(Clone, Copy, Debug, PartialEq, Eq, Structural)]
pub struct Tss {
    pub reserved0: u32,
    pub rsp0: u64,
    pub rsp1: u64,
    pub rsp2: u64,
    pub reserved1: u32,
    pub reserved2: u32,
    pub ist1: u64,
    pub ist2: u64,
    pub ist3: u64,
    pub ist4: u64,
    pub ist5: u64,
    pub ist6: u64,
    pub ist7: u64,
    pub reserved3: u32,
    pub reserved4: u32,
    pub reserved5: u16,
    pub io_map: u16,
}

impl Tss {
    /// A segment with every field zero.
    pub fn zeroed() -> (r: Tss)
        ensures
            r.rsp0 == 0 && r.ist1 == 0 && r.io_map == 0,
    {
        Tss {
            reserved0: 0,
            rsp0: 0,
            rsp1: 0,
            rsp2: 0,
            reserved1: 0,
            reserved2: 0,
            ist1: 0,
            ist2: 0,
            ist3: 0,
            ist4: 0,
            ist5: 0,
            ist6: 0,
            ist7: 0,
            reserved3: 0,
            reserved4: 0,
            reserved5: 0,
            io_map: 0,
        }
    }
}

/// Sets the kernel stack to `default_top` and the non-maskable interrupt
/// stack to `nmi_top`; nothing else changes.
pub fn initialize(tss: &mut Tss, default_top: u64, nmi_top: u64)
    ensures
        *final(tss) == (Tss { rsp0: default_top, ist1: nmi_top, ..*old(tss) }),
{
    tss.rsp0 = default_top;
    tss.ist1 = nmi_top;
}

} // verus!
