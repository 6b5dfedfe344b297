//! Global Descriptor Table
//!
//! Long mode needs a flat memory model, but the table still defines the code
//! and data segments of kernel and user mode, and the task state segment.
use vstd::prelude::*;

verus! {

pub const SYS_CODE_OFFSET: u64 = 0x08;
pub const SYS_DATA_OFFSET: u64 = 0x10;
pub const USR_CODE_OFFSET: u64 = 0x18;
pub const USR_DATA_OFFSET: u64 = 0x20;
pub const TSS_OFFSET: u64 = 0x30;

pub const CODE: u64 = 3 << 43u64;
pub const DATA: u64 = 2 << 43u64;
pub const TSS: u64 = 9 << 40u64;
pub const SYS: u64 = 0;
pub const USR: u64 = 3 << 45u64;
pub const LONG: u64 = 1 << 53u64;
pub const PRESENT: u64 = 1 << 47u64;
pub const WRITE: u64 = 1 << 41u64;

/// Size in bytes of a task state segment, less one.
pub const TSS_LIMIT: u64 = 104;

/// The table before the task state segment's address is filled in.
pub fn initial_gdt() -> (r: [u64; 8])
    ensures
        r@ == seq![
            0u64,
            SYS | CODE | PRESENT | LONG,
            SYS | DATA | PRESENT | WRITE,
            USR | CODE | PRESENT | LONG,
            USR | DATA | PRESENT | WRITE,
            USR | CODE | PRESENT,
            TSS | PRESENT | TSS_LIMIT,
            0u64,
        ],
{
    let r: [u64; 8] = [
        0,
        SYS | CODE | PRESENT | LONG,
        SYS | DATA | PRESENT | WRITE,
        USR | CODE | PRESENT | LONG,
        USR | DATA | PRESENT | WRITE,
        USR | CODE | PRESENT,
        TSS | PRESENT | TSS_LIMIT,
        0,
    ];
    assert(r@ =~= seq![
        0u64,
        SYS | CODE | PRESENT | LONG,
        SYS | DATA | PRESENT | WRITE,
        USR | CODE | PRESENT | LONG,
        USR | DATA | PRESENT | WRITE,
        USR | CODE | PRESENT,
        TSS | PRESENT | TSS_LIMIT,
        0u64,
    ]);
    r
}

/// Fills the address of the task state segment at `tss_ptr` into the two
/// table words that describe it: bits 0 to 23 go to bits 16 to 39 of the first
/// word, bits 24 to 31 to its bits 56 to 63, and bits 32 to 63 make the second
/// word.
pub fn set_tss_address(gdt: &mut [u64; 8], tss_ptr: u64)
    ensures
        final(gdt)@ == old(gdt)@.update(
            6,
            old(gdt)@[6] | ((tss_ptr & 0x00ff_ffff) << 16u64) | ((tss_ptr & 0xff00_0000) << 32u64),
        ).update(7, tss_ptr >> 32u64),
{
    let low = gdt[6] | ((tss_ptr & 0x00ff_ffff) << 16) | ((tss_ptr & 0xff00_0000) << 32);
    gdt[6] = low;
    gdt[7] = tss_ptr >> 32;
}

} // verus!
