//! Physical frame allocation and four-level page tables for an x86-64
//! kernel, with the small pieces of hardware bookkeeping around them.
pub mod frame_allocator;
pub mod multiboot;
pub mod paging;
pub mod heap;
pub mod intrinsics;
pub mod interrupts;
pub mod pci;
pub mod pic;
pub mod gdt;
pub mod registers;
pub mod stacks;
pub mod syscall;
pub mod tss;
pub mod vga;
