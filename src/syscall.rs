//! `syscall` / `sysret` support.
//!
//! `syscall` enters the kernel at the address in one model-specific register,
//! with segments from another; `sysret` returns to user mode. The register
//! writes themselves happen outside this crate.
use vstd::prelude::*;

use crate::gdt::{SYS_CODE_OFFSET, USR_CODE_OFFSET};

verus! {

/// Syscall Target flags
pub const STAR: u64 = SYS_CODE_OFFSET << 32u64 | USR_CODE_OFFSET << 48u64;

/// The bits of `rflags` register that should be cleared by `syscall`
pub const SFMASK: u64 = 0;

/// Default value for the `rflags` register on the way to user mode: only the
/// interrupt flag is set.
pub const SYSRET_RFLAGS: u64 = 0x200;

pub const MSR_STAR: u32 = 0xC000_0081;
pub const MSR_LSTAR: u32 = 0xC000_0082;
pub const MSR_SFMASK: u32 = 0xC000_0084;
pub const MSR_EFER: u32 = 0xC000_0080;

/// Bit of EFER that enables `syscall` and `sysret`.
pub const EFER_SCE: u32 = 0;

/// The model-specific register writes that make `syscall` enter the kernel at
/// `lstar`; EFER's `EFER_SCE` bit must then be set as well.
pub fn initialize(lstar: u64) -> (r: Vec<(u32, u64)>)
    ensures
        r@ == seq![(MSR_STAR, STAR), (MSR_LSTAR, lstar), (MSR_SFMASK, SFMASK)],
{
    let mut r: Vec<(u32, u64)> = Vec::new();
    r.push((MSR_STAR, STAR));
    r.push((MSR_LSTAR, lstar));
    r.push((MSR_SFMASK, SFMASK));
    assert(r@ =~= seq![(MSR_STAR, STAR), (MSR_LSTAR, lstar), (MSR_SFMASK, SFMASK)]);
    r
}

/// The registers saved on the way into the kernel and restored on the way
/// out.
#[derive(Clone, Copy, Debug, PartialEq, Eq, Structural)]
pub struct Registers {
    pub rax: u64,
    pub rbx: u64,
    pub rcx: u64,
    pub rdx: u64,
    pub rsi: u64,
    pub rdi: u64,
    pub rbp: u64,
    pub r8: u64,
    pub r9: u64,
    pub r10: u64,
    pub r11: u64,
    pub r12: u64,
    pub r13: u64,
    pub r14: u64,
    pub r15: u64,
    pub cs: u16,
    pub ss: u16,
    pub ds: u16,
    pub es: u16,
    pub fs: u16,
    pub gs: u16,
    pub pad: u32,
    pub rip: u64,
    pub rflags: u64,
    pub rsp: u64,
}

/// Every register zero.
pub open spec fn zero_registers() -> Registers {
    Registers {
        rax: 0,
        rbx: 0,
        rcx: 0,
        rdx: 0,
        rsi: 0,
        rdi: 0,
        rbp: 0,
        r8: 0,
        r9: 0,
        r10: 0,
        r11: 0,
        r12: 0,
        r13: 0,
        r14: 0,
        r15: 0,
        cs: 0,
        ss: 0,
        ds: 0,
        es: 0,
        fs: 0,
        gs: 0,
        pad: 0,
        rip: 0,
        rflags: 0,
        rsp: 0,
    }
}

impl Default for Registers {
    fn default() -> (r: Registers)
        ensures
            r == zero_registers(),
    {
        Registers {
            rax: 0,
            rbx: 0,
            rcx: 0,
            rdx: 0,
            rsi: 0,
            rdi: 0,
            rbp: 0,
            r8: 0,
            r9: 0,
            r10: 0,
            r11: 0,
            r12: 0,
            r13: 0,
            r14: 0,
            r15: 0,
            cs: 0,
            ss: 0,
            ds: 0,
            es: 0,
            fs: 0,
            gs: 0,
            pad: 0,
            rip: 0,
            rflags: 0,
            rsp: 0,
        }
    }
}

/// The registers `sysret` restores to enter user mode at `target` with the
/// stack at `stack`.
pub fn sysret_registers(target: u64, stack: u64) -> (r: Registers)
    ensures
        r == (Registers { rflags: SYSRET_RFLAGS, rip: target, rsp: stack, ..zero_registers() }),
{
    let mut registers = Registers::default();
    registers.rflags = SYSRET_RFLAGS;
    registers.rip = target;
    registers.rsp = stack;
    registers
}

} // verus!
