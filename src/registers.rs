//! The register state of a user-mode thread.
use vstd::prelude::*;

use crate::gdt::{USR_CODE_OFFSET, USR_DATA_OFFSET};

verus! {

/// The saved general-purpose, segment and control registers of a thread.
#[derive(Clone, Copy, Debug, PartialEq, Eq, Structural)]
pub struct Registers {
    pub rax: u64,
    pub rbx: u64,
    pub rcx: u64,
    pub rdx: u64,
    pub rsi: u64,
    pub rdi: u64,
    pub rbp: u64,
    pub r8: u64,
    pub r9: u64,
    pub r10: u64,
    pub r11: u64,
    pub r12: u64,
    pub r13: u64,
    pub r14: u64,
    pub r15: u64,
    pub cs: u16,
    pub ss: u16,
    pub ds: u16,
    pub es: u16,
    pub fs: u16,
    pub gs: u16,
    pub pad: u32,
    pub rip: u64,
    pub rflags: u64,
    pub rsp: u64,
}

impl Registers {
    /// A fresh user-mode thread starting at `rip` with its stack at `rsp`:
    /// user code and data segments, interrupts enabled, every other register
    /// zero.
    pub fn default_user(rip: u64, rsp: u64) -> (r: Self)
        ensures
            r == (Registers {
                rax: 0,
                rbx: 0,
                rcx: 0,
                rdx: 0,
                rsi: 0,
                rdi: 0,
                rbp: 0,
                r8: 0,
                r9: 0,
                r10: 0,
                r11: 0,
                r12: 0,
                r13: 0,
                r14: 0,
                r15: 0,
                cs: USR_CODE_OFFSET as u16,
                ss: USR_DATA_OFFSET as u16,
                ds: 0,
                es: 0,
                fs: 0,
                gs: 0,
                pad: 0,
                rip,
                rflags: 0x200,
                rsp,
            }),
    {
        Registers {
            rip,
            cs: USR_CODE_OFFSET as u16,
            rsp,
            ss: USR_DATA_OFFSET as u16,
            rflags: 0x200,
            rax: 0,
            rbx: 0,
            rcx: 0,
            rdx: 0,
            rbp: 0,
            rsi: 0,
            rdi: 0,
            r8: 0,
            r9: 0,
            r10: 0,
            r11: 0,
            r12: 0,
            r13: 0,
            r14: 0,
            r15: 0,
            ds: 0,
            es: 0,
            fs: 0,
            gs: 0,
            pad: 0,
        }
    }
}

} // verus!
