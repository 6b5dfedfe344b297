use denuos::gdt::{initial_gdt, set_tss_address, TSS, PRESENT, TSS_LIMIT};
use denuos::interrupts::{initialize, Idt, IdtEntry, IDT_SIZE};
use denuos::intrinsics::{
    base_leaf_count, extra_leaf_count, stmsr, CpuVendor, CpuidRegs, CpuidResults,
};
use denuos::pci::x86_pio_calculate_addr;
use denuos::pic::{get_irq, init_sequence, send_eoi, Pic};
use denuos::registers::Registers;
use denuos::stacks::{StaticStack, STACK_SIZE};
use denuos::syscall::{self, sysret_registers, MSR_LSTAR, MSR_SFMASK, MSR_STAR, STAR};
use denuos::tss::{self, Tss};

fn regs(eax: u32, ebx: u32, ecx: u32, edx: u32) -> CpuidRegs {
    CpuidRegs { eax, ebx, ecx, edx }
}

#[test]
fn stmsr_sets_one_bit() {
    assert_eq!(stmsr(0, 0), 1);
    assert_eq!(stmsr(0xd00, 0), 0xd01);
    assert_eq!(stmsr(0x1, 63), 0x8000_0000_0000_0001);
    assert_eq!(stmsr(0xff, 3), 0xff);
}

#[test]
fn cpuid_regs_start_zero() {
    assert_eq!(CpuidRegs::new(), regs(0, 0, 0, 0));
}

#[test]
fn intel_vendor_is_recognised() {
    let base = [regs(0xd, 0x756e_6547, 0x6c65_746e, 0x4965_6e69)];
    let c = CpuidResults::from_leaves(&base, &[]);
    assert_eq!(c.vendor_id(), Some("GenuineIntel"));
    assert_eq!(c.vendor(), Some(CpuVendor::Intel));
}

#[test]
fn amd_vendor_is_recognised() {
    let base = [regs(0xd, 0x6874_7541, 0x444d_4163, 0x6974_6e65)];
    let c = CpuidResults::from_leaves(&base, &[]);
    assert_eq!(c.vendor_id(), Some("AuthenticAMD"));
    assert_eq!(c.vendor(), Some(CpuVendor::AMD));
}

#[test]
fn unknown_vendor() {
    let base = [regs(0xd, 0x6f67_7948, 0x656e_6975, 0x6e65_476e)];
    let c = CpuidResults::from_leaves(&base, &[]);
    assert_eq!(c.vendor_id(), Some("HygonGenuine"));
    assert_eq!(c.vendor(), None);
    let bad = [regs(0, 0xffff_ffff, 0, 0)];
    let c = CpuidResults::from_leaves(&bad, &[]);
    assert_eq!(c.vendor_id(), None);
    let c = CpuidResults::unsupported();
    assert_eq!(c.vendor_id(), None);
    assert_eq!(c.family(), None);
    assert!(!c.supported);
}

#[test]
fn model_and_family() {
    // family 6, model 0xe (low three bits kept: 6), extended model 9
    let sig = (9 << 16) | (6 << 8) | (0xe << 4) | 3;
    let base = [regs(1, 0, 0, 0), regs(sig, 0, 1 << 21, (1 << 5) | (1 << 9))];
    let c = CpuidResults::from_leaves(&base, &[]);
    assert_eq!(c.stepping(), Some(3));
    assert_eq!(c.family(), Some(6));
    assert_eq!(c.model(), Some(6));
    assert_eq!(c.extended_model(), Some(1));
    assert_eq!(c.effective_model(), Some(6 + (1 << 4)));
    assert_eq!(c.effective_family(), Some(6));
    assert!(c.x2apic());
    assert!(c.msr());
    assert!(c.apic());
    assert!(!c.pse());
    assert!(!c.syscall());
}

#[test]
fn family_field_keeps_three_bits() {
    // The family mask stops at bit 10, so a family of 15 reads as 7.
    let sig = (0x0a << 20) | (15 << 8) | (0x2 << 4);
    let base = [regs(1, 0, 0, 0), regs(sig, 0, 0, 0)];
    let extra = [regs(0x8000_0001, 0, 0, 0), regs(0, 0, 0, (1 << 11) | (1 << 27))];
    let c = CpuidResults::from_leaves(&base, &extra);
    assert_eq!(c.family(), Some(7));
    assert_eq!(c.extended_family(), Some(0x0a));
    assert_eq!(c.effective_family(), Some(7));
    assert_eq!(c.effective_model(), Some(2));
    assert!(c.syscall());
    assert!(c.rdtscp());
    assert!(!c.page1gb());
    assert!(!c.rdpid());
}

#[test]
fn leaf_counts() {
    assert_eq!(base_leaf_count(0xd), 0xd);
    assert_eq!(base_leaf_count(0x20), 0x18);
    assert_eq!(extra_leaf_count(0x8000_0004), 4);
    assert_eq!(extra_leaf_count(0x8000_0020), 8);
    assert_eq!(extra_leaf_count(0x10), 8);
}

#[test]
fn pci_address() {
    assert_eq!(x86_pio_calculate_addr(0, 0, 0, 0), 0x8000_0000);
    assert_eq!(x86_pio_calculate_addr(1, 2, 3, 4), 0x8001_1304);
    assert_eq!(x86_pio_calculate_addr(0xff, 31, 7, 0xfc), 0x80ff_fffc);
}

#[test]
fn irq_is_lowest_in_service_bit() {
    assert_eq!(get_irq(0, 0), None);
    assert_eq!(get_irq(0b0000_0001, 0), Some(0));
    assert_eq!(get_irq(0b0000_0110, 0), Some(1));
    assert_eq!(get_irq(0, 0b0000_0100), Some(10));
    assert_eq!(get_irq(0x80, 0xff), Some(7));
    assert_eq!(get_irq(0, 0x80), Some(15));
}

#[test]
fn end_of_interrupt_targets() {
    assert_eq!(send_eoi(0), vec![0x20]);
    assert_eq!(send_eoi(7), vec![0x20]);
    assert_eq!(send_eoi(8), vec![0xa0, 0x20]);
    assert_eq!(send_eoi(15), vec![0xa0, 0x20]);
}

#[test]
fn pic_initialization_words() {
    let words = init_sequence();
    assert_eq!(
        words,
        vec![
            (0x20, 0x11),
            (0x21, 0x20),
            (0x21, 0x04),
            (0x21, 0x01),
            (0xa0, 0x11),
            (0xa1, 0x28),
            (0xa1, 0x02),
            (0xa1, 0x01),
        ]
    );
    let p = Pic::new(0xa0);
    assert_eq!(p.command_port(), 0xa0);
    assert_eq!(p.data_port(), 0xa1);
}

#[test]
fn idt_entries_split_the_address() {
    let e = IdtEntry::from(0xffff_ffff_8012_3456);
    assert_eq!(e.ptr_low, 0x3456);
    assert_eq!(e.ptr_med, 0x8012);
    assert_eq!(e.ptr_high, 0xffff_ffff);
    assert_eq!(e.selector, 0x08);
    assert_eq!(e.options, 0x8e00);
    assert_eq!(e.reserved, 0);
    assert_eq!(e.handler(), 0xffff_ffff_8012_3456);
}

#[test]
fn idt_initialization() {
    let unknown: Vec<u64> = (0..256u64).map(|i| 0x1000 + i * 16).collect();
    let idt = initialize(&unknown, 0xdead_beef);
    assert_eq!(idt.size(), IDT_SIZE);
    assert_eq!(idt.entry(0).handler(), 0x1000);
    assert_eq!(idt.entry(0x0e).handler(), 0xdead_beef);
    assert_eq!(idt.entry(255).handler(), 0x1000 + 255 * 16);
}

#[test]
fn pic_handlers_are_registered() {
    let mut idt = Idt::new();
    assert_eq!(idt.entry(0x25).handler(), 0);
    denuos::pic::initialize(&mut idt, 0x100, 0x200, 0x300);
    assert_eq!(idt.entry(0x20).handler(), 0x200);
    assert_eq!(idt.entry(0x21).handler(), 0x300);
    assert_eq!(idt.entry(0x22).handler(), 0x100);
    assert_eq!(idt.entry(0x2f).handler(), 0x100);
    assert_eq!(idt.entry(0x30).handler(), 0);
    assert_eq!(idt.entry(0x1f).handler(), 0);
}

#[test]
fn tss_descriptor_address() {
    let mut gdt = initial_gdt();
    assert_eq!(gdt[6], TSS | PRESENT | TSS_LIMIT);
    set_tss_address(&mut gdt, 0xffff_ffff_8123_4567);
    assert_eq!(gdt[6], TSS | PRESENT | TSS_LIMIT | (0x23_4567 << 16) | (0x81 << 56));
    assert_eq!(gdt[7], 0xffff_ffff);
}

#[test]
fn tss_stacks() {
    let mut t = Tss::zeroed();
    tss::initialize(&mut t, 0x8000, 0x9000);
    assert_eq!({ t.rsp0 }, 0x8000);
    assert_eq!({ t.ist1 }, 0x9000);
    assert_eq!({ t.rsp1 }, 0);
}

#[test]
fn stack_top() {
    let s = StaticStack::zero();
    assert!(s.0.iter().all(|b| *b == 0));
    assert_eq!(s.top(0x10_0000), 0x10_0000 + STACK_SIZE as u64);
}

#[test]
fn syscall_registers() {
    assert_eq!(STAR, (0x08 << 32) | (0x18 << 48));
    assert_eq!(
        syscall::initialize(0xffff_8000_0000_1000),
        vec![(MSR_STAR, STAR), (MSR_LSTAR, 0xffff_8000_0000_1000), (MSR_SFMASK, 0)]
    );
    let r = sysret_registers(0x40_0000, 0x7fff_0000);
    assert_eq!(r.rip, 0x40_0000);
    assert_eq!(r.rsp, 0x7fff_0000);
    assert_eq!(r.rflags, 0x200);
    assert_eq!(r.rax, 0);
}

#[test]
fn user_registers() {
    let r = Registers::default_user(0x40_1000, 0x7fff_f000);
    assert_eq!(r.rip, 0x40_1000);
    assert_eq!(r.rsp, 0x7fff_f000);
    assert_eq!(r.cs, 0x18);
    assert_eq!(r.ss, 0x20);
    assert_eq!(r.rflags, 0x200);
    assert_eq!(r.r15, 0);
}
