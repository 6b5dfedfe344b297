//! Programmable Interrupt Controller
//!
//! Two 8259A PICs mediate up to 15 device interrupts (IRQs). Upon
//! initialization they are remapped to vectors 0x20 to 0x2f. Port input and
//! output happen outside this crate; here are the words to send, the decoding
//! of the in-service registers, and the handlers to register.
use vstd::prelude::*;

use crate::interrupts::{gate_for, Idt};

verus! {

/// Interrupt vector offset of the master PIC
pub const PIC1_OFFSET: u8 = 0x20;

/// Interrupt vector offset of the slave PIC
pub const PIC2_OFFSET: u8 = 0x28;

/// Command port of the master PIC
pub const PIC1_PORT: u16 = 0x20;

/// Command port of the slave PIC
pub const PIC2_PORT: u16 = 0xa0;

/// Start in cascade mode, ICW4 follows.
pub const ICW1_INIT: u8 = 0x11;

/// Inform the master of the slave on IRQ2.
pub const ICW3_PIC1: u8 = 0x04;

/// Inform the slave to cascade through IRQ2.
pub const ICW3_PIC2: u8 = 0x02;

/// x86 compatibility mode.
pub const ICW4_8086: u8 = 0x01;

/// Command that reads the in-service register.
pub const READ_ISR: u8 = 0x0b;

/// End of interrupt command.
pub const EOI: u8 = 0x20;

/// One of the two PICs, by its command port.
#[derive(Clone, Copy, Debug)]
pub struct Pic {
    port: u16,
}

impl Pic {
    /// Creates a wrapper around the PIC on the specified port
    pub fn new(port: u16) -> (r: Pic)
        ensures
            r.spec_port() == port,
    {
        Pic { port }
    }

    pub closed spec fn spec_port(&self) -> u16 {
        self.port
    }

    /// The port that takes commands.
    pub fn command_port(&self) -> (r: u16)
        ensures
            r == self.spec_port(),
    {
        self.port
    }

    /// The port that takes data.
    pub fn data_port(&self) -> (r: u16)
        requires
            self.spec_port() < 0xffff,
        ensures
            r == self.spec_port() + 1,
    {
        self.port + 1
    }
}

/// The port writes, in order, that initialize both PICs.
pub fn init_sequence() -> (r: Vec<(u16, u8)>)
    ensures
        r@ == seq![
            (PIC1_PORT, ICW1_INIT),
            ((PIC1_PORT + 1) as u16, PIC1_OFFSET),
            ((PIC1_PORT + 1) as u16, ICW3_PIC1),
            ((PIC1_PORT + 1) as u16, ICW4_8086),
            (PIC2_PORT, ICW1_INIT),
            ((PIC2_PORT + 1) as u16, PIC2_OFFSET),
            ((PIC2_PORT + 1) as u16, ICW3_PIC2),
            ((PIC2_PORT + 1) as u16, ICW4_8086),
        ],
{
    let pic1 = Pic::new(PIC1_PORT);
    let pic2 = Pic::new(PIC2_PORT);
    let mut r: Vec<(u16, u8)> = Vec::new();
    r.push((pic1.command_port(), ICW1_INIT));
    r.push((pic1.data_port(), PIC1_OFFSET));
    r.push((pic1.data_port(), ICW3_PIC1));
    r.push((pic1.data_port(), ICW4_8086));
    r.push((pic2.command_port(), ICW1_INIT));
    r.push((pic2.data_port(), PIC2_OFFSET));
    r.push((pic2.data_port(), ICW3_PIC2));
    r.push((pic2.data_port(), ICW4_8086));
    assert(r@ =~= seq![
        (PIC1_PORT, ICW1_INIT),
        ((PIC1_PORT + 1) as u16, PIC1_OFFSET),
        ((PIC1_PORT + 1) as u16, ICW3_PIC1),
        ((PIC1_PORT + 1) as u16, ICW4_8086),
        (PIC2_PORT, ICW1_INIT),
        ((PIC2_PORT + 1) as u16, PIC2_OFFSET),
        ((PIC2_PORT + 1) as u16, ICW3_PIC2),
        ((PIC2_PORT + 1) as u16, ICW4_8086),
    ]);
    r
}

/// The 16 in-service bits of both PICs: the slave's above the master's.
pub open spec fn service_bits(sr1: u8, sr2: u8) -> u32 {
    ((sr2 as u32) << 8u32) | sr1 as u32
}

/// The IRQ being serviced, given the in-service registers of the master
/// (`sr1`) and the slave (`sr2`): the lowest set bit of the 16 bits they make
/// together, or `None` for a spurious interrupt.
pub fn get_irq(sr1: u8, sr2: u8) -> (r: Option<u8>)
    ensures
        r is None <==> sr1 == 0 && sr2 == 0,
        r matches Some(i) ==> {
            &&& i < 16
            &&& (service_bits(sr1, sr2) >> i as u32) & 1 == 1
            &&& service_bits(sr1, sr2) & (((1u32 << i as u32) - 1) as u32) == 0
        },
{
    let all: u32 = ((sr2 as u32) << 8) | sr1 as u32;
    let mut flags: u32 = all;
    let mut i: u8 = 0;
    assert((all == 0 <==> sr1 == 0 && sr2 == 0) && all < 0x10000 && all >> 0u32 == all && all & (((
    1u32 << 0u32) - 1) as u32) == 0) by (bit_vector)
        requires
            all == ((sr2 as u32) << 8u32) | sr1 as u32,
    ;
    while i < 16
        invariant
            i <= 16,
            all == service_bits(sr1, sr2),
            all < 0x10000,
            all == 0 <==> sr1 == 0 && sr2 == 0,
            flags == all >> i as u32,
            all & (((1u32 << i as u32) - 1) as u32) == 0,
        decreases 16 - i,
    {
        let j = i as u32;
        if flags & 1 != 0 {
            assert((all >> j) & 1 == 1 && all != 0) by (bit_vector)
                requires
                    flags == all >> j,
                    flags & 1 != 0,
            ;
            return Some(i);
        }
        assert(all & (((1u32 << (j + 1) as u32) - 1) as u32) == 0 && flags >> 1u32 == all >> (j
            + 1) as u32) by (bit_vector)
            requires
                j < 16,
                flags == all >> j,
                flags & 1 == 0,
                all & (((1u32 << j) - 1) as u32) == 0,
        ;
        flags = flags >> 1;
        i = i + 1;
    }
    assert(all == 0) by (bit_vector)
        requires
            all < 0x10000,
            all & (((1u32 << 16u32) - 1) as u32) == 0,
    ;
    None
}

/// The command ports that must be told an interrupt on `irq` was handled:
/// the slave's as well for IRQs 8 and up, then the master's.
pub fn send_eoi(irq: u8) -> (r: Vec<u16>)
    ensures
        r@ == if irq >= 8 {
            seq![PIC2_PORT, PIC1_PORT]
        } else {
            seq![PIC1_PORT]
        },
{
    let mut r: Vec<u16> = Vec::new();
    if irq >= 8 {
        r.push(PIC2_PORT);
    }
    r.push(PIC1_PORT);
    proof {
        if irq >= 8 {
            assert(r@ =~= seq![PIC2_PORT, PIC1_PORT]);
        } else {
            assert(r@ =~= seq![PIC1_PORT]);
        }
    }
    r
}

/// Registers the IRQ handlers: every vector of both PICs goes to
/// `general_irq`, except the system timer (IRQ0) and the keyboard (IRQ1).
pub fn initialize(idt: &mut Idt, general_irq: u64, system_timer: u64, keyboard_input: u64)
    requires
        old(idt).entries().len() == 256,
    ensures
        final(idt).spec_size() == old(idt).spec_size(),
        final(idt).entries().len() == 256,
        final(idt).entries()[0x20] == gate_for(system_timer),
        final(idt).entries()[0x21] == gate_for(keyboard_input),
        forall|i: int|
            0x22 <= i < 0x30 ==> #[trigger] final(idt).entries()[i] == gate_for(general_irq),
        forall|i: int|
            0 <= i < 256 && !(0x20 <= i < 0x30) ==> #[trigger] final(idt).entries()[i] == old(
                idt,
            ).entries()[i],
{
    let mut v: u8 = PIC1_OFFSET;
    while v < PIC2_OFFSET + 8
        invariant
            PIC1_OFFSET <= v <= PIC2_OFFSET + 8,
            idt.spec_size() == old(idt).spec_size(),
            idt.entries().len() == 256,
            forall|i: int| 0x20 <= i < v ==> #[trigger] idt.entries()[i] == gate_for(general_irq),
            forall|i: int|
                0 <= i < 256 && !(0x20 <= i < v) ==> #[trigger] idt.entries()[i] == old(
                    idt,
                ).entries()[i],
        decreases PIC2_OFFSET + 8 - v,
    {
        idt.register_isr(v as usize, general_irq);
        v = v + 1;
    }
    idt.register_isr(0x20, system_timer);
    idt.register_isr(0x21, keyboard_input);
}

} // verus!
