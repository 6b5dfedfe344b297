//! Interrupt Descriptor Table.
//!
//! On an exception or interrupt the processor finds the service routine for
//! its vector in this table. The table is built here from the routines'
//! addresses; loading it is done elsewhere.
use vstd::prelude::*;

verus! {

/// Number of entries to allocate space for in the IDT
pub const IDT_ENTRIES: usize = 256;

/// Number of bytes occupied by the IDT minus 1
pub const IDT_SIZE: u16 = 4095;

/// Segment selector of the kernel code segment.
pub const KERNEL_CODE_SELECTOR: u16 = 0x08;

/// Gate options: present, ring 0, 64-bit interrupt gate.
pub const GATE_OPTIONS: u16 = 0x8e00;

/// Binary representation of an IDT entry
#[derive(Clone, Copy, Debug, PartialEq, Eq, Structural)]
pub struct IdtEntry {
    pub ptr_low: u16,
    pub selector: u16,
    pub options: u16,
    pub ptr_med: u16,
    pub ptr_high: u32,
    pub reserved: u32,
}

/// The entry that sends a vector to the routine at `isr`.
pub open spec fn gate_for(isr: u64) -> IdtEntry {
    IdtEntry {
        ptr_low: (isr & 0xffff) as u16,
        selector: KERNEL_CODE_SELECTOR,
        options: GATE_OPTIONS,
        ptr_med: ((isr >> 16u64) & 0xffff) as u16,
        ptr_high: ((isr >> 32u64) & 0xffff_ffff) as u32,
        reserved: 0,
    }
}

/// An entry that sends nowhere.
pub open spec fn empty_gate() -> IdtEntry {
    IdtEntry { ptr_low: 0, selector: 0, options: 0, ptr_med: 0, ptr_high: 0, reserved: 0 }
}

impl IdtEntry {
    /// Constructs an entry from the address of an interrupt service routine
    pub fn from(isr: u64) -> (r: IdtEntry)
        ensures
            r == gate_for(isr),
    {
        IdtEntry {
            ptr_low: (isr & 0xffff) as u16,
            ptr_med: ((isr >> 16) & 0xffff) as u16,
            ptr_high: ((isr >> 32) & 0xffff_ffff) as u32,
            selector: KERNEL_CODE_SELECTOR,
            options: GATE_OPTIONS,
            reserved: 0,
        }
    }

    /// The address of the routine this entry sends to.
    pub fn handler(&self) -> (r: u64)
        ensures
            r == self.ptr_low as u64 | (self.ptr_med as u64) << 16u64 | (self.ptr_high as u64)
                << 32u64,
    {
        self.ptr_low as u64 | (self.ptr_med as u64) << 16 | (self.ptr_high as u64) << 32
    }
}

/// A `(size, table)` pair: the interrupt descriptor table.
pub struct Idt {
    size: u16,
    table: Vec<IdtEntry>,
}

impl Idt {
    /// The entries of the table.
    pub closed spec fn entries(&self) -> Seq<IdtEntry> {
        self.table@
    }

    /// The size field that the processor is given.
    pub closed spec fn spec_size(&self) -> u16 {
        self.size
    }

    /// Creates an empty table
    pub fn new() -> (r: Idt)
        ensures
            r.entries().len() == IDT_ENTRIES,
            r.spec_size() == IDT_SIZE,
            forall|i: int| 0 <= i < IDT_ENTRIES ==> #[trigger] r.entries()[i] == empty_gate(),
    {
        let mut table: Vec<IdtEntry> = Vec::new();
        let mut i: usize = 0;
        while i < IDT_ENTRIES
            invariant
                i <= IDT_ENTRIES,
                table@.len() == i,
                forall|j: int| 0 <= j < i ==> #[trigger] table@[j] == empty_gate(),
            decreases IDT_ENTRIES - i,
        {
            table.push(
                IdtEntry { ptr_low: 0, selector: 0, options: 0, ptr_med: 0, ptr_high: 0, reserved: 0 },
            );
            i = i + 1;
        }
        Idt { size: IDT_SIZE, table }
    }

    /// The size field that the processor is given.
    pub fn size(&self) -> (r: u16)
        ensures
            r == self.spec_size(),
    {
        self.size
    }

    /// Entry `index` of the table.
    pub fn entry(&self, index: usize) -> (r: IdtEntry)
        requires
            index < self.entries().len(),
        ensures
            r == self.entries()[index as int],
    {
        self.table[index]
    }

    /// Registers an interrupt service routine in this table
    pub fn register_isr(&mut self, index: usize, isr: u64)
        requires
            index < old(self).entries().len(),
        ensures
            final(self).entries() == old(self).entries().update(index as int, gate_for(isr)),
            final(self).spec_size() == old(self).spec_size(),
    {
        self.table.set(index, IdtEntry::from(isr));
    }
}

/// Vector of the page-fault exception.
pub const PAGE_FAULT_VECTOR: usize = 0x0e;

/// Creates a minimal interrupt descriptor table: vector `i` goes to
/// `unknown[i]`, except page faults, which go to `page_fault`.
pub fn initialize(unknown: &[u64], page_fault: u64) -> (r: Idt)
    requires
        unknown@.len() == IDT_ENTRIES,
    ensures
        r.entries().len() == IDT_ENTRIES,
        r.spec_size() == IDT_SIZE,
        r.entries()[PAGE_FAULT_VECTOR as int] == gate_for(page_fault),
        forall|i: int|
            0 <= i < IDT_ENTRIES && i != PAGE_FAULT_VECTOR ==> #[trigger] r.entries()[i]
                == gate_for(unknown@[i]),
{
    let mut idt = Idt::new();
    let mut i: usize = 0;
    while i < IDT_ENTRIES
        invariant
            i <= IDT_ENTRIES,
            unknown@.len() == IDT_ENTRIES,
            idt.entries().len() == IDT_ENTRIES,
            idt.spec_size() == IDT_SIZE,
            forall|j: int| 0 <= j < i ==> #[trigger] idt.entries()[j] == gate_for(unknown@[j]),
        decreases IDT_ENTRIES - i,
    {
        idt.register_isr(i, unknown[i]);
        i = i + 1;
    }
    idt.register_isr(PAGE_FAULT_VECTOR, page_fault);
    idt
}

/// The state an interrupt handler receives.
#[derive(Clone, Copy, Debug)]
pub struct InterruptState {
    pub error: u32,
    pub vector: u32,
    pub rip: u64,
    pub cs: u16,
    pub rflags: u64,
    pub rsp: u64,
    pub ss: u16,
}

} // verus!
