//! PCI configuration space access.
use vstd::prelude::*;

verus! {

/// A way to read and write PCI configuration space.
pub trait HostBusBridge {
    fn pci_cs_read(&self, bus: u8, device: u8, func: u8, register: u8) -> u32;

    fn pci_cs_write(&self, bus: u8, device: u8, func: u8, register: u8, val: u32);
}

/// The value written to the configuration address port to reach `register`
/// of function `func` of `device` on `bus`: the enable bit, then bus, device,
/// function and the dword-aligned register offset.
pub fn x86_pio_calculate_addr(bus: u8, device: u8, func: u8, register: u8) -> (r: u32)
    requires
        device < 32,
        func < 8,
        register & 0b11 == 0,
    ensures
        r == 0x8000_0000 + bus as u32 * 0x1_0000 + device as u32 * 0x800 + func as u32 * 0x100
            + register as u32,
{
    let r = (1u32 << 31) | ((bus as u32) << 16) | ((device as u32) << 11) | ((func as u32) << 8)
        | ((register as u32) & !0b11u32);
    let b = bus as u32;
    let d = device as u32;
    let f = func as u32;
    let g = register as u32;
    assert(r == 0x8000_0000 + b * 0x1_0000 + d * 0x800 + f * 0x100 + g) by (bit_vector)
        requires
            b < 256,
            d < 32,
            f < 8,
            g < 256,
            g & 3 == 0,
            r == (1u32 << 31u32) | (b << 16u32) | (d << 11u32) | (f << 8u32) | (g & !3u32),
    ;
    r
}

} // verus!
