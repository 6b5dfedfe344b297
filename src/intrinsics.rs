//! Decoding of processor identification and model-specific registers.
//!
//! Executing `cpuid`, `rdmsr` and `wrmsr` needs privileged instructions and
//! happens outside this crate. Here the raw register values are decoded: the
//! feature flags and model fields that `cpuid` reports, the vendor string, and
//! the value that sets one bit of a model-specific register.
use vstd::prelude::*;
use vstd::string::StringSliceAdditionalSpecFns;

verus! {

/// The value to write back to a model-specific register holding `current` so
/// that bit `offset` becomes set.
pub fn stmsr(current: u64, offset: u32) -> (r: u64)
    requires
        offset < 64,
    ensures
        r == current | (1u64 << offset),
{
    current | (1u64 << offset)
}

/// The four registers that `cpuid` fills.
#[derive(Clone, Copy, Debug, PartialEq, Eq, Structural)]
pub struct CpuidRegs {
    pub eax: u32,
    pub ebx: u32,
    pub ecx: u32,
    pub edx: u32,
}

impl CpuidRegs {
    /// Returns a zero initialized structure
    pub fn new() -> (r: Self)
        ensures
            r == (CpuidRegs { eax: 0, ebx: 0, ecx: 0, edx: 0 }),
    {
        CpuidRegs { eax: 0, ebx: 0, ecx: 0, edx: 0 }
    }
}

/// Processor manufacturers the kernel tells apart.
#[derive(Clone, Copy, Debug, PartialEq, Eq, Structural)]
pub enum CpuVendor {
    Intel,
    AMD,
}

/// The leaf number of the first extended `cpuid` leaf.
pub const CPUID_EXTRA: u32 = 0x8000_0000;

/// Number of basic leaves recorded.
pub const BASE_LEAVES: u32 = 0x18;

/// Number of extended leaves recorded.
pub const EXTRA_LEAVES: u32 = 0x08;

/// How many basic leaves to query, given `eax` of leaf 0.
pub fn base_leaf_count(eax: u32) -> (r: u32)
    ensures
        r == if eax < BASE_LEAVES {
            eax
        } else {
            BASE_LEAVES
        },
{
    if eax < BASE_LEAVES {
        eax
    } else {
        BASE_LEAVES
    }
}

/// How many extended leaves to query, given `eax` of the first extended leaf.
pub fn extra_leaf_count(eax: u32) -> (r: u32)
    ensures
        r == if extra_offset(eax) < EXTRA_LEAVES {
            extra_offset(eax)
        } else {
            EXTRA_LEAVES as int
        },
{
    let n = eax.wrapping_sub(CPUID_EXTRA);
    if n < EXTRA_LEAVES {
        n
    } else {
        EXTRA_LEAVES
    }
}

/// `eax` less the number of the first extended leaf, modulo 2^32.
pub open spec fn extra_offset(eax: u32) -> int {
    if eax >= CPUID_EXTRA {
        eax - CPUID_EXTRA
    } else {
        eax + CPUID_EXTRA
    }
}

/// Bit `bit` of `v` is set.
pub open spec fn reg_bit(v: u32, bit: u32) -> bool {
    (v >> bit) & 1 == 1
}

/// The bits of `v` below `end`, shifted down by `start`.
pub open spec fn reg_field(v: u32, end: u32, start: u32) -> u32 {
    (v & (((1u32 << end) - 1) as u32)) >> start
}

/// The vendor string of leaf 0: the bytes of `ebx`, `edx` and `ecx`, each in
/// little-endian order.
pub open spec fn vendor_bytes(leaf: CpuidRegs) -> Seq<u8> {
    le_bytes(leaf.ebx) + le_bytes(leaf.edx) + le_bytes(leaf.ecx)
}

/// The four bytes of `v`, least significant first.
pub open spec fn le_bytes(v: u32) -> Seq<u8> {
    seq![(v & 0xff) as u8, ((v >> 8u32) & 0xff) as u8, ((v >> 16u32) & 0xff) as u8, ((v >> 24u32) & 0xff) as u8]
}

/// The vendor that a vendor string names.
pub open spec fn vendor_of(id: Seq<u8>) -> Option<CpuVendor> {
    if id == seq![71u8, 101, 110, 117, 105, 110, 101, 73, 110, 116, 101, 108] {
        Some(CpuVendor::Intel)
    } else if id == seq![65u8, 117, 116, 104, 101, 110, 116, 105, 99, 65, 77, 68] {
        Some(CpuVendor::AMD)
    } else {
        None
    }
}

/// Relies on core::str::from_utf8: it accepts exactly the valid UTF-8 byte
/// strings, and the string it returns holds those bytes.
#[verifier::external_body]
fn utf8_str(bytes: &[u8]) -> (r: Option<&str>)
    ensures
        r is Some <==> vstd::utf8::valid_utf8(bytes@),
        r matches Some(s) ==> s.spec_bytes() == bytes@,
{
    core::str::from_utf8(bytes).ok()
}

/// Permanent record of what `cpuid` reported.
pub struct CpuidResults {
    pub supported: bool,
    pub base: [Option<CpuidRegs>; 0x18],
    pub extra: [Option<CpuidRegs>; 0x08],
    vendor_id: Option<[u8; 12]>,
    vendor: Option<CpuVendor>,
}

fn le_bytes_of(v: u32, out: &mut [u8; 12], at: usize)
    requires
        at + 4 <= 12,
    ensures
        final(out)@ == old(out)@.subrange(0, at as int) + le_bytes(v) + old(out)@.subrange(
            at as int + 4,
            12,
        ),
{
    out[at] = (v & 0xff) as u8;
    out[at + 1] = ((v >> 8) & 0xff) as u8;
    out[at + 2] = ((v >> 16) & 0xff) as u8;
    out[at + 3] = ((v >> 24) & 0xff) as u8;
    assert(out@ =~= old(out)@.subrange(0, at as int) + le_bytes(v) + old(out)@.subrange(
        at as int + 4,
        12,
    ));
}

fn flag(leaf: Option<CpuidRegs>, v: u32, bit: u32) -> (r: bool)
    requires
        bit < 32,
    ensures
        r == (leaf is Some && reg_bit(v, bit)),
{
    match leaf {
        Some(_) => (v >> bit) & 1 == 1,
        None => false,
    }
}

impl CpuidResults {
    /// The record of a processor without `cpuid`.
    pub fn unsupported() -> (r: CpuidResults)
        ensures
            !r.is_supported(),
            forall|i: int| 0 <= i < 0x18 ==> #[trigger] r.base_leaf(i) is None,
            forall|i: int| 0 <= i < 0x08 ==> #[trigger] r.extra_leaf(i) is None,
            r.vendor_id_bytes() is None,
            r.spec_vendor() is None,
    {
        CpuidResults {
            supported: false,
            base: [None; 0x18],
            extra: [None; 0x08],
            vendor_id: None,
            vendor: None,
        }
    }

    /// The record of the leaves `cpuid` reported: `base[i]` for basic leaf `i`
    /// and `extra[i]` for extended leaf `0x8000_0000 + i`.
    pub fn from_leaves(base: &[CpuidRegs], extra: &[CpuidRegs]) -> (r: CpuidResults)
        requires
            base@.len() <= 0x18,
            extra@.len() <= 0x08,
        ensures
            r.is_supported(),
            forall|i: int|
                0 <= i < 0x18 ==> #[trigger] r.base_leaf(i) == if i < base@.len() {
                    Some(base@[i])
                } else {
                    None
                },
            forall|i: int|
                0 <= i < 0x08 ==> #[trigger] r.extra_leaf(i) == if i < extra@.len() {
                    Some(extra@[i])
                } else {
                    None
                },
            r.vendor_id_bytes() == if base@.len() > 0 {
                Some(vendor_bytes(base@[0]))
            } else {
                None::<Seq<u8>>
            },
            r.spec_vendor() == if base@.len() > 0 {
                vendor_of(vendor_bytes(base@[0]))
            } else {
                None
            },
    {
        let mut c = CpuidResults {
            supported: true,
            base: [None; 0x18],
            extra: [None; 0x08],
            vendor_id: None,
            vendor: None,
        };
        let mut i: usize = 0;
        while i < base.len()
            invariant
                base@.len() <= 0x18,
                i <= base@.len(),
                c.supported,
                c.vendor_id is None,
                forall|j: int|
                    0 <= j < 0x18 ==> #[trigger] c.base@[j] == if j < i {
                        Some(base@[j])
                    } else {
                        None
                    },
                forall|j: int| 0 <= j < 0x08 ==> #[trigger] c.extra@[j] is None,
            decreases base@.len() - i,
        {
            c.base[i] = Some(base[i]);
            i = i + 1;
        }
        let mut i: usize = 0;
        while i < extra.len()
            invariant
                extra@.len() <= 0x08,
                i <= extra@.len(),
                c.supported,
                c.vendor_id is None,
                forall|j: int|
                    0 <= j < 0x18 ==> #[trigger] c.base@[j] == if j < base@.len() {
                        Some(base@[j])
                    } else {
                        None
                    },
                forall|j: int|
                    0 <= j < 0x08 ==> #[trigger] c.extra@[j] == if j < i {
                        Some(extra@[j])
                    } else {
                        None
                    },
            decreases extra@.len() - i,
        {
            c.extra[i] = Some(extra[i]);
            i = i + 1;
        }
        c.init_vendor_id();
        c.init_vendor();
        c
    }

    /// Basic leaf `i`, where it was queried.
    pub closed spec fn base_leaf(&self, i: int) -> Option<CpuidRegs> {
        self.base@[i]
    }

    /// Extended leaf `i`, where it was queried.
    pub closed spec fn extra_leaf(&self, i: int) -> Option<CpuidRegs> {
        self.extra@[i]
    }

    /// The processor has the `cpuid` instruction.
    pub closed spec fn is_supported(&self) -> bool {
        self.supported
    }

    /// The vendor string recorded, as bytes.
    pub closed spec fn vendor_id_bytes(&self) -> Option<Seq<u8>> {
        match self.vendor_id {
            Some(b) => Some(b@),
            None => None,
        }
    }

    /// The vendor recorded.
    pub closed spec fn spec_vendor(&self) -> Option<CpuVendor> {
        self.vendor
    }

    /// Records the vendor string of leaf 0, where that leaf was queried.
    fn init_vendor_id(&mut self)
        ensures
            final(self).base == old(self).base,
            final(self).extra == old(self).extra,
            final(self).supported == old(self).supported,
            final(self).vendor == old(self).vendor,
            final(self).vendor_id_bytes() == match old(self).base@[0] {
                Some(leaf) => Some(vendor_bytes(leaf)),
                None => old(self).vendor_id_bytes(),
            },
    {
        if let Some(leaf) = self.base[0] {
            let mut id: [u8; 12] = [0x20u8; 12];
            le_bytes_of(leaf.ebx, &mut id, 0);
            le_bytes_of(leaf.edx, &mut id, 4);
            le_bytes_of(leaf.ecx, &mut id, 8);
            assert(id@ =~= vendor_bytes(leaf));
            self.vendor_id = Some(id);
        }
    }

    /// Records the vendor that the vendor string names.
    fn init_vendor(&mut self)
        ensures
            final(self).base == old(self).base,
            final(self).extra == old(self).extra,
            final(self).supported == old(self).supported,
            final(self).vendor_id == old(self).vendor_id,
            final(self).spec_vendor() == match old(self).vendor_id_bytes() {
                Some(id) => vendor_of(id),
                None => None,
            },
    {
        self.vendor = match &self.vendor_id {
            Some(id) => {
                let intel: [u8; 12] = [71, 101, 110, 117, 105, 110, 101, 73, 110, 116, 101, 108];
                let amd: [u8; 12] = [65, 117, 116, 104, 101, 110, 116, 105, 99, 65, 77, 68];
                if bytes_equal(id, &intel) {
                    assert(intel@ =~= seq![71u8, 101, 110, 117, 105, 110, 101, 73, 110, 116, 101, 108]);
                    Some(CpuVendor::Intel)
                } else if bytes_equal(id, &amd) {
                    assert(amd@ =~= seq![65u8, 117, 116, 104, 101, 110, 116, 105, 99, 65, 77, 68]);
                    assert(intel@ =~= seq![71u8, 101, 110, 117, 105, 110, 101, 73, 110, 116, 101, 108]);
                    Some(CpuVendor::AMD)
                } else {
                    assert(amd@ =~= seq![65u8, 117, 116, 104, 101, 110, 116, 105, 99, 65, 77, 68]);
                    assert(intel@ =~= seq![71u8, 101, 110, 117, 105, 110, 101, 73, 110, 116, 101, 108]);
                    None
                }
            },
            None => None,
        };
    }

    /// The vendor string, where leaf 0 was queried and its bytes are text.
    pub fn vendor_id(&self) -> (r: Option<&str>)
        ensures
            match self.vendor_id_bytes() {
                Some(id) => {
                    &&& r is Some <==> vstd::utf8::valid_utf8(id)
                    &&& r matches Some(s) ==> s.spec_bytes() == id
                },
                None => r is None,
            },
    {
        match &self.vendor_id {
            Some(id) => utf8_str(id.as_slice()),
            None => None,
        }
    }

    /// The vendor, where it is one the kernel knows.
    pub fn vendor(&self) -> (r: Option<CpuVendor>)
        ensures
            r == self.spec_vendor(),
    {
        self.vendor
    }

    /// Bit `bit` of `reg` in basic leaf `leaf`, false where it was not queried.
    pub open spec fn base_bit(&self, leaf: int, reg: int, bit: u32) -> bool {
        match self.base_leaf(leaf) {
            Some(r) => reg_bit(leaf_reg(r, reg), bit),
            None => false,
        }
    }

    /// Bit `bit` of `reg` in extended leaf `leaf`, false where it was not
    /// queried.
    pub open spec fn extra_bit(&self, leaf: int, reg: int, bit: u32) -> bool {
        match self.extra_leaf(leaf) {
            Some(r) => reg_bit(leaf_reg(r, reg), bit),
            None => false,
        }
    }

    /// Bits `start` to `end - 1` of `eax` in basic leaf 1.
    pub open spec fn signature_field(&self, end: u32, start: u32) -> Option<u32> {
        match self.base_leaf(1) {
            Some(r) => Some(reg_field(r.eax, end, start)),
            None => None,
        }
    }

    pub fn x2apic(&self) -> (r: bool)
        ensures
            r == self.base_bit(1, 2, 21),
    {
        let leaf = self.base[1];
        flag(leaf, match leaf { Some(r) => r.ecx, None => 0 }, 21)
    }

    pub fn pse(&self) -> (r: bool)
        ensures
            r == self.base_bit(1, 3, 3),
    {
        let leaf = self.base[1];
        flag(leaf, match leaf { Some(r) => r.edx, None => 0 }, 3)
    }

    pub fn msr(&self) -> (r: bool)
        ensures
            r == self.base_bit(1, 3, 5),
    {
        let leaf = self.base[1];
        flag(leaf, match leaf { Some(r) => r.edx, None => 0 }, 5)
    }

    pub fn pae(&self) -> (r: bool)
        ensures
            r == self.base_bit(1, 3, 6),
    {
        let leaf = self.base[1];
        flag(leaf, match leaf { Some(r) => r.edx, None => 0 }, 6)
    }

    pub fn apic(&self) -> (r: bool)
        ensures
            r == self.base_bit(1, 3, 9),
    {
        let leaf = self.base[1];
        flag(leaf, match leaf { Some(r) => r.edx, None => 0 }, 9)
    }

    pub fn rdpid(&self) -> (r: bool)
        ensures
            r == self.base_bit(7, 2, 22),
    {
        let leaf = self.base[7];
        flag(leaf, match leaf { Some(r) => r.ecx, None => 0 }, 22)
    }

    pub fn syscall(&self) -> (r: bool)
        ensures
            r == self.extra_bit(1, 3, 11),
    {
        let leaf = self.extra[1];
        flag(leaf, match leaf { Some(r) => r.edx, None => 0 }, 11)
    }

    pub fn page1gb(&self) -> (r: bool)
        ensures
            r == self.extra_bit(1, 3, 26),
    {
        let leaf = self.extra[1];
        flag(leaf, match leaf { Some(r) => r.edx, None => 0 }, 26)
    }

    pub fn rdtscp(&self) -> (r: bool)
        ensures
            r == self.extra_bit(1, 3, 27),
    {
        let leaf = self.extra[1];
        flag(leaf, match leaf { Some(r) => r.edx, None => 0 }, 27)
    }

    fn signature(&self, end: u32, start: u32) -> (r: Option<u32>)
        requires
            1 <= end < 32,
            start < end,
        ensures
            r == self.signature_field(end, start),
            r matches Some(v) ==> v < 1u32 << ((end - start) as u32),
    {
        match self.base[1] {
            Some(leaf) => {
                let eax = leaf.eax;
                assert(1u32 << end >= 1) by (bit_vector)
                    requires
                        end < 32,
                ;
                let v = (eax & ((1u32 << end) - 1)) >> start;
                assert(v < 1u32 << ((end - start) as u32)) by (bit_vector)
                    requires
                        1 <= end < 32,
                        start < end,
                        v == (eax & (((1u32 << end) - 1) as u32)) >> start,
                ;
                Some(v)
            },
            None => None,
        }
    }

    pub fn stepping(&self) -> (r: Option<u32>)
        ensures
            r == self.signature_field(3, 0),
    {
        self.signature(3, 0)
    }

    pub fn model(&self) -> (r: Option<u32>)
        ensures
            r == self.signature_field(7, 4),
            r matches Some(v) ==> v < 8,
    {
        proof {
            assert(1u32 << 3u32 == 8) by (bit_vector);
        }
        self.signature(7, 4)
    }

    pub fn family(&self) -> (r: Option<u32>)
        ensures
            r == self.signature_field(11, 8),
    {
        self.signature(11, 8)
    }

    pub fn extended_model(&self) -> (r: Option<u32>)
        ensures
            r == self.signature_field(19, 16),
            r matches Some(v) ==> v < 8,
    {
        proof {
            assert(1u32 << 3u32 == 8) by (bit_vector);
        }
        self.signature(19, 16)
    }

    pub fn extended_family(&self) -> (r: Option<u32>)
        ensures
            r == self.signature_field(27, 20),
            r matches Some(v) ==> v < 128,
    {
        proof {
            assert(1u32 << 7u32 == 128) by (bit_vector);
        }
        self.signature(27, 20)
    }

    /// The model, with the extended model added for families 6 and 15.
    pub fn effective_model(&self) -> (r: Option<u32>)
        ensures
            r == match (self.signature_field(11, 8), self.signature_field(7, 4)) {
                (Some(f), Some(m)) => if f == 6 || f == 15 {
                    Some((m + self.signature_field(19, 16)->Some_0 * 16) as u32)
                } else {
                    Some(m)
                },
                _ => None,
            },
    {
        let f = match self.family() {
            Some(f) => f,
            None => {
                return None;
            },
        };
        let m = match self.model() {
            Some(m) => m,
            None => {
                return None;
            },
        };
        if f == 6 || f == 15 {
            let e = match self.extended_model() {
                Some(e) => e,
                None => {
                    return None;
                },
            };
            assert(e << 4u32 == e * 16) by (bit_vector)
                requires
                    e < 8,
            ;
            Some(m + (e << 4))
        } else {
            Some(m)
        }
    }

    /// The family, with the extended family added for family 15.
    pub fn effective_family(&self) -> (r: Option<u32>)
        ensures
            r == match self.signature_field(11, 8) {
                Some(f) => if f == 15 {
                    Some((f + self.signature_field(27, 20)->Some_0) as u32)
                } else {
                    Some(f)
                },
                None => None,
            },
    {
        let f = match self.family() {
            Some(f) => f,
            None => {
                return None;
            },
        };
        if f == 15 {
            let e = match self.extended_family() {
                Some(e) => e,
                None => {
                    return None;
                },
            };
            Some(f + e)
        } else {
            Some(f)
        }
    }
}

/// Register `reg` of a leaf: 0 for `eax`, 1 for `ebx`, 2 for `ecx`, 3 for
/// `edx`.
pub open spec fn leaf_reg(r: CpuidRegs, reg: int) -> u32 {
    if reg == 0 {
        r.eax
    } else if reg == 1 {
        r.ebx
    } else if reg == 2 {
        r.ecx
    } else {
        r.edx
    }
}

fn bytes_equal(a: &[u8; 12], b: &[u8; 12]) -> (r: bool)
    ensures
        r == (a@ == b@),
{
    let mut i: usize = 0;
    while i < 12
        invariant
            i <= 12,
            a@.len() == 12,
            b@.len() == 12,
            forall|j: int| 0 <= j < i ==> a@[j] == b@[j],
        decreases 12 - i,
    {
        if a[i] != b[i] {
            return false;
        }
        i = i + 1;
    }
    assert(a@ =~= b@);
    true
}

} // verus!
