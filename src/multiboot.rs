//! Structures handed over by a Multiboot2 boot loader.
//!
//! The boot loader describes physical memory, the loaded kernel image and the
//! boot device in a tagged structure. Walking the raw tags needs raw memory
//! access and happens outside this crate; here the decoded records are plain
//! values, together with the queries the rest of the kernel makes of them.
use vstd::prelude::*;

verus! {

/// The kind of a region in the boot loader's memory map.
#[derive(Clone, Copy, Debug, PartialEq, Eq, Structural)]
pub enum MMapEntryType {
    Free,
    Reserved,
    ACPI,
    Preserve,
    Bad,
}

impl MMapEntryType {
    /// Decodes the type field of a memory map entry.
    pub fn from_u32(ty: u32) -> (r: Option<MMapEntryType>)
        ensures
            r == mmap_type_of(ty),
    {
        match ty {
            1 => Some(MMapEntryType::Free),
            2 => Some(MMapEntryType::Reserved),
            3 => Some(MMapEntryType::ACPI),
            4 => Some(MMapEntryType::Preserve),
            5 => Some(MMapEntryType::Bad),
            _ => None,
        }
    }
}

/// The memory-map type that the code `ty` stands for.
pub open spec fn mmap_type_of(ty: u32) -> Option<MMapEntryType> {
    if ty == 1 {
        Some(MMapEntryType::Free)
    } else if ty == 2 {
        Some(MMapEntryType::Reserved)
    } else if ty == 3 {
        Some(MMapEntryType::ACPI)
    } else if ty == 4 {
        Some(MMapEntryType::Preserve)
    } else if ty == 5 {
        Some(MMapEntryType::Bad)
    } else {
        None
    }
}

/// One region of the boot loader's memory map.
#[derive(Clone, Copy, Debug)]
pub struct MMapEntry {
    pub base_addr: u64,
    pub length: u64,
    pub ty: MMapEntryType,
    pub reserved: u32,
}

impl MMapEntry {
    pub fn new(base_addr: u64, length: u64, ty: MMapEntryType) -> (r: MMapEntry)
        ensures
            r.base_addr == base_addr,
            r.length == length,
            r.ty == ty,
    {
        MMapEntry { base_addr, length, ty, reserved: 0 }
    }

    /// Is this region usable memory?
    pub fn is_free(&self) -> (r: bool)
        ensures
            r == (self.ty == MMapEntryType::Free),
    {
        self.ty == MMapEntryType::Free
    }

    /// Address of the first byte of the region.
    pub fn start(&self) -> (r: u64)
        ensures
            r == self.base_addr,
    {
        self.base_addr
    }

    /// Size of the region in bytes.
    pub fn size(&self) -> (r: u64)
        ensures
            r == self.length,
    {
        self.length
    }

    /// Address of the last byte of the region.
    pub fn end(&self) -> (r: u64)
        requires
            self.length >= 1,
            self.base_addr + self.length - 1 <= u64::MAX,
        ensures
            r == self.base_addr + self.length - 1,
    {
        self.base_addr + (self.length - 1)
    }

    /// The region lies below the last page of the 64-bit address space, as
    /// every region reported on x86-64 (whose physical addresses have at most
    /// 52 bits) does.
    pub open spec fn in_address_space(&self) -> bool {
        self.base_addr + self.length <= 0xffff_ffff_ffff_f000
    }
}

/// Where the boot loader's tag structure lies in memory.
#[derive(Clone, Copy, Debug)]
pub struct MultibootTags {
    addr: u64,
    size: u32,
}

impl MultibootTags {
    /// The structure at `addr`, whose first word gives its `size` in bytes.
    pub fn new(addr: u64, size: u32) -> (r: MultibootTags)
        ensures
            r.spec_start() == addr,
            r.spec_size() == size,
    {
        MultibootTags { addr, size }
    }

    pub closed spec fn spec_start(&self) -> u64 {
        self.addr
    }

    pub closed spec fn spec_size(&self) -> u32 {
        self.size
    }

    /// Return pointer to beginning of the structure
    pub fn start(&self) -> (r: u64)
        ensures
            r == self.spec_start(),
    {
        self.addr
    }

    /// The size of the structure in bytes.
    pub fn size(&self) -> (r: u32)
        ensures
            r == self.spec_size(),
    {
        self.size
    }

    /// Returns pointer to the last byte of the structure
    pub fn end(&self) -> (r: u64)
        requires
            self.spec_size() >= 1,
            self.spec_start() + self.spec_size() - 1 <= u64::MAX,
        ensures
            r == self.spec_start() + self.spec_size() - 1,
    {
        self.addr + (self.size as u64 - 1)
    }
}

/// The BIOS device the kernel was loaded from.
#[derive(Clone, Copy, Debug)]
pub struct BiosBootDevice {
    pub biosdev: u32,
    partition: u32,
    sub_partition: u32,
}

/// A partition number, where it is not the all-ones value that stands for
/// "none".
pub open spec fn partition_of(v: u32) -> Option<u32> {
    if v == 0xffff_ffff {
        None
    } else {
        Some(v)
    }
}

impl BiosBootDevice {
    pub fn new(biosdev: u32, partition: u32, sub_partition: u32) -> (r: BiosBootDevice)
        ensures
            r.raw_biosdev() == biosdev,
            r.raw_partition() == partition,
            r.raw_sub_partition() == sub_partition,
    {
        BiosBootDevice { biosdev, partition, sub_partition }
    }

    pub closed spec fn raw_biosdev(&self) -> u32 {
        self.biosdev
    }

    pub closed spec fn raw_partition(&self) -> u32 {
        self.partition
    }

    pub closed spec fn raw_sub_partition(&self) -> u32 {
        self.sub_partition
    }

    pub fn partition(&self) -> (r: Option<u32>)
        ensures
            r == partition_of(self.raw_partition()),
    {
        assert(!0u32 == 0xffff_ffffu32) by (bit_vector);
        if self.partition == !0u32 {
            return None;
        }
        Some(self.partition)
    }

    pub fn sub_partition(&self) -> (r: Option<u32>)
        ensures
            r == partition_of(self.raw_sub_partition()),
    {
        assert(!0u32 == 0xffff_ffffu32) by (bit_vector);
        if self.sub_partition == !0u32 {
            return None;
        }
        Some(self.sub_partition)
    }
}

/// Amounts of lower and upper memory, in KiB.
#[derive(Clone, Copy, Debug)]
pub struct BasicMemInfo {
    pub mem_lower: u32,
    pub mem_upper: u32,
}

/// Limited wrapper around ELF64 sections
#[derive(Clone, Copy, Debug)]
pub struct ElfSection {
    sh_name: u32,
    sh_type: u32,
    sh_flags: u64,
    sh_addr: u64,
    sh_offset: u64,
    sh_size: u64,
    sh_link: u32,
    sh_info: u32,
    sh_addralign: u64,
    sh_entsize: u64,
}

impl ElfSection {
    /// A section header with the given fields, in the order of the ELF64
    /// layout.
    pub fn from_raw(
        sh_name: u32,
        sh_type: u32,
        sh_flags: u64,
        sh_addr: u64,
        sh_offset: u64,
        sh_size: u64,
        sh_link: u32,
        sh_info: u32,
        sh_addralign: u64,
        sh_entsize: u64,
    ) -> (r: ElfSection)
        ensures
            r.flags() == sh_flags,
            r.addr() == sh_addr,
            r.len() == sh_size,
    {
        ElfSection {
            sh_name,
            sh_type,
            sh_flags,
            sh_addr,
            sh_offset,
            sh_size,
            sh_link,
            sh_info,
            sh_addralign,
            sh_entsize,
        }
    }

    pub closed spec fn flags(&self) -> u64 {
        self.sh_flags
    }

    pub closed spec fn addr(&self) -> u64 {
        self.sh_addr
    }

    pub closed spec fn len(&self) -> u64 {
        self.sh_size
    }

    /// The section occupies memory at run time (flag `SHF_ALLOC`).
    pub open spec fn allocated(&self) -> bool {
        self.flags() & 2 != 0
    }

    /// The address of the last byte of the section.
    pub open spec fn last_byte(&self) -> int {
        self.addr() + self.len() - 1
    }

    /// Has this section been loaded into memory?
    pub fn is_allocated(&self) -> (r: bool)
        ensures
            r == self.allocated(),
    {
        self.sh_flags & 0x2 != 0
    }

    /// Return pointer to section
    pub fn start(&self) -> (r: u64)
        ensures
            r == self.addr(),
    {
        self.sh_addr
    }

    /// Return size of section
    pub fn size(&self) -> (r: u64)
        ensures
            r == self.len(),
    {
        self.sh_size
    }

    /// Return pointer to the last byte of section
    pub fn end(&self) -> (r: u64)
        requires
            0 <= self.last_byte() <= u64::MAX,
        ensures
            r == self.last_byte(),
    {
        if self.sh_size == 0 {
            self.sh_addr - 1
        } else {
            self.sh_addr + (self.sh_size - 1)
        }
    }
}

/// The lowest start address of the allocated sections among `s`.
pub open spec fn lowest_start(s: Seq<ElfSection>) -> Option<u64>
    decreases s.len(),
{
    if s.len() == 0 {
        None
    } else {
        let rest = lowest_start(s.drop_last());
        if !s.last().allocated() {
            rest
        } else {
            match rest {
                Some(m) => if s.last().addr() < m {
                    Some(s.last().addr())
                } else {
                    Some(m)
                },
                None => Some(s.last().addr()),
            }
        }
    }
}

/// The total size of the allocated sections among `s`.
pub open spec fn total_size(s: Seq<ElfSection>) -> int
    decreases s.len(),
{
    if s.len() == 0 {
        0
    } else {
        total_size(s.drop_last()) + if s.last().allocated() {
            s.last().len() as int
        } else {
            0
        }
    }
}

/// The highest last byte of the allocated sections among `s`.
pub open spec fn highest_end(s: Seq<ElfSection>) -> Option<int>
    decreases s.len(),
{
    if s.len() == 0 {
        None
    } else {
        let rest = highest_end(s.drop_last());
        if !s.last().allocated() {
            rest
        } else {
            match rest {
                Some(m) => if s.last().last_byte() > m {
                    Some(s.last().last_byte())
                } else {
                    Some(m)
                },
                None => Some(s.last().last_byte()),
            }
        }
    }
}

/// List of ELF sections
#[derive(Debug)]
pub struct ElfSections {
    pub num: usize,
    pub list: Vec<ElfSection>,
    pub entsize: usize,
    pub shndx: usize,
}

impl ElfSections {
    /// Return pointer to start of kernel image
    pub fn image_start(&self) -> (r: u64)
        requires
            lowest_start(self.list@) is Some,
        ensures
            lowest_start(self.list@) == Some(r),
    {
        let mut best: Option<u64> = None;
        let mut i: usize = 0;
        while i < self.list.len()
            invariant
                i <= self.list@.len(),
                best == lowest_start(self.list@.subrange(0, i as int)),
            decreases self.list@.len() - i,
        {
            proof {
                assert(self.list@.subrange(0, i as int + 1).drop_last() =~= self.list@.subrange(
                    0,
                    i as int,
                ));
            }
            let section = &self.list[i];
            if section.is_allocated() {
                let start = section.start();
                best = match best {
                    Some(m) => if start < m {
                        Some(start)
                    } else {
                        Some(m)
                    },
                    None => Some(start),
                };
            }
            i = i + 1;
        }
        assert(self.list@.subrange(0, self.list@.len() as int) =~= self.list@);
        best.unwrap()
    }

    /// Return size of kernel image
    pub fn image_size(&self) -> (r: u64)
        requires
            total_size(self.list@) <= u64::MAX,
        ensures
            r == total_size(self.list@),
    {
        let mut sum: u64 = 0;
        let mut i: usize = 0;
        while i < self.list.len()
            invariant
                i <= self.list@.len(),
                total_size(self.list@) <= u64::MAX,
                sum == total_size(self.list@.subrange(0, i as int)),
            decreases self.list@.len() - i,
        {
            proof {
                assert(self.list@.subrange(0, i as int + 1).drop_last() =~= self.list@.subrange(
                    0,
                    i as int,
                ));
                lemma_total_size_prefix(self.list@, i as int + 1);
            }
            let section = &self.list[i];
            if section.is_allocated() {
                sum = sum + section.size();
            }
            i = i + 1;
        }
        assert(self.list@.subrange(0, self.list@.len() as int) =~= self.list@);
        sum
    }

    /// Return pointer to the last byte of kernel image
    pub fn image_end(&self) -> (r: u64)
        requires
            highest_end(self.list@) is Some,
            forall|i: int|
                0 <= i < self.list@.len() && #[trigger] self.list@[i].allocated() ==> 0
                    <= self.list@[i].last_byte() <= u64::MAX,
        ensures
            highest_end(self.list@) == Some(r as int),
    {
        let mut best: Option<u64> = None;
        let mut i: usize = 0;
        while i < self.list.len()
            invariant
                i <= self.list@.len(),
                forall|j: int|
                    0 <= j < self.list@.len() && #[trigger] self.list@[j].allocated() ==> 0
                        <= self.list@[j].last_byte() <= u64::MAX,
                match best {
                    Some(m) => highest_end(self.list@.subrange(0, i as int)) == Some(m as int),
                    None => highest_end(self.list@.subrange(0, i as int)) is None,
                },
            decreases self.list@.len() - i,
        {
            proof {
                assert(self.list@.subrange(0, i as int + 1).drop_last() =~= self.list@.subrange(
                    0,
                    i as int,
                ));
            }
            let section = &self.list[i];
            if section.is_allocated() {
                let end = section.end();
                best = match best {
                    Some(m) => if end > m {
                        Some(end)
                    } else {
                        Some(m)
                    },
                    None => Some(end),
                };
            }
            i = i + 1;
        }
        assert(self.list@.subrange(0, self.list@.len() as int) =~= self.list@);
        best.unwrap()
    }
}

proof fn lemma_total_size_prefix(s: Seq<ElfSection>, n: int)
    requires
        0 <= n <= s.len(),
    ensures
        total_size(s.subrange(0, n)) <= total_size(s),
    decreases s.len() - n,
{
    if n < s.len() {
        lemma_total_size_prefix(s, n + 1);
        assert(s.subrange(0, n + 1).drop_last() =~= s.subrange(0, n));
    } else {
        assert(s.subrange(0, n) =~= s);
    }
}

/// The tags of the boot information that the kernel uses.
#[derive(Debug)]
pub struct MultibootInfo {
    pub cmd_line: Option<String>,
    pub boot_loader_name: Option<String>,
    pub basic_mem_info: Option<BasicMemInfo>,
    pub bios_boot_dev: Option<BiosBootDevice>,
    pub mem_map: Option<Vec<MMapEntry>>,
    pub elf_sections: Option<ElfSections>,
}

impl MultibootInfo {
    /// Information with no tag found yet.
    pub fn empty() -> (r: MultibootInfo)
        ensures
            r.cmd_line is None,
            r.boot_loader_name is None,
            r.basic_mem_info is None,
            r.bios_boot_dev is None,
            r.mem_map is None,
            r.elf_sections is None,
    {
        MultibootInfo {
            cmd_line: None,
            boot_loader_name: None,
            basic_mem_info: None,
            bios_boot_dev: None,
            mem_map: None,
            elf_sections: None,
        }
    }
}

/// Why the boot information could not be read.
#[derive(Clone, Copy, Debug, PartialEq, Eq, Structural)]
pub enum ParseError {
    /// The size field does not match the structure's length.
    SizeMismatch,
    /// A tag runs past the end of the structure, or is shorter than its
    /// header.
    Truncated,
    /// A tag type that the protocol does not define.
    UnknownTag(u32),
    /// A memory map whose entries are not of the supported format.
    UnsupportedMemoryMap,
}

/// The little-endian 32-bit word at `off`.
pub open spec fn le_u32(b: Seq<u8>, off: int) -> int {
    b[off] + b[off + 1] * 0x100 + b[off + 2] * 0x1_0000 + b[off + 3] * 0x100_0000
}

/// The little-endian 64-bit word at `off`.
pub open spec fn le_u64(b: Seq<u8>, off: int) -> int {
    le_u32(b, off) + le_u32(b, off + 4) * 0x1_0000_0000
}

/// `x` rounded up to a multiple of 8.
pub open spec fn round8(x: int) -> int {
    (x + 7) / 8 * 8
}

/// One tag: its type, and where its data starts and how long it is.
#[derive(Clone, Copy, Debug, PartialEq, Eq, Structural)]
pub struct TagInfo {
    pub ty: u32,
    pub data: usize,
    pub size: usize,
}

/// The tags from offset `off` to the end of `b`, each starting at a multiple
/// of 8 after the previous one.
pub open spec fn tags_from(b: Seq<u8>, off: int) -> Result<Seq<TagInfo>, ParseError>
    decreases b.len() + 8 - off,
{
    if off >= b.len() {
        if off == b.len() {
            Ok(Seq::empty())
        } else {
            Err(ParseError::Truncated)
        }
    } else if off + 8 > b.len() {
        Err(ParseError::Truncated)
    } else {
        let ty = le_u32(b, off);
        let size = le_u32(b, off + 4);
        if ty > 18 {
            Err(ParseError::UnknownTag(ty as u32))
        } else if size < 8 || off + size > b.len() {
            Err(ParseError::Truncated)
        } else {
            match tags_from(b, round8(off + size)) {
                Ok(rest) => Ok(
                    seq![TagInfo { ty: ty as u32, data: (off + 8) as usize, size: (size - 8) as usize }]
                        + rest,
                ),
                Err(e) => Err(e),
            }
        }
    }
}

/// The tags of a boot information structure: an 8-byte header whose first
/// word is the structure's size, then the tags.
pub open spec fn tags_of(b: Seq<u8>) -> Result<Seq<TagInfo>, ParseError> {
    if b.len() < 8 || le_u32(b, 0) != b.len() {
        Err(ParseError::SizeMismatch)
    } else {
        tags_from(b, 8)
    }
}

/// Reads the little-endian word at `off`.
pub fn read_u32(b: &[u8], off: usize) -> (r: u32)
    requires
        off + 4 <= b@.len(),
    ensures
        r == le_u32(b@, off as int),
{
    let x0 = b[off];
    let x1 = b[off + 1];
    let x2 = b[off + 2];
    let x3 = b[off + 3];
    let r = (x0 as u32) | (x1 as u32) << 8 | (x2 as u32) << 16 | (x3 as u32) << 24;
    assert(r == x0 + x1 * 0x100 + x2 * 0x1_0000 + x3 * 0x100_0000) by (bit_vector)
        requires
            r == (x0 as u32) | (x1 as u32) << 8u32 | (x2 as u32) << 16u32 | (x3 as u32) << 24u32,
    ;
    r
}

/// Reads the little-endian double word at `off`.
pub fn read_u64(b: &[u8], off: usize) -> (r: u64)
    requires
        off + 8 <= b@.len(),
    ensures
        r == le_u64(b@, off as int),
{
    let len = b.len();
    let lo = read_u32(b, off);
    let hi = read_u32(b, off + 4);
    let r = (lo as u64) | (hi as u64) << 32;
    assert(r == lo + hi * 0x1_0000_0000) by (bit_vector)
        requires
            r == (lo as u64) | (hi as u64) << 32u64,
    ;
    r
}

/// Lists the tags of the boot information structure `bytes`.
pub fn tag_list(bytes: &[u8]) -> (r: Result<Vec<TagInfo>, ParseError>)
    requires
        bytes@.len() + 16 <= usize::MAX,
    ensures
        match r {
            Ok(v) => tags_of(bytes@) == Ok::<Seq<TagInfo>, ParseError>(v@),
            Err(e) => tags_of(bytes@) == Err::<Seq<TagInfo>, ParseError>(e),
        },
{
    let len = bytes.len();
    if len < 8 || read_u32(bytes, 0) as usize != len {
        return Err(ParseError::SizeMismatch);
    }
    assert(tags_of(bytes@) == tags_from(bytes@, 8));
    let mut tags: Vec<TagInfo> = Vec::new();
    let mut off: usize = 8;
    while off < len
        invariant
            len == bytes@.len(),
            len + 16 <= usize::MAX,
            tags_of(bytes@) == tags_from(bytes@, 8),
            8 <= off <= len + 8,
            tags_from(bytes@, 8) == match tags_from(bytes@, off as int) {
                Ok(rest) => Ok(tags@ + rest),
                Err(e) => Err::<Seq<TagInfo>, ParseError>(e),
            },
        decreases len + 8 - off,
    {
        if len - off < 8 {
            assert(tags_from(bytes@, off as int) == Err::<Seq<TagInfo>, ParseError>(
                ParseError::Truncated,
            ));
            return Err(ParseError::Truncated);
        }
        let ty = read_u32(bytes, off);
        let size = read_u32(bytes, off + 4) as usize;
        if ty > 18 {
            assert(tags_from(bytes@, off as int) == Err::<Seq<TagInfo>, ParseError>(
                ParseError::UnknownTag(ty),
            ));
            return Err(ParseError::UnknownTag(ty));
        }
        if size < 8 || size > len - off {
            assert(tags_from(bytes@, off as int) == Err::<Seq<TagInfo>, ParseError>(
                ParseError::Truncated,
            ));
            return Err(ParseError::Truncated);
        }
        let tag = TagInfo { ty, data: off + 8, size: size - 8 };
        let next = (off + size + 7) / 8 * 8;
        proof {
            let rest = tags_from(bytes@, next as int);
            assert(tags_from(bytes@, off as int) == match rest {
                Ok(r) => Ok(seq![tag] + r),
                Err(e) => Err::<Seq<TagInfo>, ParseError>(e),
            });
            if let Ok(r) = rest {
                assert(tags@ + (seq![tag] + r) =~= tags@.push(tag) + r);
            }
        }
        tags.push(tag);
        off = next;
    }
    if off != len {
        assert(tags_from(bytes@, off as int) == Err::<Seq<TagInfo>, ParseError>(
            ParseError::Truncated,
        ));
        return Err(ParseError::Truncated);
    }
    assert(tags@ + Seq::<TagInfo>::empty() =~= tags@);
    Ok(tags)
}

/// The memory-map type of the code `ty`; codes the protocol does not define
/// count as reserved.
pub open spec fn mmap_type_or_reserved(ty: u32) -> MMapEntryType {
    match mmap_type_of(ty) {
        Some(t) => t,
        None => MMapEntryType::Reserved,
    }
}

/// The memory-map entry whose 24 bytes start at `off`.
pub open spec fn mmap_entry_at(b: Seq<u8>, off: int) -> MMapEntry {
    MMapEntry {
        base_addr: le_u64(b, off) as u64,
        length: le_u64(b, off + 8) as u64,
        ty: mmap_type_or_reserved(le_u32(b, off + 16) as u32),
        reserved: le_u32(b, off + 20) as u32,
    }
}

/// Decodes a memory-map tag: an entry size of 24 and a version of 0, then
/// the entries that fit in the tag.
pub fn parse_mmap(bytes: &[u8], tag: TagInfo) -> (r: Result<Vec<MMapEntry>, ParseError>)
    requires
        tag.data + tag.size <= bytes@.len(),
    ensures
        (r is Err) <==> (tag.size < 8 || le_u32(bytes@, tag.data as int) != 24 || le_u32(
            bytes@,
            tag.data + 4,
        ) != 0),
        r matches Err(e) ==> e == ParseError::UnsupportedMemoryMap,
        r matches Ok(v) ==> {
            &&& v@.len() == (tag.size - 8) / 24
            &&& forall|i: int|
                0 <= i < v@.len() ==> #[trigger] v@[i] == mmap_entry_at(
                    bytes@,
                    tag.data + 8 + 24 * i,
                )
        },
{
    let len = bytes.len();
    if tag.size < 8 {
        return Err(ParseError::UnsupportedMemoryMap);
    }
    let entry_size = read_u32(bytes, tag.data);
    let entry_version = read_u32(bytes, tag.data + 4);
    if entry_size != 24 || entry_version != 0 {
        return Err(ParseError::UnsupportedMemoryMap);
    }
    let n = (tag.size - 8) / 24;
    let mut entries: Vec<MMapEntry> = Vec::new();
    let mut i: usize = 0;
    while i < n
        invariant
            len == bytes@.len(),
            n == (tag.size - 8) / 24,
            tag.size >= 8,
            tag.data + tag.size <= bytes@.len(),
            i <= n,
            entries@.len() == i,
            forall|j: int|
                0 <= j < i ==> #[trigger] entries@[j] == mmap_entry_at(bytes@, tag.data + 8 + 24 * j),
        decreases n - i,
    {
        assert(tag.data + 8 + 24 * i + 24 <= tag.data + tag.size) by (nonlinear_arith)
            requires
                i < n,
                n == (tag.size - 8) / 24,
                tag.size >= 8,
        ;
        let e = tag.data + 8 + 24 * i;
        let code = read_u32(bytes, e + 16);
        let ty = match MMapEntryType::from_u32(code) {
            Some(t) => t,
            None => MMapEntryType::Reserved,
        };
        let entry = MMapEntry {
            base_addr: read_u64(bytes, e),
            length: read_u64(bytes, e + 8),
            ty,
            reserved: read_u32(bytes, e + 20),
        };
        entries.push(entry);
        i = i + 1;
    }
    Ok(entries)
}

/// The ELF section header whose 64 bytes start at `off`.
pub closed spec fn elf_section_at(b: Seq<u8>, off: int) -> ElfSection {
    ElfSection {
        sh_name: le_u32(b, off) as u32,
        sh_type: le_u32(b, off + 4) as u32,
        sh_flags: le_u64(b, off + 8) as u64,
        sh_addr: le_u64(b, off + 16) as u64,
        sh_offset: le_u64(b, off + 24) as u64,
        sh_size: le_u64(b, off + 32) as u64,
        sh_link: le_u32(b, off + 40) as u32,
        sh_info: le_u32(b, off + 44) as u32,
        sh_addralign: le_u64(b, off + 48) as u64,
        sh_entsize: le_u64(b, off + 56) as u64,
    }
}

/// Decodes an ELF-sections tag: the number of sections, the size of an
/// entry and the index of the section-name table, then the headers that come
/// before that table.
pub fn parse_elf_sections(bytes: &[u8], tag: TagInfo) -> (r: Result<ElfSections, ParseError>)
    requires
        tag.data + tag.size <= bytes@.len(),
    ensures
        (r is Err) <==> (tag.size < 12 || tag.size < 12 + 64 * le_u32(bytes@, tag.data + 8)),
        r matches Err(e) ==> e == ParseError::Truncated,
        r matches Ok(s) ==> {
            &&& s.num == le_u32(bytes@, tag.data as int)
            &&& s.entsize == le_u32(bytes@, tag.data + 4)
            &&& s.shndx == le_u32(bytes@, tag.data + 8)
            &&& s.list@.len() == s.shndx
            &&& forall|i: int|
                0 <= i < s.list@.len() ==> #[trigger] s.list@[i] == elf_section_at(
                    bytes@,
                    tag.data + 12 + 64 * i,
                )
        },
{
    let len = bytes.len();
    if tag.size < 12 {
        return Err(ParseError::Truncated);
    }
    let num = read_u32(bytes, tag.data) as usize;
    let entsize = read_u32(bytes, tag.data + 4) as usize;
    let shndx = read_u32(bytes, tag.data + 8) as usize;
    if shndx > (tag.size - 12) / 64 {
        assert(tag.size < 12 + 64 * shndx) by (nonlinear_arith)
            requires
                shndx > (tag.size - 12) / 64,
                tag.size >= 12,
        ;
        return Err(ParseError::Truncated);
    }
    assert(tag.size >= 12 + 64 * shndx) by (nonlinear_arith)
        requires
            shndx <= (tag.size - 12) / 64,
            tag.size >= 12,
    ;
    let mut list: Vec<ElfSection> = Vec::new();
    let mut i: usize = 0;
    while i < shndx
        invariant
            len == bytes@.len(),
            tag.size >= 12 + 64 * shndx,
            tag.data + tag.size <= bytes@.len(),
            i <= shndx,
            list@.len() == i,
            forall|j: int|
                0 <= j < i ==> #[trigger] list@[j] == elf_section_at(bytes@, tag.data + 12 + 64 * j),
        decreases shndx - i,
    {
        assert(tag.data + 12 + 64 * i + 64 <= tag.data + tag.size) by (nonlinear_arith)
            requires
                i < shndx,
                tag.size >= 12 + 64 * shndx,
        ;
        let h = tag.data + 12 + 64 * i;
        let section = ElfSection {
            sh_name: read_u32(bytes, h),
            sh_type: read_u32(bytes, h + 4),
            sh_flags: read_u64(bytes, h + 8),
            sh_addr: read_u64(bytes, h + 16),
            sh_offset: read_u64(bytes, h + 24),
            sh_size: read_u64(bytes, h + 32),
            sh_link: read_u32(bytes, h + 40),
            sh_info: read_u32(bytes, h + 44),
            sh_addralign: read_u64(bytes, h + 48),
            sh_entsize: read_u64(bytes, h + 56),
        };
        list.push(section);
        i = i + 1;
    }
    Ok(ElfSections { num, list, entsize, shndx })
}

/// Decodes a basic-memory tag: lower and upper memory, in KiB.
pub fn parse_basic_mem_info(bytes: &[u8], tag: TagInfo) -> (r: Option<BasicMemInfo>)
    requires
        tag.data + tag.size <= bytes@.len(),
    ensures
        r is None <==> tag.size < 8,
        r matches Some(m) ==> m.mem_lower == le_u32(bytes@, tag.data as int) && m.mem_upper
            == le_u32(bytes@, tag.data + 4),
{
    let len = bytes.len();
    if tag.size < 8 {
        return None;
    }
    Some(BasicMemInfo { mem_lower: read_u32(bytes, tag.data), mem_upper: read_u32(bytes, tag.data + 4) })
}

/// Decodes a BIOS boot device tag: the device, the partition and the
/// sub-partition.
pub fn parse_bios_boot_device(bytes: &[u8], tag: TagInfo) -> (r: Option<BiosBootDevice>)
    requires
        tag.data + tag.size <= bytes@.len(),
    ensures
        r is None <==> tag.size < 12,
        r matches Some(d) ==> {
            &&& d.raw_biosdev() == le_u32(bytes@, tag.data as int)
            &&& d.raw_partition() == le_u32(bytes@, tag.data + 4)
            &&& d.raw_sub_partition() == le_u32(bytes@, tag.data + 8)
        },
{
    let len = bytes.len();
    if tag.size < 12 {
        return None;
    }
    Some(
        BiosBootDevice::new(
            read_u32(bytes, tag.data),
            read_u32(bytes, tag.data + 4),
            read_u32(bytes, tag.data + 8),
        ),
    )
}

} // verus!
