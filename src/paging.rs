//! Four-level x86-64 page tables.
//!
//! The tables form a radix tree: level 4 (the root) points to level-3 tables,
//! which point to level-2 tables, which point to level-1 tables. Level-1
//! entries always map a frame; level-2 and level-3 entries map a 2 MiB or a
//! 1 GiB frame when their huge bit is set; level-4 entries always point to a
//! table. Each 9-bit slice of a virtual address selects the entry at one level.
//!
//! The tables live in an arena owned by `PT4`: slot 0 holds the root, and each
//! table records the frame it occupies, its 512 entry words exactly as the
//! hardware reads them, and for each entry that points to a table the slot of
//! that table. Tables are never freed. Mapping checks the path first, then
//! takes the frames that missing tables need, then writes: a mapping that
//! fails leaves the tree as it was.
use vstd::prelude::*;

use crate::frame_allocator::{Frame, FrameAllocator, PAGE_SIZE};

verus! {

/// Bits 12 to 51 of an entry: the physical address it refers to.
pub const PTE_ADDR_MASK: u64 = 0x000f_ffff_ffff_f000;

pub const PT1_INDEX: u64 = 0x1ffu64 << 12u64;
pub const PT2_INDEX: u64 = 0x1ffu64 << 21u64;
pub const PT3_INDEX: u64 = 0x1ffu64 << 30u64;
pub const PT4_INDEX: u64 = 0x1ffu64 << 39u64;

/// Number of entries in every table.
pub const NUM_ENTRIES: usize = 512;

pub const NONE: u64 = 0;
pub const PRESENT: u64 = 1;
pub const WRITE: u64 = 2;
pub const USER: u64 = 4;
pub const WRITE_THROUGH: u64 = 8;
pub const NO_CACHE: u64 = 16;
pub const ACCESSED: u64 = 32;
pub const DIRTY: u64 = 64;
pub const HUGE: u64 = 128;
pub const GLOBAL: u64 = 256;
pub const NO_EXECUTE: u64 = 0x8000_0000_0000_0000;

/// Every flag bit an entry can carry.
pub const ALL_FLAGS: u64 = 0x8000_0000_0000_01ff;

/// A set of entry flags.
#[derive(Clone, Copy, Debug, PartialEq, Eq, Structural)]
pub struct PageFlags {
    bits: u64,
}

impl View for PageFlags {
    type V = u64;

    closed spec fn view(&self) -> u64 {
        self.bits
    }
}

impl PageFlags {
    #[verifier::type_invariant]
    spec fn only_flags(self) -> bool {
        self.bits & ALL_FLAGS == self.bits
    }

    /// The flags among `bits`; other bits are dropped.
    pub fn from_bits_truncate(bits: u64) -> (r: PageFlags)
        ensures
            r@ == bits & ALL_FLAGS,
    {
        assert((bits & ALL_FLAGS) & ALL_FLAGS == bits & ALL_FLAGS) by (bit_vector);
        PageFlags { bits: bits & ALL_FLAGS }
    }

    /// No flag.
    pub fn empty() -> (r: PageFlags)
        ensures
            r@ == 0,
    {
        assert(0u64 & ALL_FLAGS == 0u64) by (bit_vector);
        PageFlags { bits: 0 }
    }

    pub fn bits(&self) -> (r: u64)
        ensures
            r == self@,
            r & ALL_FLAGS == r,
    {
        proof {
            use_type_invariant(self);
        }
        self.bits
    }

    /// All of `bits` are set in these flags.
    pub fn contains(&self, bits: u64) -> (r: bool)
        ensures
            r == (self@ & bits == bits),
    {
        self.bits & bits == bits
    }

    /// The flags of both sets.
    pub fn union(&self, other: PageFlags) -> (r: PageFlags)
        ensures
            r@ == self@ | other@,
    {
        proof {
            use_type_invariant(self);
            use_type_invariant(&other);
        }
        let a = self.bits;
        let b = other.bits;
        assert((a | b) & ALL_FLAGS == a | b) by (bit_vector)
            requires
                a & ALL_FLAGS == a,
                b & ALL_FLAGS == b,
        ;
        PageFlags { bits: a | b }
    }
}

/// The 9-bit index that `va` selects at `level` (1 to 4).
pub open spec fn index_of(va: u64, level: int) -> int {
    if level == 1 {
        ((va >> 12u64) & 0x1ff) as int
    } else if level == 2 {
        ((va >> 21u64) & 0x1ff) as int
    } else if level == 3 {
        ((va >> 30u64) & 0x1ff) as int
    } else {
        ((va >> 39u64) & 0x1ff) as int
    }
}

/// Index of the level-1 entry for `val` (bits 12 to 20).
pub fn get_pt1_index(val: u64) -> (r: usize)
    ensures
        r == index_of(val, 1),
        r < 512,
{
    let r = (val & PT1_INDEX) >> 12;
    assert(r == (val >> 12u64) & 0x1ff && r < 512) by (bit_vector)
        requires
            r == (val & (0x1ffu64 << 12u64)) >> 12,
    ;
    r as usize
}

/// Index of the level-2 entry for `val` (bits 21 to 29).
pub fn get_pt2_index(val: u64) -> (r: usize)
    ensures
        r == index_of(val, 2),
        r < 512,
{
    let r = (val & PT2_INDEX) >> 21;
    assert(r == (val >> 21u64) & 0x1ff && r < 512) by (bit_vector)
        requires
            r == (val & (0x1ffu64 << 21u64)) >> 21,
    ;
    r as usize
}

/// Index of the level-3 entry for `val` (bits 30 to 38).
pub fn get_pt3_index(val: u64) -> (r: usize)
    ensures
        r == index_of(val, 3),
        r < 512,
{
    let r = (val & PT3_INDEX) >> 30;
    assert(r == (val >> 30u64) & 0x1ff && r < 512) by (bit_vector)
        requires
            r == (val & (0x1ffu64 << 30u64)) >> 30,
    ;
    r as usize
}

/// Index of the level-4 entry for `val` (bits 39 to 47).
pub fn get_pt4_index(val: u64) -> (r: usize)
    ensures
        r == index_of(val, 4),
        r < 512,
{
    let r = (val & PT4_INDEX) >> 39;
    assert(r == (val >> 39u64) & 0x1ff && r < 512) by (bit_vector)
        requires
            r == (val & (0x1ffu64 << 39u64)) >> 39,
    ;
    r as usize
}

fn index_at(va: u64, level: usize) -> (r: usize)
    requires
        1 <= level <= 4,
    ensures
        r == index_of(va, level as int),
        r < 512,
{
    if level == 1 {
        get_pt1_index(va)
    } else if level == 2 {
        get_pt2_index(va)
    } else if level == 3 {
        get_pt3_index(va)
    } else {
        get_pt4_index(va)
    }
}

proof fn lemma_index_bounds(va: u64)
    ensures
        forall|l: int| #![trigger index_of(va, l)] 0 <= index_of(va, l) < 512,
{
    assert(0 <= index_of(va, 4) < 512) by (bit_vector);
    assert(0 <= index_of(va, 3) < 512) by (bit_vector);
    assert(0 <= index_of(va, 2) < 512) by (bit_vector);
    assert(0 <= index_of(va, 1) < 512) by (bit_vector);
}

/// A canonical address: bits 48 to 63 repeat bit 47.
pub open spec fn is_canonical(va: u64) -> bool {
    (va >> 47u64) == 0 || (va >> 47u64) == 0x1ffff
}

/// The page-aligned canonical address whose four level indices are the given
/// ones.
pub open spec fn address_of_indices(i4: u64, i3: u64, i2: u64, i1: u64) -> u64 {
    let low = (i4 << 39u64) | (i3 << 30u64) | (i2 << 21u64) | (i1 << 12u64);
    if i4 >= 256 {
        low | 0xffff_0000_0000_0000
    } else {
        low
    }
}

/// For a canonical address, the four level indices with a zero offset give
/// back the address of its page.
pub proof fn lemma_index_round_trip(va: u64)
    requires
        is_canonical(va),
    ensures
        address_of_indices(
            index_of(va, 4) as u64,
            index_of(va, 3) as u64,
            index_of(va, 2) as u64,
            index_of(va, 1) as u64,
        ) == va & !0xfffu64,
{
    let i4 = (va >> 39u64) & 0x1ff;
    let i3 = (va >> 30u64) & 0x1ff;
    let i2 = (va >> 21u64) & 0x1ff;
    let i1 = (va >> 12u64) & 0x1ff;
    assert(address_of_indices(i4, i3, i2, i1) == va & !0xfffu64) by (bit_vector)
        requires
            (va >> 47u64) == 0 || (va >> 47u64) == 0x1ffff,
            i4 == (va >> 39u64) & 0x1ff,
            i3 == (va >> 30u64) & 0x1ff,
            i2 == (va >> 21u64) & 0x1ff,
            i1 == (va >> 12u64) & 0x1ff,
    ;
}

/// The entry maps or points to something.
pub open spec fn entry_present(v: u64) -> bool {
    v & PRESENT == PRESENT
}

/// At `level`, the entry maps a frame rather than pointing to a table.
pub open spec fn entry_terminal(v: u64, level: int) -> bool {
    level == 1 || ((level == 2 || level == 3) && v & HUGE == HUGE)
}

/// At `level`, the entry points to a next-level table.
pub open spec fn entry_points_to_table(v: u64, level: int) -> bool {
    entry_present(v) && !entry_terminal(v, level)
}

/// The physical address an entry refers to.
pub open spec fn entry_addr(v: u64) -> u64 {
    v & PTE_ADDR_MASK
}

/// The entry a table writes to point to the table at `addr`: present, user and
/// writable, so that only the final entry restricts access.
pub open spec fn table_entry(addr: u64) -> u64 {
    (addr & PTE_ADDR_MASK) | PRESENT | USER | WRITE
}

/// The entry that maps the frame at `paddr` with `flags` at `level`: present,
/// and huge at levels 2 and 3.
pub open spec fn leaf_entry(paddr: u64, flags: u64, level: int) -> u64 {
    let v = (paddr & PTE_ADDR_MASK) | flags | PRESENT;
    if level == 2 || level == 3 {
        v | HUGE
    } else {
        v
    }
}

/// A table entry: a 64-bit word in the hardware's layout.
#[derive(Clone, Copy, Debug)]
struct PageEntry {
    value: u64,
}

impl PageEntry {
    fn set_addr(&mut self, addr: u64)
        ensures
            final(self).value == addr & PTE_ADDR_MASK,
    {
        self.value = addr & PTE_ADDR_MASK;
    }

    fn flags(&self) -> (r: PageFlags)
        ensures
            r@ == self.value & ALL_FLAGS,
    {
        PageFlags::from_bits_truncate(self.value)
    }

    fn present(&self) -> (r: bool)
        ensures
            r == entry_present(self.value),
    {
        let v = self.value;
        assert((v & ALL_FLAGS) & PRESENT == PRESENT <==> v & PRESENT == PRESENT) by (bit_vector);
        self.flags().contains(PRESENT)
    }

    fn terminal(&self, level: usize) -> (r: bool)
        ensures
            r == entry_terminal(self.value, level as int),
    {
        let v = self.value;
        assert((v & ALL_FLAGS) & HUGE == HUGE <==> v & HUGE == HUGE) by (bit_vector);
        if level == 1 {
            true
        } else if level == 2 || level == 3 {
            self.flags().contains(HUGE)
        } else {
            false
        }
    }

    fn points_to_table(&self, level: usize) -> (r: bool)
        ensures
            r == entry_points_to_table(self.value, level as int),
    {
        self.present() && !self.terminal(level)
    }
}

/// Why a mapping was not made.
#[derive(Clone, Copy, Debug, PartialEq, Eq, Structural)]
pub enum MapError {
    /// A table was needed where an entry already maps a huge frame.
    MappingConflict,
    /// No frame was left for a new table.
    OutOfMemory,
}

/// One table of the tree: its level, the frame it occupies, its entries and,
/// for each entry that points to a table, the arena slot of that table.
struct PageTable {
    level: usize,
    addr: u64,
    entries: Vec<PageEntry>,
    next: Vec<usize>,
}

impl PageTable {
    spec fn shaped(&self) -> bool {
        &&& 1 <= self.level <= 4
        &&& self.entries@.len() == 512
        &&& self.next@.len() == 512
    }

    /// A table at `level` in `frame`, with every entry zero.
    fn new(level: usize, frame: Frame) -> (r: PageTable)
        requires
            1 <= level <= 4,
        ensures
            r.shaped(),
            r.level == level,
            r.addr == frame.index() * crate::frame_allocator::PAGE_SIZE,
            forall|i: int| 0 <= i < 512 ==> #[trigger] r.entries@[i].value == 0,
    {
        let mut entries: Vec<PageEntry> = Vec::new();
        let mut next: Vec<usize> = Vec::new();
        let mut i: usize = 0;
        while i < NUM_ENTRIES
            invariant
                i <= 512,
                entries@.len() == i,
                next@.len() == i,
                forall|j: int| 0 <= j < i ==> #[trigger] entries@[j].value == 0,
            decreases 512 - i,
        {
            entries.push(PageEntry { value: 0 });
            next.push(0);
            i = i + 1;
        }
        PageTable { level, addr: frame.addr(), entries, next }
    }

    /// Makes entry `index` map the frame at `paddr` with `flags`.
    ///
    /// Whatever the entry held before is overwritten.
    fn map_mem(&mut self, index: usize, paddr: u64, flags: PageFlags)
        requires
            old(self).shaped(),
            1 <= old(self).level <= 3,
            index < 512,
        ensures
            final(self).shaped(),
            final(self).level == old(self).level,
            final(self).addr == old(self).addr,
            final(self).next@ == old(self).next@,
            final(self).entries@ == old(self).entries@.update(
                index as int,
                PageEntry { value: leaf_entry(paddr, flags@, old(self).level as int) },
            ),
    {
        let mut entry = self.entries[index];
        entry.set_addr(paddr);
        entry.value = entry.value | flags.bits();
        entry.value = entry.value | PRESENT;
        if self.level == 2 || self.level == 3 {
            entry.value = entry.value | HUGE;
        }
        self.entries.set(index, entry);
    }

    /// Makes entry `index` point to the table at `addr`, held in arena slot
    /// `slot`.
    fn map_table(&mut self, index: usize, addr: u64, slot: usize)
        requires
            old(self).shaped(),
            2 <= old(self).level,
            index < 512,
        ensures
            final(self).shaped(),
            final(self).level == old(self).level,
            final(self).addr == old(self).addr,
            final(self).next@ == old(self).next@.update(index as int, slot),
            final(self).entries@ == old(self).entries@.update(
                index as int,
                PageEntry { value: table_entry(addr) },
            ),
    {
        let mut entry = self.entries[index];
        entry.set_addr(addr);
        entry.value = entry.value | (PRESENT | USER | WRITE);
        assert((addr & PTE_ADDR_MASK) | (PRESENT | USER | WRITE) == table_entry(addr)) by (
        bit_vector);
        self.entries.set(index, entry);
        self.next.set(index, slot);
    }
}

/// A table-pointing entry is present, grants present, user and writable,
/// has the huge bit clear, and names the table's frame.
pub proof fn lemma_table_entry_bits(addr: u64)
    ensures
        entry_present(table_entry(addr)),
        table_entry(addr) & HUGE != HUGE,
        table_entry(addr) & 7 == 7,
        table_entry(addr) & (PRESENT | USER | WRITE) == PRESENT | USER | WRITE,
        entry_addr(table_entry(addr)) == addr & PTE_ADDR_MASK,
{
    assert(((addr & PTE_ADDR_MASK) | PRESENT | USER | WRITE) & (PRESENT | USER | WRITE) == PRESENT
        | USER | WRITE) by (bit_vector);
    assert(((addr & PTE_ADDR_MASK) | PRESENT | USER | WRITE) & PRESENT == PRESENT) by (bit_vector);
    assert(((addr & PTE_ADDR_MASK) | PRESENT | USER | WRITE) & HUGE != HUGE) by (bit_vector);
    assert(((addr & PTE_ADDR_MASK) | PRESENT | USER | WRITE) & 7 == 7) by (bit_vector);
    assert(((addr & PTE_ADDR_MASK) | PRESENT | USER | WRITE) & PTE_ADDR_MASK == addr
        & PTE_ADDR_MASK) by (bit_vector);
}

proof fn lemma_all_table_entry_bits()
    ensures
        PRESENT | USER | WRITE == 7,
        forall|addr: u64|
            #![trigger table_entry(addr)]
            entry_present(table_entry(addr)) && table_entry(addr) & HUGE != HUGE && table_entry(addr)
                & (PRESENT | USER | WRITE) == PRESENT | USER | WRITE,
{
    assert forall|addr: u64|
        #![trigger table_entry(addr)]
        entry_present(table_entry(addr)) && table_entry(addr) & HUGE != HUGE && table_entry(addr)
            & (PRESENT | USER | WRITE) == PRESENT | USER | WRITE by {
        lemma_table_entry_bits(addr);
    }
    assert(PRESENT | USER | WRITE == 7) by (bit_vector);
}

proof fn lemma_zero_entry_absent()
    ensures
        !entry_present(0),
{
    assert(0u64 & PRESENT != PRESENT) by (bit_vector);
}

proof fn lemma_leaf_entry_bits(paddr: u64, flags: u64, level: int)
    requires
        1 <= level <= 3,
    ensures
        entry_present(leaf_entry(paddr, flags, level)),
        entry_terminal(leaf_entry(paddr, flags, level), level),
{
    let v = (paddr & PTE_ADDR_MASK) | flags | PRESENT;
    assert(v & PRESENT == PRESENT) by (bit_vector)
        requires
            v == (paddr & PTE_ADDR_MASK) | flags | PRESENT,
    ;
    assert((v | HUGE) & PRESENT == PRESENT && (v | HUGE) & HUGE == HUGE) by (bit_vector)
        requires
            v & PRESENT == PRESENT,
    ;
}

/// The root of the page-table tree, with every table below it.
pub struct PT4 {
    tables: Vec<PageTable>,
}

impl PT4 {
    /// The number of tables in the tree.
    pub closed spec fn num_tables(&self) -> int {
        self.tables@.len() as int
    }

    /// The level of the table in slot `s`.
    pub closed spec fn level(&self, s: int) -> int {
        self.tables@[s].level as int
    }

    /// The address of the frame that the table in slot `s` occupies.
    pub closed spec fn table_addr(&self, s: int) -> u64 {
        self.tables@[s].addr
    }

    /// Entry `i` of the table in slot `s`.
    pub closed spec fn entry(&self, s: int, i: int) -> u64 {
        self.tables@[s].entries@[i].value
    }

    /// The slot of the table that entry `i` of slot `s` points to, where it
    /// points to one.
    pub closed spec fn child(&self, s: int, i: int) -> int {
        self.tables@[s].next@[i] as int
    }

    /// Entry `i` of slot `s` points to a table, and that table sits one level
    /// down, in a later slot; the entry is exactly `table_entry` of the frame
    /// that table occupies.
    pub open spec fn link_ok(&self, s: int, i: int) -> bool {
        let c = self.child(s, i);
        &&& s < c < self.num_tables()
        &&& self.level(c) == self.level(s) - 1
        &&& self.entry(s, i) == table_entry(self.table_addr(c))
    }

    /// Entry `i` of slot `s` points to a table.
    pub open spec fn points(&self, s: int, i: int) -> bool {
        entry_points_to_table(self.entry(s, i), self.level(s))
    }

    /// The tree is well formed: the root is in slot 0 at level 4, every table
    /// has 512 entries, every entry that points to a table is linked as
    /// `link_ok` says, and no two entries point to the same table.
    pub closed spec fn wf(&self) -> bool {
        &&& self.tables@.len() >= 1
        &&& self.tables@[0].level == 4
        &&& forall|s: int| 0 <= s < self.tables@.len() ==> (#[trigger] self.tables@[s]).shaped()
        &&& forall|s: int, i: int|
            0 <= s < self.num_tables() && 0 <= i < 512 && #[trigger] self.points(s, i)
                ==> self.link_ok(s, i)
        &&& forall|s1: int, i1: int, s2: int, i2: int|
            0 <= s1 < self.num_tables() && 0 <= i1 < 512 && 0 <= s2 < self.num_tables() && 0 <= i2
                < 512 && #[trigger] self.points(s1, i1) && #[trigger] self.points(s2, i2)
                && self.child(s1, i1) == self.child(s2, i2) ==> s1 == s2 && i1 == i2
    }

    /// Every table occupies a frame below page `bound`.
    pub open spec fn frames_below(&self, bound: int) -> bool {
        forall|s: int|
            0 <= s < self.num_tables() ==> (#[trigger] self.table_addr(s) as int) / (
            PAGE_SIZE as int) < bound
    }

    /// No two tables occupy the same frame, and each starts on a page.
    pub open spec fn frames_distinct(&self) -> bool {
        &&& forall|s: int|
            0 <= s < self.num_tables() ==> #[trigger] self.table_addr(s) % PAGE_SIZE == 0
        &&& forall|s1: int, s2: int|
            0 <= s1 < self.num_tables() && 0 <= s2 < self.num_tables() && s1 != s2 ==> #[trigger] self.table_addr(
                s1,
            ) != #[trigger] self.table_addr(s2)
    }

    /// From the table in slot `from` at `level`, the table that `va` leads to
    /// one level down.
    pub open spec fn descend(&self, from: Option<int>, va: u64, level: int) -> Option<int> {
        match from {
            Some(s) => if self.points(s, index_of(va, level)) {
                Some(self.child(s, index_of(va, level)))
            } else {
                None
            },
            None => None,
        }
    }

    /// The slot of the table at `level` on the path of `va`, if the path
    /// reaches that level.
    pub open spec fn table_at(&self, va: u64, level: int) -> Option<int> {
        let t3 = self.descend(Some(0), va, 4);
        let t2 = self.descend(t3, va, 3);
        let t1 = self.descend(t2, va, 2);
        if level == 4 {
            Some(0)
        } else if level == 3 {
            t3
        } else if level == 2 {
            t2
        } else if level == 1 {
            t1
        } else {
            None
        }
    }

    /// The entry that `va` selects at `level`, where the path reaches it.
    pub open spec fn path_entry(&self, va: u64, level: int) -> u64 {
        self.entry(self.table_at(va, level)->Some_0, index_of(va, level))
    }

    /// The path of `va` reaches `level`, and there it ends in an entry that
    /// maps a frame.
    pub open spec fn leaf_on_path(&self, va: u64, level: int) -> bool {
        &&& self.table_at(va, level) is Some
        &&& entry_present(self.path_entry(va, level))
        &&& entry_terminal(self.path_entry(va, level), level)
    }

    /// Mapping `va` at `target` would need a table where a huge frame is
    /// mapped.
    pub open spec fn path_conflict(&self, va: u64, target: int) -> bool {
        ||| (target < 3 && self.leaf_on_path(va, 3))
        ||| (target < 2 && self.leaf_on_path(va, 2))
    }

    /// How many tables mapping `va` at `target` has to create.
    pub open spec fn missing(&self, va: u64, target: int) -> int {
        (if self.table_at(va, 3) is None {
            1int
        } else {
            0
        }) + (if target <= 2 && self.table_at(va, 2) is None {
            1int
        } else {
            0
        }) + (if target <= 1 && self.table_at(va, 1) is None {
            1int
        } else {
            0
        })
    }

    /// `(s, i)` is the entry `va` selects at one of the levels from `from`
    /// up to the root.
    pub open spec fn on_path(&self, va: u64, from: int, s: int, i: int) -> bool {
        ||| (from <= 1 && self.table_at(va, 1) == Some(s) && i == index_of(va, 1))
        ||| (from <= 2 && self.table_at(va, 2) == Some(s) && i == index_of(va, 2))
        ||| (from <= 3 && self.table_at(va, 3) == Some(s) && i == index_of(va, 3))
        ||| (from <= 4 && s == 0 && i == index_of(va, 4))
    }

    /// What mapping `va` to `paddr` with `flags` at `target` does, in `post`,
    /// when it returns `r`.
    pub open spec fn map_result(
        pre: PT4,
        post: PT4,
        va: u64,
        paddr: u64,
        flags: u64,
        target: int,
        r: Result<(), MapError>,
    ) -> bool {
        &&& post.wf()
        &&& (r == Err::<(), MapError>(MapError::MappingConflict) <==> pre.path_conflict(va, target))
        &&& match r {
            Ok(_) => {
                &&& post.table_at(va, target) is Some
                &&& post.path_entry(va, target) == leaf_entry(paddr, flags, target)
                &&& forall|l: int|
                    target < l <= 4 ==> #[trigger] post.path_entry(va, l) & (PRESENT | USER
                        | WRITE) == PRESENT | USER | WRITE
                &&& forall|l: int|
                    target < l <= 4 ==> {
                        &&& post.table_at(va, l - 1) is Some
                        &&& #[trigger] post.path_entry(va, l) == table_entry(
                            post.table_addr(post.table_at(va, l - 1)->Some_0),
                        )
                        &&& post.path_entry(va, l) & HUGE != HUGE
                    }
                &&& forall|s: int, i: int|
                    pre.num_tables() <= s < post.num_tables() && 0 <= i < 512 && !post.on_path(
                        va,
                        target,
                        s,
                        i,
                    ) ==> #[trigger] post.entry(s, i) == 0
                &&& post.num_tables() == pre.num_tables() + pre.missing(va, target)
                &&& forall|s: int, i: int|
                    0 <= s < pre.num_tables() && 0 <= i < 512 && !post.on_path(va, target, s, i)
                        ==> #[trigger] post.entry(s, i) == pre.entry(s, i)
                &&& forall|s: int, i: int|
                    0 <= s < pre.num_tables() && 0 <= i < 512 && entry_present(pre.entry(s, i))
                        && !(post.table_at(va, target) == Some(s) && i == index_of(va, target))
                        ==> #[trigger] post.entry(s, i) == pre.entry(s, i) && post.child(s, i)
                        == pre.child(s, i)
                &&& forall|s: int| 0 <= s < pre.num_tables() ==> #[trigger] post.level(s) == pre.level(s)
            },
            Err(_) => post == pre,
        }
    }
}


impl PT4 {
    /// Along the path of `va` in a well-formed tree, the table at each level
    /// has that level, and each entry above a reached table points to it, by
    /// the value `link_ok` fixes.
    pub proof fn lemma_path_levels(&self, va: u64)
        requires
            self.wf(),
        ensures
            forall|l: int|
                1 <= l <= 4 && #[trigger] self.table_at(va, l) is Some ==> {
                    let s = self.table_at(va, l)->Some_0;
                    &&& 0 <= s < self.num_tables()
                    &&& self.level(s) == l
                },
            forall|l: int| #![trigger index_of(va, l)] 0 <= index_of(va, l) < 512,
            forall|l: int|
                2 <= l <= 4 && #[trigger] self.table_at(va, l - 1) is Some ==> {
                    &&& self.table_at(va, l) is Some
                    &&& self.points(self.table_at(va, l)->Some_0, index_of(va, l))
                    &&& self.link_ok(self.table_at(va, l)->Some_0, index_of(va, l))
                    &&& self.table_at(va, l - 1)->Some_0 == self.child(
                        self.table_at(va, l)->Some_0,
                        index_of(va, l),
                    )
                },
    {
        lemma_index_bounds(va);
    }

    /// A tree whose root table occupies a frame taken from `fa`, with every
    /// entry absent.
    pub fn new(fa: &mut FrameAllocator) -> (r: Result<PT4, MapError>)
        ensures
            FrameAllocator::alloc_outcome(
                *old(fa),
                match r {
                    Ok(pt) => Some(pt.table_addr(0) as int / crate::frame_allocator::PAGE_SIZE as int),
                    Err(_) => None,
                },
                *final(fa),
            ),
            match r {
                Ok(pt) => {
                    &&& pt.wf()
                    &&& pt.num_tables() == 1
                    &&& forall|i: int| 0 <= i < 512 ==> #[trigger] pt.entry(0, i) == 0
                    &&& pt.frames_distinct()
                    &&& pt.frames_below(final(fa).next_index())
                },
                Err(e) => e == MapError::OutOfMemory,
            },
    {
        match fa.allocate() {
            Err(_) => Err(MapError::OutOfMemory),
            Ok(frame) => {
                let root = PageTable::new(4, frame);
                let mut tables: Vec<PageTable> = Vec::new();
                tables.push(root);
                let pt = PT4 { tables };
                proof {
                    crate::frame_allocator::lemma_page_address_index(frame.index());
                    lemma_zero_entry_absent();
                    assert(forall|s: int, i: int|
                        0 <= s < pt.num_tables() && 0 <= i < 512 ==> !#[trigger] pt.points(s, i));
                }
                Ok(pt)
            },
        }
    }
}

impl PT4 {
    /// Walks the path of `va` down to `target` without changing anything:
    /// the number of tables a mapping there has to create, or a conflict.
    fn probe(&self, va: u64, target: usize) -> (r: Result<usize, MapError>)
        requires
            self.wf(),
            1 <= target <= 3,
        ensures
            r is Err <==> self.path_conflict(va, target as int),
            r matches Err(e) ==> e == MapError::MappingConflict,
            r matches Ok(n) ==> n == self.missing(va, target as int),
    {
        proof {
            self.lemma_path_levels(va);
        }
        let mut slot: usize = 0;
        let mut level: usize = 4;
        while level > target
            invariant
                self.wf(),
                1 <= target <= 3,
                target <= level <= 4,
                self.table_at(va, level as int) == Some(slot as int),
                forall|l: int| level < l <= 4 ==> !#[trigger] self.leaf_on_path(va, l),
                forall|l: int|
                    1 <= l <= 4 && #[trigger] self.table_at(va, l) is Some ==> {
                        let s = self.table_at(va, l)->Some_0;
                        &&& 0 <= s < self.num_tables()
                        &&& self.level(s) == l
                    },
            decreases level,
        {
            let i = index_at(va, level);
            let entry = self.tables[slot].entries[i];
            if !entry.present() {
                return Ok(level - target);
            }
            if entry.terminal(level) {
                return Err(MapError::MappingConflict);
            }
            slot = self.tables[slot].next[i];
            level = level - 1;
        }
        Ok(0)
    }

    /// The arena slot of the table at `level` on the path of `va`, if the path
    /// reaches that level.
    pub fn table_on_path(&self, va: u64, level: usize) -> (r: Option<usize>)
        requires
            self.wf(),
            1 <= level <= 4,
        ensures
            r matches Some(s) ==> self.table_at(va, level as int) == Some(s as int),
            r is None ==> self.table_at(va, level as int) is None,
    {
        proof {
            self.lemma_path_levels(va);
        }
        let mut slot: usize = 0;
        let mut current: usize = 4;
        while current > level
            invariant
                self.wf(),
                1 <= level <= current <= 4,
                self.table_at(va, current as int) == Some(slot as int),
                forall|l: int|
                    1 <= l <= 4 && #[trigger] self.table_at(va, l) is Some ==> {
                        let s = self.table_at(va, l)->Some_0;
                        &&& 0 <= s < self.num_tables()
                        &&& self.level(s) == l
                    },
            decreases current,
        {
            let i = index_at(va, current);
            if !self.tables[slot].entries[i].points_to_table(current) {
                return None;
            }
            slot = self.tables[slot].next[i];
            current = current - 1;
        }
        Some(slot)
    }
}

impl PT4 {
    /// The table that entry `index` of slot `table` points to. Where the entry
    /// is absent, a table is made in the last of the `spare` frames, with
    /// every entry zero, and the entry is set to point to it.
    fn get_new_table(&mut self, table: usize, index: usize, spare: &mut Vec<Frame>) -> (r: usize)
        requires
            old(self).wf(),
            table < old(self).num_tables(),
            2 <= old(self).level(table as int),
            index < 512,
            !(entry_present(old(self).entry(table as int, index as int)) && entry_terminal(
                old(self).entry(table as int, index as int),
                old(self).level(table as int),
            )),
            !entry_present(old(self).entry(table as int, index as int)) ==> old(spare)@.len() >= 1,
        ensures
            final(self).wf(),
            final(self).points(table as int, index as int),
            final(self).child(table as int, index as int) == r,
            final(self).entry(table as int, index as int) == table_entry(final(self).table_addr(r as int)),
            final(self).level(r as int) == old(self).level(table as int) - 1,
            table < r < final(self).num_tables(),
            forall|s: int|
                0 <= s < old(self).num_tables() ==> #[trigger] final(self).level(s)
                    == old(self).level(s),
            forall|s: int, i: int|
                0 <= s < old(self).num_tables() && 0 <= i < 512 && !(s == table && i == index)
                    ==> #[trigger] final(self).entry(s, i) == old(self).entry(s, i)
                    && final(self).child(s, i) == old(self).child(s, i),
            entry_present(old(self).entry(table as int, index as int)) ==> {
                &&& *final(self) == *old(self)
                &&& final(spare)@ == old(spare)@
            },
            forall|s: int|
                0 <= s < old(self).num_tables() ==> #[trigger] final(self).table_addr(s) == old(
                    self,
                ).table_addr(s),
            !entry_present(old(self).entry(table as int, index as int)) ==> {
                &&& final(self).num_tables() == old(self).num_tables() + 1
                &&& r == old(self).num_tables()
                &&& final(self).table_addr(r as int) == old(spare)@.last().index() * PAGE_SIZE
                &&& final(spare)@ == old(spare)@.drop_last()
                &&& forall|i: int| 0 <= i < 512 ==> #[trigger] final(self).entry(r as int, i) == 0
            },
    {
        if self.tables[table].entries[index].present() {
            proof {
                assert(self.points(table as int, index as int));
                assert(self.link_ok(table as int, index as int));
            }
            return self.tables[table].next[index];
        }
        let ghost pre = *self;
        let frame = spare.pop().unwrap();
        let level = self.tables[table].level - 1;
        let addr = frame.addr();
        let slot = self.tables.len();
        let new_table = PageTable::new(level, frame);
        self.tables.push(new_table);
        let parent = &mut self.tables[table];
        parent.map_table(index, addr, slot);
        proof {
            lemma_table_entry_bits(addr);
            lemma_zero_entry_absent();
            assert(self.points(table as int, index as int));
            assert(self.link_ok(table as int, index as int));
            let n = pre.num_tables();
            assert forall|s: int| 0 <= s < self.tables@.len() implies (
            #[trigger] self.tables@[s]).shaped() by {
                if s < n && s != table {
                    assert(self.tables@[s] == pre.tables@[s]);
                }
            }
            assert forall|s: int, i: int|
                0 <= s < self.num_tables() && 0 <= i < 512 && #[trigger] self.points(
                    s,
                    i,
                ) implies self.link_ok(s, i) by {
                if s == n {
                    assert(self.entry(s, i) == 0);
                } else if !(s == table && i == index) {
                    assert(self.entry(s, i) == pre.entry(s, i));
                    assert(self.level(s) == pre.level(s));
                    assert(pre.points(s, i));
                    assert(pre.link_ok(s, i));
                }
            }
            assert forall|s1: int, i1: int, s2: int, i2: int|
                0 <= s1 < self.num_tables() && 0 <= i1 < 512 && 0 <= s2 < self.num_tables() && 0
                    <= i2 < 512 && #[trigger] self.points(s1, i1) && #[trigger] self.points(s2, i2)
                    && self.child(s1, i1) == self.child(s2, i2) implies s1 == s2 && i1 == i2 by {
                if s1 == n {
                    assert(self.entry(s1, i1) == 0);
                }
                if s2 == n {
                    assert(self.entry(s2, i2) == 0);
                }
                if s1 < n && s2 < n {
                    if !(s1 == table && i1 == index) {
                        assert(self.entry(s1, i1) == pre.entry(s1, i1));
                        assert(self.child(s1, i1) == pre.child(s1, i1));
                        assert(self.level(s1) == pre.level(s1));
                        assert(pre.points(s1, i1));
                        assert(pre.link_ok(s1, i1));
                    }
                    if !(s2 == table && i2 == index) {
                        assert(self.entry(s2, i2) == pre.entry(s2, i2));
                        assert(self.child(s2, i2) == pre.child(s2, i2));
                        assert(self.level(s2) == pre.level(s2));
                        assert(pre.points(s2, i2));
                        assert(pre.link_ok(s2, i2));
                    }
                }
            }
        }
        slot
    }
}

impl PT4 {
    /// One step of a walk: `b` is `a` after `get_new_table` on the entry that
    /// `va` selects at `level`.
    proof fn lemma_walk_step(a: PT4, b: PT4, va: u64, level: int, slot: int, target: int)
        requires
            a.wf(),
            b.wf(),
            1 <= target < level <= 4,
            a.table_at(va, level) == Some(slot),
            !a.path_conflict(va, target),
            b.num_tables() >= a.num_tables(),
            forall|s: int| 0 <= s < a.num_tables() ==> #[trigger] b.level(s) == a.level(s),
            forall|s: int, i: int|
                0 <= s < a.num_tables() && 0 <= i < 512 && !(s == slot && i == index_of(va, level))
                    ==> #[trigger] b.entry(s, i) == a.entry(s, i) && b.child(s, i) == a.child(s, i),
            b.points(slot, index_of(va, level)),
            entry_present(a.entry(slot, index_of(va, level))) ==> b == a,
            !entry_present(a.entry(slot, index_of(va, level))) ==> {
                &&& b.child(slot, index_of(va, level)) == a.num_tables()
                &&& forall|i: int| 0 <= i < 512 ==> #[trigger] b.entry(a.num_tables(), i) == 0
            },
        ensures
            forall|l: int| level <= l <= 4 ==> #[trigger] b.table_at(va, l) == a.table_at(va, l),
            b.table_at(va, level - 1) == Some(b.child(slot, index_of(va, level))),
            !b.path_conflict(va, target),
            b.missing(va, target) == a.missing(va, target) - (if entry_present(
                a.entry(slot, index_of(va, level)),
            ) {
                0int
            } else {
                1int
            }),
            forall|s: int, i: int|
                0 <= s < a.num_tables() && 0 <= i < 512 && #[trigger] b.on_path(va, level + 1, s, i)
                    ==> a.on_path(va, level + 1, s, i),
    {
        a.lemma_path_levels(va);
        b.lemma_path_levels(va);
        lemma_zero_entry_absent();
        let idx = index_of(va, level);
        if !entry_present(a.entry(slot, idx)) {
            let c = a.num_tables();
            assert(b.entry(c, index_of(va, level - 1)) == 0);
            assert(a.table_at(va, level - 1) is None);
            if level == 4 {
                assert(b.table_at(va, 3) == Some(c));
                assert(b.table_at(va, 2) is None);
                assert(a.table_at(va, 2) is None);
                assert(b.table_at(va, 1) is None);
                assert(a.table_at(va, 1) is None);
            } else if level == 3 {
                assert(slot != 0);
                assert(b.entry(0, index_of(va, 4)) == a.entry(0, index_of(va, 4)));
                assert(b.table_at(va, 3) == a.table_at(va, 3));
                assert(b.table_at(va, 2) == Some(c));
                assert(b.table_at(va, 1) is None);
                assert(a.table_at(va, 1) is None);
            } else {
                assert(slot != 0);
                assert(b.entry(0, index_of(va, 4)) == a.entry(0, index_of(va, 4)));
                assert(b.table_at(va, 3) == a.table_at(va, 3));
                let s3 = a.table_at(va, 3)->Some_0;
                assert(s3 != slot);
                assert(b.entry(s3, index_of(va, 3)) == a.entry(s3, index_of(va, 3)));
                assert(b.table_at(va, 2) == a.table_at(va, 2));
                assert(b.table_at(va, 1) == Some(c));
            }
        }
    }

    /// Maps `va` to `paddr` with `flags` by an entry at `target`, creating the
    /// tables on the way that do not exist yet, with frames from `fa`.
    #[verifier::rlimit(40)]
    #[verifier::spinoff_prover]
    fn map_at(
        &mut self,
        fa: &mut FrameAllocator,
        va: u64,
        paddr: u64,
        flags: PageFlags,
        target: usize,
    ) -> (r: Result<(), MapError>)
        requires
            old(self).wf(),
            1 <= target <= 3,
        ensures
            PT4::map_result(*old(self), *final(self), va, paddr, flags@, target as int, r),
            final(fa).limit_index() == old(fa).limit_index(),
            final(fa).protected() == old(fa).protected(),
            r == Err::<(), MapError>(MapError::MappingConflict) ==> *final(fa) == *old(fa),
            r == Err::<(), MapError>(MapError::OutOfMemory) <==> !old(self).path_conflict(
                va,
                target as int,
            ) && old(fa).available() < old(self).missing(va, target as int),
            r is Ok ==> final(fa).available() == old(fa).available() - old(self).missing(
                va,
                target as int,
            ),
            final(fa).next_index() >= old(fa).next_index(),
            old(self).frames_distinct() && old(self).frames_below(old(fa).next_index())
                ==> final(self).frames_distinct() && final(self).frames_below(final(fa).next_index()),
            old(self).missing(va, target as int) == 0 ==> *final(fa) == *old(fa),
            forall|s: int|
                0 <= s < old(self).num_tables() ==> #[trigger] final(self).table_addr(s)
                    == old(self).table_addr(s),
            forall|s: int|
                old(self).num_tables() <= s < final(self).num_tables()
                    ==> #[trigger] final(self).table_addr(s) % PAGE_SIZE == 0
                    && old(fa).next_index() <= final(self).table_addr(s) as int / (PAGE_SIZE as int)
                    < final(fa).next_index(),
    {
        let missing = match self.probe(va, target) {
            Err(e) => {
                return Err(e);
            },
            Ok(n) => n,
        };
        let mut spare: Vec<Frame> = Vec::new();
        while spare.len() < missing
            invariant
                spare@.len() <= missing,
                *self == *old(self),
                self.wf(),
                missing == self.missing(va, target as int),
                !self.path_conflict(va, target as int),
                fa.limit_index() == old(fa).limit_index(),
                fa.protected() == old(fa).protected(),
                fa.available() + spare@.len() == old(fa).available(),
                fa.next_index() >= old(fa).next_index(),
                spare@.len() == 0 ==> *fa == *old(fa),
                forall|j: int|
                    0 <= j < spare@.len() ==> old(fa).next_index() <= #[trigger] spare@[j].index()
                        < fa.next_index(),
                forall|j: int, k: int|
                    0 <= j < k < spare@.len() ==> #[trigger] spare@[j].index() < #[trigger] spare@[k].index(),
            decreases missing - spare@.len(),
        {
            let ghost before = *fa;
            let got = fa.allocate();
            proof {
                crate::frame_allocator::lemma_available_step(
                    before,
                    match &got {
                        Ok(f) => Some(f.index()),
                        Err(_) => None,
                    },
                    *fa,
                );
            }
            match got {
                Ok(f) => {
                    spare.push(f);
                },
                Err(_) => {
                    return Err(MapError::OutOfMemory);
                },
            }
        }
        let ghost pre = *self;
        let ghost fa_after = *fa;
        let ghost tracked_frames = pre.frames_distinct() && pre.frames_below(old(fa).next_index());
        let mut slot: usize = 0;
        let mut level: usize = 4;
        proof {
            pre.lemma_path_levels(va);
            if tracked_frames {
                assert forall|j: int, s: int|
                    0 <= j < spare@.len() && 0 <= s < pre.num_tables() implies #[trigger] spare@[j].index()
                    * PAGE_SIZE != #[trigger] pre.table_addr(s) by {
                    crate::frame_allocator::lemma_page_address_index(spare@[j].index());
                }
            }
        }
        while level > target
            invariant
                pre.wf(),
                self.wf(),
                1 <= target <= level <= 4,
                missing == pre.missing(va, target as int),
                self.table_at(va, level as int) == Some(slot as int),
                spare@.len() == self.missing(va, target as int),
                !self.path_conflict(va, target as int),
                self.num_tables() == pre.num_tables() + pre.missing(va, target as int)
                    - spare@.len(),
                forall|s: int| 0 <= s < pre.num_tables() ==> #[trigger] self.level(s) == pre.level(s),
                forall|j: int|
                    0 <= j < spare@.len() ==> old(fa).next_index() <= #[trigger] spare@[j].index()
                        < fa.next_index(),
                *fa == fa_after,
                missing == 0 ==> fa_after == *old(fa),
                fa.next_index() >= old(fa).next_index(),
                forall|s: int|
                    0 <= s < pre.num_tables() ==> #[trigger] self.table_addr(s) == pre.table_addr(s),
                forall|s: int|
                    pre.num_tables() <= s < self.num_tables() ==> #[trigger] self.table_addr(s)
                        % PAGE_SIZE == 0 && old(fa).next_index() <= self.table_addr(s) as int / (
                    PAGE_SIZE as int) < fa.next_index(),
                forall|s: int, i: int|
                    pre.num_tables() <= s < self.num_tables() && 0 <= i < 512 && !self.on_path(
                        va,
                        level as int + 1,
                        s,
                        i,
                    ) ==> #[trigger] self.entry(s, i) == 0,
                forall|j: int, k: int|
                    0 <= j < k < spare@.len() ==> #[trigger] spare@[j].index() < #[trigger] spare@[k].index(),
                tracked_frames ==> self.frames_distinct() && self.frames_below(fa.next_index()),
                tracked_frames ==> forall|j: int, s: int|
                    0 <= j < spare@.len() && 0 <= s < self.num_tables() ==> #[trigger] spare@[j].index()
                        * PAGE_SIZE != #[trigger] self.table_addr(s),
                forall|s: int, i: int|
                    0 <= s < pre.num_tables() && 0 <= i < 512 && entry_present(pre.entry(s, i))
                        ==> #[trigger] self.entry(s, i) == pre.entry(s, i) && self.child(s, i)
                        == pre.child(s, i),
                forall|s: int, i: int|
                    0 <= s < pre.num_tables() && 0 <= i < 512 && !self.on_path(
                        va,
                        level as int + 1,
                        s,
                        i,
                    ) ==> #[trigger] self.entry(s, i) == pre.entry(s, i) && self.child(s, i)
                        == pre.child(s, i),
            decreases level,
        {
            let ghost before = *self;
            proof {
                self.lemma_path_levels(va);
            }
            let i = index_at(va, level);
            let ghost spare_before = spare@;
            let next = self.get_new_table(slot, i, &mut spare);
            proof {
                if tracked_frames && self.num_tables() > before.num_tables() {
                    let top = spare_before.last().index();
                    crate::frame_allocator::lemma_page_address_index(top);
                    assert forall|s1: int, s2: int|
                        0 <= s1 < self.num_tables() && 0 <= s2 < self.num_tables() && s1 != s2
                            implies #[trigger] self.table_addr(s1) != #[trigger] self.table_addr(
                        s2,
                    ) by {
                        if s1 < before.num_tables() && s2 < before.num_tables() {
                            assert(self.table_addr(s1) == before.table_addr(s1));
                            assert(self.table_addr(s2) == before.table_addr(s2));
                        } else if s1 < before.num_tables() {
                            assert(self.table_addr(s1) == before.table_addr(s1));
                        } else {
                            assert(self.table_addr(s2) == before.table_addr(s2));
                        }
                    }
                    assert forall|s: int| 0 <= s < self.num_tables() implies #[trigger] self.table_addr(s)
                        % PAGE_SIZE == 0 by {
                        if s < before.num_tables() {
                            assert(self.table_addr(s) == before.table_addr(s));
                        }
                    }
                    assert forall|s: int| 0 <= s < self.num_tables() implies (
                    #[trigger] self.table_addr(s) as int) / (PAGE_SIZE as int) < fa.next_index() by {
                        if s < before.num_tables() {
                            assert(self.table_addr(s) == before.table_addr(s));
                        }
                    }
                    assert forall|j: int, s: int|
                        0 <= j < spare@.len() && 0 <= s < self.num_tables() implies #[trigger] spare@[j].index()
                        * PAGE_SIZE != #[trigger] self.table_addr(s) by {
                        assert(spare@[j] == spare_before[j]);
                        if s < before.num_tables() {
                            assert(self.table_addr(s) == before.table_addr(s));
                        } else {
                            assert(spare_before[j].index() < top);
                            crate::frame_allocator::lemma_page_address_index(spare@[j].index());
                        }
                    }
                }
                PT4::lemma_walk_step(before, *self, va, level as int, slot as int, target as int);
                self.lemma_path_levels(va);
                assert forall|s: int, j: int|
                    0 <= s < pre.num_tables() && 0 <= j < 512 && entry_present(
                        pre.entry(s, j),
                    ) implies #[trigger] self.entry(s, j) == pre.entry(s, j) && self.child(s, j)
                    == pre.child(s, j) by {
                    if s < before.num_tables() && !(s == slot && j == i) {
                        assert(self.entry(s, j) == before.entry(s, j));
                    }
                }
                assert forall|s: int, j: int|
                    0 <= s < pre.num_tables() && 0 <= j < 512 && !self.on_path(
                        va,
                        level as int,
                        s,
                        j,
                    ) implies #[trigger] self.entry(s, j) == pre.entry(s, j) && self.child(s, j)
                    == pre.child(s, j) by {
                    assert(self.on_path(va, level as int, slot as int, i as int));
                    assert(self.entry(s, j) == before.entry(s, j));
                    if self.on_path(va, level as int + 1, s, j) {
                    }
                }
                if self.num_tables() > before.num_tables() {
                    crate::frame_allocator::lemma_page_address_index(spare_before.last().index());
                }
                assert forall|s: int|
                    pre.num_tables() <= s < self.num_tables() implies #[trigger] self.table_addr(s)
                    % PAGE_SIZE == 0 && old(fa).next_index() <= self.table_addr(s) as int / (
                PAGE_SIZE as int) < fa.next_index() by {
                    if s < before.num_tables() {
                        assert(self.table_addr(s) == before.table_addr(s));
                    }
                }
                assert forall|s: int, j: int|
                    pre.num_tables() <= s < self.num_tables() && 0 <= j < 512 && !self.on_path(
                        va,
                        level as int,
                        s,
                        j,
                    ) implies #[trigger] self.entry(s, j) == 0 by {
                    assert(self.on_path(va, level as int, slot as int, i as int));
                    if s < before.num_tables() {
                        assert(self.entry(s, j) == before.entry(s, j));
                        if self.on_path(va, level as int + 1, s, j) {
                        }
                    }
                }
            }
            slot = next;
            level = level - 1;
        }
        let ghost walked = *self;
        assert(forall|s: int, j: int|
            0 <= s < pre.num_tables() && 0 <= j < 512 && entry_present(pre.entry(s, j))
                ==> #[trigger] walked.entry(s, j) == pre.entry(s, j) && walked.child(s, j)
                == pre.child(s, j));
        let i = index_at(va, target);
        proof {
            self.lemma_path_levels(va);
        }
        let leaf_table = &mut self.tables[slot];
        leaf_table.map_mem(i, paddr, flags);
        proof {
            let post = *self;
            assert forall|s: int| 0 <= s < post.tables@.len() implies (
            #[trigger] post.tables@[s]).shaped() by {
                assert(walked.tables@[s].shaped());
            }
            assert forall|s: int, j: int|
                0 <= s < walked.num_tables() && 0 <= j < 512 && !(s == slot && j == i) implies #[trigger] post.entry(
                s,
                j,
            ) == walked.entry(s, j) && post.child(s, j) == walked.child(s, j) by {
                if s != slot {
                    assert(post.tables@[s] == walked.tables@[s]);
                }
            }
            PT4::lemma_leaf_write(walked, post, va, target as int, slot as int, paddr, flags@);
            post.lemma_path_levels(va);
            lemma_all_table_entry_bits();
            assert(walked.missing(va, target as int) == 0);
            assert forall|s: int, j: int|
                0 <= s < pre.num_tables() && 0 <= j < 512 && !post.on_path(
                    va,
                    target as int,
                    s,
                    j,
                ) implies #[trigger] post.entry(s, j) == pre.entry(s, j) by {
                assert(!walked.on_path(va, target as int + 1, s, j));
                assert(walked.entry(s, j) == pre.entry(s, j));
            }
            assert forall|s: int, j: int|
                0 <= s < pre.num_tables() && 0 <= j < 512 && entry_present(pre.entry(s, j)) && !(
                post.table_at(va, target as int) == Some(s) && j == index_of(va, target as int))
                    implies #[trigger] post.entry(s, j) == pre.entry(s, j) && post.child(s, j)
                == pre.child(s, j) by {
                assert(0 <= s < pre.num_tables() && 0 <= j < 512 && entry_present(pre.entry(s, j)));
                assert(walked.entry(s, j) == pre.entry(s, j) && walked.child(s, j) == pre.child(s, j));
                assert(!(s == slot && j == i));
            }
            assert forall|s: int| 0 <= s < pre.num_tables() implies #[trigger] post.level(s)
                == pre.level(s) by {
                assert(walked.level(s) == pre.level(s));
            }
            assert forall|s: int| 0 <= s < post.num_tables() implies #[trigger] post.table_addr(s)
                == walked.table_addr(s) by {
                if s != slot {
                    assert(post.tables@[s] == walked.tables@[s]);
                }
            }
            assert forall|s: int, j: int|
                pre.num_tables() <= s < post.num_tables() && 0 <= j < 512 && !post.on_path(
                    va,
                    target as int,
                    s,
                    j,
                ) implies #[trigger] post.entry(s, j) == 0 by {
                assert(!walked.on_path(va, target as int + 1, s, j));
                assert(walked.entry(s, j) == 0);
            }
            assert forall|l: int| target < l <= 4 implies {
                &&& post.table_at(va, l - 1) is Some
                &&& #[trigger] post.path_entry(va, l) == table_entry(
                    post.table_addr(post.table_at(va, l - 1)->Some_0),
                )
                &&& post.path_entry(va, l) & HUGE != HUGE
            } by {
                assert(post.table_at(va, l - 1) is Some);
                assert(post.link_ok(post.table_at(va, l)->Some_0, index_of(va, l)));
            }
            if tracked_frames {
                assert forall|s1: int, s2: int|
                    0 <= s1 < post.num_tables() && 0 <= s2 < post.num_tables() && s1 != s2 implies #[trigger] post.table_addr(
                    s1,
                ) != #[trigger] post.table_addr(s2) by {
                    assert(post.table_addr(s1) == walked.table_addr(s1));
                    assert(post.table_addr(s2) == walked.table_addr(s2));
                }
            }
        }
        Ok(())
    }
}

impl PT4 {
    /// Writing the final entry of a path keeps the tree well formed and the
    /// path above it as it was.
    proof fn lemma_leaf_write(
        a: PT4,
        b: PT4,
        va: u64,
        target: int,
        slot: int,
        paddr: u64,
        flags: u64,
    )
        requires
            a.wf(),
            1 <= target <= 3,
            a.table_at(va, target) == Some(slot),
            b.num_tables() == a.num_tables(),
            forall|s: int| 0 <= s < b.tables@.len() ==> (#[trigger] b.tables@[s]).shaped(),
            forall|s: int|
                0 <= s < a.num_tables() ==> #[trigger] b.level(s) == a.level(s) && b.table_addr(s)
                    == a.table_addr(s),
            forall|s: int, i: int|
                0 <= s < a.num_tables() && 0 <= i < 512 && !(s == slot && i == index_of(va, target))
                    ==> #[trigger] b.entry(s, i) == a.entry(s, i) && b.child(s, i) == a.child(s, i),
            b.entry(slot, index_of(va, target)) == leaf_entry(paddr, flags, target),
        ensures
            b.wf(),
            forall|l: int| target <= l <= 4 ==> #[trigger] b.table_at(va, l) == a.table_at(va, l),
            b.path_entry(va, target) == leaf_entry(paddr, flags, target),
    {
        a.lemma_path_levels(va);
        lemma_leaf_entry_bits(paddr, flags, target);
        let idx = index_of(va, target);
        assert(a.level(slot) == target);
        assert(b.tables@[0].level == 4) by {
            assert(b.level(0) == a.level(0));
        }
        assert forall|s: int, i: int|
            0 <= s < b.num_tables() && 0 <= i < 512 && #[trigger] b.points(s, i) implies b.link_ok(
            s,
            i,
        ) by {
            assert(!(s == slot && i == idx));
            assert(a.points(s, i));
            assert(a.link_ok(s, i));
        }
        assert forall|s1: int, i1: int, s2: int, i2: int|
            0 <= s1 < b.num_tables() && 0 <= i1 < 512 && 0 <= s2 < b.num_tables() && 0 <= i2 < 512
                && #[trigger] b.points(s1, i1) && #[trigger] b.points(s2, i2) && b.child(s1, i1)
                == b.child(s2, i2) implies s1 == s2 && i1 == i2 by {
            assert(!(s1 == slot && i1 == idx));
            assert(!(s2 == slot && i2 == idx));
            assert(a.points(s1, i1));
            assert(a.points(s2, i2));
        }
        if target <= 3 {
            assert(b.entry(0, index_of(va, 4)) == a.entry(0, index_of(va, 4)));
        }
        if target <= 2 {
            let s3 = a.table_at(va, 3)->Some_0;
            assert(b.entry(s3, index_of(va, 3)) == a.entry(s3, index_of(va, 3)));
        }
        if target <= 1 {
            let s2 = a.table_at(va, 2)->Some_0;
            assert(b.entry(s2, index_of(va, 2)) == a.entry(s2, index_of(va, 2)));
        }
    }
}

impl PT4 {
    /// Maps the 4 KiB page at `vaddr` to the frame at `paddr`, walking levels
    /// 4, 3 and 2 and writing the entry at level 1.
    pub fn map_to_4k(&mut self, fa: &mut FrameAllocator, vaddr: u64, paddr: u64, flags: PageFlags) -> (r:
        Result<(), MapError>)
        requires
            old(self).wf(),
        ensures
            PT4::map_result(*old(self), *final(self), vaddr, paddr, flags@, 1, r),
            final(fa).limit_index() == old(fa).limit_index(),
            final(fa).protected() == old(fa).protected(),
            r == Err::<(), MapError>(MapError::MappingConflict) ==> *final(fa) == *old(fa),
            r == Err::<(), MapError>(MapError::OutOfMemory) <==> !old(self).path_conflict(vaddr, 1)
                && old(fa).available() < old(self).missing(vaddr, 1),
            r is Ok ==> final(fa).available() == old(fa).available() - old(self).missing(vaddr, 1),
            final(fa).next_index() >= old(fa).next_index(),
            old(self).frames_distinct() && old(self).frames_below(old(fa).next_index())
                ==> final(self).frames_distinct() && final(self).frames_below(final(fa).next_index()),
            old(self).missing(vaddr, 1) == 0 ==> *final(fa) == *old(fa),
            forall|s: int|
                0 <= s < old(self).num_tables() ==> #[trigger] final(self).table_addr(s)
                    == old(self).table_addr(s),
            forall|s: int|
                old(self).num_tables() <= s < final(self).num_tables()
                    ==> #[trigger] final(self).table_addr(s) % PAGE_SIZE == 0
                    && old(fa).next_index() <= final(self).table_addr(s) as int / (PAGE_SIZE as int)
                    < final(fa).next_index(),
    {
        self.map_at(fa, vaddr, paddr, flags, 1)
    }

    /// Maps the 2 MiB page at `vaddr` to the frame at `paddr`, walking levels
    /// 4 and 3 and writing a huge entry at level 2.
    pub fn map_to_2m(&mut self, fa: &mut FrameAllocator, vaddr: u64, paddr: u64, flags: PageFlags) -> (r:
        Result<(), MapError>)
        requires
            old(self).wf(),
        ensures
            PT4::map_result(*old(self), *final(self), vaddr, paddr, flags@, 2, r),
            final(fa).limit_index() == old(fa).limit_index(),
            final(fa).protected() == old(fa).protected(),
            r == Err::<(), MapError>(MapError::MappingConflict) ==> *final(fa) == *old(fa),
            r == Err::<(), MapError>(MapError::OutOfMemory) <==> !old(self).path_conflict(vaddr, 2)
                && old(fa).available() < old(self).missing(vaddr, 2),
            r is Ok ==> final(fa).available() == old(fa).available() - old(self).missing(vaddr, 2),
            final(fa).next_index() >= old(fa).next_index(),
            old(self).frames_distinct() && old(self).frames_below(old(fa).next_index())
                ==> final(self).frames_distinct() && final(self).frames_below(final(fa).next_index()),
            old(self).missing(vaddr, 2) == 0 ==> *final(fa) == *old(fa),
            forall|s: int|
                0 <= s < old(self).num_tables() ==> #[trigger] final(self).table_addr(s)
                    == old(self).table_addr(s),
            forall|s: int|
                old(self).num_tables() <= s < final(self).num_tables()
                    ==> #[trigger] final(self).table_addr(s) % PAGE_SIZE == 0
                    && old(fa).next_index() <= final(self).table_addr(s) as int / (PAGE_SIZE as int)
                    < final(fa).next_index(),
    {
        self.map_at(fa, vaddr, paddr, flags, 2)
    }

    /// Maps the 1 GiB page at `vaddr` to the frame at `paddr`, walking level 4
    /// and writing a huge entry at level 3.
    pub fn map_to_1g(&mut self, fa: &mut FrameAllocator, vaddr: u64, paddr: u64, flags: PageFlags) -> (r:
        Result<(), MapError>)
        requires
            old(self).wf(),
        ensures
            PT4::map_result(*old(self), *final(self), vaddr, paddr, flags@, 3, r),
            final(fa).limit_index() == old(fa).limit_index(),
            final(fa).protected() == old(fa).protected(),
            r == Err::<(), MapError>(MapError::MappingConflict) ==> *final(fa) == *old(fa),
            r == Err::<(), MapError>(MapError::OutOfMemory) <==> !old(self).path_conflict(vaddr, 3)
                && old(fa).available() < old(self).missing(vaddr, 3),
            r is Ok ==> final(fa).available() == old(fa).available() - old(self).missing(vaddr, 3),
            final(fa).next_index() >= old(fa).next_index(),
            old(self).frames_distinct() && old(self).frames_below(old(fa).next_index())
                ==> final(self).frames_distinct() && final(self).frames_below(final(fa).next_index()),
            old(self).missing(vaddr, 3) == 0 ==> *final(fa) == *old(fa),
            forall|s: int|
                0 <= s < old(self).num_tables() ==> #[trigger] final(self).table_addr(s)
                    == old(self).table_addr(s),
            forall|s: int|
                old(self).num_tables() <= s < final(self).num_tables()
                    ==> #[trigger] final(self).table_addr(s) % PAGE_SIZE == 0
                    && old(fa).next_index() <= final(self).table_addr(s) as int / (PAGE_SIZE as int)
                    < final(fa).next_index(),
    {
        self.map_at(fa, vaddr, paddr, flags, 3)
    }

    /// Maps the 4 KiB page at `vaddr` to a fresh frame from `fa`.
    ///
    /// A conflict is found before any frame is taken; then the leaf's frame is
    /// taken, then the frames of the missing tables.
    pub fn map_4k(&mut self, fa: &mut FrameAllocator, vaddr: u64, flags: PageFlags) -> (r: Result<
        (),
        MapError,
    >)
        requires
            old(self).wf(),
        ensures
            r == Err::<(), MapError>(MapError::MappingConflict) <==> old(self).path_conflict(vaddr, 1),
            r == Err::<(), MapError>(MapError::OutOfMemory) <==> !old(self).path_conflict(vaddr, 1)
                && old(fa).available() < 1 + old(self).missing(vaddr, 1),
            r is Err ==> *final(self) == *old(self),
            r == Err::<(), MapError>(MapError::MappingConflict) ==> *final(fa) == *old(fa),
            ({
                let k = old(fa).first_free(old(fa).next_index());
                r is Ok ==> {
                    &&& old(fa).next_index() <= k < old(fa).limit_index()
                    &&& k < final(fa).next_index()
                    &&& PT4::map_result(
                        *old(self),
                        *final(self),
                        vaddr,
                        (k * PAGE_SIZE) as u64,
                        flags@,
                        1,
                        r,
                    )
                    &&& final(fa).available() == old(fa).available() - 1 - old(self).missing(vaddr, 1)
                    &&& old(self).frames_below(old(fa).next_index()) ==> forall|s: int|
                        0 <= s < final(self).num_tables() ==> #[trigger] final(self).table_addr(s)
                            != k * PAGE_SIZE
                }
            }),
            final(fa).limit_index() == old(fa).limit_index(),
            final(fa).protected() == old(fa).protected(),
            final(fa).next_index() >= old(fa).next_index(),
            old(self).frames_distinct() && old(self).frames_below(old(fa).next_index())
                ==> final(self).frames_distinct() && final(self).frames_below(final(fa).next_index()),
    {
        match self.probe(vaddr, 1) {
            Err(e) => {
                return Err(e);
            },
            Ok(_) => {},
        }
        let ghost before = *fa;
        let got = fa.allocate();
        proof {
            crate::frame_allocator::lemma_available_step(
                before,
                match &got {
                    Ok(f) => Some(f.index()),
                    Err(_) => None,
                },
                *fa,
            );
        }
        let frame = match got {
            Ok(f) => f,
            Err(_) => {
                return Err(MapError::OutOfMemory);
            },
        };
        let ghost k = frame.index();
        let ghost mid = *fa;
        let r = self.map_to_4k(fa, vaddr, frame.addr(), flags);
        proof {
            if r is Ok && old(self).frames_below(old(fa).next_index()) {
                assert forall|s: int| 0 <= s < self.num_tables() implies #[trigger] self.table_addr(s)
                    != k * PAGE_SIZE by {
                    if s < old(self).num_tables() {
                        assert(self.table_addr(s) == old(self).table_addr(s));
                        assert((old(self).table_addr(s) as int) / (PAGE_SIZE as int) < k);
                    } else {
                        assert((self.table_addr(s) as int) / (PAGE_SIZE as int) >= mid.next_index());
                    }
                }
            }
        }
        r
    }

    /// The number of tables in the tree.
    pub fn table_count(&self) -> (r: usize)
        ensures
            r == self.num_tables(),
    {
        self.tables.len()
    }

    /// Entry `index` of the table in slot `table`.
    pub fn entry_value(&self, table: usize, index: usize) -> (r: u64)
        requires
            self.wf(),
            table < self.num_tables(),
            index < 512,
        ensures
            r == self.entry(table as int, index as int),
    {
        self.tables[table].entries[index].value
    }

    /// The address of the frame that the table in slot `table` occupies.
    pub fn table_address(&self, table: usize) -> (r: u64)
        requires
            table < self.num_tables(),
        ensures
            r == self.table_addr(table as int),
    {
        self.tables[table].addr
    }

    /// The level of the table in slot `table`.
    pub fn table_level(&self, table: usize) -> (r: usize)
        requires
            table < self.num_tables(),
        ensures
            r == self.level(table as int),
    {
        self.tables[table].level
    }

    /// The address of the root table, which the processor is given to
    /// translate through this tree.
    pub fn root_address(&self) -> (r: u64)
        requires
            self.wf(),
        ensures
            r == self.table_addr(0),
    {
        self.tables[0].addr
    }
}

/// Two pages whose indices agree at levels 4, 3 and 2 share every table on
/// their paths: once one of them is mapped, mapping the other creates none.
pub proof fn lemma_shared_path_reused(pt: PT4, va1: u64, va2: u64)
    requires
        pt.wf(),
        pt.table_at(va1, 1) is Some,
        index_of(va1, 4) == index_of(va2, 4),
        index_of(va1, 3) == index_of(va2, 3),
        index_of(va1, 2) == index_of(va2, 2),
    ensures
        forall|l: int| 1 <= l <= 4 ==> #[trigger] pt.table_at(va2, l) == pt.table_at(va1, l),
        pt.missing(va2, 1) == 0,
{
}

/// Two pages in different 1 GiB regions (their level-4 or level-3 indices
/// differ) never share a level-2 table, nor a level-1 table.
pub proof fn lemma_distinct_regions_distinct_tables(pt: PT4, va1: u64, va2: u64)
    requires
        pt.wf(),
        index_of(va1, 4) != index_of(va2, 4) || index_of(va1, 3) != index_of(va2, 3),
    ensures
        index_of(va1, 4) != index_of(va2, 4) && pt.table_at(va1, 3) is Some && pt.table_at(va2, 3) is Some
            ==> pt.table_at(va1, 3) != pt.table_at(va2, 3),
        pt.table_at(va1, 2) is Some && pt.table_at(va2, 2) is Some ==> pt.table_at(va1, 2)
            != pt.table_at(va2, 2),
        pt.table_at(va1, 1) is Some && pt.table_at(va2, 1) is Some ==> pt.table_at(va1, 1)
            != pt.table_at(va2, 1),
{
    pt.lemma_path_levels(va1);
    pt.lemma_path_levels(va2);
    if pt.table_at(va1, 3) is Some && pt.table_at(va2, 3) is Some {
        assert(pt.points(0, index_of(va1, 4)));
        assert(pt.points(0, index_of(va2, 4)));
    }
    if pt.table_at(va1, 2) is Some && pt.table_at(va2, 2) is Some {
        let a3 = pt.table_at(va1, 3)->Some_0;
        let b3 = pt.table_at(va2, 3)->Some_0;
        assert(pt.points(a3, index_of(va1, 3)));
        assert(pt.points(b3, index_of(va2, 3)));
        assert(pt.points(0, index_of(va1, 4)));
        assert(pt.points(0, index_of(va2, 4)));
        if a3 == b3 {
            assert(index_of(va1, 4) == index_of(va2, 4));
        }
    }
    if pt.table_at(va1, 1) is Some && pt.table_at(va2, 1) is Some {
        let a2 = pt.table_at(va1, 2)->Some_0;
        let b2 = pt.table_at(va2, 2)->Some_0;
        assert(pt.points(a2, index_of(va1, 2)));
        assert(pt.points(b2, index_of(va2, 2)));
        let a3 = pt.table_at(va1, 3)->Some_0;
        let b3 = pt.table_at(va2, 3)->Some_0;
        assert(pt.points(a3, index_of(va1, 3)));
        assert(pt.points(b3, index_of(va2, 3)));
        assert(pt.points(0, index_of(va1, 4)));
        assert(pt.points(0, index_of(va2, 4)));
    }
}

/// Two 4 KiB pages in different 1 GiB regions, mapped one after the other:
/// afterwards both paths are complete, their level-2 tables differ and so do
/// their level-1 tables, as do their level-3 tables where their level-4
/// indices differ; tables that differ occupy different frames.
pub proof fn lemma_disjoint_regions_after_two_mappings(
    pre: PT4,
    mid: PT4,
    post: PT4,
    va1: u64,
    va2: u64,
    paddr1: u64,
    paddr2: u64,
    flags1: u64,
    flags2: u64,
)
    requires
        pre.wf(),
        PT4::map_result(pre, mid, va1, paddr1, flags1, 1, Ok(())),
        PT4::map_result(mid, post, va2, paddr2, flags2, 1, Ok(())),
        index_of(va1, 4) != index_of(va2, 4) || index_of(va1, 3) != index_of(va2, 3),
    ensures
        forall|l: int|
            1 <= l <= 4 ==> #[trigger] post.table_at(va1, l) is Some && post.table_at(va2, l) is Some,
        post.table_at(va1, 2) != post.table_at(va2, 2),
        post.table_at(va1, 1) != post.table_at(va2, 1),
        index_of(va1, 4) != index_of(va2, 4) ==> post.table_at(va1, 3) != post.table_at(va2, 3),
        post.frames_distinct() ==> forall|l: int|
            1 <= l <= 3 && #[trigger] post.table_at(va1, l) != post.table_at(va2, l) ==> post.table_addr(
                post.table_at(va1, l)->Some_0,
            ) != post.table_addr(post.table_at(va2, l)->Some_0),
{
    assert forall|l: int| 1 <= l <= 4 implies #[trigger] post.table_at(va1, l) is Some
        && post.table_at(va2, l) is Some by {
        PT4::lemma_mapping_keeps_path(mid, post, va2, paddr2, flags2, 1, va1, l);
    }
    post.lemma_path_levels(va1);
    post.lemma_path_levels(va2);
    lemma_distinct_regions_distinct_tables(post, va1, va2);
}

/// After a 1 GiB page is mapped at `huge_va`, mapping a 4 KiB page inside that
/// gigabyte is a conflict, so `map_to_4k` fails with `MappingConflict`.
pub proof fn lemma_huge_page_blocks_small_page(
    pre: PT4,
    post: PT4,
    huge_va: u64,
    paddr: u64,
    flags: u64,
    va: u64,
)
    requires
        pre.wf(),
        PT4::map_result(pre, post, huge_va, paddr, flags, 3, Ok(())),
        index_of(huge_va, 4) == index_of(va, 4),
        index_of(huge_va, 3) == index_of(va, 3),
    ensures
        post.path_conflict(va, 1),
{
    lemma_leaf_entry_bits(paddr, flags, 3);
}

impl PT4 {
    /// A successful mapping of `va` keeps the path of `other` down to `level`
    /// as it was, and the entry there too where it was present and is not the
    /// one the mapping wrote.
    proof fn lemma_mapping_keeps_path(
        pre: PT4,
        post: PT4,
        va: u64,
        paddr: u64,
        flags: u64,
        target: int,
        other: u64,
        level: int,
    )
        requires
            pre.wf(),
            PT4::map_result(pre, post, va, paddr, flags, target, Ok(())),
            1 <= target <= level <= 4,
            pre.table_at(other, level) is Some,
        ensures
            post.table_at(other, level) == pre.table_at(other, level),
            entry_present(pre.path_entry(other, level)) && !(level == target && post.table_at(
                va,
                target,
            ) == pre.table_at(other, level) && index_of(va, target) == index_of(other, level))
                ==> post.path_entry(other, level) == pre.path_entry(other, level),
    {
        pre.lemma_path_levels(other);
        post.lemma_path_levels(va);
        lemma_index_bounds(other);
        let sv = post.table_at(va, target)->Some_0;
        assert(post.level(sv) == target);
        if level <= 3 {
            let i4 = index_of(other, 4);
            assert(pre.level(0) == 4);
            assert(post.entry(0, i4) == pre.entry(0, i4) && post.child(0, i4) == pre.child(0, i4));
        }
        if level <= 2 {
            let s3 = pre.table_at(other, 3)->Some_0;
            let i3 = index_of(other, 3);
            assert(pre.level(s3) == 3);
            assert(post.level(s3) == 3);
            assert(post.entry(s3, i3) == pre.entry(s3, i3) && post.child(s3, i3) == pre.child(s3, i3));
        }
        if level <= 1 {
            let s2 = pre.table_at(other, 2)->Some_0;
            let i2 = index_of(other, 2);
            assert(pre.level(s2) == 2);
            assert(post.level(s2) == 2);
            assert(post.entry(s2, i2) == pre.entry(s2, i2) && post.child(s2, i2) == pre.child(s2, i2));
        }
        assert(post.table_at(other, level) == pre.table_at(other, level));
        let sl = pre.table_at(other, level)->Some_0;
        assert(pre.level(sl) == level);
        assert(post.level(sl) == level);
        if entry_present(pre.path_entry(other, level)) && !(level == target && post.table_at(
            va,
            target,
        ) == pre.table_at(other, level) && index_of(va, target) == index_of(other, level)) {
            assert(post.entry(sl, index_of(other, level)) == pre.entry(sl, index_of(other, level)));
        }
    }
}

/// Once a 4 KiB page is mapped, mapping a second page whose level-4, level-3
/// and level-2 indices are the same goes through the same tables: it needs no
/// new table, so it creates none and takes no frame.
pub proof fn lemma_second_mapping_reuses_tables(
    pre: PT4,
    mid: PT4,
    post: PT4,
    va1: u64,
    va2: u64,
    paddr1: u64,
    paddr2: u64,
    flags1: u64,
    flags2: u64,
)
    requires
        pre.wf(),
        PT4::map_result(pre, mid, va1, paddr1, flags1, 1, Ok(())),
        PT4::map_result(mid, post, va2, paddr2, flags2, 1, Ok(())),
        index_of(va1, 4) == index_of(va2, 4),
        index_of(va1, 3) == index_of(va2, 3),
        index_of(va1, 2) == index_of(va2, 2),
    ensures
        mid.missing(va2, 1) == 0,
        post.num_tables() == mid.num_tables(),
        forall|l: int| 1 <= l <= 4 ==> #[trigger] post.table_at(va2, l) == mid.table_at(va1, l),
{
    lemma_shared_path_reused(mid, va1, va2);
    assert forall|l: int| 1 <= l <= 4 implies #[trigger] post.table_at(va2, l) == mid.table_at(
        va1,
        l,
    ) by {
        PT4::lemma_mapping_keeps_path(mid, post, va2, paddr2, flags2, 1, va2, l);
    }
}

/// Page `k` of the kernel heap.
pub open spec fn heap_page(k: int) -> u64 {
    (crate::heap::HEAP_START + k * crate::frame_allocator::PAGE_SIZE) as u64
}

proof fn lemma_heap_page_indices(j: u64, k: u64)
    requires
        j < 256,
        k < 256,
    ensures
        index_of(heap_page(j as int), 1) == j,
        index_of(heap_page(j as int), 2) == index_of(heap_page(k as int), 2),
        index_of(heap_page(j as int), 3) == index_of(heap_page(k as int), 3),
        index_of(heap_page(j as int), 4) == index_of(heap_page(k as int), 4),
        index_of(heap_page(j as int), 4) != index_of(0, 4),
{
    let a = heap_page(j as int);
    let b = heap_page(k as int);
    assert(a == 0xffff_e000_0000_0000u64 + j * 4096);
    assert(b == 0xffff_e000_0000_0000u64 + k * 4096);
    assert(((a >> 12u64) & 0x1ff) == j && ((a >> 21u64) & 0x1ff) == ((b >> 21u64) & 0x1ff) && ((a
        >> 30u64) & 0x1ff) == ((b >> 30u64) & 0x1ff) && ((a >> 39u64) & 0x1ff) == ((b >> 39u64)
        & 0x1ff) && ((a >> 39u64) & 0x1ff) != ((0u64 >> 39u64) & 0x1ff)) by (bit_vector)
        requires
            j < 256,
            k < 256,
            a == 0xffff_e000_0000_0000u64 + j * 4096,
            b == 0xffff_e000_0000_0000u64 + k * 4096,
    ;
}

proof fn lemma_writable_leaf(paddr: u64)
    ensures
        leaf_entry(paddr, WRITE & ALL_FLAGS, 1) & (PRESENT | WRITE) == PRESENT | WRITE,
        entry_present(leaf_entry(paddr, WRITE & ALL_FLAGS, 1)),
{
    assert(((paddr & PTE_ADDR_MASK) | (WRITE & ALL_FLAGS) | PRESENT) & (PRESENT | WRITE) == PRESENT
        | WRITE) by (bit_vector);
    assert(((paddr & PTE_ADDR_MASK) | (WRITE & ALL_FLAGS) | PRESENT) & PRESENT == PRESENT) by (
    bit_vector);
}

/// The frame address the leaf of heap page `j` names.
pub open spec fn heap_frame(pt: PT4, j: int) -> int {
    entry_addr(pt.path_entry(heap_page(j), 1)) as int
}

/// Frames `initialize` needs: the root, the level-3 table of the identity
/// gigabyte, the three tables on the heap's path, and one frame per heap page.
pub open spec fn boot_frames() -> int {
    5 + crate::heap::HEAP_SIZE as int / PAGE_SIZE as int
}

proof fn lemma_page_leaf_addr(paddr: u64, flags: u64)
    requires
        paddr % 4096 == 0,
        paddr < 0x10_0000_0000_0000,
        flags & ALL_FLAGS == flags,
    ensures
        entry_addr(leaf_entry(paddr, flags, 1)) == paddr,
{
    assert(((paddr & PTE_ADDR_MASK) | flags | PRESENT) & PTE_ADDR_MASK == paddr) by (bit_vector)
        requires
            paddr % 4096 == 0,
            paddr < 0x10_0000_0000_0000,
            flags & ALL_FLAGS == flags,
    ;
}

/// The kernel's page tables: the first gigabyte mapped to itself with no
/// flags, so that the running code stays reachable, and every page of the
/// kernel heap mapped writable to a fresh frame from `fa`.
///
/// It succeeds whenever `fa` has `boot_frames()` frames left, and can only
/// fail for want of frames. Where the allocator's window lies below 2^52 (as
/// x86-64 physical memory does), the heap pages map to frames in increasing
/// order, so no two share a frame.
pub fn initialize(fa: &mut FrameAllocator) -> (r: Result<PT4, MapError>)
    ensures
        r is Err ==> r == Err::<PT4, MapError>(MapError::OutOfMemory),
        old(fa).available() >= boot_frames() ==> r is Ok,
        r matches Ok(pt) ==> {
            &&& pt.wf()
            &&& pt.frames_distinct()
            &&& pt.frames_below(final(fa).next_index())
            &&& pt.table_at(0, 3) is Some
            &&& pt.path_entry(0, 3) == leaf_entry(0, 0, 3)
            &&& forall|k: int|
                0 <= k < crate::heap::HEAP_SIZE as int / PAGE_SIZE as int
                    ==> #[trigger] pt.table_at(heap_page(k), 1) is Some && pt.path_entry(
                    heap_page(k),
                    1,
                ) & (PRESENT | WRITE) == PRESENT | WRITE
            &&& old(fa).limit_index() <= 0x100_0000_0000 ==> forall|j: int, k: int|
                0 <= j < k < crate::heap::HEAP_SIZE as int / PAGE_SIZE as int
                    ==> #[trigger] heap_frame(pt, j) < #[trigger] heap_frame(pt, k)
        },
{
    let ghost fa0 = *fa;
    let ghost enough = fa0.available() >= boot_frames();
    let mut pt = match PT4::new(fa) {
        Ok(pt) => pt,
        Err(e) => {
            proof {
                crate::frame_allocator::lemma_available_step(fa0, None, *fa);
            }
            return Err(e);
        },
    };
    proof {
        crate::frame_allocator::lemma_available_step(
            fa0,
            Some(pt.table_addr(0) as int / PAGE_SIZE as int),
            *fa,
        );
        lemma_zero_entry_absent();
    }
    let ghost root = pt;
    let empty = PageFlags::empty();
    match pt.map_to_1g(fa, 0, 0, empty) {
        Ok(_) => {},
        Err(e) => {
            return Err(e);
        },
    }
    proof {
        assert((0u64 & PTE_ADDR_MASK) | 0u64 | PRESENT == (0u64 & PTE_ADDR_MASK) | PRESENT) by (
        bit_vector);
        lemma_leaf_entry_bits(0, 0, 3);
        lemma_heap_page_indices(0, 0);
        lemma_index_bounds(heap_page(0));
        lemma_index_bounds(0);
        pt.lemma_path_levels(0);
        let hi = index_of(heap_page(0), 4);
        assert(!pt.on_path(0, 3, 0, hi));
        assert(pt.entry(0, hi) == root.entry(0, hi));
        assert(pt.table_at(heap_page(0), 3) is None);
    }
    let pages: u64 = crate::heap::HEAP_SIZE / crate::frame_allocator::PAGE_SIZE;
    let writable = PageFlags::from_bits_truncate(WRITE);
    let ghost small = fa0.limit_index() <= 0x100_0000_0000;
    let mut k: u64 = 0;
    while k < pages
        invariant
            pages == 256,
            k <= pages,
            fa0 == *old(fa),
            enough == (fa0.available() >= boot_frames()),
            small == (fa0.limit_index() <= 0x100_0000_0000),
            writable@ == WRITE & ALL_FLAGS,
            pt.wf(),
            pt.frames_distinct(),
            pt.frames_below(fa.next_index()),
            fa.limit_index() == fa0.limit_index(),
            pt.table_at(0, 3) is Some,
            pt.path_entry(0, 3) == leaf_entry(0, 0, 3),
            k == 0 ==> pt.table_at(heap_page(0), 3) is None,
            enough ==> fa.available() >= (256 - k) + if k == 0 {
                3int
            } else {
                0
            },
            forall|j: int|
                0 <= j < k ==> #[trigger] pt.table_at(heap_page(j), 1) is Some && pt.path_entry(
                    heap_page(j),
                    1,
                ) & (PRESENT | WRITE) == PRESENT | WRITE,
            small ==> forall|j: int| 0 <= j < k ==> #[trigger] heap_frame(pt, j) < fa.next_index() * 4096,
            small ==> forall|i: int, j: int|
                0 <= i < j < k ==> #[trigger] heap_frame(pt, i) < #[trigger] heap_frame(pt, j),
        decreases pages - k,
    {
        let va = crate::heap::HEAP_START + k * crate::frame_allocator::PAGE_SIZE;
        let ghost pre = pt;
        let ghost pre_fa = *fa;
        proof {
            assert(va == heap_page(k as int));
            lemma_heap_page_indices(k, k);
            if k > 0 {
                lemma_heap_page_indices(0, k);
                lemma_shared_path_reused(pt, heap_page(0), va);
                pt.lemma_path_levels(va);
                assert(pt.table_at(va, 1) is Some);
                assert(pt.table_at(va, 2) is Some);
                assert(pt.missing(va, 1) == 0);
                assert(!pt.leaf_on_path(va, 3));
                assert(!pt.leaf_on_path(va, 2));
            } else {
                assert(pt.table_at(va, 3) is None);
                assert(pt.table_at(va, 2) is None);
                assert(pt.table_at(va, 1) is None);
                assert(pt.missing(va, 1) == 3);
            }
            assert(!pt.path_conflict(va, 1));
            pre_fa.lemma_indices_nonnegative();
            if enough {
                assert(pre_fa.available() >= 1 + pt.missing(va, 1));
            }
        }
        match pt.map_4k(fa, va, writable) {
            Ok(_) => {},
            Err(e) => {
                return Err(e);
            },
        }
        proof {
            let post = pt;
            lemma_leaf_entry_bits(0, 0, 3);
            let kf = pre_fa.first_free(pre_fa.next_index());
            let paddr = (kf * PAGE_SIZE) as u64;
            assert(PT4::map_result(pre, post, va, paddr, writable@, 1, Ok(())));
            PT4::lemma_mapping_keeps_path(pre, post, va, paddr, writable@, 1, 0, 3);
            lemma_writable_leaf(paddr);
            assert((WRITE & ALL_FLAGS) & ALL_FLAGS == WRITE & ALL_FLAGS) by (bit_vector);
            if small {
                assert(kf < pre_fa.limit_index());
                assert(pre_fa.limit_index() == fa0.limit_index());
                assert(kf >= pre_fa.next_index());
                assert(pre_fa.next_index() >= 0);
                assert(fa0.limit_index() <= 0x100_0000_0000);
                assert(0 <= kf * 4096 < 0x10_0000_0000_0000) by (nonlinear_arith)
                    requires
                        0 <= kf < 0x100_0000_0000,
                ;
                assert(paddr as int == kf * 4096);
                assert(paddr % 4096 == 0);
                lemma_page_leaf_addr(paddr, writable@);
                assert(heap_frame(post, k as int) == kf * 4096);
            }
            assert forall|j: int| 0 <= j < k + 1 implies #[trigger] post.table_at(
                heap_page(j),
                1,
            ) is Some && post.path_entry(heap_page(j), 1) & (PRESENT | WRITE) == PRESENT | WRITE by {
                if j < k {
                    lemma_heap_page_indices(j as u64, k);
                    let e = pre.path_entry(heap_page(j), 1);
                    assert(e & (PRESENT | WRITE) == PRESENT | WRITE);
                    assert(entry_present(e)) by {
                        assert(e & (PRESENT | WRITE) == PRESENT | WRITE ==> e & PRESENT == PRESENT)
                            by (bit_vector);
                    }
                    PT4::lemma_mapping_keeps_path(
                        pre,
                        post,
                        va,
                        paddr,
                        writable@,
                        1,
                        heap_page(j),
                        1,
                    );
                }
            }
            if small {
                assert forall|j: int| 0 <= j < k implies heap_frame(post, j) == heap_frame(pre, j) by {
                    lemma_heap_page_indices(j as u64, k);
                    let e = pre.path_entry(heap_page(j), 1);
                    assert(entry_present(e)) by {
                        assert(e & (PRESENT | WRITE) == PRESENT | WRITE ==> e & PRESENT == PRESENT)
                            by (bit_vector);
                    }
                    PT4::lemma_mapping_keeps_path(
                        pre,
                        post,
                        va,
                        paddr,
                        writable@,
                        1,
                        heap_page(j),
                        1,
                    );
                }
                assert forall|j: int| 0 <= j < k + 1 implies #[trigger] heap_frame(post, j)
                    < fa.next_index() * 4096 by {
                    if j < k {
                        assert(heap_frame(post, j) == heap_frame(pre, j));
                    }
                }
                assert forall|i: int, j: int| 0 <= i < j < k + 1 implies #[trigger] heap_frame(
                    post,
                    i,
                ) < #[trigger] heap_frame(post, j) by {
                    assert(heap_frame(post, i) == heap_frame(pre, i));
                    if j < k {
                        assert(heap_frame(post, j) == heap_frame(pre, j));
                    }
                }
            }
        }
        k = k + 1;
    }
    Ok(pt)
}

} // verus!
