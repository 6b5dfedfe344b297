use denuos::frame_allocator::{FrameAllocator, PAGE_SIZE};
use denuos::heap::{HEAP_SIZE, HEAP_START};
use denuos::multiboot::{MMapEntry, MMapEntryType};
use denuos::paging::{
    get_pt1_index, get_pt2_index, get_pt3_index, get_pt4_index, MapError, PageFlags, ALL_FLAGS,
    HUGE, NO_EXECUTE, PRESENT, PT4, PTE_ADDR_MASK, USER, WRITE,
};

const FAR: (u64, u64) = (0xffff_0000_0000, 0xffff_0000_0fff);

fn frames(pages: u64) -> FrameAllocator {
    let regions = [MMapEntry::new(0, pages * PAGE_SIZE + 1, MMapEntryType::Free)];
    FrameAllocator::new(&regions, [FAR, FAR]).unwrap()
}

fn flags(bits: u64) -> PageFlags {
    PageFlags::from_bits_truncate(bits)
}

fn rebuild(va: u64) -> u64 {
    let low = ((get_pt4_index(va) as u64) << 39)
        | ((get_pt3_index(va) as u64) << 30)
        | ((get_pt2_index(va) as u64) << 21)
        | ((get_pt1_index(va) as u64) << 12);
    if get_pt4_index(va) >= 256 {
        low | 0xffff_0000_0000_0000
    } else {
        low
    }
}

#[test]
fn indices_of_an_address() {
    let va: u64 = 0x0000_7f12_3456_789a;
    assert_eq!(get_pt4_index(va), (va >> 39) as usize & 0x1ff);
    assert_eq!(get_pt4_index(va), 0xfe);
    assert_eq!(get_pt3_index(va), 0x48);
    assert_eq!(get_pt2_index(va), 0x1a2);
    assert_eq!(get_pt1_index(va), 0x167);
}

#[test]
fn indices_round_trip() {
    for va in [
        0u64,
        0x0000_7f12_3456_789a,
        0x0000_7fff_ffff_ffff,
        0xffff_8000_0000_0000,
        0xffff_e000_0000_1234,
        0xffff_ffff_ffff_ffff,
    ] {
        assert_eq!(rebuild(va), va & !0xfff);
    }
}

#[test]
fn first_small_mapping_builds_three_tables() {
    let mut fa = frames(64);
    let mut pt = PT4::new(&mut fa).unwrap();
    assert_eq!(pt.table_count(), 1);
    let va = 0x0000_7f12_3456_7000;
    pt.map_to_4k(&mut fa, va, 0x5000, flags(WRITE | USER)).unwrap();
    assert_eq!(pt.table_count(), 4);
    assert_eq!(fa.free_pages(), 64 - 4);
    let t1 = pt.table_on_path(va, 1).unwrap();
    assert_eq!(pt.table_level(t1), 1);
    assert_eq!(pt.entry_value(t1, get_pt1_index(va)), 0x5000 | WRITE | USER | PRESENT);
}

#[test]
fn ancestors_grant_present_user_write() {
    let mut fa = frames(64);
    let mut pt = PT4::new(&mut fa).unwrap();
    let va = 0x0000_0040_0020_3000;
    pt.map_to_4k(&mut fa, va, 0x9000, flags(WRITE | USER)).unwrap();
    let indices = [get_pt4_index(va), get_pt3_index(va), get_pt2_index(va)];
    for (k, level) in [4usize, 3, 2].iter().enumerate() {
        let table = pt.table_on_path(va, *level).unwrap();
        let entry = pt.entry_value(table, indices[k]);
        assert_eq!(entry & (PRESENT | USER | WRITE), PRESENT | USER | WRITE);
        assert_eq!(entry & HUGE, 0);
        let child = pt.table_on_path(va, *level - 1).unwrap();
        assert_eq!(entry & PTE_ADDR_MASK, pt.table_address(child));
        assert_eq!(entry, pt.table_address(child) | PRESENT | USER | WRITE);
    }
}

#[test]
fn restricted_leaf_keeps_open_ancestors() {
    let mut fa = frames(64);
    let mut pt = PT4::new(&mut fa).unwrap();
    let va = 0x1000;
    pt.map_to_4k(&mut fa, va, 0x3000, flags(0)).unwrap();
    let t1 = pt.table_on_path(va, 1).unwrap();
    assert_eq!(pt.entry_value(t1, 1), 0x3000 | PRESENT);
    assert_eq!(pt.entry_value(0, 0) & 7, 7);
}

#[test]
fn shared_parents_are_reused() {
    let mut fa = frames(64);
    let mut pt = PT4::new(&mut fa).unwrap();
    let a = 0x0000_0040_0020_3000;
    let b = 0x0000_0040_0020_5000;
    pt.map_to_4k(&mut fa, a, 0x9000, flags(WRITE)).unwrap();
    let count = pt.table_count();
    let free = fa.free_pages();
    pt.map_to_4k(&mut fa, b, 0xa000, flags(WRITE)).unwrap();
    assert_eq!(pt.table_count(), count);
    assert_eq!(fa.free_pages(), free);
    for level in 1..=4 {
        assert_eq!(pt.table_on_path(a, level), pt.table_on_path(b, level));
    }
    let t1 = pt.table_on_path(a, 1).unwrap();
    assert_eq!(pt.entry_value(t1, get_pt1_index(a)), 0x9000 | WRITE | PRESENT);
    assert_eq!(pt.entry_value(t1, get_pt1_index(b)), 0xa000 | WRITE | PRESENT);
}

#[test]
fn one_new_table_per_missing_level() {
    let mut fa = frames(64);
    let mut pt = PT4::new(&mut fa).unwrap();
    pt.map_to_4k(&mut fa, 0x0000_0040_0020_3000, 0x9000, flags(WRITE)).unwrap();
    assert_eq!(pt.table_count(), 4);
    // Same level-4 and level-3 entries, another 2 MiB region: one new table.
    pt.map_to_4k(&mut fa, 0x0000_0040_0040_3000, 0x9000, flags(WRITE)).unwrap();
    assert_eq!(pt.table_count(), 5);
    // Same level-4 entry, another 1 GiB region: two new tables.
    pt.map_to_4k(&mut fa, 0x0000_0041_0000_0000, 0x9000, flags(WRITE)).unwrap();
    assert_eq!(pt.table_count(), 7);
    assert_eq!(fa.free_pages(), 64 - 7);
}

#[test]
fn distinct_gigabytes_get_distinct_tables() {
    let mut fa = frames(64);
    let mut pt = PT4::new(&mut fa).unwrap();
    let a = 0x0000_0000_4000_0000;
    let b = 0x0000_0000_8000_0000;
    pt.map_to_4k(&mut fa, a, 0x1000, flags(WRITE)).unwrap();
    pt.map_to_4k(&mut fa, b, 0x2000, flags(WRITE)).unwrap();
    assert_eq!(pt.table_on_path(a, 3), pt.table_on_path(b, 3));
    assert_ne!(pt.table_on_path(a, 2), pt.table_on_path(b, 2));
    assert_ne!(pt.table_on_path(a, 1), pt.table_on_path(b, 1));
}

#[test]
fn small_page_under_huge_page_conflicts() {
    let mut fa = frames(64);
    let mut pt = PT4::new(&mut fa).unwrap();
    pt.map_to_1g(&mut fa, 0, 0, flags(0)).unwrap();
    let count = pt.table_count();
    let free = fa.free_pages();
    assert_eq!(pt.map_to_4k(&mut fa, 0x20_3000, 0x5000, flags(WRITE)), Err(MapError::MappingConflict));
    assert_eq!(pt.table_count(), count);
    assert_eq!(fa.free_pages(), free);
    assert_eq!(pt.map_to_2m(&mut fa, 0x20_0000, 0x5000, flags(WRITE)), Err(MapError::MappingConflict));
    assert_eq!(pt.map_4k(&mut fa, 0x3fff_f000, flags(WRITE)), Err(MapError::MappingConflict));
    assert_eq!(fa.free_pages(), free);
    // Another gigabyte is free to map.
    pt.map_to_4k(&mut fa, 0x4000_0000, 0x5000, flags(WRITE)).unwrap();
}

#[test]
fn small_page_under_2m_page_conflicts() {
    let mut fa = frames(64);
    let mut pt = PT4::new(&mut fa).unwrap();
    pt.map_to_2m(&mut fa, 0x20_0000, 0x40_0000, flags(WRITE)).unwrap();
    assert_eq!(pt.map_to_4k(&mut fa, 0x20_1000, 0x5000, flags(WRITE)), Err(MapError::MappingConflict));
    pt.map_to_4k(&mut fa, 0x40_1000, 0x5000, flags(WRITE)).unwrap();
}

#[test]
fn huge_entries_carry_the_huge_bit() {
    let mut fa = frames(64);
    let mut pt = PT4::new(&mut fa).unwrap();
    pt.map_to_1g(&mut fa, 0, 0, flags(0)).unwrap();
    let t3 = pt.table_on_path(0, 3).unwrap();
    assert_eq!(pt.entry_value(t3, 0), PRESENT | HUGE);
    assert_eq!(pt.table_count(), 2);
    pt.map_to_2m(&mut fa, 0x0000_0080_0020_0000, 0x1234_5000, flags(WRITE | NO_EXECUTE)).unwrap();
    let t2 = pt.table_on_path(0x0000_0080_0020_0000, 2).unwrap();
    assert_eq!(pt.entry_value(t2, 1), 0x1234_5000 | WRITE | NO_EXECUTE | PRESENT | HUGE);
}

#[test]
fn remapping_overwrites() {
    let mut fa = frames(64);
    let mut pt = PT4::new(&mut fa).unwrap();
    pt.map_to_4k(&mut fa, 0x7000, 0x1000, flags(WRITE)).unwrap();
    pt.map_to_4k(&mut fa, 0x7000, 0x2000, flags(USER)).unwrap();
    let t1 = pt.table_on_path(0x7000, 1).unwrap();
    assert_eq!(pt.entry_value(t1, 7), 0x2000 | USER | PRESENT);
}

#[test]
fn physical_address_is_truncated_to_the_frame() {
    let mut fa = frames(64);
    let mut pt = PT4::new(&mut fa).unwrap();
    pt.map_to_4k(&mut fa, 0x7000, 0xfff0_0000_0000_1abc, flags(0)).unwrap();
    let t1 = pt.table_on_path(0x7000, 1).unwrap();
    assert_eq!(pt.entry_value(t1, 7), 0x1000 | PRESENT);
}

#[test]
fn out_of_frames_leaves_tree_unchanged() {
    let mut fa = frames(3);
    let mut pt = PT4::new(&mut fa).unwrap();
    assert_eq!(pt.map_to_4k(&mut fa, 0x7000, 0x1000, flags(WRITE)), Err(MapError::OutOfMemory));
    assert_eq!(pt.table_count(), 1);
    assert_eq!(pt.entry_value(0, 0), 0);
    let mut fa = frames(4);
    let mut pt = PT4::new(&mut fa).unwrap();
    pt.map_to_4k(&mut fa, 0x7000, 0x1000, flags(WRITE)).unwrap();
}

#[test]
fn root_needs_a_frame() {
    let mut fa = frames(0);
    assert!(matches!(PT4::new(&mut fa), Err(MapError::OutOfMemory)));
}

#[test]
fn map_4k_takes_the_next_frame() {
    let mut fa = frames(64);
    let mut pt = PT4::new(&mut fa).unwrap();
    pt.map_4k(&mut fa, 0x7000, flags(WRITE)).unwrap();
    let t1 = pt.table_on_path(0x7000, 1).unwrap();
    assert_eq!(pt.entry_value(t1, 7), PAGE_SIZE | WRITE | PRESENT);
    let mut fa = frames(1);
    let mut pt = PT4::new(&mut fa).unwrap();
    assert_eq!(pt.map_4k(&mut fa, 0x7000, flags(WRITE)), Err(MapError::OutOfMemory));
}

#[test]
fn root_address_is_the_first_frame() {
    let mut fa = frames(8);
    let pt = PT4::new(&mut fa).unwrap();
    assert_eq!(pt.root_address(), 0);
    assert_eq!(pt.table_level(0), 4);
}

#[test]
fn flags_keep_only_flag_bits() {
    let f = PageFlags::from_bits_truncate(0xffff_ffff_ffff_ffff);
    assert_eq!(f.bits(), ALL_FLAGS);
    assert!(f.contains(HUGE | NO_EXECUTE));
    assert_eq!(PageFlags::empty().bits(), 0);
    assert_eq!(flags(WRITE).union(flags(USER)).bits(), WRITE | USER);
    assert!(!flags(WRITE).contains(USER));
}

#[test]
fn boot_tables_map_identity_and_heap() {
    let mut fa = frames(300);
    let pt = denuos::paging::initialize(&mut fa).unwrap();
    let t3 = pt.table_on_path(0, 3).unwrap();
    assert_eq!(pt.entry_value(t3, 0), PRESENT | HUGE);
    let pages = HEAP_SIZE / PAGE_SIZE;
    let mut last = 0;
    for k in 0..pages {
        let va = HEAP_START + k * PAGE_SIZE;
        let t1 = pt.table_on_path(va, 1).unwrap();
        let e = pt.entry_value(t1, get_pt1_index(va));
        assert_eq!(e & (PRESENT | WRITE | USER | HUGE), PRESENT | WRITE);
        let frame = e & PTE_ADDR_MASK;
        assert!(frame > last);
        last = frame;
    }
    assert_eq!(pt.table_count(), 5);
    assert_eq!(fa.free_pages(), 300 - 5 - pages);
}

#[test]
fn boot_tables_need_enough_frames() {
    let mut fa = frames(100);
    assert!(matches!(denuos::paging::initialize(&mut fa), Err(MapError::OutOfMemory)));
}

#[test]
fn table_frames_are_distinct() {
    let mut fa = frames(64);
    let mut pt = PT4::new(&mut fa).unwrap();
    for va in [0x1000u64, 0x40_0000, 0x4000_0000, 0x0000_0080_0000_0000, 0xffff_e000_0000_0000] {
        pt.map_to_4k(&mut fa, va, 0x9000, flags(WRITE)).unwrap();
    }
    let mut addrs: Vec<u64> = (0..pt.table_count()).map(|t| pt.table_address(t)).collect();
    assert!(addrs.iter().all(|a| a % PAGE_SIZE == 0));
    let n = addrs.len();
    addrs.sort();
    addrs.dedup();
    assert_eq!(addrs.len(), n);
    let next = fa.allocate().unwrap().addr();
    assert!(addrs.iter().all(|a| *a < next));
}

#[test]
fn boot_tables_need_exactly_their_frames() {
    let needed = 5 + HEAP_SIZE / PAGE_SIZE;
    let mut fa = frames(needed);
    assert!(denuos::paging::initialize(&mut fa).is_ok());
    assert_eq!(fa.free_pages(), 0);
    let mut fa = frames(needed - 1);
    assert!(matches!(denuos::paging::initialize(&mut fa), Err(MapError::OutOfMemory)));
}

#[test]
fn new_tables_hold_only_the_path() {
    let mut fa = frames(64);
    let mut pt = PT4::new(&mut fa).unwrap();
    pt.map_to_4k(&mut fa, 0x0000_0040_0020_3000, 0x9000, flags(WRITE)).unwrap();
    for t in 1..pt.table_count() {
        let used = (0..512).filter(|i| pt.entry_value(t, *i) != 0).count();
        assert_eq!(used, 1);
    }
}

#[test]
fn reused_path_leaves_allocator_alone() {
    let mut fa = frames(64);
    let mut pt = PT4::new(&mut fa).unwrap();
    pt.map_to_4k(&mut fa, 0x5000, 0x9000, flags(WRITE)).unwrap();
    pt.map_to_4k(&mut fa, 0x6000, 0xa000, flags(WRITE)).unwrap();
    assert_eq!(fa.allocate().unwrap().page_index(), 4);
}

#[test]
fn map_4k_leaf_frame_is_not_a_table_frame() {
    let mut fa = frames(64);
    let mut pt = PT4::new(&mut fa).unwrap();
    pt.map_4k(&mut fa, 0x7000, flags(WRITE)).unwrap();
    let t1 = pt.table_on_path(0x7000, 1).unwrap();
    let leaf = pt.entry_value(t1, 7) & PTE_ADDR_MASK;
    for t in 0..pt.table_count() {
        assert_ne!(pt.table_address(t), leaf);
    }
}
