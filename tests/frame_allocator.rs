use denuos::frame_allocator::{AllocError, Frame, FrameAllocator, InitError, PAGE_SIZE};
use denuos::multiboot::{MMapEntry, MMapEntryType};

const FAR: (u64, u64) = (0xffff_0000_0000, 0xffff_0000_0fff);

fn window(pages: u64, protected: [(u64, u64); 2]) -> FrameAllocator {
    let regions = [MMapEntry::new(0, pages * PAGE_SIZE + 1, MMapEntryType::Free)];
    FrameAllocator::new(&regions, protected).unwrap()
}

fn drain(fa: &mut FrameAllocator) -> Vec<u64> {
    let mut out = Vec::new();
    while let Ok(f) = fa.allocate() {
        out.push(f.page_index());
    }
    out
}

#[test]
fn protected_span_is_skipped() {
    let mut fa = window(100, [(10 * PAGE_SIZE, 20 * PAGE_SIZE + 4095), FAR]);
    let got = drain(&mut fa);
    let expected: Vec<u64> = (0..10).chain(21..100).collect();
    assert_eq!(got, expected);
}

#[test]
fn protected_byte_inside_page_blocks_it() {
    let mut fa = window(4, [(PAGE_SIZE + 7, PAGE_SIZE + 8), FAR]);
    assert_eq!(drain(&mut fa), vec![0, 2, 3]);
}

#[test]
fn exact_window_exhausts_after_n() {
    let n = 17;
    let mut fa = window(n, [FAR, FAR]);
    for i in 0..n {
        assert_eq!(fa.allocate().unwrap().page_index(), i);
    }
    assert_eq!(fa.allocate(), Err(AllocError::OutOfMemory));
    assert_eq!(fa.allocate(), Err(AllocError::OutOfMemory));
}

#[test]
fn frames_are_distinct() {
    let mut fa = window(64, [(5 * PAGE_SIZE, 9 * PAGE_SIZE), (30 * PAGE_SIZE, 30 * PAGE_SIZE)]);
    let mut got = drain(&mut fa);
    let n = got.len();
    got.sort();
    got.dedup();
    assert_eq!(got.len(), n);
    assert_eq!(n, 64 - 5 - 1);
}

#[test]
fn no_free_region_is_an_error() {
    let regions = [
        MMapEntry::new(0, 0x10000, MMapEntryType::Reserved),
        MMapEntry::new(0x10000, 0x10000, MMapEntryType::ACPI),
    ];
    assert!(matches!(FrameAllocator::new(&regions, [FAR, FAR]), Err(InitError::NoUsableMemory)));
    let empty: [MMapEntry; 0] = [];
    assert!(matches!(FrameAllocator::new(&empty, [FAR, FAR]), Err(InitError::NoUsableMemory)));
}

#[test]
fn largest_free_region_is_chosen() {
    let regions = [
        MMapEntry::new(0x1000, 0x4000, MMapEntryType::Free),
        MMapEntry::new(0x100000, 0x100000, MMapEntryType::Reserved),
        MMapEntry::new(0x10_0800, 0x8000, MMapEntryType::Free),
        MMapEntry::new(0x20_0000, 0x2000, MMapEntryType::Free),
    ];
    let mut fa = FrameAllocator::new(&regions, [FAR, FAR]).unwrap();
    // 0x100800 rounds up to 0x101000; the last byte 0x1087ff lies in page 0x108.
    assert_eq!(fa.free_pages(), 7);
    assert_eq!(fa.allocate().unwrap().addr(), 0x10_1000);
}

#[test]
fn equal_sizes_take_the_last() {
    let regions = [
        MMapEntry::new(0x1000, 0x3000, MMapEntryType::Free),
        MMapEntry::new(0x8000, 0x3000, MMapEntryType::Free),
    ];
    let mut fa = FrameAllocator::new(&regions, [FAR, FAR]).unwrap();
    assert_eq!(fa.allocate().unwrap().addr(), 0x8000);
}

#[test]
fn free_pages_counts_down() {
    let mut fa = window(10, [FAR, FAR]);
    assert_eq!(fa.free_pages(), 10);
    let f = fa.allocate().unwrap();
    assert_eq!(fa.free_pages(), 9);
    fa.free(f);
    assert_eq!(fa.free_pages(), 9);
    assert_eq!(fa.allocate().unwrap().page_index(), 1);
}

#[test]
fn region_smaller_than_a_page_is_empty() {
    let regions = [MMapEntry::new(0x1001, 0x800, MMapEntryType::Free)];
    let mut fa = FrameAllocator::new(&regions, [FAR, FAR]).unwrap();
    assert_eq!(fa.free_pages(), 0);
    assert_eq!(fa.allocate(), Err(AllocError::OutOfMemory));
}

#[test]
fn frame_addresses() {
    assert_eq!(Frame::containing(0x00ff).addr(), 0);
    assert_eq!(Frame::containing(0x1fff).addr(), 0x1000);
    assert_eq!(Frame::after(0x0000).addr(), 0x0000);
    assert_eq!(Frame::after(0x1000).addr(), 0x1000);
    assert_eq!(Frame::after(0x1001).addr(), 0x2000);
}

#[test]
fn mmap_entry_queries() {
    let e = MMapEntry::new(0x1000, 0x2000, MMapEntryType::Free);
    assert!(e.is_free());
    assert_eq!(e.start(), 0x1000);
    assert_eq!(e.size(), 0x2000);
    assert_eq!(e.end(), 0x2fff);
    assert!(!MMapEntry::new(0, 1, MMapEntryType::Bad).is_free());
    assert_eq!(MMapEntryType::from_u32(1), Some(MMapEntryType::Free));
    assert_eq!(MMapEntryType::from_u32(5), Some(MMapEntryType::Bad));
    assert_eq!(MMapEntryType::from_u32(6), None);
}

#[test]
fn frames_are_ordered_by_page() {
    let mut fa = window(8, [FAR, FAR]);
    let a = fa.allocate().unwrap();
    let b = fa.allocate().unwrap();
    assert!(a < b);
    assert_ne!(a, b);
}
