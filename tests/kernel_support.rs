use denuos::heap::{align_up, BumpAllocator, HEAP_SIZE, HEAP_START};
use denuos::multiboot::{BiosBootDevice, ElfSection, ElfSections, MultibootInfo, MultibootTags};
use denuos::vga::{Color, ColorCode, ScreenChar, Writer, BUFFER_HEIGHT, BUFFER_WIDTH};

fn section(flags: u64, addr: u64, size: u64) -> ElfSection {
    ElfSection::from_raw(0, 1, flags, addr, 0, size, 0, 0, 8, 0)
}

#[test]
fn align_up_rounds() {
    assert_eq!(align_up(0, 8), 0);
    assert_eq!(align_up(1, 8), 8);
    assert_eq!(align_up(8, 8), 8);
    assert_eq!(align_up(0x1001, 0x1000), 0x2000);
    assert_eq!(align_up(13, 1), 13);
}

#[test]
fn bump_allocation() {
    let mut heap = BumpAllocator::new(HEAP_START, HEAP_SIZE);
    assert_eq!(heap.allocate(3, 1), Some(HEAP_START));
    assert_eq!(heap.allocate(8, 8), Some(HEAP_START + 8));
    assert_eq!(heap.allocate(HEAP_SIZE, 1), None);
    assert_eq!(heap.allocate(HEAP_SIZE - 16, 16), Some(HEAP_START + 16));
    heap.dealloc(HEAP_START, 3);
    assert_eq!(heap.allocate(1, 1), None);
}

#[test]
fn bump_allocation_near_the_top() {
    let mut heap = BumpAllocator::new(u64::MAX - 10, 10);
    assert_eq!(heap.allocate(1, 16), None);
    assert_eq!(heap.allocate(10, 1), Some(u64::MAX - 10));
}

#[test]
fn kernel_image_bounds() {
    let list = vec![
        section(0, 0, 0),
        section(2, 0xffff_ffff_8010_0000, 0x2000),
        section(6, 0xffff_ffff_8010_2000, 0x500),
        section(0, 0x10, 0x40),
        section(3, 0xffff_ffff_8020_0000, 0x1000),
    ];
    let secs = ElfSections { num: 5, list, entsize: 64, shndx: 4 };
    assert_eq!(secs.image_start(), 0xffff_ffff_8010_0000);
    assert_eq!(secs.image_size(), 0x3500);
    assert_eq!(secs.image_end(), 0xffff_ffff_8020_0fff);
}

#[test]
fn elf_section_queries() {
    let s = section(2, 0x1000, 0x200);
    assert!(s.is_allocated());
    assert_eq!(s.start(), 0x1000);
    assert_eq!(s.size(), 0x200);
    assert_eq!(s.end(), 0x11ff);
    assert!(!section(4, 0, 1).is_allocated());
}

#[test]
fn boot_device_partitions() {
    let d = BiosBootDevice::new(0x80, 1, 0xffff_ffff);
    assert_eq!(d.partition(), Some(1));
    assert_eq!(d.sub_partition(), None);
}

#[test]
fn tag_structure_bounds() {
    let t = MultibootTags::new(0x10_0000, 0x120);
    assert_eq!(t.start(), 0x10_0000);
    assert_eq!(t.end(), 0x10_011f);
    let info = MultibootInfo::empty();
    assert!(info.mem_map.is_none());
    assert!(info.elf_sections.is_none());
}

#[test]
fn color_codes() {
    assert_eq!(ColorCode::new(Color::White, Color::Black).0, 0x0f);
    assert_eq!(ColorCode::new(Color::Red, Color::Black).0, 0x04);
    assert_eq!(ColorCode::new(Color::Yellow, Color::Blue).0, 0x1e);
}

#[test]
fn writer_writes_and_wraps() {
    let white = ColorCode::new(Color::White, Color::Black);
    let mut w = Writer::new(white);
    w.write_bytes(b"hi\nyo");
    assert_eq!(w.char_at(0, 0), ScreenChar { ascii_character: b'h', color_code: white });
    assert_eq!(w.char_at(0, 1).ascii_character, b'i');
    assert_eq!(w.char_at(1, 0).ascii_character, b'y');
    assert_eq!(w.position(), (1, 2));
    for _ in 0..BUFFER_WIDTH {
        w.write_byte(b'x');
    }
    assert_eq!(w.position(), (2, 2));
    assert_eq!(w.char_at(2, 0).ascii_character, b'x');
}

#[test]
fn writer_scrolls_at_the_bottom() {
    let white = ColorCode::new(Color::White, Color::Black);
    let mut w = Writer::new(white);
    for i in 0..BUFFER_HEIGHT {
        w.write_byte(b'a' + i as u8);
        w.write_byte(b'\n');
    }
    assert_eq!(w.position(), (BUFFER_HEIGHT - 1, 0));
    assert_eq!(w.char_at(0, 0).ascii_character, b'b');
    assert_eq!(w.char_at(BUFFER_HEIGHT - 2, 0).ascii_character, b'a' + 24);
    assert_eq!(w.char_at(BUFFER_HEIGHT - 1, 0).ascii_character, b' ');
    let red = ColorCode::new(Color::Red, Color::Black);
    w.set_colorcode(red);
    assert_eq!(w.get_colorcode(), red);
    w.clear();
    assert_eq!(w.position(), (0, 0));
    assert_eq!(w.char_at(0, 0), ScreenChar { ascii_character: b' ', color_code: red });
}
