use denuos::multiboot::{
    parse_basic_mem_info, parse_bios_boot_device, parse_elf_sections, parse_mmap, read_u32,
    read_u64, tag_list, MMapEntryType, ParseError, TagInfo,
};

fn push_u32(b: &mut Vec<u8>, v: u32) {
    b.extend_from_slice(&v.to_le_bytes());
}

fn push_u64(b: &mut Vec<u8>, v: u64) {
    b.extend_from_slice(&v.to_le_bytes());
}

fn pad8(b: &mut Vec<u8>) {
    while b.len() % 8 != 0 {
        b.push(0);
    }
}

fn finish(mut b: Vec<u8>) -> Vec<u8> {
    let n = b.len() as u32;
    b[0..4].copy_from_slice(&n.to_le_bytes());
    b
}

/// Header, a command line, a memory map of two entries, basic memory, an
/// end tag.
fn sample() -> Vec<u8> {
    let mut b = Vec::new();
    push_u32(&mut b, 0);
    push_u32(&mut b, 0);
    // command line "ab\0"
    push_u32(&mut b, 1);
    push_u32(&mut b, 11);
    b.extend_from_slice(b"ab\0");
    pad8(&mut b);
    // memory map
    push_u32(&mut b, 6);
    push_u32(&mut b, 16 + 2 * 24);
    push_u32(&mut b, 24);
    push_u32(&mut b, 0);
    push_u64(&mut b, 0);
    push_u64(&mut b, 0x9fc00);
    push_u32(&mut b, 1);
    push_u32(&mut b, 0);
    push_u64(&mut b, 0x100000);
    push_u64(&mut b, 0x7ee0000);
    push_u32(&mut b, 7);
    push_u32(&mut b, 0);
    // basic memory
    push_u32(&mut b, 4);
    push_u32(&mut b, 16);
    push_u32(&mut b, 639);
    push_u32(&mut b, 130048);
    // end
    push_u32(&mut b, 0);
    push_u32(&mut b, 8);
    finish(b)
}

#[test]
fn little_endian_words() {
    let b = [0x78, 0x56, 0x34, 0x12, 0xf0, 0xde, 0xbc, 0x9a];
    assert_eq!(read_u32(&b, 0), 0x1234_5678);
    assert_eq!(read_u32(&b, 4), 0x9abc_def0);
    assert_eq!(read_u64(&b, 0), 0x9abc_def0_1234_5678);
}

#[test]
fn tags_are_listed_in_order() {
    let b = sample();
    let tags = tag_list(&b).unwrap();
    let types: Vec<u32> = tags.iter().map(|t| t.ty).collect();
    assert_eq!(types, vec![1, 6, 4, 0]);
    assert_eq!(tags[0], TagInfo { ty: 1, data: 16, size: 3 });
    assert_eq!(tags[1].data, 32);
    assert_eq!(tags[1].size, 56);
}

#[test]
fn memory_map_entries() {
    let b = sample();
    let tags = tag_list(&b).unwrap();
    let map = parse_mmap(&b, tags[1]).unwrap();
    assert_eq!(map.len(), 2);
    assert_eq!(map[0].base_addr, 0);
    assert_eq!(map[0].length, 0x9fc00);
    assert_eq!(map[0].ty, MMapEntryType::Free);
    assert_eq!(map[1].base_addr, 0x100000);
    assert_eq!(map[1].length, 0x7ee0000);
    assert_eq!(map[1].ty, MMapEntryType::Reserved);
    let mem = parse_basic_mem_info(&b, tags[2]).unwrap();
    assert_eq!((mem.mem_lower, mem.mem_upper), (639, 130048));
}

#[test]
fn unsupported_memory_map() {
    let mut b = Vec::new();
    push_u32(&mut b, 0);
    push_u32(&mut b, 0);
    push_u32(&mut b, 6);
    push_u32(&mut b, 16);
    push_u32(&mut b, 20);
    push_u32(&mut b, 0);
    let b = finish(b);
    let tags = tag_list(&b).unwrap();
    assert_eq!(parse_mmap(&b, tags[0]).unwrap_err(), ParseError::UnsupportedMemoryMap);
}

#[test]
fn elf_sections_tag() {
    let mut b = Vec::new();
    push_u32(&mut b, 0);
    push_u32(&mut b, 0);
    push_u32(&mut b, 9);
    push_u32(&mut b, 20 + 2 * 64);
    push_u32(&mut b, 3);
    push_u32(&mut b, 64);
    push_u32(&mut b, 2);
    for (flags, addr, size) in [(2u64, 0x10_0000u64, 0x1000u64), (6, 0x10_1000, 0x20)] {
        push_u32(&mut b, 0);
        push_u32(&mut b, 1);
        push_u64(&mut b, flags);
        push_u64(&mut b, addr);
        push_u64(&mut b, 0);
        push_u64(&mut b, size);
        push_u32(&mut b, 0);
        push_u32(&mut b, 0);
        push_u64(&mut b, 16);
        push_u64(&mut b, 0);
    }
    pad8(&mut b);
    let b = finish(b);
    let tags = tag_list(&b).unwrap();
    let secs = parse_elf_sections(&b, tags[0]).unwrap();
    assert_eq!((secs.num, secs.entsize, secs.shndx), (3, 64, 2));
    assert_eq!(secs.image_start(), 0x10_0000);
    assert_eq!(secs.image_end(), 0x10_101f);
    assert_eq!(secs.image_size(), 0x1020);
    let short = TagInfo { ty: 9, data: tags[0].data, size: 12 + 64 };
    assert_eq!(parse_elf_sections(&b, short).unwrap_err(), ParseError::Truncated);
}

#[test]
fn boot_device_tag() {
    let mut b = Vec::new();
    push_u32(&mut b, 0);
    push_u32(&mut b, 0);
    push_u32(&mut b, 5);
    push_u32(&mut b, 20);
    push_u32(&mut b, 0x80);
    push_u32(&mut b, 0xffff_ffff);
    push_u32(&mut b, 2);
    pad8(&mut b);
    let b = finish(b);
    let tags = tag_list(&b).unwrap();
    let dev = parse_bios_boot_device(&b, tags[0]).unwrap();
    assert_eq!(dev.partition(), None);
    assert_eq!(dev.sub_partition(), Some(2));
}

#[test]
fn malformed_structures() {
    let mut b = sample();
    b[0] = b[0].wrapping_add(8);
    assert_eq!(tag_list(&b).unwrap_err(), ParseError::SizeMismatch);
    assert_eq!(tag_list(&[1, 2, 3]).unwrap_err(), ParseError::SizeMismatch);

    let mut b = Vec::new();
    push_u32(&mut b, 0);
    push_u32(&mut b, 0);
    push_u32(&mut b, 19);
    push_u32(&mut b, 8);
    let b = finish(b);
    assert_eq!(tag_list(&b).unwrap_err(), ParseError::UnknownTag(19));

    let mut b = Vec::new();
    push_u32(&mut b, 0);
    push_u32(&mut b, 0);
    push_u32(&mut b, 1);
    push_u32(&mut b, 40);
    push_u32(&mut b, 0);
    push_u32(&mut b, 0);
    let b = finish(b);
    assert_eq!(tag_list(&b).unwrap_err(), ParseError::Truncated);

    let mut b = Vec::new();
    push_u32(&mut b, 0);
    push_u32(&mut b, 0);
    push_u32(&mut b, 1);
    push_u32(&mut b, 9);
    b.push(0);
    let b = finish(b);
    assert_eq!(tag_list(&b).unwrap_err(), ParseError::Truncated);
}
