use ohms::bytes::{has_bytes, read_u16_le, read_u32_le, read_u64_le, read_u8};
use ohms::parser::{
    align_size, find_section_name, get_sections_and_pe_info, parse_layout, strip_trailing_nul,
    va_from_raw_address, LayoutFault, Section,
};
use ohms::routines::{is_ext_hook, is_iat_hook, is_inline_hook, is_syscall_routine};

fn put(buffer: &mut Vec<u8>, at: usize, bytes: &[u8]) {
    buffer[at..at + bytes.len()].copy_from_slice(bytes);
}

fn entry(name: &[u8], size: u32, address: u32, raw_size: u32, raw_offset: u32) -> Vec<u8> {
    let mut bytes: Vec<u8> = vec![0; 0x28];
    put(&mut bytes, 0, name);
    put(&mut bytes, 0x08, &size.to_le_bytes());
    put(&mut bytes, 0x0C, &address.to_le_bytes());
    put(&mut bytes, 0x10, &raw_size.to_le_bytes());
    put(&mut bytes, 0x14, &raw_offset.to_le_bytes());
    bytes
}

fn image(nt: u32, magic: u16, alignment: u32, count: u16, entries: &[Vec<u8>]) -> Vec<u8> {
    let start: usize = nt as usize;
    let mut buffer: Vec<u8> = vec![0; start + 0x108];
    put(&mut buffer, 0x3C, &nt.to_le_bytes());
    put(&mut buffer, start + 0x06, &count.to_le_bytes());
    put(&mut buffer, start + 0x18, &magic.to_le_bytes());
    put(&mut buffer, start + 0x30, &0x0000_0001_4000_0000u64.to_le_bytes());
    put(&mut buffer, start + 0x38, &alignment.to_le_bytes());
    for bytes in entries.iter() {
        buffer.extend_from_slice(bytes);
    }
    buffer
}

fn section(name: &str, address: usize, size: usize, raw_offset: usize, raw_size: usize) -> Section {
    Section {
        virtual_address: address,
        virtual_size: size,
        raw_offset,
        raw_size,
        name: name.to_string(),
    }
}

#[test]
fn little_endian_reads() {
    let buffer: Vec<u8> = vec![0x01, 0x02, 0x03, 0x04, 0x05, 0x06, 0x07, 0x08, 0x09];
    assert_eq!(read_u8(&buffer, 8), Some(0x09));
    assert_eq!(read_u8(&buffer, 9), None);
    assert_eq!(read_u16_le(&buffer, 0), Some(0x0201));
    assert_eq!(read_u16_le(&buffer, 7), Some(0x0908));
    assert_eq!(read_u16_le(&buffer, 8), None);
    assert_eq!(read_u32_le(&buffer, 1), Some(0x0504_0302));
    assert_eq!(read_u32_le(&buffer, 5), Some(0x0908_0706));
    assert_eq!(read_u32_le(&buffer, 6), None);
    assert_eq!(read_u64_le(&buffer, 1), Some(0x0908_0706_0504_0302));
    assert_eq!(read_u64_le(&buffer, 2), None);
    assert_eq!(read_u64_le(&buffer, usize::MAX), None);
    assert_eq!(read_u32_le(&[0xFF, 0xFF, 0xFF, 0xFF], 0), Some(u32::MAX));
    assert_eq!(read_u64_le(&[0xFF; 8], 0), Some(u64::MAX));
}

#[test]
fn bounds_check_never_overflows() {
    let buffer: Vec<u8> = vec![0; 4];
    assert!(has_bytes(&buffer, 0, 4));
    assert!(has_bytes(&buffer, 4, 0));
    assert!(!has_bytes(&buffer, 1, 4));
    assert!(!has_bytes(&buffer, 5, 0));
    assert!(!has_bytes(&buffer, usize::MAX, usize::MAX));
    assert!(!has_bytes(&buffer, 2, usize::MAX));
}

#[test]
fn short_buffer_has_no_layout() {
    for len in 0..0x40usize {
        let buffer: Vec<u8> = vec![0x4D; len];
        let (sections, info) = get_sections_and_pe_info(&buffer, 0);
        assert!(sections.is_empty());
        assert!(info.is_none());
        let layout = parse_layout(&buffer);
        assert_eq!(layout.fault, Some(LayoutFault::NoDosHeader));
        assert!(layout.sections.is_empty());
        assert!(layout.info.is_none());
    }
}

#[test]
fn short_buffer_still_goes_through_the_classifiers() {
    let buffer: Vec<u8> = vec![0x4C, 0x8B, 0xD1, 0xB8, 0x0F, 0x05, 0x11, 0xC3];
    let (sections, info) = get_sections_and_pe_info(&buffer, 0x1000);
    assert!(sections.is_empty());
    assert!(info.is_none());
    assert!(is_inline_hook(&buffer, 0));
    assert_eq!(is_syscall_routine(&buffer, 4), Some((0, 8)));
    assert!(!is_iat_hook(&buffer, 0, &[]));
    assert!(!is_ext_hook(&buffer, 0));
    assert_eq!(find_section_name(&sections, 0x1000), "unknown");
    assert_eq!(va_from_raw_address(0, &sections, 0x1000), None);
}

#[test]
fn headers_past_the_end_give_no_layout() {
    let mut buffer: Vec<u8> = vec![0; 0x147];
    buffer[0x3C] = 0x40;
    let layout = parse_layout(&buffer);
    assert_eq!(layout.fault, Some(LayoutFault::NoNtHeaders));
    assert!(layout.sections.is_empty());
    assert!(layout.info.is_none());
    buffer.push(0);
    let layout = parse_layout(&buffer);
    assert_eq!(layout.fault, None);
    assert!(layout.info.is_some());
    let mut far: Vec<u8> = vec![0; 0x400];
    put(&mut far, 0x3C, &0xFFFF_FFFFu32.to_le_bytes());
    let (sections, info) = get_sections_and_pe_info(&far, 0);
    assert!(sections.is_empty());
    assert!(info.is_none());
}

#[test]
fn image_base_of_a_64_bit_image() {
    let buffer: Vec<u8> = image(0x80, 0x20B, 0x1000, 0, &[]);
    let (sections, info) = get_sections_and_pe_info(&buffer, 0);
    assert!(sections.is_empty());
    assert_eq!(info.unwrap().image_base, 0x0000_0001_4000_0000u64 as usize);
}

#[test]
fn image_base_of_a_32_bit_image() {
    let mut buffer: Vec<u8> = image(0x80, 0x10B, 0x1000, 0, &[]);
    put(&mut buffer, 0x80 + 0x30, &[0x11, 0x22, 0x33, 0x44]);
    put(&mut buffer, 0x80 + 0x34, &0x0040_0000u32.to_le_bytes());
    let (_, info) = get_sections_and_pe_info(&buffer, 0x7000);
    assert_eq!(info.unwrap().image_base, 0x0040_0000);
}

#[test]
fn sections_are_read_in_table_order() {
    let entries: Vec<Vec<u8>> = vec![
        entry(b".text\0\0\0", 0x1234, 0x1000, 0x200, 0x400),
        entry(b".data\0\0\0", 0x10, 0x3000, 0x100, 0x600),
        entry(b".reloc12", 0x1000, 0x4000, 0, 0),
    ];
    let buffer: Vec<u8> = image(0x80, 0x20B, 0x1000, 3, &entries);
    let layout = parse_layout(&buffer);
    assert_eq!(layout.fault, None);
    assert_eq!(layout.sections.len(), 3);
    let text: &Section = &layout.sections[0];
    assert_eq!(text.name, ".text");
    assert_eq!(text.virtual_address, 0x1000);
    assert_eq!(text.virtual_size, 0x2000);
    assert_eq!(text.raw_offset, 0x400);
    assert_eq!(text.raw_size, 0x200);
    let data: &Section = &layout.sections[1];
    assert_eq!(data.name, ".data");
    assert_eq!(data.virtual_address, 0x3000);
    assert_eq!(data.virtual_size, 0x1000);
    assert_eq!(data.raw_offset, 0x600);
    assert_eq!(data.raw_size, 0x100);
    let reloc: &Section = &layout.sections[2];
    assert_eq!(reloc.name, ".reloc12");
    assert_eq!(reloc.virtual_size, 0x1000);
}

#[test]
fn virtual_sizes_are_multiples_of_the_alignment() {
    let sizes: Vec<u32> = vec![0, 1, 0x1FF, 0x200, 0x201, 0x1234, 0xFFFF_FFFF];
    for alignment in [1u32, 3, 0x200, 0x1000, 0x8000_0000] {
        let entries: Vec<Vec<u8>> =
            sizes.iter().map(|size| entry(b"s\0\0\0\0\0\0\0", *size, 0, 0, 0)).collect();
        let buffer: Vec<u8> = image(0x40, 0x20B, alignment, sizes.len() as u16, &entries);
        let (sections, _) = get_sections_and_pe_info(&buffer, 0);
        assert_eq!(sections.len(), sizes.len());
        for (section, size) in sections.iter().zip(sizes.iter()) {
            assert_eq!(section.virtual_size % alignment as usize, 0);
            assert!(section.virtual_size >= *size as usize);
            assert!(section.virtual_size - (*size as usize) < alignment as usize);
        }
    }
}

#[test]
fn rounding_to_the_alignment() {
    assert_eq!(align_size(0x1234, 0x1000), Some(0x2000));
    assert_eq!(align_size(0x1000, 0x1000), Some(0x1000));
    assert_eq!(align_size(0, 0x1000), Some(0));
    assert_eq!(align_size(1, 0x1000), Some(0x1000));
    assert_eq!(align_size(7, 3), Some(9));
    assert_eq!(align_size(0xFFFF_FFFF, 0x1000), Some(0x1_0000_0000));
    assert_eq!(align_size(0x1234, 0), None);
    assert_eq!(align_size(0, 0), None);
}

#[test]
fn section_table_cut_short_keeps_what_was_read() {
    let entries: Vec<Vec<u8>> = vec![
        entry(b".text\0\0\0", 0x1000, 0x1000, 0x200, 0x400),
        entry(b".data\0\0\0", 0x1000, 0x2000, 0x200, 0x600),
    ];
    let mut buffer: Vec<u8> = image(0x80, 0x20B, 0x1000, 3, &entries);
    buffer.extend_from_slice(&[0u8; 0x27]);
    let layout = parse_layout(&buffer);
    assert_eq!(layout.fault, Some(LayoutFault::SectionOutOfBounds));
    assert_eq!(layout.sections.len(), 2);
    assert_eq!(layout.sections[1].name, ".data");
    assert!(layout.info.is_some());
    let (sections, info) = get_sections_and_pe_info(&buffer, 0);
    assert_eq!(sections.len(), 2);
    assert!(info.is_some());
}

#[test]
fn zero_alignment_stops_the_section_table() {
    let entries: Vec<Vec<u8>> = vec![entry(b".text\0\0\0", 0x1000, 0x1000, 0x200, 0x400)];
    let buffer: Vec<u8> = image(0x80, 0x20B, 0, 1, &entries);
    let layout = parse_layout(&buffer);
    assert_eq!(layout.fault, Some(LayoutFault::SectionNotAlignable));
    assert!(layout.sections.is_empty());
    assert_eq!(layout.info.unwrap().image_base, 0x0000_0001_4000_0000u64 as usize);
}

#[test]
fn section_names_lose_their_padding() {
    let entries: Vec<Vec<u8>> = vec![
        entry(b"\0\0\0\0\0\0\0\0", 0, 0, 0, 0),
        entry(b"a\0b\0\0\0\0\0", 0, 0, 0, 0),
        entry(b"abcdefgh", 0, 0, 0, 0),
        entry(&[0xC3, 0xA9, 0x74, 0x65, 0, 0, 0, 0], 0, 0, 0, 0),
    ];
    let buffer: Vec<u8> = image(0x40, 0x20B, 0x1000, 4, &entries);
    let (sections, _) = get_sections_and_pe_info(&buffer, 0);
    assert_eq!(sections.len(), 4);
    assert_eq!(sections[0].name, "");
    assert_eq!(sections[1].name, "a\0b");
    assert_eq!(sections[2].name, "abcdefgh");
    assert_eq!(sections[3].name, "\u{e9}te");
}

#[test]
fn section_name_that_is_not_text_is_empty() {
    let entries: Vec<Vec<u8>> = vec![
        entry(&[0x2E, 0x74, 0xFF, 0x78, 0, 0, 0, 0], 0x10, 0x1000, 0x20, 0x30),
        entry(&[0x2E, 0x74, 0, 0, 0, 0, 0, 0xC3], 0x10, 0x2000, 0x20, 0x50),
    ];
    let buffer: Vec<u8> = image(0x40, 0x20B, 0x10, 2, &entries);
    let (sections, _) = get_sections_and_pe_info(&buffer, 0);
    assert_eq!(sections.len(), 2);
    assert_eq!(sections[0].name, "");
    assert_eq!(sections[0].virtual_address, 0x1000);
    assert_eq!(sections[0].raw_offset, 0x30);
    assert_eq!(sections[1].name, "");
}

#[test]
fn trailing_nul_characters_are_stripped() {
    assert_eq!(strip_trailing_nul(".text\0\0\0"), ".text");
    assert_eq!(strip_trailing_nul("\0a\0"), "\0a");
    assert_eq!(strip_trailing_nul("\0\0"), "");
    assert_eq!(strip_trailing_nul(""), "");
    assert_eq!(strip_trailing_nul("plain"), "plain");
}

#[test]
fn raw_offset_translates_through_its_section() {
    let sections: Vec<Section> = vec![
        section(".text", 0x1000, 0x1000, 0x400, 0x200),
        section(".data", 0x3000, 0x1000, 0x600, 0x100),
    ];
    assert_eq!(va_from_raw_address(0x400, &sections, 0), Some(0x1000));
    assert_eq!(va_from_raw_address(0x410, &sections, 0x40_0000), Some(0x40_1010));
    assert_eq!(va_from_raw_address(0x5FF, &sections, 0), Some(0x11FF));
    assert_eq!(va_from_raw_address(0x600, &sections, 0), Some(0x3000));
    assert_eq!(va_from_raw_address(0x6FF, &sections, 0x10), Some(0x310F));
}

#[test]
fn raw_offset_outside_every_section_is_not_found() {
    let sections: Vec<Section> = vec![
        section(".text", 0x1000, 0x1000, 0x400, 0x200),
        section(".data", 0x3000, 0x1000, 0x700, 0x100),
    ];
    assert_eq!(va_from_raw_address(0x3FF, &sections, 0), None);
    assert_eq!(va_from_raw_address(0x600, &sections, 0), None);
    assert_eq!(va_from_raw_address(0x800, &sections, 0), None);
    assert_eq!(va_from_raw_address(0, &sections, 0), None);
    assert_eq!(va_from_raw_address(0x400, &[], 0), None);
    assert_eq!(va_from_raw_address(0x10, &[section("empty", 0, 0x1000, 0x10, 0)], 0), None);
}

#[test]
fn overlapping_sections_go_by_table_order() {
    let sections: Vec<Section> = vec![
        section("first", 0x1000, 0x1000, 0x400, 0x200),
        section("second", 0x5000, 0x1000, 0x500, 0x200),
    ];
    assert_eq!(va_from_raw_address(0x500, &sections, 0), Some(0x1100));
    assert_eq!(va_from_raw_address(0x600, &sections, 0), Some(0x5100));
    let named: Vec<Section> = vec![
        section("first", 0x1000, 0x1000, 0, 0),
        section("second", 0x1800, 0x1000, 0, 0),
    ];
    assert_eq!(find_section_name(&named, 0x1800), "first");
    assert_eq!(find_section_name(&named, 0x2000), "second");
}

#[test]
fn address_that_does_not_fit_is_not_found() {
    let sections: Vec<Section> = vec![section(".text", 0x1000, 0x1000, 0, 0x200)];
    assert_eq!(va_from_raw_address(0x10, &sections, usize::MAX - 0x100F), None);
    assert_eq!(va_from_raw_address(0x0F, &sections, usize::MAX - 0x100F), Some(usize::MAX));
    let high: Vec<Section> = vec![section("high", usize::MAX, 0x10, 0, 0x200)];
    assert_eq!(va_from_raw_address(0, &high, 0), Some(usize::MAX));
    assert_eq!(va_from_raw_address(1, &high, 0), None);
    let wide: Vec<Section> = vec![section("wide", 0, 0, usize::MAX - 1, usize::MAX)];
    assert_eq!(va_from_raw_address(usize::MAX, &wide, 0), Some(1));
}

#[test]
fn section_names_by_virtual_address() {
    let sections: Vec<Section> = vec![
        section(".text", 0x1000, 0x1000, 0x400, 0x200),
        section(".data", 0x3000, 0x1000, 0x600, 0x100),
    ];
    assert_eq!(find_section_name(&sections, 0x1000), ".text");
    assert_eq!(find_section_name(&sections, 0x1FFF), ".text");
    assert_eq!(find_section_name(&sections, 0x2000), "unknown");
    assert_eq!(find_section_name(&sections, 0x3000), ".data");
    assert_eq!(find_section_name(&sections, 0xFFF), "unknown");
    assert_eq!(find_section_name(&sections, usize::MAX), "unknown");
    assert_eq!(find_section_name(&[], 0x1000), "unknown");
    let top: Vec<Section> = vec![section("top", usize::MAX - 1, usize::MAX, 0, 0)];
    assert_eq!(find_section_name(&top, usize::MAX), "top");
}

#[test]
fn translated_offsets_are_named_after_their_section() {
    let sections: Vec<Section> = vec![
        section(".text", 0x1000, 0x1000, 0x400, 0x200),
        section(".rdata", 0x2000, 0x1000, 0x600, 0x180),
        section(".data", 0x3000, 0x2000, 0x780, 0x80),
    ];
    for item in sections.iter() {
        for raw in item.raw_offset..item.raw_offset + item.raw_size {
            let address: usize = va_from_raw_address(raw, &sections, 0).unwrap();
            assert_eq!(address, item.virtual_address + (raw - item.raw_offset));
            assert_eq!(find_section_name(&sections, address), item.name);
        }
    }
}

#[test]
fn image_base_moves_addresses_out_of_their_section() {
    let sections: Vec<Section> = vec![section(".text", 0x1000, 0x1000, 0x400, 0x200)];
    let address: usize = va_from_raw_address(0x400, &sections, 0x40_0000).unwrap();
    assert_eq!(address, 0x40_1000);
    assert_eq!(find_section_name(&sections, address), "unknown");
}

#[test]
fn parsed_layout_feeds_the_translator() {
    let entries: Vec<Vec<u8>> = vec![
        entry(b".text\0\0\0", 0x300, 0x1000, 0x200, 0x400),
        entry(b".data\0\0\0", 0x80, 0x2000, 0x100, 0x600),
    ];
    let buffer: Vec<u8> = image(0x80, 0x20B, 0x1000, 2, &entries);
    let (sections, info) = get_sections_and_pe_info(&buffer, 0);
    let base: usize = info.unwrap().image_base;
    assert_eq!(va_from_raw_address(0x450, &sections, base), Some(base + 0x1050));
    assert_eq!(find_section_name(&sections, 0x2FFF), ".data");
    assert_eq!(find_section_name(&sections, 0x1FFF), ".text");
}
