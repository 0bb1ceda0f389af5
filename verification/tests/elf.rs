use rasm::elf::{
    symbol_info, Elf64Header, Elf64SectionHeader, Elf64SymbolTableSection, HEADER_SIZE,
    MAGIC_NUMS, SECTION_HEADER_SIZE, STB_GLOBAL, STB_LOCAL, STT_FILE, STT_NOTYPE, STT_SECTION,
    SYMBOL_SIZE,
};

#[test]
fn record_sizes_are_those_of_the_format() {
    assert_eq!(HEADER_SIZE, 64);
    assert_eq!(SECTION_HEADER_SIZE, 64);
    assert_eq!(SYMBOL_SIZE, 24);
    assert_eq!(MAGIC_NUMS, [0x7f, b'E', b'L', b'F']);
}

#[test]
fn template_header_bytes() {
    let header = Elf64Header::template();
    let expected: Vec<u8> = vec![
        0x7f, 0x45, 0x4c, 0x46, 0x02, 0x01, 0x01, 0x00, 0x00, 0x00, 0x00, 0x00, 0x00, 0x00, 0x00,
        0x00, // ident
        0x01, 0x00, 0x3e, 0x00, 0x01, 0x00, 0x00, 0x00, // type, machine, version
        0x00, 0x00, 0x00, 0x00, 0x00, 0x00, 0x00, 0x00, // entry
        0x00, 0x00, 0x00, 0x00, 0x00, 0x00, 0x00, 0x00, // program header offset
        0x40, 0x00, 0x00, 0x00, 0x00, 0x00, 0x00, 0x00, // section header offset
        0x00, 0x00, 0x00, 0x00, // flags
        0x40, 0x00, 0x00, 0x00, 0x00, 0x00, // header size, program header size and number
        0x40, 0x00, 0x05, 0x00, 0x02, 0x00, // section header size, number, names index
    ];
    assert_eq!(header.as_u8_slice(), expected);
}

#[test]
fn template_header_fields() {
    let header = Elf64Header::template();
    assert_eq!(header.section_header_size(), 0x40);
    assert_eq!(header.section_header_num(), 5);
    assert_eq!(header.section_header_str_index(), 2);
}

#[test]
fn header_setters_write_little_endian() {
    let mut header = Elf64Header::template();
    header.set_section_header_size(0x1234);
    header.set_section_header_num(0xabcd);
    header.set_section_header_str_index(0x00ff);
    assert_eq!(header.section_header_size(), 0x1234);
    assert_eq!(header.section_header_num(), 0xabcd);
    assert_eq!(header.section_header_str_index(), 0x00ff);
    let bytes = header.as_u8_slice();
    assert_eq!(bytes.len(), 64);
    assert_eq!(&bytes[58..64], &[0x34, 0x12, 0xcd, 0xab, 0xff, 0x00]);
    assert_eq!(&bytes[..58], &Elf64Header::template().as_u8_slice()[..58]);
}

#[test]
fn default_section_header_is_all_zero() {
    let header = Elf64SectionHeader::default();
    assert_eq!(header.as_u8_slice(), vec![0u8; 64]);
    assert_eq!(header.name(), 0);
    assert_eq!(header.entry_size(), 0);
}

#[test]
fn section_header_new_sets_every_field() {
    let header = Elf64SectionHeader::new(
        0x01020304,
        0x11121314,
        0x2122232425262728,
        0x3132333435363738,
        0x4142434445464748,
        0x5152535455565758,
        0x61626364,
        0x71727374,
        0x8182838485868788,
        0x9192939495969798,
    );
    assert_eq!(header.name(), 0x01020304);
    assert_eq!(header.s_type(), 0x11121314);
    assert_eq!(header.flags(), 0x2122232425262728);
    assert_eq!(header.addr(), 0x3132333435363738);
    assert_eq!(header.offset(), 0x4142434445464748);
    assert_eq!(header.size(), 0x5152535455565758);
    assert_eq!(header.link(), 0x61626364);
    assert_eq!(header.info(), 0x71727374);
    assert_eq!(header.align(), 0x8182838485868788);
    assert_eq!(header.entry_size(), 0x9192939495969798);
    let expected: Vec<u8> = vec![
        0x04, 0x03, 0x02, 0x01, 0x14, 0x13, 0x12, 0x11, 0x28, 0x27, 0x26, 0x25, 0x24, 0x23, 0x22,
        0x21, 0x38, 0x37, 0x36, 0x35, 0x34, 0x33, 0x32, 0x31, 0x48, 0x47, 0x46, 0x45, 0x44, 0x43,
        0x42, 0x41, 0x58, 0x57, 0x56, 0x55, 0x54, 0x53, 0x52, 0x51, 0x64, 0x63, 0x62, 0x61, 0x74,
        0x73, 0x72, 0x71, 0x88, 0x87, 0x86, 0x85, 0x84, 0x83, 0x82, 0x81, 0x98, 0x97, 0x96, 0x95,
        0x94, 0x93, 0x92, 0x91,
    ];
    assert_eq!(header.as_u8_slice(), expected);
}

#[test]
fn section_header_setters_change_one_field() {
    let mut header = Elf64SectionHeader::new(1, 2, 3, 4, 5, 6, 7, 8, 9, 10);
    header.set_name(0xffff_ffff);
    assert_eq!(
        (header.name(), header.s_type(), header.flags(), header.addr(), header.offset()),
        (0xffff_ffff, 2, 3, 4, 5)
    );
    header.set_s_type(20);
    header.set_flags(u64::MAX);
    header.set_addr(40);
    header.set_offset(50);
    header.set_size(60);
    header.set_link(70);
    header.set_info(80);
    header.set_align(90);
    header.set_entry_size(100);
    assert_eq!(header.name(), 0xffff_ffff);
    assert_eq!(header.s_type(), 20);
    assert_eq!(header.flags(), u64::MAX);
    assert_eq!(header.addr(), 40);
    assert_eq!(header.offset(), 50);
    assert_eq!(header.size(), 60);
    assert_eq!(header.link(), 70);
    assert_eq!(header.info(), 80);
    assert_eq!(header.align(), 90);
    assert_eq!(header.entry_size(), 100);
}

#[test]
fn default_symbol_is_all_zero() {
    let symbol = Elf64SymbolTableSection::default();
    assert_eq!(symbol.as_u8_slice(), vec![0u8; 24]);
}

#[test]
fn symbol_new_sets_every_field() {
    let symbol = Elf64SymbolTableSection::new(1, 4, 0, 65521, 0, 0);
    assert_eq!(symbol.name(), 1);
    assert_eq!(symbol.info(), 4);
    assert_eq!(symbol.other(), 0);
    assert_eq!(symbol.index(), 65521);
    assert_eq!(symbol.value(), 0);
    assert_eq!(symbol.size(), 0);
    let mut expected = vec![0u8; 24];
    expected[0] = 1;
    expected[4] = 4;
    expected[6] = 0xf1;
    expected[7] = 0xff;
    assert_eq!(symbol.as_u8_slice(), expected);
}

#[test]
fn symbol_bytes_are_in_field_order() {
    let symbol = Elf64SymbolTableSection::new(
        0x01020304,
        0x05,
        0x06,
        0x0708,
        0x1112131415161718,
        0x2122232425262728,
    );
    let expected: Vec<u8> = vec![
        0x04, 0x03, 0x02, 0x01, 0x05, 0x06, 0x08, 0x07, 0x18, 0x17, 0x16, 0x15, 0x14, 0x13, 0x12,
        0x11, 0x28, 0x27, 0x26, 0x25, 0x24, 0x23, 0x22, 0x21,
    ];
    assert_eq!(symbol.as_u8_slice(), expected);
}

#[test]
fn symbol_setters_change_one_field() {
    let mut symbol = Elf64SymbolTableSection::default();
    symbol.set_name(0xdead_beef);
    symbol.set_info(0x12);
    symbol.set_other(3);
    symbol.set_index(0xfff1);
    symbol.set_value(u64::MAX);
    symbol.set_size(0x0102_0304_0506_0708);
    assert_eq!(symbol.name(), 0xdead_beef);
    assert_eq!(symbol.info(), 0x12);
    assert_eq!(symbol.other(), 3);
    assert_eq!(symbol.index(), 0xfff1);
    assert_eq!(symbol.value(), u64::MAX);
    assert_eq!(symbol.size(), 0x0102_0304_0506_0708);
}

#[test]
fn symbol_info_packs_binding_and_type() {
    assert_eq!(symbol_info(STB_LOCAL, STT_NOTYPE), 0);
    assert_eq!(symbol_info(STB_LOCAL, STT_SECTION), 3);
    assert_eq!(symbol_info(STB_LOCAL, STT_FILE), 4);
    assert_eq!(symbol_info(STB_GLOBAL, STT_NOTYPE), 16);
    assert_eq!(symbol_info(2, 2), 0x22);
    assert_eq!(symbol_info(0xff, 0xff), 0xff);
    assert_eq!(symbol_info(1, 0x1f), 0x1f);
}

#[test]
fn header_is_read_back_from_its_bytes() {
    let mut header = Elf64Header::template();
    header.set_section_header_num(0x0102);
    header.set_section_header_str_index(0x0304);
    let bytes = header.as_u8_slice();
    let copy = Elf64Header::from_u8_slice(&bytes).unwrap();
    assert_eq!(copy.as_u8_slice(), bytes);
    assert_eq!(copy.section_header_size(), 0x40);
    assert_eq!(copy.section_header_num(), 0x0102);
    assert_eq!(copy.section_header_str_index(), 0x0304);
}

#[test]
fn header_takes_any_sixty_four_bytes() {
    let bytes: Vec<u8> = (0..64).map(|i| 255 - i as u8).collect();
    let header = Elf64Header::from_u8_slice(&bytes).unwrap();
    assert_eq!(header.as_u8_slice(), bytes);
    assert_eq!(header.section_header_size(), u16::from_le_bytes([bytes[58], bytes[59]]));
    assert_eq!(header.section_header_num(), u16::from_le_bytes([bytes[60], bytes[61]]));
    assert_eq!(header.section_header_str_index(), u16::from_le_bytes([bytes[62], bytes[63]]));
}

#[test]
fn section_header_is_read_back_from_its_bytes() {
    let header = Elf64SectionHeader::new(1, 2, 3, 4, 0x0102030405060708, 6, 7, 8, 9, u64::MAX);
    let bytes = header.as_u8_slice();
    let copy = Elf64SectionHeader::from_u8_slice(&bytes).unwrap();
    assert_eq!(copy.as_u8_slice(), bytes);
    assert_eq!(copy.name(), 1);
    assert_eq!(copy.s_type(), 2);
    assert_eq!(copy.flags(), 3);
    assert_eq!(copy.addr(), 4);
    assert_eq!(copy.offset(), 0x0102030405060708);
    assert_eq!(copy.size(), 6);
    assert_eq!(copy.link(), 7);
    assert_eq!(copy.info(), 8);
    assert_eq!(copy.align(), 9);
    assert_eq!(copy.entry_size(), u64::MAX);
}

#[test]
fn symbol_is_read_back_from_its_bytes() {
    let symbol = Elf64SymbolTableSection::new(0x01020304, 0x12, 3, 0xfff1, 7, u64::MAX - 1);
    let bytes = symbol.as_u8_slice();
    let copy = Elf64SymbolTableSection::from_u8_slice(&bytes).unwrap();
    assert_eq!(copy.as_u8_slice(), bytes);
    assert_eq!(copy.name(), 0x01020304);
    assert_eq!(copy.info(), 0x12);
    assert_eq!(copy.other(), 3);
    assert_eq!(copy.index(), 0xfff1);
    assert_eq!(copy.value(), 7);
    assert_eq!(copy.size(), u64::MAX - 1);
}

#[test]
fn records_of_another_length_are_refused() {
    assert!(Elf64Header::from_u8_slice(&[0u8; 63]).is_none());
    assert!(Elf64Header::from_u8_slice(&[0u8; 65]).is_none());
    assert!(Elf64Header::from_u8_slice(&[]).is_none());
    assert!(Elf64SectionHeader::from_u8_slice(&[0u8; 63]).is_none());
    assert!(Elf64SectionHeader::from_u8_slice(&[0u8; 65]).is_none());
    assert!(Elf64SymbolTableSection::from_u8_slice(&[0u8; 23]).is_none());
    assert!(Elf64SymbolTableSection::from_u8_slice(&[0u8; 25]).is_none());
    assert!(Elf64SymbolTableSection::from_u8_slice(&[0u8; 32]).is_none());
}
