use rasm::node::SectionNode;
use rasm::parse::{Instruction, Opcode};
use rasm::writer::{encode_section, write_data, write_elf, write_header_names, write_symbols};

fn nop() -> Instruction {
    Instruction { opcode: Opcode::Nop, operands: Vec::new() }
}

fn syscall() -> Instruction {
    Instruction { opcode: Opcode::Syscall, operands: Vec::new() }
}

fn section(
    name: &str,
    default: Vec<Instruction>,
    groups: Vec<(&str, Vec<Instruction>)>,
) -> SectionNode {
    let mut node = SectionNode::new(name.to_string());
    node.default_instructions = default;
    node.labeled_instructions =
        groups.into_iter().map(|(label, list)| (label.to_string(), list)).collect();
    node
}

fn u16_at(bytes: &[u8], at: usize) -> u16 {
    u16::from_le_bytes([bytes[at], bytes[at + 1]])
}

fn u32_at(bytes: &[u8], at: usize) -> u32 {
    u32::from_le_bytes([bytes[at], bytes[at + 1], bytes[at + 2], bytes[at + 3]])
}

fn u64_at(bytes: &[u8], at: usize) -> u64 {
    let mut raw = [0u8; 8];
    raw.copy_from_slice(&bytes[at..at + 8]);
    u64::from_le_bytes(raw)
}

struct Header {
    name: u32,
    s_type: u32,
    flags: u64,
    addr: u64,
    offset: u64,
    size: u64,
    link: u32,
    info: u32,
    align: u64,
    entry_size: u64,
}

fn header_at(bytes: &[u8], index: usize) -> Header {
    let at = 64 + 64 * index;
    Header {
        name: u32_at(bytes, at),
        s_type: u32_at(bytes, at + 4),
        flags: u64_at(bytes, at + 8),
        addr: u64_at(bytes, at + 16),
        offset: u64_at(bytes, at + 24),
        size: u64_at(bytes, at + 32),
        link: u32_at(bytes, at + 40),
        info: u32_at(bytes, at + 44),
        align: u64_at(bytes, at + 48),
        entry_size: u64_at(bytes, at + 56),
    }
}

fn name_at(bytes: &[u8], table: &Header, offset: u32) -> String {
    let start = table.offset as usize + offset as usize;
    let end = start + bytes[start..].iter().position(|byte| *byte == 0).unwrap();
    String::from_utf8(bytes[start..end].to_vec()).unwrap()
}

struct Symbol {
    name: u32,
    info: u8,
    other: u8,
    index: u16,
    value: u64,
    size: u64,
}

fn symbols_of(bytes: &[u8]) -> Vec<Symbol> {
    let count = u16_at(bytes, 60) as usize;
    let table = header_at(bytes, count - 2);
    assert_eq!(table.s_type, 2);
    assert_eq!(table.size % 24, 0);
    (0..table.size as usize / 24)
        .map(|i| {
            let at = table.offset as usize + 24 * i;
            Symbol {
                name: u32_at(bytes, at),
                info: bytes[at + 4],
                other: bytes[at + 5],
                index: u16_at(bytes, at + 6),
                value: u64_at(bytes, at + 8),
                size: u64_at(bytes, at + 16),
            }
        })
        .collect()
}

#[test]
fn section_code_is_default_code_then_groups() {
    let node = section(
        ".text",
        vec![nop()],
        vec![("a", vec![syscall(), nop()]), ("b", vec![]), ("c", vec![syscall()])],
    );
    assert_eq!(encode_section(&node), vec![0x90, 0x0f, 0x05, 0x90, 0x0f, 0x05]);
    assert_eq!(encode_section(&SectionNode::new(".text".to_string())), Vec::<u8>::new());
}

#[test]
fn operand_bytes_do_not_enter_the_code() {
    let node = section(
        ".text",
        vec![Instruction { opcode: Opcode::Nop, operands: vec![0xaa, 0xbb] }],
        vec![],
    );
    assert_eq!(encode_section(&node), vec![0x90]);
}

#[test]
fn data_pads_every_section() {
    let sections = vec![
        section(".a", vec![nop()], vec![]),
        section(".b", vec![], vec![]),
        section(".c", vec![syscall(); 8], vec![]),
        section(".text", vec![syscall(), nop()], vec![]),
    ];
    let (data, extents) = write_data(&sections);
    assert_eq!(data.len(), 48);
    let mut expected = vec![0u8; 48];
    expected[0] = 0x90;
    for i in 0..8 {
        expected[16 + 2 * i] = 0x0f;
        expected[17 + 2 * i] = 0x05;
    }
    expected[32] = 0x0f;
    expected[33] = 0x05;
    expected[34] = 0x90;
    assert_eq!(data, expected);
    let pairs: Vec<(usize, usize)> = extents.iter().map(|e| (e.offset, e.size)).collect();
    assert_eq!(pairs, vec![(0, 1), (16, 0), (16, 16), (32, 3)]);
}

#[test]
fn header_names_follow_the_header_table() {
    let sections = vec![section(".data", vec![], vec![]), section(".text", vec![], vec![])];
    let (table, offsets) = write_header_names(&sections);
    assert_eq!(table, b"\0.data\0.text\0.shstrtab\0.symtab\0.strtab\0".to_vec());
    assert_eq!(offsets, vec![1, 7, 13, 23, 31]);
}

#[test]
fn symbols_of_an_empty_program() {
    let sections = vec![section(".text", vec![], vec![])];
    let (symbols, strings, last) = write_symbols(&sections, "a.asm");
    assert_eq!(symbols.len(), 72);
    assert_eq!(strings, b"\0a.asm\0".to_vec());
    assert_eq!(last, 1);
    let mut expected = vec![0u8; 72];
    expected[24] = 1;
    expected[28] = 4;
    expected[30] = 0xf1;
    expected[31] = 0xff;
    expected[48 + 4] = 3;
    expected[48 + 6] = 1;
    assert_eq!(symbols, expected);
}

#[test]
fn label_symbols_follow_all_section_symbols() {
    let sections = vec![
        section(".data", vec![], vec![("x", vec![nop()]), ("y", vec![])]),
        section(".text", vec![], vec![("_start", vec![syscall()])]),
    ];
    let (symbols, strings, last) = write_symbols(&sections, "p");
    assert_eq!(strings, b"\0p\0x\0y\0_start\0".to_vec());
    assert_eq!(last, 7);
    assert_eq!(symbols.len(), 24 * 7);
    let rows: Vec<(u32, u8, u16)> = (0..7)
        .map(|i| (u32_at(&symbols, 24 * i), symbols[24 * i + 4], u16_at(&symbols, 24 * i + 6)))
        .collect();
    assert_eq!(
        rows,
        vec![(0, 0, 0), (1, 4, 0xfff1), (0, 3, 1), (0, 3, 2), (3, 0, 1), (5, 0, 1), (7, 0, 2)]
    );
}

#[test]
fn image_of_two_instructions() {
    let sections = vec![section(".text", vec![nop(), syscall()], vec![])];
    let bytes = write_elf(&sections, "test.asm").unwrap();
    let mut expected: Vec<u8> = Vec::new();
    // file header
    expected.extend_from_slice(&[0x7f, 0x45, 0x4c, 0x46, 2, 1, 1, 0, 0, 0, 0, 0, 0, 0, 0, 0]);
    expected.extend_from_slice(&[1, 0, 0x3e, 0, 1, 0, 0, 0]);
    expected.extend_from_slice(&[0; 16]);
    expected.extend_from_slice(&[0x40, 0, 0, 0, 0, 0, 0, 0]);
    expected.extend_from_slice(&[0, 0, 0, 0, 0x40, 0, 0, 0, 0, 0, 0x40, 0, 5, 0, 2, 0]);
    // null section header
    expected.extend_from_slice(&[0; 64]);
    // .text
    expected.extend_from_slice(&[1, 0, 0, 0, 1, 0, 0, 0, 6, 0, 0, 0, 0, 0, 0, 0]);
    expected.extend_from_slice(&[0, 0, 0, 0, 0, 0, 0, 0, 0x80, 1, 0, 0, 0, 0, 0, 0]);
    expected.extend_from_slice(&[3, 0, 0, 0, 0, 0, 0, 0, 0, 0, 0, 0, 0, 0, 0, 0]);
    expected.extend_from_slice(&[16, 0, 0, 0, 0, 0, 0, 0, 0, 0, 0, 0, 0, 0, 0, 0]);
    // .shstrtab
    expected.extend_from_slice(&[7, 0, 0, 0, 3, 0, 0, 0, 0, 0, 0, 0, 0, 0, 0, 0]);
    expected.extend_from_slice(&[0, 0, 0, 0, 0, 0, 0, 0, 0x90, 1, 0, 0, 0, 0, 0, 0]);
    expected.extend_from_slice(&[33, 0, 0, 0, 0, 0, 0, 0, 0, 0, 0, 0, 0, 0, 0, 0]);
    expected.extend_from_slice(&[1, 0, 0, 0, 0, 0, 0, 0, 0, 0, 0, 0, 0, 0, 0, 0]);
    // .symtab
    expected.extend_from_slice(&[17, 0, 0, 0, 2, 0, 0, 0, 0, 0, 0, 0, 0, 0, 0, 0]);
    expected.extend_from_slice(&[0, 0, 0, 0, 0, 0, 0, 0, 0xc0, 1, 0, 0, 0, 0, 0, 0]);
    expected.extend_from_slice(&[72, 0, 0, 0, 0, 0, 0, 0, 4, 0, 0, 0, 3, 0, 0, 0]);
    expected.extend_from_slice(&[8, 0, 0, 0, 0, 0, 0, 0, 24, 0, 0, 0, 0, 0, 0, 0]);
    // .strtab
    expected.extend_from_slice(&[25, 0, 0, 0, 3, 0, 0, 0, 0, 0, 0, 0, 0, 0, 0, 0]);
    expected.extend_from_slice(&[0, 0, 0, 0, 0, 0, 0, 0, 0x08, 2, 0, 0, 0, 0, 0, 0]);
    expected.extend_from_slice(&[10, 0, 0, 0, 0, 0, 0, 0, 0, 0, 0, 0, 0, 0, 0, 0]);
    expected.extend_from_slice(&[1, 0, 0, 0, 0, 0, 0, 0, 0, 0, 0, 0, 0, 0, 0, 0]);
    // code
    expected.extend_from_slice(&[0x90, 0x0f, 0x05, 0, 0, 0, 0, 0, 0, 0, 0, 0, 0, 0, 0, 0]);
    // section names
    expected.extend_from_slice(b"\0.text\0.shstrtab\0.symtab\0.strtab\0");
    expected.extend_from_slice(&[0; 15]);
    // symbols
    expected.extend_from_slice(&[0; 24]);
    expected.extend_from_slice(&[1, 0, 0, 0, 4, 0, 0xf1, 0xff]);
    expected.extend_from_slice(&[0; 16]);
    expected.extend_from_slice(&[0, 0, 0, 0, 3, 0, 1, 0]);
    expected.extend_from_slice(&[0; 16]);
    // symbol names
    expected.extend_from_slice(b"\0test.asm\0");
    expected.extend_from_slice(&[0; 6]);
    assert_eq!(expected.len(), 536);
    assert_eq!(bytes, expected);
}

#[test]
fn writing_twice_gives_the_same_bytes() {
    let sections = vec![
        section(".data", vec![nop()], vec![("x", vec![syscall()])]),
        section(".text", vec![], vec![("_start", vec![nop(), syscall()])]),
    ];
    let first = write_elf(&sections, "./test/test.asm").unwrap();
    let second = write_elf(&sections, "./test/test.asm").unwrap();
    assert_eq!(first, second);
    let copy = vec![
        section(".data", vec![nop()], vec![("x", vec![syscall()])]),
        section(".text", vec![], vec![("_start", vec![nop(), syscall()])]),
    ];
    assert_eq!(write_elf(&copy, "./test/test.asm").unwrap(), first);
}

#[test]
fn header_counts_the_sections() {
    for count in 1usize..6 {
        let sections: Vec<SectionNode> =
            (0..count).map(|i| section(&format!(".s{}", i), vec![nop()], vec![])).collect();
        let bytes = write_elf(&sections, "x").unwrap();
        assert_eq!(u16_at(&bytes, 60) as usize, count + 4);
        assert_eq!(u16_at(&bytes, 62) as usize, count + 1);
        assert_eq!(u64_at(&bytes, 40), 64);
        assert_eq!(u16_at(&bytes, 58), 64);
    }
}

#[test]
fn no_sections_at_all_still_make_a_file() {
    let bytes = write_elf(&Vec::new(), "x").unwrap();
    assert_eq!(u16_at(&bytes, 60), 4);
    assert_eq!(u16_at(&bytes, 62), 1);
    assert_eq!(bytes.len(), 64 + 4 * 64 + 32 + 48 + 16);
}

#[test]
fn offsets_are_the_running_byte_count() {
    let sections = vec![
        section(".data", vec![nop(); 17], vec![("x", vec![syscall()])]),
        section(".bss", vec![], vec![]),
        section(".text", vec![syscall()], vec![("_start", vec![nop()]), ("end", vec![])]),
    ];
    let bytes = write_elf(&sections, "dir/prog.asm").unwrap();
    let count = u16_at(&bytes, 60) as usize;
    assert_eq!(count, 7);
    let names = header_at(&bytes, u16_at(&bytes, 62) as usize);
    let mut position = 64 + 64 * count as u64;
    let sizes = [19u64, 0, 3];
    let section_names = [".data", ".bss", ".text"];
    for i in 0..3 {
        let header = header_at(&bytes, i + 1);
        assert_eq!(header.s_type, 1);
        assert_eq!(header.flags, 6);
        assert_eq!(header.addr, 0);
        assert_eq!(header.offset, position);
        assert_eq!(header.size, sizes[i]);
        assert_eq!((header.link, header.info), (0, 0));
        assert_eq!(header.align, 16);
        assert_eq!(header.entry_size, 0);
        assert_eq!(name_at(&bytes, &names, header.name), section_names[i]);
        position += (sizes[i] + 15) / 16 * 16;
    }
    assert_eq!((names.s_type, names.flags, names.align, names.entry_size), (3, 0, 1, 0));
    assert_eq!(names.offset, position);
    assert_eq!(names.size, 1 + 6 + 5 + 6 + 10 + 8 + 8);
    assert_eq!(name_at(&bytes, &names, names.name), ".shstrtab");
    position += (names.size + 15) / 16 * 16;
    let symtab = header_at(&bytes, 5);
    assert_eq!((symtab.s_type, symtab.flags, symtab.align, symtab.entry_size), (2, 0, 8, 24));
    assert_eq!(symtab.offset, position);
    assert_eq!(symtab.size, 24 * 8);
    assert_eq!(symtab.link, 6);
    assert_eq!(symtab.info, 8);
    assert_eq!(name_at(&bytes, &names, symtab.name), ".symtab");
    position += symtab.size;
    let strtab = header_at(&bytes, 6);
    assert_eq!((strtab.s_type, strtab.flags, strtab.align, strtab.entry_size), (3, 0, 1, 0));
    assert_eq!(strtab.offset, position);
    assert_eq!(strtab.size, 1 + 13 + 2 + 7 + 4);
    assert_eq!(name_at(&bytes, &names, strtab.name), ".strtab");
    position += (strtab.size + 15) / 16 * 16;
    assert_eq!(bytes.len() as u64, position);
    let null = header_at(&bytes, 0);
    assert_eq!((null.name, null.s_type, null.offset, null.size, null.align), (0, 0, 0, 0, 0));
}

#[test]
fn code_stands_at_its_offset() {
    let sections = vec![
        section(".data", vec![nop(); 17], vec![("x", vec![syscall()])]),
        section(".text", vec![syscall()], vec![("_start", vec![nop()])]),
    ];
    let bytes = write_elf(&sections, "p.asm").unwrap();
    for (i, node) in sections.iter().enumerate() {
        let header = header_at(&bytes, i + 1);
        let start = header.offset as usize;
        let end = start + header.size as usize;
        assert_eq!(&bytes[start..end], &encode_section(node)[..]);
        assert_eq!(start % 16, 0);
    }
}

#[test]
fn symbol_table_order() {
    let sections = vec![
        section(".data", vec![], vec![("x", vec![nop()]), ("y", vec![])]),
        section(".rodata", vec![], vec![]),
        section(".text", vec![], vec![("_start", vec![syscall()]), ("x", vec![])]),
    ];
    let bytes = write_elf(&sections, "src/main.asm").unwrap();
    let strings = header_at(&bytes, 6);
    let symbols = symbols_of(&bytes);
    assert_eq!(symbols.len(), 2 + 3 + 4);
    let null = &symbols[0];
    assert_eq!(
        (null.name, null.info, null.other, null.index, null.value, null.size),
        (0, 0, 0, 0, 0, 0)
    );
    let file = &symbols[1];
    assert_eq!((file.info, file.other, file.index, file.value, file.size), (4, 0, 0xfff1, 0, 0));
    assert_eq!(name_at(&bytes, &strings, file.name), "src/main.asm");
    for i in 0..3 {
        let symbol = &symbols[2 + i];
        assert_eq!(
            (symbol.name, symbol.info, symbol.other, symbol.index, symbol.value, symbol.size),
            (0, 3, 0, i as u16 + 1, 0, 0)
        );
    }
    let expected = [("x", 1u16), ("y", 1), ("_start", 3), ("x", 3)];
    for (k, (label, index)) in expected.iter().enumerate() {
        let symbol = &symbols[5 + k];
        assert_eq!(name_at(&bytes, &strings, symbol.name), *label);
        assert_eq!((symbol.info, symbol.other, symbol.index), (0, 0, *index));
        assert_eq!((symbol.value, symbol.size), (0, 0));
    }
}

#[test]
fn names_are_written_as_utf8() {
    let sections = vec![section(".text", vec![], vec![("caf\u{e9}", vec![nop()])])];
    let bytes = write_elf(&sections, "\u{8a9e}.asm").unwrap();
    let strings = header_at(&bytes, 4);
    let symbols = symbols_of(&bytes);
    assert_eq!(name_at(&bytes, &strings, symbols[1].name), "\u{8a9e}.asm");
    assert_eq!(name_at(&bytes, &strings, symbols[3].name), "caf\u{e9}");
    assert_eq!(strings.size, 1 + 8 + 6);
}

#[test]
fn too_many_sections_are_refused() {
    let fits: Vec<SectionNode> = (0..0xffff - 4).map(|_| SectionNode::new(String::new())).collect();
    let bytes = write_elf(&fits, "x").unwrap();
    assert_eq!(u16_at(&bytes, 60), 0xffff);
    assert_eq!(u16_at(&bytes, 62), 0xfffc);
    let too_many: Vec<SectionNode> =
        (0..0xffff - 3).map(|_| SectionNode::new(String::new())).collect();
    assert_eq!(write_elf(&too_many, "x"), None);
}
