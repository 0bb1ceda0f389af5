use rasm::align::pad16;
use rasm::strtab::StringTable;

#[test]
fn new_table_is_one_nul_byte() {
    let table = StringTable::new();
    assert_eq!(table.len(), 1);
    assert_eq!(table.as_bytes(), &vec![0u8]);
}

#[test]
fn append_returns_the_offset_before_the_name() {
    let mut table = StringTable::new();
    assert_eq!(table.append(b".text"), 1);
    assert_eq!(table.append(b".shstrtab"), 7);
    assert_eq!(table.append(b".symtab"), 17);
    assert_eq!(table.append(b".strtab"), 25);
    assert_eq!(table.len(), 33);
    assert_eq!(table.into_bytes(), b"\0.text\0.shstrtab\0.symtab\0.strtab\0".to_vec());
}

#[test]
fn appended_names_are_read_back_at_their_offsets() {
    let names: Vec<&[u8]> = vec![b"test.asm", b"_start", b"", b"loop", b"caf\xc3\xa9"];
    let mut table = StringTable::new();
    let mut offsets = Vec::new();
    for name in names.iter() {
        offsets.push(table.append(name));
    }
    for (name, offset) in names.iter().zip(offsets.iter()) {
        assert_eq!(table.string_at(*offset), Some(name.to_vec()));
    }
}

#[test]
fn earlier_names_survive_later_appends() {
    let mut table = StringTable::new();
    let first = table.append(b"first");
    assert_eq!(table.string_at(first), Some(b"first".to_vec()));
    let second = table.append(b"second");
    assert_eq!(table.string_at(first), Some(b"first".to_vec()));
    assert_eq!(table.string_at(second), Some(b"second".to_vec()));
}

#[test]
fn offset_zero_holds_the_empty_name() {
    let mut table = StringTable::new();
    table.append(b"x");
    assert_eq!(table.string_at(0), Some(Vec::new()));
}

#[test]
fn offset_inside_a_name_gives_its_tail() {
    let mut table = StringTable::new();
    let offset = table.append(b".shstrtab");
    assert_eq!(table.string_at(offset + 3), Some(b"strtab".to_vec()));
}

#[test]
fn nothing_is_read_at_or_behind_the_end() {
    let mut table = StringTable::new();
    table.append(b"x");
    assert_eq!(table.len(), 3);
    assert_eq!(table.string_at(3), None);
    assert_eq!(table.string_at(4), None);
    assert_eq!(table.string_at(usize::MAX), None);
}

#[test]
fn name_with_a_nul_byte_is_cut_short() {
    let mut table = StringTable::new();
    let offset = table.append(b"a\0b");
    assert_eq!(table.string_at(offset), Some(b"a".to_vec()));
}

#[test]
fn padding_an_aligned_buffer_changes_nothing() {
    let mut empty: Vec<u8> = Vec::new();
    pad16(&mut empty);
    assert!(empty.is_empty());
    let mut bytes: Vec<u8> = (0..32).collect();
    pad16(&mut bytes);
    assert_eq!(bytes, (0..32).collect::<Vec<u8>>());
}

#[test]
fn padding_appends_only_zero_bytes() {
    for len in 0usize..50 {
        let before: Vec<u8> = (0..len).map(|i| (i % 251) as u8 + 1).collect();
        let mut bytes = before.clone();
        pad16(&mut bytes);
        assert_eq!(bytes.len() % 16, 0);
        assert!(bytes.len() - len < 16);
        assert_eq!(&bytes[..len], &before[..]);
        assert!(bytes[len..].iter().all(|byte| *byte == 0));
        let once = bytes.clone();
        pad16(&mut bytes);
        assert_eq!(bytes, once);
    }
}

#[test]
fn padding_three_bytes_gives_sixteen() {
    let mut bytes = vec![0x90, 0x0f, 0x05];
    pad16(&mut bytes);
    assert_eq!(bytes, vec![0x90, 0x0f, 0x05, 0, 0, 0, 0, 0, 0, 0, 0, 0, 0, 0, 0, 0]);
}
