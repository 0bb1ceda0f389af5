use rasm::builder::build_sections;
use rasm::generator::{
    assemble, assemble_with, find_unresolved_global, lines, tokenize, AssembleError, GlobalPolicy,
};
use rasm::parse::{check_tokens, parse, CheckErrorType, CheckResult, Instruction, LineToken, Opcode};
use rasm::writer::write_elf;

fn u16_at(bytes: &[u8], at: usize) -> u16 {
    u16::from_le_bytes([bytes[at], bytes[at + 1]])
}

fn u64_at(bytes: &[u8], at: usize) -> u64 {
    let mut raw = [0u8; 8];
    raw.copy_from_slice(&bytes[at..at + 8]);
    u64::from_le_bytes(raw)
}

fn u32_at(bytes: &[u8], at: usize) -> u32 {
    u32::from_le_bytes([bytes[at], bytes[at + 1], bytes[at + 2], bytes[at + 3]])
}

fn section_name(bytes: &[u8], index: usize) -> String {
    let names = 64 + 64 * u16_at(bytes, 62) as usize;
    let start = u64_at(bytes, names + 24) as usize + u32_at(bytes, 64 + 64 * index) as usize;
    let end = start + bytes[start..].iter().position(|byte| *byte == 0).unwrap();
    String::from_utf8(bytes[start..end].to_vec()).unwrap()
}

#[test]
fn tokenize_parses_every_line() {
    let tokens = tokenize("nop\n  ; c\n\nsyscall\n");
    assert_eq!(tokens, vec![parse("nop"), parse("  ; c"), parse(""), parse("syscall"), parse("")]);
    assert_eq!(tokens.len(), 5);
}

#[test]
fn tokenize_of_empty_text_is_one_empty_line() {
    assert_eq!(tokenize(""), vec![LineToken::Empty]);
}

#[test]
fn tokenize_takes_carriage_returns() {
    let tokens = tokenize("nop\r\nsyscall\r\n");
    assert_eq!(tokens, vec![parse("nop"), parse("syscall"), LineToken::Empty]);
}

#[test]
fn two_instructions_without_directives() {
    let text = "nop\nsyscall\n";
    let tokens = tokenize(text);
    assert_eq!(check_tokens(&tokens), CheckResult::Valid);
    let sections = build_sections(&tokens);
    assert_eq!(sections.len(), 1);
    assert_eq!(sections[0].name, ".text");
    assert_eq!(
        sections[0].default_instructions,
        vec![
            Instruction { opcode: Opcode::Nop, operands: vec![] },
            Instruction { opcode: Opcode::Syscall, operands: vec![] }
        ]
    );
    let bytes = assemble(text, "test.asm").unwrap();
    let offset = u64_at(&bytes, 64 + 64 + 24) as usize;
    assert_eq!(u64_at(&bytes, 64 + 64 + 32), 3);
    assert_eq!(
        &bytes[offset..offset + 16],
        &[0x90, 0x0f, 0x05, 0, 0, 0, 0, 0, 0, 0, 0, 0, 0, 0, 0, 0]
    );
    assert_eq!(u64_at(&bytes, 64 + 2 * 64 + 24) as usize, offset + 16);
}

#[test]
fn global_label_in_text() {
    let text = "global _start\n_start:\n  nop\n";
    let sections = build_sections(&tokenize(text));
    assert_eq!(sections.len(), 1);
    assert_eq!(sections[0].name, ".text");
    assert_eq!(sections[0].global_labels, vec!["_start".to_string()]);
    assert_eq!(
        sections[0].labeled_instructions,
        vec![("_start".to_string(), vec![Instruction { opcode: Opcode::Nop, operands: vec![] }])]
    );
    assert!(assemble(text, "test.asm").is_ok());
}

#[test]
fn text_is_written_last() {
    let text = "section .data\n  nop\nsection .text\n  syscall\n";
    let bytes = assemble(text, "test.asm").unwrap();
    assert_eq!(u16_at(&bytes, 60), 6);
    assert_eq!(section_name(&bytes, 1), ".data");
    assert_eq!(section_name(&bytes, 2), ".text");
    assert_eq!(section_name(&bytes, 3), ".shstrtab");
    assert_eq!(section_name(&bytes, 4), ".symtab");
    assert_eq!(section_name(&bytes, 5), ".strtab");
    let data = u64_at(&bytes, 64 + 64 + 24) as usize;
    let text_offset = u64_at(&bytes, 64 + 128 + 24) as usize;
    assert_eq!(bytes[data], 0x90);
    assert_eq!(&bytes[text_offset..text_offset + 2], &[0x0f, 0x05]);
}

#[test]
fn section_name_without_dot_stops_the_work() {
    let tokens = tokenize("nop\nsection x\nnop");
    assert_eq!(
        check_tokens(&tokens),
        CheckResult::Error { at: 1, error_type: CheckErrorType::InvalidSectionName }
    );
    assert_eq!(
        assemble("nop\nsection x\nnop", "test.asm"),
        Err(AssembleError::Check { at: 1, error_type: CheckErrorType::InvalidSectionName })
    );
}

#[test]
fn unknown_mnemonic_stops_the_work() {
    assert_eq!(parse("movx"), LineToken::Invalid);
    assert_eq!(
        check_tokens(&tokenize("movx")),
        CheckResult::Error { at: 0, error_type: CheckErrorType::InvalidInstruction }
    );
    assert_eq!(
        assemble("nop\n\nmovx\n", "test.asm"),
        Err(AssembleError::Check { at: 2, error_type: CheckErrorType::InvalidInstruction })
    );
}

#[test]
fn program_with_a_comment() {
    let source = "
        ; this is a comment
        nop
        syscall
        ";
    let bytes = assemble(source, "./test/test.asm").unwrap();
    assert_eq!(&bytes[..4], &[0x7f, b'E', b'L', b'F']);
    assert_eq!(u16_at(&bytes, 60), 5);
    let offset = u64_at(&bytes, 64 + 64 + 24) as usize;
    assert_eq!(&bytes[offset..offset + 3], &[0x90, 0x0f, 0x05]);
    assert_eq!(bytes, assemble("nop\nsyscall", "./test/test.asm").unwrap());
}

#[test]
fn assemble_is_tokenize_build_write() {
    let text = "global main\nsection .data\nx:\nnop\nsection .text\nmain:\nsyscall\n";
    let sections = build_sections(&tokenize(text));
    assert_eq!(assemble(text, "a.asm"), Ok(write_elf(&sections, "a.asm").unwrap()));
}

#[test]
fn assemble_is_deterministic() {
    let text = "global main\nmain:\nnop\nsyscall\nend:\n";
    assert_eq!(assemble(text, "a.asm"), assemble(text, "a.asm"));
    let other = text.to_string();
    assert_eq!(assemble(&other, "a.asm"), assemble(text, "a.asm"));
}

#[test]
fn the_path_enters_the_file() {
    let one = assemble("nop", "one.asm").unwrap();
    let two = assemble("nop", "two.asm").unwrap();
    assert_ne!(one, two);
    assert_eq!(one.len(), two.len());
}

#[test]
fn undefined_global_is_refused() {
    assert_eq!(
        assemble("nop\nglobal main\nnop", "a.asm"),
        Err(AssembleError::UnresolvedGlobalSymbol { at: 1, name: "main".to_string() })
    );
}

#[test]
fn first_undefined_global_is_named() {
    let text = "global a b c\nglobal d\na:\nc:";
    assert_eq!(
        assemble(text, "a.asm"),
        Err(AssembleError::UnresolvedGlobalSymbol { at: 0, name: "b".to_string() })
    );
    assert_eq!(find_unresolved_global(&tokenize(text)), Some((0, "b".to_string())));
}

#[test]
fn global_may_be_defined_later_or_in_another_section() {
    let text = "global a b\nsection .data\nb:\nsection .text\na:";
    assert_eq!(find_unresolved_global(&tokenize(text)), None);
    assert!(assemble(text, "a.asm").is_ok());
}

#[test]
fn implicit_start_needs_no_definition() {
    assert_eq!(find_unresolved_global(&tokenize("nop")), None);
    assert!(assemble("nop", "a.asm").is_ok());
}

#[test]
fn declared_start_needs_a_definition() {
    assert_eq!(
        assemble("global _start\nnop", "a.asm"),
        Err(AssembleError::UnresolvedGlobalSymbol { at: 0, name: "_start".to_string() })
    );
}

#[test]
fn line_errors_come_before_undefined_globals() {
    assert_eq!(
        assemble("global main\nmovx", "a.asm"),
        Err(AssembleError::Check { at: 1, error_type: CheckErrorType::InvalidInstruction })
    );
}

#[test]
fn undefined_global_can_be_ignored() {
    let text = "global main\nnop";
    let bytes = assemble_with(text, "a.asm", GlobalPolicy::Ignore).unwrap();
    let sections = build_sections(&tokenize(text));
    assert_eq!(sections[0].global_labels, vec!["_start".to_string(), "main".to_string()]);
    assert_eq!(bytes, write_elf(&sections, "a.asm").unwrap());
    assert_eq!(
        assemble_with("movx", "a.asm", GlobalPolicy::Ignore),
        Err(AssembleError::Check { at: 0, error_type: CheckErrorType::InvalidInstruction })
    );
    assert_eq!(
        assemble_with(text, "a.asm", GlobalPolicy::HardFail),
        Err(AssembleError::UnresolvedGlobalSymbol { at: 0, name: "main".to_string() })
    );
}

#[test]
fn too_many_sections_are_too_large() {
    let mut text = String::new();
    for i in 0..0xffff - 4 {
        text.push_str(&format!("section .s{}\n", i));
    }
    assert_eq!(assemble(&text, "a.asm"), Err(AssembleError::TooLarge));
}

#[test]
fn lines_end_at_line_feeds() {
    assert_eq!(lines("nop\n  syscall \n"), vec!["nop", "  syscall ", ""]);
    assert_eq!(lines(""), vec![""]);
    assert_eq!(lines("a\r\nb"), vec!["a\r", "b"]);
    assert_eq!(lines("\n\n"), vec!["", "", ""]);
}

#[test]
fn every_line_has_its_token() {
    let text = "global _start\n_start:\n  nop\n; done\n";
    let raw = lines(text);
    let tokens = tokenize(text);
    assert_eq!(raw.len(), tokens.len());
    for (line, token) in raw.iter().zip(tokens.iter()) {
        assert_eq!(&parse(line), token);
    }
}
