use rasm::parse::{
    check_tokens, encode, lookup, parse, CheckErrorType, CheckResult, Directive, Instruction,
    LineToken, Opcode,
};

fn instruction(opcode: Opcode) -> LineToken {
    LineToken::Instruction(Instruction { opcode, operands: Vec::new() })
}

#[test]
fn empty_line_is_empty() {
    assert_eq!(parse(""), LineToken::Empty);
}

#[test]
fn whitespace_only_line_is_empty() {
    assert_eq!(parse("   \t  "), LineToken::Empty);
    assert_eq!(parse("\r"), LineToken::Empty);
    assert_eq!(parse("\u{a0}\u{3000}\u{2003}"), LineToken::Empty);
}

#[test]
fn comment_line_is_comment() {
    assert_eq!(parse("; this is a comment"), LineToken::Comment);
    assert_eq!(parse("        ; this is a comment"), LineToken::Comment);
    assert_eq!(parse(";"), LineToken::Comment);
}

#[test]
fn semicolon_after_an_instruction_is_no_comment() {
    assert_eq!(parse("nop ; pause"), instruction(Opcode::Nop));
    assert_eq!(parse("nop; pause"), LineToken::Invalid);
}

#[test]
fn mnemonics_become_instructions() {
    assert_eq!(parse("nop"), instruction(Opcode::Nop));
    assert_eq!(parse("syscall"), instruction(Opcode::Syscall));
    assert_eq!(parse("        syscall   "), instruction(Opcode::Syscall));
}

#[test]
fn instruction_has_no_operand_bytes() {
    match parse("nop") {
        LineToken::Instruction(instruction) => {
            assert_eq!(instruction.opcode, Opcode::Nop);
            assert!(instruction.operands.is_empty());
        }
        other => panic!("{:?}", other),
    }
}

#[test]
fn words_after_a_mnemonic_are_ignored() {
    assert_eq!(parse("nop rax"), instruction(Opcode::Nop));
}

#[test]
fn mnemonics_are_case_sensitive() {
    assert_eq!(parse("NOP"), LineToken::Invalid);
    assert_eq!(parse("Syscall"), LineToken::Invalid);
}

#[test]
fn unknown_mnemonic_is_invalid() {
    assert_eq!(parse("movx"), LineToken::Invalid);
    assert_eq!(parse("nopp"), LineToken::Invalid);
    assert_eq!(parse("no"), LineToken::Invalid);
}

#[test]
fn tab_does_not_separate_words() {
    assert_eq!(parse("nop\trax"), LineToken::Invalid);
    assert_eq!(parse("global\t_start"), LineToken::Invalid);
}

#[test]
fn global_names_all_following_words() {
    assert_eq!(
        parse("global _start"),
        LineToken::Directive(Directive::Global(vec!["_start".to_string()]))
    );
    assert_eq!(
        parse("  global a b c  "),
        LineToken::Directive(Directive::Global(vec![
            "a".to_string(),
            "b".to_string(),
            "c".to_string()
        ]))
    );
}

#[test]
fn two_spaces_make_an_empty_word() {
    assert_eq!(
        parse("global  a"),
        LineToken::Directive(Directive::Global(vec!["".to_string(), "a".to_string()]))
    );
    assert_eq!(parse("section  .data"), LineToken::Directive(Directive::Section("".to_string())));
}

#[test]
fn section_names_the_second_word_only() {
    assert_eq!(
        parse("section .data"),
        LineToken::Directive(Directive::Section(".data".to_string()))
    );
    assert_eq!(
        parse("section .data extra words"),
        LineToken::Directive(Directive::Section(".data".to_string()))
    );
    assert_eq!(parse("section x"), LineToken::Directive(Directive::Section("x".to_string())));
}

#[test]
fn directive_without_a_name_is_invalid() {
    assert_eq!(parse("global"), LineToken::Invalid);
    assert_eq!(parse("section"), LineToken::Invalid);
    assert_eq!(parse("  section  "), LineToken::Invalid);
}

#[test]
fn lone_word_with_colon_is_a_label() {
    assert_eq!(parse("_start:"), LineToken::Label("_start".to_string()));
    assert_eq!(parse("   loop:  "), LineToken::Label("loop".to_string()));
    assert_eq!(parse(":"), LineToken::Label("".to_string()));
    assert_eq!(parse("global:"), LineToken::Label("global".to_string()));
    assert_eq!(parse("nop:"), LineToken::Label("nop".to_string()));
}

#[test]
fn only_the_last_colon_is_stripped() {
    assert_eq!(parse("a:b:"), LineToken::Label("a:b".to_string()));
    assert_eq!(parse("a::"), LineToken::Label("a:".to_string()));
}

#[test]
fn label_followed_by_a_word_is_no_label() {
    assert_eq!(parse("start: nop"), LineToken::Invalid);
    assert_eq!(parse("nop start:"), instruction(Opcode::Nop));
}

#[test]
fn label_may_hold_any_character() {
    assert_eq!(parse("caf\u{e9}:"), LineToken::Label("caf\u{e9}".to_string()));
    assert_eq!(parse("\u{8a9e}\u{1f600}:"), LineToken::Label("\u{8a9e}\u{1f600}".to_string()));
}

#[test]
fn lookup_finds_each_mnemonic() {
    assert_eq!(lookup("nop"), Some(Opcode::Nop));
    assert_eq!(lookup("syscall"), Some(Opcode::Syscall));
    assert_eq!(lookup("mov"), None);
    assert_eq!(lookup(""), None);
    assert_eq!(lookup(" nop"), None);
}

#[test]
fn opcodes_have_their_fixed_bytes() {
    assert_eq!(Opcode::Nop.get_opcode(), vec![0x90]);
    assert_eq!(Opcode::Syscall.get_opcode(), vec![0x0f, 0x05]);
}

#[test]
fn encode_gives_the_opcode_bytes() {
    assert_eq!(encode(&Opcode::Nop, &Vec::new()), vec![0x90]);
    assert_eq!(encode(&Opcode::Syscall, &Vec::new()), vec![0x0f, 0x05]);
    assert_eq!(encode(&Opcode::Syscall, &vec![1, 2, 3]), vec![0x0f, 0x05]);
}

#[test]
fn clones_are_equal() {
    let tokens = vec![
        parse("nop"),
        parse("global a b"),
        parse("section .data"),
        parse("x:"),
        parse(""),
        parse(";"),
        parse("?"),
    ];
    for token in tokens.iter() {
        assert_eq!(&token.clone(), token);
    }
}

#[test]
fn check_accepts_valid_tokens() {
    let tokens = vec![
        parse(""),
        parse("; comment"),
        parse("global _start"),
        parse("section .text"),
        parse("_start:"),
        parse("nop"),
    ];
    assert_eq!(check_tokens(&tokens), CheckResult::Valid);
    assert_eq!(check_tokens(&Vec::new()), CheckResult::Valid);
}

#[test]
fn check_reports_invalid_instruction() {
    let tokens = vec![parse("nop"), parse("movx"), parse("syscall")];
    assert_eq!(
        check_tokens(&tokens),
        CheckResult::Error { at: 1, error_type: CheckErrorType::InvalidInstruction }
    );
}

#[test]
fn check_reports_section_name_without_dot() {
    let tokens = vec![parse("nop"), parse("nop"), parse("section x")];
    assert_eq!(
        check_tokens(&tokens),
        CheckResult::Error { at: 2, error_type: CheckErrorType::InvalidSectionName }
    );
}

#[test]
fn check_reports_section_name_that_is_only_a_dot() {
    let tokens = vec![parse("section .")];
    assert_eq!(
        check_tokens(&tokens),
        CheckResult::Error { at: 0, error_type: CheckErrorType::InvalidSectionName }
    );
    let tokens = vec![LineToken::Directive(Directive::Section(".\t".to_string()))];
    assert_eq!(
        check_tokens(&tokens),
        CheckResult::Error { at: 0, error_type: CheckErrorType::InvalidSectionName }
    );
    let tokens = vec![LineToken::Directive(Directive::Section("".to_string()))];
    assert_eq!(
        check_tokens(&tokens),
        CheckResult::Error { at: 0, error_type: CheckErrorType::InvalidSectionName }
    );
}

#[test]
fn check_accepts_dotted_section_names() {
    let tokens = vec![
        parse("section .data"),
        parse("section .a"),
        parse("section .."),
        LineToken::Directive(Directive::Section(".\tx".to_string())),
    ];
    assert_eq!(check_tokens(&tokens), CheckResult::Valid);
}

#[test]
fn check_reports_the_first_error_only() {
    let tokens = vec![parse("section x"), parse("movx")];
    assert_eq!(
        check_tokens(&tokens),
        CheckResult::Error { at: 0, error_type: CheckErrorType::InvalidSectionName }
    );
    let tokens = vec![parse("movx"), parse("section x")];
    assert_eq!(
        check_tokens(&tokens),
        CheckResult::Error { at: 0, error_type: CheckErrorType::InvalidInstruction }
    );
}
