use rxasm::codegen::Codegen;
use rxasm::parser::{Instructions, LineError, Parser};

#[test]
fn parser_test1() {
    let mut parser = Parser::new();
    parser.parse("", "").unwrap();
}

#[test]
fn parser_test2() {
    let src = r#"
        mov r0, 0
        add r0,     r1
        sub     r0, r2
        mult r2,    r3
        xor r3,   r0
        cmp  r0, r1
        out r0
        in    r1
        hlt
        "#;
    let mut parser = Parser::new();
    parser.parse(src, "").unwrap();
}

#[test]
fn empty_source_parses_and_encodes_empty() {
    let mut parser = Parser::new();
    let insts = parser.parse("", "prog.asm").unwrap().clone();
    assert_eq!(insts.len(), 0);
    let mut codegen = Codegen::new(insts);
    assert_eq!(codegen.generate().len(), 0);
}

#[test]
fn comments_and_blanks_are_skipped() {
    let mut parser = Parser::new();
    let insts = parser.parse("# comment\n\nhlt", "prog.asm").unwrap();
    assert_eq!(insts.len(), 1);
    assert_eq!(insts[0], Instructions::Hlt);
}

#[test]
fn only_comments_parse_to_nothing() {
    let mut parser = Parser::new();
    let insts = parser.parse("# one\n   \n# two\n", "prog.asm").unwrap();
    assert_eq!(insts.len(), 0);
}

#[test]
fn fail_fast_on_unknown_mnemonic() {
    let mut parser = Parser::new();
    let err = parser.parse("mov r0, 0\nbadop r1, r2\nadd r0, r1", "prog.asm").unwrap_err();
    assert_eq!(err.line, 2);
    assert_eq!(err.filename, "prog.asm");
    assert_eq!(err.cause, LineError::UnknownMnemonic { mnemonic: "badop".to_string() });
}

#[test]
fn line_counter_advances_only_on_parsed_lines() {
    let mut parser = Parser::new();
    let err = parser.parse("# note\n\nbadop r0", "prog.asm").unwrap_err();
    assert_eq!(err.line, 1);

    let mut parser = Parser::new();
    let err = parser.parse("hlt\n# note\nbadop r0", "prog.asm").unwrap_err();
    assert_eq!(err.line, 2);
}

#[test]
fn register_expected_rejects_plain_number() {
    let mut parser = Parser::new();
    let err = parser.parse("add r0, 5", "prog.asm").unwrap_err();
    assert_eq!(err.cause, LineError::MustBeRegister { index: 2 });

    let mut parser = Parser::new();
    let err = parser.parse("add 5, r1", "prog.asm").unwrap_err();
    assert_eq!(err.cause, LineError::MustBeRegister { index: 1 });
}

#[test]
fn number_expected_rejects_register_token() {
    let mut parser = Parser::new();
    let err = parser.parse("mov r0, r1", "prog.asm").unwrap_err();
    assert_eq!(err.cause, LineError::MustBeNumber { index: 2 });
}

#[test]
fn missing_operand_is_reported_with_its_position() {
    let mut parser = Parser::new();
    let err = parser.parse("add r0", "prog.asm").unwrap_err();
    assert_eq!(err.cause, LineError::MissingArgument { index: 2 });
}

#[test]
fn mnemonic_without_operands_fails() {
    let mut parser = Parser::new();
    let err = parser.parse("mov", "prog.asm").unwrap_err();
    assert_eq!(err.cause, LineError::NoOperands);
}

#[test]
fn register_remainder_must_be_numeric() {
    let mut parser = Parser::new();
    let err = parser.parse("out rx", "prog.asm").unwrap_err();
    assert_eq!(err.cause, LineError::MustBeRegister { index: 1 });

    let mut parser = Parser::new();
    let err = parser.parse("out r", "prog.asm").unwrap_err();
    assert_eq!(err.cause, LineError::MustBeRegister { index: 1 });
}

#[test]
fn mnemonics_are_case_insensitive() {
    let mut parser = Parser::new();
    let insts = parser.parse("MOV R2, 7\nHLT", "prog.asm").unwrap();
    assert_eq!(insts.len(), 2);
    assert_eq!(insts[0], Instructions::Mov { dest: 2, source: 7 });
    assert_eq!(insts[1], Instructions::Hlt);
}

#[test]
fn whitespace_around_tokens_is_tolerated() {
    let mut parser = Parser::new();
    let insts = parser.parse("   mov   r0 ,  9   \n\tin  r1 ", "prog.asm").unwrap();
    assert_eq!(insts.len(), 2);
    assert_eq!(insts[0], Instructions::Mov { dest: 0, source: 9 });
    assert_eq!(insts[1], Instructions::In { dest: 1 });
}

#[test]
fn every_mnemonic_parses_to_its_variant() {
    let src = "mov r0, 10\nadd r1, r2\nsub r3, r0\nmult r1, r1\ndiv r2, r3\nxor r0, r0\ncmp r1, r3\nout r2\nin r3\nhlt";
    let mut parser = Parser::new();
    let insts = parser.parse(src, "prog.asm").unwrap();
    assert_eq!(
        insts,
        &vec![
            Instructions::Mov { dest: 0, source: 10 },
            Instructions::Add { dest: 1, source: 2 },
            Instructions::Sub { dest: 3, source: 0 },
            Instructions::Mult { dest: 1, source: 1 },
            Instructions::Div { dest: 2, source: 3 },
            Instructions::Xor { dest: 0, source: 0 },
            Instructions::Cmp { dest: 1, source: 3 },
            Instructions::Out { source: 2 },
            Instructions::In { dest: 3 },
            Instructions::Hlt,
        ]
    );
}

#[test]
fn large_operands_parse_without_failure() {
    let mut parser = Parser::new();
    let insts = parser.parse("mov r1024, 768", "prog.asm").unwrap();
    assert_eq!(insts[0], Instructions::Mov { dest: 1024, source: 768 });
}

#[test]
fn plus_sign_is_accepted_on_numbers() {
    let mut parser = Parser::new();
    let insts = parser.parse("mov r0, +5", "prog.asm").unwrap();
    assert_eq!(insts[0], Instructions::Mov { dest: 0, source: 5 });
}

#[test]
fn huge_number_overflows_to_an_error() {
    let mut parser = Parser::new();
    let err = parser.parse("mov r0, 99999999999999999999999999", "prog.asm").unwrap_err();
    assert_eq!(err.cause, LineError::MustBeNumber { index: 2 });
}

#[test]
fn parse_then_encode_pipeline() {
    let mut parser = Parser::new();
    let insts = parser.parse("mov r1, 5\nadd r1, r2\nout r1\nhlt", "prog.asm").unwrap().clone();
    let mut codegen = Codegen::new(insts);
    let bytes = codegen.generate();
    assert_eq!(bytes, vec![0x14, 5, 0x26, 0xD4, 0xFF]);
}
