use rustyboy::assembler::{
    addr16, addr8, addr8ind, assemble, binop, cond_offset, imm16, imm8, jump, ld, parse_arg, reg16,
    reg8, reg8ind, Argument, AsmError, Fixup,
};

fn lines(src: &[&str]) -> Vec<String> {
    src.iter().map(|s| s.to_string()).collect()
}

#[test]
fn literals_in_each_base() {
    assert_eq!(imm16("$1F"), Some(0x1f));
    assert_eq!(imm16("0x1f"), Some(0x1f));
    assert_eq!(imm16("017"), Some(15));
    assert_eq!(imm16("1234"), Some(1234));
    assert_eq!(imm16("+7"), Some(7));
    assert_eq!(imm16("65536"), None);
    assert_eq!(imm16("$"), None);
    assert_eq!(imm16("08"), None);
    assert_eq!(imm16("label"), None);
    assert_eq!(imm8("255"), Some(255));
    assert_eq!(imm8("256"), None);
    assert_eq!(imm8("$ff"), Some(0xff));
}

#[test]
fn register_names() {
    assert_eq!(reg8("B"), Some(0));
    assert_eq!(reg8("(HL)"), Some(6));
    assert_eq!(reg8("A"), Some(7));
    assert_eq!(reg8("b"), None);
    assert_eq!(reg8ind("(HL-)"), Some(0x30));
    assert_eq!(reg8ind("(DE)"), Some(0x10));
    assert_eq!(reg16("SP"), Some(0x30));
    assert_eq!(reg16("AF"), Some(0x30));
    assert_eq!(reg16("HL"), Some(0x20));
    assert_eq!(cond_offset("NC"), Some(0x10));
    assert_eq!(cond_offset("Z"), Some(0x08));
    assert_eq!(cond_offset("PO"), None);
}

#[test]
fn indirect_operands() {
    assert_eq!(addr16("($C000)"), Some(0xc000));
    assert_eq!(addr16("(HL)"), None);
    assert_eq!(addr8("($FF00+$44)"), Some(0x44));
    assert_eq!(addr8("($FF00+C)"), None);
    assert_eq!(addr8ind("($FF00+C)"), Some(1));
    assert_eq!(addr8("($FE00+$44)"), None);
    assert_eq!(addr8("($FF00+1+2)"), None);
}

#[test]
fn operand_kinds() {
    assert!(matches!(parse_arg("A"), Argument::Reg8(7)));
    assert!(matches!(parse_arg("(BC)"), Argument::Reg8Ind(0)));
    assert!(matches!(parse_arg("DE"), Argument::Reg16(0x10)));
    assert!(matches!(parse_arg("$10"), Argument::Imm(0x10)));
    assert!(matches!(parse_arg("($1234)"), Argument::Addr16(0x1234)));
    assert!(matches!(parse_arg("($FF00+$80)"), Argument::Addr8(0x80)));
    assert!(matches!(parse_arg("($FF00+C)"), Argument::Addr8Ind(1)));
    match parse_arg("loop") {
        Argument::Label(l) => assert_eq!(l, vec!['l', 'o', 'o', 'p']),
        _ => panic!("expected a label"),
    }
}

#[test]
fn emit_ld_binop_jump() {
    let mut data = Vec::new();
    let mut fixes: Vec<Fixup> = Vec::new();
    assert_eq!(ld("B", "C", &mut data, &mut fixes), Ok(()));
    assert_eq!(ld("A", "$12", &mut data, &mut fixes), Ok(()));
    assert_eq!(ld("HL", "$1234", &mut data, &mut fixes), Ok(()));
    assert_eq!(ld("SP", "top", &mut data, &mut fixes), Ok(()));
    assert_eq!(ld("($FF00+$40)", "A", &mut data, &mut fixes), Ok(()));
    assert_eq!(ld("A", "($FF00+C)", &mut data, &mut fixes), Ok(()));
    assert_eq!(ld("B", "(BC)", &mut data, &mut fixes), Err(AsmError::Syntax));
    assert_eq!(data, vec![0x41, 0x3e, 0x12, 0x21, 0x34, 0x12, 0x31, 0, 0, 0xe0, 0x40, 0xf2]);
    assert_eq!(fixes, vec![(9usize, vec!['t', 'o', 'p'], false)]);
    let mut data = Vec::new();
    assert_eq!(binop(0x80, "B", &mut data), Ok(()));
    assert_eq!(binop(0xb8, "$10", &mut data), Ok(()));
    assert_eq!(binop(0x90, "xyz", &mut data), Err(AsmError::Syntax));
    assert_eq!(data, vec![0x80, 0xfe, 0x10]);
    let mut data = Vec::new();
    let mut fixes: Vec<Fixup> = Vec::new();
    jump(0xc3, "$0150", false, &mut data, &mut fixes);
    jump(0x18, "back", true, &mut data, &mut fixes);
    assert_eq!(data, vec![0xc3, 0x50, 0x01, 0x18, 0x00]);
    assert_eq!(fixes, vec![(5usize, vec!['b', 'a', 'c', 'k'], true)]);
}

#[test]
fn assemble_program_with_labels() {
    let src = lines(&[
        "; a small loop",
        "start:",
        "  LD A, $10   ; counter",
        "loop:",
        "  DEC A",
        "  JR NZ, loop",
        "  CALL sub",
        "  JP start",
        "sub:",
        "  BIT 7, H",
        "  RET",
        "  .DB 1 2 $ff",
    ]);
    let code = assemble(&src).unwrap();
    assert_eq!(
        code,
        vec![0x3e, 0x10, 0x3d, 0x20, 0xfd, 0xcd, 0x0b, 0x00, 0xc3, 0x00, 0x00, 0xcb, 0x7c, 0xc9, 1, 2, 0xff]
    );
}

#[test]
fn assemble_errors() {
    assert_eq!(assemble(&lines(&["a:", "a:"])), Err(AsmError::DuplicateLabel));
    assert_eq!(assemble(&lines(&["JP nowhere"])), Err(AsmError::UndefinedLabel));
    assert_eq!(assemble(&lines(&["FOO A"])), Err(AsmError::Syntax));
    assert_eq!(assemble(&lines(&[".DB 1 x"])), Err(AsmError::Syntax));
    let mut far = vec!["JR far".to_string()];
    far.push(format!(".DB {}", vec!["0"; 200].join(" ")));
    far.push("far:".to_string());
    assert_eq!(assemble(&far), Err(AsmError::OutOfRange));
}

#[test]
fn assemble_relative_backward_and_forward() {
    let code = assemble(&lines(&["top:", "NOP", "JR top", "JR end", "NOP", "end:", "STOP 0"])).unwrap();
    assert_eq!(code, vec![0x00, 0x18, 0xfd, 0x18, 0x01, 0x00, 0x10, 0x00]);
}
