use rustyboy::assembler::assemble;
use rustyboy::disassembler::{disassemble, Line};

fn reencode(lines: &[Line]) -> Vec<u8> {
    let mut out = Vec::new();
    for l in lines {
        if l.index >= 256 {
            out.push(0xcb);
            out.push((l.index - 256) as u8);
        } else {
            out.push(l.index as u8);
            if l.length == 2 {
                out.push(l.operand as u8);
            } else if l.length == 3 {
                out.push((l.operand % 256) as u8);
                out.push((l.operand / 256) as u8);
            }
        }
    }
    out
}

#[test]
fn sweep_and_labels() {
    let code = vec![0x3e, 0x10, 0x3d, 0x20, 0xfd, 0xcb, 0x7c, 0xc3, 0x00, 0x00];
    let lines = disassemble(&code);
    let positions: Vec<usize> = lines.iter().map(|l| l.pos).collect();
    assert_eq!(positions, vec![0, 2, 3, 5, 7]);
    assert!(lines[3].index == 0x17c);
    assert!(lines[2].has_target && lines[2].target == 2);
    assert!(lines[4].has_target && lines[4].target == 0);
    assert!(lines[0].labelled);
    assert!(lines[1].labelled);
    assert!(!lines[2].labelled);
    assert_eq!(lines[4].operand, 0x0000);
}

#[test]
fn truncated_instruction_is_not_listed() {
    let lines = disassemble(&[0x00, 0xc3, 0x12]);
    assert_eq!(lines.len(), 1);
    let lines = disassemble(&[0xcb]);
    assert_eq!(lines.len(), 0);
}

#[test]
fn assembled_code_round_trips() {
    let src: Vec<String> = [
        "start:", "LD HL, $C000", "LD (HL+), A", "ADD B", "SUB $3E", "SWAP C", "BIT 3, D", "PUSH BC",
        "POP AF", "LD ($FF00+$80), A", "LD A, ($1234)", "JR NZ, start", "CALL start", "RET C", "RETI",
    ]
    .iter()
    .map(|s| s.to_string())
    .collect();
    let code = assemble(&src).unwrap();
    assert_eq!(code.len(), 25);
    let lines = disassemble(&code);
    assert_eq!(reencode(&lines), code);
}
