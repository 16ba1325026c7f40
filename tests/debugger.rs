use rustyboy::cpu::Cpu;
use rustyboy::debugger::{parse_command, DbgCommand, Debugger};
use rustyboy::lcd::Lcd;
use rustyboy::mmu::Mmu;
use rustyboy::ppu::Ppu;

#[test]
fn commands() {
    assert_eq!(parse_command(&"c\n".to_string()), DbgCommand::Continue);
    assert_eq!(parse_command(&"  s ".to_string()), DbgCommand::SingleStep);
    assert_eq!(parse_command(&"b 1a2B".to_string()), DbgCommand::SetBreakpoint(0x1a2b));
    assert_eq!(parse_command(&"cl ff".to_string()), DbgCommand::ClearBreakpoint(0xff));
    assert_eq!(parse_command(&"d c000".to_string()), DbgCommand::DumpMemory(0xc000));
    assert_eq!(parse_command(&"t".to_string()), DbgCommand::ToggleTrace);
    assert_eq!(parse_command(&"q".to_string()), DbgCommand::Quit);
    assert_eq!(parse_command(&"b".to_string()), DbgCommand::Error);
    assert_eq!(parse_command(&"b xyz".to_string()), DbgCommand::Error);
    assert_eq!(parse_command(&"".to_string()), DbgCommand::Error);
    assert_eq!(parse_command(&"x".to_string()), DbgCommand::Error);
}

fn machine() -> Debugger {
    let mut mmu = Mmu::new();
    mmu.write(0xff50, 1);
    let mut rom = vec![0u8; 0x200];
    rom[0x100] = 0x00;
    rom[0x101] = 0x00;
    rom[0x102] = 0x18;
    rom[0x103] = 0xfc;
    mmu.load(&rom, 0);
    let mut cpu = Cpu::new(mmu);
    cpu.pc = 0x100;
    Debugger::new(cpu, Ppu::new())
}

fn lcd() -> Lcd {
    Lcd { image: image::ImageBuffer::from_pixel(160, 144, image::Rgba([0u8; 4])) }
}

#[test]
fn single_step_and_breakpoints() {
    let mut dbg = machine();
    let mut screen = lcd();
    assert_eq!(dbg.apply_command(DbgCommand::SingleStep, &mut screen, 1000), 4);
    assert_eq!(dbg.cpu.pc, 0x101);
    assert!(!dbg.running);
    dbg.apply_command(DbgCommand::SetBreakpoint(0x102), &mut screen, 1000);
    assert!(dbg.has_breakpoint(0x102));
    assert_eq!(dbg.apply_command(DbgCommand::Continue, &mut screen, 1000), 4);
    assert_eq!(dbg.cpu.pc, 0x102);
    dbg.apply_command(DbgCommand::ClearBreakpoint(0x102), &mut screen, 1000);
    assert!(!dbg.has_breakpoint(0x102));
    let ran = dbg.apply_command(DbgCommand::Continue, &mut screen, 1000);
    assert!(ran >= 1000);
    assert!(dbg.running);
    let trace = dbg.trace;
    dbg.apply_command(DbgCommand::ToggleTrace, &mut screen, 1000);
    assert_eq!(dbg.trace, !trace);
}
