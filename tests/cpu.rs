use rustyboy::cpu::{Cpu, FLAG_C, FLAG_H, FLAG_N, FLAG_Z};
use rustyboy::instructions::{instruction, Operation};
use rustyboy::mmu::Mmu;

fn cpu_with_code(at: u16, code: &[u8]) -> Cpu {
    let mut mmu = Mmu::new();
    for (i, b) in code.iter().enumerate() {
        mmu.write(at + i as u16, *b);
    }
    let mut cpu = Cpu::new(mmu);
    cpu.pc = at;
    cpu
}

#[test]
fn add_a_b_half_carry_and_carry() {
    let mut cpu = cpu_with_code(0xc000, &[0x80]);
    cpu.a = 0x3a;
    cpu.b = 0xc6;
    assert_eq!(cpu.step(), 4);
    assert_eq!(cpu.a, 0x00);
    assert_eq!(cpu.f, FLAG_Z | FLAG_H | FLAG_C);
    assert_eq!(cpu.f, 0xb0);
}

#[test]
fn sub_immediate_to_zero() {
    let mut cpu = cpu_with_code(0xc000, &[0xd6, 0x3e]);
    cpu.a = 0x3e;
    assert_eq!(cpu.step(), 8);
    assert_eq!(cpu.a, 0x00);
    assert_eq!(cpu.f, FLAG_Z | FLAG_N);
    assert_eq!(cpu.pc, 0xc002);
}

#[test]
fn daa_after_add() {
    let mut cpu = cpu_with_code(0xc000, &[0x80, 0x27]);
    cpu.a = 0x45;
    cpu.b = 0x38;
    cpu.step();
    cpu.step();
    assert_eq!(cpu.a, 0x83);
    assert_eq!(cpu.f & FLAG_N, 0);
}

#[test]
fn relative_jump_to_itself() {
    let mut mmu = Mmu::new();
    mmu.load(&[0x18, 0xfe], 0x0100);
    let mut cpu = Cpu::new(mmu);
    cpu.pc = 0x0100;
    assert_eq!(cpu.step(), 12);
    assert_eq!(cpu.pc, 0x0100);
}

#[test]
fn boot_rom_overlay_until_ff50() {
    let mut mmu = Mmu::new();
    mmu.load_boot_rom(&[0xaa, 0xbb]);
    mmu.load(&[0x55, 0x66], 0);
    assert_eq!(mmu.read(0x0000), 0xaa);
    assert!(mmu.boot_rom_enabled());
    mmu.write(0xff50, 0x01);
    assert_eq!(mmu.read(0x0000), 0x55);
    assert!(!mmu.boot_rom_enabled());
    mmu.write(0xff50, 0x00);
    assert_eq!(mmu.read(0x0001), 0x66);
}

#[test]
fn interrupt_dispatch_clears_only_served_bit() {
    let mut mmu = Mmu::new();
    mmu.write(0xffff, 0x01);
    mmu.write(0xff0f, 0x05);
    let mut cpu = Cpu::new(mmu);
    cpu.ie = true;
    cpu.hlt = true;
    cpu.pc = 0x1234;
    cpu.sp = 0xfffe;
    assert_eq!(cpu.step(), 24);
    assert_eq!(cpu.mmu.read(0xfffd), 0x12);
    assert_eq!(cpu.mmu.read(0xfffc), 0x34);
    assert_eq!(cpu.sp, 0xfffc);
    assert_eq!(cpu.pc, 0x0040);
    assert!(!cpu.ie);
    assert!(!cpu.hlt);
    assert_eq!(cpu.mmu.read(0xff0f), 0x04);
}

#[test]
fn halted_without_ime_wakes_on_pending_interrupt() {
    let mut mmu = Mmu::new();
    mmu.write(0xffff, 0x04);
    mmu.write(0xff0f, 0x04);
    let mut cpu = Cpu::new(mmu);
    cpu.hlt = true;
    cpu.pc = 0xc000;
    assert_eq!(cpu.step(), 4);
    assert!(!cpu.hlt);
    assert_eq!(cpu.pc, 0xc000);
}

#[test]
fn decoding_consumes_the_table_length() {
    for op in 0..=255u8 {
        let entry = instruction(op as u16);
        assert!(entry.length >= 1 && entry.length <= 3);
        if entry.operation == Operation::Undef {
            continue;
        }
        let mut cpu = cpu_with_code(0xc000, &[op, 0x00, 0x00]);
        let (decoded, _) = cpu.fetch_and_decode();
        assert_eq!(cpu.pc, 0xc000 + entry.length as u16);
        assert!(decoded.operation != Operation::Prefix);
    }
}

#[test]
fn pop_af_keeps_flag_nibble_zero() {
    let mut cpu = cpu_with_code(0xc000, &[0xf1, 0x37, 0x3f]);
    cpu.sp = 0xd000;
    cpu.mmu.write(0xd000, 0xff);
    cpu.mmu.write(0xd001, 0x12);
    cpu.step();
    assert_eq!(cpu.a, 0x12);
    assert_eq!(cpu.f, 0xf0);
    cpu.step();
    assert_eq!(cpu.f & 0x0f, 0);
    cpu.step();
    assert_eq!(cpu.f & 0x0f, 0);
    assert_eq!(cpu.sp, 0xd002);
}

#[test]
fn call_and_ret() {
    let mut cpu = cpu_with_code(0xc000, &[0xcd, 0x10, 0xc0]);
    cpu.mmu.write(0xc010, 0xc9);
    cpu.sp = 0xd000;
    assert_eq!(cpu.step(), 24);
    assert_eq!(cpu.pc, 0xc010);
    assert_eq!(cpu.sp, 0xcffe);
    assert_eq!(cpu.mmu.read(0xcfff), 0xc0);
    assert_eq!(cpu.mmu.read(0xcffe), 0x03);
    assert_eq!(cpu.step(), 16);
    assert_eq!(cpu.pc, 0xc003);
    assert_eq!(cpu.sp, 0xd000);
}

#[test]
fn conditional_jump_not_taken_costs_less() {
    let mut cpu = cpu_with_code(0xc000, &[0x20, 0x05]);
    cpu.f = FLAG_Z;
    assert_eq!(cpu.step(), 8);
    assert_eq!(cpu.pc, 0xc002);
}

#[test]
fn ld_hl_increment_and_prefixed_bit() {
    let mut cpu = cpu_with_code(0xc000, &[0x22, 0xcb, 0x7f]);
    cpu.h = 0xc1;
    cpu.l = 0xff;
    cpu.a = 0x80;
    cpu.step();
    assert_eq!(cpu.mmu.read(0xc1ff), 0x80);
    assert_eq!((cpu.h, cpu.l), (0xc2, 0x00));
    assert_eq!(cpu.step(), 8);
    assert_eq!(cpu.f & FLAG_Z, 0);
    assert_eq!(cpu.f & FLAG_H, FLAG_H);
}

#[test]
fn add_sp_signed_offset() {
    let mut cpu = cpu_with_code(0xc000, &[0xe8, 0xfe, 0xf8, 0x02]);
    cpu.sp = 0x00ff;
    cpu.step();
    assert_eq!(cpu.sp, 0x00fd);
    assert_eq!(cpu.f, FLAG_C | FLAG_H);
    cpu.step();
    assert_eq!((cpu.h, cpu.l), (0x00, 0xff));
}

#[test]
fn undefined_opcode_cannot_step() {
    let cpu = cpu_with_code(0xc000, &[0xd3]);
    assert!(!cpu.can_step());
    let cpu = cpu_with_code(0xc000, &[0x00]);
    assert!(cpu.can_step());
}

#[test]
fn rom_bank_select_coerces_zero() {
    let mut mmu = Mmu::new();
    let mut rom = vec![0u8; 0x80000];
    rom[0x4000] = 1;
    rom[0x8000] = 2;
    mmu.load(&rom, 0);
    assert_eq!(mmu.read(0x4000), 1);
    mmu.write(0x2000, 2);
    assert_eq!(mmu.read(0x4000), 2);
    mmu.write(0x2000, 0);
    assert_eq!(mmu.read(0x4000), 1);
    mmu.write(0x1000, 0x77);
    assert_eq!(mmu.read(0x1000), 0);
}

#[test]
fn dma_copies_to_oam() {
    let mut mmu = Mmu::new();
    for i in 0..0xa0u16 {
        mmu.write(0xc100 + i, i as u8);
    }
    mmu.write(0xff46, 0xc1);
    for i in 0..0xa0u16 {
        assert_eq!(mmu.read(0xfe00 + i), i as u8);
    }
}

#[test]
fn joypad_reads_selected_half_rows() {
    let mut mmu = Mmu::new();
    mmu.set_buttons(0x21);
    mmu.write(0xff00, 0x20);
    assert_eq!(mmu.read(0xff00), 0xfe);
    mmu.write(0xff00, 0x10);
    assert_eq!(mmu.read(0xff00), 0xfd);
    mmu.write(0xff00, 0x30);
    assert_eq!(mmu.read(0xff00), 0xff);
}

#[test]
fn joypad_top_nibble_reads_ones() {
    let mut mmu = Mmu::new();
    mmu.write(0xff00, 0x10);
    mmu.set_buttons(0);
    assert_eq!(mmu.read(0xff00), 0xff);
    mmu.set_buttons(0x80);
    mmu.write(0xff00, 0x00);
    assert_eq!(mmu.read(0xff00) & 0xf0, 0xf0);
    assert_eq!(mmu.read(0xff00), 0xf7);
}

#[test]
fn halted_wakes_on_any_pending_bit() {
    let mut mmu = Mmu::new();
    mmu.write(0xffff, 0x20);
    mmu.write(0xff0f, 0x20);
    let mut cpu = Cpu::new(mmu);
    cpu.hlt = true;
    cpu.ie = true;
    cpu.pc = 0xc000;
    assert_eq!(cpu.step(), 4);
    assert!(!cpu.hlt);
    assert_eq!(cpu.pc, 0xc000);
    assert!(cpu.ie);
}

#[test]
fn unmapped_io_reads_ff() {
    let mut mmu = Mmu::new();
    mmu.write(0xff01, 0x12);
    assert_eq!(mmu.read(0xff01), 0xff);
    mmu.write(0xff80, 0x12);
    assert_eq!(mmu.read(0xff80), 0x12);
    mmu.write(0xff42, 0x12);
    assert_eq!(mmu.read(0xff42), 0x12);
    assert_eq!(mmu.read(0xff44), 153);
    mmu.write(0xff44, 7);
    assert_eq!(mmu.read(0xff44), 153);
}

#[test]
fn megabyte_cartridge_loads() {
    let mut mmu = Mmu::new();
    let mut rom = vec![0u8; 0x100000];
    rom[0] = 0x31;
    rom[0xfffff] = 0x32;
    mmu.load_boot_rom(&[0x30]);
    mmu.load(&rom, 0);
    assert_eq!(mmu.read(0), 0x30);
    mmu.write(0xff50, 0);
    assert_eq!(mmu.read(0), 0x31);
}
