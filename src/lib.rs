//! Core of a Game Boy (DMG) emulator: arithmetic unit, instruction table,
//! CPU, memory map, timer and pixel unit, with an assembler and a
//! disassembler that share the instruction table.

pub mod alu;
pub mod instructions;
pub mod timer;
pub mod mmu;
pub mod cpu;
pub mod lcd;
pub mod ppu;
pub mod assembler;
pub mod disassembler;
pub mod debugger;
