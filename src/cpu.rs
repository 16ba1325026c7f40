//! The processor: register file, fetch and decode, execution of every
//! operation of the instruction table, and interrupt dispatch.
use vstd::prelude::*;
use crate::alu::{
    add16_carry, add16_half, add16_value, add8_carry, add8_half, add8_value, daa_result, sub8_carry,
    sub8_half, sub8_value,
};
use crate::instructions::{
    computes_n, lemma_instruction_length, instruction, instruction_at, FlagOp, Instruction, JumpCondition, Location16, Location8, OpData,
    OpJump, Operation,
};
use crate::mmu::{Mmu, MmuView};

verus! {

pub const FLAG_Z: u8 = 0x80;

pub const FLAG_N: u8 = 0x40;

pub const FLAG_H: u8 = 0x20;

pub const FLAG_C: u8 = 0x10;

/// The operand bytes that follow an opcode.
#[derive(Clone, Copy, Debug, PartialEq, Eq, Structural)]
pub enum Immediate {
    Empty,
    Imm8(u8),
    Imm16(u16),
}

/// The processor, which owns the memory map.
pub struct Cpu {
    pub mmu: Mmu,
    pub a: u8,
    pub f: u8,
    pub b: u8,
    pub c: u8,
    pub d: u8,
    pub e: u8,
    pub h: u8,
    pub l: u8,
    pub sp: u16,
    pub pc: u16,
    /// Interrupt master enable.
    pub ie: bool,
    /// Halted until an interrupt is pending.
    pub hlt: bool,
}

/// What a processor holds.
pub struct CpuView {
    pub mmu: MmuView,
    pub a: u8,
    pub f: u8,
    pub b: u8,
    pub c: u8,
    pub d: u8,
    pub e: u8,
    pub h: u8,
    pub l: u8,
    pub sp: u16,
    pub pc: u16,
    pub ie: bool,
    pub hlt: bool,
}

impl View for Cpu {
    type V = CpuView;

    open spec fn view(&self) -> CpuView {
        CpuView {
            mmu: self.mmu@,
            a: self.a,
            f: self.f,
            b: self.b,
            c: self.c,
            d: self.d,
            e: self.e,
            h: self.h,
            l: self.l,
            sp: self.sp,
            pc: self.pc,
            ie: self.ie,
            hlt: self.hlt,
        }
    }
}

/// `x` reduced to 16 bits, for `x` in `-0x10000..0x20000`.
pub open spec fn wrap16(x: int) -> u16 {
    if x >= 65536 {
        (x - 65536) as u16
    } else if x < 0 {
        (x + 65536) as u16
    } else {
        x as u16
    }
}

/// The word with high byte `h` and low byte `l`.
pub open spec fn word_of(h: u8, l: u8) -> u16 {
    (h * 256 + l) as u16
}

/// `o` read as a two's-complement signed byte.
pub open spec fn signed8(o: u8) -> int {
    if o < 128 {
        o as int
    } else {
        o - 256
    }
}

/// `f` with the flag `mask` treated as `policy` says; `value` is what the
/// operation computed for it.
pub open spec fn flag_applied(f: u8, mask: u8, policy: FlagOp, value: bool) -> u8 {
    match policy {
        FlagOp::Unaffected => f,
        FlagOp::SetFlag => f | mask,
        FlagOp::ResetFlag => f & !mask,
        FlagOp::CalculateFlag => if value {
            f | mask
        } else {
            f & !mask
        },
    }
}

/// `f` after the four flag policies of an instruction. N is never computed.
pub open spec fn flags_applied(
    f: u8,
    z: FlagOp,
    n: FlagOp,
    h: FlagOp,
    c: FlagOp,
    zv: bool,
    hv: bool,
    cv: bool,
) -> u8 {
    let f1 = flag_applied(f, FLAG_Z, z, zv);
    let f2 = flag_applied(f1, FLAG_N, n, false);
    let f3 = flag_applied(f2, FLAG_H, h, hv);
    flag_applied(f3, FLAG_C, c, cv)
}

/// The result of an 8-bit operation on destination `d` and source `s`, with
/// its half-carry and carry outputs, under flags `f`.
#[verifier::opaque]
pub open spec fn alu8(op: OpData, d: u8, s: u8, f: u8, bit: u8) -> (u8, bool, bool) {
    let cin: u8 = if f & FLAG_C == 0 {
        0
    } else {
        1
    };
    match op {
        OpData::Adc => (add8_value(d, s, cin), add8_half(d, s, cin), add8_carry(d, s, cin)),
        OpData::Add => (add8_value(d, s, 0), add8_half(d, s, 0), add8_carry(d, s, 0)),
        OpData::And => (s & d, false, false),
        OpData::Bit => (s & bit, false, false),
        OpData::Cp => (sub8_value(d, s, 0), sub8_half(d, s, 0), sub8_carry(d, s, 0)),
        OpData::Cpl => (!d, false, false),
        OpData::Daa => {
            let (r, c) = daa_result(d, f & FLAG_N != 0, f & FLAG_C != 0, f & FLAG_H != 0);
            (r, false, c)
        },
        OpData::Dec => (sub8_value(d, 1, 0), sub8_half(d, 1, 0), sub8_carry(d, 1, 0)),
        OpData::Inc => (add8_value(d, 1, 0), add8_half(d, 1, 0), add8_carry(d, 1, 0)),
        OpData::Ld => (s, false, false),
        OpData::Or => (d | s, false, false),
        OpData::Res => (d & !bit, false, false),
        OpData::Rl => ((d << 1u8) | cin, false, d & 0x80 != 0),
        OpData::Rlc => ((d << 1u8) | (d >> 7u8), false, d & 0x80 != 0),
        OpData::Rr => ((d >> 1u8) | (cin << 7u8), false, d & 1 != 0),
        OpData::Rrc => ((d >> 1u8) | (d << 7u8), false, d & 1 != 0),
        OpData::Sbc => (sub8_value(d, s, cin), sub8_half(d, s, cin), sub8_carry(d, s, cin)),
        OpData::SetBit => (d | bit, false, false),
        OpData::Sla => (d << 1u8, false, d & 0x80 != 0),
        OpData::Sra => ((d >> 1u8) | (d & 0x80), false, d & 1 != 0),
        OpData::Srl => (d >> 1u8, false, d & 1 != 0),
        OpData::Sub => (sub8_value(d, s, 0), sub8_half(d, s, 0), sub8_carry(d, s, 0)),
        OpData::Swap => ((d >> 4u8) | (d << 4u8), false, false),
        OpData::Xor => (d ^ s, false, false),
    }
}

/// The result of a 16-bit operation with its half-carry and carry outputs.
pub open spec fn alu16(op: OpData, d: u16, s: u16) -> (u16, bool, bool) {
    match op {
        OpData::Add => (add16_value(d, s, 0), add16_half(d, s, 0), add16_carry(d, s, 0)),
        OpData::Inc => (add16_value(d, 1, 0), add16_half(d, 1, 0), add16_carry(d, 1, 0)),
        OpData::Dec => (wrap16(d - 1), d % 4096 < 1, d < 1),
        _ => (s, false, false),
    }
}

/// The interrupt vector of the lowest pending source in `pending`.
pub open spec fn interrupt_bit(pending: u8) -> u8 {
    if pending & 0x01 != 0 {
        0x01
    } else if pending & 0x02 != 0 {
        0x02
    } else if pending & 0x04 != 0 {
        0x04
    } else if pending & 0x08 != 0 {
        0x08
    } else {
        0x10
    }
}

/// The vector that serves the interrupt source `bit`.
pub open spec fn interrupt_vector(bit: u8) -> u8 {
    if bit == 0x01 {
        0x40
    } else if bit == 0x02 {
        0x48
    } else if bit == 0x04 {
        0x50
    } else if bit == 0x08 {
        0x58
    } else {
        0x60
    }
}

impl CpuView {
    pub open spec fn wf(self) -> bool {
        self.mmu.wf() && self.f & 0x0f == 0
    }

    pub open spec fn hl(self) -> u16 {
        word_of(self.h, self.l)
    }

    pub open spec fn with_hl(self, v: u16) -> CpuView {
        CpuView { h: (v / 256) as u8, l: (v % 256) as u8, ..self }
    }

    /// The byte at an 8-bit operand site.
    pub open spec fn read8(self, loc: Location8, imm: Immediate) -> u8 {
        match loc {
            Location8::Empty => 0,
            Location8::A | Location8::ARo => self.a,
            Location8::B => self.b,
            Location8::C => self.c,
            Location8::D => self.d,
            Location8::E => self.e,
            Location8::H => self.h,
            Location8::L => self.l,
            Location8::Imm8 => match imm {
                Immediate::Imm8(i) => i,
                _ => 0,
            },
            Location8::AddrBC => self.mmu.read(word_of(self.b, self.c)),
            Location8::AddrDE => self.mmu.read(word_of(self.d, self.e)),
            Location8::AddrHL | Location8::AddrHLInc | Location8::AddrHLDec => self.mmu.read(
                self.hl(),
            ),
            Location8::AddrImm16 => match imm {
                Immediate::Imm16(a) => self.mmu.read(a),
                _ => 0,
            },
            Location8::AddrC => self.mmu.read(word_of(0xff, self.c)),
            Location8::AddrImm8 => match imm {
                Immediate::Imm8(i) => self.mmu.read(word_of(0xff, i)),
                _ => 0,
            },
        }
    }

    /// The processor after `value` is stored at an 8-bit operand site.
    pub open spec fn write8(self, loc: Location8, imm: Immediate, value: u8) -> CpuView {
        match loc {
            Location8::A => CpuView { a: value, ..self },
            Location8::B => CpuView { b: value, ..self },
            Location8::C => CpuView { c: value, ..self },
            Location8::D => CpuView { d: value, ..self },
            Location8::E => CpuView { e: value, ..self },
            Location8::H => CpuView { h: value, ..self },
            Location8::L => CpuView { l: value, ..self },
            Location8::AddrBC => CpuView {
                mmu: self.mmu.write(word_of(self.b, self.c), value),
                ..self
            },
            Location8::AddrDE => CpuView {
                mmu: self.mmu.write(word_of(self.d, self.e), value),
                ..self
            },
            Location8::AddrHL | Location8::AddrHLInc | Location8::AddrHLDec => CpuView {
                mmu: self.mmu.write(self.hl(), value),
                ..self
            },
            Location8::AddrImm16 => match imm {
                Immediate::Imm16(a) => CpuView { mmu: self.mmu.write(a, value), ..self },
                _ => self,
            },
            Location8::AddrC => CpuView { mmu: self.mmu.write(word_of(0xff, self.c), value), ..self },
            Location8::AddrImm8 => match imm {
                Immediate::Imm8(i) => CpuView { mmu: self.mmu.write(word_of(0xff, i), value), ..self },
                _ => self,
            },
            _ => self,
        }
    }

    /// The word at a 16-bit operand site.
    pub open spec fn read16(self, loc: Location16, imm: Immediate) -> u16 {
        match loc {
            Location16::AF => word_of(self.a, self.f),
            Location16::BC => word_of(self.b, self.c),
            Location16::DE => word_of(self.d, self.e),
            Location16::HL => self.hl(),
            Location16::SP => self.sp,
            Location16::Imm16 => match imm {
                Immediate::Imm16(i) => i,
                _ => 0,
            },
            Location16::AddrSPInc => word_of(
                self.mmu.read(wrap16(self.sp + 1)),
                self.mmu.read(self.sp),
            ),
            Location16::AddrImm16 => match imm {
                Immediate::Imm16(a) => word_of(self.mmu.read(wrap16(a + 1)), self.mmu.read(a)),
                _ => 0,
            },
            _ => 0,
        }
    }

    /// The processor after `value` is stored at a 16-bit operand site; the low
    /// nibble of F stays zero.
    pub open spec fn write16(self, loc: Location16, imm: Immediate, value: u16) -> CpuView {
        let vh = (value / 256) as u8;
        let vl = (value % 256) as u8;
        match loc {
            Location16::AF => CpuView { a: vh, f: vl & 0xf0, ..self },
            Location16::BC => CpuView { b: vh, c: vl, ..self },
            Location16::DE => CpuView { d: vh, e: vl, ..self },
            Location16::HL => CpuView { h: vh, l: vl, ..self },
            Location16::SP => CpuView { sp: value, ..self },
            Location16::AddrSPDec => CpuView {
                mmu: self.mmu.write(wrap16(self.sp - 1), vh).write(wrap16(self.sp - 2), vl),
                ..self
            },
            Location16::AddrImm16 => match imm {
                Immediate::Imm16(a) => CpuView {
                    mmu: self.mmu.write(wrap16(a + 1), vh).write(a, vl),
                    ..self
                },
                _ => self,
            },
            _ => self,
        }
    }

    pub open spec fn condition_satisfied(self, cond: JumpCondition) -> bool {
        match cond {
            JumpCondition::Always => true,
            JumpCondition::C => self.f & FLAG_C != 0,
            JumpCondition::NC => self.f & FLAG_C == 0,
            JumpCondition::Z => self.f & FLAG_Z != 0,
            JumpCondition::NZ => self.f & FLAG_Z == 0,
        }
    }

    /// The processor after an 8-bit data operation.
    pub open spec fn data8(
        self,
        op: OpData,
        dst: Location8,
        src: Location8,
        z: FlagOp,
        n: FlagOp,
        h: FlagOp,
        c: FlagOp,
        bit: u8,
        imm: Immediate,
    ) -> CpuView {
        let s = self.read8(src, imm);
        let d = self.read8(dst, imm);
        let (r, hv, cv) = alu8(op, d, s, self.f, bit);
        let v1 = CpuView { f: flags_applied(self.f, z, n, h, c, r == 0, hv, cv), ..self };
        let v2 = v1.write8(dst, imm, r);
        let v3 = if src == Location8::AddrHLInc || dst == Location8::AddrHLInc {
            v2.with_hl(wrap16(v2.hl() + 1))
        } else {
            v2
        };
        if src == Location8::AddrHLDec || dst == Location8::AddrHLDec {
            v3.with_hl(wrap16(v3.hl() - 1))
        } else {
            v3
        }
    }

    /// The processor after a 16-bit data operation.
    pub open spec fn data16(
        self,
        op: OpData,
        dst: Location16,
        src: Location16,
        z: FlagOp,
        n: FlagOp,
        h: FlagOp,
        c: FlagOp,
        imm: Immediate,
    ) -> CpuView {
        let s = self.read16(src, imm);
        let d = self.read16(dst, imm);
        let (r, hv, cv) = alu16(op, d, s);
        let v1 = CpuView { f: flags_applied(self.f, z, n, h, c, r == 0, hv, cv), ..self };
        let v2 = v1.write16(dst, imm, r);
        let v3 = if src == Location16::AddrSPInc {
            CpuView { sp: wrap16(v2.sp + 2), ..v2 }
        } else {
            v2
        };
        if dst == Location16::AddrSPDec {
            CpuView { sp: wrap16(v3.sp - 2), ..v3 }
        } else {
            v3
        }
    }

    /// The processor after `value` is pushed on the stack, high byte first.
    pub open spec fn push(self, value: u16) -> CpuView {
        let sp1 = wrap16(self.sp - 1);
        let sp2 = wrap16(self.sp - 2);
        CpuView {
            sp: sp2,
            mmu: self.mmu.write(sp1, (value / 256) as u8).write(sp2, (value % 256) as u8),
            ..self
        }
    }

    /// The target of a control transfer.
    pub open spec fn jump_target(self, op: OpJump, rst_target: u8, imm: Immediate) -> u16 {
        match imm {
            Immediate::Imm16(a) => a,
            Immediate::Imm8(o) => wrap16(self.pc + signed8(o)),
            Immediate::Empty => if op == OpJump::Jp {
                self.hl()
            } else {
                rst_target as u16
            },
        }
    }

    /// The processor after a control transfer is taken.
    pub open spec fn jump(self, op: OpJump, rst_target: u8, imm: Immediate) -> CpuView {
        let addr = self.jump_target(op, rst_target, imm);
        match op {
            OpJump::Jp | OpJump::Jr => CpuView { pc: addr, ..self },
            OpJump::Call | OpJump::Rst => CpuView { pc: addr, ..self.push(self.pc) },
            OpJump::Ret | OpJump::Reti => {
                let lo = self.mmu.read(self.sp);
                let hi = self.mmu.read(wrap16(self.sp + 1));
                CpuView {
                    sp: wrap16(self.sp + 2),
                    pc: word_of(hi, lo),
                    ie: if op == OpJump::Reti {
                        true
                    } else {
                        self.ie
                    },
                    ..self
                }
            },
        }
    }

    /// The processor after SP plus a signed byte is stored at `dst`; H and C
    /// come from the unsigned addition of the low byte of SP and the byte.
    pub open spec fn sp_imm8(self, dst: Location16, imm: Immediate) -> CpuView {
        let o: u8 = match imm {
            Immediate::Imm8(i) => i,
            _ => 0,
        };
        let cf: u8 = if self.sp % 256 + o > 255 {
            FLAG_C
        } else {
            0
        };
        let hf: u8 = if self.sp % 16 + o % 16 > 15 {
            FLAG_H
        } else {
            0
        };
        CpuView { f: cf | hf, ..self }.write16(dst, imm, wrap16(self.sp + signed8(o)))
    }

    /// The opcode at PC, fetched and decoded: the processor with PC past the
    /// instruction, the table entry, and the operand bytes.
    pub open spec fn fetch_decode(self) -> (CpuView, Instruction, Immediate) {
        let op = self.mmu.read(self.pc);
        let first = instruction_at(op as int);
        let b1 = self.mmu.read(wrap16(self.pc + 1));
        if first.operation == Operation::Prefix {
            (CpuView { pc: wrap16(self.pc + 2), ..self }, instruction_at(256 + b1), Immediate::Empty)
        } else if first.length == 1 {
            (CpuView { pc: wrap16(self.pc + 1), ..self }, first, Immediate::Empty)
        } else if first.length == 2 {
            (CpuView { pc: wrap16(self.pc + 2), ..self }, first, Immediate::Imm8(b1))
        } else {
            let b2 = self.mmu.read(wrap16(self.pc + 2));
            (CpuView { pc: wrap16(self.pc + 3), ..self }, first, Immediate::Imm16(word_of(b2, b1)))
        }
    }

    /// The processor after it executes a decoded instruction, and the cycles
    /// that took.
    pub open spec fn execute(self, instr: Instruction, imm: Immediate) -> (CpuView, int) {
        match instr.operation {
            Operation::Data16 { op, dst, src, z, n, h, c } => (
                self.data16(op, dst, src, z, n, h, c, imm),
                instr.cycles as int,
            ),
            Operation::Data8 { op, dst, src, z, n, h, c, bit } => (
                self.data8(op, dst, src, z, n, h, c, bit, imm),
                instr.cycles as int,
            ),
            Operation::Jump { op, cond, rst_target } => if self.condition_satisfied(cond) {
                (self.jump(op, rst_target, imm), instr.cycles as int)
            } else {
                (self, instr.cycles_nj as int)
            },
            Operation::SpImm8 { dst } => (self.sp_imm8(dst, imm), instr.cycles as int),
            Operation::Scf => (
                CpuView { f: (self.f & !FLAG_H & !FLAG_N) | FLAG_C, ..self },
                instr.cycles as int,
            ),
            Operation::Ccf => (
                CpuView { f: (self.f & !FLAG_H & !FLAG_N) ^ FLAG_C, ..self },
                instr.cycles as int,
            ),
            Operation::Di => (CpuView { ie: false, ..self }, instr.cycles as int),
            Operation::Ei => (CpuView { ie: true, ..self }, instr.cycles as int),
            Operation::Halt | Operation::Stop => (
                CpuView { hlt: true, ..self },
                instr.cycles as int,
            ),
            _ => (self, instr.cycles as int),
        }
    }

    /// The interrupt bits that are both enabled (IE) and requested (IF).
    pub open spec fn pending(self) -> u8 {
        self.mmu.read(0xffff) & self.mmu.read(0xff0f)
    }

    /// Interrupt handling at the end of a step that took `cycles`: any
    /// pending bit ends a halt; with IME set the lowest pending one of the
    /// five sources (bits 0 to 4) is served.
    pub open spec fn service_interrupts(self, cycles: int) -> (CpuView, int) {
        let pending = self.pending() & 0x1f;
        if self.pending() == 0 {
            (self, cycles)
        } else if !self.ie || pending == 0 {
            (CpuView { hlt: false, ..self }, cycles)
        } else {
            let bit = interrupt_bit(pending);
            let v = CpuView {
                hlt: false,
                ie: false,
                mmu: self.mmu.write(0xff0f, self.mmu.read(0xff0f) & !bit),
                ..self
            };
            (v.jump(OpJump::Rst, interrupt_vector(bit), Immediate::Empty), cycles + 20)
        }
    }

    /// Whether the next step executes a defined opcode (or idles, halted).
    pub open spec fn can_step(self) -> bool {
        self.hlt || self.fetch_decode().1.operation != Operation::Undef
    }

    /// One step: the processor after it, and the cycles it took.
    pub open spec fn step(self) -> (CpuView, int) {
        if self.hlt {
            self.service_interrupts(4)
        } else {
            let (v1, instr, imm) = self.fetch_decode();
            let (v2, cycles) = v1.execute(instr, imm);
            v2.service_interrupts(cycles)
        }
    }
}

fn flag_apply(f: u8, mask: u8, policy: FlagOp, value: bool) -> (r: u8)
    ensures
        r == flag_applied(f, mask, policy, value),
{
    match policy {
        FlagOp::Unaffected => f,
        FlagOp::SetFlag => f | mask,
        FlagOp::ResetFlag => f & !mask,
        FlagOp::CalculateFlag => if value {
            f | mask
        } else {
            f & !mask
        },
    }
}

fn flags_apply(f: u8, z: FlagOp, n: FlagOp, h: FlagOp, c: FlagOp, zv: bool, hv: bool, cv: bool) -> (r: u8)
    ensures
        r == flags_applied(f, z, n, h, c, zv, hv, cv),
{
    let f1 = flag_apply(f, FLAG_Z, z, zv);
    let f2 = flag_apply(f1, FLAG_N, n, false);
    let f3 = flag_apply(f2, FLAG_H, h, hv);
    flag_apply(f3, FLAG_C, c, cv)
}

/// The word with high byte `h` and low byte `l`.
pub fn word(h: u8, l: u8) -> (r: u16)
    ensures
        r == word_of(h, l),
        r == h * 256 + l,
{
    (h as u16) * 256 + (l as u16)
}

fn signed_offset(pc: u16, o: u8) -> (r: u16)
    ensures
        r == wrap16(pc + signed8(o)),
{
    if o < 128 {
        pc.wrapping_add(o as u16)
    } else {
        pc.wrapping_sub(256 - o as u16)
    }
}

fn alu8_exec(op: OpData, d: u8, s: u8, f: u8, bit: u8) -> (r: (u8, bool, bool))
    ensures
        r == alu8(op, d, s, f, bit),
{
    proof {
        reveal(alu8);
    }
        let c_in: u8 = if f & FLAG_C == 0 {
            0
        } else {
            1
        };
        let mut hf_out = false;
        let mut cf_out = false;
        let r = match op {
            OpData::Adc => crate::alu::add(d, s, c_in, &mut cf_out, &mut hf_out),
            OpData::Add => crate::alu::add(d, s, 0, &mut cf_out, &mut hf_out),
            OpData::And => s & d,
            OpData::Bit => s & bit,
            OpData::Cp => crate::alu::sub(d, s, 0, &mut cf_out, &mut hf_out),
            OpData::Cpl => !d,
            OpData::Daa => crate::alu::daa(
                d,
                f & FLAG_N != 0,
                f & FLAG_C != 0,
                f & FLAG_H != 0,
                &mut cf_out,
            ),
            OpData::Dec => crate::alu::sub(d, 1, 0, &mut cf_out, &mut hf_out),
            OpData::Inc => crate::alu::add(d, 1, 0, &mut cf_out, &mut hf_out),
            OpData::Ld => s,
            OpData::Or => d | s,
            OpData::Res => d & !bit,
            OpData::Rl => {
                cf_out = d & 0x80 != 0;
                (d << 1u8) | c_in
            },
            OpData::Rlc => {
                cf_out = d & 0x80 != 0;
                (d << 1u8) | (d >> 7u8)
            },
            OpData::Rr => {
                cf_out = d & 1 != 0;
                (d >> 1u8) | (c_in << 7u8)
            },
            OpData::Rrc => {
                cf_out = d & 1 != 0;
                (d >> 1u8) | (d << 7u8)
            },
            OpData::Sbc => crate::alu::sub(d, s, c_in, &mut cf_out, &mut hf_out),
            OpData::SetBit => d | bit,
            OpData::Sla => {
                cf_out = d & 0x80 != 0;
                d << 1u8
            },
            OpData::Sra => {
                cf_out = d & 1 != 0;
                (d >> 1u8) | (d & 0x80)
            },
            OpData::Srl => {
                cf_out = d & 1 != 0;
                d >> 1u8
            },
            OpData::Sub => crate::alu::sub(d, s, 0, &mut cf_out, &mut hf_out),
            OpData::Swap => (d >> 4u8) | (d << 4u8),
            OpData::Xor => d ^ s,
        };
    (r, hf_out, cf_out)
}

fn alu16_exec(op: OpData, d: u16, s: u16) -> (r: (u16, bool, bool))
    ensures
        r == alu16(op, d, s),
{
        let mut hf_out = false;
        let mut cf_out = false;
        let r = match op {
            OpData::Add => crate::alu::add16(d, s, 0, &mut cf_out, &mut hf_out),
            OpData::Dec => crate::alu::sub16(d, 1, 0, &mut cf_out, &mut hf_out),
            OpData::Inc => crate::alu::add16(d, 1, 0, &mut cf_out, &mut hf_out),
            _ => s,
        };
    (r, hf_out, cf_out)
}

impl Cpu {
    pub open spec fn wf(&self) -> bool {
        self@.wf()
    }

    /// A processor with every register zero, interrupts disabled, running.
    pub fn new(mmu: Mmu) -> (r: Cpu)
        ensures
            r@ == (CpuView {
                mmu: mmu@,
                a: 0,
                f: 0,
                b: 0,
                c: 0,
                d: 0,
                e: 0,
                h: 0,
                l: 0,
                sp: 0,
                pc: 0,
                ie: false,
                hlt: false,
            }),
    {
        Cpu { mmu, a: 0, f: 0, b: 0, c: 0, d: 0, e: 0, h: 0, l: 0, sp: 0, pc: 0, ie: false, hlt: false }
    }

    fn fetch(&mut self) -> (r: u8)
        requires
            old(self).mmu.wf(),
        ensures
            r == old(self)@.mmu.read(old(self).pc),
            final(self).mmu.wf(),
            final(self)@.mmu.memory[0xff44] == old(self)@.mmu.memory[0xff44],
            final(self)@ == (CpuView { pc: wrap16(old(self).pc + 1), ..old(self)@ }),
    {
        let val = self.mmu.read(self.pc);
        self.pc = self.pc.wrapping_add(1);
        val
    }

    /// Reads the opcode at PC (and the second byte after a `CB` prefix) and
    /// its operand bytes; PC moves past them.
    pub fn fetch_and_decode(&mut self) -> (r: (Instruction, Immediate))
        requires
            old(self).mmu.wf(),
        ensures
            (final(self)@, r.0, r.1) == old(self)@.fetch_decode(),
            final(self).mmu.wf(),
            final(self)@.mmu.memory[0xff44] == old(self)@.mmu.memory[0xff44],
            4 <= r.0.cycles <= 24,
            4 <= r.0.cycles_nj <= 24,
            !computes_n(r.0.operation),
    {
        let first = instruction(self.fetch() as u16);
        if first.operation == Operation::Prefix {
            let second = instruction(self.fetch() as u16 + 256);
            (second, Immediate::Empty)
        } else if first.length == 1 {
            (first, Immediate::Empty)
        } else if first.length == 2 {
            let b1 = self.fetch();
            (first, Immediate::Imm8(b1))
        } else {
            let l = self.fetch();
            let h = self.fetch();
            (first, Immediate::Imm16(word(h, l)))
        }
    }

    fn condition_satisfied(&self, cond: JumpCondition) -> (r: bool)
        ensures
            r == self@.condition_satisfied(cond),
    {
        match cond {
            JumpCondition::Always => true,
            JumpCondition::C => self.f & FLAG_C != 0,
            JumpCondition::NC => self.f & FLAG_C == 0,
            JumpCondition::Z => self.f & FLAG_Z != 0,
            JumpCondition::NZ => self.f & FLAG_Z == 0,
        }
    }

    fn push(&mut self, value: u16)
        requires
            old(self).mmu.wf(),
        ensures
            final(self)@ == old(self)@.push(value),
            final(self).mmu.wf(),
            final(self)@.mmu.memory[0xff44] == old(self)@.mmu.memory[0xff44],
    {
        self.sp = self.sp.wrapping_sub(1);
        self.mmu.write(self.sp, (value / 256) as u8);
        self.sp = self.sp.wrapping_sub(1);
        self.mmu.write(self.sp, (value % 256) as u8);
    }

    fn jump(&mut self, op: OpJump, rst_target: u8, imm: Immediate)
        requires
            old(self).mmu.wf(),
        ensures
            final(self)@ == old(self)@.jump(op, rst_target, imm),
            final(self).mmu.wf(),
            final(self)@.mmu.memory[0xff44] == old(self)@.mmu.memory[0xff44],
    {
        let addr = match imm {
            Immediate::Imm16(a) => a,
            Immediate::Imm8(o) => signed_offset(self.pc, o),
            Immediate::Empty => if op == OpJump::Jp {
                word(self.h, self.l)
            } else {
                rst_target as u16
            },
        };
        match op {
            OpJump::Jp | OpJump::Jr => {
                self.pc = addr;
            },
            OpJump::Call | OpJump::Rst => {
                let pc = self.pc;
                self.push(pc);
                self.pc = addr;
            },
            OpJump::Ret | OpJump::Reti => {
                let pcl = self.mmu.read(self.sp);
                self.sp = self.sp.wrapping_add(1);
                let pch = self.mmu.read(self.sp);
                self.sp = self.sp.wrapping_add(1);
                self.pc = word(pch, pcl);
                if op == OpJump::Reti {
                    self.ie = true;
                }
            },
        }
    }

    fn readloc8(&self, loc: Location8, imm: Immediate) -> (r: u8)
        requires
            self.mmu.wf(),
        ensures
            r == self@.read8(loc, imm),
    {
        match loc {
            Location8::Empty => 0,
            Location8::A | Location8::ARo => self.a,
            Location8::B => self.b,
            Location8::C => self.c,
            Location8::D => self.d,
            Location8::E => self.e,
            Location8::H => self.h,
            Location8::L => self.l,
            Location8::Imm8 => match imm {
                Immediate::Imm8(i) => i,
                _ => 0,
            },
            Location8::AddrBC => self.mmu.read(word(self.b, self.c)),
            Location8::AddrDE => self.mmu.read(word(self.d, self.e)),
            Location8::AddrHL | Location8::AddrHLInc | Location8::AddrHLDec => self.mmu.read(
                word(self.h, self.l),
            ),
            Location8::AddrImm16 => match imm {
                Immediate::Imm16(a) => self.mmu.read(a),
                _ => 0,
            },
            Location8::AddrC => self.mmu.read(word(0xff, self.c)),
            Location8::AddrImm8 => match imm {
                Immediate::Imm8(i) => self.mmu.read(word(0xff, i)),
                _ => 0,
            },
        }
    }

    fn writeloc8(&mut self, loc: Location8, imm: Immediate, value: u8)
        requires
            old(self).mmu.wf(),
        ensures
            final(self)@ == old(self)@.write8(loc, imm, value),
            final(self).mmu.wf(),
            final(self)@.mmu.memory[0xff44] == old(self)@.mmu.memory[0xff44],
    {
        match loc {
            Location8::A => {
                self.a = value;
            },
            Location8::B => {
                self.b = value;
            },
            Location8::C => {
                self.c = value;
            },
            Location8::D => {
                self.d = value;
            },
            Location8::E => {
                self.e = value;
            },
            Location8::H => {
                self.h = value;
            },
            Location8::L => {
                self.l = value;
            },
            Location8::AddrBC => {
                let a = word(self.b, self.c);
                self.mmu.write(a, value);
            },
            Location8::AddrDE => {
                let a = word(self.d, self.e);
                self.mmu.write(a, value);
            },
            Location8::AddrHL | Location8::AddrHLInc | Location8::AddrHLDec => {
                let a = word(self.h, self.l);
                self.mmu.write(a, value);
            },
            Location8::AddrImm16 => match imm {
                Immediate::Imm16(a) => self.mmu.write(a, value),
                _ => {},
            },
            Location8::AddrC => {
                let a = word(0xff, self.c);
                self.mmu.write(a, value);
            },
            Location8::AddrImm8 => match imm {
                Immediate::Imm8(i) => self.mmu.write(word(0xff, i), value),
                _ => {},
            },
            _ => {},
        }
    }

    fn set_hl(&mut self, v: u16)
        ensures
            final(self)@ == old(self)@.with_hl(v),
            final(self).mmu == old(self).mmu,
    {
        self.h = (v / 256) as u8;
        self.l = (v % 256) as u8;
    }

    #[verifier::rlimit(60)]
    fn data8(
        &mut self,
        op: OpData,
        dst: Location8,
        src: Location8,
        z: FlagOp,
        n: FlagOp,
        h: FlagOp,
        c: FlagOp,
        bit: u8,
        imm: Immediate,
    )
        requires
            old(self).mmu.wf(),
            n != FlagOp::CalculateFlag,
        ensures
            final(self)@ == old(self)@.data8(op, dst, src, z, n, h, c, bit, imm),
            final(self).mmu.wf(),
            final(self)@.mmu.memory[0xff44] == old(self)@.mmu.memory[0xff44],
    {
        let s = self.readloc8(src, imm);
        let d = self.readloc8(dst, imm);
        let (r, hf_out, cf_out) = alu8_exec(op, d, s, self.f, bit);
        let ghost v0 = self@;
        self.f = flags_apply(self.f, z, n, h, c, r == 0, hf_out, cf_out);
        let ghost v1 = self@;
        assert(v1 == CpuView { f: flags_applied(v0.f, z, n, h, c, r == 0, hf_out, cf_out), ..v0 });
        self.writeloc8(dst, imm, r);
        let ghost v2 = self@;
        if src == Location8::AddrHLInc || dst == Location8::AddrHLInc {
            let v = word(self.h, self.l).wrapping_add(1);
            self.set_hl(v);
        }
        let ghost v3 = self@;
        assert(v3 == if src == Location8::AddrHLInc || dst == Location8::AddrHLInc {
            v2.with_hl(wrap16(v2.hl() + 1))
        } else {
            v2
        });
        if src == Location8::AddrHLDec || dst == Location8::AddrHLDec {
            let v = word(self.h, self.l).wrapping_sub(1);
            self.set_hl(v);
        }
    }

    fn readloc16(&self, loc: Location16, imm: Immediate) -> (r: u16)
        requires
            self.mmu.wf(),
        ensures
            r == self@.read16(loc, imm),
    {
        match loc {
            Location16::AF => word(self.a, self.f),
            Location16::BC => word(self.b, self.c),
            Location16::DE => word(self.d, self.e),
            Location16::HL => word(self.h, self.l),
            Location16::SP => self.sp,
            Location16::Imm16 => match imm {
                Immediate::Imm16(i) => i,
                _ => 0,
            },
            Location16::AddrSPInc => word(
                self.mmu.read(self.sp.wrapping_add(1)),
                self.mmu.read(self.sp),
            ),
            Location16::AddrImm16 => match imm {
                Immediate::Imm16(a) => word(self.mmu.read(a.wrapping_add(1)), self.mmu.read(a)),
                _ => 0,
            },
            _ => 0,
        }
    }

    fn writeloc16(&mut self, loc: Location16, imm: Immediate, value: u16)
        requires
            old(self).mmu.wf(),
        ensures
            final(self)@ == old(self)@.write16(loc, imm, value),
            final(self).mmu.wf(),
            final(self)@.mmu.memory[0xff44] == old(self)@.mmu.memory[0xff44],
    {
        let vh = (value / 256) as u8;
        let vl = (value % 256) as u8;
        match loc {
            Location16::AF => {
                self.a = vh;
                self.f = vl & 0xf0;
            },
            Location16::BC => {
                self.b = vh;
                self.c = vl;
            },
            Location16::DE => {
                self.d = vh;
                self.e = vl;
            },
            Location16::HL => {
                self.h = vh;
                self.l = vl;
            },
            Location16::SP => {
                self.sp = value;
            },
            Location16::AddrSPDec => {
                self.mmu.write(self.sp.wrapping_sub(1), vh);
                self.mmu.write(self.sp.wrapping_sub(2), vl);
            },
            Location16::AddrImm16 => match imm {
                Immediate::Imm16(a) => {
                    self.mmu.write(a.wrapping_add(1), vh);
                    self.mmu.write(a, vl);
                },
                _ => {},
            },
            _ => {},
        }
    }

    #[verifier::rlimit(60)]
    fn data16(
        &mut self,
        op: OpData,
        dst: Location16,
        src: Location16,
        z: FlagOp,
        n: FlagOp,
        h: FlagOp,
        c: FlagOp,
        imm: Immediate,
    )
        requires
            old(self).mmu.wf(),
            n != FlagOp::CalculateFlag,
        ensures
            final(self)@ == old(self)@.data16(op, dst, src, z, n, h, c, imm),
            final(self).mmu.wf(),
            final(self)@.mmu.memory[0xff44] == old(self)@.mmu.memory[0xff44],
    {
        let s = self.readloc16(src, imm);
        let d = self.readloc16(dst, imm);
        let (r, hf_out, cf_out) = alu16_exec(op, d, s);
        self.f = flags_apply(self.f, z, n, h, c, r == 0, hf_out, cf_out);
        self.writeloc16(dst, imm, r);
        if src == Location16::AddrSPInc {
            self.sp = self.sp.wrapping_add(2);
        }
        if dst == Location16::AddrSPDec {
            self.sp = self.sp.wrapping_sub(2);
        }
    }

    fn sp_imm8(&mut self, dst: Location16, imm: Immediate)
        requires
            old(self).mmu.wf(),
        ensures
            final(self)@ == old(self)@.sp_imm8(dst, imm),
            final(self).mmu.wf(),
            final(self)@.mmu.memory[0xff44] == old(self)@.mmu.memory[0xff44],
    {
        let o: u8 = match imm {
            Immediate::Imm8(i) => i,
            _ => 0,
        };
        let low = self.sp % 256;
        let cf: u8 = if low + o as u16 > 255 {
            FLAG_C
        } else {
            0
        };
        let hf: u8 = if self.sp % 16 + (o % 16) as u16 > 15 {
            FLAG_H
        } else {
            0
        };
        self.f = cf | hf;
        let r = signed_offset(self.sp, o);
        self.writeloc16(dst, imm, r);
    }

    fn service_interrupts(&mut self, cycles: isize) -> (r: isize)
        requires
            old(self).mmu.wf(),
            0 <= cycles <= 1000,
        ensures
            (final(self)@, r as int) == old(self)@.service_interrupts(cycles as int),
            final(self).mmu.wf(),
            final(self)@.mmu.memory[0xff44] == old(self)@.mmu.memory[0xff44],
            cycles <= r <= cycles + 20,
    {
        let raised = self.mmu.read(0xffff) & self.mmu.read(0xff0f);
        let pending = raised & 0x1f;
        if raised == 0 {
            cycles
        } else if !self.ie || pending == 0 {
            self.hlt = false;
            cycles
        } else {
            self.hlt = false;
            self.ie = false;
            let bit: u8 = if pending & 0x01 != 0 {
                0x01
            } else if pending & 0x02 != 0 {
                0x02
            } else if pending & 0x04 != 0 {
                0x04
            } else if pending & 0x08 != 0 {
                0x08
            } else {
                0x10
            };
            let target: u8 = if bit == 0x01 {
                0x40
            } else if bit == 0x02 {
                0x48
            } else if bit == 0x04 {
                0x50
            } else if bit == 0x08 {
                0x58
            } else {
                0x60
            };
            let flags = self.mmu.read(0xff0f) & !bit;
            self.mmu.write(0xff0f, flags);
            self.jump(OpJump::Rst, target, Immediate::Empty);
            cycles + 20
        }
    }

    /// Whether the next step executes a defined opcode (or idles, halted).
    pub fn can_step(&self) -> (r: bool)
        requires
            self.wf(),
        ensures
            r == self@.can_step(),
    {
        if self.hlt {
            return true;
        }
        let op = self.mmu.read(self.pc);
        let first = instruction(op as u16);
        if first.operation == Operation::Prefix {
            true
        } else {
            first.operation != Operation::Undef
        }
    }

    /// Executes one instruction (or idles 4 cycles when halted), then handles
    /// interrupts; returns the cycles consumed.
    pub fn step(&mut self) -> (cycles: isize)
        requires
            old(self).wf(),
            old(self)@.can_step(),
        ensures
            (final(self)@, cycles as int) == old(self)@.step(),
            final(self).wf(),
            4 <= cycles <= 44,
            final(self)@.mmu.memory[0xff44] == old(self)@.mmu.memory[0xff44],
    {
        let mut cycles: isize = 0;
        if self.hlt {
            cycles = 4;
        } else {
            let (instr, imm) = self.fetch_and_decode();
            match instr.operation {
                Operation::Data16 { op, dst, src, z, n, h, c } => self.data16(
                    op,
                    dst,
                    src,
                    z,
                    n,
                    h,
                    c,
                    imm,
                ),
                Operation::Data8 { op, dst, src, z, n, h, c, bit } => self.data8(
                    op,
                    dst,
                    src,
                    z,
                    n,
                    h,
                    c,
                    bit,
                    imm,
                ),
                Operation::Jump { op, cond, rst_target } => if self.condition_satisfied(cond) {
                    self.jump(op, rst_target, imm)
                } else {
                    cycles = instr.cycles_nj as isize - instr.cycles as isize;
                },
                Operation::SpImm8 { dst } => self.sp_imm8(dst, imm),
                Operation::Scf => {
                    self.f = (self.f & !FLAG_H & !FLAG_N) | FLAG_C;
                },
                Operation::Ccf => {
                    self.f = (self.f & !FLAG_H & !FLAG_N) ^ FLAG_C;
                },
                Operation::Di => {
                    self.ie = false;
                },
                Operation::Ei => {
                    self.ie = true;
                },
                Operation::Halt | Operation::Stop => {
                    self.hlt = true;
                },
                _ => {},
            }
            cycles = cycles + instr.cycles as isize;
        }
        proof {
            lemma_step_nibble(old(self)@);
        }
        self.service_interrupts(cycles)
    }
}

proof fn lemma_nibble_ops(f: u8)
    by (bit_vector)
    requires
        f & 0x0f == 0,
    ensures
        (f | 0x80) & 0x0f == 0,
        (f | 0x40) & 0x0f == 0,
        (f | 0x20) & 0x0f == 0,
        (f | 0x10) & 0x0f == 0,
        (f & !0x80u8) & 0x0f == 0,
        (f & !0x40u8) & 0x0f == 0,
        (f & !0x20u8) & 0x0f == 0,
        (f & !0x10u8) & 0x0f == 0,
        ((f & !0x20u8 & !0x40u8) | 0x10) & 0x0f == 0,
        ((f & !0x20u8 & !0x40u8) ^ 0x10) & 0x0f == 0,
{
}

proof fn lemma_nibble_consts(x: u8)
    by (bit_vector)
    ensures
        (x & 0xf0) & 0x0f == 0,
        (0x10u8 | 0x20u8) & 0x0f == 0,
        (0x10u8 | 0u8) & 0x0f == 0,
        (0u8 | 0x20u8) & 0x0f == 0,
        (0u8 | 0u8) & 0x0f == 0,
{
}

proof fn lemma_flags_applied_nibble(
    f: u8,
    z: FlagOp,
    n: FlagOp,
    h: FlagOp,
    c: FlagOp,
    zv: bool,
    hv: bool,
    cv: bool,
)
    requires
        f & 0x0f == 0,
    ensures
        flags_applied(f, z, n, h, c, zv, hv, cv) & 0x0f == 0,
{
    lemma_nibble_ops(f);
    let f1 = flag_applied(f, FLAG_Z, z, zv);
    lemma_nibble_ops(f1);
    let f2 = flag_applied(f1, FLAG_N, n, false);
    lemma_nibble_ops(f2);
    let f3 = flag_applied(f2, FLAG_H, h, hv);
    lemma_nibble_ops(f3);
}

proof fn lemma_write16_nibble(v: CpuView, loc: Location16, imm: Immediate, value: u16)
    requires
        v.f & 0x0f == 0,
    ensures
        v.write16(loc, imm, value).f & 0x0f == 0,
{
    lemma_nibble_consts((value % 256) as u8);
}

#[verifier::rlimit(60)]
proof fn lemma_execute_nibble(v1: CpuView, instr: Instruction, imm: Immediate)
    requires
        v1.f & 0x0f == 0,
    ensures
        v1.execute(instr, imm).0.f & 0x0f == 0,
{
    lemma_nibble_ops(v1.f);
    match instr.operation {
        Operation::Data16 { op, dst, src, z, n, h, c } => {
            let s = v1.read16(src, imm);
            let d = v1.read16(dst, imm);
            let (r, hv, cv) = alu16(op, d, s);
            lemma_flags_applied_nibble(v1.f, z, n, h, c, r == 0, hv, cv);
            let w = CpuView { f: flags_applied(v1.f, z, n, h, c, r == 0, hv, cv), ..v1 };
            lemma_write16_nibble(w, dst, imm, r);
        },
        Operation::Data8 { op, dst, src, z, n, h, c, bit } => {
            let s = v1.read8(src, imm);
            let d = v1.read8(dst, imm);
            let (r, hv, cv) = alu8(op, d, s, v1.f, bit);
            lemma_flags_applied_nibble(v1.f, z, n, h, c, r == 0, hv, cv);
        },
        Operation::SpImm8 { dst } => {
            lemma_nibble_consts(0);
            let o: u8 = match imm {
                Immediate::Imm8(i) => i,
                _ => 0,
            };
            let cf: u8 = if v1.sp % 256 + o > 255 {
                FLAG_C
            } else {
                0
            };
            let hf: u8 = if v1.sp % 16 + o % 16 > 15 {
                FLAG_H
            } else {
                0
            };
            lemma_write16_nibble(
                CpuView { f: cf | hf, ..v1 },
                dst,
                imm,
                wrap16(v1.sp + signed8(o)),
            );
        },
        _ => {},
    }
}

/// The processor after a step keeps the low nibble of F zero.
proof fn lemma_step_nibble(v: CpuView)
    requires
        v.f & 0x0f == 0,
    ensures
        v.step().0.f & 0x0f == 0,
{
    let (v1, instr, imm) = v.fetch_decode();
    assert(v1.f == v.f);
    lemma_execute_nibble(v1, instr, imm);
    let (v2, cycles) = v1.execute(instr, imm);
    assert(v2.service_interrupts(cycles).0.f == v2.f);
    assert(v.service_interrupts(4).0.f == v.f);
}

/// Every plain opcode's table entry is one to three bytes long, and fetching
/// and decoding it moves PC past exactly that many bytes (a `CB`-prefixed
/// opcode: the prefix entry's two); no prefix survives decoding.
pub proof fn lemma_decode_consumes_length(v: CpuView)
    ensures
        ({
            let n = instruction_at(v.mmu.read(v.pc) as int).length;
            &&& 1 <= n <= 3
            &&& v.fetch_decode().0.pc == wrap16(v.pc + n)
            &&& v.fetch_decode().1.operation != Operation::Prefix
        }),
{
    lemma_instruction_length(v.mmu.read(v.pc) as int);
    lemma_instruction_length(256 + v.mmu.read(wrap16(v.pc + 1)));
}

} // verus!
