//! The instruction table: one descriptor for each of the 256 plain opcodes and
//! each of the 256 opcodes that follow the `CB` prefix byte (index `0x100 + op`).
//!
//! The table is decoded from the opcode's bit fields `x = op >> 6`,
//! `y = (op >> 3) & 7`, `z = op & 7`, `p = y >> 1`, `q = y & 1`.
use vstd::prelude::*;

verus! {

/// An 8-bit operand site.
#[derive(Clone, Copy, Debug, PartialEq, Eq, Structural)]
pub enum Location8 {
    Empty,
    A,
    /// The accumulator as a source that is not written back (`CP`).
    ARo,
    B,
    C,
    D,
    E,
    H,
    L,
    Imm8,
    AddrBC,
    AddrDE,
    AddrHL,
    /// `(HL+)`: `(HL)`, then HL is incremented.
    AddrHLInc,
    /// `(HL-)`: `(HL)`, then HL is decremented.
    AddrHLDec,
    AddrImm16,
    /// `(0xFF00 + C)`.
    AddrC,
    /// `(0xFF00 + n)`.
    AddrImm8,
}

/// A 16-bit operand site.
#[derive(Clone, Copy, Debug, PartialEq, Eq, Structural)]
pub enum Location16 {
    Empty,
    AF,
    BC,
    DE,
    HL,
    SP,
    Imm16,
    /// Pop: read at SP, then SP grows by two.
    AddrSPInc,
    /// Push: written below SP, then SP shrinks by two.
    AddrSPDec,
    AddrImm16,
}

/// What an instruction does to one flag.
#[derive(Clone, Copy, Debug, PartialEq, Eq, Structural)]
pub enum FlagOp {
    Unaffected,
    SetFlag,
    ResetFlag,
    CalculateFlag,
}

/// Data operations.
#[derive(Clone, Copy, Debug, PartialEq, Eq, Structural)]
pub enum OpData {
    Adc,
    Add,
    And,
    Bit,
    Cp,
    Cpl,
    Daa,
    Dec,
    Inc,
    Ld,
    Or,
    Res,
    Rl,
    Rlc,
    Rr,
    Rrc,
    Sbc,
    SetBit,
    Sla,
    Sra,
    Srl,
    Sub,
    Swap,
    Xor,
}

/// Control transfers.
#[derive(Clone, Copy, Debug, PartialEq, Eq, Structural)]
pub enum OpJump {
    Jp,
    Jr,
    Call,
    Rst,
    Ret,
    Reti,
}

/// Condition of a control transfer.
#[derive(Clone, Copy, Debug, PartialEq, Eq, Structural)]
pub enum JumpCondition {
    Always,
    NZ,
    Z,
    NC,
    C,
}

/// The operation an instruction performs, with its operands.
#[allow(inconsistent_fields)]
#[derive(Clone, Copy, Debug, PartialEq, Eq, Structural)]
pub enum Operation {
    Data8 {
        op: OpData,
        dst: Location8,
        src: Location8,
        z: FlagOp,
        n: FlagOp,
        h: FlagOp,
        c: FlagOp,
        bit: u8,
    },
    Data16 {
        op: OpData,
        dst: Location16,
        src: Location16,
        z: FlagOp,
        n: FlagOp,
        h: FlagOp,
        c: FlagOp,
    },
    Jump { op: OpJump, cond: JumpCondition, rst_target: u8 },
    SpImm8 { dst: Location16 },
    Nop,
    Scf,
    Ccf,
    Di,
    Ei,
    Halt,
    Stop,
    Prefix,
    Undef,
}

/// One entry of the table: length in bytes, cycles when a branch is taken (or
/// always), cycles when it is not taken, and the operation.
#[derive(Clone, Copy, Debug, PartialEq, Eq, Structural)]
pub struct Instruction {
    pub length: u8,
    pub cycles: u8,
    pub cycles_nj: u8,
    pub operation: Operation,
}

/// Whether an operation asks for flag N to be computed, which no operation
/// does: N is only ever set or reset.
pub open spec fn computes_n(op: Operation) -> bool {
    match op {
        Operation::Data8 { n, .. } => n == FlagOp::CalculateFlag,
        Operation::Data16 { n, .. } => n == FlagOp::CalculateFlag,
        _ => false,
    }
}

pub open spec fn ins(length: u8, cycles: u8, cycles_nj: u8, operation: Operation) -> Instruction {
    Instruction { length, cycles, cycles_nj, operation }
}

pub open spec fn d8(
    op: OpData,
    dst: Location8,
    src: Location8,
    z: FlagOp,
    n: FlagOp,
    h: FlagOp,
    c: FlagOp,
    bit: u8,
) -> Operation {
    Operation::Data8 { op, dst, src, z, n, h, c, bit }
}

pub open spec fn ld8(dst: Location8, src: Location8) -> Operation {
    d8(
        OpData::Ld,
        dst,
        src,
        FlagOp::Unaffected,
        FlagOp::Unaffected,
        FlagOp::Unaffected,
        FlagOp::Unaffected,
        0,
    )
}

pub open spec fn ld16(dst: Location16, src: Location16) -> Operation {
    Operation::Data16 {
        op: OpData::Ld,
        dst,
        src,
        z: FlagOp::Unaffected,
        n: FlagOp::Unaffected,
        h: FlagOp::Unaffected,
        c: FlagOp::Unaffected,
    }
}

pub open spec fn jump_op(op: OpJump, cond: JumpCondition) -> Operation {
    Operation::Jump { op, cond, rst_target: 0 }
}

/// `B, C, D, E, H, L, (HL), A` by their 3-bit code.
pub open spec fn reg8_loc(i: int) -> Location8 {
    if i == 0 {
        Location8::B
    } else if i == 1 {
        Location8::C
    } else if i == 2 {
        Location8::D
    } else if i == 3 {
        Location8::E
    } else if i == 4 {
        Location8::H
    } else if i == 5 {
        Location8::L
    } else if i == 6 {
        Location8::AddrHL
    } else {
        Location8::A
    }
}

/// `BC, DE, HL, SP` by their 2-bit code.
pub open spec fn reg16_loc(i: int) -> Location16 {
    if i == 0 {
        Location16::BC
    } else if i == 1 {
        Location16::DE
    } else if i == 2 {
        Location16::HL
    } else {
        Location16::SP
    }
}

/// `BC, DE, HL, AF` by their 2-bit code (push and pop).
pub open spec fn reg16_stack_loc(i: int) -> Location16 {
    if i == 3 {
        Location16::AF
    } else {
        reg16_loc(i)
    }
}

/// `(BC), (DE), (HL+), (HL-)` by their 2-bit code.
pub open spec fn indirect_loc(i: int) -> Location8 {
    if i == 0 {
        Location8::AddrBC
    } else if i == 1 {
        Location8::AddrDE
    } else if i == 2 {
        Location8::AddrHLInc
    } else {
        Location8::AddrHLDec
    }
}

/// `NZ, Z, NC, C` by their 2-bit code.
pub open spec fn condition(i: int) -> JumpCondition {
    if i == 0 {
        JumpCondition::NZ
    } else if i == 1 {
        JumpCondition::Z
    } else if i == 2 {
        JumpCondition::NC
    } else {
        JumpCondition::C
    }
}

/// The eight accumulator operations `ADD ADC SUB SBC AND XOR OR CP`, with
/// their flag policies.
pub open spec fn alu_operation(y: int, src: Location8) -> Operation {
    let u = FlagOp::Unaffected;
    let s = FlagOp::SetFlag;
    let r = FlagOp::ResetFlag;
    let k = FlagOp::CalculateFlag;
    if y == 0 {
        d8(OpData::Add, Location8::A, src, k, r, k, k, 0)
    } else if y == 1 {
        d8(OpData::Adc, Location8::A, src, k, r, k, k, 0)
    } else if y == 2 {
        d8(OpData::Sub, Location8::A, src, k, s, k, k, 0)
    } else if y == 3 {
        d8(OpData::Sbc, Location8::A, src, k, s, k, k, 0)
    } else if y == 4 {
        d8(OpData::And, Location8::A, src, k, r, s, r, 0)
    } else if y == 5 {
        d8(OpData::Xor, Location8::A, src, k, r, r, r, 0)
    } else if y == 6 {
        d8(OpData::Or, Location8::A, src, k, r, r, r, 0)
    } else {
        d8(OpData::Cp, Location8::ARo, src, k, s, k, k, 0)
    }
}

/// The rotate and shift operations of the prefixed table by their 3-bit code.
pub open spec fn shift_op(y: int) -> OpData {
    if y == 0 {
        OpData::Rlc
    } else if y == 1 {
        OpData::Rrc
    } else if y == 2 {
        OpData::Rl
    } else if y == 3 {
        OpData::Rr
    } else if y == 4 {
        OpData::Sla
    } else if y == 5 {
        OpData::Sra
    } else if y == 6 {
        OpData::Swap
    } else {
        OpData::Srl
    }
}

/// Opcodes `0x00..=0x3F`.
pub open spec fn block0(y: int, z: int) -> Instruction {
    let p = y / 2;
    let q = y % 2;
    let u = FlagOp::Unaffected;
    let s = FlagOp::SetFlag;
    let r = FlagOp::ResetFlag;
    let k = FlagOp::CalculateFlag;
    if z == 0 {
        if y == 0 {
            ins(1, 4, 4, Operation::Nop)
        } else if y == 1 {
            ins(3, 20, 20, ld16(Location16::AddrImm16, Location16::SP))
        } else if y == 2 {
            ins(1, 4, 4, Operation::Stop)
        } else if y == 3 {
            ins(2, 12, 12, jump_op(OpJump::Jr, JumpCondition::Always))
        } else {
            ins(2, 12, 8, jump_op(OpJump::Jr, condition(y - 4)))
        }
    } else if z == 1 {
        if q == 0 {
            ins(3, 12, 12, ld16(reg16_loc(p), Location16::Imm16))
        } else {
            ins(
                1,
                8,
                8,
                Operation::Data16 {
                    op: OpData::Add,
                    dst: Location16::HL,
                    src: reg16_loc(p),
                    z: u,
                    n: r,
                    h: k,
                    c: k,
                },
            )
        }
    } else if z == 2 {
        if q == 0 {
            ins(1, 8, 8, ld8(indirect_loc(p), Location8::A))
        } else {
            ins(1, 8, 8, ld8(Location8::A, indirect_loc(p)))
        }
    } else if z == 3 {
        ins(
            1,
            8,
            8,
            Operation::Data16 {
                op: if q == 0 { OpData::Inc } else { OpData::Dec },
                dst: reg16_loc(p),
                src: Location16::Empty,
                z: u,
                n: u,
                h: u,
                c: u,
            },
        )
    } else if z == 4 {
        let cyc: u8 = if y == 6 { 12 } else { 4 };
        ins(1, cyc, cyc, d8(OpData::Inc, reg8_loc(y), Location8::Empty, k, r, k, u, 0))
    } else if z == 5 {
        let cyc: u8 = if y == 6 { 12 } else { 4 };
        ins(1, cyc, cyc, d8(OpData::Dec, reg8_loc(y), Location8::Empty, k, s, k, u, 0))
    } else if z == 6 {
        let cyc: u8 = if y == 6 { 12 } else { 8 };
        ins(2, cyc, cyc, ld8(reg8_loc(y), Location8::Imm8))
    } else {
        if y < 4 {
            ins(1, 4, 4, d8(shift_op(y), Location8::A, Location8::Empty, r, r, r, k, 0))
        } else if y == 4 {
            ins(1, 4, 4, d8(OpData::Daa, Location8::A, Location8::Empty, k, u, r, k, 0))
        } else if y == 5 {
            ins(1, 4, 4, d8(OpData::Cpl, Location8::A, Location8::Empty, u, s, s, u, 0))
        } else if y == 6 {
            ins(1, 4, 4, Operation::Scf)
        } else {
            ins(1, 4, 4, Operation::Ccf)
        }
    }
}

/// Opcodes `0xC0..=0xFF`.
pub open spec fn block3(y: int, z: int) -> Instruction {
    let p = y / 2;
    let q = y % 2;
    if z == 0 {
        if y < 4 {
            ins(1, 20, 8, jump_op(OpJump::Ret, condition(y)))
        } else if y == 4 {
            ins(2, 12, 12, ld8(Location8::AddrImm8, Location8::A))
        } else if y == 5 {
            ins(2, 16, 16, Operation::SpImm8 { dst: Location16::SP })
        } else if y == 6 {
            ins(2, 12, 12, ld8(Location8::A, Location8::AddrImm8))
        } else {
            ins(2, 12, 12, Operation::SpImm8 { dst: Location16::HL })
        }
    } else if z == 1 {
        if q == 0 {
            ins(1, 12, 12, ld16(reg16_stack_loc(p), Location16::AddrSPInc))
        } else if p == 0 {
            ins(1, 16, 16, jump_op(OpJump::Ret, JumpCondition::Always))
        } else if p == 1 {
            ins(1, 16, 16, jump_op(OpJump::Reti, JumpCondition::Always))
        } else if p == 2 {
            ins(1, 4, 4, jump_op(OpJump::Jp, JumpCondition::Always))
        } else {
            ins(1, 8, 8, ld16(Location16::SP, Location16::HL))
        }
    } else if z == 2 {
        if y < 4 {
            ins(3, 16, 12, jump_op(OpJump::Jp, condition(y)))
        } else if y == 4 {
            ins(1, 8, 8, ld8(Location8::AddrC, Location8::A))
        } else if y == 5 {
            ins(3, 16, 16, ld8(Location8::AddrImm16, Location8::A))
        } else if y == 6 {
            ins(1, 8, 8, ld8(Location8::A, Location8::AddrC))
        } else {
            ins(3, 16, 16, ld8(Location8::A, Location8::AddrImm16))
        }
    } else if z == 3 {
        if y == 0 {
            ins(3, 16, 16, jump_op(OpJump::Jp, JumpCondition::Always))
        } else if y == 1 {
            ins(2, 4, 4, Operation::Prefix)
        } else if y == 6 {
            ins(1, 4, 4, Operation::Di)
        } else if y == 7 {
            ins(1, 4, 4, Operation::Ei)
        } else {
            ins(1, 4, 4, Operation::Undef)
        }
    } else if z == 4 {
        if y < 4 {
            ins(3, 24, 12, jump_op(OpJump::Call, condition(y)))
        } else {
            ins(1, 4, 4, Operation::Undef)
        }
    } else if z == 5 {
        if q == 0 {
            ins(1, 16, 16, ld16(Location16::AddrSPDec, reg16_stack_loc(p)))
        } else if p == 0 {
            ins(3, 24, 24, jump_op(OpJump::Call, JumpCondition::Always))
        } else {
            ins(1, 4, 4, Operation::Undef)
        }
    } else if z == 6 {
        ins(2, 8, 8, alu_operation(y, Location8::Imm8))
    } else {
        ins(
            1,
            16,
            16,
            Operation::Jump { op: OpJump::Rst, cond: JumpCondition::Always, rst_target: (y * 8) as u8 },
        )
    }
}

/// Opcodes that follow the `CB` prefix.
pub open spec fn prefixed(x: int, y: int, z: int) -> Instruction {
    let u = FlagOp::Unaffected;
    let s = FlagOp::SetFlag;
    let r = FlagOp::ResetFlag;
    let k = FlagOp::CalculateFlag;
    let bit: u8 = (1u8 << (y as u8)) as u8;
    if x == 0 {
        let cyc: u8 = if z == 6 { 16 } else { 8 };
        let c = if y == 6 { r } else { k };
        ins(2, cyc, cyc, d8(shift_op(y), reg8_loc(z), Location8::Empty, k, r, r, c, 0))
    } else if x == 1 {
        let cyc: u8 = if z == 6 { 12 } else { 8 };
        ins(2, cyc, cyc, d8(OpData::Bit, Location8::Empty, reg8_loc(z), k, r, s, u, bit))
    } else {
        let cyc: u8 = if z == 6 { 16 } else { 8 };
        let op = if x == 2 { OpData::Res } else { OpData::SetBit };
        ins(2, cyc, cyc, d8(op, reg8_loc(z), Location8::Empty, u, u, u, u, bit))
    }
}

/// The table entry at `index` (`0x000..=0x0FF` plain, `0x100..=0x1FF` prefixed).
pub open spec fn instruction_at(index: int) -> Instruction {
    let op = index % 256;
    let x = op / 64;
    let y = (op / 8) % 8;
    let z = op % 8;
    if index >= 256 {
        prefixed(x, y, z)
    } else if x == 0 {
        block0(y, z)
    } else if x == 1 {
        if y == 6 && z == 6 {
            ins(1, 4, 4, Operation::Halt)
        } else {
            let cyc: u8 = if y == 6 || z == 6 { 8 } else { 4 };
            ins(1, cyc, cyc, ld8(reg8_loc(y), reg8_loc(z)))
        }
    } else if x == 2 {
        let cyc: u8 = if z == 6 { 8 } else { 4 };
        ins(1, cyc, cyc, alu_operation(y, reg8_loc(z)))
    } else {
        block3(y, z)
    }
}

fn reg8_at(i: u8) -> (r: Location8)
    ensures
        r == reg8_loc(i as int),
{
    match i {
        0 => Location8::B,
        1 => Location8::C,
        2 => Location8::D,
        3 => Location8::E,
        4 => Location8::H,
        5 => Location8::L,
        6 => Location8::AddrHL,
        _ => Location8::A,
    }
}

fn reg16_at(i: u8) -> (r: Location16)
    ensures
        r == reg16_loc(i as int),
{
    match i {
        0 => Location16::BC,
        1 => Location16::DE,
        2 => Location16::HL,
        _ => Location16::SP,
    }
}

fn reg16_stack_at(i: u8) -> (r: Location16)
    ensures
        r == reg16_stack_loc(i as int),
{
    if i == 3 {
        Location16::AF
    } else {
        reg16_at(i)
    }
}

fn indirect_at(i: u8) -> (r: Location8)
    ensures
        r == indirect_loc(i as int),
{
    match i {
        0 => Location8::AddrBC,
        1 => Location8::AddrDE,
        2 => Location8::AddrHLInc,
        _ => Location8::AddrHLDec,
    }
}

fn condition_at(i: u8) -> (r: JumpCondition)
    ensures
        r == condition(i as int),
{
    match i {
        0 => JumpCondition::NZ,
        1 => JumpCondition::Z,
        2 => JumpCondition::NC,
        _ => JumpCondition::C,
    }
}

fn shift_op_at(y: u8) -> (r: OpData)
    ensures
        r == shift_op(y as int),
{
    match y {
        0 => OpData::Rlc,
        1 => OpData::Rrc,
        2 => OpData::Rl,
        3 => OpData::Rr,
        4 => OpData::Sla,
        5 => OpData::Sra,
        6 => OpData::Swap,
        _ => OpData::Srl,
    }
}

fn data8(op: OpData, dst: Location8, src: Location8, z: FlagOp, n: FlagOp, h: FlagOp, c: FlagOp, bit: u8) -> (r: Operation)
    ensures
        r == d8(op, dst, src, z, n, h, c, bit),
{
    Operation::Data8 { op, dst, src, z, n, h, c, bit }
}

fn load8(dst: Location8, src: Location8) -> (r: Operation)
    ensures
        r == ld8(dst, src),
{
    let u = FlagOp::Unaffected;
    data8(OpData::Ld, dst, src, u, u, u, u, 0)
}

fn load16(dst: Location16, src: Location16) -> (r: Operation)
    ensures
        r == ld16(dst, src),
{
    let u = FlagOp::Unaffected;
    Operation::Data16 { op: OpData::Ld, dst, src, z: u, n: u, h: u, c: u }
}

fn jump_to(op: OpJump, cond: JumpCondition) -> (r: Operation)
    ensures
        r == jump_op(op, cond),
{
    Operation::Jump { op, cond, rst_target: 0 }
}

fn entry(length: u8, cycles: u8, cycles_nj: u8, operation: Operation) -> (r: Instruction)
    ensures
        r == ins(length, cycles, cycles_nj, operation),
{
    Instruction { length, cycles, cycles_nj, operation }
}

fn alu_operation_at(y: u8, src: Location8) -> (r: Operation)
    ensures
        r == alu_operation(y as int, src),
{
    let s = FlagOp::SetFlag;
    let r = FlagOp::ResetFlag;
    let k = FlagOp::CalculateFlag;
    match y {
        0 => data8(OpData::Add, Location8::A, src, k, r, k, k, 0),
        1 => data8(OpData::Adc, Location8::A, src, k, r, k, k, 0),
        2 => data8(OpData::Sub, Location8::A, src, k, s, k, k, 0),
        3 => data8(OpData::Sbc, Location8::A, src, k, s, k, k, 0),
        4 => data8(OpData::And, Location8::A, src, k, r, s, r, 0),
        5 => data8(OpData::Xor, Location8::A, src, k, r, r, r, 0),
        6 => data8(OpData::Or, Location8::A, src, k, r, r, r, 0),
        _ => data8(OpData::Cp, Location8::ARo, src, k, s, k, k, 0),
    }
}

fn block0_at(y: u8, z: u8) -> (r: Instruction)
    requires
        y < 8,
        z < 8,
    ensures
        r == block0(y as int, z as int),
{
    let p = y / 2;
    let q = y % 2;
    let u = FlagOp::Unaffected;
    let s = FlagOp::SetFlag;
    let r = FlagOp::ResetFlag;
    let k = FlagOp::CalculateFlag;
    if z == 0 {
        if y == 0 {
            entry(1, 4, 4, Operation::Nop)
        } else if y == 1 {
            entry(3, 20, 20, load16(Location16::AddrImm16, Location16::SP))
        } else if y == 2 {
            entry(1, 4, 4, Operation::Stop)
        } else if y == 3 {
            entry(2, 12, 12, jump_to(OpJump::Jr, JumpCondition::Always))
        } else {
            entry(2, 12, 8, jump_to(OpJump::Jr, condition_at(y - 4)))
        }
    } else if z == 1 {
        if q == 0 {
            entry(3, 12, 12, load16(reg16_at(p), Location16::Imm16))
        } else {
            let op = Operation::Data16 {
                op: OpData::Add,
                dst: Location16::HL,
                src: reg16_at(p),
                z: u,
                n: r,
                h: k,
                c: k,
            };
            entry(1, 8, 8, op)
        }
    } else if z == 2 {
        if q == 0 {
            entry(1, 8, 8, load8(indirect_at(p), Location8::A))
        } else {
            entry(1, 8, 8, load8(Location8::A, indirect_at(p)))
        }
    } else if z == 3 {
        let op = Operation::Data16 {
            op: if q == 0 { OpData::Inc } else { OpData::Dec },
            dst: reg16_at(p),
            src: Location16::Empty,
            z: u,
            n: u,
            h: u,
            c: u,
        };
        entry(1, 8, 8, op)
    } else if z == 4 {
        let cyc: u8 = if y == 6 { 12 } else { 4 };
        entry(1, cyc, cyc, data8(OpData::Inc, reg8_at(y), Location8::Empty, k, r, k, u, 0))
    } else if z == 5 {
        let cyc: u8 = if y == 6 { 12 } else { 4 };
        entry(1, cyc, cyc, data8(OpData::Dec, reg8_at(y), Location8::Empty, k, s, k, u, 0))
    } else if z == 6 {
        let cyc: u8 = if y == 6 { 12 } else { 8 };
        entry(2, cyc, cyc, load8(reg8_at(y), Location8::Imm8))
    } else {
        if y < 4 {
            entry(1, 4, 4, data8(shift_op_at(y), Location8::A, Location8::Empty, r, r, r, k, 0))
        } else if y == 4 {
            entry(1, 4, 4, data8(OpData::Daa, Location8::A, Location8::Empty, k, u, r, k, 0))
        } else if y == 5 {
            entry(1, 4, 4, data8(OpData::Cpl, Location8::A, Location8::Empty, u, s, s, u, 0))
        } else if y == 6 {
            entry(1, 4, 4, Operation::Scf)
        } else {
            entry(1, 4, 4, Operation::Ccf)
        }
    }
}

fn block3_at(y: u8, z: u8) -> (r: Instruction)
    requires
        y < 8,
        z < 8,
    ensures
        r == block3(y as int, z as int),
{
    let p = y / 2;
    let q = y % 2;
    if z == 0 {
        if y < 4 {
            entry(1, 20, 8, jump_to(OpJump::Ret, condition_at(y)))
        } else if y == 4 {
            entry(2, 12, 12, load8(Location8::AddrImm8, Location8::A))
        } else if y == 5 {
            entry(2, 16, 16, Operation::SpImm8 { dst: Location16::SP })
        } else if y == 6 {
            entry(2, 12, 12, load8(Location8::A, Location8::AddrImm8))
        } else {
            entry(2, 12, 12, Operation::SpImm8 { dst: Location16::HL })
        }
    } else if z == 1 {
        if q == 0 {
            entry(1, 12, 12, load16(reg16_stack_at(p), Location16::AddrSPInc))
        } else if p == 0 {
            entry(1, 16, 16, jump_to(OpJump::Ret, JumpCondition::Always))
        } else if p == 1 {
            entry(1, 16, 16, jump_to(OpJump::Reti, JumpCondition::Always))
        } else if p == 2 {
            entry(1, 4, 4, jump_to(OpJump::Jp, JumpCondition::Always))
        } else {
            entry(1, 8, 8, load16(Location16::SP, Location16::HL))
        }
    } else if z == 2 {
        if y < 4 {
            entry(3, 16, 12, jump_to(OpJump::Jp, condition_at(y)))
        } else if y == 4 {
            entry(1, 8, 8, load8(Location8::AddrC, Location8::A))
        } else if y == 5 {
            entry(3, 16, 16, load8(Location8::AddrImm16, Location8::A))
        } else if y == 6 {
            entry(1, 8, 8, load8(Location8::A, Location8::AddrC))
        } else {
            entry(3, 16, 16, load8(Location8::A, Location8::AddrImm16))
        }
    } else if z == 3 {
        if y == 0 {
            entry(3, 16, 16, jump_to(OpJump::Jp, JumpCondition::Always))
        } else if y == 1 {
            entry(2, 4, 4, Operation::Prefix)
        } else if y == 6 {
            entry(1, 4, 4, Operation::Di)
        } else if y == 7 {
            entry(1, 4, 4, Operation::Ei)
        } else {
            entry(1, 4, 4, Operation::Undef)
        }
    } else if z == 4 {
        if y < 4 {
            entry(3, 24, 12, jump_to(OpJump::Call, condition_at(y)))
        } else {
            entry(1, 4, 4, Operation::Undef)
        }
    } else if z == 5 {
        if q == 0 {
            entry(1, 16, 16, load16(Location16::AddrSPDec, reg16_stack_at(p)))
        } else if p == 0 {
            entry(3, 24, 24, jump_to(OpJump::Call, JumpCondition::Always))
        } else {
            entry(1, 4, 4, Operation::Undef)
        }
    } else if z == 6 {
        entry(2, 8, 8, alu_operation_at(y, Location8::Imm8))
    } else {
        let op = Operation::Jump { op: OpJump::Rst, cond: JumpCondition::Always, rst_target: y * 8 };
        entry(1, 16, 16, op)
    }
}

fn prefixed_at(x: u8, y: u8, z: u8) -> (r: Instruction)
    requires
        x < 4,
        y < 8,
        z < 8,
    ensures
        r == prefixed(x as int, y as int, z as int),
{
    let u = FlagOp::Unaffected;
    let s = FlagOp::SetFlag;
    let r = FlagOp::ResetFlag;
    let k = FlagOp::CalculateFlag;
    let bit: u8 = 1u8 << y;
    if x == 0 {
        let cyc: u8 = if z == 6 { 16 } else { 8 };
        let c = if y == 6 { r } else { k };
        entry(2, cyc, cyc, data8(shift_op_at(y), reg8_at(z), Location8::Empty, k, r, r, c, 0))
    } else if x == 1 {
        let cyc: u8 = if z == 6 { 12 } else { 8 };
        entry(2, cyc, cyc, data8(OpData::Bit, Location8::Empty, reg8_at(z), k, r, s, u, bit))
    } else {
        let cyc: u8 = if z == 6 { 16 } else { 8 };
        let op = if x == 2 { OpData::Res } else { OpData::SetBit };
        entry(2, cyc, cyc, data8(op, reg8_at(z), Location8::Empty, u, u, u, u, bit))
    }
}

/// The table entry at `index`: `0x000..=0x0FF` for plain opcodes,
/// `0x100..=0x1FF` for the opcodes that follow the `CB` prefix.
pub fn instruction(index: u16) -> (r: Instruction)
    requires
        index < 512,
    ensures
        r == instruction_at(index as int),
        1 <= r.length <= 3,
        4 <= r.cycles <= 24,
        4 <= r.cycles_nj <= 24,
        !computes_n(r.operation),
{
    let op = index % 256;
    let x = (op / 64) as u8;
    let y = ((op / 8) % 8) as u8;
    let z = (op % 8) as u8;
    if index >= 256 {
        prefixed_at(x, y, z)
    } else if x == 0 {
        block0_at(y, z)
    } else if x == 1 {
        if y == 6 && z == 6 {
            entry(1, 4, 4, Operation::Halt)
        } else {
            let cyc: u8 = if y == 6 || z == 6 { 8 } else { 4 };
            entry(1, cyc, cyc, load8(reg8_at(y), reg8_at(z)))
        }
    } else if x == 2 {
        let cyc: u8 = if z == 6 { 8 } else { 4 };
        entry(1, cyc, cyc, alu_operation_at(y, reg8_at(z)))
    } else {
        block3_at(y, z)
    }
}

/// Every table entry is one to three bytes long; the prefixed entries, and
/// the prefix itself (opcode 0xCB only), are two; and no entry asks for
/// flag N to be computed.
pub proof fn lemma_instruction_length(index: int)
    requires
        0 <= index < 512,
    ensures
        1 <= instruction_at(index).length <= 3,
        index >= 256 ==> instruction_at(index).length == 2,
        index >= 256 ==> instruction_at(index).operation != Operation::Prefix,
        instruction_at(index).operation == Operation::Prefix ==> instruction_at(index).length == 2
            && index == 0xcb,
        !computes_n(instruction_at(index).operation),
{
}

} // verus!
