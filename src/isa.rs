//! The instruction set: the 32-bit encodings that the executor accepts and
//! the instructions they decode to.
use crate::alu::AluOp;
use vstd::prelude::*;

verus! {

/// Condition of a conditional branch.
#[derive(Clone, Copy, Debug, PartialEq, Eq, Structural)]
pub enum BranchCond {
    Eq,
    Ne,
    Lt,
    Ge,
    Ltu,
    Geu,
}

/// Size of a memory access.
#[derive(Clone, Copy, Debug, PartialEq, Eq, Structural)]
pub enum Width {
    Byte,
    Half,
    Word,
}

/// A decoded instruction. Register fields hold indices below 32.
#[derive(Clone, Copy, Debug, PartialEq, Eq, Structural)]
pub enum Instruction {
    /// `rd = op(rs1, rs2)`
    Alu { op: AluOp, rd: u32, rs1: u32, rs2: u32 },
    /// `rd = op(rs1, imm)`
    AluImm { op: AluOp, rd: u32, rs1: u32, imm: u32 },
    /// `rd = mem[rs1 + imm]`, `width` bytes, sign-extended unless `unsigned`
    Load { width: Width, unsigned: bool, rd: u32, rs1: u32, imm: u32 },
    /// `mem[rs1 + imm] = rs2`, its low `width` bytes
    Store { width: Width, rs1: u32, rs2: u32, imm: u32 },
    /// `rd = pc + imm` (upper immediate, low twelve bits clear)
    Auipc { rd: u32, imm: u32 },
    /// `rd = imm` (upper immediate, low twelve bits clear)
    Lui { rd: u32, imm: u32 },
    /// `if cond(rs1, rs2) { pc += imm }`
    Branch { cond: BranchCond, rs1: u32, rs2: u32, imm: u32 },
    /// `rd = pc + 4; pc += imm`
    Jal { rd: u32, imm: u32 },
    /// `rd = pc + 4; pc = (rs1 + imm) & !1`
    Jalr { rd: u32, rs1: u32, imm: u32 },
    /// Environment call; the syscall code is in `t0`, its argument in `a0`.
    Ecall,
}

pub open spec fn opcode(w: u32) -> u32 {
    w & 0x7f
}

pub open spec fn rd_of(w: u32) -> u32 {
    (w >> 7u32) & 0x1f
}

pub open spec fn funct3(w: u32) -> u32 {
    (w >> 12u32) & 0x7
}

pub open spec fn rs1_of(w: u32) -> u32 {
    (w >> 15u32) & 0x1f
}

pub open spec fn rs2_of(w: u32) -> u32 {
    (w >> 20u32) & 0x1f
}

pub open spec fn funct7(w: u32) -> u32 {
    w >> 25u32
}

/// Sign extension: when the top bit of `w` is set, `high` is or-ed in.
pub open spec fn sign_fill(w: u32, x: u32, high: u32) -> u32 {
    if w >= 0x8000_0000 {
        x | high
    } else {
        x
    }
}

/// Immediate of the I format (bits 31..20, sign-extended).
pub open spec fn imm_i(w: u32) -> u32 {
    sign_fill(w, w >> 20u32, 0xffff_f000)
}

/// Immediate of the S format (bits 31..25 and 11..7, sign-extended).
pub open spec fn imm_s(w: u32) -> u32 {
    sign_fill(w, ((w >> 25u32) << 5u32) | ((w >> 7u32) & 0x1f), 0xffff_f000)
}

/// Immediate of the B format (a multiple of two, sign-extended from bit 12).
pub open spec fn imm_b(w: u32) -> u32 {
    sign_fill(
        w,
        (((w >> 7u32) & 0x1) << 11u32) | (((w >> 25u32) & 0x3f) << 5u32) | (((w >> 8u32) & 0xf)
            << 1u32),
        0xffff_f000,
    )
}

/// Immediate of the J format (a multiple of two, sign-extended from bit 20).
pub open spec fn imm_j(w: u32) -> u32 {
    sign_fill(
        w,
        (w & 0x000f_f000) | (((w >> 20u32) & 0x1) << 11u32) | (((w >> 21u32) & 0x3ff) << 1u32),
        0xfff0_0000,
    )
}

/// Register-register operation selected by `funct3` and `funct7`.
pub open spec fn op_of(f3: u32, f7: u32) -> Option<AluOp> {
    if f7 == 0 {
        if f3 == 0 {
            Some(AluOp::Add)
        } else if f3 == 1 {
            Some(AluOp::Sll)
        } else if f3 == 2 {
            Some(AluOp::Slt)
        } else if f3 == 3 {
            Some(AluOp::Sltu)
        } else if f3 == 4 {
            Some(AluOp::Xor)
        } else if f3 == 5 {
            Some(AluOp::Srl)
        } else if f3 == 6 {
            Some(AluOp::Or)
        } else {
            Some(AluOp::And)
        }
    } else if f7 == 0x20 {
        if f3 == 0 {
            Some(AluOp::Sub)
        } else if f3 == 5 {
            Some(AluOp::Sra)
        } else {
            None
        }
    } else if f7 == 1 {
        if f3 == 0 {
            Some(AluOp::Mul)
        } else if f3 == 1 {
            Some(AluOp::Mulh)
        } else if f3 == 2 {
            Some(AluOp::Mulhsu)
        } else if f3 == 3 {
            Some(AluOp::Mulhu)
        } else if f3 == 4 {
            Some(AluOp::Div)
        } else if f3 == 5 {
            Some(AluOp::Divu)
        } else if f3 == 6 {
            Some(AluOp::Rem)
        } else if f3 == 7 {
            Some(AluOp::Remu)
        } else {
            None
        }
    } else {
        None
    }
}

/// Register-immediate operation selected by `funct3` (and `funct7` for shifts).
pub open spec fn op_imm_of(f3: u32, f7: u32) -> Option<AluOp> {
    if f3 == 0 {
        Some(AluOp::Add)
    } else if f3 == 2 {
        Some(AluOp::Slt)
    } else if f3 == 3 {
        Some(AluOp::Sltu)
    } else if f3 == 4 {
        Some(AluOp::Xor)
    } else if f3 == 6 {
        Some(AluOp::Or)
    } else if f3 == 7 {
        Some(AluOp::And)
    } else if f3 == 1 {
        if f7 == 0 {
            Some(AluOp::Sll)
        } else {
            None
        }
    } else if f7 == 0 {
        Some(AluOp::Srl)
    } else if f7 == 0x20 {
        Some(AluOp::Sra)
    } else {
        None
    }
}

/// Width and signedness of a load selected by `funct3`.
pub open spec fn load_of(f3: u32) -> Option<(Width, bool)> {
    if f3 == 0 {
        Some((Width::Byte, false))
    } else if f3 == 1 {
        Some((Width::Half, false))
    } else if f3 == 2 {
        Some((Width::Word, false))
    } else if f3 == 4 {
        Some((Width::Byte, true))
    } else if f3 == 5 {
        Some((Width::Half, true))
    } else {
        None
    }
}

/// Width of a store selected by `funct3`.
pub open spec fn store_of(f3: u32) -> Option<Width> {
    if f3 == 0 {
        Some(Width::Byte)
    } else if f3 == 1 {
        Some(Width::Half)
    } else if f3 == 2 {
        Some(Width::Word)
    } else {
        None
    }
}

/// Branch condition selected by `funct3`.
pub open spec fn cond_of(f3: u32) -> Option<BranchCond> {
    if f3 == 0 {
        Some(BranchCond::Eq)
    } else if f3 == 1 {
        Some(BranchCond::Ne)
    } else if f3 == 4 {
        Some(BranchCond::Lt)
    } else if f3 == 5 {
        Some(BranchCond::Ge)
    } else if f3 == 6 {
        Some(BranchCond::Ltu)
    } else if f3 == 7 {
        Some(BranchCond::Geu)
    } else {
        None
    }
}

/// The instruction that the word `w` encodes, if any.
pub open spec fn decode_spec(w: u32) -> Option<Instruction> {
    let opc = opcode(w);
    if opc == 0x33 {
        match op_of(funct3(w), funct7(w)) {
            Some(op) => Some(Instruction::Alu { op, rd: rd_of(w), rs1: rs1_of(w), rs2: rs2_of(w) }),
            None => None,
        }
    } else if opc == 0x13 {
        match op_imm_of(funct3(w), funct7(w)) {
            Some(op) => Some(Instruction::AluImm { op, rd: rd_of(w), rs1: rs1_of(w), imm: imm_i(w) }),
            None => None,
        }
    } else if opc == 0x03 {
        match load_of(funct3(w)) {
            Some((width, unsigned)) => Some(Instruction::Load { width, unsigned, rd: rd_of(w), rs1: rs1_of(w), imm: imm_i(w) }),
            None => None,
        }
    } else if opc == 0x23 {
        match store_of(funct3(w)) {
            Some(width) => Some(Instruction::Store { width, rs1: rs1_of(w), rs2: rs2_of(w), imm: imm_s(w) }),
            None => None,
        }
    } else if opc == 0x37 {
        Some(Instruction::Lui { rd: rd_of(w), imm: w & 0xffff_f000 })
    } else if opc == 0x17 {
        Some(Instruction::Auipc { rd: rd_of(w), imm: w & 0xffff_f000 })
    } else if opc == 0x63 {
        match cond_of(funct3(w)) {
            Some(cond) => Some(Instruction::Branch { cond, rs1: rs1_of(w), rs2: rs2_of(w), imm: imm_b(w) }),
            None => None,
        }
    } else if opc == 0x6f {
        Some(Instruction::Jal { rd: rd_of(w), imm: imm_j(w) })
    } else if opc == 0x67 && funct3(w) == 0 {
        Some(Instruction::Jalr { rd: rd_of(w), rs1: rs1_of(w), imm: imm_i(w) })
    } else if w == 0x73 {
        Some(Instruction::Ecall)
    } else {
        None
    }
}

/// Every register index of `inst` names one of the 32 registers.
pub open spec fn regs_in_range(inst: Instruction) -> bool {
    match inst {
        Instruction::Alu { rd, rs1, rs2, .. } => rd < 32 && rs1 < 32 && rs2 < 32,
        Instruction::AluImm { rd, rs1, .. } => rd < 32 && rs1 < 32,
        Instruction::Load { rd, rs1, .. } => rd < 32 && rs1 < 32,
        Instruction::Store { rs1, rs2, .. } => rs1 < 32 && rs2 < 32,
        Instruction::Lui { rd, .. } => rd < 32,
        Instruction::Auipc { rd, .. } => rd < 32,
        Instruction::Branch { rs1, rs2, .. } => rs1 < 32 && rs2 < 32,
        Instruction::Jal { rd, .. } => rd < 32,
        Instruction::Jalr { rd, rs1, .. } => rd < 32 && rs1 < 32,
        Instruction::Ecall => true,
    }
}

/// A decoded instruction names only registers that exist.
pub proof fn lemma_decode_regs(w: u32)
    ensures
        decode_spec(w) matches Some(inst) ==> regs_in_range(inst),
{
    assert(((w >> 7u32) & 0x1f) < 32) by (bit_vector);
    assert(((w >> 15u32) & 0x1f) < 32) by (bit_vector);
    assert(((w >> 20u32) & 0x1f) < 32) by (bit_vector);
}

fn sign_extend(w: u32, x: u32, high: u32) -> (r: u32)
    ensures
        r == sign_fill(w, x, high),
{
    if w >= 0x8000_0000 {
        x | high
    } else {
        x
    }
}

fn decode_op(f3: u32, f7: u32) -> (r: Option<AluOp>)
    ensures
        r == op_of(f3, f7),
{
    if f7 == 0 {
        if f3 == 0 {
            Some(AluOp::Add)
        } else if f3 == 1 {
            Some(AluOp::Sll)
        } else if f3 == 2 {
            Some(AluOp::Slt)
        } else if f3 == 3 {
            Some(AluOp::Sltu)
        } else if f3 == 4 {
            Some(AluOp::Xor)
        } else if f3 == 5 {
            Some(AluOp::Srl)
        } else if f3 == 6 {
            Some(AluOp::Or)
        } else {
            Some(AluOp::And)
        }
    } else if f7 == 0x20 {
        if f3 == 0 {
            Some(AluOp::Sub)
        } else if f3 == 5 {
            Some(AluOp::Sra)
        } else {
            None
        }
    } else if f7 == 1 {
        if f3 == 0 {
            Some(AluOp::Mul)
        } else if f3 == 1 {
            Some(AluOp::Mulh)
        } else if f3 == 2 {
            Some(AluOp::Mulhsu)
        } else if f3 == 3 {
            Some(AluOp::Mulhu)
        } else if f3 == 4 {
            Some(AluOp::Div)
        } else if f3 == 5 {
            Some(AluOp::Divu)
        } else if f3 == 6 {
            Some(AluOp::Rem)
        } else if f3 == 7 {
            Some(AluOp::Remu)
        } else {
            None
        }
    } else {
        None
    }
}

fn decode_op_imm(f3: u32, f7: u32) -> (r: Option<AluOp>)
    ensures
        r == op_imm_of(f3, f7),
{
    if f3 == 0 {
        Some(AluOp::Add)
    } else if f3 == 2 {
        Some(AluOp::Slt)
    } else if f3 == 3 {
        Some(AluOp::Sltu)
    } else if f3 == 4 {
        Some(AluOp::Xor)
    } else if f3 == 6 {
        Some(AluOp::Or)
    } else if f3 == 7 {
        Some(AluOp::And)
    } else if f3 == 1 {
        if f7 == 0 {
            Some(AluOp::Sll)
        } else {
            None
        }
    } else if f7 == 0 {
        Some(AluOp::Srl)
    } else if f7 == 0x20 {
        Some(AluOp::Sra)
    } else {
        None
    }
}

fn decode_load(f3: u32) -> (r: Option<(Width, bool)>)
    ensures
        r == load_of(f3),
{
    if f3 == 0 {
        Some((Width::Byte, false))
    } else if f3 == 1 {
        Some((Width::Half, false))
    } else if f3 == 2 {
        Some((Width::Word, false))
    } else if f3 == 4 {
        Some((Width::Byte, true))
    } else if f3 == 5 {
        Some((Width::Half, true))
    } else {
        None
    }
}

fn decode_store(f3: u32) -> (r: Option<Width>)
    ensures
        r == store_of(f3),
{
    if f3 == 0 {
        Some(Width::Byte)
    } else if f3 == 1 {
        Some(Width::Half)
    } else if f3 == 2 {
        Some(Width::Word)
    } else {
        None
    }
}

fn decode_cond(f3: u32) -> (r: Option<BranchCond>)
    ensures
        r == cond_of(f3),
{
    if f3 == 0 {
        Some(BranchCond::Eq)
    } else if f3 == 1 {
        Some(BranchCond::Ne)
    } else if f3 == 4 {
        Some(BranchCond::Lt)
    } else if f3 == 5 {
        Some(BranchCond::Ge)
    } else if f3 == 6 {
        Some(BranchCond::Ltu)
    } else if f3 == 7 {
        Some(BranchCond::Geu)
    } else {
        None
    }
}

/// Decodes one instruction word; `None` when the word encodes no supported
/// instruction.
pub fn decode(w: u32) -> (r: Option<Instruction>)
    ensures
        r == decode_spec(w),
{
    let opc = w & 0x7f;
    let rd = (w >> 7u32) & 0x1f;
    let f3 = (w >> 12u32) & 0x7;
    let rs1 = (w >> 15u32) & 0x1f;
    let rs2 = (w >> 20u32) & 0x1f;
    let f7 = w >> 25u32;
    let i_imm = sign_extend(w, w >> 20u32, 0xffff_f000);
    if opc == 0x33 {
        match decode_op(f3, f7) {
            Some(op) => Some(Instruction::Alu { op, rd, rs1, rs2 }),
            None => None,
        }
    } else if opc == 0x13 {
        match decode_op_imm(f3, f7) {
            Some(op) => Some(Instruction::AluImm { op, rd, rs1, imm: i_imm }),
            None => None,
        }
    } else if opc == 0x03 {
        match decode_load(f3) {
            Some((width, unsigned)) => Some(Instruction::Load { width, unsigned, rd, rs1, imm: i_imm }),
            None => None,
        }
    } else if opc == 0x23 {
        match decode_store(f3) {
            Some(width) => {
                let imm = sign_extend(w, ((w >> 25u32) << 5u32) | ((w >> 7u32) & 0x1f), 0xffff_f000);
                Some(Instruction::Store { width, rs1, rs2, imm })
            },
            None => None,
        }
    } else if opc == 0x37 {
        Some(Instruction::Lui { rd, imm: w & 0xffff_f000 })
    } else if opc == 0x17 {
        Some(Instruction::Auipc { rd, imm: w & 0xffff_f000 })
    } else if opc == 0x63 {
        match decode_cond(f3) {
            Some(cond) => {
                let imm = sign_extend(
                    w,
                    (((w >> 7u32) & 0x1) << 11u32) | (((w >> 25u32) & 0x3f) << 5u32) | (((w
                        >> 8u32) & 0xf) << 1u32),
                    0xffff_f000,
                );
                Some(Instruction::Branch { cond, rs1, rs2, imm })
            },
            None => None,
        }
    } else if opc == 0x6f {
        let imm = sign_extend(
            w,
            (w & 0x000f_f000) | (((w >> 20u32) & 0x1) << 11u32) | (((w >> 21u32) & 0x3ff) << 1u32),
            0xfff0_0000,
        );
        Some(Instruction::Jal { rd, imm })
    } else if opc == 0x67 && f3 == 0 {
        Some(Instruction::Jalr { rd, rs1, imm: i_imm })
    } else if w == 0x73 {
        Some(Instruction::Ecall)
    } else {
        None
    }
}

} // verus!
