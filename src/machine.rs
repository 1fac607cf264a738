//! Programs, execution records, and the abstract semantics of one step.
use crate::alu::{alu_spec, signed, to_word, AluOp};
use crate::isa::{decode_spec, BranchCond, Instruction, Width};
use vstd::prelude::*;

verus! {

/// Register that holds the syscall code of an `Ecall`.
pub const SYSCALL_REG: u32 = 5;

/// Register that holds the argument (and, for a read, the result) of an `Ecall`.
pub const ARG_REG: u32 = 10;

/// Syscall code: stop the machine.
pub const SYSCALL_HALT: u32 = 0;

/// Syscall code: read the next word of the input stream into `a0`.
pub const SYSCALL_READ: u32 = 1;

/// Syscall code: append `a0` to the public output, as four little-endian bytes.
pub const SYSCALL_WRITE: u32 = 2;

/// A loaded program: instruction words at byte addresses 0, 4, 8, ... and an
/// initial memory image of (address, word) pairs, later pairs overriding
/// earlier ones.
#[derive(Clone, Debug)]
pub struct Program {
    pub code: Vec<u32>,
    pub image: Vec<(u32, u32)>,
}

/// An expected fault that stops execution.
#[derive(Clone, Copy, Debug, PartialEq, Eq, Structural)]
pub enum ExecutionFault {
    /// The program counter is unaligned or past the code, the word there does
    /// not decode, or an `Ecall` names no known syscall.
    IllegalFetch,
    /// A load or store address is not a multiple of four.
    MisalignedAccess,
    /// A read syscall asked for more input than remains.
    InputExhausted,
    /// The machine did not halt within the allowed number of steps.
    CycleLimitExceeded,
}

/// One entry of the execution record.
#[derive(Clone, Copy, Debug, PartialEq, Eq, Structural)]
pub enum Event {
    /// One per executed instruction: the cycle, where it was fetched, and its word.
    Cpu { clk: u64, pc: u32, word: u32 },
    /// An ALU operation: `a == op(b, c)`.
    Alu { clk: u64, op: AluOp, a: u32, b: u32, c: u32 },
    /// A memory access to the word that holds the accessed bytes: the word
    /// read, or the word after a write. Writes at cycle 0 load the initial
    /// image.
    Memory { clk: u64, addr: u32, value: u32, write: bool },
    /// A syscall with its code and argument.
    Syscall { clk: u64, code: u32, arg: u32 },
}

/// The architectural state of the machine, with what it has recorded so far.
pub struct MachineView {
    pub pc: u32,
    pub regs: Seq<u32>,
    pub mem: Map<u32, (u32, u64)>,
    pub clk: u64,
    pub in_pos: nat,
    pub events: Seq<Event>,
    pub output: Seq<u8>,
    pub halted: bool,
}

/// The word stored at `a`; memory never written reads as zero.
pub open spec fn mem_value(mem: Map<u32, (u32, u64)>, a: u32) -> u32 {
    if mem.contains_key(a) {
        mem[a].0
    } else {
        0
    }
}

/// Register file after writing `v` to `rd`; writes to register zero are dropped.
pub open spec fn set_reg(regs: Seq<u32>, rd: u32, v: u32) -> Seq<u32> {
    if rd == 0 {
        regs
    } else {
        regs.update(rd as int, v)
    }
}

/// The little-endian word made of four bytes.
pub open spec fn le_word(b0: u8, b1: u8, b2: u8, b3: u8) -> u32 {
    (b0 + 0x100 * b1 + 0x1_0000 * b2 + 0x100_0000 * b3) as u32
}

/// The four little-endian bytes of a word.
pub open spec fn le_bytes(v: u32) -> Seq<u8> {
    seq![(v % 0x100) as u8, ((v / 0x100) % 0x100) as u8, ((v / 0x1_0000) % 0x100) as u8, (v / 0x100_0000) as u8]
}

/// Number of bytes an access of `width` covers; its address must be a
/// multiple of it.
pub open spec fn width_bytes(width: Width) -> u32 {
    match width {
        Width::Byte => 1,
        Width::Half => 2,
        Width::Word => 4,
    }
}

/// The low bits that an access of `width` covers.
pub open spec fn lane_mask(width: Width) -> u32 {
    match width {
        Width::Byte => 0xff,
        Width::Half => 0xffff,
        Width::Word => 0xffff_ffff,
    }
}

/// Memory is kept as little-endian words: the word that holds byte `addr`.
pub open spec fn word_addr(addr: u32) -> u32 {
    (addr - addr % 4) as u32
}

/// Bit position of byte `addr` in its word.
pub open spec fn lane_shift(addr: u32) -> u32 {
    ((addr % 4) * 8) as u32
}

/// The value a load of `width` at `addr` reads from the word holding it,
/// sign-extended unless `unsigned`.
pub open spec fn extract(word: u32, addr: u32, width: Width, unsigned: bool) -> u32 {
    let v = (word >> lane_shift(addr)) & lane_mask(width);
    match width {
        Width::Byte => if !unsigned && v >= 0x80 { v | 0xffff_ff00 } else { v },
        Width::Half => if !unsigned && v >= 0x8000 { v | 0xffff_0000 } else { v },
        Width::Word => v,
    }
}

/// The word after a store of the low `width` bytes of `v` at `addr`.
pub open spec fn merge(word: u32, addr: u32, width: Width, v: u32) -> u32 {
    (word & !(lane_mask(width) << lane_shift(addr))) | ((v & lane_mask(width)) << lane_shift(addr))
}

/// Whether branch condition `cond` holds of `b` and `c`.
pub open spec fn branch_taken(cond: BranchCond, b: u32, c: u32) -> bool {
    match cond {
        BranchCond::Eq => b == c,
        BranchCond::Ne => b != c,
        BranchCond::Lt => signed(b) < signed(c),
        BranchCond::Ge => signed(b) >= signed(c),
        BranchCond::Ltu => b < c,
        BranchCond::Geu => b >= c,
    }
}

/// Whether `pc` addresses an instruction of `code`.
pub open spec fn fetch_ok(code: Seq<u32>, pc: u32) -> bool {
    pc % 4 == 0 && (pc / 4) < code.len()
}

/// The state after an instruction that wrote `regs` and moves to `pc`.
pub open spec fn advance(m: MachineView, regs: Seq<u32>, pc: u32) -> MachineView {
    MachineView { pc, regs, clk: (m.clk + 1) as u64, ..m }
}

/// Executes `inst` in `m`, whose record already holds the instruction's CPU event.
pub open spec fn execute_spec(input: Seq<u8>, m: MachineView, inst: Instruction) -> Result<
    MachineView,
    ExecutionFault,
> {
    let next = to_word(m.pc + 4);
    match inst {
        Instruction::Alu { op, rd, rs1, rs2 } => {
            let b = m.regs[rs1 as int];
            let c = m.regs[rs2 as int];
            let a = alu_spec(op, b, c);
            let m2 = MachineView {
                events: m.events.push(Event::Alu { clk: m.clk, op, a, b, c }),
                ..m
            };
            Ok(advance(m2, set_reg(m.regs, rd, a), next))
        },
        Instruction::AluImm { op, rd, rs1, imm } => {
            let b = m.regs[rs1 as int];
            let a = alu_spec(op, b, imm);
            let m2 = MachineView {
                events: m.events.push(Event::Alu { clk: m.clk, op, a, b, c: imm }),
                ..m
            };
            Ok(advance(m2, set_reg(m.regs, rd, a), next))
        },
        Instruction::Load { width, unsigned, rd, rs1, imm } => {
            let addr = to_word(m.regs[rs1 as int] + imm);
            if addr % width_bytes(width) != 0 {
                Err(ExecutionFault::MisalignedAccess)
            } else {
                let wa = word_addr(addr);
                let word = mem_value(m.mem, wa);
                let m2 = MachineView {
                    events: m.events.push(
                        Event::Memory { clk: m.clk, addr: wa, value: word, write: false },
                    ),
                    ..m
                };
                Ok(advance(m2, set_reg(m.regs, rd, extract(word, addr, width, unsigned)), next))
            }
        },
        Instruction::Store { width, rs1, rs2, imm } => {
            let addr = to_word(m.regs[rs1 as int] + imm);
            if addr % width_bytes(width) != 0 {
                Err(ExecutionFault::MisalignedAccess)
            } else {
                let wa = word_addr(addr);
                let v = merge(mem_value(m.mem, wa), addr, width, m.regs[rs2 as int]);
                let m2 = MachineView {
                    mem: m.mem.insert(wa, (v, m.clk)),
                    events: m.events.push(
                        Event::Memory { clk: m.clk, addr: wa, value: v, write: true },
                    ),
                    ..m
                };
                Ok(advance(m2, m.regs, next))
            }
        },
        Instruction::Lui { rd, imm } => Ok(advance(m, set_reg(m.regs, rd, imm), next)),
        Instruction::Auipc { rd, imm } => Ok(advance(m, set_reg(m.regs, rd, to_word(m.pc + imm)), next)),
        Instruction::Branch { cond, rs1, rs2, imm } => {
            let target = if branch_taken(cond, m.regs[rs1 as int], m.regs[rs2 as int]) {
                to_word(m.pc + imm)
            } else {
                next
            };
            Ok(advance(m, m.regs, target))
        },
        Instruction::Jal { rd, imm } => Ok(advance(m, set_reg(m.regs, rd, next), to_word(m.pc + imm))),
        Instruction::Jalr { rd, rs1, imm } => {
            let target = to_word(m.regs[rs1 as int] + imm) & 0xffff_fffe;
            Ok(advance(m, set_reg(m.regs, rd, next), target))
        },
        Instruction::Ecall => {
            let code = m.regs[SYSCALL_REG as int];
            let arg = m.regs[ARG_REG as int];
            let m2 = MachineView {
                events: m.events.push(Event::Syscall { clk: m.clk, code, arg }),
                ..m
            };
            if code == SYSCALL_HALT {
                Ok(MachineView { halted: true, ..advance(m2, m.regs, m.pc) })
            } else if code == SYSCALL_WRITE {
                Ok(advance(MachineView { output: m.output + le_bytes(arg), ..m2 }, m.regs, next))
            } else if code == SYSCALL_READ {
                if m.in_pos + 4 > input.len() {
                    Err(ExecutionFault::InputExhausted)
                } else {
                    let p = m.in_pos as int;
                    let v = le_word(input[p], input[p + 1], input[p + 2], input[p + 3]);
                    Ok(
                        advance(
                            MachineView { in_pos: m.in_pos + 4, ..m2 },
                            set_reg(m.regs, ARG_REG, v),
                            next,
                        ),
                    )
                }
            } else {
                Err(ExecutionFault::IllegalFetch)
            }
        },
    }
}

/// One step: fetch, decode, record the CPU event, execute.
pub open spec fn step_spec(code: Seq<u32>, input: Seq<u8>, m: MachineView) -> Result<
    MachineView,
    ExecutionFault,
> {
    if !fetch_ok(code, m.pc) {
        Err(ExecutionFault::IllegalFetch)
    } else {
        let w = code[(m.pc / 4) as int];
        match decode_spec(w) {
            None => Err(ExecutionFault::IllegalFetch),
            Some(inst) => execute_spec(
                input,
                MachineView {
                    events: m.events.push(Event::Cpu { clk: m.clk, pc: m.pc, word: w }),
                    ..m
                },
                inst,
            ),
        }
    }
}

/// Runs from `m` for at most `fuel` steps.
pub open spec fn run_from(code: Seq<u32>, input: Seq<u8>, m: MachineView, fuel: nat) -> Result<
    MachineView,
    ExecutionFault,
>
    decreases fuel,
{
    if m.halted {
        Ok(m)
    } else if fuel == 0 {
        Err(ExecutionFault::CycleLimitExceeded)
    } else {
        match step_spec(code, input, m) {
            Ok(m2) => run_from(code, input, m2, (fuel - 1) as nat),
            Err(f) => Err(f),
        }
    }
}

/// Memory after loading the pairs of `image` in order.
pub open spec fn image_memory(image: Seq<(u32, u32)>) -> Map<u32, (u32, u64)>
    decreases image.len(),
{
    if image.len() == 0 {
        Map::empty()
    } else {
        image_memory(image.drop_last()).insert(image.last().0, (image.last().1, 0u64))
    }
}

/// The records of loading `image`: one write at cycle 0 per pair.
pub open spec fn image_events(image: Seq<(u32, u32)>) -> Seq<Event> {
    image.map_values(|p: (u32, u32)| Event::Memory { clk: 0, addr: p.0, value: p.1, write: true })
}

/// The state before the first step.
pub open spec fn initial_state(image: Seq<(u32, u32)>) -> MachineView {
    MachineView {
        pc: 0,
        regs: Seq::new(32, |i: int| 0u32),
        mem: image_memory(image),
        clk: 0,
        in_pos: 0,
        events: image_events(image),
        output: Seq::empty(),
        halted: false,
    }
}

/// The result of running `code` with memory `image` on `input` for at most
/// `max_cycles` steps: the final state, or the fault that stopped the run.
pub open spec fn run_spec(code: Seq<u32>, image: Seq<(u32, u32)>, input: Seq<u8>, max_cycles: nat) -> Result<
    MachineView,
    ExecutionFault,
> {
    run_from(code, input, initial_state(image), max_cycles)
}

} // verus!
