//! The executor: runs a program step by step and records every state change.
use crate::alu::{alu_exec, WORD_MOD};
use crate::isa::{decode, lemma_decode_regs, regs_in_range, BranchCond, Instruction, Width};
use crate::machine::{
    advance, branch_taken, execute_spec, image_events, image_memory, initial_state, le_bytes,
    le_word, mem_value, extract, merge, width_bytes, lane_mask, run_from, run_spec, set_reg, step_spec, Event, ExecutionFault, MachineView,
    Program, ARG_REG, SYSCALL_HALT, SYSCALL_READ, SYSCALL_REG, SYSCALL_WRITE,
};
use crate::chips::{chips_consistent, lemma_run_chips_consistent};
use crate::memory::{lemma_run_memory_consistent, memory_consistent};
use std::collections::HashMap;
use vstd::prelude::*;

verus! {

broadcast use vstd::std_specs::hash::group_hash_axioms;

/// What a run that halted hands on: the ordered event log and the public
/// output bytes.
#[derive(Clone, Debug)]
pub struct ExecutionRecord {
    pub events: Vec<Event>,
    pub public_values: Vec<u8>,
}

/// The machine state as the executor holds it.
struct Executor {
    pc: u32,
    regs: Vec<u32>,
    memory: HashMap<u32, (u32, u64)>,
    clk: u64,
    in_pos: usize,
    events: Vec<Event>,
    output: Vec<u8>,
    halted: bool,
}

impl View for Executor {
    type V = MachineView;

    closed spec fn view(&self) -> MachineView {
        MachineView {
            pc: self.pc,
            regs: self.regs@,
            mem: self.memory@,
            clk: self.clk,
            in_pos: self.in_pos as nat,
            events: self.events@,
            output: self.output@,
            halted: self.halted,
        }
    }
}

/// Whether `r` is the outcome that `s` describes: the same fault, or a
/// record of the final state's events and output.
pub open spec fn record_matches(
    r: Result<ExecutionRecord, ExecutionFault>,
    s: Result<MachineView, ExecutionFault>,
) -> bool {
    match s {
        Ok(m) => r is Ok && r->Ok_0.events@ == m.events && r->Ok_0.public_values@ == m.output,
        Err(f) => r == Err::<ExecutionRecord, ExecutionFault>(f),
    }
}

impl Executor {
    /// Register file of 32 registers.
    pub closed spec fn wf(&self) -> bool {
        self.regs@.len() == 32
    }

    fn read_reg(&self, r: u32) -> (v: u32)
        requires
            self.wf(),
            r < 32,
        ensures
            v == self@.regs[r as int],
    {
        self.regs[r as usize]
    }

    fn write_reg(&mut self, rd: u32, v: u32)
        requires
            old(self).wf(),
            rd < 32,
        ensures
            final(self).wf(),
            final(self)@ == (MachineView { regs: set_reg(old(self)@.regs, rd, v), ..old(self)@ }),
    {
        if rd != 0 {
            self.regs.set(rd as usize, v);
        }
    }

    fn read_mem(&self, addr: u32) -> (v: u32)
        ensures
            v == mem_value(self@.mem, addr),
    {
        match self.memory.get(&addr) {
            Some(e) => e.0,
            None => 0,
        }
    }

    /// Moves to `pc` and to the next cycle.
    fn advance_to(&mut self, pc: u32)
        requires
            old(self).clk < u64::MAX,
        ensures
            final(self)@ == advance(old(self)@, old(self)@.regs, pc),
            final(self).wf() == old(self).wf(),
    {
        self.pc = pc;
        self.clk = self.clk + 1;
    }

    /// Executes a decoded instruction whose CPU event is already recorded.
    fn execute_inst(&mut self, input: &Vec<u8>, inst: Instruction) -> (r: Result<(), ExecutionFault>)
        requires
            old(self).wf(),
            old(self).clk < u64::MAX,
            old(self).in_pos <= input@.len(),
            regs_in_range(inst),
        ensures
            match execute_spec(input@, old(self)@, inst) {
                Ok(m) => r is Ok && final(self)@ == m && final(self).wf() && final(self).in_pos
                    <= input@.len(),
                Err(f) => r == Err::<(), ExecutionFault>(f),
            },
    {
        let next: u32 = ((self.pc as u64 + 4) % WORD_MOD) as u32;
        match inst {
            Instruction::Alu { op, rd, rs1, rs2 } => {
                let b = self.read_reg(rs1);
                let c = self.read_reg(rs2);
                let a = alu_exec(op, b, c);
                self.events.push(Event::Alu { clk: self.clk, op, a, b, c });
                self.write_reg(rd, a);
                self.advance_to(next);
                Ok(())
            },
            Instruction::AluImm { op, rd, rs1, imm } => {
                let b = self.read_reg(rs1);
                let a = alu_exec(op, b, imm);
                self.events.push(Event::Alu { clk: self.clk, op, a, b, c: imm });
                self.write_reg(rd, a);
                self.advance_to(next);
                Ok(())
            },
            Instruction::Load { width, unsigned, rd, rs1, imm } => {
                let addr: u32 = ((self.read_reg(rs1) as u64 + imm as u64) % WORD_MOD) as u32;
                if addr % width_size(width) != 0 {
                    return Err(ExecutionFault::MisalignedAccess);
                }
                let wa = addr - addr % 4;
                let word = self.read_mem(wa);
                self.events.push(Event::Memory { clk: self.clk, addr: wa, value: word, write: false });
                self.write_reg(rd, extract_exec(word, addr, width, unsigned));
                self.advance_to(next);
                Ok(())
            },
            Instruction::Store { width, rs1, rs2, imm } => {
                let addr: u32 = ((self.read_reg(rs1) as u64 + imm as u64) % WORD_MOD) as u32;
                if addr % width_size(width) != 0 {
                    return Err(ExecutionFault::MisalignedAccess);
                }
                let wa = addr - addr % 4;
                let old_word = self.read_mem(wa);
                let v = merge_exec(old_word, addr, width, self.read_reg(rs2));
                self.memory.insert(wa, (v, self.clk));
                self.events.push(Event::Memory { clk: self.clk, addr: wa, value: v, write: true });
                self.advance_to(next);
                Ok(())
            },
            Instruction::Lui { rd, imm } => {
                self.write_reg(rd, imm);
                self.advance_to(next);
                Ok(())
            },
            Instruction::Auipc { rd, imm } => {
                let v: u32 = ((self.pc as u64 + imm as u64) % WORD_MOD) as u32;
                self.write_reg(rd, v);
                self.advance_to(next);
                Ok(())
            },
            Instruction::Branch { cond, rs1, rs2, imm } => {
                let b = self.read_reg(rs1);
                let c = self.read_reg(rs2);
                let target = if branch_holds(cond, b, c) {
                    ((self.pc as u64 + imm as u64) % WORD_MOD) as u32
                } else {
                    next
                };
                self.advance_to(target);
                Ok(())
            },
            Instruction::Jal { rd, imm } => {
                let target: u32 = ((self.pc as u64 + imm as u64) % WORD_MOD) as u32;
                self.write_reg(rd, next);
                self.advance_to(target);
                Ok(())
            },
            Instruction::Jalr { rd, rs1, imm } => {
                let base: u32 = ((self.read_reg(rs1) as u64 + imm as u64) % WORD_MOD) as u32;
                let target = base & 0xffff_fffe;
                self.write_reg(rd, next);
                self.advance_to(target);
                Ok(())
            },
            Instruction::Ecall => self.syscall(input),
        }
    }

    /// Carries out the syscall named by register `t0`.
    fn syscall(&mut self, input: &Vec<u8>) -> (r: Result<(), ExecutionFault>)
        requires
            old(self).wf(),
            old(self).clk < u64::MAX,
            old(self).in_pos <= input@.len(),
        ensures
            match execute_spec(input@, old(self)@, Instruction::Ecall) {
                Ok(m) => r is Ok && final(self)@ == m && final(self).wf() && final(self).in_pos
                    <= input@.len(),
                Err(f) => r == Err::<(), ExecutionFault>(f),
            },
    {
        let code = self.read_reg(SYSCALL_REG);
        let arg = self.read_reg(ARG_REG);
        let next: u32 = ((self.pc as u64 + 4) % WORD_MOD) as u32;
        if code != SYSCALL_HALT && code != SYSCALL_WRITE && code != SYSCALL_READ {
            return Err(ExecutionFault::IllegalFetch);
        }
        if code == SYSCALL_READ && input.len() - self.in_pos < 4 {
            return Err(ExecutionFault::InputExhausted);
        }
        self.events.push(Event::Syscall { clk: self.clk, code, arg });
        if code == SYSCALL_HALT {
            let pc = self.pc;
            self.advance_to(pc);
            self.halted = true;
        } else if code == SYSCALL_WRITE {
            let ghost before = self.output@;
            self.output.push((arg % 0x100) as u8);
            self.output.push(((arg / 0x100) % 0x100) as u8);
            self.output.push(((arg / 0x1_0000) % 0x100) as u8);
            self.output.push((arg / 0x100_0000) as u8);
            assert(self.output@ =~= before + le_bytes(arg));
            self.advance_to(next);
        } else {
            let p = self.in_pos;
            let v: u32 = input[p] as u32 + 0x100 * (input[p + 1] as u32) + 0x1_0000 * (input[p
                + 2] as u32) + 0x100_0000 * (input[p + 3] as u32);
            assert(v == le_word(input@[p as int], input@[p + 1], input@[p + 2], input@[p + 3]));
            self.in_pos = p + 4;
            self.write_reg(ARG_REG, v);
            self.advance_to(next);
        }
        Ok(())
    }

    /// Fetches, decodes and executes one instruction.
    fn step(&mut self, code: &Vec<u32>, input: &Vec<u8>) -> (r: Result<(), ExecutionFault>)
        requires
            old(self).wf(),
            old(self).clk < u64::MAX,
            old(self).in_pos <= input@.len(),
        ensures
            match step_spec(code@, input@, old(self)@) {
                Ok(m) => r is Ok && final(self)@ == m && final(self).wf() && final(self).in_pos
                    <= input@.len(),
                Err(f) => r == Err::<(), ExecutionFault>(f),
            },
    {
        if self.pc % 4 != 0 || (self.pc / 4) as usize >= code.len() {
            return Err(ExecutionFault::IllegalFetch);
        }
        let w = code[(self.pc / 4) as usize];
        match decode(w) {
            None => Err(ExecutionFault::IllegalFetch),
            Some(inst) => {
                proof {
                    lemma_decode_regs(w);
                }
                self.events.push(Event::Cpu { clk: self.clk, pc: self.pc, word: w });
                self.execute_inst(input, inst)
            },
        }
    }
}

fn width_size(width: Width) -> (r: u32)
    ensures
        r == width_bytes(width),
{
    match width {
        Width::Byte => 1,
        Width::Half => 2,
        Width::Word => 4,
    }
}

fn mask_of(width: Width) -> (r: u32)
    ensures
        r == lane_mask(width),
{
    match width {
        Width::Byte => 0xff,
        Width::Half => 0xffff,
        Width::Word => 0xffff_ffff,
    }
}

/// The value a load of `width` at `addr` reads from `word`.
fn extract_exec(word: u32, addr: u32, width: Width, unsigned: bool) -> (r: u32)
    ensures
        r == extract(word, addr, width, unsigned),
{
    let sh: u32 = (addr % 4) * 8;
    let v = (word >> sh) & mask_of(width);
    match width {
        Width::Byte => if !unsigned && v >= 0x80 { v | 0xffff_ff00 } else { v },
        Width::Half => if !unsigned && v >= 0x8000 { v | 0xffff_0000 } else { v },
        Width::Word => v,
    }
}

/// `word` after a store of the low `width` bytes of `v` at `addr`.
fn merge_exec(word: u32, addr: u32, width: Width, v: u32) -> (r: u32)
    ensures
        r == merge(word, addr, width, v),
{
    let sh: u32 = (addr % 4) * 8;
    let m = mask_of(width);
    (word & !(m << sh)) | ((v & m) << sh)
}

/// Whether a branch with condition `cond` is taken on `b` and `c`.
fn branch_holds(cond: BranchCond, b: u32, c: u32) -> (r: bool)
    ensures
        r == branch_taken(cond, b, c),
{
    let nb = b >= 0x8000_0000;
    let nc = c >= 0x8000_0000;
    let lt = if nb != nc {
        nb
    } else {
        b < c
    };
    match cond {
        BranchCond::Eq => b == c,
        BranchCond::Ne => b != c,
        BranchCond::Lt => lt,
        BranchCond::Ge => !lt,
        BranchCond::Ltu => b < c,
        BranchCond::Geu => b >= c,
    }
}

/// Runs `program` on `input` for at most `max_cycles` steps. The outcome is
/// a function of the arguments alone: the record of the halted run, or the
/// first fault. A record passes the memory, program and ALU checks.
pub fn execute(program: &Program, input: &Vec<u8>, max_cycles: u64) -> (r: Result<
    ExecutionRecord,
    ExecutionFault,
>)
    ensures
        record_matches(r, run_spec(program.code@, program.image@, input@, max_cycles as nat)),
        r is Ok ==> memory_consistent(r->Ok_0.events@) && chips_consistent(
            program.code@,
            r->Ok_0.events@,
        ),
{
    proof {
        lemma_run_memory_consistent(program.code@, program.image@, input@, max_cycles as nat);
        lemma_run_chips_consistent(program.code@, program.image@, input@, max_cycles as nat);
    }
    let mut memory: HashMap<u32, (u32, u64)> = HashMap::new();
    let mut events: Vec<Event> = Vec::new();
    let mut i: usize = 0;
    while i < program.image.len()
        invariant
            i <= program.image@.len(),
            memory@ == image_memory(program.image@.take(i as int)),
            events@ == image_events(program.image@.take(i as int)),
        decreases program.image@.len() - i,
    {
        let (addr, value) = program.image[i];
        memory.insert(addr, (value, 0));
        events.push(Event::Memory { clk: 0, addr, value, write: true });
        proof {
            let s = program.image@.take(i + 1);
            assert(s.drop_last() =~= program.image@.take(i as int));
            assert(image_events(s) =~= image_events(program.image@.take(i as int)).push(
                Event::Memory { clk: 0, addr, value, write: true },
            ));
        }
        i = i + 1;
    }
    assert(program.image@.take(i as int) =~= program.image@);
    let mut ex = Executor {
        pc: 0,
        regs: vec![0u32; 32],
        memory,
        clk: 0,
        in_pos: 0,
        events,
        output: Vec::new(),
        halted: false,
    };
    assert(ex.regs@ =~= initial_state(program.image@).regs);
    assert(ex.output@ =~= Seq::<u8>::empty());
    let mut fuel: u64 = max_cycles;
    while !ex.halted
        invariant
            ex.wf(),
            ex.in_pos <= input@.len(),
            ex.clk as int + fuel as int == max_cycles as int,
            run_from(program.code@, input@, ex@, fuel as nat) == run_spec(
                program.code@,
                program.image@,
                input@,
                max_cycles as nat,
            ),
        decreases fuel,
    {
        if fuel == 0 {
            return Err(ExecutionFault::CycleLimitExceeded);
        }
        match ex.step(&program.code, input) {
            Err(f) => {
                return Err(f);
            },
            Ok(()) => {},
        }
        fuel = fuel - 1;
    }
    Ok(ExecutionRecord { events: ex.events, public_values: ex.output })
}

/// Determinism: two outcomes that each match the run of the same program on
/// the same input and step bound are equal: the same fault, or records with
/// the same events and the same public output.
pub proof fn lemma_run_deterministic(
    code: Seq<u32>,
    image: Seq<(u32, u32)>,
    input: Seq<u8>,
    max_cycles: nat,
    r1: Result<ExecutionRecord, ExecutionFault>,
    r2: Result<ExecutionRecord, ExecutionFault>,
)
    requires
        record_matches(r1, run_spec(code, image, input, max_cycles)),
        record_matches(r2, run_spec(code, image, input, max_cycles)),
    ensures
        r1 is Ok <==> r2 is Ok,
        r1 is Ok ==> r1->Ok_0.events@ == r2->Ok_0.events@ && r1->Ok_0.public_values@
            == r2->Ok_0.public_values@,
        r1 is Err ==> r1 == r2,
{
}

} // verus!
