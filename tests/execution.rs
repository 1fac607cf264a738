use sp1_core::alu::{alu_exec, AluOp};
use sp1_core::executor::execute;
use sp1_core::isa::{decode, BranchCond, Instruction, Width};
use sp1_core::machine::{Event, ExecutionFault, Program};
use sp1_core::memory::{check_memory, check_sorted_memory, sorted_memory_trace};

fn i_type(imm: i32, rs1: u32, f3: u32, rd: u32, opc: u32) -> u32 {
    ((imm as u32) << 20) | (rs1 << 15) | (f3 << 12) | (rd << 7) | opc
}

fn r_type(f7: u32, rs2: u32, rs1: u32, f3: u32, rd: u32) -> u32 {
    (f7 << 25) | (rs2 << 20) | (rs1 << 15) | (f3 << 12) | (rd << 7) | 0x33
}

fn s_type(imm: i32, rs2: u32, rs1: u32) -> u32 {
    let imm = imm as u32;
    ((imm >> 5) << 25) | (rs2 << 20) | (rs1 << 15) | (2 << 12) | ((imm & 0x1f) << 7) | 0x23
}

fn addi(rd: u32, rs1: u32, imm: i32) -> u32 {
    i_type(imm, rs1, 0, rd, 0x13)
}

fn lw(rd: u32, rs1: u32, imm: i32) -> u32 {
    i_type(imm, rs1, 2, rd, 0x03)
}

fn jal(rd: u32, imm: i32) -> u32 {
    let imm = imm as u32;
    (((imm >> 20) & 1) << 31)
        | (((imm >> 1) & 0x3ff) << 21)
        | (((imm >> 11) & 1) << 20)
        | (((imm >> 12) & 0xff) << 12)
        | (rd << 7)
        | 0x6f
}

fn bne(rs1: u32, rs2: u32, imm: i32) -> u32 {
    let imm = imm as u32;
    (((imm >> 12) & 1) << 31)
        | (((imm >> 5) & 0x3f) << 25)
        | (rs2 << 20)
        | (rs1 << 15)
        | (1 << 12)
        | (((imm >> 1) & 0xf) << 8)
        | (((imm >> 11) & 1) << 7)
        | 0x63
}

const ECALL: u32 = 0x73;

fn syscall(code: i32) -> Vec<u32> {
    vec![addi(5, 0, code), ECALL]
}

fn halt() -> Vec<u32> {
    syscall(0)
}

fn program(parts: Vec<Vec<u32>>) -> Program {
    Program { code: parts.concat(), image: vec![] }
}

fn add_program() -> Program {
    program(vec![
        vec![addi(1, 0, 7), addi(2, 0, 35), r_type(0, 2, 1, 0, 10)],
        syscall(2),
        halt(),
    ])
}

#[test]
fn add_scenario_records_one_addition() {
    let rec = execute(&add_program(), &vec![], 100).unwrap();
    let adds: Vec<&Event> = rec
        .events
        .iter()
        .filter(|e| {
            matches!(e, Event::Alu { op: AluOp::Add, a: 42, b: 7, c: 35, .. })
        })
        .collect();
    assert_eq!(adds.len(), 1);
    assert_eq!(rec.public_values, vec![42, 0, 0, 0]);
    assert_eq!(u32::from_le_bytes([42, 0, 0, 0]), 42);
}

#[test]
fn execution_is_deterministic() {
    let p = program(vec![
        vec![addi(10, 0, 5), s_type(16, 10, 0), lw(11, 0, 16)],
        vec![r_type(1, 11, 10, 0, 10)],
        syscall(2),
        halt(),
    ]);
    let a = execute(&p, &vec![1, 2, 3], 1000).unwrap();
    let b = execute(&p, &vec![1, 2, 3], 1000).unwrap();
    assert_eq!(a.events, b.events);
    assert_eq!(a.public_values, b.public_values);
    assert_eq!(a.public_values, vec![25, 0, 0, 0]);
}

#[test]
fn load_returns_last_store_or_zero() {
    let p = program(vec![
        vec![lw(10, 0, 64)],
        syscall(2),
        vec![addi(12, 0, 9), s_type(64, 12, 0), addi(12, 0, 11), s_type(64, 12, 0)],
        vec![lw(10, 0, 64)],
        syscall(2),
        halt(),
    ]);
    let rec = execute(&p, &vec![], 1000).unwrap();
    assert_eq!(rec.public_values, vec![0, 0, 0, 0, 11, 0, 0, 0]);
    assert!(check_memory(&rec.events));
}

#[test]
fn image_is_initial_memory() {
    let mut p = program(vec![vec![lw(10, 0, 8)], syscall(2), halt()]);
    p.image = vec![(8, 1), (8, 0x0403_0201)];
    let rec = execute(&p, &vec![], 100).unwrap();
    assert_eq!(rec.public_values, vec![1, 2, 3, 4]);
    assert_eq!(
        rec.events[0],
        Event::Memory { clk: 0, addr: 8, value: 1, write: true }
    );
}

#[test]
fn read_syscall_takes_little_endian_words() {
    let p = program(vec![syscall(1), syscall(2), halt()]);
    let rec = execute(&p, &vec![0x78, 0x56, 0x34, 0x12], 100).unwrap();
    assert_eq!(rec.public_values, vec![0x78, 0x56, 0x34, 0x12]);
    assert!(rec
        .events
        .iter()
        .any(|e| matches!(e, Event::Syscall { code: 1, .. })));
}

#[test]
fn read_past_input_faults() {
    let p = program(vec![syscall(1), halt()]);
    assert_eq!(
        execute(&p, &vec![1, 2, 3], 100).unwrap_err(),
        ExecutionFault::InputExhausted
    );
}

#[test]
fn misaligned_load_faults() {
    let p = program(vec![vec![lw(10, 0, 6)], halt()]);
    assert_eq!(
        execute(&p, &vec![], 100).unwrap_err(),
        ExecutionFault::MisalignedAccess
    );
}

#[test]
fn misaligned_store_faults() {
    let p = program(vec![vec![s_type(3, 0, 0)], halt()]);
    assert_eq!(
        execute(&p, &vec![], 100).unwrap_err(),
        ExecutionFault::MisalignedAccess
    );
}

#[test]
fn running_off_the_code_faults() {
    let p = program(vec![vec![addi(1, 0, 1)]]);
    assert_eq!(
        execute(&p, &vec![], 100).unwrap_err(),
        ExecutionFault::IllegalFetch
    );
}

#[test]
fn undecodable_word_faults() {
    let p = Program { code: vec![0xffff_ffff], image: vec![] };
    assert_eq!(
        execute(&p, &vec![], 100).unwrap_err(),
        ExecutionFault::IllegalFetch
    );
}

#[test]
fn unknown_syscall_faults() {
    let p = program(vec![syscall(77)]);
    assert_eq!(
        execute(&p, &vec![], 100).unwrap_err(),
        ExecutionFault::IllegalFetch
    );
}

#[test]
fn endless_loop_hits_cycle_limit() {
    let p = program(vec![vec![jal(0, 0)]]);
    assert_eq!(
        execute(&p, &vec![], 50).unwrap_err(),
        ExecutionFault::CycleLimitExceeded
    );
}

#[test]
fn zero_cycle_budget_stops_before_any_step() {
    assert_eq!(
        execute(&add_program(), &vec![], 0).unwrap_err(),
        ExecutionFault::CycleLimitExceeded
    );
}

#[test]
fn counted_loop_with_branch() {
    // x10 = 0; x11 = 5; loop: x10 += 3; x11 -= 1; bne x11, x0, loop
    let p = program(vec![
        vec![addi(10, 0, 0), addi(11, 0, 5)],
        vec![addi(10, 10, 3), addi(11, 11, -1), bne(11, 0, -8)],
        syscall(2),
        halt(),
    ]);
    let rec = execute(&p, &vec![], 1000).unwrap();
    assert_eq!(rec.public_values, vec![15, 0, 0, 0]);
}

#[test]
fn register_zero_stays_zero() {
    let p = program(vec![vec![addi(0, 0, 9), addi(10, 0, 0)], syscall(2), halt()]);
    let rec = execute(&p, &vec![], 100).unwrap();
    assert_eq!(rec.public_values, vec![0, 0, 0, 0]);
}

#[test]
fn decode_known_and_unknown_words() {
    assert_eq!(
        decode(addi(1, 2, -1)),
        Some(Instruction::AluImm { op: AluOp::Add, rd: 1, rs1: 2, imm: 0xffff_ffff })
    );
    assert_eq!(
        decode(r_type(0x20, 3, 2, 0, 1)),
        Some(Instruction::Alu { op: AluOp::Sub, rd: 1, rs1: 2, rs2: 3 })
    );
    assert_eq!(
        decode(s_type(-4, 7, 8)),
        Some(Instruction::Store { width: Width::Word, rs1: 8, rs2: 7, imm: 0xffff_fffc })
    );
    assert_eq!(
        decode(bne(1, 2, -8)),
        Some(Instruction::Branch { cond: BranchCond::Ne, rs1: 1, rs2: 2, imm: 0xffff_fff8 })
    );
    assert_eq!(decode(jal(1, 2048)), Some(Instruction::Jal { rd: 1, imm: 2048 }));
    assert_eq!(decode(0x0000_1037), Some(Instruction::Lui { rd: 0, imm: 0x1000 }));
    assert_eq!(decode(ECALL), Some(Instruction::Ecall));
    assert_eq!(decode(r_type(0x20, 3, 2, 1, 1)), None);
    assert_eq!(decode(0), None);
}

#[test]
fn alu_boundary_values() {
    let max = u32::MAX;
    let min_signed = 0x8000_0000u32;
    assert_eq!(alu_exec(AluOp::Add, max, 1), 0);
    assert_eq!(alu_exec(AluOp::Sub, 0, 1), max);
    assert_eq!(alu_exec(AluOp::Mul, 0x1_0001, 0x1_0001), 0x2_0001);
    assert_eq!(alu_exec(AluOp::Sll, 1, 31), min_signed);
    assert_eq!(alu_exec(AluOp::Sll, 1, 32), 1);
    assert_eq!(alu_exec(AluOp::Sll, 3, 33), 6);
    assert_eq!(alu_exec(AluOp::Srl, min_signed, 31), 1);
    assert_eq!(alu_exec(AluOp::Srl, min_signed, 32), min_signed);
    assert_eq!(alu_exec(AluOp::Sra, min_signed, 31), max);
    assert_eq!(alu_exec(AluOp::Sra, 0xffff_fff9, 1), 0xffff_fffc);
    assert_eq!(alu_exec(AluOp::Sra, 0x7fff_ffff, 30), 1);
    assert_eq!(alu_exec(AluOp::Slt, max, 0), 1);
    assert_eq!(alu_exec(AluOp::Slt, 0, max), 0);
    assert_eq!(alu_exec(AluOp::Sltu, 0, max), 1);
    assert_eq!(alu_exec(AluOp::Xor, 0xf0f0, 0xff00), 0x0ff0);
    assert_eq!(alu_exec(AluOp::Or, 0xf0f0, 0xff00), 0xfff0);
    assert_eq!(alu_exec(AluOp::And, 0xf0f0, 0xff00), 0xf000);
    assert_eq!(alu_exec(AluOp::Div, 7, 0), max);
    assert_eq!(alu_exec(AluOp::Divu, 7, 0), max);
    assert_eq!(alu_exec(AluOp::Rem, 7, 0), 7);
    assert_eq!(alu_exec(AluOp::Remu, 7, 0), 7);
    assert_eq!(alu_exec(AluOp::Div, min_signed, max), min_signed);
    assert_eq!(alu_exec(AluOp::Rem, min_signed, max), 0);
    assert_eq!(alu_exec(AluOp::Div, (-7i32) as u32, 2), (-3i32) as u32);
    assert_eq!(alu_exec(AluOp::Rem, (-7i32) as u32, 2), (-1i32) as u32);
    assert_eq!(alu_exec(AluOp::Div, 7, (-2i32) as u32), (-3i32) as u32);
    assert_eq!(alu_exec(AluOp::Rem, 7, (-2i32) as u32), 1);
    assert_eq!(alu_exec(AluOp::Divu, max, 2), 0x7fff_ffff);
    assert_eq!(alu_exec(AluOp::Remu, max, 2), 1);
}

#[test]
fn alu_matches_native_arithmetic() {
    let samples = [0u32, 1, 2, 7, 31, 32, 33, 0x7fff_ffff, 0x8000_0000, 0xffff_fffe, u32::MAX];
    for &b in samples.iter() {
        for &c in samples.iter() {
            let (sb, sc) = (b as i32, c as i32);
            assert_eq!(alu_exec(AluOp::Add, b, c), b.wrapping_add(c));
            assert_eq!(alu_exec(AluOp::Sub, b, c), b.wrapping_sub(c));
            assert_eq!(alu_exec(AluOp::Mul, b, c), b.wrapping_mul(c));
            assert_eq!(alu_exec(AluOp::Sll, b, c), b.wrapping_shl(c));
            assert_eq!(alu_exec(AluOp::Srl, b, c), b.wrapping_shr(c));
            assert_eq!(alu_exec(AluOp::Sra, b, c), sb.wrapping_shr(c) as u32);
            if c != 0 {
                assert_eq!(alu_exec(AluOp::Div, b, c), sb.wrapping_div(sc) as u32);
                assert_eq!(alu_exec(AluOp::Rem, b, c), sb.wrapping_rem(sc) as u32);
                assert_eq!(alu_exec(AluOp::Divu, b, c), b / c);
                assert_eq!(alu_exec(AluOp::Remu, b, c), b % c);
            }
        }
    }
}

#[test]
fn memory_checker_rejects_stale_read() {
    let write = |clk: u64, value: u32| Event::Memory { clk, addr: 16, value, write: true };
    let read = |clk: u64, addr: u32, value: u32| Event::Memory { clk, addr, value, write: false };
    let good = vec![write(1, 5), read(2, 16, 5), write(3, 6), read(4, 16, 6), read(5, 20, 0)];
    assert!(check_memory(&good));
    let stale = vec![write(1, 5), write(3, 6), read(4, 16, 5)];
    assert!(!check_memory(&stale));
    let unwritten = vec![write(1, 5), read(2, 20, 5)];
    assert!(!check_memory(&unwritten));
    assert!(check_memory(&vec![]));
}

#[test]
fn sorted_memory_trace_of_record_passes_chip() {
    let mut p = program(vec![
        vec![lw(10, 0, 8), addi(12, 0, 9), s_type(4, 12, 0), lw(11, 0, 4)],
        vec![s_type(8, 11, 0), lw(13, 0, 8), lw(14, 0, 12)],
        halt(),
    ]);
    p.image = vec![(8, 5)];
    let rec = execute(&p, &vec![], 100).unwrap();
    let rows = sorted_memory_trace(&rec.events);
    let accesses = rec.events.iter().filter(|e| matches!(e, Event::Memory { .. })).count();
    assert_eq!(rows.len(), accesses);
    let keys: Vec<(u32, u64)> = rows
        .iter()
        .map(|e| match e {
            Event::Memory { addr, clk, .. } => (*addr, *clk),
            _ => panic!("not an access"),
        })
        .collect();
    let mut sorted = keys.clone();
    sorted.sort();
    assert_eq!(keys, sorted);
    assert!(check_sorted_memory(&rows));
}

#[test]
fn sorted_memory_chip_rejects_forged_rows() {
    let row = |addr: u32, clk: u64, value: u32, write: bool| Event::Memory { clk, addr, value, write };
    let good = vec![row(4, 1, 9, true), row(4, 3, 9, false), row(8, 0, 5, true), row(8, 2, 5, false), row(12, 4, 0, false)];
    assert!(check_sorted_memory(&good));
    let mut stale = good.clone();
    stale[1] = row(4, 3, 7, false);
    assert!(!check_sorted_memory(&stale));
    let mut fresh = good.clone();
    fresh[4] = row(12, 4, 1, false);
    assert!(!check_sorted_memory(&fresh));
    let unsorted = vec![row(8, 0, 5, true), row(4, 1, 9, true)];
    assert!(!check_sorted_memory(&unsorted));
    let late = vec![row(4, 5, 9, true), row(4, 1, 9, false)];
    assert!(!check_sorted_memory(&late));
    let not_access = vec![Event::Cpu { clk: 0, pc: 0, word: 0x73 }];
    assert!(!check_sorted_memory(&not_access));
    assert!(check_sorted_memory(&vec![]));
}

fn branch(f3: u32, rs1: u32, rs2: u32, imm: i32) -> u32 {
    (bne(rs1, rs2, imm) & !(0x7 << 12)) | (f3 << 12)
}

#[test]
fn jumps_link_and_upper_immediate() {
    // 0: jal x1, 8        -> x1 = 4, jump to 8
    // 4: (skipped) addi x10, x0, 99
    // 8: lui x10, 0x12345000
    // 12: addi x6, x0, 25 ; 16: jalr x7, x6, -1 -> target (25 - 1) & !1 = 24, x7 = 20
    // 20: (skipped) addi x10, x0, 1
    // 24: add x10, x10, x1 ; add x10, x10, x7 ; write ; halt
    let code = vec![
        jal(1, 8),
        addi(10, 0, 99),
        0x1234_5000 | (10 << 7) | 0x37,
        addi(6, 0, 25),
        i_type(-1, 6, 0, 7, 0x67),
        addi(10, 0, 1),
        r_type(0, 1, 10, 0, 10),
        r_type(0, 7, 10, 0, 10),
    ];
    let p = program(vec![code, syscall(2), halt()]);
    let rec = execute(&p, &vec![], 100).unwrap();
    let v = 0x1234_5000u32 + 4 + 20;
    assert_eq!(rec.public_values, v.to_le_bytes().to_vec());
}

#[test]
fn branch_conditions_signed_and_unsigned() {
    // x1 = -1, x2 = 1. Each taken branch skips an `addi x10, x10, 1`.
    let mut code = vec![addi(1, 0, -1), addi(2, 0, 1), addi(10, 0, 0)];
    for (f3, rs1, rs2) in [(0, 1, 1), (1, 1, 2), (4, 1, 2), (5, 2, 1), (6, 2, 1), (7, 1, 2)] {
        code.push(branch(f3, rs1, rs2, 8));
        code.push(addi(10, 10, 1));
    }
    for (f3, rs1, rs2) in [(0, 1, 2), (1, 1, 1), (4, 2, 1), (5, 1, 2), (6, 1, 2), (7, 2, 1)] {
        code.push(branch(f3, rs1, rs2, 8));
        code.push(addi(10, 10, 1));
    }
    let p = program(vec![code, syscall(2), halt()]);
    let rec = execute(&p, &vec![], 100).unwrap();
    assert_eq!(rec.public_values, vec![6, 0, 0, 0]);
}

fn load(f3: u32, rd: u32, rs1: u32, imm: i32) -> u32 {
    i_type(imm, rs1, f3, rd, 0x03)
}

fn store(f3: u32, rs2: u32, rs1: u32, imm: i32) -> u32 {
    (s_type(imm, rs2, rs1) & !(0x7 << 12)) | (f3 << 12)
}

fn write_reg(r: u32) -> Vec<u32> {
    vec![addi(10, r, 0), addi(5, 0, 2), ECALL]
}

#[test]
fn byte_and_half_word_access() {
    let mut p = program(vec![
        // word at 16 = 0x8281_7f80
        vec![load(0, 1, 0, 16), load(4, 2, 0, 16), load(0, 3, 0, 19)],
        vec![load(1, 4, 0, 18), load(5, 6, 0, 18)],
        // store the low byte 0x55 of 0x155 at 17
        vec![addi(7, 0, 0x155), store(0, 7, 0, 17)],
        write_reg(1),
        write_reg(2),
        write_reg(3),
        write_reg(4),
        write_reg(6),
        vec![load(2, 11, 0, 16)],
        write_reg(11),
        // store the half 0x07ff at 22, then read the word at 20
        vec![addi(12, 0, 0x7ff), store(1, 12, 0, 22), load(2, 13, 0, 20)],
        write_reg(13),
        halt(),
    ]);
    p.image = vec![(16, 0x8281_7f80)];
    let rec = execute(&p, &vec![], 1000).unwrap();
    let words: Vec<u32> = rec
        .public_values
        .chunks(4)
        .map(|c| u32::from_le_bytes([c[0], c[1], c[2], c[3]]))
        .collect();
    assert_eq!(
        words,
        vec![0xffff_ff80, 0x80, 0xffff_ff82, 0xffff_8281, 0x8281, 0x8281_5580, 0x07ff_0000]
    );
}

#[test]
fn misaligned_half_and_word_fault_but_bytes_do_not() {
    let lh = program(vec![vec![load(1, 1, 0, 1)], halt()]);
    assert_eq!(execute(&lh, &vec![], 10).unwrap_err(), ExecutionFault::MisalignedAccess);
    let sh = program(vec![vec![store(1, 0, 0, 3)], halt()]);
    assert_eq!(execute(&sh, &vec![], 10).unwrap_err(), ExecutionFault::MisalignedAccess);
    let lw = program(vec![vec![load(2, 1, 0, 2)], halt()]);
    assert_eq!(execute(&lw, &vec![], 10).unwrap_err(), ExecutionFault::MisalignedAccess);
    let lb = program(vec![vec![load(0, 1, 0, 3), store(0, 0, 0, 5)], halt()]);
    assert!(execute(&lb, &vec![], 10).is_ok());
    let bad_width = program(vec![vec![load(3, 1, 0, 0)], halt()]);
    assert_eq!(execute(&bad_width, &vec![], 10).unwrap_err(), ExecutionFault::IllegalFetch);
}

#[test]
fn auipc_adds_the_pc() {
    // 0: addi ; 4: auipc x10, 0x1000
    let p = program(vec![vec![addi(0, 0, 0), 0x0000_1000 | (10 << 7) | 0x17], syscall(2), halt()]);
    let rec = execute(&p, &vec![], 10).unwrap();
    assert_eq!(rec.public_values, 0x1004u32.to_le_bytes().to_vec());
}

#[test]
fn high_multiplies_of_all_ones() {
    // x1 = x2 = 0xffff_ffff; MUL, MULH, MULHU, MULHSU published in order
    let p = program(vec![
        vec![addi(1, 0, -1), addi(2, 0, -1)],
        vec![r_type(1, 2, 1, 0, 20), r_type(1, 2, 1, 1, 21), r_type(1, 2, 1, 3, 22), r_type(1, 2, 1, 2, 23)],
        write_reg(20),
        write_reg(21),
        write_reg(22),
        write_reg(23),
        halt(),
    ]);
    let rec = execute(&p, &vec![], 100).unwrap();
    let mut expected = vec![];
    for w in [1u32, 0, 0xffff_fffe, 0xffff_ffff] {
        expected.extend_from_slice(&w.to_le_bytes());
    }
    assert_eq!(rec.public_values, expected);
}

#[test]
fn high_multiplies_match_wide_products() {
    let samples = [0u32, 1, 2, 7, 0x7fff_ffff, 0x8000_0000, 0x8000_0001, 0xffff_fffe, u32::MAX];
    for &b in samples.iter() {
        for &c in samples.iter() {
            let (sb, sc) = (b as i32 as i64, c as i32 as i64);
            assert_eq!(alu_exec(AluOp::Mulh, b, c), ((sb * sc) >> 32) as u32);
            assert_eq!(alu_exec(AluOp::Mulhsu, b, c), ((sb * c as i64) >> 32) as u32);
            assert_eq!(alu_exec(AluOp::Mulhu, b, c), ((b as u64 * c as u64) >> 32) as u32);
        }
    }
}
