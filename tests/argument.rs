use sp1_core::alu::{
    add_row, check_add_row, check_divu_row, check_mul_row, check_sub_row, divu_row, mul_row,
    sub_row, AluOp, CarryRow, DivRow, MulRow,
};
use sp1_core::chips::check_chips;
use sp1_core::executor::execute;
use sp1_core::field::{add_mod, inverse, mul_mod, pow_mod, sub_mod, P};
use sp1_core::lookup::{alu_interactions, alu_trace, lookup_sum, AluRow, Interaction};
use sp1_core::machine::{Event, Program};
use sp1_core::trace::carry_trace;

fn send(kind: u32, value: u32, multiplicity: u32) -> Interaction {
    Interaction { kind, values: (value, 0, 0), multiplicity, send: true }
}

fn receive(kind: u32, value: u32, multiplicity: u32) -> Interaction {
    Interaction { kind, values: (value, 0, 0), multiplicity, send: false }
}

#[test]
fn field_arithmetic_values() {
    assert_eq!(add_mod(P - 1, 5), 4);
    assert_eq!(sub_mod(3, 5), P - 2);
    assert_eq!(mul_mod(P - 1, P - 1), 1);
    assert_eq!(pow_mod(3, 0), 1);
    assert_eq!(pow_mod(2, 10), 1024);
    assert_eq!(pow_mod(2, 31), (1u64 << 31) % P);
    assert_eq!(inverse(0), 0);
    assert_eq!(inverse(1), 1);
    for a in [2u64, 3, 12345, P - 1, P / 2] {
        assert_eq!(mul_mod(a, inverse(a)), 1);
    }
}

#[test]
fn balanced_lookup_sums_to_zero() {
    let s = vec![
        send(1, 42, 1),
        send(2, 7, 2),
        receive(2, 7, 1),
        send(1, 42, 1),
        receive(1, 42, 2),
        receive(2, 7, 1),
    ];
    for (alpha, beta) in [(5u32, 9u32), (123_456, 77), (u32::MAX, 1)] {
        assert_eq!(lookup_sum(&s, alpha, beta), 0);
    }
    assert_eq!(lookup_sum(&vec![], 5, 9), 0);
}

#[test]
fn mutated_lookup_tuple_breaks_balance() {
    let good = vec![send(1, 42, 1), receive(1, 42, 1)];
    assert_eq!(lookup_sum(&good, 1000, 3), 0);
    let bad_value = vec![send(1, 42, 1), receive(1, 43, 1)];
    assert_ne!(lookup_sum(&bad_value, 1000, 3), 0);
    let bad_kind = vec![send(1, 42, 1), receive(2, 42, 1)];
    assert_ne!(lookup_sum(&bad_kind, 1000, 3), 0);
    let bad_mult = vec![send(1, 42, 2), receive(1, 42, 1)];
    assert_ne!(lookup_sum(&bad_mult, 1000, 3), 0);
}

#[test]
fn honest_record_lookups_balance_and_forgeries_do_not() {
    let code = vec![
        (7 << 20) | (1 << 7) | 0x13,
        (35 << 20) | (2 << 7) | 0x13,
        (2 << 20) | (1 << 15) | (10 << 7) | 0x33,
        (5 << 7) | 0x13,
        0x73,
    ];
    let rec = execute(&Program { code, image: vec![] }, &vec![], 100).unwrap();
    let trace = alu_trace(&rec.events);
    assert_eq!(trace.len(), 4);
    assert_eq!(trace[2], AluRow { op: AluOp::Add, a: 42, b: 7, c: 35 });
    let s = alu_interactions(&rec.events, &trace);
    assert_eq!(s.len(), 8);
    assert_eq!(s[2].kind, 0);
    assert_eq!(s[2].values, (42, 7, 35));
    assert!(s[2].send && !s[6].send);
    assert_eq!(s[6].values, (42, 7, 35));
    assert_eq!(lookup_sum(&s, 77, 5), 0);
    let mut forged = trace.clone();
    forged[2].a = 43;
    assert_ne!(lookup_sum(&alu_interactions(&rec.events, &forged), 77, 5), 0);
    let mut reordered = trace.clone();
    reordered.swap(0, 3);
    assert_eq!(lookup_sum(&alu_interactions(&rec.events, &reordered), 77, 5), 0);
    let missing = trace[..3].to_vec();
    assert_ne!(lookup_sum(&alu_interactions(&rec.events, &missing), 77, 5), 0);
}

#[test]
fn fingerprint_uses_every_word() {
    // kind 1, values (1, 1, 1), beta 2: 1 + 2 + 4 + 8 = 15; term = 1 / (20 - 15)
    let s = vec![Interaction { kind: 1, values: (1, 1, 1), multiplicity: 1, send: true }];
    assert_eq!(lookup_sum(&s, 20, 2), inverse(5));
    let t = vec![Interaction { kind: 1, values: (1, 1, 2), multiplicity: 3, send: true }];
    // fingerprint 1 + 2 + 4 + 16 = 23; term = 3 / (30 - 23)
    assert_eq!(lookup_sum(&t, 30, 2), mul_mod(3, inverse(7)));
}

#[test]
fn single_send_sum_is_its_term() {
    // fingerprint = 1 + 3 * 2 = 7; term = 1 / (10 - 7) = inverse(3)
    let s = vec![send(1, 2, 1)];
    assert_eq!(lookup_sum(&s, 10, 3), inverse(3));
    let r = vec![receive(1, 2, 1)];
    assert_eq!(lookup_sum(&r, 10, 3), P - inverse(3));
}

#[test]
fn carry_rows_accept_honest_and_reject_forged() {
    let r = add_row(u32::MAX, 1);
    assert_eq!(r, CarryRow { b: u32::MAX, c: 1, a: 0, carry: 1 });
    assert!(check_add_row(r));
    assert!(!check_add_row(CarryRow { a: 1, ..r }));
    assert!(!check_add_row(CarryRow { carry: 0, ..r }));
    assert!(!check_add_row(CarryRow { b: 5, c: 6, a: 11 + 0x1_0000_0000u64 as u32, carry: 2 }));
    let s = sub_row(0, 1);
    assert_eq!(s, CarryRow { b: 0, c: 1, a: u32::MAX, carry: 1 });
    assert!(check_sub_row(s));
    assert!(!check_sub_row(CarryRow { a: 0, ..s }));
    assert!(check_sub_row(sub_row(9, 4)));
    assert_eq!(sub_row(9, 4).a, 5);
}

#[test]
fn carry_trace_is_padded_to_power_of_two() {
    let alu = |op: AluOp, a: u32, b: u32, c: u32| Event::Alu { clk: 0, op, a, b, c };
    let events = vec![
        alu(AluOp::Add, 3, 1, 2),
        alu(AluOp::Sub, 1, 3, 2),
        alu(AluOp::Add, 0, u32::MAX, 1),
        Event::Cpu { clk: 1, pc: 0, word: 0x73 },
        alu(AluOp::Add, 10, 4, 6),
    ];
    let t = carry_trace(&events, AluOp::Add);
    assert_eq!(t.len(), 4);
    assert_eq!(t[0], CarryRow { b: 1, c: 2, a: 3, carry: 0 });
    assert_eq!(t[1], CarryRow { b: u32::MAX, c: 1, a: 0, carry: 1 });
    assert_eq!(t[3], CarryRow { b: 0, c: 0, a: 0, carry: 0 });
    assert!(t.iter().all(|r| check_add_row(*r)));
    let s = carry_trace(&events, AluOp::Sub);
    assert_eq!(s, vec![CarryRow { b: 3, c: 2, a: 1, carry: 0 }]);
    assert!(carry_trace(&vec![], AluOp::Add).len() == 1);
}

#[test]
fn chips_accept_executor_records_and_reject_forged_events() {
    let code = vec![
        (7 << 20) | (1 << 7) | 0x13,
        (35 << 20) | (2 << 7) | 0x13,
        (2 << 20) | (1 << 15) | (10 << 7) | 0x33,
        (5 << 7) | 0x13,
        0x73,
    ];
    let p = Program { code: code.clone(), image: vec![] };
    let rec = execute(&p, &vec![], 100).unwrap();
    assert!(check_chips(&code, &rec.events));
    let mut forged = rec.events.clone();
    for e in forged.iter_mut() {
        if let Event::Alu { a, b: 7, c: 35, .. } = e {
            *a = 43;
        }
    }
    assert!(!check_chips(&code, &forged));
    let mut refetched = rec.events.clone();
    refetched[0] = Event::Cpu { clk: 0, pc: 0, word: 0x73 };
    assert!(!check_chips(&code, &refetched));
    let past_end = vec![Event::Cpu { clk: 0, pc: 20, word: 0x73 }];
    assert!(!check_chips(&code, &past_end));
}

#[test]
fn mul_and_divu_rows_accept_honest_and_reject_forged() {
    let m = mul_row(u32::MAX, u32::MAX);
    assert_eq!(m, MulRow { b: u32::MAX, c: u32::MAX, lo: 1, hi: 0xffff_fffe });
    assert!(check_mul_row(m));
    assert!(!check_mul_row(MulRow { lo: 2, ..m }));
    assert!(!check_mul_row(MulRow { hi: 0, ..m }));
    assert!(check_mul_row(mul_row(0x1_0001, 0x1_0001)));
    let d = divu_row(17, 5);
    assert_eq!(d, DivRow { b: 17, c: 5, q: 3, r: 2 });
    assert!(check_divu_row(d));
    assert!(!check_divu_row(DivRow { q: 2, r: 7, ..d }));
    assert!(!check_divu_row(DivRow { q: 4, r: 0, ..d }));
    let z = divu_row(9, 0);
    assert_eq!(z, DivRow { b: 9, c: 0, q: u32::MAX, r: 9 });
    assert!(check_divu_row(z));
    assert!(!check_divu_row(DivRow { q: 0, ..z }));
}
