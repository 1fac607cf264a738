//! Trace generation for the add and sub chips: one row per matching ALU
//! event of the record, in order, padded with zero rows to a power-of-two
//! height.
use crate::alu::{
    add_constraints, add_row, add_row_spec, lemma_add_row_sound, lemma_sub_row_sound,
    sub_constraints, sub_row, sub_row_spec, AluOp, CarryRow,
};
use crate::machine::Event;
use vstd::prelude::*;

verus! {

/// The honest row of `op` (an addition or a subtraction) on `b` and `c`.
pub open spec fn carry_row_spec(op: AluOp, b: u32, c: u32) -> CarryRow {
    if op == AluOp::Add {
        add_row_spec(b, c)
    } else {
        sub_row_spec(b, c)
    }
}

/// The constraints of the chip for `op` on a row.
pub open spec fn carry_constraints(op: AluOp, row: CarryRow) -> bool {
    if op == AluOp::Add {
        add_constraints(row)
    } else {
        sub_constraints(row)
    }
}

/// The rows for the `op` events of `events`, in order.
pub open spec fn carry_rows(events: Seq<Event>, op: AluOp) -> Seq<CarryRow>
    decreases events.len(),
{
    if events.len() == 0 {
        Seq::empty()
    } else {
        match events.last() {
            Event::Alu { op: o, b, c, .. } => if o == op {
                carry_rows(events.drop_last(), op).push(carry_row_spec(op, b, c))
            } else {
                carry_rows(events.drop_last(), op)
            },
            _ => carry_rows(events.drop_last(), op),
        }
    }
}

/// The least power of two that is at least `n`, starting the search at `p`.
pub open spec fn pow2_at_least(n: nat, p: nat) -> nat
    recommends
        p > 0,
    decreases (if p >= n { 0 } else { n - p }),
{
    if p >= n || p == 0 {
        p
    } else {
        pow2_at_least(n, 2 * p)
    }
}

/// The all-zero row, which every carry chip's constraints accept.
pub open spec fn zero_row() -> CarryRow {
    CarryRow { b: 0, c: 0, a: 0, carry: 0 }
}

/// The trace of the chip for `op`: its rows, then zero rows up to the least
/// power of two not below their number.
pub open spec fn carry_trace_spec(events: Seq<Event>, op: AluOp) -> Seq<CarryRow> {
    let rows = carry_rows(events, op);
    rows + Seq::new((pow2_at_least(rows.len(), 1) - rows.len()) as nat, |i: int| zero_row())
}

proof fn lemma_pow2_at_least(n: nat, p: nat)
    requires
        p > 0,
    ensures
        pow2_at_least(n, p) >= n,
        pow2_at_least(n, p) >= p,
        exists|k: nat| pow2_at_least(n, p) == p * vstd::arithmetic::power2::pow2(k),
    decreases (if p >= n { 0 } else { n - p }),
{
    if p >= n {
        assert(p == p * vstd::arithmetic::power2::pow2(0)) by {
            vstd::arithmetic::power2::lemma2_to64();
        }
    } else {
        lemma_pow2_at_least(n, 2 * p);
        let k = choose|k: nat| pow2_at_least(n, 2 * p) == 2 * p * vstd::arithmetic::power2::pow2(k);
        vstd::arithmetic::power2::lemma_pow2_unfold(k + 1);
        assert(2 * p * vstd::arithmetic::power2::pow2(k) == p * vstd::arithmetic::power2::pow2(k + 1)) by (nonlinear_arith)
            requires
                vstd::arithmetic::power2::pow2(k + 1) == 2 * vstd::arithmetic::power2::pow2(k),
        ;
    }
}

/// Every row of a generated trace satisfies its chip's constraints, and the
/// height is a power of two that holds all the rows.
pub proof fn lemma_carry_trace_valid(events: Seq<Event>, op: AluOp)
    requires
        op == AluOp::Add || op == AluOp::Sub,
    ensures
        forall|i: int|
            0 <= i < carry_trace_spec(events, op).len() ==> #[trigger] carry_constraints(
                op,
                carry_trace_spec(events, op)[i],
            ),
        carry_trace_spec(events, op).len() >= carry_rows(events, op).len(),
        exists|k: nat| carry_trace_spec(events, op).len() == vstd::arithmetic::power2::pow2(k),
{
    let rows = carry_rows(events, op);
    lemma_pow2_at_least(rows.len(), 1);
    lemma_rows_valid(events, op);
    let t = carry_trace_spec(events, op);
    assert forall|i: int| 0 <= i < t.len() implies #[trigger] carry_constraints(op, t[i]) by {
        if i < rows.len() {
            assert(t[i] == rows[i]);
        }
    }
}

proof fn lemma_rows_valid(events: Seq<Event>, op: AluOp)
    requires
        op == AluOp::Add || op == AluOp::Sub,
    ensures
        forall|i: int|
            0 <= i < carry_rows(events, op).len() ==> #[trigger] carry_constraints(
                op,
                carry_rows(events, op)[i],
            ),
    decreases events.len(),
{
    if events.len() > 0 {
        lemma_rows_valid(events.drop_last(), op);
        let rows = carry_rows(events, op);
        let prev = carry_rows(events.drop_last(), op);
        assert forall|i: int| 0 <= i < rows.len() implies #[trigger] carry_constraints(op, rows[i]) by {
            if i < prev.len() {
                assert(rows[i] == prev[i]);
            } else {
                let r = rows[i];
                lemma_add_row_sound(r);
                lemma_sub_row_sound(r);
            }
        }
    }
}

/// Generates the trace of the add chip (`op == Add`) or the sub chip
/// (`op == Sub`) from a record.
pub fn carry_trace(events: &Vec<Event>, op: AluOp) -> (r: Vec<CarryRow>)
    requires
        op == AluOp::Add || op == AluOp::Sub,
        events@.len() < 0x4000_0000,
    ensures
        r@ == carry_trace_spec(events@, op),
{
    let mut rows: Vec<CarryRow> = Vec::new();
    let mut i: usize = 0;
    while i < events.len()
        invariant
            i <= events@.len(),
            events@.len() < 0x4000_0000,
            op == AluOp::Add || op == AluOp::Sub,
            rows@ == carry_rows(events@.take(i as int), op),
            rows@.len() <= i,
        decreases events@.len() - i,
    {
        proof {
            assert(events@.take(i + 1).drop_last() =~= events@.take(i as int));
        }
        match events[i] {
            Event::Alu { op: o, b, c, .. } => {
                if o == op {
                    let row = if op == AluOp::Add {
                        add_row(b, c)
                    } else {
                        sub_row(b, c)
                    };
                    rows.push(row);
                }
            },
            _ => {},
        }
        i = i + 1;
    }
    assert(events@.take(i as int) =~= events@);
    let n = rows.len();
    let mut p: usize = 1;
    while p < n
        invariant
            p > 0,
            n < 0x4000_0000,
            p < 0x8000_0000,
            pow2_at_least(n as nat, p as nat) == pow2_at_least(n as nat, 1),
        decreases (if p >= n { 0 } else { n - p }),
    {
        p = p * 2;
    }
    let ghost full = rows@;
    while rows.len() < p
        invariant
            n == full.len(),
            rows@.len() <= p,
            rows@.len() >= n,
            p == pow2_at_least(n as nat, 1),
            forall|j: int| 0 <= j < n ==> rows@[j] == full[j],
            forall|j: int| n <= j < rows@.len() ==> rows@[j] == zero_row(),
        decreases p - rows@.len(),
    {
        rows.push(CarryRow { b: 0, c: 0, a: 0, carry: 0 });
    }
    assert(rows@ =~= carry_trace_spec(events@, op));
    rows
}

} // verus!
