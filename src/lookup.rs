//! The cross-table lookup argument. Each interaction sends (requests) or
//! receives (provides) a tuple `(kind, values)` with a multiplicity. The
//! running sum adds `multiplicity / (alpha - fingerprint)` for a send and
//! subtracts it for a receive; when every tuple is sent and received equally
//! often, the sum is the additive identity.
use crate::alu::AluOp;
use crate::field::{add_mod, inverse, inverse_spec, mul_mod, reduce, sub_mod, P};
use crate::machine::Event;
use vstd::prelude::*;

verus! {

/// One entry of a lookup relation.
#[derive(Clone, Copy, Debug)]
pub struct Interaction {
    pub kind: u32,
    pub values: (u32, u32, u32),
    pub multiplicity: u32,
    pub send: bool,
}

/// A looked-up tuple: the table it belongs to and three words.
pub type Key = (u32, (u32, u32, u32));

/// The tuple that an interaction is about.
pub open spec fn key(i: Interaction) -> Key {
    (i.kind, i.values)
}

/// The multiplicity with the sign of the interaction's side.
pub open spec fn signed_mult(i: Interaction) -> int {
    if i.send {
        i.multiplicity as int
    } else {
        -(i.multiplicity as int)
    }
}

/// How many more times `k` is sent than received.
pub open spec fn net(s: Seq<Interaction>, k: Key) -> int
    decreases s.len(),
{
    if s.len() == 0 {
        0
    } else {
        net(s.drop_last(), k) + if key(s.last()) == k {
            signed_mult(s.last())
        } else {
            0
        }
    }
}

/// Every tuple is sent and received equally often.
pub open spec fn balanced(s: Seq<Interaction>) -> bool {
    forall|k: Key| #[trigger] net(s, k) == 0
}

/// Sum of the signed multiplicities weighted by `f` of each tuple.
pub open spec fn weighted(s: Seq<Interaction>, f: spec_fn(Key) -> int) -> int
    decreases s.len(),
{
    if s.len() == 0 {
        0
    } else {
        weighted(s.drop_last(), f) + signed_mult(s.last()) * f(key(s.last()))
    }
}

/// The interactions about `k`.
pub open spec fn only(s: Seq<Interaction>, k: Key) -> Seq<Interaction>
    decreases s.len(),
{
    if s.len() == 0 {
        s
    } else if key(s.last()) == k {
        only(s.drop_last(), k).push(s.last())
    } else {
        only(s.drop_last(), k)
    }
}

/// The interactions about anything but `k`.
pub open spec fn except(s: Seq<Interaction>, k: Key) -> Seq<Interaction>
    decreases s.len(),
{
    if s.len() == 0 {
        s
    } else if key(s.last()) == k {
        except(s.drop_last(), k)
    } else {
        except(s.drop_last(), k).push(s.last())
    }
}

/// The fingerprint of a tuple: `kind + beta*v0 + beta^2*v1 + beta^3*v2`
/// in the field, in Horner form.
pub open spec fn fingerprint(k: Key, beta: u32) -> int {
    reduce(k.0 + beta * (k.1.0 + beta * (k.1.1 + beta * k.1.2)))
}

/// The term `1 / (alpha - fingerprint)` of a tuple.
pub open spec fn term(k: Key, alpha: u32, beta: u32) -> int {
    inverse_spec(alpha - fingerprint(k, beta))
}

/// The running sum of `s` in the field, for challenges `alpha` and `beta`.
pub open spec fn lookup_sum_spec(s: Seq<Interaction>, alpha: u32, beta: u32) -> int {
    reduce(weighted(s, |k: Key| term(k, alpha, beta)))
}

proof fn lemma_split(s: Seq<Interaction>, k: Key, f: spec_fn(Key) -> int)
    ensures
        weighted(s, f) == weighted(only(s, k), f) + weighted(except(s, k), f),
        except(s, k).len() <= s.len(),
        forall|j: Key| #[trigger]
            net(except(s, k), j) == if j == k {
                0
            } else {
                net(s, j)
            },
    decreases s.len(),
{
    if s.len() > 0 {
        let t = s.drop_last();
        lemma_split(t, k, f);
        let e = s.last();
        if key(e) == k {
            assert(only(s, k).drop_last() =~= only(t, k));
        } else {
            assert(except(s, k).drop_last() =~= except(t, k));
        }
        assert forall|j: Key| #[trigger]
            net(except(s, k), j) == if j == k {
                0
            } else {
                net(s, j)
            } by {
            assert(net(except(t, k), j) == if j == k {
                0
            } else {
                net(t, j)
            });
        }
    }
}

proof fn lemma_only_weighted(s: Seq<Interaction>, k: Key, f: spec_fn(Key) -> int)
    ensures
        weighted(only(s, k), f) == net(s, k) * f(k),
    decreases s.len(),
{
    if s.len() > 0 {
        let t = s.drop_last();
        lemma_only_weighted(t, k, f);
        if key(s.last()) == k {
            assert(only(s, k).drop_last() =~= only(t, k));
            let n = net(t, k);
            let d = signed_mult(s.last());
            assert((n + d) * f(k) == n * f(k) + d * f(k)) by (nonlinear_arith);
        }
    }
}

/// A balanced relation has weighted sum zero, whatever the weights.
proof fn lemma_balanced_weighted(s: Seq<Interaction>, f: spec_fn(Key) -> int)
    requires
        balanced(s),
    ensures
        weighted(s, f) == 0,
    decreases s.len(),
{
    if s.len() > 0 {
        let k = key(s.last());
        lemma_split(s, k, f);
        lemma_only_weighted(s, k, f);
        let rest = except(s, k);
        assert(rest.len() < s.len()) by {
            let t = s.drop_last();
            lemma_split(t, k, f);
            assert(rest =~= except(t, k));
        }
        assert forall|j: Key| #[trigger] net(rest, j) == 0 by {
            assert(net(s, j) == 0);
        }
        lemma_balanced_weighted(rest, f);
    }
}

/// Lookup balance: when every requested tuple is provided with the same
/// multiplicity, the running sum is the additive identity, for every choice
/// of the challenges.
pub proof fn lemma_lookup_balance(s: Seq<Interaction>, alpha: u32, beta: u32)
    requires
        balanced(s),
    ensures
        lookup_sum_spec(s, alpha, beta) == 0,
{
    lemma_balanced_weighted(s, |k: Key| term(k, alpha, beta));
}

proof fn lemma_reduce_inner(x: int, beta: int, y: int)
    ensures
        reduce(x + beta * reduce(y)) == reduce(x + beta * y),
{
    let m = P as int;
    vstd::arithmetic::div_mod::lemma_mul_mod_noop_right(beta, y, m);
    vstd::arithmetic::div_mod::lemma_add_mod_noop_right(x, beta * reduce(y), m);
    vstd::arithmetic::div_mod::lemma_add_mod_noop_right(x, beta * y, m);
}

/// `x + beta * t` in the field.
fn mul_add(x: u32, beta: u32, t: u64) -> (r: u64)
    requires
        t < P,
    ensures
        r as int == reduce(x + beta * t),
        r < P,
{
    proof {
        let m = P as int;
        vstd::arithmetic::div_mod::lemma_mul_mod_noop_left(beta as int, t as int, m);
        vstd::arithmetic::div_mod::lemma_add_mod_noop(x as int, beta * t, m);
        vstd::arithmetic::div_mod::lemma_mod_twice(beta * t, m);
    }
    add_mod(x as u64 % P, mul_mod(beta as u64 % P, t))
}

/// The fingerprint of a tuple, computed.
fn fingerprint_exec(kind: u32, values: (u32, u32, u32), beta: u32) -> (r: u64)
    ensures
        r as int == fingerprint((kind, values), beta),
        r < P,
{
    let (v0, v1, v2) = values;
    let t = mul_add(v2, beta, 0);
    let t = mul_add(v1, beta, t);
    proof {
        lemma_reduce_inner(v1 as int, beta as int, v2 as int);
    }
    let t = mul_add(v0, beta, t);
    proof {
        lemma_reduce_inner(v0 as int, beta as int, v1 + beta * v2);
    }
    let t = mul_add(kind, beta, t);
    proof {
        lemma_reduce_inner(kind as int, beta as int, v0 + beta * (v1 + beta * v2));
    }
    t
}

/// Computes the running sum of `interactions` in the field for challenges
/// `alpha` and `beta`.
pub fn lookup_sum(interactions: &Vec<Interaction>, alpha: u32, beta: u32) -> (r: u64)
    ensures
        r as int == lookup_sum_spec(interactions@, alpha, beta),
{
    let ghost f = |k: Key| term(k, alpha, beta);
    let a = alpha as u64 % P;
    let mut acc: u64 = 0;
    let mut i: usize = 0;
    while i < interactions.len()
        invariant
            i <= interactions@.len(),
            acc < P,
            a as int == reduce(alpha as int),
            f == (|k: Key| term(k, alpha, beta)),
            acc as int == reduce(weighted(interactions@.take(i as int), f)),
        decreases interactions@.len() - i,
    {
        let it = interactions[i];
        let fp = fingerprint_exec(it.kind, it.values, beta);
        let t = inverse(sub_mod(a, fp));
        let m = it.multiplicity as u64 % P;
        let mt = mul_mod(m, t);
        proof {
            let s = interactions@.take(i as int);
            assert(interactions@.take(i + 1).drop_last() =~= s);
            let m = P as int;
            vstd::arithmetic::div_mod::lemma_sub_mod_noop(alpha as int, fp as int, m);
            vstd::arithmetic::div_mod::lemma_mod_twice(alpha - fp, m);
            assert(t as int == term(key(it), alpha, beta));
            vstd::arithmetic::div_mod::lemma_mul_mod_noop_general(it.multiplicity as int, t as int, m);
            vstd::arithmetic::div_mod::lemma_add_mod_noop(weighted(s, f), signed_mult(it) * t, m);
            vstd::arithmetic::div_mod::lemma_sub_mod_noop(weighted(s, f), it.multiplicity * t, m);
            assert(signed_mult(it) * t == if it.send { it.multiplicity * t } else { -(it.multiplicity * t) }) by (nonlinear_arith)
                requires
                    signed_mult(it) == if it.send { it.multiplicity as int } else { -(it.multiplicity as int) },
            ;
            vstd::arithmetic::div_mod::lemma_mod_twice(weighted(s, f), m);
            vstd::arithmetic::div_mod::lemma_mod_twice(it.multiplicity * t, m);
        }
        acc = if it.send {
            add_mod(acc, mt)
        } else {
            sub_mod(acc, mt)
        };
        i = i + 1;
    }
    assert(interactions@.take(i as int) =~= interactions@);
    acc
}

/// The table number of an ALU operation in lookups.
pub open spec fn op_code(op: AluOp) -> u32 {
    match op {
        AluOp::Add => 0,
        AluOp::Sub => 1,
        AluOp::Sll => 2,
        AluOp::Slt => 3,
        AluOp::Sltu => 4,
        AluOp::Xor => 5,
        AluOp::Srl => 6,
        AluOp::Sra => 7,
        AluOp::Or => 8,
        AluOp::And => 9,
        AluOp::Mul => 10,
        AluOp::Div => 11,
        AluOp::Mulh => 15,
        AluOp::Mulhsu => 16,
        AluOp::Mulhu => 17,
        AluOp::Divu => 12,
        AluOp::Rem => 13,
        AluOp::Remu => 14,
    }
}

fn op_code_exec(op: AluOp) -> (r: u32)
    ensures
        r == op_code(op),
{
    match op {
        AluOp::Add => 0,
        AluOp::Sub => 1,
        AluOp::Sll => 2,
        AluOp::Slt => 3,
        AluOp::Sltu => 4,
        AluOp::Xor => 5,
        AluOp::Srl => 6,
        AluOp::Sra => 7,
        AluOp::Or => 8,
        AluOp::And => 9,
        AluOp::Mul => 10,
        AluOp::Div => 11,
        AluOp::Mulh => 15,
        AluOp::Mulhsu => 16,
        AluOp::Mulhu => 17,
        AluOp::Divu => 12,
        AluOp::Rem => 13,
        AluOp::Remu => 14,
    }
}

/// A row of the ALU chip's trace: an operation and its operands and result.
#[derive(Clone, Copy, Debug, PartialEq, Eq, Structural)]
pub struct AluRow {
    pub op: AluOp,
    pub a: u32,
    pub b: u32,
    pub c: u32,
}

/// The ALU chip's rows for a record: one per ALU event, in order.
pub open spec fn alu_rows(events: Seq<Event>) -> Seq<AluRow>
    decreases events.len(),
{
    if events.len() == 0 {
        Seq::empty()
    } else {
        let prev = alu_rows(events.drop_last());
        match events.last() {
            Event::Alu { op, a, b, c, .. } => prev.push(AluRow { op, a, b, c }),
            _ => prev,
        }
    }
}

/// The CPU's requests: for each ALU event, the tuple `(op, (a, b, c))` once.
pub open spec fn cpu_requests(events: Seq<Event>) -> Seq<Interaction>
    decreases events.len(),
{
    if events.len() == 0 {
        Seq::empty()
    } else {
        let prev = cpu_requests(events.drop_last());
        match events.last() {
            Event::Alu { op, a, b, c, .. } => prev.push(
                Interaction { kind: op_code(op), values: (a, b, c), multiplicity: 1, send: true },
            ),
            _ => prev,
        }
    }
}

/// What the ALU chip provides: each of its rows once.
pub open spec fn alu_provides(rows: Seq<AluRow>) -> Seq<Interaction>
    decreases rows.len(),
{
    if rows.len() == 0 {
        Seq::empty()
    } else {
        let r = rows.last();
        alu_provides(rows.drop_last()).push(
            Interaction { kind: op_code(r.op), values: (r.a, r.b, r.c), multiplicity: 1, send: false },
        )
    }
}

proof fn lemma_net_concat(x: Seq<Interaction>, y: Seq<Interaction>, k: Key)
    ensures
        net(x + y, k) == net(x, k) + net(y, k),
    decreases y.len(),
{
    if y.len() > 0 {
        lemma_net_concat(x, y.drop_last(), k);
        assert((x + y).drop_last() =~= x + y.drop_last());
    }
}

proof fn lemma_requests_provides(events: Seq<Event>, k: Key)
    ensures
        net(cpu_requests(events), k) + net(alu_provides(alu_rows(events)), k) == 0,
    decreases events.len(),
{
    if events.len() > 0 {
        let t = events.drop_last();
        lemma_requests_provides(t, k);
        if let Event::Alu { op, a, b, c, .. } = events.last() {
            let row = AluRow { op, a, b, c };
            assert(alu_rows(events) == alu_rows(t).push(row));
            assert(alu_rows(t).push(row).drop_last() =~= alu_rows(t));
            let req = Interaction { kind: op_code(op), values: (a, b, c), multiplicity: 1, send: true };
            assert(cpu_requests(t).push(req).drop_last() =~= cpu_requests(t));
            let prov = alu_provides(alu_rows(events));
            assert(prov.drop_last() =~= alu_provides(alu_rows(t)));
        }
    }
}

/// Lookup balance of an honest record: the CPU's requests for the ALU
/// events and the rows the ALU chip provides for the same record cancel,
/// so the running sum is the additive identity for every choice of
/// challenges.
pub proof fn lemma_alu_lookup_balanced(events: Seq<Event>, alpha: u32, beta: u32)
    ensures
        balanced(cpu_requests(events) + alu_provides(alu_rows(events))),
        lookup_sum_spec(cpu_requests(events) + alu_provides(alu_rows(events)), alpha, beta) == 0,
{
    let s = cpu_requests(events) + alu_provides(alu_rows(events));
    assert forall|k: Key| #[trigger] net(s, k) == 0 by {
        lemma_net_concat(cpu_requests(events), alu_provides(alu_rows(events)), k);
        lemma_requests_provides(events, k);
    }
    lemma_lookup_balance(s, alpha, beta);
}

/// Generates the ALU chip's trace of a record.
pub fn alu_trace(events: &Vec<Event>) -> (r: Vec<AluRow>)
    ensures
        r@ == alu_rows(events@),
{
    let mut out: Vec<AluRow> = Vec::new();
    let mut i: usize = 0;
    while i < events.len()
        invariant
            i <= events@.len(),
            out@ == alu_rows(events@.take(i as int)),
        decreases events@.len() - i,
    {
        proof {
            assert(events@.take(i + 1).drop_last() =~= events@.take(i as int));
        }
        match events[i] {
            Event::Alu { op, a, b, c, .. } => {
                out.push(AluRow { op, a, b, c });
            },
            _ => {},
        }
        i = i + 1;
    }
    assert(events@.take(i as int) =~= events@);
    out
}

/// The lookups between the CPU and the ALU chip: the CPU's requests for the
/// ALU events of `events`, then what the rows of `trace` provide.
pub fn alu_interactions(events: &Vec<Event>, trace: &Vec<AluRow>) -> (r: Vec<Interaction>)
    ensures
        r@ == cpu_requests(events@) + alu_provides(trace@),
{
    let mut out: Vec<Interaction> = Vec::new();
    let mut i: usize = 0;
    while i < events.len()
        invariant
            i <= events@.len(),
            out@ == cpu_requests(events@.take(i as int)),
        decreases events@.len() - i,
    {
        proof {
            assert(events@.take(i + 1).drop_last() =~= events@.take(i as int));
        }
        match events[i] {
            Event::Alu { op, a, b, c, .. } => {
                let kind = op_code_exec(op);
                out.push(Interaction { kind, values: (a, b, c), multiplicity: 1, send: true });
            },
            _ => {},
        }
        i = i + 1;
    }
    assert(events@.take(i as int) =~= events@);
    let ghost requests = out@;
    let mut j: usize = 0;
    while j < trace.len()
        invariant
            j <= trace@.len(),
            out@ == requests + alu_provides(trace@.take(j as int)),
        decreases trace@.len() - j,
    {
        proof {
            assert(trace@.take(j + 1).drop_last() =~= trace@.take(j as int));
        }
        let row = trace[j];
        let kind = op_code_exec(row.op);
        out.push(Interaction { kind, values: (row.a, row.b, row.c), multiplicity: 1, send: false });
        j = j + 1;
    }
    assert(trace@.take(j as int) =~= trace@);
    out
}

} // verus!
