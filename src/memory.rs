//! Memory consistency: every read in a record returns the most recent earlier
//! write to its address, or zero. The executor's records have this property.
//! It is checked in two forms: over a record in time order, and as the
//! memory chip does, over the accesses sorted by address and then cycle with
//! a rule between neighbouring rows.
use crate::isa::{decode_spec, Instruction};
use crate::machine::{
    execute_spec, image_events, image_memory, initial_state, mem_value, run_from, run_spec,
    step_spec, Event, ExecutionFault, MachineView,
};
use std::collections::HashMap;
use vstd::prelude::*;

verus! {

broadcast use vstd::std_specs::hash::group_hash_axioms;

/// The value of the latest write to `a` in `events`, or zero if there is none.
pub open spec fn last_write(events: Seq<Event>, a: u32) -> u32
    decreases events.len(),
{
    if events.len() == 0 {
        0
    } else {
        match events.last() {
            Event::Memory { addr, value, write, .. } => if write && addr == a {
                value
            } else {
                last_write(events.drop_last(), a)
            },
            _ => last_write(events.drop_last(), a),
        }
    }
}

/// The event at `i`, if it is a read, returns the latest earlier write.
pub open spec fn read_ok(events: Seq<Event>, i: int) -> bool {
    match events[i] {
        Event::Memory { addr, value, write, .. } => write || value == last_write(
            events.take(i),
            addr,
        ),
        _ => true,
    }
}

/// Every read of `events` returns the latest earlier write to its address.
pub open spec fn memory_consistent(events: Seq<Event>) -> bool {
    forall|i: int| 0 <= i < events.len() ==> #[trigger] read_ok(events, i)
}

/// The memory map holds, at each address, the latest write of `events`.
pub open spec fn mem_agrees(mem: Map<u32, (u32, u64)>, events: Seq<Event>) -> bool {
    forall|a: u32| #[trigger] mem_value(mem, a) == last_write(events, a)
}

/// Whether `e` is a memory access.
pub open spec fn is_memory(e: Event) -> bool {
    e is Memory
}

proof fn lemma_push_other(mem: Map<u32, (u32, u64)>, s: Seq<Event>, e: Event)
    requires
        mem_agrees(mem, s),
        memory_consistent(s),
        !is_memory(e),
    ensures
        mem_agrees(mem, s.push(e)),
        memory_consistent(s.push(e)),
{
    let t = s.push(e);
    assert(t.drop_last() =~= s);
    assert forall|a: u32| #[trigger] mem_value(mem, a) == last_write(t, a) by {}
    assert forall|i: int| 0 <= i < t.len() implies #[trigger] read_ok(t, i) by {
        if i < s.len() {
            assert(t.take(i) =~= s.take(i));
            assert(read_ok(s, i));
        }
    }
}

proof fn lemma_push_read(mem: Map<u32, (u32, u64)>, s: Seq<Event>, clk: u64, addr: u32)
    requires
        mem_agrees(mem, s),
        memory_consistent(s),
    ensures
        mem_agrees(
            mem,
            s.push(Event::Memory { clk, addr, value: mem_value(mem, addr), write: false }),
        ),
        memory_consistent(
            s.push(Event::Memory { clk, addr, value: mem_value(mem, addr), write: false }),
        ),
{
    let t = s.push(Event::Memory { clk, addr, value: mem_value(mem, addr), write: false });
    assert(t.drop_last() =~= s);
    assert(t.take(s.len() as int) =~= s);
    assert forall|a: u32| #[trigger] mem_value(mem, a) == last_write(t, a) by {}
    assert forall|i: int| 0 <= i < t.len() implies #[trigger] read_ok(t, i) by {
        if i < s.len() {
            assert(t.take(i) =~= s.take(i));
            assert(read_ok(s, i));
        } else {
            assert(mem_value(mem, addr) == last_write(s, addr));
        }
    }
}

proof fn lemma_push_write(
    mem: Map<u32, (u32, u64)>,
    s: Seq<Event>,
    clk: u64,
    addr: u32,
    value: u32,
)
    requires
        mem_agrees(mem, s),
        memory_consistent(s),
    ensures
        mem_agrees(mem.insert(addr, (value, clk)), s.push(Event::Memory { clk, addr, value, write: true })),
        memory_consistent(s.push(Event::Memory { clk, addr, value, write: true })),
{
    let t = s.push(Event::Memory { clk, addr, value, write: true });
    let mem2 = mem.insert(addr, (value, clk));
    assert(t.drop_last() =~= s);
    assert forall|a: u32| #[trigger] mem_value(mem2, a) == last_write(t, a) by {
        assert(mem_value(mem, a) == last_write(s, a));
    }
    assert forall|i: int| 0 <= i < t.len() implies #[trigger] read_ok(t, i) by {
        if i < s.len() {
            assert(t.take(i) =~= s.take(i));
            assert(read_ok(s, i));
        }
    }
}

/// One step keeps the memory map in agreement with the record, and the
/// record consistent.
proof fn lemma_step_consistent(code: Seq<u32>, input: Seq<u8>, m: MachineView)
    requires
        mem_agrees(m.mem, m.events),
        memory_consistent(m.events),
    ensures
        step_spec(code, input, m) matches Ok(m2) ==> mem_agrees(m2.mem, m2.events)
            && memory_consistent(m2.events),
{
    if let Ok(m2) = step_spec(code, input, m) {
        let w = code[(m.pc / 4) as int];
        let inst = decode_spec(w)->Some_0;
        let cpu = Event::Cpu { clk: m.clk, pc: m.pc, word: w };
        let s = m.events.push(cpu);
        lemma_push_other(m.mem, m.events, cpu);
        let m1 = MachineView { events: s, ..m };
        assert(execute_spec(input, m1, inst) == Ok::<MachineView, ExecutionFault>(m2));
        match inst {
            Instruction::Alu { op, rd, rs1, rs2 } => {
                let e = m2.events.last();
                assert(m2.events == s.push(e));
                lemma_push_other(m.mem, s, e);
            },
            Instruction::AluImm { op, rd, rs1, imm } => {
                let e = m2.events.last();
                assert(m2.events == s.push(e));
                lemma_push_other(m.mem, s, e);
            },
            Instruction::Load { .. } => {
                let addr = m2.events.last()->Memory_addr;
                lemma_push_read(m.mem, s, m.clk, addr);
            },
            Instruction::Store { .. } => {
                let addr = m2.events.last()->Memory_addr;
                let value = m2.events.last()->Memory_value;
                lemma_push_write(m.mem, s, m.clk, addr, value);
            },
            Instruction::Ecall => {
                let e = m2.events.last();
                assert(m2.events == s.push(e));
                lemma_push_other(m.mem, s, e);
            },
            _ => {},
        }
    }
}

proof fn lemma_run_from_consistent(code: Seq<u32>, input: Seq<u8>, m: MachineView, fuel: nat)
    requires
        mem_agrees(m.mem, m.events),
        memory_consistent(m.events),
    ensures
        run_from(code, input, m, fuel) matches Ok(m2) ==> memory_consistent(m2.events),
    decreases fuel,
{
    if !m.halted && fuel > 0 {
        lemma_step_consistent(code, input, m);
        if let Ok(m2) = step_spec(code, input, m) {
            lemma_run_from_consistent(code, input, m2, (fuel - 1) as nat);
        }
    }
}

proof fn lemma_image_consistent(image: Seq<(u32, u32)>)
    ensures
        mem_agrees(image_memory(image), image_events(image)),
        memory_consistent(image_events(image)),
    decreases image.len(),
{
    if image.len() == 0 {
        assert(image_events(image) =~= Seq::<Event>::empty());
        assert forall|a: u32| #[trigger]
            mem_value(image_memory(image), a) == last_write(image_events(image), a) by {}
    } else {
        let rest = image.drop_last();
        lemma_image_consistent(rest);
        let p = image.last();
        assert(image_events(image) =~= image_events(rest).push(
            Event::Memory { clk: 0, addr: p.0, value: p.1, write: true },
        ));
        lemma_push_write(image_memory(rest), image_events(rest), 0, p.0, p.1);
    }
}

/// Every read in the record of a run returns the value of the most recent
/// earlier write to the same address (the initial image counts as writes at
/// cycle 0), or zero where there was none.
pub proof fn lemma_run_memory_consistent(
    code: Seq<u32>,
    image: Seq<(u32, u32)>,
    input: Seq<u8>,
    max_cycles: nat,
)
    ensures
        run_spec(code, image, input, max_cycles) matches Ok(m) ==> memory_consistent(m.events),
{
    lemma_image_consistent(image);
    lemma_run_from_consistent(code, input, initial_state(image), max_cycles);
}

/// The latest write recorded for `a` in the checker's table.
spec fn table_value(t: Map<u32, u32>, a: u32) -> u32 {
    if t.contains_key(a) {
        t[a]
    } else {
        0
    }
}

/// Checks a record against the memory consistency rule: `true` exactly when
/// every read returns the latest earlier write to its address, or zero.
pub fn check_memory(events: &Vec<Event>) -> (r: bool)
    ensures
        r == memory_consistent(events@),
{
    let mut table: HashMap<u32, u32> = HashMap::new();
    let mut i: usize = 0;
    while i < events.len()
        invariant
            i <= events@.len(),
            forall|a: u32| #[trigger] table_value(table@, a) == last_write(events@.take(i as int), a),
            forall|j: int| 0 <= j < i ==> #[trigger] read_ok(events@, j),
        decreases events@.len() - i,
    {
        let ghost s = events@.take(i as int);
        let ghost t = events@.take(i + 1);
        let ghost old_table = table@;
        proof {
            assert(t.drop_last() =~= s);
            assert(events@.take(i as int) =~= s);
        }
        match events[i] {
            Event::Memory { addr, value, write, .. } => {
                if write {
                    table.insert(addr, value);
                } else {
                    let cur = match table.get(&addr) {
                        Some(v) => *v,
                        None => 0,
                    };
                    assert(cur == table_value(table@, addr));
                    assert(table_value(table@, addr) == last_write(s, addr));
                    if cur != value {
                        assert(!read_ok(events@, i as int));
                        return false;
                    }
                }
            },
            _ => {},
        }
        assert(read_ok(events@, i as int));
        assert forall|a: u32| #[trigger] table_value(table@, a) == last_write(t, a) by {
            assert(table_value(old_table, a) == last_write(s, a));
        }
        i = i + 1;
    }
    assert(events@.take(i as int) =~= events@);
    true
}

/// Address of a memory event (zero for other events).
pub open spec fn row_addr(e: Event) -> u32 {
    match e {
        Event::Memory { addr, .. } => addr,
        _ => 0,
    }
}

/// Cycle of a memory event (zero for other events).
pub open spec fn row_clk(e: Event) -> u64 {
    match e {
        Event::Memory { clk, .. } => clk,
        _ => 0,
    }
}

/// Value of a memory event (zero for other events).
pub open spec fn row_value(e: Event) -> u32 {
    match e {
        Event::Memory { value, .. } => value,
        _ => 0,
    }
}

/// Whether a memory event is a write.
pub open spec fn row_write(e: Event) -> bool {
    match e {
        Event::Memory { write, .. } => write,
        _ => false,
    }
}

/// The memory chip's constraints on row `i` of a trace sorted by address
/// and then cycle: the row is an access, it does not come before its
/// predecessor, and a read repeats the value of the previous row when that
/// row has the same address, and reads zero otherwise.
pub open spec fn sorted_row_ok(rows: Seq<Event>, i: int) -> bool {
    &&& is_memory(rows[i])
    &&& i > 0 ==> (row_addr(rows[i - 1]) < row_addr(rows[i]) || (row_addr(rows[i - 1]) == row_addr(
        rows[i],
    ) && row_clk(rows[i - 1]) <= row_clk(rows[i])))
    &&& !row_write(rows[i]) ==> row_value(rows[i]) == if i > 0 && row_addr(rows[i - 1]) == row_addr(
        rows[i],
    ) {
        row_value(rows[i - 1])
    } else {
        0
    }
}

/// Every row of the sorted trace satisfies the memory chip's constraints.
pub open spec fn sorted_trace_ok(rows: Seq<Event>) -> bool {
    forall|i: int| 0 <= i < rows.len() ==> #[trigger] sorted_row_ok(rows, i)
}

proof fn lemma_sorted_addr_monotone(rows: Seq<Event>, j: int, i: int)
    requires
        sorted_trace_ok(rows),
        0 <= j <= i < rows.len(),
    ensures
        row_addr(rows[j]) <= row_addr(rows[i]),
    decreases i - j,
{
    if j < i {
        lemma_sorted_addr_monotone(rows, j, i - 1);
        assert(sorted_row_ok(rows, i));
    }
}

proof fn lemma_no_write_reads_zero(rows: Seq<Event>, n: int, a: u32)
    requires
        0 <= n <= rows.len(),
        forall|j: int| 0 <= j < n ==> row_addr(#[trigger] rows[j]) != a,
        forall|j: int| 0 <= j < n ==> is_memory(#[trigger] rows[j]),
    ensures
        last_write(rows.take(n), a) == 0,
    decreases n,
{
    if n > 0 {
        assert(rows.take(n).drop_last() =~= rows.take(n - 1));
        assert(rows.take(n).last() == rows[n - 1]);
        lemma_no_write_reads_zero(rows, n - 1, a);
    }
}

proof fn lemma_sorted_value_is_last_write(rows: Seq<Event>, i: int)
    requires
        sorted_trace_ok(rows),
        0 <= i < rows.len(),
    ensures
        row_value(rows[i]) == last_write(rows.take(i + 1), row_addr(rows[i])),
        last_write(rows.take(i + 1), row_addr(rows[i])) == if row_write(rows[i]) {
            row_value(rows[i])
        } else {
            last_write(rows.take(i), row_addr(rows[i]))
        },
    decreases i,
{
    let a = row_addr(rows[i]);
    assert(sorted_row_ok(rows, i));
    assert(rows.take(i + 1).drop_last() =~= rows.take(i));
    assert(rows.take(i + 1).last() == rows[i]);
    if !row_write(rows[i]) {
        if i > 0 && row_addr(rows[i - 1]) == a {
            lemma_sorted_value_is_last_write(rows, i - 1);
        } else {
            assert forall|j: int| 0 <= j < i implies row_addr(#[trigger] rows[j]) != a by {
                lemma_sorted_addr_monotone(rows, j, i - 1);
            }
            assert forall|j: int| 0 <= j < i implies is_memory(#[trigger] rows[j]) by {
                assert(sorted_row_ok(rows, j));
            }
            lemma_no_write_reads_zero(rows, i, a);
        }
    }
}

/// Soundness of the sorted memory chip: a trace sorted by address and cycle
/// that satisfies the chip's local constraints is memory-consistent, so a
/// read can claim no value but that of the latest earlier write to its
/// address, or zero.
pub proof fn lemma_sorted_trace_sound(rows: Seq<Event>)
    requires
        sorted_trace_ok(rows),
    ensures
        memory_consistent(rows),
{
    assert forall|i: int| 0 <= i < rows.len() implies #[trigger] read_ok(rows, i) by {
        lemma_sorted_value_is_last_write(rows, i);
        assert(sorted_row_ok(rows, i));
    }
}

/// Evaluates the memory chip's constraints on a sorted trace.
pub fn check_sorted_memory(rows: &Vec<Event>) -> (r: bool)
    ensures
        r == sorted_trace_ok(rows@),
{
    let mut i: usize = 0;
    while i < rows.len()
        invariant
            i <= rows@.len(),
            forall|j: int| 0 <= j < i ==> #[trigger] sorted_row_ok(rows@, j),
        decreases rows@.len() - i,
    {
        let ok = match rows[i] {
            Event::Memory { addr, clk, value, write } => {
                if i == 0 {
                    write || value == 0
                } else {
                    match rows[i - 1] {
                        Event::Memory { addr: pa, clk: pc, value: pv, .. } => {
                            let ordered = pa < addr || (pa == addr && pc <= clk);
                            let read_ok = write || (if pa == addr {
                                value == pv
                            } else {
                                value == 0
                            });
                            ordered && read_ok
                        },
                        _ => {
                            assert(!sorted_row_ok(rows@, i - 1));
                            return false;
                        },
                    }
                }
            },
            _ => false,
        };
        if !ok {
            assert(!sorted_row_ok(rows@, i as int));
            return false;
        }
        i = i + 1;
    }
    true
}

/// The memory accesses of a record, in order.
pub open spec fn memory_rows(events: Seq<Event>) -> Seq<Event>
    decreases events.len(),
{
    if events.len() == 0 {
        Seq::empty()
    } else if is_memory(events.last()) {
        memory_rows(events.drop_last()).push(events.last())
    } else {
        memory_rows(events.drop_last())
    }
}

/// Row `x` may stand before row `y`: a lower address, or the same address
/// and a cycle not later.
pub open spec fn row_le(x: Event, y: Event) -> bool {
    row_addr(x) < row_addr(y) || (row_addr(x) == row_addr(y) && row_clk(x) <= row_clk(y))
}

/// The rows are accesses, in order of address and then cycle.
pub open spec fn rows_sorted(s: Seq<Event>) -> bool {
    &&& forall|i: int| 0 <= i < s.len() ==> is_memory(#[trigger] s[i])
    &&& forall|i: int, j: int| 0 <= i < j < s.len() ==> row_le(#[trigger] s[i], #[trigger] s[j])
}

/// The rows of `s` whose address is `a` and cycle is `c`, in order.
pub open spec fn rows_with_key(s: Seq<Event>, a: u32, c: u64) -> Seq<Event> {
    s.filter(|x: Event| row_addr(x) == a && row_clk(x) == c)
}

proof fn lemma_filter_push(s: Seq<Event>, e: Event, a: u32, c: u64)
    ensures
        rows_with_key(s.push(e), a, c) == if row_addr(e) == a && row_clk(e) == c {
            rows_with_key(s, a, c).push(e)
        } else {
            rows_with_key(s, a, c)
        },
{
    reveal(Seq::filter);
    assert(s.push(e).drop_last() =~= s);
}

/// Inserting `e` before rows that all have a greater key keeps, for every
/// key, the order of the rows with that key, with `e` last among its own.
proof fn lemma_filter_insert(s: Seq<Event>, pos: int, e: Event, a: u32, c: u64)
    requires
        0 <= pos <= s.len(),
        forall|k: int| pos <= k < s.len() ==> !row_le(#[trigger] s[k], e),
    ensures
        rows_with_key(s.insert(pos, e), a, c) == if row_addr(e) == a && row_clk(e) == c {
            rows_with_key(s, a, c).push(e)
        } else {
            rows_with_key(s, a, c)
        },
{
    let pred = |x: Event| row_addr(x) == a && row_clk(x) == c;
    let head = s.subrange(0, pos);
    let tail = s.subrange(pos, s.len() as int);
    assert(s =~= head + tail);
    assert(s.insert(pos, e) =~= head.push(e) + tail);
    Seq::filter_distributes_over_add(head, tail, pred);
    Seq::filter_distributes_over_add(head.push(e), tail, pred);
    lemma_filter_push(head, e, a, c);
    if row_addr(e) == a && row_clk(e) == c {
        assert(tail.all(|x: Event| !pred(x))) by {
            assert forall|k: int| 0 <= k < tail.len() implies !pred(#[trigger] tail[k]) by {
                assert(tail[k] == s[pos + k]);
            }
        }
        tail.lemma_all_neg_filter_empty(pred);
        assert(tail.filter(pred) =~= Seq::<Event>::empty());
        assert(head.filter(pred).push(e) + tail.filter(pred) =~= head.filter(pred).push(e));
        assert(head.filter(pred) + tail.filter(pred) =~= head.filter(pred));
    } else {
        assert(head.filter(pred) + tail.filter(pred) =~= s.filter(pred));
    }
}

fn row_le_exec(x: Event, y: Event) -> (r: bool)
    ensures
        r == row_le(x, y),
{
    let (xa, xc) = match x {
        Event::Memory { addr, clk, .. } => (addr, clk),
        _ => (0, 0),
    };
    let (ya, yc) = match y {
        Event::Memory { addr, clk, .. } => (addr, clk),
        _ => (0, 0),
    };
    xa < ya || (xa == ya && xc <= yc)
}

/// The memory chip's trace of a record: its memory accesses, reordered by
/// address and then cycle (accesses with equal keys keep their order).
pub fn sorted_memory_trace(events: &Vec<Event>) -> (r: Vec<Event>)
    ensures
        rows_sorted(r@),
        r@.to_multiset() == memory_rows(events@).to_multiset(),
        forall|a: u32, c: u64| #[trigger] rows_with_key(r@, a, c) == rows_with_key(memory_rows(events@), a, c),
{
    let mut rows: Vec<Event> = Vec::new();
    let mut i: usize = 0;
    proof {
        assert(events@.take(0) =~= Seq::<Event>::empty());
        assert(rows@ =~= memory_rows(events@.take(0)));
    }
    while i < events.len()
        invariant
            i <= events@.len(),
            rows_sorted(rows@),
            rows@.to_multiset() == memory_rows(events@.take(i as int)).to_multiset(),
            forall|a: u32, c: u64| #[trigger] rows_with_key(rows@, a, c) == rows_with_key(memory_rows(events@.take(i as int)), a, c),
        decreases events@.len() - i,
    {
        let e = events[i];
        proof {
            assert(events@.take(i + 1).drop_last() =~= events@.take(i as int));
            assert(events@.take(i + 1).last() == e);
        }
        if let Event::Memory { .. } = e {
            let mut pos: usize = rows.len();
            while pos > 0 && !row_le_exec(rows[pos - 1], e)
                invariant
                    pos <= rows@.len(),
                    forall|k: int| pos <= k < rows@.len() ==> !row_le(#[trigger] rows@[k], e),
                decreases pos,
            {
                pos = pos - 1;
            }
            let ghost old_rows = rows@;
            rows.insert(pos, e);
            proof {
                let t = rows@;
                vstd::seq_lib::to_multiset_insert(old_rows, pos as int, e);
                assert(t.to_multiset() == old_rows.to_multiset().insert(e));
                let prev = memory_rows(events@.take(i as int));
                assert(memory_rows(events@.take(i + 1)) == prev.push(e));
                vstd::seq_lib::to_multiset_build(prev, e);
                assert(prev.push(e).to_multiset() == prev.to_multiset().insert(e));
                assert forall|a: u32, c: u64| #[trigger] rows_with_key(t, a, c) == rows_with_key(memory_rows(events@.take(i + 1)), a, c) by {
                    lemma_filter_insert(old_rows, pos as int, e, a, c);
                    lemma_filter_push(prev, e, a, c);
                }
                assert(t == old_rows.insert(pos as int, e));
                assert forall|a: int, b: int| 0 <= a < b < t.len() implies row_le(
                    #[trigger] t[a],
                    #[trigger] t[b],
                ) by {
                    if b == pos {
                        if a < pos - 1 {
                            assert(row_le(old_rows[a], old_rows[pos - 1]));
                        }
                    } else if a == pos {
                        assert(!row_le(old_rows[b - 1], e));
                    } else if a < pos && b > pos {
                        assert(row_le(old_rows[a], old_rows[b - 1]));
                    } else if a > pos {
                        assert(row_le(old_rows[a - 1], old_rows[b - 1]));
                    } else {
                        assert(row_le(old_rows[a], old_rows[b]));
                    }
                }
                assert forall|k: int| 0 <= k < t.len() implies is_memory(#[trigger] t[k]) by {
                    if k < pos {
                        assert(t[k] == old_rows[k]);
                    } else if k > pos {
                        assert(t[k] == old_rows[k - 1]);
                    }
                }
            }
        } else {
            assert(memory_rows(events@.take(i + 1)) == memory_rows(events@.take(i as int)));
        }
        i = i + 1;
    }
    assert(events@.take(i as int) =~= events@);
    rows
}

} // verus!
