//! Row checks of the program and ALU chips over an execution record: every
//! fetched word is the program's word at that address, and every ALU event
//! claims the result the instruction set defines. The executor's records
//! pass both.
use crate::alu::{alu_exec, alu_spec};
use crate::isa::{decode_spec, Instruction};
use crate::machine::{
    execute_spec, fetch_ok, image_events, initial_state, run_from, run_spec, step_spec, Event,
    ExecutionFault, MachineView,
};
use vstd::prelude::*;

verus! {

/// The event, if it is an ALU event, claims the defined result; if it is a
/// CPU event, it fetched the program's word at its address.
pub open spec fn event_ok(code: Seq<u32>, e: Event) -> bool {
    match e {
        Event::Alu { op, a, b, c, .. } => a == alu_spec(op, b, c),
        Event::Cpu { pc, word, .. } => fetch_ok(code, pc) && code[(pc / 4) as int] == word,
        _ => true,
    }
}

/// Every event of `events` passes the program and ALU chips' checks.
pub open spec fn chips_consistent(code: Seq<u32>, events: Seq<Event>) -> bool {
    forall|i: int| 0 <= i < events.len() ==> #[trigger] event_ok(code, events[i])
}

proof fn lemma_push_ok(code: Seq<u32>, s: Seq<Event>, e: Event)
    requires
        chips_consistent(code, s),
        event_ok(code, e),
    ensures
        chips_consistent(code, s.push(e)),
{
    assert forall|i: int| 0 <= i < s.push(e).len() implies #[trigger] event_ok(code, s.push(e)[i]) by {
        if i < s.len() {
            assert(s.push(e)[i] == s[i]);
        }
    }
}

proof fn lemma_step_chips(code: Seq<u32>, input: Seq<u8>, m: MachineView)
    requires
        chips_consistent(code, m.events),
    ensures
        step_spec(code, input, m) matches Ok(m2) ==> chips_consistent(code, m2.events),
{
    if let Ok(m2) = step_spec(code, input, m) {
        let w = code[(m.pc / 4) as int];
        let inst = decode_spec(w)->Some_0;
        let cpu = Event::Cpu { clk: m.clk, pc: m.pc, word: w };
        let s = m.events.push(cpu);
        lemma_push_ok(code, m.events, cpu);
        let m1 = MachineView { events: s, ..m };
        assert(execute_spec(input, m1, inst) == Ok::<MachineView, ExecutionFault>(m2));
        match inst {
            Instruction::Alu { .. } | Instruction::AluImm { .. } | Instruction::Load { .. }
            | Instruction::Store { .. } | Instruction::Ecall => {
                let e = m2.events.last();
                assert(m2.events == s.push(e));
                lemma_push_ok(code, s, e);
            },
            _ => {},
        }
    }
}

proof fn lemma_run_from_chips(code: Seq<u32>, input: Seq<u8>, m: MachineView, fuel: nat)
    requires
        chips_consistent(code, m.events),
    ensures
        run_from(code, input, m, fuel) matches Ok(m2) ==> chips_consistent(code, m2.events),
    decreases fuel,
{
    if !m.halted && fuel > 0 {
        lemma_step_chips(code, input, m);
        if let Ok(m2) = step_spec(code, input, m) {
            lemma_run_from_chips(code, input, m2, (fuel - 1) as nat);
        }
    }
}

/// Every record of a run passes the program and ALU chips: each fetched word
/// is the program's word at the fetched address, and each ALU event claims
/// exactly the result that the instruction set defines for its operands.
pub proof fn lemma_run_chips_consistent(
    code: Seq<u32>,
    image: Seq<(u32, u32)>,
    input: Seq<u8>,
    max_cycles: nat,
)
    ensures
        run_spec(code, image, input, max_cycles) matches Ok(m) ==> chips_consistent(code, m.events),
{
    let s = image_events(image);
    assert forall|i: int| 0 <= i < s.len() implies #[trigger] event_ok(code, s[i]) by {}
    lemma_run_from_chips(code, input, initial_state(image), max_cycles);
}

/// Checks a record against the program and ALU chips: `true` exactly when
/// every event passes.
pub fn check_chips(code: &Vec<u32>, events: &Vec<Event>) -> (r: bool)
    ensures
        r == chips_consistent(code@, events@),
{
    let mut i: usize = 0;
    while i < events.len()
        invariant
            i <= events@.len(),
            forall|j: int| 0 <= j < i ==> #[trigger] event_ok(code@, events@[j]),
        decreases events@.len() - i,
    {
        let ok = match events[i] {
            Event::Alu { op, a, b, c, .. } => a == alu_exec(op, b, c),
            Event::Cpu { pc, word, .. } => pc % 4 == 0 && ((pc / 4) as usize) < code.len()
                && code[(pc / 4) as usize] == word,
            _ => true,
        };
        if !ok {
            assert(!event_ok(code@, events@[i as int]));
            return false;
        }
        i = i + 1;
    }
    true
}

} // verus!
