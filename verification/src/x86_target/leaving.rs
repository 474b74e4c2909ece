//! How a function or code without debugging information is left, instruction by instruction.
use vstd::prelude::*;

use crate::dialogue::{Flow, TalkShape};
use crate::elf_debug_info::{
    function_ranges_at, known, known_function, line_addresses, units_in_image,
};
use crate::lookup::{lemma_lines_in_ranges_are_found, some_unit_has_in};

use super::debugger::PtraceShape;
use super::registers::Register;
use super::stops::goes_on;
use super::world::{lemma_file_pc_seen, lemma_register_read, lemma_saw_parts, saw, World};

verus! {

/// The state after so many instructions on the way out of a function, none of which left it.
pub open spec fn after_outs(
    s: PtraceShape,
    func: Option<Seq<char>>,
    frame: u64,
    steps: nat,
    n: nat,
) -> Option<PtraceShape>
    decreases n,
{
    if n == 0 {
        Some(s)
    } else {
        match s.out_round(func, frame, steps) {
            Flow::Done(true, t) => after_outs(t, func, frame, steps + 1, (n - 1) as nat),
            _ => None,
        }
    }
}

/// A step out of a function is over after so many instructions and one more.
pub open spec fn is_out_after(
    s: PtraceShape,
    func: Option<Seq<char>>,
    frame: u64,
    steps: nat,
    n: nat,
    e: PtraceShape,
) -> bool {
    after_outs(s, func, frame, steps, n) matches Some(t) && t.out_round(func, frame, steps + n)
        == Flow::<bool, PtraceShape>::Done(false, e)
}

proof fn lemma_outs(s: PtraceShape, func: Option<Seq<char>>, frame: u64, steps: nat) -> (n: nat)
    requires
        steps <= 100000,
    ensures
        s.out_rounds(func, frame, steps) matches Flow::Done(_, e) ==> steps + n <= 100000
            && is_out_after(s, func, frame, steps, n, e),
    decreases 100001 - steps,
{
    if let Flow::Done(true, t) = s.out_round(func, frame, steps) {
        if steps < 100000 {
            let n = lemma_outs(t, func, frame, steps + 1);
            if let Flow::Done(_, e) = t.out_rounds(func, frame, steps + 1) {
                assert(after_outs(s, func, frame, steps, n + 1) == after_outs(
                    t,
                    func,
                    frame,
                    steps + 1,
                    n,
                ));
            }
            n + 1
        } else {
            lemma_limit_ends(s, func, frame, steps);
            0
        }
    } else {
        0
    }
}

/// A step out of a function ends at the limit.
proof fn lemma_limit_ends(s: PtraceShape, func: Option<Seq<char>>, frame: u64, steps: nat)
    requires
        steps >= 100000,
    ensures
        !(s.out_round(func, frame, steps) matches Flow::Done(true, _)),
{
    if let Flow::Done(status, t) = s.step_and_wait() {
        if let Flow::Done(pc, u) = t.get_pc() {
            if let Flow::Done(rbp, v) = u.get_register(Register::Rbp) {
                super::stepping::lemma_step_out_stays_in_function(v, func, frame, steps, pc, rbp);
            }
        }
    }
}

/// A step out of a function by its instructions starts from the function of the program counter and
/// the frame pointer of the process, and goes on up to the first instruction that has left them.
pub proof fn lemma_out_by_stepping(
    s: PtraceShape,
    start: (Option<Seq<char>>, u64),
    s1: PtraceShape,
    w: World,
)
    requires
        s.out_begin() == Flow::<(Option<Seq<char>>, u64), PtraceShape>::Done(start, s1),
        saw(s, s1, w),
    ensures
        start.0 == known_function(s.image, w.in_file(s.program, w.regs.rip)),
        start.1 == w.regs.rbp,
        s.step_out_by_stepping() matches Flow::Done(_, e) ==> exists|n: nat|
            n <= 100000 && #[trigger] is_out_after(
                s1,
                known_function(s.image, w.in_file(s.program, w.regs.rip)),
                w.regs.rbp,
                0,
                n,
                e,
            ),
{
    lemma_file_pc_seen(s, w);
    let t = s.get_dwarf_pc()->Done_1;
    lemma_register_read(t, Register::Rbp, w);
    assert(goes_on(s.talk, t.talk));
    assert(goes_on(t.talk, s1.talk));
    lemma_saw_parts(s, t, s1, w);
    let n = lemma_outs(s1, start.0, start.1, 0);
    if let Flow::Done(_, e) = s.step_out_by_stepping() {
        assert(is_out_after(s1, start.0, start.1, 0, n, e));
    }
}

/// The state after so many instructions of a step through code without debugging information.
pub open spec fn after_seeks(s: PtraceShape, steps: nat, n: nat) -> Option<PtraceShape>
    decreases n,
{
    if n == 0 {
        Some(s)
    } else {
        match s.seek_round(steps) {
            Flow::Done(true, t) => after_seeks(t, steps + 1, (n - 1) as nat),
            _ => None,
        }
    }
}

/// Such a step is over after so many instructions and one more.
pub open spec fn is_found_after(s: PtraceShape, steps: nat, n: nat, e: PtraceShape) -> bool {
    after_seeks(s, steps, n) matches Some(t) && t.seek_round(steps + n) == Flow::<
        bool,
        PtraceShape,
    >::Done(false, e)
}

proof fn lemma_seeks(s: PtraceShape, steps: nat) -> (n: nat)
    requires
        steps <= 10000,
    ensures
        s.seek_rounds(steps) matches Flow::Done(_, e) ==> steps + n <= 10000 && is_found_after(
            s,
            steps,
            n,
            e,
        ),
    decreases 10001 - steps,
{
    super::stepping::lemma_seek_ends_at_line(s, steps);
    if let Flow::Done(true, t) = s.seek_round(steps) {
        let n = lemma_seeks(t, steps + 1);
        if let Flow::Done(_, e) = t.seek_rounds(steps + 1) {
            assert(after_seeks(s, steps, n + 1) == after_seeks(t, steps + 1, n));
        }
        n + 1
    } else {
        0
    }
}

/// Only something was printed.
pub open spec fn only_printed(s: PtraceShape, flow: Flow<(), PtraceShape>) -> bool {
    flow matches Flow::Done(_, e) && e == (PtraceShape {
        talk: TalkShape { out: e.talk.out, ..s.talk },
        ..s
    })
}

/// Where the program counter has no source line, a step into or over it is refused as long as there
/// are breakpoints to run to; without them it goes on up to the first instruction with a line.
pub proof fn lemma_outside_user_code(s: PtraceShape, s1: PtraceShape)
    requires
        !s.has_crashed,
        s.current_line() == Flow::<Option<(Seq<char>, u64)>, PtraceShape>::Done(None, s1),
    ensures
        s1.breakpoints.len() > 0 ==> only_printed(s1, s.step_in()) && only_printed(
            s1,
            s.step_over(),
        ),
        s1.breakpoints.len() == 0 ==> (s.step_in() matches Flow::Done(_, e) ==> exists|n: nat|
            n <= 10000 && #[trigger] is_found_after(s1, 0, n, e)),
{
    let n = lemma_seeks(s1, 0);
    if let Flow::Done(_, e) = s.step_in() {
        if s1.breakpoints.len() == 0 {
            assert(is_found_after(s1, 0, n, e));
        }
    }
}

/// Executing a source line leaves the function by its instructions where no line of the function
/// lies further on, and steps to another line where the function is not known.
pub proof fn lemma_next_at_the_end(
    s: PtraceShape,
    line: (Seq<char>, u64),
    s1: PtraceShape,
    pc: u64,
    s2: PtraceShape,
    ranges: Seq<(u64, u64)>,
)
    requires
        !s.has_crashed,
        s.current_line() == Flow::<Option<(Seq<char>, u64)>, PtraceShape>::Done(Some(line), s1),
        s1.get_dwarf_pc() == Flow::<u64, PtraceShape>::Done(pc, s2),
    ensures
        function_ranges_at(units_in_image(s.image), pc) == Ok::<
            Option<Seq<(u64, u64)>>,
            Seq<char>,
        >(Some(ranges)) && (forall|addr: u64| #[trigger]
            some_unit_has_in(units_in_image(s.image), ranges, pc, addr) ==> addr <= pc)
            ==> s.step_over() == s2.step_out_by_stepping(),
        known(function_ranges_at(units_in_image(s.image), pc)) is None ==> (exists|text: Seq<char>|
            s.step_over() == #[trigger] s2.say(text).step_in()),
{
    let units = units_in_image(s.image);
    assert(s2.image == s.image);
    if let Ok(found) = line_addresses(units, ranges, pc, Seq::empty()) {
        assert forall|i: int| 0 <= i < found.len() implies some_unit_has_in(
            units,
            ranges,
            pc,
            #[trigger] found[i],
        ) by {
            lemma_lines_in_ranges_are_found(units, ranges, pc);
            assert(found.contains(found[i]));
        }
    }
    if known(function_ranges_at(units, pc)) is None {
        let text = "Cannot determine function boundaries - falling back to step_in"@;
        assert(s.step_over() == s2.say(text).step_in());
    }
}

/// Where no return address is found, finishing a function steps out of it by its instructions.
pub proof fn lemma_finish_without_return(s: PtraceShape, s1: PtraceShape, s2: PtraceShape)
    requires
        !s.has_crashed,
        s.cleanup_temps(s.temps) == Flow::<(), PtraceShape>::Done((), s1),
        s1.return_address() == Flow::<Option<u64>, PtraceShape>::Done(None, s2),
    ensures
        exists|a: Seq<char>, b: Seq<char>|
            s.step_out() == #[trigger] s2.say(a).say(b).step_out_by_stepping(),
{
    let a = "Cannot determine valid return address."@;
    let b = "Falling back to single-stepping until function returns."@;
    assert(s.step_out() == s2.say(a).say(b).step_out_by_stepping());
}

} // verus!
