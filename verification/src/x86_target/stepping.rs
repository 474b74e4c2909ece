//! When a step goes on and when it ends.
use vstd::prelude::*;

use crate::dialogue::{CallShape, Flow};
use crate::elf_debug_info::known_function;
use crate::target::{ProgressShape, StepShape};

use super::debugger::PtraceShape;
use super::registers::Register;

verus! {

/// Executing an instruction asks for one step and then waits, and for nothing else.
pub proof fn lemma_one_step(s: PtraceShape)
    requires
        !s.has_crashed,
    ensures
        s.step_and_wait() matches Flow::Done(_, e) ==> {
            &&& e == (PtraceShape { talk: e.talk, ..s })
            &&& e.talk.heard.len() == s.talk.heard.len() + 2
            &&& e.talk.heard[s.talk.heard.len() as int].0 == CallShape::Step
            &&& e.talk.heard[s.talk.heard.len() as int + 1].0 == CallShape::Wait
        },
{
}

/// A source step goes on exactly where an instruction was executed that left the program on the
/// line that the step started on: in a line of another number, be it lower or higher, and in code
/// without a line, the step ends.
pub proof fn lemma_step_stays_on_line(s: PtraceShape, start: u64, steps: nat)
    ensures
        s.line_round(start, steps) matches Flow::Done(true, e) ==> {
            &&& s.step_and_wait() matches Flow::Done(_, t)
            &&& t.current_line() matches Flow::Done(Some(line), u)
            &&& line.1 == start && u == e && steps < 4096
        },
        s.step_and_wait() matches Flow::Done(_, t) ==> (t.current_line() matches Flow::Done(
            line,
            u,
        ) ==> {
            &&& line is None || (line->0).1 < start || (line->0).1 > start ==> {
                &&& !(s.line_round(start, steps) matches Flow::Done(true, _))
                &&& s.line_round(start, steps).state() == u.print_here().state()
            }
            &&& line is Some && (line->0).1 == start && steps < 4096 ==> s.line_round(start, steps)
                == Flow::<bool, PtraceShape>::Done(true, u)
        }),
{
}

/// The state after so many instructions of a source step, all of which left the program on the
/// line.
pub open spec fn after_lines(s: PtraceShape, start: u64, steps: nat, n: nat) -> Option<PtraceShape>
    decreases n,
{
    if n == 0 {
        Some(s)
    } else {
        match s.line_round(start, steps) {
            Flow::Done(true, t) => after_lines(t, start, steps + 1, (n - 1) as nat),
            _ => None,
        }
    }
}

proof fn lemma_line_rounds(s: PtraceShape, start: u64, steps: nat) -> (n: nat)
    requires
        steps <= 4096,
    ensures
        s.line_rounds(start, steps) matches Flow::Done(_, e) ==> {
            &&& n + steps <= 4096
            &&& after_lines(s, start, steps, n) matches Some(t)
            &&& t.line_round(start, steps + n) == Flow::<bool, PtraceShape>::Done(false, e)
        },
    decreases 4097 - steps,
{
    lemma_step_stays_on_line(s, start, steps);
    if let Flow::Done(true, t) = s.line_round(start, steps) {
        let n = lemma_line_rounds(t, start, steps + 1);
        n + 1
    } else {
        0
    }
}

/// The command that steps to another source line starts on the current line and executes
/// instructions up to the first one after which the program is not on that line, or up to the
/// limit.
pub proof fn lemma_step_in_leaves_line(s: PtraceShape, line: (Seq<char>, u64), s1: PtraceShape)
    requires
        !s.has_crashed,
        s.current_line() == Flow::<Option<(Seq<char>, u64)>, PtraceShape>::Done(Some(line), s1),
    ensures
        s.step_in() matches Flow::Done(_, e) ==> exists|n: nat, t: PtraceShape|
            n <= 4096 && #[trigger] after_lines(s1, line.1, 0, n) == Some(t)
                && #[trigger] t.line_round(line.1, n) == Flow::<bool, PtraceShape>::Done(false, e),
{
    let n = lemma_line_rounds(s1, line.1, 0);
    if let Flow::Done(_, e) = s.step_in() {
        let t = after_lines(s1, line.1, 0, n)->0;
        assert(t.line_round(line.1, n) == Flow::<bool, PtraceShape>::Done(false, e));
        assert(after_lines(s1, line.1, 0, n) == Some(t));
    }
}

/// A step through code without debugging information goes on exactly where an instruction was
/// executed that came to no source line.
pub proof fn lemma_seek_ends_at_line(s: PtraceShape, steps: nat)
    ensures
        s.seek_round(steps) matches Flow::Done(true, e) ==> {
            &&& s.step_and_wait() matches Flow::Done(_, t)
            &&& t.current_line() == Flow::<Option<(Seq<char>, u64)>, PtraceShape>::Done(None, e)
            &&& steps < 10000
        },
        s.step_and_wait() matches Flow::Done(_, t) ==> (t.current_line() matches Flow::Done(
            line,
            u,
        ) ==> {
            &&& line is Some ==> {
                &&& !(s.seek_round(steps) matches Flow::Done(true, _))
                &&& s.seek_round(steps).state() == u.print_here().state()
            }
            &&& line is None && steps < 10000 ==> s.seek_round(steps) == Flow::<
                bool,
                PtraceShape,
            >::Done(true, u)
        }),
{
}

/// A step out of a function by its instructions goes on exactly where the program is in its own
/// code, the frame is not above that of the function, and the function is the same or not known.
pub proof fn lemma_step_out_stays_in_function(
    s: PtraceShape,
    func: Option<Seq<char>>,
    frame: u64,
    steps: nat,
    pc: u64,
    rbp: u64,
)
    ensures
        s.out_decide(func, frame, steps, pc, rbp) matches Flow::Done(true, e) ==> {
            &&& s.is_code(pc, true) matches Flow::Done(true, t)
            &&& t.get_dwarf_pc() matches Flow::Done(addr, u)
            &&& u == e && rbp <= frame && steps < 100000
            &&& known_function(s.image, addr) is None || known_function(s.image, addr) == func
        },
        s.is_code(pc, true) matches Flow::Done(ours, t) ==> {
            &&& !ours ==> (s.out_decide(func, frame, steps, pc, rbp) matches Flow::Done(false, e)
                && e.has_crashed)
            &&& ours ==> (t.get_dwarf_pc() matches Flow::Done(addr, u) ==> {
                let now = known_function(s.image, addr);
                &&& rbp > frame || (now is Some && now != func) ==> !(s.out_decide(
                    func,
                    frame,
                    steps,
                    pc,
                    rbp,
                ) matches Flow::Done(true, _))
                &&& rbp <= frame && (now is None || now == func) && steps < 100000 ==> s.out_decide(
                    func,
                    frame,
                    steps,
                    pc,
                    rbp,
                ) == Flow::<bool, PtraceShape>::Done(true, u)
            })
        },
{
    if let Flow::Done(ours, t) = s.is_code(pc, true) {
        assert(t.image == s.image);
        if let Flow::Done(_, u) = t.get_dwarf_pc() {
            assert(u.image == s.image);
        }
    }
}

/// An instruction of a step out of a function is followed by a look at the program counter and the
/// frame pointer, unless the process is gone.
pub proof fn lemma_out_round_looks(s: PtraceShape, func: Option<Seq<char>>, frame: u64, steps: nat)
    ensures
        s.step_and_wait() matches Flow::Done(status, t) ==> {
            &&& status.state is Exited || status.state is Signaled ==> (s.out_round(
                func,
                frame,
                steps,
            ) matches Flow::Done(false, e) && e.talk.heard == t.talk.heard)
            &&& !(status.state is Exited || status.state is Signaled) ==> (
            t.get_pc() matches Flow::Done(pc, u) ==> (u.get_register(
                Register::Rbp,
            ) matches Flow::Done(rbp, v) ==> s.out_round(func, frame, steps) == v.out_decide(
                func,
                frame,
                steps,
                pc,
                rbp,
            )))
        },
{
}

/// The line that a frontend is shown is that of the program counter.
proof fn lemma_shown_line(s: PtraceShape, context: usize)
    ensures
        s.current_source(context) matches Flow::Done(view, e) ==> {
            &&& s.current_line() matches Flow::Done(line, t)
            &&& view.current_line == match line {
                Some((_, number)) => Some(number),
                None => None,
            }
        },
{
}

/// A frontend's source step goes on exactly where an instruction was executed, the program is not
/// over, and the number of the source line is the one that the step started on; it stops for the
/// reason of that instruction where the line is another one.
pub proof fn lemma_frontend_step_stays_on_line(s: PtraceShape, step: StepShape)
    ensures
        s.step_round(step) matches Flow::Done(ProgressShape::Again(next), e) ==> {
            &&& step.left > 0 && next.left == step.left - 1 && next.start_line == step.start_line
            &&& s.step_instruction() matches Flow::Done(reason, t)
            &&& !(reason is Exited || reason is Terminated)
            &&& t.current_line() matches Flow::Done(line, _)
            &&& step.start_line == match line {
                Some((_, number)) => Some(number),
                None => None,
            }
        },
        s.step_round(step) matches Flow::Done(ProgressShape::Stopped(cause), e) ==> step.left > 0
            ==> {
            &&& s.step_instruction() matches Flow::Done(reason, t)
            &&& cause == reason
            &&& reason is Exited || reason is Terminated || (t.current_line() matches Flow::Done(
                line,
                _,
            ) && step.start_line != match line {
                Some((_, number)) => Some(number),
                None => None,
            })
        },
{
    if step.left > 0 {
        if let Flow::Done(_, t) = s.step_instruction() {
            lemma_shown_line(t, 0);
        }
    }
}

/// A frontend's source step starts on the line of the program counter.
pub proof fn lemma_frontend_step_starts_on_line(s: PtraceShape)
    ensures
        s.step_begin() matches Flow::Done(step, e) ==> {
            &&& s.current_line() matches Flow::Done(line, _)
            &&& step.start_line == match line {
                Some((_, number)) => Some(number),
                None => None,
            }
            &&& step.left > 0
        },
{
    lemma_shown_line(s, 0);
}

} // verus!
