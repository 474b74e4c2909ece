//! A command of the Cortex-M debugger, taken in parts.
//!
//! A command that steps can take many instructions. [`RemoteArmDebugger::begin_command`] carries
//! out a command up to where only such steps are left, and [`RemoteArmDebugger::turn`] takes one
//! of them; both say what is left. Each part is an operation of its own, so that none of them
//! grows long.
use vstd::prelude::*;

use crate::dialogue::{ran, Flow, Pause};
use crate::target::{
    NextShape, NextStart, ProgressShape, StepProgress, StepShape, StepState, StopCause, StopReason,
};
use crate::text::{either, is_either};
use crate::words::{split_whitespace, words_of};

use super::debugger::{ArmShape, RemoteArmDebugger};
use super::repl::SOURCE_STEP_LIMIT;

verus! {

/// What is left of a command.
#[derive(Clone, Debug)]
pub enum Pending {
    /// Nothing; whether the session goes on.
    Nothing(bool),
    /// Stepping on from a source line, with so many instructions left.
    Step(Option<(String, u64)>, usize),
    /// Stepping on to leave a source line.
    Next(StepState),
}

/// What is left of a command, as mathematical values.
pub enum PendingShape {
    Nothing(bool),
    Step(Option<(Seq<char>, u64)>, nat),
    Next(StepShape),
}

impl DeepView for Pending {
    type V = PendingShape;

    open spec fn deep_view(&self) -> PendingShape {
        match self {
            Pending::Nothing(more) => PendingShape::Nothing(*more),
            Pending::Step(start, left) => PendingShape::Step(start.deep_view(), *left as nat),
            Pending::Next(step) => PendingShape::Next(step.deep_view()),
        }
    }
}

impl ArmShape {
    /// Nothing being left of an operation in a session that goes on.
    pub open spec fn and_nothing(flow: Flow<(), ArmShape>) -> Flow<PendingShape, ArmShape> {
        flow.bind(|_done: (), s: ArmShape| Flow::Done(PendingShape::Nothing(true), s))
    }

    /// The end of a command that executes a source line.
    pub open spec fn end_next(self, reason: StopCause) -> Flow<(), ArmShape> {
        self.say(reason.text()).print_current_location()
    }

    /// Starting a command that executes a source line.
    pub open spec fn begin_next(self) -> Flow<PendingShape, ArmShape> {
        self.next_begin().bind(
            |next: NextShape, s: ArmShape|
                match next {
                    NextShape::Over(reason) => Self::and_nothing(s.end_next(reason)),
                    NextShape::Step(step) => Flow::Done(PendingShape::Next(step), s),
                },
        )
    }

    /// Starting a command that steps to another source line.
    pub open spec fn begin_step(self) -> Flow<PendingShape, ArmShape> {
        self.current_line().bind(
            |start: Option<(Seq<char>, u64)>, s: ArmShape|
                Flow::Done(PendingShape::Step(start, SOURCE_STEP_LIMIT as nat), s),
        )
    }

    /// Starting a command typed by the user.
    pub open spec fn begin_command(self, line: Seq<char>) -> Flow<PendingShape, ArmShape> {
        let tokens = words_of(line);
        if tokens.len() > 0 && either(tokens[0], "step"@, "s"@) {
            self.begin_step()
        } else if tokens.len() > 0 && either(tokens[0], "next"@, "n"@) {
            self.begin_next()
        } else {
            self.handle_command(line).bind(
                |more: bool, s: ArmShape| Flow::Done(PendingShape::Nothing(more), s),
            )
        }
    }

    /// Taking one part of what is left of a command.
    pub open spec fn turn(self, pending: PendingShape) -> Flow<PendingShape, ArmShape> {
        match pending {
            PendingShape::Nothing(more) => Flow::Done(PendingShape::Nothing(more), self),
            PendingShape::Step(start, left) => self.repl_step_round(start, left).bind(
                |more: bool, s: ArmShape|
                    Flow::Done(
                        if more && left > 0 {
                            PendingShape::Step(start, (left - 1) as nat)
                        } else {
                            PendingShape::Nothing(true)
                        },
                        s,
                    ),
            ),
            PendingShape::Next(step) => self.step_round(step).bind(
                |progress: ProgressShape, s: ArmShape|
                    match progress {
                        ProgressShape::Stopped(reason) => Self::and_nothing(s.end_next(reason)),
                        ProgressShape::Again(step) => Flow::Done(PendingShape::Next(step), s),
                    },
            ),
        }
    }

    /// Taking all that is left of a command; whether the session goes on.
    pub open spec fn finish(self, pending: PendingShape) -> Flow<bool, ArmShape> {
        match pending {
            PendingShape::Nothing(more) => Flow::Done(more, self),
            PendingShape::Step(start, left) => self.repl_step_rounds(start, left).bind(
                |_done: (), s: ArmShape| Flow::Done(true, s),
            ),
            PendingShape::Next(step) => self.step_rounds(step, step.left as nat + 1).bind(
                |reason: StopCause, s: ArmShape| s.end_next(reason),
            ).bind(|_done: (), s: ArmShape| Flow::Done(true, s)),
        }
    }
}

impl RemoteArmDebugger {
    /// Ends a command that executes a source line.
    fn end_next(&mut self, reason: StopReason) -> (r: Result<(), Pause>)
        ensures
            ran(r, final(self)@, old(self)@.end_next(reason@)),
    {
        let text = reason.message();
        self.talk.say(text.as_str());
        self.print_current_location()
    }

    /// Starts a command typed by the user; what is left of it.
    pub fn begin_command(&mut self, line: &str) -> (r: Result<Pending, Pause>)
        ensures
            ran(r, final(self)@, old(self)@.begin_command(line@)),
    {
        let tokens = split_whitespace(line);
        if tokens.len() > 0 && is_either(tokens[0].as_str(), "step", "s") {
            let start = self.get_current_line()?;
            Ok(Pending::Step(start, SOURCE_STEP_LIMIT))
        } else if tokens.len() > 0 && is_either(tokens[0].as_str(), "next", "n") {
            match self.arm_next_begin()? {
                NextStart::Over(reason) => {
                    self.end_next(reason)?;
                    Ok(Pending::Nothing(true))
                },
                NextStart::Step(step) => Ok(Pending::Next(step)),
            }
        } else {
            let more = self.handle_command(line)?;
            Ok(Pending::Nothing(more))
        }
    }

    /// Takes one part of what is left of a command; what is then left.
    pub fn turn(&mut self, pending: Pending) -> (r: Result<Pending, Pause>)
        ensures
            ran(r, final(self)@, old(self)@.turn(pending.deep_view())),
    {
        match pending {
            Pending::Nothing(more) => Ok(Pending::Nothing(more)),
            Pending::Step(start, left) => {
                let more = self.repl_step_round(&start, left)?;
                if more && left > 0 {
                    Ok(Pending::Step(start, left - 1))
                } else {
                    Ok(Pending::Nothing(true))
                }
            },
            Pending::Next(step) => match self.arm_step_round(step)? {
                StepProgress::Stopped(reason) => {
                    self.end_next(reason)?;
                    Ok(Pending::Nothing(true))
                },
                StepProgress::Again(step) => Ok(Pending::Next(step)),
            },
        }
    }
}

// ---------------------------------------------------------------------------
// Laws

/// Taking all that is left is taking one part and then all that is left after it.
pub proof fn lemma_turn(s: ArmShape, pending: PendingShape)
    ensures
        s.finish(pending) == s.turn(pending).bind(
            |next: PendingShape, s: ArmShape| s.finish(next),
        ),
{
    match pending {
        PendingShape::Nothing(_) => {},
        PendingShape::Step(_, _) => {},
        PendingShape::Next(step) => {
            lemma_next_turn(s, step);
        },
    }
}

proof fn lemma_next_turn(s: ArmShape, step: StepShape)
    ensures
        s.finish(PendingShape::Next(step)) == s.turn(PendingShape::Next(step)).bind(
            |next: PendingShape, s: ArmShape| s.finish(next),
        ),
{
    if let Flow::Done(ProgressShape::Again(next), _) = s.step_round(step) {
        assert(next.left + 1 == step.left);
    }
}

/// A command taken in parts does what the whole command does.
pub proof fn lemma_command_in_parts(s: ArmShape, line: Seq<char>)
    ensures
        s.handle_command(line) == s.begin_command(line).bind(
            |pending: PendingShape, s: ArmShape| s.finish(pending),
        ),
{
    let tokens = words_of(line);
    if tokens.len() > 0 && either(tokens[0], "step"@, "s"@) {
        lemma_words_differ(tokens[0]);
        assert(s.run_command(tokens) == s.cmd_step());
        lemma_step_parts(s);
    } else if tokens.len() > 0 && either(tokens[0], "next"@, "n"@) {
        lemma_words_differ(tokens[0]);
        assert(s.run_command(tokens) == s.cmd_next());
        lemma_next_parts(s);
    } else {
        lemma_nothing(s.handle_command(line));
    }
}

proof fn lemma_nothing(flow: Flow<bool, ArmShape>)
    ensures
        flow == flow.bind(
            |more: bool, s: ArmShape| Flow::Done(PendingShape::Nothing(more), s),
        ).bind(|pending: PendingShape, s: ArmShape| s.finish(pending)),
{
}

proof fn lemma_step_parts(s: ArmShape)
    ensures
        s.cmd_step().bind(|_done: (), s: ArmShape| Flow::Done(true, s)) == s.begin_step().bind(
            |pending: PendingShape, s: ArmShape| s.finish(pending),
        ),
{
}

proof fn lemma_next_parts(s: ArmShape)
    ensures
        s.cmd_next().bind(|_done: (), s: ArmShape| Flow::Done(true, s)) == s.begin_next().bind(
            |pending: PendingShape, s: ArmShape| s.finish(pending),
        ),
{
    super::target_impl::lemma_next_begin(s);
}

/// A word that starts a step is no other command.
proof fn lemma_words_differ(word: Seq<char>)
    ensures
        either(word, "step"@, "s"@) ==> !either(word, "quit"@, "q"@) && !either(
            word,
            "continue"@,
            "c"@,
        ) && !either(word, "stepi"@, "si"@),
        either(word, "next"@, "n"@) ==> !either(word, "quit"@, "q"@) && !either(
            word,
            "continue"@,
            "c"@,
        ) && !either(word, "stepi"@, "si"@) && !either(word, "step"@, "s"@),
{
    reveal_strlit("quit");
    reveal_strlit("q");
    reveal_strlit("continue");
    reveal_strlit("c");
    reveal_strlit("stepi");
    reveal_strlit("si");
    reveal_strlit("step");
    reveal_strlit("s");
    reveal_strlit("next");
    reveal_strlit("n");
    assert("n"@[0] == 'n' && "c"@[0] == 'c' && "s"@[0] == 's' && "q"@[0] == 'q');
    assert("next"@[0] == 'n' && "step"@[0] == 's' && "quit"@[0] == 'q');
    assert("s"@.len() == 1 && "step"@.len() == 4 && "stepi"@.len() == 5 && "si"@.len() == 2);
    assert("continue"@.len() == 8 && "next"@.len() == 4 && "quit"@.len() == 4);
}

} // verus!
