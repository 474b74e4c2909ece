//! A command of the debugger for a local process, taken in parts.
//!
//! A command that steps can take many instructions. [`LinuxPtraceDebugger::begin_command`]
//! carries out a command up to where only such steps are left, and
//! [`LinuxPtraceDebugger::turn`] takes one of them; both say what is left. Each part is an
//! operation of its own, so that none of them grows long.
use vstd::prelude::*;

use crate::dialogue::{ran, Flow, Pause};
use crate::elf_debug_info::{function_ranges_at, known, units_in_image};
use crate::text::{either, is_either, same};
use crate::words::{split_whitespace, words_of};

use super::command_handler::{any_past, some_past, SEEK_LIMIT, STEP_IN_LIMIT, STEP_OUT_LIMIT};
use super::debugger::{LinuxPtraceDebugger, PtraceShape};

verus! {

/// What is left of a command.
#[derive(Clone, Debug)]
pub enum Pending {
    Nothing,
    /// Going on to code with debugging information, after so many instructions.
    Seek(usize),
    /// Going on from a source line to another, after so many instructions.
    Line(u64, usize),
    /// Going on out of a function and its frame, after so many instructions.
    Out(Option<String>, u64, usize),
}

/// What is left of a command, as mathematical values.
pub enum PendingShape {
    Nothing,
    Seek(nat),
    Line(u64, nat),
    Out(Option<Seq<char>>, u64, nat),
}

impl DeepView for Pending {
    type V = PendingShape;

    open spec fn deep_view(&self) -> PendingShape {
        match self {
            Pending::Nothing => PendingShape::Nothing,
            Pending::Seek(steps) => PendingShape::Seek(*steps as nat),
            Pending::Line(start, steps) => PendingShape::Line(*start, *steps as nat),
            Pending::Out(func, frame, steps) => PendingShape::Out(
                func.deep_view(),
                *frame,
                *steps as nat,
            ),
        }
    }
}

impl PendingShape {
    /// The number of instructions is within the limit of the step.
    pub open spec fn within_limit(self) -> bool {
        match self {
            PendingShape::Nothing => true,
            PendingShape::Seek(steps) => steps <= SEEK_LIMIT + 1,
            PendingShape::Line(_, steps) => steps <= STEP_IN_LIMIT + 1,
            PendingShape::Out(_, _, steps) => steps <= STEP_OUT_LIMIT + 1,
        }
    }
}

impl PtraceShape {
    /// Nothing being left of an operation.
    pub open spec fn and_nothing(flow: Flow<(), PtraceShape>) -> Flow<PendingShape, PtraceShape> {
        flow.bind(|_done: (), s: PtraceShape| Flow::Done(PendingShape::Nothing, s))
    }

    /// Starting to step to another source line, into calls.
    pub open spec fn begin_step_in(self) -> Flow<PendingShape, PtraceShape> {
        if self.has_crashed {
            Flow::Done(PendingShape::Nothing, self.refuse_step())
        } else {
            self.current_line().bind(
                |line: Option<(Seq<char>, u64)>, s: PtraceShape|
                    match line {
                        None => if s.breakpoints.len() > 0 {
                            Flow::Done(PendingShape::Nothing, s.not_in_user_code())
                        } else {
                            Flow::Done(PendingShape::Seek(0), s)
                        },
                        Some((_, start)) => Flow::Done(PendingShape::Line(start, 0), s),
                    },
            )
        }
    }

    /// Starting to step instruction by instruction until the function is left.
    pub open spec fn begin_out(self) -> Flow<PendingShape, PtraceShape> {
        self.out_begin().bind(
            |start: (Option<Seq<char>>, u64), s: PtraceShape|
                Flow::Done(PendingShape::Out(start.0, start.1, 0), s),
        )
    }

    /// Starting to run until the function returns.
    pub open spec fn begin_step_out(self) -> Flow<PendingShape, PtraceShape> {
        if self.has_crashed {
            Flow::Done(
                PendingShape::Nothing,
                self.say(
                    "Cannot finish: program has crashed. Use 'continue' to terminate or restart the debugger."@,
                ),
            )
        } else {
            self.cleanup_temps(self.temps).bind(
                |_done: (), s: PtraceShape|
                    s.return_address().bind(
                        |addr: Option<u64>, s: PtraceShape|
                            match addr {
                                Some(addr) => Self::and_nothing(
                                    s.set_temp(addr).bind(
                                        |_done: (), s: PtraceShape| s.go(),
                                    ),
                                ),
                                None => s.say("Cannot determine valid return address."@).say(
                                    "Falling back to single-stepping until function returns."@,
                                ).begin_out(),
                            },
                    ),
            )
        }
    }

    /// Starting to run to any other line of a function, or to its caller.
    pub open spec fn begin_run_past(self, pc: u64, ranges: Seq<(u64, u64)>) -> Flow<
        PendingShape,
        PtraceShape,
    > {
        let addresses = self.other_lines(pc, ranges);
        if !some_past(addresses, pc) {
            self.begin_out()
        } else {
            Self::and_nothing(
                self.set_temps(addresses).bind(
                    |_done: (), s: PtraceShape|
                        s.set_returns().bind(|_done: (), s: PtraceShape| s.go()),
                ),
            )
        }
    }

    /// Starting to execute a source line, stepping over calls.
    pub open spec fn begin_step_over(self) -> Flow<PendingShape, PtraceShape> {
        if self.has_crashed {
            Flow::Done(PendingShape::Nothing, self.refuse_step())
        } else {
            self.current_line().bind(
                |line: Option<(Seq<char>, u64)>, s: PtraceShape|
                    if line is None && s.breakpoints.len() > 0 {
                        Flow::Done(PendingShape::Nothing, s.not_in_user_code())
                    } else {
                        s.get_dwarf_pc().bind(
                            |pc: u64, s: PtraceShape|
                                match known(function_ranges_at(units_in_image(s.image), pc)) {
                                    None => s.say(
                                        "Cannot determine function boundaries - falling back to step_in"@,
                                    ).begin_step_in(),
                                    Some(ranges) => s.begin_run_past(pc, ranges),
                                },
                        )
                    },
            )
        }
    }

    /// Starting a command typed by the user.
    pub open spec fn begin_command(self, line: Seq<char>) -> Flow<PendingShape, PtraceShape> {
        let tokens = words_of(line);
        if tokens.len() == 0 {
            Flow::Done(PendingShape::Nothing, self)
        } else if either(tokens[0], "next"@, "n"@) {
            self.begin_step_over()
        } else if tokens[0] == "finish"@ {
            self.begin_step_out()
        } else if either(tokens[0], "step"@, "s"@) {
            self.begin_step_in()
        } else {
            Self::and_nothing(self.handle_command(line))
        }
    }

    /// Taking one part of what is left of a command.
    pub open spec fn turn(self, pending: PendingShape) -> Flow<PendingShape, PtraceShape> {
        match pending {
            PendingShape::Nothing => Flow::Done(PendingShape::Nothing, self),
            PendingShape::Seek(steps) => self.seek_round(steps).bind(
                |more: bool, s: PtraceShape|
                    Flow::Done(
                        if more && steps <= SEEK_LIMIT {
                            PendingShape::Seek(steps + 1)
                        } else {
                            PendingShape::Nothing
                        },
                        s,
                    ),
            ),
            PendingShape::Line(start, steps) => self.line_round(start, steps).bind(
                |more: bool, s: PtraceShape|
                    Flow::Done(
                        if more && steps <= STEP_IN_LIMIT {
                            PendingShape::Line(start, steps + 1)
                        } else {
                            PendingShape::Nothing
                        },
                        s,
                    ),
            ),
            PendingShape::Out(func, frame, steps) => self.out_round(func, frame, steps).bind(
                |more: bool, s: PtraceShape|
                    Flow::Done(
                        if more && steps <= STEP_OUT_LIMIT {
                            PendingShape::Out(func, frame, steps + 1)
                        } else {
                            PendingShape::Nothing
                        },
                        s,
                    ),
            ),
        }
    }

    /// Taking all that is left of a command.
    pub open spec fn finish(self, pending: PendingShape) -> Flow<(), PtraceShape> {
        match pending {
            PendingShape::Nothing => Flow::Done((), self),
            PendingShape::Seek(steps) => self.seek_rounds(steps),
            PendingShape::Line(start, steps) => self.line_rounds(start, steps),
            PendingShape::Out(func, frame, steps) => self.out_rounds(func, frame, steps),
        }
    }
}

impl LinuxPtraceDebugger {
    /// Starts to step to another source line, into calls.
    fn begin_step_in(&mut self) -> (r: Result<Pending, Pause>)
        ensures
            ran(r, final(self)@, old(self)@.begin_step_in()),
    {
        if self.has_crashed {
            self.talk.say(
                "Cannot step: program has crashed. Use 'continue' to terminate or restart the debugger.",
            );
            return Ok(Pending::Nothing);
        }
        match self.get_current_line()? {
            None => {
                if self.breakpoints.len() > 0 {
                    self.not_in_user_code();
                    Ok(Pending::Nothing)
                } else {
                    Ok(Pending::Seek(0))
                }
            },
            Some((_, start)) => Ok(Pending::Line(start, 0)),
        }
    }

    /// Starts to step instruction by instruction until the function is left.
    fn begin_out(&mut self) -> (r: Result<Pending, Pause>)
        ensures
            ran(r, final(self)@, old(self)@.begin_out()),
    {
        let (func, frame) = self.out_begin()?;
        Ok(Pending::Out(func, frame, 0))
    }

    /// Starts to run until the function returns.
    fn begin_step_out(&mut self) -> (r: Result<Pending, Pause>)
        ensures
            ran(r, final(self)@, old(self)@.begin_step_out()),
    {
        if self.has_crashed {
            self.talk.say(
                "Cannot finish: program has crashed. Use 'continue' to terminate or restart the debugger.",
            );
            return Ok(Pending::Nothing);
        }
        self.cleanup_all_temp_breakpoints()?;
        match self.find_return_address()? {
            Some(addr) => {
                self.set_temp_breakpoint(addr)?;
                self.go()?;
                Ok(Pending::Nothing)
            },
            None => {
                self.talk.say("Cannot determine valid return address.");
                self.talk.say("Falling back to single-stepping until function returns.");
                self.begin_out()
            },
        }
    }

    /// Starts to execute a source line, stepping over calls.
    fn begin_step_over(&mut self) -> (r: Result<Pending, Pause>)
        ensures
            ran(r, final(self)@, old(self)@.begin_step_over()),
    {
        if self.has_crashed {
            self.talk.say(
                "Cannot step: program has crashed. Use 'continue' to terminate or restart the debugger.",
            );
            return Ok(Pending::Nothing);
        }
        let line = self.get_current_line()?;
        if line.is_none() && self.breakpoints.len() > 0 {
            self.not_in_user_code();
            return Ok(Pending::Nothing);
        }
        let pc: u64 = self.get_dwarf_pc()?;
        let ranges = match self.debug_info.get_function_ranges(pc) {
            Ok(Some(ranges)) => ranges,
            _ => {
                self.talk.say(
                    "Cannot determine function boundaries - falling back to step_in",
                );
                return self.begin_step_in();
            },
        };
        let addresses: Vec<u64> = match self.debug_info.get_line_addresses_in_ranges(
            ranges.as_slice(),
            pc,
        ) {
            Ok(addresses) => addresses,
            Err(_) => Vec::new(),
        };
        assert(addresses@ =~= self@.other_lines(pc, ranges@));
        if !any_past(&addresses, pc) {
            return self.begin_out();
        }
        self.set_temps(&addresses)?;
        self.set_returns()?;
        self.go()?;
        Ok(Pending::Nothing)
    }

    /// Starts a command typed by the user; what is left of it.
    pub fn begin_command(&mut self, line: &str) -> (r: Result<Pending, Pause>)
        ensures
            ran(r, final(self)@, old(self)@.begin_command(line@)),
            r matches Ok(pending) ==> pending.deep_view().within_limit(),
    {
        proof {
            lemma_begins_within_limit(self@, line@);
        }
        let tokens = split_whitespace(line);
        if tokens.len() == 0 {
            return Ok(Pending::Nothing);
        }
        let word = tokens[0].as_str();
        if is_either(word, "next", "n") {
            self.begin_step_over()
        } else if same(word, "finish") {
            self.begin_step_out()
        } else if is_either(word, "step", "s") {
            self.begin_step_in()
        } else {
            self.handle_command(line)?;
            Ok(Pending::Nothing)
        }
    }

    /// Takes one part of what is left of a command; what is then left.
    pub fn turn(&mut self, pending: Pending) -> (r: Result<Pending, Pause>)
        requires
            pending.deep_view().within_limit(),
        ensures
            ran(r, final(self)@, old(self)@.turn(pending.deep_view())),
            r matches Ok(next) ==> next.deep_view().within_limit(),
    {
        match pending {
            Pending::Nothing => Ok(Pending::Nothing),
            Pending::Seek(steps) => {
                let more = self.seek_round(steps)?;
                if more && steps <= SEEK_LIMIT {
                    Ok(Pending::Seek(steps + 1))
                } else {
                    Ok(Pending::Nothing)
                }
            },
            Pending::Line(start, steps) => {
                let more = self.line_round(start, steps)?;
                if more && steps <= STEP_IN_LIMIT {
                    Ok(Pending::Line(start, steps + 1))
                } else {
                    Ok(Pending::Nothing)
                }
            },
            Pending::Out(func, frame, steps) => {
                let more = self.out_round(&func, frame, steps)?;
                if more && steps <= STEP_OUT_LIMIT {
                    Ok(Pending::Out(func, frame, steps + 1))
                } else {
                    Ok(Pending::Nothing)
                }
            },
        }
    }
}

// ---------------------------------------------------------------------------
// Laws

proof fn lemma_begins_within_limit(s: PtraceShape, line: Seq<char>)
    ensures
        s.begin_command(line) matches Flow::Done(pending, _) ==> pending.within_limit(),
{
}

/// Taking all that is left is taking one part and then all that is left after it.
pub proof fn lemma_turn(s: PtraceShape, pending: PendingShape)
    ensures
        s.finish(pending) == s.turn(pending).bind(
            |next: PendingShape, s: PtraceShape| s.finish(next),
        ),
{
}

/// A command taken in parts does what the whole command does.
pub proof fn lemma_command_in_parts(s: PtraceShape, line: Seq<char>)
    ensures
        s.handle_command(line) == s.begin_command(line).bind(
            |pending: PendingShape, s: PtraceShape| s.finish(pending),
        ),
{
    let tokens = words_of(line);
    if tokens.len() > 0 {
        lemma_words_differ(tokens[0]);
        if either(tokens[0], "next"@, "n"@) {
            assert(s.handle_command(line) == s.step_over());
            lemma_step_over_parts(s);
        } else if tokens[0] == "finish"@ {
            assert(s.handle_command(line) == s.step_out());
            lemma_step_out_parts(s);
        } else if either(tokens[0], "step"@, "s"@) {
            assert(s.handle_command(line) == s.step_in());
            lemma_step_in_parts(s);
        } else {
            lemma_and_nothing(s.handle_command(line));
        }
    }
}

/// An operation of which nothing is left is done.
proof fn lemma_and_nothing(flow: Flow<(), PtraceShape>)
    ensures
        flow == PtraceShape::and_nothing(flow).bind(
            |pending: PendingShape, s: PtraceShape| s.finish(pending),
        ),
{
}

/// A word that starts a step is no other command.
proof fn lemma_words_differ(word: Seq<char>)
    ensures
        either(word, "next"@, "n"@) ==> !either(word, "continue"@, "c"@) && word != "break"@,
        word == "finish"@ ==> !either(word, "continue"@, "c"@) && word != "break"@ && !either(
            word,
            "next"@,
            "n"@,
        ) && word != "register"@ && word != "memory"@ && word != "stepi"@,
        either(word, "step"@, "s"@) ==> !either(word, "continue"@, "c"@) && word != "break"@
            && !either(word, "next"@, "n"@) && word != "register"@ && word != "memory"@ && word
            != "stepi"@ && word != "finish"@,
{
    reveal_strlit("continue");
    reveal_strlit("c");
    reveal_strlit("break");
    reveal_strlit("next");
    reveal_strlit("n");
    reveal_strlit("register");
    reveal_strlit("memory");
    reveal_strlit("stepi");
    reveal_strlit("finish");
    reveal_strlit("step");
    reveal_strlit("s");
    assert("n"@[0] == 'n' && "c"@[0] == 'c' && "s"@[0] == 's');
    assert("next"@[0] == 'n' && "step"@[0] == 's');
    assert("finish"@[0] == 'f' && "memory"@[0] == 'm');
    assert("s"@.len() == 1 && "step"@.len() == 4 && "stepi"@.len() == 5 && "break"@.len() == 5);
    assert("finish"@.len() == 6 && "memory"@.len() == 6 && "register"@.len() == 8);
    assert("continue"@.len() == 8 && "next"@.len() == 4);
}

proof fn lemma_step_in_parts(s: PtraceShape)
    ensures
        s.step_in() == s.begin_step_in().bind(
            |pending: PendingShape, s: PtraceShape| s.finish(pending),
        ),
{
}

proof fn lemma_out_parts(s: PtraceShape)
    ensures
        s.step_out_by_stepping() == s.begin_out().bind(
            |pending: PendingShape, s: PtraceShape| s.finish(pending),
        ),
{
}

proof fn lemma_step_out_parts(s: PtraceShape)
    ensures
        s.step_out() == s.begin_step_out().bind(
            |pending: PendingShape, s: PtraceShape| s.finish(pending),
        ),
{
    if !s.has_crashed {
        if let Flow::Done(_, s1) = s.cleanup_temps(s.temps) {
            if let Flow::Done(None, s2) = s1.return_address() {
                lemma_out_parts(
                    s2.say("Cannot determine valid return address."@).say(
                        "Falling back to single-stepping until function returns."@,
                    ),
                );
            }
        }
    }
}

proof fn lemma_run_past_parts(s: PtraceShape, pc: u64, ranges: Seq<(u64, u64)>)
    ensures
        s.run_past(pc, ranges) == s.begin_run_past(pc, ranges).bind(
            |pending: PendingShape, s: PtraceShape| s.finish(pending),
        ),
{
    lemma_out_parts(s);
}

proof fn lemma_step_over_parts(s: PtraceShape)
    ensures
        s.step_over() == s.begin_step_over().bind(
            |pending: PendingShape, s: PtraceShape| s.finish(pending),
        ),
{
    if !s.has_crashed {
        if let Flow::Done(_, s1) = s.current_line() {
            if let Flow::Done(pc, s2) = s1.get_dwarf_pc() {
                lemma_step_in_parts(
                    s2.say(
                        "Cannot determine function boundaries - falling back to step_in"@,
                    ),
                );
                if let Some(ranges) = known(function_ranges_at(units_in_image(s2.image), pc)) {
                    lemma_run_past_parts(s2, pc, ranges);
                }
            }
        }
    }
}

} // verus!
