//! What a frontend can do with a Cortex-M target.
use vstd::prelude::*;

use crate::dialogue::{attempted, ran, settled, with_context, Fault, FaultShape, Flow, Pause};
use crate::dwarf::ImageShape;
use crate::elf_debug_info::{
    find_line, function_at, function_ranges_at, known_line, line_addresses, line_at,
    source_addresses, units_in_image,
};
use crate::list::{has_value, push_new, remove_value, with_value, without};
use crate::number::{hex_padded_of, push_hex_padded};
use crate::source::{source_window, source_window_of};
use crate::target::{
    empty_source_view, lemma_snapshot_stands, no_output, no_source, snapshot_of, without_output,
    BreakpointView, DebugTarget,
    FrameShape, NextShape, NextStart, ProgressShape, RegisterShape, RegisterValue, SourceText,
    SourceView, StackFrame, StepProgress, StepShape, StepState, StopCause, StopReason, TargetError,
};
use crate::text::same;

use super::debugger::{location_of, normalize_thumb_addr, thumb_addr, ArmShape, RemoteArmDebugger};
use super::gdb_protocol::{
    bytes_to_hex, expect_ok, hex_text_of, ok_of, stop_cause_of, stop_reason_from_reply,
};
use super::registers::{arm_register_from_name, core_index, core_name, core_reg};

verus! {

/// The most instructions of a source step.
pub const ARM_SOURCE_STEP_LIMIT: usize = 256;

// ---------------------------------------------------------------------------
// Texts

/// A text and an address of eight digits.
pub open spec fn text_and_addr(text: Seq<char>, addr: u64) -> Seq<char> {
    text + hex_padded_of(addr as nat, 8)
}

/// A text and an address of eight digits.
pub fn with_addr(text: &str, addr: u64) -> (r: String)
    ensures
        r@ == text_and_addr(text@, addr),
{
    let mut out = text.to_owned();
    push_hex_padded(&mut out, addr, 8);
    out
}

/// Two source lines are the same.
pub fn same_line(a: &Option<(String, u64)>, b: &Option<(String, u64)>) -> (r: bool)
    ensures
        r == (a.deep_view() == b.deep_view()),
{
    match (a, b) {
        (Some((file, line)), Some((other, number))) => same(file.as_str(), other.as_str()) && *line
            == *number,
        (None, None) => true,
        _ => false,
    }
}

// ---------------------------------------------------------------------------
// Running

/// What a step with a breakpoint at its start comes to: the outcome of the step, unless the
/// breakpoint could not be put back.
pub open spec fn restored_step(
    s: ArmShape,
    pc: u64,
    step: Result<Seq<char>, FaultShape>,
    restored: Result<(), FaultShape>,
) -> Flow<StopCause, ArmShape> {
    match (step, restored) {
        (Ok(reply), Ok(_)) => Flow::Done(stop_cause_of(reply), s),
        (Err(e), Ok(_)) => Flow::Fail(e, s),
        (Ok(_), Err(e)) => Flow::Fail(e, s),
        (Err(step), Err(e)) => Flow::Fail(
            FaultShape::Target(
                seq![
                    text_and_addr("also failed to restore breakpoint at 0x"@, pc) + ": "@
                        + TargetError::headline(e.chain()),
                ] + step.chain(),
            ),
            s,
        ),
    }
}

impl ArmShape {
    /// Letting the target run until it stops.
    pub open spec fn continue_exec(self) -> Flow<StopCause, ArmShape> {
        self.cont().bind(|reply: Seq<char>, s: ArmShape| Flow::Done(stop_cause_of(reply), s))
    }

    /// Executing one instruction; a breakpoint at it is taken out for that time.
    pub open spec fn step_instruction(self) -> Flow<StopCause, ArmShape> {
        self.arm_pc().bind(
            |pc: u64, s: ArmShape|
                if s.breakpoints.contains(pc) {
                    s.remove_remote_breakpoint(pc).bind(
                        |_done: (), s: ArmShape|
                            s.step().attempt().bind(
                                |step: Result<Seq<char>, FaultShape>, s: ArmShape|
                                    s.insert_remote_breakpoint(pc).attempt().bind(
                                        |restored: Result<(), FaultShape>, s: ArmShape|
                                            restored_step(s, pc, step, restored),
                                    ),
                            ),
                    )
                } else {
                    s.step().bind(
                        |reply: Seq<char>, s: ArmShape| Flow::Done(stop_cause_of(reply), s),
                    )
                },
        )
    }

    /// Interrupting the target.
    pub open spec fn halt(self) -> Flow<StopCause, ArmShape> {
        self.interrupt().bind(|reply: Seq<char>, s: ArmShape| Flow::Done(stop_cause_of(reply), s))
    }

    /// Resetting and halting the target by a command to the stub.
    pub open spec fn reset_halt(self) -> Flow<StopCause, ArmShape> {
        self.send_packet("qRcmd,"@ + hex_text_of(reset_halt_bytes())).bind(
            |response: Seq<char>, s: ArmShape|
                match ok_of(response) {
                    Ok(_) => Flow::Done(StopCause::Other("Target reset and halted"@), s),
                    Err(e) => Flow::Fail(FaultShape::Target(e), s),
                },
        )
    }

    /// Starting a source step.
    pub open spec fn step_begin(self) -> Flow<StepShape, ArmShape> {
        self.arm_pc().bind(
            |pc: u64, s: ArmShape|
                Flow::Done(
                    StepShape {
                        start_line: None,
                        start_place: known_line(s.image, pc),
                        previous_pc: pc,
                        left: ARM_SOURCE_STEP_LIMIT,
                    },
                    s,
                ),
        )
    }

    /// One instruction of a source step: the step is over when the program is, when the target
    /// does not move, or when the source line is another.
    pub open spec fn step_round(self, step: StepShape) -> Flow<ProgressShape, ArmShape> {
        if step.left == 0 {
            Flow::Done(
                ProgressShape::Stopped(
                    StopCause::Other("Source step limit reached after 256 instructions"@),
                ),
                self,
            )
        } else {
            self.step_instruction().bind(
                |reason: StopCause, s: ArmShape|
                    if reason.is_end() {
                        Flow::Done(ProgressShape::Stopped(reason), s)
                    } else {
                        s.arm_pc().bind(
                            |pc: u64, s: ArmShape|
                                Flow::Done(
                                    if pc == step.previous_pc {
                                        ProgressShape::Stopped(
                                            StopCause::Other(
                                                text_and_addr(
                                                    "Step did not advance PC from 0x"@,
                                                    pc,
                                                )
                                                    + "; target may still be stopped on a breakpoint"@,
                                            ),
                                        )
                                    } else if known_line(s.image, pc) != step.start_place {
                                        ProgressShape::Stopped(reason)
                                    } else {
                                        ProgressShape::Again(
                                            StepShape {
                                                previous_pc: pc,
                                                left: (step.left - 1) as usize,
                                                ..step
                                            },
                                        )
                                    },
                                    s,
                                ),
                        )
                    },
            )
        }
    }

    /// Going on with a source step for at most so many rounds.
    pub open spec fn step_rounds(self, step: StepShape, fuel: nat) -> Flow<StopCause, ArmShape>
        decreases fuel,
    {
        if fuel == 0 {
            Flow::Done(StopCause::Other("Step limit reached"@), self)
        } else {
            self.step_round(step).bind(
                |progress: ProgressShape, s: ArmShape|
                    match progress {
                        ProgressShape::Stopped(reason) => Flow::Done(reason, s),
                        ProgressShape::Again(step) => s.step_rounds(step, (fuel - 1) as nat),
                    },
            )
        }
    }

    /// Stepping to another source line.
    pub open spec fn step_source(self) -> Flow<StopCause, ArmShape> {
        self.step_begin().bind(
            |step: StepShape, s: ArmShape| s.step_rounds(step, ARM_SOURCE_STEP_LIMIT as nat + 1),
        )
    }
}

/// The bytes of the command that resets and halts a target.
pub open spec fn reset_halt_bytes() -> Seq<u8> {
    seq![0x72u8, 0x65, 0x73, 0x65, 0x74, 0x20, 0x68, 0x61, 0x6c, 0x74]
}

// ---------------------------------------------------------------------------
// The next source line

/// The least of two addresses, where there are any.
pub open spec fn least(a: Option<u64>, b: Option<u64>) -> Option<u64> {
    match (a, b) {
        (Some(x), Some(y)) => Some(
            if x < y {
                x
            } else {
                y
            },
        ),
        (Some(x), None) => Some(x),
        (None, _) => b,
    }
}

/// The least address behind `start` whose source line is not the given one, among addresses of
/// a line table without their Thumb bits.
pub open spec fn next_line_addr(
    image: ImageShape,
    addresses: Seq<u64>,
    start: u64,
    line: Option<(Seq<char>, u64)>,
) -> Option<u64>
    decreases addresses.len(),
{
    if addresses.len() == 0 {
        None
    } else {
        let addr = thumb_addr(addresses.last());
        least(
            next_line_addr(image, addresses.drop_last(), start, line),
            if addr > start && known_line(image, addr) != line {
                Some(addr)
            } else {
                None
            },
        )
    }
}

impl ArmShape {
    /// Choosing where a step over the current line ends: at another line further on in the
    /// function, or else in the caller.
    pub open spec fn next_source_addr(self, start: u64, line: Option<(Seq<char>, u64)>) -> Flow<
        Option<u64>,
        ArmShape,
    > {
        let units = units_in_image(self.image);
        if line is None {
            Flow::Done(None, self)
        } else {
            match function_ranges_at(units, start) {
                Err(e) => Flow::Fail(FaultShape::Target(seq![e]), self),
                Ok(None) => Flow::Done(None, self),
                Ok(Some(ranges)) => match line_addresses(units, ranges, start, Seq::empty()) {
                    Err(e) => Flow::Fail(FaultShape::Target(seq![e]), self),
                    Ok(addresses) => match next_line_addr(self.image, addresses, start, line) {
                        Some(addr) => Flow::Done(Some(addr), self),
                        None => self.caller_addr(),
                    },
                },
            }
        }
    }

    /// Finding the address in the caller, where the caller is a function of the program.
    pub open spec fn caller_addr(self) -> Flow<Option<u64>, ArmShape> {
        self.read_register(14).bind(
            |lr: u64, s: ArmShape|
                match function_at(units_in_image(s.image), thumb_addr(lr)) {
                    Err(e) => Flow::Fail(FaultShape::Target(seq![e]), s),
                    Ok(Some(_)) => Flow::Done(Some(thumb_addr(lr)), s),
                    Ok(None) => Flow::Done(None, s),
                },
        )
    }

    /// Removing a breakpoint where there is one to remove.
    pub open spec fn remove_if(self, wanted: bool, addr: u64) -> Flow<(), ArmShape> {
        if wanted {
            self.remove_remote_breakpoint(addr)
        } else {
            Flow::Done((), self)
        }
    }

    /// Inserting a breakpoint where there is one to insert.
    pub open spec fn insert_if(self, wanted: bool, addr: u64) -> Flow<(), ArmShape> {
        if wanted {
            self.insert_remote_breakpoint(addr)
        } else {
            Flow::Done((), self)
        }
    }

    /// Taking out the breakpoint at the start of a run to `next`. Where that fails, the
    /// temporary breakpoint is taken out again.
    pub open spec fn clear_start(self, start: u64, next: u64, temporary: bool) -> Flow<
        (),
        ArmShape,
    > {
        self.remove_if(self.breakpoints.contains(start), start).context(
            text_and_addr("temporarily remove breakpoint at 0x"@, start),
        ).attempt().bind(
            |removed: Result<(), FaultShape>, s: ArmShape|
                match removed {
                    Ok(_) => Flow::Done((), s),
                    Err(fault) => s.remove_if(temporary, next).attempt().bind(
                        |cleanup: Result<(), FaultShape>, s: ArmShape|
                            match cleanup {
                                Ok(_) => Flow::Fail(fault, s),
                                Err(e) => Flow::Fail(
                                    FaultShape::Target(
                                        seq![
                                            text_and_addr(
                                                "also failed to remove temporary next breakpoint at 0x"@,
                                                next,
                                            ) + ": "@ + TargetError::headline(e.chain()),
                                        ] + fault.chain(),
                                    ),
                                    s,
                                ),
                            },
                    ),
                },
        )
    }

    /// Running to an address and putting the breakpoints back as they were.
    pub open spec fn run_to(self, start: u64, next: u64) -> Flow<StopCause, ArmShape> {
        let temporary = !self.breakpoints.contains(next);
        let removed = self.breakpoints.contains(start);
        self.insert_if(temporary, next).context(
            text_and_addr("insert temporary next breakpoint at 0x"@, next),
        ).bind(
            |_done: (), s: ArmShape|
                s.clear_start(start, next, temporary).bind(
                    |_done: (), s: ArmShape|
                        s.cont().attempt().bind(
                            |reply: Result<Seq<char>, FaultShape>, s: ArmShape|
                                s.remove_if(temporary, next).context(
                                    text_and_addr("remove temporary next breakpoint at 0x"@, next),
                                ).attempt().bind(
                                    |cleanup: Result<(), FaultShape>, s: ArmShape|
                                        s.insert_if(removed, start).context(
                                            text_and_addr("restore breakpoint at 0x"@, start),
                                        ).attempt().bind(
                                            |restored: Result<(), FaultShape>, s: ArmShape|
                                                match (reply, cleanup, restored) {
                                                    (Err(e), _, _) => Flow::Fail(e, s),
                                                    (_, Err(e), _) => Flow::Fail(e, s),
                                                    (_, _, Err(e)) => Flow::Fail(e, s),
                                                    (Ok(text), _, _) => Flow::Done(
                                                        stop_cause_of(text),
                                                        s,
                                                    ),
                                                },
                                        ),
                                ),
                        ),
                ),
        )
    }

    /// Starting to execute the current source line: running to where it ends, or else stepping.
    pub open spec fn next_begin(self) -> Flow<NextShape, ArmShape> {
        self.arm_pc().bind(
            |pc: u64, s: ArmShape|
                s.next_source_addr(pc, known_line(s.image, pc)).bind(
                    |next: Option<u64>, s: ArmShape|
                        match next {
                            None => s.step_begin().bind(
                                |step: StepShape, s: ArmShape| Flow::Done(NextShape::Step(step), s),
                            ),
                            Some(next) => s.run_to(pc, next).bind(
                                |reason: StopCause, s: ArmShape|
                                    Flow::Done(NextShape::Over(reason), s),
                            ),
                        },
                ),
        )
    }

    /// Executing the current source line, stepping over calls where possible.
    pub open spec fn next_source(self) -> Flow<StopCause, ArmShape> {
        self.arm_pc().bind(
            |pc: u64, s: ArmShape|
                s.next_source_addr(pc, known_line(s.image, pc)).bind(
                    |next: Option<u64>, s: ArmShape|
                        match next {
                            None => s.step_source(),
                            Some(next) => s.run_to(pc, next),
                        },
                ),
        )
    }
}

impl RemoteArmDebugger {
    /// Executes one instruction.
    pub fn arm_step_instruction(&mut self) -> (r: Result<StopReason, Pause>)
        ensures
            ran(r, final(self)@, old(self)@.step_instruction()),
    {
        let pc: u64 = self.arm_pc()?;
        if !has_value(&self.breakpoints, pc) {
            let reply = self.step()?;
            return Ok(stop_reason_from_reply(reply.as_str()));
        }
        self.remove_remote_breakpoint(pc)?;
        let step = attempted(self.step())?;
        let restored = attempted(self.insert_remote_breakpoint(pc))?;
        match (step, restored) {
            (Ok(reply), Ok(_)) => Ok(stop_reason_from_reply(reply.as_str())),
            (Err(e), Ok(_)) => Err(Pause::Fail(e)),
            (Ok(_), Err(e)) => Err(Pause::Fail(e)),
            (Err(step), Err(e)) => {
                let mut message = with_addr("also failed to restore breakpoint at 0x", pc);
                message.append(": ");
                let cause = e.into_error().message();
                message.append(cause.as_str());
                Err(Pause::Fail(Fault::Target(step.into_error().context(message))))
            },
        }
    }

    /// Starts a source step.
    pub fn arm_step_begin(&mut self) -> (r: Result<StepState, Pause>)
        ensures
            ran(r, final(self)@, old(self)@.step_begin()),
    {
        let pc: u64 = self.arm_pc()?;
        Ok(
            StepState {
                start_line: None,
                start_place: find_line(&self.debug_info, pc),
                previous_pc: pc,
                left: ARM_SOURCE_STEP_LIMIT,
            },
        )
    }

    /// Executes one instruction of a source step.
    pub fn arm_step_round(&mut self, step: StepState) -> (r: Result<StepProgress, Pause>)
        ensures
            ran(r, final(self)@, old(self)@.step_round(step.deep_view())),
    {
        if step.left == 0 {
            return Ok(
                StepProgress::Stopped(
                    StopReason::Other(
                        "Source step limit reached after 256 instructions".to_owned(),
                    ),
                ),
            );
        }
        let reason = self.arm_step_instruction()?;
        if reason.is_end() {
            return Ok(StepProgress::Stopped(reason));
        }
        let pc: u64 = self.arm_pc()?;
        if pc == step.previous_pc {
            let mut message = with_addr("Step did not advance PC from 0x", pc);
            message.append("; target may still be stopped on a breakpoint");
            return Ok(StepProgress::Stopped(StopReason::Other(message)));
        }
        let place = find_line(&self.debug_info, pc);
        if !same_line(&place, &step.start_place) {
            return Ok(StepProgress::Stopped(reason));
        }
        Ok(StepProgress::Again(StepState { previous_pc: pc, left: step.left - 1, ..step }))
    }

    /// Steps to another source line.
    pub fn arm_step_source(&mut self) -> (r: Result<StopReason, Pause>)
        ensures
            ran(r, final(self)@, old(self)@.step_source()),
    {
        let mut step = self.arm_step_begin()?;
        let mut fuel: usize = ARM_SOURCE_STEP_LIMIT + 1;
        let ghost want = old(self)@.step_source();
        while fuel > 0
            invariant
                want == old(self)@.step_source(),
                want == self@.step_rounds(step.deep_view(), fuel as nat),
            decreases fuel,
        {
            match self.arm_step_round(step)? {
                StepProgress::Stopped(reason) => {
                    return Ok(reason);
                },
                StepProgress::Again(next) => {
                    step = next;
                },
            }
            fuel = fuel - 1;
        }
        Ok(StopReason::Other("Step limit reached".to_owned()))
    }

    /// The least address behind `start` whose source line is not the given one.
    pub fn first_other_line(&self, addresses: &[u64], start: u64, line: &Option<(String, u64)>) -> (r:
        Option<u64>)
        ensures
            r == next_line_addr(self@.image, addresses@, start, line.deep_view()),
    {
        let mut best: Option<u64> = None;
        assert(addresses@.take(0).len() == 0);
        for i in 0..addresses.len()
            invariant
                best == next_line_addr(
                    self@.image,
                    addresses@.take(i as int),
                    start,
                    line.deep_view(),
                ),
        {
            let ghost now = addresses@.take(i + 1);
            assert(now.drop_last() =~= addresses@.take(i as int));
            assert(now.last() == addresses@[i as int]);
            let addr: u64 = normalize_thumb_addr(addresses[i]);
            if addr > start {
                let place = find_line(&self.debug_info, addr);
                if !same_line(&place, line) {
                    best = match best {
                        Some(least) if least < addr => Some(least),
                        _ => Some(addr),
                    };
                }
            }
        }
        assert(addresses@.take(addresses@.len() as int) =~= addresses@);
        best
    }

    /// Chooses where a step over the current line ends.
    pub fn next_source_breakpoint_addr(&mut self, start_pc: u64, start: &Option<(String, u64)>) -> (r:
        Result<Option<u64>, Pause>)
        ensures
            ran(r, final(self)@, old(self)@.next_source_addr(start_pc, start.deep_view())),
    {
        if start.is_none() {
            return Ok(None);
        }
        let ranges = match settled(self.debug_info.get_function_ranges(start_pc))? {
            Some(ranges) => ranges,
            None => {
                return Ok(None);
            },
        };
        let addresses = settled(
            self.debug_info.get_line_addresses_in_ranges(ranges.as_slice(), start_pc),
        )?;
        if let Some(addr) = self.first_other_line(addresses.as_slice(), start_pc, start) {
            return Ok(Some(addr));
        }
        let lr: u64 = self.read_register(14)?;
        let return_addr: u64 = normalize_thumb_addr(lr);
        if settled(self.debug_info.pc_to_function(return_addr))?.is_some() {
            Ok(Some(return_addr))
        } else {
            Ok(None)
        }
    }

    /// Removes a breakpoint where there is one to remove.
    fn remove_breakpoint_if(&mut self, wanted: bool, addr: u64) -> (r: Result<(), Pause>)
        ensures
            ran(r, final(self)@, old(self)@.remove_if(wanted, addr)),
    {
        if wanted {
            self.remove_remote_breakpoint(addr)
        } else {
            Ok(())
        }
    }

    /// Inserts a breakpoint where there is one to insert.
    fn insert_breakpoint_if(&mut self, wanted: bool, addr: u64) -> (r: Result<(), Pause>)
        ensures
            ran(r, final(self)@, old(self)@.insert_if(wanted, addr)),
    {
        if wanted {
            self.insert_remote_breakpoint(addr)
        } else {
            Ok(())
        }
    }

    /// Takes out the breakpoint at the start of a run.
    fn clear_start(&mut self, start: u64, next: u64, temporary: bool) -> (r: Result<(), Pause>)
        ensures
            ran(r, final(self)@, old(self)@.clear_start(start, next, temporary)),
    {
        let at_start = has_value(&self.breakpoints, start);
        let removed = with_context(
            self.remove_breakpoint_if(at_start, start),
            with_addr("temporarily remove breakpoint at 0x", start),
        );
        match attempted(removed)? {
            Ok(_) => Ok(()),
            Err(fault) => {
                match attempted(self.remove_breakpoint_if(temporary, next))? {
                    Ok(_) => Err(Pause::Fail(fault)),
                    Err(e) => {
                        let mut message = with_addr(
                            "also failed to remove temporary next breakpoint at 0x",
                            next,
                        );
                        message.append(": ");
                        let cause = e.into_error().message();
                        message.append(cause.as_str());
                        Err(Pause::Fail(Fault::Target(fault.into_error().context(message))))
                    },
                }
            },
        }
    }

    /// Runs to an address and puts the breakpoints back as they were.
    pub fn run_to(&mut self, start: u64, next: u64) -> (r: Result<StopReason, Pause>)
        ensures
            ran(r, final(self)@, old(self)@.run_to(start, next)),
    {
        let temporary = !has_value(&self.breakpoints, next);
        let removed = has_value(&self.breakpoints, start);
        with_context(
            self.insert_breakpoint_if(temporary, next),
            with_addr("insert temporary next breakpoint at 0x", next),
        )?;
        self.clear_start(start, next, temporary)?;
        let reply = attempted(self.cont())?;
        let cleanup = attempted(
            with_context(
                self.remove_breakpoint_if(temporary, next),
                with_addr("remove temporary next breakpoint at 0x", next),
            ),
        )?;
        let restored = attempted(
            with_context(
                self.insert_breakpoint_if(removed, start),
                with_addr("restore breakpoint at 0x", start),
            ),
        )?;
        match (reply, cleanup, restored) {
            (Err(e), _, _) => Err(Pause::Fail(e)),
            (_, Err(e), _) => Err(Pause::Fail(e)),
            (_, _, Err(e)) => Err(Pause::Fail(e)),
            (Ok(text), _, _) => Ok(stop_reason_from_reply(text.as_str())),
        }
    }

    /// Starts to execute the current source line.
    pub fn arm_next_begin(&mut self) -> (r: Result<NextStart, Pause>)
        ensures
            ran(r, final(self)@, old(self)@.next_begin()),
    {
        let pc: u64 = self.arm_pc()?;
        let start = find_line(&self.debug_info, pc);
        match self.next_source_breakpoint_addr(pc, &start)? {
            None => {
                let step = self.arm_step_begin()?;
                Ok(NextStart::Step(step))
            },
            Some(next) => {
                let reason = self.run_to(pc, next)?;
                Ok(NextStart::Over(reason))
            },
        }
    }

    /// Executes the current source line, stepping over calls where possible.
    pub fn arm_next_source(&mut self) -> (r: Result<StopReason, Pause>)
        ensures
            ran(r, final(self)@, old(self)@.next_source()),
    {
        let pc: u64 = self.arm_pc()?;
        let start = find_line(&self.debug_info, pc);
        match self.next_source_breakpoint_addr(pc, &start)? {
            None => self.arm_step_source(),
            Some(next) => self.run_to(pc, next),
        }
    }
}

// ---------------------------------------------------------------------------
// Looking and changing

/// The values of the core registers with their names.
pub open spec fn named_values(values: Seq<u64>) -> Seq<RegisterShape> {
    Seq::new(values.len(), |i: int| RegisterShape { name: core_name(i), value: values[i] })
}

/// The first of some code addresses.
pub open spec fn first_code_addr(addresses: Seq<u64>) -> Option<u64> {
    if addresses.len() == 0 {
        None
    } else {
        Some(thumb_addr(addresses[0]))
    }
}

impl ArmShape {
    /// Showing the source around the program counter.
    pub open spec fn current_source(self, context_lines: usize) -> Flow<SourceText, ArmShape> {
        self.arm_pc().bind(
            |pc: u64, s: ArmShape|
                match line_at(units_in_image(s.image), pc) {
                    Err(e) => Flow::Fail(FaultShape::Target(seq![e]), s),
                    Ok(None) => Flow::Done(no_source(), s),
                    Ok(Some((file, line))) => s.on_talk(
                        source_window_of(s.talk, s.program, file, line, context_lines),
                    ).bind(
                        |window: Result<SourceText, Seq<char>>, s: ArmShape|
                            Flow::Done(
                                match window {
                                    Ok(view) => view,
                                    Err(_) => SourceText {
                                        path: Some(file),
                                        current_line: Some(line),
                                        lines: Seq::empty(),
                                    },
                                },
                                s,
                            ),
                    ),
                },
        )
    }

    /// Reading the core registers.
    pub open spec fn registers(self) -> Flow<Seq<RegisterShape>, ArmShape> {
        self.read_core_registers().bind(
            |values: Seq<u64>, s: ArmShape| Flow::Done(named_values(values), s),
        )
    }

    /// Writing a core register by its name.
    pub open spec fn write_register_by_name(self, name: Seq<char>, value: u64) -> Flow<
        (),
        ArmShape,
    > {
        match core_index(name) {
            None => Flow::Fail(FaultShape::Target(seq!["unknown register: "@ + name]), self),
            Some(index) => self.write_register(index as usize, value),
        }
    }

    /// Setting a breakpoint, unless there is one.
    pub open spec fn set_breakpoint(self, addr: u64) -> Flow<(), ArmShape> {
        let at = thumb_addr(addr);
        if self.breakpoints.contains(at) {
            Flow::Done((), self)
        } else {
            self.insert_remote_breakpoint(at).bind(
                |_done: (), s: ArmShape|
                    Flow::Done(
                        (),
                        ArmShape { breakpoints: with_value(s.breakpoints, at), ..s },
                    ),
            )
        }
    }

    /// Clearing a breakpoint, if there is one.
    pub open spec fn clear_breakpoint(self, addr: u64) -> Flow<(), ArmShape> {
        let at = thumb_addr(addr);
        if !self.breakpoints.contains(at) {
            Flow::Done((), self)
        } else {
            self.remove_remote_breakpoint(at).bind(
                |_done: (), s: ArmShape|
                    Flow::Done((), ArmShape { breakpoints: without(s.breakpoints, at), ..s }),
            )
        }
    }

    /// Finding the code address of a source line.
    pub open spec fn source_breakpoint(self, file: Seq<char>, line: u64) -> Flow<
        Option<u64>,
        ArmShape,
    > {
        match source_addresses(units_in_image(self.image), file, line, Seq::empty()) {
            Err(e) => Flow::Fail(FaultShape::Target(seq![e]), self),
            Ok(addresses) => Flow::Done(first_code_addr(addresses), self),
        }
    }

    /// The breakpoints as a frontend shows them.
    pub open spec fn breakpoint_views(self) -> Seq<BreakpointView> {
        Seq::new(
            self.breakpoints.len(),
            |i: int|
                BreakpointView { addr: self.breakpoints[i], temporary: false, enabled: true },
        )
    }
}

/// Executing a source line is starting to and then going on as with a step.
pub proof fn lemma_next_begin(s: ArmShape)
    ensures
        s.next_source() == s.next_begin().bind(
            |next: NextShape, s: ArmShape|
                match next {
                    NextShape::Over(reason) => Flow::Done(reason, s),
                    NextShape::Step(step) => s.step_rounds(step, step.left as nat + 1),
                },
        ),
{
}

impl DebugTarget for RemoteArmDebugger {
    type S = ArmShape;

    open spec fn shape(&self) -> ArmShape {
        self@
    }

    open spec fn name_of(s: ArmShape) -> Seq<char> {
        s.program
    }

    open spec fn architecture_of(s: ArmShape) -> Seq<char> {
        "arm-cortex-m-gdb-remote"@
    }

    open spec fn breakpoints_of(s: ArmShape) -> Seq<BreakpointView> {
        s.breakpoint_views()
    }

    open spec fn initialize_of(s: ArmShape) -> Flow<StopCause, ArmShape> {
        s.initial_stop().bind(
            |stop: (Seq<char>, StopCause), s: ArmShape| Flow::Done(stop.1, s),
        )
    }

    open spec fn continue_of(s: ArmShape) -> Flow<StopCause, ArmShape> {
        s.continue_exec()
    }

    open spec fn step_instruction_of(s: ArmShape) -> Flow<StopCause, ArmShape> {
        s.step_instruction()
    }

    open spec fn halt_of(s: ArmShape) -> Flow<StopCause, ArmShape> {
        s.halt()
    }

    open spec fn reset_halt_of(s: ArmShape) -> Flow<StopCause, ArmShape> {
        s.reset_halt()
    }

    open spec fn pc_of(s: ArmShape) -> Flow<u64, ArmShape> {
        s.arm_pc()
    }

    open spec fn location_flow(s: ArmShape, pc: u64) -> Flow<Seq<char>, ArmShape> {
        Flow::Done(location_of(s.image, pc), s)
    }

    open spec fn current_source_of(s: ArmShape, context_lines: usize) -> Flow<
        SourceText,
        ArmShape,
    > {
        s.current_source(context_lines)
    }

    open spec fn registers_of(s: ArmShape) -> Flow<Seq<RegisterShape>, ArmShape> {
        s.registers()
    }

    open spec fn write_register_of(s: ArmShape, name: Seq<char>, value: u64) -> Flow<
        (),
        ArmShape,
    > {
        s.write_register_by_name(name, value)
    }

    open spec fn read_memory_of(s: ArmShape, addr: u64, len: usize) -> Flow<Seq<u8>, ArmShape> {
        s.read_memory(addr, len)
    }

    open spec fn write_memory_of(s: ArmShape, addr: u64, data: Seq<u8>) -> Flow<(), ArmShape> {
        s.write_memory(addr, data)
    }

    open spec fn set_breakpoint_of(s: ArmShape, addr: u64) -> Flow<(), ArmShape> {
        s.set_breakpoint(addr)
    }

    open spec fn clear_breakpoint_of(s: ArmShape, addr: u64) -> Flow<(), ArmShape> {
        s.clear_breakpoint(addr)
    }

    open spec fn source_breakpoint_of(s: ArmShape, file: Seq<char>, line: u64) -> Flow<
        Option<u64>,
        ArmShape,
    > {
        s.source_breakpoint(file, line)
    }

    open spec fn backtrace_of(s: ArmShape) -> Flow<Seq<FrameShape>, ArmShape> {
        s.collect_backtrace()
    }

    open spec fn step_begin_of(s: ArmShape) -> Flow<StepShape, ArmShape> {
        s.step_begin()
    }

    open spec fn step_round_of(s: ArmShape, step: StepShape) -> Flow<ProgressShape, ArmShape> {
        s.step_round(step)
    }

    open spec fn next_begin_of(s: ArmShape) -> Flow<NextShape, ArmShape> {
        s.next_begin()
    }

    open spec fn next_source_of(s: ArmShape) -> Flow<StopCause, ArmShape> {
        s.next_source()
    }

    open spec fn drain_output_of(s: ArmShape) -> Flow<Seq<u8>, ArmShape> {
        no_output(s)
    }

    /// The name of the firmware file.
    fn name(&self) -> (r: String) {
        self.program_name.clone()
    }

    /// The name of the backend.
    fn architecture(&self) -> (r: String) {
        "arm-cortex-m-gdb-remote".to_owned()
    }

    /// The breakpoints set by the user.
    fn breakpoints(&self) -> (r: Vec<BreakpointView>) {
        let mut out: Vec<BreakpointView> = Vec::new();
        for i in 0..self.breakpoints.len()
            invariant
                out@.len() == i,
                forall|j: int|
                    0 <= j < i ==> #[trigger] out@[j] == self@.breakpoint_views()[j],
        {
            out.push(
                BreakpointView { addr: self.breakpoints[i], temporary: false, enabled: true },
            );
        }
        assert(out.deep_view() =~= self@.breakpoint_views());
        out
    }

    /// Asks for the initial state of the target.
    fn initialize(&mut self) -> (r: Result<StopReason, Pause>) {
        let stop = self.remote_initial_stop()?;
        Ok(stop.1)
    }

    /// Lets the target run until it stops.
    fn continue_exec(&mut self) -> (r: Result<StopReason, Pause>) {
        let reply = self.cont()?;
        Ok(stop_reason_from_reply(reply.as_str()))
    }

    /// Executes one instruction; a breakpoint at it is taken out for that time.
    fn step_instruction(&mut self) -> (r: Result<StopReason, Pause>) {
        self.arm_step_instruction()
    }

    /// Interrupts the target.
    fn halt(&mut self) -> (r: Result<StopReason, Pause>) {
        let reply = self.interrupt()?;
        Ok(stop_reason_from_reply(reply.as_str()))
    }

    /// Resets and halts the target by a command to the stub.
    fn reset_halt(&mut self) -> (r: Result<StopReason, Pause>) {
        let command: [u8; 10] = [0x72, 0x65, 0x73, 0x65, 0x74, 0x20, 0x68, 0x61, 0x6c, 0x74];
        assert(command@ =~= reset_halt_bytes());
        let mut packet = "qRcmd,".to_owned();
        let digits = bytes_to_hex(command.as_slice());
        packet.append(digits.as_str());
        let response = self.send_packet(packet)?;
        settled(expect_ok(response.as_str()))?;
        Ok(StopReason::Other("Target reset and halted".to_owned()))
    }

    /// Reads the program counter.
    fn pc(&mut self) -> (r: Result<u64, Pause>) {
        self.arm_pc()
    }

    /// The place of an address in the program.
    fn location(&mut self, pc: u64) -> (r: Result<String, Pause>) {
        Ok(self.format_location(pc))
    }

    /// Shows the source around the program counter.
    fn current_source(&mut self, context_lines: usize) -> (r: Result<SourceView, Pause>) {
        let pc: u64 = self.arm_pc()?;
        let (file, line) = match settled(self.debug_info.pc_to_file_line(pc))? {
            Some(place) => place,
            None => {
                return Ok(empty_source_view());
            },
        };
        let window = source_window(
            &mut self.talk,
            self.program_name.as_str(),
            file.as_str(),
            line,
            context_lines,
        )?;
        match window.view {
            Ok(view) => Ok(view),
            Err(_) => {
                let mut view = empty_source_view();
                view.path = Some(file);
                view.current_line = Some(line);
                Ok(view)
            },
        }
    }

    /// Reads the core registers.
    fn registers(&mut self) -> (r: Result<Vec<RegisterValue>, Pause>) {
        let values = self.read_arm_core_registers()?;
        assert(values.deep_view() =~= values@);
        let mut out: Vec<RegisterValue> = Vec::new();
        for i in 0..values.len()
            invariant
                out@.len() == i,
                forall|j: int|
                    0 <= j < i ==> #[trigger] out@[j].deep_view() == named_values(values@)[j],
        {
            out.push(RegisterValue { name: core_reg(i).name.to_owned(), value: values[i] });
        }
        assert(out.deep_view() =~= named_values(values@));
        Ok(out)
    }

    /// Writes a core register by its name.
    fn write_register_by_name(&mut self, name: &str, value: u64) -> (r: Result<(), Pause>) {
        match arm_register_from_name(name) {
            None => {
                let mut message = "unknown register: ".to_owned();
                message.append(name);
                Err(Pause::Fail(Fault::Target(TargetError::new(message))))
            },
            Some(desc) => self.write_register(desc.index, value),
        }
    }

    /// Reads memory.
    fn read_memory(&mut self, addr: u64, len: usize) -> (r: Result<Vec<u8>, Pause>) {
        RemoteArmDebugger::read_memory(self, addr, len)
    }

    /// Writes memory.
    fn write_memory(&mut self, addr: u64, data: &[u8]) -> (r: Result<(), Pause>) {
        RemoteArmDebugger::write_memory(self, addr, data)
    }

    /// Sets a breakpoint, unless there is one.
    fn set_breakpoint(&mut self, addr: u64) -> (r: Result<(), Pause>) {
        let at: u64 = normalize_thumb_addr(addr);
        if has_value(&self.breakpoints, at) {
            return Ok(());
        }
        self.insert_remote_breakpoint(at)?;
        push_new(&mut self.breakpoints, at);
        Ok(())
    }

    /// Clears a breakpoint, if there is one.
    fn clear_breakpoint(&mut self, addr: u64) -> (r: Result<(), Pause>) {
        let at: u64 = normalize_thumb_addr(addr);
        if !has_value(&self.breakpoints, at) {
            return Ok(());
        }
        self.remove_remote_breakpoint(at)?;
        remove_value(&mut self.breakpoints, at);
        Ok(())
    }

    /// Finds the code address of a source line.
    fn breakpoint_addr_for_source(&mut self, file: &str, line: u64) -> (r: Result<
        Option<u64>,
        Pause,
    >) {
        let addresses = settled(self.debug_info.file_line_to_addr(file, line))?;
        if addresses.len() == 0 {
            Ok(None)
        } else {
            Ok(Some(normalize_thumb_addr(addresses[0])))
        }
    }

    /// Collects the current frame and the likely callers.
    fn backtrace(&mut self) -> (r: Result<Vec<StackFrame>, Pause>) {
        self.collect_backtrace()
    }

    /// Starts a source step.
    fn step_begin(&mut self) -> (r: Result<StepState, Pause>) {
        self.arm_step_begin()
    }

    /// Executes one instruction of a source step.
    fn step_round(&mut self, step: StepState) -> (r: Result<StepProgress, Pause>) {
        self.arm_step_round(step)
    }

    /// Executes the current source line, stepping over calls where possible.
    fn next_source(&mut self) -> (r: Result<StopReason, Pause>) {
        self.arm_next_source()
    }

    /// Starts to execute the current source line.
    fn next_begin(&mut self) -> (r: Result<NextStart, Pause>) {
        self.arm_next_begin()
    }

    /// Takes nothing: what the firmware puts out is not captured.
    fn drain_output(&mut self) -> (r: Result<Vec<u8>, Pause>) {
        Ok(without_output())
    }
}

/// A snapshot of a remote target never fails for want of an answer.
pub proof fn lemma_remote_snapshot_stands(s: ArmShape)
    ensures
        !(snapshot_of::<RemoteArmDebugger>(s) is Fail),
{
    lemma_snapshot_stands::<RemoteArmDebugger>(s);
}

} // verus!
