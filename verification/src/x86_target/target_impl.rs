//! What a frontend can do with a local process.
use vstd::prelude::*;

use crate::dialogue::{
    attempted, ran, settled, Call, CallShape, Fault, FaultShape, Flow, Pause, StateShape,
    StatusShape, WaitState, WaitStatus,
};
use crate::elf_debug_info::{source_addresses, units_in_image};
use crate::list::{has_value, remove_value, without};
use crate::source::{source_window, source_window_of};
use crate::target::{
    empty_source_view, lemma_snapshot_stands, no_output, no_reset, no_source, refuse_reset,
    snapshot_of, without_output, BreakpointView, DebugTarget, FrameShape, NextShape, NextStart, ProgressShape, RegisterShape, RegisterValue,
    SourceText, SourceView, StackFrame, StepProgress, StepShape, StepState, StopCause, StopReason,
    TargetError, STEP_LIMIT,
};
use crate::text::same;

use super::breakpoint::{bp_at, drop_bp, find_bp, without_bp, Changed};
use super::debugger::{LinuxPtraceDebugger, PtraceShape};
use super::registers::{
    get_register_from_name, reg_desc, register_at, register_name, register_named,
    NUMBER_OF_REGISTERS,
};
use super::signal_handler::{addrs_up_to, one_back, up_to};

verus! {

// ---------------------------------------------------------------------------
// Words and bytes

/// The bytes of a word, the least significant first.
pub open spec fn word_bytes(word: i64) -> Seq<u8> {
    let w = word as u64;
    seq![
        (w & 0xff) as u8,
        ((w >> 8) & 0xff) as u8,
        ((w >> 16) & 0xff) as u8,
        ((w >> 24) & 0xff) as u8,
        ((w >> 32) & 0xff) as u8,
        ((w >> 40) & 0xff) as u8,
        ((w >> 48) & 0xff) as u8,
        ((w >> 56) & 0xff) as u8,
    ]
}

/// The word that eight bytes make, the least significant first.
pub open spec fn word_of(b: Seq<u8>) -> i64 {
    ((b[0] as u64) | ((b[1] as u64) << 8) | ((b[2] as u64) << 16) | ((b[3] as u64) << 24) | ((
    b[4] as u64) << 32) | ((b[5] as u64) << 40) | ((b[6] as u64) << 48) | ((b[7] as u64) << 56))
        as i64
}

/// A word is made of its bytes again, and its bytes are those that it was made of.
pub proof fn lemma_word_bytes(word: i64, b: Seq<u8>)
    requires
        b.len() == 8,
    ensures
        word_of(word_bytes(word)) == word,
        word_bytes(word_of(b)) == b,
{
    let w = word as u64;
    assert(((w & 0xff) as u8 as u64) | (((((w >> 8) & 0xff) as u8) as u64) << 8) | (((((w >> 16)
        & 0xff) as u8) as u64) << 16) | (((((w >> 24) & 0xff) as u8) as u64) << 24) | (((((w >> 32)
        & 0xff) as u8) as u64) << 32) | (((((w >> 40) & 0xff) as u8) as u64) << 40) | (((((w >> 48)
        & 0xff) as u8) as u64) << 48) | (((((w >> 56) & 0xff) as u8) as u64) << 56) == w)
        by (bit_vector);
    assert((word as u64) as i64 == word) by (bit_vector);
    let (b0, b1, b2, b3) = (b[0], b[1], b[2], b[3]);
    let (b4, b5, b6, b7) = (b[4], b[5], b[6], b[7]);
    let v: u64 = (b0 as u64) | ((b1 as u64) << 8) | ((b2 as u64) << 16) | ((b3 as u64) << 24) | ((
    b4 as u64) << 32) | ((b5 as u64) << 40) | ((b6 as u64) << 48) | ((b7 as u64) << 56);
    assert((v as i64) as u64 == v) by (bit_vector);
    assert((v & 0xff) as u8 == b0 && ((v >> 8) & 0xff) as u8 == b1 && ((v >> 16) & 0xff) as u8 == b2
        && ((v >> 24) & 0xff) as u8 == b3 && ((v >> 32) & 0xff) as u8 == b4 && ((v >> 40) & 0xff)
        as u8 == b5 && ((v >> 48) & 0xff) as u8 == b6 && ((v >> 56) & 0xff) as u8 == b7)
        by (bit_vector)
        requires
            v == (b0 as u64) | ((b1 as u64) << 8) | ((b2 as u64) << 16) | ((b3 as u64) << 24) | ((
            b4 as u64) << 32) | ((b5 as u64) << 40) | ((b6 as u64) << 48) | ((b7 as u64) << 56),
    ;
    assert(word_bytes(word_of(b)) =~= b);
}

/// Appends the bytes of a word.
fn push_word(out: &mut Vec<u8>, word: i64)
    ensures
        final(out)@ == old(out)@ + word_bytes(word),
{
    let ghost before = out@;
    let w: u64 = word as u64;
    out.push((w & 0xff) as u8);
    out.push(((w >> 8) & 0xff) as u8);
    out.push(((w >> 16) & 0xff) as u8);
    out.push(((w >> 24) & 0xff) as u8);
    out.push(((w >> 32) & 0xff) as u8);
    out.push(((w >> 40) & 0xff) as u8);
    out.push(((w >> 48) & 0xff) as u8);
    out.push(((w >> 56) & 0xff) as u8);
    assert(out@ =~= before + word_bytes(word));
}

/// The word that eight bytes make.
fn make_word(b: &[u8]) -> (r: i64)
    requires
        b@.len() == 8,
    ensures
        r == word_of(b@),
{
    ((b[0] as u64) | ((b[1] as u64) << 8) | ((b[2] as u64) << 16) | ((b[3] as u64) << 24) | ((
    b[4] as u64) << 32) | ((b[5] as u64) << 40) | ((b[6] as u64) << 48) | ((b[7] as u64) << 56))
        as i64
}

/// Bytes filled up to a word with the last bytes of another word.
pub open spec fn fill_word(chunk: Seq<u8>, old_word: Seq<u8>) -> Seq<u8> {
    if chunk.len() == 8 {
        chunk
    } else {
        chunk + old_word.skip(chunk.len() as int)
    }
}

/// The word of bytes filled up with the last bytes of another word.
fn filled_word(chunk: &[u8], old_word: &[u8]) -> (r: i64)
    requires
        chunk@.len() == 8 || (chunk@.len() < 8 && old_word@.len() == 8),
    ensures
        r == word_of(fill_word(chunk@, old_word@)),
{
    let n: usize = chunk.len();
    if n == 8 {
        return make_word(chunk);
    }
    let mut bytes: Vec<u8> = vstd::slice::slice_to_vec(chunk);
    let mut i: usize = n;
    assert(bytes@ =~= chunk@ + old_word@.subrange(n as int, n as int));
    while i < 8
        invariant
            n == chunk@.len(),
            n <= i <= 8,
            n < 8,
            old_word@.len() == 8,
            bytes@ == chunk@ + old_word@.subrange(n as int, i as int),
        decreases 8 - i,
    {
        bytes.push(old_word[i]);
        i = i + 1;
        assert(bytes@ =~= chunk@ + old_word@.subrange(n as int, i as int));
    }
    assert(bytes@ =~= fill_word(chunk@, old_word@));
    make_word(bytes.as_slice())
}

/// The bytes of a word, or as many as there are, from a place on.
pub open spec fn chunk_at(data: Seq<u8>, at: int) -> Seq<u8> {
    data.subrange(
        at,
        if data.len() - at < 8 {
            data.len() as int
        } else {
            at + 8
        },
    )
}

/// The address so many bytes further.
pub open spec fn plus(addr: u64, n: int) -> u64 {
    ((addr + n) % 0x1_0000_0000_0000_0000) as u64
}

// ---------------------------------------------------------------------------
// Stops

impl PtraceShape {
    /// After a trap: a breakpoint that was hit is passed, and the breakpoints for one time that
    /// lie behind go.
    pub open spec fn target_sigtrap(self) -> Flow<(), PtraceShape> {
        self.get_pc().bind(
            |pc: u64, s: PtraceShape|
                s.pass_if(bp_at(s.breakpoints, one_back(pc)) is Some, one_back(pc)).bind(
                    |_done: (), s: PtraceShape| s.cleanup_temps(up_to(s.temps, pc)),
                ),
        )
    }

    /// Taking note of what the process did.
    pub open spec fn target_status(self, status: StatusShape) -> Flow<StopCause, PtraceShape> {
        match status.state {
            StateShape::Stopped(sig) => {
                let s = PtraceShape { is_executing: false, ..self };
                if sig == "SIGTRAP"@ {
                    s.target_sigtrap().bind(
                        |_done: (), s: PtraceShape|
                            Flow::Done(StopCause::Signal("SIGTRAP"@), s),
                    )
                } else if sig == "SIGSEGV"@ {
                    Flow::Done(
                        StopCause::Signal("SIGSEGV"@),
                        PtraceShape { has_crashed: true, ..s },
                    )
                } else {
                    Flow::Done(StopCause::Signal(sig), s)
                }
            },
            StateShape::Exited(code) => Flow::Done(StopCause::Exited(code), self),
            StateShape::Signaled(sig) => Flow::Done(StopCause::Terminated(sig), self),
            StateShape::Other => Flow::Done(StopCause::Other(status.text), self),
        }
    }

    /// Waiting for the process to stop.
    pub open spec fn wait_for_stop(self) -> Flow<StopCause, PtraceShape> {
        self.wait().bind(|status: StatusShape, s: PtraceShape| s.target_status(status))
    }

    /// Waiting for the process to be ready.
    pub open spec fn initialize(self) -> Flow<StopCause, PtraceShape> {
        self.wait().bind(
            |status: StatusShape, s: PtraceShape|
                Flow::Done(
                    if status.state is Stopped {
                        StopCause::Ready
                    } else {
                        StopCause::Other(status.text)
                    },
                    s,
                ),
        )
    }

    /// Letting the process run until it stops.
    pub open spec fn continue_exec(self) -> Flow<StopCause, PtraceShape> {
        if self.has_crashed {
            Flow::Fail(
                FaultShape::Target(
                    seq!["program has crashed; continuing will terminate it"@],
                ),
                self,
            )
        } else {
            self.cleanup_temps(self.temps).bind(
                |_done: (), s: PtraceShape|
                    s.go().bind(|_done: (), s: PtraceShape| s.wait_for_stop()),
            )
        }
    }

    /// Executing one instruction.
    pub open spec fn step_instruction(self) -> Flow<StopCause, PtraceShape> {
        if self.has_crashed {
            Flow::Fail(
                FaultShape::Target(seq!["program has crashed; restart the debugger"@]),
                self,
            )
        } else {
            self.order(CallShape::Step).bind(
                |_done: (), s: PtraceShape| s.wait_for_stop(),
            )
        }
    }
}

impl LinuxPtraceDebugger {
    /// Passes a breakpoint that was hit.
    fn handle_target_sigtrap(&mut self) -> (r: Result<(), Pause>)
        ensures
            ran(r, final(self)@, old(self)@.target_sigtrap()),
    {
        let pc: u64 = self.get_pc()?;
        let addr: u64 = pc.saturating_sub(1);
        let hit = find_bp(&self.breakpoints, addr).is_some();
        self.pass_if(hit, addr)?;
        let passed = addrs_up_to(&self.temp_breakpoints, pc);
        self.cleanup_temps(&passed)
    }

    /// Takes note of what the process did.
    pub fn handle_target_wait_status(&mut self, status: WaitStatus) -> (r: Result<
        StopReason,
        Pause,
    >)
        ensures
            ran(r, final(self)@, old(self)@.target_status(status@)),
    {
        match status.state {
            WaitState::Stopped(sig) => {
                self.is_executing = false;
                if same(sig.as_str(), "SIGTRAP") {
                    self.handle_target_sigtrap()?;
                    Ok(StopReason::Signal("SIGTRAP".to_owned()))
                } else if same(sig.as_str(), "SIGSEGV") {
                    self.has_crashed = true;
                    Ok(StopReason::Signal("SIGSEGV".to_owned()))
                } else {
                    Ok(StopReason::Signal(sig))
                }
            },
            WaitState::Exited(code) => Ok(StopReason::Exited(code)),
            WaitState::Signaled(sig) => Ok(StopReason::Terminated(sig)),
            WaitState::Other => Ok(StopReason::Other(status.text)),
        }
    }

    /// Waits for the process to stop.
    pub fn wait_for_target_stop(&mut self) -> (r: Result<StopReason, Pause>)
        ensures
            ran(r, final(self)@, old(self)@.wait_for_stop()),
    {
        let status = self.talk.wait()?;
        self.handle_target_wait_status(status)
    }
}

// ---------------------------------------------------------------------------
// Looking and changing

impl PtraceShape {
    /// Showing the source around the program counter.
    pub open spec fn current_source(self, context_lines: usize) -> Flow<SourceText, PtraceShape> {
        self.current_line().bind(
            |line: Option<(Seq<char>, u64)>, s: PtraceShape|
                match line {
                    None => Flow::Done(no_source(), s),
                    Some((file, number)) => s.on_talk(
                        source_window_of(s.talk, s.program, file, number, context_lines),
                    ).bind(
                        |window: Result<SourceText, Seq<char>>, s: PtraceShape|
                            match window {
                                Ok(view) => Flow::Done(view, s),
                                Err(e) => Flow::Fail(FaultShape::Target(seq![e]), s),
                            },
                    ),
                },
        )
    }

    /// Reading the registers from a place in the list of all on, after those read before.
    pub open spec fn registers_from(self, from: int, found: Seq<RegisterShape>) -> Flow<
        Seq<RegisterShape>,
        PtraceShape,
    >
        decreases NUMBER_OF_REGISTERS - from,
    {
        if from >= NUMBER_OF_REGISTERS {
            Flow::Done(found, self)
        } else {
            self.get_register(register_at(from)).bind(
                |value: u64, s: PtraceShape|
                    s.registers_from(
                        from + 1,
                        found.push(
                            RegisterShape { name: register_name(register_at(from)), value },
                        ),
                    ),
            )
        }
    }

    /// Writing a register by its name.
    pub open spec fn write_register_by_name(self, name: Seq<char>, value: u64) -> Flow<
        (),
        PtraceShape,
    > {
        match register_named(name) {
            None => Flow::Fail(FaultShape::Target(seq!["unknown register: "@ + name]), self),
            Some(r) => self.set_register(r, value),
        }
    }

    /// Reading memory word by word, after what was read before.
    pub open spec fn read_words(self, addr: u64, len: nat, found: Seq<u8>) -> Flow<
        Seq<u8>,
        PtraceShape,
    >
        decreases
            if len > found.len() {
                len - found.len()
            } else {
                0
            },
    {
        if found.len() >= len {
            Flow::Done(found.take(len as int), self)
        } else {
            self.peek(plus(addr, found.len() as int)).bind(
                |word: i64, s: PtraceShape| s.read_words(addr, len, found + word_bytes(word)),
            )
        }
    }

    /// Reading memory.
    pub open spec fn read_memory(self, addr: u64, len: usize) -> Flow<Seq<u8>, PtraceShape> {
        self.read_words(addr, len as nat, Seq::empty())
    }

    /// Finding out what a word that is written in part holds.
    pub open spec fn old_bytes(self, addr: u64, whole: bool) -> Flow<Seq<u8>, PtraceShape> {
        if whole {
            Flow::Done(Seq::empty(), self)
        } else {
            self.peek(addr).bind(
                |word: i64, s: PtraceShape| Flow::Done(word_bytes(word), s),
            )
        }
    }

    /// Writing the word for the data from a place on. The last word may be written in part.
    pub open spec fn write_word(self, addr: u64, chunk: Seq<u8>) -> Flow<(), PtraceShape> {
        self.old_bytes(addr, chunk.len() == 8).bind(
            |old_word: Seq<u8>, s: PtraceShape|
                s.order(CallShape::Poke(addr, word_of(fill_word(chunk, old_word)))),
        )
    }

    /// Writing memory word by word, from a place in the data on.
    pub open spec fn write_words(self, addr: u64, data: Seq<u8>, at: nat) -> Flow<(), PtraceShape>
        decreases
            if data.len() > at {
                data.len() - at
            } else {
                0
            },
    {
        if at >= data.len() {
            Flow::Done((), self)
        } else {
            self.write_word(plus(addr, at as int), chunk_at(data, at as int)).bind(
                |_done: (), s: PtraceShape| s.write_words(addr, data, at + 8),
            )
        }
    }

    /// Setting a breakpoint, unless there is one.
    pub open spec fn set_breakpoint(self, addr: u64) -> Flow<(), PtraceShape> {
        self.runtime_breakpoint_addr(addr).bind(
            |at: u64, s: PtraceShape|
                if bp_at(s.breakpoints, at) is Some {
                    Flow::Done((), s)
                } else {
                    s.insert_new(at)
                },
        )
    }

    /// Clearing a breakpoint, if there is one.
    pub open spec fn clear_breakpoint(self, addr: u64) -> Flow<(), PtraceShape> {
        self.runtime_breakpoint_addr(addr).bind(
            |at: u64, s: PtraceShape| s.clear_at(at),
        )
    }

    /// Clearing the breakpoint at an address of the process.
    pub open spec fn clear_at(self, at: u64) -> Flow<(), PtraceShape> {
        let s = PtraceShape { breakpoints: without_bp(self.breakpoints, at), ..self };
        match bp_at(self.breakpoints, at) {
            Some(bp) if bp.enabled_status => match bp.disable_of(s.talk) {
                Changed::Ask(call, _, talk) => Flow::Ask(call, PtraceShape { talk, ..s }),
                Changed::Fail(e, _, talk) => Flow::Fail(e, PtraceShape { talk, ..s }),
                Changed::Done(_, talk) => Flow::Done(
                    (),
                    PtraceShape { talk, temps: without(s.temps, at), ..s },
                ),
            },
            _ => Flow::Done((), PtraceShape { temps: without(s.temps, at), ..s }),
        }
    }

    /// Finding the code address of a source line.
    pub open spec fn source_breakpoint(self, file: Seq<char>, line: u64) -> Flow<
        Option<u64>,
        PtraceShape,
    > {
        match source_addresses(units_in_image(self.image), file, line, Seq::empty()) {
            Err(e) => Flow::Fail(FaultShape::Target(seq![e]), self),
            Ok(addresses) => if addresses.len() == 0 {
                Flow::Done(None, self)
            } else {
                self.to_runtime_addr(addresses[0]).bind(
                    |at: u64, s: PtraceShape| Flow::Done(Some(at), s),
                )
            },
        }
    }

    /// The breakpoints as a frontend shows them.
    pub open spec fn breakpoint_views(self) -> Seq<BreakpointView> {
        Seq::new(
            self.breakpoints.len(),
            |i: int|
                BreakpointView {
                    addr: self.breakpoints[i].addr,
                    temporary: self.temps.contains(self.breakpoints[i].addr),
                    enabled: self.breakpoints[i].enabled_status,
                },
        )
    }
}

// ---------------------------------------------------------------------------
// Stepping by lines

impl PtraceShape {
    /// Starting a step to another source line: the line is remembered.
    pub open spec fn step_begin(self) -> Flow<StepShape, PtraceShape> {
        self.current_source(0).bind(
            |source: SourceText, s: PtraceShape|
                Flow::Done(
                    StepShape {
                        start_line: source.current_line,
                        start_place: None,
                        previous_pc: 0,
                        left: STEP_LIMIT,
                    },
                    s,
                ),
        )
    }

    /// One instruction of a step: the step is over when the program is, or when the line is
    /// another.
    pub open spec fn step_round(self, step: StepShape) -> Flow<ProgressShape, PtraceShape> {
        if step.left == 0 {
            Flow::Done(ProgressShape::Stopped(StopCause::Other("Step limit reached"@)), self)
        } else {
            self.step_instruction().bind(
                |reason: StopCause, s: PtraceShape|
                    if reason.is_end() {
                        Flow::Done(ProgressShape::Stopped(reason), s)
                    } else {
                        s.current_source(0).bind(
                            |source: SourceText, s: PtraceShape|
                                Flow::Done(
                                    if source.current_line != step.start_line {
                                        ProgressShape::Stopped(reason)
                                    } else {
                                        ProgressShape::Again(
                                            StepShape { left: (step.left - 1) as usize, ..step },
                                        )
                                    },
                                    s,
                                ),
                        )
                    },
            )
        }
    }

    /// Going on with a step for at most so many rounds.
    pub open spec fn step_rounds(self, step: StepShape, fuel: nat) -> Flow<StopCause, PtraceShape>
        decreases fuel,
    {
        if fuel == 0 {
            Flow::Done(StopCause::Other("Step limit reached"@), self)
        } else {
            self.step_round(step).bind(
                |progress: ProgressShape, s: PtraceShape|
                    match progress {
                        ProgressShape::Stopped(reason) => Flow::Done(reason, s),
                        ProgressShape::Again(step) => s.step_rounds(step, (fuel - 1) as nat),
                    },
            )
        }
    }

    /// Stepping to another source line.
    pub open spec fn step_source(self) -> Flow<StopCause, PtraceShape> {
        self.step_begin().bind(
            |step: StepShape, s: PtraceShape| s.step_rounds(step, STEP_LIMIT as nat + 1),
        )
    }
}

impl LinuxPtraceDebugger {
    /// Finds out what a word that is written in part holds.
    fn old_bytes(&mut self, addr: u64, whole: bool) -> (r: Result<Vec<u8>, Pause>)
        ensures
            ran(r, final(self)@, old(self)@.old_bytes(addr, whole)),
    {
        let mut bytes: Vec<u8> = Vec::new();
        if !whole {
            let word: i64 = self.talk.peek(addr)?;
            push_word(&mut bytes, word);
            assert(bytes.deep_view() =~= word_bytes(word));
        }
        assert(whole ==> bytes.deep_view() =~= Seq::<u8>::empty());
        Ok(bytes)
    }

    /// Writes the word for some bytes.
    fn write_word(&mut self, addr: u64, chunk: &[u8]) -> (r: Result<(), Pause>)
        requires
            0 < chunk@.len() <= 8,
        ensures
            ran(r, final(self)@, old(self)@.write_word(addr, chunk@)),
    {
        let old_word = self.old_bytes(addr, chunk.len() == 8)?;
        assert(old_word.deep_view() =~= old_word@);
        let word: i64 = filled_word(chunk, old_word.as_slice());
        self.talk.order(Call::Poke(addr, word))
    }
}

impl PtraceShape {
    /// Starting to execute a source line: it is left instruction by instruction.
    pub open spec fn next_begin(self) -> Flow<NextShape, PtraceShape> {
        self.step_begin().bind(
            |step: StepShape, s: PtraceShape| Flow::Done(NextShape::Step(step), s),
        )
    }
}

/// Executing a source line is starting to and then going on as with a step.
pub proof fn lemma_next_begin(s: PtraceShape)
    ensures
        s.step_source() == s.next_begin().bind(
            |next: NextShape, s: PtraceShape|
                match next {
                    NextShape::Over(reason) => Flow::Done(reason, s),
                    NextShape::Step(step) => s.step_rounds(step, STEP_LIMIT as nat + 1),
                },
        ),
{
}

// ---------------------------------------------------------------------------
// Output

/// The errors that say that there is no more output: nothing is there yet, or the process has
/// closed its side.
pub open spec fn ends_output(name: Seq<char>) -> bool {
    name == "EAGAIN"@ || name == "EIO"@
}

/// Whether an error says that there is no more output.
fn is_end_of_output(name: &str) -> (r: bool)
    ensures
        r == ends_output(name@),
{
    same(name, "EAGAIN") || same(name, "EIO")
}

impl PtraceShape {
    /// Reading output until there is no more, after some that was read.
    pub open spec fn read_output(self, before: Seq<u8>) -> Flow<Seq<u8>, PtraceShape>
        decreases self.talk.replies.len(),
    {
        match self.on_talk(self.talk.output()) {
            Flow::Ask(call, s) => Flow::Ask(call, s),
            Flow::Fail(FaultShape::Sys(name, text), s) => if ends_output(name) {
                Flow::Done(before, s)
            } else {
                Flow::Fail(FaultShape::Target(seq![text]), s)
            },
            Flow::Fail(e, s) => Flow::Fail(e, s),
            Flow::Done(bytes, s) => if bytes.len() > 0 && s.talk.replies.len()
                < self.talk.replies.len() {
                s.read_output(before + bytes)
            } else {
                Flow::Done(before, s)
            },
        }
    }

    /// Taking what the process has put out, as far as it is captured.
    pub open spec fn drain_output(self) -> Flow<Seq<u8>, PtraceShape> {
        if self.captures_output {
            self.read_output(Seq::empty())
        } else {
            no_output(self)
        }
    }
}

impl DebugTarget for LinuxPtraceDebugger {
    type S = PtraceShape;

    open spec fn shape(&self) -> PtraceShape {
        self@
    }

    open spec fn name_of(s: PtraceShape) -> Seq<char> {
        s.program
    }

    open spec fn architecture_of(s: PtraceShape) -> Seq<char> {
        "x86-64-linux-ptrace"@
    }

    open spec fn breakpoints_of(s: PtraceShape) -> Seq<BreakpointView> {
        s.breakpoint_views()
    }

    open spec fn initialize_of(s: PtraceShape) -> Flow<StopCause, PtraceShape> {
        s.initialize()
    }

    open spec fn continue_of(s: PtraceShape) -> Flow<StopCause, PtraceShape> {
        s.continue_exec()
    }

    open spec fn step_instruction_of(s: PtraceShape) -> Flow<StopCause, PtraceShape> {
        s.step_instruction()
    }

    open spec fn halt_of(s: PtraceShape) -> Flow<StopCause, PtraceShape> {
        Flow::Done(StopCause::Other("halt is not implemented for the local ptrace backend"@), s)
    }

    open spec fn reset_halt_of(s: PtraceShape) -> Flow<StopCause, PtraceShape> {
        no_reset(s)
    }

    open spec fn pc_of(s: PtraceShape) -> Flow<u64, PtraceShape> {
        s.get_pc()
    }

    open spec fn location_flow(s: PtraceShape, pc: u64) -> Flow<Seq<char>, PtraceShape> {
        s.format_location(pc)
    }

    open spec fn current_source_of(s: PtraceShape, context_lines: usize) -> Flow<
        SourceText,
        PtraceShape,
    > {
        s.current_source(context_lines)
    }

    open spec fn registers_of(s: PtraceShape) -> Flow<Seq<RegisterShape>, PtraceShape> {
        s.registers_from(0, Seq::empty())
    }

    open spec fn write_register_of(s: PtraceShape, name: Seq<char>, value: u64) -> Flow<
        (),
        PtraceShape,
    > {
        s.write_register_by_name(name, value)
    }

    open spec fn read_memory_of(s: PtraceShape, addr: u64, len: usize) -> Flow<
        Seq<u8>,
        PtraceShape,
    > {
        s.read_memory(addr, len)
    }

    open spec fn write_memory_of(s: PtraceShape, addr: u64, data: Seq<u8>) -> Flow<
        (),
        PtraceShape,
    > {
        s.write_words(addr, data, 0)
    }

    open spec fn set_breakpoint_of(s: PtraceShape, addr: u64) -> Flow<(), PtraceShape> {
        s.set_breakpoint(addr)
    }

    open spec fn clear_breakpoint_of(s: PtraceShape, addr: u64) -> Flow<(), PtraceShape> {
        s.clear_breakpoint(addr)
    }

    open spec fn source_breakpoint_of(s: PtraceShape, file: Seq<char>, line: u64) -> Flow<
        Option<u64>,
        PtraceShape,
    > {
        s.source_breakpoint(file, line)
    }

    open spec fn backtrace_of(s: PtraceShape) -> Flow<Seq<FrameShape>, PtraceShape> {
        s.collect_backtrace()
    }

    open spec fn step_begin_of(s: PtraceShape) -> Flow<StepShape, PtraceShape> {
        s.step_begin()
    }

    open spec fn step_round_of(s: PtraceShape, step: StepShape) -> Flow<
        ProgressShape,
        PtraceShape,
    > {
        s.step_round(step)
    }

    open spec fn next_begin_of(s: PtraceShape) -> Flow<NextShape, PtraceShape> {
        s.next_begin()
    }

    open spec fn next_source_of(s: PtraceShape) -> Flow<StopCause, PtraceShape> {
        s.step_source()
    }

    open spec fn drain_output_of(s: PtraceShape) -> Flow<Seq<u8>, PtraceShape> {
        s.drain_output()
    }

    /// The name of the program.
    fn name(&self) -> (r: String) {
        self.program_name.clone()
    }

    /// The name of the backend.
    fn architecture(&self) -> (r: String) {
        "x86-64-linux-ptrace".to_owned()
    }

    /// The breakpoints.
    fn breakpoints(&self) -> (r: Vec<BreakpointView>) {
        let mut out: Vec<BreakpointView> = Vec::new();
        for i in 0..self.breakpoints.len()
            invariant
                out@.len() == i,
                forall|j: int|
                    0 <= j < i ==> #[trigger] out@[j] == self@.breakpoint_views()[j],
        {
            let addr: u64 = self.breakpoints[i].addr;
            out.push(
                BreakpointView {
                    addr,
                    temporary: has_value(&self.temp_breakpoints, addr),
                    enabled: self.breakpoints[i].enabled_status,
                },
            );
        }
        assert(out.deep_view() =~= self@.breakpoint_views());
        out
    }

    /// Waits for the process to be ready.
    fn initialize(&mut self) -> (r: Result<StopReason, Pause>) {
        let status = self.talk.wait()?;
        match status.state {
            WaitState::Stopped(_) => Ok(StopReason::Ready),
            _ => Ok(StopReason::Other(status.text)),
        }
    }

    /// Lets the process run until it stops.
    fn continue_exec(&mut self) -> (r: Result<StopReason, Pause>) {
        if self.has_crashed {
            return Err(
                Pause::Fail(
                    Fault::Target(
                        TargetError::of("program has crashed; continuing will terminate it"),
                    ),
                ),
            );
        }
        self.cleanup_all_temp_breakpoints()?;
        self.go()?;
        self.wait_for_target_stop()
    }

    /// Executes one instruction.
    fn step_instruction(&mut self) -> (r: Result<StopReason, Pause>) {
        if self.has_crashed {
            return Err(
                Pause::Fail(
                    Fault::Target(TargetError::of("program has crashed; restart the debugger")),
                ),
            );
        }
        self.talk.order(Call::Step)?;
        self.wait_for_target_stop()
    }

    /// Says that the process cannot be halted.
    fn halt(&mut self) -> (r: Result<StopReason, Pause>) {
        Ok(StopReason::Other("halt is not implemented for the local ptrace backend".to_owned()))
    }

    /// Says that the process cannot be reset.
    fn reset_halt(&mut self) -> (r: Result<StopReason, Pause>) {
        Err(refuse_reset())
    }

    /// Reads the program counter.
    fn pc(&mut self) -> (r: Result<u64, Pause>) {
        self.get_pc()
    }

    /// Finds the place of an address.
    fn location(&mut self, pc: u64) -> (r: Result<String, Pause>) {
        self.format_location(pc)
    }

    /// Shows the source around the program counter.
    fn current_source(&mut self, context_lines: usize) -> (r: Result<SourceView, Pause>) {
        let (file, number) = match self.get_current_line()? {
            Some(line) => line,
            None => {
                return Ok(empty_source_view());
            },
        };
        let window = source_window(
            &mut self.talk,
            self.program_name.as_str(),
            file.as_str(),
            number,
            context_lines,
        )?;
        match window.view {
            Ok(view) => Ok(view),
            Err(e) => Err(Pause::Fail(Fault::Target(TargetError::new(e)))),
        }
    }

    /// Reads the registers.
    fn registers(&mut self) -> (r: Result<Vec<RegisterValue>, Pause>) {
        let mut out: Vec<RegisterValue> = Vec::new();
        let ghost want = old(self)@.registers_from(0, Seq::empty());
        assert(out.deep_view() =~= Seq::<RegisterShape>::empty());
        for i in 0..NUMBER_OF_REGISTERS
            invariant
                want == old(self)@.registers_from(0, Seq::empty()),
                want == self@.registers_from(i as int, out.deep_view()),
        {
            let desc = reg_desc(i);
            let value: u64 = self.get_register(desc.reg)?;
            let ghost before = out.deep_view();
            let entry = RegisterValue { name: desc.name.to_owned(), value };
            out.push(entry);
            assert(out.deep_view() =~= before.push(entry.deep_view()));
        }
        Ok(out)
    }

    /// Writes a register by its name.
    fn write_register_by_name(&mut self, name: &str, value: u64) -> (r: Result<(), Pause>) {
        match get_register_from_name(name) {
            None => {
                let mut message = "unknown register: ".to_owned();
                message.append(name);
                Err(Pause::Fail(Fault::Target(TargetError::new(message))))
            },
            Some(r) => self.set_register(r, value),
        }
    }

    /// Reads memory.
    fn read_memory(&mut self, addr: u64, len: usize) -> (r: Result<Vec<u8>, Pause>) {
        let mut bytes: Vec<u8> = Vec::new();
        let ghost want = old(self)@.read_memory(addr, len);
        assert(bytes@ =~= Seq::<u8>::empty());
        while bytes.len() < len
            invariant
                want == old(self)@.read_memory(addr, len),
                want == self@.read_words(addr, len as nat, bytes@),
            decreases len + 8 - bytes@.len(),
        {
            let word: i64 = self.talk.peek(addr.wrapping_add(bytes.len() as u64))?;
            push_word(&mut bytes, word);
        }
        let ghost all = bytes@;
        bytes.truncate(len);
        assert(bytes@ =~= all.take(len as int));
        assert(bytes.deep_view() =~= bytes@);
        Ok(bytes)
    }

    /// Writes memory.
    fn write_memory(&mut self, addr: u64, data: &[u8]) -> (r: Result<(), Pause>) {
        let end: usize = data.len();
        let mut at: usize = 0;
        let ghost want = old(self)@.write_words(addr, data@, 0);
        while at < end
            invariant
                end == data@.len(),
                at <= end,
                want == old(self)@.write_words(addr, data@, 0),
                want == self@.write_words(addr, data@, at as nat),
            decreases end - at,
        {
            let stop: usize = if end - at < 8 {
                end
            } else {
                at + 8
            };
            let chunk = vstd::slice::slice_subrange(data, at, stop);
            assert(chunk@ == chunk_at(data@, at as int));
            self.write_word(addr.wrapping_add(at as u64), chunk)?;
            if end - at <= 8 {
                assert(want == self@.write_words(addr, data@, (at + 8) as nat));
                return Ok(());
            }
            at = at + 8;
        }
        Ok(())
    }

    /// Sets a breakpoint, unless there is one.
    fn set_breakpoint(&mut self, addr: u64) -> (r: Result<(), Pause>) {
        let at: u64 = self.runtime_breakpoint_addr(addr)?;
        if find_bp(&self.breakpoints, at).is_some() {
            return Ok(());
        }
        self.insert_new(at)
    }

    /// Clears a breakpoint, if there is one.
    fn clear_breakpoint(&mut self, addr: u64) -> (r: Result<(), Pause>) {
        let at: u64 = self.runtime_breakpoint_addr(addr)?;
        let found = find_bp(&self.breakpoints, at);
        drop_bp(&mut self.breakpoints, at);
        if let Some(bp) = found {
            let mut bp = bp;
            if bp.enabled_status {
                bp.disable(&mut self.talk)?;
            }
        }
        remove_value(&mut self.temp_breakpoints, at);
        Ok(())
    }

    /// Finds the code address of a source line.
    fn breakpoint_addr_for_source(&mut self, file: &str, line: u64) -> (r: Result<
        Option<u64>,
        Pause,
    >) {
        let addresses = settled(self.debug_info.file_line_to_addr(file, line))?;
        if addresses.len() == 0 {
            return Ok(None);
        }
        let at: u64 = self.to_runtime_addr(addresses[0])?;
        Ok(Some(at))
    }

    /// Collects the current frame and those of the callers.
    fn backtrace(&mut self) -> (r: Result<Vec<StackFrame>, Pause>) {
        self.collect_backtrace()
    }

    /// Starts a step to another source line.
    fn step_begin(&mut self) -> (r: Result<StepState, Pause>) {
        let source = self.current_source(0)?;
        Ok(
            StepState {
                start_line: source.current_line,
                start_place: None,
                previous_pc: 0,
                left: STEP_LIMIT,
            },
        )
    }

    /// Executes one instruction of a step.
    fn step_round(&mut self, step: StepState) -> (r: Result<StepProgress, Pause>) {
        if step.left == 0 {
            return Ok(StepProgress::Stopped(StopReason::Other("Step limit reached".to_owned())));
        }
        let reason = self.step_instruction()?;
        if reason.is_end() {
            return Ok(StepProgress::Stopped(reason));
        }
        let source = self.current_source(0)?;
        if source.current_line != step.start_line {
            return Ok(StepProgress::Stopped(reason));
        }
        Ok(StepProgress::Again(StepState { left: step.left - 1, ..step }))
    }

    /// Steps to another source line.
    fn next_source(&mut self) -> (r: Result<StopReason, Pause>) {
        let mut step = self.step_begin()?;
        let mut fuel: usize = STEP_LIMIT + 1;
        let ghost want = old(self)@.step_source();
        while fuel > 0
            invariant
                want == old(self)@.step_source(),
                want == self@.step_rounds(step.deep_view(), fuel as nat),
            decreases fuel,
        {
            match self.step_round(step)? {
                StepProgress::Stopped(reason) => {
                    return Ok(reason);
                },
                StepProgress::Again(next) => {
                    step = next;
                },
            }
            fuel = fuel - 1;
        }
        Ok(StopReason::Other("Step limit reached".to_owned()))
    }

    /// Starts to execute a source line.
    fn next_begin(&mut self) -> (r: Result<NextStart, Pause>) {
        let step = self.step_begin()?;
        Ok(NextStart::Step(step))
    }

    /// Takes what the process has put out, as far as it is captured.
    fn drain_output(&mut self) -> (r: Result<Vec<u8>, Pause>) {
        if !self.captures_output {
            return Ok(without_output());
        }
        let mut out: Vec<u8> = Vec::new();
        let ghost want = old(self)@.drain_output();
        assert(out@ =~= Seq::<u8>::empty());
        loop
            invariant
                want == old(self)@.drain_output(),
                want == self@.read_output(out@),
            decreases self@.talk.replies.len(),
        {
            match attempted(self.talk.read_output())? {
                Ok(bytes) => {
                    assert(bytes.deep_view() =~= bytes@);
                    if bytes.len() == 0 {
                        assert(out.deep_view() =~= out@);
                        return Ok(out);
                    }
                    let mut bytes = bytes;
                    out.append(&mut bytes);
                },
                Err(Fault::Sys(e)) => {
                    if !is_end_of_output(e.name.as_str()) {
                        return Err(Pause::Fail(Fault::Target(TargetError::new(e.text))));
                    }
                    assert(out.deep_view() =~= out@);
                    return Ok(out);
                },
                Err(e) => {
                    return Err(Pause::Fail(e));
                },
            }
        }
    }
}

/// A snapshot of a process never fails for want of an answer.
pub proof fn lemma_process_snapshot_stands(s: PtraceShape)
    ensures
        !(snapshot_of::<LinuxPtraceDebugger>(s) is Fail),
{
    lemma_snapshot_stands::<LinuxPtraceDebugger>(s);
}

} // verus!
