//! What a frontend sees of a debugged program, whatever backend drives it.
use vstd::prelude::*;

use crate::dialogue::{attempted, ran, Fault, FaultShape, Flow, Pause};
use crate::number::{push_signed_dec, signed_dec_of};
use crate::text::{opt_text, texts};
use crate::words::{join_from, join_of, lines, lines_of};

verus! {

// ---------------------------------------------------------------------------
// Errors

/// An error and what caused it, from the outermost message to the innermost.
#[derive(Debug)]
pub struct TargetError {
    pub chain: Vec<String>,
}

impl View for TargetError {
    type V = Seq<Seq<char>>;

    open spec fn view(&self) -> Seq<Seq<char>> {
        texts(self.chain@)
    }
}

impl Clone for TargetError {
    fn clone(&self) -> (r: Self)
        ensures
            r@ == self@,
    {
        let chain = self.chain.clone();
        assert(texts(chain@) =~= texts(self.chain@));
        TargetError { chain }
    }
}

impl TargetError {
    /// An error with one message.
    pub fn new(message: String) -> (r: Self)
        ensures
            r@ == seq![message@],
    {
        let mut chain: Vec<String> = Vec::new();
        chain.push(message);
        let r = TargetError { chain };
        assert(r@ =~= seq![message@]);
        r
    }

    /// An error with one fixed message.
    pub fn of(message: &str) -> (r: Self)
        ensures
            r@ == seq![message@],
    {
        TargetError::new(message.to_owned())
    }

    /// The same error with a message put before it.
    pub fn context(self, message: String) -> (r: Self)
        ensures
            r@ == seq![message@] + self@,
    {
        let mut chain: Vec<String> = Vec::new();
        chain.push(message);
        let ghost before = self@;
        let mut rest = self.chain;
        chain.append(&mut rest);
        let r = TargetError { chain };
        assert(r@ =~= seq![message@] + before);
        r
    }

    /// The outermost message.
    pub open spec fn headline(e: Seq<Seq<char>>) -> Seq<char> {
        if e.len() == 0 {
            Seq::empty()
        } else {
            e[0]
        }
    }

    /// All messages, from the outermost on, with a colon between neighbours.
    pub open spec fn full_text(e: Seq<Seq<char>>) -> Seq<char> {
        join_of(e, ": "@)
    }

    /// The outermost message.
    pub fn message(&self) -> (r: String)
        ensures
            r@ == TargetError::headline(self@),
    {
        if self.chain.len() == 0 {
            String::new()
        } else {
            self.chain[0].clone()
        }
    }

    /// All messages, from the outermost on, with a colon between neighbours.
    pub fn describe(&self) -> (r: String)
        ensures
            r@ == TargetError::full_text(self@),
    {
        assert(texts(self.chain@).skip(0) =~= texts(self.chain@));
        join_from(&self.chain, 0, ": ")
    }
}

// ---------------------------------------------------------------------------
// Plain views of a target

#[derive(Debug)]
pub struct RegisterValue {
    pub name: String,
    pub value: u64,
}

#[derive(Clone, Copy, Debug, PartialEq, Eq, Structural)]
pub struct BreakpointView {
    pub addr: u64,
    pub temporary: bool,
    pub enabled: bool,
}

#[derive(Debug)]
pub struct StackFrame {
    pub index: usize,
    pub pc: u64,
    pub location: String,
    pub approximate: bool,
}

#[derive(Debug)]
pub struct SourceLine {
    pub number: u64,
    pub text: String,
    pub is_current: bool,
}

#[derive(Debug)]
pub struct SourceView {
    pub path: Option<String>,
    pub current_line: Option<u64>,
    pub lines: Vec<SourceLine>,
}

#[derive(Debug)]
pub enum StopReason {
    Ready,
    Signal(String),
    Exited(i32),
    Terminated(String),
    Other(String),
}

#[derive(Debug)]
pub struct TargetSnapshot {
    pub name: String,
    pub architecture: String,
    pub pc: Option<u64>,
    pub location: String,
    pub source: SourceView,
    pub registers: Vec<RegisterValue>,
    pub breakpoints: Vec<BreakpointView>,
    pub backtrace: Vec<StackFrame>,
}

/// Why a target stopped, with its texts as character sequences.
pub enum StopCause {
    Ready,
    Signal(Seq<char>),
    Exited(i32),
    Terminated(Seq<char>),
    Other(Seq<char>),
}

impl View for StopReason {
    type V = StopCause;

    open spec fn view(&self) -> StopCause {
        match self {
            StopReason::Ready => StopCause::Ready,
            StopReason::Signal(s) => StopCause::Signal(s@),
            StopReason::Exited(code) => StopCause::Exited(*code),
            StopReason::Terminated(s) => StopCause::Terminated(s@),
            StopReason::Other(s) => StopCause::Other(s@),
        }
    }
}

impl StopCause {
    /// The sentence that reports the stop.
    pub open spec fn text(self) -> Seq<char> {
        match self {
            StopCause::Ready => "Target ready"@,
            StopCause::Signal(sig) => "Stopped by "@ + sig,
            StopCause::Exited(code) => "Exited with "@ + signed_dec_of(code as int),
            StopCause::Terminated(sig) => "Terminated by "@ + sig,
            StopCause::Other(msg) => msg,
        }
    }

    /// The program is gone after this stop.
    pub open spec fn is_end(self) -> bool {
        self is Exited || self is Terminated
    }
}

impl StopReason {
    /// The sentence that reports the stop.
    pub fn message(&self) -> (r: String)
        ensures
            r@ == self@.text(),
    {
        match self {
            StopReason::Ready => "Target ready".to_owned(),
            StopReason::Signal(sig) => {
                let mut out = "Stopped by ".to_owned();
                out.append(sig.as_str());
                out
            },
            StopReason::Exited(code) => {
                let mut out = "Exited with ".to_owned();
                push_signed_dec(&mut out, *code as i64);
                out
            },
            StopReason::Terminated(sig) => {
                let mut out = "Terminated by ".to_owned();
                out.append(sig.as_str());
                out
            },
            StopReason::Other(msg) => msg.clone(),
        }
    }

    /// Whether the program is gone after this stop.
    pub fn is_end(&self) -> (r: bool)
        ensures
            r == self@.is_end(),
    {
        match self {
            StopReason::Exited(_) => true,
            StopReason::Terminated(_) => true,
            _ => false,
        }
    }
}

impl DeepView for StopReason {
    type V = StopCause;

    open spec fn deep_view(&self) -> StopCause {
        self@
    }
}

/// A register and its value, as mathematical values.
pub struct RegisterShape {
    pub name: Seq<char>,
    pub value: u64,
}

impl DeepView for RegisterValue {
    type V = RegisterShape;

    open spec fn deep_view(&self) -> RegisterShape {
        RegisterShape { name: self.name@, value: self.value }
    }
}

impl DeepView for BreakpointView {
    type V = BreakpointView;

    open spec fn deep_view(&self) -> BreakpointView {
        *self
    }
}

/// A stack frame as mathematical values.
pub struct FrameShape {
    pub index: nat,
    pub pc: u64,
    pub location: Seq<char>,
    pub approximate: bool,
}

impl DeepView for StackFrame {
    type V = FrameShape;

    open spec fn deep_view(&self) -> FrameShape {
        FrameShape {
            index: self.index as nat,
            pc: self.pc,
            location: self.location@,
            approximate: self.approximate,
        }
    }
}

// ---------------------------------------------------------------------------
// Source windows

/// A source line as mathematical values.
pub struct LineText {
    pub number: nat,
    pub text: Seq<char>,
    pub is_current: bool,
}

impl View for SourceLine {
    type V = LineText;

    open spec fn view(&self) -> LineText {
        LineText { number: self.number as nat, text: self.text@, is_current: self.is_current }
    }
}

/// The shown part of a source file as mathematical values.
#[verifier::ext_equal]
pub struct SourceText {
    pub path: Option<Seq<char>>,
    pub current_line: Option<u64>,
    pub lines: Seq<LineText>,
}

/// The lines of a list as mathematical values.
pub open spec fn line_texts(v: Seq<SourceLine>) -> Seq<LineText> {
    Seq::new(v.len(), |i: int| v[i]@)
}

impl View for SourceView {
    type V = SourceText;

    open spec fn view(&self) -> SourceText {
        SourceText {
            path: opt_text(self.path),
            current_line: self.current_line,
            lines: line_texts(self.lines@),
        }
    }
}

impl DeepView for SourceView {
    type V = SourceText;

    open spec fn deep_view(&self) -> SourceText {
        self@
    }
}

/// A view of no file.
pub open spec fn no_source() -> SourceText {
    SourceText { path: None, current_line: None, lines: Seq::empty() }
}

/// The number of the first line of the window around `current`.
pub open spec fn window_start(current: nat, context: nat) -> nat {
    if current > context + 1 {
        (current - context) as nat
    } else {
        1
    }
}

/// The lines of a file within `context` lines of `current`, by ascending number.
pub open spec fn window_of(file: Seq<Seq<char>>, current: nat, context: nat) -> Seq<LineText> {
    let start = window_start(current, context);
    let stop: int = if current + context < file.len() {
        (current + context) as int
    } else {
        file.len() as int
    };
    Seq::new(
        if stop < start {
            0
        } else {
            (stop - start + 1) as nat
        },
        |i: int|
            LineText {
                number: (start + i) as nat,
                text: file[start + i - 1],
                is_current: start + i == current,
            },
    )
}

/// The part of a source file within `context_lines` lines of the current one.
pub fn read_source_window(path: &str, contents: &str, current_line: u64, context_lines: usize) -> (r:
    SourceView)
    ensures
        r@ == (SourceText {
            path: Some(path@),
            current_line: Some(current_line),
            lines: window_of(lines_of(contents@), current_line as nat, context_lines as nat),
        }),
{
    let file = lines(contents);
    let count: usize = file.len();
    let context: u64 = context_lines as u64;
    let back: u64 = current_line.saturating_sub(context);
    let start: u64 = if back > 1 {
        back
    } else {
        1
    };
    let end: u64 = current_line.saturating_add(context);
    let mut out: Vec<SourceLine> = Vec::new();
    let ghost all = texts(file@);
    let ghost want = window_of(all, current_line as nat, context_lines as nat);
    assert(line_texts(out@) =~= want.take(0));
    for idx in 0..count
        invariant
            count == file@.len(),
            all == texts(file@),
            want == window_of(all, current_line as nat, context_lines as nat),
            start == window_start(current_line as nat, context_lines as nat),
            end == current_line + context_lines || (end == u64::MAX && current_line + context_lines
                > u64::MAX),
            line_texts(out@) == want.take(
                if idx + 1 <= start {
                    0
                } else if idx + 1 - start <= want.len() {
                    idx + 1 - start
                } else {
                    want.len() as int
                },
            ),
    {
        let number: u64 = idx as u64 + 1;
        if number >= start && number <= end {
            let ghost k = number - start;
            let line = SourceLine {
                number,
                text: file[idx].clone(),
                is_current: number == current_line,
            };
            assert(k < want.len());
            assert(line@ == want[k]);
            assert(line_texts(out@.push(line)) =~= line_texts(out@).push(line@));
            assert(want.take(k).push(line@) =~= want.take(k + 1));
            out.push(line);
        } else if number > end {
            assert(want.len() <= number - start);
        }
    }
    assert(want.take(want.len() as int) =~= want);
    SourceView { path: Some(path.to_owned()), current_line: Some(current_line), lines: out }
}

/// A view of no file.
pub fn empty_source_view() -> (r: SourceView)
    ensures
        r@ == no_source(),
{
    let lines: Vec<SourceLine> = Vec::new();
    assert(line_texts(lines@) =~= Seq::<LineText>::empty());
    SourceView { path: None, current_line: None, lines }
}

// ---------------------------------------------------------------------------
// Stepping by source lines

/// How far a step to another source line has come.
#[derive(Clone, Debug)]
pub struct StepState {
    /// The line that the step started in.
    pub start_line: Option<u64>,
    /// The file and line that the step started in.
    pub start_place: Option<(String, u64)>,
    /// The address before the last instruction.
    pub previous_pc: u64,
    /// How many more instructions the step may take.
    pub left: usize,
}

/// How far a step has come, as mathematical values.
pub struct StepShape {
    pub start_line: Option<u64>,
    pub start_place: Option<(Seq<char>, u64)>,
    pub previous_pc: u64,
    pub left: usize,
}

impl DeepView for StepState {
    type V = StepShape;

    open spec fn deep_view(&self) -> StepShape {
        StepShape {
            start_line: self.start_line,
            start_place: self.start_place.deep_view(),
            previous_pc: self.previous_pc,
            left: self.left,
        }
    }
}

/// What one instruction of a step has brought.
#[derive(Debug)]
pub enum StepProgress {
    /// The step is over.
    Stopped(StopReason),
    /// The step goes on.
    Again(StepState),
}

/// What one instruction of a step has brought, as mathematical values.
pub enum ProgressShape {
    Stopped(StopCause),
    Again(StepShape),
}

impl DeepView for StepProgress {
    type V = ProgressShape;

    open spec fn deep_view(&self) -> ProgressShape {
        match self {
            StepProgress::Stopped(reason) => ProgressShape::Stopped(reason@),
            StepProgress::Again(state) => ProgressShape::Again(state.deep_view()),
        }
    }
}

/// What the start of a step over a source line has brought.
#[derive(Debug)]
pub enum NextStart {
    /// The step is over.
    Over(StopReason),
    /// The line is left instruction by instruction.
    Step(StepState),
}

/// What the start of a step over a source line has brought, as mathematical values.
pub enum NextShape {
    Over(StopCause),
    Step(StepShape),
}

impl DeepView for NextStart {
    type V = NextShape;

    open spec fn deep_view(&self) -> NextShape {
        match self {
            NextStart::Over(reason) => NextShape::Over(reason@),
            NextStart::Step(state) => NextShape::Step(state.deep_view()),
        }
    }
}

/// The most instructions of a step to another source line.
pub const STEP_LIMIT: usize = 4096;

// ---------------------------------------------------------------------------
// Targets

/// A snapshot of a target, as mathematical values.
pub struct SnapshotShape {
    pub name: Seq<char>,
    pub architecture: Seq<char>,
    pub pc: Option<u64>,
    pub location: Seq<char>,
    pub source: SourceText,
    pub registers: Seq<RegisterShape>,
    pub breakpoints: Seq<BreakpointView>,
    pub backtrace: Seq<FrameShape>,
}

impl DeepView for TargetSnapshot {
    type V = SnapshotShape;

    open spec fn deep_view(&self) -> SnapshotShape {
        SnapshotShape {
            name: self.name@,
            architecture: self.architecture@,
            pc: self.pc,
            location: self.location@,
            source: self.source@,
            registers: self.registers.deep_view(),
            breakpoints: self.breakpoints.deep_view(),
            backtrace: self.backtrace.deep_view(),
        }
    }
}

impl Clone for StopReason {
    fn clone(&self) -> (r: Self)
        ensures
            r@ == self@,
    {
        match self {
            StopReason::Ready => StopReason::Ready,
            StopReason::Signal(signal) => StopReason::Signal(signal.clone()),
            StopReason::Exited(code) => StopReason::Exited(*code),
            StopReason::Terminated(signal) => StopReason::Terminated(signal.clone()),
            StopReason::Other(text) => StopReason::Other(text.clone()),
        }
    }
}

impl Clone for RegisterValue {
    fn clone(&self) -> (r: Self)
        ensures
            r.deep_view() == self.deep_view(),
    {
        RegisterValue { name: self.name.clone(), value: self.value }
    }
}

impl Clone for StackFrame {
    fn clone(&self) -> (r: Self)
        ensures
            r.deep_view() == self.deep_view(),
    {
        StackFrame {
            index: self.index,
            pc: self.pc,
            location: self.location.clone(),
            approximate: self.approximate,
        }
    }
}

impl Clone for SourceLine {
    fn clone(&self) -> (r: Self)
        ensures
            r@ == self@,
    {
        SourceLine { number: self.number, text: self.text.clone(), is_current: self.is_current }
    }
}

impl Clone for SourceView {
    fn clone(&self) -> (r: Self)
        ensures
            r@ == self@,
    {
        let r = SourceView {
            path: self.path.clone(),
            current_line: self.current_line,
            lines: self.lines.clone(),
        };
        assert(r@ =~= self@);
        r
    }
}

impl Clone for TargetSnapshot {
    fn clone(&self) -> (r: Self)
        ensures
            r.deep_view() == self.deep_view(),
    {
        let r = TargetSnapshot {
            name: self.name.clone(),
            architecture: self.architecture.clone(),
            pc: self.pc,
            location: self.location.clone(),
            source: self.source.clone(),
            registers: self.registers.clone(),
            breakpoints: self.breakpoints.clone(),
            backtrace: self.backtrace.clone(),
        };
        assert(r.registers.deep_view() =~= self.registers.deep_view());
        assert(r.breakpoints.deep_view() =~= self.breakpoints.deep_view());
        assert(r.backtrace.deep_view() =~= self.backtrace.deep_view());
        r
    }
}

/// A debugged program that a frontend drives. Each operation is a dialogue; what it asks and
/// gives is said by a function of the target's state.
pub trait DebugTarget: Sized {
    /// The state of a target as a mathematical value.
    type S;

    spec fn shape(&self) -> Self::S;

    spec fn name_of(s: Self::S) -> Seq<char>;

    spec fn architecture_of(s: Self::S) -> Seq<char>;

    spec fn breakpoints_of(s: Self::S) -> Seq<BreakpointView>;

    spec fn initialize_of(s: Self::S) -> Flow<StopCause, Self::S>;

    spec fn continue_of(s: Self::S) -> Flow<StopCause, Self::S>;

    spec fn step_instruction_of(s: Self::S) -> Flow<StopCause, Self::S>;

    spec fn halt_of(s: Self::S) -> Flow<StopCause, Self::S>;

    spec fn reset_halt_of(s: Self::S) -> Flow<StopCause, Self::S>;

    spec fn pc_of(s: Self::S) -> Flow<u64, Self::S>;

    spec fn location_flow(s: Self::S, pc: u64) -> Flow<Seq<char>, Self::S>;

    spec fn current_source_of(s: Self::S, context_lines: usize) -> Flow<SourceText, Self::S>;

    spec fn registers_of(s: Self::S) -> Flow<Seq<RegisterShape>, Self::S>;

    spec fn write_register_of(s: Self::S, name: Seq<char>, value: u64) -> Flow<(), Self::S>;

    spec fn read_memory_of(s: Self::S, addr: u64, len: usize) -> Flow<Seq<u8>, Self::S>;

    spec fn write_memory_of(s: Self::S, addr: u64, data: Seq<u8>) -> Flow<(), Self::S>;

    spec fn set_breakpoint_of(s: Self::S, addr: u64) -> Flow<(), Self::S>;

    spec fn clear_breakpoint_of(s: Self::S, addr: u64) -> Flow<(), Self::S>;

    spec fn source_breakpoint_of(s: Self::S, file: Seq<char>, line: u64) -> Flow<
        Option<u64>,
        Self::S,
    >;

    spec fn backtrace_of(s: Self::S) -> Flow<Seq<FrameShape>, Self::S>;

    spec fn step_begin_of(s: Self::S) -> Flow<StepShape, Self::S>;

    spec fn step_round_of(s: Self::S, step: StepShape) -> Flow<ProgressShape, Self::S>;

    spec fn next_begin_of(s: Self::S) -> Flow<NextShape, Self::S>;

    spec fn next_source_of(s: Self::S) -> Flow<StopCause, Self::S>;

    spec fn drain_output_of(s: Self::S) -> Flow<Seq<u8>, Self::S>;

    fn name(&self) -> (r: String)
        ensures
            r@ == Self::name_of(self.shape()),
    ;

    fn architecture(&self) -> (r: String)
        ensures
            r@ == Self::architecture_of(self.shape()),
    ;

    fn breakpoints(&self) -> (r: Vec<BreakpointView>)
        ensures
            r.deep_view() == Self::breakpoints_of(self.shape()),
    ;

    fn initialize(&mut self) -> (r: Result<StopReason, Pause>)
        ensures
            ran(r, final(self).shape(), Self::initialize_of(old(self).shape())),
    ;

    fn continue_exec(&mut self) -> (r: Result<StopReason, Pause>)
        ensures
            ran(r, final(self).shape(), Self::continue_of(old(self).shape())),
    ;

    fn step_instruction(&mut self) -> (r: Result<StopReason, Pause>)
        ensures
            ran(r, final(self).shape(), Self::step_instruction_of(old(self).shape())),
    ;

    fn halt(&mut self) -> (r: Result<StopReason, Pause>)
        ensures
            ran(r, final(self).shape(), Self::halt_of(old(self).shape())),
    ;

    fn reset_halt(&mut self) -> (r: Result<StopReason, Pause>)
        ensures
            ran(r, final(self).shape(), Self::reset_halt_of(old(self).shape())),
    ;

    fn pc(&mut self) -> (r: Result<u64, Pause>)
        ensures
            ran(r, final(self).shape(), Self::pc_of(old(self).shape())),
    ;

    fn location(&mut self, pc: u64) -> (r: Result<String, Pause>)
        ensures
            ran(r, final(self).shape(), Self::location_flow(old(self).shape(), pc)),
    ;

    fn current_source(&mut self, context_lines: usize) -> (r: Result<SourceView, Pause>)
        ensures
            ran(r, final(self).shape(), Self::current_source_of(old(self).shape(), context_lines)),
    ;

    fn registers(&mut self) -> (r: Result<Vec<RegisterValue>, Pause>)
        ensures
            ran(r, final(self).shape(), Self::registers_of(old(self).shape())),
    ;

    fn write_register_by_name(&mut self, name: &str, value: u64) -> (r: Result<(), Pause>)
        ensures
            ran(r, final(self).shape(), Self::write_register_of(old(self).shape(), name@, value)),
    ;

    fn read_memory(&mut self, addr: u64, len: usize) -> (r: Result<Vec<u8>, Pause>)
        ensures
            ran(r, final(self).shape(), Self::read_memory_of(old(self).shape(), addr, len)),
    ;

    fn write_memory(&mut self, addr: u64, data: &[u8]) -> (r: Result<(), Pause>)
        ensures
            ran(r, final(self).shape(), Self::write_memory_of(old(self).shape(), addr, data@)),
    ;

    fn set_breakpoint(&mut self, addr: u64) -> (r: Result<(), Pause>)
        ensures
            ran(r, final(self).shape(), Self::set_breakpoint_of(old(self).shape(), addr)),
    ;

    fn clear_breakpoint(&mut self, addr: u64) -> (r: Result<(), Pause>)
        ensures
            ran(r, final(self).shape(), Self::clear_breakpoint_of(old(self).shape(), addr)),
    ;

    fn breakpoint_addr_for_source(&mut self, file: &str, line: u64) -> (r: Result<
        Option<u64>,
        Pause,
    >)
        ensures
            ran(r, final(self).shape(), Self::source_breakpoint_of(old(self).shape(), file@, line)),
    ;

    fn backtrace(&mut self) -> (r: Result<Vec<StackFrame>, Pause>)
        ensures
            ran(r, final(self).shape(), Self::backtrace_of(old(self).shape())),
    ;

    /// Starts a step to another source line.
    fn step_begin(&mut self) -> (r: Result<StepState, Pause>)
        ensures
            ran(r, final(self).shape(), Self::step_begin_of(old(self).shape())),
    ;

    /// Executes one instruction of a step.
    fn step_round(&mut self, step: StepState) -> (r: Result<StepProgress, Pause>)
        ensures
            ran(r, final(self).shape(), Self::step_round_of(old(self).shape(), step.deep_view())),
    ;

    /// Starts to execute the current source line, stepping over calls where possible.
    fn next_begin(&mut self) -> (r: Result<NextStart, Pause>)
        ensures
            ran(r, final(self).shape(), Self::next_begin_of(old(self).shape())),
    ;

    /// Executes the current source line, stepping over calls where possible.
    fn next_source(&mut self) -> (r: Result<StopReason, Pause>)
        ensures
            ran(r, final(self).shape(), Self::next_source_of(old(self).shape())),
    ;

    /// Takes what the debugged program has put out.
    fn drain_output(&mut self) -> (r: Result<Vec<u8>, Pause>)
        ensures
            ran(r, final(self).shape(), Self::drain_output_of(old(self).shape())),
    ;
}

/// Stepping without a resetting target.
pub open spec fn no_reset<S>(s: S) -> Flow<StopCause, S> {
    Flow::Fail(FaultShape::Target(seq!["reset is not supported by this target"@]), s)
}

/// The output of a target that captures none.
pub open spec fn no_output<S>(s: S) -> Flow<Seq<u8>, S> {
    Flow::Done(Seq::empty(), s)
}

/// The output of a target that captures none.
pub fn without_output() -> (r: Vec<u8>)
    ensures
        r.deep_view() == Seq::<u8>::empty(),
{
    let r: Vec<u8> = Vec::new();
    assert(r.deep_view() =~= Seq::<u8>::empty());
    r
}

/// The refusal of a target that cannot be reset.
pub fn refuse_reset() -> (r: Pause)
    ensures
        r matches Pause::Fail(e) && e@ == FaultShape::Target(
            seq!["reset is not supported by this target"@],
        ),
{
    Pause::Fail(Fault::Target(TargetError::of("reset is not supported by this target")))
}

/// Going on with a step for at most so many rounds.
pub open spec fn step_rounds<T: DebugTarget>(s: T::S, step: StepShape, fuel: nat) -> Flow<
    StopCause,
    T::S,
>
    decreases fuel,
{
    if fuel == 0 {
        Flow::Done(StopCause::Other("Step limit reached"@), s)
    } else {
        T::step_round_of(s, step).bind(
            |progress: ProgressShape, s: T::S|
                match progress {
                    ProgressShape::Stopped(reason) => Flow::Done(reason, s),
                    ProgressShape::Again(step) => step_rounds::<T>(s, step, (fuel - 1) as nat),
                },
        )
    }
}

/// Stepping to another source line.
pub open spec fn step_source_of<T: DebugTarget>(s: T::S) -> Flow<StopCause, T::S> {
    T::step_begin_of(s).bind(
        |step: StepShape, s: T::S| step_rounds::<T>(s, step, STEP_LIMIT as nat + 1),
    )
}

/// Steps to another source line.
pub fn step_source<T: DebugTarget>(target: &mut T) -> (r: Result<StopReason, Pause>)
    ensures
        ran(r, final(target).shape(), step_source_of::<T>(old(target).shape())),
{
    let mut step = target.step_begin()?;
    let mut fuel: usize = STEP_LIMIT + 1;
    let ghost want = step_source_of::<T>(old(target).shape());
    while fuel > 0
        invariant
            want == step_source_of::<T>(old(target).shape()),
            want == step_rounds::<T>(target.shape(), step.deep_view(), fuel as nat),
        decreases fuel,
    {
        match target.step_round(step)? {
            StepProgress::Stopped(reason) => {
                return Ok(reason);
            },
            StepProgress::Again(next) => {
                step = next;
            },
        }
        fuel = fuel - 1;
    }
    Ok(StopReason::Other("Step limit reached".to_owned()))
}

/// What a snapshot shows for the results of the single questions.
pub open spec fn snapshot_shape(
    name: Seq<char>,
    architecture: Seq<char>,
    pc: Option<u64>,
    location: Seq<char>,
    source: Option<SourceText>,
    registers: Option<Seq<RegisterShape>>,
    breakpoints: Seq<BreakpointView>,
    backtrace: Option<Seq<FrameShape>>,
) -> SnapshotShape {
    SnapshotShape {
        name,
        architecture,
        pc,
        location,
        source: match source {
            Some(source) => source,
            None => no_source(),
        },
        registers: match registers {
            Some(registers) => registers,
            None => Seq::empty(),
        },
        breakpoints,
        backtrace: match backtrace {
            Some(frames) => frames,
            None => Seq::empty(),
        },
    }
}

/// The place that a snapshot shows.
pub open spec fn snapshot_place<T: DebugTarget>(s: T::S, pc: Option<u64>) -> Flow<
    Seq<char>,
    T::S,
> {
    match pc {
        Some(pc) => T::location_flow(s, pc),
        None => Flow::Done("No program counter"@, s),
    }
}

/// A result where there is one.
pub open spec fn achieved<A>(r: Result<A, FaultShape>) -> Option<A> {
    match r {
        Ok(a) => Some(a),
        Err(_) => None,
    }
}

/// Taking a snapshot: what cannot be found out is left empty.
pub open spec fn snapshot_of<T: DebugTarget>(s: T::S) -> Flow<SnapshotShape, T::S> {
    T::pc_of(s).attempt().bind(
        |pc: Result<u64, FaultShape>, s: T::S|
            snapshot_place::<T>(s, achieved(pc)).bind(
                |location: Seq<char>, s: T::S|
                    T::current_source_of(s, 6).attempt().bind(
                        |source: Result<SourceText, FaultShape>, s: T::S|
                            T::registers_of(s).attempt().bind(
                                |registers: Result<Seq<RegisterShape>, FaultShape>, s: T::S|
                                    T::backtrace_of(s).attempt().bind(
                                        |frames: Result<Seq<FrameShape>, FaultShape>, e: T::S|
                                            Flow::Done(
                                                snapshot_shape(
                                                    T::name_of(e),
                                                    T::architecture_of(e),
                                                    achieved(pc),
                                                    location,
                                                    achieved(source),
                                                    achieved(registers),
                                                    T::breakpoints_of(s),
                                                    achieved(frames),
                                                ),
                                                e,
                                            ),
                                    ),
                            ),
                    ),
            ),
    )
}

/// Takes a snapshot of a target.
pub fn snapshot<T: DebugTarget>(target: &mut T) -> (r: Result<TargetSnapshot, Pause>)
    ensures
        ran(r, final(target).shape(), snapshot_of::<T>(old(target).shape())),
{
    let pc: Option<u64> = match attempted(target.pc())? {
        Ok(pc) => Some(pc),
        Err(_) => None,
    };
    let location = match pc {
        Some(pc) => target.location(pc)?,
        None => "No program counter".to_owned(),
    };
    let source = match attempted(target.current_source(6))? {
        Ok(source) => source,
        Err(_) => empty_source_view(),
    };
    let registers: Vec<RegisterValue> = match attempted(target.registers())? {
        Ok(registers) => registers,
        Err(_) => Vec::new(),
    };
    assert(registers@.len() == 0 ==> registers.deep_view() =~= Seq::<RegisterShape>::empty());
    let breakpoints = target.breakpoints();
    let backtrace: Vec<StackFrame> = match attempted(target.backtrace())? {
        Ok(frames) => frames,
        Err(_) => Vec::new(),
    };
    assert(backtrace@.len() == 0 ==> backtrace.deep_view() =~= Seq::<FrameShape>::empty());
    Ok(
        TargetSnapshot {
            name: target.name(),
            architecture: target.architecture(),
            pc,
            location,
            source,
            registers,
            breakpoints,
            backtrace,
        },
    )
}

/// A snapshot never fails for want of an answer, unless the place of a known address cannot be
/// told.
pub proof fn lemma_snapshot_stands<T: DebugTarget>(s: T::S)
    requires
        forall|s: T::S, pc: u64| !(#[trigger] T::location_flow(s, pc) is Fail),
    ensures
        !(snapshot_of::<T>(s) is Fail),
{
}

} // verus!
