//! Operations that need the outside world, told as dialogues.
//!
//! A debugger operation sends packets, traces a process, reads files and prints. It does so by
//! asking: a [`Call`] says what is to be done outside, and a [`Reply`] says what came of it.
//! A [`Talk`] holds the replies that are there so far and what has been printed. An operation
//! that runs out of replies stops with [`Pause::Ask`]. It is then started again from the state
//! that it was started from, with one more reply, and takes the same course up to there.
use std::collections::VecDeque;
use vstd::prelude::*;

use crate::request::{fits, fits_request, Answer, AnswerShape, Request, RequestShape};
use crate::target::TargetError;
use crate::x86_target::registers::UserRegs;

verus! {

// ---------------------------------------------------------------------------
// Errors

/// An error of the operating system: its symbol and what it means.
#[derive(Debug)]
pub struct Errno {
    pub name: String,
    pub text: String,
}

impl Clone for Errno {
    fn clone(&self) -> (r: Self)
        ensures
            sys_fault(r) == sys_fault(*self),
    {
        Errno { name: self.name.clone(), text: self.text.clone() }
    }
}

/// Why an operation failed.
#[derive(Debug)]
pub enum Fault {
    Sys(Errno),
    Target(TargetError),
}

/// Why an operation failed, with texts as character sequences.
pub enum FaultShape {
    Sys(Seq<char>, Seq<char>),
    Target(Seq<Seq<char>>),
}

impl View for Fault {
    type V = FaultShape;

    open spec fn view(&self) -> FaultShape {
        match self {
            Fault::Sys(e) => FaultShape::Sys(e.name@, e.text@),
            Fault::Target(e) => FaultShape::Target(e@),
        }
    }
}

impl FaultShape {
    /// The messages, from the outermost to the innermost.
    pub open spec fn chain(self) -> Seq<Seq<char>> {
        match self {
            FaultShape::Sys(name, text) => seq![name + ": "@ + text],
            FaultShape::Target(chain) => chain,
        }
    }

    /// The short form that names a system error by its symbol.
    pub open spec fn symbol(self) -> Seq<char> {
        match self {
            FaultShape::Sys(name, _) => name,
            FaultShape::Target(chain) => TargetError::headline(chain),
        }
    }
}

impl Fault {
    /// The messages, from the outermost to the innermost.
    pub fn into_error(self) -> (r: TargetError)
        ensures
            r@ == self@.chain(),
    {
        match self {
            Fault::Target(e) => e,
            Fault::Sys(e) => {
                let mut text = e.name;
                text.append(": ");
                text.append(e.text.as_str());
                TargetError::new(text)
            },
        }
    }

    /// The short form that names a system error by its symbol.
    pub fn symbol(&self) -> (r: String)
        ensures
            r@ == self@.symbol(),
    {
        match self {
            Fault::Sys(e) => e.name.clone(),
            Fault::Target(e) => e.message(),
        }
    }
}

// ---------------------------------------------------------------------------
// Calls and replies

/// What a traced process did.
#[derive(Debug)]
pub enum WaitState {
    /// It stopped by the signal of this name.
    Stopped(String),
    Exited(i32),
    /// It was killed by the signal of this name.
    Signaled(String),
    Other,
}

/// What a traced process did, and the same in words.
#[derive(Debug)]
pub struct WaitStatus {
    pub state: WaitState,
    pub text: String,
}

/// What is known of a signal: its code and the address it is about.
#[derive(Clone, Copy, Debug, PartialEq, Eq, Structural)]
pub struct SignalInfo {
    pub code: i32,
    pub address: u64,
}

/// Something to be done outside.
#[derive(Clone, Debug)]
pub enum Call {
    /// Send a packet to the remote stub and wait a while for the response.
    Exchange(String),
    /// Send a packet that lets the target run and wait for the response without a limit.
    Resume(String),
    /// Interrupt the remote target and wait for the response.
    Interrupt,
    /// Read the next packet of any kind.
    NextPacket,
    /// Read the registers of the traced process.
    Registers,
    /// Write the registers of the traced process.
    SetRegisters(UserRegs),
    /// Read a word of the traced process.
    Peek(u64),
    /// Write a word of the traced process.
    Poke(u64, i64),
    /// Let the traced process execute one instruction.
    Step,
    /// Let the traced process run.
    Continue,
    /// Wait for the traced process to change its state.
    Wait,
    /// Ask what is known of the signal that stopped the traced process.
    SignalInfo,
    /// Read the memory map of the traced process.
    Maps,
    /// Ask whether a file is there.
    PathExists(String),
    /// Ask for the working directory.
    CurrentDir,
    /// Read a text file.
    ReadFile(String),
    /// Read some of what the traced process has put out, without waiting for more.
    ReadOutput,
    /// Have a target carry out a request of a frontend.
    Target(Request),
}

/// What came of a call.
#[derive(Debug)]
pub enum Reply {
    Packet(Result<String, TargetError>),
    Registers(Result<UserRegs, Errno>),
    Word(Result<i64, Errno>),
    Done(Result<(), Errno>),
    Status(Result<WaitStatus, Errno>),
    Signal(Result<SignalInfo, Errno>),
    /// The text of a file, or the wording of an error.
    File(Result<String, String>),
    Exists(bool),
    Dir(Option<String>),
    Output(Result<Vec<u8>, Errno>),
    Target(Answer),
}

/// What a traced process did, as mathematical values.
pub enum StateShape {
    Stopped(Seq<char>),
    Exited(i32),
    Signaled(Seq<char>),
    Other,
}

/// What a traced process did and the same in words, as mathematical values.
pub struct StatusShape {
    pub state: StateShape,
    pub text: Seq<char>,
}

/// Something to be done outside, as mathematical values.
pub enum CallShape {
    Exchange(Seq<char>),
    Resume(Seq<char>),
    Interrupt,
    NextPacket,
    Registers,
    SetRegisters(UserRegs),
    Peek(u64),
    Poke(u64, i64),
    Step,
    Continue,
    Wait,
    SignalInfo,
    Maps,
    PathExists(Seq<char>),
    CurrentDir,
    ReadFile(Seq<char>),
    ReadOutput,
    Target(RequestShape),
}

/// What came of a call, as mathematical values.
pub enum ReplyShape {
    Packet(Result<Seq<char>, Seq<Seq<char>>>),
    Registers(Result<UserRegs, FaultShape>),
    Word(Result<i64, FaultShape>),
    Done(Result<(), FaultShape>),
    Status(Result<StatusShape, FaultShape>),
    Signal(Result<SignalInfo, FaultShape>),
    File(Result<Seq<char>, Seq<char>>),
    Exists(bool),
    Dir(Option<Seq<char>>),
    Output(Result<Seq<u8>, FaultShape>),
    Target(AnswerShape),
}

impl View for WaitState {
    type V = StateShape;

    open spec fn view(&self) -> StateShape {
        match self {
            WaitState::Stopped(s) => StateShape::Stopped(s@),
            WaitState::Exited(code) => StateShape::Exited(*code),
            WaitState::Signaled(s) => StateShape::Signaled(s@),
            WaitState::Other => StateShape::Other,
        }
    }
}

impl View for WaitStatus {
    type V = StatusShape;

    open spec fn view(&self) -> StatusShape {
        StatusShape { state: self.state@, text: self.text@ }
    }
}

impl DeepView for WaitStatus {
    type V = StatusShape;

    open spec fn deep_view(&self) -> StatusShape {
        self@
    }
}

impl DeepView for SignalInfo {
    type V = SignalInfo;

    open spec fn deep_view(&self) -> SignalInfo {
        *self
    }
}

impl View for Call {
    type V = CallShape;

    open spec fn view(&self) -> CallShape {
        match self {
            Call::Exchange(p) => CallShape::Exchange(p@),
            Call::Resume(p) => CallShape::Resume(p@),
            Call::Interrupt => CallShape::Interrupt,
            Call::NextPacket => CallShape::NextPacket,
            Call::Registers => CallShape::Registers,
            Call::SetRegisters(regs) => CallShape::SetRegisters(*regs),
            Call::Peek(addr) => CallShape::Peek(*addr),
            Call::Poke(addr, word) => CallShape::Poke(*addr, *word),
            Call::Step => CallShape::Step,
            Call::Continue => CallShape::Continue,
            Call::Wait => CallShape::Wait,
            Call::SignalInfo => CallShape::SignalInfo,
            Call::Maps => CallShape::Maps,
            Call::PathExists(path) => CallShape::PathExists(path@),
            Call::CurrentDir => CallShape::CurrentDir,
            Call::ReadFile(path) => CallShape::ReadFile(path@),
            Call::ReadOutput => CallShape::ReadOutput,
            Call::Target(request) => CallShape::Target(request@),
        }
    }
}

/// A system error as a fault.
pub open spec fn sys_fault(e: Errno) -> FaultShape {
    FaultShape::Sys(e.name@, e.text@)
}

impl View for Reply {
    type V = ReplyShape;

    open spec fn view(&self) -> ReplyShape {
        match self {
            Reply::Packet(Ok(p)) => ReplyShape::Packet(Ok(p@)),
            Reply::Packet(Err(e)) => ReplyShape::Packet(Err(e@)),
            Reply::Registers(Ok(regs)) => ReplyShape::Registers(Ok(*regs)),
            Reply::Registers(Err(e)) => ReplyShape::Registers(Err(sys_fault(*e))),
            Reply::Word(Ok(word)) => ReplyShape::Word(Ok(*word)),
            Reply::Word(Err(e)) => ReplyShape::Word(Err(sys_fault(*e))),
            Reply::Done(Ok(_)) => ReplyShape::Done(Ok(())),
            Reply::Done(Err(e)) => ReplyShape::Done(Err(sys_fault(*e))),
            Reply::Status(Ok(status)) => ReplyShape::Status(Ok(status@)),
            Reply::Status(Err(e)) => ReplyShape::Status(Err(sys_fault(*e))),
            Reply::Signal(Ok(info)) => ReplyShape::Signal(Ok(*info)),
            Reply::Signal(Err(e)) => ReplyShape::Signal(Err(sys_fault(*e))),
            Reply::File(Ok(text)) => ReplyShape::File(Ok(text@)),
            Reply::File(Err(e)) => ReplyShape::File(Err(e@)),
            Reply::Exists(there) => ReplyShape::Exists(*there),
            Reply::Dir(Some(path)) => ReplyShape::Dir(Some(path@)),
            Reply::Dir(None) => ReplyShape::Dir(None),
            Reply::Output(Ok(bytes)) => ReplyShape::Output(Ok(bytes@)),
            Reply::Output(Err(e)) => ReplyShape::Output(Err(sys_fault(*e))),
            Reply::Target(answer) => ReplyShape::Target(answer@),
        }
    }
}

impl Clone for WaitStatus {
    fn clone(&self) -> (r: Self)
        ensures
            r@ == self@,
    {
        let state = match &self.state {
            WaitState::Stopped(signal) => WaitState::Stopped(signal.clone()),
            WaitState::Exited(code) => WaitState::Exited(*code),
            WaitState::Signaled(signal) => WaitState::Signaled(signal.clone()),
            WaitState::Other => WaitState::Other,
        };
        WaitStatus { state, text: self.text.clone() }
    }
}

impl Clone for Reply {
    fn clone(&self) -> (r: Self)
        ensures
            r@ == self@,
    {
        match self {
            Reply::Packet(Ok(packet)) => Reply::Packet(Ok(packet.clone())),
            Reply::Packet(Err(e)) => Reply::Packet(Err(e.clone())),
            Reply::Registers(Ok(regs)) => Reply::Registers(Ok(*regs)),
            Reply::Registers(Err(e)) => Reply::Registers(Err(e.clone())),
            Reply::Word(Ok(word)) => Reply::Word(Ok(*word)),
            Reply::Word(Err(e)) => Reply::Word(Err(e.clone())),
            Reply::Done(Ok(_)) => Reply::Done(Ok(())),
            Reply::Done(Err(e)) => Reply::Done(Err(e.clone())),
            Reply::Status(Ok(status)) => Reply::Status(Ok(status.clone())),
            Reply::Status(Err(e)) => Reply::Status(Err(e.clone())),
            Reply::Signal(Ok(info)) => Reply::Signal(Ok(*info)),
            Reply::Signal(Err(e)) => Reply::Signal(Err(e.clone())),
            Reply::File(Ok(text)) => Reply::File(Ok(text.clone())),
            Reply::File(Err(e)) => Reply::File(Err(e.clone())),
            Reply::Exists(there) => Reply::Exists(*there),
            Reply::Dir(dir) => Reply::Dir(dir.clone()),
            Reply::Output(Ok(bytes)) => Reply::Output(Ok(bytes.clone())),
            Reply::Output(Err(e)) => Reply::Output(Err(e.clone())),
            Reply::Target(answer) => Reply::Target(answer.clone()),
        }
    }
}

// ---------------------------------------------------------------------------
// Prompts

/// What a prompt brings.
#[derive(Clone, Debug)]
pub enum Input {
    /// A line typed by the user.
    Line(String),
    /// The user has interrupted the prompt.
    Interrupted,
    /// There is no further input.
    Eof,
    /// Reading failed with an error of this wording.
    Error(String),
}

/// What a prompt brings, as mathematical values.
pub enum InputShape {
    Line(Seq<char>),
    Interrupted,
    Eof,
    Error(Seq<char>),
}

impl View for Input {
    type V = InputShape;

    open spec fn view(&self) -> InputShape {
        match self {
            Input::Line(line) => InputShape::Line(line@),
            Input::Interrupted => InputShape::Interrupted,
            Input::Eof => InputShape::Eof,
            Input::Error(e) => InputShape::Error(e@),
        }
    }
}

// ---------------------------------------------------------------------------
// The course of an operation

/// Why an operation has not come to its result.
#[derive(Debug)]
pub enum Pause {
    /// This is to be done first.
    Ask(Call),
    /// The operation failed.
    Fail(Fault),
}

/// How an operation ends in a state: it asks, fails, or gives a result.
pub enum Flow<A, S> {
    Ask(CallShape, S),
    Fail(FaultShape, S),
    Done(A, S),
}

impl<A, S> Flow<A, S> {
    /// What follows a result, the rest being left as it is.
    pub open spec fn bind<B>(self, next: spec_fn(A, S) -> Flow<B, S>) -> Flow<B, S> {
        match self {
            Flow::Ask(call, s) => Flow::Ask(call, s),
            Flow::Fail(e, s) => Flow::Fail(e, s),
            Flow::Done(a, s) => next(a, s),
        }
    }

    /// The same, with a failure made a result.
    pub open spec fn attempt(self) -> Flow<Result<A, FaultShape>, S> {
        match self {
            Flow::Ask(call, s) => Flow::Ask(call, s),
            Flow::Fail(e, s) => Flow::Done(Err(e), s),
            Flow::Done(a, s) => Flow::Done(Ok(a), s),
        }
    }

    /// The same, with a message put before those of a failure.
    pub open spec fn context(self, message: Seq<char>) -> Flow<A, S> {
        match self {
            Flow::Fail(e, s) => Flow::Fail(FaultShape::Target(seq![message] + e.chain()), s),
            flow => flow,
        }
    }

    /// The state reached.
    pub open spec fn state(self) -> S {
        match self {
            Flow::Ask(_, s) => s,
            Flow::Fail(_, s) => s,
            Flow::Done(_, s) => s,
        }
    }
}

/// A result that needs nothing from outside.
pub open spec fn given<A, S>(r: Result<A, Seq<Seq<char>>>, s: S) -> Flow<A, S> {
    match r {
        Ok(a) => Flow::Done(a, s),
        Err(e) => Flow::Fail(FaultShape::Target(e), s),
    }
}

/// A failure made a result.
pub fn attempted<T>(r: Result<T, Pause>) -> (out: Result<Result<T, Fault>, Pause>)
    ensures
        match r {
            Ok(x) => out == Ok::<Result<T, Fault>, Pause>(Ok(x)),
            Err(Pause::Fail(e)) => out == Ok::<Result<T, Fault>, Pause>(Err(e)),
            Err(Pause::Ask(c)) => out == Err::<Result<T, Fault>, Pause>(Pause::Ask(c)),
        },
{
    match r {
        Ok(x) => Ok(Ok(x)),
        Err(Pause::Fail(e)) => Ok(Err(e)),
        Err(Pause::Ask(c)) => Err(Pause::Ask(c)),
    }
}

/// A message put before those of a failure.
pub fn with_context<T>(r: Result<T, Pause>, message: String) -> (out: Result<T, Pause>)
    ensures
        match r {
            Err(Pause::Fail(e)) => out matches Err(Pause::Fail(x)) && x@ == FaultShape::Target(
                seq![message@] + e@.chain(),
            ),
            _ => out == r,
        },
{
    match r {
        Err(Pause::Fail(e)) => Err(
            Pause::Fail(Fault::Target(e.into_error().context(message))),
        ),
        other => other,
    }
}

/// A result that needs nothing from outside.
pub fn settled<T>(r: Result<T, TargetError>) -> (out: Result<T, Pause>)
    ensures
        match r {
            Ok(x) => out == Ok::<T, Pause>(x),
            Err(e) => out == Err::<T, Pause>(Pause::Fail(Fault::Target(e))),
        },
{
    match r {
        Ok(x) => Ok(x),
        Err(e) => Err(Pause::Fail(Fault::Target(e))),
    }
}

/// An operation has taken the given course.
pub open spec fn ran<T: DeepView, S>(r: Result<T, Pause>, s: S, flow: Flow<T::V, S>) -> bool {
    match flow {
        Flow::Ask(call, end) => s == end && (r matches Err(Pause::Ask(c)) && c@ == call),
        Flow::Fail(fault, end) => s == end && (r matches Err(Pause::Fail(e)) && e@ == fault),
        Flow::Done(a, end) => s == end && (r matches Ok(x) && x.deep_view() == a),
    }
}

/// The replies that are there and what was printed.
pub struct Talk {
    replies: VecDeque<Reply>,
    out: String,
    heard: Ghost<Seq<(CallShape, ReplyShape)>>,
}

/// The replies that are there and what was printed, as mathematical values.
#[verifier::ext_equal]
pub struct TalkShape {
    /// The replies that have not been used.
    pub replies: Seq<ReplyShape>,
    /// What was printed.
    pub out: Seq<char>,
    /// The calls that were answered, each with its reply.
    pub heard: Seq<(CallShape, ReplyShape)>,
}

/// Replies as mathematical values.
pub open spec fn reply_shapes(v: Seq<Reply>) -> Seq<ReplyShape> {
    Seq::new(v.len(), |i: int| v[i]@)
}

impl View for Talk {
    type V = TalkShape;

    closed spec fn view(&self) -> TalkShape {
        TalkShape { replies: reply_shapes(self.replies@), out: self.out@, heard: self.heard@ }
    }
}

/// A talk with the given replies in which nothing has happened yet.
pub open spec fn talk_with(replies: Seq<ReplyShape>) -> TalkShape {
    TalkShape { replies, out: Seq::empty(), heard: Seq::empty() }
}

impl TalkShape {
    /// The same with a text printed.
    pub open spec fn print(self, text: Seq<char>) -> TalkShape {
        TalkShape { out: self.out + text, ..self }
    }

    /// The same with a line printed.
    pub open spec fn say(self, line: Seq<char>) -> TalkShape {
        TalkShape { out: self.out + line + "\n"@, ..self }
    }

    /// The same with the first reply used for a call.
    pub open spec fn next(self, call: CallShape) -> TalkShape {
        TalkShape {
            replies: self.replies.drop_first(),
            heard: self.heard.push((call, self.replies[0])),
            ..self
        }
    }

    /// Asking for a packet by a call.
    pub open spec fn packet(self, call: CallShape) -> Flow<Seq<char>, TalkShape> {
        if self.replies.len() > 0 {
            match self.replies[0] {
                ReplyShape::Packet(Ok(p)) => Flow::Done(p, self.next(call)),
                ReplyShape::Packet(Err(e)) => Flow::Fail(FaultShape::Target(e), self.next(call)),
                _ => Flow::Ask(call, self),
            }
        } else {
            Flow::Ask(call, self)
        }
    }

    /// Asking for the registers.
    pub open spec fn registers(self) -> Flow<UserRegs, TalkShape> {
        if self.replies.len() > 0 {
            match self.replies[0] {
                ReplyShape::Registers(Ok(regs)) => Flow::Done(regs, self.next(CallShape::Registers)),
                ReplyShape::Registers(Err(e)) => Flow::Fail(e, self.next(CallShape::Registers)),
                _ => Flow::Ask(CallShape::Registers, self),
            }
        } else {
            Flow::Ask(CallShape::Registers, self)
        }
    }

    /// Asking for a word.
    pub open spec fn peek(self, addr: u64) -> Flow<i64, TalkShape> {
        if self.replies.len() > 0 {
            match self.replies[0] {
                ReplyShape::Word(Ok(word)) => Flow::Done(word, self.next(CallShape::Peek(addr))),
                ReplyShape::Word(Err(e)) => Flow::Fail(e, self.next(CallShape::Peek(addr))),
                _ => Flow::Ask(CallShape::Peek(addr), self),
            }
        } else {
            Flow::Ask(CallShape::Peek(addr), self)
        }
    }

    /// Asking for something to be done.
    pub open spec fn order(self, call: CallShape) -> Flow<(), TalkShape> {
        if self.replies.len() > 0 {
            match self.replies[0] {
                ReplyShape::Done(Ok(_)) => Flow::Done((), self.next(call)),
                ReplyShape::Done(Err(e)) => Flow::Fail(e, self.next(call)),
                _ => Flow::Ask(call, self),
            }
        } else {
            Flow::Ask(call, self)
        }
    }

    /// Asking what the traced process did.
    pub open spec fn wait(self) -> Flow<StatusShape, TalkShape> {
        if self.replies.len() > 0 {
            match self.replies[0] {
                ReplyShape::Status(Ok(status)) => Flow::Done(status, self.next(CallShape::Wait)),
                ReplyShape::Status(Err(e)) => Flow::Fail(e, self.next(CallShape::Wait)),
                _ => Flow::Ask(CallShape::Wait, self),
            }
        } else {
            Flow::Ask(CallShape::Wait, self)
        }
    }

    /// Asking for what is known of a signal.
    pub open spec fn signal_info(self) -> Flow<SignalInfo, TalkShape> {
        if self.replies.len() > 0 {
            match self.replies[0] {
                ReplyShape::Signal(Ok(info)) => Flow::Done(info, self.next(CallShape::SignalInfo)),
                ReplyShape::Signal(Err(e)) => Flow::Fail(e, self.next(CallShape::SignalInfo)),
                _ => Flow::Ask(CallShape::SignalInfo, self),
            }
        } else {
            Flow::Ask(CallShape::SignalInfo, self)
        }
    }

    /// Asking for the text of a file by a call.
    pub open spec fn file(self, call: CallShape) -> Flow<Result<Seq<char>, Seq<char>>, TalkShape> {
        if self.replies.len() > 0 {
            match self.replies[0] {
                ReplyShape::File(r) => Flow::Done(r, self.next(call)),
                _ => Flow::Ask(call, self),
            }
        } else {
            Flow::Ask(call, self)
        }
    }

    /// Asking whether a file is there.
    pub open spec fn path_exists(self, path: Seq<char>) -> Flow<bool, TalkShape> {
        if self.replies.len() > 0 {
            match self.replies[0] {
                ReplyShape::Exists(there) => Flow::Done(there, self.next(CallShape::PathExists(path))),
                _ => Flow::Ask(CallShape::PathExists(path), self),
            }
        } else {
            Flow::Ask(CallShape::PathExists(path), self)
        }
    }

    /// Asking for the working directory.
    pub open spec fn current_dir(self) -> Flow<Option<Seq<char>>, TalkShape> {
        if self.replies.len() > 0 {
            match self.replies[0] {
                ReplyShape::Dir(dir) => Flow::Done(dir, self.next(CallShape::CurrentDir)),
                _ => Flow::Ask(CallShape::CurrentDir, self),
            }
        } else {
            Flow::Ask(CallShape::CurrentDir, self)
        }
    }

    /// Asking for what the traced process has put out.
    pub open spec fn output(self) -> Flow<Seq<u8>, TalkShape> {
        if self.replies.len() > 0 {
            match self.replies[0] {
                ReplyShape::Output(Ok(bytes)) => Flow::Done(bytes, self.next(CallShape::ReadOutput)),
                ReplyShape::Output(Err(e)) => Flow::Fail(e, self.next(CallShape::ReadOutput)),
                _ => Flow::Ask(CallShape::ReadOutput, self),
            }
        } else {
            Flow::Ask(CallShape::ReadOutput, self)
        }
    }

    /// Asking a target to carry out a request.
    pub open spec fn target(self, request: RequestShape) -> Flow<AnswerShape, TalkShape> {
        if self.replies.len() > 0 {
            match self.replies[0] {
                ReplyShape::Target(answer) => if fits(request, answer) {
                    Flow::Done(answer, self.next(CallShape::Target(request)))
                } else {
                    Flow::Ask(CallShape::Target(request), self)
                },
                _ => Flow::Ask(CallShape::Target(request), self),
            }
        } else {
            Flow::Ask(CallShape::Target(request), self)
        }
    }
}

/// The text of a file, or the wording of an error.
#[derive(Debug)]
pub struct FileText {
    pub text: Result<String, String>,
}

impl DeepView for FileText {
    type V = Result<Seq<char>, Seq<char>>;

    open spec fn deep_view(&self) -> Result<Seq<char>, Seq<char>> {
        crate::dwarf::text_or_fault(self.text)
    }
}

impl Talk {
    /// A talk with the given replies in which nothing was printed.
    pub fn new(replies: Vec<Reply>) -> (r: Self)
        ensures
            r@ == talk_with(reply_shapes(replies@)),
    {
        let mut all: VecDeque<Reply> = VecDeque::new();
        let ghost given = replies@;
        for reply in it: replies
            invariant
                it.seq() == given,
                all@ == given.take(it.index() as int),
        {
            all.push_back(reply);
            assert(all@ =~= given.take(it.index() + 1));
        }
        assert(given.take(given.len() as int) =~= given);
        let r = Talk { replies: all, out: String::new(), heard: Ghost(Seq::empty()) };
        assert(r@ =~= talk_with(reply_shapes(given)));
        r
    }

    /// What was printed.
    pub fn output(&self) -> (r: &str)
        ensures
            r@ == self@.out,
    {
        self.out.as_str()
    }

    /// How many replies have not been used.
    pub fn unused(&self) -> (r: usize)
        ensures
            r == self@.replies.len(),
    {
        self.replies.len()
    }

    /// Prints a text.
    pub fn print(&mut self, text: &str)
        ensures
            final(self)@ == old(self)@.print(text@),
    {
        self.out.append(text);
    }

    /// Prints a line.
    pub fn say(&mut self, line: &str)
        ensures
            final(self)@ == old(self)@.say(line@),
    {
        self.out.append(line);
        self.out.append("\n");
    }

    /// Takes the first reply.
    fn take(&mut self) -> (r: Option<Reply>)
        ensures
            old(self)@.replies.len() == 0 ==> r is None && final(self)@ == old(self)@,
            old(self)@.replies.len() > 0 ==> (r matches Some(x) && x@ == old(self)@.replies[0]
                && final(self)@ == (TalkShape {
                replies: old(self)@.replies.drop_first(),
                ..old(self)@
            })),
    {
        let ghost before = self.replies@;
        let r = self.replies.pop_front();
        proof {
            if before.len() > 0 {
                assert(reply_shapes(self.replies@) =~= reply_shapes(before).drop_first());
            }
        }
        r
    }

    /// Puts a reply back that was taken.
    fn put_back(&mut self, reply: Reply)
        ensures
            final(self)@ == (TalkShape {
                replies: seq![reply@] + old(self)@.replies,
                ..old(self)@
            }),
    {
        let ghost before = self.replies@;
        self.replies.push_front(reply);
        assert(reply_shapes(self.replies@) =~= seq![reply@] + reply_shapes(before));
    }

    /// Asks for a packet by a call.
    pub fn packet(&mut self, call: Call) -> (r: Result<String, Pause>)
        ensures
            ran(r, final(self)@, old(self)@.packet(call@)),
    {
        let ghost used = old(self)@.heard.push((call@, old(self)@.replies[0]));
        match self.take() {
            Some(Reply::Packet(Ok(p))) => {
                self.heard = Ghost(used);
                Ok(p)
            },
            Some(Reply::Packet(Err(e))) => {
                self.heard = Ghost(used);
                Err(Pause::Fail(Fault::Target(e)))
            },
            Some(other) => {
                self.put_back(other);
                assert(self@ =~= old(self)@);
                Err(Pause::Ask(call))
            },
            None => Err(Pause::Ask(call)),
        }
    }

    /// Asks for the registers.
    pub fn registers(&mut self) -> (r: Result<UserRegs, Pause>)
        ensures
            ran(r, final(self)@, old(self)@.registers()),
    {
        let ghost used = old(self)@.heard.push((CallShape::Registers, old(self)@.replies[0]));
        match self.take() {
            Some(Reply::Registers(Ok(regs))) => {
                self.heard = Ghost(used);
                Ok(regs)
            },
            Some(Reply::Registers(Err(e))) => {
                self.heard = Ghost(used);
                Err(Pause::Fail(Fault::Sys(e)))
            },
            Some(other) => {
                self.put_back(other);
                assert(self@ =~= old(self)@);
                Err(Pause::Ask(Call::Registers))
            },
            None => Err(Pause::Ask(Call::Registers)),
        }
    }

    /// Asks for a word.
    pub fn peek(&mut self, addr: u64) -> (r: Result<i64, Pause>)
        ensures
            ran(r, final(self)@, old(self)@.peek(addr)),
    {
        let ghost used = old(self)@.heard.push((CallShape::Peek(addr), old(self)@.replies[0]));
        match self.take() {
            Some(Reply::Word(Ok(word))) => {
                self.heard = Ghost(used);
                Ok(word)
            },
            Some(Reply::Word(Err(e))) => {
                self.heard = Ghost(used);
                Err(Pause::Fail(Fault::Sys(e)))
            },
            Some(other) => {
                self.put_back(other);
                assert(self@ =~= old(self)@);
                Err(Pause::Ask(Call::Peek(addr)))
            },
            None => Err(Pause::Ask(Call::Peek(addr))),
        }
    }

    /// Asks for something to be done.
    pub fn order(&mut self, call: Call) -> (r: Result<(), Pause>)
        ensures
            ran(r, final(self)@, old(self)@.order(call@)),
    {
        let ghost used = old(self)@.heard.push((call@, old(self)@.replies[0]));
        match self.take() {
            Some(Reply::Done(Ok(_))) => {
                self.heard = Ghost(used);
                Ok(())
            },
            Some(Reply::Done(Err(e))) => {
                self.heard = Ghost(used);
                Err(Pause::Fail(Fault::Sys(e)))
            },
            Some(other) => {
                self.put_back(other);
                assert(self@ =~= old(self)@);
                Err(Pause::Ask(call))
            },
            None => Err(Pause::Ask(call)),
        }
    }

    /// Asks what the traced process did.
    pub fn wait(&mut self) -> (r: Result<WaitStatus, Pause>)
        ensures
            ran(r, final(self)@, old(self)@.wait()),
    {
        let ghost used = old(self)@.heard.push((CallShape::Wait, old(self)@.replies[0]));
        match self.take() {
            Some(Reply::Status(Ok(status))) => {
                self.heard = Ghost(used);
                Ok(status)
            },
            Some(Reply::Status(Err(e))) => {
                self.heard = Ghost(used);
                Err(Pause::Fail(Fault::Sys(e)))
            },
            Some(other) => {
                self.put_back(other);
                assert(self@ =~= old(self)@);
                Err(Pause::Ask(Call::Wait))
            },
            None => Err(Pause::Ask(Call::Wait)),
        }
    }

    /// Asks for what is known of a signal.
    pub fn signal_info(&mut self) -> (r: Result<SignalInfo, Pause>)
        ensures
            ran(r, final(self)@, old(self)@.signal_info()),
    {
        let ghost used = old(self)@.heard.push((CallShape::SignalInfo, old(self)@.replies[0]));
        match self.take() {
            Some(Reply::Signal(Ok(info))) => {
                self.heard = Ghost(used);
                Ok(info)
            },
            Some(Reply::Signal(Err(e))) => {
                self.heard = Ghost(used);
                Err(Pause::Fail(Fault::Sys(e)))
            },
            Some(other) => {
                self.put_back(other);
                assert(self@ =~= old(self)@);
                Err(Pause::Ask(Call::SignalInfo))
            },
            None => Err(Pause::Ask(Call::SignalInfo)),
        }
    }

    /// Asks for the text of a file by a call.
    pub fn file(&mut self, call: Call) -> (r: Result<FileText, Pause>)
        ensures
            ran(r, final(self)@, old(self)@.file(call@)),
    {
        let ghost used = old(self)@.heard.push((call@, old(self)@.replies[0]));
        match self.take() {
            Some(Reply::File(text)) => {
                self.heard = Ghost(used);
                Ok(FileText { text })
            },
            Some(other) => {
                self.put_back(other);
                assert(self@ =~= old(self)@);
                Err(Pause::Ask(call))
            },
            None => Err(Pause::Ask(call)),
        }
    }

    /// Asks whether a file is there.
    pub fn path_exists(&mut self, path: &str) -> (r: Result<bool, Pause>)
        ensures
            ran(r, final(self)@, old(self)@.path_exists(path@)),
    {
        let ghost used = old(self)@.heard.push((CallShape::PathExists(path@), old(self)@.replies[0]));
        match self.take() {
            Some(Reply::Exists(there)) => {
                self.heard = Ghost(used);
                Ok(there)
            },
            Some(other) => {
                self.put_back(other);
                assert(self@ =~= old(self)@);
                Err(Pause::Ask(Call::PathExists(path.to_owned())))
            },
            None => Err(Pause::Ask(Call::PathExists(path.to_owned()))),
        }
    }

    /// Asks for the working directory.
    pub fn current_dir(&mut self) -> (r: Result<Option<String>, Pause>)
        ensures
            ran(r, final(self)@, old(self)@.current_dir()),
    {
        let ghost used = old(self)@.heard.push((CallShape::CurrentDir, old(self)@.replies[0]));
        match self.take() {
            Some(Reply::Dir(dir)) => {
                self.heard = Ghost(used);
                Ok(dir)
            },
            Some(other) => {
                self.put_back(other);
                assert(self@ =~= old(self)@);
                Err(Pause::Ask(Call::CurrentDir))
            },
            None => Err(Pause::Ask(Call::CurrentDir)),
        }
    }

    /// Asks for what the traced process has put out.
    pub fn read_output(&mut self) -> (r: Result<Vec<u8>, Pause>)
        ensures
            ran(r, final(self)@, old(self)@.output()),
    {
        let ghost used = old(self)@.heard.push((CallShape::ReadOutput, old(self)@.replies[0]));
        match self.take() {
            Some(Reply::Output(Ok(bytes))) => {
                self.heard = Ghost(used);
                assert(bytes.deep_view() =~= bytes@);
                Ok(bytes)
            },
            Some(Reply::Output(Err(e))) => {
                self.heard = Ghost(used);
                Err(Pause::Fail(Fault::Sys(e)))
            },
            Some(other) => {
                self.put_back(other);
                assert(self@ =~= old(self)@);
                Err(Pause::Ask(Call::ReadOutput))
            },
            None => Err(Pause::Ask(Call::ReadOutput)),
        }
    }

    /// Asks a target to carry out a request.
    pub fn target(&mut self, request: Request) -> (r: Result<Answer, Pause>)
        ensures
            ran(r, final(self)@, old(self)@.target(request@)),
    {
        let ghost used = old(self)@.heard.push((CallShape::Target(request@), old(self)@.replies[0]));
        match self.take() {
            Some(Reply::Target(answer)) => {
                if fits_request(&request, &answer) {
                    self.heard = Ghost(used);
                    Ok(answer)
                } else {
                    self.put_back(Reply::Target(answer));
                    assert(self@ =~= old(self)@);
                    Err(Pause::Ask(Call::Target(request)))
                }
            },
            Some(other) => {
                self.put_back(other);
                assert(self@ =~= old(self)@);
                Err(Pause::Ask(Call::Target(request)))
            },
            None => Err(Pause::Ask(Call::Target(request))),
        }
    }
}

} // verus!
