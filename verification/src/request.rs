//! What a frontend has a target do, as plain values.
use vstd::prelude::*;

use crate::dialogue::{attempted, ran, Fault, FaultShape, Flow, Pause};
use crate::target::{
    snapshot, snapshot_of, step_source, step_source_of, DebugTarget, RegisterShape, RegisterValue,
    SnapshotShape, StopCause, StopReason, TargetError, TargetSnapshot,
};

verus! {

/// Something that a target is to do.
#[derive(Clone, Debug)]
pub enum Request {
    Initialize,
    Continue,
    StepInstruction,
    StepSource,
    NextSource,
    Halt,
    Reset,
    DrainOutput,
    Snapshot,
    SourceAddress(String, u64),
    SetBreakpoint(u64),
    ClearBreakpoint(u64),
    Registers,
    WriteRegister(String, u64),
    ReadMemory(u64, usize),
    WriteMemory(u64, Vec<u8>),
}

/// What came of a request.
#[derive(Debug)]
pub enum Answer {
    Stop(Result<StopReason, TargetError>),
    Done(Result<(), TargetError>),
    Bytes(Result<Vec<u8>, TargetError>),
    Snapshot(Result<TargetSnapshot, TargetError>),
    Address(Result<Option<u64>, TargetError>),
    Registers(Result<Vec<RegisterValue>, TargetError>),
}

/// Something that a target is to do, as mathematical values.
pub enum RequestShape {
    Initialize,
    Continue,
    StepInstruction,
    StepSource,
    NextSource,
    Halt,
    Reset,
    DrainOutput,
    Snapshot,
    SourceAddress(Seq<char>, u64),
    SetBreakpoint(u64),
    ClearBreakpoint(u64),
    Registers,
    WriteRegister(Seq<char>, u64),
    ReadMemory(u64, usize),
    WriteMemory(u64, Seq<u8>),
}

/// What came of a request, as mathematical values.
pub enum AnswerShape {
    Stop(Result<StopCause, Seq<Seq<char>>>),
    Done(Result<(), Seq<Seq<char>>>),
    Bytes(Result<Seq<u8>, Seq<Seq<char>>>),
    Snapshot(Result<SnapshotShape, Seq<Seq<char>>>),
    Address(Result<Option<u64>, Seq<Seq<char>>>),
    Registers(Result<Seq<RegisterShape>, Seq<Seq<char>>>),
}

impl View for Request {
    type V = RequestShape;

    open spec fn view(&self) -> RequestShape {
        match self {
            Request::Initialize => RequestShape::Initialize,
            Request::Continue => RequestShape::Continue,
            Request::StepInstruction => RequestShape::StepInstruction,
            Request::StepSource => RequestShape::StepSource,
            Request::NextSource => RequestShape::NextSource,
            Request::Halt => RequestShape::Halt,
            Request::Reset => RequestShape::Reset,
            Request::DrainOutput => RequestShape::DrainOutput,
            Request::Snapshot => RequestShape::Snapshot,
            Request::SourceAddress(file, line) => RequestShape::SourceAddress(file@, *line),
            Request::SetBreakpoint(addr) => RequestShape::SetBreakpoint(*addr),
            Request::ClearBreakpoint(addr) => RequestShape::ClearBreakpoint(*addr),
            Request::Registers => RequestShape::Registers,
            Request::WriteRegister(name, value) => RequestShape::WriteRegister(name@, *value),
            Request::ReadMemory(addr, len) => RequestShape::ReadMemory(*addr, *len),
            Request::WriteMemory(addr, data) => RequestShape::WriteMemory(*addr, data@),
        }
    }
}

/// A result and its errors as mathematical values.
pub open spec fn result_shape<T: DeepView>(r: Result<T, TargetError>) -> Result<
    T::V,
    Seq<Seq<char>>,
> {
    match r {
        Ok(x) => Ok(x.deep_view()),
        Err(e) => Err(e@),
    }
}

impl View for Answer {
    type V = AnswerShape;

    open spec fn view(&self) -> AnswerShape {
        match self {
            Answer::Stop(r) => AnswerShape::Stop(result_shape(*r)),
            Answer::Done(r) => AnswerShape::Done(result_shape(*r)),
            Answer::Bytes(r) => AnswerShape::Bytes(result_shape(*r)),
            Answer::Snapshot(r) => AnswerShape::Snapshot(result_shape(*r)),
            Answer::Address(r) => AnswerShape::Address(result_shape(*r)),
            Answer::Registers(r) => AnswerShape::Registers(result_shape(*r)),
        }
    }
}

impl Clone for Answer {
    fn clone(&self) -> (r: Self)
        ensures
            r@ == self@,
    {
        match self {
            Answer::Stop(Ok(reason)) => Answer::Stop(Ok(reason.clone())),
            Answer::Stop(Err(e)) => Answer::Stop(Err(e.clone())),
            Answer::Done(Ok(_)) => Answer::Done(Ok(())),
            Answer::Done(Err(e)) => Answer::Done(Err(e.clone())),
            Answer::Bytes(Ok(bytes)) => {
                let copy = bytes.clone();
                assert(copy.deep_view() =~= bytes.deep_view());
                Answer::Bytes(Ok(copy))
            },
            Answer::Bytes(Err(e)) => Answer::Bytes(Err(e.clone())),
            Answer::Snapshot(Ok(snapshot)) => Answer::Snapshot(Ok(snapshot.clone())),
            Answer::Snapshot(Err(e)) => Answer::Snapshot(Err(e.clone())),
            Answer::Address(Ok(addr)) => Answer::Address(Ok(*addr)),
            Answer::Address(Err(e)) => Answer::Address(Err(e.clone())),
            Answer::Registers(Ok(registers)) => {
                let copy = registers.clone();
                assert(copy.deep_view() =~= registers.deep_view());
                Answer::Registers(Ok(copy))
            },
            Answer::Registers(Err(e)) => Answer::Registers(Err(e.clone())),
        }
    }
}

impl DeepView for Answer {
    type V = AnswerShape;

    open spec fn deep_view(&self) -> AnswerShape {
        self@
    }
}

/// An answer is of the form that a request has.
pub open spec fn fits(request: RequestShape, answer: AnswerShape) -> bool {
    match request {
        RequestShape::Initialize => answer is Stop,
        RequestShape::Continue => answer is Stop,
        RequestShape::StepInstruction => answer is Stop,
        RequestShape::StepSource => answer is Stop,
        RequestShape::NextSource => answer is Stop,
        RequestShape::Halt => answer is Stop,
        RequestShape::Reset => answer is Stop,
        RequestShape::DrainOutput => answer is Bytes,
        RequestShape::Snapshot => answer is Snapshot,
        RequestShape::SourceAddress(_, _) => answer is Address,
        RequestShape::SetBreakpoint(_) => answer is Done,
        RequestShape::ClearBreakpoint(_) => answer is Done,
        RequestShape::Registers => answer is Registers,
        RequestShape::WriteRegister(_, _) => answer is Done,
        RequestShape::ReadMemory(_, _) => answer is Bytes,
        RequestShape::WriteMemory(_, _) => answer is Done,
    }
}

/// Whether an answer is of the form that a request has.
pub fn fits_request(request: &Request, answer: &Answer) -> (r: bool)
    ensures
        r == fits(request@, answer@),
{
    match request {
        Request::DrainOutput => matches!(answer, Answer::Bytes(_)),
        Request::Snapshot => matches!(answer, Answer::Snapshot(_)),
        Request::SourceAddress(_, _) => matches!(answer, Answer::Address(_)),
        Request::SetBreakpoint(_) => matches!(answer, Answer::Done(_)),
        Request::ClearBreakpoint(_) => matches!(answer, Answer::Done(_)),
        Request::Registers => matches!(answer, Answer::Registers(_)),
        Request::WriteRegister(_, _) => matches!(answer, Answer::Done(_)),
        Request::ReadMemory(_, _) => matches!(answer, Answer::Bytes(_)),
        Request::WriteMemory(_, _) => matches!(answer, Answer::Done(_)),
        _ => matches!(answer, Answer::Stop(_)),
    }
}

/// A result with the messages of a failure.
pub open spec fn told<A>(r: Result<A, FaultShape>) -> Result<A, Seq<Seq<char>>> {
    match r {
        Ok(a) => Ok(a),
        Err(e) => Err(e.chain()),
    }
}

/// A result with the messages of a failure.
fn tell<T: DeepView>(r: Result<T, Fault>) -> (out: Result<T, TargetError>)
    ensures
        match r {
            Ok(x) => out == Ok::<T, TargetError>(x),
            Err(e) => out matches Err(t) && t@ == e@.chain(),
        },
{
    match r {
        Ok(x) => Ok(x),
        Err(e) => Err(e.into_error()),
    }
}

/// A flow that stops the program as an answer.
pub open spec fn stop_answer<S>(flow: Flow<StopCause, S>) -> Flow<AnswerShape, S> {
    flow.attempt().bind(
        |r: Result<StopCause, FaultShape>, s: S| Flow::Done(AnswerShape::Stop(told(r)), s),
    )
}

/// A flow without a result as an answer.
pub open spec fn done_answer<S>(flow: Flow<(), S>) -> Flow<AnswerShape, S> {
    flow.attempt().bind(
        |r: Result<(), FaultShape>, s: S| Flow::Done(AnswerShape::Done(told(r)), s),
    )
}

/// A flow that gives bytes as an answer.
pub open spec fn bytes_answer<S>(flow: Flow<Seq<u8>, S>) -> Flow<AnswerShape, S> {
    flow.attempt().bind(
        |r: Result<Seq<u8>, FaultShape>, s: S| Flow::Done(AnswerShape::Bytes(told(r)), s),
    )
}

/// Carrying out a request: a failure is part of the answer.
pub open spec fn perform_of<T: DebugTarget>(s: T::S, request: RequestShape) -> Flow<
    AnswerShape,
    T::S,
> {
    match request {
        RequestShape::Initialize => stop_answer(T::initialize_of(s)),
        RequestShape::Continue => stop_answer(T::continue_of(s)),
        RequestShape::StepInstruction => stop_answer(T::step_instruction_of(s)),
        RequestShape::StepSource => stop_answer(step_source_of::<T>(s)),
        RequestShape::NextSource => stop_answer(T::next_source_of(s)),
        RequestShape::Halt => stop_answer(T::halt_of(s)),
        RequestShape::Reset => stop_answer(T::reset_halt_of(s)),
        RequestShape::DrainOutput => bytes_answer(T::drain_output_of(s)),
        RequestShape::Snapshot => snapshot_of::<T>(s).attempt().bind(
            |r: Result<SnapshotShape, FaultShape>, s: T::S|
                Flow::Done(AnswerShape::Snapshot(told(r)), s),
        ),
        RequestShape::SourceAddress(file, line) => T::source_breakpoint_of(
            s,
            file,
            line,
        ).attempt().bind(
            |r: Result<Option<u64>, FaultShape>, s: T::S|
                Flow::Done(AnswerShape::Address(told(r)), s),
        ),
        RequestShape::SetBreakpoint(addr) => done_answer(T::set_breakpoint_of(s, addr)),
        RequestShape::ClearBreakpoint(addr) => done_answer(T::clear_breakpoint_of(s, addr)),
        RequestShape::Registers => T::registers_of(s).attempt().bind(
            |r: Result<Seq<RegisterShape>, FaultShape>, s: T::S|
                Flow::Done(AnswerShape::Registers(told(r)), s),
        ),
        RequestShape::WriteRegister(name, value) => done_answer(
            T::write_register_of(s, name, value),
        ),
        RequestShape::ReadMemory(addr, len) => bytes_answer(T::read_memory_of(s, addr, len)),
        RequestShape::WriteMemory(addr, data) => done_answer(T::write_memory_of(s, addr, data)),
    }
}

/// Carries out a request; a failure is part of the answer.
pub fn perform<T: DebugTarget>(target: &mut T, request: &Request) -> (r: Result<Answer, Pause>)
    ensures
        ran(r, final(target).shape(), perform_of::<T>(old(target).shape(), request@)),
{
    match request {
        Request::Initialize => Ok(Answer::Stop(tell(attempted(target.initialize())?))),
        Request::Continue => Ok(Answer::Stop(tell(attempted(target.continue_exec())?))),
        Request::StepInstruction => Ok(Answer::Stop(tell(attempted(target.step_instruction())?))),
        Request::StepSource => Ok(Answer::Stop(tell(attempted(step_source(target))?))),
        Request::NextSource => Ok(Answer::Stop(tell(attempted(target.next_source())?))),
        Request::Halt => Ok(Answer::Stop(tell(attempted(target.halt())?))),
        Request::Reset => Ok(Answer::Stop(tell(attempted(target.reset_halt())?))),
        Request::DrainOutput => Ok(Answer::Bytes(tell(attempted(target.drain_output())?))),
        Request::Snapshot => Ok(Answer::Snapshot(tell(attempted(snapshot(target))?))),
        Request::SourceAddress(file, line) => Ok(
            Answer::Address(
                tell(attempted(target.breakpoint_addr_for_source(file.as_str(), *line))?),
            ),
        ),
        Request::SetBreakpoint(addr) => Ok(
            Answer::Done(tell(attempted(target.set_breakpoint(*addr))?)),
        ),
        Request::ClearBreakpoint(addr) => Ok(
            Answer::Done(tell(attempted(target.clear_breakpoint(*addr))?)),
        ),
        Request::Registers => Ok(Answer::Registers(tell(attempted(target.registers())?))),
        Request::WriteRegister(name, value) => Ok(
            Answer::Done(tell(attempted(target.write_register_by_name(name.as_str(), *value))?)),
        ),
        Request::ReadMemory(addr, len) => Ok(
            Answer::Bytes(tell(attempted(target.read_memory(*addr, *len))?)),
        ),
        Request::WriteMemory(addr, data) => Ok(
            Answer::Done(tell(attempted(target.write_memory(*addr, data.as_slice()))?)),
        ),
    }
}

/// Carrying out a request never fails, and what it gives is of the form that the request has.
pub proof fn lemma_perform_fits<T: DebugTarget>(s: T::S, request: RequestShape)
    ensures
        !(perform_of::<T>(s, request) is Fail),
        perform_of::<T>(s, request) matches Flow::Done(answer, _) ==> fits(request, answer),
{
}

} // verus!
