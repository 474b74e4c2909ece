//! How a step goes on round by round, what a request does, and what a snapshot shows.
use vstd::prelude::*;

use crate::dialogue::Flow;
use crate::request::{perform_of, AnswerShape, RequestShape};
use crate::target::{
    no_source, snapshot_of, step_source_of, DebugTarget, FrameShape, ProgressShape, RegisterShape,
    SourceText, StepShape, StopCause,
};

verus! {

/// Where a step is after so many rounds that all went on.
pub open spec fn after_steps<T: DebugTarget>(s: T::S, step: StepShape, n: nat) -> Option<
    (T::S, StepShape),
>
    decreases n,
{
    if n == 0 {
        Some((s, step))
    } else {
        match T::step_round_of(s, step) {
            Flow::Done(ProgressShape::Again(next), t) => after_steps::<T>(t, next, (n - 1) as nat),
            _ => None,
        }
    }
}

/// A step ends with a round after others that all went on.
pub open spec fn ends_after<T: DebugTarget>(
    s: T::S,
    step: StepShape,
    n: nat,
    reason: StopCause,
    e: T::S,
) -> bool {
    after_steps::<T>(s, step, n) matches Some((t, last)) && T::step_round_of(t, last) == Flow::<
        ProgressShape,
        T::S,
    >::Done(ProgressShape::Stopped(reason), e)
}

proof fn lemma_rounds<T: DebugTarget>(s: T::S, step: StepShape, fuel: nat) -> (n: nat)
    ensures
        crate::target::step_rounds::<T>(s, step, fuel) matches Flow::Done(reason, e) ==> n <= fuel
            && if n == fuel {
            after_steps::<T>(s, step, n) matches Some((t, _)) && t == e
        } else {
            ends_after::<T>(s, step, n, reason, e)
        },
    decreases fuel,
{
    if fuel == 0 {
        0
    } else {
        match T::step_round_of(s, step) {
            Flow::Done(ProgressShape::Again(next), t) => {
                let n = lemma_rounds::<T>(t, next, (fuel - 1) as nat);
                n + 1
            },
            _ => 0,
        }
    }
}

/// A step to another source line goes on round by round up to the first round that stops it, and
/// ends for the reason of that round; it gives up after 4097 rounds that all went on.
pub proof fn lemma_step_ends_with_round<T: DebugTarget>(s: T::S)
    ensures
        step_source_of::<T>(s) matches Flow::Done(reason, e) ==> {
            &&& T::step_begin_of(s) matches Flow::Done(step, s1)
            &&& {
                ||| exists|n: nat| n <= 4096 && #[trigger] ends_after::<T>(s1, step, n, reason, e)
                ||| after_steps::<T>(s1, step, 4097) matches Some((t, _)) && t == e
            }
        },
{
    if let Flow::Done(step, s1) = T::step_begin_of(s) {
        let n = lemma_rounds::<T>(s1, step, 4097);
        if let Flow::Done(reason, e) = step_source_of::<T>(s) {
            if n < 4097 {
                assert(ends_after::<T>(s1, step, n, reason, e));
            }
        }
    }
}

/// A request does to a target what it asks for, and its answer holds what came of that.
pub proof fn lemma_request_is_done<T: DebugTarget>(
    s: T::S,
    file: Seq<char>,
    line: u64,
    addr: u64,
    len: usize,
    data: Seq<u8>,
)
    ensures
        stops_as::<T>(s, RequestShape::Initialize, T::initialize_of(s)),
        stops_as::<T>(s, RequestShape::Continue, T::continue_of(s)),
        stops_as::<T>(s, RequestShape::StepInstruction, T::step_instruction_of(s)),
        stops_as::<T>(s, RequestShape::StepSource, step_source_of::<T>(s)),
        stops_as::<T>(s, RequestShape::NextSource, T::next_source_of(s)),
        stops_as::<T>(s, RequestShape::Halt, T::halt_of(s)),
        stops_as::<T>(s, RequestShape::Reset, T::reset_halt_of(s)),
        done_as::<T>(s, RequestShape::SetBreakpoint(addr), T::set_breakpoint_of(s, addr)),
        done_as::<T>(s, RequestShape::ClearBreakpoint(addr), T::clear_breakpoint_of(s, addr)),
        done_as::<T>(s, RequestShape::WriteRegister(file, addr), T::write_register_of(s, file, addr)),
        done_as::<T>(s, RequestShape::WriteMemory(addr, data), T::write_memory_of(s, addr, data)),
        gives_as::<T>(s, RequestShape::ReadMemory(addr, len), T::read_memory_of(s, addr, len)),
        gives_as::<T>(s, RequestShape::DrainOutput, T::drain_output_of(s)),
        T::source_breakpoint_of(s, file, line) matches Flow::Done(at, e) ==> perform_of::<T>(
            s,
            RequestShape::SourceAddress(file, line),
        ) == Flow::<AnswerShape, T::S>::Done(AnswerShape::Address(Ok(at)), e),
        T::registers_of(s) matches Flow::Done(all, e) ==> perform_of::<T>(s, RequestShape::Registers)
            == Flow::<AnswerShape, T::S>::Done(AnswerShape::Registers(Ok(all)), e),
        snapshot_of::<T>(s) matches Flow::Done(shown, e) ==> perform_of::<T>(
            s,
            RequestShape::Snapshot,
        ) == Flow::<AnswerShape, T::S>::Done(AnswerShape::Snapshot(Ok(shown)), e),
{
}

/// A request is answered with the reason for a stop.
pub open spec fn stops_as<T: DebugTarget>(
    s: T::S,
    request: RequestShape,
    flow: Flow<StopCause, T::S>,
) -> bool {
    match flow {
        Flow::Done(reason, e) => perform_of::<T>(s, request) == Flow::<AnswerShape, T::S>::Done(
            AnswerShape::Stop(Ok(reason)),
            e,
        ),
        Flow::Fail(fault, e) => perform_of::<T>(s, request) == Flow::<AnswerShape, T::S>::Done(
            AnswerShape::Stop(Err(fault.chain())),
            e,
        ),
        Flow::Ask(call, e) => perform_of::<T>(s, request) == Flow::<AnswerShape, T::S>::Ask(call, e),
    }
}

/// A request is answered with whether it was done.
pub open spec fn done_as<T: DebugTarget>(
    s: T::S,
    request: RequestShape,
    flow: Flow<(), T::S>,
) -> bool {
    match flow {
        Flow::Done(_, e) => perform_of::<T>(s, request) == Flow::<AnswerShape, T::S>::Done(
            AnswerShape::Done(Ok(())),
            e,
        ),
        Flow::Fail(fault, e) => perform_of::<T>(s, request) == Flow::<AnswerShape, T::S>::Done(
            AnswerShape::Done(Err(fault.chain())),
            e,
        ),
        Flow::Ask(call, e) => perform_of::<T>(s, request) == Flow::<AnswerShape, T::S>::Ask(call, e),
    }
}

/// A request is answered with bytes.
pub open spec fn gives_as<T: DebugTarget>(
    s: T::S,
    request: RequestShape,
    flow: Flow<Seq<u8>, T::S>,
) -> bool {
    match flow {
        Flow::Done(bytes, e) => perform_of::<T>(s, request) == Flow::<AnswerShape, T::S>::Done(
            AnswerShape::Bytes(Ok(bytes)),
            e,
        ),
        Flow::Fail(fault, e) => perform_of::<T>(s, request) == Flow::<AnswerShape, T::S>::Done(
            AnswerShape::Bytes(Err(fault.chain())),
            e,
        ),
        Flow::Ask(call, e) => perform_of::<T>(s, request) == Flow::<AnswerShape, T::S>::Ask(call, e),
    }
}

/// A flow has come to an end with a result or without one.
pub open spec fn came_to<A, S>(flow: Flow<A, S>, result: Option<A>, e: S) -> bool {
    match result {
        Some(a) => flow == Flow::<A, S>::Done(a, e),
        None => flow matches Flow::Fail(_, end) && end == e,
    }
}

/// A snapshot shows what each of its questions came to, asked one after the other, with six lines
/// of source on either side; what could not be found out is empty.
pub proof fn lemma_snapshot_shows<T: DebugTarget>(
    s: T::S,
    pc: Option<u64>,
    s1: T::S,
    place: Seq<char>,
    s2: T::S,
    source: Option<SourceText>,
    s3: T::S,
    registers: Option<Seq<RegisterShape>>,
    s4: T::S,
    frames: Option<Seq<FrameShape>>,
    e: T::S,
)
    requires
        came_to(T::pc_of(s), pc, s1),
        pc is Some ==> T::location_flow(s1, pc->Some_0) == Flow::<Seq<char>, T::S>::Done(place, s2),
        pc is None ==> s2 == s1,
        came_to(T::current_source_of(s2, 6), source, s3),
        came_to(T::registers_of(s3), registers, s4),
        came_to(T::backtrace_of(s4), frames, e),
    ensures
        snapshot_of::<T>(s) matches Flow::Done(shown, end) && {
            &&& end == e
            &&& shown.pc == pc
            &&& pc is Some ==> shown.location == place
            &&& shown.source == if source is Some {
                source->Some_0
            } else {
                no_source()
            }
            &&& registers is Some ==> shown.registers == registers->Some_0
            &&& registers is None ==> shown.registers.len() == 0
            &&& frames is Some ==> shown.backtrace == frames->Some_0
            &&& frames is None ==> shown.backtrace.len() == 0
            &&& shown.breakpoints == T::breakpoints_of(s4)
            &&& shown.name == T::name_of(e)
            &&& shown.architecture == T::architecture_of(e)
        },
{
}

} // verus!
