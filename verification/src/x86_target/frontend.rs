//! Whatever a frontend asks of a local process, the tables of breakpoints stay in order.
use vstd::prelude::*;

use crate::dialogue::Flow;
use crate::request::{perform_of, RequestShape};
use crate::target::{
    achieved, snapshot_of, snapshot_place, step_rounds, step_source_of, ProgressShape,
    RegisterShape, StepShape, STEP_LIMIT,
};

use super::backtrace::MAX_BACKTRACE_FRAMES;
use super::debugger::{LinuxPtraceDebugger, PtraceShape};
use super::invariants::{
    in_order, keeps_order, leaves_tables, lemma_clear_at, lemma_continue_exec, lemma_follow_frames,
    lemma_looking, lemma_set_breakpoint, lemma_step_instruction, same_tables,
};
use super::registers::{register_at, register_name, Register, NUMBER_OF_REGISTERS};
use super::target_impl::{chunk_at, plus, word_bytes};

verus! {

/// Showing the source around the program counter leaves the tables as they are.
proof fn lemma_current_source(s: PtraceShape, context_lines: usize)
    ensures
        leaves_tables(s, s.current_source(context_lines)),
{
    lemma_looking(s, 0);
    if let Flow::Done(_, s1) = s.current_line() {
        assert(same_tables(s, s1));
    }
}

/// Reading registers leaves the tables as they are.
proof fn lemma_registers_from(s: PtraceShape, from: int, found: Seq<RegisterShape>)
    ensures
        leaves_tables(s, s.registers_from(from, found)),
    decreases NUMBER_OF_REGISTERS - from,
{
    if from < NUMBER_OF_REGISTERS {
        if let Flow::Done(value, s1) = s.get_register(register_at(from)) {
            let one = RegisterShape { name: register_name(register_at(from)), value };
            lemma_registers_from(s1, from + 1, found.push(one));
        }
    }
}

/// Reading memory leaves the tables as they are.
proof fn lemma_read_words(s: PtraceShape, addr: u64, len: nat, found: Seq<u8>)
    ensures
        leaves_tables(s, s.read_words(addr, len, found)),
    decreases
        if len > found.len() {
            len - found.len()
        } else {
            0
        },
{
    if found.len() < len {
        if let Flow::Done(word, s1) = s.peek(plus(addr, found.len() as int)) {
            lemma_read_words(s1, addr, len, found + word_bytes(word));
        }
    }
}

/// Writing memory leaves the tables as they are.
proof fn lemma_write_words(s: PtraceShape, addr: u64, data: Seq<u8>, at: nat)
    ensures
        leaves_tables(s, s.write_words(addr, data, at)),
    decreases
        if data.len() > at {
            data.len() - at
        } else {
            0
        },
{
    if at < data.len() {
        let chunk = chunk_at(data, at as int);
        assert(leaves_tables(s, s.write_word(plus(addr, at as int), chunk)));
        if let Flow::Done(_, s1) = s.write_word(plus(addr, at as int), chunk) {
            lemma_write_words(s1, addr, data, at + 8);
        }
    }
}

/// Reading output leaves the tables as they are.
proof fn lemma_read_output(s: PtraceShape, before: Seq<u8>)
    ensures
        leaves_tables(s, s.read_output(before)),
    decreases s.talk.replies.len(),
{
    if let Flow::Done(bytes, s1) = s.on_talk(s.talk.output()) {
        if bytes.len() > 0 && s1.talk.replies.len() < s.talk.replies.len() {
            lemma_read_output(s1, before + bytes);
        }
    }
}

/// Collecting a backtrace leaves the tables as they are.
proof fn lemma_collect_backtrace(s: PtraceShape)
    ensures
        leaves_tables(s, s.collect_backtrace()),
{
    if let Flow::Done(pc, s1) = s.get_pc() {
        if let Flow::Done(frame, s2) = s1.get_register(Register::Rbp) {
            assert(leaves_tables(s2, s2.frame(0, pc)));
            if let Flow::Done(first, s3) = s2.frame(0, pc) {
                lemma_follow_frames(s3, frame, 0, seq![first], (MAX_BACKTRACE_FRAMES - 1) as nat);
            }
        }
    }
}

/// Taking a snapshot leaves the tables as they are.
proof fn lemma_snapshot(s: PtraceShape)
    ensures
        leaves_tables(s, snapshot_of::<LinuxPtraceDebugger>(s)),
{
    if let Flow::Done(pc, s1) = s.get_pc().attempt() {
        assert(same_tables(s, s1));
        let place = snapshot_place::<LinuxPtraceDebugger>(s1, achieved(pc));
        assert(leaves_tables(s1, place));
        if let Flow::Done(_, s2) = place {
            lemma_current_source(s2, 6);
            if let Flow::Done(_, s3) = s2.current_source(6).attempt() {
                lemma_registers_from(s3, 0, Seq::empty());
                if let Flow::Done(_, s4) = s3.registers_from(0, Seq::empty()).attempt() {
                    lemma_collect_backtrace(s4);
                }
            }
        }
    }
}

/// Going on with a step keeps the tables in order, also where it fails.
proof fn lemma_step_rounds(s: PtraceShape, step: StepShape, fuel: nat)
    ensures
        keeps_order(s, s.step_rounds(step, fuel).state()),
        s.step_rounds(step, fuel) == step_rounds::<LinuxPtraceDebugger>(s, step, fuel),
    decreases fuel,
{
    if fuel > 0 {
        if in_order(s) {
            lemma_step_instruction(s);
        }
        if let Flow::Done(_, s1) = s.step_instruction() {
            lemma_current_source(s1, 0);
        }
        if let Flow::Done(ProgressShape::Again(next), s1) = s.step_round(step) {
            lemma_step_rounds(s1, next, (fuel - 1) as nat);
        }
    }
}

/// Stepping to another source line keeps the tables in order, also where it fails.
proof fn lemma_step_source(s: PtraceShape)
    ensures
        keeps_order(s, s.step_source().state()),
        s.step_source() == step_source_of::<LinuxPtraceDebugger>(s),
{
    lemma_current_source(s, 0);
    if let Flow::Done(step, s1) = s.step_begin() {
        lemma_step_rounds(s1, step, STEP_LIMIT as nat + 1);
    }
}

/// Whatever a frontend asks for, the tables stay in order.
pub proof fn lemma_request_keeps_order(s: PtraceShape, request: RequestShape)
    requires
        in_order(s),
    ensures
        in_order(perform_of::<LinuxPtraceDebugger>(s, request).state()),
{
    match request {
        RequestShape::Continue => lemma_continue_exec(s),
        RequestShape::StepInstruction => lemma_step_instruction(s),
        RequestShape::StepSource => lemma_step_source(s),
        RequestShape::NextSource => lemma_step_source(s),
        RequestShape::DrainOutput => lemma_read_output(s, Seq::empty()),
        RequestShape::Snapshot => lemma_snapshot(s),
        RequestShape::SetBreakpoint(addr) => lemma_set_breakpoint(s, addr),
        RequestShape::ClearBreakpoint(addr) => {
            if let Flow::Done(at, s1) = s.runtime_breakpoint_addr(addr) {
                assert(same_tables(s, s1));
                lemma_clear_at(s1, at);
            }
        },
        RequestShape::Registers => lemma_registers_from(s, 0, Seq::empty()),
        RequestShape::ReadMemory(addr, len) => lemma_read_words(
            s,
            addr,
            len as nat,
            Seq::empty(),
        ),
        RequestShape::WriteMemory(addr, data) => lemma_write_words(s, addr, data, 0),
        _ => {},
    }
}

} // verus!
