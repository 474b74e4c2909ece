//! Whatever a frontend asks of a Cortex-M target and gets, the debugger and the stub agree on the
//! breakpoints afterwards.
use vstd::prelude::*;

use crate::dialogue::{CallShape, Flow};
use crate::elf_debug_info::{line_at, units_in_image};
use crate::number::hex_of;
use crate::request::{perform_of, AnswerShape, RequestShape};
use crate::source::{resolve_of, source_window_of};
use crate::target::{
    achieved, snapshot_of, snapshot_place, step_rounds, step_source_of, ProgressShape, StepShape,
    STEP_LIMIT,
};

use super::agreement::{
    agreed, lemma_clear_agrees, lemma_next_source_agrees, lemma_quiet_agrees, lemma_quiet_call,
    lemma_quiet_cont, lemma_quiet_flow, lemma_quiet_packet, lemma_quiet_pc, lemma_quiet_read,
    lemma_quiet_register, lemma_quiet_resolve, lemma_round_agrees, lemma_set_agrees,
    lemma_step_agrees, quiet, quiet_talk,
};
use super::backtrace::ARM_STACK_SCAN_BYTES;
use super::debugger::{ArmShape, RemoteArmDebugger};
use super::gdb_protocol::{hex_text_of, le_bytes_of};
use super::registers::core_index;
use super::target_impl::reset_halt_bytes;

verus! {

/// Reading the lines around a source line says nothing about breakpoints.
proof fn lemma_quiet_window(s: ArmShape, path: Seq<char>, line: u64, context: usize)
    ensures
        quiet_talk(s.talk, source_window_of(s.talk, s.program, path, line, context).state()),
{
    lemma_quiet_resolve(s.talk, s.program, path);
    if let Flow::Done(found, t) = resolve_of(s.talk, s.program, path) {
        lemma_quiet_call(t, CallShape::ReadFile(found));
        if let Flow::Done(_, t1) = t.file(CallShape::ReadFile(found)) {
            lemma_quiet_call(t1, CallShape::ReadFile(path));
        }
    }
}

/// Showing the source around the program counter changes nothing about breakpoints.
proof fn lemma_quiet_source_view(s: ArmShape, context_lines: usize)
    ensures
        quiet(s, s.current_source(context_lines).state()),
{
    lemma_quiet_pc(s);
    if let Flow::Done(pc, s1) = s.arm_pc() {
        if let Ok(Some((file, line))) = line_at(units_in_image(s1.image), pc) {
            lemma_quiet_window(s1, file, line, context_lines);
        }
    }
}

/// Collecting a backtrace changes nothing about breakpoints.
proof fn lemma_quiet_frames(s: ArmShape)
    ensures
        quiet(s, s.collect_backtrace().state()),
{
    lemma_quiet_pc(s);
    if let Flow::Done(_, s1) = s.arm_pc() {
        lemma_quiet_register(s1, 13);
        if let Flow::Done(sp, s2) = s1.arm_sp() {
            lemma_quiet_read(s2, sp, ARM_STACK_SCAN_BYTES);
        }
    }
}

/// Reading all registers changes nothing about breakpoints.
proof fn lemma_quiet_registers_read(s: ArmShape)
    ensures
        quiet(s, s.registers().state()),
{
    reveal_strlit("g");
    lemma_quiet_packet(s, "g"@);
}

/// Taking a snapshot changes nothing about breakpoints.
proof fn lemma_quiet_snapshot(s: ArmShape)
    ensures
        quiet(s, snapshot_of::<RemoteArmDebugger>(s).state()),
{
    lemma_quiet_pc(s);
    if let Flow::Done(pc, s1) = s.arm_pc().attempt() {
        let place = snapshot_place::<RemoteArmDebugger>(s1, achieved(pc));
        assert(place.state() == s1);
        lemma_quiet_source_view(s1, 6);
        if let Flow::Done(_, s2) = s1.current_source(6).attempt() {
            lemma_quiet_registers_read(s2);
            if let Flow::Done(_, s3) = s2.registers().attempt() {
                lemma_quiet_frames(s3);
            }
        }
    }
}

/// Going on with a step keeps the agreement.
proof fn lemma_steps_agree(s: ArmShape, step: StepShape, fuel: nat)
    requires
        agreed(s),
    ensures
        step_rounds::<RemoteArmDebugger>(s, step, fuel) matches Flow::Done(_, e) ==> agreed(e),
    decreases fuel,
{
    if fuel > 0 {
        lemma_round_agrees(s, step);
        if let Flow::Done(ProgressShape::Again(next), s1) = s.step_round(step) {
            lemma_steps_agree(s1, next, (fuel - 1) as nat);
        }
    }
}

/// Stepping to another source line keeps the agreement.
proof fn lemma_source_step_agrees(s: ArmShape)
    requires
        agreed(s),
    ensures
        step_source_of::<RemoteArmDebugger>(s) matches Flow::Done(_, e) ==> agreed(e),
{
    lemma_quiet_pc(s);
    if let Flow::Done(step, s1) = s.step_begin() {
        lemma_quiet_agrees(s, s1);
        lemma_steps_agree(s1, step, STEP_LIMIT as nat + 1);
    }
}

/// Asking for the initial state, letting the target run, interrupting it and resetting it change
/// nothing about breakpoints.
proof fn lemma_quiet_orders(s: ArmShape)
    ensures
        quiet(s, s.initial_stop().state()),
        quiet(s, s.continue_exec().state()),
        quiet(s, s.halt().state()),
        quiet(s, s.reset_halt().state()),
{
    reveal_strlit("qSupported");
    reveal_strlit("?");
    reveal_strlit("qRcmd,");
    assert("qSupported"@[0] == 'q' && "?"@[0] == '?' && "qRcmd,"@[0] == 'q');
    lemma_quiet_packet(s, "qSupported"@);
    if let Flow::Done(_, s1) = s.send_packet("qSupported"@) {
        lemma_quiet_packet(s1, "?"@);
    }
    lemma_quiet_cont(s);
    lemma_quiet_call(s.talk, CallShape::Interrupt);
    let packet = "qRcmd,"@ + hex_text_of(reset_halt_bytes());
    assert(packet[0] == 'q');
    lemma_quiet_packet(s, packet);
}

/// Writing a register or memory changes nothing about breakpoints.
proof fn lemma_quiet_writes(s: ArmShape, name: Seq<char>, value: u64, addr: u64, data: Seq<u8>)
    ensures
        quiet(s, s.write_register_by_name(name, value).state()),
        quiet(s, s.write_memory(addr, data).state()),
{
    reveal_strlit("P");
    reveal_strlit("M");
    if let Some(index) = core_index(name) {
        lemma_quiet_packet(
            s,
            "P"@ + hex_of(index as usize as nat) + "="@ + hex_text_of(le_bytes_of(value as u32)),
        );
    }
    lemma_quiet_packet(
        s,
        "M"@ + hex_of(addr as nat) + ","@ + hex_of(data.len()) + ":"@ + hex_text_of(data),
    );
}

/// A request has been met.
pub open spec fn met(answer: AnswerShape) -> bool {
    match answer {
        AnswerShape::Stop(r) => r is Ok,
        AnswerShape::Done(r) => r is Ok,
        AnswerShape::Bytes(r) => r is Ok,
        AnswerShape::Snapshot(r) => r is Ok,
        AnswerShape::Address(r) => r is Ok,
        AnswerShape::Registers(r) => r is Ok,
    }
}

/// Whatever a frontend asks for and gets, the debugger and the stub agree afterwards. A request
/// that fails leaves them in agreement too, unless it was for a step.
pub proof fn lemma_request_agrees(s: ArmShape, request: RequestShape)
    requires
        agreed(s),
    ensures
        perform_of::<RemoteArmDebugger>(s, request) matches Flow::Done(answer, e) ==> {
            let step = request is StepInstruction || request is StepSource || request
                is NextSource;
            met(answer) || !step ==> agreed(e)
        },
{
    match request {
        RequestShape::StepInstruction => lemma_step_agrees(s),
        RequestShape::StepSource => lemma_source_step_agrees(s),
        RequestShape::NextSource => lemma_next_source_agrees(s),
        RequestShape::SetBreakpoint(addr) => lemma_set_agrees(s, addr),
        RequestShape::ClearBreakpoint(addr) => lemma_clear_agrees(s, addr),
        _ => {
            lemma_quiet_request(s, request);
            lemma_quiet_flow(s, perform_of::<RemoteArmDebugger>(s, request));
        },
    }
}

/// A request that is neither for a step nor for a breakpoint changes nothing about breakpoints.
proof fn lemma_quiet_request(s: ArmShape, request: RequestShape)
    requires
        !(request is StepInstruction),
        !(request is StepSource),
        !(request is NextSource),
        !(request is SetBreakpoint),
        !(request is ClearBreakpoint),
    ensures
        quiet(s, perform_of::<RemoteArmDebugger>(s, request).state()),
{
    match request {
        RequestShape::Snapshot => lemma_quiet_snapshot(s),
        RequestShape::Registers => lemma_quiet_registers_read(s),
        RequestShape::WriteRegister(name, value) => lemma_quiet_writes(
            s,
            name,
            value,
            0,
            Seq::empty(),
        ),
        RequestShape::ReadMemory(addr, len) => lemma_quiet_read(s, addr, len),
        RequestShape::WriteMemory(addr, data) => lemma_quiet_writes(s, Seq::empty(), 0, addr, data),
        _ => lemma_quiet_orders(s),
    }
}

} // verus!
