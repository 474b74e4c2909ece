//! What the operations of the debugger for a local process keep true.
use vstd::prelude::*;

use crate::dialogue::{CallShape, Flow, ReplyShape, StateShape, TalkShape};
use crate::elf_debug_info::{function_ranges_at, known, units_in_image};
use crate::list::{lemma_different, without};
use crate::target::FrameShape;
use crate::text::either;
use crate::words::words_of;

use super::backtrace::MAX_BACKTRACE_FRAMES;
use super::breakpoint::{
    bp_at, different_addrs, lemma_low_byte, lemma_table, with_bp, with_low_byte, without_bp,
    Breakpoint, Changed, BREAKPOINT_OPCODE,
};
use super::command_handler::{next_word, register_line, SEEK_LIMIT, STEP_IN_LIMIT, STEP_OUT_LIMIT};
use super::debugger::PtraceShape;
use super::registers::{register_at, Register, NUMBER_OF_REGISTERS};
use super::signal_handler::{one_back, up_to};

verus! {

/// The tables are in order: no address has two breakpoints, and no breakpoint is listed twice as
/// one for one time.
pub open spec fn in_order(s: PtraceShape) -> bool {
    different_addrs(s.breakpoints) && s.temps.no_duplicates()
}

/// Each breakpoint for one time is a breakpoint.
pub open spec fn temps_backed(s: PtraceShape) -> bool {
    forall|addr: u64| s.temps.contains(addr) ==> #[trigger] bp_at(s.breakpoints, addr) is Some
}

/// The tables and the kind of session are the same in two states.
pub open spec fn same_tables(a: PtraceShape, b: PtraceShape) -> bool {
    a.breakpoints == b.breakpoints && a.temps == b.temps && a.plain == b.plain
}

/// A flow leaves the tables and the kind of session as they are.
pub open spec fn leaves_tables<A>(s: PtraceShape, flow: Flow<A, PtraceShape>) -> bool {
    same_tables(s, flow.state())
}

// ---------------------------------------------------------------------------
// Memory

/// Taking a breakpoint out writes the word back that was there before it was put in, provided
/// that the word is still the one that putting it in has written.
pub proof fn lemma_enable_disable(bp: Breakpoint, t: TalkShape, word: i64, on: Breakpoint, t1: TalkShape)
    requires
        t.replies.len() > 0,
        t.replies[0] == ReplyShape::Word(Ok(word)),
        bp.enable_of(t) == Changed::Done(on, t1),
        t1.replies.len() > 1,
        t1.replies[0] == ReplyShape::Word(Ok(with_low_byte(word, BREAKPOINT_OPCODE))),
        t1.replies[1] == ReplyShape::Done(Ok(())),
    ensures
        on.enabled_status,
        on.addr == bp.addr,
        t1.heard.last().0 == CallShape::Poke(bp.addr, with_low_byte(word, BREAKPOINT_OPCODE)),
        on.disable_of(t1) matches Changed::Done(off, t2) && {
            &&& off.addr == bp.addr
            &&& !off.enabled_status
            &&& t2.heard.last().0 == CallShape::Poke(bp.addr, word)
        },
{
    lemma_low_byte(word, BREAKPOINT_OPCODE);
    assert(t1.replies.drop_first()[0] == t1.replies[1]);
}

// ---------------------------------------------------------------------------
// Tables

/// A change of a breakpoint that is in the table keeps the tables in order and the same
/// addresses in them.
proof fn lemma_on_table(s: PtraceShape, bp: Breakpoint, c: Changed)
    requires
        in_order(s),
        bp_at(s.breakpoints, bp.addr) is Some,
        c == bp.enable_of(s.talk) || c == bp.disable_of(s.talk),
    ensures
        in_order(s.on_table(c).state()),
        temps_backed(s) ==> temps_backed(s.on_table(c).state()),
        s.on_table(c).state().plain == s.plain,
        s.on_table(c).state().temps == s.temps,
        bp_at(s.on_table(c).state().breakpoints, bp.addr) is Some,
{
    let e = s.on_table(c).state();
    let b = match c {
        Changed::Ask(_, b, _) => b,
        Changed::Fail(_, b, _) => b,
        Changed::Done(b, _) => b,
    };
    assert(b.addr == bp.addr);
    assert(e.breakpoints == with_bp(s.breakpoints, b));
    lemma_table(s.breakpoints, b, bp.addr);
    assert forall|addr: u64| temps_backed(s) && e.temps.contains(addr) implies #[trigger] bp_at(
        e.breakpoints,
        addr,
    ) is Some by {
        lemma_table(s.breakpoints, b, addr);
        assert(bp_at(s.breakpoints, addr) is Some);
    }
}

/// The breakpoint found at an address has that address.
proof fn lemma_bp_at(table: Seq<Breakpoint>, addr: u64)
    ensures
        bp_at(table, addr) matches Some(bp) ==> bp.addr == addr,
    decreases table.len(),
{
    if table.len() > 0 {
        lemma_bp_at(table.drop_first(), addr);
    }
}

/// Putting a new breakpoint in keeps the tables in order, also where it fails.
pub proof fn lemma_insert_new(s: PtraceShape, addr: u64)
    requires
        in_order(s),
    ensures
        in_order(s.insert_new(addr).state()),
        temps_backed(s) ==> temps_backed(s.insert_new(addr).state()),
        s.insert_new(addr).state().plain == s.plain,
        s.insert_new(addr).state().temps == s.temps,
        s.insert_new(addr) matches Flow::Done(_, e) ==> bp_at(e.breakpoints, addr) is Some,
{
    let bp = Breakpoint { addr, enabled_status: false, saved_data: 0 };
    if let Changed::Done(b, _) = bp.enable_of(s.talk) {
        let e = s.insert_new(addr).state();
        lemma_table(s.breakpoints, b, addr);
        assert forall|other: u64| temps_backed(s) && e.temps.contains(other) implies #[trigger] bp_at(
            e.breakpoints,
            other,
        ) is Some by {
            lemma_table(s.breakpoints, b, other);
            assert(bp_at(s.breakpoints, other) is Some);
        }
    }
}

/// Setting a breakpoint for one time keeps the tables in order, also where it fails.
pub proof fn lemma_set_temp(s: PtraceShape, addr: u64)
    requires
        in_order(s),
    ensures
        in_order(s.set_temp(addr).state()),
        temps_backed(s) ==> temps_backed(s.set_temp(addr).state()),
        s.set_temp(addr).state().plain == s.plain,
{
    if bp_at(s.breakpoints, addr) is None {
        if let Flow::Done(code, s1) = s.is_code(addr, false) {
            assert(in_order(s1));
            if code {
                lemma_insert_new(s1, addr);
                lemma_different(s1.temps, addr);
                if let Flow::Done(_, s2) = s1.insert_new(addr) {
                    let e = s.set_temp(addr).state();
                    assert forall|other: u64| temps_backed(s) && e.temps.contains(other) implies
                        #[trigger] bp_at(e.breakpoints, other) is Some by {
                        if other != addr {
                            assert(s1.temps.contains(other));
                            assert(temps_backed(s1));
                        }
                    }
                }
            }
        }
    }
}

/// Taking out a breakpoint for one time keeps the tables in order, also where it fails; it is
/// then in neither of them.
pub proof fn lemma_cleanup_temp(s: PtraceShape, addr: u64)
    requires
        in_order(s),
    ensures
        in_order(s.cleanup_temp(addr).state()),
        temps_backed(s) ==> temps_backed(s.cleanup_temp(addr).state()),
        s.cleanup_temp(addr).state().plain == s.plain,
        !(s.cleanup_temp(addr) is Ask) ==> !s.cleanup_temp(addr).state().temps.contains(addr),
        s.temps.contains(addr) ==> (s.cleanup_temp(addr) matches Flow::Done(_, e) ==> bp_at(
            e.breakpoints,
            addr,
        ) is None),
{
    if s.temps.contains(addr) {
        lemma_different(s.temps, addr);
        let s1 = PtraceShape { temps: without(s.temps, addr), ..s };
        assert(temps_backed(s) ==> temps_backed(s1)) by {
            assert forall|other: u64| temps_backed(s) && s1.temps.contains(other) implies
                #[trigger] bp_at(s1.breakpoints, other) is Some by {
                assert(other != addr);
                assert(s.temps.contains(other));
            }
        }
        lemma_bp_at(s1.breakpoints, addr);
        if let Some(bp) = bp_at(s1.breakpoints, addr) {
            if bp.enabled_status {
                lemma_on_table(s1, bp, bp.disable_of(s1.talk));
                if let Flow::Done(_, s2) = s1.on_table(bp.disable_of(s1.talk)) {
                    lemma_dropped(s2, addr);
                }
            } else {
                lemma_dropped(s1, addr);
            }
        } else {
            lemma_dropped(s1, addr);
        }
    }
}

/// Dropping a breakpoint that is not for one time keeps the tables in order.
proof fn lemma_dropped(s: PtraceShape, addr: u64)
    requires
        in_order(s),
        !s.temps.contains(addr),
    ensures
        ({
            let e = PtraceShape { breakpoints: without_bp(s.breakpoints, addr), ..s };
            &&& in_order(e)
            &&& temps_backed(s) ==> temps_backed(e)
            &&& bp_at(e.breakpoints, addr) is None
        }),
{
    let any = Breakpoint { addr, enabled_status: false, saved_data: 0 };
    let e = PtraceShape { breakpoints: without_bp(s.breakpoints, addr), ..s };
    lemma_table(s.breakpoints, any, addr);
    assert forall|other: u64| temps_backed(s) && e.temps.contains(other) implies #[trigger] bp_at(
        e.breakpoints,
        other,
    ) is Some by {
        lemma_table(s.breakpoints, any, other);
        assert(bp_at(s.breakpoints, other) is Some);
    }
}

/// Taking out breakpoints for one time keeps the tables in order, also where it fails.
pub proof fn lemma_cleanup_temps(s: PtraceShape, addrs: Seq<u64>)
    requires
        in_order(s),
    ensures
        in_order(s.cleanup_temps(addrs).state()),
        temps_backed(s) ==> temps_backed(s.cleanup_temps(addrs).state()),
        s.cleanup_temps(addrs).state().plain == s.plain,
    decreases addrs.len(),
{
    if addrs.len() > 0 {
        lemma_cleanup_temp(s, addrs[0]);
        if let Flow::Done(_, s1) = s.cleanup_temp(addrs[0]) {
            lemma_cleanup_temps(s1, addrs.drop_first());
        }
    }
}

/// Passing a breakpoint keeps the tables in order, also where it fails.
pub proof fn lemma_stepover(s: PtraceShape)
    requires
        in_order(s),
    ensures
        in_order(s.stepover_breakpoint().state()),
        temps_backed(s) ==> temps_backed(s.stepover_breakpoint().state()),
        s.stepover_breakpoint().state().plain == s.plain,
{
    if let Flow::Done(pc, s1) = s.get_pc() {
        let addr = super::debugger::before(pc);
        lemma_bp_at(s1.breakpoints, addr);
        assert(temps_backed(s) ==> temps_backed(s1));
        if let Some(bp) = bp_at(s1.breakpoints, addr) {
            if bp.enabled_status {
                lemma_on_table(s1, bp, bp.disable_of(s1.talk));
                if let Flow::Done(_, s2) = s1.on_table(bp.disable_of(s1.talk)) {
                    lemma_execute_at(s2, addr);
                }
            }
        }
    }
}

/// Executing an instruction under a breakpoint keeps the tables in order.
proof fn lemma_execute_at(s: PtraceShape, addr: u64)
    requires
        in_order(s),
    ensures
        in_order(s.execute_at(addr).state()),
        temps_backed(s) ==> temps_backed(s.execute_at(addr).state()),
        s.execute_at(addr).state().plain == s.plain,
{
    if let Flow::Done(_, s1) = s.set_register(Register::Rip, addr) {
        if let Flow::Done(_, s2) = s1.order(CallShape::Step) {
            if let Flow::Done(_, s3) = s2.wait() {
                assert(same_tables(s, s3));
                assert(temps_backed(s) ==> temps_backed(s3));
                lemma_bp_at(s3.breakpoints, addr);
                if let Some(bp) = bp_at(s3.breakpoints, addr) {
                    lemma_on_table(s3, bp, bp.enable_of(s3.talk));
                }
            }
        }
    }
}

/// Passing a breakpoint that was hit keeps the tables in order, also where it fails.
pub proof fn lemma_pass_if(s: PtraceShape, hit: bool, addr: u64)
    requires
        in_order(s),
    ensures
        in_order(s.pass_if(hit, addr).state()),
        temps_backed(s) ==> temps_backed(s.pass_if(hit, addr).state()),
        s.pass_if(hit, addr).state().plain == s.plain,
{
    if hit {
        lemma_stepover(s);
        if let Flow::Done(_, s1) = s.stepover_breakpoint() {
            lemma_cleanup_temp(s1, addr);
        }
    }
}

/// Clearing a breakpoint keeps the tables in order, also where it fails; where it succeeds, the
/// address is in neither of them.
pub proof fn lemma_clear_at(s: PtraceShape, at: u64)
    requires
        in_order(s),
    ensures
        in_order(s.clear_at(at).state()),
        s.clear_at(at) matches Flow::Done(_, e) ==> {
            &&& temps_backed(s) ==> temps_backed(e)
            &&& bp_at(e.breakpoints, at) is None
            &&& !e.temps.contains(at)
        },
{
    let any = Breakpoint { addr: at, enabled_status: false, saved_data: 0 };
    lemma_table(s.breakpoints, any, at);
    lemma_different(s.temps, at);
    if let Flow::Done(_, e) = s.clear_at(at) {
        assert forall|other: u64| temps_backed(s) && e.temps.contains(other) implies #[trigger] bp_at(
            e.breakpoints,
            other,
        ) is Some by {
            lemma_table(s.breakpoints, any, other);
            assert(other != at);
            assert(s.temps.contains(other));
            assert(bp_at(s.breakpoints, other) is Some);
        }
    }
}

/// Setting a breakpoint keeps the tables in order, also where it fails; where it succeeds, the
/// table has one at the address.
pub proof fn lemma_set_breakpoint(s: PtraceShape, addr: u64)
    requires
        in_order(s),
    ensures
        in_order(s.set_breakpoint(addr).state()),
        temps_backed(s) ==> temps_backed(s.set_breakpoint(addr).state()),
        s.set_breakpoint(addr).state().plain == s.plain,
        s.set_breakpoint(addr) matches Flow::Done(_, e) ==> {
            s.runtime_breakpoint_addr(addr) matches Flow::Done(at, _) && bp_at(
                e.breakpoints,
                at,
            ) is Some
        },
{
    if let Flow::Done(at, s1) = s.runtime_breakpoint_addr(addr) {
        assert(same_tables(s, s1));
        assert(temps_backed(s) ==> temps_backed(s1));
        if bp_at(s1.breakpoints, at) is None {
            lemma_insert_new(s1, at);
        }
    }
}

/// Taking note of what the process did keeps the tables in order, also where it fails.
pub proof fn lemma_target_status(s: PtraceShape, status: crate::dialogue::StatusShape)
    requires
        in_order(s),
    ensures
        in_order(s.target_status(status).state()),
        temps_backed(s) ==> temps_backed(s.target_status(status).state()),
        s.target_status(status).state().plain == s.plain,
{
    let s1 = PtraceShape { is_executing: false, ..s };
    assert(temps_backed(s) ==> temps_backed(s1));
    if let Flow::Done(pc, s2) = s1.get_pc() {
        assert(same_tables(s1, s2));
        assert(temps_backed(s1) ==> temps_backed(s2));
        let hit = bp_at(s2.breakpoints, one_back(pc)) is Some;
        lemma_pass_if(s2, hit, one_back(pc));
        if let Flow::Done(_, s3) = s2.pass_if(hit, one_back(pc)) {
            lemma_cleanup_temps(s3, up_to(s3.temps, pc));
        }
    }
}

/// Letting the process run until it stops keeps the tables in order, also where it fails.
pub proof fn lemma_continue_exec(s: PtraceShape)
    requires
        in_order(s),
    ensures
        in_order(s.continue_exec().state()),
        temps_backed(s) ==> temps_backed(s.continue_exec().state()),
        s.continue_exec().state().plain == s.plain,
{
    if !s.has_crashed {
        lemma_cleanup_temps(s, s.temps);
        if let Flow::Done(_, s1) = s.cleanup_temps(s.temps) {
            if let Flow::Done(_, s2) = s1.go() {
                assert(same_tables(s1, s2));
                if let Flow::Done(status, s3) = s2.wait() {
                    assert(same_tables(s1, s3));
                    assert(temps_backed(s1) ==> temps_backed(s3));
                    lemma_target_status(s3, status);
                }
            }
        }
    }
}

/// Executing one instruction keeps the tables in order, also where it fails.
pub proof fn lemma_step_instruction(s: PtraceShape)
    requires
        in_order(s),
    ensures
        in_order(s.step_instruction().state()),
        temps_backed(s) ==> temps_backed(s.step_instruction().state()),
        s.step_instruction().state().plain == s.plain,
{
    if !s.has_crashed {
        if let Flow::Done(_, s1) = s.order(CallShape::Step) {
            if let Flow::Done(status, s2) = s1.wait() {
                assert(same_tables(s, s2));
                assert(temps_backed(s) ==> temps_backed(s2));
                lemma_target_status(s2, status);
            }
        }
    }
}

// ---------------------------------------------------------------------------
// Commands

/// A step from one state to another keeps the tables in order, and the kind of session.
pub open spec fn keeps_order(s: PtraceShape, e: PtraceShape) -> bool {
    in_order(s) ==> in_order(e) && (temps_backed(s) ==> temps_backed(e)) && s.plain == e.plain
}

/// Looking at where the program is leaves the tables as they are.
pub(crate) proof fn lemma_looking(s: PtraceShape, pc: u64)
    ensures
        leaves_tables(s, s.current_line()),
        leaves_tables(s, s.print_location(pc)),
        leaves_tables(s, s.print_current_source()),
        leaves_tables(s, s.print_here()),
        leaves_tables(s, s.get_dwarf_pc()),
{
    lemma_shown_source(s);
    if let Flow::Done(at, t) = s.get_pc() {
        assert(leaves_tables(t, t.print_location(at)));
        if let Flow::Done(_, u) = t.print_location(at) {
            lemma_shown_source(u);
        }
    }
}

/// Showing a source line leaves the tables as they are.
proof fn lemma_shown_source(s: PtraceShape)
    ensures
        leaves_tables(s, s.current_line()),
        leaves_tables(s, s.print_current_source()),
{
    reveal(PtraceShape::print_source);
    if let Flow::Done(_, t) = s.current_line() {
        assert(same_tables(s, t));
    }
}

/// A stop at a breakpoint keeps the tables in order, also where it fails.
pub proof fn lemma_breakpoint_stop(s: PtraceShape)
    ensures
        keeps_order(s, s.breakpoint_stop().state()),
{
    if in_order(s) {
        if let Flow::Done(reported, s1) = s.get_pc() {
            let addr = one_back(reported);
            let hit = bp_at(s1.breakpoints, addr) is Some;
            let pc = if hit {
                addr
            } else {
                reported
            };
            let s2 = s1.say(super::debugger::text_and_hex("PC = 0x"@, pc));
            lemma_looking(s2, pc);
            if let Flow::Done(_, s3) = s2.print_location(pc) {
                lemma_looking(s3, pc);
                if let Flow::Done(_, s4) = s3.print_current_source() {
                    assert(same_tables(s, s4));
                    assert(keeps_order(s, s4));
                    lemma_pass_if(s4, hit, addr);
                    if let Flow::Done(_, s5) = s4.pass_if(hit, addr) {
                        lemma_cleanup_temps(s5, up_to(s5.temps, pc));
                    }
                }
            }
        }
    }
}

/// What is done about a running process before a prompt keeps the tables in order.
pub proof fn lemma_before_prompt(s: PtraceShape)
    ensures
        keeps_order(s, s.before_prompt().state()),
{
    if s.is_executing {
        if let Flow::Done(status, s1) = s.wait() {
            if let StateShape::Stopped(sig) = status.state {
                let s2 = s1.say("Stopped by "@ + sig);
                assert(same_tables(s, s2));
                if let Flow::Done(_, s3) = s2.on_talk(s2.talk.signal_info()) {
                    assert(same_tables(s, s3));
                    lemma_breakpoint_stop(s3);
                }
            }
        }
    }
}

/// Going on to code with debugging information leaves the tables as they are.
proof fn lemma_seek_rounds(s: PtraceShape, steps: nat)
    ensures
        leaves_tables(s, s.seek_rounds(steps)),
    decreases SEEK_LIMIT + 1 - steps,
{
    if let Flow::Done(_, s1) = s.step_and_wait() {
        assert(same_tables(s, s1));
        lemma_looking(s1, 0);
        if let Flow::Done(_, s2) = s1.current_line() {
            lemma_looking(s2, 0);
        }
    }
    assert(leaves_tables(s, s.seek_round(steps)));
    if let Flow::Done(more, s1) = s.seek_round(steps) {
        if more && steps <= SEEK_LIMIT {
            lemma_seek_rounds(s1, steps + 1);
        }
    }
}

/// Going on to another source line leaves the tables as they are.
proof fn lemma_line_rounds(s: PtraceShape, start: u64, steps: nat)
    ensures
        leaves_tables(s, s.line_rounds(start, steps)),
    decreases STEP_IN_LIMIT + 1 - steps,
{
    if let Flow::Done(_, s1) = s.step_and_wait() {
        assert(same_tables(s, s1));
        lemma_looking(s1, 0);
        if let Flow::Done(_, s2) = s1.current_line() {
            lemma_looking(s2, 0);
            lemma_looking(s2.say("Step limit reached"@), 0);
        }
    }
    assert(leaves_tables(s, s.line_round(start, steps)));
    if let Flow::Done(more, s1) = s.line_round(start, steps) {
        if more && steps <= STEP_IN_LIMIT {
            lemma_line_rounds(s1, start, steps + 1);
        }
    }
}

/// Stepping into calls leaves the tables as they are.
pub proof fn lemma_step_in(s: PtraceShape)
    ensures
        leaves_tables(s, s.step_in()),
{
    if !s.has_crashed {
        lemma_looking(s, 0);
        if let Flow::Done(line, s1) = s.current_line() {
            lemma_seek_rounds(s1, 0);
            if let Some((_, start)) = line {
                lemma_line_rounds(s1, start, 0);
            }
        }
    }
}

/// The end of a step out of a function leaves the tables as they are.
proof fn lemma_end_step_out(s: PtraceShape)
    ensures
        leaves_tables(s, s.end_step_out()),
{
    if let Flow::Done(pc, s1) = s.get_pc() {
        let s2 = s1.say(super::debugger::text_and_hex("PC = 0x"@, pc));
        lemma_looking(s2, pc);
        if let Flow::Done(_, s3) = s2.print_location(pc) {
            lemma_looking(s3, pc);
        }
    }
}

/// Deciding where a step has come to leaves the tables as they are.
proof fn lemma_out_decide(
    s: PtraceShape,
    func: Option<Seq<char>>,
    frame: u64,
    steps: nat,
    pc: u64,
    rbp: u64,
)
    ensures
        leaves_tables(s, s.out_decide(func, frame, steps, pc, rbp)),
{
    if let Flow::Done(ours, s1) = s.is_code(pc, true) {
        assert(same_tables(s, s1));
        if ours {
            if let Flow::Done(_, s2) = s1.get_dwarf_pc() {
                assert(same_tables(s, s2));
                lemma_end_step_out(s2);
                lemma_end_step_out(s2.say("Step limit reached while trying to exit function"@));
            }
        }
    }
}

/// Going on out of a function leaves the tables as they are.
proof fn lemma_out_rounds(s: PtraceShape, func: Option<Seq<char>>, frame: u64, steps: nat)
    ensures
        leaves_tables(s, s.out_rounds(func, frame, steps)),
    decreases STEP_OUT_LIMIT + 1 - steps,
{
    if let Flow::Done(_, s1) = s.step_and_wait() {
        assert(same_tables(s, s1));
        if let Flow::Done(pc, s2) = s1.get_pc() {
            if let Flow::Done(rbp, s3) = s2.get_register(Register::Rbp) {
                assert(same_tables(s, s3));
                lemma_out_decide(s3, func, frame, steps, pc, rbp);
            }
        }
    }
    assert(leaves_tables(s, s.out_round(func, frame, steps)));
    if let Flow::Done(more, s1) = s.out_round(func, frame, steps) {
        if more && steps <= STEP_OUT_LIMIT {
            lemma_out_rounds(s1, func, frame, steps + 1);
        }
    }
}

/// Stepping out of a function instruction by instruction leaves the tables as they are.
pub proof fn lemma_step_out_by_stepping(s: PtraceShape)
    ensures
        leaves_tables(s, s.step_out_by_stepping()),
{
    assert(leaves_tables(s, s.out_begin()));
    if let Flow::Done(start, s1) = s.out_begin() {
        lemma_out_rounds(s1, start.0, start.1, 0);
    }
}

/// Picking a return address leaves the tables as they are.
proof fn lemma_pick_own(s: PtraceShape, candidates: Seq<u64>)
    ensures
        leaves_tables(s, s.pick_own(candidates)),
    decreases candidates.len(),
{
    if candidates.len() > 0 {
        if let Flow::Done(ours, s1) = s.is_code(candidates[0], true) {
            assert(same_tables(s, s1));
            if !ours {
                lemma_pick_own(s1, candidates.drop_first());
            }
        }
    }
}

/// Finding the return address leaves the tables as they are.
proof fn lemma_return_address(s: PtraceShape)
    ensures
        leaves_tables(s, s.return_address()),
{
    assert(leaves_tables(s, s.candidates())) by {
        if let Flow::Done(rbp, s1) = s.get_register(Register::Rbp) {
            if let Flow::Done(rsp, s2) = s1.get_register(Register::Rsp) {
                assert(same_tables(s, s2));
                lemma_candidate(s2, rsp, Seq::empty());
                if let Flow::Done(found, s3) = s2.candidate(rsp, Seq::empty()) {
                    lemma_candidate(s3, next_word(rsp), found);
                    if let Flow::Done(found, s4) = s3.candidate(next_word(rsp), found) {
                        lemma_candidate(s4, next_word(rbp), found);
                    }
                }
            }
        }
    }
    if let Flow::Done(found, s1) = s.candidates() {
        lemma_pick_own(s1, found);
    }
}

/// Trying a return address leaves the tables as they are.
proof fn lemma_candidate(s: PtraceShape, addr: u64, found: Seq<u64>)
    ensures
        leaves_tables(s, s.candidate(addr, found)),
{
}

/// Running until the function returns keeps the tables in order, also where it fails.
pub proof fn lemma_step_out(s: PtraceShape)
    ensures
        keeps_order(s, s.step_out().state()),
{
    if in_order(s) && !s.has_crashed {
        lemma_cleanup_temps(s, s.temps);
        if let Flow::Done(_, s1) = s.cleanup_temps(s.temps) {
            lemma_return_address(s1);
            if let Flow::Done(addr, s2) = s1.return_address() {
                assert(keeps_order(s, s2));
                match addr {
                    Some(addr) => {
                        lemma_set_temp(s2, addr);
                        if let Flow::Done(_, s3) = s2.set_temp(addr) {
                            assert(leaves_tables(s3, s3.go()));
                        }
                    },
                    None => {
                        lemma_step_out_by_stepping(
                            s2.say("Cannot determine valid return address."@).say(
                                "Falling back to single-stepping until function returns."@,
                            ),
                        );
                    },
                }
            }
        }
    }
}

/// Setting breakpoints for one time keeps the tables in order, also where it fails.
pub proof fn lemma_set_temps(s: PtraceShape, addrs: Seq<u64>)
    ensures
        keeps_order(s, s.set_temps(addrs).state()),
    decreases addrs.len(),
{
    if in_order(s) && addrs.len() > 0 {
        if let Flow::Done(at, s1) = s.to_runtime_addr(addrs[0]) {
            assert(same_tables(s, s1));
            assert(keeps_order(s, s1));
            lemma_set_temp(s1, at);
            if let Flow::Done(_, s2) = s1.set_temp(at) {
                lemma_set_temps(s2, addrs.drop_first());
            }
        }
    }
}

/// Setting a breakpoint where a word on the stack returns to keeps the tables in order.
proof fn lemma_set_return(s: PtraceShape, addr: u64)
    ensures
        keeps_order(s, s.set_return(addr).state()),
{
    if in_order(s) {
        match s.peek(addr) {
            Flow::Done(word, s1) => {
                if let Flow::Done(_, s2) = s1.is_code(word as u64, false) {
                    assert(same_tables(s, s2));
                    assert(keeps_order(s, s2));
                    lemma_set_temp(s2, word as u64);
                }
            },
            _ => {},
        }
    }
}

/// Setting a breakpoint at the return address keeps the tables in order.
proof fn lemma_set_returns(s: PtraceShape)
    ensures
        keeps_order(s, s.set_returns().state()),
{
    if let Flow::Done(rbp, s1) = s.get_register(Register::Rbp) {
        if let Flow::Done(rsp, s2) = s1.get_register(Register::Rsp) {
            assert(same_tables(s, s2));
            assert(keeps_order(s, s2));
            lemma_set_return(s2, next_word(rbp));
            if let Flow::Done(set, s3) = s2.set_return(next_word(rbp)) {
                if !set {
                    lemma_set_return(s3, rsp);
                }
            }
        }
    }
}

/// Executing a source line keeps the tables in order, also where it fails.
pub proof fn lemma_step_over(s: PtraceShape)
    ensures
        keeps_order(s, s.step_over().state()),
{
    if !s.has_crashed {
        lemma_looking(s, 0);
        if let Flow::Done(_, s1) = s.current_line() {
            lemma_looking(s1, 0);
            if let Flow::Done(pc, s2) = s1.get_dwarf_pc() {
                assert(same_tables(s, s2));
                lemma_step_in(
                    s2.say(
                        "Cannot determine function boundaries - falling back to step_in"@,
                    ),
                );
                if let Some(ranges) = known(function_ranges_at(units_in_image(s2.image), pc)) {
                    lemma_run_past(s2, pc, ranges);
                }
            }
        }
    }
}

/// Running to another line keeps the tables in order.
proof fn lemma_run_past(s: PtraceShape, pc: u64, ranges: Seq<(u64, u64)>)
    ensures
        keeps_order(s, s.run_past(pc, ranges).state()),
{
    let addresses = s.other_lines(pc, ranges);
    lemma_step_out_by_stepping(s);
    lemma_set_temps(s, addresses);
    if let Flow::Done(_, s1) = s.set_temps(addresses) {
        lemma_set_returns(s1);
        if let Flow::Done(_, s2) = s1.set_returns() {
            assert(leaves_tables(s2, s2.go()));
        }
    }
}

/// Setting a breakpoint by a command keeps the tables in order: an address that has a breakpoint
/// gets the new one in its place.
proof fn lemma_break_new(s: PtraceShape, addr: u64, message: Seq<char>)
    ensures
        keeps_order(s, s.break_new(addr, message).state()),
        s.break_new(addr, message) is Done ==> bp_at(
            s.break_new(addr, message).state().breakpoints,
            addr,
        ) is Some || !in_order(s),
{
    if in_order(s) {
        let e = s.break_new(addr, message).state();
        match (Breakpoint { addr, enabled_status: false, saved_data: 0 }).enable_of(s.talk) {
            Changed::Ask(_, _, _) => {},
            Changed::Fail(_, b, _) => {
                lemma_with_bp(s, b, e);
            },
            Changed::Done(b, _) => {
                lemma_with_bp(s, b, e);
            },
        }
    }
}

/// Putting a breakpoint into the table keeps the tables in order.
proof fn lemma_with_bp(s: PtraceShape, b: Breakpoint, e: PtraceShape)
    requires
        in_order(s),
        e.breakpoints == with_bp(s.breakpoints, b),
        e.temps == s.temps,
        e.plain == s.plain,
    ensures
        keeps_order(s, e),
        bp_at(e.breakpoints, b.addr) is Some,
{
    lemma_table(s.breakpoints, b, b.addr);
    assert forall|other: u64| temps_backed(s) && e.temps.contains(other) implies #[trigger] bp_at(
        e.breakpoints,
        other,
    ) is Some by {
        lemma_table(s.breakpoints, b, other);
        assert(bp_at(s.breakpoints, other) is Some);
    }
}

/// The command that sets a breakpoint keeps the tables in order.
proof fn lemma_cmd_break(s: PtraceShape, tokens: Seq<Seq<char>>)
    ensures
        keeps_order(s, s.cmd_break(tokens).state()),
{
    assert forall|t: PtraceShape, addr: u64, message: Seq<char>| keeps_order(
        t,
        (#[trigger] t.break_new(addr, message)).state(),
    ) by {
        lemma_break_new(t, addr, message);
    }
}

/// Printing the registers leaves the tables as they are.
proof fn lemma_dump_registers(s: PtraceShape, from: int)
    ensures
        leaves_tables(s, s.dump_registers(from)),
    decreases NUMBER_OF_REGISTERS - from,
{
    if from < NUMBER_OF_REGISTERS {
        if let Flow::Done(value, s1) = s.get_register(register_at(from)) {
            lemma_dump_registers(s1.say(register_line(register_at(from), value)), from + 1);
        }
    }
}

/// The command for registers leaves the tables as they are.
proof fn lemma_cmd_register(s: PtraceShape, tokens: Seq<Seq<char>>)
    ensures
        leaves_tables(s, s.cmd_register(tokens)),
{
    lemma_dump_registers(s, 0);
}

/// Following the frames leaves the tables as they are.
pub(crate) proof fn lemma_follow_frames(
    s: PtraceShape,
    frame: u64,
    previous: u64,
    found: Seq<FrameShape>,
    left: nat,
)
    ensures
        leaves_tables(s, s.follow_frames(frame, previous, found, left)),
    decreases left,
{
    if left > 0 {
        assert(leaves_tables(s, s.follow(frame)));
        if let Flow::Done(Some((next, ret)), s1) = s.follow(frame) {
            assert(leaves_tables(s1, s1.frame(found.len(), one_back(ret))));
            if let Flow::Done(shape, s2) = s1.frame(found.len(), one_back(ret)) {
                lemma_follow_frames(s2, next, frame, found.push(shape), (left - 1) as nat);
            }
        }
    }
}

/// Printing frames leaves the tables as they are.
proof fn lemma_say_frames(s: PtraceShape, frames: Seq<FrameShape>)
    ensures
        same_tables(s, s.say_frames(frames)),
    decreases frames.len(),
{
    if frames.len() > 0 {
        lemma_say_frames(s, frames.drop_last());
    }
}

/// Printing a backtrace leaves the tables as they are.
pub proof fn lemma_print_backtrace(s: PtraceShape)
    ensures
        leaves_tables(s, s.print_backtrace()),
{
    let s0 = s.say("Backtrace:"@);
    assert(leaves_tables(s0, s0.collect_backtrace())) by {
        if let Flow::Done(pc, s1) = s0.get_pc() {
            if let Flow::Done(frame, s2) = s1.get_register(Register::Rbp) {
                assert(leaves_tables(s2, s2.frame(0, pc)));
                if let Flow::Done(first, s3) = s2.frame(0, pc) {
                    lemma_follow_frames(
                        s3,
                        frame,
                        0,
                        seq![first],
                        (MAX_BACKTRACE_FRAMES - 1) as nat,
                    );
                }
            }
        }
    }
    if let Flow::Done(frames, t) = s0.collect_backtrace() {
        lemma_say_frames(t, frames);
    }
}

/// The command that lets the process run keeps the tables in order, also where it fails.
proof fn lemma_cmd_continue(s: PtraceShape)
    ensures
        keeps_order(s, s.cmd_continue().state()),
{
    let t = if s.has_crashed {
        s.say("Warning: Program has crashed. Continuing will terminate the process."@)
    } else {
        s
    };
    if in_order(s) {
        assert(temps_backed(s) ==> temps_backed(t));
        lemma_cleanup_temps(t, t.temps);
        if let Flow::Done(_, u) = t.cleanup_temps(t.temps) {
            assert(leaves_tables(u, u.go()));
        }
    }
}

/// The command for memory leaves the tables as they are.
proof fn lemma_cmd_memory(s: PtraceShape, tokens: Seq<Seq<char>>)
    ensures
        leaves_tables(s, s.cmd_memory(tokens)),
{
}

/// A command typed by the user keeps the tables in order, also where it fails.
pub proof fn lemma_handle_command(s: PtraceShape, line: Seq<char>)
    ensures
        keeps_order(s, s.handle_command(line).state()),
{
    let tokens = words_of(line);
    if tokens.len() > 0 {
        if either(tokens[0], "continue"@, "c"@) {
            lemma_cmd_continue(s);
        } else if tokens[0] == "break"@ {
            lemma_cmd_break(s, tokens);
        } else if either(tokens[0], "next"@, "n"@) {
            lemma_step_over(s);
        } else if tokens[0] == "register"@ {
            lemma_cmd_register(s, tokens);
        } else if tokens[0] == "memory"@ {
            lemma_cmd_memory(s, tokens);
        } else if tokens[0] == "stepi"@ {
            assert(leaves_tables(s, s.single_step()));
        } else if tokens[0] == "finish"@ {
            lemma_step_out(s);
        } else if either(tokens[0], "step"@, "s"@) {
            lemma_step_in(s);
        } else if either(tokens[0], "backtrace"@, "bt"@) {
            lemma_print_backtrace(s);
        }
    }
}

/// A crashed program is neither continued nor stepped by a frontend: nothing is asked for.
pub proof fn lemma_crashed_stays(s: PtraceShape)
    requires
        s.has_crashed,
    ensures
        s.continue_exec() is Fail && s.continue_exec().state() == s,
        s.step_instruction() is Fail && s.step_instruction().state() == s,
        s.step_in() is Done && s.step_in().state().talk.heard == s.talk.heard,
        s.step_over() is Done && s.step_over().state().talk.heard == s.talk.heard,
        s.step_out() is Done && s.step_out().state().talk.heard == s.talk.heard,
        s.single_step() is Done && s.single_step().state().talk.heard == s.talk.heard,
{
}

} // verus!
