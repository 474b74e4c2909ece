//! Where a process that executes a source line stops: at every other line of the function, and
//! where the function returns to.
use vstd::prelude::*;

use crate::dialogue::{CallShape, FaultShape, Flow, ReplyShape, TalkShape};
use crate::elf_debug_info::{function_ranges_at, known, units_in_image};
use crate::words::lines_of;

use super::breakpoint::{bp_at, lemma_table, Breakpoint, Changed};
use super::command_handler::{next_word, some_past};
use super::debugger::PtraceShape;
use super::invariants::in_order;
use super::maps::{bias_in, has_code, process_addr};
use super::registers::{Register, UserRegs};

verus! {

/// A talk goes on where another stands: what was heard there stays.
pub open spec fn goes_on(a: TalkShape, b: TalkShape) -> bool {
    &&& a.heard.len() <= b.heard.len()
    &&& forall|i: int| 0 <= i < a.heard.len() ==> #[trigger] a.heard[i] == b.heard[i]
}

/// One state comes from another by putting in breakpoints: those that were there stay, and none
/// of them becomes one for one time or ceases to be one.
pub open spec fn adds_only(s: PtraceShape, e: PtraceShape) -> bool {
    &&& e.program == s.program
    &&& e.image == s.image
    &&& goes_on(s.talk, e.talk)
    &&& forall|addr: u64|
        bp_at(s.breakpoints, addr) is Some ==> #[trigger] bp_at(e.breakpoints, addr) == bp_at(
            s.breakpoints,
            addr,
        ) && e.temps.contains(addr) == s.temps.contains(addr)
}

/// A reply was heard to a call.
pub open spec fn was_told(s: PtraceShape, call: CallShape, reply: ReplyShape) -> bool {
    s.talk.heard.contains((call, reply))
}

/// A memory map was read, or could not be.
pub open spec fn read_maps(s: PtraceShape, maps: Result<Seq<char>, Seq<char>>) -> bool {
    was_told(s, CallShape::Maps, ReplyShape::File(maps))
}

/// The address of the process for an address in the program file, by a memory map.
pub open spec fn runtime_by(
    maps: Result<Seq<char>, Seq<char>>,
    program: Seq<char>,
    addr: u64,
) -> u64 {
    process_addr(
        match maps {
            Ok(text) => bias_in(lines_of(text), program),
            Err(_) => None,
        },
        addr,
    )
}

/// An address is executable by a memory map.
pub open spec fn is_code_by(
    maps: Result<Seq<char>, Seq<char>>,
    program: Seq<char>,
    addr: u64,
) -> bool {
    match maps {
        Ok(text) => has_code(text, program, addr, false),
        Err(_) => false,
    }
}

/// A process stops at an address: there is a breakpoint, unless a memory map says that there is
/// no code.
pub open spec fn stops_at(s: PtraceShape, at: u64) -> bool {
    ||| bp_at(s.breakpoints, at) is Some
    ||| exists|maps: Result<Seq<char>, Seq<char>>|
        #[trigger] read_maps(s, maps) && !is_code_by(maps, s.program, at)
}

/// A process stops at the code of an address in the program file.
pub open spec fn stops_at_line(s: PtraceShape, addr: u64) -> bool {
    exists|maps: Result<Seq<char>, Seq<char>>|
        #[trigger] read_maps(s, maps) && stops_at(s, runtime_by(maps, s.program, addr))
}

/// A process stops where the word at an address returns to, if the word can be read.
pub open spec fn stops_at_return(s: PtraceShape, place: u64) -> bool {
    ||| exists|e: FaultShape|
        #[trigger] was_told(s, CallShape::Peek(place), ReplyShape::Word(Err(e)))
    ||| exists|word: i64|
        #[trigger] was_told(s, CallShape::Peek(place), ReplyShape::Word(Ok(word))) && stops_at(
            s,
            word as u64,
        )
}

/// What was heard stays heard.
pub(crate) proof fn lemma_told_stays(s: PtraceShape, e: PtraceShape, call: CallShape, reply: ReplyShape)
    requires
        goes_on(s.talk, e.talk),
        was_told(s, call, reply),
    ensures
        was_told(e, call, reply),
{
    let i = choose|i: int| 0 <= i < s.talk.heard.len() && s.talk.heard[i] == (call, reply);
    assert(e.talk.heard[i] == (call, reply));
}

/// Where a process stops, it also stops with more breakpoints.
proof fn lemma_stops_stay(s: PtraceShape, e: PtraceShape, at: u64)
    requires
        adds_only(s, e),
        stops_at(s, at),
    ensures
        stops_at(e, at),
{
    if bp_at(s.breakpoints, at) is None {
        let maps = choose|maps: Result<Seq<char>, Seq<char>>|
            #[trigger] read_maps(s, maps) && !is_code_by(maps, s.program, at);
        lemma_told_stays(s, e, CallShape::Maps, ReplyShape::File(maps));
        assert(read_maps(e, maps));
    } else {
        assert(bp_at(e.breakpoints, at) is Some);
    }
}

/// Where a process stops at a line, it also stops with more breakpoints.
proof fn lemma_lines_stay(s: PtraceShape, e: PtraceShape, addr: u64)
    requires
        adds_only(s, e),
        stops_at_line(s, addr),
    ensures
        stops_at_line(e, addr),
{
    let maps = choose|maps: Result<Seq<char>, Seq<char>>|
        #[trigger] read_maps(s, maps) && stops_at(s, runtime_by(maps, s.program, addr));
    lemma_told_stays(s, e, CallShape::Maps, ReplyShape::File(maps));
    lemma_stops_stay(s, e, runtime_by(maps, s.program, addr));
    assert(read_maps(e, maps));
}

/// Where a process stops at a return, it also stops with more breakpoints.
proof fn lemma_returns_stay(s: PtraceShape, e: PtraceShape, place: u64)
    requires
        adds_only(s, e),
        stops_at_return(s, place),
    ensures
        stops_at_return(e, place),
{
    let call = CallShape::Peek(place);
    if exists|f: FaultShape| #[trigger] was_told(s, call, ReplyShape::Word(Err(f))) {
        let f = choose|f: FaultShape| #[trigger] was_told(s, call, ReplyShape::Word(Err(f)));
        lemma_told_stays(s, e, call, ReplyShape::Word(Err(f)));
    } else {
        let word = choose|word: i64|
            #[trigger] was_told(s, call, ReplyShape::Word(Ok(word))) && stops_at(s, word as u64);
        lemma_told_stays(s, e, call, ReplyShape::Word(Ok(word)));
        lemma_stops_stay(s, e, word as u64);
    }
}

/// The last thing that was heard was heard.
pub(crate) proof fn lemma_just_told(s: PtraceShape, call: CallShape)
    requires
        s.talk.replies.len() > 0,
    ensures
        was_told(PtraceShape { talk: s.talk.next(call), ..s }, call, s.talk.replies[0]),
{
    let heard = s.talk.next(call).heard;
    assert(heard[s.talk.heard.len() as int] == (call, s.talk.replies[0]));
}

/// Putting in a breakpoint where there is none adds it only.
proof fn lemma_insert_adds(s: PtraceShape, addr: u64)
    requires
        in_order(s),
        bp_at(s.breakpoints, addr) is None,
    ensures
        s.insert_new(addr) matches Flow::Done(_, e) ==> adds_only(s, e) && bp_at(
            e.breakpoints,
            addr,
        ) is Some,
{
    let new = Breakpoint { addr, enabled_status: false, saved_data: 0 };
    if let Changed::Done(bp, _) = new.enable_of(s.talk) {
        let e = s.insert_new(addr).state();
        assert forall|other: u64| bp_at(s.breakpoints, other) is Some implies #[trigger] bp_at(
            e.breakpoints,
            other,
        ) == bp_at(s.breakpoints, other) by {
            lemma_table(s.breakpoints, bp, other);
        }
        lemma_table(s.breakpoints, bp, addr);
    }
}

/// Setting a breakpoint for one time makes the process stop at the address and adds only.
proof fn lemma_set_temp_stops(s: PtraceShape, addr: u64)
    requires
        in_order(s),
    ensures
        s.set_temp(addr) matches Flow::Done(_, e) ==> in_order(e) && adds_only(s, e) && stops_at(
            e,
            addr,
        ),
{
    super::invariants::lemma_set_temp(s, addr);
    if bp_at(s.breakpoints, addr) is None {
        if let Flow::Done(code, s1) = s.is_code(addr, false) {
            lemma_just_told(s, CallShape::Maps);
            if code {
                lemma_insert_adds(s1, addr);
                if let Flow::Done(_, s2) = s1.insert_new(addr) {
                    crate::list::lemma_different(s2.temps, addr);
                    let e = s.set_temp(addr).state();
                    assert forall|other: u64| bp_at(s.breakpoints, other) is Some implies
                        #[trigger] bp_at(e.breakpoints, other) == bp_at(s.breakpoints, other)
                        && e.temps.contains(other) == s.temps.contains(other) by {
                        assert(bp_at(s1.breakpoints, other) is Some);
                        assert(other != addr);
                    }
                }
            } else {
                let e = s.set_temp(addr).state();
                let maps = s.talk.replies[0]->File_0;
                assert(read_maps(e, maps));
            }
        }
    }
}

/// Adding breakpoints to a state that was itself come to by adding some.
proof fn lemma_adds_twice(a: PtraceShape, b: PtraceShape, c: PtraceShape)
    requires
        adds_only(a, b),
        adds_only(b, c),
    ensures
        adds_only(a, c),
{
    assert forall|addr: u64| bp_at(a.breakpoints, addr) is Some implies #[trigger] bp_at(
        c.breakpoints,
        addr,
    ) == bp_at(a.breakpoints, addr) && c.temps.contains(addr) == a.temps.contains(addr) by {
        assert(bp_at(b.breakpoints, addr) == bp_at(a.breakpoints, addr));
    }
}

/// Setting breakpoints for one time makes the process stop at each of the lines and adds only.
proof fn lemma_set_temps_stops(s: PtraceShape, addrs: Seq<u64>)
    requires
        in_order(s),
    ensures
        s.set_temps(addrs) matches Flow::Done(_, e) ==> in_order(e) && adds_only(s, e)
            && forall|i: int| 0 <= i < addrs.len() ==> #[trigger] stops_at_line(e, addrs[i]),
    decreases addrs.len(),
{
    if addrs.len() > 0 {
        if let Flow::Done(at, s1) = s.to_runtime_addr(addrs[0]) {
            lemma_just_told(s, CallShape::Maps);
            let maps = s.talk.replies[0]->File_0;
            assert(read_maps(s1, maps));
            assert(adds_only(s, s1));
            lemma_set_temp_stops(s1, at);
            if let Flow::Done(_, s2) = s1.set_temp(at) {
                lemma_adds_twice(s, s1, s2);
                lemma_told_stays(s1, s2, CallShape::Maps, ReplyShape::File(maps));
                assert(read_maps(s2, maps));
                assert(stops_at_line(s2, addrs[0]));
                lemma_set_temps_stops(s2, addrs.drop_first());
                if let Flow::Done(_, e) = s2.set_temps(addrs.drop_first()) {
                    lemma_adds_twice(s, s2, e);
                    lemma_lines_stay(s2, e, addrs[0]);
                    assert forall|i: int| 0 <= i < addrs.len() implies #[trigger] stops_at_line(
                        e,
                        addrs[i],
                    ) by {
                        if i > 0 {
                            assert(addrs[i] == addrs.drop_first()[i - 1]);
                        }
                    }
                }
            }
        }
    }
}

/// Setting a breakpoint for one time at a return makes the process stop there and adds only.
proof fn lemma_set_return_stops(s: PtraceShape, place: u64)
    requires
        in_order(s),
    ensures
        s.set_return(place) matches Flow::Done(_, e) ==> in_order(e) && adds_only(s, e)
            && stops_at_return(e, place),
{
    let call = CallShape::Peek(place);
    if let Flow::Done(word, s1) = s.peek(place).attempt() {
        lemma_just_told(s, call);
        assert(adds_only(s, s1));
        match word {
            Err(f) => {
                assert(was_told(s1, call, ReplyShape::Word(Err(f))));
            },
            Ok(word) => {
                assert(was_told(s1, call, ReplyShape::Word(Ok(word))));
                if let Flow::Done(code, s2) = s1.is_code(word as u64, false) {
                    lemma_just_told(s1, CallShape::Maps);
                    assert(adds_only(s1, s2));
                    lemma_adds_twice(s, s1, s2);
                    lemma_told_stays(s1, s2, call, ReplyShape::Word(Ok(word)));
                    if code {
                        lemma_set_temp_stops(s2, word as u64);
                        if let Flow::Done(_, s3) = s2.set_temp(word as u64) {
                            lemma_adds_twice(s, s2, s3);
                            lemma_told_stays(s2, s3, call, ReplyShape::Word(Ok(word)));
                        }
                    } else {
                        let maps = s1.talk.replies[0]->File_0;
                        assert(read_maps(s2, maps));
                        assert(stops_at(s2, word as u64));
                    }
                }
            },
        }
    }
}

/// The process stops where a frame pointer that was read says that the function returns to.
pub open spec fn stops_at_caller(s: PtraceShape) -> bool {
    exists|regs: UserRegs|
        #[trigger] was_told(s, CallShape::Registers, ReplyShape::Registers(Ok(regs)))
            && stops_at_return(s, next_word(regs.rbp))
}

/// Where a process stops at the caller, it also stops with more breakpoints.
proof fn lemma_caller_stays(s: PtraceShape, e: PtraceShape)
    requires
        adds_only(s, e),
        stops_at_caller(s),
    ensures
        stops_at_caller(e),
{
    let regs = choose|regs: UserRegs|
        #[trigger] was_told(s, CallShape::Registers, ReplyShape::Registers(Ok(regs)))
            && stops_at_return(s, next_word(regs.rbp));
    lemma_told_stays(s, e, CallShape::Registers, ReplyShape::Registers(Ok(regs)));
    lemma_returns_stay(s, e, next_word(regs.rbp));
}

/// Setting a breakpoint for one time at the return address makes the process stop at the caller
/// and adds only.
proof fn lemma_set_returns_stops(s: PtraceShape)
    requires
        in_order(s),
    ensures
        s.set_returns() matches Flow::Done(_, e) ==> adds_only(s, e) && stops_at_caller(e),
{
    if let Flow::Done(rbp, s1) = s.get_register(Register::Rbp) {
        lemma_just_told(s, CallShape::Registers);
        let regs = s.talk.replies[0]->Registers_0->Ok_0;
        let told = ReplyShape::Registers(Ok(regs));
        assert(was_told(s1, CallShape::Registers, told));
        assert(adds_only(s, s1));
        if let Flow::Done(rsp, s2) = s1.get_register(Register::Rsp) {
            assert(adds_only(s1, s2));
            lemma_adds_twice(s, s1, s2);
            lemma_told_stays(s1, s2, CallShape::Registers, told);
            lemma_set_return_stops(s2, next_word(rbp));
            if let Flow::Done(set, s3) = s2.set_return(next_word(rbp)) {
                lemma_adds_twice(s, s2, s3);
                lemma_told_stays(s2, s3, CallShape::Registers, told);
                assert(stops_at_caller(s3));
                if !set {
                    lemma_set_return_stops(s3, rsp);
                    if let Flow::Done(_, s4) = s3.set_return(rsp) {
                        lemma_adds_twice(s, s3, s4);
                        lemma_caller_stays(s3, s4);
                    }
                }
            }
        }
    }
}

/// A process runs on from a state with a breakpoint at each of the lines and at the caller.
pub open spec fn runs_to(s: PtraceShape, e: PtraceShape, addrs: Seq<u64>) -> bool {
    &&& e.is_executing
    &&& adds_only(s, e)
    &&& forall|i: int| 0 <= i < addrs.len() ==> #[trigger] stops_at_line(e, addrs[i])
    &&& stops_at_caller(e)
}

/// Where a line lies further on, the process runs with a breakpoint at every other line of the
/// function, before and behind, and at the return address.
proof fn lemma_run_past_stops(s: PtraceShape, pc: u64, ranges: Seq<(u64, u64)>)
    requires
        in_order(s),
        some_past(s.other_lines(pc, ranges), pc),
    ensures
        s.run_past(pc, ranges) matches Flow::Done(_, e) ==> runs_to(
            s,
            e,
            s.other_lines(pc, ranges),
        ),
{
    let addrs = s.other_lines(pc, ranges);
    lemma_set_temps_stops(s, addrs);
    if let Flow::Done(_, s1) = s.set_temps(addrs) {
        lemma_set_returns_stops(s1);
        if let Flow::Done(_, s2) = s1.set_returns() {
            lemma_adds_twice(s, s1, s2);
            if let Flow::Done(_, e) = s2.go() {
                assert(adds_only(s2, e));
                lemma_adds_twice(s, s2, e);
                lemma_adds_twice(s1, s2, e);
                lemma_caller_stays(s2, e);
                assert forall|i: int| 0 <= i < addrs.len() implies #[trigger] stops_at_line(
                    e,
                    addrs[i],
                ) by {
                    lemma_lines_stay(s1, e, addrs[i]);
                }
            }
        }
    }
}

/// Executing a source line of a known function in which another line lies further on lets the
/// process run with a breakpoint at every other line of the function, before and behind, and at
/// the return address. The breakpoints that there were stay as they are.
pub proof fn lemma_step_over_stops_at_every_line(
    s: PtraceShape,
    s1: PtraceShape,
    line: (Seq<char>, u64),
    s2: PtraceShape,
    pc: u64,
    ranges: Seq<(u64, u64)>,
)
    requires
        in_order(s),
        !s.has_crashed,
        s.current_line() == Flow::<Option<(Seq<char>, u64)>, PtraceShape>::Done(Some(line), s1),
        s1.get_dwarf_pc() == Flow::<u64, PtraceShape>::Done(pc, s2),
        known(function_ranges_at(units_in_image(s.image), pc)) == Some(ranges),
        some_past(s.other_lines(pc, ranges), pc),
    ensures
        s.step_over() matches Flow::Done(_, e) ==> runs_to(s, e, s.other_lines(pc, ranges)),
{
    assert(adds_only(s, s1));
    assert(adds_only(s1, s2));
    lemma_adds_twice(s, s1, s2);
    assert(in_order(s2));
    lemma_run_past_stops(s2, pc, ranges);
    if let Flow::Done(_, e) = s2.run_past(pc, ranges) {
        lemma_adds_twice(s, s2, e);
    }
}

} // verus!
