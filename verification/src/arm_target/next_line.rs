//! Where a step over a source line goes: to the next line of the function, or to its caller.
use vstd::prelude::*;

use crate::dialogue::{CallShape, Flow, ReplyShape};
use crate::dwarf::ImageShape;
use crate::elf_debug_info::{
    function_at, function_ranges_at, known_line, line_addresses, units_in_image,
};
use crate::lookup::{lemma_lines_in_ranges_are_found, some_unit_has_in};
use crate::target::{ProgressShape, StepShape, StopCause};

use super::agreement::{
    agreed, lemma_insert, lemma_quiet_agrees, lemma_quiet_pc, lemma_remove, stub_has,
};
use super::debugger::{thumb_addr, ArmShape};
use super::gdb_protocol::stop_cause_of;
use super::target_impl::next_line_addr;

verus! {

/// A row of the line table lies in the ranges of a function, not at its start address, and is
/// code at an even address.
pub open spec fn is_line_of_function(
    image: ImageShape,
    ranges: Seq<(u64, u64)>,
    start: u64,
    addr: u64,
) -> bool {
    exists|row: u64|
        #[trigger] some_unit_has_in(units_in_image(image), ranges, start, row) && addr == row - row
            % 2
}

/// An address of a function lies further on and belongs to another source line than the given
/// one, or to none.
pub open spec fn leaves_line(
    image: ImageShape,
    ranges: Seq<(u64, u64)>,
    start: u64,
    line: Option<(Seq<char>, u64)>,
    addr: u64,
) -> bool {
    addr > start && is_line_of_function(image, ranges, start, addr) && known_line(image, addr)
        != line
}

/// An address is the first one further on in a function that does not belong to a source line:
/// each address of the line table between them belongs to that line.
pub open spec fn is_next_line(
    image: ImageShape,
    ranges: Seq<(u64, u64)>,
    start: u64,
    line: Option<(Seq<char>, u64)>,
    addr: u64,
) -> bool {
    &&& leaves_line(image, ranges, start, line, addr)
    &&& forall|other: u64|
        start < other < addr && #[trigger] is_line_of_function(image, ranges, start, other)
            ==> known_line(image, other) == line
}

/// What is chosen among addresses is the least one further on with another line.
proof fn lemma_least_other_line(
    image: ImageShape,
    addresses: Seq<u64>,
    start: u64,
    line: Option<(Seq<char>, u64)>,
)
    ensures
        match next_line_addr(image, addresses, start, line) {
            Some(addr) => {
                &&& addr > start
                &&& known_line(image, addr) != line
                &&& exists|i: int|
                    0 <= i < addresses.len() && addr == (#[trigger] addresses[i]) - addresses[i] % 2
                &&& forall|i: int|
                    0 <= i < addresses.len() && start < (#[trigger] addresses[i]) - addresses[i] % 2
                        < addr ==> known_line(image, (addresses[i] - addresses[i] % 2) as u64) == line
            },
            None => forall|i: int|
                0 <= i < addresses.len() && start < (#[trigger] addresses[i]) - addresses[i] % 2
                    ==> known_line(image, (addresses[i] - addresses[i] % 2) as u64) == line,
        },
    decreases addresses.len(),
{
    if addresses.len() > 0 {
        let before = addresses.drop_last();
        let last = thumb_addr(addresses.last());
        lemma_least_other_line(image, before, start, line);
        assert forall|i: int| 0 <= i < before.len() implies before[i] == #[trigger] addresses[i] by {
        }
        let found = next_line_addr(image, addresses, start, line);
        if let Some(addr) = found {
            if addr == last && last > start && known_line(image, last) != line {
                assert(addr == addresses[addresses.len() - 1] - addresses[addresses.len() - 1] % 2);
            } else {
                let i = choose|i: int|
                    0 <= i < before.len() && addr == (#[trigger] before[i]) - before[i] % 2;
                assert(addresses[i] == before[i]);
            }
        }
    }
}

/// A step over the current line inside a function goes to the first address further on that does
/// not belong to the line, and asks for nothing to find it. Where there is no such address, it
/// goes to the link register's address without its lowest bit, provided that this lies in a
/// function.
pub proof fn lemma_step_over_goes_to_next_line(
    s: ArmShape,
    start: u64,
    line: (Seq<char>, u64),
    ranges: Seq<(u64, u64)>,
)
    requires
        function_ranges_at(units_in_image(s.image), start) == Ok::<
            Option<Seq<(u64, u64)>>,
            Seq<char>,
        >(Some(ranges)),
        line_addresses(units_in_image(s.image), ranges, start, Seq::empty()) is Ok,
    ensures
        (exists|addr: u64| #[trigger] leaves_line(s.image, ranges, start, Some(line), addr)) ==> (
        s.next_source_addr(start, Some(line)) matches Flow::Done(Some(addr), e) && e == s
            && is_next_line(s.image, ranges, start, Some(line), addr)),
        !(exists|addr: u64| #[trigger] leaves_line(s.image, ranges, start, Some(line), addr)) ==> (
        s.next_source_addr(start, Some(line)) matches Flow::Done(next, e) ==> {
            &&& s.read_register(14) matches Flow::Done(lr, t)
            &&& t == e
            &&& (function_at(units_in_image(s.image), (lr - lr % 2) as u64) matches Ok(Some(_)))
                ==> next == Some((lr - lr % 2) as u64)
            &&& function_at(units_in_image(s.image), (lr - lr % 2) as u64) == Ok::<
                Option<Seq<char>>,
                Seq<char>,
            >(None) ==> next is None
        }),
{
    let units = units_in_image(s.image);
    let addresses = line_addresses(units, ranges, start, Seq::empty())->Ok_0;
    lemma_lines_in_ranges_are_found(units, ranges, start);
    lemma_least_other_line(s.image, addresses, start, Some(line));
    let found = next_line_addr(s.image, addresses, start, Some(line));
    assert forall|addr: u64| #[trigger]
        is_line_of_function(s.image, ranges, start, addr) implies exists|i: int|
        0 <= i < addresses.len() && addr == (#[trigger] addresses[i]) - addresses[i] % 2 by {
        let row = choose|row: u64|
            #[trigger] some_unit_has_in(units, ranges, start, row) && addr == row - row % 2;
        assert(addresses.contains(row));
        let i = choose|i: int| 0 <= i < addresses.len() && addresses[i] == row;
        assert(addr == addresses[i] - addresses[i] % 2);
    }
    if let Some(addr) = found {
        let i = choose|i: int|
            0 <= i < addresses.len() && addr == (#[trigger] addresses[i]) - addresses[i] % 2;
        assert(addresses.contains(addresses[i]));
        assert(some_unit_has_in(units, ranges, start, addresses[i]));
        assert(is_line_of_function(s.image, ranges, start, addr));
        assert(leaves_line(s.image, ranges, start, Some(line), addr));
        assert forall|other: u64|
            start < other < addr && #[trigger] is_line_of_function(
                s.image,
                ranges,
                start,
                other,
            ) implies known_line(s.image, other) == Some(line) by {
            let k = choose|k: int|
                0 <= k < addresses.len() && other == (#[trigger] addresses[k]) - addresses[k] % 2;
            assert(known_line(s.image, (addresses[k] - addresses[k] % 2) as u64) == Some(line));
        }
    } else {
        assert forall|addr: u64| !#[trigger] leaves_line(
            s.image,
            ranges,
            start,
            Some(line),
            addr,
        ) by {
            if leaves_line(s.image, ranges, start, Some(line), addr) {
                let k = choose|k: int|
                    0 <= k < addresses.len() && addr == (#[trigger] addresses[k]) - addresses[k] % 2;
                assert(known_line(s.image, (addresses[k] - addresses[k] % 2) as u64) == Some(line));
            }
        }
    }
}

/// After a while the target was let run, with a breakpoint at one address and none at another,
/// until it stopped with a reply.
pub open spec fn ran_to(
    s: ArmShape,
    e: ArmShape,
    start: u64,
    next: u64,
    reply: Seq<char>,
    at: int,
) -> bool {
    &&& s.talk.heard.len() <= at < e.talk.heard.len()
    &&& e.talk.heard[at] == (CallShape::Resume("c"@), ReplyShape::Packet(Ok(reply)))
    &&& stub_has(e.talk.heard.take(at), next)
    &&& !stub_has(e.talk.heard.take(at), start)
}

/// What one state has heard is the beginning of what another one has.
pub open spec fn heard_on(a: ArmShape, b: ArmShape) -> bool {
    a.talk.heard.len() <= b.talk.heard.len() && b.talk.heard.take(a.talk.heard.len() as int)
        == a.talk.heard
}

pub(crate) proof fn lemma_heard_on(a: ArmShape, b: ArmShape, c: ArmShape)
    requires
        heard_on(a, b),
        heard_on(b, c),
    ensures
        heard_on(a, c),
{
    assert(c.talk.heard.take(a.talk.heard.len() as int) =~= b.talk.heard.take(
        a.talk.heard.len() as int,
    ));
}

/// A breakpoint request goes on with the talk.
pub(crate) proof fn lemma_request_heard(s: ArmShape, first: Seq<char>, second: Seq<char>, addr: u64)
    ensures
        heard_on(s, s.breakpoint_request(first, second, addr).state()),
{
    let e = s.breakpoint_request(first, second, addr).state();
    assert(e.talk.heard.take(s.talk.heard.len() as int) =~= s.talk.heard);
}

/// Running to an address lets the target run with a breakpoint there and none at the start, and
/// says why it stopped.
pub proof fn lemma_run_to(s: ArmShape, start: u64, next: u64)
    requires
        agreed(s),
        start != next,
    ensures
        s.run_to(start, next) matches Flow::Done(reason, e) ==> exists|reply: Seq<char>, at: int|
            #[trigger] ran_to(s, e, start, next, reply, at) && reason == stop_cause_of(reply),
{
    let temporary = !s.breakpoints.contains(next);
    let removed = s.breakpoints.contains(start);
    if let Flow::Done(reason, e) = s.run_to(start, next) {
        lemma_insert(s, next);
        lemma_request_heard(s, "Z1"@, "Z0"@, next);
        let s1 = s.insert_if(temporary, next).state();
        assert(s1.talk.heard.take(s1.talk.heard.len() as int) =~= s1.talk.heard);
        assert(heard_on(s, s1)) by {
            assert(s.talk.heard.take(s.talk.heard.len() as int) =~= s.talk.heard);
        }
        lemma_remove(s1, start);
        lemma_request_heard(s1, "z1"@, "z0"@, start);
        let s2 = s1.clear_start(start, next, temporary).state();
        assert(heard_on(s1, s2));
        let s3 = s2.cont().state();
        let reply = s2.talk.replies[0]->Packet_0->Ok_0;
        let at = s2.talk.heard.len() as int;
        assert(s3.talk.heard == s2.talk.heard.push(
            (CallShape::Resume("c"@), ReplyShape::Packet(Ok(reply))),
        ));
        lemma_request_heard(s3, "z1"@, "z0"@, next);
        let s4 = s3.remove_if(temporary, next).state();
        assert(heard_on(s3, s4)) by {
            assert(s3.talk.heard.take(s3.talk.heard.len() as int) =~= s3.talk.heard);
        }
        lemma_request_heard(s4, "Z1"@, "Z0"@, start);
        let s5 = s4.insert_if(removed, start).state();
        assert(heard_on(s4, s5)) by {
            assert(s4.talk.heard.take(s4.talk.heard.len() as int) =~= s4.talk.heard);
        }
        assert(e.talk == s5.talk);
        lemma_heard_on(s3, s4, s5);
        assert(e.talk.heard.take(s3.talk.heard.len() as int)[at] == s3.talk.heard[at]);
        assert(e.talk.heard.take(at) =~= s2.talk.heard) by {
            assert(e.talk.heard.take(at) =~= e.talk.heard.take(s3.talk.heard.len() as int).take(at));
            assert(s3.talk.heard.take(at) =~= s2.talk.heard);
        }
        assert(stub_has(s.talk.heard, next) == s.breakpoints.contains(next));
        assert(stub_has(s.talk.heard, start) == s.breakpoints.contains(start));
        assert(stub_has(s1.talk.heard, next));
        assert(stub_has(s1.talk.heard, start) == removed);
        assert(stub_has(s2.talk.heard, next));
        assert(!stub_has(s2.talk.heard, start));
        lemma_heard_on(s, s1, s2);
        assert(ran_to(s, e, start, next, reply, at));
    }
}

/// The command that executes a source line lets the target run to the next source line of the
/// function, wherever there is one: with a breakpoint at the first address further on that does
/// not belong to the line, and none where it starts.
pub proof fn lemma_next_leaves_the_line(
    s: ArmShape,
    pc: u64,
    s1: ArmShape,
    line: (Seq<char>, u64),
    ranges: Seq<(u64, u64)>,
)
    requires
        agreed(s),
        s.arm_pc() == Flow::<u64, ArmShape>::Done(pc, s1),
        known_line(s.image, pc) == Some(line),
        function_ranges_at(units_in_image(s.image), pc) == Ok::<
            Option<Seq<(u64, u64)>>,
            Seq<char>,
        >(Some(ranges)),
        line_addresses(units_in_image(s.image), ranges, pc, Seq::empty()) is Ok,
        exists|addr: u64| #[trigger] leaves_line(s.image, ranges, pc, Some(line), addr),
    ensures
        s.next_source() matches Flow::Done(reason, e) ==> exists|
            next: u64,
            reply: Seq<char>,
            at: int,
        |
            is_next_line(s.image, ranges, pc, Some(line), next) && #[trigger] ran_to(
                s1,
                e,
                pc,
                next,
                reply,
                at,
            ) && reason == stop_cause_of(reply),
{
    lemma_quiet_pc(s);
    lemma_quiet_agrees(s, s1);
    assert(s1.image == s.image);
    lemma_step_over_goes_to_next_line(s1, pc, line, ranges);
    let next = s1.next_source_addr(pc, Some(line))->Done_0->0;
    lemma_run_to(s1, pc, next);
}

// ---------------------------------------------------------------------------
// Stepping

/// Whether a program is over by why its target stopped.
pub open spec fn program_is_over(reason: StopCause) -> bool {
    reason is Exited || reason is Terminated
}

/// A source step goes on exactly where an instruction was executed, the program is not over, the
/// program counter has moved, and its source line is the one that the step started on. It stops
/// for the reason of that instruction where the line is another one.
pub proof fn lemma_step_round(s: ArmShape, step: StepShape)
    ensures
        s.step_round(step) matches Flow::Done(ProgressShape::Again(next), e) ==> {
            &&& step.left > 0
            &&& s.step_instruction() matches Flow::Done(reason, t) && !program_is_over(reason)
                && t.arm_pc() == Flow::<u64, ArmShape>::Done(next.previous_pc, e)
            &&& next.previous_pc != step.previous_pc
            &&& known_line(s.image, next.previous_pc) == step.start_place
            &&& next.start_place == step.start_place
            &&& next.left == step.left - 1
        },
        s.step_round(step) matches Flow::Done(ProgressShape::Stopped(reason), e) ==> {
            ||| step.left == 0 && e == s
            ||| s.step_instruction() matches Flow::Done(cause, t) && program_is_over(cause)
                && reason == cause && t == e
            ||| {
                &&& s.step_instruction() matches Flow::Done(cause, t)
                &&& !program_is_over(cause)
                &&& t.arm_pc() matches Flow::Done(pc, u)
                &&& u == e
                &&& pc == step.previous_pc || (reason == cause && known_line(s.image, pc)
                    != step.start_place)
            }
        },
{
    if step.left > 0 {
        if let Flow::Done(_, t) = s.step_instruction() {
            assert(t.image == s.image);
        }
    }
}

} // verus!
