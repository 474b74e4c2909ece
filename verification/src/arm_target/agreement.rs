//! The breakpoints that a debugger keeps track of are those that the remote stub was told of.
use vstd::prelude::*;
use vstd::utf8::encode_utf8;

use crate::dialogue::{CallShape, Flow, ReplyShape, TalkShape};
use crate::elf_debug_info::{known_line, line_at, units_in_image};
use crate::list::{lemma_different, with_value, without};
use crate::number::{hex_of, lemma_hex_reads_back};
use crate::source::{in_dir_of, join_path, near_program_of, parent_of, print_source_of, resolve_of};
use crate::target::{FrameShape, ProgressShape, StepShape};
use crate::text::{either, lossy_text};
use crate::words::{join_of, words_of};

use super::backtrace::ARM_STACK_SCAN_BYTES;
use super::debugger::{breakpoint_packet, location_of, thumb_addr, ArmShape};
use super::gdb_protocol::{
    hex_bytes_of, hex_text_of, hex_value_of, is_console_output, le_bytes_of, stop_cause_of,
};
use super::registers::core_index;
use super::repl::SOURCE_STEP_LIMIT;
use super::target_impl::{text_and_addr, ARM_SOURCE_STEP_LIMIT};

verus! {

/// A call is one of two breakpoint requests for an address.
pub open spec fn is_request(call: CallShape, a: Seq<char>, b: Seq<char>, addr: u64) -> bool {
    call == CallShape::Exchange(breakpoint_packet(a, addr)) || call == CallShape::Exchange(
        breakpoint_packet(b, addr),
    )
}

/// A reply grants a request.
pub open spec fn grants(reply: ReplyShape) -> bool {
    reply == ReplyShape::Packet(Ok("OK"@))
}

/// The stub has a breakpoint at an address, by the requests for it that were granted: the last
/// one counts.
pub open spec fn stub_has(heard: Seq<(CallShape, ReplyShape)>, addr: u64) -> bool
    decreases heard.len(),
{
    if heard.len() == 0 {
        false
    } else if grants(heard.last().1) && is_request(heard.last().0, "Z1"@, "Z0"@, addr) {
        true
    } else if grants(heard.last().1) && is_request(heard.last().0, "z1"@, "z0"@, addr) {
        false
    } else {
        stub_has(heard.drop_last(), addr)
    }
}

/// The debugger and the stub agree on the breakpoints.
pub open spec fn agreed(s: ArmShape) -> bool {
    &&& s.breakpoints.no_duplicates()
    &&& forall|addr: u64|
        s.breakpoints.contains(addr) == #[trigger] stub_has(s.talk.heard, addr)
}

/// Nothing about breakpoints has changed from one state to another.
pub open spec fn quiet(a: ArmShape, b: ArmShape) -> bool {
    &&& a.breakpoints == b.breakpoints
    &&& forall|addr: u64|
        #[trigger] stub_has(a.talk.heard, addr) == stub_has(b.talk.heard, addr)
}

/// A request was granted: the stub has the address or not, and all others as before.
pub open spec fn told(a: ArmShape, b: ArmShape, addr: u64, there: bool) -> bool {
    &&& a.breakpoints == b.breakpoints
    &&& stub_has(b.talk.heard, addr) == there
    &&& forall|other: u64|
        other != addr ==> #[trigger] stub_has(a.talk.heard, other) == stub_has(
            b.talk.heard,
            other,
        )
}

/// Requests for different addresses or of different kinds are different.
proof fn lemma_packets_differ(a: Seq<char>, b: Seq<char>, x: u64, y: u64)
    requires
        a == "Z1"@ || a == "Z0"@ || a == "z1"@ || a == "z0"@,
        b == "Z1"@ || b == "Z0"@ || b == "z1"@ || b == "z0"@,
        breakpoint_packet(a, x) == breakpoint_packet(b, y),
    ensures
        a == b,
        x == y,
{
    reveal_strlit("Z1");
    reveal_strlit("Z0");
    reveal_strlit("z1");
    reveal_strlit("z0");
    reveal_strlit(",");
    reveal_strlit(",2");
    let p = breakpoint_packet(a, x);
    let q = breakpoint_packet(b, y);
    assert(p[0] == a[0] && p[1] == a[1] && q[0] == b[0] && q[1] == b[1]);
    assert(a =~= b);
    let hx = hex_of(x as nat);
    let hy = hex_of(y as nat);
    assert(p.len() == hx.len() + 5 && q.len() == hy.len() + 5);
    assert(hx =~= hy) by {
        assert forall|i: int| 0 <= i < hx.len() implies hx[i] == hy[i] by {
            assert(p[i + 3] == hx[i]);
            assert(q[i + 3] == hy[i]);
        }
    }
    lemma_hex_reads_back(x);
    lemma_hex_reads_back(y);
}

/// One more answered call that is no breakpoint request, or that was not granted, changes
/// nothing for the stub.
proof fn lemma_other_call(heard: Seq<(CallShape, ReplyShape)>, call: CallShape, reply: ReplyShape)
    requires
        forall|addr: u64|
            !(#[trigger] is_request(call, "Z1"@, "Z0"@, addr)) || !grants(reply),
        forall|addr: u64|
            !(#[trigger] is_request(call, "z1"@, "z0"@, addr)) || !grants(reply),
    ensures
        forall|addr: u64|
            #[trigger] stub_has(heard.push((call, reply)), addr) == stub_has(heard, addr),
{
    let more = heard.push((call, reply));
    assert(more.drop_last() =~= heard);
    assert forall|addr: u64| #[trigger] stub_has(more, addr) == stub_has(heard, addr) by {
        assert(!is_request(call, "Z1"@, "Z0"@, addr) || !grants(reply));
        assert(!is_request(call, "z1"@, "z0"@, addr) || !grants(reply));
    }
}

/// A packet that does not start as a breakpoint request does is none.
proof fn lemma_no_request(packet: Seq<char>)
    requires
        packet.len() > 0,
        packet[0] != 'Z',
        packet[0] != 'z',
    ensures
        forall|addr: u64|
            !(#[trigger] is_request(CallShape::Exchange(packet), "Z1"@, "Z0"@, addr)),
        forall|addr: u64|
            !(#[trigger] is_request(CallShape::Exchange(packet), "z1"@, "z0"@, addr)),
{
    reveal_strlit("Z1");
    reveal_strlit("Z0");
    reveal_strlit("z1");
    reveal_strlit("z0");
    assert forall|addr: u64|
        !(#[trigger] is_request(CallShape::Exchange(packet), "Z1"@, "Z0"@, addr)) by {
        assert(breakpoint_packet("Z1"@, addr)[0] == 'Z');
        assert(breakpoint_packet("Z0"@, addr)[0] == 'Z');
    }
    assert forall|addr: u64|
        !(#[trigger] is_request(CallShape::Exchange(packet), "z1"@, "z0"@, addr)) by {
        assert(breakpoint_packet("z1"@, addr)[0] == 'z');
        assert(breakpoint_packet("z0"@, addr)[0] == 'z');
    }
}

/// Sending any other packet changes nothing about breakpoints.
pub(crate) proof fn lemma_quiet_packet(s: ArmShape, packet: Seq<char>)
    requires
        packet.len() > 0,
        packet[0] != 'Z',
        packet[0] != 'z',
    ensures
        quiet(s, s.send_packet(packet).state()),
{
    lemma_no_request(packet);
    if s.talk.replies.len() > 0 {
        lemma_other_call(s.talk.heard, CallShape::Exchange(packet), s.talk.replies[0]);
    }
}

/// Letting the target run changes nothing about breakpoints.
pub(crate) proof fn lemma_quiet_cont(s: ArmShape)
    ensures
        quiet(s, s.cont().state()),
{
    if s.talk.replies.len() > 0 {
        lemma_other_call(s.talk.heard, CallShape::Resume("c"@), s.talk.replies[0]);
    }
}

/// Reading registers changes nothing about breakpoints.
pub(crate) proof fn lemma_quiet_register(s: ArmShape, index: usize)
    ensures
        quiet(s, s.read_register(index).state()),
{
    reveal_strlit("p");
    reveal_strlit("g");
    lemma_quiet_packet(s, "p"@ + hex_of(index as nat));
    if let Flow::Done(_, e) = s.send_packet("p"@ + hex_of(index as nat)) {
        lemma_quiet_packet(e, "g"@);
    }
}

/// Reading the program counter changes nothing about breakpoints.
pub(crate) proof fn lemma_quiet_pc(s: ArmShape)
    ensures
        quiet(s, s.arm_pc().state()),
{
    lemma_quiet_register(s, 15);
}

/// Executing an instruction by itself changes nothing about breakpoints.
pub(crate) proof fn lemma_quiet_step(s: ArmShape)
    ensures
        quiet(s, s.step().state()),
{
    reveal_strlit("s");
    lemma_quiet_packet(s, "s"@);
}

/// The effect of one answered request.
proof fn lemma_request(
    heard: Seq<(CallShape, ReplyShape)>,
    kind: Seq<char>,
    addr: u64,
    reply: ReplyShape,
)
    requires
        kind == "Z1"@ || kind == "Z0"@ || kind == "z1"@ || kind == "z0"@,
    ensures
        ({
            let more = heard.push((CallShape::Exchange(breakpoint_packet(kind, addr)), reply));
            &&& forall|other: u64|
                other != addr || !grants(reply) ==> #[trigger] stub_has(more, other) == stub_has(
                    heard,
                    other,
                )
            &&& grants(reply) ==> stub_has(more, addr) == (kind == "Z1"@ || kind == "Z0"@)
        }),
{
    let call = CallShape::Exchange(breakpoint_packet(kind, addr));
    let more = heard.push((call, reply));
    assert(more.drop_last() =~= heard);
    assert forall|other: u64| other != addr || !grants(reply) implies #[trigger] stub_has(
        more,
        other,
    ) == stub_has(heard, other) by {
        if grants(reply) {
            if is_request(call, "Z1"@, "Z0"@, other) {
                if breakpoint_packet(kind, addr) == breakpoint_packet("Z1"@, other) {
                    lemma_packets_differ(kind, "Z1"@, addr, other);
                } else {
                    lemma_packets_differ(kind, "Z0"@, addr, other);
                }
            }
            if is_request(call, "z1"@, "z0"@, other) {
                if breakpoint_packet(kind, addr) == breakpoint_packet("z1"@, other) {
                    lemma_packets_differ(kind, "z1"@, addr, other);
                } else {
                    lemma_packets_differ(kind, "z0"@, addr, other);
                }
            }
        }
    }
    if grants(reply) {
        if kind == "z1"@ || kind == "z0"@ {
            reveal_strlit("Z1");
            reveal_strlit("Z0");
            reveal_strlit("z1");
            reveal_strlit("z0");
            assert("z1"@[0] != "Z1"@[0] && "z0"@[0] != "Z1"@[0]);
            assert("z1"@[0] != "Z0"@[0] && "z0"@[0] != "Z0"@[0]);
            if breakpoint_packet(kind, addr) == breakpoint_packet("Z1"@, addr) {
                lemma_packets_differ(kind, "Z1"@, addr, addr);
            }
            if breakpoint_packet(kind, addr) == breakpoint_packet("Z0"@, addr) {
                lemma_packets_differ(kind, "Z0"@, addr, addr);
            }
        }
    }
}

/// Inserting a breakpoint tells the stub of it, and of nothing where it fails.
pub(crate) proof fn lemma_insert(s: ArmShape, addr: u64)
    ensures
        match s.insert_remote_breakpoint(addr) {
            Flow::Done(_, e) => told(s, e, addr, true),
            Flow::Fail(_, e) => quiet(s, e),
            Flow::Ask(_, e) => quiet(s, e),
        },
{
    lemma_two_requests(s, "Z1"@, "Z0"@, addr, true);
}

/// Removing a breakpoint tells the stub of it, and of nothing where it fails.
pub(crate) proof fn lemma_remove(s: ArmShape, addr: u64)
    ensures
        match s.remove_remote_breakpoint(addr) {
            Flow::Done(_, e) => told(s, e, addr, false),
            Flow::Fail(_, e) => quiet(s, e),
            Flow::Ask(_, e) => quiet(s, e),
        },
{
    lemma_two_requests(s, "z1"@, "z0"@, addr, false);
}

/// A request that is made in a second form where the first one is refused.
proof fn lemma_two_requests(s: ArmShape, first: Seq<char>, second: Seq<char>, addr: u64, there: bool)
    requires
        there ==> first == "Z1"@ && second == "Z0"@,
        !there ==> first == "z1"@ && second == "z0"@,
    ensures
        match s.breakpoint_request(first, second, addr) {
            Flow::Done(_, e) => told(s, e, addr, there),
            Flow::Fail(_, e) => quiet(s, e),
            Flow::Ask(_, e) => quiet(s, e),
        },
{
    reveal_strlit("Z1");
    reveal_strlit("Z0");
    reveal_strlit("z1");
    reveal_strlit("z0");
    assert("z1"@[0] != "Z1"@[0] && "z0"@[0] != "Z1"@[0]);
    assert("z1"@[0] != "Z0"@[0] && "z0"@[0] != "Z0"@[0]);
    if s.talk.replies.len() > 0 {
        lemma_request(s.talk.heard, first, addr, s.talk.replies[0]);
        if let Flow::Done(response, e) = s.send_packet(breakpoint_packet(first, addr)) {
            if response != "OK"@ && e.talk.replies.len() > 0 {
                lemma_request(e.talk.heard, second, addr, e.talk.replies[0]);
            }
        }
    }
}

/// Setting a breakpoint keeps the agreement, also where it fails.
pub proof fn lemma_set_agrees(s: ArmShape, addr: u64)
    requires
        agreed(s),
    ensures
        agreed(s.set_breakpoint(addr).state()),
        s.set_breakpoint(addr) matches Flow::Done(_, e) ==> e.breakpoints.contains(
            thumb_addr(addr),
        ),
{
    let at = thumb_addr(addr);
    lemma_insert(s, at);
    lemma_different(s.breakpoints, at);
    let e = s.set_breakpoint(addr).state();
    assert forall|other: u64|
        e.breakpoints.contains(other) == #[trigger] stub_has(e.talk.heard, other) by {
        assert(s.breakpoints.contains(other) == stub_has(s.talk.heard, other));
        assert(other != at ==> with_value(s.breakpoints, at).contains(other)
            == s.breakpoints.contains(other));
    }
}

/// Clearing a breakpoint keeps the agreement, also where it fails.
pub proof fn lemma_clear_agrees(s: ArmShape, addr: u64)
    requires
        agreed(s),
    ensures
        agreed(s.clear_breakpoint(addr).state()),
        s.clear_breakpoint(addr) matches Flow::Done(_, e) ==> !e.breakpoints.contains(
            thumb_addr(addr),
        ),
{
    let at = thumb_addr(addr);
    lemma_remove(s, at);
    lemma_different(s.breakpoints, at);
    let e = s.clear_breakpoint(addr).state();
    assert forall|other: u64|
        e.breakpoints.contains(other) == #[trigger] stub_has(e.talk.heard, other) by {
        assert(s.breakpoints.contains(other) == stub_has(s.talk.heard, other));
        assert(other != at ==> without(s.breakpoints, at).contains(other)
            == s.breakpoints.contains(other));
    }
}

/// Executing an instruction keeps the agreement: a breakpoint taken out for it is put back.
pub proof fn lemma_step_agrees(s: ArmShape)
    requires
        agreed(s),
    ensures
        s.step_instruction() matches Flow::Done(_, e) ==> agreed(e),
{
    lemma_quiet_pc(s);
    if let Flow::Done(pc, s1) = s.arm_pc() {
        if s1.breakpoints.contains(pc) {
            lemma_remove(s1, pc);
            if let Flow::Done(_, s2) = s1.remove_remote_breakpoint(pc) {
                lemma_quiet_step(s2);
                if let Flow::Done(_, s3) = s2.step().attempt() {
                    lemma_insert(s3, pc);
                    if let Flow::Done(_, s4) = s3.insert_remote_breakpoint(pc).attempt() {
                        assert forall|addr: u64|
                            s4.breakpoints.contains(addr) == #[trigger] stub_has(
                                s4.talk.heard,
                                addr,
                            ) || s3.insert_remote_breakpoint(pc) is Fail by {
                            assert(stub_has(s.talk.heard, addr) == stub_has(s1.talk.heard, addr));
                            assert(stub_has(s2.talk.heard, addr) == stub_has(s3.talk.heard, addr));
                            if addr != pc {
                                assert(stub_has(s1.talk.heard, addr) == stub_has(
                                    s2.talk.heard,
                                    addr,
                                ));
                                assert(stub_has(s3.talk.heard, addr) == stub_has(
                                    s4.talk.heard,
                                    addr,
                                ));
                            }
                        }
                    }
                }
            }
        } else {
            lemma_quiet_step(s1);
            if let Flow::Done(_, s2) = s1.step() {
                assert forall|addr: u64|
                    s2.breakpoints.contains(addr) == #[trigger] stub_has(s2.talk.heard, addr) by {
                    assert(stub_has(s.talk.heard, addr) == stub_has(s1.talk.heard, addr));
                    assert(stub_has(s1.talk.heard, addr) == stub_has(s2.talk.heard, addr));
                }
            }
        }
    }
}

/// Agreement carries over where nothing has changed.
pub(crate) proof fn lemma_quiet_agrees(a: ArmShape, b: ArmShape)
    requires
        agreed(a),
        quiet(a, b),
    ensures
        agreed(b),
{
    assert forall|addr: u64|
        b.breakpoints.contains(addr) == #[trigger] stub_has(b.talk.heard, addr) by {
        assert(stub_has(a.talk.heard, addr) == stub_has(b.talk.heard, addr));
    }
}

/// Running to an address keeps the agreement: a temporary breakpoint is taken out again, and
/// one taken out at the start is put back.
pub proof fn lemma_run_to_agrees(s: ArmShape, start: u64, next: u64)
    requires
        agreed(s),
    ensures
        s.run_to(start, next) matches Flow::Done(_, e) ==> agreed(e),
{
    let temporary = !s.breakpoints.contains(next);
    let removed = s.breakpoints.contains(start);
    if s.run_to(start, next) is Done {
        lemma_insert(s, next);
        let s1 = s.insert_if(temporary, next).state();
        lemma_remove(s1, start);
        let s2 = s1.clear_start(start, next, temporary).state();
        lemma_quiet_cont(s2);
        let s3 = s2.cont().state();
        lemma_remove(s3, next);
        let s4 = s3.remove_if(temporary, next).state();
        lemma_insert(s4, start);
        let s5 = s4.insert_if(removed, start).state();
        assert forall|addr: u64|
            s5.breakpoints.contains(addr) == #[trigger] stub_has(s5.talk.heard, addr) by {
            assert(s.breakpoints.contains(addr) == stub_has(s.talk.heard, addr));
            assert(stub_has(s2.talk.heard, addr) == stub_has(s3.talk.heard, addr));
            if addr != next {
                assert(stub_has(s.talk.heard, addr) == stub_has(s1.talk.heard, addr));
                assert(stub_has(s3.talk.heard, addr) == stub_has(s4.talk.heard, addr));
            }
            if addr != start {
                assert(stub_has(s1.talk.heard, addr) == stub_has(s2.talk.heard, addr));
                assert(stub_has(s4.talk.heard, addr) == stub_has(s5.talk.heard, addr));
            }
        }
    }
}

/// One round of a source step keeps the agreement.
pub(crate) proof fn lemma_round_agrees(s: ArmShape, step: StepShape)
    requires
        agreed(s),
    ensures
        s.step_round(step) matches Flow::Done(_, e) ==> agreed(e),
{
    if step.left > 0 {
        lemma_step_agrees(s);
        if let Flow::Done(_, s1) = s.step_instruction() {
            lemma_quiet_pc(s1);
            lemma_quiet_agrees(s1, s1.arm_pc().state());
        }
    }
}

/// Any number of rounds keeps the agreement.
proof fn lemma_rounds_agree(s: ArmShape, step: StepShape, fuel: nat)
    requires
        agreed(s),
    ensures
        s.step_rounds(step, fuel) matches Flow::Done(_, e) ==> agreed(e),
    decreases fuel,
{
    if fuel > 0 {
        lemma_round_agrees(s, step);
        if let Flow::Done(ProgressShape::Again(next), e) = s.step_round(step) {
            lemma_rounds_agree(e, next, (fuel - 1) as nat);
        }
    }
}

/// Stepping to another source line keeps the agreement.
pub proof fn lemma_step_source_agrees(s: ArmShape)
    requires
        agreed(s),
    ensures
        s.step_source() matches Flow::Done(_, e) ==> agreed(e),
{
    lemma_quiet_pc(s);
    if let Flow::Done(step, s1) = s.step_begin() {
        lemma_quiet_agrees(s, s1);
        lemma_rounds_agree(s1, step, ARM_SOURCE_STEP_LIMIT as nat + 1);
    }
}

/// Executing a source line keeps the agreement.
pub proof fn lemma_next_source_agrees(s: ArmShape)
    requires
        agreed(s),
    ensures
        s.next_source() matches Flow::Done(_, e) ==> agreed(e),
{
    lemma_quiet_pc(s);
    if let Flow::Done(pc, s1) = s.arm_pc() {
        lemma_quiet_agrees(s, s1);
        let line = known_line(s1.image, pc);
        lemma_quiet_register(s1, 14);
        if let Flow::Done(next, s2) = s1.next_source_addr(pc, line) {
            lemma_quiet_agrees(s1, s1.read_register(14).state());
            match next {
                None => lemma_step_source_agrees(s2),
                Some(next) => lemma_run_to_agrees(s2, pc, next),
            }
        }
    }
}

/// The command that sets a breakpoint keeps the agreement, also where it fails.
pub proof fn lemma_break_command_agrees(s: ArmShape, tokens: Seq<Seq<char>>)
    requires
        agreed(s),
    ensures
        agreed(s.cmd_break(tokens).state()),
{
    if tokens.len() >= 2 {
        if let Flow::Done(Some(addr), t) = s.break_addr(tokens[1]) {
            let at = thumb_addr(addr);
            lemma_insert(t, at);
            lemma_different(t.breakpoints, at);
            let e = t.break_at(addr).state();
            assert forall|other: u64|
                e.breakpoints.contains(other) == #[trigger] stub_has(e.talk.heard, other) by {
                assert(t.breakpoints.contains(other) == stub_has(t.talk.heard, other));
                assert(other != at ==> with_value(t.breakpoints, at).contains(other)
                    == t.breakpoints.contains(other));
            }
        }
    }
}

/// The command that clears a breakpoint keeps the agreement, also where it fails.
pub proof fn lemma_clear_command_agrees(s: ArmShape, tokens: Seq<Seq<char>>)
    requires
        agreed(s),
    ensures
        agreed(s.cmd_clear(tokens).state()),
{
    if tokens.len() >= 2 {
        if let Ok(addr) = hex_value_of(tokens[1]) {
            let at = thumb_addr(addr);
            lemma_remove(s, at);
            lemma_different(s.breakpoints, at);
            let e = s.cmd_clear(tokens).state();
            assert forall|other: u64|
                e.breakpoints.contains(other) == #[trigger] stub_has(e.talk.heard, other) by {
                assert(s.breakpoints.contains(other) == stub_has(s.talk.heard, other));
                assert(other != at ==> without(s.breakpoints, at).contains(other)
                    == s.breakpoints.contains(other));
            }
        }
    }
}

/// A breakpoint that is set is one of the hardware, unless the stub has refused that one: a
/// software breakpoint is asked for only then.
pub proof fn lemma_hardware_first(s: ArmShape, addr: u64)
    ensures
        s.insert_remote_breakpoint(addr) matches Flow::Done(_, e) ==> {
            let hardware = CallShape::Exchange(breakpoint_packet("Z1"@, addr));
            let software = CallShape::Exchange(breakpoint_packet("Z0"@, addr));
            let granted = ReplyShape::Packet(Ok("OK"@));
            ||| e.talk.heard == s.talk.heard.push((hardware, granted))
            ||| exists|refusal: Seq<char>|
                refusal != "OK"@ && e.talk.heard == s.talk.heard.push(
                    (hardware, #[trigger] refused(refusal)),
                ).push((software, granted))
        },
{
    if let Flow::Done(response, s1) = s.send_packet(breakpoint_packet("Z1"@, addr)) {
        assert(s.talk.replies[0] == refused(response));
    }
}

/// A response of the stub as a reply.
pub open spec fn refused(response: Seq<char>) -> ReplyShape {
    ReplyShape::Packet(Ok(response))
}

// ---------------------------------------------------------------------------
// The commands of a session

/// Nothing about breakpoints was said between two points of a talk.
pub open spec fn quiet_talk(a: TalkShape, b: TalkShape) -> bool {
    forall|addr: u64| #[trigger] stub_has(a.heard, addr) == stub_has(b.heard, addr)
}

/// A call that is no exchange of packets says nothing about breakpoints.
pub(crate) proof fn lemma_quiet_call(t: TalkShape, call: CallShape)
    requires
        !(call is Exchange),
    ensures
        quiet_talk(t, t.next(call)),
{
    lemma_other_call(t.heard, call, t.replies[0]);
}

/// Looking for a file in a directory says nothing about breakpoints.
proof fn lemma_quiet_in_dir(t: TalkShape, dir: Option<Seq<char>>, path: Seq<char>)
    ensures
        quiet_talk(t, in_dir_of(t, dir, path).state()),
{
    if let Some(dir) = dir {
        lemma_quiet_call(t, CallShape::PathExists(join_path(dir, path)));
    }
}

/// Looking for a file near the program says nothing about breakpoints.
proof fn lemma_quiet_near_program(t: TalkShape, program: Seq<char>, path: Seq<char>)
    ensures
        quiet_talk(t, near_program_of(t, program, path).state()),
{
    if let Some(dir) = parent_of(program) {
        lemma_quiet_in_dir(t, Some(dir), path);
        if let Flow::Done(_, t1) = in_dir_of(t, Some(dir), path) {
            lemma_quiet_in_dir(t1, parent_of(dir), path);
        }
    }
}

/// Looking for a source file says nothing about breakpoints.
pub(crate) proof fn lemma_quiet_resolve(t: TalkShape, program: Seq<char>, path: Seq<char>)
    ensures
        quiet_talk(t, resolve_of(t, program, path).state()),
{
    lemma_quiet_call(t, CallShape::PathExists(path));
    if let Flow::Done(_, t1) = t.path_exists(path) {
        lemma_quiet_call(t1, CallShape::CurrentDir);
        if let Flow::Done(dir, t2) = t1.current_dir() {
            lemma_quiet_in_dir(t2, dir, path);
            if let Flow::Done(_, t3) = in_dir_of(t2, dir, path) {
                lemma_quiet_near_program(t3, program, path);
            }
        }
    }
}

/// Printing a source line says nothing about breakpoints.
proof fn lemma_quiet_source(t: TalkShape, program: Seq<char>, path: Seq<char>, line: u64)
    ensures
        quiet_talk(t, print_source_of(t, program, path, line).state()),
{
    lemma_quiet_resolve(t, program, path);
    if let Flow::Done(found, t1) = resolve_of(t, program, path) {
        lemma_quiet_call(t1, CallShape::ReadFile(found));
    }
}

/// Printing where the target is changes nothing about breakpoints.
proof fn lemma_quiet_location(s: ArmShape)
    ensures
        quiet(s, s.print_current_location().state()),
{
    lemma_quiet_pc(s);
    if let Flow::Done(pc, s1) = s.arm_pc() {
        let t = s1.say(text_and_addr("PC = 0x"@, pc)).say(location_of(s1.image, pc));
        if let Ok(Some((file, line))) = line_at(units_in_image(s1.image), pc) {
            lemma_quiet_source(t.talk, t.program, file, line);
        }
    }
}

/// Printing why the target stopped changes nothing about breakpoints.
proof fn lemma_quiet_stop(s: ArmShape, reply: Seq<char>)
    ensures
        quiet(s, s.print_stop(reply).state()),
{
    lemma_quiet_location(s.say(stop_cause_of(reply).text()));
}

/// Letting the target run, executing an instruction or interrupting the target by a command
/// changes nothing about breakpoints.
proof fn lemma_quiet_run(s: ArmShape)
    ensures
        quiet(s, s.cmd_continue().state()),
        quiet(s, s.cmd_stepi().state()),
        quiet(s, s.halt_target().state()),
{
    lemma_quiet_cont(s);
    if let Flow::Done(reply, s1) = s.cont() {
        lemma_quiet_stop(s1, reply);
    }
    lemma_quiet_step(s);
    if let Flow::Done(reply, s1) = s.step() {
        lemma_quiet_stop(s1, reply);
    }
    lemma_quiet_call(s.talk, CallShape::Interrupt);
    if let Flow::Done(reply, s1) = s.interrupt() {
        lemma_quiet_stop(s1, reply);
    }
}

/// Stepping by a command changes nothing about breakpoints.
proof fn lemma_quiet_rounds(s: ArmShape, start: Option<(Seq<char>, u64)>, left: nat)
    ensures
        quiet(s, s.repl_step_rounds(start, left).state()),
    decreases left,
{
    lemma_quiet_round(s, start, left);
    if let Flow::Done(more, s1) = s.repl_step_round(start, left) {
        if more && left > 0 {
            lemma_quiet_rounds(s1, start, (left - 1) as nat);
        }
    }
}

/// One instruction of a step by a command changes nothing about breakpoints.
proof fn lemma_quiet_round(s: ArmShape, start: Option<(Seq<char>, u64)>, left: nat)
    ensures
        quiet(s, s.repl_step_round(start, left).state()),
{
    if left == 0 {
        lemma_quiet_location(s.say("Step limit reached"@));
    } else {
        lemma_quiet_step(s);
        if let Flow::Done(reply, s1) = s.step() {
            lemma_quiet_pc(s1);
            if let Flow::Done(_, s2) = s1.current_line() {
                lemma_quiet_stop(s2, reply);
            }
        }
    }
}

/// Printing registers leaves everything but what was printed.
proof fn lemma_say_registers(s: ArmShape, values: Seq<u64>)
    ensures
        quiet(s, s.say_registers(values)),
    decreases values.len(),
{
    if values.len() > 0 {
        lemma_say_registers(s, values.drop_last());
    }
}

/// The command for registers changes nothing about breakpoints.
proof fn lemma_quiet_registers(s: ArmShape, tokens: Seq<Seq<char>>)
    ensures
        quiet(s, s.cmd_register(tokens).state()),
{
    reveal_strlit("g");
    reveal_strlit("P");
    lemma_quiet_packet(s, "g"@);
    if let Flow::Done(values, s1) = s.read_core_registers() {
        lemma_say_registers(s1, values);
    }
    if tokens.len() >= 3 {
        if let Some(index) = core_index(tokens[2]) {
            lemma_quiet_register(s, index as usize);
            if tokens.len() >= 4 {
                if let Ok(value) = hex_value_of(tokens[3]) {
                    lemma_quiet_packet(
                        s,
                        "P"@ + hex_of(index as usize as nat) + "="@ + hex_text_of(
                            le_bytes_of(value as u32),
                        ),
                    );
                }
            }
        }
    }
}

/// Reading memory changes nothing about breakpoints.
pub(crate) proof fn lemma_quiet_read(s: ArmShape, addr: u64, len: usize)
    ensures
        quiet(s, s.read_memory(addr, len).state()),
{
    reveal_strlit("m");
    lemma_quiet_packet(s, "m"@ + hex_of(addr as nat) + ","@ + hex_of(len as nat));
}

/// The command for memory changes nothing about breakpoints.
proof fn lemma_quiet_memory(s: ArmShape, tokens: Seq<Seq<char>>)
    ensures
        quiet(s, s.cmd_memory(tokens).state()),
{
    reveal_strlit("M");
    if tokens.len() >= 3 {
        if let Ok(addr) = hex_value_of(tokens[2]) {
            lemma_quiet_read(s, addr, ArmShape::read_len(tokens));
            if tokens.len() >= 4 {
                if let Ok(value) = hex_value_of(tokens[3]) {
                    let bytes = le_bytes_of(value as u32);
                    lemma_quiet_packet(
                        s,
                        "M"@ + hex_of(addr as nat) + ","@ + hex_of(bytes.len()) + ":"@
                            + hex_text_of(bytes),
                    );
                }
            }
        }
    }
}

/// Printing frames leaves everything but what was printed.
proof fn lemma_say_frames(s: ArmShape, frames: Seq<FrameShape>)
    ensures
        quiet(s, s.say_frames(frames)),
    decreases frames.len(),
{
    if frames.len() > 0 {
        lemma_say_frames(s, frames.drop_last());
    }
}

/// Printing a backtrace changes nothing about breakpoints.
proof fn lemma_quiet_backtrace(s: ArmShape)
    ensures
        quiet(s, s.print_backtrace().state()),
{
    let s0 = s.say("Backtrace:"@);
    lemma_quiet_pc(s0);
    if let Flow::Done(_, s1) = s0.arm_pc() {
        lemma_quiet_register(s1, 13);
        if let Flow::Done(sp, s2) = s1.arm_sp() {
            lemma_quiet_read(s2, sp, ARM_STACK_SCAN_BYTES);
        }
    }
    if let Flow::Done(frames, s3) = s0.collect_backtrace() {
        lemma_say_frames(s3, frames);
    }
}

/// Printing what the stub puts out changes nothing about breakpoints.
proof fn lemma_quiet_response(s: ArmShape, response: Seq<char>)
    ensures
        quiet(s, s.monitor_response(response).state()),
    decreases s.talk.replies.len(),
{
    if is_console_output(response) {
        if let Ok(bytes) = hex_bytes_of(response.skip(1)) {
            let s1 = s.print(lossy_text(bytes));
            lemma_quiet_call(s1.talk, CallShape::NextPacket);
            if let Flow::Done(next, t) = s1.on_talk(s1.talk.packet(CallShape::NextPacket)) {
                if t.talk.replies.len() < s.talk.replies.len() {
                    lemma_quiet_response(t, next);
                }
            }
        }
    }
}

/// A command to the stub that is passed on changes nothing that the debugger asked for.
proof fn lemma_quiet_monitor(s: ArmShape, command: Seq<char>)
    ensures
        quiet(s, s.monitor_command(command).state()),
{
    reveal_strlit("qRcmd,");
    let packet = "qRcmd,"@ + hex_text_of(encode_utf8(command));
    assert(packet[0] == 'q');
    lemma_quiet_packet(s, packet);
    if let Flow::Done(response, s1) = s.send_packet(packet) {
        lemma_quiet_response(s1, response);
    }
}

/// A command of the user that lets the target run, or asks for something, changes nothing about
/// breakpoints.
proof fn lemma_quiet_question(s: ArmShape, tokens: Seq<Seq<char>>)
    ensures
        quiet(s, s.cmd_step().state()),
        quiet(s, s.cmd_monitor(tokens).state()),
        quiet(
            s,
            s.monitor_command("reset halt"@).bind(
                |_done: (), s: ArmShape| s.print_current_location(),
            ).state(),
        ),
{
    lemma_quiet_pc(s);
    if let Flow::Done(start, s1) = s.current_line() {
        lemma_quiet_rounds(s1, start, SOURCE_STEP_LIMIT as nat);
    }
    lemma_quiet_monitor(s, join_of(tokens.skip(1), " "@));
    lemma_quiet_monitor(s, "reset halt"@);
    if let Flow::Done(_, s1) = s.monitor_command("reset halt"@) {
        lemma_quiet_location(s1);
    }
}

/// The command that executes a source line keeps the agreement.
proof fn lemma_next_command_agrees(s: ArmShape)
    requires
        agreed(s),
    ensures
        s.cmd_next() matches Flow::Done(_, e) ==> agreed(e),
{
    lemma_next_source_agrees(s);
    if let Flow::Done(reason, s1) = s.next_source() {
        let s2 = s1.say(reason.text());
        lemma_quiet_location(s2);
        lemma_quiet_agrees(s1, s2.print_current_location().state());
    }
}

/// A command that changes nothing about breakpoints, carried out, keeps the agreement.
pub(crate) proof fn lemma_quiet_flow<A>(s: ArmShape, flow: Flow<A, ArmShape>)
    requires
        agreed(s),
        quiet(s, flow.state()),
    ensures
        agreed(flow.state()),
{
    lemma_quiet_agrees(s, flow.state());
}

/// Whatever the user types, a command that was carried out keeps the agreement.
pub proof fn lemma_command_agrees(s: ArmShape, line: Seq<char>)
    requires
        agreed(s),
    ensures
        s.handle_command(line) matches Flow::Done(_, e) ==> agreed(e),
{
    let tokens = words_of(line);
    if tokens.len() > 0 && !either(tokens[0], "quit"@, "q"@) {
        let word = tokens[0];
        if either(word, "continue"@, "c"@) || either(word, "stepi"@, "si"@) {
            lemma_quiet_run(s);
            lemma_quiet_flow(s, s.run_command(tokens));
        } else if either(word, "step"@, "s"@) {
            lemma_quiet_question(s, tokens);
            lemma_quiet_flow(s, s.run_command(tokens));
        } else if either(word, "next"@, "n"@) {
            lemma_next_command_agrees(s);
        } else if either(word, "break"@, "b"@) {
            lemma_break_command_agrees(s, tokens);
        } else if either(word, "delete"@, "clear"@) {
            lemma_clear_command_agrees(s, tokens);
        } else {
            lemma_quiet_registers(s, tokens);
            lemma_quiet_memory(s, tokens);
            lemma_quiet_backtrace(s);
            lemma_quiet_run(s);
            lemma_quiet_question(s, tokens);
            lemma_quiet_flow(s, s.run_command(tokens));
        }
    }
}

/// A session starts in agreement: with no breakpoints, and none asked for.
pub proof fn lemma_start_agrees(s: ArmShape)
    requires
        s.breakpoints.len() == 0,
        s.talk.heard.len() == 0,
    ensures
        agreed(s.initialize_remote().state()),
{
    assert(agreed(s));
    let s0 = s.say("Connected to ARM GDB remote target at "@ + s.endpoint + " for "@ + s.program);
    reveal_strlit("qSupported");
    reveal_strlit("?");
    assert("qSupported"@[0] == 'q' && "?"@[0] == '?');
    lemma_quiet_packet(s0, "qSupported"@);
    if let Flow::Done(_, s1) = s0.send_packet("qSupported"@) {
        lemma_quiet_packet(s1, "?"@);
    }
    if let Flow::Done(stop, s2) = s0.initial_stop() {
        let t = if stop.0.len() == 0 {
            s2
        } else {
            s2.say("Remote features: "@ + stop.0)
        };
        lemma_quiet_location(t.say(stop.1.text()));
    }
    lemma_quiet_agrees(s, s.initialize_remote().state());
}

} // verus!
