//! What a session at the prompt shows and does when the process stops, and what is printed.
use vstd::prelude::*;

use crate::dialogue::{CallShape, FaultShape, Flow, ReplyShape, SignalInfo, TalkShape};
use crate::number::{hex_of, hex_padded_of, pad_end_of, signed_dec_of};
use crate::target::FrameShape;

use super::asks::lemma_stop_clears_the_way;
use super::backtrace::frame_line;
use super::breakpoint::bp_at;
use super::debugger::PtraceShape;
use super::invariants::in_order;
use super::registers::{register_at, register_name, NUMBER_OF_REGISTERS};
use super::stops::goes_on;
use super::world::{lemma_goes_on, lemma_saw_parts, saw, World};

verus! {

// ---------------------------------------------------------------------------
// Printing

/// Frames are printed one on each line, in their order, and nothing else changes.
pub proof fn lemma_frames_are_printed(s: PtraceShape, frames: Seq<FrameShape>)
    ensures
        s.say_frames(frames) == (PtraceShape {
            talk: TalkShape {
                out: s.talk.out + Seq::new(
                    frames.len(),
                    |i: int| frame_line(frames[i]) + "\n"@,
                ).flatten_alt(),
                ..s.talk
            },
            ..s
        }),
    decreases frames.len(),
{
    let lines = Seq::new(frames.len(), |i: int| frame_line(frames[i]) + "\n"@);
    if frames.len() == 0 {
        assert(s.talk.out + lines.flatten_alt() =~= s.talk.out);
    } else {
        let less = frames.drop_last();
        lemma_frames_are_printed(s, less);
        let less_lines = Seq::new(less.len(), |i: int| frame_line(less[i]) + "\n"@);
        assert(lines.drop_last() =~= less_lines);
        assert(s.talk.out + lines.flatten_alt() =~= s.talk.out + less_lines.flatten_alt()
            + frame_line(frames.last()) + "\n"@);
    }
}

/// A backtrace is printed under a heading, with all its frames.
pub proof fn lemma_backtrace_is_printed(s: PtraceShape)
    ensures
        s.print_backtrace() matches Flow::Done(_, e) ==> {
            &&& s.say("Backtrace:"@).collect_backtrace() matches Flow::Done(frames, t)
            &&& e.talk.out == t.talk.out + Seq::new(
                frames.len(),
                |i: int| frame_line(frames[i]) + "\n"@,
            ).flatten_alt()
            &&& e.talk.heard == t.talk.heard
        },
{
    if let Flow::Done(frames, t) = s.say("Backtrace:"@).collect_backtrace() {
        lemma_frames_are_printed(t, frames);
    }
}

/// The lines of all registers from one place in their list on.
pub open spec fn register_lines(w: World, from: int) -> Seq<Seq<char>> {
    Seq::new(
        (NUMBER_OF_REGISTERS - from) as nat,
        |i: int|
            pad_end_of(register_name(register_at(from + i)), 10, ' ') + "  "@ + hex_padded_of(
                w.regs.value_of(register_at(from + i)) as nat,
                16,
            ) + "\n"@,
    )
}

proof fn lemma_registers_printed(s: PtraceShape, from: int, w: World)
    requires
        0 <= from <= NUMBER_OF_REGISTERS,
    ensures
        s.dump_registers(from) matches Flow::Done(_, e) ==> {
            &&& goes_on(s.talk, e.talk)
            &&& saw(s, e, w) ==> e.talk.out == s.talk.out + register_lines(w, from).flatten()
        },
    decreases NUMBER_OF_REGISTERS - from,
{
    let lines = register_lines(w, from);
    if from < NUMBER_OF_REGISTERS {
        let r = register_at(from);
        if let Flow::Done(value, t) = s.get_register(r) {
            let u = t.say(super::command_handler::register_line(r, value));
            lemma_registers_printed(u, from + 1, w);
            if let Flow::Done(_, e) = s.dump_registers(from) {
                lemma_goes_on(s, u, e);
                if saw(s, e, w) {
                    lemma_saw_parts(s, u, e, w);
                    let n = s.talk.heard.len() as int;
                    assert(w.tells(e.talk.heard[n].0, e.talk.heard[n].1));
                    assert(e.talk.heard[n] == t.talk.heard[n]);
                    assert(value == w.regs.value_of(r));
                    assert(lines.drop_first() =~= register_lines(w, from + 1));
                    assert(e.talk.out =~= s.talk.out + lines.flatten());
                }
            }
        }
    } else {
        assert(s.talk.out + lines.flatten() =~= s.talk.out);
    }
}

/// A dump of the registers prints all of them, each with its name and the value it has.
pub proof fn lemma_registers_are_printed(s: PtraceShape, tokens: Seq<Seq<char>>, w: World)
    requires
        tokens.len() > 1,
        tokens[1] == "dump"@,
    ensures
        s.cmd_register(tokens) matches Flow::Done(_, e) ==> saw(s, e, w) ==> e.talk.out == s.talk.out
            + register_lines(w, 0).flatten(),
{
    reveal_strlit("dump");
    reveal_strlit("read");
    reveal_strlit("write");
    lemma_registers_printed(s, 0, w);
}

// ---------------------------------------------------------------------------
// Stops

/// A process that has crashed is not stepped: nothing is asked for and nothing changes but what is
/// printed.
pub proof fn lemma_crashed_stays_put(s: PtraceShape)
    requires
        s.has_crashed,
    ensures
        is_refused(s, s.single_step()),
        is_refused(s, s.step_in()),
        is_refused(s, s.step_over()),
        is_refused(s, s.step_out()),
{
    reveal_strlit("\n");
    assert(s.single_step()->Done_1.talk.out.len() > s.talk.out.len());
    assert(s.step_in()->Done_1.talk.out.len() > s.talk.out.len());
    assert(s.step_over()->Done_1.talk.out.len() > s.talk.out.len());
    assert(s.step_out()->Done_1.talk.out.len() > s.talk.out.len());
}

/// A command only printed something.
pub open spec fn is_refused(s: PtraceShape, flow: Flow<(), PtraceShape>) -> bool {
    flow matches Flow::Done(_, e) && e == (PtraceShape {
        talk: TalkShape { out: e.talk.out, ..s.talk },
        ..s
    }) && e.talk.out != s.talk.out
}

/// After a segmentation fault the process is not running and has crashed, and the reason and the
/// address are printed.
pub proof fn lemma_crash_is_noted(s: PtraceShape)
    ensures
        s.on_stop("SIGSEGV"@) matches Flow::Done(_, e) ==> {
            &&& !e.is_executing
            &&& e.has_crashed
            &&& e.breakpoints == s.breakpoints
            &&& e.temps == s.temps
            &&& e.talk.heard.len() == s.talk.heard.len() + 1
            &&& e.talk.heard.last().0 == CallShape::SignalInfo
            &&& e.talk.heard.last().1 matches ReplyShape::Signal(Ok(info)) && e.talk.out
                == s.talk.out + ("Stopped by "@ + "SIGSEGV"@) + "\n"@ + (
            "Segfault! Reason Code: "@ + signed_dec_of(info.code as int) + ", Address 0x"@
                + hex_of(info.address as nat)) + "\n"@
                + "Program has crashed. Use 'continue' to re-deliver the signal and terminate, or restart the debugger."@
                + "\n"@
        },
{
    reveal_strlit("SIGSEGV");
    reveal_strlit("SIGTRAP");
    assert("SIGSEGV"@[3] != "SIGTRAP"@[3]);
}

/// A stop at a breakpoint is reported at the address of the breakpoint, which is one byte before
/// where the process stands; without a breakpoint it is reported where the process stands. The
/// breakpoint is passed, and no breakpoint for one time is left up to there.
#[verifier::rlimit(50)]
pub proof fn lemma_breakpoint_is_reported(s: PtraceShape, reported: u64, s1: PtraceShape)
    requires
        in_order(s),
        s.get_pc() == Flow::<u64, PtraceShape>::Done(reported, s1),
        reported > 0,
    ensures
        s.breakpoint_stop() matches Flow::Done(_, e) ==> {
            let hit = bp_at(s.breakpoints, (reported - 1) as u64) is Some;
            let pc = if hit {
                (reported - 1) as u64
            } else {
                reported
            };
            &&& !e.is_executing
            &&& forall|a: u64| #[trigger] e.temps.contains(a) ==> a > pc
            &&& s1.say("PC = 0x"@ + hex_of(pc as nat)).format_location(pc) matches Flow::Done(
                place,
                s2,
            )
            &&& s2.say(place).print_current_source() matches Flow::Done(_, s3)
            &&& s3.leave_breakpoint(hit, (reported - 1) as u64, pc) == Flow::<
                (),
                PtraceShape,
            >::Done((), e)
        },
{
    if let Flow::Done(_, e) = s.breakpoint_stop() {
        let back = (reported - 1) as u64;
        let hit = bp_at(s.breakpoints, back) is Some;
        let pc = if hit {
            back
        } else {
            reported
        };
        let t = s1.say("PC = 0x"@ + hex_of(pc as nat));
        let s2 = t.format_location(pc)->Done_1;
        let place = t.format_location(pc)->Done_0;
        let s3 = s2.say(place).print_current_source()->Done_1;
        super::invariants::lemma_looking(t, pc);
        super::invariants::lemma_looking(s2.say(place), pc);
        assert(in_order(s3));
        lemma_stop_clears_the_way(s3, hit, back, pc);
    }
}

/// A trap is a stop at a breakpoint where the signal comes from a breakpoint or from the kernel, and
/// nothing but what is printed changes otherwise.
pub proof fn lemma_traps(s: PtraceShape, info: SignalInfo, t: PtraceShape)
    requires
        s.on_talk(s.talk.signal_info()) == Flow::<SignalInfo, PtraceShape>::Done(info, t),
    ensures
        info.code == 1 || info.code == 0x80 ==> s.handle_sigtrap() == t.breakpoint_stop(),
        info.code != 1 && info.code != 0x80 ==> is_refused(t, s.handle_sigtrap()),
{
    if info.code != 1 && info.code != 0x80 {
        let e = s.handle_sigtrap()->Done_1;
        reveal_strlit("\n");
        assert(e.talk.out.len() > t.talk.out.len());
    }
}

/// The session goes on after a stop and ends where the process does; nothing is waited for where
/// the process is not running.
pub proof fn lemma_session_goes_on(s: PtraceShape)
    ensures
        !s.is_executing ==> s.before_prompt() == Flow::<bool, PtraceShape>::Done(true, s),
        s.is_executing ==> (s.before_prompt() matches Flow::Done(more, e) ==> {
            &&& s.wait() matches Flow::Done(status, t)
            &&& status.state is Stopped ==> more && (t.on_stop(status.state->Stopped_0)
                matches Flow::Done(_, end) && end == e)
            &&& status.state is Exited || status.state is Signaled ==> !more && e.breakpoints
                == s.breakpoints && e.temps == s.temps
        }),
{
}

/// A signal that is neither a trap nor a fault stops the process, and nothing else changes but what
/// is printed.
pub proof fn lemma_other_signals(s: PtraceShape, sig: Seq<char>)
    requires
        sig != "SIGTRAP"@,
        sig != "SIGSEGV"@,
    ensures
        s.on_stop(sig) matches Flow::Done(_, e) && e == (PtraceShape {
            is_executing: false,
            talk: TalkShape {
                out: s.talk.out + ("Stopped by "@ + sig) + "\n"@ + ("Got signal: "@ + sig) + "\n"@,
                ..s.talk
            },
            ..s
        }),
{
}

// ---------------------------------------------------------------------------
// Output

/// The output that is taken is all that the process has put out, piece by piece, up to where there
/// is no more.
pub proof fn lemma_output_is_whole(
    s: PtraceShape,
    before: Seq<u8>,
    pieces: Seq<Seq<u8>>,
    name: Seq<char>,
    text: Seq<char>,
)
    requires
        name == "EAGAIN"@ || name == "EIO"@,
        forall|i: int| 0 <= i < pieces.len() ==> (#[trigger] pieces[i]).len() > 0,
        s.talk.replies == Seq::new(
            pieces.len() + 1,
            |i: int|
                ReplyShape::Output(
                    if i < pieces.len() {
                        Ok(pieces[i])
                    } else {
                        Err(FaultShape::Sys(name, text))
                    },
                ),
        ),
    ensures
        s.read_output(before) matches Flow::Done(bytes, e) && bytes == before + pieces.flatten()
            && e.talk.replies.len() == 0,
    decreases pieces.len(),
{
    if pieces.len() == 0 {
        assert(s.talk.replies[0] == ReplyShape::Output(Err(FaultShape::Sys(name, text))));
        assert(before + pieces.flatten() =~= before);
    } else {
        assert(s.talk.replies[0] == ReplyShape::Output(Ok(pieces[0])));
        let t = s.on_talk(s.talk.output())->Done_1;
        let rest = pieces.drop_first();
        assert(t.talk.replies =~= Seq::new(
            rest.len() + 1,
            |i: int|
                ReplyShape::Output(
                    if i < rest.len() {
                        Ok(rest[i])
                    } else {
                        Err(FaultShape::Sys(name, text))
                    },
                ),
        ));
        assert forall|i: int| 0 <= i < rest.len() implies (#[trigger] rest[i]).len() > 0 by {
            assert(rest[i] == pieces[i + 1]);
        }
        lemma_output_is_whole(t, before + pieces[0], rest, name, text);
        assert(before + pieces[0] + rest.flatten() =~= before + pieces.flatten());
    }
}

/// At the end of a session no breakpoint for one time is left, unless one could not be taken out.
pub proof fn lemma_end_clears_temps(s: PtraceShape)
    requires
        in_order(s),
        !s.plain,
    ensures
        s.cleanup_temps(s.temps) is Done ==> (s.session_end() matches Flow::Done(_, e)
            && e.temps.len() == 0),
{
    super::asks::lemma_temps_go(s, s.temps);
    if let Flow::Done(_, t) = s.cleanup_temps(s.temps) {
        if t.temps.len() > 0 {
            let a = t.temps[0];
            assert(t.temps.contains(a));
            let i = choose|i: int| 0 <= i < s.temps.len() && s.temps[i] == a;
            assert(!t.temps.contains(s.temps[i]));
        }
    }
}

} // verus!
