//! What a frontend gets of a remote target, and what it does to it.
use vstd::prelude::*;

use crate::dialogue::{CallShape, Flow, ReplyShape};
use crate::elf_debug_info::{known_function, known_line, line_at, source_addresses, units_in_image};
use crate::number::{
    dec_of, digit_char_of, hex_of, hex_padded_of, lemma_dec_reads_back, pad_end_of,
};
use crate::on_disk::{found_on, is_meant, lemma_source_is_shown, Disk};
use crate::rounds::{after_steps, ends_after};
use crate::target::{
    window_of, DebugTarget, ProgressShape, SourceText, StepShape, StopCause,
};
use crate::text::{begins, lemma_cut_last_at, lossy_text};
use crate::words::lines_of;

use super::asks::{asks, lemma_no_error, replies_with};
use super::debugger::{location_of, ArmShape, RemoteArmDebugger};
use super::gdb_protocol::{
    hex_bytes_of, hex_text_of, is_console_output, le_word_of, lemma_hex_bytes_round_trip,
    signal_name_of, stop_cause_of,
};
use super::registers::{core_name, lemma_core_names};
use super::repl::{dump_of, spaced_bytes};

verus! {

// ---------------------------------------------------------------------------
// Stops

/// A stop reply as a stub sends it: a letter and the two digits of a number, then anything.
pub open spec fn stop_reply(letter: char, code: u8, rest: Seq<char>) -> Seq<char> {
    seq![letter, digit_char_of((code / 16) as int), digit_char_of((code % 16) as int)] + rest
}

/// What a stop reply says: a signal that stopped the program, the code that it exited with, or the
/// signal that ended it.
pub proof fn lemma_stop_replies(code: u8, rest: Seq<char>)
    ensures
        ({
            let label = dec_of(code as nat) + " ("@ + signal_name_of(code) + ")"@;
            &&& stop_cause_of(stop_reply('S', code, rest)) == StopCause::Signal(label)
            &&& stop_cause_of(stop_reply('T', code, rest)) == StopCause::Signal(label)
            &&& stop_cause_of(stop_reply('W', code, rest)) == StopCause::Exited(code as i32)
            &&& stop_cause_of(stop_reply('X', code, rest)) == StopCause::Terminated(label)
        }),
        signal_name_of(2) == "SIGINT"@,
        signal_name_of(3) == "SIGQUIT"@,
        signal_name_of(5) == "SIGTRAP"@,
        signal_name_of(6) == "SIGABRT"@,
        signal_name_of(11) == "SIGSEGV"@,
{
    reveal_strlit("S");
    reveal_strlit("T");
    reveal_strlit("W");
    reveal_strlit("X");
    lemma_letter('S', code, rest);
    lemma_letter('T', code, rest);
    lemma_letter('W', code, rest);
    lemma_letter('X', code, rest);
    assert("S"@ =~= seq!['S'] && "T"@ =~= seq!['T'] && "W"@ =~= seq!['W'] && "X"@ =~= seq!['X']);
    assert(seq!['S'][0] == 'S' && seq!['T'][0] == 'T' && seq!['W'][0] == 'W' && seq!['X'][0] == 'X');
}

proof fn lemma_letter(letter: char, code: u8, rest: Seq<char>)
    ensures
        stop_reply(letter, code, rest).take(1) == seq![letter],
        super::gdb_protocol::signal_byte_of(stop_reply(letter, code, rest).skip(1)) == Some(code),
{
    let reply = stop_reply(letter, code, rest);
    assert(reply.take(1) =~= seq![letter]);
    let digits = reply.skip(1);
    assert(digits[0] == digit_char_of((code / 16) as int));
    assert(digits[1] == digit_char_of((code % 16) as int));
}

// ---------------------------------------------------------------------------
// Instructions

/// Executing an instruction reads the program counter and steps; a breakpoint at the instruction
/// is taken out before and put back after. The answer to the step says why the target stopped.
pub proof fn lemma_instruction_is_executed(s: ArmShape, pc: u64, s1: ArmShape)
    requires
        s.arm_pc() == Flow::<u64, ArmShape>::Done(pc, s1),
    ensures
        s.breakpoints.contains(pc) ==> {
            &&& s1.talk.replies.len() == 0 ==> asks(
                s.step_instruction(),
                CallShape::Exchange("z1"@ + ","@ + hex_of(pc as nat) + ",2"@),
            )
            &&& s.step_instruction() matches Flow::Done(reason, e) ==> {
                &&& s1.remove_remote_breakpoint(pc) matches Flow::Done(_, s2)
                &&& s2.send_packet("s"@) matches Flow::Done(reply, s3)
                &&& s3.insert_remote_breakpoint(pc) == Flow::<(), ArmShape>::Done((), e)
                &&& reason == stop_cause_of(reply)
            }
        },
        !s.breakpoints.contains(pc) ==> {
            &&& s1.talk.replies.len() == 0 ==> asks(s.step_instruction(), CallShape::Exchange("s"@))
            &&& s.step_instruction() matches Flow::Done(reason, e) ==> {
                &&& s1.send_packet("s"@) matches Flow::Done(reply, end)
                &&& end == e
                &&& reason == stop_cause_of(reply)
            }
        },
{
    assert(s1.breakpoints == s.breakpoints);
}

/// Letting the target run and interrupting it are answered with why it stopped.
pub proof fn lemma_run_and_halt(s: ArmShape, reply: Seq<char>)
    requires
        replies_with(s, reply),
    ensures
        RemoteArmDebugger::continue_of(s) matches Flow::Done(reason, e) && reason == stop_cause_of(
            reply,
        ) && e.talk.heard.last().0 == CallShape::Resume("c"@),
        RemoteArmDebugger::halt_of(s) matches Flow::Done(reason, e) && reason == stop_cause_of(reply)
            && e.talk.heard.last().0 == CallShape::Interrupt,
{
}

// ---------------------------------------------------------------------------
// Steps

proof fn lemma_rounds_left(s: ArmShape, step: StepShape, fuel: nat) -> (n: nat)
    requires
        fuel == step.left + 1,
    ensures
        s.step_rounds(step, fuel) matches Flow::Done(reason, e) ==> n <= step.left && ends_after::<
            RemoteArmDebugger,
        >(s, step, n, reason, e),
    decreases fuel,
{
    match s.step_round(step) {
        Flow::Done(ProgressShape::Again(next), t) => {
            let n = lemma_rounds_left(t, next, (fuel - 1) as nat);
            assert(after_steps::<RemoteArmDebugger>(s, step, n + 1) == after_steps::<
                RemoteArmDebugger,
            >(t, next, n));
            n + 1
        },
        _ => 0,
    }
}

/// A source step starts on the line of the program counter, and goes on round by round, for at most
/// 256 instructions, up to the first round that stops it.
pub proof fn lemma_step_source_ends(s: ArmShape)
    ensures
        s.step_source() matches Flow::Done(reason, e) ==> {
            &&& s.arm_pc() matches Flow::Done(pc, s1)
            &&& s.step_begin() matches Flow::Done(step, s2)
            &&& s2 == s1
            &&& step.left == 256
            &&& step.previous_pc == pc
            &&& step.start_place == known_line(s.image, pc)
            &&& exists|n: nat|
                n <= 256 && #[trigger] ends_after::<RemoteArmDebugger>(s1, step, n, reason, e)
        },
{
    if let Flow::Done(step, s1) = s.step_begin() {
        let n = lemma_rounds_left(s1, step, 257);
        if let Flow::Done(reason, e) = s.step_source() {
            assert(ends_after::<RemoteArmDebugger>(s1, step, n, reason, e));
        }
    }
}

// ---------------------------------------------------------------------------
// Registers and source

/// The registers that a frontend is shown are those of the block that the stub sends, four bytes
/// each, under their names.
pub proof fn lemma_registers_are_read(s: ArmShape, bytes: Seq<u8>)
    requires
        replies_with(s, hex_text_of(bytes)),
    ensures
        RemoteArmDebugger::registers_of(s) matches Flow::Done(all, e) && {
            &&& e.talk.heard.last().0 == CallShape::Exchange("g"@)
            &&& bytes.len() >= 68 ==> all.len() == 17
            &&& bytes.len() < 68 ==> all.len() == bytes.len() / 4
            &&& forall|i: int|
                0 <= i < all.len() ==> {
                    &&& (#[trigger] all[i]).name == core_name(i)
                    &&& all[i].value == bytes[4 * i] + 0x100 * bytes[4 * i + 1] + 0x10000 * bytes[4 * i
                        + 2] + 0x1000000 * bytes[4 * i + 3]
                }
        },
{
    lemma_no_error(bytes);
    lemma_hex_bytes_round_trip(bytes);
    if let Flow::Done(all, _) = RemoteArmDebugger::registers_of(s) {
        assert forall|i: int| 0 <= i < all.len() implies (#[trigger] all[i]).value == bytes[4 * i]
            + 0x100 * bytes[4 * i + 1] + 0x10000 * bytes[4 * i + 2] + 0x1000000 * bytes[4 * i
            + 3] by {
            let at = bytes.skip(4 * i);
            assert(at[0] == bytes[4 * i] && at[1] == bytes[4 * i + 1] && at[2] == bytes[4 * i + 2]
                && at[3] == bytes[4 * i + 3]);
            assert(all[i].value == le_word_of(at));
        }
    }
}

/// Where a stub cannot send one register, it is taken from the block of all.
pub proof fn lemma_register_of_block(s: ArmShape, index: usize, refusal: Seq<char>, bytes: Seq<u8>)
    requires
        s.talk.replies.len() == 2,
        s.talk.replies[0] == ReplyShape::Packet(Ok(refusal)),
        s.talk.replies[1] == ReplyShape::Packet(Ok(hex_text_of(bytes))),
        refusal.len() == 0 || begins(refusal, "E"@),
        index < 17,
        4 * index + 4 <= bytes.len(),
    ensures
        s.read_register(index) matches Flow::Done(value, e) && value == bytes[4 * index] + 0x100
            * bytes[4 * index + 1] + 0x10000 * bytes[4 * index + 2] + 0x1000000 * bytes[4 * index
            + 3],
{
    if let Flow::Done(_, t) = s.send_packet("p"@ + hex_of(index as nat)) {
        assert(t.talk.replies[0] == s.talk.replies[1]);
        assert(replies_with(t, hex_text_of(bytes)));
        lemma_no_error(bytes);
        lemma_hex_bytes_round_trip(bytes);
        let at = bytes.skip(4 * index as int);
        assert(at[0] == bytes[4 * index as int] && at[1] == bytes[4 * index + 1] && at[2]
            == bytes[4 * index + 2] && at[3] == bytes[4 * index + 3]);
    }
}

/// Writing a register by its name writes the register of that name.
pub proof fn lemma_register_is_set(s: ArmShape, index: int, value: u32)
    requires
        s.talk.replies.len() == 0,
        0 <= index < 17,
    ensures
        asks(
            RemoteArmDebugger::write_register_of(s, core_name(index), value as u64),
            CallShape::Exchange(
                "P"@ + hex_of(index as nat) + "="@ + hex_text_of(
                    seq![
                        (value % 256) as u8,
                        (value / 256 % 256) as u8,
                        (value / 65536 % 256) as u8,
                        (value / 16777216) as u8,
                    ],
                ),
            ),
        ),
{
    lemma_core_names(index);
}

/// The source that a frontend is shown is that of the line of the program counter.
pub proof fn lemma_current_source(
    s: ArmShape,
    context: usize,
    pc: u64,
    s1: ArmShape,
    file: Seq<char>,
    line: u64,
    disk: Disk,
    meant: Seq<char>,
)
    requires
        s.arm_pc() == Flow::<u64, ArmShape>::Done(pc, s1),
        line_at(units_in_image(s.image), pc) == Ok::<_, Seq<char>>(Some((file, line))),
        is_meant(disk, s.program, file, meant),
        disk.contents.dom().contains(meant),
    ensures
        RemoteArmDebugger::current_source_of(s, context) matches Flow::Done(shown, e) ==> found_on(
            s1.talk,
            e.talk,
            disk,
        ) ==> shown == (SourceText {
            path: Some(meant),
            current_line: Some(line),
            lines: window_of(lines_of(disk.contents[meant]), line as nat, context as nat),
        }),
{
    assert(s1.image == s.image && s1.program == s.program);
    lemma_source_is_shown(s1.talk, s.program, file, line, context, disk, meant);
}

/// The place of an address is told by its function and its source line, as far as they are known.
pub proof fn lemma_location(s: ArmShape, pc: u64, func: Seq<char>, file: Seq<char>, line: u64)
    ensures
        RemoteArmDebugger::location_flow(s, pc) == Flow::<Seq<char>, ArmShape>::Done(
            location_of(s.image, pc),
            s,
        ),
        known_function(s.image, pc) == Some(func) && known_line(s.image, pc) == Some((file, line))
            ==> location_of(s.image, pc) == "At "@ + func + " ("@ + file + ":"@ + dec_of(
            line as nat,
        ) + ")"@,
        known_function(s.image, pc) == Some(func) && known_line(s.image, pc) is None ==> location_of(
            s.image,
            pc,
        ) == "At "@ + func + " (no line info)"@,
        known_function(s.image, pc) is None && known_line(s.image, pc) == Some((file, line))
            ==> location_of(s.image, pc) == "At "@ + file + ":"@ + dec_of(line as nat),
        known_function(s.image, pc) is None && known_line(s.image, pc) is None ==> location_of(
            s.image,
            pc,
        ) == "At 0x"@ + hex_of(pc as nat) + " (no DWARF match)"@,
{
}

// ---------------------------------------------------------------------------
// Breakpoints on source lines

/// A source line as a user writes it.
pub open spec fn written_line(file: Seq<char>, line: u64) -> Seq<char> {
    file + seq![':'] + dec_of(line as nat)
}

/// The command that sets a breakpoint on a source line asks for one at the line's first address,
/// without its lowest bit; where the line has no code it asks for nothing and changes nothing. A
/// frontend is told the same address.
pub proof fn lemma_line_gets_breakpoint(
    s: ArmShape,
    tokens: Seq<Seq<char>>,
    file: Seq<char>,
    line: u64,
    found: Seq<u64>,
)
    requires
        s.talk.replies.len() == 0,
        tokens.len() > 1,
        tokens[1] == written_line(file, line),
        !begins(tokens[1], "0x"@),
        source_addresses(units_in_image(s.image), file, line, Seq::empty()) == Ok::<
            Seq<u64>,
            Seq<char>,
        >(found),
    ensures
        found.len() > 0 ==> {
            let at = (found[0] - found[0] % 2) as u64;
            &&& !s.breakpoints.contains(at) ==> asks(
                s.cmd_break(tokens),
                CallShape::Exchange("Z1"@ + ","@ + hex_of(at as nat) + ",2"@),
            )
            &&& RemoteArmDebugger::source_breakpoint_of(s, file, line) == Flow::<
                Option<u64>,
                ArmShape,
            >::Done(Some(at), s)
        },
        found.len() == 0 ==> {
            &&& s.cmd_break(tokens) matches Flow::Done(_, e) && e.breakpoints == s.breakpoints
                && e.talk.heard == s.talk.heard
            &&& RemoteArmDebugger::source_breakpoint_of(s, file, line) == Flow::<
                Option<u64>,
                ArmShape,
            >::Done(None, s)
        },
{
    lemma_dec_reads_back(line);
    crate::number::lemma_dec_has_no_colon(line as nat);
    lemma_cut_last_at(file, dec_of(line as nat), ':');
    assert(tokens[1][file.len() as int] == ':');
}

/// A frontend is shown exactly the breakpoints that there are, each for good and in use.
pub proof fn lemma_breakpoints_are_shown(s: ArmShape, addr: u64)
    ensures
        s.breakpoints.contains(addr) <==> exists|i: int|
            0 <= i < RemoteArmDebugger::breakpoints_of(s).len()
                && #[trigger] RemoteArmDebugger::breakpoints_of(s)[i].addr == addr,
        forall|i: int|
            0 <= i < RemoteArmDebugger::breakpoints_of(s).len() ==> {
                let view = #[trigger] RemoteArmDebugger::breakpoints_of(s)[i];
                !view.temporary && view.enabled
            },
{
    let views = RemoteArmDebugger::breakpoints_of(s);
    if s.breakpoints.contains(addr) {
        let i = choose|i: int| 0 <= i < s.breakpoints.len() && s.breakpoints[i] == addr;
        assert(views[i].addr == addr);
    }
}

// ---------------------------------------------------------------------------
// Dumps and the output of commands to the stub

/// The bytes of a line of a dump, each with a blank after its two digits.
proof fn lemma_spaced(bytes: Seq<u8>)
    ensures
        spaced_bytes(bytes) == bytes.map_values(
            |b: u8| hex_padded_of(b as nat, 2) + " "@,
        ).flatten_alt(),
    decreases bytes.len(),
{
    let texts = bytes.map_values(|b: u8| hex_padded_of(b as nat, 2) + " "@);
    if bytes.len() > 0 {
        let less = bytes.drop_last();
        lemma_spaced(less);
        let less_texts = less.map_values(|b: u8| hex_padded_of(b as nat, 2) + " "@);
        assert(texts.drop_last() =~= less_texts);
        assert(texts.flatten_alt() =~= less_texts.flatten_alt() + hex_padded_of(
            bytes.last() as nat,
            2,
        ) + " "@);
    }
}

/// A dump starts with a line of sixteen bytes behind their address, and goes on sixteen bytes
/// further; what is left of the bytes stands on its last line.
pub proof fn lemma_dump(addr: u64, line: Seq<u8>, rest: Seq<u8>)
    requires
        line.len() == 16 || (0 < line.len() < 16 && rest.len() == 0),
    ensures
        dump_of(addr, line + rest) == hex_padded_of(addr as nat, 8) + ": "@ + line.map_values(
            |b: u8| hex_padded_of(b as nat, 2) + " "@,
        ).flatten_alt() + "\n"@ + dump_of(
            ((addr + 16) % 0x1_0000_0000_0000_0000) as u64,
            rest,
        ),
        dump_of(addr, Seq::empty()).len() == 0,
{
    lemma_spaced(line);
    assert((line + rest).take(line.len() as int) =~= line);
    assert((line + rest).skip(line.len() as int) =~= rest);
}

/// The output of a command to the stub is printed packet by packet, in order, until the stub says
/// that it is done.
pub proof fn lemma_monitor_output(s: ArmShape, pieces: Seq<Seq<u8>>)
    requires
        pieces.len() > 0,
        s.talk.replies == Seq::new(
            pieces.len(),
            |i: int|
                ReplyShape::Packet(
                    Ok(
                        if i < pieces.len() - 1 {
                            "O"@ + hex_text_of(pieces[i + 1])
                        } else {
                            "OK"@
                        },
                    ),
                ),
        ),
    ensures
        s.monitor_response("O"@ + hex_text_of(pieces[0])) matches Flow::Done(_, e) && {
            &&& e.talk.out == s.talk.out + pieces.map_values(|b: Seq<u8>| lossy_text(b)).flatten()
            &&& e.talk.replies.len() == 0
            &&& e.breakpoints == s.breakpoints
        },
    decreases pieces.len(),
{
    let texts = pieces.map_values(|b: Seq<u8>| lossy_text(b));
    let response = "O"@ + hex_text_of(pieces[0]);
    lemma_output_packet(pieces[0]);
    let t = s.print(lossy_text(pieces[0]));
    let u = t.on_talk(t.talk.packet(CallShape::NextPacket))->Done_1;
    let rest = pieces.drop_first();
    let rest_texts = rest.map_values(|b: Seq<u8>| lossy_text(b));
    assert(texts.drop_first() =~= rest_texts);
    if rest.len() == 0 {
        assert(s.talk.replies[0] == ReplyShape::Packet(Ok("OK"@)));
        lemma_ok_is_no_output();
        assert(u.monitor_response("OK"@) == Flow::<(), ArmShape>::Done((), u));
        assert(s.monitor_response(response) == u.monitor_response("OK"@));
        assert(rest_texts.flatten().len() == 0);
        assert(s.talk.out + texts.flatten() =~= s.talk.out + lossy_text(pieces[0]));
    } else {
        assert(s.talk.replies[0] == ReplyShape::Packet(Ok("O"@ + hex_text_of(pieces[1]))));
        assert(u.talk.replies =~= Seq::new(
            rest.len(),
            |i: int|
                ReplyShape::Packet(
                    Ok(
                        if i < rest.len() - 1 {
                            "O"@ + hex_text_of(rest[i + 1])
                        } else {
                            "OK"@
                        },
                    ),
                ),
        ));
        lemma_monitor_output(u, rest);
        assert(s.monitor_response(response) == u.monitor_response("O"@ + hex_text_of(rest[0])));
        assert(s.talk.out + texts.flatten() =~= s.talk.out + lossy_text(pieces[0])
            + rest_texts.flatten());
    }
}

/// A packet of output holds the bytes that it was made of.
proof fn lemma_output_packet(bytes: Seq<u8>)
    ensures
        is_console_output("O"@ + hex_text_of(bytes)),
        hex_bytes_of(("O"@ + hex_text_of(bytes)).skip(1)) == Ok::<Seq<u8>, Seq<Seq<char>>>(bytes),
{
    reveal_strlit("O");
    let digits = hex_text_of(bytes);
    let packet = "O"@ + digits;
    assert(packet.skip(1) =~= digits);
    assert(packet.take(1) =~= "O"@);
    lemma_hex_bytes_round_trip(bytes);
    assert forall|i: int| 1 <= i < packet.len() implies crate::number::digit_of(
        #[trigger] packet[i],
        16,
    ) is Some by {
        assert(packet[i] == digits[i - 1]);
    }
}

/// The word that ends the output is none.
proof fn lemma_ok_is_no_output()
    ensures
        !is_console_output("OK"@),
{
    reveal_strlit("OK");
    assert("OK"@.len() == 2);
}

/// A dump of the registers prints each of the block on a line of its own, in order.
pub proof fn lemma_registers_are_printed(s: ArmShape, values: Seq<u64>)
    ensures
        s.say_registers(values).talk.out == s.talk.out + Seq::new(
            values.len(),
            |i: int|
                pad_end_of(core_name(i), 10, ' ') + "  "@ + hex_padded_of(values[i] as nat, 8)
                    + "\n"@,
        ).flatten_alt(),
    decreases values.len(),
{
    let lines = Seq::new(
        values.len(),
        |i: int|
            pad_end_of(core_name(i), 10, ' ') + "  "@ + hex_padded_of(values[i] as nat, 8) + "\n"@,
    );
    if values.len() == 0 {
        assert(s.talk.out + lines.flatten_alt() =~= s.talk.out);
    } else {
        let less = values.drop_last();
        lemma_registers_are_printed(s, less);
        let less_lines = Seq::new(
            less.len(),
            |i: int|
                pad_end_of(core_name(i), 10, ' ') + "  "@ + hex_padded_of(less[i] as nat, 8)
                    + "\n"@,
        );
        assert(lines.drop_last() =~= less_lines);
        let last = pad_end_of(core_name(values.len() - 1), 10, ' ') + "  "@ + hex_padded_of(
            values.last() as nat,
            8,
        );
        assert(s.talk.out + lines.flatten_alt() =~= s.talk.out + less_lines.flatten_alt() + last
            + "\n"@);
    }
}

} // verus!
