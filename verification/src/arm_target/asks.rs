//! What the commands of a remote session ask of the stub, and what its replies mean.
use vstd::prelude::*;
use vstd::utf8::encode_utf8;

use crate::dialogue::{CallShape, Flow, ReplyShape};
use crate::number::{dec_of, hex_of, lemma_dec_reads_back_within, lemma_hex_reads_back};
use crate::text::begins;
use crate::words::join_of;

use super::debugger::ArmShape;
use super::gdb_protocol::{
    hex_bytes_of, hex_text_of, hex_value_of, le_bytes_of, le_hex_of, lemma_hex_bytes_round_trip,
    lemma_le_bytes, lemma_register_round_trip,
};
use super::registers::{core_name, lemma_core_names};
use super::target_impl::reset_halt_bytes;

verus! {

/// A number as a user writes an address.
pub open spec fn written(n: u64) -> Seq<char> {
    "0x"@ + hex_of(n as nat)
}

/// A number that is written as an address is read as that number.
pub proof fn lemma_written(n: u64)
    ensures
        hex_value_of(written(n)) == Ok::<u64, Seq<Seq<char>>>(n),
        begins(written(n), "0x"@),
{
    lemma_hex_reads_back(n);
    reveal_strlit("0x");
    assert(written(n).take(2) =~= "0x"@);
    assert(written(n).skip(2) =~= hex_of(n as nat));
}

/// A number that tells words apart.
spec fn mark(word: Seq<char>) -> int {
    word.len() * 0x1000000 + word[0] as int * 0x1000 + word.last() as int
}

/// The words of the commands are all different.
proof fn lemma_marks()
    ensures
        mark("continue"@) == 8 * 0x1000000 + 0x63 * 0x1000 + 0x65,
        mark("c"@) == 1 * 0x1000000 + 0x63 * 0x1000 + 0x63,
        mark("stepi"@) == 5 * 0x1000000 + 0x73 * 0x1000 + 0x69,
        mark("si"@) == 2 * 0x1000000 + 0x73 * 0x1000 + 0x69,
        mark("step"@) == 4 * 0x1000000 + 0x73 * 0x1000 + 0x70,
        mark("s"@) == 1 * 0x1000000 + 0x73 * 0x1000 + 0x73,
        mark("next"@) == 4 * 0x1000000 + 0x6e * 0x1000 + 0x74,
        mark("n"@) == 1 * 0x1000000 + 0x6e * 0x1000 + 0x6e,
        mark("break"@) == 5 * 0x1000000 + 0x62 * 0x1000 + 0x6b,
        mark("b"@) == 1 * 0x1000000 + 0x62 * 0x1000 + 0x62,
        mark("delete"@) == 6 * 0x1000000 + 0x64 * 0x1000 + 0x65,
        mark("clear"@) == 5 * 0x1000000 + 0x63 * 0x1000 + 0x72,
        mark("register"@) == 8 * 0x1000000 + 0x72 * 0x1000 + 0x72,
        mark("memory"@) == 6 * 0x1000000 + 0x6d * 0x1000 + 0x79,
        mark("backtrace"@) == 9 * 0x1000000 + 0x62 * 0x1000 + 0x65,
        mark("bt"@) == 2 * 0x1000000 + 0x62 * 0x1000 + 0x74,
        mark("halt"@) == 4 * 0x1000000 + 0x68 * 0x1000 + 0x74,
        mark("reset"@) == 5 * 0x1000000 + 0x72 * 0x1000 + 0x74,
        mark("monitor"@) == 7 * 0x1000000 + 0x6d * 0x1000 + 0x72,
        mark("dump"@) == 4 * 0x1000000 + 0x64 * 0x1000 + 0x70,
        mark("read"@) == 4 * 0x1000000 + 0x72 * 0x1000 + 0x64,
        mark("write"@) == 5 * 0x1000000 + 0x77 * 0x1000 + 0x65,
{
    reveal_strlit("continue");
    reveal_strlit("c");
    reveal_strlit("stepi");
    reveal_strlit("si");
    reveal_strlit("step");
    reveal_strlit("s");
    reveal_strlit("next");
    reveal_strlit("n");
    reveal_strlit("break");
    reveal_strlit("b");
    reveal_strlit("delete");
    reveal_strlit("clear");
    reveal_strlit("register");
    reveal_strlit("memory");
    reveal_strlit("backtrace");
    reveal_strlit("bt");
    reveal_strlit("halt");
    reveal_strlit("reset");
    reveal_strlit("monitor");
    reveal_strlit("dump");
    reveal_strlit("read");
    reveal_strlit("write");
}

/// A flow waits for the reply to a call.
pub open spec fn asks<A>(flow: Flow<A, ArmShape>, call: CallShape) -> bool {
    flow matches Flow::Ask(asked, _) && asked == call
}

/// What the commands that run the target ask for first: to go on, for one step, or for a halt.
pub proof fn lemma_running_asks(s: ArmShape, tokens: Seq<Seq<char>>)
    requires
        s.talk.replies.len() == 0,
        tokens.len() > 0,
    ensures
        tokens[0] == "continue"@ || tokens[0] == "c"@ ==> asks(
            s.run_command(tokens),
            CallShape::Resume("c"@),
        ),
        tokens[0] == "stepi"@ || tokens[0] == "si"@ ==> asks(
            s.run_command(tokens),
            CallShape::Exchange("s"@),
        ),
        tokens[0] == "halt"@ ==> asks(s.run_command(tokens), CallShape::Interrupt),
        tokens[0] == "reset"@ ==> asks(
            s.run_command(tokens),
            CallShape::Exchange("qRcmd,"@ + hex_text_of(encode_utf8("reset halt"@))),
        ),
        tokens[0] == "monitor"@ && tokens.len() > 1 ==> asks(
            s.run_command(tokens),
            CallShape::Exchange(
                "qRcmd,"@ + hex_text_of(encode_utf8(join_of(tokens.skip(1), " "@))),
            ),
        ),
{
    lemma_marks();
    let m = mark(tokens[0]);
}

/// The commands that step by source lines and that show callers are those operations.
pub proof fn lemma_stepping_commands(s: ArmShape, tokens: Seq<Seq<char>>)
    requires
        tokens.len() > 0,
    ensures
        tokens[0] == "step"@ || tokens[0] == "s"@ ==> s.run_command(tokens) == s.cmd_step(),
        tokens[0] == "next"@ || tokens[0] == "n"@ ==> s.run_command(tokens) == s.cmd_next(),
        tokens[0] == "backtrace"@ || tokens[0] == "bt"@ ==> s.run_command(tokens)
            == s.print_backtrace(),
{
    lemma_marks();
    let m = mark(tokens[0]);
}

/// What the commands for breakpoints ask for: a hardware breakpoint on the Thumb instruction at the
/// even address, or to take it out.
pub proof fn lemma_breakpoints_ask(s: ArmShape, tokens: Seq<Seq<char>>, addr: u64)
    requires
        s.talk.replies.len() == 0,
        tokens.len() > 1,
        tokens[1] == written(addr),
    ensures
        (tokens[0] == "break"@ || tokens[0] == "b"@) && !s.breakpoints.contains(
            (addr - addr % 2) as u64,
        ) ==> asks(
            s.run_command(tokens),
            CallShape::Exchange("Z1"@ + ","@ + hex_of((addr - addr % 2) as nat) + ",2"@),
        ),
        tokens[0] == "clear"@ && s.breakpoints.contains((addr - addr % 2) as u64) ==> asks(
            s.run_command(tokens),
            CallShape::Exchange("z1"@ + ","@ + hex_of((addr - addr % 2) as nat) + ",2"@),
        ),
{
    lemma_marks();
    lemma_written(addr);
    let m = mark(tokens[0]);
}

/// What the commands for registers and memory ask for.
pub proof fn lemma_looking_asks(
    s: ArmShape,
    tokens: Seq<Seq<char>>,
    index: int,
    addr: u64,
    value: u64,
    len: u64,
)
    requires
        s.talk.replies.len() == 0,
        tokens.len() > 2,
        0 <= index < 17,
        len <= usize::MAX,
    ensures
        tokens[0] == "register"@ && tokens[1] == "dump"@ ==> asks(
            s.run_command(tokens),
            CallShape::Exchange("g"@),
        ),
        tokens[0] == "register"@ && tokens[1] == "read"@ && tokens[2] == core_name(index) ==> asks(
            s.run_command(tokens),
            CallShape::Exchange("p"@ + hex_of(index as nat)),
        ),
        tokens[0] == "register"@ && tokens[1] == "write"@ && tokens[2] == core_name(index)
            && tokens.len() > 3 && tokens[3] == written(value) ==> asks(
            s.run_command(tokens),
            CallShape::Exchange(
                "P"@ + hex_of(index as nat) + "="@ + hex_text_of(le_bytes_of(value as u32)),
            ),
        ),
        tokens[0] == "memory"@ && tokens[1] == "read"@ && tokens[2] == written(addr) && tokens.len()
            == 3 ==> asks(
            s.run_command(tokens),
            CallShape::Exchange("m"@ + hex_of(addr as nat) + ","@ + hex_of(4)),
        ),
        tokens[0] == "memory"@ && tokens[1] == "read"@ && tokens[2] == written(addr) && tokens.len()
            > 3 && tokens[3] == dec_of(len as nat) ==> asks(
            s.run_command(tokens),
            CallShape::Exchange("m"@ + hex_of(addr as nat) + ","@ + hex_of(len as nat)),
        ),
        tokens[0] == "memory"@ && tokens[1] == "write"@ && tokens[2] == written(addr)
            && tokens.len() > 3 && tokens[3] == written(value) ==> asks(
            s.run_command(tokens),
            CallShape::Exchange(
                "M"@ + hex_of(addr as nat) + ","@ + hex_of(4) + ":"@ + hex_text_of(
                    le_bytes_of(value as u32),
                ),
            ),
        ),
{
    lemma_marks();
    lemma_written(addr);
    lemma_written(value);
    lemma_core_names(index);
    lemma_le_bytes(value as u32);
    lemma_dec_reads_back_within(len as nat, usize::MAX as nat);
    let m = mark(tokens[0]);
    let n = mark(tokens[1]);
}

// ---------------------------------------------------------------------------
// What the replies mean

/// The first reply of a stub is a packet.
pub open spec fn replies_with(s: ArmShape, packet: Seq<char>) -> bool {
    s.talk.replies.len() > 0 && s.talk.replies[0] == ReplyShape::Packet(Ok(packet))
}

/// One call was answered on the way from one state to another, which differ in nothing else.
pub open spec fn exchanged(s: ArmShape, e: ArmShape, call: CallShape) -> bool {
    &&& e == (ArmShape { talk: e.talk, ..s })
    &&& e.talk.heard == s.talk.heard.push((call, s.talk.replies[0]))
    &&& e.talk.replies == s.talk.replies.drop_first()
    &&& e.talk.out == s.talk.out
}

/// A text of hex digits does not start as an error does.
pub(crate) proof fn lemma_no_error(bytes: Seq<u8>)
    ensures
        !begins(hex_text_of(bytes), "E"@),
{
    reveal_strlit("E");
    let text = hex_text_of(bytes);
    if begins(text, "E"@) {
        assert(text.take(1)[0] == 'E');
        assert(text[0] == crate::number::digit_char_of((bytes[0] / 16) as int));
    }
}

/// A register whose four bytes a stub sends, the least significant first, is read as their number.
pub proof fn lemma_register_is_read(s: ArmShape, index: usize, value: u32)
    requires
        replies_with(s, hex_text_of(le_bytes_of(value))),
    ensures
        s.read_register(index) matches Flow::Done(read, e) && read == value && exchanged(
            s,
            e,
            CallShape::Exchange("p"@ + hex_of(index as nat)),
        ),
{
    lemma_no_error(le_bytes_of(value));
    lemma_le_bytes(value);
    lemma_register_round_trip(value);
}

/// The program counter is that register without its lowest bit.
pub proof fn lemma_pc_is_read(s: ArmShape, value: u32)
    requires
        replies_with(s, hex_text_of(le_bytes_of(value))),
    ensures
        s.arm_pc() matches Flow::Done(pc, e) && pc == value - value % 2 && exchanged(
            s,
            e,
            CallShape::Exchange("p"@ + hex_of(15)),
        ),
{
    lemma_register_is_read(s, 15, value);
}

/// The bytes that a stub sends are what is read of memory.
pub proof fn lemma_memory_is_read(s: ArmShape, addr: u64, len: usize, bytes: Seq<u8>)
    requires
        replies_with(s, hex_text_of(bytes)),
    ensures
        s.read_memory(addr, len) matches Flow::Done(read, e) && read == bytes && exchanged(
            s,
            e,
            CallShape::Exchange("m"@ + hex_of(addr as nat) + ","@ + hex_of(len as nat)),
        ),
{
    lemma_no_error(bytes);
    lemma_hex_bytes_round_trip(bytes);
}

/// Bytes are written to memory by a packet that says how many they are and holds their digits; the
/// write succeeds exactly where the stub says so.
pub proof fn lemma_memory_is_written(s: ArmShape, addr: u64, bytes: Seq<u8>, reply: Seq<char>)
    requires
        replies_with(s, reply),
    ensures
        (s.write_memory(addr, bytes) is Done) == (reply == "OK"@),
        !(s.write_memory(addr, bytes) is Ask),
        exchanged(
            s,
            s.write_memory(addr, bytes).state(),
            CallShape::Exchange(
                "M"@ + hex_of(addr as nat) + ","@ + hex_of(bytes.len()) + ":"@ + hex_text_of(bytes),
            ),
        ),
        hex_bytes_of(hex_text_of(bytes)) == Ok::<Seq<u8>, Seq<Seq<char>>>(bytes),
{
    lemma_hex_bytes_round_trip(bytes);
}

/// A register is written by a packet with its number and its four bytes, which read back as the
/// value; the write succeeds exactly where the stub says so.
pub proof fn lemma_register_is_written(s: ArmShape, index: usize, value: u64, reply: Seq<char>)
    requires
        replies_with(s, reply),
    ensures
        (s.write_register(index, value) is Done) == (reply == "OK"@),
        !(s.write_register(index, value) is Ask),
        exchanged(
            s,
            s.write_register(index, value).state(),
            CallShape::Exchange(
                "P"@ + hex_of(index as nat) + "="@ + hex_text_of(le_bytes_of(value as u32)),
            ),
        ),
        le_hex_of(hex_text_of(le_bytes_of(value as u32))) == Ok::<u32, Seq<Seq<char>>>(
            value as u32,
        ),
{
    lemma_register_round_trip(value as u32);
}

/// The command that resets the target sends the words for that.
pub proof fn lemma_reset_words()
    ensures
        reset_halt_bytes() == encode_utf8("reset halt"@),
{
    reveal_strlit("reset halt");
    let text = "reset halt"@;
    assert(vstd::utf8::is_ascii_chars(text));
    vstd::utf8::is_ascii_chars_encode_utf8(text);
    assert(reset_halt_bytes() =~= encode_utf8(text));
}

// ---------------------------------------------------------------------------
// Stepping at the prompt

/// A source step at the prompt goes on exactly where an instruction was executed after which the
/// target is still there and on the source line that the step started on, be it in another file or
/// not.
pub proof fn lemma_prompt_step_stays_on_line(
    s: ArmShape,
    start: Option<(Seq<char>, u64)>,
    left: nat,
)
    ensures
        s.repl_step_round(start, left) matches Flow::Done(true, e) ==> {
            &&& left > 0
            &&& s.send_packet("s"@) matches Flow::Done(reply, t)
            &&& reply.len() == 0 || (reply[0] != 'W' && reply[0] != 'X')
            &&& t.current_line() == Flow::<Option<(Seq<char>, u64)>, ArmShape>::Done(start, e)
        },
        left > 0 ==> (s.send_packet("s"@) matches Flow::Done(reply, t) ==> {
            &&& reply.len() > 0 && (reply[0] == 'W' || reply[0] == 'X') ==> (s.repl_step_round(
                start,
                left,
            ) matches Flow::Done(false, e) && e.talk.heard == t.talk.heard)
            &&& reply.len() == 0 || (reply[0] != 'W' && reply[0] != 'X') ==> (
            t.current_line() matches Flow::Done(line, u) ==> {
                &&& line == start ==> s.repl_step_round(start, left) == Flow::<
                    bool,
                    ArmShape,
                >::Done(true, u)
                &&& line != start ==> !(s.repl_step_round(start, left) matches Flow::Done(true, _))
            })
        }),
{
    reveal_strlit("W");
    reveal_strlit("X");
    if let Flow::Done(reply, _) = s.send_packet("s"@) {
        if reply.len() > 0 {
            assert(reply.take(1)[0] == reply[0]);
            if reply[0] == 'W' {
                assert(reply.take(1) =~= "W"@);
            }
            if reply[0] == 'X' {
                assert(reply.take(1) =~= "X"@);
            }
        }
    }
}

/// The state after so many instructions of a source step at the prompt, all of which left the
/// target on the line.
pub open spec fn after_rounds(
    s: ArmShape,
    start: Option<(Seq<char>, u64)>,
    left: nat,
    n: nat,
) -> Option<ArmShape>
    decreases n,
{
    if n == 0 {
        Some(s)
    } else {
        match s.repl_step_round(start, left) {
            Flow::Done(true, t) => after_rounds(t, start, (left - 1) as nat, (n - 1) as nat),
            _ => None,
        }
    }
}

proof fn lemma_prompt_rounds(s: ArmShape, start: Option<(Seq<char>, u64)>, left: nat) -> (n: nat)
    ensures
        s.repl_step_rounds(start, left) matches Flow::Done(_, e) ==> {
            &&& n <= left
            &&& after_rounds(s, start, left, n) matches Some(t)
            &&& t.repl_step_round(start, (left - n) as nat) == Flow::<bool, ArmShape>::Done(false, e)
        },
    decreases left,
{
    lemma_prompt_step_stays_on_line(s, start, left);
    if let Flow::Done(true, t) = s.repl_step_round(start, left) {
        let n = lemma_prompt_rounds(t, start, (left - 1) as nat);
        n + 1
    } else {
        0
    }
}

/// The command that steps to another source line executes instructions up to the first one after
/// which the target is not on the line that it was on, or up to the limit.
pub proof fn lemma_prompt_step_leaves_line(s: ArmShape)
    ensures
        s.cmd_step() matches Flow::Done(_, e) ==> {
            &&& s.current_line() matches Flow::Done(start, s1)
            &&& exists|n: nat, t: ArmShape|
                n <= 4096 && #[trigger] after_rounds(s1, start, 4096, n) == Some(t)
                    && #[trigger] t.repl_step_round(start, (4096 - n) as nat) == Flow::<
                    bool,
                    ArmShape,
                >::Done(false, e)
        },
{
    if let Flow::Done(start, s1) = s.current_line() {
        let n = lemma_prompt_rounds(s1, start, 4096);
        if let Flow::Done(_, e) = s.cmd_step() {
            let t = after_rounds(s1, start, 4096, n)->0;
            assert(t.repl_step_round(start, (4096 - n) as nat) == Flow::<bool, ArmShape>::Done(
                false,
                e,
            ));
            assert(after_rounds(s1, start, 4096, n) == Some(t));
        }
    }
}

} // verus!
