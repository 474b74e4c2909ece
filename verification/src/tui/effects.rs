//! What the commands of the interface have the target do, and what they leave to be seen.
use vstd::prelude::*;

use crate::arm_target::asks::{lemma_written, written};
use crate::dialogue::{CallShape, Flow, ReplyShape};
use crate::number::{dec_of, hex_padded_of, lemma_dec_reads_back};
use crate::request::{AnswerShape, RequestShape};
use crate::target::{RegisterShape, SnapshotShape, StopCause};
use crate::splitting::lemma_trim;
use crate::text::{begins, first_index, lemma_cut_last_at, lemma_first_index, occurs_at};
use crate::words::{is_space, join_of, trim_newlines_of, words_of};

use super::app::UiShape;
use super::commands::{byte_texts, dump_lines, is_timeout, register_of, says_timeout};
use super::keys::{plain, Key, KeyPress};

verus! {

/// A number that tells words apart.
spec fn mark(word: Seq<char>) -> int {
    word.len() * 0x1000000 + word[0] as int * 0x1000 + word.last() as int
}

/// The words of the commands are all different.
proof fn lemma_marks()
    ensures
        mark("continue"@) == 8 * 0x1000000 + 0x63 * 0x1000 + 0x65,
        mark("c"@) == 1 * 0x1000000 + 0x63 * 0x1000 + 0x63,
        mark("stepi"@) == 5 * 0x1000000 + 0x73 * 0x1000 + 0x69,
        mark("si"@) == 2 * 0x1000000 + 0x73 * 0x1000 + 0x69,
        mark("step"@) == 4 * 0x1000000 + 0x73 * 0x1000 + 0x70,
        mark("s"@) == 1 * 0x1000000 + 0x73 * 0x1000 + 0x73,
        mark("next"@) == 4 * 0x1000000 + 0x6e * 0x1000 + 0x74,
        mark("n"@) == 1 * 0x1000000 + 0x6e * 0x1000 + 0x6e,
        mark("halt"@) == 4 * 0x1000000 + 0x68 * 0x1000 + 0x74,
        mark("reset"@) == 5 * 0x1000000 + 0x72 * 0x1000 + 0x74,
        mark("break"@) == 5 * 0x1000000 + 0x62 * 0x1000 + 0x6b,
        mark("b"@) == 1 * 0x1000000 + 0x62 * 0x1000 + 0x62,
        mark("clear"@) == 5 * 0x1000000 + 0x63 * 0x1000 + 0x72,
        mark("delete"@) == 6 * 0x1000000 + 0x64 * 0x1000 + 0x65,
        mark("register"@) == 8 * 0x1000000 + 0x72 * 0x1000 + 0x72,
        mark("reg"@) == 3 * 0x1000000 + 0x72 * 0x1000 + 0x67,
        mark("memory"@) == 6 * 0x1000000 + 0x6d * 0x1000 + 0x79,
        mark("mem"@) == 3 * 0x1000000 + 0x6d * 0x1000 + 0x6d,
        mark("backtrace"@) == 9 * 0x1000000 + 0x62 * 0x1000 + 0x65,
        mark("bt"@) == 2 * 0x1000000 + 0x62 * 0x1000 + 0x74,
        mark("help"@) == 4 * 0x1000000 + 0x68 * 0x1000 + 0x70,
        mark("h"@) == 1 * 0x1000000 + 0x68 * 0x1000 + 0x68,
        mark("quit"@) == 4 * 0x1000000 + 0x71 * 0x1000 + 0x74,
        mark("q"@) == 1 * 0x1000000 + 0x71 * 0x1000 + 0x71,
        mark("dump"@) == 4 * 0x1000000 + 0x64 * 0x1000 + 0x70,
        mark("read"@) == 4 * 0x1000000 + 0x72 * 0x1000 + 0x64,
        mark("write"@) == 5 * 0x1000000 + 0x77 * 0x1000 + 0x65,
{
    reveal_strlit("continue");
    reveal_strlit("c");
    reveal_strlit("stepi");
    reveal_strlit("si");
    reveal_strlit("step");
    reveal_strlit("s");
    reveal_strlit("next");
    reveal_strlit("n");
    reveal_strlit("halt");
    reveal_strlit("reset");
    reveal_strlit("break");
    reveal_strlit("b");
    reveal_strlit("clear");
    reveal_strlit("delete");
    reveal_strlit("register");
    reveal_strlit("reg");
    reveal_strlit("memory");
    reveal_strlit("mem");
    reveal_strlit("backtrace");
    reveal_strlit("bt");
    reveal_strlit("help");
    reveal_strlit("h");
    reveal_strlit("quit");
    reveal_strlit("q");
    reveal_strlit("dump");
    reveal_strlit("read");
    reveal_strlit("write");
}

/// A flow waits for the target to meet a request.
pub open spec fn wants<A>(flow: Flow<A, UiShape>, request: RequestShape) -> bool {
    flow matches Flow::Ask(call, _) && call == CallShape::Target(request)
}

/// A word is one of two.
pub open spec fn is_one_of(word: Seq<char>, long: Seq<char>, short: Seq<char>) -> bool {
    word == long || word == short
}

/// What each command has the target do first.
#[verifier::rlimit(50)]
pub proof fn lemma_commands_want(
    s: UiShape,
    line: Seq<char>,
    addr: u64,
    value: u64,
    file: Seq<char>,
    number: u64,
)
    requires
        s.talk.replies.len() == 0,
        words_of(line).len() > 0,
    ensures
        ({
            let tokens = words_of(line);
            let word = tokens[0];
            let flow = s.execute_command(line);
            &&& is_one_of(word, "continue"@, "c"@) ==> wants(flow, RequestShape::Continue)
            &&& is_one_of(word, "stepi"@, "si"@) ==> wants(flow, RequestShape::StepInstruction)
            &&& is_one_of(word, "step"@, "s"@) ==> wants(flow, RequestShape::StepSource)
            &&& is_one_of(word, "next"@, "n"@) ==> wants(flow, RequestShape::NextSource)
            &&& word == "halt"@ ==> wants(flow, RequestShape::Halt)
            &&& word == "reset"@ ==> wants(flow, RequestShape::Reset)
            &&& is_one_of(word, "backtrace"@, "bt"@) ==> wants(flow, RequestShape::Snapshot)
            &&& tokens.len() > 1 && tokens[1] == written(addr) ==> {
                &&& is_one_of(word, "break"@, "b"@) ==> wants(
                    flow,
                    RequestShape::SetBreakpoint(addr),
                )
                &&& is_one_of(word, "clear"@, "delete"@) ==> wants(
                    flow,
                    RequestShape::ClearBreakpoint(addr),
                )
            }
            &&& is_one_of(word, "break"@, "b"@) && tokens.len() > 1 && tokens[1] == file + seq![':']
                + dec_of(number as nat) && !begins(tokens[1], "0x"@) ==> wants(
                flow,
                RequestShape::SourceAddress(file, number),
            )
            &&& is_one_of(word, "register"@, "reg"@) && tokens.len() > 2 && tokens[1] == "read"@
                ==> wants(flow, RequestShape::Registers)
            &&& is_one_of(word, "register"@, "reg"@) && tokens.len() > 3 && tokens[1] == "write"@
                && tokens[3] == written(value) ==> wants(
                flow,
                RequestShape::WriteRegister(tokens[2], value),
            )
            &&& is_one_of(word, "memory"@, "mem"@) && tokens.len() == 3 && tokens[1] == "read"@
                && tokens[2] == written(addr) ==> wants(flow, RequestShape::ReadMemory(addr, 16))
            &&& is_one_of(word, "memory"@, "mem"@) && tokens.len() > 3 && tokens[1] == "read"@
                && tokens[2] == written(addr) && tokens[3] == dec_of(number as nat) && number
                <= usize::MAX ==> wants(flow, RequestShape::ReadMemory(addr, number as usize))
        }),
{
    reveal(UiShape::execute_command);
    reveal(UiShape::run_target_op);
    reveal(UiShape::cmd_break);
    reveal(UiShape::cmd_clear);
    reveal(UiShape::cmd_register);
    reveal(UiShape::cmd_memory);
    lemma_marks();
    lemma_written(addr);
    lemma_written(value);
    lemma_dec_reads_back(number);
    crate::number::lemma_dec_has_no_colon(number as nat);
    lemma_cut_last_at(file, dec_of(number as nat), ':');
    if number <= usize::MAX {
        crate::number::lemma_dec_reads_back_within(number as nat, usize::MAX as nat);
    }
    let tokens = words_of(line);
    let m = mark(tokens[0]);
    if tokens.len() > 1 {
        let n = mark(tokens[1]);
        if tokens[1] == file + seq![':'] + dec_of(number as nat) {
            assert(tokens[1][file.len() as int] == ':');
        }
    }
}

// ---------------------------------------------------------------------------
// The log

/// The log gets a message at its end and keeps the latest 500 of them.
pub proof fn lemma_log_keeps_latest(s: UiShape, message: Seq<char>)
    ensures
        s.log(message).logs.last() == message,
        s.log(message).logs.len() == if s.logs.len() < 500 {
            s.logs.len() + 1
        } else {
            500
        },
        forall|i: int|
            0 < i <= s.log(message).logs.len() - 1 ==> s.log(message).logs[s.log(message).logs.len()
                - 1 - i] == #[trigger] s.logs[s.logs.len() - i],
        s.log(message) == (UiShape { logs: s.log(message).logs, ..s }),
{
}

/// A complete line of output goes to the log without its end, and what stands behind it is looked
/// at next; output without a complete line is kept.
pub proof fn lemma_output_lines(s: UiShape, line: Seq<char>, rest: Seq<char>)
    requires
        !line.contains('\n'),
        s.output == line + seq!['\n'] + rest,
        line.len() > 0 ==> line.last() != '\r',
    ensures
        s.log_lines() == (UiShape { output: rest, ..s }).log("target> "@ + line).log_lines(),
{
    lemma_first_index(s.output, '\n');
    assert(s.output[line.len() as int] == '\n');
    assert(s.output.contains('\n'));
    let i = first_index(s.output, '\n')->0;
    assert(i == line.len()) by {
        if i < line.len() {
            assert(s.output[i] == line[i]);
            assert(line.contains(line[i]));
        }
        if i > line.len() {
            assert(s.output.take(i)[line.len() as int] == '\n');
        }
    }
    assert(s.output.skip(i + 1) =~= rest);
    let taken = s.output.take(i + 1);
    assert(taken.drop_last() =~= line);
    assert(taken.last() == '\n');
    reveal_with_fuel(trim_newlines_of, 3);
    assert(trim_newlines_of(line) == line);
    assert(trim_newlines_of(taken) == line);
}

/// Output without a complete line is kept as it is.
pub proof fn lemma_output_waits(s: UiShape)
    requires
        !s.output.contains('\n'),
    ensures
        s.log_lines() == s,
{
    lemma_first_index(s.output, '\n');
}

// ---------------------------------------------------------------------------
// Answers

/// The replies that are still to come.
pub open spec fn replies_are(s: UiShape, answers: Seq<AnswerShape>) -> bool {
    s.talk.replies == Seq::new(answers.len(), |i: int| ReplyShape::Target(answers[i]))
}

/// A command that runs the target is named in the log, then why the target stopped is; the output
/// of the program is asked for, and the new snapshot is shown.
#[verifier::rlimit(50)]
pub proof fn lemma_run_is_shown(
    s: UiShape,
    label: Seq<char>,
    request: RequestShape,
    reason: StopCause,
    shown: SnapshotShape,
)
    requires
        crate::request::fits(request, AnswerShape::Stop(Ok(reason))),
        replies_are(
            s,
            seq![
                AnswerShape::Stop(Ok(reason)),
                AnswerShape::Bytes(Ok(Seq::empty())),
                AnswerShape::Snapshot(Ok(shown)),
            ],
        ),
    ensures
        s.run_target_op(label, request) matches Flow::Done(_, e) && {
            &&& e.snapshot == Some(shown)
            &&& e.logs == s.log("running "@ + label + "..."@).log(reason.text()).logs
            &&& e.output == s.output
            &&& e.command == s.command && e.history == s.history && e.scroll == s.scroll && e.pane
                == s.pane && e.should_quit == s.should_quit
            &&& e.talk.heard.len() == s.talk.heard.len() + 3
            &&& e.talk.heard[s.talk.heard.len() as int].0 == CallShape::Target(request)
            &&& e.talk.heard[s.talk.heard.len() as int + 1].0 == CallShape::Target(
                RequestShape::DrainOutput,
            )
            &&& e.talk.heard[s.talk.heard.len() as int + 2].0 == CallShape::Target(RequestShape::Snapshot)
        },
{
    reveal(UiShape::run_target_op);
    let s0 = s.log("running "@ + label + "..."@);
    let t0 = s0.talk;
    assert(t0.replies[0] == ReplyShape::Target(AnswerShape::Stop(Ok(reason))));
    let t1 = t0.next(CallShape::Target(request));
    assert(t1.replies[0] == t0.replies[1]);
    let t2 = t1.next(CallShape::Target(RequestShape::DrainOutput));
    assert(t2.replies[0] == t0.replies[2]);
}

/// A breakpoint that the target did not answer for in time is set again once the target is halted.
pub proof fn lemma_break_halts_and_retries(
    s: UiShape,
    addr: u64,
    chain: Seq<Seq<char>>,
    reason: StopCause,
)
    requires
        s.talk.replies.len() == 2,
        s.talk.replies[0] == ReplyShape::Target(AnswerShape::Done(Err(chain))),
        s.talk.replies[1] == ReplyShape::Target(AnswerShape::Stop(Ok(reason))),
    ensures
        is_timeout(chain) ==> {
            &&& wants(s.break_at(addr), RequestShape::SetBreakpoint(addr))
            &&& s.break_at(addr).state().talk.heard == s.talk.heard.push(
                (CallShape::Target(RequestShape::SetBreakpoint(addr)), s.talk.replies[0]),
            ).push((CallShape::Target(RequestShape::Halt), s.talk.replies[1]))
        },
        !is_timeout(chain) ==> (s.break_at(addr) matches Flow::Fail(e, _) && e.chain() == chain),
{
    let t1 = s.talk.next(CallShape::Target(RequestShape::SetBreakpoint(addr)));
    assert(t1.replies[0] == s.talk.replies[1]);
}

/// A register is found by its name exactly where there is one, and it is the first of that name.
pub proof fn lemma_register_is_found(registers: Seq<RegisterShape>, name: Seq<char>)
    ensures
        match register_of(registers, name) {
            Some(found) => exists|i: int|
                0 <= i < registers.len() && #[trigger] registers[i] == found && found.name == name
                    && forall|j: int| 0 <= j < i ==> (#[trigger] registers[j]).name != name,
            None => forall|i: int|
                0 <= i < registers.len() ==> (#[trigger] registers[i]).name != name,
        },
    decreases registers.len(),
{
    if registers.len() > 0 {
        let rest = registers.drop_first();
        lemma_register_is_found(rest, name);
        if registers[0].name == name {
            assert(registers[0] == register_of(registers, name)->0);
        } else {
            match register_of(rest, name) {
                Some(found) => {
                    let i = choose|i: int|
                        0 <= i < rest.len() && #[trigger] rest[i] == found && found.name == name
                            && forall|j: int| 0 <= j < i ==> (#[trigger] rest[j]).name != name;
                    assert(registers[i + 1] == found);
                    assert forall|j: int| 0 <= j < i + 1 implies (#[trigger] registers[j]).name
                        != name by {
                        if j > 0 {
                            assert(rest[j - 1] == registers[j]);
                        }
                    }
                },
                None => {
                    assert forall|i: int| 0 <= i < registers.len() implies (
                    #[trigger] registers[i]).name != name by {
                        if i > 0 {
                            assert(rest[i - 1] == registers[i]);
                        }
                    }
                },
            }
        }
    }
}

/// The bytes that stand on a line of a dump.
pub open spec fn bytes_on_line(bytes: Seq<u8>, k: int) -> Seq<u8> {
    bytes.subrange(
        16 * k,
        if bytes.len() - 16 * k < 16 {
            bytes.len() as int
        } else {
            16 * k + 16
        },
    )
}

/// An address sixteen bytes further.
spec fn further(addr: u64) -> u64 {
    ((addr + 16) % 0x1_0000_0000_0000_0000) as u64
}

proof fn lemma_further(addr: u64, k: int)
    requires
        k >= 1,
    ensures
        (further(addr) + 16 * (k - 1)) % 0x1_0000_0000_0000_0000 == (addr + 16 * k)
            % 0x1_0000_0000_0000_0000,
{
}

/// A dump has a line for every sixteen bytes.
proof fn lemma_dump_len(addr: u64, bytes: Seq<u8>)
    ensures
        dump_lines(addr, bytes).len() == (bytes.len() + 15) / 16,
    decreases bytes.len(),
{
    if bytes.len() > 0 {
        let n: int = if bytes.len() < 16 {
            bytes.len() as int
        } else {
            16
        };
        lemma_dump_len(further(addr), bytes.skip(n));
    }
}

/// A dump shows sixteen bytes on each line, behind the address of the first of them.
pub proof fn lemma_dump_lines(addr: u64, bytes: Seq<u8>, k: int)
    requires
        0 <= k,
        16 * k < bytes.len(),
    ensures
        dump_lines(addr, bytes).len() == (bytes.len() + 15) / 16,
        dump_lines(addr, bytes)[k] == hex_padded_of(
            ((addr + 16 * k) % 0x1_0000_0000_0000_0000) as nat,
            8,
        ) + ": "@ + join_of(
            bytes_on_line(bytes, k).map_values(|b: u8| hex_padded_of(b as nat, 2)),
            " "@,
        ),
    decreases bytes.len(),
{
    lemma_dump_len(addr, bytes);
    let n: int = if bytes.len() < 16 {
        bytes.len() as int
    } else {
        16
    };
    let rest = bytes.skip(n);
    if k == 0 {
        assert(bytes_on_line(bytes, 0) =~= bytes.take(n));
        assert(byte_texts(bytes.take(n)) =~= bytes_on_line(bytes, 0).map_values(
            |b: u8| hex_padded_of(b as nat, 2),
        ));
    } else {
        lemma_dump_lines(further(addr), rest, k - 1);
        lemma_further(addr, k);
        assert(bytes_on_line(rest, k - 1) =~= bytes_on_line(bytes, k));
        assert(dump_lines(addr, bytes)[k] == dump_lines(further(addr), rest)[k - 1]);
    }
}

// ---------------------------------------------------------------------------
// Typing

/// Entering a command carries it out without the white space around it; it is the last entry of the
/// history, and the command line is empty.
pub proof fn lemma_entered(s: UiShape, before: Seq<char>, command: Seq<char>, after: Seq<char>)
    requires
        s.command == before + command + after,
        command.len() > 0,
        !is_space(command[0]) && !is_space(command.last()),
        forall|i: int| 0 <= i < before.len() ==> is_space(#[trigger] before[i]),
        forall|i: int| 0 <= i < after.len() ==> is_space(#[trigger] after[i]),
    ensures
        ({
            let t = UiShape {
                command: Seq::empty(),
                index: None,
                history: if s.history.len() > 0 && s.history.last() == command {
                    s.history
                } else {
                    s.history.push(command)
                },
                ..s
            };
            match t.execute_command(command) {
                Flow::Done(_, e) => s.handle_key(plain(Key::Enter)) == Flow::<(), UiShape>::Done(
                    (),
                    e,
                ),
                Flow::Ask(call, e) => s.handle_key(plain(Key::Enter)) == Flow::<(), UiShape>::Ask(
                    call,
                    e,
                ),
                Flow::Fail(_, e) => e.talk.replies.len() == 0 ==> wants(
                    s.handle_key(plain(Key::Enter)),
                    RequestShape::Snapshot,
                ),
            }
        }),
{
    reveal(UiShape::enter);
    lemma_trim(before, command, after);
}

/// Typing appends a character, which backspace takes away again; escape empties the command line;
/// the control keys move the focus, quit and go through the history.
pub proof fn lemma_typing(s: UiShape, c: char)
    ensures
        s.handle_key(plain(Key::Char(c))) matches Flow::Done(_, e) && {
            &&& e == (UiShape { command: s.command.push(c), index: None, ..s })
            &&& e.handle_key(plain(Key::Backspace)) == Flow::<(), UiShape>::Done(
                (),
                (UiShape { index: None, ..s }),
            )
        },
        s.handle_key(plain(Key::Escape)) == Flow::<(), UiShape>::Done(
            (),
            (UiShape { command: Seq::empty(), index: None, ..s }),
        ),
        s.handle_key(held('q')) == Flow::<(), UiShape>::Done(
            (),
            (UiShape { should_quit: true, ..s }),
        ),
        s.history.len() > 0 && s.index is None && s.history.len() <= usize::MAX ==> (s.handle_key(
            held('p'),
        ) matches Flow::Done(_, e) && {
            &&& e == (UiShape { command: s.history.last(), index: e.index, ..s })
            &&& e.handle_key(held('n')) == Flow::<(), UiShape>::Done(
                (),
                (UiShape { command: Seq::empty(), ..s }),
            )
        }),
{
    assert(s.command.push(c).drop_last() =~= s.command);
}

/// A character key with the control key.
pub open spec fn held(c: char) -> KeyPress {
    KeyPress { key: Key::Char(c), control: true }
}

/// A failure is a timeout exactly where one of its messages, whichever it is, holds the words of
/// one.
pub proof fn lemma_timeouts(
    first: Seq<Seq<char>>,
    before: Seq<char>,
    after: Seq<char>,
    others: Seq<Seq<char>>,
)
    ensures
        is_timeout(
            first.push(before + "timed out waiting for GDB remote target response"@ + after)
                + others,
        ),
        is_timeout(first.push(before + "Resource temporarily unavailable"@ + after) + others),
        is_timeout(first + others) == (is_timeout(first) || is_timeout(others)),
        !is_timeout(Seq::empty()),
{
    let n = first.len() as int;
    let a = "timed out waiting for GDB remote target response"@;
    let b = "Resource temporarily unavailable"@;
    let at = before.len() as int;
    let x = before + a + after;
    let y = before + b + after;
    assert(x.subrange(at, at + a.len()) =~= a);
    assert(y.subrange(at, at + b.len()) =~= b);
    assert(occurs_at(x, a, at) && occurs_at(y, b, at));
    assert((first.push(x) + others)[n] == x && (first.push(y) + others)[n] == y);
    assert(says_timeout((first.push(x) + others)[n]));
    assert(says_timeout((first.push(y) + others)[n]));
    let all = first + others;
    if is_timeout(first) {
        let i = choose|i: int| 0 <= i < first.len() && #[trigger] says_timeout(first[i]);
        assert(says_timeout(all[i]));
    }
    if is_timeout(others) {
        let i = choose|i: int| 0 <= i < others.len() && #[trigger] says_timeout(others[i]);
        assert(all[n + i] == others[i]);
        assert(says_timeout(all[n + i]));
    }
    if is_timeout(all) {
        let i = choose|i: int| 0 <= i < all.len() && #[trigger] says_timeout(all[i]);
        if i < n {
            assert(says_timeout(first[i]));
        } else {
            assert(says_timeout(others[i - n]));
        }
    }
}

} // verus!
