//! What the keys of the terminal interface do.
use vstd::prelude::*;

use crate::dialogue::{attempted, ran, FaultShape, Flow, Pause};
use crate::request::{Request, RequestShape};
use crate::target::TargetError;
use crate::text::{chars_of, either, string_of, substring};
use crate::words::{trim, trim_of, words_of};

use super::app::{next_pane, TuiApp, UiShape, LOG_LIMIT};

verus! {

/// A key of the keyboard.
#[derive(Clone, Copy, Debug, PartialEq, Eq, Structural)]
pub enum Key {
    Char(char),
    Function(u8),
    PageUp,
    PageDown,
    Up,
    Down,
    Enter,
    Backspace,
    Escape,
    Other,
}

/// A key that was pressed, and whether the control key was held.
#[derive(Clone, Copy, Debug, PartialEq, Eq, Structural)]
pub struct KeyPress {
    pub key: Key,
    pub control: bool,
}

impl UiShape {
    /// Carrying out the command that was typed.
    #[verifier::opaque]
    pub open spec fn enter(self) -> Flow<(), UiShape> {
        let command = trim_of(self.command);
        let cleared = self.typed(Seq::empty());
        if command.len() == 0 {
            Flow::Done((), cleared)
        } else {
            cleared.push_history(command).execute_command(command).attempt().bind(
                |r: Result<(), FaultShape>, s: UiShape|
                    match r {
                        Ok(_) => Flow::Done((), s),
                        Err(e) => s.log(
                            "command failed: "@ + TargetError::full_text(e.chain()),
                        ).refresh_snapshot(),
                    },
            )
        }
    }

    /// A character key.
    pub open spec fn char_key(self, c: char, control: bool) -> Flow<(), UiShape> {
        if control && c == 'x' {
            Flow::Done((), UiShape { pane: next_pane(self.pane), ..self })
        } else if control && c == 'c' {
            self.run_target_op("halt"@, RequestShape::Halt)
        } else if control && c == 'q' {
            Flow::Done((), UiShape { should_quit: true, ..self })
        } else if control && c == 'p' {
            Flow::Done((), self.history_previous())
        } else if control && c == 'n' {
            Flow::Done((), self.history_next())
        } else {
            Flow::Done((), self.typed(self.command.push(c)))
        }
    }

    /// A key.
    pub open spec fn handle_key(self, press: KeyPress) -> Flow<(), UiShape> {
        match press.key {
            Key::Char(c) => self.char_key(c, press.control),
            Key::Function(n) => if n == 5 {
                self.run_target_op("continue"@, RequestShape::Continue)
            } else if n == 10 {
                self.run_target_op("next"@, RequestShape::NextSource)
            } else if n == 11 {
                self.run_target_op("stepi"@, RequestShape::StepInstruction)
            } else {
                Flow::Done((), self)
            },
            Key::PageUp => Flow::Done((), self.page_focused(-10)),
            Key::PageDown => Flow::Done((), self.page_focused(10)),
            Key::Up => Flow::Done((), self.scroll_focused(-1)),
            Key::Down => Flow::Done((), self.scroll_focused(1)),
            Key::Enter => self.enter(),
            Key::Backspace => Flow::Done(
                (),
                self.typed(
                    if self.command.len() == 0 {
                        self.command
                    } else {
                        self.command.drop_last()
                    },
                ),
            ),
            Key::Escape => Flow::Done((), self.typed(Seq::empty())),
            Key::Other => Flow::Done((), self),
        }
    }
}

impl TuiApp {
    /// Carries out the command that was typed.
    fn enter(&mut self) -> (r: Result<(), Pause>)
        ensures
            ran(r, final(self)@, old(self)@.enter()),
    {
        proof {
            reveal(UiShape::enter);
        }
        let command = trim(self.command());
        self.set_command(String::new());
        if command.as_str().unicode_len() == 0 {
            return Ok(());
        }
        self.push_history(command.as_str());
        match attempted(self.execute_command(command.as_str()))? {
            Ok(_) => Ok(()),
            Err(e) => {
                let mut text = "command failed: ".to_owned();
                text.append(e.into_error().describe().as_str());
                self.log(text.as_str());
                self.refresh_snapshot()
            },
        }
    }

    /// Deals with a character key.
    fn char_key(&mut self, c: char, control: bool) -> (r: Result<(), Pause>)
        requires
            old(self)@.wf(),
        ensures
            ran(r, final(self)@, old(self)@.char_key(c, control)),
    {
        if control && c == 'x' {
            self.focus_next();
        } else if control && c == 'c' {
            return self.run_target_op("halt", Request::Halt);
        } else if control && c == 'q' {
            self.quit();
        } else if control && c == 'p' {
            self.history_previous();
        } else if control && c == 'n' {
            self.history_next();
        } else {
            let mut command = self.command().to_owned();
            command.push(c);
            self.set_command(command);
        }
        Ok(())
    }

    /// Deals with a key.
    pub fn handle_key(&mut self, press: KeyPress) -> (r: Result<(), Pause>)
        requires
            old(self)@.wf(),
        ensures
            ran(r, final(self)@, old(self)@.handle_key(press)),
            final(self)@.wf(),
    {
        proof {
            lemma_keys_keep_order(self@, press);
        }
        match press.key {
            Key::Char(c) => self.char_key(c, press.control),
            Key::Function(n) => {
                if n == 5 {
                    self.run_target_op("continue", Request::Continue)
                } else if n == 10 {
                    self.run_target_op("next", Request::NextSource)
                } else if n == 11 {
                    self.run_target_op("stepi", Request::StepInstruction)
                } else {
                    Ok(())
                }
            },
            Key::PageUp => {
                self.page_focused(-10);
                Ok(())
            },
            Key::PageDown => {
                self.page_focused(10);
                Ok(())
            },
            Key::Up => {
                self.scroll_focused(-1);
                Ok(())
            },
            Key::Down => {
                self.scroll_focused(1);
                Ok(())
            },
            Key::Enter => self.enter(),
            Key::Backspace => {
                let a = chars_of(self.command());
                if a.len() == 0 {
                    self.set_command(string_of(a.as_slice()));
                } else {
                    assert(a@.subrange(0, a@.len() - 1) =~= a@.drop_last());
                    self.set_command(substring(a.as_slice(), 0, a.len() - 1));
                }
                Ok(())
            },
            Key::Escape => {
                self.set_command(String::new());
                Ok(())
            },
            Key::Other => Ok(()),
        }
    }
}

// ---------------------------------------------------------------------------
// Laws

/// An operation leaves the history as it is and the log within its limit.
pub open spec fn calm<A>(s: UiShape, flow: Flow<A, UiShape>) -> bool {
    let e = flow.state();
    &&& e.history == s.history
    &&& e.index == s.index
    &&& s.logs.len() <= LOG_LIMIT ==> e.logs.len() <= LOG_LIMIT
}

proof fn lemma_log_all(s: UiShape, messages: Seq<Seq<char>>)
    ensures
        calm(s, Flow::Done((), s.log_all(messages))),
    decreases messages.len(),
{
    if messages.len() > 0 {
        lemma_log_all(s, messages.drop_last());
    }
}

proof fn lemma_log_lines(s: UiShape)
    ensures
        calm(s, Flow::Done((), s.log_lines())),
    decreases s.output.len(),
{
    crate::text::lemma_first_index(s.output, '\n');
    if let Some(i) = crate::text::first_index(s.output, '\n') {
        lemma_log_lines(
            (UiShape { output: s.output.skip(i + 1), ..s }).log(
                "target> "@ + crate::words::trim_newlines_of(s.output.take(i + 1)),
            ),
        );
    }
}

proof fn lemma_drain(s: UiShape)
    ensures
        calm(s, s.drain_target_output()),
        !(s.drain_target_output() is Fail),
{
    if let Flow::Done(bytes, t) = s.bytes(RequestShape::DrainOutput) {
        lemma_log_lines(
            UiShape { output: t.output + crate::text::lossy_text(bytes), ..t },
        );
    }
}

proof fn lemma_run_op(s: UiShape, label: Seq<char>, request: RequestShape)
    ensures
        calm(s, s.run_target_op(label, request)),
        !(s.run_target_op(label, request) is Fail),
{
    reveal(UiShape::run_target_op);
    let start = s.log("running "@ + label + "..."@);
    let flow = start.stop(request);
    match flow {
        Flow::Ask(_, _) => {},
        Flow::Fail(e, t) => {
            lemma_drain(t.log(label + " failed: "@ + TargetError::headline(e.chain())));
        },
        Flow::Done(reason, t) => {
            lemma_drain(t.log(reason.text()));
        },
    }
}

proof fn lemma_cmd_break(s: UiShape, tokens: Seq<Seq<char>>)
    ensures
        calm(s, s.cmd_break(tokens)),
{
    reveal(UiShape::cmd_break);
    if tokens.len() >= 2 {
        assert(calm(s, s.break_addr(tokens[1])));
        if let Flow::Done(Some(addr), t) = s.break_addr(tokens[1]) {
            assert(calm(t, t.break_at(addr)));
        }
    }
}

proof fn lemma_cmd_memory(s: UiShape, tokens: Seq<Seq<char>>)
    ensures
        calm(s, s.cmd_memory(tokens)),
{
    reveal(UiShape::cmd_memory);
    if tokens.len() >= 3 {
        if let Ok(addr) = crate::arm_target::gdb_protocol::hex_value_of(tokens[2]) {
            let request = RequestShape::ReadMemory(addr, super::commands::read_len_of(tokens));
            if let Flow::Done(bytes, t) = s.bytes(request) {
                lemma_log_all(t, super::commands::dump_lines(addr, bytes));
            }
        }
    }
}

proof fn lemma_cmd_clear(s: UiShape, tokens: Seq<Seq<char>>)
    ensures
        calm(s, s.cmd_clear(tokens)),
{
    reveal(UiShape::cmd_clear);
}

proof fn lemma_cmd_register(s: UiShape, tokens: Seq<Seq<char>>)
    ensures
        calm(s, s.cmd_register(tokens)),
{
    reveal(UiShape::cmd_register);
}

/// A command leaves the history as it is and the log within its limit.
pub proof fn lemma_commands_are_calm(s: UiShape, line: Seq<char>)
    ensures
        calm(s, s.execute_command(line)),
{
    reveal(UiShape::execute_command);
    let tokens = words_of(line);
    if tokens.len() > 0 {
        let t = s.log("> "@ + line);
        lemma_run_op(t, "continue"@, RequestShape::Continue);
        lemma_run_op(t, "stepi"@, RequestShape::StepInstruction);
        lemma_run_op(t, "step"@, RequestShape::StepSource);
        lemma_run_op(t, "next"@, RequestShape::NextSource);
        lemma_run_op(t, "halt"@, RequestShape::Halt);
        lemma_run_op(t, "reset"@, RequestShape::Reset);
        lemma_cmd_break(t, tokens);
        lemma_cmd_clear(t, tokens);
        lemma_cmd_register(t, tokens);
        lemma_cmd_memory(t, tokens);
        assert(calm(t, t.refresh_snapshot()));
    }
}

proof fn lemma_enter(s: UiShape)
    ensures
        !(s.enter() is Fail),
        s.enter().state().index is None,
        s.enter().state().history == s.history || s.enter().state().history == s.push_history(
            trim_of(s.command),
        ).history,
        s.logs.len() <= LOG_LIMIT ==> s.enter().state().logs.len() <= LOG_LIMIT,
{
    reveal(UiShape::enter);
    let command = trim_of(s.command);
    let t = s.typed(Seq::empty()).push_history(command);
    lemma_commands_are_calm(t, command);
    lemma_refresh(t, t.execute_command(command));
}

/// What follows a command that failed is calm too.
proof fn lemma_refresh(t: UiShape, flow: Flow<(), UiShape>)
    requires
        calm(t, flow),
    ensures
        flow matches Flow::Fail(e, u) ==> {
            let w = u.log("command failed: "@ + TargetError::full_text(e.chain()));
            calm(t, w.refresh_snapshot()) && !(w.refresh_snapshot() is Fail)
        },
{
}

/// A key never fails: what goes wrong goes to the log. The entry shown as the command stays one
/// of the history, and the log stays within its limit.
pub proof fn lemma_keys_keep_order(s: UiShape, press: KeyPress)
    requires
        s.wf(),
    ensures
        !(s.handle_key(press) is Fail),
        s.handle_key(press).state().wf(),
{
    lemma_run_op(s, "halt"@, RequestShape::Halt);
    lemma_run_op(s, "continue"@, RequestShape::Continue);
    lemma_run_op(s, "next"@, RequestShape::NextSource);
    lemma_run_op(s, "stepi"@, RequestShape::StepInstruction);
    lemma_enter(s);
}

/// No command stands twice in a row in a history.
pub open spec fn no_repeats(history: Seq<Seq<char>>) -> bool {
    forall|i: int, j: int|
        0 <= i < history.len() && j == i + 1 && j < history.len() ==> #[trigger] history[i]
            != #[trigger] history[j]
}

/// A key keeps a history without repeats so, and takes nothing out of it.
pub proof fn lemma_keys_keep_history(s: UiShape, press: KeyPress)
    requires
        no_repeats(s.history),
    ensures
        no_repeats(s.handle_key(press).state().history),
        s.history.is_prefix_of(s.handle_key(press).state().history),
{
    lemma_run_op(s, "halt"@, RequestShape::Halt);
    lemma_run_op(s, "continue"@, RequestShape::Continue);
    lemma_run_op(s, "next"@, RequestShape::NextSource);
    lemma_run_op(s, "stepi"@, RequestShape::StepInstruction);
    lemma_enter(s);
    let kept = s.push_history(trim_of(s.command)).history;
    assert(no_repeats(kept));
    assert(s.history.is_prefix_of(kept));
}

/// Going back in the history and then on shows the command again that was shown before, unless
/// the first entry was shown.
pub proof fn lemma_history_back_and_on(s: UiShape)
    requires
        s.wf(),
        s.index matches Some(index) && index > 0 && s.command == s.history[index as int],
    ensures
        s.history_previous().history_next() == s,
{
}

/// A key without the control key.
pub open spec fn plain(key: Key) -> KeyPress {
    KeyPress { key, control: false }
}

/// F5, F10 and F11 do what the commands `continue`, `next` and `stepi` do, and a control-C what
/// `halt` does, once the command line is shown in the log.
pub proof fn lemma_keys_are_commands(s: UiShape, line: Seq<char>)
    requires
        words_of(line).len() > 0,
    ensures
        ({
            let word = words_of(line)[0];
            let shown = s.log("> "@ + line);
            let halt = KeyPress { key: Key::Char('c'), control: true };
            &&& either(word, "continue"@, "c"@) ==> s.execute_command(line) == shown.handle_key(
                plain(Key::Function(5)),
            )
            &&& either(word, "next"@, "n"@) ==> s.execute_command(line) == shown.handle_key(
                plain(Key::Function(10)),
            )
            &&& either(word, "stepi"@, "si"@) ==> s.execute_command(line) == shown.handle_key(
                plain(Key::Function(11)),
            )
            &&& word == "halt"@ ==> s.execute_command(line) == shown.handle_key(halt)
        }),
{
    reveal(UiShape::execute_command);
    reveal_strlit("continue");
    reveal_strlit("c");
    reveal_strlit("stepi");
    reveal_strlit("si");
    reveal_strlit("step");
    reveal_strlit("s");
    reveal_strlit("next");
    reveal_strlit("n");
    reveal_strlit("halt");
    assert("continue"@[0] == 'c' && "c"@[0] == 'c' && "stepi"@[0] == 's' && "si"@[0] == 's');
    assert("step"@[0] == 's' && "s"@[0] == 's' && "next"@[0] == 'n' && "n"@[0] == 'n');
    assert("halt"@[0] == 'h');
}

} // verus!
