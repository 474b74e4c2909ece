//! The command line of the debugger for a local process.
//!
//! A session starts with [`LinuxPtraceDebugger::session_start`]. Then, turn by turn,
//! [`LinuxPtraceDebugger::before_prompt`] waits for the process if it is running, the user is
//! prompted, and [`LinuxPtraceDebugger::on_input`] deals with what came; each says whether the
//! session goes on. [`LinuxPtraceDebugger::session_end`] ends it.
use vstd::prelude::*;

use crate::dialogue::{
    attempted, ran, FaultShape, Flow, Input, InputShape, Pause, StateShape, StatusShape, WaitState,
};
use crate::number::{push_signed_dec, signed_dec_of};
use crate::text::{either, is_either, same};
use crate::words::{split_whitespace, words_of};

use super::debugger::{LinuxPtraceDebugger, PtraceShape};

verus! {

impl PtraceShape {
    /// A line typed by the user.
    pub open spec fn handle_command(self, line: Seq<char>) -> Flow<(), PtraceShape> {
        let tokens = words_of(line);
        if tokens.len() == 0 {
            Flow::Done((), self)
        } else if either(tokens[0], "continue"@, "c"@) {
            self.cmd_continue()
        } else if tokens[0] == "break"@ {
            self.cmd_break(tokens)
        } else if either(tokens[0], "next"@, "n"@) {
            self.step_over()
        } else if tokens[0] == "register"@ {
            self.cmd_register(tokens)
        } else if tokens[0] == "memory"@ {
            self.cmd_memory(tokens)
        } else if tokens[0] == "stepi"@ {
            self.single_step()
        } else if tokens[0] == "finish"@ {
            self.step_out()
        } else if either(tokens[0], "step"@, "s"@) {
            self.step_in()
        } else if either(tokens[0], "backtrace"@, "bt"@) {
            self.print_backtrace()
        } else {
            Flow::Done((), self.say("Invalid command"@))
        }
    }

    /// The start of a session: the process must have stopped.
    pub open spec fn session_start(self) -> Flow<bool, PtraceShape> {
        self.wait().bind(
            |status: StatusShape, s: PtraceShape|
                if status.state is Stopped {
                    Flow::Done(
                        true,
                        s.say("SIGTRAP received, "@ + s.program + " ready to be debugged!"@),
                    )
                } else {
                    Flow::Done(false, s.say("Unexpected status, returning......."@))
                },
        )
    }

    /// A stop of the running process.
    pub open spec fn on_stop(self, sig: Seq<char>) -> Flow<(), PtraceShape> {
        let s = self.say("Stopped by "@ + sig);
        if sig == "SIGTRAP"@ {
            s.handle_sigtrap()
        } else if sig == "SIGSEGV"@ {
            s.handle_sigsegv()
        } else {
            Flow::Done((), PtraceShape { is_executing: false, ..s.say("Got signal: "@ + sig) })
        }
    }

    /// Waiting for the process before a prompt, if it is running; whether the session goes on.
    pub open spec fn before_prompt(self) -> Flow<bool, PtraceShape> {
        if !self.is_executing {
            Flow::Done(true, self)
        } else {
            self.wait().bind(
                |status: StatusShape, s: PtraceShape|
                    match status.state {
                        StateShape::Stopped(sig) => s.on_stop(sig).bind(
                            |_done: (), s: PtraceShape| Flow::Done(true, s),
                        ),
                        StateShape::Exited(code) => Flow::Done(
                            false,
                            s.say("Exited with "@ + signed_dec_of(code as int)),
                        ),
                        StateShape::Signaled(sig) => Flow::Done(false, s.say("Killed by "@ + sig)),
                        StateShape::Other => Flow::Done(
                            true,
                            s.say("Other status: "@ + status.text),
                        ),
                    },
            )
        }
    }

    /// What a prompt has brought; whether the session goes on.
    pub open spec fn on_input(self, input: InputShape) -> Flow<bool, PtraceShape> {
        match input {
            InputShape::Line(line) => self.handle_command(line).bind(
                |_done: (), s: PtraceShape| Flow::Done(true, s),
            ),
            InputShape::Interrupted => Flow::Done(false, self.say("CTRL-C"@)),
            InputShape::Eof => Flow::Done(false, self.say("CTRL-D"@)),
            InputShape::Error(e) => Flow::Done(false, self.say("Error: "@ + e)),
        }
    }

    /// The end of a session: the breakpoints for one time go, unless they are to stay.
    pub open spec fn session_end(self) -> Flow<(), PtraceShape> {
        if self.plain {
            Flow::Done((), self)
        } else {
            self.cleanup_temps(self.temps).attempt().bind(
                |cleaned: Result<(), FaultShape>, s: PtraceShape|
                    Flow::Done(
                        (),
                        match cleaned {
                            Ok(_) => s,
                            Err(e) => s.say(
                                "Failed to clean up temporary breakpoints: "@ + e.symbol(),
                            ),
                        },
                    ),
            )
        }
    }
}

impl LinuxPtraceDebugger {
    /// Carries out a line typed by the user.
    pub fn handle_command(&mut self, line: &str) -> (r: Result<(), Pause>)
        ensures
            ran(r, final(self)@, old(self)@.handle_command(line@)),
    {
        let tokens = split_whitespace(line);
        if tokens.len() == 0 {
            return Ok(());
        }
        let word = tokens[0].as_str();
        if is_either(word, "continue", "c") {
            self.cmd_continue()
        } else if same(word, "break") {
            self.cmd_break(&tokens)
        } else if is_either(word, "next", "n") {
            self.step_over()
        } else if same(word, "register") {
            self.cmd_register(&tokens)
        } else if same(word, "memory") {
            self.cmd_memory(&tokens)
        } else if same(word, "stepi") {
            self.single_step()
        } else if same(word, "finish") {
            self.step_out()
        } else if is_either(word, "step", "s") {
            self.step_in()
        } else if is_either(word, "backtrace", "bt") {
            self.print_backtrace()
        } else {
            self.talk.say("Invalid command");
            Ok(())
        }
    }

    /// Starts a session; whether it goes on.
    pub fn session_start(&mut self) -> (r: Result<bool, Pause>)
        ensures
            ran(r, final(self)@, old(self)@.session_start()),
    {
        let status = self.talk.wait()?;
        match status.state {
            WaitState::Stopped(_) => {
                let mut text = "SIGTRAP received, ".to_owned();
                text.append(self.program_name.as_str());
                text.append(" ready to be debugged!");
                self.talk.say(text.as_str());
                Ok(true)
            },
            _ => {
                self.talk.say("Unexpected status, returning.......");
                Ok(false)
            },
        }
    }

    /// Deals with a stop of the running process.
    fn on_stop(&mut self, sig: &str) -> (r: Result<(), Pause>)
        ensures
            ran(r, final(self)@, old(self)@.on_stop(sig@)),
    {
        let mut text = "Stopped by ".to_owned();
        text.append(sig);
        self.talk.say(text.as_str());
        if same(sig, "SIGTRAP") {
            self.handle_sigtrap()
        } else if same(sig, "SIGSEGV") {
            self.handle_sigsegv()
        } else {
            let mut text = "Got signal: ".to_owned();
            text.append(sig);
            self.talk.say(text.as_str());
            self.is_executing = false;
            Ok(())
        }
    }

    /// Waits for the process before a prompt, if it is running; whether the session goes on.
    pub fn before_prompt(&mut self) -> (r: Result<bool, Pause>)
        ensures
            ran(r, final(self)@, old(self)@.before_prompt()),
    {
        if !self.is_executing {
            return Ok(true);
        }
        let status = self.talk.wait()?;
        match status.state {
            WaitState::Stopped(sig) => {
                self.on_stop(sig.as_str())?;
                Ok(true)
            },
            WaitState::Exited(code) => {
                let mut text = "Exited with ".to_owned();
                push_signed_dec(&mut text, code as i64);
                self.talk.say(text.as_str());
                Ok(false)
            },
            WaitState::Signaled(sig) => {
                let mut text = "Killed by ".to_owned();
                text.append(sig.as_str());
                self.talk.say(text.as_str());
                Ok(false)
            },
            WaitState::Other => {
                let mut text = "Other status: ".to_owned();
                text.append(status.text.as_str());
                self.talk.say(text.as_str());
                Ok(true)
            },
        }
    }

    /// Deals with what a prompt has brought; whether the session goes on.
    pub fn on_input(&mut self, input: &Input) -> (r: Result<bool, Pause>)
        ensures
            ran(r, final(self)@, old(self)@.on_input(input@)),
    {
        match input {
            Input::Line(line) => {
                self.handle_command(line.as_str())?;
                Ok(true)
            },
            Input::Interrupted => {
                self.talk.say("CTRL-C");
                Ok(false)
            },
            Input::Eof => {
                self.talk.say("CTRL-D");
                Ok(false)
            },
            Input::Error(e) => {
                let mut text = "Error: ".to_owned();
                text.append(e.as_str());
                self.talk.say(text.as_str());
                Ok(false)
            },
        }
    }

    /// Ends a session.
    pub fn session_end(&mut self) -> (r: Result<(), Pause>)
        ensures
            ran(r, final(self)@, old(self)@.session_end()),
    {
        if self.plain {
            return Ok(());
        }
        if let Err(e) = attempted(self.cleanup_all_temp_breakpoints())? {
            let mut text = "Failed to clean up temporary breakpoints: ".to_owned();
            let symbol = e.symbol();
            text.append(symbol.as_str());
            self.talk.say(text.as_str());
        }
        Ok(())
    }
}

} // verus!
