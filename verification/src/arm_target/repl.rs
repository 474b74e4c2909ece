//! The command line of the Cortex-M debugger.
use vstd::prelude::*;
use vstd::utf8::encode_utf8;

use crate::dialogue::{
    given, ran, settled, with_context, Call, CallShape, FaultShape, Flow, Input, InputShape, Pause,
};
use crate::elf_debug_info::{line_at, source_addresses, units_in_image};
use crate::list::{has_value, push_new, remove_value, with_value, without};
use crate::number::{
    dec_of, hex_padded_of, pad_end_of, parse_dec, parse_number, push_dec, push_hex_padded,
    push_padded_end, read_number,
};
use crate::source::{print_source, print_source_of};
use crate::target::StopCause;
use crate::text::{
    begins, cut_last, either, from_utf8_lossy, has_char, is_either, lossy_text, rsplit_once, same,
    starts_with, strip_prefix, texts,
};
use crate::words::{join_from, join_of, split_whitespace, words_of};

use super::debugger::{location_of, normalize_thumb_addr, thumb_addr, ArmShape, RemoteArmDebugger};
use super::gdb_protocol::{
    bytes_to_hex, expect_ok, format_stop_reply, hex_bytes_of, hex_text_of, hex_to_bytes,
    hex_value_of, is_console_output, is_console_output_packet, is_exit_reply, le_bytes_of, ok_of,
    parse_hex_u64, stop_cause_of, stop_reply_is_exit, u32_to_le_bytes,
};
use super::registers::{arm_register_from_name, core_index, core_name, core_reg};
use super::target_impl::{same_line, text_and_addr, with_addr};

verus! {

/// The most instructions of a source step.
pub const SOURCE_STEP_LIMIT: usize = 4096;

// ---------------------------------------------------------------------------
// Texts

/// The line for a register.
pub open spec fn register_line(index: int, value: u64) -> Seq<char> {
    pad_end_of(core_name(index), 10, ' ') + "  "@ + hex_padded_of(value as nat, 8)
}

/// The line for a register.
fn register_text(index: usize, value: u64) -> (r: String)
    ensures
        r@ == register_line(index as int, value),
{
    let mut out = String::new();
    push_padded_end(&mut out, core_reg(index).name, 10, ' ');
    assert(out@ =~= pad_end_of(core_name(index as int), 10, ' '));
    out.append("  ");
    push_hex_padded(&mut out, value, 8);
    out
}

/// Bytes as pairs of digits with a blank after each.
pub open spec fn spaced_bytes(bytes: Seq<u8>) -> Seq<char>
    decreases bytes.len(),
{
    if bytes.len() == 0 {
        Seq::empty()
    } else {
        spaced_bytes(bytes.drop_last()) + hex_padded_of(bytes.last() as nat, 2) + " "@
    }
}

/// A dump of bytes by lines of sixteen, each behind its address.
pub open spec fn dump_of(addr: u64, bytes: Seq<u8>) -> Seq<char>
    decreases bytes.len(),
{
    if bytes.len() == 0 {
        Seq::empty()
    } else {
        let n: int = if bytes.len() < 16 {
            bytes.len() as int
        } else {
            16
        };
        hex_padded_of(addr as nat, 8) + ": "@ + spaced_bytes(bytes.take(n)) + "\n"@ + dump_of(
            ((addr + 16) % 0x1_0000_0000_0000_0000) as u64,
            bytes.skip(n),
        )
    }
}

/// A dump of bytes by lines of sixteen, each behind its address.
pub fn hexdump_text(base: u64, bytes: &[u8]) -> (r: String)
    ensures
        r@ == dump_of(base, bytes@),
{
    let mut out = String::new();
    let end: usize = bytes.len();
    let mut at: usize = 0;
    let mut addr: u64 = base;
    assert(bytes@.skip(0) =~= bytes@);
    assert(out@ + dump_of(base, bytes@) =~= dump_of(base, bytes@));
    while at < end
        invariant
            end == bytes@.len(),
            at <= end,
            out@ + dump_of(addr, bytes@.skip(at as int)) == dump_of(base, bytes@),
        decreases end - at,
    {
        let stop: usize = if end - at < 16 {
            end
        } else {
            at + 16
        };
        let ghost before = out@;
        let ghost rest = bytes@.skip(at as int);
        push_hex_padded(&mut out, addr, 8);
        out.append(": ");
        let ghost head = out@;
        assert(rest.take(0).len() == 0);
        assert(head + spaced_bytes(rest.take(0)) =~= head);
        for i in at..stop
            invariant
                end == bytes@.len(),
                at < stop <= end,
                rest == bytes@.skip(at as int),
                out@ == head + spaced_bytes(rest.take(i - at)),
        {
            assert(rest.take(i + 1 - at).drop_last() =~= rest.take(i - at));
            assert(rest.take(i + 1 - at).last() == bytes@[i as int]);
            push_hex_padded(&mut out, bytes[i] as u64, 2);
            out.append(" ");
            assert(out@ =~= head + spaced_bytes(rest.take(i + 1 - at)));
        }
        out.append("\n");
        let next: u64 = addr.wrapping_add(16);
        assert(rest.skip(stop - at) =~= bytes@.skip(stop as int));
        assert(out@ + dump_of(next, bytes@.skip(stop as int)) =~= before + dump_of(addr, rest));
        addr = next;
        at = stop;
    }
    assert(bytes@.skip(end as int).len() == 0);
    assert(out@ + Seq::<char>::empty() =~= out@);
    out
}

// ---------------------------------------------------------------------------
// Where the target is

impl ArmShape {
    /// The same with a text printed.
    pub open spec fn print(self, text: Seq<char>) -> ArmShape {
        ArmShape { talk: self.talk.print(text), ..self }
    }

    /// Finding the source line of the program counter.
    pub open spec fn current_line(self) -> Flow<Option<(Seq<char>, u64)>, ArmShape> {
        self.arm_pc().bind(
            |pc: u64, s: ArmShape|
                match line_at(units_in_image(s.image), pc) {
                    Ok(line) => Flow::Done(line, s),
                    Err(e) => Flow::Fail(FaultShape::Target(seq![e]), s),
                },
        )
    }

    /// Printing the program counter, its place, and its source line.
    pub open spec fn print_current_location(self) -> Flow<(), ArmShape> {
        self.arm_pc().bind(
            |pc: u64, s: ArmShape|
                {
                    let t = s.say(text_and_addr("PC = 0x"@, pc)).say(location_of(s.image, pc));
                    match line_at(units_in_image(s.image), pc) {
                        Err(e) => Flow::Fail(FaultShape::Target(seq![e]), t),
                        Ok(None) => Flow::Done((), t),
                        Ok(Some((file, line))) => t.on_talk(
                            print_source_of(t.talk, t.program, file, line),
                        ),
                    }
                },
        )
    }

    /// Printing why the target stopped, and where it is.
    pub open spec fn print_stop(self, reply: Seq<char>) -> Flow<(), ArmShape> {
        self.say(stop_cause_of(reply).text()).print_current_location()
    }

    /// Printing the initial state of the target.
    pub open spec fn initialize_remote(self) -> Flow<(), ArmShape> {
        self.say(
            "Connected to ARM GDB remote target at "@ + self.endpoint + " for "@ + self.program,
        ).initial_stop().bind(
            |stop: (Seq<char>, StopCause), s: ArmShape|
                {
                    let t = if stop.0.len() == 0 {
                        s
                    } else {
                        s.say("Remote features: "@ + stop.0)
                    };
                    t.say(stop.1.text()).print_current_location()
                },
        )
    }
}

impl RemoteArmDebugger {
    /// Finds the source line of the program counter.
    pub fn get_current_line(&mut self) -> (r: Result<Option<(String, u64)>, Pause>)
        ensures
            ran(r, final(self)@, old(self)@.current_line()),
    {
        let pc: u64 = self.arm_pc()?;
        settled(self.debug_info.pc_to_file_line(pc))
    }

    /// Prints the program counter, its place, and its source line.
    pub fn print_current_location(&mut self) -> (r: Result<(), Pause>)
        ensures
            ran(r, final(self)@, old(self)@.print_current_location()),
    {
        let pc: u64 = self.arm_pc()?;
        let line = with_addr("PC = 0x", pc);
        self.talk.say(line.as_str());
        let place = self.format_location(pc);
        self.talk.say(place.as_str());
        match settled(self.debug_info.pc_to_file_line(pc))? {
            None => Ok(()),
            Some((file, line)) => print_source(
                &mut self.talk,
                self.program_name.as_str(),
                file.as_str(),
                line,
            ),
        }
    }

    /// Prints why the target stopped, and where it is.
    fn print_stop(&mut self, reply: &str) -> (r: Result<(), Pause>)
        ensures
            ran(r, final(self)@, old(self)@.print_stop(reply@)),
    {
        let text = format_stop_reply(reply);
        self.talk.say(text.as_str());
        self.print_current_location()
    }

    /// Prints the initial state of the target.
    pub fn initialize_remote(&mut self) -> (r: Result<(), Pause>)
        ensures
            ran(r, final(self)@, old(self)@.initialize_remote()),
    {
        let mut greeting = "Connected to ARM GDB remote target at ".to_owned();
        greeting.append(self.endpoint.as_str());
        greeting.append(" for ");
        greeting.append(self.program_name.as_str());
        self.talk.say(greeting.as_str());
        let (supported, reason) = self.remote_initial_stop()?;
        if supported.as_str().unicode_len() != 0 {
            let mut features = "Remote features: ".to_owned();
            features.append(supported.as_str());
            self.talk.say(features.as_str());
        }
        let text = reason.message();
        self.talk.say(text.as_str());
        self.print_current_location()
    }
}

// ---------------------------------------------------------------------------
// Running

impl ArmShape {
    /// The command that lets the target run.
    pub open spec fn cmd_continue(self) -> Flow<(), ArmShape> {
        self.cont().bind(|reply: Seq<char>, s: ArmShape| s.print_stop(reply))
    }

    /// The command that executes one instruction.
    pub open spec fn cmd_stepi(self) -> Flow<(), ArmShape> {
        self.step().bind(|reply: Seq<char>, s: ArmShape| s.print_stop(reply))
    }

    /// The command that interrupts the target.
    pub open spec fn halt_target(self) -> Flow<(), ArmShape> {
        self.interrupt().bind(|reply: Seq<char>, s: ArmShape| s.print_stop(reply))
    }

    /// One instruction of a source step with so many left; whether the step goes on.
    pub open spec fn repl_step_round(self, start: Option<(Seq<char>, u64)>, left: nat) -> Flow<
        bool,
        ArmShape,
    > {
        if left == 0 {
            self.say("Step limit reached"@).print_current_location().bind(
                |_done: (), s: ArmShape| Flow::Done(false, s),
            )
        } else {
            self.step().bind(
                |reply: Seq<char>, s: ArmShape|
                    if is_exit_reply(reply) {
                        Flow::Done(false, s.say(stop_cause_of(reply).text()))
                    } else {
                        s.current_line().bind(
                            |line: Option<(Seq<char>, u64)>, s: ArmShape|
                                if line != start {
                                    s.print_stop(reply).bind(
                                        |_done: (), s: ArmShape| Flow::Done(false, s),
                                    )
                                } else {
                                    Flow::Done(true, s)
                                },
                        )
                    },
            )
        }
    }

    /// Going on with a source step.
    pub open spec fn repl_step_rounds(self, start: Option<(Seq<char>, u64)>, left: nat) -> Flow<
        (),
        ArmShape,
    >
        decreases left,
    {
        self.repl_step_round(start, left).bind(
            |more: bool, s: ArmShape|
                if more && left > 0 {
                    s.repl_step_rounds(start, (left - 1) as nat)
                } else {
                    Flow::Done((), s)
                },
        )
    }

    /// The command that steps to another source line.
    pub open spec fn cmd_step(self) -> Flow<(), ArmShape> {
        self.current_line().bind(
            |start: Option<(Seq<char>, u64)>, s: ArmShape|
                s.repl_step_rounds(start, SOURCE_STEP_LIMIT as nat),
        )
    }

    /// The command that executes a source line.
    pub open spec fn cmd_next(self) -> Flow<(), ArmShape> {
        self.next_source().bind(
            |reason: StopCause, s: ArmShape| s.say(reason.text()).print_current_location(),
        )
    }
}

impl RemoteArmDebugger {
    /// The command that lets the target run.
    fn cmd_continue(&mut self) -> (r: Result<(), Pause>)
        ensures
            ran(r, final(self)@, old(self)@.cmd_continue()),
    {
        let reply = self.cont()?;
        self.print_stop(reply.as_str())
    }

    /// The command that executes one instruction.
    fn cmd_stepi(&mut self) -> (r: Result<(), Pause>)
        ensures
            ran(r, final(self)@, old(self)@.cmd_stepi()),
    {
        let reply = self.step()?;
        self.print_stop(reply.as_str())
    }

    /// The command that interrupts the target.
    pub fn halt_target(&mut self) -> (r: Result<(), Pause>)
        ensures
            ran(r, final(self)@, old(self)@.halt_target()),
    {
        let reply = self.interrupt()?;
        self.print_stop(reply.as_str())
    }

    /// Executes one instruction of a source step with so many left; whether the step goes on.
    pub fn repl_step_round(&mut self, start: &Option<(String, u64)>, left: usize) -> (r: Result<
        bool,
        Pause,
    >)
        ensures
            ran(r, final(self)@, old(self)@.repl_step_round(start.deep_view(), left as nat)),
    {
        if left == 0 {
            self.talk.say("Step limit reached");
            self.print_current_location()?;
            return Ok(false);
        }
        let reply = self.step()?;
        if stop_reply_is_exit(reply.as_str()) {
            let text = format_stop_reply(reply.as_str());
            self.talk.say(text.as_str());
            return Ok(false);
        }
        let line = self.get_current_line()?;
        if !same_line(&line, start) {
            self.print_stop(reply.as_str())?;
            return Ok(false);
        }
        Ok(true)
    }

    /// The command that steps to another source line.
    fn cmd_step(&mut self) -> (r: Result<(), Pause>)
        ensures
            ran(r, final(self)@, old(self)@.cmd_step()),
    {
        let start = self.get_current_line()?;
        let mut left: usize = SOURCE_STEP_LIMIT;
        let ghost want = old(self)@.cmd_step();
        loop
            invariant
                want == old(self)@.cmd_step(),
                want == self@.repl_step_rounds(start.deep_view(), left as nat),
            decreases left,
        {
            let more = self.repl_step_round(&start, left)?;
            if !more || left == 0 {
                return Ok(());
            }
            left = left - 1;
        }
    }

    /// The command that executes a source line.
    fn cmd_next(&mut self) -> (r: Result<(), Pause>)
        ensures
            ran(r, final(self)@, old(self)@.cmd_next()),
    {
        let reason = self.arm_next_source()?;
        let text = reason.message();
        self.talk.say(text.as_str());
        self.print_current_location()
    }
}

// ---------------------------------------------------------------------------
// Breakpoints

impl ArmShape {
    /// Finding the code address that a file and a line stand for.
    pub open spec fn source_location(self, arg: Seq<char>) -> Flow<Option<u64>, ArmShape> {
        match cut_last(arg, ':') {
            None => Flow::Done(
                None,
                self.say("Invalid format. Use: break <filename>:<line>"@),
            ),
            Some((file, number)) => match read_number(number, 10, u64::MAX as nat) {
                Err(_) => Flow::Done(None, self.say("Invalid line number: "@ + number)),
                Ok(line) => match source_addresses(
                    units_in_image(self.image),
                    file,
                    line as u64,
                    Seq::empty(),
                ) {
                    Err(e) => Flow::Fail(FaultShape::Target(seq![e]), self),
                    Ok(addresses) => if addresses.len() == 0 {
                        Flow::Done(
                            None,
                            self.say("No code found at "@ + file + ":"@ + dec_of(line)),
                        )
                    } else {
                        Flow::Done(Some(addresses[0]), self)
                    },
                },
            },
        }
    }

    /// Finding the address that an argument of a breakpoint command stands for.
    pub open spec fn break_addr(self, arg: Seq<char>) -> Flow<Option<u64>, ArmShape> {
        if !begins(arg, "0x"@) && arg.contains(':') {
            self.source_location(arg)
        } else {
            match hex_value_of(arg) {
                Ok(addr) => Flow::Done(Some(addr), self),
                Err(e) => Flow::Fail(
                    FaultShape::Target(seq!["parse breakpoint address "@ + arg] + e),
                    self,
                ),
            }
        }
    }

    /// Setting a breakpoint and saying so.
    pub open spec fn break_at(self, addr: u64) -> Flow<(), ArmShape> {
        let at = thumb_addr(addr);
        if self.breakpoints.contains(at) {
            Flow::Done((), self.say(text_and_addr("Breakpoint already exists at 0x"@, at)))
        } else {
            self.insert_remote_breakpoint(at).bind(
                |_done: (), s: ArmShape|
                    Flow::Done(
                        (),
                        (ArmShape { breakpoints: with_value(s.breakpoints, at), ..s }).say(
                            text_and_addr("Breakpoint set at 0x"@, at),
                        ),
                    ),
            )
        }
    }

    /// The command that sets a breakpoint.
    pub open spec fn cmd_break(self, tokens: Seq<Seq<char>>) -> Flow<(), ArmShape> {
        if tokens.len() < 2 {
            Flow::Done(
                (),
                self.say("Usage: break 0x<addr>  OR  break <filename>:<line>"@),
            )
        } else {
            self.break_addr(tokens[1]).bind(
                |addr: Option<u64>, s: ArmShape|
                    match addr {
                        None => Flow::Done((), s),
                        Some(addr) => s.break_at(addr),
                    },
            )
        }
    }

    /// The command that clears a breakpoint.
    pub open spec fn cmd_clear(self, tokens: Seq<Seq<char>>) -> Flow<(), ArmShape> {
        if tokens.len() < 2 {
            Flow::Done((), self.say("Usage: clear 0x<addr>"@))
        } else {
            match hex_value_of(tokens[1]) {
                Err(e) => Flow::Fail(FaultShape::Target(e), self),
                Ok(addr) => {
                    let at = thumb_addr(addr);
                    if !self.breakpoints.contains(at) {
                        Flow::Done(
                            (),
                            self.say(text_and_addr("No breakpoint tracked at 0x"@, at)),
                        )
                    } else {
                        self.remove_remote_breakpoint(at).bind(
                            |_done: (), s: ArmShape|
                                Flow::Done(
                                    (),
                                    (ArmShape {
                                        breakpoints: without(s.breakpoints, at),
                                        ..s
                                    }).say(text_and_addr("Breakpoint cleared at 0x"@, at)),
                                ),
                        )
                    }
                },
            }
        }
    }
}

impl RemoteArmDebugger {
    /// Finds the code address that a file and a line stand for.
    fn source_location_to_addr(&mut self, arg: &str) -> (r: Result<Option<u64>, Pause>)
        ensures
            ran(r, final(self)@, old(self)@.source_location(arg@)),
    {
        match rsplit_once(arg, ':') {
            None => {
                self.talk.say("Invalid format. Use: break <filename>:<line>");
                Ok(None)
            },
            Some((file, number)) => {
                let line: u64 = match parse_dec(number.as_str()) {
                    Ok(line) => line,
                    Err(_) => {
                        let mut text = "Invalid line number: ".to_owned();
                        text.append(number.as_str());
                        self.talk.say(text.as_str());
                        return Ok(None);
                    },
                };
                let addresses = settled(self.debug_info.file_line_to_addr(file.as_str(), line))?;
                if addresses.len() == 0 {
                    let mut text = "No code found at ".to_owned();
                    text.append(file.as_str());
                    text.append(":");
                    push_dec(&mut text, line);
                    self.talk.say(text.as_str());
                    return Ok(None);
                }
                Ok(Some(addresses[0]))
            },
        }
    }

    /// Finds the address that an argument of a breakpoint command stands for.
    fn break_addr(&mut self, arg: &str) -> (r: Result<Option<u64>, Pause>)
        ensures
            ran(r, final(self)@, old(self)@.break_addr(arg@)),
    {
        if !starts_with(arg, "0x") && has_char(arg, ':') {
            return self.source_location_to_addr(arg);
        }
        let mut context = "parse breakpoint address ".to_owned();
        context.append(arg);
        let addr: u64 = with_context(settled(parse_hex_u64(arg)), context)?;
        Ok(Some(addr))
    }

    /// The command that sets a breakpoint.
    fn cmd_break(&mut self, tokens: &Vec<String>) -> (r: Result<(), Pause>)
        ensures
            ran(r, final(self)@, old(self)@.cmd_break(texts(tokens@))),
    {
        if tokens.len() < 2 {
            self.talk.say("Usage: break 0x<addr>  OR  break <filename>:<line>");
            return Ok(());
        }
        let addr: u64 = match self.break_addr(tokens[1].as_str())? {
            Some(addr) => addr,
            None => {
                return Ok(());
            },
        };
        let at: u64 = normalize_thumb_addr(addr);
        if has_value(&self.breakpoints, at) {
            let text = with_addr("Breakpoint already exists at 0x", at);
            self.talk.say(text.as_str());
            return Ok(());
        }
        self.insert_remote_breakpoint(at)?;
        push_new(&mut self.breakpoints, at);
        let text = with_addr("Breakpoint set at 0x", at);
        self.talk.say(text.as_str());
        Ok(())
    }

    /// The command that clears a breakpoint.
    fn cmd_clear_breakpoint(&mut self, tokens: &Vec<String>) -> (r: Result<(), Pause>)
        ensures
            ran(r, final(self)@, old(self)@.cmd_clear(texts(tokens@))),
    {
        if tokens.len() < 2 {
            self.talk.say("Usage: clear 0x<addr>");
            return Ok(());
        }
        let addr: u64 = settled(parse_hex_u64(tokens[1].as_str()))?;
        let at: u64 = normalize_thumb_addr(addr);
        if !has_value(&self.breakpoints, at) {
            let text = with_addr("No breakpoint tracked at 0x", at);
            self.talk.say(text.as_str());
            return Ok(());
        }
        self.remove_remote_breakpoint(at)?;
        remove_value(&mut self.breakpoints, at);
        let text = with_addr("Breakpoint cleared at 0x", at);
        self.talk.say(text.as_str());
        Ok(())
    }
}

// ---------------------------------------------------------------------------
// Registers and memory

impl ArmShape {
    /// The same with lines for registers printed.
    pub open spec fn say_registers(self, values: Seq<u64>) -> ArmShape
        decreases values.len(),
    {
        if values.len() == 0 {
            self
        } else {
            self.say_registers(values.drop_last()).say(
                register_line(values.len() - 1, values.last()),
            )
        }
    }

    /// The command for registers.
    pub open spec fn cmd_register(self, tokens: Seq<Seq<char>>) -> Flow<(), ArmShape> {
        if tokens.len() < 2 {
            Flow::Done((), self.say("Usage: register <dump|read|write> ..."@))
        } else if tokens[1] == "dump"@ {
            self.read_core_registers().bind(
                |values: Seq<u64>, s: ArmShape| Flow::Done((), s.say_registers(values)),
            )
        } else if tokens[1] == "read"@ {
            if tokens.len() < 3 {
                Flow::Done((), self.say("Usage: register read <reg_name>"@))
            } else {
                match core_index(tokens[2]) {
                    None => Flow::Done((), self.say("Invalid register name"@)),
                    Some(index) => self.read_register(index as usize).bind(
                        |value: u64, s: ArmShape|
                            Flow::Done((), s.say(register_line(index, value))),
                    ),
                }
            }
        } else if tokens[1] == "write"@ {
            if tokens.len() < 4 {
                Flow::Done((), self.say("Usage: register write <reg_name> 0x<value>"@))
            } else {
                match core_index(tokens[2]) {
                    None => Flow::Done((), self.say("Invalid register name"@)),
                    Some(index) => match hex_value_of(tokens[3]) {
                        Err(e) => Flow::Fail(FaultShape::Target(e), self),
                        Ok(value) => self.write_register(index as usize, value),
                    },
                }
            }
        } else {
            Flow::Done((), self.say("Command not found"@))
        }
    }

    /// How many bytes a memory command reads: as many as its last word says, or four.
    pub open spec fn read_len(tokens: Seq<Seq<char>>) -> usize {
        if tokens.len() < 4 {
            4
        } else {
            match read_number(tokens[3], 10, usize::MAX as nat) {
                Ok(n) => n as usize,
                Err(_) => 4,
            }
        }
    }

    /// The command for memory.
    pub open spec fn cmd_memory(self, tokens: Seq<Seq<char>>) -> Flow<(), ArmShape> {
        if tokens.len() < 3 {
            Flow::Done((), self.say("Usage: memory <read|write> 0x<addr> [len|value]"@))
        } else {
            match hex_value_of(tokens[2]) {
                Err(e) => Flow::Fail(FaultShape::Target(e), self),
                Ok(addr) => if tokens[1] == "read"@ {
                    self.read_memory(addr, Self::read_len(tokens)).bind(
                        |bytes: Seq<u8>, s: ArmShape|
                            Flow::Done((), s.print(dump_of(addr, bytes))),
                    )
                } else if tokens[1] == "write"@ {
                    if tokens.len() < 4 {
                        Flow::Done((), self.say("Usage: memory write 0x<addr> 0x<value>"@))
                    } else {
                        match hex_value_of(tokens[3]) {
                            Err(e) => Flow::Fail(FaultShape::Target(e), self),
                            Ok(value) => self.write_memory(addr, le_bytes_of(value as u32)).bind(
                                |_done: (), s: ArmShape|
                                    Flow::Done(
                                        (),
                                        s.say(
                                            text_and_addr(
                                                "Wrote 0x"@ + hex_text_of(
                                                    le_bytes_of(value as u32),
                                                ) + " to 0x"@,
                                                addr,
                                            ),
                                        ),
                                    ),
                            ),
                        }
                    }
                } else {
                    Flow::Done((), self.say("Invalid memory command"@))
                },
            }
        }
    }
}

impl RemoteArmDebugger {
    /// The command for registers.
    fn cmd_register(&mut self, tokens: &Vec<String>) -> (r: Result<(), Pause>)
        ensures
            ran(r, final(self)@, old(self)@.cmd_register(texts(tokens@))),
    {
        if tokens.len() < 2 {
            self.talk.say("Usage: register <dump|read|write> ...");
            return Ok(());
        }
        if same(tokens[1].as_str(), "dump") {
            let values = self.read_arm_core_registers()?;
            assert(values.deep_view() =~= values@);
            let ghost start = self@;
            assert(values@.take(0).len() == 0);
            for i in 0..values.len()
                invariant
                    self@ == start.say_registers(values@.take(i as int)),
            {
                assert(values@.take(i + 1).drop_last() =~= values@.take(i as int));
                let line = register_text(i, values[i]);
                self.talk.say(line.as_str());
            }
            assert(values@.take(values@.len() as int) =~= values@);
        } else if same(tokens[1].as_str(), "read") {
            if tokens.len() < 3 {
                self.talk.say("Usage: register read <reg_name>");
                return Ok(());
            }
            match arm_register_from_name(tokens[2].as_str()) {
                None => self.talk.say("Invalid register name"),
                Some(desc) => {
                    let value: u64 = self.read_register(desc.index)?;
                    let line = register_text(desc.index, value);
                    self.talk.say(line.as_str());
                },
            }
        } else if same(tokens[1].as_str(), "write") {
            if tokens.len() < 4 {
                self.talk.say("Usage: register write <reg_name> 0x<value>");
                return Ok(());
            }
            match arm_register_from_name(tokens[2].as_str()) {
                None => self.talk.say("Invalid register name"),
                Some(desc) => {
                    let value: u64 = settled(parse_hex_u64(tokens[3].as_str()))?;
                    return self.write_register(desc.index, value);
                },
            }
        } else {
            self.talk.say("Command not found");
        }
        Ok(())
    }

    /// How many bytes a memory command reads.
    fn read_len(tokens: &Vec<String>) -> (r: usize)
        ensures
            r == ArmShape::read_len(texts(tokens@)),
    {
        if tokens.len() < 4 {
            return 4;
        }
        match parse_number(tokens[3].as_str(), 10, usize::MAX as u64) {
            Ok(n) => {
                proof {
                    crate::number::lemma_read_number_bound(tokens@[3]@, 10, usize::MAX as nat);
                }
                n as usize
            },
            Err(_) => 4,
        }
    }

    /// The command for memory.
    fn cmd_memory(&mut self, tokens: &Vec<String>) -> (r: Result<(), Pause>)
        ensures
            ran(r, final(self)@, old(self)@.cmd_memory(texts(tokens@))),
    {
        if tokens.len() < 3 {
            self.talk.say("Usage: memory <read|write> 0x<addr> [len|value]");
            return Ok(());
        }
        let addr: u64 = settled(parse_hex_u64(tokens[2].as_str()))?;
        if same(tokens[1].as_str(), "read") {
            let bytes = self.read_memory(addr, RemoteArmDebugger::read_len(tokens))?;
            assert(bytes.deep_view() =~= bytes@);
            let dump = hexdump_text(addr, bytes.as_slice());
            self.talk.print(dump.as_str());
        } else if same(tokens[1].as_str(), "write") {
            if tokens.len() < 4 {
                self.talk.say("Usage: memory write 0x<addr> 0x<value>");
                return Ok(());
            }
            let value: u64 = settled(parse_hex_u64(tokens[3].as_str()))?;
            let data = u32_to_le_bytes(value as u32);
            self.write_memory(addr, data.as_slice())?;
            let mut text = "Wrote 0x".to_owned();
            let digits = bytes_to_hex(data.as_slice());
            text.append(digits.as_str());
            text.append(" to 0x");
            push_hex_padded(&mut text, addr, 8);
            self.talk.say(text.as_str());
        } else {
            self.talk.say("Invalid memory command");
        }
        Ok(())
    }
}

// ---------------------------------------------------------------------------
// Commands to the stub

impl ArmShape {
    /// Printing what a command to the stub puts out until it is done.
    pub open spec fn monitor_response(self, response: Seq<char>) -> Flow<(), ArmShape>
        decreases self.talk.replies.len(),
    {
        if is_console_output(response) {
            match hex_bytes_of(response.skip(1)) {
                Err(e) => Flow::Fail(FaultShape::Target(e), self),
                Ok(bytes) => {
                    let s = self.print(lossy_text(bytes));
                    match s.on_talk(s.talk.packet(CallShape::NextPacket)) {
                        Flow::Done(next, t) => if t.talk.replies.len()
                            < self.talk.replies.len() {
                            t.monitor_response(next)
                        } else {
                            Flow::Done((), t)
                        },
                        Flow::Fail(e, t) => Flow::Fail(e, t),
                        Flow::Ask(call, t) => Flow::Ask(call, t),
                    }
                },
            }
        } else {
            given(ok_of(response), self)
        }
    }

    /// Sending a command to the stub and printing what it puts out.
    pub open spec fn monitor_command(self, command: Seq<char>) -> Flow<(), ArmShape> {
        self.send_packet("qRcmd,"@ + hex_text_of(encode_utf8(command))).bind(
            |response: Seq<char>, s: ArmShape| s.monitor_response(response),
        )
    }

    /// The command that sends a command to the stub.
    pub open spec fn cmd_monitor(self, tokens: Seq<Seq<char>>) -> Flow<(), ArmShape> {
        if tokens.len() < 2 {
            Flow::Done((), self.say("Usage: monitor <openocd-command>"@))
        } else {
            self.monitor_command(join_of(tokens.skip(1), " "@))
        }
    }
}

impl RemoteArmDebugger {
    /// Prints what a command to the stub puts out until it is done.
    fn print_monitor_response(&mut self, first: String) -> (r: Result<(), Pause>)
        ensures
            ran(r, final(self)@, old(self)@.monitor_response(first@)),
    {
        let ghost want = self@.monitor_response(first@);
        let mut response = first;
        loop
            invariant
                want == old(self)@.monitor_response(first@),
                want == self@.monitor_response(response@),
            decreases self@.talk.replies.len(),
        {
            if !is_console_output_packet(response.as_str()) {
                return settled(expect_ok(response.as_str()));
            }
            proof {
                reveal_strlit("O");
            }
            let output = match strip_prefix(response.as_str(), "O") {
                Some(output) => output,
                None => String::new(),
            };
            let bytes = settled(hex_to_bytes(output.as_str()))?;
            let text = from_utf8_lossy(bytes.as_slice());
            self.talk.print(text.as_str());
            response = self.talk.packet(Call::NextPacket)?;
        }
    }

    /// Sends a command to the stub and prints what it puts out.
    fn monitor_command(&mut self, command: &str) -> (r: Result<(), Pause>)
        ensures
            ran(r, final(self)@, old(self)@.monitor_command(command@)),
    {
        let mut packet = "qRcmd,".to_owned();
        let digits = bytes_to_hex(command.as_bytes());
        packet.append(digits.as_str());
        let response = self.send_packet(packet)?;
        self.print_monitor_response(response)
    }

    /// The command that sends a command to the stub.
    fn cmd_monitor(&mut self, tokens: &Vec<String>) -> (r: Result<(), Pause>)
        ensures
            ran(r, final(self)@, old(self)@.cmd_monitor(texts(tokens@))),
    {
        if tokens.len() < 2 {
            self.talk.say("Usage: monitor <openocd-command>");
            return Ok(());
        }
        let command = join_from(tokens, 1, " ");
        self.monitor_command(command.as_str())
    }
}

// ---------------------------------------------------------------------------
// Commands

impl ArmShape {
    /// The same with the help printed.
    pub open spec fn arm_help(self) -> ArmShape {
        self.say("Commands:"@).say("  continue | c"@).say(
            "  step | s | next | n        source-level single step"@,
        ).say("  stepi | si                 instruction single step"@).say("  break 0x<addr>"@).say(
            "  break <filename>:<line>"@,
        ).say("  clear 0x<addr>"@).say("  register dump"@).say("  register read <reg>"@).say(
            "  register write <reg> 0x<value>"@,
        ).say("  memory read 0x<addr> [len]"@).say("  memory write 0x<addr> 0x<value>"@).say(
            "  backtrace | bt"@,
        ).say("  halt"@).say("  reset"@).say("  monitor <openocd-command>"@).say("  quit | q"@)
    }

    /// A command given by its words; whether there is more to come.
    pub open spec fn run_command(self, tokens: Seq<Seq<char>>) -> Flow<(), ArmShape> {
        let word = tokens[0];
        if either(word, "continue"@, "c"@) {
            self.cmd_continue()
        } else if either(word, "stepi"@, "si"@) {
            self.cmd_stepi()
        } else if either(word, "step"@, "s"@) {
            self.cmd_step()
        } else if either(word, "next"@, "n"@) {
            self.cmd_next()
        } else if either(word, "break"@, "b"@) {
            self.cmd_break(tokens)
        } else if either(word, "delete"@, "clear"@) {
            self.cmd_clear(tokens)
        } else if word == "register"@ {
            self.cmd_register(tokens)
        } else if word == "memory"@ {
            self.cmd_memory(tokens)
        } else if either(word, "backtrace"@, "bt"@) {
            self.print_backtrace()
        } else if word == "halt"@ {
            self.halt_target()
        } else if word == "reset"@ {
            self.monitor_command("reset halt"@).bind(
                |_done: (), s: ArmShape| s.print_current_location(),
            )
        } else if word == "monitor"@ {
            self.cmd_monitor(tokens)
        } else if either(word, "help"@, "h"@) {
            Flow::Done((), self.arm_help())
        } else {
            Flow::Done((), self.say("Invalid command. Try 'help'."@))
        }
    }

    /// A line typed by the user; whether there is more to come.
    pub open spec fn handle_command(self, line: Seq<char>) -> Flow<bool, ArmShape> {
        let tokens = words_of(line);
        if tokens.len() == 0 {
            Flow::Done(true, self)
        } else if either(tokens[0], "quit"@, "q"@) {
            Flow::Done(false, self)
        } else {
            self.run_command(tokens).bind(|_done: (), s: ArmShape| Flow::Done(true, s))
        }
    }

    /// What a prompt has brought; whether the session goes on.
    pub open spec fn on_input(self, input: InputShape) -> Flow<bool, ArmShape> {
        match input {
            InputShape::Line(line) => self.handle_command(line),
            InputShape::Interrupted => self.halt_target().bind(
                |_done: (), s: ArmShape| Flow::Done(true, s),
            ),
            InputShape::Eof => Flow::Done(false, self),
            InputShape::Error(e) => Flow::Done(false, self.say("Error: "@ + e)),
        }
    }
}

impl RemoteArmDebugger {
    /// Prints the help.
    fn print_arm_help(&mut self)
        ensures
            final(self)@ == old(self)@.arm_help(),
    {
        self.talk.say("Commands:");
        self.talk.say("  continue | c");
        self.talk.say("  step | s | next | n        source-level single step");
        self.talk.say("  stepi | si                 instruction single step");
        self.talk.say("  break 0x<addr>");
        self.talk.say("  break <filename>:<line>");
        self.talk.say("  clear 0x<addr>");
        self.talk.say("  register dump");
        self.talk.say("  register read <reg>");
        self.talk.say("  register write <reg> 0x<value>");
        self.talk.say("  memory read 0x<addr> [len]");
        self.talk.say("  memory write 0x<addr> 0x<value>");
        self.talk.say("  backtrace | bt");
        self.talk.say("  halt");
        self.talk.say("  reset");
        self.talk.say("  monitor <openocd-command>");
        self.talk.say("  quit | q");
    }

    /// Carries out a command given by its words.
    fn run_command(&mut self, tokens: &Vec<String>) -> (r: Result<(), Pause>)
        requires
            tokens@.len() > 0,
        ensures
            ran(r, final(self)@, old(self)@.run_command(texts(tokens@))),
    {
        let word = tokens[0].as_str();
        if is_either(word, "continue", "c") {
            self.cmd_continue()
        } else if is_either(word, "stepi", "si") {
            self.cmd_stepi()
        } else if is_either(word, "step", "s") {
            self.cmd_step()
        } else if is_either(word, "next", "n") {
            self.cmd_next()
        } else if is_either(word, "break", "b") {
            self.cmd_break(tokens)
        } else if is_either(word, "delete", "clear") {
            self.cmd_clear_breakpoint(tokens)
        } else if same(word, "register") {
            self.cmd_register(tokens)
        } else if same(word, "memory") {
            self.cmd_memory(tokens)
        } else if is_either(word, "backtrace", "bt") {
            self.print_backtrace()
        } else if same(word, "halt") {
            self.halt_target()
        } else if same(word, "reset") {
            self.monitor_command("reset halt")?;
            self.print_current_location()
        } else if same(word, "monitor") {
            self.cmd_monitor(tokens)
        } else if is_either(word, "help", "h") {
            self.print_arm_help();
            Ok(())
        } else {
            self.talk.say("Invalid command. Try 'help'.");
            Ok(())
        }
    }

    /// Carries out a line typed by the user; whether there is more to come.
    pub fn handle_command(&mut self, line: &str) -> (r: Result<bool, Pause>)
        ensures
            ran(r, final(self)@, old(self)@.handle_command(line@)),
    {
        let tokens = split_whitespace(line);
        if tokens.len() == 0 {
            return Ok(true);
        }
        if is_either(tokens[0].as_str(), "quit", "q") {
            return Ok(false);
        }
        self.run_command(&tokens)?;
        Ok(true)
    }

    /// Deals with what a prompt has brought; whether the session goes on.
    pub fn on_input(&mut self, input: &Input) -> (r: Result<bool, Pause>)
        ensures
            ran(r, final(self)@, old(self)@.on_input(input@)),
    {
        match input {
            Input::Line(line) => self.handle_command(line.as_str()),
            Input::Interrupted => {
                self.halt_target()?;
                Ok(true)
            },
            Input::Eof => Ok(false),
            Input::Error(e) => {
                let mut text = "Error: ".to_owned();
                text.append(e.as_str());
                self.talk.say(text.as_str());
                Ok(false)
            },
        }
    }
}

} // verus!
