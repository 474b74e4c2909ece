//! The commands of the debugger for a local process.
use vstd::prelude::*;

use crate::arm_target::gdb_protocol::without_0x;
use crate::dialogue::{
    attempted, ran, Call, CallShape, FaultShape, Flow, Pause, StateShape, StatusShape, WaitState,
};
use crate::elf_debug_info::{
    find_function, function_ranges_at, known, known_function, line_addresses, source_addresses,
    units_in_image,
};
use crate::list::has_value;
use crate::number::{
    dec, dec_of, hex_of, hex_padded_of, pad_end_of, parse_dec, parse_hex, parse_signed_hex,
    push_dec, push_hex, push_hex_padded, push_padded_end, push_signed_dec, read_number,
    read_signed_hex, signed_dec_of,
};
use crate::text::{
    after_prefix, begins, cut_last, has_char, rsplit_once, same, starts_with, strip_prefix, texts,
};

use super::breakpoint::{bp_at, find_bp, put_bp, with_bp, Breakpoint, Changed};
use super::debugger::{text_and_hex, with_hex, LinuxPtraceDebugger, PtraceShape};
use super::maps::hex_number;
use super::registers::{
    get_register_from_name, reg_desc, register_at, register_name, register_named, Register,
    NUMBER_OF_REGISTERS,
};

verus! {

/// Addresses below this one are taken to be those of the program file.
pub const FIRST_RUNTIME_ADDR: u64 = 0x400000;

/// The most instructions of a step to another source line.
pub const STEP_IN_LIMIT: usize = 4096;

/// The most instructions of a step to code with debugging information.
pub const SEEK_LIMIT: usize = 10000;

/// The most instructions of a step out of a function.
pub const STEP_OUT_LIMIT: usize = 100000;

/// The address eight bytes further.
pub open spec fn next_word(addr: u64) -> u64 {
    ((addr + 8) % 0x1_0000_0000_0000_0000) as u64
}

// ---------------------------------------------------------------------------
// Running

impl PtraceShape {
    /// The same after a line that refuses a step.
    pub open spec fn refuse_step(self) -> PtraceShape {
        self.say(
            "Cannot step: program has crashed. Use 'continue' to terminate or restart the debugger."@,
        )
    }

    /// The same after lines that say that the program is elsewhere.
    pub open spec fn not_in_user_code(self) -> PtraceShape {
        self.say("Not in user code (likely in dynamic linker or library)."@).say(
            "Use 'continue' to run to your breakpoint first."@,
        )
    }

    /// Letting the process run.
    pub open spec fn go(self) -> Flow<(), PtraceShape> {
        self.order(CallShape::Continue).bind(
            |_done: (), s: PtraceShape|
                Flow::Done((), PtraceShape { is_executing: true, ..s }),
        )
    }

    /// The command that lets the process run.
    pub open spec fn cmd_continue(self) -> Flow<(), PtraceShape> {
        let s = if self.has_crashed {
            self.say(
                "Warning: Program has crashed. Continuing will terminate the process."@,
            )
        } else {
            self
        };
        s.cleanup_temps(s.temps).bind(|_done: (), s: PtraceShape| s.go())
    }
}

impl LinuxPtraceDebugger {
    /// Says that the program is elsewhere.
    pub(crate) fn not_in_user_code(&mut self)
        ensures
            final(self)@ == old(self)@.not_in_user_code(),
    {
        self.talk.say("Not in user code (likely in dynamic linker or library).");
        self.talk.say("Use 'continue' to run to your breakpoint first.");
    }

    /// Lets the process run.
    pub fn go(&mut self) -> (r: Result<(), Pause>)
        ensures
            ran(r, final(self)@, old(self)@.go()),
    {
        self.talk.order(Call::Continue)?;
        self.is_executing = true;
        Ok(())
    }

    /// The command that lets the process run.
    pub fn cmd_continue(&mut self) -> (r: Result<(), Pause>)
        ensures
            ran(r, final(self)@, old(self)@.cmd_continue()),
    {
        if self.has_crashed {
            self.talk.say(
                "Warning: Program has crashed. Continuing will terminate the process.",
            );
        }
        self.cleanup_all_temp_breakpoints()?;
        self.go()
    }
}

// ---------------------------------------------------------------------------
// Breakpoints

impl PtraceShape {
    /// Setting a breakpoint and saying so. A breakpoint that could not be put into memory is
    /// kept all the same.
    pub open spec fn break_new(self, addr: u64, message: Seq<char>) -> Flow<(), PtraceShape> {
        match (Breakpoint { addr, enabled_status: false, saved_data: 0 }).enable_of(self.talk) {
            Changed::Ask(call, _, talk) => Flow::Ask(call, PtraceShape { talk, ..self }),
            Changed::Fail(e, bp, talk) => Flow::Done(
                (),
                (PtraceShape { talk, breakpoints: with_bp(self.breakpoints, bp), ..self }).say(
                    "Failed to set breakpoint: "@ + e.symbol(),
                ),
            ),
            Changed::Done(bp, talk) => Flow::Done(
                (),
                (PtraceShape { talk, breakpoints: with_bp(self.breakpoints, bp), ..self }).say(
                    message,
                ),
            ),
        }
    }

    /// The address of the process that a user means: a small one is of the program file.
    pub open spec fn runtime_breakpoint_addr(self, addr: u64) -> Flow<u64, PtraceShape> {
        if addr < FIRST_RUNTIME_ADDR {
            self.to_runtime_addr(addr)
        } else {
            Flow::Done(addr, self)
        }
    }

    /// The command that sets a breakpoint.
    pub open spec fn cmd_break(self, tokens: Seq<Seq<char>>) -> Flow<(), PtraceShape> {
        if tokens.len() < 2 {
            Flow::Done((), self.say("Usage: break 0x<addr>  OR  break <filename>:<line>"@))
        } else {
            let arg = tokens[1];
            if !begins(arg, "0x"@) && arg.contains(':') {
                self.cmd_break_source(arg)
            } else {
                match after_prefix(arg, "0x"@) {
                    None => Flow::Done(
                        (),
                        self.say("Usage: break 0x<addr>  OR  break <filename>:<line>"@),
                    ),
                    Some(hex) => match hex_number(hex) {
                        None => Flow::Done((), self.say("Invalid address: "@ + arg)),
                        Some(addr) => self.runtime_breakpoint_addr(addr).bind(
                            |at: u64, s: PtraceShape|
                                s.break_new(at, text_and_hex("Breakpoint set at 0x"@, at)),
                        ),
                    },
                }
            }
        }
    }

    /// The command that sets a breakpoint on a source line.
    pub open spec fn cmd_break_source(self, arg: Seq<char>) -> Flow<(), PtraceShape> {
        match cut_last(arg, ':') {
            None => Flow::Done((), self.say("Invalid format. Use: break <filename>:<line>"@)),
            Some((file, number)) => match read_number(number, 10, u64::MAX as nat) {
                Err(_) => Flow::Done((), self.say("Invalid line number: "@ + number)),
                Ok(line) => match source_addresses(
                    units_in_image(self.image),
                    file,
                    line as u64,
                    Seq::empty(),
                ) {
                    Err(e) => Flow::Done((), self.say("Error looking up location: "@ + e)),
                    Ok(addresses) => if addresses.len() == 0 {
                        Flow::Done((), self.say("No code found at "@ + file + ":"@ + dec_of(line)))
                    } else {
                        self.to_runtime_addr(addresses[0]).bind(
                            |at: u64, s: PtraceShape|
                                if bp_at(s.breakpoints, at) is Some {
                                    Flow::Done(
                                        (),
                                        s.say(
                                            line_and_addr(
                                                "Breakpoint already exists at "@,
                                                file,
                                                line,
                                                at,
                                            ),
                                        ),
                                    )
                                } else {
                                    s.break_new(
                                        at,
                                        line_and_addr("Breakpoint set at "@, file, line, at),
                                    )
                                },
                        )
                    },
                },
            },
        }
    }
}

/// A text, a source line and an address.
pub open spec fn line_and_addr(text: Seq<char>, file: Seq<char>, line: nat, addr: u64) -> Seq<
    char,
> {
    text + file + ":"@ + dec_of(line) + " (0x"@ + hex_of(addr as nat) + ")"@
}

/// A text, a source line and an address.
fn with_line_and_addr(text: &str, file: &str, line: u64, addr: u64) -> (r: String)
    ensures
        r@ == line_and_addr(text@, file@, line as nat, addr),
{
    let mut out = text.to_owned();
    out.append(file);
    out.append(":");
    push_dec(&mut out, line);
    out.append(" (0x");
    push_hex(&mut out, addr);
    out.append(")");
    out
}

impl LinuxPtraceDebugger {
    /// Sets a breakpoint and says so.
    fn break_new(&mut self, addr: u64, message: &str) -> (r: Result<(), Pause>)
        ensures
            ran(r, final(self)@, old(self)@.break_new(addr, message@)),
    {
        let mut bp = Breakpoint::new(addr);
        match attempted(bp.enable(&mut self.talk))? {
            Ok(_) => self.talk.say(message),
            Err(e) => {
                let mut text = "Failed to set breakpoint: ".to_owned();
                let symbol = e.symbol();
                text.append(symbol.as_str());
                self.talk.say(text.as_str());
            },
        }
        put_bp(&mut self.breakpoints, bp);
        Ok(())
    }

    /// The address of the process that a user means: a small one is of the program file.
    pub fn runtime_breakpoint_addr(&mut self, addr: u64) -> (r: Result<u64, Pause>)
        ensures
            ran(r, final(self)@, old(self)@.runtime_breakpoint_addr(addr)),
    {
        if addr < FIRST_RUNTIME_ADDR {
            self.to_runtime_addr(addr)
        } else {
            Ok(addr)
        }
    }

    /// The command that sets a breakpoint.
    pub fn cmd_break(&mut self, tokens: &Vec<String>) -> (r: Result<(), Pause>)
        ensures
            ran(r, final(self)@, old(self)@.cmd_break(texts(tokens@))),
    {
        if tokens.len() < 2 {
            self.talk.say("Usage: break 0x<addr>  OR  break <filename>:<line>");
            return Ok(());
        }
        let arg = tokens[1].as_str();
        if !starts_with(arg, "0x") && has_char(arg, ':') {
            return self.cmd_break_source(arg);
        }
        let hex = match strip_prefix(arg, "0x") {
            Some(hex) => hex,
            None => {
                self.talk.say("Usage: break 0x<addr>  OR  break <filename>:<line>");
                return Ok(());
            },
        };
        let addr: u64 = match parse_hex(hex.as_str()) {
            Ok(addr) => addr,
            Err(_) => {
                let mut text = "Invalid address: ".to_owned();
                text.append(arg);
                self.talk.say(text.as_str());
                return Ok(());
            },
        };
        let at: u64 = self.runtime_breakpoint_addr(addr)?;
        let message = with_hex("Breakpoint set at 0x", at);
        self.break_new(at, message.as_str())
    }

    /// The command that sets a breakpoint on a source line.
    fn cmd_break_source(&mut self, arg: &str) -> (r: Result<(), Pause>)
        ensures
            ran(r, final(self)@, old(self)@.cmd_break_source(arg@)),
    {
        let (file, number) = match rsplit_once(arg, ':') {
            Some(parts) => parts,
            None => {
                self.talk.say("Invalid format. Use: break <filename>:<line>");
                return Ok(());
            },
        };
        let line: u64 = match parse_dec(number.as_str()) {
            Ok(line) => line,
            Err(_) => {
                let mut text = "Invalid line number: ".to_owned();
                text.append(number.as_str());
                self.talk.say(text.as_str());
                return Ok(());
            },
        };
        let addresses = match self.debug_info.file_line_to_addr(file.as_str(), line) {
            Ok(addresses) => addresses,
            Err(e) => {
                let mut text = "Error looking up location: ".to_owned();
                let message = e.message();
                text.append(message.as_str());
                self.talk.say(text.as_str());
                return Ok(());
            },
        };
        if addresses.len() == 0 {
            let mut text = "No code found at ".to_owned();
            text.append(file.as_str());
            text.append(":");
            push_dec(&mut text, line);
            self.talk.say(text.as_str());
            return Ok(());
        }
        let at: u64 = self.to_runtime_addr(addresses[0])?;
        if find_bp(&self.breakpoints, at).is_some() {
            let text = with_line_and_addr(
                "Breakpoint already exists at ",
                file.as_str(),
                line,
                at,
            );
            self.talk.say(text.as_str());
            return Ok(());
        }
        let message = with_line_and_addr("Breakpoint set at ", file.as_str(), line, at);
        self.break_new(at, message.as_str())
    }
}

// ---------------------------------------------------------------------------
// Registers and memory

/// The line for a register.
pub open spec fn register_line(r: Register, value: u64) -> Seq<char> {
    pad_end_of(register_name(r), 10, ' ') + "  "@ + hex_padded_of(value as nat, 16)
}

/// The line for a register.
fn register_text(name: &str, value: u64) -> (out: String)
    ensures
        out@ == pad_end_of(name@, 10, ' ') + "  "@ + hex_padded_of(value as nat, 16),
{
    let mut out = String::new();
    push_padded_end(&mut out, name, 10, ' ');
    assert(out@ =~= pad_end_of(name@, 10, ' '));
    out.append("  ");
    push_hex_padded(&mut out, value, 16);
    out
}

impl PtraceShape {
    /// Printing the registers from a place in the list of all on.
    pub open spec fn dump_registers(self, from: int) -> Flow<(), PtraceShape>
        decreases NUMBER_OF_REGISTERS - from,
    {
        if from >= NUMBER_OF_REGISTERS {
            Flow::Done((), self)
        } else {
            self.get_register(register_at(from)).bind(
                |value: u64, s: PtraceShape|
                    s.say(register_line(register_at(from), value)).dump_registers(from + 1),
            )
        }
    }

    /// The command for registers.
    pub open spec fn cmd_register(self, tokens: Seq<Seq<char>>) -> Flow<(), PtraceShape> {
        if tokens.len() < 2 {
            Flow::Done((), self.say("Usage: register <dump|read|write> ..."@))
        } else if tokens[1] == "dump"@ {
            self.dump_registers(0)
        } else if tokens[1] == "read"@ {
            if tokens.len() < 3 {
                Flow::Done((), self.say("Usage: register read <reg_name>"@))
            } else {
                match register_named(tokens[2]) {
                    Some(r) => self.get_register(r).bind(
                        |value: u64, s: PtraceShape| Flow::Done((), s.say(dec_of(value as nat))),
                    ),
                    None => Flow::Done((), self.say("Invalid register_name...."@)),
                }
            }
        } else if tokens[1] == "write"@ {
            if tokens.len() < 4 {
                Flow::Done((), self.say("Usage: register write <reg_name> 0x<value>"@))
            } else {
                match hex_number(without_0x(tokens[3])) {
                    None => Flow::Done(
                        (),
                        self.say("Invalid hex value: "@ + without_0x(tokens[3])),
                    ),
                    Some(value) => match register_named(tokens[2]) {
                        Some(r) => self.set_register(r, value),
                        None => Flow::Done((), self.say("Invalid register name..."@)),
                    },
                }
            }
        } else {
            Flow::Done((), self.say("Command not found"@))
        }
    }

    /// Writing a word of memory by a command.
    pub open spec fn cmd_memory_write(self, addr: u64, tokens: Seq<Seq<char>>) -> Flow<
        (),
        PtraceShape,
    > {
        if tokens.len() < 4 {
            Flow::Done((), self.say("Usage: memory write 0x<addr> 0x<value>"@))
        } else {
            match after_prefix(tokens[3], "0x"@) {
                None => Flow::Done((), self.say("Data must be in hex format: 0x<value>"@)),
                Some(hex) => match read_signed_hex(hex) {
                    None => Flow::Done((), self.say("Invalid data value: "@ + tokens[3])),
                    Some(data) => self.order(CallShape::Poke(addr, data as i64)).bind(
                        |_done: (), s: PtraceShape|
                            Flow::Done(
                                (),
                                s.say(
                                    "Data "@ + signed_dec_of(data) + " was written to address "@
                                        + dec_of(addr as nat),
                                ),
                            ),
                    ),
                },
            }
        }
    }

    /// The command for memory.
    pub open spec fn cmd_memory(self, tokens: Seq<Seq<char>>) -> Flow<(), PtraceShape> {
        if tokens.len() < 2 {
            Flow::Done((), self.say("Usage: memory <read|write> 0x<addr> [value]"@))
        } else if tokens.len() < 3 {
            Flow::Done((), self.say("Usage: memory <read|write> 0x<addr>"@))
        } else {
            match after_prefix(tokens[2], "0x"@) {
                None => Flow::Done((), self.say("Address must be in hex format: 0x<addr>"@)),
                Some(hex) => match hex_number(hex) {
                    None => Flow::Done((), self.say("Invalid address: "@ + tokens[2])),
                    Some(addr) => if tokens[1] == "read"@ {
                        self.peek(addr).bind(
                            |word: i64, s: PtraceShape|
                                Flow::Done((), s.say(signed_dec_of(word as int))),
                        )
                    } else if tokens[1] == "write"@ {
                        self.cmd_memory_write(addr, tokens)
                    } else {
                        Flow::Done((), self.say("Invalid memory command"@))
                    },
                },
            }
        }
    }
}

/// A number with its sign.
fn signed_text(n: i64) -> (r: String)
    ensures
        r@ == signed_dec_of(n as int),
{
    let mut out = String::new();
    push_signed_dec(&mut out, n);
    assert(out@ =~= signed_dec_of(n as int));
    out
}

impl LinuxPtraceDebugger {
    /// Prints all registers.
    fn dump_registers(&mut self) -> (r: Result<(), Pause>)
        ensures
            ran(r, final(self)@, old(self)@.dump_registers(0)),
    {
        let ghost want = old(self)@.dump_registers(0);
        for i in 0..NUMBER_OF_REGISTERS
            invariant
                want == old(self)@.dump_registers(0),
                want == self@.dump_registers(i as int),
        {
            let desc = reg_desc(i);
            let value: u64 = self.get_register(desc.reg)?;
            let line = register_text(desc.name, value);
            self.talk.say(line.as_str());
        }
        Ok(())
    }

    /// The command for registers.
    pub fn cmd_register(&mut self, tokens: &Vec<String>) -> (r: Result<(), Pause>)
        ensures
            ran(r, final(self)@, old(self)@.cmd_register(texts(tokens@))),
    {
        if tokens.len() < 2 {
            self.talk.say("Usage: register <dump|read|write> ...");
            return Ok(());
        }
        if same(tokens[1].as_str(), "dump") {
            return self.dump_registers();
        }
        if same(tokens[1].as_str(), "read") {
            if tokens.len() < 3 {
                self.talk.say("Usage: register read <reg_name>");
                return Ok(());
            }
            match get_register_from_name(tokens[2].as_str()) {
                Some(r) => {
                    let value: u64 = self.get_register(r)?;
                    let text = dec(value);
                    self.talk.say(text.as_str());
                },
                None => self.talk.say("Invalid register_name...."),
            }
        } else if same(tokens[1].as_str(), "write") {
            if tokens.len() < 4 {
                self.talk.say("Usage: register write <reg_name> 0x<value>");
                return Ok(());
            }
            let digits = match strip_prefix(tokens[3].as_str(), "0x") {
                Some(digits) => digits,
                None => tokens[3].clone(),
            };
            let value: u64 = match parse_hex(digits.as_str()) {
                Ok(value) => value,
                Err(_) => {
                    let mut text = "Invalid hex value: ".to_owned();
                    text.append(digits.as_str());
                    self.talk.say(text.as_str());
                    return Ok(());
                },
            };
            match get_register_from_name(tokens[2].as_str()) {
                Some(r) => {
                    return self.set_register(r, value);
                },
                None => self.talk.say("Invalid register name..."),
            }
        } else {
            self.talk.say("Command not found");
        }
        Ok(())
    }

    /// Writes a word of memory by a command.
    fn cmd_memory_write(&mut self, addr: u64, tokens: &Vec<String>) -> (r: Result<(), Pause>)
        ensures
            ran(r, final(self)@, old(self)@.cmd_memory_write(addr, texts(tokens@))),
    {
        if tokens.len() < 4 {
            self.talk.say("Usage: memory write 0x<addr> 0x<value>");
            return Ok(());
        }
        let hex = match strip_prefix(tokens[3].as_str(), "0x") {
            Some(hex) => hex,
            None => {
                self.talk.say("Data must be in hex format: 0x<value>");
                return Ok(());
            },
        };
        let data: i64 = match parse_signed_hex(hex.as_str()) {
            Some(data) => data,
            None => {
                let mut text = "Invalid data value: ".to_owned();
                text.append(tokens[3].as_str());
                self.talk.say(text.as_str());
                return Ok(());
            },
        };
        self.talk.order(Call::Poke(addr, data))?;
        let mut text = "Data ".to_owned();
        push_signed_dec(&mut text, data);
        text.append(" was written to address ");
        push_dec(&mut text, addr);
        self.talk.say(text.as_str());
        Ok(())
    }

    /// The command for memory.
    pub fn cmd_memory(&mut self, tokens: &Vec<String>) -> (r: Result<(), Pause>)
        ensures
            ran(r, final(self)@, old(self)@.cmd_memory(texts(tokens@))),
    {
        if tokens.len() < 2 {
            self.talk.say("Usage: memory <read|write> 0x<addr> [value]");
            return Ok(());
        }
        if tokens.len() < 3 {
            self.talk.say("Usage: memory <read|write> 0x<addr>");
            return Ok(());
        }
        let hex = match strip_prefix(tokens[2].as_str(), "0x") {
            Some(hex) => hex,
            None => {
                self.talk.say("Address must be in hex format: 0x<addr>");
                return Ok(());
            },
        };
        let addr: u64 = match parse_hex(hex.as_str()) {
            Ok(addr) => addr,
            Err(_) => {
                let mut text = "Invalid address: ".to_owned();
                text.append(tokens[2].as_str());
                self.talk.say(text.as_str());
                return Ok(());
            },
        };
        if same(tokens[1].as_str(), "read") {
            let word: i64 = self.talk.peek(addr)?;
            let text = signed_text(word);
            self.talk.say(text.as_str());
            Ok(())
        } else if same(tokens[1].as_str(), "write") {
            self.cmd_memory_write(addr, tokens)
        } else {
            self.talk.say("Invalid memory command");
            Ok(())
        }
    }
}

// ---------------------------------------------------------------------------
// Stepping into calls

impl PtraceShape {
    /// Executing one instruction and waiting for it.
    pub open spec fn step_and_wait(self) -> Flow<StatusShape, PtraceShape> {
        self.single_step().bind(|_done: (), s: PtraceShape| s.wait())
    }

    /// Printing where the program is, at the end of a step.
    pub open spec fn end_step(self) -> Flow<bool, PtraceShape> {
        self.print_here().bind(|_done: (), s: PtraceShape| Flow::Done(false, s))
    }

    /// One more instruction, after so many, on the way to code with debugging information;
    /// whether the step goes on.
    pub open spec fn seek_round(self, steps: nat) -> Flow<bool, PtraceShape> {
        self.step_and_wait().bind(
            |_status: StatusShape, s: PtraceShape|
                s.current_line().bind(
                    |line: Option<(Seq<char>, u64)>, s: PtraceShape|
                        if line is Some {
                            s.end_step()
                        } else if steps + 1 > SEEK_LIMIT {
                            s.get_pc().bind(
                                |pc: u64, s: PtraceShape|
                                    Flow::Done(
                                        false,
                                        s.say(
                                            text_and_hex(
                                                "Stepped "@ + dec_of(steps + 1)
                                                    + " instructions, still in code without debug info at 0x"@,
                                                pc,
                                            ),
                                        ).say(
                                            "Use 'finish' to return from current function or 'continue' to run to next breakpoint"@,
                                        ),
                                    ),
                            )
                        } else {
                            Flow::Done(true, s)
                        },
                ),
        )
    }

    /// One more instruction, after so many, on the way to another source line; whether the step
    /// goes on.
    pub open spec fn line_round(self, start: u64, steps: nat) -> Flow<bool, PtraceShape> {
        self.step_and_wait().bind(
            |_status: StatusShape, s: PtraceShape|
                s.current_line().bind(
                    |line: Option<(Seq<char>, u64)>, s: PtraceShape|
                        if line is None || (line->0).1 != start {
                            s.end_step()
                        } else if steps + 1 > STEP_IN_LIMIT {
                            s.say("Step limit reached"@).end_step()
                        } else {
                            Flow::Done(true, s)
                        },
                ),
        )
    }

    /// Going on to code with debugging information.
    pub open spec fn seek_rounds(self, steps: nat) -> Flow<(), PtraceShape>
        decreases SEEK_LIMIT + 1 - steps,
    {
        self.seek_round(steps).bind(
            |more: bool, s: PtraceShape|
                if more && steps <= SEEK_LIMIT {
                    s.seek_rounds(steps + 1)
                } else {
                    Flow::Done((), s)
                },
        )
    }

    /// Going on to another source line.
    pub open spec fn line_rounds(self, start: u64, steps: nat) -> Flow<(), PtraceShape>
        decreases STEP_IN_LIMIT + 1 - steps,
    {
        self.line_round(start, steps).bind(
            |more: bool, s: PtraceShape|
                if more && steps <= STEP_IN_LIMIT {
                    s.line_rounds(start, steps + 1)
                } else {
                    Flow::Done((), s)
                },
        )
    }

    /// The command that steps to another source line, into calls.
    pub open spec fn step_in(self) -> Flow<(), PtraceShape> {
        if self.has_crashed {
            Flow::Done((), self.refuse_step())
        } else {
            self.current_line().bind(
                |line: Option<(Seq<char>, u64)>, s: PtraceShape|
                    match line {
                        None => if s.breakpoints.len() > 0 {
                            Flow::Done((), s.not_in_user_code())
                        } else {
                            s.seek_rounds(0)
                        },
                        Some((_, start)) => s.line_rounds(start, 0),
                    },
            )
        }
    }
}

impl LinuxPtraceDebugger {
    /// One more instruction, after so many, on the way to code with debugging information;
    /// whether the step goes on.
    pub fn seek_round(&mut self, steps: usize) -> (r: Result<bool, Pause>)
        requires
            steps < usize::MAX,
        ensures
            ran(r, final(self)@, old(self)@.seek_round(steps as nat)),
    {
        self.single_step()?;
        self.talk.wait()?;
        if self.get_current_line()?.is_some() {
            self.print_here()?;
            return Ok(false);
        }
        if steps + 1 > SEEK_LIMIT {
            let pc: u64 = self.get_pc()?;
            let mut text = "Stepped ".to_owned();
            push_dec(&mut text, steps as u64 + 1);
            text.append(" instructions, still in code without debug info at 0x");
            push_hex(&mut text, pc);
            self.talk.say(text.as_str());
            self.talk.say(
                "Use 'finish' to return from current function or 'continue' to run to next breakpoint",
            );
            return Ok(false);
        }
        Ok(true)
    }

    /// One more instruction, after so many, on the way to another source line; whether the step
    /// goes on.
    pub fn line_round(&mut self, start: u64, steps: usize) -> (r: Result<bool, Pause>)
        requires
            steps < usize::MAX,
        ensures
            ran(r, final(self)@, old(self)@.line_round(start, steps as nat)),
    {
        self.single_step()?;
        self.talk.wait()?;
        let moved = match self.get_current_line()? {
            Some((_, line)) => line != start,
            None => true,
        };
        if moved {
            self.print_here()?;
            return Ok(false);
        }
        if steps + 1 > STEP_IN_LIMIT {
            self.talk.say("Step limit reached");
            self.print_here()?;
            return Ok(false);
        }
        Ok(true)
    }

    /// The command that steps to another source line, into calls.
    pub fn step_in(&mut self) -> (r: Result<(), Pause>)
        ensures
            ran(r, final(self)@, old(self)@.step_in()),
    {
        if self.has_crashed {
            self.talk.say(
                "Cannot step: program has crashed. Use 'continue' to terminate or restart the debugger.",
            );
            return Ok(());
        }
        let line = self.get_current_line()?;
        let ghost want = old(self)@.step_in();
        match line {
            None => {
                if self.breakpoints.len() > 0 {
                    self.not_in_user_code();
                    return Ok(());
                }
                let mut steps: usize = 0;
                loop
                    invariant
                        want == old(self)@.step_in(),
                        steps <= SEEK_LIMIT + 1,
                        want == self@.seek_rounds(steps as nat),
                    decreases SEEK_LIMIT + 1 - steps,
                {
                    let more = self.seek_round(steps)?;
                    if !more || steps > SEEK_LIMIT {
                        return Ok(());
                    }
                    steps = steps + 1;
                }
            },
            Some((_, start)) => {
                let mut steps: usize = 0;
                loop
                    invariant
                        want == old(self)@.step_in(),
                        steps <= STEP_IN_LIMIT + 1,
                        want == self@.line_rounds(start, steps as nat),
                    decreases STEP_IN_LIMIT + 1 - steps,
                {
                    let more = self.line_round(start, steps)?;
                    if !more || steps > STEP_IN_LIMIT {
                        return Ok(());
                    }
                    steps = steps + 1;
                }
            },
        }
    }
}

// ---------------------------------------------------------------------------
// Stepping out of a function

impl PtraceShape {
    /// The end of a step out of a function.
    pub open spec fn end_step_out(self) -> Flow<bool, PtraceShape> {
        self.get_pc().bind(
            |pc: u64, s: PtraceShape|
                s.say(text_and_hex("PC = 0x"@, pc)).print_location(pc).bind(
                    |_done: (), s: PtraceShape|
                        s.print_current_source().bind(
                            |_done: (), s: PtraceShape| Flow::Done(false, s),
                        ),
                ),
        )
    }

    /// Deciding where a step out of a function has come to, by the program counter and the
    /// frame pointer.
    pub open spec fn out_decide(
        self,
        func: Option<Seq<char>>,
        frame: u64,
        steps: nat,
        pc: u64,
        rbp: u64,
    ) -> Flow<bool, PtraceShape> {
        self.is_code(pc, true).bind(
            |ours: bool, s: PtraceShape|
                if !ours {
                    Flow::Done(
                        false,
                        (PtraceShape {
                            has_crashed: true,
                            ..s.say(
                                text_and_hex("Warning: Stepped to non-code address 0x"@, pc),
                            ).say("The program may have crashed or stack may be corrupted."@)
                        }),
                    )
                } else {
                    s.get_dwarf_pc().bind(
                        |addr: u64, s: PtraceShape|
                            {
                                let now = known_function(s.image, addr);
                                if rbp > frame {
                                    if now is Some {
                                        s.end_step_out()
                                    } else {
                                        Flow::Done(
                                            false,
                                            s.say(
                                                text_and_hex(
                                                    "Function returned. Now in library code at 0x"@,
                                                    pc,
                                                ) + "."@,
                                            ).say(
                                                "Use 'continue' to run to next breakpoint or program exit."@,
                                            ),
                                        )
                                    }
                                } else if now is Some && now != func {
                                    s.end_step_out()
                                } else if steps + 1 > STEP_OUT_LIMIT {
                                    s.say(
                                        "Step limit reached while trying to exit function"@,
                                    ).end_step_out()
                                } else {
                                    Flow::Done(true, s)
                                }
                            },
                    )
                },
        )
    }

    /// One more instruction, after so many, on the way out of a function; whether the step goes
    /// on.
    pub open spec fn out_round(self, func: Option<Seq<char>>, frame: u64, steps: nat) -> Flow<
        bool,
        PtraceShape,
    > {
        self.step_and_wait().bind(
            |status: StatusShape, s: PtraceShape|
                match status.state {
                    StateShape::Exited(code) => Flow::Done(
                        false,
                        s.say("Process exited with code "@ + signed_dec_of(code as int)),
                    ),
                    StateShape::Signaled(sig) => Flow::Done(
                        false,
                        s.say("Process killed by signal "@ + sig),
                    ),
                    _ => s.get_pc().bind(
                        |pc: u64, s: PtraceShape|
                            s.get_register(Register::Rbp).bind(
                                |rbp: u64, s: PtraceShape|
                                    s.out_decide(func, frame, steps, pc, rbp),
                            ),
                    ),
                },
        )
    }

    /// Going on out of a function.
    pub open spec fn out_rounds(self, func: Option<Seq<char>>, frame: u64, steps: nat) -> Flow<
        (),
        PtraceShape,
    >
        decreases STEP_OUT_LIMIT + 1 - steps,
    {
        self.out_round(func, frame, steps).bind(
            |more: bool, s: PtraceShape|
                if more && steps <= STEP_OUT_LIMIT {
                    s.out_rounds(func, frame, steps + 1)
                } else {
                    Flow::Done((), s)
                },
        )
    }

    /// Finding the function and the frame to step out of.
    pub open spec fn out_begin(self) -> Flow<(Option<Seq<char>>, u64), PtraceShape> {
        self.get_dwarf_pc().bind(
            |addr: u64, s: PtraceShape|
                s.get_register(Register::Rbp).bind(
                    |frame: u64, s: PtraceShape|
                        Flow::Done((known_function(s.image, addr), frame), s),
                ),
        )
    }

    /// Stepping instruction by instruction until the function is left.
    pub open spec fn step_out_by_stepping(self) -> Flow<(), PtraceShape> {
        self.out_begin().bind(
            |start: (Option<Seq<char>>, u64), s: PtraceShape| s.out_rounds(start.0, start.1, 0),
        )
    }

    /// Trying a word on the stack as a return address: executable ones are candidates.
    pub open spec fn candidate(self, addr: u64, found: Seq<u64>) -> Flow<Seq<u64>, PtraceShape> {
        self.peek(addr).attempt().bind(
            |word: Result<i64, FaultShape>, s: PtraceShape|
                match word {
                    Err(_) => Flow::Done(found, s),
                    Ok(word) => s.is_code(word as u64, false).bind(
                        |code: bool, s: PtraceShape|
                            Flow::Done(
                                if code && !found.contains(word as u64) {
                                    found.push(word as u64)
                                } else {
                                    found
                                },
                                s,
                            ),
                    ),
                },
        )
    }

    /// Picking the first candidate in the program's own code.
    pub open spec fn pick_own(self, candidates: Seq<u64>) -> Flow<Option<u64>, PtraceShape>
        decreases candidates.len(),
    {
        if candidates.len() == 0 {
            Flow::Done(None, self)
        } else {
            self.is_code(candidates[0], true).bind(
                |ours: bool, s: PtraceShape|
                    if ours {
                        Flow::Done(Some(candidates[0]), s)
                    } else {
                        s.pick_own(candidates.drop_first())
                    },
            )
        }
    }

    /// Collecting the candidates for the return address, for the different places in a
    /// function's prologue.
    pub open spec fn candidates(self) -> Flow<Seq<u64>, PtraceShape> {
        self.get_register(Register::Rbp).bind(
            |rbp: u64, s: PtraceShape|
                s.get_register(Register::Rsp).bind(
                    |rsp: u64, s: PtraceShape|
                        s.candidate(rsp, Seq::empty()).bind(
                            |found: Seq<u64>, s: PtraceShape|
                                s.candidate(next_word(rsp), found).bind(
                                    |found: Seq<u64>, s: PtraceShape|
                                        s.candidate(next_word(rbp), found),
                                ),
                        ),
                ),
        )
    }

    /// Finding the return address: one in the program, or else the first candidate.
    pub open spec fn return_address(self) -> Flow<Option<u64>, PtraceShape> {
        self.candidates().bind(
            |found: Seq<u64>, s: PtraceShape|
                s.pick_own(found).bind(
                    |own: Option<u64>, s: PtraceShape|
                        Flow::Done(
                            if own is Some || found.len() == 0 {
                                own
                            } else {
                                Some(found[0])
                            },
                            s,
                        ),
                ),
        )
    }

    /// The command that runs until the function returns.
    pub open spec fn step_out(self) -> Flow<(), PtraceShape> {
        if self.has_crashed {
            Flow::Done(
                (),
                self.say(
                    "Cannot finish: program has crashed. Use 'continue' to terminate or restart the debugger."@,
                ),
            )
        } else {
            self.cleanup_temps(self.temps).bind(
                |_done: (), s: PtraceShape|
                    s.return_address().bind(
                        |addr: Option<u64>, s: PtraceShape|
                            match addr {
                                Some(addr) => s.set_temp(addr).bind(
                                    |_done: (), s: PtraceShape| s.go(),
                                ),
                                None => s.say("Cannot determine valid return address."@).say(
                                    "Falling back to single-stepping until function returns."@,
                                ).step_out_by_stepping(),
                            },
                    ),
            )
        }
    }
}

/// Two optional names are the same.
fn same_name(a: &Option<String>, b: &Option<String>) -> (r: bool)
    ensures
        r == (a.deep_view() == b.deep_view()),
{
    match (a, b) {
        (Some(x), Some(y)) => same(x.as_str(), y.as_str()),
        (None, None) => true,
        _ => false,
    }
}

impl LinuxPtraceDebugger {
    /// The end of a step out of a function.
    fn end_step_out(&mut self) -> (r: Result<bool, Pause>)
        ensures
            ran(r, final(self)@, old(self)@.end_step_out()),
    {
        let pc: u64 = self.get_pc()?;
        let text = with_hex("PC = 0x", pc);
        self.talk.say(text.as_str());
        self.print_location(pc)?;
        self.print_current_source()?;
        Ok(false)
    }

    /// Decides where a step out of a function has come to.
    fn out_decide(
        &mut self,
        func: &Option<String>,
        frame: u64,
        steps: usize,
        pc: u64,
        rbp: u64,
    ) -> (r: Result<bool, Pause>)
        requires
            steps < usize::MAX,
        ensures
            ran(
                r,
                final(self)@,
                old(self)@.out_decide(func.deep_view(), frame, steps as nat, pc, rbp),
            ),
    {
        if !self.is_valid_code_address(pc)? {
            let text = with_hex("Warning: Stepped to non-code address 0x", pc);
            self.talk.say(text.as_str());
            self.talk.say("The program may have crashed or stack may be corrupted.");
            self.has_crashed = true;
            return Ok(false);
        }
        let addr: u64 = self.get_dwarf_pc()?;
        let now = find_function(&self.debug_info, addr);
        if rbp > frame {
            if now.is_some() {
                return self.end_step_out();
            }
            let mut text = with_hex("Function returned. Now in library code at 0x", pc);
            text.append(".");
            self.talk.say(text.as_str());
            self.talk.say("Use 'continue' to run to next breakpoint or program exit.");
            return Ok(false);
        }
        if now.is_some() && !same_name(&now, func) {
            return self.end_step_out();
        }
        if steps + 1 > STEP_OUT_LIMIT {
            self.talk.say("Step limit reached while trying to exit function");
            return self.end_step_out();
        }
        Ok(true)
    }

    /// One more instruction, after so many, on the way out of a function; whether the step goes
    /// on.
    pub fn out_round(&mut self, func: &Option<String>, frame: u64, steps: usize) -> (r: Result<
        bool,
        Pause,
    >)
        requires
            steps < usize::MAX,
        ensures
            ran(r, final(self)@, old(self)@.out_round(func.deep_view(), frame, steps as nat)),
    {
        self.single_step()?;
        let status = self.talk.wait()?;
        match status.state {
            WaitState::Exited(code) => {
                let mut text = "Process exited with code ".to_owned();
                push_signed_dec(&mut text, code as i64);
                self.talk.say(text.as_str());
                return Ok(false);
            },
            WaitState::Signaled(sig) => {
                let mut text = "Process killed by signal ".to_owned();
                text.append(sig.as_str());
                self.talk.say(text.as_str());
                return Ok(false);
            },
            _ => {},
        }
        let pc: u64 = self.get_pc()?;
        let rbp: u64 = self.get_register(Register::Rbp)?;
        self.out_decide(func, frame, steps, pc, rbp)
    }

    /// Finds the function and the frame to step out of.
    pub fn out_begin(&mut self) -> (r: Result<(Option<String>, u64), Pause>)
        ensures
            ran(r, final(self)@, old(self)@.out_begin()),
    {
        let addr: u64 = self.get_dwarf_pc()?;
        let func = find_function(&self.debug_info, addr);
        let frame: u64 = self.get_register(Register::Rbp)?;
        Ok((func, frame))
    }

    /// Steps instruction by instruction until the function is left.
    pub fn step_out_by_stepping(&mut self) -> (r: Result<(), Pause>)
        ensures
            ran(r, final(self)@, old(self)@.step_out_by_stepping()),
    {
        let (func, frame) = self.out_begin()?;
        let mut steps: usize = 0;
        let ghost want = old(self)@.step_out_by_stepping();
        loop
            invariant
                want == old(self)@.step_out_by_stepping(),
                steps <= STEP_OUT_LIMIT + 1,
                want == self@.out_rounds(func.deep_view(), frame, steps as nat),
            decreases STEP_OUT_LIMIT + 1 - steps,
        {
            let more = self.out_round(&func, frame, steps)?;
            if !more || steps > STEP_OUT_LIMIT {
                return Ok(());
            }
            steps = steps + 1;
        }
    }

    /// Tries a word on the stack as a return address.
    fn candidate(&mut self, addr: u64, found: &mut Vec<u64>) -> (r: Result<(), Pause>)
        ensures
            match old(self)@.candidate(addr, old(found)@) {
                Flow::Ask(call, s) => final(self)@ == s && (r matches Err(Pause::Ask(c)) && c@
                    == call),
                Flow::Fail(e, s) => final(self)@ == s && (r matches Err(Pause::Fail(x)) && x@ == e),
                Flow::Done(list, s) => final(self)@ == s && r is Ok && final(found)@ == list,
            },
    {
        if let Ok(word) = attempted(self.talk.peek(addr))? {
            let value: u64 = word as u64;
            if self.is_any_executable_address(value)? && !has_value(found, value) {
                found.push(value);
            }
        }
        Ok(())
    }

    /// Picks the first candidate in the program's own code.
    fn pick_own(&mut self, candidates: &Vec<u64>) -> (r: Result<Option<u64>, Pause>)
        ensures
            ran(r, final(self)@, old(self)@.pick_own(candidates@)),
    {
        let ghost want = old(self)@.pick_own(candidates@);
        assert(candidates@.skip(0) =~= candidates@);
        for i in 0..candidates.len()
            invariant
                want == old(self)@.pick_own(candidates@),
                want == self@.pick_own(candidates@.skip(i as int)),
        {
            assert(candidates@.skip(i as int)[0] == candidates@[i as int]);
            assert(candidates@.skip(i as int).drop_first() =~= candidates@.skip(i + 1));
            if self.is_valid_code_address(candidates[i])? {
                return Ok(Some(candidates[i]));
            }
        }
        assert(candidates@.skip(candidates@.len() as int).len() == 0);
        Ok(None)
    }

    /// Finds the return address.
    pub fn find_return_address(&mut self) -> (r: Result<Option<u64>, Pause>)
        ensures
            ran(r, final(self)@, old(self)@.return_address()),
    {
        let rbp: u64 = self.get_register(Register::Rbp)?;
        let rsp: u64 = self.get_register(Register::Rsp)?;
        let mut found: Vec<u64> = Vec::new();
        assert(found@ =~= Seq::<u64>::empty());
        self.candidate(rsp, &mut found)?;
        self.candidate(rsp.wrapping_add(8), &mut found)?;
        self.candidate(rbp.wrapping_add(8), &mut found)?;
        let own: Option<u64> = self.pick_own(&found)?;
        if own.is_some() || found.len() == 0 {
            Ok(own)
        } else {
            Ok(Some(found[0]))
        }
    }

    /// The command that runs until the function returns.
    pub fn step_out(&mut self) -> (r: Result<(), Pause>)
        ensures
            ran(r, final(self)@, old(self)@.step_out()),
    {
        if self.has_crashed {
            self.talk.say(
                "Cannot finish: program has crashed. Use 'continue' to terminate or restart the debugger.",
            );
            return Ok(());
        }
        self.cleanup_all_temp_breakpoints()?;
        match self.find_return_address()? {
            Some(addr) => {
                self.set_temp_breakpoint(addr)?;
                self.go()
            },
            None => {
                self.talk.say("Cannot determine valid return address.");
                self.talk.say("Falling back to single-stepping until function returns.");
                self.step_out_by_stepping()
            },
        }
    }
}

// ---------------------------------------------------------------------------
// Stepping over calls

/// One of the addresses lies past a place.
pub open spec fn some_past(addrs: Seq<u64>, pc: u64) -> bool {
    exists|i: int| 0 <= i < addrs.len() && #[trigger] addrs[i] > pc
}

/// Whether one of the addresses lies past a place.
pub(crate) fn any_past(addrs: &Vec<u64>, pc: u64) -> (r: bool)
    ensures
        r == some_past(addrs@, pc),
{
    for i in 0..addrs.len()
        invariant
            forall|j: int| 0 <= j < i ==> !(#[trigger] addrs@[j] > pc),
    {
        if addrs[i] > pc {
            assert(addrs@[i as int] > pc);
            return true;
        }
    }
    false
}

/// The addresses where there are some.
pub open spec fn found_addresses(r: Result<Seq<u64>, Seq<char>>) -> Seq<u64> {
    match r {
        Ok(addresses) => addresses,
        Err(_) => Seq::empty(),
    }
}

impl PtraceShape {
    /// Setting breakpoints for one time at addresses of the program file.
    pub open spec fn set_temps(self, addrs: Seq<u64>) -> Flow<(), PtraceShape>
        decreases addrs.len(),
    {
        if addrs.len() == 0 {
            Flow::Done((), self)
        } else {
            self.to_runtime_addr(addrs[0]).bind(
                |at: u64, s: PtraceShape|
                    s.set_temp(at).bind(
                        |_done: (), s: PtraceShape| s.set_temps(addrs.drop_first()),
                    ),
            )
        }
    }

    /// Setting a breakpoint for one time where a word on the stack returns to; whether one was
    /// set.
    pub open spec fn set_return(self, addr: u64) -> Flow<bool, PtraceShape> {
        self.peek(addr).attempt().bind(
            |word: Result<i64, FaultShape>, s: PtraceShape|
                match word {
                    Err(_) => Flow::Done(false, s),
                    Ok(word) => s.is_code(word as u64, false).bind(
                        |code: bool, s: PtraceShape|
                            if code && bp_at(s.breakpoints, word as u64) is None {
                                s.set_temp(word as u64).bind(
                                    |_done: (), s: PtraceShape| Flow::Done(true, s),
                                )
                            } else {
                                Flow::Done(false, s)
                            },
                    ),
                },
        )
    }

    /// Setting a breakpoint for one time at the return address, by the frame pointer or else by
    /// the stack pointer.
    pub open spec fn set_returns(self) -> Flow<(), PtraceShape> {
        self.get_register(Register::Rbp).bind(
            |rbp: u64, s: PtraceShape|
                s.get_register(Register::Rsp).bind(
                    |rsp: u64, s: PtraceShape|
                        s.set_return(next_word(rbp)).bind(
                            |set: bool, s: PtraceShape|
                                if set {
                                    Flow::Done((), s)
                                } else {
                                    s.set_return(rsp).bind(
                                        |_set: bool, s: PtraceShape| Flow::Done((), s),
                                    )
                                },
                        ),
                ),
        )
    }

    /// The addresses of all lines of a function but for the current one.
    pub open spec fn other_lines(self, pc: u64, ranges: Seq<(u64, u64)>) -> Seq<u64> {
        found_addresses(line_addresses(units_in_image(self.image), ranges, pc, Seq::empty()))
    }

    /// Running to any other line of a function, or to its caller. Where no line lies further on,
    /// the function is left.
    pub open spec fn run_past(self, pc: u64, ranges: Seq<(u64, u64)>) -> Flow<(), PtraceShape> {
        let addresses = self.other_lines(pc, ranges);
        if !some_past(addresses, pc) {
            self.step_out_by_stepping()
        } else {
            self.set_temps(addresses).bind(
                |_done: (), s: PtraceShape|
                    s.set_returns().bind(|_done: (), s: PtraceShape| s.go()),
            )
        }
    }

    /// The command that executes a source line, stepping over calls.
    pub open spec fn step_over(self) -> Flow<(), PtraceShape> {
        if self.has_crashed {
            Flow::Done((), self.refuse_step())
        } else {
            self.current_line().bind(
                |line: Option<(Seq<char>, u64)>, s: PtraceShape|
                    if line is None && s.breakpoints.len() > 0 {
                        Flow::Done((), s.not_in_user_code())
                    } else {
                        s.get_dwarf_pc().bind(
                            |pc: u64, s: PtraceShape|
                                match known(function_ranges_at(units_in_image(s.image), pc)) {
                                    None => s.say(
                                        "Cannot determine function boundaries - falling back to step_in"@,
                                    ).step_in(),
                                    Some(ranges) => s.run_past(pc, ranges),
                                },
                        )
                    },
            )
        }
    }
}

impl LinuxPtraceDebugger {
    /// Sets breakpoints for one time at addresses of the program file.
    pub(crate) fn set_temps(&mut self, addrs: &Vec<u64>) -> (r: Result<(), Pause>)
        ensures
            ran(r, final(self)@, old(self)@.set_temps(addrs@)),
    {
        let ghost want = old(self)@.set_temps(addrs@);
        assert(addrs@.skip(0) =~= addrs@);
        for i in 0..addrs.len()
            invariant
                want == old(self)@.set_temps(addrs@),
                want == self@.set_temps(addrs@.skip(i as int)),
        {
            assert(addrs@.skip(i as int)[0] == addrs@[i as int]);
            assert(addrs@.skip(i as int).drop_first() =~= addrs@.skip(i + 1));
            let at: u64 = self.to_runtime_addr(addrs[i])?;
            self.set_temp_breakpoint(at)?;
        }
        assert(addrs@.skip(addrs@.len() as int).len() == 0);
        Ok(())
    }

    /// Sets a breakpoint for one time where a word on the stack returns to; whether one was set.
    fn set_return(&mut self, addr: u64) -> (r: Result<bool, Pause>)
        ensures
            ran(r, final(self)@, old(self)@.set_return(addr)),
    {
        if let Ok(word) = attempted(self.talk.peek(addr))? {
            let value: u64 = word as u64;
            if self.is_any_executable_address(value)? && find_bp(
                &self.breakpoints,
                value,
            ).is_none() {
                self.set_temp_breakpoint(value)?;
                return Ok(true);
            }
        }
        Ok(false)
    }

    /// Sets a breakpoint for one time at the return address.
    pub(crate) fn set_returns(&mut self) -> (r: Result<(), Pause>)
        ensures
            ran(r, final(self)@, old(self)@.set_returns()),
    {
        let rbp: u64 = self.get_register(Register::Rbp)?;
        let rsp: u64 = self.get_register(Register::Rsp)?;
        if !self.set_return(rbp.wrapping_add(8))? {
            self.set_return(rsp)?;
        }
        Ok(())
    }

    /// The command that executes a source line, stepping over calls.
    pub fn step_over(&mut self) -> (r: Result<(), Pause>)
        ensures
            ran(r, final(self)@, old(self)@.step_over()),
    {
        if self.has_crashed {
            self.talk.say(
                "Cannot step: program has crashed. Use 'continue' to terminate or restart the debugger.",
            );
            return Ok(());
        }
        let line = self.get_current_line()?;
        if line.is_none() && self.breakpoints.len() > 0 {
            self.not_in_user_code();
            return Ok(());
        }
        let pc: u64 = self.get_dwarf_pc()?;
        let ranges = match self.debug_info.get_function_ranges(pc) {
            Ok(Some(ranges)) => ranges,
            _ => {
                self.talk.say(
                    "Cannot determine function boundaries - falling back to step_in",
                );
                return self.step_in();
            },
        };
        let addresses: Vec<u64> = match self.debug_info.get_line_addresses_in_ranges(
            ranges.as_slice(),
            pc,
        ) {
            Ok(addresses) => addresses,
            Err(_) => Vec::new(),
        };
        assert(addresses@ =~= self@.other_lines(pc, ranges@));
        if !any_past(&addresses, pc) {
            return self.step_out_by_stepping();
        }
        self.set_temps(&addresses)?;
        self.set_returns()?;
        self.go()
    }
}

} // verus!
