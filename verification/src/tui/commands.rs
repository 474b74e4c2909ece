//! The commands of the terminal interface.
use vstd::prelude::*;

use crate::arm_target::gdb_protocol::{
    bytes_to_hex, hex_text_of, hex_value_of, le_bytes_of, parse_hex_u64, u32_to_le_bytes,
};
use crate::dialogue::{
    attempted, ran, settled, with_context, CallShape, FaultShape, Flow, Pause, ReplyShape,
};
use crate::number::{
    dec_of, hex_of, hex_padded_of, lemma_read_number_bound, parse_dec, parse_number, push_dec,
    push_hex, push_hex_padded, read_number,
};
use crate::request::{AnswerShape, Request, RequestShape};
use crate::target::{RegisterShape, RegisterValue, StopCause, TargetError};
use crate::text::{
    begins, contains, cut_last, either, has_char, has_text, is_either, lemma_texts_push,
    rsplit_once, same, starts_with, texts,
};
use crate::words::{join_from, join_of, split_whitespace, words_of};

use super::app::{TuiApp, UiShape};

verus! {

// ---------------------------------------------------------------------------
// Reading arguments

/// The file and the line that a text of the form `file:line` names.
pub open spec fn source_place_of(value: Seq<char>) -> Result<(Seq<char>, u64), Seq<Seq<char>>> {
    match cut_last(value, ':') {
        None => Err(seq!["expected <file>:<line>"@]),
        Some((file, line)) => match read_number(line, 10, u64::MAX as nat) {
            Ok(number) => Ok((file, number as u64)),
            Err(fault) => Err(seq![fault.text()]),
        },
    }
}

/// Reads a source breakpoint location of the form `file:line`.
pub fn parse_source_location(value: &str) -> (r: Result<(String, u64), TargetError>)
    ensures
        crate::request::result_shape(r) == source_place_of(value@),
{
    match rsplit_once(value, ':') {
        None => Err(TargetError::of("expected <file>:<line>")),
        Some((file, line)) => match parse_dec(line.as_str()) {
            Ok(number) => Ok((file, number)),
            Err(fault) => Err(TargetError::of(fault.message())),
        },
    }
}

/// Some message says that the remote target has not answered in time.
pub open spec fn is_timeout(chain: Seq<Seq<char>>) -> bool {
    exists|i: int| 0 <= i < chain.len() && #[trigger] says_timeout(chain[i])
}

/// A message says that the remote target has not answered in time.
pub open spec fn says_timeout(text: Seq<char>) -> bool {
    has_text(text, "timed out waiting for GDB remote target response"@) || has_text(
        text,
        "Resource temporarily unavailable"@,
    )
}

/// Whether an error comes from a remote target that has not answered in time.
pub fn is_remote_timeout(error: &TargetError) -> (r: bool)
    ensures
        r == is_timeout(error@),
{
    for i in 0..error.chain.len()
        invariant
            forall|j: int| 0 <= j < i ==> !says_timeout(#[trigger] error@[j]),
    {
        let text = error.chain[i].as_str();
        assert(error@[i as int] == text@);
        if contains(text, "timed out waiting for GDB remote target response") || contains(
            text,
            "Resource temporarily unavailable",
        ) {
            assert(says_timeout(error@[i as int]));
            return true;
        }
    }
    false
}

// ---------------------------------------------------------------------------
// Texts

/// A text and an address.
pub open spec fn text_addr(text: Seq<char>, addr: u64) -> Seq<char> {
    text + hex_of(addr as nat)
}

/// A text and an address.
fn with_hex(text: &str, addr: u64) -> (r: String)
    ensures
        r@ == text_addr(text@, addr),
{
    let mut out = text.to_owned();
    push_hex(&mut out, addr);
    out
}

/// A text and another one.
fn with_text(text: &str, other: &str) -> (r: String)
    ensures
        r@ == text@ + other@,
{
    let mut out = text.to_owned();
    out.append(other);
    out
}

/// The two digits of each byte.
pub open spec fn byte_texts(bytes: Seq<u8>) -> Seq<Seq<char>> {
    Seq::new(bytes.len(), |i: int| hex_padded_of(bytes[i] as nat, 2))
}

/// The lines of a dump: sixteen bytes each, behind their address.
pub open spec fn dump_lines(addr: u64, bytes: Seq<u8>) -> Seq<Seq<char>>
    decreases bytes.len(),
{
    if bytes.len() == 0 {
        Seq::empty()
    } else {
        let n: int = if bytes.len() < 16 {
            bytes.len() as int
        } else {
            16
        };
        seq![hex_padded_of(addr as nat, 8) + ": "@ + join_of(byte_texts(bytes.take(n)), " "@)]
            + dump_lines(((addr + 16) % 0x1_0000_0000_0000_0000) as u64, bytes.skip(n))
    }
}

/// Formats bytes as a simple hex dump.
pub fn hexdump(base_addr: u64, bytes: &[u8]) -> (r: Vec<String>)
    ensures
        texts(r@) == dump_lines(base_addr, bytes@),
{
    let mut out: Vec<String> = Vec::new();
    let end: usize = bytes.len();
    let mut at: usize = 0;
    let mut addr: u64 = base_addr;
    assert(bytes@.skip(0) =~= bytes@);
    assert(texts(out@) + dump_lines(base_addr, bytes@) =~= dump_lines(base_addr, bytes@));
    while at < end
        invariant
            end == bytes@.len(),
            at <= end,
            texts(out@) + dump_lines(addr, bytes@.skip(at as int)) == dump_lines(base_addr, bytes@),
        decreases end - at,
    {
        let stop: usize = if end - at < 16 {
            end
        } else {
            at + 16
        };
        let ghost rest = bytes@.skip(at as int);
        let ghost chunk = rest.take(stop - at);
        let mut parts: Vec<String> = Vec::new();
        assert(texts(parts@) =~= byte_texts(chunk).take(0));
        for i in at..stop
            invariant
                end == bytes@.len(),
                at < stop <= end,
                chunk == bytes@.skip(at as int).take(stop - at),
                texts(parts@) == byte_texts(chunk).take(i - at),
        {
            let mut digits = String::new();
            push_hex_padded(&mut digits, bytes[i] as u64, 2);
            assert(digits@ =~= byte_texts(chunk)[i - at]);
            proof {
                lemma_texts_push(parts@, digits);
            }
            parts.push(digits);
            assert(byte_texts(chunk).take(i - at).push(digits@) =~= byte_texts(chunk).take(
                i + 1 - at,
            ));
        }
        assert(byte_texts(chunk).take(stop - at) =~= byte_texts(chunk));
        assert(texts(parts@).skip(0) =~= texts(parts@));
        let mut line = String::new();
        push_hex_padded(&mut line, addr, 8);
        assert(line@ =~= hex_padded_of(addr as nat, 8));
        line.append(": ");
        let body = join_from(&parts, 0, " ");
        line.append(body.as_str());
        let ghost before = texts(out@);
        proof {
            lemma_texts_push(out@, line);
        }
        out.push(line);
        let next: u64 = addr.wrapping_add(16);
        assert(rest.skip(stop - at) =~= bytes@.skip(stop as int));
        assert(before.push(line@) + dump_lines(next, bytes@.skip(stop as int)) =~= before
            + dump_lines(addr, rest));
        addr = next;
        at = stop;
    }
    assert(bytes@.skip(end as int).len() == 0);
    assert(texts(out@) + Seq::<Seq<char>>::empty() =~= texts(out@));
    out
}

// ---------------------------------------------------------------------------
// Breakpoints

impl UiShape {
    /// Finding the address that an argument of a breakpoint command stands for.
    pub open spec fn break_addr(self, arg: Seq<char>) -> Flow<Option<u64>, UiShape> {
        if !begins(arg, "0x"@) && arg.contains(':') {
            match source_place_of(arg) {
                Err(e) => Flow::Fail(FaultShape::Target(e), self),
                Ok((file, line)) => self.source_address(file, line).bind(
                    |addr: Option<u64>, s: UiShape|
                        match addr {
                            Some(addr) => Flow::Done(Some(addr), s),
                            None => Flow::Done(
                                None,
                                s.log("No code found at "@ + file + ":"@ + dec_of(line as nat)),
                            ),
                        },
                ),
            }
        } else {
            match hex_value_of(arg) {
                Err(e) => Flow::Fail(FaultShape::Target(e), self),
                Ok(addr) => Flow::Done(Some(addr), self),
            }
        }
    }

    /// Halting a target that has not answered in time, and setting a breakpoint once more.
    pub open spec fn break_again(self, addr: u64) -> Flow<(), UiShape> {
        self.log("Breakpoint timed out; halting target and retrying..."@).stop(
            RequestShape::Halt,
        ).context(
            text_addr("breakpoint set timed out at 0x"@, addr)
                + "; halt before retry also failed"@,
        ).bind(
            |reason: StopCause, s: UiShape|
                s.log(reason.text()).done(RequestShape::SetBreakpoint(addr)),
        )
    }

    /// Setting a breakpoint, if need be with the target halted.
    pub open spec fn break_at(self, addr: u64) -> Flow<(), UiShape> {
        self.done(RequestShape::SetBreakpoint(addr)).attempt().bind(
            |r: Result<(), FaultShape>, s: UiShape|
                match r {
                    Ok(_) => Flow::Done((), s),
                    Err(e) => if is_timeout(e.chain()) {
                        s.break_again(addr)
                    } else {
                        Flow::Fail(FaultShape::Target(e.chain()), s)
                    },
                },
        )
    }

    /// The command that sets a breakpoint.
    #[verifier::opaque]
    pub open spec fn cmd_break(self, tokens: Seq<Seq<char>>) -> Flow<(), UiShape> {
        if tokens.len() < 2 {
            Flow::Done((), self.log("Usage: break 0x<addr> OR break <file>:<line>"@))
        } else {
            self.break_addr(tokens[1]).bind(
                |addr: Option<u64>, s: UiShape|
                    match addr {
                        None => Flow::Done((), s),
                        Some(addr) => s.break_at(addr).bind(
                            |_done: (), s: UiShape|
                                s.log(
                                    text_addr("Breakpoint set at 0x"@, addr),
                                ).refresh_snapshot(),
                        ),
                    },
            )
        }
    }

    /// The command that clears a breakpoint.
    #[verifier::opaque]
    pub open spec fn cmd_clear(self, tokens: Seq<Seq<char>>) -> Flow<(), UiShape> {
        if tokens.len() < 2 {
            Flow::Done((), self.log("Usage: clear 0x<addr>"@))
        } else {
            match hex_value_of(tokens[1]) {
                Err(e) => Flow::Fail(FaultShape::Target(e), self),
                Ok(addr) => self.done(RequestShape::ClearBreakpoint(addr)).bind(
                    |_done: (), s: UiShape|
                        s.log(text_addr("Breakpoint cleared at 0x"@, addr)).refresh_snapshot(),
                ),
            }
        }
    }
}

impl TuiApp {
    /// Finds the address that an argument of a breakpoint command stands for.
    fn break_addr(&mut self, arg: &str) -> (r: Result<Option<u64>, Pause>)
        ensures
            ran(r, final(self)@, old(self)@.break_addr(arg@)),
    {
        if !starts_with(arg, "0x") && has_char(arg, ':') {
            let (file, line) = settled(parse_source_location(arg))?;
            match self.source_address(file.as_str(), line)? {
                Some(addr) => Ok(Some(addr)),
                None => {
                    let mut text = with_text("No code found at ", file.as_str());
                    text.append(":");
                    push_dec(&mut text, line);
                    self.log(text.as_str());
                    Ok(None)
                },
            }
        } else {
            let addr: u64 = settled(parse_hex_u64(arg))?;
            Ok(Some(addr))
        }
    }

    /// Halts a target that has not answered in time, and sets a breakpoint once more.
    fn break_again(&mut self, addr: u64) -> (r: Result<(), Pause>)
        ensures
            ran(r, final(self)@, old(self)@.break_again(addr)),
    {
        self.log("Breakpoint timed out; halting target and retrying...");
        let mut context = with_hex("breakpoint set timed out at 0x", addr);
        context.append("; halt before retry also failed");
        let reason = with_context(self.stop(Request::Halt), context)?;
        let text = reason.message();
        self.log(text.as_str());
        self.done(Request::SetBreakpoint(addr))
    }

    /// Sets a breakpoint, if need be with the target halted.
    fn break_at(&mut self, addr: u64) -> (r: Result<(), Pause>)
        ensures
            ran(r, final(self)@, old(self)@.break_at(addr)),
    {
        match attempted(self.done(Request::SetBreakpoint(addr)))? {
            Ok(_) => Ok(()),
            Err(e) => {
                let error = e.into_error();
                if is_remote_timeout(&error) {
                    self.break_again(addr)
                } else {
                    settled(Err(error))
                }
            },
        }
    }

    /// The command that sets a breakpoint.
    fn cmd_break(&mut self, tokens: &Vec<String>) -> (r: Result<(), Pause>)
        ensures
            ran(r, final(self)@, old(self)@.cmd_break(texts(tokens@))),
    {
        proof {
            reveal(UiShape::cmd_break);
        }
        if tokens.len() < 2 {
            self.log("Usage: break 0x<addr> OR break <file>:<line>");
            return Ok(());
        }
        let addr: u64 = match self.break_addr(tokens[1].as_str())? {
            Some(addr) => addr,
            None => {
                return Ok(());
            },
        };
        self.break_at(addr)?;
        let text = with_hex("Breakpoint set at 0x", addr);
        self.log(text.as_str());
        self.refresh_snapshot()
    }

    /// The command that clears a breakpoint.
    fn cmd_clear(&mut self, tokens: &Vec<String>) -> (r: Result<(), Pause>)
        ensures
            ran(r, final(self)@, old(self)@.cmd_clear(texts(tokens@))),
    {
        proof {
            reveal(UiShape::cmd_clear);
        }
        if tokens.len() < 2 {
            self.log("Usage: clear 0x<addr>");
            return Ok(());
        }
        let addr: u64 = settled(parse_hex_u64(tokens[1].as_str()))?;
        self.done(Request::ClearBreakpoint(addr))?;
        let text = with_hex("Breakpoint cleared at 0x", addr);
        self.log(text.as_str());
        self.refresh_snapshot()
    }
}

// ---------------------------------------------------------------------------
// Registers

/// The first register of a name.
pub open spec fn register_of(registers: Seq<RegisterShape>, name: Seq<char>) -> Option<
    RegisterShape,
>
    decreases registers.len(),
{
    if registers.len() == 0 {
        None
    } else if registers[0].name == name {
        Some(registers[0])
    } else {
        register_of(registers.drop_first(), name)
    }
}

/// The value of the first register of a name.
fn find_register(registers: &Vec<RegisterValue>, name: &str) -> (r: Option<u64>)
    ensures
        match register_of(registers.deep_view(), name@) {
            Some(register) => r == Some(register.value) && register.name == name@,
            None => r is None,
        },
{
    let ghost all = registers.deep_view();
    assert(all.skip(0) =~= all);
    for i in 0..registers.len()
        invariant
            all == registers.deep_view(),
            register_of(all, name@) == register_of(all.skip(i as int), name@),
    {
        assert(all.skip(i as int)[0] == registers@[i as int].deep_view());
        if same(registers[i].name.as_str(), name) {
            return Some(registers[i].value);
        }
        assert(all.skip(i as int).drop_first() =~= all.skip(i + 1));
    }
    None
}

/// The value of a register in words.
pub open spec fn register_text(name: Seq<char>, value: u64) -> Seq<char> {
    name + " = 0x"@ + hex_of(value as nat)
}

impl UiShape {
    /// The command that reads a register.
    pub open spec fn register_read(self, tokens: Seq<Seq<char>>) -> Flow<(), UiShape> {
        if tokens.len() < 3 {
            Flow::Done((), self.log("Usage: register read <name>"@))
        } else {
            self.registers().bind(
                |registers: Seq<RegisterShape>, s: UiShape|
                    Flow::Done(
                        (),
                        match register_of(registers, tokens[2]) {
                            Some(register) => s.log(register_text(register.name, register.value)),
                            None => s.log("Unknown register: "@ + tokens[2]),
                        },
                    ),
            )
        }
    }

    /// The command that writes a register.
    pub open spec fn register_write(self, tokens: Seq<Seq<char>>) -> Flow<(), UiShape> {
        if tokens.len() < 4 {
            Flow::Done((), self.log("Usage: register write <name> 0x<value>"@))
        } else {
            match hex_value_of(tokens[3]) {
                Err(e) => Flow::Fail(FaultShape::Target(e), self),
                Ok(value) => self.done(RequestShape::WriteRegister(tokens[2], value)).bind(
                    |_done: (), s: UiShape|
                        s.log(register_text(tokens[2], value)).refresh_snapshot(),
                ),
            }
        }
    }

    /// The command for registers.
    #[verifier::opaque]
    pub open spec fn cmd_register(self, tokens: Seq<Seq<char>>) -> Flow<(), UiShape> {
        if tokens.len() < 2 || tokens[1] == "dump"@ {
            self.refresh_snapshot()
        } else if tokens[1] == "read"@ {
            self.register_read(tokens)
        } else if tokens[1] == "write"@ {
            self.register_write(tokens)
        } else {
            Flow::Done((), self.log("Unknown register subcommand: "@ + tokens[1]))
        }
    }
}

impl TuiApp {
    /// The command that reads a register.
    fn register_read(&mut self, tokens: &Vec<String>) -> (r: Result<(), Pause>)
        ensures
            ran(r, final(self)@, old(self)@.register_read(texts(tokens@))),
    {
        if tokens.len() < 3 {
            self.log("Usage: register read <name>");
            return Ok(());
        }
        let registers = self.registers()?;
        let name = tokens[2].as_str();
        let text = match find_register(&registers, name) {
            Some(value) => {
                let start = with_text(name, " = 0x");
                with_hex(start.as_str(), value)
            },
            None => with_text("Unknown register: ", name),
        };
        self.log(text.as_str());
        Ok(())
    }

    /// The command that writes a register.
    fn register_write(&mut self, tokens: &Vec<String>) -> (r: Result<(), Pause>)
        ensures
            ran(r, final(self)@, old(self)@.register_write(texts(tokens@))),
    {
        if tokens.len() < 4 {
            self.log("Usage: register write <name> 0x<value>");
            return Ok(());
        }
        let value: u64 = settled(parse_hex_u64(tokens[3].as_str()))?;
        let name = tokens[2].as_str();
        self.done(Request::WriteRegister(name.to_owned(), value))?;
        let start = with_text(name, " = 0x");
        let text = with_hex(start.as_str(), value);
        self.log(text.as_str());
        self.refresh_snapshot()
    }

    /// The command for registers.
    fn cmd_register(&mut self, tokens: &Vec<String>) -> (r: Result<(), Pause>)
        ensures
            ran(r, final(self)@, old(self)@.cmd_register(texts(tokens@))),
    {
        proof {
            reveal(UiShape::cmd_register);
        }
        if tokens.len() < 2 || same(tokens[1].as_str(), "dump") {
            self.refresh_snapshot()
        } else if same(tokens[1].as_str(), "read") {
            self.register_read(tokens)
        } else if same(tokens[1].as_str(), "write") {
            self.register_write(tokens)
        } else {
            let text = with_text("Unknown register subcommand: ", tokens[1].as_str());
            self.log(text.as_str());
            Ok(())
        }
    }
}

// ---------------------------------------------------------------------------
// Memory

/// How many bytes a memory command reads: as many as its last word says, or sixteen.
pub open spec fn read_len_of(tokens: Seq<Seq<char>>) -> usize {
    if tokens.len() < 4 {
        16
    } else {
        match read_number(tokens[3], 10, usize::MAX as nat) {
            Ok(n) => n as usize,
            Err(_) => 16,
        }
    }
}

/// How many bytes a memory command reads.
fn read_len(tokens: &Vec<String>) -> (r: usize)
    ensures
        r == read_len_of(texts(tokens@)),
{
    if tokens.len() < 4 {
        return 16;
    }
    match parse_number(tokens[3].as_str(), 10, usize::MAX as u64) {
        Ok(n) => {
            proof {
                lemma_read_number_bound(tokens@[3]@, 10, usize::MAX as nat);
            }
            n as usize
        },
        Err(_) => 16,
    }
}

impl UiShape {
    /// The command that writes memory: the low four bytes of a value, the least significant
    /// first.
    pub open spec fn memory_write(self, addr: u64, tokens: Seq<Seq<char>>) -> Flow<(), UiShape> {
        if tokens.len() < 4 {
            Flow::Done((), self.log("Usage: memory write 0x<addr> 0x<value>"@))
        } else {
            match hex_value_of(tokens[3]) {
                Err(e) => Flow::Fail(FaultShape::Target(e), self),
                Ok(value) => {
                    let bytes = le_bytes_of(value as u32);
                    self.done(RequestShape::WriteMemory(addr, bytes)).bind(
                        |_done: (), s: UiShape|
                            s.log(
                                text_addr("Wrote 0x"@ + hex_text_of(bytes) + " to 0x"@, addr),
                            ).refresh_snapshot(),
                    )
                },
            }
        }
    }

    /// The command for memory.
    #[verifier::opaque]
    pub open spec fn cmd_memory(self, tokens: Seq<Seq<char>>) -> Flow<(), UiShape> {
        if tokens.len() < 3 {
            Flow::Done(
                (),
                self.log(
                    "Usage: memory read 0x<addr> [len] OR memory write 0x<addr> 0x<value>"@,
                ),
            )
        } else {
            match hex_value_of(tokens[2]) {
                Err(e) => Flow::Fail(FaultShape::Target(e), self),
                Ok(addr) => if tokens[1] == "read"@ {
                    self.bytes(RequestShape::ReadMemory(addr, read_len_of(tokens))).bind(
                        |bytes: Seq<u8>, s: UiShape|
                            Flow::Done((), s.log_all(dump_lines(addr, bytes))),
                    )
                } else if tokens[1] == "write"@ {
                    self.memory_write(addr, tokens)
                } else {
                    Flow::Done((), self.log("Unknown memory subcommand: "@ + tokens[1]))
                },
            }
        }
    }
}

impl TuiApp {
    /// The command that writes memory.
    fn memory_write(&mut self, addr: u64, tokens: &Vec<String>) -> (r: Result<(), Pause>)
        ensures
            ran(r, final(self)@, old(self)@.memory_write(addr, texts(tokens@))),
    {
        if tokens.len() < 4 {
            self.log("Usage: memory write 0x<addr> 0x<value>");
            return Ok(());
        }
        let value: u64 = settled(parse_hex_u64(tokens[3].as_str()))?;
        let data = u32_to_le_bytes(value as u32);
        let mut bytes: Vec<u8> = Vec::new();
        bytes.push(data[0]);
        bytes.push(data[1]);
        bytes.push(data[2]);
        bytes.push(data[3]);
        assert(bytes@ =~= data@);
        let digits = bytes_to_hex(bytes.as_slice());
        self.done(Request::WriteMemory(addr, bytes))?;
        let mut start = with_text("Wrote 0x", digits.as_str());
        start.append(" to 0x");
        let text = with_hex(start.as_str(), addr);
        self.log(text.as_str());
        self.refresh_snapshot()
    }

    /// The command for memory.
    fn cmd_memory(&mut self, tokens: &Vec<String>) -> (r: Result<(), Pause>)
        ensures
            ran(r, final(self)@, old(self)@.cmd_memory(texts(tokens@))),
    {
        proof {
            reveal(UiShape::cmd_memory);
        }
        if tokens.len() < 3 {
            self.log("Usage: memory read 0x<addr> [len] OR memory write 0x<addr> 0x<value>");
            return Ok(());
        }
        let addr: u64 = settled(parse_hex_u64(tokens[2].as_str()))?;
        if same(tokens[1].as_str(), "read") {
            let bytes = self.bytes(Request::ReadMemory(addr, read_len(tokens)))?;
            assert(bytes.deep_view() =~= bytes@);
            let dump = hexdump(addr, bytes.as_slice());
            self.log_all(&dump);
            Ok(())
        } else if same(tokens[1].as_str(), "write") {
            self.memory_write(addr, tokens)
        } else {
            let text = with_text("Unknown memory subcommand: ", tokens[1].as_str());
            self.log(text.as_str());
            Ok(())
        }
    }
}

// ---------------------------------------------------------------------------
// Commands

impl UiShape {
    /// The same with a summary of the commands in the log.
    pub open spec fn help(self) -> UiShape {
        self.log("Commands: c, s, n, si, b, clear, reg, mem, bt, halt, reset, q"@).log(
            "Function keys: F5 continue, F10 next, F11 instruction step"@,
        )
    }

    /// A command given by its words.
    pub open spec fn run_command(self, tokens: Seq<Seq<char>>) -> Flow<(), UiShape> {
        let word = tokens[0];
        if either(word, "continue"@, "c"@) {
            self.run_target_op("continue"@, RequestShape::Continue)
        } else if either(word, "stepi"@, "si"@) {
            self.run_target_op("stepi"@, RequestShape::StepInstruction)
        } else if either(word, "step"@, "s"@) {
            self.run_target_op("step"@, RequestShape::StepSource)
        } else if either(word, "next"@, "n"@) {
            self.run_target_op("next"@, RequestShape::NextSource)
        } else if word == "halt"@ {
            self.run_target_op("halt"@, RequestShape::Halt)
        } else if word == "reset"@ {
            self.run_target_op("reset"@, RequestShape::Reset)
        } else if either(word, "break"@, "b"@) {
            self.cmd_break(tokens)
        } else if either(word, "clear"@, "delete"@) {
            self.cmd_clear(tokens)
        } else if either(word, "register"@, "reg"@) {
            self.cmd_register(tokens)
        } else if either(word, "memory"@, "mem"@) {
            self.cmd_memory(tokens)
        } else if either(word, "backtrace"@, "bt"@) {
            self.refresh_snapshot()
        } else if either(word, "help"@, "h"@) {
            Flow::Done((), self.help())
        } else if either(word, "quit"@, "q"@) {
            Flow::Done((), UiShape { should_quit: true, ..self })
        } else {
            Flow::Done((), self.log("Invalid command: "@ + word))
        }
    }

    /// A command line.
    #[verifier::opaque]
    pub open spec fn execute_command(self, line: Seq<char>) -> Flow<(), UiShape> {
        let tokens = words_of(line);
        if tokens.len() == 0 {
            Flow::Done((), self)
        } else {
            self.log("> "@ + line).run_command(tokens)
        }
    }
}

impl TuiApp {
    /// Shows a summary of the commands in the log.
    fn print_help(&mut self)
        ensures
            final(self)@ == old(self)@.help(),
    {
        self.log("Commands: c, s, n, si, b, clear, reg, mem, bt, halt, reset, q");
        self.log("Function keys: F5 continue, F10 next, F11 instruction step");
    }

    /// Carries out a command given by its words.
    fn run_command(&mut self, tokens: &Vec<String>) -> (r: Result<(), Pause>)
        requires
            tokens@.len() > 0,
        ensures
            ran(r, final(self)@, old(self)@.run_command(texts(tokens@))),
    {
        let word = tokens[0].as_str();
        if is_either(word, "continue", "c") {
            self.run_target_op("continue", Request::Continue)
        } else if is_either(word, "stepi", "si") {
            self.run_target_op("stepi", Request::StepInstruction)
        } else if is_either(word, "step", "s") {
            self.run_target_op("step", Request::StepSource)
        } else if is_either(word, "next", "n") {
            self.run_target_op("next", Request::NextSource)
        } else if same(word, "halt") {
            self.run_target_op("halt", Request::Halt)
        } else if same(word, "reset") {
            self.run_target_op("reset", Request::Reset)
        } else if is_either(word, "break", "b") {
            self.cmd_break(tokens)
        } else if is_either(word, "clear", "delete") {
            self.cmd_clear(tokens)
        } else if is_either(word, "register", "reg") {
            self.cmd_register(tokens)
        } else if is_either(word, "memory", "mem") {
            self.cmd_memory(tokens)
        } else if is_either(word, "backtrace", "bt") {
            self.refresh_snapshot()
        } else if is_either(word, "help", "h") {
            self.print_help();
            Ok(())
        } else if is_either(word, "quit", "q") {
            self.quit();
            Ok(())
        } else {
            let text = with_text("Invalid command: ", word);
            self.log(text.as_str());
            Ok(())
        }
    }

    /// Carries out a command line.
    pub fn execute_command(&mut self, line: &str) -> (r: Result<(), Pause>)
        ensures
            ran(r, final(self)@, old(self)@.execute_command(line@)),
    {
        proof {
            reveal(UiShape::execute_command);
        }
        let tokens = split_whitespace(line);
        if tokens.len() == 0 {
            return Ok(());
        }
        let text = with_text("> ", line);
        self.log(text.as_str());
        self.run_command(&tokens)
    }
}

// ---------------------------------------------------------------------------
// What the commands ask for

impl UiShape {
    /// The next answer of the target says that a request was met.
    pub open spec fn next_is_done(self) -> bool {
        self.talk.replies.len() > 0 && self.talk.replies[0] == ReplyShape::Target(
            AnswerShape::Done(Ok(())),
        )
    }

    /// The same after the target has answered a request.
    pub open spec fn asked(self, request: RequestShape) -> UiShape {
        UiShape { talk: self.talk.next(CallShape::Target(request)), ..self }
    }
}

/// A command that sets a breakpoint at an address has the target set it there; where the target
/// does, this is said and a new snapshot is taken.
pub proof fn lemma_break_asks(s: UiShape, tokens: Seq<Seq<char>>, addr: u64)
    requires
        tokens.len() >= 2,
        begins(tokens[1], "0x"@) || !tokens[1].contains(':'),
        hex_value_of(tokens[1]) == Ok::<u64, Seq<Seq<char>>>(addr),
    ensures
        s.talk.replies.len() == 0 ==> s.cmd_break(tokens) == Flow::<(), UiShape>::Ask(
            CallShape::Target(RequestShape::SetBreakpoint(addr)),
            s,
        ),
        s.next_is_done() ==> s.cmd_break(tokens) == s.asked(RequestShape::SetBreakpoint(addr)).log(
            text_addr("Breakpoint set at 0x"@, addr),
        ).refresh_snapshot(),
{
    reveal(UiShape::cmd_break);
}

/// A command that writes a value to memory has the target write its low four bytes there, the
/// least significant first; where the target does, this is said and a new snapshot is taken.
pub proof fn lemma_memory_write_asks(s: UiShape, tokens: Seq<Seq<char>>, addr: u64, value: u64)
    requires
        tokens.len() >= 4,
        tokens[1] == "write"@,
        hex_value_of(tokens[2]) == Ok::<u64, Seq<Seq<char>>>(addr),
        hex_value_of(tokens[3]) == Ok::<u64, Seq<Seq<char>>>(value),
    ensures
        ({
            let bytes = le_bytes_of(value as u32);
            let request = RequestShape::WriteMemory(addr, bytes);
            &&& s.talk.replies.len() == 0 ==> s.cmd_memory(tokens) == Flow::<(), UiShape>::Ask(
                CallShape::Target(request),
                s,
            )
            &&& s.next_is_done() ==> s.cmd_memory(tokens) == s.asked(request).log(
                text_addr("Wrote 0x"@ + hex_text_of(bytes) + " to 0x"@, addr),
            ).refresh_snapshot()
        }),
{
    reveal(UiShape::cmd_memory);
    reveal_strlit("read");
    reveal_strlit("write");
    assert("read"@.len() == 4 && "write"@.len() == 5);
}

} // verus!
