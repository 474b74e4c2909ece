//! A debugger for a Cortex-M target behind a GDB remote stub.
use vstd::prelude::*;

use crate::dialogue::{
    given, ran, settled, talk_with, Call, CallShape, Fault, FaultShape, Flow, Pause, Talk,
    TalkShape,
};
use crate::dwarf::ImageShape;
use crate::elf_debug_info::{find_function, find_line, known_function, known_line, ElfDebugInfo};
use crate::number::{dec_of, hex_of, push_dec, push_hex};
use crate::source::{bare_place, bare_place_text, code_place, code_place_text};
use crate::target::{StopCause, StopReason, TargetError};
use crate::text::{same, starts_with};

use super::gdb_protocol::{
    bytes_to_hex, expect_ok, hex_bytes_of, hex_text_of, hex_to_bytes, is_error_reply, le_bytes_of,
    le_hex_of, le_word_at, le_word_of, ok_of, parse_le_u32_hex, stop_cause_of,
    stop_reason_from_reply, u32_to_le_bytes,
};
use super::registers::CORE_REGS;

verus! {

/// The address of a remote stub where none is given.
pub open spec fn default_remote_addr() -> Seq<char> {
    "127.0.0.1:3333"@
}

/// A debugger for a target behind a remote stub.
pub struct RemoteArmDebugger {
    pub program_name: String,
    pub endpoint: String,
    pub talk: Talk,
    pub debug_info: ElfDebugInfo,
    /// The breakpoints set by the user, each once, in the order in which they were set.
    pub breakpoints: Vec<u64>,
}

/// A debugger as mathematical values.
#[verifier::ext_equal]
pub struct ArmShape {
    pub program: Seq<char>,
    pub endpoint: Seq<char>,
    pub image: ImageShape,
    pub breakpoints: Seq<u64>,
    pub talk: TalkShape,
}

impl View for RemoteArmDebugger {
    type V = ArmShape;

    open spec fn view(&self) -> ArmShape {
        ArmShape {
            program: self.program_name@,
            endpoint: self.endpoint@,
            image: self.debug_info@,
            breakpoints: self.breakpoints@,
            talk: self.talk@,
        }
    }
}

// ---------------------------------------------------------------------------
// Addresses

/// A code address without its Thumb bit.
pub open spec fn thumb_addr(addr: u64) -> u64 {
    (addr - addr % 2) as u64
}

/// Clears the Thumb bit of an address.
pub fn normalize_thumb_addr(addr: u64) -> (r: u64)
    ensures
        r == thumb_addr(addr),
{
    assert(addr & !1u64 == addr - addr % 2) by (bit_vector);
    addr & !1
}

/// A normalized address is even, is its own normal form, and is the address or the one before.
pub proof fn lemma_thumb_addr(addr: u64)
    ensures
        thumb_addr(addr) % 2 == 0,
        thumb_addr(thumb_addr(addr)) == thumb_addr(addr),
        thumb_addr(addr) <= addr <= thumb_addr(addr) + 1,
{
}

// ---------------------------------------------------------------------------
// Packets

impl ArmShape {
    /// A talk that has gone on.
    pub open spec fn on_talk<A>(self, flow: Flow<A, TalkShape>) -> Flow<A, ArmShape> {
        match flow {
            Flow::Ask(call, talk) => Flow::Ask(call, ArmShape { talk, ..self }),
            Flow::Fail(e, talk) => Flow::Fail(e, ArmShape { talk, ..self }),
            Flow::Done(a, talk) => Flow::Done(a, ArmShape { talk, ..self }),
        }
    }

    /// The same with a line printed.
    pub open spec fn say(self, line: Seq<char>) -> ArmShape {
        ArmShape { talk: self.talk.say(line), ..self }
    }

    /// Sending a packet and reading the response.
    pub open spec fn send_packet(self, packet: Seq<char>) -> Flow<Seq<char>, ArmShape> {
        self.on_talk(self.talk.packet(CallShape::Exchange(packet)))
    }

    /// Letting the target run until it stops.
    pub open spec fn cont(self) -> Flow<Seq<char>, ArmShape> {
        self.on_talk(self.talk.packet(CallShape::Resume("c"@)))
    }

    /// Executing one instruction.
    pub open spec fn step(self) -> Flow<Seq<char>, ArmShape> {
        self.send_packet("s"@)
    }

    /// Interrupting the target.
    pub open spec fn interrupt(self) -> Flow<Seq<char>, ArmShape> {
        self.on_talk(self.talk.packet(CallShape::Interrupt))
    }

    /// Reading memory.
    pub open spec fn read_memory(self, addr: u64, len: usize) -> Flow<Seq<u8>, ArmShape> {
        self.send_packet("m"@ + hex_of(addr as nat) + ","@ + hex_of(len as nat)).bind(
            |response: Seq<char>, s: ArmShape|
                if is_error_reply(response) {
                    Flow::Fail(
                        FaultShape::Target(
                            seq!["remote target rejected memory read: "@ + response],
                        ),
                        s,
                    )
                } else {
                    given(hex_bytes_of(response), s)
                },
        )
    }

    /// Writing memory.
    pub open spec fn write_memory(self, addr: u64, bytes: Seq<u8>) -> Flow<(), ArmShape> {
        self.send_packet(
            "M"@ + hex_of(addr as nat) + ","@ + hex_of(bytes.len()) + ":"@ + hex_text_of(bytes),
        ).bind(|response: Seq<char>, s: ArmShape| given(ok_of(response), s))
    }

    /// Asking for the features and the state of the target.
    pub open spec fn initial_stop(self) -> Flow<(Seq<char>, StopCause), ArmShape> {
        self.send_packet("qSupported"@).bind(
            |supported: Seq<char>, s: ArmShape|
                s.send_packet("?"@).bind(
                    |reply: Seq<char>, s: ArmShape|
                        Flow::Done((supported, stop_cause_of(reply)), s),
                ),
        )
    }
}

/// The packet of a breakpoint on a Thumb instruction.
pub open spec fn breakpoint_packet(kind: Seq<char>, addr: u64) -> Seq<char> {
    kind + ","@ + hex_of(addr as nat) + ",2"@
}

/// The packet of a breakpoint on a Thumb instruction.
fn breakpoint_request(kind: &str, addr: u64) -> (r: String)
    ensures
        r@ == breakpoint_packet(kind@, addr),
{
    let mut packet = kind.to_owned();
    packet.append(",");
    push_hex(&mut packet, addr);
    packet.append(",2");
    packet
}

impl ArmShape {
    /// Trying one kind of breakpoint request, then another.
    pub open spec fn breakpoint_request(
        self,
        first: Seq<char>,
        second: Seq<char>,
        addr: u64,
    ) -> Flow<(), ArmShape> {
        self.send_packet(breakpoint_packet(first, addr)).bind(
            |response: Seq<char>, s: ArmShape|
                if response == "OK"@ {
                    Flow::Done((), s)
                } else {
                    s.send_packet(breakpoint_packet(second, addr)).bind(
                        |fallback: Seq<char>, s: ArmShape| given(ok_of(fallback), s),
                    )
                },
        )
    }

    /// Inserting a hardware breakpoint, or a software one where that is refused.
    pub open spec fn insert_remote_breakpoint(self, addr: u64) -> Flow<(), ArmShape> {
        self.breakpoint_request("Z1"@, "Z0"@, addr)
    }

    /// Removing a hardware breakpoint, or a software one where that is refused.
    pub open spec fn remove_remote_breakpoint(self, addr: u64) -> Flow<(), ArmShape> {
        self.breakpoint_request("z1"@, "z0"@, addr)
    }
}

// ---------------------------------------------------------------------------
// Registers

/// The values of the core registers in a block of bytes, as far as the block goes.
pub open spec fn core_values(bytes: Seq<u8>) -> Seq<u64> {
    Seq::new(
        if bytes.len() / 4 < CORE_REGS {
            bytes.len() / 4
        } else {
            CORE_REGS as nat
        },
        |i: int| le_word_of(bytes.skip(4 * i)) as u64,
    )
}

/// The values of the core registers in a block of bytes, as far as the block goes.
pub fn core_register_values(bytes: &[u8]) -> (r: Vec<u64>)
    ensures
        r@ == core_values(bytes@),
{
    let mut out: Vec<u64> = Vec::new();
    let len: usize = bytes.len();
    let mut index: usize = 0;
    while index < CORE_REGS && len - 4 * index >= 4
        invariant
            len == bytes@.len(),
            index <= CORE_REGS,
            4 * index <= len,
            out@.len() == index,
            index <= core_values(bytes@).len(),
            forall|i: int| 0 <= i < index ==> #[trigger] out@[i] == core_values(bytes@)[i],
        decreases CORE_REGS - index,
    {
        let value: u32 = le_word_at(bytes, 4 * index);
        out.push(value as u64);
        index = index + 1;
    }
    assert(out@ =~= core_values(bytes@));
    out
}

impl ArmShape {
    /// Reading the block of core registers.
    pub open spec fn read_core_registers(self) -> Flow<Seq<u64>, ArmShape> {
        self.send_packet("g"@).bind(
            |response: Seq<char>, s: ArmShape|
                if is_error_reply(response) {
                    Flow::Fail(
                        FaultShape::Target(
                            seq!["remote target rejected register read: "@ + response],
                        ),
                        s,
                    )
                } else {
                    match hex_bytes_of(response) {
                        Ok(bytes) => Flow::Done(core_values(bytes), s),
                        Err(e) => Flow::Fail(FaultShape::Target(e), s),
                    }
                },
        )
    }

    /// Reading one core register, from the whole block where the stub cannot read one alone.
    pub open spec fn read_register(self, index: usize) -> Flow<u64, ArmShape> {
        self.send_packet("p"@ + hex_of(index as nat)).bind(
            |response: Seq<char>, s: ArmShape|
                if is_error_reply(response) || response.len() == 0 {
                    s.read_core_registers().bind(
                        |values: Seq<u64>, s: ArmShape|
                            if index < values.len() {
                                Flow::Done(values[index as int], s)
                            } else {
                                Flow::Fail(
                                    FaultShape::Target(
                                        seq![
                                            "register index "@ + dec_of(index as nat)
                                                + " was not in the core register packet"@,
                                        ],
                                    ),
                                    s,
                                )
                            },
                    )
                } else {
                    match le_hex_of(response) {
                        Ok(value) => Flow::Done(value as u64, s),
                        Err(e) => Flow::Fail(FaultShape::Target(e), s),
                    }
                },
        )
    }

    /// Writing one core register.
    pub open spec fn write_register(self, index: usize, value: u64) -> Flow<(), ArmShape> {
        self.send_packet(
            "P"@ + hex_of(index as nat) + "="@ + hex_text_of(le_bytes_of(value as u32)),
        ).bind(|response: Seq<char>, s: ArmShape| given(ok_of(response), s))
    }

    /// Reading the program counter.
    pub open spec fn arm_pc(self) -> Flow<u64, ArmShape> {
        self.read_register(15).bind(|value: u64, s: ArmShape| Flow::Done(thumb_addr(value), s))
    }

    /// Reading the stack pointer.
    pub open spec fn arm_sp(self) -> Flow<u64, ArmShape> {
        self.read_register(13)
    }
}

impl RemoteArmDebugger {
    /// A debugger that has no breakpoints, for a program and the stub at an endpoint.
    pub fn connect(program_name: String, endpoint: Option<String>, debug_info: ElfDebugInfo) -> (r:
        Self)
        ensures
            r@ == (ArmShape {
                program: program_name@,
                endpoint: match endpoint {
                    Some(e) => e@,
                    None => default_remote_addr(),
                },
                image: debug_info@,
                breakpoints: Seq::empty(),
                talk: talk_with(Seq::empty()),
            }),
    {
        let endpoint = match endpoint {
            Some(e) => e,
            None => "127.0.0.1:3333".to_owned(),
        };
        let replies: Vec<crate::dialogue::Reply> = Vec::new();
        let talk = Talk::new(replies);
        assert(talk@.replies =~= Seq::<crate::dialogue::ReplyShape>::empty());
        let r = RemoteArmDebugger {
            program_name,
            endpoint,
            talk,
            debug_info,
            breakpoints: Vec::new(),
        };
        assert(r@.breakpoints =~= Seq::<u64>::empty());
        r
    }

    /// Sends a packet and reads the response.
    pub fn send_packet(&mut self, packet: String) -> (r: Result<String, Pause>)
        ensures
            ran(r, final(self)@, old(self)@.send_packet(packet@)),
    {
        self.talk.packet(Call::Exchange(packet))
    }

    /// Lets the target run until it stops.
    pub fn cont(&mut self) -> (r: Result<String, Pause>)
        ensures
            ran(r, final(self)@, old(self)@.cont()),
    {
        self.talk.packet(Call::Resume("c".to_owned()))
    }

    /// Executes one instruction.
    pub fn step(&mut self) -> (r: Result<String, Pause>)
        ensures
            ran(r, final(self)@, old(self)@.step()),
    {
        self.send_packet("s".to_owned())
    }

    /// Interrupts the target.
    pub fn interrupt(&mut self) -> (r: Result<String, Pause>)
        ensures
            ran(r, final(self)@, old(self)@.interrupt()),
    {
        self.talk.packet(Call::Interrupt)
    }

    /// Reads memory.
    pub fn read_memory(&mut self, addr: u64, len: usize) -> (r: Result<Vec<u8>, Pause>)
        ensures
            ran(r, final(self)@, old(self)@.read_memory(addr, len)),
    {
        let mut packet = "m".to_owned();
        push_hex(&mut packet, addr);
        packet.append(",");
        push_hex(&mut packet, len as u64);
        let response = self.send_packet(packet)?;
        if starts_with(response.as_str(), "E") {
            let mut message = "remote target rejected memory read: ".to_owned();
            message.append(response.as_str());
            return Err(Pause::Fail(Fault::Target(TargetError::new(message))));
        }
        let bytes = settled(hex_to_bytes(response.as_str()))?;
        assert(bytes.deep_view() =~= bytes@);
        Ok(bytes)
    }

    /// Writes memory.
    pub fn write_memory(&mut self, addr: u64, bytes: &[u8]) -> (r: Result<(), Pause>)
        ensures
            ran(r, final(self)@, old(self)@.write_memory(addr, bytes@)),
    {
        let mut packet = "M".to_owned();
        push_hex(&mut packet, addr);
        packet.append(",");
        push_hex(&mut packet, bytes.len() as u64);
        packet.append(":");
        let digits = bytes_to_hex(bytes);
        packet.append(digits.as_str());
        let response = self.send_packet(packet)?;
        settled(expect_ok(response.as_str()))
    }

    /// Asks for the features and the state of the target.
    pub fn remote_initial_stop(&mut self) -> (r: Result<(String, StopReason), Pause>)
        ensures
            ran(r, final(self)@, old(self)@.initial_stop()),
    {
        let supported = self.send_packet("qSupported".to_owned())?;
        let reply = self.send_packet("?".to_owned())?;
        Ok((supported, stop_reason_from_reply(reply.as_str())))
    }

    /// Tries one kind of breakpoint request, then another.
    fn request_breakpoint(&mut self, first: &str, second: &str, addr: u64) -> (r: Result<(), Pause>)
        ensures
            ran(r, final(self)@, old(self)@.breakpoint_request(first@, second@, addr)),
    {
        let response = self.send_packet(breakpoint_request(first, addr))?;
        if same(response.as_str(), "OK") {
            return Ok(());
        }
        let fallback = self.send_packet(breakpoint_request(second, addr))?;
        settled(expect_ok(fallback.as_str()))
    }

    /// Inserts a hardware breakpoint, or a software one where that is refused.
    pub fn insert_remote_breakpoint(&mut self, addr: u64) -> (r: Result<(), Pause>)
        ensures
            ran(r, final(self)@, old(self)@.insert_remote_breakpoint(addr)),
    {
        self.request_breakpoint("Z1", "Z0", addr)
    }

    /// Removes a hardware breakpoint, or a software one where that is refused.
    pub fn remove_remote_breakpoint(&mut self, addr: u64) -> (r: Result<(), Pause>)
        ensures
            ran(r, final(self)@, old(self)@.remove_remote_breakpoint(addr)),
    {
        self.request_breakpoint("z1", "z0", addr)
    }

    /// Reads the block of core registers.
    pub fn read_arm_core_registers(&mut self) -> (r: Result<Vec<u64>, Pause>)
        ensures
            ran(r, final(self)@, old(self)@.read_core_registers()),
    {
        let response = self.send_packet("g".to_owned())?;
        if starts_with(response.as_str(), "E") {
            let mut message = "remote target rejected register read: ".to_owned();
            message.append(response.as_str());
            return Err(Pause::Fail(Fault::Target(TargetError::new(message))));
        }
        let bytes = settled(hex_to_bytes(response.as_str()))?;
        let values = core_register_values(bytes.as_slice());
        assert(values.deep_view() =~= values@);
        Ok(values)
    }

    /// Reads one core register, from the whole block where the stub cannot read one alone.
    pub fn read_register(&mut self, index: usize) -> (r: Result<u64, Pause>)
        ensures
            ran(r, final(self)@, old(self)@.read_register(index)),
    {
        let mut packet = "p".to_owned();
        push_hex(&mut packet, index as u64);
        let response = self.send_packet(packet)?;
        if starts_with(response.as_str(), "E") || response.as_str().unicode_len() == 0 {
            let values = self.read_arm_core_registers()?;
            assert(values.deep_view() =~= values@);
            if index < values.len() {
                return Ok(values[index]);
            }
            let mut message = "register index ".to_owned();
            push_dec(&mut message, index as u64);
            message.append(" was not in the core register packet");
            return Err(Pause::Fail(Fault::Target(TargetError::new(message))));
        }
        match parse_le_u32_hex(response.as_str()) {
            Ok(value) => Ok(value as u64),
            Err(e) => Err(Pause::Fail(Fault::Target(e))),
        }
    }

    /// Writes one core register.
    pub fn write_register(&mut self, index: usize, value: u64) -> (r: Result<(), Pause>)
        ensures
            ran(r, final(self)@, old(self)@.write_register(index, value)),
    {
        let bytes = u32_to_le_bytes(value as u32);
        let mut packet = "P".to_owned();
        push_hex(&mut packet, index as u64);
        packet.append("=");
        let digits = bytes_to_hex(bytes.as_slice());
        packet.append(digits.as_str());
        let response = self.send_packet(packet)?;
        settled(expect_ok(response.as_str()))
    }

    /// Reads the program counter.
    pub fn arm_pc(&mut self) -> (r: Result<u64, Pause>)
        ensures
            ran(r, final(self)@, old(self)@.arm_pc()),
    {
        let value: u64 = self.read_register(15)?;
        Ok(normalize_thumb_addr(value))
    }

    /// Reads the stack pointer.
    pub fn arm_sp(&mut self) -> (r: Result<u64, Pause>)
        ensures
            ran(r, final(self)@, old(self)@.arm_sp()),
    {
        self.read_register(13)
    }
}

// ---------------------------------------------------------------------------
// Places in the code

/// The place of an address in a program.
pub open spec fn location_of(image: ImageShape, pc: u64) -> Seq<char> {
    match code_place(known_function(image, pc), known_line(image, pc)) {
        Some(place) => place,
        None => bare_place(pc),
    }
}

impl RemoteArmDebugger {
    /// The place of an address in the program.
    pub fn format_location(&self, pc: u64) -> (r: String)
        ensures
            r@ == location_of(self@.image, pc),
    {
        let func = find_function(&self.debug_info, pc);
        let line = find_line(&self.debug_info, pc);
        match code_place_text(func, line) {
            Some(place) => place,
            None => bare_place_text(pc),
        }
    }
}

} // verus!
