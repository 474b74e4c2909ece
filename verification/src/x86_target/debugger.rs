//! A debugger for a local Linux process.
use vstd::prelude::*;

use crate::dialogue::{
    attempted, ran, talk_with, Call, CallShape, FaultShape, Flow, Pause, Talk, TalkShape,
};
use crate::dwarf::ImageShape;
use crate::elf_debug_info::{
    find_function, find_line, known_function, known_line, line_at, units_in_image, ElfDebugInfo,
};
use crate::list::{has_value, push_new, remove_value, with_value, without};
use crate::number::{hex_of, push_hex};
use crate::source::{
    bare_place, bare_place_text, code_place, code_place_text, print_source, print_source_beside,
    print_source_beside_of, print_source_of,
};
use crate::words::lines_of;

use super::breakpoint::{bp_at, drop_bp, find_bp, put_bp, with_bp, without_bp, Breakpoint, Changed};
use super::maps::{
    bias_in, file_addr, file_address, find_load_bias, has_code, is_executable_address_in_program,
    mapped_object_for_addr, object_at, process_addr, process_address,
};
use super::registers::{get_register_value, set_register_value, Register};

verus! {

/// A debugger for a traced process.
pub struct LinuxPtraceDebugger {
    /// The path of the program.
    pub program_name: String,
    /// Whether the process is running.
    pub is_executing: bool,
    /// Whether the process has got a fatal signal.
    pub has_crashed: bool,
    /// The breakpoints, each address once, in the order in which they were set.
    pub breakpoints: Vec<Breakpoint>,
    /// The addresses of the breakpoints that go when they were hit, in the order in which they
    /// were set.
    pub temp_breakpoints: Vec<u64>,
    /// Whether what the process puts out is captured.
    pub captures_output: bool,
    /// Whether this is a plain session: one that tells places by the debugging information alone,
    /// looks for sources beside the program only, and leaves the breakpoints for one time at its
    /// end where they are.
    pub plain: bool,
    pub debug_info: ElfDebugInfo,
    pub talk: Talk,
}

/// A debugger as mathematical values.
#[verifier::ext_equal]
pub struct PtraceShape {
    pub program: Seq<char>,
    pub is_executing: bool,
    pub has_crashed: bool,
    pub breakpoints: Seq<Breakpoint>,
    pub temps: Seq<u64>,
    pub captures_output: bool,
    pub plain: bool,
    pub image: ImageShape,
    pub talk: TalkShape,
}

impl View for LinuxPtraceDebugger {
    type V = PtraceShape;

    open spec fn view(&self) -> PtraceShape {
        PtraceShape {
            program: self.program_name@,
            is_executing: self.is_executing,
            has_crashed: self.has_crashed,
            breakpoints: self.breakpoints@,
            temps: self.temp_breakpoints@,
            captures_output: self.captures_output,
            plain: self.plain,
            image: self.debug_info@,
            talk: self.talk@,
        }
    }
}

// ---------------------------------------------------------------------------
// Asking

impl PtraceShape {
    /// A talk that has gone on.
    pub open spec fn on_talk<A>(self, flow: Flow<A, TalkShape>) -> Flow<A, PtraceShape> {
        match flow {
            Flow::Ask(call, talk) => Flow::Ask(call, PtraceShape { talk, ..self }),
            Flow::Fail(e, talk) => Flow::Fail(e, PtraceShape { talk, ..self }),
            Flow::Done(a, talk) => Flow::Done(a, PtraceShape { talk, ..self }),
        }
    }

    /// The same with a line printed.
    pub open spec fn say(self, line: Seq<char>) -> PtraceShape {
        PtraceShape { talk: self.talk.say(line), ..self }
    }

    /// A change of a breakpoint of the table.
    pub open spec fn on_table(self, change: Changed) -> Flow<(), PtraceShape> {
        match change {
            Changed::Ask(call, bp, talk) => Flow::Ask(
                call,
                PtraceShape { talk, breakpoints: with_bp(self.breakpoints, bp), ..self },
            ),
            Changed::Fail(e, bp, talk) => Flow::Fail(
                e,
                PtraceShape { talk, breakpoints: with_bp(self.breakpoints, bp), ..self },
            ),
            Changed::Done(bp, talk) => Flow::Done(
                (),
                PtraceShape { talk, breakpoints: with_bp(self.breakpoints, bp), ..self },
            ),
        }
    }

    /// Reading a register.
    pub open spec fn get_register(self, r: Register) -> Flow<u64, PtraceShape> {
        self.on_talk(self.talk.get_register(r))
    }

    /// Writing a register.
    pub open spec fn set_register(self, r: Register, value: u64) -> Flow<(), PtraceShape> {
        self.on_talk(self.talk.set_register(r, value))
    }

    /// Reading the program counter.
    pub open spec fn get_pc(self) -> Flow<u64, PtraceShape> {
        self.get_register(Register::Rip)
    }

    /// Reading a word.
    pub open spec fn peek(self, addr: u64) -> Flow<i64, PtraceShape> {
        self.on_talk(self.talk.peek(addr))
    }

    /// Having something done.
    pub open spec fn order(self, call: CallShape) -> Flow<(), PtraceShape> {
        self.on_talk(self.talk.order(call))
    }

    /// Waiting for the process.
    pub open spec fn wait(self) -> Flow<crate::dialogue::StatusShape, PtraceShape> {
        self.on_talk(self.talk.wait())
    }

    /// Reading the memory map.
    pub open spec fn maps(self) -> Flow<Result<Seq<char>, Seq<char>>, PtraceShape> {
        self.on_talk(self.talk.file(CallShape::Maps))
    }

    /// Finding out where the program was loaded.
    pub open spec fn load_bias(self) -> Flow<Option<u64>, PtraceShape> {
        self.maps().bind(
            |maps: Result<Seq<char>, Seq<char>>, s: PtraceShape|
                Flow::Done(
                    match maps {
                        Ok(text) => bias_in(lines_of(text), s.program),
                        Err(_) => None,
                    },
                    s,
                ),
        )
    }

    /// Turning an address of the process into one of the program file.
    pub open spec fn to_dwarf_pc(self, runtime: u64) -> Flow<u64, PtraceShape> {
        self.load_bias().bind(
            |bias: Option<u64>, s: PtraceShape| Flow::Done(file_addr(bias, runtime), s),
        )
    }

    /// Turning an address of the program file into one of the process.
    pub open spec fn to_runtime_addr(self, addr: u64) -> Flow<u64, PtraceShape> {
        self.load_bias().bind(
            |bias: Option<u64>, s: PtraceShape| Flow::Done(process_addr(bias, addr), s),
        )
    }

    /// Reading the program counter as an address of the program file.
    pub open spec fn get_dwarf_pc(self) -> Flow<u64, PtraceShape> {
        self.get_pc().bind(|pc: u64, s: PtraceShape| s.to_dwarf_pc(pc))
    }

    /// Finding out whether an address is executable, and of the program where only that counts.
    pub open spec fn is_code(self, addr: u64, ours: bool) -> Flow<bool, PtraceShape> {
        self.maps().bind(
            |maps: Result<Seq<char>, Seq<char>>, s: PtraceShape|
                Flow::Done(
                    match maps {
                        Ok(text) => has_code(text, s.program, addr, ours),
                        Err(_) => false,
                    },
                    s,
                ),
        )
    }
}

impl LinuxPtraceDebugger {
    /// A debugger for a process that has just been started.
    pub fn new(program_name: String, debug_info: ElfDebugInfo) -> (r: Self)
        ensures
            r@ == (PtraceShape {
                program: program_name@,
                is_executing: false,
                has_crashed: false,
                breakpoints: Seq::empty(),
                temps: Seq::empty(),
                captures_output: false,
                plain: false,
                image: debug_info@,
                talk: talk_with(Seq::empty()),
            }),
    {
        LinuxPtraceDebugger::new_with_output_fd(program_name, debug_info, false)
    }

    /// A debugger for a process that has just been started and whose output may be captured.
    pub fn new_with_output_fd(program_name: String, debug_info: ElfDebugInfo, captures_output: bool) -> (r: Self)
        ensures
            r@ == (PtraceShape {
                program: program_name@,
                is_executing: false,
                has_crashed: false,
                breakpoints: Seq::empty(),
                temps: Seq::empty(),
                captures_output,
                plain: false,
                image: debug_info@,
                talk: talk_with(Seq::empty()),
            }),
    {
        let talk = Talk::new(Vec::new());
        assert(talk@.replies =~= Seq::<crate::dialogue::ReplyShape>::empty());
        let r = LinuxPtraceDebugger {
            program_name,
            is_executing: false,
            has_crashed: false,
            breakpoints: Vec::new(),
            temp_breakpoints: Vec::new(),
            captures_output,
            plain: false,
            debug_info,
            talk,
        };
        assert(r@.breakpoints =~= Seq::<Breakpoint>::empty());
        assert(r@.temps =~= Seq::<u64>::empty());
        r
    }

    /// Reads a register.
    pub fn get_register(&mut self, r: Register) -> (v: Result<u64, Pause>)
        ensures
            ran(v, final(self)@, old(self)@.get_register(r)),
    {
        get_register_value(&mut self.talk, r)
    }

    /// Writes a register.
    pub fn set_register(&mut self, r: Register, value: u64) -> (v: Result<(), Pause>)
        ensures
            ran(v, final(self)@, old(self)@.set_register(r, value)),
    {
        set_register_value(&mut self.talk, r, value)
    }

    /// Reads the program counter.
    pub fn get_pc(&mut self) -> (r: Result<u64, Pause>)
        ensures
            ran(r, final(self)@, old(self)@.get_pc()),
    {
        self.get_register(Register::Rip)
    }

    /// Writes the program counter.
    pub fn set_pc(&mut self, value: u64) -> (r: Result<(), Pause>)
        ensures
            ran(r, final(self)@, old(self)@.set_register(Register::Rip, value)),
    {
        self.set_register(Register::Rip, value)
    }

    /// Finds out where the program was loaded.
    pub fn load_bias(&mut self) -> (r: Result<Option<u64>, Pause>)
        ensures
            ran(r, final(self)@, old(self)@.load_bias()),
    {
        let maps = self.talk.file(Call::Maps)?;
        match maps.text {
            Ok(text) => Ok(find_load_bias(text.as_str(), self.program_name.as_str())),
            Err(_) => Ok(None),
        }
    }

    /// Turns an address of the process into one of the program file.
    pub fn to_dwarf_pc(&mut self, runtime_pc: u64) -> (r: Result<u64, Pause>)
        ensures
            ran(r, final(self)@, old(self)@.to_dwarf_pc(runtime_pc)),
    {
        let bias: Option<u64> = self.load_bias()?;
        Ok(file_address(bias, runtime_pc))
    }

    /// Turns an address of the program file into one of the process.
    pub fn to_runtime_addr(&mut self, dwarf_addr: u64) -> (r: Result<u64, Pause>)
        ensures
            ran(r, final(self)@, old(self)@.to_runtime_addr(dwarf_addr)),
    {
        let bias: Option<u64> = self.load_bias()?;
        Ok(process_address(bias, dwarf_addr))
    }

    /// Reads the program counter as an address of the program file.
    pub fn get_dwarf_pc(&mut self) -> (r: Result<u64, Pause>)
        ensures
            ran(r, final(self)@, old(self)@.get_dwarf_pc()),
    {
        let pc: u64 = self.get_pc()?;
        self.to_dwarf_pc(pc)
    }

    /// Finds out whether an address is executable, and of the program where only that counts.
    fn is_code(&mut self, addr: u64, ours: bool) -> (r: Result<bool, Pause>)
        ensures
            ran(r, final(self)@, old(self)@.is_code(addr, ours)),
    {
        let maps = self.talk.file(Call::Maps)?;
        match maps.text {
            Ok(text) => Ok(
                is_executable_address_in_program(
                    text.as_str(),
                    self.program_name.as_str(),
                    addr,
                    ours,
                ),
            ),
            Err(_) => Ok(false),
        }
    }

    /// Finds out whether an address is code of the program.
    pub fn is_valid_code_address(&mut self, addr: u64) -> (r: Result<bool, Pause>)
        ensures
            ran(r, final(self)@, old(self)@.is_code(addr, true)),
    {
        self.is_code(addr, true)
    }

    /// Finds out whether an address is code of the program or of a library.
    pub fn is_any_executable_address(&mut self, addr: u64) -> (r: Result<bool, Pause>)
        ensures
            ran(r, final(self)@, old(self)@.is_code(addr, false)),
    {
        self.is_code(addr, false)
    }
}

// ---------------------------------------------------------------------------
// Places in the code

/// The place of an address in a mapped object.
pub open spec fn object_place(pc: u64, name: Seq<char>, offset: u64) -> Seq<char> {
    "At 0x"@ + hex_of(pc as nat) + " ("@ + name + " + 0x"@ + hex_of(offset as nat)
        + ", no DWARF match)"@
}

/// The place of an address in a mapped object.
fn object_place_text(pc: u64, name: &str, offset: u64) -> (r: String)
    ensures
        r@ == object_place(pc, name@, offset),
{
    let mut out = "At 0x".to_owned();
    push_hex(&mut out, pc);
    out.append(" (");
    out.append(name);
    out.append(" + 0x");
    push_hex(&mut out, offset);
    out.append(", no DWARF match)");
    out
}

/// A text and an address.
pub open spec fn text_and_hex(text: Seq<char>, n: u64) -> Seq<char> {
    text + hex_of(n as nat)
}

/// A text and an address.
pub fn with_hex(text: &str, n: u64) -> (r: String)
    ensures
        r@ == text_and_hex(text@, n),
{
    let mut out = text.to_owned();
    push_hex(&mut out, n);
    out
}

impl PtraceShape {
    /// Finding the place of an address: by the program's debugging information, or else, unless
    /// that alone counts, by the object that is mapped there.
    pub open spec fn format_location(self, pc: u64) -> Flow<Seq<char>, PtraceShape> {
        self.to_dwarf_pc(pc).bind(
            |addr: u64, s: PtraceShape|
                match code_place(known_function(s.image, addr), known_line(s.image, addr)) {
                    Some(place) => Flow::Done(place, s),
                    None => if s.plain {
                        Flow::Done(bare_place(pc), s)
                    } else {
                        s.maps().bind(
                            |maps: Result<Seq<char>, Seq<char>>, s: PtraceShape|
                                Flow::Done(
                                    match maps {
                                        Ok(text) => match object_at(text, pc) {
                                            Some((name, offset)) => object_place(
                                                pc,
                                                name,
                                                offset,
                                            ),
                                            None => bare_place(pc),
                                        },
                                        Err(_) => bare_place(pc),
                                    },
                                    s,
                                ),
                        )
                    },
                },
        )
    }

    /// Printing the place of an address.
    pub open spec fn print_location(self, pc: u64) -> Flow<(), PtraceShape> {
        self.format_location(pc).bind(
            |place: Seq<char>, s: PtraceShape| Flow::Done((), s.say(place)),
        )
    }

    /// Finding the source line of the program counter. What goes wrong is printed.
    pub open spec fn current_line(self) -> Flow<Option<(Seq<char>, u64)>, PtraceShape> {
        self.get_pc().attempt().bind(
            |pc: Result<u64, FaultShape>, s: PtraceShape|
                {
                    let t = match pc {
                        Ok(_) => s,
                        Err(e) => s.say("ERROR getting current line: "@ + e.symbol()),
                    };
                    t.to_dwarf_pc(
                        match pc {
                            Ok(pc) => pc,
                            Err(_) => 0,
                        },
                    ).bind(
                        |addr: u64, s: PtraceShape|
                            match line_at(units_in_image(s.image), addr) {
                                Ok(line) => Flow::Done(line, s),
                                Err(e) => Flow::Done(
                                    None,
                                    s.say("ERROR getting file line "@ + e),
                                ),
                            },
                    )
                },
        )
    }

    /// Printing a source line.
    #[verifier::opaque]
    pub open spec fn print_source(self, path: Seq<char>, line: u64) -> Flow<(), PtraceShape> {
        self.on_talk(
            if self.plain {
                print_source_beside_of(self.talk, self.program, path, line)
            } else {
                print_source_of(self.talk, self.program, path, line)
            },
        )
    }

    /// Printing the source line of the program counter, where there is one.
    pub open spec fn print_current_source(self) -> Flow<(), PtraceShape> {
        self.current_line().bind(
            |line: Option<(Seq<char>, u64)>, s: PtraceShape|
                match line {
                    Some((file, number)) => s.print_source(file, number),
                    None => Flow::Done((), s),
                },
        )
    }

    /// Printing the place and the source line of the program counter.
    pub open spec fn print_here(self) -> Flow<(), PtraceShape> {
        self.get_pc().bind(
            |pc: u64, s: PtraceShape|
                s.print_location(pc).bind(
                    |_done: (), s: PtraceShape| s.print_current_source(),
                ),
        )
    }
}

impl LinuxPtraceDebugger {
    /// Finds the place of an address.
    pub fn format_location(&mut self, runtime_pc: u64) -> (r: Result<String, Pause>)
        ensures
            ran(r, final(self)@, old(self)@.format_location(runtime_pc)),
    {
        let addr: u64 = self.to_dwarf_pc(runtime_pc)?;
        let func = find_function(&self.debug_info, addr);
        let line = find_line(&self.debug_info, addr);
        if let Some(place) = code_place_text(func, line) {
            return Ok(place);
        }
        if self.plain {
            return Ok(bare_place_text(runtime_pc));
        }
        let maps = self.talk.file(Call::Maps)?;
        match maps.text {
            Ok(text) => {
                match mapped_object_for_addr(text.as_str(), runtime_pc) {
                    Some(object) => Ok(
                        object_place_text(runtime_pc, object.name.as_str(), object.offset),
                    ),
                    None => Ok(bare_place_text(runtime_pc)),
                }
            },
            Err(_) => Ok(bare_place_text(runtime_pc)),
        }
    }

    /// Prints the place of an address.
    pub fn print_location(&mut self, runtime_pc: u64) -> (r: Result<(), Pause>)
        ensures
            ran(r, final(self)@, old(self)@.print_location(runtime_pc)),
    {
        let place = self.format_location(runtime_pc)?;
        self.talk.say(place.as_str());
        Ok(())
    }

    /// Finds the source line of the program counter.
    pub fn get_current_line(&mut self) -> (r: Result<Option<(String, u64)>, Pause>)
        ensures
            ran(r, final(self)@, old(self)@.current_line()),
    {
        let pc: u64 = match attempted(self.get_pc())? {
            Ok(pc) => pc,
            Err(e) => {
                let mut text = "ERROR getting current line: ".to_owned();
                let symbol = e.symbol();
                text.append(symbol.as_str());
                self.talk.say(text.as_str());
                0
            },
        };
        let addr: u64 = self.to_dwarf_pc(pc)?;
        match self.debug_info.pc_to_file_line(addr) {
            Ok(line) => Ok(line),
            Err(e) => {
                let mut text = "ERROR getting file line ".to_owned();
                let message = e.message();
                text.append(message.as_str());
                self.talk.say(text.as_str());
                Ok(None)
            },
        }
    }

    /// Prints the source line of the program counter, where there is one.
    pub fn print_current_source(&mut self) -> (r: Result<(), Pause>)
        ensures
            ran(r, final(self)@, old(self)@.print_current_source()),
    {
        reveal(PtraceShape::print_source);
        match self.get_current_line()? {
            Some((file, number)) => {
                let program = self.program_name.as_str();
                if self.plain {
                    print_source_beside(&mut self.talk, program, file.as_str(), number)
                } else {
                    print_source(&mut self.talk, program, file.as_str(), number)
                }
            },
            None => Ok(()),
        }
    }

    /// Prints the place and the source line of the program counter.
    pub fn print_here(&mut self) -> (r: Result<(), Pause>)
        ensures
            ran(r, final(self)@, old(self)@.print_here()),
    {
        let pc: u64 = self.get_pc()?;
        self.print_location(pc)?;
        self.print_current_source()
    }
}

// ---------------------------------------------------------------------------
// Breakpoints

/// The address before another one.
pub open spec fn before(pc: u64) -> u64 {
    if pc == 0 {
        u64::MAX
    } else {
        (pc - 1) as u64
    }
}

impl PtraceShape {
    /// Passing a breakpoint that has just been hit: it is taken out, its instruction is
    /// executed, and it is put back.
    pub open spec fn stepover_breakpoint(self) -> Flow<(), PtraceShape> {
        self.get_pc().bind(
            |pc: u64, s: PtraceShape|
                match bp_at(s.breakpoints, before(pc)) {
                    None => Flow::Done((), s),
                    Some(bp) => if !bp.enabled_status {
                        Flow::Done((), s)
                    } else {
                        s.on_table(bp.disable_of(s.talk)).bind(
                            |_done: (), s: PtraceShape| s.execute_at(before(pc)),
                        )
                    },
                },
        )
    }

    /// Executing the instruction at an address and putting the breakpoint there back.
    pub open spec fn execute_at(self, addr: u64) -> Flow<(), PtraceShape> {
        self.set_register(Register::Rip, addr).bind(
            |_done: (), s: PtraceShape|
                s.order(CallShape::Step).bind(
                    |_done: (), s: PtraceShape|
                        s.wait().bind(
                            |_status: crate::dialogue::StatusShape, s: PtraceShape|
                                match bp_at(s.breakpoints, addr) {
                                    Some(bp) => s.on_table(bp.enable_of(s.talk)),
                                    None => Flow::Done((), s),
                                },
                        ),
                ),
        )
    }

    /// Taking out a breakpoint that is there for one time.
    pub open spec fn cleanup_temp(self, addr: u64) -> Flow<(), PtraceShape> {
        if !self.temps.contains(addr) {
            Flow::Done((), self)
        } else {
            let s = PtraceShape { temps: without(self.temps, addr), ..self };
            match bp_at(s.breakpoints, addr) {
                Some(bp) if bp.enabled_status => s.on_table(bp.disable_of(s.talk)).bind(
                    |_done: (), s: PtraceShape|
                        Flow::Done(
                            (),
                            PtraceShape { breakpoints: without_bp(s.breakpoints, addr), ..s },
                        ),
                ),
                _ => Flow::Done(
                    (),
                    PtraceShape { breakpoints: without_bp(s.breakpoints, addr), ..s },
                ),
            }
        }
    }

    /// Taking out some of the breakpoints that are there for one time, one after the other.
    pub open spec fn cleanup_temps(self, addrs: Seq<u64>) -> Flow<(), PtraceShape>
        decreases addrs.len(),
    {
        if addrs.len() == 0 {
            Flow::Done((), self)
        } else {
            self.cleanup_temp(addrs[0]).bind(
                |_done: (), s: PtraceShape| s.cleanup_temps(addrs.drop_first()),
            )
        }
    }

    /// Setting a breakpoint for one time, unless there is one or the address is not code.
    pub open spec fn set_temp(self, addr: u64) -> Flow<(), PtraceShape> {
        if bp_at(self.breakpoints, addr) is Some {
            Flow::Done((), self)
        } else {
            self.is_code(addr, false).bind(
                |code: bool, s: PtraceShape|
                    if !code {
                        Flow::Done((), s)
                    } else {
                        s.insert_new(addr).bind(
                            |_done: (), s: PtraceShape|
                                Flow::Done(
                                    (),
                                    PtraceShape { temps: with_value(s.temps, addr), ..s },
                                ),
                        )
                    },
            )
        }
    }

    /// Putting a new breakpoint into memory and, where that succeeds, into the table.
    pub open spec fn insert_new(self, addr: u64) -> Flow<(), PtraceShape> {
        match (Breakpoint { addr, enabled_status: false, saved_data: 0 }).enable_of(self.talk) {
            Changed::Ask(call, _, talk) => Flow::Ask(call, PtraceShape { talk, ..self }),
            Changed::Fail(e, _, talk) => Flow::Fail(e, PtraceShape { talk, ..self }),
            Changed::Done(bp, talk) => Flow::Done(
                (),
                PtraceShape { talk, breakpoints: with_bp(self.breakpoints, bp), ..self },
            ),
        }
    }

    /// Executing one instruction, unless the program has crashed.
    pub open spec fn single_step(self) -> Flow<(), PtraceShape> {
        if self.has_crashed {
            Flow::Done(
                (),
                self.say(
                    "Cannot step: program has crashed. Use 'continue' to terminate or restart the debugger."@,
                ),
            )
        } else {
            self.order(CallShape::Step)
        }
    }
}

impl LinuxPtraceDebugger {
    /// Takes the breakpoint of the table at an address out of memory.
    fn disable_at(&mut self, bp: Breakpoint) -> (r: Result<(), Pause>)
        ensures
            ran(r, final(self)@, old(self)@.on_table(bp.disable_of(old(self)@.talk))),
    {
        let mut bp = bp;
        let r = bp.disable(&mut self.talk);
        put_bp(&mut self.breakpoints, bp);
        r
    }

    /// Puts the breakpoint of the table at an address into memory.
    fn enable_at(&mut self, bp: Breakpoint) -> (r: Result<(), Pause>)
        ensures
            ran(r, final(self)@, old(self)@.on_table(bp.enable_of(old(self)@.talk))),
    {
        let mut bp = bp;
        let r = bp.enable(&mut self.talk);
        put_bp(&mut self.breakpoints, bp);
        r
    }

    /// Passes a breakpoint that has just been hit.
    pub fn stepover_breakpoint(&mut self) -> (r: Result<(), Pause>)
        ensures
            ran(r, final(self)@, old(self)@.stepover_breakpoint()),
    {
        let pc: u64 = self.get_pc()?;
        let addr: u64 = pc.wrapping_sub(1);
        match find_bp(&self.breakpoints, addr) {
            None => Ok(()),
            Some(bp) => {
                if !bp.enabled_status {
                    return Ok(());
                }
                self.disable_at(bp)?;
                self.set_pc(addr)?;
                self.talk.order(Call::Step)?;
                self.talk.wait()?;
                match find_bp(&self.breakpoints, addr) {
                    Some(bp) => self.enable_at(bp),
                    None => Ok(()),
                }
            },
        }
    }

    /// Takes out a breakpoint that is there for one time.
    pub fn cleanup_temp_breakpoint(&mut self, addr: u64) -> (r: Result<(), Pause>)
        ensures
            ran(r, final(self)@, old(self)@.cleanup_temp(addr)),
    {
        if !has_value(&self.temp_breakpoints, addr) {
            return Ok(());
        }
        remove_value(&mut self.temp_breakpoints, addr);
        if let Some(bp) = find_bp(&self.breakpoints, addr) {
            if bp.enabled_status {
                self.disable_at(bp)?;
            }
        }
        drop_bp(&mut self.breakpoints, addr);
        Ok(())
    }

    /// Takes out some of the breakpoints that are there for one time.
    pub fn cleanup_temps(&mut self, addrs: &Vec<u64>) -> (r: Result<(), Pause>)
        ensures
            ran(r, final(self)@, old(self)@.cleanup_temps(addrs@)),
    {
        let ghost want = old(self)@.cleanup_temps(addrs@);
        assert(addrs@.skip(0) =~= addrs@);
        for i in 0..addrs.len()
            invariant
                want == old(self)@.cleanup_temps(addrs@),
                want == self@.cleanup_temps(addrs@.skip(i as int)),
        {
            assert(addrs@.skip(i as int)[0] == addrs@[i as int]);
            assert(addrs@.skip(i as int).drop_first() =~= addrs@.skip(i + 1));
            self.cleanup_temp_breakpoint(addrs[i])?;
        }
        assert(addrs@.skip(addrs@.len() as int).len() == 0);
        Ok(())
    }

    /// Takes out all breakpoints that are there for one time.
    pub fn cleanup_all_temp_breakpoints(&mut self) -> (r: Result<(), Pause>)
        ensures
            ran(r, final(self)@, old(self)@.cleanup_temps(old(self)@.temps)),
    {
        let addrs: Vec<u64> = self.temp_breakpoints.clone();
        assert(addrs@ =~= self.temp_breakpoints@);
        self.cleanup_temps(&addrs)
    }

    /// Puts a new breakpoint into memory and, where that succeeds, into the table.
    pub fn insert_new(&mut self, addr: u64) -> (r: Result<(), Pause>)
        ensures
            ran(r, final(self)@, old(self)@.insert_new(addr)),
    {
        let mut bp = Breakpoint::new(addr);
        bp.enable(&mut self.talk)?;
        put_bp(&mut self.breakpoints, bp);
        Ok(())
    }

    /// Sets a breakpoint for one time, unless there is one or the address is not code.
    pub fn set_temp_breakpoint(&mut self, addr: u64) -> (r: Result<(), Pause>)
        ensures
            ran(r, final(self)@, old(self)@.set_temp(addr)),
    {
        if find_bp(&self.breakpoints, addr).is_some() {
            return Ok(());
        }
        if !self.is_any_executable_address(addr)? {
            return Ok(());
        }
        self.insert_new(addr)?;
        push_new(&mut self.temp_breakpoints, addr);
        Ok(())
    }

    /// Executes one instruction, unless the program has crashed.
    pub fn single_step(&mut self) -> (r: Result<(), Pause>)
        ensures
            ran(r, final(self)@, old(self)@.single_step()),
    {
        if self.has_crashed {
            self.talk.say(
                "Cannot step: program has crashed. Use 'continue' to terminate or restart the debugger.",
            );
            return Ok(());
        }
        self.talk.order(Call::Step)
    }
}

} // verus!
