//! What the process looks like while an operation reads it: its registers, words of its memory and
//! its memory map, as the replies to the operation's questions tell them.
use vstd::prelude::*;

use crate::dialogue::{CallShape, FaultShape, Flow, ReplyShape};
use crate::elf_debug_info::{known_function, known_line, line_at, units_in_image};
use crate::source::{bare_place, code_place};
use crate::words::lines_of;

use super::debugger::{object_place, PtraceShape};
use super::maps::{bias_in, has_code, object_at};
use super::registers::{Register, UserRegs};
use super::stops::goes_on;

verus! {

/// A process at rest: its registers, the words at some addresses, and its memory map.
pub struct World {
    pub regs: UserRegs,
    pub memory: Map<u64, Result<i64, FaultShape>>,
    pub maps: Seq<char>,
}

impl World {
    /// A reply to a call tells what is so.
    pub open spec fn tells(self, call: CallShape, reply: ReplyShape) -> bool {
        match call {
            CallShape::Registers => reply == ReplyShape::Registers(Ok(self.regs)),
            CallShape::Peek(addr) => self.memory.dom().contains(addr) ==> reply
                == ReplyShape::Word(self.memory[addr]),
            CallShape::Maps => reply == ReplyShape::File(Ok(self.maps)),
            _ => true,
        }
    }

    /// The word at an address was read.
    pub open spec fn holds(self, addr: u64, word: u64) -> bool {
        self.memory.dom().contains(addr) && self.memory[addr] is Ok && self.memory[addr]->Ok_0 as u64
            == word
    }

    /// The word at an address cannot be read.
    pub open spec fn is_unreadable(self, addr: u64) -> bool {
        self.memory.dom().contains(addr) && self.memory[addr] is Err
    }

    /// An address is executable.
    pub open spec fn is_code(self, program: Seq<char>, addr: u64) -> bool {
        has_code(self.maps, program, addr, false)
    }

    /// An address is code of the program itself.
    pub open spec fn is_own_code(self, program: Seq<char>, addr: u64) -> bool {
        has_code(self.maps, program, addr, true)
    }

    /// The address in the program file for an address of the process.
    pub open spec fn in_file(self, program: Seq<char>, addr: u64) -> u64 {
        match bias_in(lines_of(self.maps), program) {
            Some(bias) => if addr >= bias {
                (addr - bias) as u64
            } else {
                0
            },
            None => addr,
        }
    }

    /// The address of the process for an address in the program file.
    pub open spec fn in_process(self, program: Seq<char>, addr: u64) -> u64 {
        match bias_in(lines_of(self.maps), program) {
            Some(bias) => if bias + addr <= u64::MAX {
                (bias + addr) as u64
            } else {
                u64::MAX
            },
            None => addr,
        }
    }
}

/// All that was heard on the way from one state to another tells what is so.
pub open spec fn saw(s: PtraceShape, e: PtraceShape, w: World) -> bool {
    &&& goes_on(s.talk, e.talk)
    &&& forall|i: int|
        s.talk.heard.len() <= i < e.talk.heard.len() ==> w.tells(
            (#[trigger] e.talk.heard[i]).0,
            e.talk.heard[i].1,
        )
}

/// What was seen on the whole way was seen on its parts.
pub proof fn lemma_saw_parts(s: PtraceShape, t: PtraceShape, e: PtraceShape, w: World)
    requires
        saw(s, e, w),
        goes_on(s.talk, t.talk),
        goes_on(t.talk, e.talk),
    ensures
        saw(s, t, w),
        saw(t, e, w),
{
    assert forall|i: int| s.talk.heard.len() <= i < t.talk.heard.len() implies w.tells(
        (#[trigger] t.talk.heard[i]).0,
        t.talk.heard[i].1,
    ) by {
        assert(t.talk.heard[i] == e.talk.heard[i]);
    }
}

/// A talk that has gone on twice has gone on.
pub proof fn lemma_goes_on(a: PtraceShape, b: PtraceShape, c: PtraceShape)
    requires
        goes_on(a.talk, b.talk),
        goes_on(b.talk, c.talk),
    ensures
        goes_on(a.talk, c.talk),
{
    assert forall|i: int| 0 <= i < a.talk.heard.len() implies #[trigger] a.talk.heard[i]
        == c.talk.heard[i] by {
        assert(a.talk.heard[i] == b.talk.heard[i]);
    }
}

/// Reading a register gives its value and changes nothing but the talk.
pub proof fn lemma_register_read(s: PtraceShape, r: Register, w: World)
    ensures
        goes_on(s.talk, s.get_register(r).state().talk),
        s.get_register(r) matches Flow::Done(value, e) ==> {
            &&& e == (PtraceShape { talk: e.talk, ..s })
            &&& saw(s, e, w) ==> value == w.regs.value_of(r)
        },
{
    if let Flow::Done(value, e) = s.get_register(r) {
        assert(e.talk.heard[s.talk.heard.len() as int] == (
            CallShape::Registers,
            s.talk.replies[0],
        ));
    }
}

/// Reading a word gives what is at its address.
pub proof fn lemma_word_read(s: PtraceShape, addr: u64, w: World)
    requires
        w.memory.dom().contains(addr),
    ensures
        goes_on(s.talk, s.peek(addr).state().talk),
        s.peek(addr) matches Flow::Done(word, e) ==> {
            &&& e == (PtraceShape { talk: e.talk, ..s })
            &&& saw(s, e, w) ==> w.memory[addr] == Ok::<i64, FaultShape>(word)
        },
        s.peek(addr) matches Flow::Fail(fault, e) ==> {
            &&& e == (PtraceShape { talk: e.talk, ..s })
            &&& saw(s, e, w) ==> w.memory[addr] == Err::<i64, FaultShape>(fault)
        },
{
    if !(s.peek(addr) is Ask) {
        let e = s.peek(addr).state();
        assert(e.talk.heard[s.talk.heard.len() as int] == (
            CallShape::Peek(addr),
            s.talk.replies[0],
        ));
    }
}

/// Asking whether an address is code is answered by the memory map.
pub proof fn lemma_code_seen(s: PtraceShape, addr: u64, ours: bool, w: World)
    ensures
        goes_on(s.talk, s.is_code(addr, ours).state().talk),
        s.is_code(addr, ours) matches Flow::Done(code, e) ==> {
            &&& e == (PtraceShape { talk: e.talk, ..s })
            &&& saw(s, e, w) ==> code == has_code(w.maps, s.program, addr, ours)
        },
{
    if let Flow::Done(_, e) = s.is_code(addr, ours) {
        assert(e.talk.heard[s.talk.heard.len() as int] == (CallShape::Maps, s.talk.replies[0]));
    }
}

/// An address of the process and one of the program file differ by where the program was loaded.
pub proof fn lemma_addresses_seen(s: PtraceShape, addr: u64, w: World)
    ensures
        goes_on(s.talk, s.to_dwarf_pc(addr).state().talk),
        s.to_dwarf_pc(addr) matches Flow::Done(at, e) ==> {
            &&& e == (PtraceShape { talk: e.talk, ..s })
            &&& saw(s, e, w) ==> at == w.in_file(s.program, addr)
        },
        goes_on(s.talk, s.to_runtime_addr(addr).state().talk),
        s.to_runtime_addr(addr) matches Flow::Done(at, e) ==> {
            &&& e == (PtraceShape { talk: e.talk, ..s })
            &&& saw(s, e, w) ==> at == w.in_process(s.program, addr)
        },
{
    if let Flow::Done(_, e) = s.to_dwarf_pc(addr) {
        assert(e.talk.heard[s.talk.heard.len() as int] == (CallShape::Maps, s.talk.replies[0]));
    }
    if let Flow::Done(_, e) = s.to_runtime_addr(addr) {
        assert(e.talk.heard[s.talk.heard.len() as int] == (CallShape::Maps, s.talk.replies[0]));
    }
}

/// The program counter as an address of the program file.
pub proof fn lemma_file_pc_seen(s: PtraceShape, w: World)
    ensures
        goes_on(s.talk, s.get_dwarf_pc().state().talk),
        s.get_dwarf_pc() matches Flow::Done(pc, e) ==> {
            &&& e == (PtraceShape { talk: e.talk, ..s })
            &&& saw(s, e, w) ==> pc == w.in_file(s.program, w.regs.rip)
        },
{
    lemma_register_read(s, Register::Rip, w);
    if let Flow::Done(pc, t) = s.get_pc() {
        lemma_addresses_seen(t, pc, w);
        let e = t.to_dwarf_pc(pc).state();
        lemma_goes_on(s, t, e);
        if saw(s, e, w) {
            lemma_saw_parts(s, t, e, w);
        }
    }
}

/// The current source line is that of the program counter, by the debugging information.
pub proof fn lemma_current_line_seen(s: PtraceShape, w: World)
    ensures
        goes_on(s.talk, s.current_line().state().talk),
        s.current_line() matches Flow::Done(line, e) ==> {
            &&& e == (PtraceShape { talk: e.talk, ..s })
            &&& saw(s, e, w) ==> {
                let told = line_at(units_in_image(s.image), w.in_file(s.program, w.regs.rip));
                &&& told is Ok ==> line == told->Ok_0
                &&& told is Err ==> line is None
            }
        },
{
    lemma_register_read(s, Register::Rip, w);
    if let Flow::Done(_, t) = s.get_pc().attempt() {
        assert(goes_on(s.talk, t.talk));
        if let Flow::Done(line, e) = s.current_line() {
            assert(goes_on(t.talk, e.talk));
            assert(e.talk.heard[s.talk.heard.len() as int] == (
                CallShape::Registers,
                s.talk.replies[0],
            ));
            assert(e.talk.heard[t.talk.heard.len() as int] == (CallShape::Maps, t.talk.replies[0]));
            if saw(s, e, w) {
                assert(w.tells(CallShape::Registers, s.talk.replies[0]));
                assert(w.tells(CallShape::Maps, t.talk.replies[0]));
            }
        }
    }
}

/// What an address is called: by its function and source line in the program file, or else by the
/// object mapped there, unless only the debugging information counts.
#[verifier::opaque]
pub open spec fn place_of(s: PtraceShape, w: World, pc: u64) -> Seq<char> {
    let addr = w.in_file(s.program, pc);
    match code_place(known_function(s.image, addr), known_line(s.image, addr)) {
        Some(place) => place,
        None => match object_at(w.maps, pc) {
            Some((name, offset)) if !s.plain => object_place(pc, name, offset),
            _ => bare_place(pc),
        },
    }
}

/// The place that is told of an address is what that address is called.
pub proof fn lemma_place_seen(s: PtraceShape, pc: u64, w: World)
    ensures
        goes_on(s.talk, s.format_location(pc).state().talk),
        s.format_location(pc) matches Flow::Done(place, e) ==> {
            &&& e == (PtraceShape { talk: e.talk, ..s })
            &&& saw(s, e, w) ==> place == place_of(s, w, pc)
        },
{
    reveal(place_of);
    lemma_addresses_seen(s, pc, w);
    if let Flow::Done(addr, t) = s.to_dwarf_pc(pc) {
        let e = s.format_location(pc).state();
        assert(goes_on(t.talk, e.talk));
        lemma_goes_on(s, t, e);
        if saw(s, e, w) {
            lemma_saw_parts(s, t, e, w);
            if t.talk.heard.len() < e.talk.heard.len() {
                assert(e.talk.heard[t.talk.heard.len() as int] == (
                    CallShape::Maps,
                    t.talk.replies[0],
                ));
            }
        }
    }
}

} // verus!
