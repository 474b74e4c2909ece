//! What a frontend reads of the process and writes to it, byte by byte and register by register.
use vstd::prelude::*;

use crate::dialogue::{CallShape, Flow, ReplyShape, StateShape, StatusShape};
use crate::target::{DebugTarget, RegisterShape, StopCause};

use super::asks::{asks, lemma_set_asks, sets_one};
use super::breakpoint::{bp_at, lemma_table, Breakpoint};
use super::debugger::{LinuxPtraceDebugger, PtraceShape};
use super::invariants::in_order;
use super::registers::{
    lemma_names, lemma_places, register_at, register_name, register_place, Register, UserRegs,
    NUMBER_OF_REGISTERS,
};
use super::return_addr::adds_at;
use super::stops::goes_on;
use super::target_impl::{chunk_at, fill_word, lemma_word_bytes, plus, word_bytes, word_of};
use super::world::{lemma_addresses_seen, lemma_goes_on, lemma_saw_parts, saw, World};

verus! {

// ---------------------------------------------------------------------------
// Bytes of words

/// A byte of a number, counted from the least significant one.
pub open spec fn byte_of(w: nat, k: nat) -> nat
    decreases k,
{
    if k == 0 {
        w % 256
    } else {
        byte_of(w / 256, (k - 1) as nat)
    }
}

/// The bytes of a word, in the order in which they lie in memory.
pub proof fn lemma_bytes_of_word(word: i64)
    ensures
        word_bytes(word).len() == 8,
        forall|k: int| 0 <= k < 8 ==> #[trigger] word_bytes(word)[k] == byte_of(
            word as u64 as nat,
            k as nat,
        ),
{
    let w = word as u64;
    assert((w & 0xff) as u8 == w % 256 && ((w >> 8) & 0xff) as u8 == (w / 256) % 256 && ((w >> 16)
        & 0xff) as u8 == (w / 256 / 256) % 256 && ((w >> 24) & 0xff) as u8 == (w / 256 / 256 / 256)
        % 256) by (bit_vector);
    assert(((w >> 32) & 0xff) as u8 == (w / 256 / 256 / 256 / 256) % 256 && ((w >> 40) & 0xff) as u8
        == (w / 256 / 256 / 256 / 256 / 256) % 256) by (bit_vector);
    assert(((w >> 48) & 0xff) as u8 == (w / 256 / 256 / 256 / 256 / 256 / 256) % 256 && ((w >> 56)
        & 0xff) as u8 == (w / 256 / 256 / 256 / 256 / 256 / 256 / 256) % 256) by (bit_vector);
    reveal_with_fuel(byte_of, 9);
}

/// The word of eight bytes has them in that order.
pub proof fn lemma_word_of_bytes(b: Seq<u8>)
    requires
        b.len() == 8,
    ensures
        forall|k: int| 0 <= k < 8 ==> byte_of(word_of(b) as u64 as nat, k as nat) == #[trigger] b[k],
{
    lemma_word_bytes(0, b);
    lemma_bytes_of_word(word_of(b));
    assert forall|k: int| 0 <= k < 8 implies byte_of(word_of(b) as u64 as nat, k as nat)
        == #[trigger] b[k] by {
        assert(word_bytes(word_of(b))[k] == b[k]);
    }
}

// ---------------------------------------------------------------------------
// Reading memory

/// All words that were read on the way from one state to another hold the given bytes.
pub open spec fn read_bytes(s: PtraceShape, e: PtraceShape, bytes: spec_fn(u64) -> nat) -> bool {
    forall|i: int|
        s.talk.heard.len() <= i < e.talk.heard.len() ==> tells_bytes(
            #[trigger] e.talk.heard[i],
            bytes,
        )
}

/// A word that holds the bytes from an address on.
pub open spec fn holds_bytes(addr: u64, word: i64, bytes: spec_fn(u64) -> nat) -> bool {
    forall|k: int|
        0 <= k < 8 ==> #[trigger] byte_of(word as u64 as nat, k as nat) == bytes(
            ((addr + k) % 0x1_0000_0000_0000_0000) as u64,
        )
}

/// A reply tells a word of memory, if it was asked for one.
pub open spec fn tells_bytes(
    exchange: (CallShape, ReplyShape),
    bytes: spec_fn(u64) -> nat,
) -> bool {
    match exchange {
        (CallShape::Peek(addr), ReplyShape::Word(Ok(word))) => holds_bytes(addr, word, bytes),
        _ => true,
    }
}

/// What was read before lies at the address.
spec fn lies_at(found: Seq<u8>, addr: u64, bytes: spec_fn(u64) -> nat) -> bool {
    forall|i: int|
        0 <= i < found.len() ==> (#[trigger] found[i]) as nat == bytes(
            ((addr + i) % 0x1_0000_0000_0000_0000) as u64,
        )
}

/// Addresses that are counted on from a later one are the same.
proof fn lemma_further(addr: u64, n: int, k: int)
    requires
        0 <= n,
        0 <= k,
    ensures
        (plus(addr, n) + k) % 0x1_0000_0000_0000_0000 == (addr + n + k) % 0x1_0000_0000_0000_0000,
{
}

/// A word that was read at its place lies there behind what was read before.
proof fn lemma_word_lies(found: Seq<u8>, addr: u64, word: i64, bytes: spec_fn(u64) -> nat)
    requires
        lies_at(found, addr, bytes),
        holds_bytes(plus(addr, found.len() as int), word, bytes),
    ensures
        lies_at(found + word_bytes(word), addr, bytes),
{
    let more = found + word_bytes(word);
    let at = plus(addr, found.len() as int);
    lemma_bytes_of_word(word);
    assert forall|i: int| 0 <= i < more.len() implies (#[trigger] more[i]) as nat == bytes(
        ((addr + i) % 0x1_0000_0000_0000_0000) as u64,
    ) by {
        if i < found.len() {
            assert(more[i] == found[i]);
        } else {
            let k = i - found.len();
            assert(more[i] == word_bytes(word)[k]);
            assert(word_bytes(word)[k] == byte_of(word as u64 as nat, k as nat));
            lemma_further(addr, found.len() as int, k);
            assert(byte_of(word as u64 as nat, k as nat) == bytes(
                ((at + k) % 0x1_0000_0000_0000_0000) as u64,
            ));
            assert(addr + found.len() + k == addr + i);
        }
    }
}

proof fn lemma_words_read(
    s: PtraceShape,
    addr: u64,
    len: nat,
    found: Seq<u8>,
    bytes: spec_fn(u64) -> nat,
)
    ensures
        s.read_words(addr, len, found) matches Flow::Done(data, e) ==> {
            &&& goes_on(s.talk, e.talk)
            &&& lies_at(found, addr, bytes) && read_bytes(s, e, bytes) ==> lies_at(
                data,
                addr,
                bytes,
            )
            &&& data.len() == len
        },
    decreases
            if len > found.len() {
                len - found.len()
            } else {
                0
            },
{
    if found.len() < len {
        let at = plus(addr, found.len() as int);
        if let Flow::Done(word, t) = s.peek(at) {
            let more = found + word_bytes(word);
            assert(more.len() == found.len() + 8);
            lemma_words_read(t, addr, len, more, bytes);
            assert(s.read_words(addr, len, found) == t.read_words(addr, len, more));
            if let Flow::Done(data, e) = s.read_words(addr, len, found) {
                lemma_goes_on(s, t, e);
                if lies_at(found, addr, bytes) && read_bytes(s, e, bytes) {
                    let n = s.talk.heard.len() as int;
                    assert(t.talk.heard.len() == n + 1 && t.talk.heard[n] == e.talk.heard[n]);
                    assert(tells_bytes(e.talk.heard[n], bytes));
                    lemma_word_lies(found, addr, word, bytes);
                    assert(read_bytes(t, e, bytes));
                }
            }
        }
    } else {
        let data = found.take(len as int);
        if lies_at(found, addr, bytes) {
            assert forall|i: int| 0 <= i < len implies (#[trigger] data[i]) as nat == bytes(
                ((addr + i) % 0x1_0000_0000_0000_0000) as u64,
            ) by {
                assert(data[i] == found[i]);
            }
        }
    }
}

/// Reading memory gives as many bytes as were asked for, each the one at its address.
pub proof fn lemma_memory_is_read(
    s: PtraceShape,
    addr: u64,
    len: usize,
    bytes: spec_fn(u64) -> nat,
)
    ensures
        LinuxPtraceDebugger::read_memory_of(s, addr, len) matches Flow::Done(data, e) ==> {
            &&& data.len() == len
            &&& read_bytes(s, e, bytes) ==> forall|i: int|
                0 <= i < len ==> (#[trigger] data[i]) as nat == bytes(
                    ((addr + i) % 0x1_0000_0000_0000_0000) as u64,
                )
        },
{
    lemma_words_read(s, addr, len as nat, Seq::empty(), bytes);
}

// ---------------------------------------------------------------------------
// Writing memory

/// Writing a word in part keeps its other bytes.
pub proof fn lemma_word_is_written(s: PtraceShape, addr: u64, chunk: Seq<u8>)
    requires
        0 < chunk.len() <= 8,
    ensures
        s.write_word(addr, chunk) matches Flow::Done(_, e) ==> {
            let n = s.talk.heard.len() as int;
            &&& goes_on(s.talk, e.talk)
            &&& e.talk.heard.len() == if chunk.len() == 8 {
                n + 1
            } else {
                n + 2
            }
            &&& e.talk.heard.last().0 matches CallShape::Poke(at, word) && {
                &&& at == addr
                &&& forall|k: int|
                    0 <= k < chunk.len() ==> byte_of(word as u64 as nat, k as nat)
                        == #[trigger] chunk[k]
                &&& chunk.len() < 8 ==> e.talk.heard[n].0 == CallShape::Peek(addr) && (
                e.talk.heard[n].1 matches ReplyShape::Word(Ok(before)) && forall|k: int|
                    chunk.len() <= k < 8 ==> #[trigger] byte_of(word as u64 as nat, k as nat)
                        == byte_of(before as u64 as nat, k as nat))
            }
        },
{
    if let Flow::Done(_, e) = s.write_word(addr, chunk) {
        if chunk.len() == 8 {
            lemma_word_of_bytes(chunk);
        } else {
            let before = s.peek(addr)->Done_0;
            let filled = fill_word(chunk, word_bytes(before));
            lemma_bytes_of_word(before);
            assert(filled.len() == 8);
            lemma_word_of_bytes(filled);
            assert forall|k: int| 0 <= k < chunk.len() implies byte_of(
                word_of(filled) as u64 as nat,
                k as nat,
            ) == #[trigger] chunk[k] by {
                assert(filled[k] == chunk[k]);
            }
            assert forall|k: int| chunk.len() <= k < 8 implies #[trigger] byte_of(
                word_of(filled) as u64 as nat,
                k as nat,
            ) == byte_of(before as u64 as nat, k as nat) by {
                assert(filled[k] == word_bytes(before)[k]);
            }
        }
    }
}

/// The address of the word in which a byte of the data lies.
pub open spec fn word_addr(addr: u64, i: int) -> u64 {
    ((addr + i / 8 * 8) % 0x1_0000_0000_0000_0000) as u64
}

/// A call writes a byte of the data to its place.
pub open spec fn pokes(call: CallShape, addr: u64, data: Seq<u8>, i: int) -> bool {
    call matches CallShape::Poke(at, word) && at == word_addr(addr, i) && byte_of(
        word as u64 as nat,
        (i % 8) as nat,
    ) == data[i]
}

/// A byte of the data was written on the way from one state to another.
pub open spec fn is_poked(
    s: PtraceShape,
    e: PtraceShape,
    addr: u64,
    data: Seq<u8>,
    i: int,
) -> bool {
    exists|n: int|
        s.talk.heard.len() <= n < e.talk.heard.len() && #[trigger] pokes(
            e.talk.heard[n].0,
            addr,
            data,
            i,
        )
}

/// A call touches one of the words in which the data lies.
pub open spec fn pokes_inside(call: CallShape, addr: u64, data: Seq<u8>) -> bool {
    call matches CallShape::Poke(at, _) ==> exists|i: int|
        0 <= i < data.len() && at == #[trigger] word_addr(addr, i)
}

proof fn lemma_words_written(s: PtraceShape, addr: u64, data: Seq<u8>, at: nat)
    requires
        at % 8 == 0,
    ensures
        s.write_words(addr, data, at) matches Flow::Done(_, e) ==> {
            &&& goes_on(s.talk, e.talk)
            &&& forall|i: int|
                at <= i < data.len() ==> #[trigger] is_poked(s, e, addr, data, i)
            &&& forall|n: int|
                s.talk.heard.len() <= n < e.talk.heard.len() ==> pokes_inside(
                    (#[trigger] e.talk.heard[n]).0,
                    addr,
                    data,
                )
        },
    decreases
            if data.len() > at {
                data.len() - at
            } else {
                0
            },
{
    if at < data.len() {
        let here = plus(addr, at as int);
        let chunk = chunk_at(data, at as int);
        lemma_word_is_written(s, here, chunk);
        if let Flow::Done(_, t) = s.write_word(here, chunk) {
            lemma_words_written(t, addr, data, at + 8);
            if let Flow::Done(_, e) = s.write_words(addr, data, at) {
                lemma_goes_on(s, t, e);
                let last = t.talk.heard.len() - 1;
                assert(t.talk.heard[last] == e.talk.heard[last]);
                assert forall|i: int| at <= i < data.len() implies #[trigger] is_poked(
                    s,
                    e,
                    addr,
                    data,
                    i,
                ) by {
                    if i < at + 8 {
                        assert(i / 8 * 8 == at && i % 8 == i - at);
                        assert(chunk[i - at] == data[i]);
                        assert(pokes(e.talk.heard[last].0, addr, data, i));
                    } else {
                        assert(is_poked(t, e, addr, data, i));
                        let n = choose|n: int|
                            t.talk.heard.len() <= n < e.talk.heard.len() && #[trigger] pokes(
                                e.talk.heard[n].0,
                                addr,
                                data,
                                i,
                            );
                        assert(pokes(e.talk.heard[n].0, addr, data, i));
                    }
                }
                assert forall|n: int|
                    s.talk.heard.len() <= n < e.talk.heard.len() implies pokes_inside(
                    (#[trigger] e.talk.heard[n]).0,
                    addr,
                    data,
                ) by {
                    if n < t.talk.heard.len() {
                        assert(t.talk.heard[n] == e.talk.heard[n]);
                        assert(at as int / 8 * 8 == at);
                        assert(here == word_addr(addr, at as int));
                    }
                }
            }
        }
    }
}

/// Writing memory writes each byte of the data to its address, and no word in which none of them
/// lies.
pub proof fn lemma_memory_is_written(s: PtraceShape, addr: u64, data: Seq<u8>)
    ensures
        LinuxPtraceDebugger::write_memory_of(s, addr, data) matches Flow::Done(_, e) ==> {
            &&& forall|i: int|
                0 <= i < data.len() ==> #[trigger] is_poked(s, e, addr, data, i)
            &&& forall|n: int|
                s.talk.heard.len() <= n < e.talk.heard.len() ==> pokes_inside(
                    (#[trigger] e.talk.heard[n]).0,
                    addr,
                    data,
                )
        },
{
    lemma_words_written(s, addr, data, 0);
}

// ---------------------------------------------------------------------------
// Registers

proof fn lemma_registers_read(s: PtraceShape, from: int, found: Seq<RegisterShape>, w: World)
    requires
        0 <= from <= NUMBER_OF_REGISTERS,
        found.len() == from,
    ensures
        s.registers_from(from, found) matches Flow::Done(all, e) ==> {
            &&& goes_on(s.talk, e.talk)
            &&& all.len() == NUMBER_OF_REGISTERS
            &&& all.take(from) == found
            &&& saw(s, e, w) ==> forall|k: int|
                from <= k < NUMBER_OF_REGISTERS ==> (#[trigger] all[k]).name == register_name(
                    register_at(k),
                ) && all[k].value == w.regs.value_of(register_at(k))
        },
    decreases NUMBER_OF_REGISTERS - from,
{
    if from < NUMBER_OF_REGISTERS {
        let r = register_at(from);
        if let Flow::Done(value, t) = s.get_register(r) {
            let one = RegisterShape { name: register_name(r), value };
            lemma_registers_read(t, from + 1, found.push(one), w);
            if let Flow::Done(all, e) = s.registers_from(from, found) {
                lemma_goes_on(s, t, e);
                assert(all.take(from) =~= all.take(from + 1).take(from));
                assert(all.take(from) =~= found);
                assert(all.take(from + 1)[from] == one);
                if saw(s, e, w) {
                    lemma_saw_parts(s, t, e, w);
                    let n = s.talk.heard.len() as int;
                    assert(w.tells(e.talk.heard[n].0, e.talk.heard[n].1));
                    assert(e.talk.heard[n] == t.talk.heard[n]);
                }
            }
        }
    } else {
        assert(found.take(from) =~= found);
    }
}

/// The registers that a frontend shows are all registers of the process, each once, under their
/// names and with the values they have.
pub proof fn lemma_registers_are_read(s: PtraceShape, r: Register, w: World)
    ensures
        LinuxPtraceDebugger::registers_of(s) matches Flow::Done(all, e) ==> {
            &&& all.len() == 27
            &&& saw(s, e, w) ==> exists|k: int|
                0 <= k < all.len() && #[trigger] all[k] == (RegisterShape {
                    name: register_name(r),
                    value: w.regs.value_of(r),
                })
        },
{
    lemma_registers_read(s, 0, Seq::empty(), w);
    lemma_places(r, 0);
    if let Flow::Done(all, e) = LinuxPtraceDebugger::registers_of(s) {
        if saw(s, e, w) {
            let k = register_place(r);
            assert(all[k].name == register_name(r));
        }
    }
}

/// Writing a register by its name sets all registers as they were but for that one.
pub proof fn lemma_register_is_set(s: PtraceShape, r: Register, value: u64, regs: UserRegs)
    requires
        s.talk.replies.len() == 1,
        s.talk.replies[0] == ReplyShape::Registers(Ok(regs)),
    ensures
        LinuxPtraceDebugger::write_register_of(s, register_name(r), value) matches Flow::Ask(
            CallShape::SetRegisters(new),
            _,
        ) && sets_one(regs, new, r, value),
{
    lemma_names(r);
    lemma_set_asks(s, r, value, regs);
}

// ---------------------------------------------------------------------------
// Breakpoints

/// The place of a breakpoint in the process: a low address is one of the program file.
pub open spec fn breakpoint_place(s: PtraceShape, addr: u64, w: World) -> u64 {
    if addr < 0x400000 {
        w.in_process(s.program, addr)
    } else {
        addr
    }
}

/// A frontend's breakpoint stands at its place in the process afterwards, and nothing else changes
/// among the breakpoints.
pub proof fn lemma_breakpoint_is_set(s: PtraceShape, addr: u64, w: World)
    requires
        in_order(s),
    ensures
        LinuxPtraceDebugger::set_breakpoint_of(s, addr) matches Flow::Done(_, e) ==> saw(s, e, w)
            ==> {
            let at = breakpoint_place(s, addr, w);
            &&& bp_at(e.breakpoints, at) is Some
            &&& adds_at(s, e, |a: u64| a == at)
            &&& e.temps == s.temps
        },
{
    if addr < 0x400000 {
        lemma_addresses_seen(s, addr, w);
    }
    if let Flow::Done(_, e) = s.set_breakpoint(addr) {
        if let Flow::Done(at, t) = s.runtime_breakpoint_addr(addr) {
            assert(goes_on(s.talk, t.talk));
            assert(goes_on(t.talk, e.talk));
            if saw(s, e, w) {
                lemma_saw_parts(s, t, e, w);
                if bp_at(t.breakpoints, at) is None {
                    let new = Breakpoint { addr: at, enabled_status: false, saved_data: 0 };
                    let bp = new.enable_of(t.talk)->Done_0;
                    assert(bp.addr == at);
                    lemma_table(s.breakpoints, bp, at);
                    assert forall|x: u64| x != at implies #[trigger] bp_at(e.breakpoints, x)
                        == bp_at(s.breakpoints, x) by {
                        lemma_table(s.breakpoints, bp, x);
                    }
                }
            }
        }
    }
}

/// No breakpoint is left at the place that a frontend clears, the byte that was kept is in memory
/// again, and the other breakpoints stay.
#[verifier::rlimit(50)]
pub proof fn lemma_breakpoint_is_cleared(s: PtraceShape, addr: u64, w: World)
    requires
        in_order(s),
    ensures
        LinuxPtraceDebugger::clear_breakpoint_of(s, addr) matches Flow::Done(_, e) ==> saw(s, e, w)
            ==> {
            let at = breakpoint_place(s, addr, w);
            &&& bp_at(e.breakpoints, at) is None
            &&& !e.temps.contains(at)
            &&& forall|a: u64|
                a != at ==> #[trigger] bp_at(e.breakpoints, a) == bp_at(s.breakpoints, a)
            &&& bp_at(s.breakpoints, at) matches Some(bp) ==> bp.enabled_status ==> (
            e.talk.heard.last().0 matches CallShape::Poke(to, word) && to == bp.addr && byte_of(
                word as u64 as nat,
                0,
            ) == bp.saved_data)
        },
{
    if addr < 0x400000 {
        lemma_addresses_seen(s, addr, w);
    }
    if let Flow::Done(_, e) = s.clear_breakpoint(addr) {
        if let Flow::Done(at, t) = s.runtime_breakpoint_addr(addr) {
            assert(goes_on(s.talk, t.talk));
            assert(goes_on(t.talk, e.talk));
            super::invariants::lemma_clear_at(t, at);
            if saw(s, e, w) {
                lemma_saw_parts(s, t, e, w);
                let any = Breakpoint { addr: at, enabled_status: false, saved_data: 0 };
                assert forall|x: u64| x != at implies #[trigger] bp_at(e.breakpoints, x) == bp_at(
                    s.breakpoints,
                    x,
                ) by {
                    lemma_table(s.breakpoints, any, x);
                }
                if bp_at(s.breakpoints, at) is Some {
                    let bp = bp_at(s.breakpoints, at)->Some_0;
                    let word = t.talk.replies[0]->Word_0->Ok_0;
                    super::breakpoint::lemma_low_byte(word, bp.saved_data);
                    let put = super::breakpoint::with_low_byte(word, bp.saved_data);
                    assert((put & 0xff) as u8 == put as u64 % 256) by (bit_vector);
                }
            }
        }
    }
}

/// A frontend is shown exactly the breakpoints that there are.
pub proof fn lemma_breakpoints_are_shown(s: PtraceShape, addr: u64)
    requires
        in_order(s),
    ensures
        bp_at(s.breakpoints, addr) is Some <==> exists|i: int|
            0 <= i < LinuxPtraceDebugger::breakpoints_of(s).len()
                && #[trigger] LinuxPtraceDebugger::breakpoints_of(s)[i].addr == addr,
        forall|i: int|
            0 <= i < LinuxPtraceDebugger::breakpoints_of(s).len() ==> {
                let view = #[trigger] LinuxPtraceDebugger::breakpoints_of(s)[i];
                &&& view.temporary == s.temps.contains(view.addr)
                &&& bp_at(s.breakpoints, view.addr) matches Some(bp) && bp.enabled_status
                    == view.enabled
            },
{
    let views = LinuxPtraceDebugger::breakpoints_of(s);
    assert forall|i: int| 0 <= i < views.len() implies bp_at(
        s.breakpoints,
        (#[trigger] views[i]).addr,
    ) == Some(s.breakpoints[i]) by {
        lemma_entry(s.breakpoints, i);
    }
    if bp_at(s.breakpoints, addr) is Some {
        let i = lemma_has_entry(s.breakpoints, addr);
        assert(views[i].addr == addr);
    }
}

/// The breakpoint of an entry of the table.
proof fn lemma_entry(table: Seq<Breakpoint>, i: int)
    requires
        super::breakpoint::different_addrs(table),
        0 <= i < table.len(),
    ensures
        bp_at(table, table[i].addr) == Some(table[i]),
    decreases i,
{
    if i > 0 {
        let rest = table.drop_first();
        assert forall|a: int, b: int| 0 <= a < b < rest.len() implies (#[trigger] rest[a]).addr
            != (#[trigger] rest[b]).addr by {
            assert(table[a + 1].addr != table[b + 1].addr);
        }
        lemma_entry(rest, i - 1);
        assert(table[0].addr != table[i].addr);
    }
}

/// A breakpoint at an address has an entry in the table.
proof fn lemma_has_entry(table: Seq<Breakpoint>, addr: u64) -> (i: int)
    requires
        bp_at(table, addr) is Some,
    ensures
        0 <= i < table.len(),
        table[i].addr == addr,
    decreases table.len(),
{
    if table[0].addr == addr {
        0
    } else {
        lemma_has_entry(table.drop_first(), addr) + 1
    }
}

// ---------------------------------------------------------------------------
// Stops

/// What a frontend is told of a stop is what the process did; it has crashed from then on exactly
/// where it was stopped for a bad access or had crashed before; and a process that was stopped is
/// not running.
pub proof fn lemma_stop_is_told(s: PtraceShape, status: StatusShape)
    ensures
        s.target_status(status) matches Flow::Done(reason, e) ==> match status.state {
            StateShape::Stopped(sig) => {
                &&& reason == StopCause::Signal(sig)
                &&& !e.is_executing
                &&& e.has_crashed == (s.has_crashed || sig == "SIGSEGV"@)
            },
            StateShape::Exited(code) => reason == StopCause::Exited(code) && e == s,
            StateShape::Signaled(sig) => reason == StopCause::Terminated(sig) && e == s,
            StateShape::Other => reason == StopCause::Other(status.text) && e == s,
        },
{
    reveal_strlit("SIGSEGV");
    reveal_strlit("SIGTRAP");
    assert("SIGSEGV"@[3] != "SIGTRAP"@[3]);
    if let StateShape::Stopped(sig) = status.state {
        let stopped = PtraceShape { is_executing: false, ..s };
        if sig == "SIGTRAP"@ {
            lemma_trap_leaves_flags(stopped);
        }
    }
}

/// Passing a trap leaves it open neither whether the process runs nor whether it has crashed.
proof fn lemma_trap_leaves_flags(s: PtraceShape)
    ensures
        s.target_sigtrap() matches Flow::Done(_, e) ==> e.is_executing == s.is_executing
            && e.has_crashed == s.has_crashed,
{
    if let Flow::Done(pc, t) = s.get_pc() {
        let back = super::signal_handler::one_back(pc);
        lemma_pass_leaves_flags(t, bp_at(t.breakpoints, back) is Some, back);
        if let Flow::Done(_, u) = t.pass_if(bp_at(t.breakpoints, back) is Some, back) {
            lemma_cleanup_leaves_flags(u, super::signal_handler::up_to(u.temps, pc));
        }
    }
}

proof fn lemma_pass_leaves_flags(s: PtraceShape, hit: bool, addr: u64)
    ensures
        s.pass_if(hit, addr) matches Flow::Done(_, e) ==> e.is_executing == s.is_executing
            && e.has_crashed == s.has_crashed,
{
    if let Flow::Done(_, t) = s.stepover_breakpoint() {
        assert(t.is_executing == s.is_executing && t.has_crashed == s.has_crashed);
    }
}

proof fn lemma_cleanup_leaves_flags(s: PtraceShape, addrs: Seq<u64>)
    ensures
        s.cleanup_temps(addrs) matches Flow::Done(_, e) ==> e.is_executing == s.is_executing
            && e.has_crashed == s.has_crashed,
    decreases addrs.len(),
{
    if addrs.len() > 0 {
        if let Flow::Done(_, t) = s.cleanup_temp(addrs[0]) {
            lemma_cleanup_leaves_flags(t, addrs.drop_first());
        }
    }
}

/// A frontend's run and step ask for just that, then wait for the stop; a process that has crashed is
/// neither run nor stepped, and nothing changes.
pub proof fn lemma_frontend_runs(s: PtraceShape)
    ensures
        s.has_crashed ==> {
            &&& LinuxPtraceDebugger::continue_of(s) matches Flow::Fail(_, e)
            &&& e == s
            &&& LinuxPtraceDebugger::step_instruction_of(s) matches Flow::Fail(_, t)
            &&& t == s
        },
        !s.has_crashed && s.temps.len() == 0 && s.talk.replies.len() == 0 ==> {
            &&& asks(LinuxPtraceDebugger::continue_of(s), CallShape::Continue)
            &&& asks(LinuxPtraceDebugger::step_instruction_of(s), CallShape::Step)
        },
        !s.has_crashed && s.temps.len() == 0 && s.talk.replies.len() == 1 && s.talk.replies[0]
            == ReplyShape::Done(Ok(())) ==> {
            &&& asks(LinuxPtraceDebugger::continue_of(s), CallShape::Wait)
            &&& LinuxPtraceDebugger::continue_of(s).state().is_executing
            &&& asks(LinuxPtraceDebugger::step_instruction_of(s), CallShape::Wait)
        },
{
}

/// A process is ready where it has stopped; anything else is told as it is.
pub proof fn lemma_process_is_ready(s: PtraceShape, status: StatusShape)
    requires
        s.talk.replies.len() > 0,
        s.talk.replies[0] == ReplyShape::Status(Ok(status)),
    ensures
        LinuxPtraceDebugger::initialize_of(s) matches Flow::Done(reason, e) && {
            &&& status.state is Stopped ==> reason == StopCause::Ready
            &&& !(status.state is Stopped) ==> reason == StopCause::Other(status.text)
            &&& e.talk.heard.last().0 == CallShape::Wait
            &&& e.breakpoints == s.breakpoints
        },
{
}

} // verus!
