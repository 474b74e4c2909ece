//! Where a process runs to: to the address that its function returns to, and to the other lines of
//! the function.
use vstd::prelude::*;

use crate::dialogue::{CallShape, Flow};
use crate::elf_debug_info::{function_ranges_at, line_addresses, line_at, units_in_image};
use crate::lookup::{lemma_lines_in_ranges_are_found, some_unit_has_in};

use super::breakpoint::{bp_at, lemma_table, Breakpoint, Changed};
use super::command_handler::{next_word, some_past};
use super::debugger::PtraceShape;
use super::invariants::{in_order, lemma_set_temp};
use super::maps::lemma_own_code_is_code;
use super::registers::Register;
use super::stops::goes_on;
use super::world::{
    lemma_addresses_seen, lemma_code_seen, lemma_current_line_seen, lemma_file_pc_seen,
    lemma_goes_on, lemma_register_read, lemma_saw_parts, lemma_word_read, saw, World,
};

verus! {

// ---------------------------------------------------------------------------
// The return address

/// The word at an address can be read and is executable.
pub open spec fn returns_by(w: World, program: Seq<char>, place: u64) -> bool {
    w.memory.dom().contains(place) && w.memory[place] is Ok && w.is_code(
        program,
        w.memory[place]->Ok_0 as u64,
    )
}

/// The word at an address can be read and is code of the program itself.
pub open spec fn returns_home_by(w: World, program: Seq<char>, place: u64) -> bool {
    w.memory.dom().contains(place) && w.memory[place] is Ok && w.is_own_code(
        program,
        w.memory[place]->Ok_0 as u64,
    )
}

/// The word at an address.
pub open spec fn word_at(w: World, place: u64) -> u64 {
    w.memory[place]->Ok_0 as u64
}

/// Code of the program is code.
proof fn lemma_home(w: World, program: Seq<char>, addr: u64)
    ensures
        w.is_own_code(program, addr) ==> w.is_code(program, addr),
{
    if w.is_own_code(program, addr) {
        lemma_own_code_is_code(w.maps, program, addr);
    }
}

/// The words at the stack pointer, behind it and behind the frame pointer are known, and those
/// addresses exist.
pub open spec fn knows_stack(w: World) -> bool {
    &&& w.regs.rsp + 8 <= u64::MAX
    &&& w.regs.rbp + 8 <= u64::MAX
    &&& w.memory.dom().contains(w.regs.rsp)
    &&& w.memory.dom().contains((w.regs.rsp + 8) as u64)
    &&& w.memory.dom().contains((w.regs.rbp + 8) as u64)
}

/// Trying a word takes it exactly where it is executable and not there yet.
proof fn lemma_candidate_seen(s: PtraceShape, place: u64, found: Seq<u64>, w: World)
    requires
        w.memory.dom().contains(place),
    ensures
        s.candidate(place, found) matches Flow::Done(more, e) ==> {
            &&& e == (PtraceShape { talk: e.talk, ..s })
            &&& goes_on(s.talk, e.talk)
            &&& saw(s, e, w) ==> more == if returns_by(w, s.program, place) && !found.contains(
                word_at(w, place),
            ) {
                found.push(word_at(w, place))
            } else {
                found
            }
        },
{
    lemma_word_read(s, place, w);
    if let Flow::Done(word, t) = s.peek(place).attempt() {
        if let Ok(word) = word {
            lemma_code_seen(t, word as u64, false, w);
            if let Flow::Done(_, e) = s.candidate(place, found) {
                lemma_goes_on(s, t, e);
                if saw(s, e, w) {
                    lemma_saw_parts(s, t, e, w);
                }
            }
        }
    }
}

/// The first of some addresses that is code of the program itself is picked.
proof fn lemma_pick_seen(s: PtraceShape, found: Seq<u64>, w: World)
    ensures
        s.pick_own(found) matches Flow::Done(own, e) ==> {
            &&& e == (PtraceShape { talk: e.talk, ..s })
            &&& goes_on(s.talk, e.talk)
            &&& saw(s, e, w) ==> match own {
                Some(addr) => exists|i: int|
                    0 <= i < found.len() && addr == #[trigger] found[i] && w.is_own_code(
                        s.program,
                        addr,
                    ) && forall|k: int|
                        0 <= k < i ==> !w.is_own_code(s.program, #[trigger] found[k]),
                None => forall|k: int|
                    0 <= k < found.len() ==> !w.is_own_code(s.program, #[trigger] found[k]),
            }
        },
    decreases found.len(),
{
    if found.len() > 0 {
        lemma_code_seen(s, found[0], true, w);
        if let Flow::Done(ours, t) = s.is_code(found[0], true) {
            let rest = found.drop_first();
            if !ours {
                lemma_pick_seen(t, rest, w);
                if let Flow::Done(own, e) = t.pick_own(rest) {
                    lemma_goes_on(s, t, e);
                    if saw(s, e, w) {
                        lemma_saw_parts(s, t, e, w);
                        assert forall|k: int| 0 < k < found.len() implies rest[k - 1]
                            == #[trigger] found[k] by {}
                        if let Some(addr) = own {
                            let i = choose|i: int|
                                0 <= i < rest.len() && addr == #[trigger] rest[i] && w.is_own_code(
                                    s.program,
                                    addr,
                                ) && forall|k: int|
                                    0 <= k < i ==> !w.is_own_code(s.program, #[trigger] rest[k]);
                            assert(found[i + 1] == rest[i]);
                            assert forall|k: int| 0 <= k < i + 1 implies !w.is_own_code(
                                s.program,
                                #[trigger] found[k],
                            ) by {
                                if k > 0 {
                                    assert(!w.is_own_code(s.program, rest[k - 1]));
                                }
                            }
                        }
                    }
                }
            } else if saw(s, t, w) {
                assert(found[0] == found[0]);
            }
        }
    }
}

/// The return address that the words on the stack give: the first that is code of the program
/// itself, of those at the stack pointer, behind it and behind the frame pointer; or else the first
/// that is executable.
pub open spec fn return_by(w: World, program: Seq<char>) -> Option<u64> {
    let top = w.regs.rsp;
    let second = (w.regs.rsp + 8) as u64;
    let frame = (w.regs.rbp + 8) as u64;
    if returns_home_by(w, program, top) {
        Some(word_at(w, top))
    } else if returns_home_by(w, program, second) {
        Some(word_at(w, second))
    } else if returns_home_by(w, program, frame) {
        Some(word_at(w, frame))
    } else if returns_by(w, program, top) {
        Some(word_at(w, top))
    } else if returns_by(w, program, second) {
        Some(word_at(w, second))
    } else if returns_by(w, program, frame) {
        Some(word_at(w, frame))
    } else {
        None
    }
}

/// The return address is found by the words on the stack: by those at the stack pointer, behind it
/// and behind the frame pointer, and one of the program's own code before any other.
pub proof fn lemma_return_address_found(s: PtraceShape, w: World)
    requires
        knows_stack(w),
    ensures
        s.return_address() matches Flow::Done(addr, e) ==> {
            &&& e == (PtraceShape { talk: e.talk, ..s })
            &&& goes_on(s.talk, e.talk)
            &&& saw(s, e, w) ==> addr == return_by(w, s.program)
        },
{
    let top = w.regs.rsp;
    let second = (w.regs.rsp + 8) as u64;
    let frame = (w.regs.rbp + 8) as u64;
    if let Flow::Done(addr, e) = s.return_address() {
        lemma_register_read(s, Register::Rbp, w);
        let s1 = s.get_register(Register::Rbp).state();
        let rbp = s.get_register(Register::Rbp)->Done_0;
        lemma_register_read(s1, Register::Rsp, w);
        let s2 = s1.get_register(Register::Rsp).state();
        let rsp = s1.get_register(Register::Rsp)->Done_0;
        assert(goes_on(s2.talk, s2.candidate(rsp, Seq::empty()).state().talk));
        let s3 = s2.candidate(rsp, Seq::empty()).state();
        let f1 = s2.candidate(rsp, Seq::empty())->Done_0;
        assert(goes_on(s3.talk, s3.candidate(next_word(rsp), f1).state().talk));
        let s4 = s3.candidate(next_word(rsp), f1).state();
        let f2 = s3.candidate(next_word(rsp), f1)->Done_0;
        assert(goes_on(s4.talk, s4.candidate(next_word(rbp), f2).state().talk));
        let s5 = s4.candidate(next_word(rbp), f2).state();
        let f3 = s4.candidate(next_word(rbp), f2)->Done_0;
        lemma_pick_seen(s5, f3, w);
        lemma_goes_on(s4, s5, e);
        lemma_goes_on(s3, s4, e);
        lemma_goes_on(s2, s3, e);
        lemma_goes_on(s1, s2, e);
        lemma_goes_on(s, s1, e);
        assert(s5 == (PtraceShape { talk: s5.talk, ..s }));
        if saw(s, e, w) {
            lemma_saw_parts(s, s1, e, w);
            lemma_saw_parts(s1, s2, e, w);
            lemma_saw_parts(s2, s3, e, w);
            lemma_saw_parts(s3, s4, e, w);
            lemma_saw_parts(s4, s5, e, w);
            assert(rsp == top && next_word(rsp) == second && next_word(rbp) == frame);
            lemma_candidate_seen(s2, top, Seq::empty(), w);
            lemma_candidate_seen(s3, second, f1, w);
            lemma_candidate_seen(s4, frame, f2, w);
            lemma_chosen(w, s.program, f1, f2, f3, s5.pick_own(f3)->Done_0, addr);
        }
    }
}

/// What is chosen among the candidates is the return address.
proof fn lemma_chosen(
    w: World,
    program: Seq<char>,
    f1: Seq<u64>,
    f2: Seq<u64>,
    f3: Seq<u64>,
    own: Option<u64>,
    addr: Option<u64>,
)
    requires
        knows_stack(w),
        f1 == (if returns_by(w, program, w.regs.rsp) {
            Seq::<u64>::empty().push(word_at(w, w.regs.rsp))
        } else {
            Seq::<u64>::empty()
        }),
        f2 == (if returns_by(w, program, (w.regs.rsp + 8) as u64) && !f1.contains(
            word_at(w, (w.regs.rsp + 8) as u64),
        ) {
            f1.push(word_at(w, (w.regs.rsp + 8) as u64))
        } else {
            f1
        }),
        f3 == (if returns_by(w, program, (w.regs.rbp + 8) as u64) && !f2.contains(
            word_at(w, (w.regs.rbp + 8) as u64),
        ) {
            f2.push(word_at(w, (w.regs.rbp + 8) as u64))
        } else {
            f2
        }),
        match own {
            Some(addr) => exists|i: int|
                0 <= i < f3.len() && addr == #[trigger] f3[i] && w.is_own_code(program, addr)
                    && forall|k: int| 0 <= k < i ==> !w.is_own_code(program, #[trigger] f3[k]),
            None => forall|k: int|
                0 <= k < f3.len() ==> !w.is_own_code(program, #[trigger] f3[k]),
        },
        addr == (if own is Some || f3.len() == 0 {
            own
        } else {
            Some(f3[0])
        }),
    ensures
        addr == return_by(w, program),
{
    let a = word_at(w, w.regs.rsp);
    let b = word_at(w, (w.regs.rsp + 8) as u64);
    let c = word_at(w, (w.regs.rbp + 8) as u64);
    lemma_home(w, program, a);
    lemma_home(w, program, b);
    lemma_home(w, program, c);
    assert(f1.contains(a) ==> f1[0] == a);
    assert(f1.len() <= 1 && f2.len() <= 2 && f3.len() <= 3);
    if f2.contains(c) {
        let k = choose|k: int| 0 <= k < f2.len() && f2[k] == c;
        assert(f2[k] == a || f2[k] == b);
    }
    if f1.contains(b) {
        let k = choose|k: int| 0 <= k < f1.len() && f1[k] == b;
        assert(f1[k] == a);
    }
    assert(f2.len() > 0 ==> f2[0] == a || f2[0] == b);
    assert(f3.len() > 0 ==> f3[0] == a || f3[0] == b || f3[0] == c);
    assert(f3.len() > 1 ==> f3[1] == b || f3[1] == c);
    assert(f3.len() > 2 ==> f3[2] == c);
    if let Some(x) = own {
        let i = choose|i: int|
            0 <= i < f3.len() && x == #[trigger] f3[i] && w.is_own_code(program, x) && forall|
                k: int,
            |
                0 <= k < i ==> !w.is_own_code(program, #[trigger] f3[k]);
        assert(i == 0 || i == 1 || i == 2);
        if i > 0 {
            assert(!w.is_own_code(program, f3[0]));
        }
        if i > 1 {
            assert(!w.is_own_code(program, f3[1]));
        }
    } else {
        if f3.len() > 0 {
            assert(!w.is_own_code(program, f3[0]));
        }
        if f3.len() > 1 {
            assert(!w.is_own_code(program, f3[1]));
        }
        if f3.len() > 2 {
            assert(!w.is_own_code(program, f3[2]));
        }
    }
}

// ---------------------------------------------------------------------------
// Breakpoints that are set

/// A state comes from another one by putting in breakpoints at some addresses only; those that
/// were there stay as they are.
pub open spec fn adds_at(s: PtraceShape, e: PtraceShape, allowed: spec_fn(u64) -> bool) -> bool {
    &&& e.program == s.program && e.image == s.image && e.plain == s.plain
    &&& goes_on(s.talk, e.talk)
    &&& in_order(e)
    &&& forall|a: u64|
        bp_at(s.breakpoints, a) is Some ==> #[trigger] bp_at(e.breakpoints, a) == bp_at(
            s.breakpoints,
            a,
        )
    &&& forall|a: u64| #[trigger]
        bp_at(e.breakpoints, a) is Some && bp_at(s.breakpoints, a) is None ==> allowed(a)
}

proof fn lemma_adds_on(
    a: PtraceShape,
    b: PtraceShape,
    c: PtraceShape,
    allowed: spec_fn(u64) -> bool,
)
    requires
        adds_at(a, b, allowed),
        adds_at(b, c, allowed),
    ensures
        adds_at(a, c, allowed),
{
    lemma_goes_on(a, b, c);
    assert forall|x: u64| bp_at(a.breakpoints, x) is Some implies #[trigger] bp_at(c.breakpoints, x)
        == bp_at(a.breakpoints, x) by {
        assert(bp_at(b.breakpoints, x) == bp_at(a.breakpoints, x));
    }
    assert forall|x: u64| #[trigger]
        bp_at(c.breakpoints, x) is Some && bp_at(a.breakpoints, x) is None implies allowed(x) by {
        if bp_at(b.breakpoints, x) is Some {
            assert(allowed(x));
        }
    }
}

/// Setting a breakpoint for one time puts one at the address where that is code, and at no other.
proof fn lemma_set_temp_seen(s: PtraceShape, addr: u64, w: World, allowed: spec_fn(u64) -> bool)
    requires
        in_order(s),
        allowed(addr),
    ensures
        s.set_temp(addr) matches Flow::Done(_, e) ==> {
            &&& adds_at(s, e, allowed)
            &&& saw(s, e, w) && w.is_code(s.program, addr) ==> bp_at(e.breakpoints, addr) is Some
        },
{
    lemma_set_temp(s, addr);
    if bp_at(s.breakpoints, addr) is None {
        lemma_code_seen(s, addr, false, w);
        if let Flow::Done(code, s1) = s.is_code(addr, false) {
            if let Flow::Done(_, e) = s.set_temp(addr) {
                assert(goes_on(s1.talk, e.talk));
                lemma_goes_on(s, s1, e);
                if saw(s, e, w) {
                    lemma_saw_parts(s, s1, e, w);
                }
                if code {
                    let new = Breakpoint { addr, enabled_status: false, saved_data: 0 };
                    if let Changed::Done(bp, _) = new.enable_of(s1.talk) {
                        lemma_table(s1.breakpoints, bp, addr);
                        assert forall|x: u64| x != addr implies #[trigger] bp_at(e.breakpoints, x)
                            == bp_at(s.breakpoints, x) by {
                            lemma_table(s1.breakpoints, bp, x);
                        }
                    }
                }
            }
        }
    }
}

/// Setting breakpoints for one time puts one at each of the lines that is code, and nowhere else.
proof fn lemma_set_temps_seen(
    s: PtraceShape,
    addrs: Seq<u64>,
    w: World,
    allowed: spec_fn(u64) -> bool,
)
    requires
        in_order(s),
        forall|i: int|
            0 <= i < addrs.len() ==> allowed(w.in_process(s.program, #[trigger] addrs[i])),
    ensures
        s.set_temps(addrs) matches Flow::Done(_, e) ==> {
            &&& goes_on(s.talk, e.talk)
            &&& saw(s, e, w) ==> adds_at(s, e, allowed) && forall|i: int|
                0 <= i < addrs.len() && w.is_code(
                    s.program,
                    w.in_process(s.program, #[trigger] addrs[i]),
                ) ==> bp_at(e.breakpoints, w.in_process(s.program, addrs[i])) is Some
        },
    decreases addrs.len(),
{
    if addrs.len() > 0 {
        lemma_addresses_seen(s, addrs[0], w);
        if let Flow::Done(at, s1) = s.to_runtime_addr(addrs[0]) {
            if let Flow::Done(_, s2) = s1.set_temp(at) {
                lemma_set_temp_seen(s1, at, w, |a: u64| a == at);
                let rest = addrs.drop_first();
                assert(in_order(s2));
                assert(s2.program == s.program);
                assert forall|i: int| 0 <= i < rest.len() implies allowed(
                    w.in_process(s2.program, #[trigger] rest[i]),
                ) by {
                    assert(rest[i] == addrs[i + 1]);
                }
                lemma_set_temps_seen(s2, rest, w, allowed);
                if let Flow::Done(_, e) = s2.set_temps(rest) {
                    lemma_goes_on(s1, s2, e);
                    lemma_goes_on(s, s1, e);
                    if saw(s, e, w) {
                        lemma_saw_parts(s, s1, e, w);
                        lemma_saw_parts(s1, s2, e, w);
                        assert(allowed(w.in_process(s.program, addrs[0])));
                        lemma_set_temp_seen(s1, at, w, allowed);
                        assert(adds_at(s, s1, allowed));
                        lemma_adds_on(s, s1, s2, allowed);
                        lemma_adds_on(s, s2, e, allowed);
                        assert forall|i: int|
                            0 <= i < addrs.len() && w.is_code(
                                s.program,
                                w.in_process(s.program, #[trigger] addrs[i]),
                            ) implies bp_at(
                            e.breakpoints,
                            w.in_process(s.program, addrs[i]),
                        ) is Some by {
                            if i > 0 {
                                assert(rest[i - 1] == addrs[i]);
                            } else {
                                assert(bp_at(s2.breakpoints, at) is Some);
                                assert(bp_at(e.breakpoints, at) == bp_at(s2.breakpoints, at));
                            }
                        }
                    }
                }
            }
        }
    }
}

// ---------------------------------------------------------------------------
// Finishing a function

/// A command that finishes a function lets the process run with a breakpoint at exactly the return
/// address that the words on the stack give, besides those that there were.
pub proof fn lemma_finish_runs_to_return(
    s: PtraceShape,
    s1: PtraceShape,
    s2: PtraceShape,
    w: World,
    found: Option<u64>,
    ret: u64,
)
    requires
        in_order(s1),
        !s.has_crashed,
        s.cleanup_temps(s.temps) == Flow::<(), PtraceShape>::Done((), s1),
        s1.return_address() == Flow::<Option<u64>, PtraceShape>::Done(found, s2),
        knows_stack(w),
        saw(s1, s2, w),
        return_by(w, s1.program) == Some(ret),
    ensures
        s.step_out() matches Flow::Done(_, e) ==> saw(s2, e, w) ==> {
            &&& e.is_executing
            &&& e.talk.heard.last().0 == CallShape::Continue
            &&& bp_at(e.breakpoints, ret) is Some
            &&& adds_at(s1, e, |a: u64| a == ret)
        },
{
    lemma_return_address_found(s1, w);
    assert(found == Some(ret));
    if let Flow::Done(_, e) = s.step_out() {
        lemma_set_temp_seen(s2, ret, w, |a: u64| a == ret);
        if let Flow::Done(_, s3) = s2.set_temp(ret) {
            assert(goes_on(s3.talk, e.talk));
            if saw(s2, e, w) {
                lemma_saw_parts(s2, s3, e, w);
                lemma_return_is_code(w, s1.program);
                assert(e.breakpoints == s3.breakpoints && e.temps == s3.temps);
                assert(adds_at(s3, e, |a: u64| a == ret));
                assert(adds_at(s1, s2, |a: u64| a == ret));
                lemma_adds_on(s1, s2, s3, |a: u64| a == ret);
                lemma_adds_on(s1, s3, e, |a: u64| a == ret);
            }
        }
    }
}

/// A return address that is found is executable.
pub proof fn lemma_return_is_code(w: World, program: Seq<char>)
    ensures
        return_by(w, program) matches Some(ret) ==> w.is_code(program, ret),
{
    if let Some(ret) = return_by(w, program) {
        lemma_home(w, program, ret);
    }
}

/// In a function with a frame of its own, whose locals are no addresses of code, the return address
/// is the word behind the frame pointer.
pub proof fn lemma_return_behind_frame(w: World, program: Seq<char>)
    requires
        knows_stack(w),
        !returns_by(w, program, w.regs.rsp),
        !returns_by(w, program, (w.regs.rsp + 8) as u64),
        returns_by(w, program, (w.regs.rbp + 8) as u64),
    ensures
        return_by(w, program) == Some(word_at(w, (w.regs.rbp + 8) as u64)),
{
    lemma_home(w, program, word_at(w, w.regs.rsp));
    lemma_home(w, program, word_at(w, (w.regs.rsp + 8) as u64));
}

// ---------------------------------------------------------------------------
// Executing a source line

/// Setting a breakpoint for one time where a word returns to puts one there where the word is
/// executable, and at no other address.
proof fn lemma_set_return_seen(s: PtraceShape, place: u64, w: World, allowed: spec_fn(u64) -> bool)
    requires
        in_order(s),
        w.memory.dom().contains(place),
        returns_by(w, s.program, place) ==> allowed(word_at(w, place)),
    ensures
        s.set_return(place) matches Flow::Done(set, e) ==> {
            &&& goes_on(s.talk, e.talk)
            &&& saw(s, e, w) ==> {
                &&& adds_at(s, e, allowed)
                &&& returns_by(w, s.program, place) ==> bp_at(
                    e.breakpoints,
                    word_at(w, place),
                ) is Some
                &&& set ==> returns_by(w, s.program, place)
            }
        },
{
    lemma_word_read(s, place, w);
    if let Flow::Done(word, t) = s.peek(place).attempt() {
        if let Ok(word) = word {
            let at = word as u64;
            lemma_code_seen(t, at, false, w);
            if let Flow::Done(code, u) = t.is_code(at, false) {
                if let Flow::Done(set, e) = s.set_return(place) {
                    lemma_set_temp_seen(u, at, w, |a: u64| a == at);
                    assert(goes_on(u.talk, e.talk));
                    lemma_goes_on(t, u, e);
                    lemma_goes_on(s, t, e);
                    if saw(s, e, w) {
                        lemma_saw_parts(s, t, e, w);
                        lemma_saw_parts(t, u, e, w);
                        assert(word_at(w, place) == at);
                        if set {
                            lemma_set_temp_seen(u, at, w, allowed);
                        }
                        assert(adds_at(s, u, allowed));
                        lemma_adds_on(s, u, e, allowed);
                    }
                }
            }
        }
    }
}

/// What follows the setting of breakpoints in a step over a line: a breakpoint where the function
/// returns to by its frame, or else by its stack.
proof fn lemma_set_returns_seen(s: PtraceShape, w: World, allowed: spec_fn(u64) -> bool)
    requires
        in_order(s),
        knows_stack(w),
        returns_by(w, s.program, (w.regs.rbp + 8) as u64) ==> allowed(
            word_at(w, (w.regs.rbp + 8) as u64),
        ),
        returns_by(w, s.program, w.regs.rsp) ==> allowed(word_at(w, w.regs.rsp)),
    ensures
        s.set_returns() matches Flow::Done(_, e) ==> {
            &&& goes_on(s.talk, e.talk)
            &&& saw(s, e, w) ==> {
                &&& adds_at(s, e, allowed)
                &&& returns_by(w, s.program, (w.regs.rbp + 8) as u64) ==> bp_at(
                    e.breakpoints,
                    word_at(w, (w.regs.rbp + 8) as u64),
                ) is Some
                &&& !returns_by(w, s.program, (w.regs.rbp + 8) as u64) && returns_by(
                    w,
                    s.program,
                    w.regs.rsp,
                ) ==> bp_at(e.breakpoints, word_at(w, w.regs.rsp)) is Some
            }
        },
{
    lemma_register_read(s, Register::Rbp, w);
    if let Flow::Done(rbp, s1) = s.get_register(Register::Rbp) {
        lemma_register_read(s1, Register::Rsp, w);
        if let Flow::Done(rsp, s2) = s1.get_register(Register::Rsp) {
            if let Flow::Done(set, s3) = s2.set_return(next_word(rbp)) {
                if let Flow::Done(_, e) = s.set_returns() {
                    assert(goes_on(s2.talk, s3.talk)) by {
                        lemma_return_goes_on(s2, next_word(rbp));
                    }
                    assert(goes_on(s3.talk, e.talk)) by {
                        lemma_return_goes_on(s3, rsp);
                    }
                    lemma_goes_on(s2, s3, e);
                    lemma_goes_on(s1, s2, e);
                    lemma_goes_on(s, s1, e);
                    if saw(s, e, w) {
                        lemma_saw_parts(s, s1, e, w);
                        lemma_saw_parts(s1, s2, e, w);
                        lemma_saw_parts(s2, s3, e, w);
                        assert(next_word(rbp) == w.regs.rbp + 8);
                        lemma_set_return_seen(s2, next_word(rbp), w, allowed);
                        assert(adds_at(s, s2, allowed));
                        lemma_adds_on(s, s2, s3, allowed);
                        if !set {
                            lemma_set_return_seen(s3, rsp, w, allowed);
                            lemma_adds_on(s, s3, e, allowed);
                        }
                    }
                }
            }
        }
    }
}

proof fn lemma_return_goes_on(s: PtraceShape, place: u64)
    ensures
        s.set_return(place) matches Flow::Done(_, e) ==> goes_on(s.talk, e.talk),
{
    if let Flow::Done(word, t) = s.peek(place).attempt() {
        assert(goes_on(s.talk, t.talk));
        if let Ok(word) = word {
            if let Flow::Done(code, u) = t.is_code(word as u64, false) {
                assert(goes_on(t.talk, u.talk));
                lemma_goes_on(s, t, u);
                if let Flow::Done(_, e) = s.set_return(place) {
                    if u.set_temp(word as u64) is Done && code && bp_at(
                        u.breakpoints,
                        word as u64,
                    ) is None {
                        assert(goes_on(u.talk, e.talk));
                        lemma_goes_on(s, u, e);
                    }
                }
            }
        }
    }
}

/// The process was let run with breakpoints at the other lines of a function and where it returns
/// to, as far as those are code, and with no other new ones.
pub open spec fn runs_over(
    s: PtraceShape,
    e: PtraceShape,
    w: World,
    ranges: Seq<(u64, u64)>,
    pc: u64,
) -> bool {
    let frame = (w.regs.rbp + 8) as u64;
    &&& e.is_executing
    &&& e.talk.heard.last().0 == CallShape::Continue
    &&& forall|addr: u64| #[trigger]
        some_unit_has_in(units_in_image(s.image), ranges, pc, addr) && w.is_code(
            s.program,
            w.in_process(s.program, addr),
        ) ==> bp_at(e.breakpoints, w.in_process(s.program, addr)) is Some
    &&& returns_by(w, s.program, frame) ==> bp_at(e.breakpoints, word_at(w, frame)) is Some
    &&& !returns_by(w, s.program, frame) && returns_by(w, s.program, w.regs.rsp) ==> bp_at(
        e.breakpoints,
        word_at(w, w.regs.rsp),
    ) is Some
    &&& adds_at(s, e, |a: u64| is_stop_of(s, w, ranges, pc, a))
}

/// An address is that of another line of a function, or where the function returns to.
pub open spec fn is_stop_of(
    s: PtraceShape,
    w: World,
    ranges: Seq<(u64, u64)>,
    pc: u64,
    at: u64,
) -> bool {
    let frame = (w.regs.rbp + 8) as u64;
    ||| exists|addr: u64| #[trigger]
        some_unit_has_in(units_in_image(s.image), ranges, pc, addr) && at == w.in_process(
            s.program,
            addr,
        )
    ||| returns_by(w, s.program, frame) && at == word_at(w, frame)
    ||| returns_by(w, s.program, w.regs.rsp) && at == word_at(w, w.regs.rsp)
}

/// Running past a line lets the process run with the breakpoints that a step over it needs.
proof fn lemma_run_past_seen(s: PtraceShape, w: World, ranges: Seq<(u64, u64)>, pc: u64)
    requires
        in_order(s),
        knows_stack(w),
        line_addresses(units_in_image(s.image), ranges, pc, Seq::empty()) is Ok,
        exists|addr: u64| #[trigger]
            some_unit_has_in(units_in_image(s.image), ranges, pc, addr) && addr > pc,
    ensures
        s.run_past(pc, ranges) matches Flow::Done(_, e) ==> saw(s, e, w) ==> runs_over(
            s,
            e,
            w,
            ranges,
            pc,
        ),
{
    let units = units_in_image(s.image);
    let addrs = s.other_lines(pc, ranges);
    let allowed = |a: u64| is_stop_of(s, w, ranges, pc, a);
    lemma_lines_in_ranges_are_found(units, ranges, pc);
    let past = choose|addr: u64| #[trigger] some_unit_has_in(units, ranges, pc, addr) && addr > pc;
    assert(addrs.contains(past));
    let k = choose|k: int| 0 <= k < addrs.len() && addrs[k] == past;
    assert(addrs[k] > pc);
    assert(some_past(addrs, pc));
    if let Flow::Done(_, e) = s.run_past(pc, ranges) {
        let s1 = s.set_temps(addrs).state();
        let s2 = s1.set_returns().state();
        assert forall|i: int| 0 <= i < addrs.len() implies allowed(
            w.in_process(s.program, #[trigger] addrs[i]),
        ) by {
            assert(addrs.contains(addrs[i]));
            assert(some_unit_has_in(units, ranges, pc, addrs[i]));
        }
        lemma_set_temps_seen(s, addrs, w, allowed);
        lemma_returns_go_on(s1);
        assert(goes_on(s2.talk, e.talk));
        lemma_goes_on(s1, s2, e);
        if saw(s, e, w) {
            lemma_saw_parts(s, s1, e, w);
            lemma_saw_parts(s1, s2, e, w);
            lemma_set_returns_seen(s1, w, allowed);
            assert(e.breakpoints == s2.breakpoints && e.temps == s2.temps);
            assert(adds_at(s2, e, allowed));
            lemma_adds_on(s, s1, s2, allowed);
            lemma_adds_on(s, s2, e, allowed);
            assert forall|addr: u64| #[trigger]
                some_unit_has_in(units, ranges, pc, addr) && w.is_code(
                    s.program,
                    w.in_process(s.program, addr),
                ) implies bp_at(e.breakpoints, w.in_process(s.program, addr)) is Some by {
                assert(addrs.contains(addr));
                let i = choose|i: int| 0 <= i < addrs.len() && addrs[i] == addr;
                assert(bp_at(s1.breakpoints, w.in_process(s.program, addrs[i])) is Some);
                assert(bp_at(s2.breakpoints, w.in_process(s.program, addrs[i])) is Some);
            }
        }
    }
}

proof fn lemma_returns_go_on(s: PtraceShape)
    ensures
        s.set_returns() matches Flow::Done(_, e) ==> goes_on(s.talk, e.talk),
{
    if let Flow::Done(rbp, s1) = s.get_register(Register::Rbp) {
        assert(goes_on(s.talk, s1.talk));
        if let Flow::Done(rsp, s2) = s1.get_register(Register::Rsp) {
            assert(goes_on(s1.talk, s2.talk));
            lemma_goes_on(s, s1, s2);
            lemma_return_goes_on(s2, next_word(rbp));
            if let Flow::Done(set, s3) = s2.set_return(next_word(rbp)) {
                lemma_goes_on(s, s2, s3);
                lemma_return_goes_on(s3, rsp);
                if !set {
                    if let Flow::Done(_, s4) = s3.set_return(rsp) {
                        lemma_goes_on(s, s3, s4);
                    }
                }
            }
        }
    }
}

/// The command that executes a source line lets the process run with a breakpoint at every other
/// line of the function that is code, and where the function returns to, and with no other new
/// ones. It does so wherever the program counter has a line and a function, and the function has a
/// line further on.
pub proof fn lemma_next_runs_over_calls(
    s: PtraceShape,
    s1: PtraceShape,
    s2: PtraceShape,
    line: Option<(Seq<char>, u64)>,
    pc: u64,
    w: World,
    ranges: Seq<(u64, u64)>,
)
    requires
        in_order(s),
        !s.has_crashed,
        knows_stack(w),
        s.current_line() == Flow::<Option<(Seq<char>, u64)>, PtraceShape>::Done(line, s1),
        s1.get_dwarf_pc() == Flow::<u64, PtraceShape>::Done(pc, s2),
        saw(s, s2, w),
        line_at(units_in_image(s.image), w.in_file(s.program, w.regs.rip)) matches Ok(Some(_)),
        function_ranges_at(units_in_image(s.image), w.in_file(s.program, w.regs.rip)) == Ok::<
            Option<Seq<(u64, u64)>>,
            Seq<char>,
        >(Some(ranges)),
        line_addresses(
            units_in_image(s.image),
            ranges,
            w.in_file(s.program, w.regs.rip),
            Seq::empty(),
        ) is Ok,
        exists|addr: u64| #[trigger]
            some_unit_has_in(
                units_in_image(s.image),
                ranges,
                w.in_file(s.program, w.regs.rip),
                addr,
            ) && addr > w.in_file(s.program, w.regs.rip),
    ensures
        pc == w.in_file(s.program, w.regs.rip),
        s.step_over() matches Flow::Done(_, e) ==> saw(s2, e, w) ==> runs_over(
            s2,
            e,
            w,
            ranges,
            pc,
        ) && s2.breakpoints == s.breakpoints,
{
    lemma_current_line_seen(s, w);
    lemma_file_pc_seen(s1, w);
    lemma_saw_parts(s, s1, s2, w);
    assert(line is Some);
    assert(s2.image == s.image && s2.program == s.program);
    lemma_run_past_seen(s2, w, ranges, pc);
    assert(s.step_over() == s2.run_past(pc, ranges));
}

} // verus!
