//! What the commands of a local session ask of the process, and what its replies mean.
use vstd::prelude::*;

use crate::arm_target::asks::written;
use crate::dialogue::{CallShape, Flow, ReplyShape};
use crate::elf_debug_info::{source_addresses, units_in_image};
use crate::number::{
    dec_of, hex_of, lemma_dec_reads_back, lemma_hex_reads_back, lemma_hex_reads_back_within,
    signed_dec_of,
};
use crate::text::{begins, lemma_cut_last_at};

use super::breakpoint::{bp_at, lemma_table, low_byte, Breakpoint, Changed};
use super::debugger::PtraceShape;
use super::invariants::{in_order, lemma_cleanup_temp, lemma_cleanup_temps};
use super::registers::{lemma_names, lemma_with, register_name, Register, UserRegs};
use super::return_addr::adds_at;
use super::signal_handler::up_to;
use super::stops::goes_on;
use super::world::{
    lemma_addresses_seen, lemma_code_seen, lemma_goes_on, lemma_saw_parts, saw, World,
};

verus! {

/// A number that tells words apart.
spec fn mark(word: Seq<char>) -> int {
    word.len() * 0x1000000 + word[0] as int * 0x1000 + word.last() as int
}

/// The words of the commands are all different.
proof fn lemma_marks()
    ensures
        mark("continue"@) == 8 * 0x1000000 + 0x63 * 0x1000 + 0x65,
        mark("c"@) == 1 * 0x1000000 + 0x63 * 0x1000 + 0x63,
        mark("stepi"@) == 5 * 0x1000000 + 0x73 * 0x1000 + 0x69,
        mark("step"@) == 4 * 0x1000000 + 0x73 * 0x1000 + 0x70,
        mark("s"@) == 1 * 0x1000000 + 0x73 * 0x1000 + 0x73,
        mark("next"@) == 4 * 0x1000000 + 0x6e * 0x1000 + 0x74,
        mark("n"@) == 1 * 0x1000000 + 0x6e * 0x1000 + 0x6e,
        mark("break"@) == 5 * 0x1000000 + 0x62 * 0x1000 + 0x6b,
        mark("finish"@) == 6 * 0x1000000 + 0x66 * 0x1000 + 0x68,
        mark("register"@) == 8 * 0x1000000 + 0x72 * 0x1000 + 0x72,
        mark("memory"@) == 6 * 0x1000000 + 0x6d * 0x1000 + 0x79,
        mark("backtrace"@) == 9 * 0x1000000 + 0x62 * 0x1000 + 0x65,
        mark("bt"@) == 2 * 0x1000000 + 0x62 * 0x1000 + 0x74,
        mark("dump"@) == 4 * 0x1000000 + 0x64 * 0x1000 + 0x70,
        mark("read"@) == 4 * 0x1000000 + 0x72 * 0x1000 + 0x64,
        mark("write"@) == 5 * 0x1000000 + 0x77 * 0x1000 + 0x65,
{
    reveal_strlit("continue");
    reveal_strlit("c");
    reveal_strlit("stepi");
    reveal_strlit("step");
    reveal_strlit("s");
    reveal_strlit("next");
    reveal_strlit("n");
    reveal_strlit("break");
    reveal_strlit("finish");
    reveal_strlit("register");
    reveal_strlit("memory");
    reveal_strlit("backtrace");
    reveal_strlit("bt");
    reveal_strlit("dump");
    reveal_strlit("read");
    reveal_strlit("write");
}

/// A number that is written as an address is read as that number.
proof fn lemma_written_here(n: u64)
    ensures
        begins(written(n), "0x"@),
        written(n).skip(2) == hex_of(n as nat),
        "0x"@.len() == 2,
        super::maps::hex_number(hex_of(n as nat)) == Some(n),
{
    lemma_hex_reads_back(n);
    reveal_strlit("0x");
    assert(written(n).take(2) =~= "0x"@);
    assert(written(n).skip(2) =~= hex_of(n as nat));
}

/// The words of a line.
pub open spec fn command_words(line: Seq<char>) -> Seq<Seq<char>> {
    crate::words::words_of(line)
}

/// Each command does what its word says.
pub proof fn lemma_commands(s: PtraceShape, line: Seq<char>)
    requires
        command_words(line).len() > 0,
    ensures
        ({
            let tokens = command_words(line);
            let word = tokens[0];
            &&& word == "continue"@ || word == "c"@ ==> s.handle_command(line) == s.cmd_continue()
            &&& word == "break"@ ==> s.handle_command(line) == s.cmd_break(tokens)
            &&& word == "next"@ || word == "n"@ ==> s.handle_command(line) == s.step_over()
            &&& word == "step"@ || word == "s"@ ==> s.handle_command(line) == s.step_in()
            &&& word == "stepi"@ ==> s.handle_command(line) == s.single_step()
            &&& word == "finish"@ ==> s.handle_command(line) == s.step_out()
            &&& word == "backtrace"@ || word == "bt"@ ==> s.handle_command(line)
                == s.print_backtrace()
            &&& word == "register"@ ==> s.handle_command(line) == s.cmd_register(tokens)
            &&& word == "memory"@ ==> s.handle_command(line) == s.cmd_memory(tokens)
        }),
{
    lemma_marks();
    let m = mark(command_words(line)[0]);
}

/// A flow waits for the reply to a call.
pub open spec fn asks<A>(flow: Flow<A, PtraceShape>, call: CallShape) -> bool {
    flow matches Flow::Ask(asked, _) && asked == call
}

/// What the commands ask for first.
#[verifier::rlimit(50)]
pub proof fn lemma_asks(s: PtraceShape, line: Seq<char>, addr: u64, value: u64, r: Register)
    requires
        s.talk.replies.len() == 0,
        !s.has_crashed,
        s.temps.len() == 0,
        command_words(line).len() > 0,
        addr >= 0x400000,
        value <= i64::MAX,
    ensures
        ({
            let tokens = command_words(line);
            let flow = s.handle_command(line);
            &&& tokens[0] == "continue"@ ==> asks(flow, CallShape::Continue)
            &&& tokens[0] == "stepi"@ ==> asks(flow, CallShape::Step)
            &&& tokens[0] == "break"@ && tokens.len() > 1 && tokens[1] == written(addr) ==> asks(
                flow,
                CallShape::Peek(addr),
            )
            &&& tokens[0] == "register"@ && tokens.len() > 2 && tokens[1] == "read"@ && tokens[2]
                == register_name(r) ==> asks(flow, CallShape::Registers)
            &&& tokens[0] == "memory"@ && tokens.len() > 2 && tokens[1] == "read"@ && tokens[2]
                == written(addr) ==> asks(flow, CallShape::Peek(addr))
            &&& tokens[0] == "memory"@ && tokens.len() > 3 && tokens[1] == "write"@ && tokens[2]
                == written(addr) && tokens[3] == written(value) ==> asks(
                flow,
                CallShape::Poke(addr, value as i64),
            )
        }),
{
    lemma_marks();
    lemma_commands(s, line);
    lemma_written_here(addr);
    lemma_written_here(value);
    lemma_names(r);
    lemma_hex_reads_back_within(value as nat, 0x7fff_ffff_ffff_ffff);
    let tokens = command_words(line);
    if tokens.len() > 1 {
        let n = mark(tokens[1]);
    }
    let h = hex_of(value as nat);
    crate::number::lemma_hex_starts(value as nat);
}

/// What is read is printed: the value of the named register in decimal, and the word at an address
/// with its sign.
#[verifier::rlimit(50)]
pub proof fn lemma_reads_are_printed(
    s: PtraceShape,
    tokens: Seq<Seq<char>>,
    r: Register,
    addr: u64,
    regs: UserRegs,
    word: i64,
)
    requires
        tokens.len() > 2,
        tokens[1] == "read"@,
        s.talk.replies.len() > 0,
    ensures
        tokens[2] == register_name(r) && s.talk.replies[0] == ReplyShape::Registers(Ok(regs)) ==> (
        s.cmd_register(tokens) matches Flow::Done(_, e) && e.talk.out == s.talk.out + dec_of(
            regs.value_of(r) as nat,
        ) + "\n"@),
        tokens[2] == written(addr) && s.talk.replies[0] == ReplyShape::Word(Ok(word)) ==> (
        s.cmd_memory(tokens) matches Flow::Done(_, e) && e.talk.out == s.talk.out + signed_dec_of(
            word as int,
        ) + "\n"@ && e.talk.heard.last().0 == CallShape::Peek(addr)),
{
    lemma_marks();
    lemma_names(r);
    lemma_written_here(addr);
    let n = mark(tokens[1]);
}

/// Registers differ from others in the value of one of them, if at all.
pub open spec fn sets_one(regs: UserRegs, new: UserRegs, r: Register, value: u64) -> bool {
    &&& new.value_of(r) == value
    &&& forall|other: Register|
        other != r ==> #[trigger] new.value_of(other) == regs.value_of(other)
}

/// Setting a register asks for all registers to be set as they were but for that one.
pub(crate) proof fn lemma_set_asks(s: PtraceShape, r: Register, value: u64, regs: UserRegs)
    requires
        s.talk.replies.len() == 1,
        s.talk.replies[0] == ReplyShape::Registers(Ok(regs)),
    ensures
        s.set_register(r, value) matches Flow::Ask(CallShape::SetRegisters(new), _) && sets_one(
            regs,
            new,
            r,
            value,
        ),
{
    let new = regs.with(r, value);
    assert(sets_one(regs, new, r, value)) by {
        assert forall|other: Register| other != r implies #[trigger] new.value_of(other)
            == regs.value_of(other) by {
            lemma_with(regs, r, value, other);
        }
        lemma_with(regs, r, value, r);
    }
}

/// A command that writes a register sets it.
proof fn lemma_write_sets(s: PtraceShape, tokens: Seq<Seq<char>>, r: Register, value: u64)
    requires
        tokens.len() > 3,
        tokens[1] == "write"@,
        tokens[2] == register_name(r),
        tokens[3] == written(value),
    ensures
        s.cmd_register(tokens) == s.set_register(r, value),
{
    reveal_strlit("dump");
    reveal_strlit("read");
    reveal_strlit("write");
    assert("dump"@.len() == 4 && "read"@.len() == 4 && "write"@.len() == 5);
    lemma_names(r);
    lemma_written_here(value);
}

/// Writing a register sets all registers as they were but for that one.
pub proof fn lemma_register_write(
    s: PtraceShape,
    tokens: Seq<Seq<char>>,
    r: Register,
    value: u64,
    regs: UserRegs,
)
    requires
        tokens.len() > 3,
        tokens[1] == "write"@,
        tokens[2] == register_name(r),
        tokens[3] == written(value),
        s.talk.replies.len() == 1,
        s.talk.replies[0] == ReplyShape::Registers(Ok(regs)),
    ensures
        s.cmd_register(tokens) matches Flow::Ask(CallShape::SetRegisters(new), _) && sets_one(
            regs,
            new,
            r,
            value,
        ),
{
    lemma_write_sets(s, tokens, r, value);
    lemma_set_asks(s, r, value, regs);
}

/// Each register is the one of its name in the registers of the process.
pub proof fn lemma_registers_are_fields(regs: UserRegs)
    ensures
        regs.value_of(Register::Rax) == regs.rax && register_name(Register::Rax) == "rax"@,
        regs.value_of(Register::Rbx) == regs.rbx && register_name(Register::Rbx) == "rbx"@,
        regs.value_of(Register::Rcx) == regs.rcx && register_name(Register::Rcx) == "rcx"@,
        regs.value_of(Register::Rdx) == regs.rdx && register_name(Register::Rdx) == "rdx"@,
        regs.value_of(Register::Rsi) == regs.rsi && register_name(Register::Rsi) == "rsi"@,
        regs.value_of(Register::Rdi) == regs.rdi && register_name(Register::Rdi) == "rdi"@,
        regs.value_of(Register::Rbp) == regs.rbp && register_name(Register::Rbp) == "rbp"@,
        regs.value_of(Register::Rsp) == regs.rsp && register_name(Register::Rsp) == "rsp"@,
        regs.value_of(Register::R8) == regs.r8 && register_name(Register::R8) == "r8"@,
        regs.value_of(Register::R9) == regs.r9 && register_name(Register::R9) == "r9"@,
        regs.value_of(Register::R10) == regs.r10 && register_name(Register::R10) == "r10"@,
        regs.value_of(Register::R11) == regs.r11 && register_name(Register::R11) == "r11"@,
        regs.value_of(Register::R12) == regs.r12 && register_name(Register::R12) == "r12"@,
        regs.value_of(Register::R13) == regs.r13 && register_name(Register::R13) == "r13"@,
        regs.value_of(Register::R14) == regs.r14 && register_name(Register::R14) == "r14"@,
        regs.value_of(Register::R15) == regs.r15 && register_name(Register::R15) == "r15"@,
        regs.value_of(Register::Rip) == regs.rip && register_name(Register::Rip) == "rip"@,
        regs.value_of(Register::RFlags) == regs.eflags && register_name(Register::RFlags)
            == "eflags"@,
        regs.value_of(Register::Cs) == regs.cs && register_name(Register::Cs) == "cs"@,
        regs.value_of(Register::Ss) == regs.ss && register_name(Register::Ss) == "ss"@,
        regs.value_of(Register::Ds) == regs.ds && register_name(Register::Ds) == "ds"@,
        regs.value_of(Register::Es) == regs.es && register_name(Register::Es) == "es"@,
        regs.value_of(Register::Fs) == regs.fs && register_name(Register::Fs) == "fs"@,
        regs.value_of(Register::Gs) == regs.gs && register_name(Register::Gs) == "gs"@,
        regs.value_of(Register::FsBase) == regs.fs_base && register_name(Register::FsBase)
            == "fs_base"@,
        regs.value_of(Register::GsBase) == regs.gs_base && register_name(Register::GsBase)
            == "gs_base"@,
        regs.value_of(Register::OrigRax) == regs.orig_rax && register_name(Register::OrigRax)
            == "orig_rax"@,
{
}

// ---------------------------------------------------------------------------
// Breakpoints in memory

/// Putting a breakpoint in reads the word at its address and writes it back with a trap in its
/// lowest byte, which is the byte at the address; that byte is kept.
pub proof fn lemma_trap_is_written(s: PtraceShape, addr: u64, word: i64)
    requires
        in_order(s),
        s.talk.replies.len() == 2,
        s.talk.replies[0] == ReplyShape::Word(Ok(word)),
        s.talk.replies[1] == ReplyShape::Done(Ok(())),
    ensures
        s.insert_new(addr) matches Flow::Done(_, e) && {
            &&& e.talk.heard.len() == s.talk.heard.len() + 2
            &&& e.talk.heard[s.talk.heard.len() as int].0 == CallShape::Peek(addr)
            &&& e.talk.heard.last().0 matches CallShape::Poke(at, trap) && at == addr
                && trap as u64 / 256 == word as u64 / 256 && trap as u64 % 256 == 0xcc
            &&& bp_at(e.breakpoints, addr) matches Some(bp) && bp.enabled_status && bp.addr == addr
                && bp.saved_data == word as u64 % 256
        },
{
    let new = Breakpoint { addr, enabled_status: false, saved_data: 0 };
    assert(s.talk.replies.drop_first()[0] == s.talk.replies[1]);
    assert(((word & !0xffi64) | 0xcci64) as u64 / 256 == word as u64 / 256 && ((word & !0xffi64)
        | 0xcci64) as u64 % 256 == 0xcc) by (bit_vector);
    assert((word & 0xff) as u8 == word as u64 % 256) by (bit_vector);
    assert(0xccu8 as i64 == 0xcci64);
    let bp = Breakpoint { addr, enabled_status: true, saved_data: low_byte(word) };
    lemma_table(s.breakpoints, bp, addr);
}

/// Taking a breakpoint out of memory writes the kept byte back.
proof fn lemma_byte_is_put_back(s: PtraceShape, bp: Breakpoint)
    requires
        in_order(s),
        bp_at(s.breakpoints, bp.addr) == Some(bp),
    ensures
        s.on_table(bp.disable_of(s.talk)) matches Flow::Done(_, e) ==> {
            let n = s.talk.heard.len() as int;
            &&& e.talk.heard.len() == n + 2
            &&& e.talk.heard.take(n) == s.talk.heard
            &&& e.talk.heard[n].0 == CallShape::Peek(bp.addr)
            &&& e.talk.heard[n + 1].0 matches CallShape::Poke(at, word) && at == bp.addr
                && low_byte(word) == bp.saved_data
            &&& bp_at(e.breakpoints, bp.addr) == Some(Breakpoint { enabled_status: false, ..bp })
        },
{
    if let Flow::Done(_, e) = s.on_table(bp.disable_of(s.talk)) {
        super::breakpoint::lemma_low_byte(s.talk.replies[0]->Word_0->Ok_0, bp.saved_data);
        lemma_table(s.breakpoints, Breakpoint { enabled_status: false, ..bp }, bp.addr);
        assert(e.talk.heard.take(s.talk.heard.len() as int) =~= s.talk.heard);
    }
}

/// Executing the instruction at a breakpoint sets the program counter to its address, executes one
/// instruction, and puts the trap back.
proof fn lemma_executed_at(s: PtraceShape, off: Breakpoint)
    requires
        bp_at(s.breakpoints, off.addr) == Some(off),
        forall|bp: Breakpoint|
            bp.addr == off.addr ==> #[trigger] bp_at(
                super::breakpoint::with_bp(s.breakpoints, bp),
                off.addr,
            ) == Some(bp),
    ensures
        s.execute_at(off.addr) matches Flow::Done(_, e) ==> {
            let n = s.talk.heard.len() as int;
            &&& e.talk.heard.len() == n + 6
            &&& e.talk.heard.take(n) == s.talk.heard
            &&& e.talk.heard[n].0 == CallShape::Registers
            &&& e.talk.heard[n + 1].0 matches CallShape::SetRegisters(regs) && regs.rip == off.addr
            &&& e.talk.heard[n + 2].0 == CallShape::Step
            &&& e.talk.heard[n + 3].0 == CallShape::Wait
            &&& e.talk.heard[n + 4].0 == CallShape::Peek(off.addr)
            &&& e.talk.heard[n + 5].0 matches CallShape::Poke(at, word) && at == off.addr
                && low_byte(word) == 0xcc
            &&& bp_at(e.breakpoints, off.addr) matches Some(back) && back.enabled_status
        },
{
    if let Flow::Done(_, e) = s.execute_at(off.addr) {
        let n = s.talk.heard.len() as int;
        let s1 = s.set_register(Register::Rip, off.addr)->Done_1;
        assert(s1.talk.heard.len() == n + 2 && s1.breakpoints == s.breakpoints);
        let s2 = s1.order(CallShape::Step)->Done_1;
        assert(s2.talk.heard.len() == n + 3 && s2.breakpoints == s.breakpoints);
        let s3 = s2.wait()->Done_1;
        assert(s3.talk.heard.len() == n + 4 && s3.breakpoints == s.breakpoints);
        super::breakpoint::lemma_low_byte(s3.talk.replies[0]->Word_0->Ok_0, 0xcc);
        assert(e.talk.heard.take(n) =~= s.talk.heard);
    }
}

/// Passing a breakpoint that was hit puts the kept byte back, sets the program counter to its
/// address, executes one instruction, and puts the trap back.
#[verifier::rlimit(50)]
pub proof fn lemma_breakpoint_is_passed(s: PtraceShape, pc: u64, s1: PtraceShape, bp: Breakpoint)
    requires
        in_order(s),
        s.get_pc() == Flow::<u64, PtraceShape>::Done(pc, s1),
        pc > 0,
        bp_at(s.breakpoints, (pc - 1) as u64) == Some(bp),
        bp.addr == pc - 1,
        bp.enabled_status,
    ensures
        s.stepover_breakpoint() matches Flow::Done(_, e) ==> {
            let n = s1.talk.heard.len() as int;
            &&& e.talk.heard.len() == n + 8
            &&& e.talk.heard[n].0 == CallShape::Peek(bp.addr)
            &&& e.talk.heard[n + 1].0 matches CallShape::Poke(at, word) && at == bp.addr
                && low_byte(word) == bp.saved_data
            &&& e.talk.heard[n + 2].0 == CallShape::Registers
            &&& e.talk.heard[n + 3].0 matches CallShape::SetRegisters(regs) && regs.rip == bp.addr
            &&& e.talk.heard[n + 4].0 == CallShape::Step
            &&& e.talk.heard[n + 5].0 == CallShape::Wait
            &&& e.talk.heard[n + 6].0 == CallShape::Peek(bp.addr)
            &&& e.talk.heard[n + 7].0 matches CallShape::Poke(at, word) && at == bp.addr
                && low_byte(word) == 0xcc
            &&& bp_at(e.breakpoints, bp.addr) matches Some(back) && back.enabled_status
        },
{
    assert(s1.breakpoints == s.breakpoints);
    lemma_byte_is_put_back(s1, bp);
    if let Flow::Done(_, e) = s.stepover_breakpoint() {
        let off = Breakpoint { enabled_status: false, ..bp };
        let s2 = s1.on_table(bp.disable_of(s1.talk))->Done_1;
        assert(s1.on_table(bp.disable_of(s1.talk)) == Flow::<(), PtraceShape>::Done((), s2));
        assert(s2.breakpoints == super::breakpoint::with_bp(s.breakpoints, off));
        lemma_table(s.breakpoints, off, off.addr);
        assert forall|b: Breakpoint| b.addr == off.addr implies #[trigger] bp_at(
            super::breakpoint::with_bp(s2.breakpoints, b),
            off.addr,
        ) == Some(b) by {
            lemma_table(s2.breakpoints, b, off.addr);
        }
        lemma_executed_at(s2, off);
        assert(s.stepover_breakpoint() == s2.execute_at(off.addr));
        let n = s1.talk.heard.len() as int;
        let mid = e.talk.heard.take(n + 2);
        assert(mid[n] == e.talk.heard[n] && mid[n + 1] == e.talk.heard[n + 1]);
    }
}

// ---------------------------------------------------------------------------
// Breakpoints for one time

/// Taking out breakpoints for one time leaves none of them.
pub(crate) proof fn lemma_temps_go(s: PtraceShape, addrs: Seq<u64>)
    requires
        in_order(s),
    ensures
        s.cleanup_temps(addrs) matches Flow::Done(_, e) ==> {
            &&& forall|a: u64| #[trigger] e.temps.contains(a) ==> s.temps.contains(a)
            &&& forall|i: int| 0 <= i < addrs.len() ==> !e.temps.contains(#[trigger] addrs[i])
        },
    decreases addrs.len(),
{
    if addrs.len() > 0 {
        lemma_cleanup_temp(s, addrs[0]);
        crate::list::lemma_different(s.temps, addrs[0]);
        if let Flow::Done(_, t) = s.cleanup_temp(addrs[0]) {
            let rest = addrs.drop_first();
            lemma_temps_go(t, rest);
            assert forall|a: u64| #[trigger] t.temps.contains(a) implies s.temps.contains(a) by {
                if s.temps.contains(addrs[0]) {
                    assert(t.temps == crate::list::without(s.temps, addrs[0]));
                }
            }
            assert forall|i: int| 0 < i < addrs.len() implies rest[i - 1] == #[trigger] addrs[i] by {
            }
        }
    }
}

/// Continuing takes out all breakpoints for one time and lets the process run; the others stay in
/// their order.
pub proof fn lemma_continue_runs(s: PtraceShape)
    requires
        in_order(s),
    ensures
        s.cmd_continue() matches Flow::Done(_, e) ==> {
            &&& e.is_executing
            &&& e.temps.len() == 0
            &&& e.talk.heard.last().0 == CallShape::Continue
            &&& in_order(e)
        },
{
    let s0 = if s.has_crashed {
        s.say("Warning: Program has crashed. Continuing will terminate the process."@)
    } else {
        s
    };
    lemma_temps_go(s0, s0.temps);
    lemma_cleanup_temps(s0, s0.temps);
    if let Flow::Done(_, t) = s0.cleanup_temps(s0.temps) {
        if t.temps.len() > 0 {
            let a = t.temps[0];
            assert(t.temps.contains(a));
            let i = choose|i: int| 0 <= i < s0.temps.len() && s0.temps[i] == a;
            assert(!t.temps.contains(s0.temps[i]));
        }
    }
}

/// An address is among those up to a place exactly where it is one of them and not past it.
proof fn lemma_up_to(addrs: Seq<u64>, pc: u64, a: u64)
    ensures
        up_to(addrs, pc).contains(a) == (addrs.contains(a) && a <= pc),
    decreases addrs.len(),
{
    if addrs.len() > 0 {
        let less = addrs.drop_last();
        lemma_up_to(less, pc, a);
        let rest = up_to(less, pc);
        if rest.contains(a) {
            let k = choose|k: int| 0 <= k < rest.len() && rest[k] == a;
            assert(rest.push(addrs.last())[k] == a);
        }
        if rest.push(addrs.last()).contains(a) {
            let k = choose|k: int|
                0 <= k < rest.push(addrs.last()).len() && rest.push(addrs.last())[k] == a;
            if k < rest.len() {
                assert(rest[k] == a);
            }
        }
        assert(rest.push(addrs.last())[rest.len() as int] == addrs.last());
        if addrs.contains(a) {
            let k = choose|k: int| 0 <= k < addrs.len() && addrs[k] == a;
            if k < less.len() {
                assert(less[k] == a);
            }
        }
        if less.contains(a) {
            let k = choose|k: int| 0 <= k < less.len() && less[k] == a;
            assert(addrs[k] == a);
        }
        assert(addrs[addrs.len() - 1] == addrs.last());
    }
}

/// After a stop at a breakpoint the process is not running, and no breakpoint for one time is left
/// at or before the place where it stopped.
pub proof fn lemma_stop_clears_the_way(s: PtraceShape, hit: bool, addr: u64, pc: u64)
    requires
        in_order(s),
    ensures
        s.leave_breakpoint(hit, addr, pc) matches Flow::Done(_, e) ==> {
            &&& !e.is_executing
            &&& forall|a: u64| #[trigger] e.temps.contains(a) ==> a > pc
        },
{
    super::invariants::lemma_pass_if(s, hit, addr);
    if let Flow::Done(_, t) = s.pass_if(hit, addr) {
        let behind = up_to(t.temps, pc);
        lemma_temps_go(t, behind);
        if let Flow::Done(_, u) = t.cleanup_temps(behind) {
            assert forall|a: u64| #[trigger] u.temps.contains(a) implies a > pc by {
                lemma_up_to(t.temps, pc, a);
                if a <= pc {
                    let k = choose|k: int| 0 <= k < behind.len() && behind[k] == a;
                    assert(!u.temps.contains(behind[k]));
                }
            }
        }
    }
}

// ---------------------------------------------------------------------------
// Breakpoints on source lines

/// A source line as a user writes it.
pub open spec fn written_line(file: Seq<char>, line: u64) -> Seq<char> {
    file + seq![':'] + dec_of(line as nat)
}

/// The command that sets a breakpoint on a source line puts one at the process's address for the
/// first address of the line, and nowhere else, and says so; where the line has no code it changes
/// nothing and asks for nothing.
pub proof fn lemma_line_gets_breakpoint(
    s: PtraceShape,
    file: Seq<char>,
    line: u64,
    found: Seq<u64>,
    w: World,
)
    requires
        in_order(s),
        source_addresses(units_in_image(s.image), file, line, Seq::empty()) == Ok::<
            Seq<u64>,
            Seq<char>,
        >(found),
    ensures
        found.len() > 0 ==> (s.cmd_break_source(written_line(file, line)) matches Flow::Done(_, e)
            ==> saw(s, e, w) ==> {
            let at = w.in_process(s.program, found[0]);
            &&& bp_at(e.breakpoints, at) is Some
            &&& adds_at(s, e, |a: u64| a == at)
        }),
        found.len() == 0 ==> (s.cmd_break_source(written_line(file, line)) matches Flow::Done(_, e)
            && e.talk.heard == s.talk.heard && e.breakpoints == s.breakpoints),
{
    lemma_dec_reads_back(line);
    crate::number::lemma_dec_has_no_colon(line as nat);
    lemma_cut_last_at(file, dec_of(line as nat), ':');
    if found.len() > 0 {
        lemma_addresses_seen(s, found[0], w);
        if let Flow::Done(at, t) = s.to_runtime_addr(found[0]) {
            if let Flow::Done(_, e) = s.cmd_break_source(written_line(file, line)) {
                assert(goes_on(t.talk, e.talk));
                lemma_goes_on(s, t, e);
                if saw(s, e, w) {
                    lemma_saw_parts(s, t, e, w);
                    if bp_at(t.breakpoints, at) is None {
                        let new = Breakpoint { addr: at, enabled_status: false, saved_data: 0 };
                        let bp = match new.enable_of(t.talk) {
                            Changed::Done(bp, _) => bp,
                            Changed::Fail(_, bp, _) => bp,
                            Changed::Ask(_, bp, _) => bp,
                        };
                        assert(bp.addr == at);
                        lemma_table(s.breakpoints, bp, at);
                        assert forall|x: u64| x != at implies #[trigger] bp_at(e.breakpoints, x)
                            == bp_at(s.breakpoints, x) by {
                            lemma_table(s.breakpoints, bp, x);
                        }
                    }
                }
            }
        }
    }
}

/// A frontend is told the process's address for the first address of a source line.
pub proof fn lemma_line_is_told(
    s: PtraceShape,
    file: Seq<char>,
    line: u64,
    found: Seq<u64>,
    w: World,
)
    requires
        source_addresses(units_in_image(s.image), file, line, Seq::empty()) == Ok::<
            Seq<u64>,
            Seq<char>,
        >(found),
    ensures
        s.source_breakpoint(file, line) matches Flow::Done(addr, e) ==> {
            &&& found.len() == 0 ==> addr is None
            &&& found.len() > 0 && saw(s, e, w) ==> addr == Some(w.in_process(s.program, found[0]))
        },
{
    if found.len() > 0 {
        lemma_addresses_seen(s, found[0], w);
    }
}

/// Setting a breakpoint for one time where none stands and there is code puts one in memory, which
/// is then one for one time; a breakpoint that is there already stays what it was.
pub proof fn lemma_temp_is_set(s: PtraceShape, addr: u64, w: World)
    requires
        in_order(s),
    ensures
        s.set_temp(addr) matches Flow::Done(_, e) ==> {
            &&& bp_at(s.breakpoints, addr) is Some ==> e == s
            &&& bp_at(s.breakpoints, addr) is None && saw(s, e, w) ==> {
                &&& w.is_code(s.program, addr) ==> bp_at(e.breakpoints, addr) is Some
                    && e.temps.contains(addr)
                &&& !w.is_code(s.program, addr) ==> e.breakpoints == s.breakpoints && e.temps
                    == s.temps
            }
            &&& forall|other: u64|
                other != addr ==> #[trigger] e.temps.contains(other) == s.temps.contains(other)
        },
{
    if bp_at(s.breakpoints, addr) is None {
        lemma_code_seen(s, addr, false, w);
        if let Flow::Done(code, t) = s.is_code(addr, false) {
            crate::list::lemma_different(t.temps, addr);
            if let Flow::Done(_, e) = s.set_temp(addr) {
                assert(goes_on(s.talk, t.talk));
                assert(goes_on(t.talk, e.talk));
                if saw(s, e, w) {
                    lemma_saw_parts(s, t, e, w);
                }
                if code {
                    let new = Breakpoint { addr, enabled_status: false, saved_data: 0 };
                    let bp = new.enable_of(t.talk)->Done_0;
                    lemma_table(s.breakpoints, bp, addr);
                }
            }
        }
    }
}

} // verus!
