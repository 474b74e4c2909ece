//! What is done when the process has stopped by a signal.
use vstd::prelude::*;

use crate::dialogue::{ran, Flow, Pause, SignalInfo};
use crate::list::has_value;
use crate::number::{hex_of, push_hex, push_signed_dec, signed_dec_of};

use super::breakpoint::{bp_at, find_bp};
use super::debugger::{text_and_hex, with_hex, LinuxPtraceDebugger, PtraceShape};

verus! {

/// The code of a trap by a breakpoint.
pub const TRAP_BRKPT: i32 = 1;

/// The code of a trap after one instruction.
pub const TRAP_TRACE: i32 = 2;

/// The code of a signal that the kernel sent.
pub const SI_KERNEL: i32 = 0x80;

/// The address before another one, but not below zero.
pub open spec fn one_back(pc: u64) -> u64 {
    if pc == 0 {
        0
    } else {
        (pc - 1) as u64
    }
}

/// The addresses that are not past a place, in their order.
pub open spec fn up_to(addrs: Seq<u64>, pc: u64) -> Seq<u64>
    decreases addrs.len(),
{
    if addrs.len() == 0 {
        addrs
    } else if addrs.last() <= pc {
        up_to(addrs.drop_last(), pc).push(addrs.last())
    } else {
        up_to(addrs.drop_last(), pc)
    }
}

/// The addresses that are not past a place, in their order.
pub fn addrs_up_to(addrs: &Vec<u64>, pc: u64) -> (r: Vec<u64>)
    ensures
        r@ == up_to(addrs@, pc),
{
    let mut out: Vec<u64> = Vec::new();
    assert(out@ =~= addrs@.take(0));
    for i in 0..addrs.len()
        invariant
            out@ == up_to(addrs@.take(i as int), pc),
    {
        assert(addrs@.take(i + 1).drop_last() =~= addrs@.take(i as int));
        assert(addrs@.take(i + 1).last() == addrs@[i as int]);
        if addrs[i] <= pc {
            out.push(addrs[i]);
        }
    }
    assert(addrs@.take(addrs@.len() as int) =~= addrs@);
    out
}

impl PtraceShape {
    /// Passing the breakpoint at an address, which goes if it was there for one time.
    pub open spec fn pass_breakpoint(self, addr: u64) -> Flow<(), PtraceShape> {
        self.stepover_breakpoint().bind(
            |_done: (), s: PtraceShape| s.cleanup_temp(addr),
        )
    }

    /// Passing the breakpoint at an address, if one was hit.
    pub open spec fn pass_if(self, hit: bool, addr: u64) -> Flow<(), PtraceShape> {
        if hit {
            self.pass_breakpoint(addr)
        } else {
            Flow::Done((), self)
        }
    }

    /// Leaving a breakpoint, if one was hit: it is passed, and the breakpoints for one time that
    /// lie behind go.
    pub open spec fn leave_breakpoint(self, hit: bool, addr: u64, pc: u64) -> Flow<(), PtraceShape> {
        self.pass_if(hit, addr).bind(
            |_done: (), s: PtraceShape|
                s.cleanup_temps(up_to(s.temps, pc)).bind(
                    |_done: (), s: PtraceShape|
                        Flow::Done((), PtraceShape { is_executing: false, ..s }),
                ),
        )
    }

    /// A stop at a breakpoint: its place is shown, it is passed, and the breakpoints for one
    /// time that lie behind go.
    pub open spec fn breakpoint_stop(self) -> Flow<(), PtraceShape> {
        self.get_pc().bind(
            |reported: u64, s: PtraceShape|
                {
                    let addr = one_back(reported);
                    let hit = bp_at(s.breakpoints, addr) is Some;
                    let pc = if hit {
                        addr
                    } else {
                        reported
                    };
                    s.say(text_and_hex("PC = 0x"@, pc)).print_location(pc).bind(
                        |_done: (), s: PtraceShape|
                            s.print_current_source().bind(
                                |_done: (), s: PtraceShape| s.leave_breakpoint(hit, addr, pc),
                            ),
                    )
                },
        )
    }

    /// A stop by a trap.
    pub open spec fn handle_sigtrap(self) -> Flow<(), PtraceShape> {
        self.on_talk(self.talk.signal_info()).bind(
            |info: SignalInfo, s: PtraceShape|
                if info.code == TRAP_BRKPT || info.code == SI_KERNEL {
                    s.breakpoint_stop()
                } else if info.code == TRAP_TRACE {
                    Flow::Done((), s.say("UNIMPLEMENTED"@))
                } else {
                    Flow::Done(
                        (),
                        s.say("Uknown SIGTRAP code: "@ + signed_dec_of(info.code as int)),
                    )
                },
        )
    }

    /// A stop by an invalid memory access: the program has crashed.
    pub open spec fn handle_sigsegv(self) -> Flow<(), PtraceShape> {
        self.on_talk(self.talk.signal_info()).bind(
            |info: SignalInfo, s: PtraceShape|
                Flow::Done(
                    (),
                    (PtraceShape { is_executing: false, has_crashed: true, ..s }).say(
                        "Segfault! Reason Code: "@ + signed_dec_of(info.code as int)
                            + ", Address 0x"@ + hex_of(info.address as nat),
                    ).say(
                        "Program has crashed. Use 'continue' to re-deliver the signal and terminate, or restart the debugger."@,
                    ),
                ),
        )
    }
}

impl LinuxPtraceDebugger {
    /// Passes the breakpoint at an address, if one was hit; it goes if it was there for one
    /// time.
    pub fn pass_if(&mut self, hit: bool, addr: u64) -> (r: Result<(), Pause>)
        ensures
            ran(r, final(self)@, old(self)@.pass_if(hit, addr)),
    {
        if hit {
            self.stepover_breakpoint()?;
            if has_value(&self.temp_breakpoints, addr) {
                self.cleanup_temp_breakpoint(addr)?;
            }
        }
        Ok(())
    }

    /// Passes a breakpoint, if one was hit, and takes out those for one time that lie behind.
    fn leave_breakpoint(&mut self, hit: bool, addr: u64, pc: u64) -> (r: Result<(), Pause>)
        ensures
            ran(r, final(self)@, old(self)@.leave_breakpoint(hit, addr, pc)),
    {
        self.pass_if(hit, addr)?;
        let passed = addrs_up_to(&self.temp_breakpoints, pc);
        self.cleanup_temps(&passed)?;
        self.is_executing = false;
        Ok(())
    }

    /// Shows and passes a breakpoint.
    fn breakpoint_stop(&mut self) -> (r: Result<(), Pause>)
        ensures
            ran(r, final(self)@, old(self)@.breakpoint_stop()),
    {
        let reported: u64 = self.get_pc()?;
        let addr: u64 = reported.saturating_sub(1);
        let hit = find_bp(&self.breakpoints, addr).is_some();
        let pc: u64 = if hit {
            addr
        } else {
            reported
        };
        let line = with_hex("PC = 0x", pc);
        self.talk.say(line.as_str());
        self.print_location(pc)?;
        self.print_current_source()?;
        self.leave_breakpoint(hit, addr, pc)
    }

    /// Deals with a stop by a trap.
    pub fn handle_sigtrap(&mut self) -> (r: Result<(), Pause>)
        ensures
            ran(r, final(self)@, old(self)@.handle_sigtrap()),
    {
        let info = self.talk.signal_info()?;
        if info.code == TRAP_BRKPT || info.code == SI_KERNEL {
            return self.breakpoint_stop();
        }
        if info.code == TRAP_TRACE {
            self.talk.say("UNIMPLEMENTED");
        } else {
            let mut text = "Uknown SIGTRAP code: ".to_owned();
            push_signed_dec(&mut text, info.code as i64);
            self.talk.say(text.as_str());
        }
        Ok(())
    }

    /// Deals with a stop by an invalid memory access.
    pub fn handle_sigsegv(&mut self) -> (r: Result<(), Pause>)
        ensures
            ran(r, final(self)@, old(self)@.handle_sigsegv()),
    {
        let info = self.talk.signal_info()?;
        let mut text = "Segfault! Reason Code: ".to_owned();
        push_signed_dec(&mut text, info.code as i64);
        text.append(", Address 0x");
        push_hex(&mut text, info.address);
        self.talk.say(text.as_str());
        self.is_executing = false;
        self.has_crashed = true;
        self.talk.say(
            "Program has crashed. Use 'continue' to re-deliver the signal and terminate, or restart the debugger.",
        );
        Ok(())
    }
}

} // verus!
