//! The plain debugger for a local process: the debugging information alone tells it places, it
//! looks for sources beside the program only, and at the end of a session it leaves the
//! breakpoints for one time where they are.
use vstd::prelude::*;

use crate::dialogue::{ran, talk_with, Flow, Input, InputShape, Pause};
use crate::elf_debug_info::{known_function, known_line, ElfDebugInfo};
use crate::source::{bare_place, code_place};

use super::debugger::{LinuxPtraceDebugger, PtraceShape};
use super::invariants::{in_order, keeps_order, lemma_before_prompt, lemma_handle_command};

verus! {

/// A plain debugger for a traced process.
pub struct Debugger {
    pub session: LinuxPtraceDebugger,
}

impl View for Debugger {
    type V = PtraceShape;

    open spec fn view(&self) -> PtraceShape {
        self.session@
    }
}

impl Debugger {
    /// The session is a plain one, with its tables in order.
    pub open spec fn wf(&self) -> bool {
        self@.plain && in_order(self@)
    }

    /// A plain debugger for a process that has just been started.
    pub fn new(program_name: String, debug_info: ElfDebugInfo) -> (r: Self)
        ensures
            r.wf(),
            r@ == (PtraceShape {
                program: program_name@,
                is_executing: false,
                has_crashed: false,
                breakpoints: Seq::empty(),
                temps: Seq::empty(),
                captures_output: false,
                plain: true,
                image: debug_info@,
                talk: talk_with(Seq::empty()),
            }),
    {
        let mut session = LinuxPtraceDebugger::new(program_name, debug_info);
        session.plain = true;
        Debugger { session }
    }

    /// Starts a session; whether it goes on.
    pub fn session_start(&mut self) -> (r: Result<bool, Pause>)
        requires
            old(self).wf(),
        ensures
            final(self).wf(),
            ran(r, final(self)@, old(self)@.session_start()),
    {
        self.session.session_start()
    }

    /// Waits for the process before a prompt, if it is running; whether the session goes on.
    pub fn before_prompt(&mut self) -> (r: Result<bool, Pause>)
        requires
            old(self).wf(),
        ensures
            final(self).wf(),
            ran(r, final(self)@, old(self)@.before_prompt()),
    {
        proof {
            lemma_before_prompt(self@);
        }
        self.session.before_prompt()
    }

    /// Deals with what a prompt has brought; whether the session goes on.
    pub fn on_input(&mut self, input: &Input) -> (r: Result<bool, Pause>)
        requires
            old(self).wf(),
        ensures
            final(self).wf(),
            ran(r, final(self)@, old(self)@.on_input(input@)),
    {
        proof {
            lemma_input_keeps_order(self@, input@);
        }
        self.session.on_input(input)
    }

    /// Ends a session.
    pub fn session_end(&mut self) -> (r: Result<(), Pause>)
        requires
            old(self).wf(),
        ensures
            final(self).wf(),
            ran(r, final(self)@, old(self)@.session_end()),
    {
        self.session.session_end()
    }
}

/// Whatever a prompt has brought, the tables stay in order and the session stays what it is.
pub proof fn lemma_input_keeps_order(s: PtraceShape, input: InputShape)
    ensures
        keeps_order(s, s.on_input(input).state()),
{
    if let InputShape::Line(line) = input {
        lemma_handle_command(s, line);
    }
}

/// A plain debugger tells a place by the debugging information alone: where that says nothing, the
/// place is the bare address.
pub proof fn lemma_plain_place(s: PtraceShape, pc: u64)
    requires
        s.plain,
    ensures
        s.to_dwarf_pc(pc) matches Flow::Done(addr, e) ==> s.format_location(pc) == Flow::Done(
            match code_place(known_function(s.image, addr), known_line(s.image, addr)) {
                Some(place) => place,
                None => bare_place(pc),
            },
            e,
        ),
{
}

/// A plain session ends without asking for anything and leaves its breakpoints in place.
pub proof fn lemma_plain_end(s: PtraceShape)
    requires
        s.plain,
    ensures
        s.session_end() == Flow::<(), PtraceShape>::Done((), s),
{
}

} // verus!
