//! What leaves the breakpoints that a debugger keeps track of as they are.
use vstd::prelude::*;

use crate::dialogue::Flow;
use crate::elf_debug_info::known_line;
use crate::target::{ProgressShape, StepShape};

use super::debugger::ArmShape;
use super::target_impl::ARM_SOURCE_STEP_LIMIT;

verus! {

/// Executing one instruction leaves the breakpoints as they are, also where it fails.
pub proof fn lemma_step_keeps_breakpoints(s: ArmShape)
    ensures
        s.step_instruction().state().breakpoints == s.breakpoints,
{
}

/// Running to an address leaves the breakpoints as they are, also where it fails.
pub proof fn lemma_run_to_keeps_breakpoints(s: ArmShape, start: u64, next: u64)
    ensures
        s.run_to(start, next).state().breakpoints == s.breakpoints,
{
}

/// Any number of rounds of a source step leaves the breakpoints as they are.
proof fn lemma_rounds_keep_breakpoints(s: ArmShape, step: StepShape, fuel: nat)
    ensures
        s.step_rounds(step, fuel).state().breakpoints == s.breakpoints,
    decreases fuel,
{
    if fuel > 0 {
        lemma_step_keeps_breakpoints(s);
        if let Flow::Done(ProgressShape::Again(next), e) = s.step_round(step) {
            lemma_rounds_keep_breakpoints(e, next, (fuel - 1) as nat);
        }
    }
}

/// Stepping to another source line leaves the breakpoints as they are, also where it fails.
pub proof fn lemma_step_source_keeps_breakpoints(s: ArmShape)
    ensures
        s.step_source().state().breakpoints == s.breakpoints,
{
    if let Flow::Done(step, s1) = s.step_begin() {
        lemma_rounds_keep_breakpoints(s1, step, ARM_SOURCE_STEP_LIMIT as nat + 1);
    }
}

/// Executing a source line leaves the breakpoints as they are, also where it fails.
pub proof fn lemma_next_source_keeps_breakpoints(s: ArmShape)
    ensures
        s.next_source().state().breakpoints == s.breakpoints,
{
    if let Flow::Done(pc, s1) = s.arm_pc() {
        if let Flow::Done(next, s2) = s1.next_source_addr(pc, known_line(s1.image, pc)) {
            match next {
                None => lemma_step_source_keeps_breakpoints(s2),
                Some(next) => lemma_run_to_keeps_breakpoints(s2, pc, next),
            }
        }
    }
}

} // verus!
