//! Likely callers of the current function, found by scanning the stack.
use vstd::prelude::*;

use crate::dialogue::{attempted, ran, FaultShape, Flow, Pause};
use crate::dwarf::ImageShape;
use crate::elf_debug_info::{find_function, known_function};
use crate::list::push_new;
use crate::number::{dec, dec_of, hex_padded_of, pad_end_of, push_hex_padded, push_padded_end};
use crate::target::{FrameShape, StackFrame};

use super::debugger::{location_of, normalize_thumb_addr, thumb_addr, ArmShape, RemoteArmDebugger};
use super::gdb_protocol::{le_word_at, le_word_of};

verus! {

/// The most frames that a backtrace shows.
pub const MAX_ARM_BACKTRACE_FRAMES: usize = 16;

/// How many bytes of the stack are scanned.
pub const ARM_STACK_SCAN_BYTES: usize = 2048;

/// An address less a distance, but not below zero.
pub open spec fn back_by(addr: u64, n: u64) -> u64 {
    if addr >= n {
        (addr - n) as u64
    } else {
        0
    }
}

/// The call that a word on the stack may return to: the word is odd, and one of the addresses
/// at and just before it lies in a function.
pub open spec fn return_address(image: ImageShape, word: u64) -> Option<u64> {
    let addr = thumb_addr(word);
    if word % 2 == 0 {
        None
    } else if known_function(image, addr) is Some {
        Some(addr)
    } else if known_function(image, back_by(addr, 2)) is Some {
        Some(back_by(addr, 2))
    } else if known_function(image, back_by(addr, 4)) is Some {
        Some(back_by(addr, 4))
    } else {
        None
    }
}

/// The calls that the words of a stack may return to, each once, after those found before and
/// up to the number that is shown.
pub open spec fn callers_in(image: ImageShape, stack: Seq<u8>, found: Seq<u64>) -> Seq<u64>
    decreases stack.len(),
{
    if stack.len() < 4 || found.len() + 1 >= MAX_ARM_BACKTRACE_FRAMES {
        found
    } else {
        callers_in(
            image,
            stack.skip(4),
            match return_address(image, le_word_of(stack) as u64) {
                Some(pc) => if found.contains(pc) {
                    found
                } else {
                    found.push(pc)
                },
                None => found,
            },
        )
    }
}

/// The frames for the current place and the callers found.
pub open spec fn frames_of(image: ImageShape, pc: u64, callers: Seq<u64>) -> Seq<FrameShape> {
    Seq::new(
        callers.len() + 1,
        |i: int|
            {
                let at = if i == 0 {
                    pc
                } else {
                    callers[i - 1]
                };
                FrameShape {
                    index: i as nat,
                    pc: at,
                    location: location_of(image, at),
                    approximate: i > 0,
                }
            },
    )
}

/// The line that shows a frame.
pub open spec fn frame_line(frame: FrameShape) -> Seq<char> {
    "#"@ + pad_end_of(dec_of(frame.index), 2, ' ') + " 0x"@ + hex_padded_of(frame.pc as nat, 8) + " "@
        + frame.location + if frame.approximate {
        " [stack scan]"@
    } else {
        ""@
    }
}

impl ArmShape {
    /// Collecting the current frame and the likely callers.
    pub open spec fn collect_backtrace(self) -> Flow<Seq<FrameShape>, ArmShape> {
        self.arm_pc().bind(
            |pc: u64, s: ArmShape|
                s.arm_sp().bind(
                    |sp: u64, s: ArmShape|
                        s.read_memory(sp, ARM_STACK_SCAN_BYTES).attempt().bind(
                            |stack: Result<Seq<u8>, FaultShape>, s: ArmShape|
                                Flow::Done(
                                    frames_of(
                                        s.image,
                                        pc,
                                        match stack {
                                            Ok(bytes) => callers_in(s.image, bytes, Seq::empty()),
                                            Err(_) => Seq::empty(),
                                        },
                                    ),
                                    s,
                                ),
                        ),
                ),
        )
    }

    /// The same with lines for frames printed.
    pub open spec fn say_frames(self, frames: Seq<FrameShape>) -> ArmShape
        decreases frames.len(),
    {
        if frames.len() == 0 {
            self
        } else {
            self.say_frames(frames.drop_last()).say(frame_line(frames.last()))
        }
    }

    /// Printing a backtrace.
    pub open spec fn print_backtrace(self) -> Flow<(), ArmShape> {
        self.say("Backtrace:"@).collect_backtrace().bind(
            |frames: Seq<FrameShape>, s: ArmShape|
                Flow::Done(
                    (),
                    if frames.len() == 1 {
                        s.say_frames(frames).say(
                            "No caller frames found by stack scan. Build with frame pointers or unwind info for better ARM backtraces."@,
                        )
                    } else {
                        s.say_frames(frames)
                    },
                ),
        )
    }
}

/// The line that shows a frame.
pub fn arm_frame_line(frame: &StackFrame) -> (r: String)
    ensures
        r@ == frame_line(frame.deep_view()),
{
    let mut out = "#".to_owned();
    let number = dec(frame.index as u64);
    push_padded_end(&mut out, number.as_str(), 2, ' ');
    out.append(" 0x");
    push_hex_padded(&mut out, frame.pc, 8);
    out.append(" ");
    out.append(frame.location.as_str());
    if frame.approximate {
        out.append(" [stack scan]");
    } else {
        out.append("");
    }
    out
}

impl RemoteArmDebugger {
    /// The call that a word on the stack may return to.
    pub fn resolve_thumb_return_address(&self, word: u64) -> (r: Option<u64>)
        ensures
            r == return_address(self@.image, word),
    {
        if word % 2 == 0 {
            return None;
        }
        let addr: u64 = normalize_thumb_addr(word);
        if find_function(&self.debug_info, addr).is_some() {
            return Some(addr);
        }
        let back: u64 = addr.saturating_sub(2);
        if find_function(&self.debug_info, back).is_some() {
            return Some(back);
        }
        let back: u64 = addr.saturating_sub(4);
        if find_function(&self.debug_info, back).is_some() {
            return Some(back);
        }
        None
    }

    /// The calls that the words of a stack may return to.
    pub fn find_callers(&self, stack: &[u8]) -> (r: Vec<u64>)
        ensures
            r@ == callers_in(self@.image, stack@, Seq::empty()),
    {
        let mut found: Vec<u64> = Vec::new();
        let len: usize = stack.len();
        let mut at: usize = 0;
        let ghost image = self@.image;
        assert(stack@.skip(0) =~= stack@);
        assert(found@ =~= Seq::<u64>::empty());
        while len - at >= 4 && found.len() + 1 < MAX_ARM_BACKTRACE_FRAMES
            invariant
                len == stack@.len(),
                at <= len,
                image == self@.image,
                found@.len() < MAX_ARM_BACKTRACE_FRAMES,
                callers_in(image, stack@, Seq::empty()) == callers_in(
                    image,
                    stack@.skip(at as int),
                    found@,
                ),
            decreases len - at,
        {
            let word: u64 = le_word_at(stack, at) as u64;
            assert(stack@.skip(at as int).skip(4) =~= stack@.skip(at + 4));
            if let Some(pc) = self.resolve_thumb_return_address(word) {
                push_new(&mut found, pc);
            }
            at = at + 4;
        }
        found
    }

    /// One frame of a backtrace.
    fn arm_backtrace_frame(&self, index: usize, pc: u64, approximate: bool) -> (r: StackFrame)
        ensures
            r.deep_view() == (FrameShape {
                index: index as nat,
                pc,
                location: location_of(self@.image, pc),
                approximate,
            }),
    {
        StackFrame { index, pc, location: self.format_location(pc), approximate }
    }

    /// The frames for the current place and the callers found.
    fn arm_frames(&self, pc: u64, callers: &[u64]) -> (r: Vec<StackFrame>)
        requires
            callers@.len() < usize::MAX,
        ensures
            r.deep_view() == frames_of(self@.image, pc, callers@),
    {
        let mut frames: Vec<StackFrame> = Vec::new();
        frames.push(self.arm_backtrace_frame(0, pc, false));
        let ghost want = frames_of(self@.image, pc, callers@);
        for i in 0..callers.len()
            invariant
                callers@.len() < usize::MAX,
                want == frames_of(self@.image, pc, callers@),
                frames@.len() == i + 1,
                forall|j: int| 0 <= j <= i ==> #[trigger] frames@[j].deep_view() == want[j],
        {
            frames.push(self.arm_backtrace_frame(i + 1, callers[i], true));
        }
        assert(frames.deep_view() =~= want);
        frames
    }

    /// Collects the current frame and the likely callers.
    pub fn collect_backtrace(&mut self) -> (r: Result<Vec<StackFrame>, Pause>)
        ensures
            ran(r, final(self)@, old(self)@.collect_backtrace()),
    {
        let pc: u64 = self.arm_pc()?;
        let sp: u64 = self.arm_sp()?;
        let stack = match attempted(self.read_memory(sp, ARM_STACK_SCAN_BYTES))? {
            Ok(bytes) => bytes,
            Err(_) => Vec::new(),
        };
        assert(stack.deep_view() =~= stack@);
        let callers = self.find_callers(stack.as_slice());
        proof {
            lemma_callers(self@.image, stack@, Seq::empty());
            assert(callers_in(self@.image, Seq::empty(), Seq::empty()) =~= Seq::<u64>::empty());
        }
        Ok(self.arm_frames(pc, callers.as_slice()))
    }

    /// Prints a backtrace.
    pub fn print_backtrace(&mut self) -> (r: Result<(), Pause>)
        ensures
            ran(r, final(self)@, old(self)@.print_backtrace()),
    {
        self.talk.say("Backtrace:");
        let frames = self.collect_backtrace()?;
        let ghost shapes = frames.deep_view();
        let ghost start = self@;
        assert(shapes.take(0).len() == 0);
        for i in 0..frames.len()
            invariant
                shapes == frames.deep_view(),
                self@ == start.say_frames(shapes.take(i as int)),
        {
            assert(shapes.take(i + 1).drop_last() =~= shapes.take(i as int));
            assert(shapes.take(i + 1).last() == frames@[i as int].deep_view());
            let line = arm_frame_line(&frames[i]);
            self.talk.say(line.as_str());
        }
        assert(shapes.take(shapes.len() as int) =~= shapes);
        if frames.len() == 1 {
            self.talk.say(
                "No caller frames found by stack scan. Build with frame pointers or unwind info for better ARM backtraces.",
            );
        }
        Ok(())
    }
}

/// Each of the addresses lies in a function.
pub open spec fn all_in_functions(image: ImageShape, addrs: Seq<u64>) -> bool {
    forall|i: int| 0 <= i < addrs.len() ==> known_function(image, #[trigger] addrs[i]) is Some
}

/// The callers found on a stack are different, lie in functions and are fewer than the frames
/// that are shown, if those found before are so.
proof fn lemma_callers(image: ImageShape, stack: Seq<u8>, found: Seq<u64>)
    requires
        found.len() < MAX_ARM_BACKTRACE_FRAMES,
        found.no_duplicates(),
        all_in_functions(image, found),
    ensures
        callers_in(image, stack, found).len() < MAX_ARM_BACKTRACE_FRAMES,
        callers_in(image, stack, found).no_duplicates(),
        all_in_functions(image, callers_in(image, stack, found)),
    decreases stack.len(),
{
    if stack.len() >= 4 && found.len() + 1 < MAX_ARM_BACKTRACE_FRAMES {
        match return_address(image, le_word_of(stack) as u64) {
            Some(pc) => {
                if found.contains(pc) {
                    lemma_callers(image, stack.skip(4), found);
                } else {
                    lemma_callers(image, stack.skip(4), found.push(pc));
                }
            },
            None => lemma_callers(image, stack.skip(4), found),
        }
    }
}

/// A backtrace starts with the current frame and has at most the number of frames that is
/// shown. The frames are numbered from zero. Those after the first are marked as guesses, are
/// all different, and each lies in a function of the program.
pub proof fn lemma_backtrace(s: ArmShape)
    ensures
        s.collect_backtrace() matches Flow::Done(frames, _) ==> {
            &&& 1 <= frames.len() <= MAX_ARM_BACKTRACE_FRAMES
            &&& forall|i: int|
                0 <= i < frames.len() ==> {
                    &&& (#[trigger] frames[i]).index == i
                    &&& frames[i].approximate == (i > 0)
                    &&& i > 0 ==> known_function(s.image, frames[i].pc) is Some
                }
            &&& forall|i: int, j: int|
                0 < i < j < frames.len() ==> (#[trigger] frames[i]).pc != (
                #[trigger] frames[j]).pc
        },
{
    if let Flow::Done(_, s1) = s.arm_pc() {
        if let Flow::Done(sp, s2) = s1.arm_sp() {
            if let Flow::Done(Ok(stack), _) = s2.read_memory(sp, ARM_STACK_SCAN_BYTES).attempt() {
                lemma_callers(s.image, stack, Seq::empty());
            }
        }
    }
}

} // verus!
