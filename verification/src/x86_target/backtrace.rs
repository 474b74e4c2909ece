//! The callers of the current function, found by the chain of frame pointers.
use vstd::prelude::*;

use crate::dialogue::{attempted, ran, FaultShape, Flow, Pause};
use crate::number::{dec, dec_of, hex_padded_of, pad_end_of, push_hex_padded, push_padded_end};
use crate::target::{FrameShape, StackFrame};

use super::command_handler::next_word;
use super::debugger::{LinuxPtraceDebugger, PtraceShape};
use super::registers::Register;
use super::signal_handler::one_back;

verus! {

/// The most frames that a backtrace shows.
pub const MAX_BACKTRACE_FRAMES: usize = 64;

/// A frame pointer can be followed: it is aligned and lies above the one before.
pub open spec fn plausible_frame(frame: u64, previous: u64) -> bool {
    frame != 0 && frame % 8 == 0 && frame > previous
}

/// Whether a frame pointer can be followed.
pub fn is_plausible_frame_pointer(frame_ptr: u64, previous_frame_ptr: u64) -> (r: bool)
    ensures
        r == plausible_frame(frame_ptr, previous_frame_ptr),
{
    frame_ptr != 0 && frame_ptr % 8 == 0 && frame_ptr > previous_frame_ptr
}

/// The line that shows a frame.
pub open spec fn frame_line(frame: FrameShape) -> Seq<char> {
    "#"@ + pad_end_of(dec_of(frame.index), 2, ' ') + " 0x"@ + hex_padded_of(frame.pc as nat, 16)
        + " "@ + frame.location
}

/// The line that shows a frame.
pub fn frame_text(frame: &StackFrame) -> (r: String)
    ensures
        r@ == frame_line(frame.deep_view()),
{
    let mut out = "#".to_owned();
    let number = dec(frame.index as u64);
    push_padded_end(&mut out, number.as_str(), 2, ' ');
    out.append(" 0x");
    push_hex_padded(&mut out, frame.pc, 16);
    out.append(" ");
    out.append(frame.location.as_str());
    out
}

impl PtraceShape {
    /// Describing a frame.
    pub open spec fn frame(self, index: nat, pc: u64) -> Flow<FrameShape, PtraceShape> {
        self.format_location(pc).bind(
            |location: Seq<char>, s: PtraceShape|
                Flow::Done(FrameShape { index, pc, location, approximate: false }, s),
        )
    }

    /// Reading the frame pointer and the return address that a frame pointer leads to, where
    /// both can be read and the return address is code.
    pub open spec fn follow(self, frame: u64) -> Flow<Option<(u64, u64)>, PtraceShape> {
        self.peek(frame).attempt().bind(
            |next: Result<i64, FaultShape>, s: PtraceShape|
                match next {
                    Err(_) => Flow::Done(None, s),
                    Ok(next) => s.peek(next_word(frame)).attempt().bind(
                        |ret: Result<i64, FaultShape>, s: PtraceShape|
                            match ret {
                                Err(_) => Flow::Done(None, s),
                                Ok(ret) => if ret as u64 == 0 {
                                    Flow::Done(None, s)
                                } else {
                                    s.is_code(ret as u64, false).bind(
                                        |code: bool, s: PtraceShape|
                                            Flow::Done(
                                                if code {
                                                    Some((next as u64, ret as u64))
                                                } else {
                                                    None
                                                },
                                                s,
                                            ),
                                    )
                                },
                            },
                    ),
                },
        )
    }

    /// Collecting the frames of the callers after those found before.
    pub open spec fn follow_frames(
        self,
        frame: u64,
        previous: u64,
        found: Seq<FrameShape>,
        left: nat,
    ) -> Flow<Seq<FrameShape>, PtraceShape>
        decreases left,
    {
        if left == 0 || !plausible_frame(frame, previous) {
            Flow::Done(found, self)
        } else {
            self.follow(frame).bind(
                |link: Option<(u64, u64)>, s: PtraceShape|
                    match link {
                        None => Flow::Done(found, s),
                        Some((next, ret)) => s.frame(found.len(), one_back(ret)).bind(
                            |shape: FrameShape, s: PtraceShape|
                                s.follow_frames(next, frame, found.push(shape), (left - 1) as nat),
                        ),
                    },
            )
        }
    }

    /// Collecting the current frame and those of the callers.
    pub open spec fn collect_backtrace(self) -> Flow<Seq<FrameShape>, PtraceShape> {
        self.get_pc().bind(
            |pc: u64, s: PtraceShape|
                s.get_register(Register::Rbp).bind(
                    |frame: u64, s: PtraceShape|
                        s.frame(0, pc).bind(
                            |first: FrameShape, s: PtraceShape|
                                s.follow_frames(
                                    frame,
                                    0,
                                    seq![first],
                                    (MAX_BACKTRACE_FRAMES - 1) as nat,
                                ),
                        ),
                ),
        )
    }

    /// The same with lines for frames printed.
    pub open spec fn say_frames(self, frames: Seq<FrameShape>) -> PtraceShape
        decreases frames.len(),
    {
        if frames.len() == 0 {
            self
        } else {
            self.say_frames(frames.drop_last()).say(frame_line(frames.last()))
        }
    }

    /// Printing a backtrace.
    pub open spec fn print_backtrace(self) -> Flow<(), PtraceShape> {
        self.say("Backtrace:"@).collect_backtrace().bind(
            |frames: Seq<FrameShape>, s: PtraceShape| Flow::Done((), s.say_frames(frames)),
        )
    }
}

impl LinuxPtraceDebugger {
    /// Describes a frame.
    fn backtrace_frame(&mut self, index: usize, runtime_pc: u64) -> (r: Result<StackFrame, Pause>)
        ensures
            ran(r, final(self)@, old(self)@.frame(index as nat, runtime_pc)),
    {
        let location = self.format_location(runtime_pc)?;
        Ok(StackFrame { index, pc: runtime_pc, location, approximate: false })
    }

    /// Reads the frame pointer and the return address that a frame pointer leads to.
    fn follow(&mut self, frame: u64) -> (r: Result<Option<(u64, u64)>, Pause>)
        ensures
            ran(r, final(self)@, old(self)@.follow(frame)),
    {
        let next: i64 = match attempted(self.talk.peek(frame))? {
            Ok(word) => word,
            Err(_) => {
                return Ok(None);
            },
        };
        let ret: i64 = match attempted(self.talk.peek(frame.wrapping_add(8)))? {
            Ok(word) => word,
            Err(_) => {
                return Ok(None);
            },
        };
        let addr: u64 = ret as u64;
        if addr == 0 || !self.is_any_executable_address(addr)? {
            return Ok(None);
        }
        Ok(Some((next as u64, addr)))
    }

    /// Collects the current frame and those of the callers.
    pub fn collect_backtrace(&mut self) -> (r: Result<Vec<StackFrame>, Pause>)
        ensures
            ran(r, final(self)@, old(self)@.collect_backtrace()),
    {
        let pc: u64 = self.get_pc()?;
        let mut frame: u64 = self.get_register(Register::Rbp)?;
        let mut previous: u64 = 0;
        let mut frames: Vec<StackFrame> = Vec::new();
        let first = self.backtrace_frame(0, pc)?;
        frames.push(first);
        assert(frames.deep_view() =~= seq![first.deep_view()]);
        let mut left: usize = MAX_BACKTRACE_FRAMES - 1;
        let ghost want = old(self)@.collect_backtrace();
        while left > 0 && is_plausible_frame_pointer(frame, previous)
            invariant
                left < MAX_BACKTRACE_FRAMES,
                frames@.len() == MAX_BACKTRACE_FRAMES - left,
                want == old(self)@.collect_backtrace(),
                want == self@.follow_frames(frame, previous, frames.deep_view(), left as nat),
            decreases left,
        {
            let (next, ret) = match self.follow(frame)? {
                Some(link) => link,
                None => {
                    return Ok(frames);
                },
            };
            let shape = self.backtrace_frame(frames.len(), ret.saturating_sub(1))?;
            let ghost before = frames.deep_view();
            frames.push(shape);
            assert(frames.deep_view() =~= before.push(shape.deep_view()));
            previous = frame;
            frame = next;
            left = left - 1;
        }
        Ok(frames)
    }

    /// Prints a backtrace.
    pub fn print_backtrace(&mut self) -> (r: Result<(), Pause>)
        ensures
            ran(r, final(self)@, old(self)@.print_backtrace()),
    {
        self.talk.say("Backtrace:");
        let frames = self.collect_backtrace()?;
        let ghost shapes = frames.deep_view();
        let ghost start = self@;
        assert(shapes.take(0).len() == 0);
        for i in 0..frames.len()
            invariant
                shapes == frames.deep_view(),
                self@ == start.say_frames(shapes.take(i as int)),
        {
            assert(shapes.take(i + 1).drop_last() =~= shapes.take(i as int));
            assert(shapes.take(i + 1).last() == frames@[i as int].deep_view());
            let line = frame_text(&frames[i]);
            self.talk.say(line.as_str());
        }
        assert(shapes.take(shapes.len() as int) =~= shapes);
        Ok(())
    }
}

/// Frames are numbered from zero, and none is a guess.
pub open spec fn numbered(frames: Seq<FrameShape>) -> bool {
    forall|i: int|
        0 <= i < frames.len() ==> (#[trigger] frames[i]).index == i && !frames[i].approximate
}

/// Following frame pointers adds frames at the end, as many as are left at most.
proof fn lemma_follow_frames(
    s: PtraceShape,
    frame: u64,
    previous: u64,
    found: Seq<FrameShape>,
    left: nat,
)
    requires
        numbered(found),
    ensures
        s.follow_frames(frame, previous, found, left) matches Flow::Done(frames, _) ==> {
            &&& frames.len() <= found.len() + left
            &&& found.is_prefix_of(frames)
            &&& numbered(frames)
        },
    decreases left,
{
    if left > 0 && plausible_frame(frame, previous) {
        if let Flow::Done(Some((next, ret)), s1) = s.follow(frame) {
            if let Flow::Done(shape, s2) = s1.frame(found.len(), one_back(ret)) {
                let more = found.push(shape);
                assert forall|i: int| 0 <= i < more.len() implies (#[trigger] more[i]).index == i
                    && !more[i].approximate by {
                    if i < found.len() {
                        assert(more[i] == found[i]);
                    }
                }
                lemma_follow_frames(s2, next, frame, more, (left - 1) as nat);
            }
        }
    }
}

/// A backtrace starts with the frame of the program counter and has at most the number of
/// frames that is shown. The frames are numbered from zero, and none is marked as a guess.
pub proof fn lemma_backtrace(s: PtraceShape)
    ensures
        s.collect_backtrace() matches Flow::Done(frames, _) ==> {
            &&& 1 <= frames.len() <= MAX_BACKTRACE_FRAMES
            &&& s.get_pc() matches Flow::Done(pc, _) && frames[0].pc == pc
            &&& numbered(frames)
        },
{
    if let Flow::Done(pc, s1) = s.get_pc() {
        if let Flow::Done(frame, s2) = s1.get_register(Register::Rbp) {
            if let Flow::Done(first, s3) = s2.frame(0, pc) {
                let left = (MAX_BACKTRACE_FRAMES - 1) as nat;
                lemma_follow_frames(s3, frame, 0, seq![first], left);
                if let Flow::Done(frames, _) = s3.follow_frames(frame, 0, seq![first], left) {
                    assert(frames.take(1)[0] == first);
                }
            }
        }
    }
}

} // verus!
