//! The frames of a backtrace after the first are those of the callers, found by the chain of frame
//! pointers.
use vstd::prelude::*;

use crate::dialogue::{CallShape, Flow, ReplyShape};
use crate::target::FrameShape;

use super::backtrace::{plausible_frame, MAX_BACKTRACE_FRAMES};
use super::command_handler::next_word;
use super::debugger::PtraceShape;
use super::registers::Register;
use super::signal_handler::one_back;
use super::stops::{goes_on, is_code_by, lemma_just_told, lemma_told_stays, read_maps, was_told};
use super::world::{
    lemma_code_seen, lemma_goes_on, lemma_place_seen, lemma_register_read, lemma_saw_parts,
    lemma_word_read, place_of, saw, World,
};

verus! {

/// An address is executable by a memory map that was read.
pub open spec fn seen_as_code(s: PtraceShape, addr: u64) -> bool {
    exists|maps: Result<Seq<char>, Seq<char>>|
        #[trigger] read_maps(s, maps) && is_code_by(maps, s.program, addr)
}

/// The words that were read where a frame pointer points to: the frame pointer of the caller and,
/// behind it, a return address, which is executable.
pub open spec fn is_link(s: PtraceShape, frame: u64, next: i64, ret: i64) -> bool {
    &&& was_told(s, CallShape::Peek(frame), ReplyShape::Word(Ok(next)))
    &&& was_told(s, CallShape::Peek(next_word(frame)), ReplyShape::Word(Ok(ret)))
    &&& seen_as_code(s, ret as u64)
}

/// Frames are those of the callers from a frame pointer on: each frame pointer is plausible after
/// the one before it, and leads to the next one and to a return address; the frame stands one
/// byte before that.
pub open spec fn are_callers(
    s: PtraceShape,
    frame: u64,
    previous: u64,
    frames: Seq<FrameShape>,
) -> bool
    decreases frames.len(),
{
    frames.len() == 0 || {
        &&& plausible_frame(frame, previous)
        &&& exists|next: i64, ret: i64|
            #[trigger] is_link(s, frame, next, ret) && frames[0].pc == one_back(ret as u64)
                && are_callers(s, next as u64, frame, frames.drop_first())
    }
}

/// What leads to a caller stays when the talk goes on.
proof fn lemma_link_stays(s: PtraceShape, e: PtraceShape, frame: u64, next: i64, ret: i64)
    requires
        goes_on(s.talk, e.talk),
        e.program == s.program,
        is_link(s, frame, next, ret),
    ensures
        is_link(e, frame, next, ret),
{
    lemma_told_stays(s, e, CallShape::Peek(frame), ReplyShape::Word(Ok(next)));
    lemma_told_stays(s, e, CallShape::Peek(next_word(frame)), ReplyShape::Word(Ok(ret)));
    let maps = choose|maps: Result<Seq<char>, Seq<char>>|
        #[trigger] read_maps(s, maps) && is_code_by(maps, s.program, ret as u64);
    lemma_told_stays(s, e, CallShape::Maps, ReplyShape::File(maps));
    assert(read_maps(e, maps));
}

/// A frame pointer that can be followed is a link.
proof fn lemma_follow(s: PtraceShape, frame: u64) -> (r: (i64, i64))
    ensures
        goes_on(s.talk, s.follow(frame).state().talk),
        s.follow(frame).state().program == s.program,
        s.follow(frame) matches Flow::Done(Some((next, ret)), e) ==> {
            &&& is_link(e, frame, r.0, r.1)
            &&& next == r.0 as u64
            &&& ret == r.1 as u64
        },
{
    if let Flow::Done(next, s1) = s.peek(frame) {
        lemma_just_told(s, CallShape::Peek(frame));
        if let Flow::Done(ret, s2) = s1.peek(next_word(frame)) {
            lemma_just_told(s1, CallShape::Peek(next_word(frame)));
            lemma_told_stays(s1, s2, CallShape::Peek(frame), ReplyShape::Word(Ok(next)));
            if let Flow::Done(code, s3) = s2.is_code(ret as u64, false) {
                lemma_just_told(s2, CallShape::Maps);
                lemma_told_stays(s2, s3, CallShape::Peek(frame), ReplyShape::Word(Ok(next)));
                lemma_told_stays(
                    s2,
                    s3,
                    CallShape::Peek(next_word(frame)),
                    ReplyShape::Word(Ok(ret)),
                );
                let maps = s2.talk.replies[0]->File_0;
                assert(read_maps(s3, maps));
            }
            (next, ret)
        } else {
            (next, 0)
        }
    } else {
        (0, 0)
    }
}

/// Telling the place of a frame leaves what was heard, and which program it is.
proof fn lemma_frame_goes_on(s: PtraceShape, index: nat, pc: u64)
    ensures
        goes_on(s.talk, s.frame(index, pc).state().talk),
        s.frame(index, pc).state().program == s.program,
{
}

/// The first of some callers and the others are callers.
proof fn lemma_one_more_caller(
    e: PtraceShape,
    frame: u64,
    previous: u64,
    found: Seq<FrameShape>,
    shape: FrameShape,
    frames: Seq<FrameShape>,
    next: i64,
    ret: i64,
)
    requires
        plausible_frame(frame, previous),
        is_link(e, frame, next, ret),
        shape.pc == one_back(ret as u64),
        found.push(shape).is_prefix_of(frames),
        are_callers(e, next as u64, frame, frames.skip(found.len() as int + 1)),
    ensures
        found.is_prefix_of(frames),
        are_callers(e, frame, previous, frames.skip(found.len() as int)),
{
    let more = found.push(shape);
    let callers = frames.skip(found.len() as int);
    assert(found =~= more.take(found.len() as int));
    assert(frames.take(more.len() as int)[found.len() as int] == shape);
    assert(callers[0] == shape);
    assert(callers.drop_first() =~= frames.skip(more.len() as int));
    assert(found =~= frames.take(found.len() as int));
}

/// The frames that following frame pointers adds are those of the callers.
#[verifier::rlimit(60)]
#[verifier::spinoff_prover]
proof fn lemma_follow_frames(
    s: PtraceShape,
    frame: u64,
    previous: u64,
    found: Seq<FrameShape>,
    left: nat,
)
    ensures
        goes_on(s.talk, s.follow_frames(frame, previous, found, left).state().talk),
        s.follow_frames(frame, previous, found, left).state().program == s.program,
        s.follow_frames(frame, previous, found, left) matches Flow::Done(frames, e) ==> {
            &&& found.is_prefix_of(frames)
            &&& are_callers(e, frame, previous, frames.skip(found.len() as int))
        },
    decreases left,
{
    if left > 0 && plausible_frame(frame, previous) {
        let (next, ret) = lemma_follow(s, frame);
        if let Flow::Done(Some((up, back)), s1) = s.follow(frame) {
            lemma_frame_goes_on(s1, found.len(), one_back(back));
            if let Flow::Done(shape, s2) = s1.frame(found.len(), one_back(back)) {
                let more = found.push(shape);
                lemma_follow_frames(s2, up, frame, more, (left - 1) as nat);
                if let Flow::Done(frames, e) = s2.follow_frames(
                    up,
                    frame,
                    more,
                    (left - 1) as nat,
                ) {
                    lemma_link_stays(s1, e, frame, next, ret);
                    lemma_one_more_caller(e, frame, previous, found, shape, frames, next, ret);
                }
            }
        }
    }
    if let Flow::Done(frames, e) = s.follow_frames(frame, previous, found, left) {
        if frames == found {
            assert(frames.skip(found.len() as int).len() == 0);
            assert(found =~= frames.take(found.len() as int));
        }
    }
}

/// The frames of a backtrace after the first are those of the callers, from the frame pointer of
/// the process on. Each is one byte before a return address, which was found through a plausible
/// frame pointer and lies in executable memory.
pub proof fn lemma_backtrace_follows_frames(s: PtraceShape)
    ensures
        s.collect_backtrace() matches Flow::Done(frames, e) ==> {
            &&& s.get_pc() matches Flow::Done(pc, s1)
            &&& s1.get_register(Register::Rbp) matches Flow::Done(frame, _)
            &&& frames.len() > 0
            &&& frames[0].pc == pc
            &&& are_callers(e, frame, 0, frames.drop_first())
        },
{
    if let Flow::Done(pc, s1) = s.get_pc() {
        if let Flow::Done(frame, s2) = s1.get_register(Register::Rbp) {
            if let Flow::Done(first, s3) = s2.frame(0, pc) {
                let left = (MAX_BACKTRACE_FRAMES - 1) as nat;
                lemma_follow_frames(s3, frame, 0, seq![first], left);
                if let Flow::Done(frames, _) = s3.follow_frames(frame, 0, seq![first], left) {
                    assert(frames.take(1)[0] == first);
                    assert(frames.drop_first() =~= frames.skip(1));
                }
            }
        }
    }
}

// ---------------------------------------------------------------------------
// All callers are found

/// A frame pointer leads from one frame to the next: it is aligned and above the one before, the
/// word there is the next frame pointer, and the word behind it is an executable return address.
pub open spec fn leads_to(
    w: World,
    program: Seq<char>,
    frame: u64,
    previous: u64,
    next: u64,
    ret: u64,
) -> bool {
    &&& frame != 0 && frame % 8 == 0 && frame > previous && frame + 8 <= u64::MAX
    &&& w.holds(frame, next)
    &&& w.holds((frame + 8) as u64, ret)
    &&& ret != 0 && w.is_code(program, ret)
}

/// A frame pointer leads nowhere: it is not aligned or not above the one before, or one of the
/// words there cannot be read, or the return address is none.
pub open spec fn leads_nowhere(w: World, program: Seq<char>, frame: u64, previous: u64) -> bool {
    ||| frame == 0 || frame % 8 != 0 || frame <= previous
    ||| w.is_unreadable(frame)
    ||| frame + 8 <= u64::MAX && w.memory.dom().contains(frame) && (w.is_unreadable(
        (frame + 8) as u64,
    ) || exists|ret: u64|
        #[trigger] w.holds((frame + 8) as u64, ret) && (ret == 0 || !w.is_code(program, ret)))
}

/// The frame pointer before one of a chain; before the first one it is zero.
pub open spec fn frame_before(frames: Seq<u64>, k: int) -> u64 {
    if k == 0 {
        0
    } else {
        frames[k - 1]
    }
}

/// Frame pointers lead from one to the next, each to a return address.
pub open spec fn is_chain(w: World, program: Seq<char>, frames: Seq<u64>, rets: Seq<u64>) -> bool {
    &&& frames.len() == rets.len() + 1
    &&& forall|k: int| 0 <= k < rets.len() ==> #[trigger] links(w, program, frames, rets, k)
}

/// A frame pointer of a chain leads to the next one and to its return address.
pub open spec fn links(
    w: World,
    program: Seq<char>,
    frames: Seq<u64>,
    rets: Seq<u64>,
    k: int,
) -> bool {
    leads_to(w, program, frames[k], frame_before(frames, k), frames[k + 1], rets[k])
}

/// Following a frame pointer comes to where it leads.
proof fn lemma_follow_chain(s: PtraceShape, w: World, frame: u64, previous: u64, next: u64, ret: u64)
    ensures
        goes_on(s.talk, s.follow(frame).state().talk),
        s.follow(frame) matches Flow::Done(link, e) ==> {
            &&& e == (PtraceShape { talk: e.talk, ..s })
            &&& saw(s, e, w) && leads_to(w, s.program, frame, previous, next, ret) ==> link == Some(
                (next, ret),
            )
            &&& saw(s, e, w) && frame != 0 && frame % 8 == 0 && frame > previous && leads_nowhere(
                w,
                s.program,
                frame,
                previous,
            ) ==> link is None
        },
{
    let e = s.follow(frame).state();
    assert(s.peek(frame).state() == (PtraceShape { talk: s.peek(frame).state().talk, ..s }));
    assert(goes_on(s.talk, s.peek(frame).state().talk));
    if w.memory.dom().contains(frame) {
        lemma_word_read(s, frame, w);
    }
    if let Flow::Done(word, s1) = s.peek(frame) {
        let behind = next_word(frame);
        assert(goes_on(s1.talk, s1.peek(behind).state().talk));
        if w.memory.dom().contains(behind) {
            lemma_word_read(s1, behind, w);
        }
        if let Flow::Done(back, s2) = s1.peek(behind) {
            lemma_code_seen(s2, back as u64, false, w);
            assert(goes_on(s2.talk, e.talk));
            lemma_goes_on(s1, s2, e);
            lemma_goes_on(s, s1, e);
            if saw(s, e, w) {
                lemma_saw_parts(s, s1, e, w);
                lemma_saw_parts(s1, s2, e, w);
                if frame + 8 <= u64::MAX {
                    assert(behind == frame + 8);
                }
            }
        } else {
            assert(goes_on(s1.talk, e.talk));
            lemma_goes_on(s, s1, e);
            if saw(s, e, w) {
                lemma_saw_parts(s, s1, e, w);
            }
        }
    }
}

/// Following the frame pointers of a chain from one of them on adds the frames of the rest.
proof fn lemma_chain_followed(
    s: PtraceShape,
    w: World,
    frames: Seq<u64>,
    rets: Seq<u64>,
    k: int,
    found: Seq<FrameShape>,
    left: nat,
)
    requires
        is_chain(w, s.program, frames, rets),
        0 <= k <= rets.len(),
        left >= rets.len() - k,
        left > rets.len() - k ==> leads_nowhere(
            w,
            s.program,
            frames.last(),
            frame_before(frames, rets.len() as int),
        ),
    ensures
        ({
            let flow = s.follow_frames(frames[k], frame_before(frames, k), found, left);
            &&& goes_on(s.talk, flow.state().talk)
            &&& flow matches Flow::Done(all, e) ==> saw(s, e, w) ==> {
                &&& all.len() == found.len() + (rets.len() - k)
                &&& all.take(found.len() as int) == found
                &&& forall|i: int|
                    k <= i < rets.len() ==> {
                        let frame = #[trigger] all[found.len() + (i - k)];
                        frame.pc == rets[i] - 1 && frame.location == place_of(s, w, frame.pc)
                    }
            }
        }),
    decreases left,
{
    let previous = frame_before(frames, k);
    let flow = s.follow_frames(frames[k], previous, found, left);
    let e = flow.state();
    assert(found.take(found.len() as int) =~= found);
    if k < rets.len() {
        assert(links(w, s.program, frames, rets, k));
    }
    if left > 0 && plausible_frame(frames[k], previous) {
        let next = if k < rets.len() {
            frames[k + 1]
        } else {
            0
        };
        let ret = if k < rets.len() {
            rets[k]
        } else {
            0
        };
        lemma_follow_chain(s, w, frames[k], previous, next, ret);
        if let Flow::Done(link, s1) = s.follow(frames[k]) {
            if let Some((up, back)) = link {
                lemma_place_seen(s1, one_back(back), w);
                let s2 = s1.frame(found.len(), one_back(back)).state();
                assert(goes_on(s1.talk, s2.talk));
                lemma_goes_on(s, s1, s2);
                if let Flow::Done(shape, t) = s1.frame(found.len(), one_back(back)) {
                    lemma_follow_goes_on(s2, up, frames[k], found.push(shape), (left - 1) as nat);
                    lemma_same_place(s, s1, w);
                    lemma_same_place(s, s2, w);
                    assert(goes_on(s2.talk, e.talk));
                    lemma_goes_on(s, s2, e);
                    lemma_goes_on(s1, s2, e);
                    if flow is Done && saw(s, e, w) {
                        lemma_saw_parts(s, s1, e, w);
                        lemma_saw_parts(s1, s2, e, w);
                        assert(k < rets.len());
                        assert(up == frames[k + 1] && back == rets[k]);
                        let more = found.push(shape);
                        lemma_chain_followed(s2, w, frames, rets, k + 1, more, (left - 1) as nat);
                        let all = flow->Done_0;
                        assert(all.take(found.len() as int) =~= all.take(more.len() as int).take(
                            found.len() as int,
                        ));
                        assert(more.take(found.len() as int) =~= found);
                        assert forall|i: int| k <= i < rets.len() implies ({
                            let frame = #[trigger] all[found.len() + (i - k)];
                            frame.pc == rets[i] - 1 && frame.location == place_of(s, w, frame.pc)
                        }) by {
                            if i == k {
                                assert(all[found.len() as int] == all.take(
                                    more.len() as int,
                                )[found.len() as int]);
                            } else {
                                let frame = all[more.len() + (i - (k + 1))];
                                assert(frame.pc == rets[i] - 1);
                            }
                        }
                    }
                }
            }
        }
    }
}

/// Following frame pointers goes on with the talk and changes nothing else.
proof fn lemma_follow_goes_on(
    s: PtraceShape,
    frame: u64,
    previous: u64,
    found: Seq<FrameShape>,
    left: nat,
)
    ensures
        goes_on(s.talk, s.follow_frames(frame, previous, found, left).state().talk),
{
    lemma_follow_frames(s, frame, previous, found, left);
}

/// The frames are the first one and those of a chain.
pub open spec fn are_frames_of(
    s: PtraceShape,
    w: World,
    shown: Seq<FrameShape>,
    first: u64,
    rets: Seq<u64>,
) -> bool {
    &&& shown.len() == rets.len() + 1
    &&& shown[0].pc == first
    &&& forall|i: int| 0 <= i < rets.len() ==> (#[trigger] shown[i + 1]).pc == rets[i] - 1
    &&& forall|i: int|
        0 <= i < shown.len() ==> (#[trigger] shown[i]).location == place_of(s, w, shown[i].pc)
}

proof fn lemma_frames_after(
    s: PtraceShape,
    w: World,
    frames: Seq<u64>,
    rets: Seq<u64>,
    first: FrameShape,
)
    requires
        is_chain(w, s.program, frames, rets),
        rets.len() <= 63,
        rets.len() < 63 ==> leads_nowhere(
            w,
            s.program,
            frames.last(),
            frame_before(frames, rets.len() as int),
        ),
        first.location == place_of(s, w, first.pc),
    ensures
        s.follow_frames(frames[0], 0, seq![first], 63) matches Flow::Done(shown, e) ==> saw(s, e, w)
            ==> are_frames_of(s, w, shown, first.pc, rets),
{
    let flow = s.follow_frames(frames[0], 0, seq![first], 63);
    lemma_chain_followed(s, w, frames, rets, 0, seq![first], 63);
    if let Flow::Done(shown, e) = flow {
        if saw(s, e, w) {
            assert(shown[0] == shown.take(1)[0]);
            assert forall|i: int| 0 <= i < rets.len() implies (#[trigger] shown[i + 1]).pc
                == rets[i] - 1 && shown[i + 1].location == place_of(s, w, shown[i + 1].pc) by {
                let frame = shown[1 + (i - 0)];
                assert(frame.pc == rets[i] - 1);
            }
            assert forall|i: int| 0 <= i < shown.len() implies (#[trigger] shown[i]).location
                == place_of(s, w, shown[i].pc) by {
                if i > 0 {
                    assert(shown[(i - 1) + 1].location == place_of(s, w, shown[(i - 1) + 1].pc));
                }
            }
        }
    }
}

/// A backtrace follows the chain of frame pointers to its end, or until it is full: where the
/// frame pointers lead from that of the process on to return addresses, and the last one leads
/// nowhere, the frames are that of the program counter and then those one byte before each of the
/// return addresses, no fewer and no more. Each is told by its own place.
pub proof fn lemma_backtrace_is_whole(s: PtraceShape, w: World, frames: Seq<u64>, rets: Seq<u64>)
    requires
        is_chain(w, s.program, frames, rets),
        frames[0] == w.regs.rbp,
        rets.len() <= 63,
        rets.len() < 63 ==> leads_nowhere(
            w,
            s.program,
            frames.last(),
            frame_before(frames, rets.len() as int),
        ),
    ensures
        s.collect_backtrace() matches Flow::Done(shown, e) ==> saw(s, e, w) ==> are_frames_of(
            s,
            w,
            shown,
            w.regs.rip,
            rets,
        ),
{
    lemma_register_read(s, Register::Rip, w);
    if let Flow::Done(pc, s1) = s.get_pc() {
        lemma_register_read(s1, Register::Rbp, w);
        if let Flow::Done(frame, s2) = s1.get_register(Register::Rbp) {
            lemma_place_seen(s2, pc, w);
            if let Flow::Done(first, s3) = s2.frame(0, pc) {
                let flow = s3.follow_frames(frame, 0, seq![first], 63);
                let e = flow.state();
                assert(s.collect_backtrace() == flow);
                lemma_follow_goes_on(s3, frame, 0, seq![first], 63);
                lemma_goes_on(s2, s3, e);
                lemma_goes_on(s1, s2, e);
                if flow is Done && saw(s, e, w) {
                    lemma_saw_parts(s, s1, e, w);
                    lemma_saw_parts(s1, s2, e, w);
                    lemma_saw_parts(s2, s3, e, w);
                    lemma_same_place(s2, s3, w);
                    assert(first.location == place_of(s3, w, first.pc));
                    lemma_frames_after(s3, w, frames, rets, first);
                    lemma_same_places(s, s3, w, flow->Done_0, w.regs.rip, rets);
                }
            }
        }
    }
}

/// An address is called the same in two states with the same program.
proof fn lemma_same_place(s: PtraceShape, t: PtraceShape, w: World)
    requires
        t == (PtraceShape { talk: t.talk, ..s }),
    ensures
        forall|pc: u64| #[trigger] place_of(t, w, pc) == place_of(s, w, pc),
{
    reveal(place_of);
}

/// Frames that are told by their places in one state are so in another with the same program.
proof fn lemma_same_places(
    s: PtraceShape,
    t: PtraceShape,
    w: World,
    shown: Seq<FrameShape>,
    first: u64,
    rets: Seq<u64>,
)
    requires
        are_frames_of(t, w, shown, first, rets),
        t == (PtraceShape { talk: t.talk, ..s }),
    ensures
        are_frames_of(s, w, shown, first, rets),
{
    lemma_same_place(s, t, w);
}

} // verus!
