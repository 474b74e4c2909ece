//! What a scan of the stack finds: every word that returns into a function of the program.
use vstd::prelude::*;

use crate::dialogue::{Flow, TalkShape};
use crate::dwarf::ImageShape;
use crate::elf_debug_info::known_function;
use crate::target::FrameShape;

use super::backtrace::{back_by, callers_in, frame_line, return_address};
use super::debugger::{location_of, thumb_addr, ArmShape};
use super::gdb_protocol::le_word_of;

verus! {

/// A word of a stack, by its number.
pub open spec fn stack_word(stack: Seq<u8>, i: int) -> u64 {
    le_word_of(stack.skip(4 * i)) as u64
}

/// An address lies in a function.
pub open spec fn in_function(image: ImageShape, addr: int) -> bool {
    0 <= addr && known_function(image, addr as u64) is Some
}

/// A word returns to a call at an address: the word is odd, and the address is the first that lies
/// in a function, of the even one before the word and those two and four bytes before that.
pub open spec fn returns_to(image: ImageShape, word: u64, pc: u64) -> bool {
    &&& word % 2 == 1
    &&& {
        let even = word - 1;
        ||| pc == even && in_function(image, even)
        ||| pc == even - 2 && !in_function(image, even) && in_function(image, even - 2)
        ||| pc == even - 4 && !in_function(image, even) && !in_function(image, even - 2)
            && in_function(image, even - 4)
    }
}

/// One of the words of a stack returns to a call at an address.
pub open spec fn stack_returns_to(image: ImageShape, stack: Seq<u8>, pc: u64) -> bool {
    exists|i: int|
        0 <= i && 4 * i + 4 <= stack.len() && returns_to(image, #[trigger] stack_word(stack, i), pc)
}

/// Resolving a word finds the call that it returns to.
proof fn lemma_resolves(image: ImageShape, word: u64, pc: u64)
    ensures
        (return_address(image, word) == Some(pc)) == returns_to(image, word, pc),
{
    let addr = thumb_addr(word);
    if word % 2 == 1 {
        assert(addr == word - 1);
        assert(addr >= 2 ==> back_by(addr, 2) == addr - 2);
        assert(addr >= 4 ==> back_by(addr, 4) == addr - 4);
    }
}

proof fn lemma_stack_words(image: ImageShape, stack: Seq<u8>, pc: u64)
    requires
        stack.len() >= 4,
    ensures
        stack_returns_to(image, stack, pc) == (returns_to(image, stack_word(stack, 0), pc)
            || stack_returns_to(image, stack.skip(4), pc)),
{
    let rest = stack.skip(4);
    assert forall|i: int| 0 <= i && 4 * i + 4 <= rest.len() implies stack_word(stack, i + 1)
        == #[trigger] stack_word(rest, i) by {
        assert(rest.skip(4 * i) =~= stack.skip(4 * (i + 1)));
    }
    if stack_returns_to(image, rest, pc) {
        let i = choose|i: int|
            0 <= i && 4 * i + 4 <= rest.len() && returns_to(
                image,
                #[trigger] stack_word(rest, i),
                pc,
            );
        assert(returns_to(image, stack_word(stack, i + 1), pc));
    }
    if stack_returns_to(image, stack, pc) {
        let i = choose|i: int|
            0 <= i && 4 * i + 4 <= stack.len() && returns_to(
                image,
                #[trigger] stack_word(stack, i),
                pc,
            );
        if i > 0 {
            assert(stack_word(stack, (i - 1) + 1) == stack_word(rest, i - 1));
            assert(returns_to(image, stack_word(rest, i - 1), pc));
        }
    }
    if returns_to(image, stack_word(stack, 0), pc) {
        let first = stack_word(stack, 0);
    }
}

proof fn lemma_scan(image: ImageShape, stack: Seq<u8>, found: Seq<u64>, pc: u64)
    requires
        found.len() < 16,
    ensures
        ({
            let all = callers_in(image, stack, found);
            &&& all.contains(pc) ==> found.contains(pc) || stack_returns_to(image, stack, pc)
            &&& found.contains(pc) ==> all.contains(pc)
            &&& all.len() < 15 && stack_returns_to(image, stack, pc) ==> all.contains(pc)
            &&& all.len() <= 15 && all.len() >= found.len()
        }),
    decreases stack.len(),
{
    let rest = stack.skip(4);
    if stack.len() >= 4 && found.len() < 15 {
        let word = stack_word(stack, 0);
        assert(stack.skip(0) =~= stack);
        lemma_stack_words(image, stack, pc);
        let now = return_address(image, word);
        lemma_resolves(image, word, pc);
        match now {
            Some(at) => {
                let next = if found.contains(at) {
                    found
                } else {
                    found.push(at)
                };
                lemma_scan(image, rest, next, pc);
                if found.contains(pc) && next != found {
                    let k = choose|k: int| 0 <= k < found.len() && found[k] == pc;
                    assert(next[k] == pc);
                }
                if next.contains(pc) && next != found {
                    let k = choose|k: int| 0 <= k < next.len() && next[k] == pc;
                    if k < found.len() {
                        assert(found[k] == pc);
                    }
                }
                if at == pc && next != found {
                    assert(next[found.len() as int] == pc);
                }
                assert(returns_to(image, word, pc) == (at == pc));
            },
            None => {
                lemma_scan(image, rest, found, pc);
                assert(!returns_to(image, word, pc));
            },
        }
    } else {
        if stack.len() < 4 {
            assert(!stack_returns_to(image, stack, pc));
        }
    }
}

/// The callers found on a stack are exactly the calls that its words return to, as long as there
/// are fewer than are shown; there are never more.
pub proof fn lemma_scan_finds_callers(image: ImageShape, stack: Seq<u8>)
    ensures
        ({
            let all = callers_in(image, stack, Seq::empty());
            &&& all.len() <= 15
            &&& forall|pc: u64| #[trigger] all.contains(pc) ==> stack_returns_to(image, stack, pc)
            &&& all.len() < 15 ==> forall|pc: u64| #[trigger]
                all.contains(pc) == stack_returns_to(image, stack, pc)
        }),
{
    let all = callers_in(image, stack, Seq::empty());
    lemma_scan(image, stack, Seq::empty(), 0);
    assert forall|pc: u64| #[trigger] all.contains(pc) implies stack_returns_to(image, stack, pc) by {
        lemma_scan(image, stack, Seq::empty(), pc);
    }
    if all.len() < 15 {
        assert forall|pc: u64| #[trigger] all.contains(pc) == stack_returns_to(
            image,
            stack,
            pc,
        ) by {
            lemma_scan(image, stack, Seq::empty(), pc);
        }
    }
}

/// A backtrace shows the program counter and then the callers found in the 2048 bytes from the stack
/// pointer on, in their order, each told by its place; where the stack cannot be read it
/// shows the program counter alone.
pub proof fn lemma_backtrace_shows_scan(s: ArmShape)
    ensures
        s.collect_backtrace() matches Flow::Done(frames, e) ==> {
            &&& s.arm_pc() matches Flow::Done(pc, s1)
            &&& s1.read_register(13) matches Flow::Done(sp, s2)
            &&& frames[0].pc == pc
            &&& s2.read_memory(sp, 2048) matches Flow::Done(stack, _) ==> {
                let callers = callers_in(s.image, stack, Seq::empty());
                &&& frames.len() == callers.len() + 1
                &&& forall|i: int|
                    0 <= i < callers.len() ==> (#[trigger] frames[i + 1]).pc == callers[i]
            }
            &&& s2.read_memory(sp, 2048) is Fail ==> frames.len() == 1
            &&& forall|i: int|
                0 <= i < frames.len() ==> (#[trigger] frames[i]).location == location_of(
                    s.image,
                    frames[i].pc,
                )
        },
{
    if let Flow::Done(_, s1) = s.arm_pc() {
        if let Flow::Done(_, s2) = s1.arm_sp() {
            assert(s2.image == s.image);
        }
    }
}

/// The callers that were found before stay in front, and a later caller is found later on the
/// stack.
proof fn lemma_scan_order(image: ImageShape, stack: Seq<u8>, found: Seq<u64>, i: int, j: int)
    requires
        found.len() < 16,
        found.no_duplicates(),
    ensures
        ({
            let all = callers_in(image, stack, found);
            &&& all.no_duplicates()
            &&& all.len() >= found.len()
            &&& all.take(found.len() as int) == found
            &&& found.len() <= i < j < all.len() ==> comes_before(image, stack, all[i], all[j])
        }),
    decreases stack.len(),
{
    let all = callers_in(image, stack, found);
    if stack.len() < 4 || found.len() + 1 >= 16 {
        assert(all.take(found.len() as int) =~= found);
    } else {
        let word = stack_word(stack, 0);
        assert(stack.skip(0) =~= stack);
        let rest = stack.skip(4);
        let now = return_address(image, word);
        let next = match now {
            Some(at) => if found.contains(at) {
                found
            } else {
                found.push(at)
            },
            None => found,
        };
        lemma_scan_order(image, rest, next, i, j);
        assert(all.take(found.len() as int) =~= all.take(next.len() as int).take(
            found.len() as int,
        ));
        assert(next.take(found.len() as int) =~= found);
        if found.len() <= i < j < all.len() {
            lemma_resolves(image, word, all[i]);
            lemma_resolves(image, word, all[j]);
            if now == Some(all[j]) {
                let k = choose|k: int| 0 <= k < next.len() && next[k] == all[j];
                assert(next.contains(all[j])) by {
                    if !found.contains(all[j]) {
                        assert(next[found.len() as int] == all[j]);
                    }
                }
                assert(all.take(next.len() as int)[k] == all[k]);
                assert(all[k] == all[j]);
                assert(false);
            }
            assert(!returns_to(image, word, all[j]));
            if i < next.len() {
                assert(all.take(next.len() as int)[i] == all[i]);
                assert(returns_to(image, stack_word(stack, 0), all[i]));
                assert(comes_before_at(image, stack, all[i], all[j], 0));
            } else {
                assert(comes_before(image, rest, all[i], all[j]));
                let a = choose|a: int| comes_before_at(image, rest, all[i], all[j], a);
                assert forall|b: int| 0 <= b && 4 * b + 4 <= rest.len() implies stack_word(
                    stack,
                    b + 1,
                ) == #[trigger] stack_word(rest, b) by {
                    assert(rest.skip(4 * b) =~= stack.skip(4 * (b + 1)));
                }
                assert forall|b: int| 0 <= b <= a + 1 implies !returns_to(
                    image,
                    #[trigger] stack_word(stack, b),
                    all[j],
                ) by {
                    if b > 0 {
                        assert(stack_word(stack, (b - 1) + 1) == stack_word(rest, b - 1));
                    }
                }
                assert(stack_word(stack, a + 1) == stack_word(rest, a));
                assert(comes_before_at(image, stack, all[i], all[j], a + 1));
            }
        }
    }
}

/// A word of a stack returns to one call, and neither it nor one below it returns to another.
pub open spec fn comes_before_at(
    image: ImageShape,
    stack: Seq<u8>,
    first: u64,
    second: u64,
    a: int,
) -> bool {
    &&& 0 <= a && 4 * a + 4 <= stack.len()
    &&& returns_to(image, stack_word(stack, a), first)
    &&& forall|b: int|
        0 <= b <= a ==> !returns_to(image, #[trigger] stack_word(stack, b), second)
}

/// A call is returned to by a word of a stack that lies below every word that returns to another.
pub open spec fn comes_before(image: ImageShape, stack: Seq<u8>, first: u64, second: u64) -> bool {
    exists|a: int| comes_before_at(image, stack, first, second, a)
}

/// The callers that a scan finds are in the order of the words that return to them.
pub proof fn lemma_callers_in_order(image: ImageShape, stack: Seq<u8>, i: int, j: int)
    requires
        0 <= i < j < callers_in(image, stack, Seq::empty()).len(),
    ensures
        comes_before(
            image,
            stack,
            callers_in(image, stack, Seq::empty())[i],
            callers_in(image, stack, Seq::empty())[j],
        ),
{
    lemma_scan_order(image, stack, Seq::empty(), i, j);
}

/// A printed backtrace is its frames, each on a line of its own.
pub proof fn lemma_frames_are_printed(s: ArmShape, frames: Seq<FrameShape>)
    ensures
        s.say_frames(frames) == (ArmShape {
            talk: TalkShape {
                out: s.talk.out + Seq::new(
                    frames.len(),
                    |i: int| frame_line(frames[i]) + "\n"@,
                ).flatten_alt(),
                ..s.talk
            },
            ..s
        }),
    decreases frames.len(),
{
    let lines = Seq::new(frames.len(), |i: int| frame_line(frames[i]) + "\n"@);
    if frames.len() == 0 {
        assert(s.talk.out + lines.flatten_alt() =~= s.talk.out);
    } else {
        let less = frames.drop_last();
        lemma_frames_are_printed(s, less);
        let less_lines = Seq::new(less.len(), |i: int| frame_line(less[i]) + "\n"@);
        assert(lines.drop_last() =~= less_lines);
        assert(s.talk.out + lines.flatten_alt() =~= s.talk.out + less_lines.flatten_alt()
            + frame_line(frames.last()) + "\n"@);
    }
}

} // verus!
