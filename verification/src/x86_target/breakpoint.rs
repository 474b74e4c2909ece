//! Software breakpoints: an instruction byte that is replaced by a trap.
use vstd::prelude::*;

use crate::dialogue::{Call, CallShape, FaultShape, Flow, Pause, Talk, TalkShape};

verus! {

/// The instruction that traps.
pub const BREAKPOINT_OPCODE: u8 = 0xCC;

/// A breakpoint: its address, whether it is in memory, and the byte that it replaces there.
#[derive(Clone, Copy, Debug, PartialEq, Eq, Structural)]
pub struct Breakpoint {
    pub addr: u64,
    pub enabled_status: bool,
    pub saved_data: u8,
}

impl DeepView for Breakpoint {
    type V = Breakpoint;

    open spec fn deep_view(&self) -> Breakpoint {
        *self
    }
}

// ---------------------------------------------------------------------------
// Words

/// The lowest byte of a word.
pub open spec fn low_byte(word: i64) -> u8 {
    (word & 0xff) as u8
}

/// A word with another lowest byte.
pub open spec fn with_low_byte(word: i64, byte: u8) -> i64 {
    (word & !0xffi64) | (byte as i64)
}

/// The lowest byte of a word.
pub fn byte_of(word: i64) -> (r: u8)
    ensures
        r == low_byte(word),
{
    assert(word as u8 == (word & 0xff) as u8) by (bit_vector);
    #[verifier::truncate]
    (word as u8)
}

/// A word with another lowest byte.
pub fn replace_byte(word: i64, byte: u8) -> (r: i64)
    ensures
        r == with_low_byte(word, byte),
{
    (word & !0xff) | (byte as i64)
}

/// A byte that was put into a word is in it, and putting the old one back gives the old word.
pub proof fn lemma_low_byte(word: i64, byte: u8)
    ensures
        low_byte(with_low_byte(word, byte)) == byte,
        with_low_byte(with_low_byte(word, byte), low_byte(word)) == word,
{
    assert((((word & !0xffi64) | (byte as i64)) & 0xff) as u8 == byte) by (bit_vector);
    assert((((word & !0xffi64) | (byte as i64)) & !0xffi64) | (((word & 0xff) as u8) as i64) == word)
        by (bit_vector);
}

// ---------------------------------------------------------------------------
// One breakpoint

/// How changing a breakpoint ends: the breakpoint may have changed although it failed.
pub enum Changed {
    Ask(CallShape, Breakpoint, TalkShape),
    Fail(FaultShape, Breakpoint, TalkShape),
    Done(Breakpoint, TalkShape),
}

impl Breakpoint {
    /// Putting the trap into memory and keeping the byte that it replaces.
    pub open spec fn enable_of(self, t: TalkShape) -> Changed {
        match t.peek(self.addr) {
            Flow::Ask(call, t) => Changed::Ask(call, self, t),
            Flow::Fail(e, t) => Changed::Fail(e, self, t),
            Flow::Done(word, t) => {
                let saved = Breakpoint { saved_data: low_byte(word), ..self };
                match t.order(
                    CallShape::Poke(self.addr, with_low_byte(word, BREAKPOINT_OPCODE)),
                ) {
                    Flow::Ask(call, t) => Changed::Ask(call, saved, t),
                    Flow::Fail(e, t) => Changed::Fail(e, saved, t),
                    Flow::Done(_, t) => Changed::Done(
                        Breakpoint { enabled_status: true, ..saved },
                        t,
                    ),
                }
            },
        }
    }

    /// Putting the byte back into memory.
    pub open spec fn disable_of(self, t: TalkShape) -> Changed {
        match t.peek(self.addr) {
            Flow::Ask(call, t) => Changed::Ask(call, self, t),
            Flow::Fail(e, t) => Changed::Fail(e, self, t),
            Flow::Done(word, t) => match t.order(
                CallShape::Poke(self.addr, with_low_byte(word, self.saved_data)),
            ) {
                Flow::Ask(call, t) => Changed::Ask(call, self, t),
                Flow::Fail(e, t) => Changed::Fail(e, self, t),
                Flow::Done(_, t) => Changed::Done(
                    Breakpoint { enabled_status: false, ..self },
                    t,
                ),
            },
        }
    }
}

/// Changing a breakpoint has taken the given course.
pub open spec fn changed(r: Result<(), Pause>, bp: Breakpoint, t: TalkShape, c: Changed) -> bool {
    match c {
        Changed::Ask(call, b, end) => bp == b && t == end && (r matches Err(Pause::Ask(x)) && x@
            == call),
        Changed::Fail(e, b, end) => bp == b && t == end && (r matches Err(Pause::Fail(x)) && x@
            == e),
        Changed::Done(b, end) => bp == b && t == end && r is Ok,
    }
}

impl Breakpoint {
    /// A breakpoint that is not in memory yet.
    pub fn new(addr: u64) -> (r: Self)
        ensures
            r == (Breakpoint { addr, enabled_status: false, saved_data: 0 }),
    {
        Breakpoint { addr, enabled_status: false, saved_data: 0 }
    }

    /// Puts the trap into memory and keeps the byte that it replaces.
    pub fn enable(&mut self, talk: &mut Talk) -> (r: Result<(), Pause>)
        ensures
            changed(r, *final(self), final(talk)@, old(self).enable_of(old(talk)@)),
    {
        let word: i64 = talk.peek(self.addr)?;
        self.saved_data = byte_of(word);
        talk.order(Call::Poke(self.addr, replace_byte(word, BREAKPOINT_OPCODE)))?;
        self.enabled_status = true;
        Ok(())
    }

    /// Puts the byte back into memory.
    pub fn disable(&mut self, talk: &mut Talk) -> (r: Result<(), Pause>)
        ensures
            changed(r, *final(self), final(talk)@, old(self).disable_of(old(talk)@)),
    {
        let word: i64 = talk.peek(self.addr)?;
        talk.order(Call::Poke(self.addr, replace_byte(word, self.saved_data)))?;
        self.enabled_status = false;
        Ok(())
    }
}

// ---------------------------------------------------------------------------
// Tables of breakpoints

/// The breakpoint at an address.
pub open spec fn bp_at(table: Seq<Breakpoint>, addr: u64) -> Option<Breakpoint>
    decreases table.len(),
{
    if table.len() == 0 {
        None
    } else if table[0].addr == addr {
        Some(table[0])
    } else {
        bp_at(table.drop_first(), addr)
    }
}

/// A table with a breakpoint in the place of the one at its address, or at the end.
pub open spec fn with_bp(table: Seq<Breakpoint>, bp: Breakpoint) -> Seq<Breakpoint>
    decreases table.len(),
{
    if table.len() == 0 {
        seq![bp]
    } else if table[0].addr == bp.addr {
        seq![bp] + table.drop_first()
    } else {
        seq![table[0]] + with_bp(table.drop_first(), bp)
    }
}

/// A table without the breakpoint at an address.
pub open spec fn without_bp(table: Seq<Breakpoint>, addr: u64) -> Seq<Breakpoint>
    decreases table.len(),
{
    if table.len() == 0 {
        table
    } else if table[0].addr == addr {
        table.drop_first()
    } else {
        seq![table[0]] + without_bp(table.drop_first(), addr)
    }
}

/// The addresses in a table are different.
pub open spec fn different_addrs(table: Seq<Breakpoint>) -> bool {
    forall|i: int, j: int|
        0 <= i < j < table.len() ==> (#[trigger] table[i]).addr != (#[trigger] table[j]).addr
}

/// The place of the first breakpoint at an address.
fn position(table: &Vec<Breakpoint>, addr: u64) -> (r: Option<usize>)
    ensures
        match r {
            Some(i) => i < table@.len() && table@[i as int].addr == addr && forall|j: int|
                0 <= j < i ==> (#[trigger] table@[j]).addr != addr,
            None => forall|j: int| 0 <= j < table@.len() ==> (#[trigger] table@[j]).addr != addr,
        },
{
    for i in 0..table.len()
        invariant
            forall|j: int| 0 <= j < i ==> (#[trigger] table@[j]).addr != addr,
    {
        if table[i].addr == addr {
            return Some(i);
        }
    }
    None
}

/// What the functions on tables give at the first place of an address.
proof fn lemma_at(table: Seq<Breakpoint>, addr: u64, i: int)
    requires
        0 <= i < table.len(),
        table[i].addr == addr,
        forall|j: int| 0 <= j < i ==> (#[trigger] table[j]).addr != addr,
    ensures
        bp_at(table, addr) == Some(table[i]),
        without_bp(table, addr) == table.remove(i),
        forall|bp: Breakpoint|
            bp.addr == addr ==> #[trigger] with_bp(table, bp) == table.update(i, bp),
    decreases i,
{
    if i > 0 {
        let rest = table.drop_first();
        assert(rest[i - 1].addr == addr);
        assert forall|j: int| 0 <= j < i - 1 implies (#[trigger] rest[j]).addr != addr by {
            assert(rest[j] == table[j + 1]);
        }
        lemma_at(rest, addr, i - 1);
        assert(seq![table[0]] + rest.remove(i - 1) =~= table.remove(i));
        assert forall|bp: Breakpoint| bp.addr == addr implies #[trigger] with_bp(table, bp)
            == table.update(i, bp) by {
            assert(with_bp(rest, bp) == rest.update(i - 1, bp));
            assert(seq![table[0]] + rest.update(i - 1, bp) =~= table.update(i, bp));
        }
    } else {
        assert(table.drop_first() =~= table.remove(0));
        assert forall|bp: Breakpoint| bp.addr == addr implies #[trigger] with_bp(table, bp)
            == table.update(0, bp) by {
            assert(seq![bp] + table.drop_first() =~= table.update(0, bp));
        }
    }
}

/// What the functions on tables give where an address is not in one.
proof fn lemma_not_at(table: Seq<Breakpoint>, addr: u64)
    requires
        forall|j: int| 0 <= j < table.len() ==> (#[trigger] table[j]).addr != addr,
    ensures
        bp_at(table, addr) is None,
        without_bp(table, addr) == table,
        forall|bp: Breakpoint|
            bp.addr == addr ==> #[trigger] with_bp(table, bp) == table.push(bp),
    decreases table.len(),
{
    if table.len() > 0 {
        let rest = table.drop_first();
        assert forall|j: int| 0 <= j < rest.len() implies (#[trigger] rest[j]).addr != addr by {
            assert(rest[j] == table[j + 1]);
        }
        lemma_not_at(rest, addr);
        assert(seq![table[0]] + rest =~= table);
        assert forall|bp: Breakpoint| bp.addr == addr implies #[trigger] with_bp(table, bp)
            == table.push(bp) by {
            assert(with_bp(rest, bp) == rest.push(bp));
            assert(seq![table[0]] + rest.push(bp) =~= table.push(bp));
        }
    } else {
        assert forall|bp: Breakpoint| bp.addr == addr implies #[trigger] with_bp(table, bp)
            == table.push(bp) by {
            assert(seq![bp] =~= table.push(bp));
        }
    }
}

/// The breakpoint at an address.
pub fn find_bp(table: &Vec<Breakpoint>, addr: u64) -> (r: Option<Breakpoint>)
    ensures
        r == bp_at(table@, addr),
{
    match position(table, addr) {
        Some(i) => {
            proof {
                lemma_at(table@, addr, i as int);
            }
            Some(table[i])
        },
        None => {
            proof {
                lemma_not_at(table@, addr);
            }
            None
        },
    }
}

/// Puts a breakpoint in the place of the one at its address, or at the end.
pub fn put_bp(table: &mut Vec<Breakpoint>, bp: Breakpoint)
    ensures
        final(table)@ == with_bp(old(table)@, bp),
{
    match position(table, bp.addr) {
        Some(i) => {
            proof {
                lemma_at(table@, bp.addr, i as int);
            }
            table.set(i, bp);
        },
        None => {
            proof {
                lemma_not_at(table@, bp.addr);
            }
            table.push(bp);
        },
    }
}

/// Takes the breakpoint at an address out.
pub fn drop_bp(table: &mut Vec<Breakpoint>, addr: u64)
    ensures
        final(table)@ == without_bp(old(table)@, addr),
{
    match position(table, addr) {
        Some(i) => {
            proof {
                lemma_at(table@, addr, i as int);
            }
            table.remove(i);
        },
        None => {
            proof {
                lemma_not_at(table@, addr);
            }
        },
    }
}

/// A table with different addresses stays one when a breakpoint is put in or taken out; the one
/// put in is found, the one taken out is not, and the others are found as before.
pub proof fn lemma_table(table: Seq<Breakpoint>, bp: Breakpoint, other: u64)
    requires
        different_addrs(table),
    ensures
        different_addrs(with_bp(table, bp)),
        different_addrs(without_bp(table, bp.addr)),
        bp_at(with_bp(table, bp), bp.addr) == Some(bp),
        bp_at(without_bp(table, bp.addr), bp.addr) is None,
        other != bp.addr ==> bp_at(with_bp(table, bp), other) == bp_at(table, other),
        other != bp.addr ==> bp_at(without_bp(table, bp.addr), other) == bp_at(table, other),
    decreases table.len(),
{
    if table.len() > 0 {
        let rest = table.drop_first();
        assert(different_addrs(rest)) by {
            assert forall|i: int, j: int| 0 <= i < j < rest.len() implies (#[trigger] rest[i]).addr
                != (#[trigger] rest[j]).addr by {
                assert(rest[i] == table[i + 1] && rest[j] == table[j + 1]);
            }
        }
        lemma_table(rest, bp, other);
        if table[0].addr == bp.addr {
            let more = seq![bp] + rest;
            assert(more.drop_first() =~= rest);
            assert forall|i: int, j: int| 0 <= i < j < more.len() implies (#[trigger] more[i]).addr
                != (#[trigger] more[j]).addr by {
                assert(table[i].addr != table[j].addr);
                assert(more[j] == table[j]);
            }
            assert forall|j: int| 0 <= j < rest.len() implies (#[trigger] rest[j]).addr
                != bp.addr by {
                assert(rest[j] == table[j + 1]);
                assert(table[0].addr != table[j + 1].addr);
            }
            lemma_not_at(rest, bp.addr);
        } else {
            let more = seq![table[0]] + with_bp(rest, bp);
            let less = seq![table[0]] + without_bp(rest, bp.addr);
            assert(more.drop_first() =~= with_bp(rest, bp));
            assert(less.drop_first() =~= without_bp(rest, bp.addr));
            lemma_addrs_of_with(rest, bp);
            assert forall|i: int, j: int| 0 <= i < j < more.len() implies (#[trigger] more[i]).addr
                != (#[trigger] more[j]).addr by {
                assert(more[j] == with_bp(rest, bp)[j - 1]);
                if i > 0 {
                    assert(more[i] == with_bp(rest, bp)[i - 1]);
                } else if with_bp(rest, bp)[j - 1].addr != bp.addr {
                    let k = choose|k: int|
                        0 <= k < rest.len() && (#[trigger] rest[k]).addr == with_bp(rest, bp)[j
                            - 1].addr;
                    assert(rest[k] == table[k + 1]);
                    assert(table[0].addr != table[k + 1].addr);
                }
            }
            assert forall|i: int, j: int| 0 <= i < j < less.len() implies (#[trigger] less[i]).addr
                != (#[trigger] less[j]).addr by {
                assert(less[j] == without_bp(rest, bp.addr)[j - 1]);
                if i > 0 {
                    assert(less[i] == without_bp(rest, bp.addr)[i - 1]);
                } else {
                    let k = choose|k: int|
                        0 <= k < rest.len() && (#[trigger] rest[k]).addr == without_bp(
                            rest,
                            bp.addr,
                        )[j - 1].addr;
                    assert(rest[k] == table[k + 1]);
                    assert(table[0].addr != table[k + 1].addr);
                }
            }
        }
    } else {
        assert(bp_at(seq![bp].drop_first(), other) is None);
    }
}

/// The addresses in a changed table come from the old one, but for the one put in.
proof fn lemma_addrs_of_with(table: Seq<Breakpoint>, bp: Breakpoint)
    ensures
        forall|i: int|
            0 <= i < with_bp(table, bp).len() ==> (#[trigger] with_bp(table, bp)[i]).addr == bp.addr
                || exists|k: int|
                0 <= k < table.len() && (#[trigger] table[k]).addr == with_bp(table, bp)[i].addr,
        forall|i: int|
            0 <= i < without_bp(table, bp.addr).len() ==> exists|k: int|
                0 <= k < table.len() && (#[trigger] table[k]).addr == (#[trigger] without_bp(
                    table,
                    bp.addr,
                )[i]).addr,
    decreases table.len(),
{
    if table.len() > 0 {
        let rest = table.drop_first();
        lemma_addrs_of_with(rest, bp);
        assert forall|i: int| 0 <= i < with_bp(table, bp).len() implies (#[trigger] with_bp(
            table,
            bp,
        )[i]).addr == bp.addr || exists|k: int|
            0 <= k < table.len() && (#[trigger] table[k]).addr == with_bp(table, bp)[i].addr by {
            if table[0].addr == bp.addr {
                if i > 0 {
                    assert(table[i].addr == with_bp(table, bp)[i].addr);
                }
            } else if i == 0 {
                assert(table[0].addr == with_bp(table, bp)[i].addr);
            } else {
                let inner = with_bp(rest, bp)[i - 1];
                assert(with_bp(table, bp)[i] == inner);
                if inner.addr != bp.addr {
                    let k = choose|k: int|
                        0 <= k < rest.len() && (#[trigger] rest[k]).addr == inner.addr;
                    assert(table[k + 1].addr == inner.addr);
                }
            }
        }
        assert forall|i: int| 0 <= i < without_bp(table, bp.addr).len() implies exists|k: int|
            0 <= k < table.len() && (#[trigger] table[k]).addr == (#[trigger] without_bp(
                table,
                bp.addr,
            )[i]).addr by {
            if table[0].addr == bp.addr {
                assert(table[i + 1].addr == without_bp(table, bp.addr)[i].addr);
            } else if i == 0 {
                assert(table[0].addr == without_bp(table, bp.addr)[i].addr);
            } else {
                let inner = without_bp(rest, bp.addr)[i - 1];
                assert(without_bp(table, bp.addr)[i] == inner);
                let k = choose|k: int|
                    0 <= k < rest.len() && (#[trigger] rest[k]).addr == inner.addr;
                assert(table[k + 1].addr == inner.addr);
            }
        }
    }
}

} // verus!
