//! The table that gives the offsets of a unit's range lists by their numbers.
use vstd::prelude::*;

verus! {

/// The number that bytes write, the most significant first.
pub open spec fn big_number(bytes: Seq<u8>) -> nat
    decreases bytes.len(),
{
    if bytes.len() == 0 {
        0
    } else {
        256 * big_number(bytes.drop_last()) + bytes.last() as nat
    }
}

/// The number that bytes write in a byte order.
pub open spec fn number_in(bytes: Seq<u8>, little_endian: bool) -> nat {
    if little_endian {
        big_number(bytes.reverse())
    } else {
        big_number(bytes)
    }
}

/// How many numbers a count of bytes can write.
spec fn numbers_of(count: nat) -> nat
    decreases count,
{
    if count == 0 {
        1
    } else {
        256 * numbers_of((count - 1) as nat)
    }
}

/// Bytes write less than the count of numbers that they can write.
proof fn lemma_number_fits(bytes: Seq<u8>)
    ensures
        big_number(bytes) < numbers_of(bytes.len()),
    decreases bytes.len(),
{
    if bytes.len() > 0 {
        lemma_number_fits(bytes.drop_last());
    }
}

/// Eight bytes or fewer write a number of 64 bits.
proof fn lemma_word_fits(bytes: Seq<u8>)
    requires
        bytes.len() <= 8,
    ensures
        big_number(bytes) <= u64::MAX,
{
    lemma_number_fits(bytes);
    reveal_with_fuel(numbers_of, 9);
}

/// Reads the number of `count` bytes from `at` on.
fn read_number(data: &[u8], at: usize, count: usize, little_endian: bool) -> (r: u64)
    requires
        at + count <= data@.len(),
        count <= 8,
    ensures
        r == number_in(data@.subrange(at as int, at + count), little_endian),
{
    let ghost bytes = data@.subrange(at as int, at + count);
    let ghost word = if little_endian {
        bytes.reverse()
    } else {
        bytes
    };
    let end: usize = data.len();
    let mut value: u64 = 0;
    assert(word.take(0).len() == 0);
    for i in 0..count
        invariant
            end == data@.len(),
            at + count <= end,
            count <= 8,
            bytes == data@.subrange(at as int, at + count),
            word == (if little_endian {
                bytes.reverse()
            } else {
                bytes
            }),
            value == big_number(word.take(i as int)),
    {
        let byte: u8 = if little_endian {
            data[at + (count - 1 - i)]
        } else {
            data[at + i]
        };
        assert(byte == word[i as int]);
        assert(word.take(i + 1).drop_last() =~= word.take(i as int));
        assert(word.take(i + 1).last() == byte);
        proof {
            lemma_word_fits(word.take(i + 1));
        }
        value = 256 * value + byte as u64;
    }
    assert(word.take(count as int) =~= word);
    value
}

/// The part of the range list section that belongs to a unit: the section's bytes and their
/// order, where the unit's table begins in it, and whether the unit writes offsets in eight
/// bytes instead of four.
#[derive(Clone, Copy, Debug)]
pub struct RangeTable<'a> {
    pub data: &'a [u8],
    pub little_endian: bool,
    pub base: u64,
    pub wide: bool,
}

/// The table of a unit, as mathematical values.
#[verifier::ext_equal]
pub struct TableShape {
    pub data: Seq<u8>,
    pub little_endian: bool,
    pub base: u64,
    pub wide: bool,
}

impl<'a> View for RangeTable<'a> {
    type V = TableShape;

    open spec fn view(&self) -> TableShape {
        TableShape {
            data: self.data@,
            little_endian: self.little_endian,
            base: self.base,
            wide: self.wide,
        }
    }
}

impl TableShape {
    /// How many bytes an offset takes up.
    pub open spec fn word(self) -> int {
        if self.wide {
            8
        } else {
            4
        }
    }

    /// The offset of the range list of a number: what the table holds for that number, counted
    /// from the beginning of the table. There is none where the table does not go that far, or
    /// where the offset is too large for one.
    pub open spec fn offset(self, index: u64) -> Option<u64> {
        let at = self.base + index * self.word();
        if at + self.word() > self.data.len() {
            None
        } else {
            let sum = self.base + number_in(
                self.data.subrange(at, at + self.word()),
                self.little_endian,
            );
            if sum > usize::MAX {
                None
            } else {
                Some(sum as u64)
            }
        }
    }
}

impl<'a> RangeTable<'a> {
    /// The offset of the range list of a number.
    pub fn offset(&self, index: u64) -> (r: Option<u64>)
        ensures
            r == self@.offset(index),
    {
        let word: u64 = if self.wide {
            8
        } else {
            4
        };
        let end: u64 = self.data.len() as u64;
        let skip: u64 = match index.checked_mul(word) {
            Some(skip) => skip,
            None => {
                return None;
            },
        };
        if self.base > end || skip > end - self.base || word > end - self.base - skip {
            return None;
        }
        let at: usize = (self.base + skip) as usize;
        match self.base.checked_add(read_number(self.data, at, word as usize, self.little_endian)) {
            Some(sum) if sum <= usize::MAX as u64 => Some(sum),
            _ => None,
        }
    }
}

} // verus!
