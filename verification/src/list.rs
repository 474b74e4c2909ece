//! Lists of numbers in which each occurs once.
//!
//! A list is walked in the same order every time, which a hash set is not: an operation that is
//! started again must take the same course, and a contract that says what is asked for one after
//! the other must say in which order.
use vstd::prelude::*;

verus! {

/// A list with a value at its end, if it was not in it.
pub open spec fn with_value(list: Seq<u64>, value: u64) -> Seq<u64> {
    if list.contains(value) {
        list
    } else {
        list.push(value)
    }
}

/// A list without the first occurrence of a value.
pub open spec fn without(list: Seq<u64>, value: u64) -> Seq<u64>
    decreases list.len(),
{
    if list.len() == 0 {
        list
    } else if list[0] == value {
        list.drop_first()
    } else {
        seq![list[0]] + without(list.drop_first(), value)
    }
}

/// The place of the first occurrence of a value.
fn position(list: &Vec<u64>, value: u64) -> (r: Option<usize>)
    ensures
        match r {
            Some(i) => i < list@.len() && list@[i as int] == value && forall|j: int|
                0 <= j < i ==> #[trigger] list@[j] != value,
            None => !list@.contains(value),
        },
{
    for i in 0..list.len()
        invariant
            forall|j: int| 0 <= j < i ==> #[trigger] list@[j] != value,
    {
        if list[i] == value {
            return Some(i);
        }
    }
    None
}

/// Whether a value is in a list.
pub fn has_value(list: &Vec<u64>, value: u64) -> (r: bool)
    ensures
        r == list@.contains(value),
{
    match position(list, value) {
        Some(i) => {
            assert(list@[i as int] == value);
            true
        },
        None => false,
    }
}

/// Appends a value that is not in a list.
pub fn push_new(list: &mut Vec<u64>, value: u64)
    ensures
        final(list)@ == with_value(old(list)@, value),
{
    if !has_value(list, value) {
        list.push(value);
    }
}

/// The first occurrence of a value is at a place before which it does not occur.
proof fn lemma_without_at(list: Seq<u64>, value: u64, i: int)
    requires
        0 <= i < list.len(),
        list[i] == value,
        forall|j: int| 0 <= j < i ==> #[trigger] list[j] != value,
    ensures
        without(list, value) == list.remove(i),
    decreases i,
{
    if i > 0 {
        let rest = list.drop_first();
        assert(rest[i - 1] == value);
        assert forall|j: int| 0 <= j < i - 1 implies #[trigger] rest[j] != value by {
            assert(rest[j] == list[j + 1]);
        }
        lemma_without_at(rest, value, i - 1);
        assert(seq![list[0]] + rest.remove(i - 1) =~= list.remove(i));
    } else {
        assert(list.drop_first() =~= list.remove(0));
    }
}

/// Nothing is taken from a list that does not have a value.
pub proof fn lemma_without_missing(list: Seq<u64>, value: u64)
    requires
        !list.contains(value),
    ensures
        without(list, value) == list,
    decreases list.len(),
{
    if list.len() > 0 {
        assert(list.contains(list[0]));
        assert forall|j: int| 0 <= j < list.drop_first().len() implies #[trigger] list.drop_first()[j]
            != value by {
            assert(list.contains(list[j + 1]));
        }
        lemma_without_missing(list.drop_first(), value);
        assert(seq![list[0]] + list.drop_first() =~= list);
    }
}

/// Takes the first occurrence of a value from a list.
pub fn remove_value(list: &mut Vec<u64>, value: u64)
    ensures
        final(list)@ == without(old(list)@, value),
{
    match position(list, value) {
        Some(i) => {
            proof {
                lemma_without_at(list@, value, i as int);
            }
            list.remove(i);
        },
        None => {
            proof {
                lemma_without_missing(list@, value);
            }
        },
    }
}

/// A list of different values stays one when a value is put in or taken out. The value is then
/// in it or not, and the others are as before.
pub proof fn lemma_different(list: Seq<u64>, value: u64)
    requires
        list.no_duplicates(),
    ensures
        with_value(list, value).no_duplicates(),
        with_value(list, value).contains(value),
        without(list, value).no_duplicates(),
        !without(list, value).contains(value),
        forall|other: u64|
            other != value ==> (#[trigger] with_value(list, value).contains(other)
                == list.contains(other)),
        forall|other: u64|
            other != value ==> (#[trigger] without(list, value).contains(other) == list.contains(
                other,
            )),
{
    let more = with_value(list, value);
    if !list.contains(value) {
        assert(more[list.len() as int] == value);
        assert forall|other: u64| other != value implies #[trigger] more.contains(other)
            == list.contains(other) by {
            if list.contains(other) {
                let k = choose|k: int| 0 <= k < list.len() && list[k] == other;
                assert(more[k] == other);
            }
        }
        lemma_without_missing(list, value);
    } else {
        let i = choose|i: int| 0 <= i < list.len() && list[i] == value;
        assert forall|j: int| 0 <= j < i implies #[trigger] list[j] != value by {}
        lemma_without_at(list, value, i);
        let less = list.remove(i);
        assert forall|other: u64| other != value implies #[trigger] less.contains(other)
            == list.contains(other) by {
            if list.contains(other) {
                let k = choose|k: int| 0 <= k < list.len() && list[k] == other;
                if k < i {
                    assert(less[k] == other);
                } else {
                    assert(less[k - 1] == other);
                }
            }
        }
    }
}

} // verus!
