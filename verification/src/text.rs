//! Text as sequences of characters: comparing, cutting and searching it.
use vstd::prelude::*;
use vstd::utf8::{encode_utf8, valid_utf8};

verus! {

/// `String::push` appends one character to the end of the text.
pub assume_specification[ String::push ](s: &mut String, c: char)
    ensures
        final(s)@ == old(s)@.push(c),
;

/// What `String::from_utf8_lossy` makes of bytes.
pub uninterp spec fn lossy_text(bytes: Seq<u8>) -> Seq<char>;

/// `String::from_utf8_lossy`: the text of well-formed bytes; what stands for malformed ones is
/// left to `std`, the result being a function of the bytes.
#[verifier::external_body]
pub(crate) fn from_utf8_lossy(bytes: &[u8]) -> (r: String)
    ensures
        r@ == lossy_text(bytes@),
        valid_utf8(bytes@) ==> encode_utf8(r@) == bytes@,
{
    String::from_utf8_lossy(bytes).into_owned()
}

/// The text of every string in a list.
pub open spec fn texts(v: Seq<String>) -> Seq<Seq<char>> {
    Seq::new(v.len(), |i: int| v[i]@)
}

/// Appending a string appends its text.
pub proof fn lemma_texts_push(v: Seq<String>, s: String)
    ensures
        texts(v.push(s)) == texts(v).push(s@),
{
    assert(texts(v.push(s)) =~= texts(v).push(s@));
}

// ---------------------------------------------------------------------------
// Conversions and comparison

/// The characters of a string slice.
pub fn chars_of(s: &str) -> (r: Vec<char>)
    ensures
        r@ == s@,
{
    let mut out: Vec<char> = Vec::new();
    for c in it: s.chars()
        invariant
            out@ == it.seq().take(it.index() as int),
            it.seq() == s@,
    {
        out.push(c);
    }
    out
}

/// The string made of the given characters.
pub fn string_of(s: &[char]) -> (r: String)
    ensures
        r@ == s@,
{
    let mut out = String::new();
    for i in 0..s.len()
        invariant
            out@ == s@.take(i as int),
    {
        out.push(s[i]);
    }
    out
}

/// The string made of the characters at `from..to`.
pub fn substring(s: &[char], from: usize, to: usize) -> (r: String)
    requires
        from <= to <= s@.len(),
    ensures
        r@ == s@.subrange(from as int, to as int),
{
    let mut out = String::new();
    for i in from..to
        invariant
            from <= to <= s@.len(),
            out@ == s@.subrange(from as int, i as int),
    {
        out.push(s[i]);
    }
    out
}

/// Whether two sequences of characters are the same.
pub fn same_chars(a: &[char], b: &[char]) -> (r: bool)
    ensures
        r == (a@ == b@),
{
    if a.len() != b.len() {
        return false;
    }
    for i in 0..a.len()
        invariant
            a@.len() == b@.len(),
            forall|j: int| 0 <= j < i ==> a@[j] == b@[j],
    {
        if a[i] != b[i] {
            return false;
        }
    }
    assert(a@ =~= b@);
    true
}

/// Whether two string slices hold the same text.
pub fn same(a: &str, b: &str) -> (r: bool)
    ensures
        r == (a@ == b@),
{
    let x = chars_of(a);
    let y = chars_of(b);
    same_chars(x.as_slice(), y.as_slice())
}

/// A word is one of two.
pub open spec fn either(word: Seq<char>, a: Seq<char>, b: Seq<char>) -> bool {
    word == a || word == b
}

/// Whether a word is one of two.
pub fn is_either(word: &str, a: &str, b: &str) -> (r: bool)
    ensures
        r == either(word@, a@, b@),
{
    same(word, a) || same(word, b)
}

/// Appends the text of `other`.
pub fn push_text(out: &mut String, other: &str)
    ensures
        final(out)@ == old(out)@ + other@,
{
    out.append(other);
}

// ---------------------------------------------------------------------------
// Prefixes, suffixes and substrings

/// `s` begins with `prefix`.
pub open spec fn begins(s: Seq<char>, prefix: Seq<char>) -> bool {
    prefix.len() <= s.len() && s.take(prefix.len() as int) == prefix
}

/// `s` ends with `suffix`.
pub open spec fn ends(s: Seq<char>, suffix: Seq<char>) -> bool {
    suffix.len() <= s.len() && s.skip(s.len() - suffix.len()) == suffix
}

/// `pattern` occurs in `s` at position `at`.
pub open spec fn occurs_at(s: Seq<char>, pattern: Seq<char>, at: int) -> bool {
    0 <= at && at + pattern.len() <= s.len() && s.subrange(at, at + pattern.len()) == pattern
}

/// `pattern` occurs somewhere in `s`.
pub open spec fn has_text(s: Seq<char>, pattern: Seq<char>) -> bool {
    exists|at: int| occurs_at(s, pattern, at)
}

/// Whether `pattern` occurs in `s` at position `at`.
pub fn matches_at(s: &[char], pattern: &[char], at: usize) -> (r: bool)
    requires
        at + pattern@.len() <= s@.len(),
    ensures
        r == occurs_at(s@, pattern@, at as int),
{
    for i in 0..pattern.len()
        invariant
            at + pattern@.len() <= s.len(),
            forall|j: int| 0 <= j < i ==> s@[at + j] == pattern@[j],
    {
        if s[at + i] != pattern[i] {
            assert(s@.subrange(at as int, at + pattern@.len())[i as int] != pattern@[i as int]);
            return false;
        }
    }
    assert(s@.subrange(at as int, at + pattern@.len()) =~= pattern@);
    true
}

/// Whether `s` begins with `prefix`.
pub fn starts_with(s: &str, prefix: &str) -> (r: bool)
    ensures
        r == begins(s@, prefix@),
{
    let a = chars_of(s);
    let b = chars_of(prefix);
    if b.len() > a.len() {
        return false;
    }
    assert(a@.subrange(0, b@.len() as int) =~= a@.take(b@.len() as int));
    matches_at(a.as_slice(), b.as_slice(), 0)
}

/// Whether `s` ends with `suffix`.
pub fn ends_with(s: &str, suffix: &str) -> (r: bool)
    ensures
        r == ends(s@, suffix@),
{
    let a = chars_of(s);
    let b = chars_of(suffix);
    if b.len() > a.len() {
        return false;
    }
    assert(a@.subrange(a@.len() - b@.len(), a@.len() as int) =~= a@.skip(a@.len() - b@.len()));
    matches_at(a.as_slice(), b.as_slice(), a.len() - b.len())
}

/// Whether `pattern` occurs anywhere in `s`.
pub fn contains(s: &str, pattern: &str) -> (r: bool)
    ensures
        r == has_text(s@, pattern@),
{
    let a = chars_of(s);
    let b = chars_of(pattern);
    if b.len() > a.len() {
        assert forall|at: int| !occurs_at(s@, pattern@, at) by {}
        return false;
    }
    let last: usize = a.len() - b.len();
    let mut at: usize = 0;
    while at <= last
        invariant
            a@ == s@,
            b@ == pattern@,
            last == a@.len() - b@.len(),
            at <= last + 1,
            forall|j: int| 0 <= j < at ==> !occurs_at(s@, pattern@, j),
        decreases last + 1 - at,
    {
        if matches_at(a.as_slice(), b.as_slice(), at) {
            return true;
        }
        if at == last {
            assert forall|j: int| !occurs_at(s@, pattern@, j) by {}
            return false;
        }
        at = at + 1;
    }
    false
}

/// The text after `prefix`, where the text begins with it.
pub open spec fn after_prefix(s: Seq<char>, prefix: Seq<char>) -> Option<Seq<char>> {
    if begins(s, prefix) {
        Some(s.skip(prefix.len() as int))
    } else {
        None
    }
}

/// The text of an optional string.
pub open spec fn opt_text(s: Option<String>) -> Option<Seq<char>> {
    match s {
        Some(t) => Some(t@),
        None => None,
    }
}

/// What follows `prefix` in `s`.
pub fn strip_prefix(s: &str, prefix: &str) -> (r: Option<String>)
    ensures
        opt_text(r) == after_prefix(s@, prefix@),
{
    if !starts_with(s, prefix) {
        return None;
    }
    let a = chars_of(s);
    let b = chars_of(prefix);
    assert(a@.subrange(b@.len() as int, a@.len() as int) =~= a@.skip(b@.len() as int));
    Some(substring(a.as_slice(), b.len(), a.len()))
}

/// The position of the first `c` in `s`.
pub open spec fn first_index(s: Seq<char>, c: char) -> Option<int>
    decreases s.len(),
{
    if s.len() == 0 {
        None
    } else if s[0] == c {
        Some(0)
    } else {
        match first_index(s.drop_first(), c) {
            Some(i) => Some(i + 1),
            None => None,
        }
    }
}

/// What the position of the first occurrence means.
pub proof fn lemma_first_index(s: Seq<char>, c: char)
    ensures
        match first_index(s, c) {
            Some(i) => 0 <= i < s.len() && s[i] == c && !s.take(i).contains(c),
            None => !s.contains(c),
        },
    decreases s.len(),
{
    if s.len() > 0 && s[0] != c {
        lemma_first_index(s.drop_first(), c);
        match first_index(s.drop_first(), c) {
            Some(i) => {
                assert forall|j: int| 0 <= j < i + 1 implies #[trigger] s.take(i + 1)[j] != c by {
                    if j > 0 {
                        assert(s.drop_first().take(i)[j - 1] == s[j]);
                        assert(s.drop_first().take(i).contains(s.drop_first().take(i)[j - 1]));
                    }
                }
            },
            None => {
                assert forall|j: int| 0 <= j < s.len() implies #[trigger] s[j] != c by {
                    if j > 0 {
                        assert(s.drop_first()[j - 1] == s[j]);
                        assert(s.drop_first().contains(s.drop_first()[j - 1]));
                    }
                }
            },
        }
    }
}

/// The first occurrence is where no earlier one stands.
proof fn lemma_first_index_is(s: Seq<char>, c: char, at: int)
    requires
        0 <= at < s.len(),
        s[at] == c,
        forall|j: int| 0 <= j < at ==> s[j] != c,
    ensures
        first_index(s, c) == Some(at),
{
    lemma_first_index(s, c);
    match first_index(s, c) {
        Some(i) => {
            if i > at {
                assert(s.take(i)[at] == c);
                assert(s.take(i).contains(c));
            }
        },
        None => {
            assert(s.contains(s[at]));
        },
    }
}

/// What follows does not change where a character stands first.
pub proof fn lemma_first_index_stays(s: Seq<char>, more: Seq<char>, c: char)
    requires
        first_index(s, c) is Some,
    ensures
        first_index(s + more, c) == first_index(s, c),
{
    lemma_first_index(s, c);
    let at = first_index(s, c)->0;
    assert forall|j: int| 0 <= j < at implies (s + more)[j] != c by {
        assert(s.take(at).contains(s.take(at)[j]));
    }
    lemma_first_index_is(s + more, c, at);
}

/// The position of the first `c` at or after `from`.
pub fn find_from(s: &[char], c: char, from: usize) -> (r: Option<usize>)
    requires
        from <= s@.len(),
    ensures
        match r {
            Some(i) => from <= i < s@.len() && first_index(s@.skip(from as int), c) == Some(i - from),
            None => first_index(s@.skip(from as int), c) is None,
        },
{
    let mut i: usize = from;
    while i < s.len()
        invariant
            from <= i <= s@.len(),
            forall|j: int| from <= j < i ==> s@[j] != c,
        decreases s@.len() - i,
    {
        if s[i] == c {
            proof {
                lemma_first_index_is(s@.skip(from as int), c, i - from);
            }
            return Some(i);
        }
        i = i + 1;
    }
    proof {
        let rest = s@.skip(from as int);
        lemma_first_index(rest, c);
        if let Some(k) = first_index(rest, c) {
            assert(s@[from + k] == c);
        }
    }
    None
}

/// Whether `c` occurs in `s`.
pub fn has_char(s: &str, c: char) -> (r: bool)
    ensures
        r == s@.contains(c),
{
    let a = chars_of(s);
    let found = find_from(a.as_slice(), c, 0);
    proof {
        assert(a@.skip(0) =~= a@);
        lemma_first_index(a@, c);
    }
    found.is_some()
}

/// The text before and after the first `c`.
pub open spec fn cut_first(s: Seq<char>, c: char) -> Option<(Seq<char>, Seq<char>)> {
    match first_index(s, c) {
        Some(i) => Some((s.take(i), s.skip(i + 1))),
        None => None,
    }
}

/// The text before and after the last `c`.
pub open spec fn cut_last(s: Seq<char>, c: char) -> Option<(Seq<char>, Seq<char>)>
    decreases s.len(),
{
    if s.len() == 0 {
        None
    } else if s.last() == c {
        Some((s.drop_last(), Seq::empty()))
    } else {
        match cut_last(s.drop_last(), c) {
            Some((before, after)) => Some((before, after.push(s.last()))),
            None => None,
        }
    }
}

/// What the parts before and behind the last occurrence of a character are.
pub proof fn lemma_parts(s: Seq<char>, c: char)
    ensures
        cut_last(s, c) matches Some((before, after)) ==> s == before + seq![c] + after
            && !after.contains(c),
        cut_last(s, c) is None ==> !s.contains(c),
    decreases s.len(),
{
    if s.len() > 0 {
        assert(s =~= s.drop_last().push(s.last()));
        lemma_parts(s.drop_last(), c);
        if s.last() == c {
            assert(s =~= s.drop_last() + seq![c] + Seq::<char>::empty());
        } else if let Some((before, after)) = cut_last(s.drop_last(), c) {
            assert(s =~= before + seq![c] + after.push(s.last()));
            assert forall|i: int| 0 <= i <= after.len() implies after.push(s.last())[i] != c by {
                if i < after.len() {
                    assert(after.contains(after[i]));
                }
            }
        } else {
            assert forall|i: int| 0 <= i < s.len() implies s[i] != c by {
                if i < s.len() - 1 {
                    assert(s.drop_last().contains(s.drop_last()[i]));
                }
            }
        }
    }
}

/// The texts of an optional pair of strings.
pub open spec fn opt_pair(p: Option<(String, String)>) -> Option<(Seq<char>, Seq<char>)> {
    match p {
        Some((a, b)) => Some((a@, b@)),
        None => None,
    }
}

/// Splits at the first `c`.
pub fn split_once(s: &str, c: char) -> (r: Option<(String, String)>)
    ensures
        opt_pair(r) == cut_first(s@, c),
{
    let a = chars_of(s);
    let end: usize = a.len();
    assert(a@.skip(0) =~= a@);
    match find_from(a.as_slice(), c, 0) {
        Some(i) => {
            assert(a@.subrange(0, i as int) =~= a@.take(i as int));
            assert(a@.subrange(i + 1, a@.len() as int) =~= a@.skip(i + 1));
            Some((substring(a.as_slice(), 0, i), substring(a.as_slice(), i + 1, end)))
        },
        None => None,
    }
}

proof fn lemma_cut_last(s: Seq<char>, c: char, at: int)
    requires
        0 <= at < s.len(),
        s[at] == c,
        forall|j: int| at < j < s.len() ==> s[j] != c,
    ensures
        cut_last(s, c) == Some((s.take(at), s.skip(at + 1))),
    decreases s.len(),
{
    if s.last() == c {
        assert(at == s.len() - 1);
        assert(s.drop_last() =~= s.take(at));
        assert(s.skip(at + 1) =~= Seq::<char>::empty());
    } else {
        lemma_cut_last(s.drop_last(), c, at);
        assert(s.drop_last().take(at) =~= s.take(at));
        assert(s.drop_last().skip(at + 1).push(s.last()) =~= s.skip(at + 1));
    }
}

proof fn lemma_cut_last_none(s: Seq<char>, c: char)
    requires
        forall|j: int| 0 <= j < s.len() ==> s[j] != c,
    ensures
        cut_last(s, c) is None,
    decreases s.len(),
{
    if s.len() > 0 {
        lemma_cut_last_none(s.drop_last(), c);
    }
}

/// Splits at the last `c`.
pub fn rsplit_once(s: &str, c: char) -> (r: Option<(String, String)>)
    ensures
        opt_pair(r) == cut_last(s@, c),
{
    let a = chars_of(s);
    let mut i: usize = a.len();
    while i > 0
        invariant
            a@ == s@,
            i <= a@.len(),
            forall|j: int| i <= j < a@.len() ==> a@[j] != c,
        decreases i,
    {
        i = i - 1;
        if a[i] == c {
            proof {
                lemma_cut_last(a@, c, i as int);
            }
            assert(a@.subrange(0, i as int) =~= a@.take(i as int));
            assert(a@.subrange(i + 1, a@.len() as int) =~= a@.skip(i + 1));
            return Some((substring(a.as_slice(), 0, i), substring(a.as_slice(), i + 1, a.len())));
        }
    }
    proof {
        lemma_cut_last_none(a@, c);
    }
    None
}

/// A text is cut at the last occurrence of a character.
pub proof fn lemma_cut_last_at(first: Seq<char>, second: Seq<char>, c: char)
    requires
        !second.contains(c),
    ensures
        cut_last(first + seq![c] + second, c) == Some((first, second)),
    decreases second.len(),
{
    let s = first + seq![c] + second;
    if second.len() == 0 {
        assert(s.drop_last() =~= first);
        assert(second =~= Seq::<char>::empty());
    } else {
        let less = second.drop_last();
        assert(second.contains(second.last()));
        assert forall|i: int| 0 <= i < less.len() implies less[i] != c by {
            assert(second.contains(second[i]));
        }
        lemma_cut_last_at(first, less, c);
        assert(s.drop_last() =~= first + seq![c] + less);
        assert(less.push(second.last()) =~= second);
    }
}

/// A text ends with another one exactly where something stands before that.
pub proof fn lemma_ends(s: Seq<char>, before: Seq<char>, suffix: Seq<char>)
    ensures
        ends(before + suffix, suffix),
        begins(suffix + before, suffix),
        ends(s, suffix) ==> s == s.take(s.len() - suffix.len()) + suffix,
        begins(s, suffix) ==> s == suffix + s.skip(suffix.len() as int),
{
    assert((before + suffix).skip(before.len() as int) =~= suffix);
    assert((suffix + before).take(suffix.len() as int) =~= suffix);
    if ends(s, suffix) {
        assert(s =~= s.take(s.len() - suffix.len()) + s.skip(s.len() - suffix.len()));
    }
    if begins(s, suffix) {
        assert(s =~= s.take(suffix.len() as int) + s.skip(suffix.len() as int));
    }
}

/// A text is cut at the first occurrence of a character.
pub proof fn lemma_cut_first_at(first: Seq<char>, second: Seq<char>, c: char)
    requires
        !first.contains(c),
    ensures
        cut_first(first + seq![c] + second, c) == Some((first, second)),
{
    let s = first + seq![c] + second;
    assert forall|j: int| 0 <= j < first.len() implies s[j] != c by {
        assert(first.contains(first[j]));
    }
    lemma_first_index_is(s, c, first.len() as int);
    assert(s.take(first.len() as int) =~= first);
    assert(s.skip(first.len() as int + 1) =~= second);
}

/// A text without a character is not cut at it.
pub proof fn lemma_cut_first_without(s: Seq<char>, c: char)
    requires
        !s.contains(c),
    ensures
        cut_first(s, c) is None,
{
    lemma_first_index(s, c);
}

/// A text without a character is not cut at its last occurrence.
pub proof fn lemma_cut_last_without(s: Seq<char>, c: char)
    requires
        !s.contains(c),
    ensures
        cut_last(s, c) is None,
    decreases s.len(),
{
    if s.len() > 0 {
        let less = s.drop_last();
        assert(s.contains(s.last()));
        assert forall|i: int| 0 <= i < less.len() implies less[i] != c by {
            assert(s.contains(s[i]));
        }
        lemma_cut_last_without(less, c);
    }
}

} // verus!
