//! Splitting text into words and lines, and trimming it.
use vstd::prelude::*;

use crate::text::{
    chars_of, find_from, first_index, lemma_first_index, lemma_texts_push, string_of, substring,
    texts,
};

verus! {

// ---------------------------------------------------------------------------
// White space

/// The characters with the Unicode property White_Space.
pub open spec fn is_space(c: char) -> bool {
    ||| '\u{9}' <= c <= '\u{d}'
    ||| c == '\u{20}'
    ||| c == '\u{85}'
    ||| c == '\u{a0}'
    ||| c == '\u{1680}'
    ||| '\u{2000}' <= c <= '\u{200a}'
    ||| c == '\u{2028}'
    ||| c == '\u{2029}'
    ||| c == '\u{202f}'
    ||| c == '\u{205f}'
    ||| c == '\u{3000}'
}

/// Whether a character is white space.
pub fn is_whitespace(c: char) -> (r: bool)
    ensures
        r == is_space(c),
{
    ('\u{9}' <= c && c <= '\u{d}') || c == '\u{20}' || c == '\u{85}' || c == '\u{a0}' || c
        == '\u{1680}' || ('\u{2000}' <= c && c <= '\u{200a}') || c == '\u{2028}' || c == '\u{2029}'
        || c == '\u{202f}' || c == '\u{205f}' || c == '\u{3000}'
}

// ---------------------------------------------------------------------------
// Words

/// How many characters of `s` come before the first white space.
pub open spec fn word_len(s: Seq<char>) -> nat
    decreases s.len(),
{
    if s.len() == 0 || is_space(s[0]) {
        0
    } else {
        1 + word_len(s.drop_first())
    }
}

/// The maximal runs of characters that are not white space, in order.
pub open spec fn words_of(s: Seq<char>) -> Seq<Seq<char>>
    decreases s.len(),
{
    if s.len() == 0 {
        Seq::empty()
    } else if is_space(s[0]) {
        words_of(s.drop_first())
    } else {
        proof {
            lemma_word_len(s);
        }
        seq![s.take(word_len(s) as int)] + words_of(s.skip(word_len(s) as int))
    }
}

/// A word is no longer than the text it stands in.
pub proof fn lemma_word_len(s: Seq<char>)
    ensures
        word_len(s) <= s.len(),
        forall|i: int| 0 <= i < word_len(s) ==> !is_space(#[trigger] s[i]),
        word_len(s) < s.len() ==> is_space(s[word_len(s) as int]),
    decreases s.len(),
{
    if s.len() > 0 && !is_space(s[0]) {
        lemma_word_len(s.drop_first());
        assert forall|i: int| 0 <= i < word_len(s) implies !is_space(#[trigger] s[i]) by {
            if i > 0 {
                assert(s.drop_first()[i - 1] == s[i]);
            }
        }
    }
}

pub(crate) proof fn lemma_word_len_is(s: Seq<char>, n: int)
    requires
        0 <= n <= s.len(),
        forall|i: int| 0 <= i < n ==> !is_space(#[trigger] s[i]),
        n < s.len() ==> is_space(s[n]),
    ensures
        word_len(s) == n,
    decreases s.len(),
{
    if n > 0 {
        assert(!is_space(s[0]));
        assert forall|i: int| 0 <= i < n - 1 implies !is_space(#[trigger] s.drop_first()[i]) by {
            assert(s.drop_first()[i] == s[i + 1]);
        }
        lemma_word_len_is(s.drop_first(), n - 1);
    }
}

/// The words of a text.
pub fn split_whitespace(s: &str) -> (r: Vec<String>)
    ensures
        texts(r@) == words_of(s@),
{
    let a = chars_of(s);
    let end: usize = a.len();
    let mut out: Vec<String> = Vec::new();
    let mut i: usize = 0;
    assert(a@.skip(0) =~= a@);
    assert(texts(out@) =~= Seq::<Seq<char>>::empty());
    assert(texts(out@) + words_of(a@) =~= words_of(a@));
    while i < end
        invariant
            a@ == s@,
            end == a@.len(),
            i <= end,
            texts(out@) + words_of(a@.skip(i as int)) == words_of(s@),
        decreases end - i,
    {
        let ghost rest = a@.skip(i as int);
        proof {
            lemma_word_len(rest);
        }
        if is_whitespace(a[i]) {
            assert(rest.drop_first() =~= a@.skip(i + 1));
            i = i + 1;
        } else {
            let start: usize = i;
            while i < end && !is_whitespace(a[i])
                invariant
                    end == a@.len(),
                    start <= i <= end,
                    forall|j: int| start <= j < i ==> !is_space(#[trigger] a@[j]),
                decreases end - i,
            {
                i = i + 1;
            }
            let word = substring(a.as_slice(), start, i);
            proof {
                assert forall|j: int| 0 <= j < i - start implies !is_space(#[trigger] rest[j]) by {
                    assert(rest[j] == a@[start + j]);
                }
                lemma_word_len_is(rest, i - start);
                assert(rest.take(i - start) =~= a@.subrange(start as int, i as int));
                assert(rest.skip(i - start) =~= a@.skip(i as int));
                lemma_texts_push(out@, word);
                assert(texts(out@).push(word@) + words_of(a@.skip(i as int)) =~= texts(out@)
                    + words_of(rest));
            }
            out.push(word);
        }
    }
    proof {
        assert(a@.skip(i as int) =~= Seq::<char>::empty());
        assert(texts(out@) + words_of(a@.skip(i as int)) =~= texts(out@));
    }
    out
}

/// No word is empty, and none holds white space.
pub proof fn lemma_words_are_words(s: Seq<char>)
    ensures
        forall|k: int| 0 <= k < words_of(s).len() ==> #[trigger] words_of(s)[k].len() > 0,
        forall|k: int, i: int|
            0 <= k < words_of(s).len() && 0 <= i < words_of(s)[k].len() ==> !is_space(
                #[trigger] words_of(s)[k][i],
            ),
    decreases s.len(),
{
    lemma_word_len(s);
    if s.len() > 0 {
        if is_space(s[0]) {
            lemma_words_are_words(s.drop_first());
            assert(words_of(s) == words_of(s.drop_first()));
        } else {
            let n = word_len(s) as int;
            let rest = words_of(s.skip(n));
            lemma_words_are_words(s.skip(n));
            assert forall|k: int| 0 <= k < words_of(s).len() implies #[trigger] words_of(s)[k].len()
                > 0 by {
                if k > 0 {
                    assert(words_of(s)[k] == rest[k - 1]);
                }
            }
            assert forall|k: int, i: int|
                0 <= k < words_of(s).len() && 0 <= i < words_of(s)[k].len() implies !is_space(
                #[trigger] words_of(s)[k][i],
            ) by {
                if k > 0 {
                    assert(words_of(s)[k] == rest[k - 1]);
                    assert(!is_space(rest[k - 1][i]));
                } else {
                    assert(words_of(s)[0][i] == s[i]);
                }
            }
        }
    } else {
        assert(words_of(s).len() == 0);
    }
}

// ---------------------------------------------------------------------------
// Lines

/// A line without the carriage return at its end.
pub open spec fn without_cr(s: Seq<char>) -> Seq<char> {
    if s.len() > 0 && s.last() == '\r' {
        s.drop_last()
    } else {
        s
    }
}

/// The lines of a text: each ends at a line feed, or at a carriage return and a line feed,
/// which are not part of it. The ending of the last line is optional.
pub open spec fn lines_of(s: Seq<char>) -> Seq<Seq<char>>
    decreases s.len(),
{
    if s.len() == 0 {
        Seq::empty()
    } else {
        match first_index(s, '\n') {
            Some(i) => {
                proof {
                    lemma_first_index(s, '\n');
                }
                seq![without_cr(s.take(i))] + lines_of(s.skip(i + 1))
            },
            None => seq![s],
        }
    }
}

/// The lines of a text.
pub fn lines(s: &str) -> (r: Vec<String>)
    ensures
        texts(r@) == lines_of(s@),
{
    let a = chars_of(s);
    let end: usize = a.len();
    let mut out: Vec<String> = Vec::new();
    let mut i: usize = 0;
    assert(a@.skip(0) =~= a@);
    assert(texts(out@) =~= Seq::<Seq<char>>::empty());
    assert(texts(out@) + lines_of(a@) =~= lines_of(a@));
    while i < end
        invariant
            a@ == s@,
            end == a@.len(),
            i <= end,
            texts(out@) + lines_of(a@.skip(i as int)) == lines_of(s@),
        decreases end - i,
    {
        let ghost rest = a@.skip(i as int);
        match find_from(a.as_slice(), '\n', i) {
            Some(stop) => {
                let last: usize = if stop > i && a[stop - 1] == '\r' {
                    stop - 1
                } else {
                    stop
                };
                let line = substring(a.as_slice(), i, last);
                proof {
                    let k = stop - i;
                    assert(rest.take(k) =~= a@.subrange(i as int, stop as int));
                    assert(without_cr(rest.take(k)) =~= a@.subrange(i as int, last as int));
                    assert(rest.skip(k + 1) =~= a@.skip(stop + 1));
                    lemma_texts_push(out@, line);
                    assert(texts(out@).push(line@) + lines_of(a@.skip(stop + 1)) =~= texts(out@)
                        + lines_of(rest));
                }
                out.push(line);
                i = stop + 1;
            },
            None => {
                let line = substring(a.as_slice(), i, end);
                proof {
                    assert(rest =~= a@.subrange(i as int, end as int));
                    lemma_texts_push(out@, line);
                    assert(texts(out@).push(line@) =~= texts(out@) + lines_of(rest));
                    assert(a@.skip(end as int) =~= Seq::<char>::empty());
                    assert(texts(out@).push(line@) + lines_of(a@.skip(end as int)) =~= texts(
                        out@,
                    ).push(line@));
                }
                out.push(line);
                i = end;
            },
        }
    }
    proof {
        assert(a@.skip(i as int) =~= Seq::<char>::empty());
        assert(texts(out@) + lines_of(a@.skip(i as int)) =~= texts(out@));
    }
    out
}

// ---------------------------------------------------------------------------
// Trimming

/// The text without the white space at its start.
pub open spec fn trim_start_of(s: Seq<char>) -> Seq<char>
    decreases s.len(),
{
    if s.len() > 0 && is_space(s[0]) {
        trim_start_of(s.drop_first())
    } else {
        s
    }
}

/// The text without the white space at its end.
pub open spec fn trim_end_of(s: Seq<char>) -> Seq<char>
    decreases s.len(),
{
    if s.len() > 0 && is_space(s.last()) {
        trim_end_of(s.drop_last())
    } else {
        s
    }
}

/// The text without the white space around it.
pub open spec fn trim_of(s: Seq<char>) -> Seq<char> {
    trim_end_of(trim_start_of(s))
}

/// The text without the white space around it.
pub fn trim(s: &str) -> (r: String)
    ensures
        r@ == trim_of(s@),
{
    let a = chars_of(s);
    let mut start: usize = 0;
    assert(a@.skip(0) =~= a@);
    while start < a.len() && is_whitespace(a[start])
        invariant
            a@ == s@,
            start <= a@.len(),
            trim_start_of(a@.skip(start as int)) == trim_start_of(s@),
        decreases a@.len() - start,
    {
        assert(a@.skip(start as int).drop_first() =~= a@.skip(start + 1));
        start = start + 1;
    }
    let mut end: usize = a.len();
    assert(a@.subrange(start as int, end as int) =~= a@.skip(start as int));
    while end > start && is_whitespace(a[end - 1])
        invariant
            start <= end <= a@.len(),
            trim_end_of(a@.subrange(start as int, end as int)) == trim_of(s@),
        decreases end,
    {
        assert(a@.subrange(start as int, end as int).drop_last() =~= a@.subrange(
            start as int,
            end - 1,
        ));
        end = end - 1;
    }
    substring(a.as_slice(), start, end)
}

/// The text without the carriage returns and line feeds at its end.
pub open spec fn trim_newlines_of(s: Seq<char>) -> Seq<char>
    decreases s.len(),
{
    if s.len() > 0 && (s.last() == '\r' || s.last() == '\n') {
        trim_newlines_of(s.drop_last())
    } else {
        s
    }
}

/// The text without the carriage returns and line feeds at its end.
pub fn trim_newlines(s: &[char]) -> (r: String)
    ensures
        r@ == trim_newlines_of(s@),
{
    let mut end: usize = s.len();
    assert(s@.take(end as int) =~= s@);
    while end > 0 && (s[end - 1] == '\r' || s[end - 1] == '\n')
        invariant
            end <= s@.len(),
            trim_newlines_of(s@.take(end as int)) == trim_newlines_of(s@),
        decreases end,
    {
        assert(s@.take(end as int).drop_last() =~= s@.take(end - 1));
        end = end - 1;
    }
    assert(s@.subrange(0, end as int) =~= s@.take(end as int));
    substring(s, 0, end)
}

// ---------------------------------------------------------------------------
// Case and joining

/// A character with an ASCII capital letter made small.
pub open spec fn lower_char(c: char) -> char {
    if 'A' <= c <= 'Z' {
        ((c as u8) + 32u8) as u8 as char
    } else {
        c
    }
}

/// A text with its ASCII capital letters made small.
pub open spec fn lower_of(s: Seq<char>) -> Seq<char> {
    Seq::new(s.len(), |i: int| lower_char(s[i]))
}

/// A character with an ASCII small letter made a capital one.
pub open spec fn upper_char(c: char) -> char {
    if 'a' <= c <= 'z' {
        ((c as u8) - 32u8) as u8 as char
    } else {
        c
    }
}

/// A text with its ASCII small letters made capital ones.
pub open spec fn upper_of(s: Seq<char>) -> Seq<char> {
    Seq::new(s.len(), |i: int| upper_char(s[i]))
}

/// Capital letters made small again are what the text was with its capital letters made small.
pub proof fn lemma_lower_upper(s: Seq<char>)
    ensures
        lower_of(upper_of(s)) == lower_of(s),
{
    assert(lower_of(upper_of(s)) =~= lower_of(s));
}

/// A text with its ASCII capital letters made small.
pub fn to_ascii_lowercase(s: &str) -> (r: String)
    ensures
        r@ == lower_of(s@),
{
    let a = chars_of(s);
    let mut out: Vec<char> = Vec::new();
    for i in 0..a.len()
        invariant
            a@ == s@,
            out@ == lower_of(s@).take(i as int),
    {
        let c: char = a[i];
        let low: char = if 'A' <= c && c <= 'Z' {
            ((c as u8) + 32u8) as char
        } else {
            c
        };
        out.push(low);
        assert(lower_of(s@).take(i as int).push(low) =~= lower_of(s@).take(i + 1));
    }
    assert(lower_of(s@).take(a@.len() as int) =~= lower_of(s@));
    string_of(out.as_slice())
}

/// Texts joined with a separator between neighbours.
pub open spec fn join_of(parts: Seq<Seq<char>>, sep: Seq<char>) -> Seq<char>
    decreases parts.len(),
{
    if parts.len() == 0 {
        Seq::empty()
    } else if parts.len() == 1 {
        parts[0]
    } else {
        join_of(parts.drop_last(), sep) + sep + parts.last()
    }
}

/// The texts from `from` on, joined with a separator.
pub fn join_from(parts: &Vec<String>, from: usize, sep: &str) -> (r: String)
    requires
        from <= parts@.len(),
    ensures
        r@ == join_of(texts(parts@).skip(from as int), sep@),
{
    let mut out = String::new();
    let ghost all = texts(parts@).skip(from as int);
    assert(out@ =~= join_of(all.take(0), sep@));
    for i in from..parts.len()
        invariant
            from <= parts@.len(),
            all == texts(parts@).skip(from as int),
            out@ == join_of(all.take(i - from), sep@),
    {
        let ghost k = i - from;
        assert(all.take(k + 1).drop_last() =~= all.take(k));
        assert(all.take(k + 1).last() == parts@[i as int]@);
        if i > from {
            out.append(sep);
            out.append(parts[i].as_str());
        } else {
            out.append(parts[i].as_str());
            assert(out@ =~= parts@[i as int]@);
        }
    }
    assert(all.take(parts@.len() - from) =~= all);
    out
}

} // verus!
