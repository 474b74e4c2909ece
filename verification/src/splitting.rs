//! How texts fall into words and lines, arguments into what they ask for, and bytes into numbers.
use vstd::prelude::*;

use crate::cli::{launch_of, lemma_tui_anywhere, without_tui, LaunchShape};
use crate::range_table::{big_number, number_in, TableShape};
use crate::text::{first_index, lemma_cut_first_at};
use crate::words::{
    is_space, join_of, lemma_word_len_is, lines_of, trim_end_of, trim_of, words_of,
};

verus! {

// ---------------------------------------------------------------------------
// Words

/// A word: it is not empty, and holds no white space.
pub open spec fn is_word(s: Seq<char>) -> bool {
    s.len() > 0 && forall|i: int| 0 <= i < s.len() ==> !is_space(#[trigger] s[i])
}

/// White space in front of a text adds no word, a word in front of white space is the first word,
/// and a word alone is the only one.
pub proof fn lemma_words(word: Seq<char>, blank: char, rest: Seq<char>)
    requires
        is_space(blank),
        is_word(word),
    ensures
        words_of(seq![blank] + rest) == words_of(rest),
        words_of(word + seq![blank] + rest) == seq![word] + words_of(rest),
        words_of(word) == seq![word],
        words_of(Seq::empty()).len() == 0,
{
    let a = seq![blank] + rest;
    assert(a.drop_first() =~= rest);
    let b = word + seq![blank] + rest;
    assert forall|i: int| 0 <= i < word.len() implies !is_space(#[trigger] b[i]) by {
        assert(b[i] == word[i]);
    }
    assert(b[0] == word[0]);
    lemma_word_len_is(b, word.len() as int);
    assert(b.take(word.len() as int) =~= word);
    assert(b.skip(word.len() as int) =~= a);
    assert(words_of(a) == words_of(rest));
    assert(b.len() > 0 && !is_space(b[0]));
    assert(words_of(b) == seq![b.take(word.len() as int)] + words_of(b.skip(word.len() as int)));
    assert(!is_space(word[0]));
    lemma_word_len_is(word, word.len() as int);
    assert(word.take(word.len() as int) =~= word);
    assert(word.skip(word.len() as int) =~= Seq::<char>::empty());
    assert(seq![word] + words_of(Seq::empty()) =~= seq![word]);
}

/// The first of some joined texts comes first.
proof fn lemma_join_first(parts: Seq<Seq<char>>, sep: Seq<char>)
    requires
        parts.len() > 1,
    ensures
        join_of(parts, sep) == parts[0] + sep + join_of(parts.drop_first(), sep),
    decreases parts.len(),
{
    let less = parts.drop_last();
    let rest = parts.drop_first();
    if parts.len() == 2 {
        assert(join_of(less, sep) == parts[0]);
        assert(join_of(rest, sep) == parts[1]);
    } else {
        lemma_join_first(less, sep);
        assert(less.drop_first() =~= rest.drop_last());
        assert(join_of(parts, sep) =~= parts[0] + sep + join_of(rest, sep));
    }
}

/// Words that are joined with blanks are found again.
pub proof fn lemma_joined_words(words: Seq<Seq<char>>)
    requires
        forall|i: int| 0 <= i < words.len() ==> is_word(#[trigger] words[i]),
    ensures
        words_of(join_of(words, " "@)) == words,
    decreases words.len(),
{
    reveal_strlit(" ");
    assert(" "@ =~= seq![' ']);
    if words.len() == 0 {
        assert(words_of(Seq::empty()) =~= words);
    } else {
        let rest = words.drop_first();
        assert forall|i: int| 0 <= i < rest.len() implies is_word(#[trigger] rest[i]) by {
            assert(rest[i] == words[i + 1]);
        }
        lemma_joined_words(rest);
        lemma_words(words[0], ' ', join_of(rest, " "@));
        if words.len() > 1 {
            lemma_join_first(words, " "@);
        }
        assert(seq![words[0]] + rest =~= words);
        assert(words.len() == 1 ==> seq![words[0]] =~= words);
    }
}

// ---------------------------------------------------------------------------
// Lines

/// A line ends at a line feed, with or without a carriage return before it, and the other lines
/// follow; a text without a line feed is one line.
pub proof fn lemma_lines(line: Seq<char>, rest: Seq<char>)
    requires
        !line.contains('\n'),
        line.len() > 0 ==> line.last() != '\r',
    ensures
        lines_of(line + seq!['\n'] + rest) == seq![line] + lines_of(rest),
        lines_of(line + seq!['\r', '\n'] + rest) == seq![line] + lines_of(rest),
        line.len() > 0 ==> lines_of(line) == seq![line],
        lines_of(Seq::empty()).len() == 0,
{
    let a = line + seq!['\n'] + rest;
    lemma_cut_first_at(line, rest, '\n');
    let i = first_index(a, '\n')->0;
    assert(a.take(i) == line);
    let with = line.push('\r');
    let b = line + seq!['\r', '\n'] + rest;
    assert(b =~= with + seq!['\n'] + rest);
    assert(!with.contains('\n')) by {
        assert forall|k: int| 0 <= k < with.len() implies with[k] != '\n' by {
            if k < line.len() {
                assert(line.contains(line[k]));
            }
        }
    }
    lemma_cut_first_at(with, rest, '\n');
    let j = first_index(b, '\n')->0;
    assert(b.take(j) == with);
    assert(with.drop_last() =~= line);
    assert(a.len() > 0 && b.len() > 0);
    crate::text::lemma_cut_first_without(line, '\n');
}

// ---------------------------------------------------------------------------
// Arguments

/// Arguments that ask for no help and do not name the terminal interface.
pub open spec fn is_plain_call(args: Seq<Seq<char>>) -> bool {
    !args.contains("--help"@) && !args.contains("-h"@) && !args.contains("--tui"@)
}

proof fn lemma_nothing_taken_out(args: Seq<Seq<char>>)
    requires
        !args.contains("--tui"@),
    ensures
        without_tui(args) == args,
    decreases args.len(),
{
    if args.len() > 0 {
        let less = args.drop_last();
        assert(args.contains(args.last()));
        assert forall|i: int| 0 <= i < less.len() implies less[i] != "--tui"@ by {
            assert(args.contains(args[i]));
        }
        lemma_nothing_taken_out(less);
        assert(less.push(args.last()) =~= args);
    } else {
        assert(without_tui(args) =~= args);
    }
}

/// Without an argument the usage is shown; a first argument that names the remote protocol is
/// followed by the firmware and, if need be, the endpoint; any other one is the program. The
/// argument for the terminal interface may stand anywhere and changes nothing else.
#[verifier::rlimit(50)]
pub proof fn lemma_launch(args: Seq<Seq<char>>, at: int)
    requires
        is_plain_call(args),
        0 <= at <= args.len(),
    ensures
        ({
            let shown = launch_of(args.take(at).push("--tui"@) + args.skip(at));
            let remote = args.len() > 0 && (args[0] == "--arm-gdb"@ || args[0] == "--gdb-remote"@);
            &&& args.len() == 0 ==> launch_of(args) == (LaunchShape::Usage { asked: false }) && shown
                == (LaunchShape::Usage { asked: false })
            &&& args.len() > 0 && !remote ==> {
                &&& launch_of(args) == (LaunchShape::Local { program: args[0], tui: false })
                &&& shown == (LaunchShape::Local { program: args[0], tui: true })
            }
            &&& remote && args.len() == 1 ==> launch_of(args) == (LaunchShape::Usage {
                asked: false,
            }) && shown == (LaunchShape::Usage { asked: false })
            &&& remote && args.len() > 1 ==> {
                let endpoint = if args.len() > 2 {
                    Some(args[2])
                } else {
                    None
                };
                &&& launch_of(args) == (LaunchShape::Remote {
                    firmware: args[1],
                    endpoint,
                    tui: false,
                })
                &&& shown == (LaunchShape::Remote { firmware: args[1], endpoint, tui: true })
            }
        }),
{
    lemma_nothing_taken_out(args);
    let (before, after) = (args.take(at), args.skip(at));
    let more = before.push("--tui"@) + after;
    lemma_tui_anywhere(before, after);
    assert(before + after =~= args);
    assert(more[at] == "--tui"@);
    assert(more.contains("--tui"@));
    reveal_strlit("--tui");
    reveal_strlit("--help");
    reveal_strlit("-h");
    assert("--tui"@.len() == 5 && "--help"@.len() == 6 && "-h"@.len() == 2);
    assert forall|i: int| 0 <= i < more.len() implies more[i] != "--help"@ && more[i] != "-h"@ by {
        if i < at {
            assert(more[i] == args[i]);
            assert(args.contains(args[i]));
        } else if i > at {
            assert(more[i] == args[i - 1]);
            assert(args.contains(args[i - 1]));
        }
    }
}

/// Whoever asks for help is shown the usage, whatever else the arguments say.
pub proof fn lemma_help(before: Seq<Seq<char>>, word: Seq<char>, after: Seq<Seq<char>>)
    requires
        word == "--help"@ || word == "-h"@,
    ensures
        launch_of(before + seq![word] + after) == (LaunchShape::Usage { asked: true }),
{
    assert((before + seq![word] + after)[before.len() as int] == word);
}

// ---------------------------------------------------------------------------
// Range tables

/// Four bytes are a number in either byte order, and so are eight.
pub proof fn lemma_numbers(b: Seq<u8>)
    ensures
        b.len() == 4 ==> {
            &&& number_in(b, true) == b[0] + 0x100 * b[1] + 0x10000 * b[2] + 0x1000000 * b[3]
            &&& number_in(b, false) == b[3] + 0x100 * b[2] + 0x10000 * b[1] + 0x1000000 * b[0]
        },
        b.len() > 0 ==> number_in(b, true) == b[0] + 0x100 * number_in(b.drop_first(), true),
        b.len() > 0 ==> number_in(b, false) == b.last() + 0x100 * number_in(b.drop_last(), false),
{
    reveal_with_fuel(big_number, 6);
    if b.len() > 0 {
        assert(b.reverse().drop_last() =~= b.drop_first().reverse());
    }
    if b.len() == 4 {
        let r = b.reverse();
        assert(r.drop_last().drop_last().drop_last().drop_last().len() == 0);
        assert(b.drop_last().drop_last().drop_last().drop_last().len() == 0);
    }
}

/// The offset of a range list is what the table holds in the place of its number, counted from the
/// beginning of the table, and there is one exactly where that place lies within the table and the
/// sum is an offset.
pub proof fn lemma_range_offset(t: TableShape, index: u64)
    ensures
        !t.wide && t.base + 4 * index + 4 <= t.data.len() ==> {
            let at = t.base + 4 * index;
            let sum = t.base + number_in(t.data.subrange(at, at + 4), t.little_endian);
            t.offset(index) == if sum <= usize::MAX {
                Some(sum as u64)
            } else {
                None
            }
        },
        t.wide && t.base + 8 * index + 8 <= t.data.len() ==> {
            let at = t.base + 8 * index;
            let sum = t.base + number_in(t.data.subrange(at, at + 8), t.little_endian);
            t.offset(index) == if sum <= usize::MAX {
                Some(sum as u64)
            } else {
                None
            }
        },
        !t.wide && t.base + 4 * index + 4 > t.data.len() ==> t.offset(index) is None,
        t.wide && t.base + 8 * index + 8 > t.data.len() ==> t.offset(index) is None,
{
    if t.wide {
        assert(t.word() == 8);
        let at = t.base + index * t.word();
        assert(at == t.base + 8 * index);
        assert(t.data.subrange(at, at + t.word()) == t.data.subrange(at, at + 8));
    } else {
        assert(t.word() == 4);
        let at = t.base + index * t.word();
        assert(at == t.base + 4 * index);
        assert(t.data.subrange(at, at + t.word()) == t.data.subrange(at, at + 4));
    }
}

// ---------------------------------------------------------------------------
// White space at the ends

proof fn lemma_trim_end(text: Seq<char>, after: Seq<char>)
    requires
        text.len() > 0 ==> !is_space(text.last()),
        forall|i: int| 0 <= i < after.len() ==> is_space(#[trigger] after[i]),
    ensures
        trim_end_of(text + after) == text,
    decreases after.len(),
{
    if after.len() > 0 {
        let less = after.drop_last();
        assert((text + after).last() == after.last());
        assert((text + after).drop_last() =~= text + less);
        lemma_trim_end(text, less);
    } else {
        assert(text + after =~= text);
    }
}

/// White space around a text is taken off, and nothing else.
pub proof fn lemma_trim(before: Seq<char>, text: Seq<char>, after: Seq<char>)
    requires
        text.len() > 0 ==> !is_space(text[0]) && !is_space(text.last()),
        forall|i: int| 0 <= i < before.len() ==> is_space(#[trigger] before[i]),
        forall|i: int| 0 <= i < after.len() ==> is_space(#[trigger] after[i]),
    ensures
        trim_of(before + text + after) == text,
    decreases before.len() + after.len(),
{
    let s = before + text + after;
    if before.len() > 0 {
        let less = before.drop_first();
        assert(s[0] == before[0]);
        assert(s.drop_first() =~= less + text + after);
        assert forall|i: int| 0 <= i < less.len() implies is_space(#[trigger] less[i]) by {
            assert(less[i] == before[i + 1]);
        }
        lemma_trim(less, text, after);
        assert(trim_of(s) == trim_of(less + text + after));
    } else if text.len() > 0 {
        assert(s[0] == text[0]);
        assert(s =~= text + after);
        lemma_trim_end(text, after);
    } else if after.len() > 0 {
        let less = after.drop_first();
        assert(s[0] == after[0]);
        assert(s.drop_first() =~= before + text + less);
        assert forall|i: int| 0 <= i < less.len() implies is_space(#[trigger] less[i]) by {
            assert(less[i] == after[i + 1]);
        }
        lemma_trim(before, text, less);
        assert(trim_of(s) == trim_of(before + text + less));
    } else {
        assert(s =~= text);
    }
}

} // verus!
