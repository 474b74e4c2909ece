//! The command history that one session leaves to the next.
use vstd::prelude::*;

use crate::text::{first_index, lemma_first_index, lemma_texts_push, texts};
use crate::words::{join_from, join_of, lines, lines_of, trim, trim_of, without_cr};

verus! {

/// The most entries that are kept in a file.
pub const HISTORY_LIMIT: usize = 500;

/// The last `n` items of a list, or all if there are fewer.
pub open spec fn last_of<A>(s: Seq<A>, n: nat) -> Seq<A> {
    if s.len() > n {
        s.skip(s.len() - n)
    } else {
        s
    }
}

/// The lines that hold more than white space.
pub open spec fn not_blank(lines: Seq<Seq<char>>) -> Seq<Seq<char>>
    decreases lines.len(),
{
    if lines.len() == 0 {
        Seq::empty()
    } else if trim_of(lines.last()).len() > 0 {
        not_blank(lines.drop_last()).push(lines.last())
    } else {
        not_blank(lines.drop_last())
    }
}

/// The entries that the text of a history file holds.
pub open spec fn history_entries(contents: Seq<char>) -> Seq<Seq<char>> {
    not_blank(lines_of(contents))
}

/// The text that keeps a history: its last entries, each on a line.
pub open spec fn history_text_of(history: Seq<Seq<char>>) -> Seq<char> {
    join_of(last_of(history, HISTORY_LIMIT as nat), "\n"@) + "\n"@
}

/// Loads the entries of a history file; a file that cannot be read has none.
pub fn load_tui_history(contents: &Option<String>) -> (r: Vec<String>)
    ensures
        texts(r@) == (match contents {
            Some(text) => history_entries(text@),
            None => Seq::empty(),
        }),
{
    let mut out: Vec<String> = Vec::new();
    assert(texts(out@) =~= Seq::<Seq<char>>::empty());
    if let Some(text) = contents {
        let all = lines(text.as_str());
        let ghost want = texts(all@);
        assert(want.take(0) =~= Seq::<Seq<char>>::empty());
        for i in 0..all.len()
            invariant
                want == texts(all@),
                texts(out@) == not_blank(want.take(i as int)),
        {
            assert(want.take(i + 1).drop_last() =~= want.take(i as int));
            assert(want.take(i + 1).last() == all@[i as int]@);
            if trim(all[i].as_str()).as_str().unicode_len() > 0 {
                let entry = all[i].clone();
                proof {
                    lemma_texts_push(out@, entry);
                }
                out.push(entry);
            }
        }
        assert(want.take(all@.len() as int) =~= want);
    }
    out
}

/// The text that keeps a history.
pub fn history_text(history: &Vec<String>) -> (r: String)
    ensures
        r@ == history_text_of(texts(history@)),
{
    let start: usize = if history.len() > HISTORY_LIMIT {
        history.len() - HISTORY_LIMIT
    } else {
        0
    };
    let mut out = join_from(history, start, "\n");
    out.append("\n");
    assert(texts(history@).skip(start as int) =~= last_of(texts(history@), HISTORY_LIMIT as nat));
    out
}

// ---------------------------------------------------------------------------
// What is kept is read back

/// A line of text that is not blank.
pub open spec fn is_entry(s: Seq<char>) -> bool {
    &&& !s.contains('\n')
    &&& trim_of(s).len() > 0
    &&& s.last() != '\r'
}

/// The position of a line feed at the end of a text without one.
proof fn lemma_only_newline(s: Seq<char>)
    requires
        !s.contains('\n'),
    ensures
        first_index(s.push('\n'), '\n') == Some(s.len() as int),
    decreases s.len(),
{
    if s.len() > 0 {
        assert(s.contains(s[0]));
        assert forall|i: int| 0 <= i < s.drop_first().len() implies s.drop_first()[i] != '\n' by {
            assert(s.contains(s[i + 1]));
        }
        lemma_only_newline(s.drop_first());
        assert(s.push('\n').drop_first() =~= s.drop_first().push('\n'));
    }
}

/// The position of the first line feed does not depend on what comes after it.
proof fn lemma_newline_before(a: Seq<char>, b: Seq<char>)
    requires
        first_index(a, '\n') is Some,
    ensures
        first_index(a + b, '\n') == first_index(a, '\n'),
    decreases a.len(),
{
    if a[0] != '\n' {
        lemma_newline_before(a.drop_first(), b);
        assert((a + b).drop_first() =~= a.drop_first() + b);
    }
}

/// A text that ends with a line feed keeps its lines when more is put after it.
proof fn lemma_lines_concat(a: Seq<char>, b: Seq<char>)
    requires
        a.len() == 0 || a.last() == '\n',
    ensures
        lines_of(a + b) == lines_of(a) + lines_of(b),
    decreases a.len(),
{
    if a.len() == 0 {
        assert(a + b =~= b);
        assert(lines_of(a) + lines_of(b) =~= lines_of(b));
    } else {
        lemma_first_index(a, '\n');
        assert(a.contains(a.last()));
        lemma_newline_before(a, b);
        let i = first_index(a, '\n')->0;
        assert((a + b).take(i) =~= a.take(i));
        assert((a + b).skip(i + 1) =~= a.skip(i + 1) + b);
        lemma_lines_concat(a.skip(i + 1), b);
        assert(seq![without_cr(a.take(i))] + (lines_of(a.skip(i + 1)) + lines_of(b))
            =~= lines_of(a) + lines_of(b));
    }
}

/// A text without line feeds is the one line of itself and a line feed.
proof fn lemma_one_line(s: Seq<char>)
    requires
        is_entry(s),
    ensures
        lines_of(s.push('\n')) == seq![s],
{
    lemma_only_newline(s);
    assert(s.push('\n').take(s.len() as int) =~= s);
    assert(s.push('\n').skip(s.len() as int + 1) =~= Seq::<char>::empty());
    assert(lines_of(Seq::<char>::empty()) =~= Seq::<Seq<char>>::empty());
    assert(seq![s] + Seq::<Seq<char>>::empty() =~= seq![s]);
    assert(without_cr(s) == s);
}

/// Entries that are joined by line feeds are the lines of the text.
proof fn lemma_lines_of_joined(entries: Seq<Seq<char>>)
    requires
        entries.len() > 0,
        forall|i: int| 0 <= i < entries.len() ==> is_entry(#[trigger] entries[i]),
    ensures
        lines_of(join_of(entries, "\n"@) + "\n"@) == entries,
    decreases entries.len(),
{
    reveal_strlit("\n");
    let last = entries.last();
    lemma_one_line(last);
    assert(last + "\n"@ =~= last.push('\n'));
    if entries.len() == 1 {
        assert(seq![last] =~= entries);
    } else {
        let rest = entries.drop_last();
        assert forall|i: int| 0 <= i < rest.len() implies is_entry(#[trigger] rest[i]) by {
            assert(is_entry(entries[i]));
        }
        lemma_lines_of_joined(rest);
        let head = join_of(rest, "\n"@) + "\n"@;
        assert(join_of(entries, "\n"@) + "\n"@ =~= head + last.push('\n'));
        lemma_lines_concat(head, last.push('\n'));
        assert(rest + seq![last] =~= entries);
    }
}

/// Entries are not blank.
proof fn lemma_entries_not_blank(entries: Seq<Seq<char>>)
    requires
        forall|i: int| 0 <= i < entries.len() ==> is_entry(#[trigger] entries[i]),
    ensures
        not_blank(entries) == entries,
    decreases entries.len(),
{
    if entries.len() > 0 {
        let rest = entries.drop_last();
        assert forall|i: int| 0 <= i < rest.len() implies is_entry(#[trigger] rest[i]) by {
            assert(is_entry(entries[i]));
        }
        lemma_entries_not_blank(rest);
        assert(is_entry(entries[entries.len() - 1]));
        assert(rest.push(entries.last()) =~= entries);
    }
}

/// What one session keeps of its history is what the next one loads: the last entries, in order.
pub proof fn lemma_history_reads_back(history: Seq<Seq<char>>)
    requires
        forall|i: int| 0 <= i < history.len() ==> is_entry(#[trigger] history[i]),
    ensures
        history_entries(history_text_of(history)) == last_of(history, HISTORY_LIMIT as nat),
{
    let kept = last_of(history, HISTORY_LIMIT as nat);
    assert forall|i: int| 0 <= i < kept.len() implies is_entry(#[trigger] kept[i]) by {
        assert(kept[i] == history[history.len() - kept.len() + i]);
    }
    if kept.len() > 0 {
        lemma_lines_of_joined(kept);
        lemma_entries_not_blank(kept);
    } else {
        reveal_strlit("\n");
        let text = history_text_of(history);
        assert(text =~= Seq::<char>::empty().push('\n'));
        lemma_only_newline(Seq::empty());
        assert(text.take(0) =~= Seq::<char>::empty());
        assert(text.skip(1) =~= Seq::<char>::empty());
        assert(lines_of(Seq::<char>::empty()) =~= Seq::<Seq<char>>::empty());
        assert(lines_of(text) =~= seq![Seq::<char>::empty()]);
        assert(lines_of(text).drop_last() =~= Seq::<Seq<char>>::empty());
        assert(trim_of(Seq::<char>::empty()).len() == 0);
        assert(not_blank(Seq::<Seq<char>>::empty()) =~= Seq::<Seq<char>>::empty());
        assert(not_blank(lines_of(text)) =~= Seq::<Seq<char>>::empty());
    }
}

} // verus!
