//! Which source file a path is found to mean, and which of its lines are shown.
use vstd::prelude::*;

use crate::dialogue::{CallShape, Flow, ReplyShape, TalkShape};
use crate::number::dec_of;
use crate::source::{
    join_path, parent_of, print_source_of, resolve_beside_of, resolve_of, source_window_of,
};
use crate::target::{window_of, SourceText};
use crate::text::begins;
use crate::words::lines_of;

verus! {

/// The files that are there: their contents, where they can be read, and the working directory.
pub struct Disk {
    pub there: Set<Seq<char>>,
    pub contents: Map<Seq<char>, Seq<char>>,
    pub dir: Option<Seq<char>>,
}

impl Disk {
    /// A reply to a call tells what is so.
    pub open spec fn tells(self, call: CallShape, reply: ReplyShape) -> bool {
        match call {
            CallShape::PathExists(path) => reply == ReplyShape::Exists(self.there.contains(path)),
            CallShape::CurrentDir => reply == ReplyShape::Dir(self.dir),
            CallShape::ReadFile(path) => reply matches ReplyShape::File(r) && (r is Ok
                == self.contents.dom().contains(path)) && (r is Ok ==> r->Ok_0
                == self.contents[path]),
            _ => true,
        }
    }

    /// A path seen from a directory is there.
    pub open spec fn has_in(self, dir: Option<Seq<char>>, path: Seq<char>) -> bool {
        dir is Some && self.there.contains(join_path(dir->Some_0, path))
    }
}

/// All that was heard from one point of a talk to another tells what is so.
pub open spec fn found_on(a: TalkShape, b: TalkShape, disk: Disk) -> bool {
    forall|i: int|
        a.heard.len() <= i < b.heard.len() ==> disk.tells(
            (#[trigger] b.heard[i]).0,
            b.heard[i].1,
        )
}

/// A talk has gone on from one point to another.
pub open spec fn later(a: TalkShape, b: TalkShape) -> bool {
    &&& a.out == b.out
    &&& a.heard.len() <= b.heard.len()
    &&& forall|i: int| 0 <= i < a.heard.len() ==> #[trigger] a.heard[i] == b.heard[i]
}

/// The directory above that of a program.
pub open spec fn above(program: Seq<char>) -> Option<Seq<char>> {
    match parent_of(program) {
        Some(dir) => parent_of(dir),
        None => None,
    }
}

/// A path is looked for as it stands, in the working directory, in that of the program and in the
/// one above, and means the first file that is there; where there is none, and where it is
/// absolute, it stays as it is.
pub open spec fn is_meant(disk: Disk, program: Seq<char>, path: Seq<char>, found: Seq<char>) -> bool {
    if disk.there.contains(path) || begins(path, "/"@) {
        found == path
    } else if disk.has_in(disk.dir, path) {
        found == join_path(disk.dir->Some_0, path)
    } else if disk.has_in(parent_of(program), path) {
        found == join_path(parent_of(program)->Some_0, path)
    } else if disk.has_in(above(program), path) {
        found == join_path(above(program)->Some_0, path)
    } else {
        found == path
    }
}

/// The first place that has a source file is found.
#[verifier::rlimit(50)]
pub proof fn lemma_file_is_found(t: TalkShape, program: Seq<char>, path: Seq<char>, disk: Disk)
    ensures
        resolve_of(t, program, path) matches Flow::Done(found, e) ==> later(t, e) && (found_on(
            t,
            e,
            disk,
        ) ==> is_meant(disk, program, path, found)),
{
    if let Flow::Done(there, t1) = t.path_exists(path) {
        if !there && !begins(path, "/"@) {
            if let Flow::Done(dir, t2) = t1.current_dir() {
                if let Flow::Done(found, e) = resolve_of(t, program, path) {
                    if found_on(t, e, disk) {
                        let n = t.heard.len() as int;
                        assert(disk.tells(e.heard[n].0, e.heard[n].1));
                        assert(disk.tells(e.heard[n + 1].0, e.heard[n + 1].1));
                        assert(t1.heard[n] == e.heard[n]);
                        assert(t2.heard[n + 1] == e.heard[n + 1]);
                        assert(dir == disk.dir);
                        if e.heard.len() > n + 2 {
                            assert(disk.tells(e.heard[n + 2].0, e.heard[n + 2].1));
                        }
                        if e.heard.len() > n + 3 {
                            assert(disk.tells(e.heard[n + 3].0, e.heard[n + 3].1));
                        }
                        if e.heard.len() > n + 4 {
                            assert(disk.tells(e.heard[n + 4].0, e.heard[n + 4].1));
                        }
                    }
                }
            }
        } else {
            let n = t.heard.len() as int;
            if found_on(t, t1, disk) {
                assert(disk.tells(t1.heard[n].0, t1.heard[n].1));
            }
        }
    }
}

/// A file that is looked for beside the program only is found there.
pub proof fn lemma_file_is_found_beside(
    t: TalkShape,
    program: Seq<char>,
    path: Seq<char>,
    disk: Disk,
)
    ensures
        resolve_beside_of(t, program, path) matches Flow::Done(found, e) ==> later(t, e) && (
        found_on(t, e, disk) ==> found == if !disk.there.contains(path) && !begins(path, "/"@)
            && disk.has_in(parent_of(program), path) {
            join_path(parent_of(program)->Some_0, path)
        } else {
            path
        }),
{
    if let Flow::Done(found, e) = resolve_beside_of(t, program, path) {
        if found_on(t, e, disk) {
            let n = t.heard.len() as int;
            assert(disk.tells(e.heard[n].0, e.heard[n].1));
            if e.heard.len() > n + 1 {
                assert(disk.tells(e.heard[n + 1].0, e.heard[n + 1].1));
            }
        }
    }
}

/// A path seen from a directory is that directory, one slash and the path.
pub proof fn lemma_join(dir: Seq<char>, path: Seq<char>)
    requires
        !begins(path, "/"@),
        dir.len() > 0,
    ensures
        dir.last() == '/' ==> join_path(dir, path) == dir + path,
        dir.last() != '/' ==> join_path(dir, path) == dir + seq!['/'] + path,
{
    reveal_strlit("/");
    assert("/"@ =~= seq!['/']);
    assert(dir.skip(dir.len() - 1) =~= seq![dir.last()]);
    assert(seq!['/'][0] == '/' && seq![dir.last()][0] == dir.last());
}

/// A window shows a line of the file exactly where it is no further from the current one than the
/// context reaches; the lines stand in their order, each with its number and its text, and the
/// current one alone is marked.
pub proof fn lemma_window_shows(file: Seq<Seq<char>>, current: nat, context: nat, number: nat)
    ensures
        ({
            let window = window_of(file, current, context);
            &&& (exists|i: int| 0 <= i < window.len() && (#[trigger] window[i]).number == number)
                <==> (1 <= number <= file.len() && current <= number + context && number <= current
                + context)
            &&& forall|i: int|
                0 <= i < window.len() ==> {
                    let line = #[trigger] window[i];
                    &&& line.text == file[line.number - 1]
                    &&& line.is_current == (line.number == current)
                }
            &&& forall|i: int|
                0 < i < window.len() ==> (#[trigger] window[i]).number == window[0].number + i
        }),
{
    let window = window_of(file, current, context);
    if 1 <= number <= file.len() && current <= number + context && number <= current + context {
        let i = number - crate::target::window_start(current, context);
        assert(window[i].number == number);
    }
}

/// The source that is shown is that of the file that the path means, or of the path as it stands
/// where that file cannot be read.
pub proof fn lemma_source_is_shown(
    t: TalkShape,
    program: Seq<char>,
    path: Seq<char>,
    line: u64,
    context: usize,
    disk: Disk,
    meant: Seq<char>,
)
    requires
        is_meant(disk, program, path, meant),
    ensures
        source_window_of(t, program, path, line, context) matches Flow::Done(window, e)
            ==> found_on(t, e, disk) ==> {
            let file = if disk.contents.dom().contains(meant) {
                meant
            } else {
                path
            };
            if disk.contents.dom().contains(file) {
                window == Ok::<SourceText, Seq<char>>(
                    SourceText {
                        path: Some(file),
                        current_line: Some(line),
                        lines: window_of(
                            lines_of(disk.contents[file]),
                            line as nat,
                            context as nat,
                        ),
                    },
                )
            } else {
                window is Err
            }
        },
{
    lemma_file_is_found(t, program, path, disk);
    if let Flow::Done(found, t1) = resolve_of(t, program, path) {
        if let Flow::Done(window, e) = source_window_of(t, program, path, line, context) {
            if found_on(t, e, disk) {
                assert forall|i: int| t.heard.len() <= i < t1.heard.len() implies disk.tells(
                    (#[trigger] t1.heard[i]).0,
                    t1.heard[i].1,
                ) by {
                    assert(t1.heard[i] == e.heard[i]);
                }
                let n = t1.heard.len() as int;
                assert(disk.tells(e.heard[n].0, e.heard[n].1));
                if e.heard.len() > n + 1 {
                    assert(disk.tells(e.heard[n + 1].0, e.heard[n + 1].1));
                }
            }
        }
    }
}

/// Printing a source line prints its place and its text, as the file that the path means has it.
pub proof fn lemma_line_is_printed(
    t: TalkShape,
    program: Seq<char>,
    path: Seq<char>,
    line: u64,
    disk: Disk,
    meant: Seq<char>,
)
    requires
        is_meant(disk, program, path, meant),
        disk.contents.dom().contains(meant),
        1 <= line <= lines_of(disk.contents[meant]).len(),
    ensures
        print_source_of(t, program, path, line) matches Flow::Done(_, e) ==> found_on(t, e, disk)
            ==> e.out == t.out + (path + ":"@ + dec_of(line as nat) + "\n\x1b[33m"@ + lines_of(
            disk.contents[meant],
        )[line - 1] + "\x1b[0m"@) + "\n"@,
{
    lemma_file_is_found(t, program, path, disk);
    if let Flow::Done(found, t1) = resolve_of(t, program, path) {
        if let Flow::Done(_, e) = print_source_of(t, program, path, line) {
            if found_on(t, e, disk) {
                assert forall|i: int| t.heard.len() <= i < t1.heard.len() implies disk.tells(
                    (#[trigger] t1.heard[i]).0,
                    t1.heard[i].1,
                ) by {
                    assert(t1.heard[i] == e.heard[i]);
                }
                let n = t1.heard.len() as int;
                assert(disk.tells(e.heard[n].0, e.heard[n].1));
            }
        }
    }
}

} // verus!
