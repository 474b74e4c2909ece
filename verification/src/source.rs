//! Source files: finding them on disk, and showing lines of them.
use std::path::Path;
use vstd::prelude::*;

use crate::dialogue::{ran, Call, CallShape, FileText, Flow, Pause, Talk, TalkShape};
use crate::number::{dec_of, hex_of, push_dec, push_hex};
use crate::target::{read_source_window, window_of, SourceText, SourceView};
use crate::text::{begins, cut_last, ends, ends_with, lemma_parts, rsplit_once, starts_with};
use crate::words::{lines, lines_of};

verus! {

// ---------------------------------------------------------------------------
// Paths

/// The last part of a path: what stands behind its last slash.
pub open spec fn base_name(path: Seq<char>) -> Seq<char> {
    match cut_last(path, '/') {
        Some((_, name)) => name,
        None => path,
    }
}

/// The last part of a path: what stands behind its last slash.
pub(crate) fn last_part(path: &str) -> (r: String)
    ensures
        r@ == base_name(path@),
{
    match rsplit_once(path, '/') {
        Some((_, name)) => name,
        None => path.to_owned(),
    }
}

/// A name of its own: there is one, and it stands for neither a directory nor the one above it.
pub open spec fn is_plain(name: Seq<char>) -> bool {
    name.len() > 0 && name != "."@ && name != ".."@
}

/// The file name of a path: its final component, where that is a plain name. Slashes and dots at
/// the end do not count.
pub open spec fn file_name_of(path: Seq<char>) -> Option<Seq<char>>
    decreases path.len(),
{
    match cut_last(path, '/') {
        None => if is_plain(path) {
            Some(path)
        } else {
            None
        },
        Some((dir, name)) => {
            proof {
                lemma_parts(path, '/');
            }
            if is_plain(name) {
                Some(name)
            } else if name == ".."@ {
                None
            } else {
                file_name_of(dir)
            }
        },
    }
}

/// `std::path::Path::file_name`: the final component of a path, none where it is a root or the
/// directory above. Slashes and dots at the end are normalized away.
#[verifier::external_body]
pub(crate) fn file_name(path: &str) -> (r: Option<String>)
    ensures
        r.deep_view() == file_name_of(path@),
{
    Path::new(path).file_name().map(|p| p.to_string_lossy().into_owned())
}

/// A path to a plain name: by itself, in the root, or in a directory whose path has no slash or
/// dot at its end that could be left out.
pub open spec fn is_simple(path: Seq<char>) -> bool {
    match cut_last(path, '/') {
        None => is_plain(path),
        Some((dir, name)) => is_plain(name) && (dir.len() == 0 || dir == "."@ || is_plain(
            base_name(dir),
        )),
    }
}

/// The path without the plain name at its end.
pub open spec fn simple_parent(path: Seq<char>) -> Seq<char> {
    match cut_last(path, '/') {
        None => Seq::empty(),
        Some((dir, _)) => if dir.len() == 0 {
            "/"@
        } else {
            dir
        },
    }
}

/// What `Path::parent` gives for a path that is not simple.
pub uninterp spec fn path_parent(path: Seq<char>) -> Option<Seq<char>>;

/// The path without its final component.
pub open spec fn parent_of(path: Seq<char>) -> Option<Seq<char>> {
    if is_simple(path) {
        Some(simple_parent(path))
    } else {
        path_parent(path)
    }
}

/// `std::path::Path::parent`: the path without its final component, none for a root or an empty
/// path. How a path is then written that has slashes or dots to leave out is left to `std`; the
/// result is named.
#[verifier::external_body]
pub(crate) fn parent(path: &str) -> (r: Option<String>)
    ensures
        is_simple(path@) ==> r.deep_view() == Some(simple_parent(path@)),
        !is_simple(path@) ==> r.deep_view() == path_parent(path@),
{
    Path::new(path).parent().map(|p| p.to_string_lossy().into_owned())
}

/// A relative path seen from a directory.
pub open spec fn join_path(dir: Seq<char>, path: Seq<char>) -> Seq<char> {
    if begins(path, "/"@) || dir.len() == 0 {
        path
    } else if ends(dir, "/"@) {
        dir + path
    } else {
        dir + "/"@ + path
    }
}

/// A relative path seen from a directory.
pub fn join(dir: &str, path: &str) -> (r: String)
    ensures
        r@ == join_path(dir@, path@),
{
    if starts_with(path, "/") || dir.unicode_len() == 0 {
        path.to_owned()
    } else {
        let mut out = dir.to_owned();
        if !ends_with(dir, "/") {
            out.append("/");
        }
        out.append(path);
        out
    }
}

// ---------------------------------------------------------------------------
// Finding a source file

/// Looks for a path in a directory.
pub open spec fn in_dir_of(t: TalkShape, dir: Option<Seq<char>>, path: Seq<char>) -> Flow<
    Option<Seq<char>>,
    TalkShape,
> {
    match dir {
        None => Flow::Done(None, t),
        Some(dir) => t.path_exists(join_path(dir, path)).bind(
            |there: bool, t: TalkShape|
                Flow::Done(
                    if there {
                        Some(join_path(dir, path))
                    } else {
                        None
                    },
                    t,
                ),
        ),
    }
}

/// Looks for a path in the directory of a program and the one above it.
pub open spec fn near_program_of(t: TalkShape, program: Seq<char>, path: Seq<char>) -> Flow<
    Seq<char>,
    TalkShape,
> {
    match parent_of(program) {
        None => Flow::Done(path, t),
        Some(dir) => in_dir_of(t, Some(dir), path).bind(
            |found: Option<Seq<char>>, t: TalkShape|
                match found {
                    Some(file) => Flow::Done(file, t),
                    None => in_dir_of(t, parent_of(dir), path).bind(
                        |found: Option<Seq<char>>, t: TalkShape|
                            Flow::Done(
                                match found {
                                    Some(file) => file,
                                    None => path,
                                },
                                t,
                            ),
                    ),
                },
        ),
    }
}

/// Where a source file is: as its path says, or in the working directory, or in the directory
/// of the program or the one above it; the path itself where it is nowhere.
pub open spec fn resolve_of(t: TalkShape, program: Seq<char>, path: Seq<char>) -> Flow<
    Seq<char>,
    TalkShape,
> {
    t.path_exists(path).bind(
        |there: bool, t: TalkShape|
            if there || begins(path, "/"@) {
                Flow::Done(path, t)
            } else {
                t.current_dir().bind(
                    |dir: Option<Seq<char>>, t: TalkShape|
                        in_dir_of(t, dir, path).bind(
                            |found: Option<Seq<char>>, t: TalkShape|
                                match found {
                                    Some(file) => Flow::Done(file, t),
                                    None => near_program_of(t, program, path),
                                },
                        ),
                )
            },
    )
}

/// Where a source file is: as its path says, or in the directory of the program; the path itself
/// where it is in neither place.
pub open spec fn resolve_beside_of(t: TalkShape, program: Seq<char>, path: Seq<char>) -> Flow<
    Seq<char>,
    TalkShape,
> {
    t.path_exists(path).bind(
        |there: bool, t: TalkShape|
            if there || begins(path, "/"@) {
                Flow::Done(path, t)
            } else {
                in_dir_of(t, parent_of(program), path).bind(
                    |found: Option<Seq<char>>, t: TalkShape|
                        Flow::Done(
                            match found {
                                Some(file) => file,
                                None => path,
                            },
                            t,
                        ),
                )
            },
    )
}

/// Looks for a path in a directory.
fn in_dir(talk: &mut Talk, dir: Option<String>, path: &str) -> (r: Result<Option<String>, Pause>)
    ensures
        ran(r, final(talk)@, in_dir_of(old(talk)@, dir.deep_view(), path@)),
{
    match dir {
        None => Ok(None),
        Some(dir) => {
            let candidate = join(dir.as_str(), path);
            if talk.path_exists(candidate.as_str())? {
                Ok(Some(candidate))
            } else {
                Ok(None)
            }
        },
    }
}

/// Where a source file is: as its path says, or in the working directory, or in the directory
/// of the program or the one above it; the path itself where it is nowhere.
pub fn resolve_source_path(talk: &mut Talk, program: &str, path: &str) -> (r: Result<
    String,
    Pause,
>)
    ensures
        ran(r, final(talk)@, resolve_of(old(talk)@, program@, path@)),
{
    if talk.path_exists(path)? || starts_with(path, "/") {
        return Ok(path.to_owned());
    }
    let current = talk.current_dir()?;
    if let Some(found) = in_dir(talk, current, path)? {
        return Ok(found);
    }
    match parent(program) {
        None => Ok(path.to_owned()),
        Some(dir) => {
            let above = parent(dir.as_str());
            if let Some(found) = in_dir(talk, Some(dir), path)? {
                return Ok(found);
            }
            match in_dir(talk, above, path)? {
                Some(found) => Ok(found),
                None => Ok(path.to_owned()),
            }
        },
    }
}

/// Where a source file is: as its path says, or in the directory of the program; the path itself
/// where it is in neither place.
pub fn resolve_beside(talk: &mut Talk, program: &str, path: &str) -> (r: Result<String, Pause>)
    ensures
        ran(r, final(talk)@, resolve_beside_of(old(talk)@, program@, path@)),
{
    if talk.path_exists(path)? || starts_with(path, "/") {
        return Ok(path.to_owned());
    }
    let dir = parent(program);
    match in_dir(talk, dir, path)? {
        Some(found) => Ok(found),
        None => Ok(path.to_owned()),
    }
}

// ---------------------------------------------------------------------------
// Showing lines

/// The place of a source line.
pub open spec fn place(path: Seq<char>, line: u64) -> Seq<char> {
    path + ":"@ + dec_of(line as nat)
}

/// The place of a source line.
fn place_text(path: &str, line: u64) -> (r: String)
    ensures
        r@ == place(path@, line),
{
    let mut out = path.to_owned();
    out.append(":");
    push_dec(&mut out, line);
    out
}

/// What is printed for a source line of a file.
pub open spec fn shown_line(
    path: Seq<char>,
    line: u64,
    contents: Result<Seq<char>, Seq<char>>,
) -> Seq<char> {
    match contents {
        Err(_) => "Unable to read source file: "@ + path,
        Ok(text) => {
            let index: int = if line == 0 {
                0
            } else {
                line - 1
            };
            if index < lines_of(text).len() {
                place(path, line) + "\n\x1b[33m"@ + lines_of(text)[index] + "\x1b[0m"@
            } else {
                place(path, line) + " (line not found)"@
            }
        },
    }
}

/// Printing one source line from the file that its path was found to mean.
pub open spec fn print_line_of(
    t: TalkShape,
    found: Seq<char>,
    path: Seq<char>,
    line: u64,
) -> Flow<(), TalkShape> {
    t.file(CallShape::ReadFile(found)).bind(
        |contents: Result<Seq<char>, Seq<char>>, t: TalkShape|
            Flow::Done((), t.say(shown_line(path, line, contents))),
    )
}

/// Printing one source line from disk.
pub open spec fn print_source_of(
    t: TalkShape,
    program: Seq<char>,
    path: Seq<char>,
    line: u64,
) -> Flow<(), TalkShape> {
    resolve_of(t, program, path).bind(
        |found: Seq<char>, t: TalkShape| print_line_of(t, found, path, line),
    )
}

/// Printing one source line from disk, looked for beside the program only.
pub open spec fn print_source_beside_of(
    t: TalkShape,
    program: Seq<char>,
    path: Seq<char>,
    line: u64,
) -> Flow<(), TalkShape> {
    resolve_beside_of(t, program, path).bind(
        |found: Seq<char>, t: TalkShape| print_line_of(t, found, path, line),
    )
}

/// Prints one source line from disk.
pub fn print_source(talk: &mut Talk, program: &str, path: &str, line: u64) -> (r: Result<(), Pause>)
    ensures
        ran(r, final(talk)@, print_source_of(old(talk)@, program@, path@, line)),
{
    let found = resolve_source_path(talk, program, path)?;
    print_line(talk, found, path, line)
}

/// Prints one source line from disk, looked for beside the program only.
pub fn print_source_beside(talk: &mut Talk, program: &str, path: &str, line: u64) -> (r: Result<
    (),
    Pause,
>)
    ensures
        ran(r, final(talk)@, print_source_beside_of(old(talk)@, program@, path@, line)),
{
    let found = resolve_beside(talk, program, path)?;
    print_line(talk, found, path, line)
}

/// Prints one source line from the file that its path was found to mean.
fn print_line(talk: &mut Talk, found: String, path: &str, line: u64) -> (r: Result<(), Pause>)
    ensures
        ran(r, final(talk)@, print_line_of(old(talk)@, found@, path@, line)),
{
    let contents = talk.file(Call::ReadFile(found))?;
    match contents.text {
        Err(_) => {
            let mut out = "Unable to read source file: ".to_owned();
            out.append(path);
            talk.say(out.as_str());
        },
        Ok(text) => {
            let all = lines(text.as_str());
            let index: u64 = line.saturating_sub(1);
            let mut out = place_text(path, line);
            if index < all.len() as u64 {
                out.append("\n\x1b[33m");
                out.append(all[index as usize].as_str());
                out.append("\x1b[0m");
            } else {
                out.append(" (line not found)");
            }
            talk.say(out.as_str());
        },
    }
    Ok(())
}

/// The lines of a file around a line, where the file can be read.
pub open spec fn window_from(
    path: Seq<char>,
    contents: Result<Seq<char>, Seq<char>>,
    line: u64,
    context: usize,
) -> Result<SourceText, Seq<char>> {
    match contents {
        Ok(text) => Ok(
            SourceText {
                path: Some(path),
                current_line: Some(line),
                lines: window_of(lines_of(text), line as nat, context as nat),
            },
        ),
        Err(e) => Err(e),
    }
}

/// A view of part of a file, or the wording of the error that stands in its way.
#[derive(Debug)]
pub struct Window {
    pub view: Result<SourceView, String>,
}

impl DeepView for Window {
    type V = Result<SourceText, Seq<char>>;

    open spec fn deep_view(&self) -> Result<SourceText, Seq<char>> {
        match self.view {
            Ok(view) => Ok(view@),
            Err(e) => Err(e@),
        }
    }
}

/// Reading the lines around a line from the file that a path is found to mean, or else from the
/// path as it stands.
pub open spec fn source_window_of(
    t: TalkShape,
    program: Seq<char>,
    path: Seq<char>,
    line: u64,
    context: usize,
) -> Flow<Result<SourceText, Seq<char>>, TalkShape> {
    resolve_of(t, program, path).bind(
        |found: Seq<char>, t: TalkShape|
            t.file(CallShape::ReadFile(found)).bind(
                |contents: Result<Seq<char>, Seq<char>>, t: TalkShape|
                    if contents is Ok {
                        Flow::Done(window_from(found, contents, line, context), t)
                    } else {
                        t.file(CallShape::ReadFile(path)).bind(
                            |contents: Result<Seq<char>, Seq<char>>, t: TalkShape|
                                Flow::Done(window_from(path, contents, line, context), t),
                        )
                    },
            ),
    )
}

/// Reads the lines around a line from the file that a path is found to mean, or else from the
/// path as it stands.
pub fn source_window(talk: &mut Talk, program: &str, path: &str, line: u64, context: usize) -> (r:
    Result<Window, Pause>)
    ensures
        ran(r, final(talk)@, source_window_of(old(talk)@, program@, path@, line, context)),
{
    let found = resolve_source_path(talk, program, path)?;
    let contents = talk.file(Call::ReadFile(found.clone()))?;
    if let Ok(text) = contents.text {
        return Ok(
            Window {
                view: Ok(read_source_window(found.as_str(), text.as_str(), line, context)),
            },
        );
    }
    let contents: FileText = talk.file(Call::ReadFile(path.to_owned()))?;
    match contents.text {
        Ok(text) => Ok(
            Window { view: Ok(read_source_window(path, text.as_str(), line, context)) },
        ),
        Err(e) => Ok(Window { view: Err(e) }),
    }
}

// ---------------------------------------------------------------------------
// Places in the code

/// The place of an address by its function and its source line, where there is one of them.
pub open spec fn code_place(func: Option<Seq<char>>, line: Option<(Seq<char>, u64)>) -> Option<
    Seq<char>,
> {
    match (func, line) {
        (Some(f), Some((file, number))) => Some(
            "At "@ + f + " ("@ + file + ":"@ + dec_of(number as nat) + ")"@,
        ),
        (Some(f), None) => Some("At "@ + f + " (no line info)"@),
        (None, Some((file, number))) => Some("At "@ + file + ":"@ + dec_of(number as nat)),
        (None, None) => None,
    }
}

/// The place of an address by its function and its source line, where there is one of them.
pub fn code_place_text(func: Option<String>, line: Option<(String, u64)>) -> (r: Option<String>)
    ensures
        r.deep_view() == code_place(func.deep_view(), line.deep_view()),
{
    match (func, line) {
        (Some(f), Some((file, number))) => {
            let mut out = "At ".to_owned();
            out.append(f.as_str());
            out.append(" (");
            out.append(file.as_str());
            out.append(":");
            push_dec(&mut out, number);
            out.append(")");
            Some(out)
        },
        (Some(f), None) => {
            let mut out = "At ".to_owned();
            out.append(f.as_str());
            out.append(" (no line info)");
            Some(out)
        },
        (None, Some((file, number))) => {
            let mut out = "At ".to_owned();
            out.append(file.as_str());
            out.append(":");
            push_dec(&mut out, number);
            Some(out)
        },
        (None, None) => None,
    }
}

/// The place of an address that nothing is known of.
pub open spec fn bare_place(pc: u64) -> Seq<char> {
    "At 0x"@ + hex_of(pc as nat) + " (no DWARF match)"@
}

/// The place of an address that nothing is known of.
pub fn bare_place_text(pc: u64) -> (r: String)
    ensures
        r@ == bare_place(pc),
{
    let mut out = "At 0x".to_owned();
    push_hex(&mut out, pc);
    out.append(" (no DWARF match)");
    out
}

} // verus!
