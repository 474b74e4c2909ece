//! What the panes of the terminal interface show.
use vstd::prelude::*;

use crate::number::{
    dec, dec_of, hex_of, hex_padded_of, pad_end_of, pad_start_of, push_hex, push_hex_padded,
    push_padded_end, push_padded_start,
};
use crate::target::{
    BreakpointView, FrameShape, LineText, RegisterShape, RegisterValue, SnapshotShape, SourceLine,
    SourceView, StackFrame, TargetSnapshot,
};
use crate::text::{lemma_texts_push, texts};

use super::app::{TuiApp, UiShape};

verus! {

/// What stands before the command that is being typed.
pub const PROMPT: &'static str = "rust_dbg> ";

/// A line of a pane, and whether it is the current one.
#[derive(Debug)]
pub struct ShownLine {
    pub text: String,
    pub is_current: bool,
}

/// A line of a pane, as mathematical values.
pub struct ShownShape {
    pub text: Seq<char>,
    pub is_current: bool,
}

impl DeepView for ShownLine {
    type V = ShownShape;

    open spec fn deep_view(&self) -> ShownShape {
        ShownShape { text: self.text@, is_current: self.is_current }
    }
}

// ---------------------------------------------------------------------------
// Windows

/// How many lines a pane of a height has room for within its border.
pub open spec fn room(height: u16) -> nat {
    if height < 2 {
        0
    } else {
        (height - 2) as nat
    }
}

/// How many lines a pane of a height has room for within its border.
fn inner_height(height: u16) -> (r: usize)
    ensures
        r == room(height),
{
    if height < 2 {
        0
    } else {
        (height - 2) as usize
    }
}

/// The first item that is shown of `len` items in a pane scrolled by `offset`.
pub open spec fn window_from(len: nat, offset: nat, room: nat) -> nat {
    let last: nat = if len > room {
        (len - room) as nat
    } else {
        0
    };
    if offset < last {
        offset
    } else {
        last
    }
}

/// The items that a pane scrolled by `offset` shows.
pub open spec fn window_of<A>(items: Seq<A>, offset: nat, room: nat) -> Seq<A> {
    let from = window_from(items.len(), offset, room) as int;
    items.subrange(
        from,
        if from + room < items.len() {
            from + room
        } else {
            items.len() as int
        },
    )
}

/// Slices list items to the visible scroll window of a pane.
pub fn visible_items(items: &Vec<String>, offset: u16, height: u16) -> (r: Vec<String>)
    ensures
        texts(r@) == window_of(texts(items@), offset as nat, room(height)),
{
    let space: usize = inner_height(height);
    let len: usize = items.len();
    let last: usize = if len > space {
        len - space
    } else {
        0
    };
    let from: usize = if (offset as usize) < last {
        offset as usize
    } else {
        last
    };
    let to: usize = if len - from > space {
        from + space
    } else {
        len
    };
    let mut out: Vec<String> = Vec::new();
    let ghost all = texts(items@);
    assert(texts(out@) =~= all.subrange(from as int, from as int));
    for i in from..to
        invariant
            from <= to <= items@.len(),
            all == texts(items@),
            texts(out@) == all.subrange(from as int, i as int),
    {
        let item = items[i].clone();
        proof {
            lemma_texts_push(out@, item);
        }
        out.push(item);
        assert(all.subrange(from as int, i as int).push(item@) =~= all.subrange(
            from as int,
            i + 1,
        ));
    }
    out
}

/// A window shows as many items as there is room for, or else all of them; scrolling moves it by
/// one item at a time and stops at the end.
pub proof fn lemma_window<A>(items: Seq<A>, offset: nat, room: nat)
    ensures
        window_of(items, offset, room).len() == (if items.len() < room {
            items.len()
        } else {
            room
        }),
        items.len() <= room ==> window_of(items, offset, room) == items,
        offset + room < items.len() ==> window_of(items, offset + 1, room) == items.subrange(
            offset as int + 1,
            offset as int + 1 + room,
        ),
        offset + room >= items.len() ==> window_of(items, offset + 1, room) == window_of(
            items,
            offset,
            room,
        ),
{
    if items.len() <= room {
        assert(window_of(items, offset, room) =~= items);
    }
}

// ---------------------------------------------------------------------------
// Source

/// The title of the source pane.
pub open spec fn source_title_of(snapshot: SnapshotShape) -> Seq<char> {
    match (snapshot.source.path, snapshot.pc) {
        (Some(path), Some(pc)) => "Source  "@ + path + "  pc=0x"@ + hex_of(pc as nat),
        (Some(path), None) => "Source  "@ + path,
        (None, Some(pc)) => "Source  pc=0x"@ + hex_of(pc as nat),
        (None, None) => "Source"@,
    }
}

/// The title of the source pane.
pub fn source_title(snapshot: &TargetSnapshot) -> (r: String)
    ensures
        r@ == source_title_of(snapshot.deep_view()),
{
    match &snapshot.source.path {
        Some(path) => {
            let mut out = "Source  ".to_owned();
            out.append(path.as_str());
            if let Some(pc) = snapshot.pc {
                out.append("  pc=0x");
                push_hex(&mut out, pc);
            }
            out
        },
        None => {
            if let Some(pc) = snapshot.pc {
                let mut out = "Source  pc=0x".to_owned();
                push_hex(&mut out, pc);
                out
            } else {
                "Source".to_owned()
            }
        },
    }
}

/// A row of the source pane.
pub open spec fn source_row(line: LineText) -> ShownShape {
    ShownShape {
        text: (if line.is_current {
            ">"@
        } else {
            " "@
        }) + " "@ + pad_start_of(dec_of(line.number), 5, ' ') + "  "@ + line.text,
        is_current: line.is_current,
    }
}

/// The rows of the source pane.
pub open spec fn source_rows(lines: Seq<LineText>) -> Seq<ShownShape> {
    Seq::new(lines.len(), |i: int| source_row(lines[i]))
}

/// A row of the source pane.
fn source_line(line: &SourceLine) -> (r: ShownLine)
    ensures
        r.deep_view() == source_row(line@),
{
    let mut text = if line.is_current {
        ">".to_owned()
    } else {
        " ".to_owned()
    };
    text.append(" ");
    let number = dec(line.number);
    push_padded_start(&mut text, number.as_str(), 5, ' ');
    text.append("  ");
    text.append(line.text.as_str());
    ShownLine { text, is_current: line.is_current }
}

/// Turns source lines into rows of the source pane.
pub fn source_lines(source: &SourceView) -> (r: Vec<ShownLine>)
    ensures
        r.deep_view() == source_rows(source@.lines),
{
    let mut out: Vec<ShownLine> = Vec::new();
    let ghost want = source_rows(source@.lines);
    assert(out.deep_view() =~= want.take(0));
    for i in 0..source.lines.len()
        invariant
            want == source_rows(source@.lines),
            out.deep_view() == want.take(i as int),
    {
        let row = source_line(&source.lines[i]);
        let ghost before = out.deep_view();
        out.push(row);
        assert(out.deep_view() =~= before.push(row.deep_view()));
        assert(before.push(row.deep_view()) =~= want.take(i + 1));
    }
    assert(want.take(source.lines@.len() as int) =~= want);
    out
}

/// A row that is not the current one.
pub open spec fn plain_row(text: Seq<char>) -> ShownShape {
    ShownShape { text, is_current: false }
}

/// A row that is not the current one.
fn plain_line(text: &str) -> (r: ShownLine)
    ensures
        r.deep_view() == plain_row(text@),
{
    ShownLine { text: text.to_owned(), is_current: false }
}

/// What the source pane says where there is no source.
pub open spec fn missing_source_rows(location: Seq<char>) -> Seq<ShownShape> {
    seq![
        plain_row("No source line available for the current PC."@),
        plain_row("Location: "@ + location),
        plain_row("Continue or step until execution reaches code built with debug info."@),
    ]
}

/// Explains why the source pane cannot show source for the current address.
pub fn missing_source_lines(snapshot: &TargetSnapshot) -> (r: Vec<ShownLine>)
    ensures
        r.deep_view() == missing_source_rows(snapshot.deep_view().location),
{
    let mut location = "Location: ".to_owned();
    location.append(snapshot.location.as_str());
    let mut out: Vec<ShownLine> = Vec::new();
    out.push(plain_line("No source line available for the current PC."));
    out.push(plain_line(location.as_str()));
    out.push(
        plain_line("Continue or step until execution reaches code built with debug info."),
    );
    assert(out.deep_view() =~= missing_source_rows(snapshot.deep_view().location));
    out
}

/// The source pane: its title, its rows, and how far it is scrolled.
#[derive(Debug)]
pub struct SourcePane {
    pub title: String,
    pub rows: Vec<ShownLine>,
    pub scroll: u16,
}

/// The source pane as mathematical values.
#[verifier::ext_equal]
pub struct SourcePaneShape {
    pub title: Seq<char>,
    pub rows: Seq<ShownShape>,
    pub scroll: u16,
}

impl DeepView for SourcePane {
    type V = SourcePaneShape;

    open spec fn deep_view(&self) -> SourcePaneShape {
        SourcePaneShape {
            title: self.title@,
            rows: self.rows.deep_view(),
            scroll: self.scroll,
        }
    }
}

/// How far a pane with so many rows is scrolled: no further than to its last rows. The number of
/// rows beyond the pane is taken to sixteen bits.
pub open spec fn source_scroll_of(rows: nat, height: u16, scroll: u16) -> u16 {
    let over: nat = if rows > room(height) {
        (rows - room(height)) as nat
    } else {
        0
    };
    if scroll < over % 0x1_0000 {
        scroll
    } else {
        (over % 0x1_0000) as u16
    }
}

/// How far a pane with so many rows is scrolled.
fn source_scroll(rows: usize, height: u16, scroll: u16) -> (r: u16)
    ensures
        r == source_scroll_of(rows as nat, height, scroll),
{
    let space: usize = inner_height(height);
    let over: usize = if rows > space {
        rows - space
    } else {
        0
    };
    let most: u16 = (over % 0x1_0000) as u16;
    if scroll < most {
        scroll
    } else {
        most
    }
}

impl UiShape {
    /// What the source pane shows.
    pub open spec fn source_pane(self, height: u16) -> SourcePaneShape {
        match self.snapshot {
            None => SourcePaneShape {
                title: "Source"@,
                rows: seq![plain_row("No target snapshot"@)],
                scroll: 0,
            },
            Some(snapshot) => {
                let rows = if snapshot.source.lines.len() == 0 {
                    missing_source_rows(snapshot.location)
                } else {
                    source_rows(snapshot.source.lines)
                };
                SourcePaneShape {
                    title: source_title_of(snapshot),
                    rows,
                    scroll: source_scroll_of(rows.len(), height, self.scroll.source),
                }
            },
        }
    }
}

impl TuiApp {
    /// What the source pane shows.
    pub fn source_pane(&self, height: u16) -> (r: SourcePane)
        ensures
            r.deep_view() == self@.source_pane(height),
    {
        match self.snapshot() {
            None => {
                let mut rows: Vec<ShownLine> = Vec::new();
                rows.push(plain_line("No target snapshot"));
                let r = SourcePane { title: "Source".to_owned(), rows, scroll: 0 };
                assert(r.deep_view() =~= self@.source_pane(height));
                r
            },
            Some(snapshot) => {
                let rows = if snapshot.source.lines.len() == 0 {
                    missing_source_lines(snapshot)
                } else {
                    source_lines(&snapshot.source)
                };
                let scroll: u16 = source_scroll(rows.len(), height, self.scroll().source);
                let title = source_title(snapshot);
                assert(rows.deep_view().len() == rows@.len());
                SourcePane { title, rows, scroll }
            },
        }
    }
}

// ---------------------------------------------------------------------------
// Registers, breakpoints and frames

/// The row for a register.
pub open spec fn register_row(register: RegisterShape) -> Seq<char> {
    pad_end_of(register.name, 8, ' ') + " 0x"@ + hex_padded_of(register.value as nat, 16)
}

/// The row for a breakpoint.
pub open spec fn breakpoint_row(bp: BreakpointView) -> Seq<char> {
    "0x"@ + hex_padded_of(bp.addr as nat, 16) + "  "@ + (if bp.temporary {
        "temp"@
    } else {
        "user"@
    }) + "  "@ + (if bp.enabled {
        "enabled"@
    } else {
        "disabled"@
    })
}

/// The row for a frame.
pub open spec fn frame_row(frame: FrameShape) -> Seq<char> {
    "#"@ + pad_end_of(dec_of(frame.index), 2, ' ') + " 0x"@ + hex_padded_of(frame.pc as nat, 16)
        + " "@ + frame.location + (if frame.approximate {
        " approx"@
    } else {
        ""@
    })
}

/// The rows of the registers pane.
pub open spec fn register_rows(registers: Seq<RegisterShape>) -> Seq<Seq<char>> {
    Seq::new(registers.len(), |i: int| register_row(registers[i]))
}

/// The rows of the breakpoints pane.
pub open spec fn breakpoint_rows(breakpoints: Seq<BreakpointView>) -> Seq<Seq<char>> {
    if breakpoints.len() == 0 {
        seq!["No breakpoints"@]
    } else {
        Seq::new(breakpoints.len(), |i: int| breakpoint_row(breakpoints[i]))
    }
}

/// The rows of the backtrace pane.
pub open spec fn frame_rows(frames: Seq<FrameShape>) -> Seq<Seq<char>> {
    if frames.len() == 0 {
        seq!["No backtrace"@]
    } else {
        Seq::new(frames.len(), |i: int| frame_row(frames[i]))
    }
}

/// The rows of the registers pane.
fn register_items(registers: &Vec<RegisterValue>) -> (r: Vec<String>)
    ensures
        texts(r@) == register_rows(registers.deep_view()),
{
    let mut out: Vec<String> = Vec::new();
    let ghost want = register_rows(registers.deep_view());
    assert(texts(out@) =~= want.take(0));
    for i in 0..registers.len()
        invariant
            want == register_rows(registers.deep_view()),
            texts(out@) == want.take(i as int),
    {
        let mut row = String::new();
        push_padded_end(&mut row, registers[i].name.as_str(), 8, ' ');
        assert(row@ =~= pad_end_of(registers@[i as int].name@, 8, ' '));
        row.append(" 0x");
        push_hex_padded(&mut row, registers[i].value, 16);
        proof {
            assert(registers.deep_view()[i as int] == registers@[i as int].deep_view());
            lemma_texts_push(out@, row);
        }
        out.push(row);
        assert(want.take(i as int).push(row@) =~= want.take(i + 1));
    }
    assert(want.take(registers@.len() as int) =~= want);
    out
}

/// The rows of the breakpoints pane.
fn breakpoint_items(breakpoints: &Vec<BreakpointView>) -> (r: Vec<String>)
    ensures
        texts(r@) == breakpoint_rows(breakpoints.deep_view()),
{
    let mut out: Vec<String> = Vec::new();
    if breakpoints.len() == 0 {
        out.push("No breakpoints".to_owned());
        assert(texts(out@) =~= seq!["No breakpoints"@]);
        return out;
    }
    let ghost want = breakpoint_rows(breakpoints.deep_view());
    assert(texts(out@) =~= want.take(0));
    for i in 0..breakpoints.len()
        invariant
            breakpoints@.len() > 0,
            want == breakpoint_rows(breakpoints.deep_view()),
            texts(out@) == want.take(i as int),
    {
        let bp = breakpoints[i];
        let mut row = "0x".to_owned();
        push_hex_padded(&mut row, bp.addr, 16);
        row.append("  ");
        row.append(if bp.temporary {
            "temp"
        } else {
            "user"
        });
        row.append("  ");
        row.append(if bp.enabled {
            "enabled"
        } else {
            "disabled"
        });
        proof {
            assert(breakpoints.deep_view()[i as int] == bp);
            lemma_texts_push(out@, row);
        }
        out.push(row);
        assert(want.take(i as int).push(row@) =~= want.take(i + 1));
    }
    assert(want.take(breakpoints@.len() as int) =~= want);
    out
}

/// The row for a frame.
fn frame_item(frame: &StackFrame) -> (r: String)
    ensures
        r@ == frame_row(frame.deep_view()),
{
    let mut row = "#".to_owned();
    let index = dec(frame.index as u64);
    push_padded_end(&mut row, index.as_str(), 2, ' ');
    row.append(" 0x");
    push_hex_padded(&mut row, frame.pc, 16);
    row.append(" ");
    row.append(frame.location.as_str());
    row.append(if frame.approximate {
        " approx"
    } else {
        ""
    });
    row
}

/// The rows of the backtrace pane.
fn frame_items(frames: &Vec<StackFrame>) -> (r: Vec<String>)
    ensures
        texts(r@) == frame_rows(frames.deep_view()),
{
    let mut out: Vec<String> = Vec::new();
    if frames.len() == 0 {
        out.push("No backtrace".to_owned());
        assert(texts(out@) =~= seq!["No backtrace"@]);
        return out;
    }
    let ghost want = frame_rows(frames.deep_view());
    assert(texts(out@) =~= want.take(0));
    for i in 0..frames.len()
        invariant
            frames@.len() > 0,
            want == frame_rows(frames.deep_view()),
            texts(out@) == want.take(i as int),
    {
        let row = frame_item(&frames[i]);
        proof {
            assert(frames.deep_view()[i as int] == frames@[i as int].deep_view());
            lemma_texts_push(out@, row);
        }
        out.push(row);
        assert(want.take(i as int).push(row@) =~= want.take(i + 1));
    }
    assert(want.take(frames@.len() as int) =~= want);
    out
}

impl UiShape {
    /// What the registers pane shows.
    pub open spec fn registers_pane(self, height: u16) -> Seq<Seq<char>> {
        match self.snapshot {
            None => Seq::empty(),
            Some(snapshot) => window_of(
                register_rows(snapshot.registers),
                self.scroll.registers as nat,
                room(height),
            ),
        }
    }

    /// What the breakpoints pane shows.
    pub open spec fn breakpoints_pane(self, height: u16) -> Seq<Seq<char>> {
        match self.snapshot {
            None => Seq::empty(),
            Some(snapshot) => window_of(
                breakpoint_rows(snapshot.breakpoints),
                self.scroll.breakpoints as nat,
                room(height),
            ),
        }
    }

    /// What the backtrace pane shows.
    pub open spec fn backtrace_pane(self, height: u16) -> Seq<Seq<char>> {
        match self.snapshot {
            None => Seq::empty(),
            Some(snapshot) => window_of(
                frame_rows(snapshot.backtrace),
                self.scroll.backtrace as nat,
                room(height),
            ),
        }
    }

    /// The first message that the log pane shows: so many before the latest ones as the pane is
    /// scrolled.
    pub open spec fn first_log(self, height: u16) -> int {
        let last: int = if self.logs.len() > room(height) {
            self.logs.len() - room(height)
        } else {
            0
        };
        if last > self.scroll.log {
            last - self.scroll.log
        } else {
            0
        }
    }

    /// What the log pane shows.
    pub open spec fn log_pane(self, height: u16) -> Seq<Seq<char>> {
        self.logs.skip(self.first_log(height))
    }
}

impl TuiApp {
    /// What the registers pane shows.
    pub fn registers_pane(&self, height: u16) -> (r: Vec<String>)
        ensures
            texts(r@) == self@.registers_pane(height),
    {
        match self.snapshot() {
            None => {
                let r: Vec<String> = Vec::new();
                assert(texts(r@) =~= Seq::<Seq<char>>::empty());
                r
            },
            Some(snapshot) => visible_items(
                &register_items(&snapshot.registers),
                self.scroll().registers,
                height,
            ),
        }
    }

    /// What the breakpoints pane shows.
    pub fn breakpoints_pane(&self, height: u16) -> (r: Vec<String>)
        ensures
            texts(r@) == self@.breakpoints_pane(height),
    {
        match self.snapshot() {
            None => {
                let r: Vec<String> = Vec::new();
                assert(texts(r@) =~= Seq::<Seq<char>>::empty());
                r
            },
            Some(snapshot) => visible_items(
                &breakpoint_items(&snapshot.breakpoints),
                self.scroll().breakpoints,
                height,
            ),
        }
    }

    /// What the backtrace pane shows.
    pub fn backtrace_pane(&self, height: u16) -> (r: Vec<String>)
        ensures
            texts(r@) == self@.backtrace_pane(height),
    {
        match self.snapshot() {
            None => {
                let r: Vec<String> = Vec::new();
                assert(texts(r@) =~= Seq::<Seq<char>>::empty());
                r
            },
            Some(snapshot) => visible_items(
                &frame_items(&snapshot.backtrace),
                self.scroll().backtrace,
                height,
            ),
        }
    }

    /// What the log pane shows.
    pub fn log_pane(&self, height: u16) -> (r: Vec<String>)
        ensures
            texts(r@) == self@.log_pane(height),
    {
        let logs = self.logs();
        let space: usize = inner_height(height);
        let last: usize = if logs.len() > space {
            logs.len() - space
        } else {
            0
        };
        let back: usize = self.scroll().log as usize;
        let from: usize = if last > back {
            last - back
        } else {
            0
        };
        let mut out: Vec<String> = Vec::new();
        let ghost want = texts(logs@).skip(from as int);
        assert(texts(out@) =~= want.take(0));
        for i in from..logs.len()
            invariant
                from <= logs@.len(),
                want == texts(logs@).skip(from as int),
                texts(out@) == want.take(i - from),
        {
            let entry = logs[i].clone();
            proof {
                lemma_texts_push(out@, entry);
            }
            out.push(entry);
            assert(want.take(i - from).push(entry@) =~= want.take(i + 1 - from));
        }
        assert(want.take(logs@.len() - from) =~= want);
        out
    }
}

/// The log pane shows the latest message, unless it is scrolled back or has no room.
pub proof fn lemma_latest_message_shown(s: UiShape, height: u16)
    requires
        s.logs.len() > 0,
        room(height) > 0,
    ensures
        s.log_pane(height).len() > 0,
        s.log_pane(height).last() == s.logs.last(),
{
}

// ---------------------------------------------------------------------------
// The cursor

/// A sum within sixteen bits.
pub open spec fn capped(a: int) -> u16 {
    if a > u16::MAX {
        u16::MAX
    } else {
        a as u16
    }
}

/// Where the cursor stands in the command pane at `x`, `y` of the given width: behind what is
/// typed, but within the border. The number of characters is taken to sixteen bits.
pub open spec fn cursor_of(x: u16, y: u16, width: u16, command: Seq<char>) -> (u16, u16) {
    let behind = capped(10 + (command.len() as int) % 0x1_0000);
    let most: int = if width < 3 {
        0
    } else {
        width - 3
    };
    let offset: int = if behind < most {
        behind as int
    } else {
        most
    };
    (capped(x + 1 + offset), capped(y + 1))
}

/// Places the cursor at the end of the command input.
pub fn command_cursor_position(x: u16, y: u16, width: u16, command: &str) -> (r: (u16, u16))
    ensures
        r == cursor_of(x, y, width, command@),
{
    let typed: u16 = (command.unicode_len() % 0x1_0000) as u16;
    let behind: u16 = 10u16.saturating_add(typed);
    let most: u16 = width.saturating_sub(2).saturating_sub(1);
    let offset: u16 = if behind < most {
        behind
    } else {
        most
    };
    (x.saturating_add(1).saturating_add(offset), y.saturating_add(1))
}

} // verus!
