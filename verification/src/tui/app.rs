//! The state of the terminal interface, and what it asks of a target.
use vstd::prelude::*;

use crate::dialogue::{
    attempted, given, ran, reply_shapes, settled, talk_with, CallShape, Fault, FaultShape, Flow,
    Pause, Reply, Talk, TalkShape,
};
use crate::request::{fits, Answer, AnswerShape, Request, RequestShape};
use crate::target::{
    RegisterShape, RegisterValue, SnapshotShape, StopCause, StopReason, TargetError, TargetSnapshot,
};
use crate::text::{
    chars_of, find_from, first_index, from_utf8_lossy, lemma_first_index,
    lemma_first_index_stays, lemma_texts_push, lossy_text, same, substring, texts,
};
use crate::words::{trim_newlines, trim_newlines_of};

use super::history::{history_entries, last_of, load_tui_history};

verus! {

/// The most messages that the log keeps.
pub const LOG_LIMIT: usize = 500;

// ---------------------------------------------------------------------------
// Panes

/// A pane that can have the focus.
#[derive(Clone, Copy, Debug, PartialEq, Eq, Structural)]
pub enum Pane {
    Source,
    Registers,
    Breakpoints,
    Backtrace,
    Log,
}

/// How far each pane is scrolled: down from its first row, the log up from its latest one.
#[derive(Clone, Copy, Debug, PartialEq, Eq, Structural)]
pub struct PaneScroll {
    pub source: u16,
    pub registers: u16,
    pub breakpoints: u16,
    pub backtrace: u16,
    pub log: u16,
}

/// The pane that gets the focus after a pane.
pub open spec fn next_pane(pane: Pane) -> Pane {
    match pane {
        Pane::Source => Pane::Registers,
        Pane::Registers => Pane::Breakpoints,
        Pane::Breakpoints => Pane::Backtrace,
        Pane::Backtrace => Pane::Log,
        Pane::Log => Pane::Source,
    }
}

impl Pane {
    /// The pane that gets the focus after this one.
    pub fn next(self) -> (r: Pane)
        ensures
            r == next_pane(self),
    {
        match self {
            Pane::Source => Pane::Registers,
            Pane::Registers => Pane::Breakpoints,
            Pane::Breakpoints => Pane::Backtrace,
            Pane::Backtrace => Pane::Log,
            Pane::Log => Pane::Source,
        }
    }
}

/// The focus goes through all panes and comes back to the first.
pub proof fn lemma_panes_cycle(pane: Pane)
    ensures
        next_pane(pane) != pane,
        next_pane(next_pane(pane)) != pane,
        next_pane(next_pane(next_pane(pane))) != pane,
        next_pane(next_pane(next_pane(next_pane(pane)))) != pane,
        next_pane(next_pane(next_pane(next_pane(next_pane(pane))))) == pane,
{
}

impl PaneScroll {
    /// How far a pane is scrolled.
    pub open spec fn of(self, pane: Pane) -> u16 {
        match pane {
            Pane::Source => self.source,
            Pane::Registers => self.registers,
            Pane::Breakpoints => self.breakpoints,
            Pane::Backtrace => self.backtrace,
            Pane::Log => self.log,
        }
    }

    /// The same with one pane scrolled to a place.
    pub open spec fn with(self, pane: Pane, to: u16) -> PaneScroll {
        match pane {
            Pane::Source => PaneScroll { source: to, ..self },
            Pane::Registers => PaneScroll { registers: to, ..self },
            Pane::Breakpoints => PaneScroll { breakpoints: to, ..self },
            Pane::Backtrace => PaneScroll { backtrace: to, ..self },
            Pane::Log => PaneScroll { log: to, ..self },
        }
    }
}

/// A place moved by a distance, within what a place can be.
pub open spec fn moved(place: u16, delta: int) -> u16 {
    if place + delta < 0 {
        0
    } else if place + delta > u16::MAX {
        u16::MAX
    } else {
        (place + delta) as u16
    }
}

// ---------------------------------------------------------------------------
// State

/// The state of the interface.
pub struct TuiApp {
    snapshot: Option<TargetSnapshot>,
    command: String,
    command_history: Vec<String>,
    history_index: Option<usize>,
    logs: Vec<String>,
    output_buffer: String,
    focused_pane: Pane,
    scroll: PaneScroll,
    should_quit: bool,
    talk: Talk,
}

/// The state of the interface as mathematical values.
#[verifier::ext_equal]
pub struct UiShape {
    /// The last snapshot of the target.
    pub snapshot: Option<SnapshotShape>,
    /// The command that is being typed.
    pub command: Seq<char>,
    /// The commands that were typed, the latest last.
    pub history: Seq<Seq<char>>,
    /// The entry of the history that is shown as the command.
    pub index: Option<usize>,
    /// The messages of the log, the latest last.
    pub logs: Seq<Seq<char>>,
    /// Output of the target that has not come to the end of a line.
    pub output: Seq<char>,
    pub pane: Pane,
    pub scroll: PaneScroll,
    pub should_quit: bool,
    pub talk: TalkShape,
}

impl View for TuiApp {
    type V = UiShape;

    closed spec fn view(&self) -> UiShape {
        UiShape {
            snapshot: self.snapshot.deep_view(),
            command: self.command@,
            history: texts(self.command_history@),
            index: self.history_index,
            logs: texts(self.logs@),
            output: self.output_buffer@,
            pane: self.focused_pane,
            scroll: self.scroll,
            should_quit: self.should_quit,
            talk: self.talk@,
        }
    }
}

impl UiShape {
    /// The entry shown as the command is one of the history, and the log is not over its limit.
    pub open spec fn wf(self) -> bool {
        &&& self.index matches Some(index) ==> index < self.history.len()
        &&& self.logs.len() <= LOG_LIMIT
    }

    /// The same with a message put into the log, of which only the latest are kept.
    pub open spec fn log(self, message: Seq<char>) -> UiShape {
        UiShape { logs: last_of(self.logs.push(message), LOG_LIMIT as nat), ..self }
    }

    /// The same with messages put into the log.
    pub open spec fn log_all(self, messages: Seq<Seq<char>>) -> UiShape
        decreases messages.len(),
    {
        if messages.len() == 0 {
            self
        } else {
            self.log_all(messages.drop_last()).log(messages.last())
        }
    }

    /// A talk that has gone on.
    pub open spec fn on_talk<A>(self, flow: Flow<A, TalkShape>) -> Flow<A, UiShape> {
        match flow {
            Flow::Ask(call, talk) => Flow::Ask(call, UiShape { talk, ..self }),
            Flow::Fail(e, talk) => Flow::Fail(e, UiShape { talk, ..self }),
            Flow::Done(a, talk) => Flow::Done(a, UiShape { talk, ..self }),
        }
    }

    /// Having the target do something that ends with a stop.
    pub open spec fn stop(self, request: RequestShape) -> Flow<StopCause, UiShape> {
        self.on_talk(self.talk.target(request)).bind(
            |answer: AnswerShape, s: UiShape|
                match answer {
                    AnswerShape::Stop(r) => given(r, s),
                    _ => Flow::Ask(CallShape::Target(request), s),
                },
        )
    }

    /// Having the target do something that has no result.
    pub open spec fn done(self, request: RequestShape) -> Flow<(), UiShape> {
        self.on_talk(self.talk.target(request)).bind(
            |answer: AnswerShape, s: UiShape|
                match answer {
                    AnswerShape::Done(r) => given(r, s),
                    _ => Flow::Ask(CallShape::Target(request), s),
                },
        )
    }

    /// Having the target do something that gives bytes.
    pub open spec fn bytes(self, request: RequestShape) -> Flow<Seq<u8>, UiShape> {
        self.on_talk(self.talk.target(request)).bind(
            |answer: AnswerShape, s: UiShape|
                match answer {
                    AnswerShape::Bytes(r) => given(r, s),
                    _ => Flow::Ask(CallShape::Target(request), s),
                },
        )
    }

    /// Asking the target for the address of a source line.
    pub open spec fn source_address(self, file: Seq<char>, line: u64) -> Flow<
        Option<u64>,
        UiShape,
    > {
        let request = RequestShape::SourceAddress(file, line);
        self.on_talk(self.talk.target(request)).bind(
            |answer: AnswerShape, s: UiShape|
                match answer {
                    AnswerShape::Address(r) => given(r, s),
                    _ => Flow::Ask(CallShape::Target(request), s),
                },
        )
    }

    /// Asking the target for its registers.
    pub open spec fn registers(self) -> Flow<Seq<RegisterShape>, UiShape> {
        self.on_talk(self.talk.target(RequestShape::Registers)).bind(
            |answer: AnswerShape, s: UiShape|
                match answer {
                    AnswerShape::Registers(r) => given(r, s),
                    _ => Flow::Ask(CallShape::Target(RequestShape::Registers), s),
                },
        )
    }

    /// Taking a new snapshot of the target; a failure goes to the log.
    pub open spec fn refresh_snapshot(self) -> Flow<(), UiShape> {
        self.on_talk(self.talk.target(RequestShape::Snapshot)).bind(
            |answer: AnswerShape, s: UiShape|
                match answer {
                    AnswerShape::Snapshot(Ok(snapshot)) => Flow::Done(
                        (),
                        UiShape { snapshot: Some(snapshot), ..s },
                    ),
                    AnswerShape::Snapshot(Err(e)) => Flow::Done(
                        (),
                        s.log("snapshot failed: "@ + TargetError::headline(e)),
                    ),
                    _ => Flow::Ask(CallShape::Target(RequestShape::Snapshot), s),
                },
        )
    }

    /// The same with each line of the pending output that is complete put into the log.
    pub open spec fn log_lines(self) -> UiShape
        decreases self.output.len(),
    {
        match first_index(self.output, '\n') {
            Some(i) => {
                proof {
                    lemma_first_index(self.output, '\n');
                }
                (UiShape { output: self.output.skip(i + 1), ..self }).log(
                    "target> "@ + trim_newlines_of(self.output.take(i + 1)),
                ).log_lines()
            },
            None => self,
        }
    }

    /// Taking what the target has put out; its lines go to the log.
    pub open spec fn drain_target_output(self) -> Flow<(), UiShape> {
        self.bytes(RequestShape::DrainOutput).attempt().bind(
            |r: Result<Seq<u8>, FaultShape>, s: UiShape|
                Flow::Done(
                    (),
                    match r {
                        Ok(bytes) => if bytes.len() == 0 {
                            s
                        } else {
                            (UiShape { output: s.output + lossy_text(bytes), ..s }).log_lines()
                        },
                        Err(e) => s.log(
                            "target output read failed: "@ + TargetError::headline(e.chain()),
                        ),
                    },
                ),
        )
    }

    /// Having the target do something under a name, and showing what came of it.
    #[verifier::opaque]
    pub open spec fn run_target_op(self, label: Seq<char>, request: RequestShape) -> Flow<
        (),
        UiShape,
    > {
        self.log("running "@ + label + "..."@).stop(request).attempt().bind(
            |r: Result<StopCause, FaultShape>, s: UiShape|
                s.log(
                    match r {
                        Ok(reason) => reason.text(),
                        Err(e) => label + " failed: "@ + TargetError::headline(e.chain()),
                    },
                ).drain_target_output().bind(|_done: (), s: UiShape| s.refresh_snapshot()),
        )
    }

    /// Making the target ready; a first snapshot is still to be taken.
    pub open spec fn initialize(self) -> Flow<(), UiShape> {
        self.stop(RequestShape::Initialize).attempt().bind(
            |r: Result<StopCause, FaultShape>, s: UiShape|
                match r {
                    Ok(reason) => s.log(reason.text()).drain_target_output(),
                    Err(e) => Flow::Fail(
                        FaultShape::Target(
                            seq![
                                "target initialization failed: "@ + TargetError::full_text(
                                    e.chain(),
                                ),
                            ],
                        ),
                        s,
                    ),
                },
        )
    }

    /// The same with the place of the focused pane moved on, or back by a negative number of
    /// rows. The log counts its rows from the latest one back.
    pub open spec fn scroll_focused(self, delta: int) -> UiShape {
        UiShape {
            scroll: self.scroll.with(self.pane, moved(self.scroll.of(self.pane), delta)),
            ..self
        }
    }

    /// The same with the focused pane scrolled down, or up by a negative number of rows.
    pub open spec fn page_focused(self, delta: int) -> UiShape {
        self.scroll_focused(
            if self.pane is Log {
                -delta
            } else {
                delta
            },
        )
    }

    /// The same with a command put into the history, unless it is the last one there.
    pub open spec fn push_history(self, command: Seq<char>) -> UiShape {
        if self.history.len() > 0 && self.history.last() == command {
            self
        } else {
            UiShape { history: self.history.push(command), ..self }
        }
    }

    /// The same with an entry of the history shown as the command.
    pub open spec fn show_entry(self, index: usize) -> UiShape {
        UiShape { index: Some(index), command: self.history[index as int], ..self }
    }

    /// The same with the entry before the shown one shown, or else the last one.
    pub open spec fn history_previous(self) -> UiShape {
        if self.history.len() == 0 {
            self
        } else {
            match self.index {
                None => self.show_entry((self.history.len() - 1) as usize),
                Some(index) => self.show_entry(
                    if index == 0 {
                        0
                    } else {
                        (index - 1) as usize
                    },
                ),
            }
        }
    }

    /// The same with the entry after the shown one shown; after the last one comes an empty
    /// command.
    pub open spec fn history_next(self) -> UiShape {
        match self.index {
            None => self,
            Some(index) => if index + 1 >= self.history.len() {
                UiShape { index: None, command: Seq::empty(), ..self }
            } else {
                self.show_entry((index + 1) as usize)
            },
        }
    }

    /// The same with another command being typed.
    pub open spec fn typed(self, command: Seq<char>) -> UiShape {
        UiShape { command, index: None, ..self }
    }
}

/// Output that is kept back holds no complete line.
pub proof fn lemma_no_line_kept_back(s: UiShape)
    ensures
        !s.log_lines().output.contains('\n'),
    decreases s.output.len(),
{
    lemma_first_index(s.output, '\n');
    if let Some(i) = first_index(s.output, '\n') {
        lemma_no_line_kept_back(
            (UiShape { output: s.output.skip(i + 1), ..s }).log(
                "target> "@ + trim_newlines_of(s.output.take(i + 1)),
            ),
        );
    }
}

/// Output that comes in two parts is put into the log as it is when it comes at once.
pub proof fn lemma_output_in_parts(s: UiShape, first: Seq<char>, second: Seq<char>)
    ensures
        ({
            let between = (UiShape { output: s.output + first, ..s }).log_lines();
            (UiShape { output: between.output + second, ..between }).log_lines()
        }) == (UiShape { output: s.output + (first + second), ..s }).log_lines(),
{
    assert(s.output + (first + second) =~= (s.output + first) + second);
    lemma_lines_then_more(UiShape { output: s.output + first, ..s }, second);
}

/// Taking the complete lines of what is pending first changes nothing.
proof fn lemma_lines_then_more(s: UiShape, more: Seq<char>)
    ensures
        ({
            let between = s.log_lines();
            (UiShape { output: between.output + more, ..between }).log_lines()
        }) == (UiShape { output: s.output + more, ..s }).log_lines(),
    decreases s.output.len(),
{
    lemma_first_index(s.output, '\n');
    if let Some(i) = first_index(s.output, '\n') {
        lemma_first_index_stays(s.output, more, '\n');
        let next = (UiShape { output: s.output.skip(i + 1), ..s }).log(
            "target> "@ + trim_newlines_of(s.output.take(i + 1)),
        );
        lemma_lines_then_more(next, more);
        let joined = s.output + more;
        assert(joined.take(i + 1) =~= s.output.take(i + 1));
        assert(joined.skip(i + 1) =~= s.output.skip(i + 1) + more);
    }
}

impl TuiApp {
    /// A new interface with the history that a file holds.
    pub fn new(history: &Option<String>) -> (r: Self)
        ensures
            r@ == (UiShape {
                snapshot: None,
                command: Seq::empty(),
                history: match history {
                    Some(text) => history_entries(text@),
                    None => Seq::empty(),
                },
                index: None,
                logs: Seq::empty(),
                output: Seq::empty(),
                pane: Pane::Source,
                scroll: PaneScroll {
                    source: 0,
                    registers: 0,
                    breakpoints: 0,
                    backtrace: 0,
                    log: 0,
                },
                should_quit: false,
                talk: talk_with(Seq::empty()),
            }),
            r@.wf(),
    {
        let talk = Talk::new(Vec::new());
        assert(talk@.replies =~= Seq::<crate::dialogue::ReplyShape>::empty());
        let r = TuiApp {
            snapshot: None,
            command: String::new(),
            command_history: load_tui_history(history),
            history_index: None,
            logs: Vec::new(),
            output_buffer: String::new(),
            focused_pane: Pane::Source,
            scroll: PaneScroll { source: 0, registers: 0, breakpoints: 0, backtrace: 0, log: 0 },
            should_quit: false,
            talk,
        };
        assert(r@.logs =~= Seq::<Seq<char>>::empty());
        r
    }

    /// The same state with the given replies, in which an operation is taken again.
    pub fn with_replies(&self, replies: Vec<Reply>) -> (r: Self)
        ensures
            r@ == (UiShape { talk: talk_with(reply_shapes(replies@)), ..self@ }),
    {
        let snapshot = match &self.snapshot {
            Some(snapshot) => Some(snapshot.clone()),
            None => None,
        };
        let r = TuiApp {
            snapshot,
            command: self.command.clone(),
            command_history: self.command_history.clone(),
            history_index: self.history_index,
            logs: self.logs.clone(),
            output_buffer: self.output_buffer.clone(),
            focused_pane: self.focused_pane,
            scroll: self.scroll,
            should_quit: self.should_quit,
            talk: Talk::new(replies),
        };
        assert(r@.history =~= self@.history);
        assert(r@.logs =~= self@.logs);
        r
    }

    // -----------------------------------------------------------------------
    // Looking at the state

    /// The last snapshot of the target.
    pub fn snapshot(&self) -> (r: &Option<TargetSnapshot>)
        ensures
            r.deep_view() == self@.snapshot,
    {
        &self.snapshot
    }

    /// The command that is being typed.
    pub fn command(&self) -> (r: &str)
        ensures
            r@ == self@.command,
    {
        self.command.as_str()
    }

    /// The commands that were typed.
    pub fn command_history(&self) -> (r: &Vec<String>)
        ensures
            texts(r@) == self@.history,
    {
        &self.command_history
    }

    /// The messages of the log.
    pub fn logs(&self) -> (r: &Vec<String>)
        ensures
            texts(r@) == self@.logs,
    {
        &self.logs
    }

    /// The pane that has the focus.
    pub fn focused_pane(&self) -> (r: Pane)
        ensures
            r == self@.pane,
    {
        self.focused_pane
    }

    /// How far each pane is scrolled.
    pub fn scroll(&self) -> (r: PaneScroll)
        ensures
            r == self@.scroll,
    {
        self.scroll
    }

    /// Whether the session is to end.
    pub fn should_quit(&self) -> (r: bool)
        ensures
            r == self@.should_quit,
    {
        self.should_quit
    }

    // -----------------------------------------------------------------------
    // The log

    /// Puts a message into the log.
    pub fn log(&mut self, message: &str)
        ensures
            final(self)@ == old(self)@.log(message@),
    {
        let entry = message.to_owned();
        let ghost before = self.logs@;
        proof {
            lemma_texts_push(before, entry);
        }
        self.logs.push(entry);
        let ghost all = self.logs@;
        let ghost rest = self@;
        let ghost mut gone: int = 0;
        assert(all.skip(0) =~= all);
        while self.logs.len() > LOG_LIMIT
            invariant
                0 <= gone <= all.len(),
                self.logs@ == all.skip(gone),
                gone > 0 ==> self.logs@.len() >= LOG_LIMIT,
                (UiShape { logs: rest.logs, ..self@ }) == rest,
            decreases self.logs@.len(),
        {
            self.logs.remove(0);
            assert(self.logs@ =~= all.skip(gone + 1));
            proof {
                gone = gone + 1;
            }
        }
        assert(texts(self.logs@) =~= last_of(texts(all), LOG_LIMIT as nat));
        assert(self@ =~= old(self)@.log(message@));
    }

    /// Puts messages into the log.
    pub fn log_all(&mut self, messages: &Vec<String>)
        ensures
            final(self)@ == old(self)@.log_all(texts(messages@)),
    {
        let ghost all = texts(messages@);
        assert(all.take(0) =~= Seq::<Seq<char>>::empty());
        for i in 0..messages.len()
            invariant
                all == texts(messages@),
                self@ == old(self)@.log_all(all.take(i as int)),
        {
            assert(all.take(i + 1).drop_last() =~= all.take(i as int));
            self.log(messages[i].as_str());
        }
        assert(all.take(messages@.len() as int) =~= all);
    }

    // -----------------------------------------------------------------------
    // Asking the target

    /// Has the target do something that ends with a stop.
    pub fn stop(&mut self, request: Request) -> (r: Result<StopReason, Pause>)
        requires
            forall|answer: AnswerShape| #[trigger] fits(request@, answer) ==> answer is Stop,
        ensures
            ran(r, final(self)@, old(self)@.stop(request@)),
    {
        match self.talk.target(request)? {
            Answer::Stop(r) => settled(r),
            _ => Err(Pause::Fail(Fault::Target(TargetError::of("")))),
        }
    }

    /// Has the target do something that has no result.
    pub fn done(&mut self, request: Request) -> (r: Result<(), Pause>)
        requires
            forall|answer: AnswerShape| #[trigger] fits(request@, answer) ==> answer is Done,
        ensures
            ran(r, final(self)@, old(self)@.done(request@)),
    {
        match self.talk.target(request)? {
            Answer::Done(r) => settled(r),
            _ => Err(Pause::Fail(Fault::Target(TargetError::of("")))),
        }
    }

    /// Has the target do something that gives bytes.
    pub fn bytes(&mut self, request: Request) -> (r: Result<Vec<u8>, Pause>)
        requires
            forall|answer: AnswerShape| #[trigger] fits(request@, answer) ==> answer is Bytes,
        ensures
            ran(r, final(self)@, old(self)@.bytes(request@)),
    {
        match self.talk.target(request)? {
            Answer::Bytes(r) => settled(r),
            _ => Err(Pause::Fail(Fault::Target(TargetError::of("")))),
        }
    }

    /// Asks the target for the address of a source line.
    pub fn source_address(&mut self, file: &str, line: u64) -> (r: Result<Option<u64>, Pause>)
        ensures
            ran(r, final(self)@, old(self)@.source_address(file@, line)),
    {
        match self.talk.target(Request::SourceAddress(file.to_owned(), line))? {
            Answer::Address(r) => settled(r),
            _ => Err(Pause::Fail(Fault::Target(TargetError::of("")))),
        }
    }

    /// Asks the target for its registers.
    pub fn registers(&mut self) -> (r: Result<Vec<RegisterValue>, Pause>)
        ensures
            ran(r, final(self)@, old(self)@.registers()),
    {
        match self.talk.target(Request::Registers)? {
            Answer::Registers(r) => settled(r),
            _ => Err(Pause::Fail(Fault::Target(TargetError::of("")))),
        }
    }

    /// Takes a new snapshot of the target; a failure goes to the log.
    pub fn refresh_snapshot(&mut self) -> (r: Result<(), Pause>)
        ensures
            ran(r, final(self)@, old(self)@.refresh_snapshot()),
    {
        match self.talk.target(Request::Snapshot)? {
            Answer::Snapshot(Ok(snapshot)) => {
                self.snapshot = Some(snapshot);
                Ok(())
            },
            Answer::Snapshot(Err(e)) => {
                let mut text = "snapshot failed: ".to_owned();
                text.append(e.message().as_str());
                self.log(text.as_str());
                Ok(())
            },
            _ => Err(Pause::Fail(Fault::Target(TargetError::of("")))),
        }
    }

    /// Puts each complete line of the pending output into the log.
    fn log_lines(&mut self)
        ensures
            final(self)@ == old(self)@.log_lines(),
    {
        let a = chars_of(self.output_buffer.as_str());
        let end: usize = a.len();
        let mut at: usize = 0;
        let ghost want = old(self)@.log_lines();
        assert(a@.skip(0) =~= a@);
        while at <= end
            invariant
                end == a@.len(),
                at <= end,
                want == old(self)@.log_lines(),
                want == (UiShape { output: a@.skip(at as int), ..self@ }).log_lines(),
            decreases end + 1 - at,
        {
            let ghost rest = a@.skip(at as int);
            match find_from(a.as_slice(), '\n', at) {
                Some(i) => {
                    let line = trim_newlines(vstd::slice::slice_subrange(a.as_slice(), at, i + 1));
                    assert(a@.subrange(at as int, i + 1) =~= rest.take(i + 1 - at));
                    assert(rest.skip(i + 1 - at) =~= a@.skip(i + 1));
                    let mut text = "target> ".to_owned();
                    text.append(line.as_str());
                    let ghost before = self@;
                    self.log(text.as_str());
                    assert((UiShape { output: a@.skip(i + 1), ..before }).log(text@) =~= (UiShape {
                        output: a@.skip(i + 1),
                        ..self@
                    }));
                    at = i + 1;
                },
                None => {
                    self.output_buffer = substring(a.as_slice(), at, end);
                    assert(a@.subrange(at as int, end as int) =~= rest);
                    return ;
                },
            }
        }
    }

    /// Takes what the target has put out; its lines go to the log.
    pub fn drain_target_output(&mut self) -> (r: Result<(), Pause>)
        ensures
            ran(r, final(self)@, old(self)@.drain_target_output()),
    {
        match attempted(self.bytes(Request::DrainOutput))? {
            Ok(bytes) => {
                assert(bytes.deep_view() =~= bytes@);
                if bytes.len() > 0 {
                    let text = from_utf8_lossy(bytes.as_slice());
                    self.output_buffer.append(text.as_str());
                    self.log_lines();
                }
            },
            Err(e) => {
                let mut text = "target output read failed: ".to_owned();
                text.append(e.into_error().message().as_str());
                self.log(text.as_str());
            },
        }
        Ok(())
    }

    /// Has the target do something under a name, and shows what came of it.
    pub fn run_target_op(&mut self, label: &str, request: Request) -> (r: Result<(), Pause>)
        requires
            forall|answer: AnswerShape| #[trigger] fits(request@, answer) ==> answer is Stop,
        ensures
            ran(r, final(self)@, old(self)@.run_target_op(label@, request@)),
    {
        proof {
            reveal(UiShape::run_target_op);
        }
        let mut start = "running ".to_owned();
        start.append(label);
        start.append("...");
        self.log(start.as_str());
        match attempted(self.stop(request))? {
            Ok(reason) => {
                let text = reason.message();
                self.log(text.as_str());
            },
            Err(e) => {
                let mut text = label.to_owned();
                text.append(" failed: ");
                text.append(e.into_error().message().as_str());
                self.log(text.as_str());
            },
        }
        self.drain_target_output()?;
        self.refresh_snapshot()
    }

    /// Makes the target ready; a first snapshot is still to be taken.
    pub fn initialize(&mut self) -> (r: Result<(), Pause>)
        ensures
            ran(r, final(self)@, old(self)@.initialize()),
    {
        match attempted(self.stop(Request::Initialize))? {
            Ok(reason) => {
                let text = reason.message();
                self.log(text.as_str());
                self.drain_target_output()
            },
            Err(e) => {
                let mut text = "target initialization failed: ".to_owned();
                text.append(e.into_error().describe().as_str());
                Err(Pause::Fail(Fault::Target(TargetError::new(text))))
            },
        }
    }

    // -----------------------------------------------------------------------
    // Panes, history and typing

    /// Ends the session.
    pub fn quit(&mut self)
        ensures
            final(self)@ == (UiShape { should_quit: true, ..old(self)@ }),
    {
        self.should_quit = true;
    }

    /// Gives the focus to the next pane.
    pub fn focus_next(&mut self)
        ensures
            final(self)@ == (UiShape { pane: next_pane(old(self)@.pane), ..old(self)@ }),
    {
        self.focused_pane = self.focused_pane.next();
    }

    /// Moves the place of the focused pane on, or back by a negative number of rows.
    pub fn scroll_focused(&mut self, delta: i16)
        ensures
            final(self)@ == old(self)@.scroll_focused(delta as int),
    {
        let place: u16 = match self.focused_pane {
            Pane::Source => self.scroll.source,
            Pane::Registers => self.scroll.registers,
            Pane::Breakpoints => self.scroll.breakpoints,
            Pane::Backtrace => self.scroll.backtrace,
            Pane::Log => self.scroll.log,
        };
        let sum: i32 = place as i32 + delta as i32;
        let to: u16 = if sum < 0 {
            0
        } else if sum > 65535 {
            65535
        } else {
            sum as u16
        };
        match self.focused_pane {
            Pane::Source => self.scroll.source = to,
            Pane::Registers => self.scroll.registers = to,
            Pane::Breakpoints => self.scroll.breakpoints = to,
            Pane::Backtrace => self.scroll.backtrace = to,
            Pane::Log => self.scroll.log = to,
        }
    }

    /// Scrolls the focused pane down, or up by a negative number of rows.
    pub(crate) fn page_focused(&mut self, delta: i16)
        requires
            delta > i16::MIN,
        ensures
            final(self)@ == old(self)@.page_focused(delta as int),
    {
        match self.focused_pane {
            Pane::Log => self.scroll_focused(-delta),
            _ => self.scroll_focused(delta),
        }
    }

    /// Puts a command into the history, unless it is the last one there.
    pub fn push_history(&mut self, command: &str)
        ensures
            final(self)@ == old(self)@.push_history(command@),
    {
        let len: usize = self.command_history.len();
        if len > 0 && same(self.command_history[len - 1].as_str(), command) {
            return ;
        }
        let entry = command.to_owned();
        proof {
            lemma_texts_push(self.command_history@, entry);
        }
        self.command_history.push(entry);
    }

    /// Shows the previous entry of the history as the command.
    pub fn history_previous(&mut self)
        requires
            old(self)@.wf(),
        ensures
            final(self)@ == old(self)@.history_previous(),
            final(self)@.wf(),
    {
        if self.command_history.len() == 0 {
            return ;
        }
        let index: usize = match self.history_index {
            Some(index) => if index == 0 {
                0
            } else {
                index - 1
            },
            None => self.command_history.len() - 1,
        };
        self.history_index = Some(index);
        self.command = self.command_history[index].clone();
    }

    /// Shows the next entry of the history as the command.
    pub fn history_next(&mut self)
        requires
            old(self)@.wf(),
        ensures
            final(self)@ == old(self)@.history_next(),
            final(self)@.wf(),
    {
        let len: usize = self.command_history.len();
        if let Some(index) = self.history_index {
            let next: usize = index + 1;
            if next >= len {
                self.history_index = None;
                self.command = String::new();
            } else {
                self.history_index = Some(next);
                self.command = self.command_history[next].clone();
            }
        }
    }

    /// Makes a text the command that is being typed.
    pub fn set_command(&mut self, command: String)
        ensures
            final(self)@ == old(self)@.typed(command@),
    {
        self.command = command;
        self.history_index = None;
    }
}

} // verus!
