use linux_debugger::dialogue::{Call, Pause, Reply};
use linux_debugger::request::{Answer, Request};
use linux_debugger::target::{
    empty_source_view, read_source_window, BreakpointView, RegisterValue, StackFrame, StopReason,
    TargetError, TargetSnapshot,
};
use linux_debugger::tui::app::{Pane, TuiApp, LOG_LIMIT};
use linux_debugger::tui::commands::{hexdump, is_remote_timeout, parse_source_location};
use linux_debugger::tui::history::{history_text, load_tui_history};
use linux_debugger::tui::keys::{Key, KeyPress};
use linux_debugger::tui::view::{command_cursor_position, visible_items};

fn shot(pc: u64) -> TargetSnapshot {
    TargetSnapshot {
        name: "prog".to_string(),
        architecture: "test".to_string(),
        pc: Some(pc),
        location: format!("At 0x{pc:x}"),
        source: empty_source_view(),
        registers: vec![
            RegisterValue {
                name: "r0".to_string(),
                value: 0x2a,
            },
            RegisterValue {
                name: "pc".to_string(),
                value: pc,
            },
        ],
        breakpoints: Vec::new(),
        backtrace: Vec::new(),
    }
}

/// A target that does what it is asked and keeps a record of it.
struct Target {
    asked: Vec<String>,
    output: Vec<u8>,
    timeouts: usize,
    broken: bool,
}

impl Target {
    fn new() -> Target {
        Target {
            asked: Vec::new(),
            output: Vec::new(),
            timeouts: 0,
            broken: false,
        }
    }

    fn answer(&mut self, request: &Request) -> Answer {
        self.asked.push(format!("{request:?}"));
        let failure = || TargetError::of("cause").context("broken".to_string());
        match request {
            Request::Initialize => Answer::Stop(if self.broken {
                Err(failure())
            } else {
                Ok(StopReason::Ready)
            }),
            Request::Continue
            | Request::StepInstruction
            | Request::StepSource
            | Request::NextSource
            | Request::Halt
            | Request::Reset => Answer::Stop(if self.broken {
                Err(failure())
            } else {
                Ok(StopReason::Signal("SIGTRAP".to_string()))
            }),
            Request::DrainOutput => Answer::Bytes(if self.broken {
                Err(failure())
            } else {
                Ok(std::mem::take(&mut self.output))
            }),
            Request::Snapshot => Answer::Snapshot(if self.broken {
                Err(failure())
            } else {
                Ok(shot(0x1000))
            }),
            Request::SourceAddress(_, line) => {
                Answer::Address(Ok(if *line == 4 { Some(0x1008) } else { None }))
            }
            Request::SetBreakpoint(_) => Answer::Done(if self.timeouts > 0 {
                self.timeouts -= 1;
                Err(TargetError::of(
                    "timed out waiting for GDB remote target response",
                ))
            } else if self.broken {
                Err(failure())
            } else {
                Ok(())
            }),
            Request::ClearBreakpoint(_)
            | Request::WriteRegister(_, _)
            | Request::WriteMemory(_, _) => Answer::Done(if self.broken {
                Err(failure())
            } else {
                Ok(())
            }),
            Request::Registers => Answer::Registers(Ok(shot(0x1000).registers)),
            Request::ReadMemory(_, len) => {
                Answer::Bytes(Ok((0..*len).map(|i| i as u8).collect()))
            }
        }
    }
}

/// Runs an operation to its end and keeps the state that it comes to.
fn drive(
    app: &mut TuiApp,
    target: &mut Target,
    op: impl Fn(&mut TuiApp) -> Result<(), Pause>,
) -> Result<(), String> {
    let mut replies: Vec<Reply> = Vec::new();
    loop {
        let mut next = app.with_replies(replies.clone());
        let result = match op(&mut next) {
            Err(Pause::Ask(Call::Target(request))) => {
                replies.push(Reply::Target(target.answer(&request)));
                continue;
            }
            Err(Pause::Ask(call)) => panic!("unexpected call {call:?}"),
            Err(Pause::Fail(fault)) => Err(fault.into_error().describe()),
            Ok(()) => Ok(()),
        };
        *app = next;
        return result;
    }
}

fn press(app: &mut TuiApp, target: &mut Target, key: Key, control: bool) {
    drive(app, target, |app| app.handle_key(KeyPress { key, control })).unwrap();
}

fn enter(app: &mut TuiApp, target: &mut Target, command: &str) -> Vec<String> {
    let before = app.logs().len();
    for c in command.chars() {
        press(app, target, Key::Char(c), false);
    }
    press(app, target, Key::Enter, false);
    app.logs()[before..].to_vec()
}

fn app() -> TuiApp {
    TuiApp::new(&None)
}

#[test]
fn a_session_initializes_the_target() {
    let (mut app, mut target) = (app(), Target::new());
    target.output = b"hello\r\nwor".to_vec();
    drive(&mut app, &mut target, |app| app.initialize()).unwrap();
    assert_eq!(app.logs(), &vec!["Target ready", "target> hello"]);
    assert!(app.snapshot().is_none());
    drive(&mut app, &mut target, |app| app.refresh_snapshot()).unwrap();
    assert_eq!(app.snapshot().as_ref().unwrap().pc, Some(0x1000));
    target.output = b"ld\n\xff\n".to_vec();
    drive(&mut app, &mut target, |app| app.drain_target_output()).unwrap();
    assert_eq!(app.logs()[2..], ["target> world", "target> \u{fffd}"]);
}

#[test]
fn a_target_that_cannot_be_initialized_ends_the_session() {
    let (mut app, mut target) = (app(), Target::new());
    target.broken = true;
    assert_eq!(
        drive(&mut app, &mut target, |app| app.initialize()),
        Err("target initialization failed: broken: cause".to_string())
    );
}

#[test]
fn keys_run_the_target() {
    let (mut app, mut target) = (app(), Target::new());
    press(&mut app, &mut target, Key::Function(5), false);
    assert_eq!(app.logs(), &vec!["running continue...", "Stopped by SIGTRAP"]);
    assert_eq!(target.asked, vec!["Continue", "DrainOutput", "Snapshot"]);
    press(&mut app, &mut target, Key::Function(10), false);
    assert_eq!(app.logs()[2], "running next...");
    press(&mut app, &mut target, Key::Function(11), false);
    assert_eq!(app.logs()[4], "running stepi...");
    press(&mut app, &mut target, Key::Char('c'), true);
    assert_eq!(app.logs()[6], "running halt...");
    press(&mut app, &mut target, Key::Function(1), false);
    press(&mut app, &mut target, Key::Other, true);
    assert_eq!(app.logs().len(), 8);
    press(&mut app, &mut target, Key::Char('q'), true);
    assert!(app.should_quit());
}

#[test]
fn failures_go_to_the_log() {
    let (mut app, mut target) = (app(), Target::new());
    target.broken = true;
    press(&mut app, &mut target, Key::Function(5), false);
    assert_eq!(
        app.logs(),
        &vec![
            "running continue...",
            "continue failed: broken",
            "target output read failed: broken",
            "snapshot failed: broken",
        ]
    );
    let logs = enter(&mut app, &mut target, "clear 0x1000");
    assert_eq!(
        logs,
        vec![
            "> clear 0x1000",
            "command failed: broken: cause",
            "snapshot failed: broken",
        ]
    );
}

#[test]
fn the_focus_goes_round_and_panes_scroll() {
    let (mut app, mut target) = (app(), Target::new());
    let mut seen = Vec::new();
    for _ in 0..5 {
        seen.push(app.focused_pane());
        press(&mut app, &mut target, Key::Char('x'), true);
    }
    assert_eq!(
        seen,
        vec![
            Pane::Source,
            Pane::Registers,
            Pane::Breakpoints,
            Pane::Backtrace,
            Pane::Log
        ]
    );
    assert_eq!(app.focused_pane(), Pane::Source);
    press(&mut app, &mut target, Key::PageDown, false);
    press(&mut app, &mut target, Key::Down, false);
    assert_eq!(app.scroll().source, 11);
    press(&mut app, &mut target, Key::Up, false);
    assert_eq!(app.scroll().source, 10);
    press(&mut app, &mut target, Key::PageUp, false);
    press(&mut app, &mut target, Key::PageUp, false);
    assert_eq!(app.scroll().source, 0);
    assert_eq!(app.scroll().log, 0);
    for _ in 0..7000 {
        app.scroll_focused(10);
    }
    assert_eq!(app.scroll().source, u16::MAX);
}

#[test]
fn output_in_parts_is_logged_as_a_whole() {
    let whole = b"one\ntwo\nthree\nleft";
    let (mut app, mut target) = (app(), Target::new());
    target.output = whole.to_vec();
    drive(&mut app, &mut target, |app| app.drain_target_output()).unwrap();
    let logged = app.logs().clone();
    assert_eq!(logged, vec!["target> one", "target> two", "target> three"]);
    for cut in 0..whole.len() {
        let mut parts = self::app();
        for part in [&whole[..cut], &whole[cut..]] {
            target.output = part.to_vec();
            drive(&mut parts, &mut target, |app| app.drain_target_output()).unwrap();
        }
        assert_eq!(parts.logs(), &logged);
    }
}

#[test]
fn the_history_is_walked_back_and_on() {
    let (mut app, mut target) = (app(), Target::new());
    press(&mut app, &mut target, Key::Char('p'), true);
    assert_eq!(app.command(), "");
    for command in [" help ", "help", "bt", "help"] {
        enter(&mut app, &mut target, command);
    }
    assert_eq!(app.command_history(), &vec!["help", "bt", "help"]);
    press(&mut app, &mut target, Key::Char('p'), true);
    assert_eq!(app.command(), "help");
    press(&mut app, &mut target, Key::Char('p'), true);
    assert_eq!(app.command(), "bt");
    press(&mut app, &mut target, Key::Char('n'), true);
    assert_eq!(app.command(), "help");
    press(&mut app, &mut target, Key::Char('n'), true);
    assert_eq!(app.command(), "");
    for _ in 0..5 {
        press(&mut app, &mut target, Key::Char('p'), true);
    }
    assert_eq!(app.command(), "help");
    press(&mut app, &mut target, Key::Backspace, false);
    assert_eq!(app.command(), "hel");
    press(&mut app, &mut target, Key::Escape, false);
    assert_eq!(app.command(), "");
    press(&mut app, &mut target, Key::Backspace, false);
    assert_eq!(app.command(), "");
}

#[test]
fn a_history_is_kept_and_loaded() {
    let history: Vec<String> = (0..600).map(|i| format!("break 0x{i:x}")).collect();
    let text = history_text(&history);
    assert_eq!(load_tui_history(&Some(text)), history[100..].to_vec());
    assert_eq!(history_text(&Vec::new()), "\n");
    assert_eq!(
        load_tui_history(&Some("a\n  \n\nb\r\n".to_string())),
        vec!["a", "b"]
    );
    assert_eq!(load_tui_history(&None), Vec::<String>::new());
    let app = TuiApp::new(&Some("a\nb\n".to_string()));
    assert_eq!(app.command_history(), &vec!["a", "b"]);
}

#[test]
fn the_log_keeps_the_latest_messages() {
    let mut app = app();
    for i in 0..LOG_LIMIT + 3 {
        app.log(&format!("{i}"));
    }
    assert_eq!(app.logs().len(), LOG_LIMIT);
    assert_eq!(app.logs()[0], "3");
    assert_eq!(app.log_pane(4), vec!["501", "502"]);
    assert_eq!(app.log_pane(2), Vec::<String>::new());
}

#[test]
fn breakpoints_are_set_by_address_or_line() {
    let (mut app, mut target) = (app(), Target::new());
    let logs = enter(&mut app, &mut target, "break main.c:4");
    assert_eq!(logs, vec!["> break main.c:4", "Breakpoint set at 0x1008"]);
    assert_eq!(
        target.asked,
        vec!["SourceAddress(\"main.c\", 4)", "SetBreakpoint(4104)", "Snapshot"]
    );
    let logs = enter(&mut app, &mut target, "b 0x20");
    assert_eq!(logs[1], "Breakpoint set at 0x20");
    let logs = enter(&mut app, &mut target, "break main.c:5");
    assert_eq!(logs[1], "No code found at main.c:5");
    let logs = enter(&mut app, &mut target, "break");
    assert_eq!(logs[1], "Usage: break 0x<addr> OR break <file>:<line>");
    let logs = enter(&mut app, &mut target, "break main.c:x");
    assert_eq!(logs[1], "command failed: invalid digit found in string");
    let logs = enter(&mut app, &mut target, "delete 0x20");
    assert_eq!(logs[1], "Breakpoint cleared at 0x20");
    let logs = enter(&mut app, &mut target, "clear");
    assert_eq!(logs[1], "Usage: clear 0x<addr>");
}

#[test]
fn a_breakpoint_that_timed_out_is_tried_again() {
    let (mut app, mut target) = (app(), Target::new());
    target.timeouts = 1;
    let logs = enter(&mut app, &mut target, "break 0x20");
    assert_eq!(
        logs,
        vec![
            "> break 0x20",
            "Breakpoint timed out; halting target and retrying...",
            "Stopped by SIGTRAP",
            "Breakpoint set at 0x20",
        ]
    );
    target.timeouts = 1;
    target.broken = true;
    let logs = enter(&mut app, &mut target, "break 0x20");
    assert_eq!(
        logs[2],
        "command failed: breakpoint set timed out at 0x20; halt before retry also failed: \
         broken: cause"
    );
    assert!(is_remote_timeout(
        &TargetError::of("read: Resource temporarily unavailable (os error 11)")
            .context("read".to_string())
    ));
    assert!(!is_remote_timeout(&TargetError::of("refused")));
}

#[test]
fn registers_and_memory_are_shown_and_changed() {
    let (mut app, mut target) = (app(), Target::new());
    let logs = enter(&mut app, &mut target, "reg read r0");
    assert_eq!(logs[1], "r0 = 0x2a");
    let logs = enter(&mut app, &mut target, "register read r9");
    assert_eq!(logs[1], "Unknown register: r9");
    let logs = enter(&mut app, &mut target, "register write r0 ff");
    assert_eq!(logs[1], "r0 = 0xff");
    let logs = enter(&mut app, &mut target, "register write r0");
    assert_eq!(logs[1], "Usage: register write <name> 0x<value>");
    let logs = enter(&mut app, &mut target, "register frob");
    assert_eq!(logs[1], "Unknown register subcommand: frob");
    assert_eq!(enter(&mut app, &mut target, "register dump").len(), 1);

    let logs = enter(&mut app, &mut target, "mem read 0x1000 18");
    assert_eq!(
        logs[1..],
        [
            "00001000: 00 01 02 03 04 05 06 07 08 09 0a 0b 0c 0d 0e 0f",
            "00001010: 10 11"
        ]
    );
    assert_eq!(enter(&mut app, &mut target, "memory read 0x1000 x").len(), 2);
    let logs = enter(&mut app, &mut target, "memory write 0x1000 0x1ffffffff");
    assert_eq!(logs[1], "Wrote 0xffffffff to 0x1000");
    assert!(target
        .asked
        .contains(&"WriteMemory(4096, [255, 255, 255, 255])".to_string()));
    let logs = enter(&mut app, &mut target, "memory frob 0x0");
    assert_eq!(logs[1], "Unknown memory subcommand: frob");
    let logs = enter(&mut app, &mut target, "memory read zz");
    assert_eq!(
        logs[1],
        "command failed: invalid hex value zz: invalid digit found in string"
    );
    assert_eq!(hexdump(0, &[]), Vec::<String>::new());
}

#[test]
fn the_other_commands() {
    let (mut app, mut target) = (app(), Target::new());
    for (command, label) in [
        ("c", "continue"),
        ("si", "stepi"),
        ("s", "step"),
        ("n", "next"),
        ("halt", "halt"),
        ("reset", "reset"),
    ] {
        let logs = enter(&mut app, &mut target, command);
        assert_eq!(logs[1], format!("running {label}..."));
    }
    assert_eq!(enter(&mut app, &mut target, "h").len(), 3);
    assert_eq!(enter(&mut app, &mut target, "frob x")[1], "Invalid command: frob");
    assert_eq!(enter(&mut app, &mut target, "   "), Vec::<String>::new());
    enter(&mut app, &mut target, "quit");
    assert!(app.should_quit());
}

#[test]
fn source_locations_are_read() {
    assert_eq!(parse_source_location("a:b:7").unwrap(), ("a:b".to_string(), 7));
    assert_eq!(
        parse_source_location("a").err().unwrap().message(),
        "expected <file>:<line>"
    );
    assert!(parse_source_location("a:").is_err());
}

#[test]
fn panes_show_the_snapshot() {
    let mut app = app();
    let pane = app.source_pane(10);
    assert_eq!(pane.title, "Source");
    assert_eq!(pane.rows[0].text, "No target snapshot");
    assert!(app.registers_pane(10).is_empty());

    let mut full = shot(0x1008);
    full.source = read_source_window("a.c", "one\ntwo\nthree\n", 2, 1);
    full.breakpoints = vec![
        BreakpointView {
            addr: 0x1000,
            temporary: false,
            enabled: true,
        },
        BreakpointView {
            addr: 0x2000,
            temporary: true,
            enabled: false,
        },
    ];
    full.backtrace = vec![StackFrame {
        index: 0,
        pc: 0x1008,
        location: "At main".to_string(),
        approximate: true,
    }];
    app = app.with_replies(vec![Reply::Target(Answer::Snapshot(Ok(full)))]);
    app.refresh_snapshot().unwrap();
    let pane = app.source_pane(10);
    assert_eq!(pane.title, "Source  a.c  pc=0x1008");
    assert_eq!(pane.rows[0].text, "      1  one");
    assert_eq!(pane.rows[1].text, ">     2  two");
    assert!(pane.rows[1].is_current && !pane.rows[0].is_current);
    assert_eq!(pane.scroll, 0);
    assert_eq!(
        app.registers_pane(10),
        vec!["r0       0x000000000000002a", "pc       0x0000000000001008"]
    );
    assert_eq!(
        app.breakpoints_pane(10),
        vec![
            "0x0000000000001000  user  enabled",
            "0x0000000000002000  temp  disabled"
        ]
    );
    assert_eq!(
        app.backtrace_pane(10),
        vec!["#0  0x0000000000001008 At main approx"]
    );
    app.scroll_focused(9);
    assert_eq!(app.source_pane(4).scroll, 1);
    assert_eq!(app.source_pane(100).scroll, 0);

    app = app.with_replies(vec![Reply::Target(Answer::Snapshot(Ok(shot(0x10))))]);
    app.refresh_snapshot().unwrap();
    assert_eq!(app.source_pane(10).title, "Source  pc=0x10");
    assert_eq!(app.source_pane(10).rows[1].text, "Location: At 0x10");
    assert_eq!(app.breakpoints_pane(10), vec!["No breakpoints"]);
    assert_eq!(app.backtrace_pane(10), vec!["No backtrace"]);
}

#[test]
fn a_window_stops_at_the_last_items() {
    let items: Vec<String> = (0..5).map(|i| i.to_string()).collect();
    assert_eq!(visible_items(&items, 0, 4), vec!["0", "1"]);
    assert_eq!(visible_items(&items, 1, 4), vec!["1", "2"]);
    assert_eq!(visible_items(&items, 3, 4), vec!["3", "4"]);
    assert_eq!(visible_items(&items, 9, 4), vec!["3", "4"]);
    assert_eq!(visible_items(&items, 9, 40), items);
    assert_eq!(visible_items(&items, 0, 2), Vec::<String>::new());
}

#[test]
fn the_cursor_stands_behind_the_command() {
    assert_eq!(command_cursor_position(0, 10, 80, ""), (11, 11));
    assert_eq!(command_cursor_position(5, 10, 80, "abc"), (19, 11));
    assert_eq!(command_cursor_position(0, 0, 12, "abcdef"), (10, 1));
    assert_eq!(command_cursor_position(u16::MAX, u16::MAX, 80, ""), (u16::MAX, u16::MAX));
    assert_eq!(command_cursor_position(3, 0, 0, "abc"), (4, 1));
}

#[test]
fn an_operation_of_the_interface_asks_for_the_target() {
    let mut app = app();
    match app.run_target_op("step", Request::StepSource) {
        Err(Pause::Ask(Call::Target(Request::StepSource))) => {}
        other => panic!("{other:?}"),
    }
    // An answer of another form does not count.
    let mut app = app.with_replies(vec![Reply::Target(Answer::Done(Ok(())))]);
    assert!(matches!(
        app.run_target_op("step", Request::StepSource),
        Err(Pause::Ask(Call::Target(Request::StepSource)))
    ));
}

#[test]
fn keys_do_what_commands_do() {
    for (key, control, command) in [
        (Key::Function(5), false, "continue"),
        (Key::Function(10), false, "next"),
        (Key::Function(11), false, "stepi"),
        (Key::Char('c'), true, "halt"),
    ] {
        let (mut pressed, mut by_key) = (app(), Target::new());
        press(&mut pressed, &mut by_key, key, control);
        let (mut typed, mut by_command) = (app(), Target::new());
        let lines = enter(&mut typed, &mut by_command, command);
        assert_eq!(by_key.asked, by_command.asked);
        assert_eq!(lines[0], format!("> {command}"));
        assert_eq!(pressed.logs()[..], lines[1..]);
    }
}

#[test]
fn page_up_shows_older_messages() {
    let (mut app, mut target) = (app(), Target::new());
    for i in 0..100 {
        app.log(&format!("{i}"));
    }
    for _ in 0..4 {
        press(&mut app, &mut target, Key::Char('x'), true);
    }
    assert_eq!(app.focused_pane(), Pane::Log);
    assert_eq!(app.log_pane(7)[0], "95");
    press(&mut app, &mut target, Key::PageUp, false);
    assert_eq!(app.log_pane(7)[0], "85");
    press(&mut app, &mut target, Key::Down, false);
    assert_eq!(app.log_pane(7)[0], "84");
    press(&mut app, &mut target, Key::Up, false);
    assert_eq!(app.log_pane(7)[0], "85");
    press(&mut app, &mut target, Key::PageDown, false);
    press(&mut app, &mut target, Key::PageDown, false);
    assert_eq!(app.log_pane(7), vec!["95", "96", "97", "98", "99"]);
    for _ in 0..10 {
        press(&mut app, &mut target, Key::PageUp, false);
    }
    assert_eq!(app.log_pane(7)[0], "0");
}
