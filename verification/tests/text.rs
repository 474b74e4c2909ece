use linux_debugger::cli::{parse_args, usage, Launch};
use linux_debugger::dialogue::{Call, Pause, Reply, Talk};
use linux_debugger::list::{has_value, push_new, remove_value};
use linux_debugger::number::{
    dec, hex, parse_dec, parse_hex, parse_signed_hex, push_hex_padded, push_padded_end,
    push_padded_start, push_signed_dec, NumberFault,
};
use linux_debugger::source::{bare_place_text, code_place_text, join, resolve_source_path};
use linux_debugger::target::{empty_source_view, read_source_window, StopReason, TargetError};
use linux_debugger::text::{
    contains, ends_with, has_char, rsplit_once, same, split_once, starts_with, strip_prefix,
};
use linux_debugger::words::{lines, split_whitespace, to_ascii_lowercase, trim};

#[test]
fn words_are_split_at_white_space() {
    assert_eq!(split_whitespace("  a\tbc \u{2003}d\n"), vec!["a", "bc", "d"]);
    assert_eq!(split_whitespace("   "), Vec::<String>::new());
}

#[test]
fn lines_lose_their_endings() {
    assert_eq!(lines("a\r\nb\n\nc"), vec!["a", "b", "", "c"]);
    assert_eq!(lines("a\r"), vec!["a\r"]);
    assert_eq!(lines("a\n"), vec!["a"]);
    assert_eq!(lines(""), Vec::<String>::new());
}

#[test]
fn text_is_trimmed_and_lowered() {
    assert_eq!(trim(" \t x y \n"), "x y");
    assert_eq!(trim("  "), "");
    assert_eq!(to_ascii_lowercase("PC\u{c4}z"), "pc\u{c4}z");
}

#[test]
fn parts_of_text_are_found() {
    assert!(starts_with("0x10", "0x"));
    assert!(!starts_with("0", "0x"));
    assert!(ends_with("src/main.c", "main.c"));
    assert!(contains("a timed out b", "timed out"));
    assert!(!contains("timed", "timed out"));
    assert!(has_char("a:b", ':'));
    assert!(same("\u{e4}", "\u{e4}"));
    assert_eq!(strip_prefix("0x10", "0x"), Some("10".to_string()));
    assert_eq!(strip_prefix("10", "0x"), None);
    assert_eq!(split_once("a-b-c", '-'), Some(("a".to_string(), "b-c".to_string())));
    assert_eq!(rsplit_once("a:b:c", ':'), Some(("a:b".to_string(), "c".to_string())));
    assert_eq!(rsplit_once("abc", ':'), None);
}

#[test]
fn numbers_are_read() {
    assert_eq!(parse_hex("ff"), Ok(255));
    assert_eq!(parse_hex("+fF"), Ok(255));
    assert_eq!(parse_hex(""), Err(NumberFault::Empty));
    assert_eq!(parse_hex("-"), Err(NumberFault::InvalidDigit));
    assert_eq!(parse_hex("fg"), Err(NumberFault::InvalidDigit));
    assert_eq!(parse_dec("18446744073709551615"), Ok(u64::MAX));
    assert_eq!(parse_dec("18446744073709551616"), Err(NumberFault::TooLarge));
    assert_eq!(parse_signed_hex("-10"), Some(-16));
    assert_eq!(parse_signed_hex("7fffffffffffffff"), Some(i64::MAX));
    assert_eq!(parse_signed_hex("8000000000000000"), None);
    assert_eq!(parse_signed_hex("-8000000000000000"), Some(i64::MIN));
}

#[test]
fn numbers_are_written_and_read_back() {
    for n in [0, 9, 10, 255, 4096, u64::MAX] {
        assert_eq!(hex(n), format!("{n:x}"));
        assert_eq!(dec(n), format!("{n}"));
        assert_eq!(parse_hex(&hex(n)), Ok(n));
        assert_eq!(parse_dec(&dec(n)), Ok(n));
    }
    let mut out = String::new();
    push_hex_padded(&mut out, 0xabc, 8);
    push_padded_end(&mut out, "r0", 4, '.');
    push_padded_start(&mut out, "7", 3, ' ');
    push_signed_dec(&mut out, i64::MIN);
    assert_eq!(out, "00000abcr0..  7-9223372036854775808");
}

#[test]
fn lists_keep_values_once() {
    let mut list = vec![1, 2];
    push_new(&mut list, 2);
    push_new(&mut list, 3);
    assert_eq!(list, vec![1, 2, 3]);
    remove_value(&mut list, 2);
    remove_value(&mut list, 9);
    assert_eq!(list, vec![1, 3]);
    assert!(has_value(&list, 3));
    assert!(!has_value(&list, 2));
}

#[test]
fn stops_are_put_into_words() {
    assert_eq!(StopReason::Ready.message(), "Target ready");
    assert_eq!(StopReason::Signal("SIGTRAP".to_string()).message(), "Stopped by SIGTRAP");
    assert_eq!(StopReason::Exited(-3).message(), "Exited with -3");
    assert_eq!(StopReason::Terminated("SIGKILL".to_string()).message(), "Terminated by SIGKILL");
    assert_eq!(StopReason::Other("so".to_string()).message(), "so");
    assert!(StopReason::Exited(0).is_end());
    assert!(!StopReason::Ready.is_end());
}

#[test]
fn errors_keep_their_context() {
    let error = TargetError::of("cause").context("outer".to_string());
    assert_eq!(error.message(), "outer");
    assert_eq!(error.describe(), "outer: cause");
    assert_eq!(error.clone().chain, vec!["outer", "cause"]);
}

#[test]
fn a_source_window_is_cut_around_a_line() {
    let view = read_source_window("a.c", "one\ntwo\nthree\nfour\nfive\n", 3, 1);
    assert_eq!(view.path.as_deref(), Some("a.c"));
    assert_eq!(view.current_line, Some(3));
    let shown: Vec<(u64, &str, bool)> = view
        .lines
        .iter()
        .map(|line| (line.number, line.text.as_str(), line.is_current))
        .collect();
    assert_eq!(
        shown,
        vec![(2, "two", false), (3, "three", true), (4, "four", false)]
    );
    let all = read_source_window("a.c", "one\ntwo\n", 1, 6);
    assert_eq!(all.lines.len(), 2);
    assert_eq!(read_source_window("a.c", "one\n", 9, 1).lines.len(), 0);
    let none = empty_source_view();
    assert!(none.path.is_none() && none.current_line.is_none() && none.lines.is_empty());
}

#[test]
fn places_are_put_into_words() {
    assert_eq!(join("src", "a.c"), "src/a.c");
    assert_eq!(join("src", "/a.c"), "/a.c");
    assert_eq!(join("", "a.c"), "a.c");
    assert_eq!(bare_place_text(0x1000), "At 0x1000 (no DWARF match)");
    assert!(code_place_text(None, None).is_none());
    let place = code_place_text(Some("main".to_string()), Some(("a.c".to_string(), 3))).unwrap();
    assert!(place.starts_with("At main"));
    assert!(place.contains("a.c:3"));
}

fn args(list: &[&str]) -> Vec<String> {
    list.iter().map(|arg| arg.to_string()).collect()
}

#[test]
fn arguments_choose_the_mode() {
    assert!(matches!(parse_args(&args(&[])), Launch::Usage { asked: false }));
    assert!(matches!(parse_args(&args(&["--tui"])), Launch::Usage { asked: false }));
    assert!(matches!(parse_args(&args(&["x", "-h"])), Launch::Usage { asked: true }));
    assert!(matches!(parse_args(&args(&["--help"])), Launch::Usage { asked: true }));
    assert!(matches!(parse_args(&args(&["--arm-gdb"])), Launch::Usage { asked: false }));
    match parse_args(&args(&["./prog"])) {
        Launch::Local { program, tui } => assert_eq!((program.as_str(), tui), ("./prog", false)),
        other => panic!("{other:?}"),
    }
    match parse_args(&args(&["--gdb-remote", "fw.elf", "--tui"])) {
        Launch::Remote { firmware, endpoint, tui } => {
            assert_eq!((firmware.as_str(), endpoint, tui), ("fw.elf", None, true))
        }
        other => panic!("{other:?}"),
    }
    match parse_args(&args(&["--arm-gdb", "fw.elf", "host:1"])) {
        Launch::Remote { firmware, endpoint, tui } => assert_eq!(
            (firmware.as_str(), endpoint.as_deref(), tui),
            ("fw.elf", Some("host:1"), false)
        ),
        other => panic!("{other:?}"),
    }
}

#[test]
fn the_usage_names_the_program() {
    assert_eq!(
        usage("dbg"),
        "Usage:\n  dbg <linux-program>\n  dbg --tui <linux-program>\n  \
         dbg --arm-gdb <firmware.elf> [host:port]\n  \
         dbg --tui --arm-gdb <firmware.elf> [host:port]\n  \
         dbg --gdb-remote <firmware.elf> [host:port]\n"
    );
}

/// The paths that are looked for, where none is there, and the one that is taken.
fn looked_for(program: &str, path: &str) -> (Vec<String>, String) {
    let mut asked = Vec::new();
    let mut replies: Vec<Reply> = Vec::new();
    loop {
        let mut talk = Talk::new(replies.clone());
        match resolve_source_path(&mut talk, program, path) {
            Ok(found) => return (asked, found),
            Err(Pause::Ask(Call::PathExists(path))) => {
                asked.push(path);
                replies.push(Reply::Exists(false));
            }
            Err(Pause::Ask(Call::CurrentDir)) => {
                replies.push(Reply::Dir(Some("/work".to_string())));
            }
            Err(other) => panic!("unexpected {other:?}"),
        }
    }
}

#[test]
fn a_source_file_is_looked_for_near_the_program() {
    for (program, dirs) in [
        ("./bin/prog", vec!["./bin/a.c", "./a.c"]),
        ("./prog", vec!["./a.c", "a.c"]),
        ("prog", vec!["a.c"]),
        ("/prog", vec!["/a.c"]),
        ("/home/me/prog", vec!["/home/me/a.c", "/home/a.c"]),
        ("x//y/./prog", vec!["x//y/a.c", "x/a.c"]),
    ] {
        let (asked, found) = looked_for(program, "a.c");
        assert_eq!(asked[..2], ["a.c", "/work/a.c"]);
        assert_eq!(asked[2..], dirs);
        assert_eq!(found, "a.c");
    }
    assert_eq!(
        looked_for("prog", "/abs/a.c"),
        (vec!["/abs/a.c".to_string()], "/abs/a.c".to_string())
    );
}
