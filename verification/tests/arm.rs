use std::collections::{BTreeMap, BTreeSet};

use gimli::write::{
    Address, AttributeValue, DwarfUnit, EndianVec, LineProgram, LineString, Sections,
};
use linux_debugger::arm_target::debugger::RemoteArmDebugger;
use linux_debugger::arm_target::gdb_protocol::{bytes_to_hex, hex_to_bytes};
use linux_debugger::arm_target::turn::Pending;
use linux_debugger::dialogue::{Call, Fault, Input, Pause, Reply, Talk};
use linux_debugger::elf_debug_info::ElfDebugInfo;
use linux_debugger::request::{perform, Answer, Request};
use linux_debugger::target::{snapshot, step_source, DebugTarget, NextStart, TargetError};

/// A firmware with `main` at 0x8000100..0x8000110 (lines 3, 4, 5) and `idle` at
/// 0x8000110..0x8000118 (line 9).
fn firmware() -> ElfDebugInfo {
    let encoding = gimli::Encoding {
        format: gimli::Format::Dwarf32,
        version: 4,
        address_size: 4,
    };
    let mut dwarf = DwarfUnit::new(encoding);
    let mut lines = LineProgram::new(
        encoding,
        gimli::LineEncoding::default(),
        LineString::String(b"/build".to_vec()),
        None,
        LineString::String(b"fw.c".to_vec()),
        None,
    );
    let dir = lines.default_directory();
    let file = lines.add_file(LineString::String(b"fw.c".to_vec()), dir, None);
    lines.begin_sequence(Some(Address::Constant(0x8000100)));
    for (offset, line) in [(0x0, 3), (0x4, 4), (0x8, 5), (0x10, 9)] {
        lines.row().address_offset = offset;
        lines.row().file = file;
        lines.row().line = line;
        lines.generate_row();
    }
    lines.end_sequence(0x18);
    dwarf.unit.line_program = lines;
    let root = dwarf.unit.root();
    let cu = dwarf.unit.get_mut(root);
    cu.set(
        gimli::DW_AT_low_pc,
        AttributeValue::Address(Address::Constant(0x8000100)),
    );
    cu.set(gimli::DW_AT_high_pc, AttributeValue::Udata(0x18));
    for (name, low, len) in [("main", 0x8000100, 0x10), ("idle", 0x8000110, 0x8)] {
        let id = dwarf.unit.add(root, gimli::DW_TAG_subprogram);
        let entry = dwarf.unit.get_mut(id);
        entry.set(
            gimli::DW_AT_name,
            AttributeValue::String(name.as_bytes().to_vec()),
        );
        entry.set(
            gimli::DW_AT_low_pc,
            AttributeValue::Address(Address::Constant(low)),
        );
        entry.set(gimli::DW_AT_high_pc, AttributeValue::Udata(len));
    }
    let mut sections = Sections::new(EndianVec::new(gimli::LittleEndian));
    dwarf.write(&mut sections).unwrap();
    let mut file = object::write::Object::new(
        object::BinaryFormat::Elf,
        object::Architecture::Arm,
        object::Endianness::Little,
    );
    sections
        .for_each(|id, section| {
            let section_id = file.add_section(
                Vec::new(),
                id.name().as_bytes().to_vec(),
                object::SectionKind::Debug,
            );
            file.set_section_data(section_id, section.slice().to_vec(), 1);
            Ok::<(), gimli::write::Error>(())
        })
        .unwrap();
    ElfDebugInfo::new(&file.write().unwrap()).unwrap()
}

/// A remote stub with a target that executes two bytes at a time.
struct Stub {
    regs: [u32; 17],
    memory: BTreeMap<u32, u8>,
    breakpoints: BTreeSet<u32>,
    hardware: bool,
    sent: Vec<String>,
    fail: Option<String>,
}

impl Stub {
    fn new() -> Stub {
        let mut regs = [0; 17];
        for (i, reg) in regs.iter_mut().enumerate() {
            *reg = i as u32 * 0x11;
        }
        regs[13] = 0x20001000;
        regs[14] = 0x8000113;
        regs[15] = 0x8000100;
        Stub {
            regs,
            memory: BTreeMap::new(),
            breakpoints: BTreeSet::new(),
            hardware: true,
            sent: Vec::new(),
            fail: None,
        }
    }

    fn packet(&mut self, packet: &str) -> String {
        if packet == "qSupported" {
            return "PacketSize=4000".to_string();
        }
        if packet == "?" {
            return "S05".to_string();
        }
        if packet == "g" {
            let mut bytes = Vec::new();
            for reg in self.regs {
                bytes.extend_from_slice(&reg.to_le_bytes());
            }
            return bytes_to_hex(&bytes);
        }
        if let Some(rest) = packet.strip_prefix('p') {
            let index = usize::from_str_radix(rest, 16).unwrap();
            return bytes_to_hex(&self.regs[index].to_le_bytes());
        }
        if let Some(rest) = packet.strip_prefix('P') {
            let (index, value) = rest.split_once('=').unwrap();
            let bytes = hex_to_bytes(value).unwrap();
            let index = usize::from_str_radix(index, 16).unwrap();
            self.regs[index] = u32::from_le_bytes([bytes[0], bytes[1], bytes[2], bytes[3]]);
            return "OK".to_string();
        }
        if let Some(rest) = packet.strip_prefix('m') {
            let (addr, len) = rest.split_once(',').unwrap();
            let addr = u32::from_str_radix(addr, 16).unwrap();
            let len = u32::from_str_radix(len, 16).unwrap();
            let bytes: Vec<u8> = (0..len)
                .map(|i| *self.memory.get(&(addr + i)).unwrap_or(&0))
                .collect();
            return bytes_to_hex(&bytes);
        }
        if let Some(rest) = packet.strip_prefix('M') {
            let (addr, data) = rest.split_once(':').unwrap();
            let addr = u32::from_str_radix(addr.split_once(',').unwrap().0, 16).unwrap();
            for (i, byte) in hex_to_bytes(data).unwrap().into_iter().enumerate() {
                self.memory.insert(addr + i as u32, byte);
            }
            return "OK".to_string();
        }
        if packet.starts_with('Z') || packet.starts_with('z') {
            if packet[1..].starts_with('1') && !self.hardware {
                return String::new();
            }
            let addr = u32::from_str_radix(packet.split(',').nth(1).unwrap(), 16).unwrap();
            if packet.starts_with('Z') {
                self.breakpoints.insert(addr);
            } else {
                self.breakpoints.remove(&addr);
            }
            return "OK".to_string();
        }
        if packet == "s" {
            self.regs[15] += 2;
            return "S05".to_string();
        }
        if packet == "c" {
            while self.regs[15] < 0x8000200 {
                self.regs[15] += 2;
                if self.breakpoints.contains(&self.regs[15]) {
                    return "S05".to_string();
                }
            }
            return "W00".to_string();
        }
        if packet.starts_with("qRcmd,") {
            return "OK".to_string();
        }
        String::new()
    }

    fn reply(&mut self, call: &Call) -> Reply {
        match call {
            Call::Exchange(packet) | Call::Resume(packet) => {
                self.sent.push(packet.clone());
                if let Some(text) = self.fail.take() {
                    return Reply::Packet(Err(TargetError::new(text)));
                }
                Reply::Packet(Ok(self.packet(packet)))
            }
            Call::Interrupt => Reply::Packet(Ok("T02".to_string())),
            Call::NextPacket => Reply::Packet(Ok("OK".to_string())),
            Call::PathExists(_) => Reply::Exists(false),
            Call::CurrentDir => Reply::Dir(None),
            Call::ReadFile(_) => Reply::File(Ok("a\nb\nc\nd\ne\n".to_string())),
            other => panic!("unexpected call {other:?}"),
        }
    }
}

fn debugger() -> RemoteArmDebugger {
    RemoteArmDebugger::connect("fw.elf".to_string(), None, firmware())
}

/// Runs an operation to its end: its result and what it printed.
fn drive<T>(
    dbg: &mut RemoteArmDebugger,
    stub: &mut Stub,
    mut op: impl FnMut(&mut RemoteArmDebugger) -> Result<T, Pause>,
) -> (Result<T, String>, String) {
    let saved = dbg.breakpoints.clone();
    let mut replies: Vec<Reply> = Vec::new();
    loop {
        dbg.breakpoints = saved.clone();
        dbg.talk = Talk::new(replies.clone());
        let result = match op(dbg) {
            Err(Pause::Ask(call)) => {
                replies.push(stub.reply(&call));
                continue;
            }
            Err(Pause::Fail(fault)) => Err(fault.into_error().describe()),
            Ok(value) => Ok(value),
        };
        assert_eq!(dbg.talk.unused(), 0);
        return (result, dbg.talk.output().to_string());
    }
}

fn command(dbg: &mut RemoteArmDebugger, stub: &mut Stub, line: &str) -> (Result<bool, String>, String) {
    drive(dbg, stub, |dbg| dbg.handle_command(line))
}

#[test]
fn the_default_endpoint_is_local() {
    assert_eq!(debugger().endpoint, "127.0.0.1:3333");
    let other = RemoteArmDebugger::connect("fw".to_string(), Some("h:1".to_string()), firmware());
    assert_eq!(other.endpoint, "h:1");
}

#[test]
fn a_session_starts_with_the_state_of_the_target() {
    let (mut dbg, mut stub) = (debugger(), Stub::new());
    let (result, output) = drive(&mut dbg, &mut stub, |dbg| dbg.initialize_remote());
    assert!(result.is_ok());
    assert!(output.starts_with(
        "Connected to ARM GDB remote target at 127.0.0.1:3333 for fw.elf\n\
         Remote features: PacketSize=4000\n"
    ));
    assert!(output.contains("PC = 0x08000100\nAt main"));
    assert!(output.contains("fw.c:3"));
}

#[test]
fn a_breakpoint_is_asked_of_the_hardware_first() {
    let (mut dbg, mut stub) = (debugger(), Stub::new());
    let (result, output) = command(&mut dbg, &mut stub, "break 0x8000105");
    assert_eq!(result, Ok(true));
    assert_eq!(output, "Breakpoint set at 0x08000104\n");
    assert_eq!(stub.sent, vec!["Z1,8000104,2"]);
    assert_eq!(dbg.breakpoints, vec![0x8000104]);

    let (_, output) = command(&mut dbg, &mut stub, "b 0x8000104");
    assert_eq!(output, "Breakpoint already exists at 0x08000104\n");

    let (_, output) = command(&mut dbg, &mut stub, "clear 0x8000104");
    assert_eq!(output, "Breakpoint cleared at 0x08000104\n");
    assert!(dbg.breakpoints.is_empty() && stub.breakpoints.is_empty());

    let (_, output) = command(&mut dbg, &mut stub, "delete 0x8000104");
    assert_eq!(output, "No breakpoint tracked at 0x08000104\n");
}

#[test]
fn a_software_breakpoint_is_the_second_choice() {
    let (mut dbg, mut stub) = (debugger(), Stub::new());
    stub.hardware = false;
    let (result, _) = command(&mut dbg, &mut stub, "break fw.c:4");
    assert_eq!(result, Ok(true));
    assert_eq!(stub.sent, vec!["Z1,8000104,2", "Z0,8000104,2"]);
    assert_eq!(dbg.breakpoints, vec![0x8000104]);
}

#[test]
fn bad_breakpoint_arguments_are_reported() {
    let (mut dbg, mut stub) = (debugger(), Stub::new());
    let (_, output) = command(&mut dbg, &mut stub, "break");
    assert_eq!(output, "Usage: break 0x<addr>  OR  break <filename>:<line>\n");
    let (_, output) = command(&mut dbg, &mut stub, "break fw.c:x");
    assert_eq!(output, "Invalid line number: x\n");
    let (_, output) = command(&mut dbg, &mut stub, "break fw.c:77");
    assert_eq!(output, "No code found at fw.c:77\n");
    let (result, _) = command(&mut dbg, &mut stub, "break zz");
    assert_eq!(
        result,
        Err("parse breakpoint address zz: invalid hex value zz: invalid digit found in string"
            .to_string())
    );
    assert!(dbg.breakpoints.is_empty());
}

#[test]
fn running_stops_at_a_breakpoint() {
    let (mut dbg, mut stub) = (debugger(), Stub::new());
    command(&mut dbg, &mut stub, "break 0x8000108").0.unwrap();
    let (result, output) = command(&mut dbg, &mut stub, "c");
    assert_eq!(result, Ok(true));
    assert!(output.contains("SIGTRAP"));
    assert!(output.contains("PC = 0x08000108"));
    let (reason, _) = drive(&mut dbg, &mut stub, |dbg| dbg.continue_exec());
    assert_eq!(reason.unwrap().message(), "Exited with 0");
}

#[test]
fn stepping_passes_a_breakpoint_and_puts_it_back() {
    let (mut dbg, mut stub) = (debugger(), Stub::new());
    command(&mut dbg, &mut stub, "break 0x8000100").0.unwrap();
    stub.sent.clear();
    let (reason, _) = drive(&mut dbg, &mut stub, |dbg| dbg.step_instruction());
    assert!(reason.is_ok());
    assert_eq!(stub.regs[15], 0x8000102);
    assert_eq!(stub.sent[1..], ["z1,8000100,2", "s", "Z1,8000100,2"]);
    assert!(stub.breakpoints.contains(&0x8000100));
}

#[test]
fn a_source_step_ends_at_another_line() {
    let (mut dbg, mut stub) = (debugger(), Stub::new());
    let (reason, _) = drive(&mut dbg, &mut stub, step_source);
    assert!(reason.is_ok());
    assert_eq!(stub.regs[15], 0x8000104);
    let (result, output) = command(&mut dbg, &mut stub, "step");
    assert_eq!(result, Ok(true));
    assert!(output.contains("PC = 0x08000108"));
}

#[test]
fn a_step_over_a_line_runs_to_the_next_one() {
    let (mut dbg, mut stub) = (debugger(), Stub::new());
    command(&mut dbg, &mut stub, "break 0x8000100").0.unwrap();
    let (reason, _) = drive(&mut dbg, &mut stub, |dbg| dbg.next_source());
    assert!(reason.is_ok());
    assert_eq!(stub.regs[15], 0x8000104);
    // The temporary breakpoint is gone and the user's one is back.
    assert_eq!(stub.breakpoints, BTreeSet::from([0x8000100]));
    assert_eq!(dbg.breakpoints, vec![0x8000100]);
}

#[test]
fn a_failed_step_over_keeps_the_breakpoints() {
    let (mut dbg, mut stub) = (debugger(), Stub::new());
    command(&mut dbg, &mut stub, "break 0x8000100").0.unwrap();
    command(&mut dbg, &mut stub, "break 0x8000108").0.unwrap();
    stub.fail = Some("gone".to_string());
    let (reason, _) = drive(&mut dbg, &mut stub, |dbg| dbg.next_source());
    assert!(reason.is_err());
    assert_eq!(dbg.breakpoints, vec![0x8000100, 0x8000108]);
}

#[test]
fn a_step_over_the_last_line_runs_to_the_caller() {
    let (mut dbg, mut stub) = (debugger(), Stub::new());
    stub.regs[15] = 0x8000108;
    let (reason, _) = drive(&mut dbg, &mut stub, |dbg| dbg.next_source());
    assert!(reason.is_ok());
    assert_eq!(stub.regs[15], 0x8000112);
    assert!(stub.breakpoints.is_empty());
}

#[test]
fn registers_are_read_and_written() {
    let (mut dbg, mut stub) = (debugger(), Stub::new());
    let (_, output) = command(&mut dbg, &mut stub, "register read r2");
    assert_eq!(output, "r2          00000022\n");
    command(&mut dbg, &mut stub, "register write R2 0xdeadbeef").0.unwrap();
    assert_eq!(stub.regs[2], 0xdeadbeef);
    let (_, output) = command(&mut dbg, &mut stub, "register dump");
    assert_eq!(output.lines().count(), 17);
    assert!(output.contains("sp          20001000\n"));
    let (_, output) = command(&mut dbg, &mut stub, "register read nope");
    assert_eq!(output, "Invalid register name\n");
    let (_, output) = command(&mut dbg, &mut stub, "register frob");
    assert_eq!(output, "Command not found\n");
    let (result, _) = drive(&mut dbg, &mut stub, |dbg| dbg.write_register_by_name("nope", 1));
    assert!(result.is_err());
}

#[test]
fn memory_is_read_and_written() {
    let (mut dbg, mut stub) = (debugger(), Stub::new());
    let (_, output) = command(&mut dbg, &mut stub, "memory write 0x20000000 0x12345678");
    assert_eq!(output, "Wrote 0x78563412 to 0x20000000\n");
    let (_, output) = command(&mut dbg, &mut stub, "memory read 0x20000000");
    assert_eq!(output, "20000000: 78 56 34 12 \n");
    let (_, output) = command(&mut dbg, &mut stub, "memory read 0x20000000 17");
    assert!(output.ends_with("20000010: 00 \n"));
    let (bytes, _) = drive(&mut dbg, &mut stub, |dbg| dbg.read_memory(0x20000000, 4));
    assert_eq!(bytes.unwrap(), vec![0x78, 0x56, 0x34, 0x12]);
    let (result, _) = drive(&mut dbg, &mut stub, |dbg| dbg.write_memory(0x20000004, &[9]));
    assert!(result.is_ok());
    assert_eq!(stub.memory[&0x20000004], 9);
}

#[test]
fn a_backtrace_scans_the_stack() {
    let (mut dbg, mut stub) = (debugger(), Stub::new());
    for (i, byte) in 0x8000113u32.to_le_bytes().into_iter().enumerate() {
        stub.memory.insert(0x20001004 + i as u32, byte);
    }
    let (frames, _) = drive(&mut dbg, &mut stub, |dbg| dbg.backtrace());
    let frames = frames.unwrap();
    assert_eq!(frames.len(), 2);
    assert_eq!((frames[0].pc, frames[0].approximate), (0x8000100, false));
    assert_eq!((frames[1].pc, frames[1].approximate), (0x8000112, true));
    assert!(frames[1].location.contains("idle"));
    let (_, output) = command(&mut dbg, &mut stub, "bt");
    assert!(output.starts_with("Backtrace:\n#0  0x08000100 At main"));
    assert!(output.contains("#1  0x08000112 "));
    assert!(output.contains("[stack scan]"));
}

#[test]
fn commands_to_the_stub_print_what_it_says() {
    let (mut dbg, mut stub) = (debugger(), Stub::new());
    let (result, output) = command(&mut dbg, &mut stub, "monitor reset halt");
    assert_eq!((result, output.as_str()), (Ok(true), ""));
    assert_eq!(stub.sent, vec!["qRcmd,72657365742068616c74"]);

    let mut dbg = debugger();
    dbg.talk = Talk::new(vec![
        Reply::Packet(Ok("O48690a".to_string())),
        Reply::Packet(Ok("Off".to_string())),
        Reply::Packet(Ok("OK".to_string())),
    ]);
    assert!(dbg.handle_command("monitor x").unwrap());
    assert_eq!(dbg.talk.output(), "Hi\n\u{fffd}");

    let (reason, _) = drive(&mut dbg, &mut stub, |dbg| dbg.reset_halt());
    assert_eq!(reason.unwrap().message(), "Target reset and halted");
}

#[test]
fn other_commands_of_the_session() {
    let (mut dbg, mut stub) = (debugger(), Stub::new());
    assert_eq!(command(&mut dbg, &mut stub, "   ").0, Ok(true));
    assert_eq!(command(&mut dbg, &mut stub, "quit").0, Ok(false));
    assert_eq!(command(&mut dbg, &mut stub, "q").0, Ok(false));
    assert_eq!(
        command(&mut dbg, &mut stub, "frob").1,
        "Invalid command. Try 'help'.\n"
    );
    assert!(command(&mut dbg, &mut stub, "help").1.starts_with("Commands:\n"));
    assert!(command(&mut dbg, &mut stub, "halt").1.contains("SIGINT"));
    let (more, output) = drive(&mut dbg, &mut stub, |dbg| dbg.on_input(&Input::Interrupted));
    assert_eq!(more, Ok(true));
    assert!(output.contains("SIGINT"));
    assert_eq!(drive(&mut dbg, &mut stub, |dbg| dbg.on_input(&Input::Eof)).0, Ok(false));
    let (more, output) = drive(&mut dbg, &mut stub, |dbg| {
        dbg.on_input(&Input::Error("broken".to_string()))
    });
    assert_eq!((more, output.as_str()), (Ok(false), "Error: broken\n"));
}

#[test]
fn a_failed_packet_fails_the_command() {
    let (mut dbg, mut stub) = (debugger(), Stub::new());
    stub.fail = Some("timed out".to_string());
    let (result, _) = command(&mut dbg, &mut stub, "stepi");
    assert_eq!(result, Err("timed out".to_string()));
}

#[test]
fn a_snapshot_shows_the_target() {
    let (mut dbg, mut stub) = (debugger(), Stub::new());
    command(&mut dbg, &mut stub, "break 0x8000104").0.unwrap();
    let (result, _) = drive(&mut dbg, &mut stub, snapshot);
    let shot = result.unwrap();
    assert_eq!(shot.name, "fw.elf");
    assert_eq!(shot.architecture, "arm-cortex-m-gdb-remote");
    assert_eq!(shot.pc, Some(0x8000100));
    assert_eq!(shot.source.current_line, Some(3));
    assert_eq!(shot.source.lines[2].text, "c");
    assert!(shot.source.lines[2].is_current);
    assert_eq!(shot.registers.len(), 17);
    assert_eq!(shot.registers[0].name, "r0");
    assert_eq!(shot.breakpoints.len(), 1);
    assert!(shot.breakpoints[0].enabled && !shot.breakpoints[0].temporary);
    assert_eq!(shot.backtrace.len(), 1);
}

#[test]
fn a_snapshot_of_a_silent_target_is_empty() {
    let mut dbg = debugger();
    let failure = || Reply::Packet(Err(TargetError::of("gone")));
    dbg.talk = Talk::new((0..4).map(|_| failure()).collect());
    let shot = match snapshot(&mut dbg) {
        Ok(shot) => shot,
        other => panic!("{other:?}"),
    };
    assert_eq!(shot.pc, None);
    assert_eq!(shot.location, "No program counter");
    assert!(shot.registers.is_empty() && shot.backtrace.is_empty());
    assert!(shot.source.lines.is_empty());
}

#[test]
fn an_operation_asks_before_it_goes_on() {
    let mut dbg = debugger();
    match dbg.set_breakpoint(0x8000105) {
        Err(Pause::Ask(Call::Exchange(packet))) => assert_eq!(packet, "Z1,8000104,2"),
        other => panic!("{other:?}"),
    }
    // A reply of another form does not count.
    dbg.talk = Talk::new(vec![Reply::Exists(true)]);
    assert!(matches!(dbg.set_breakpoint(0x8000105), Err(Pause::Ask(_))));
    assert_eq!(dbg.talk.unused(), 1);
    dbg.talk = Talk::new(vec![
        Reply::Packet(Ok("E01".to_string())),
        Reply::Packet(Ok("E02".to_string())),
    ]);
    match dbg.set_breakpoint(0x8000105) {
        Err(Pause::Fail(Fault::Target(error))) => assert!(error.describe().contains("E02")),
        other => panic!("{other:?}"),
    }
    assert!(dbg.breakpoints.is_empty());
}

#[test]
fn requests_are_answered_in_their_form() {
    let (mut dbg, mut stub) = (debugger(), Stub::new());
    let (answer, _) = drive(&mut dbg, &mut stub, |dbg| {
        perform(dbg, &Request::SourceAddress("fw.c".to_string(), 5))
    });
    assert!(matches!(answer, Ok(Answer::Address(Ok(Some(0x8000108))))));
    let (answer, _) = drive(&mut dbg, &mut stub, |dbg| perform(dbg, &Request::DrainOutput));
    match answer {
        Ok(Answer::Bytes(Ok(bytes))) => assert!(bytes.is_empty()),
        other => panic!("{other:?}"),
    }
    stub.fail = Some("gone".to_string());
    let (answer, _) = drive(&mut dbg, &mut stub, |dbg| perform(dbg, &Request::Continue));
    match answer {
        Ok(Answer::Stop(Err(error))) => assert_eq!(error.message(), "gone"),
        other => panic!("{other:?}"),
    }
}

#[test]
fn a_command_in_parts_does_what_the_whole_one_does_remotely() {
    for (line, pc) in [
        ("step", 0x8000100),
        ("next", 0x8000100),
        ("next", 0x8000108),
        ("stepi", 0x8000100),
        ("break 0x8000104", 0x8000100),
        ("quit", 0x8000100),
    ] {
        let (mut whole, mut stub) = (debugger(), Stub::new());
        let (mut dbg, mut other) = (debugger(), Stub::new());
        stub.regs[15] = pc;
        other.regs[15] = pc;
        let (result, text) = command(&mut whole, &mut stub, line);
        let (started, mut output) = drive(&mut dbg, &mut other, |dbg| dbg.begin_command(line));
        let mut pending = started.unwrap();
        let more = loop {
            if let Pending::Nothing(more) = pending {
                break more;
            }
            let (next, printed) = drive(&mut dbg, &mut other, |dbg| dbg.turn(pending.clone()));
            pending = next.unwrap();
            output += &printed;
        };
        assert_eq!(Ok(more), result);
        assert_eq!(output, text);
        assert_eq!(other.regs, stub.regs);
        assert_eq!(other.breakpoints, stub.breakpoints);
        assert_eq!(dbg.breakpoints, whole.breakpoints);
    }
}

#[test]
fn a_step_over_starts_by_running_to_the_next_line() {
    let (mut dbg, mut stub) = (debugger(), Stub::new());
    let (result, _) = drive(&mut dbg, &mut stub, |dbg| dbg.next_begin());
    assert!(matches!(result.unwrap(), NextStart::Over(_)));
    assert_eq!(stub.regs[15], 0x8000104);
    // Without debugging information the line is left instruction by instruction.
    stub.regs[15] = 0x8000180;
    let (result, _) = drive(&mut dbg, &mut stub, |dbg| dbg.next_begin());
    let NextStart::Step(step) = result.unwrap() else {
        panic!("the step is over");
    };
    let (result, _) = drive(&mut dbg, &mut stub, |dbg| dbg.step_round(step.clone()));
    assert!(result.is_ok());
    assert_eq!(stub.regs[15], 0x8000182);
}

#[test]
fn a_session_keeps_to_the_breakpoints_of_the_stub() {
    let (mut dbg, mut stub) = (debugger(), Stub::new());
    for line in [
        "break 0x8000104",
        "break fw.c:5",
        "break 0x8000105",
        "continue",
        "next",
        "step",
        "clear 0x8000108",
        "register dump",
        "memory read 0x20000000 8",
        "bt",
        "break 0x8000110",
        "stepi",
        "monitor reset halt",
        "halt",
        "clear 0x8000200",
        "nonsense",
    ] {
        let (result, _) = command(&mut dbg, &mut stub, line);
        assert_eq!(result, Ok(true), "{line}");
        let known: BTreeSet<u32> = dbg.breakpoints.iter().map(|addr| *addr as u32).collect();
        assert_eq!(known, stub.breakpoints, "{line}");
        assert_eq!(known.len(), dbg.breakpoints.len());
    }
    for request in [
        Request::SetBreakpoint(0x8000100),
        Request::StepInstruction,
        Request::StepSource,
        Request::NextSource,
        Request::Snapshot,
        Request::ClearBreakpoint(0x8000100),
    ] {
        let (result, _) = drive(&mut dbg, &mut stub, |dbg| perform(dbg, &request));
        assert!(result.is_ok());
        let known: BTreeSet<u32> = dbg.breakpoints.iter().map(|addr| *addr as u32).collect();
        assert_eq!(known, stub.breakpoints);
    }
    assert_eq!(dbg.breakpoints, vec![0x8000104, 0x8000110]);
}
