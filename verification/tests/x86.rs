use std::collections::BTreeMap;

use gimli::write::{
    Address, AttributeValue, DwarfUnit, EndianVec, LineProgram, LineString, Sections,
};
use linux_debugger::dialogue::{
    Call, Errno, Input, Pause, Reply, SignalInfo, Talk, WaitState, WaitStatus,
};
use linux_debugger::elf_debug_info::ElfDebugInfo;
use linux_debugger::request::{perform, Answer, Request};
use linux_debugger::target::{snapshot, step_source, DebugTarget, NextStart, StepProgress};
use linux_debugger::x86_target::backtrace::MAX_BACKTRACE_FRAMES;
use linux_debugger::x86_target::breakpoint::{byte_of, replace_byte, Breakpoint};
use linux_debugger::x86_target::debugger::LinuxPtraceDebugger;
use linux_debugger::x86_target::plain::Debugger;
use linux_debugger::x86_target::registers::{
    get_reg_val_from_dwarf, get_register_from_name, get_register_name, get_register_value, reg_desc,
    register_from_dwarf, set_register_value, Register, UserRegs, NUMBER_OF_REGISTERS,
};
use linux_debugger::x86_target::turn::Pending;

const BIAS: u64 = 0x555555554000;

const MAPS: &str = "\
555555554000-555555555000 r--p 00000000 08:01 77 /home/me/prog
555555555000-555555556000 r-xp 00001000 08:01 77 /home/me/prog
7ffff7dcf000-7ffff7f24000 r-xp 00026000 08:01 123 /usr/lib/libc.so.6
7ffffffde000-7ffffffff000 rw-p 00000000 00:00 0 [stack]
";

/// A program with `main` at 0x1000..0x1040 (lines 3, 4, 5) and `tail` at 0x1040..0x1060 (line 9).
fn program() -> ElfDebugInfo {
    let encoding = gimli::Encoding {
        format: gimli::Format::Dwarf32,
        version: 4,
        address_size: 8,
    };
    let mut dwarf = DwarfUnit::new(encoding);
    let mut lines = LineProgram::new(
        encoding,
        gimli::LineEncoding::default(),
        LineString::String(b"/build".to_vec()),
        None,
        LineString::String(b"main.c".to_vec()),
        None,
    );
    let dir = lines.default_directory();
    let file = lines.add_file(LineString::String(b"main.c".to_vec()), dir, None);
    lines.begin_sequence(Some(Address::Constant(0x1000)));
    for (offset, line) in [(0x0, 3), (0x8, 4), (0x10, 5), (0x40, 9)] {
        lines.row().address_offset = offset;
        lines.row().file = file;
        lines.row().line = line;
        lines.generate_row();
    }
    lines.end_sequence(0x60);
    dwarf.unit.line_program = lines;
    let root = dwarf.unit.root();
    let cu = dwarf.unit.get_mut(root);
    cu.set(
        gimli::DW_AT_low_pc,
        AttributeValue::Address(Address::Constant(0x1000)),
    );
    cu.set(gimli::DW_AT_high_pc, AttributeValue::Udata(0x60));
    for (name, low, len) in [("main", 0x1000, 0x40), ("tail", 0x1040, 0x20)] {
        let id = dwarf.unit.add(root, gimli::DW_TAG_subprogram);
        let entry = dwarf.unit.get_mut(id);
        entry.set(
            gimli::DW_AT_name,
            AttributeValue::String(name.as_bytes().to_vec()),
        );
        entry.set(
            gimli::DW_AT_low_pc,
            AttributeValue::Address(Address::Constant(low)),
        );
        entry.set(gimli::DW_AT_high_pc, AttributeValue::Udata(len));
    }
    let mut sections = Sections::new(EndianVec::new(gimli::LittleEndian));
    dwarf.write(&mut sections).unwrap();
    let mut file = object::write::Object::new(
        object::BinaryFormat::Elf,
        object::Architecture::X86_64,
        object::Endianness::Little,
    );
    sections
        .for_each(|id, section| {
            let section_id = file.add_section(
                Vec::new(),
                id.name().as_bytes().to_vec(),
                object::SectionKind::Debug,
            );
            file.set_section_data(section_id, section.slice().to_vec(), 1);
            Ok::<(), gimli::write::Error>(())
        })
        .unwrap();
    ElfDebugInfo::new(&file.write().unwrap()).unwrap()
}

fn no_registers() -> UserRegs {
    UserRegs {
        rax: 0,
        rdx: 0,
        rcx: 0,
        rbx: 0,
        rsi: 0,
        rdi: 0,
        rbp: 0,
        rsp: 0,
        r8: 0,
        r9: 0,
        r10: 0,
        r11: 0,
        r12: 0,
        r13: 0,
        r14: 0,
        r15: 0,
        rip: 0,
        eflags: 0,
        cs: 0,
        orig_rax: 0,
        fs_base: 0,
        gs_base: 0,
        fs: 0,
        gs: 0,
        ss: 0,
        ds: 0,
        es: 0,
    }
}

fn failed(name: &str) -> Errno {
    Errno {
        name: name.to_string(),
        text: format!("{name} text"),
    }
}

/// A traced process whose instructions are one byte long: 0xcc traps, 0xc3 returns, 0xf4 exits
/// and everything else does nothing.
struct Process {
    regs: UserRegs,
    memory: BTreeMap<u64, u8>,
    status: Option<WaitState>,
    info: SignalInfo,
    output: Vec<Result<Vec<u8>, Errno>>,
}

impl Process {
    fn new() -> Process {
        let mut regs = no_registers();
        regs.rip = BIAS + 0x1000;
        regs.rbp = 0x7ffffffde100;
        regs.rsp = 0x7ffffffde0f0;
        let mut memory = BTreeMap::new();
        for addr in BIAS + 0x1000..BIAS + 0x2000 {
            memory.insert(addr, 0x90);
        }
        memory.insert(BIAS + 0x1070, 0xf4);
        for addr in 0x7ffffffde000..0x7ffffffde200 {
            memory.insert(addr, 0);
        }
        Process {
            regs,
            memory,
            status: Some(WaitState::Stopped("SIGTRAP".to_string())),
            info: SignalInfo {
                code: 0x80,
                address: 0,
            },
            output: Vec::new(),
        }
    }

    fn peek(&self, addr: u64) -> Result<i64, Errno> {
        let mut bytes = [0; 8];
        for (i, byte) in bytes.iter_mut().enumerate() {
            match self.memory.get(&addr.wrapping_add(i as u64)) {
                Some(found) => *byte = *found,
                None => return Err(failed("EIO")),
            }
        }
        Ok(i64::from_le_bytes(bytes))
    }

    fn poke(&mut self, addr: u64, word: i64) -> Result<(), Errno> {
        self.peek(addr)?;
        for (i, byte) in word.to_le_bytes().into_iter().enumerate() {
            self.memory.insert(addr + i as u64, byte);
        }
        Ok(())
    }

    /// Executes one instruction; whether the process can go on.
    fn step(&mut self) -> bool {
        match self.memory.get(&self.regs.rip) {
            Some(0xcc) => {
                self.regs.rip += 1;
                self.status = Some(WaitState::Stopped("SIGTRAP".to_string()));
                false
            }
            Some(0xc3) => {
                self.regs.rip = self.peek(self.regs.rsp).unwrap() as u64;
                self.regs.rsp += 8;
                self.regs.rbp += 0x10;
                self.status = Some(WaitState::Stopped("SIGTRAP".to_string()));
                true
            }
            Some(0xf4) => {
                self.status = Some(WaitState::Exited(3));
                false
            }
            Some(_) => {
                self.regs.rip += 1;
                self.status = Some(WaitState::Stopped("SIGTRAP".to_string()));
                true
            }
            None => {
                self.status = Some(WaitState::Stopped("SIGSEGV".to_string()));
                false
            }
        }
    }

    fn reply(&mut self, call: &Call) -> Reply {
        match call {
            Call::Registers => Reply::Registers(Ok(self.regs)),
            Call::SetRegisters(regs) => {
                self.regs = *regs;
                Reply::Done(Ok(()))
            }
            Call::Peek(addr) => Reply::Word(self.peek(*addr)),
            Call::Poke(addr, word) => Reply::Done(self.poke(*addr, *word)),
            Call::Step => {
                self.step();
                Reply::Done(Ok(()))
            }
            Call::Continue => {
                while self.step() {}
                Reply::Done(Ok(()))
            }
            Call::Wait => {
                let state = self.status.take().expect("nothing to wait for");
                let text = format!("{state:?}");
                Reply::Status(Ok(WaitStatus { state, text }))
            }
            Call::SignalInfo => Reply::Signal(Ok(self.info)),
            Call::Maps => Reply::File(Ok(MAPS.to_string())),
            Call::PathExists(_) => Reply::Exists(true),
            Call::CurrentDir => Reply::Dir(None),
            Call::ReadFile(_) => Reply::File(Ok("a\nb\nc\nd\ne\nf\ng\nh\ni\n".to_string())),
            Call::ReadOutput => Reply::Output(self.output.remove(0)),
            other => panic!("unexpected call {other:?}"),
        }
    }
}

fn debugger() -> LinuxPtraceDebugger {
    LinuxPtraceDebugger::new("./prog".to_string(), program())
}

/// Runs an operation to its end: its result and what it printed.
fn drive<T>(
    dbg: &mut LinuxPtraceDebugger,
    process: &mut Process,
    mut op: impl FnMut(&mut LinuxPtraceDebugger) -> Result<T, Pause>,
) -> (Result<T, String>, String) {
    let executing = dbg.is_executing;
    let crashed = dbg.has_crashed;
    let breakpoints = dbg.breakpoints.clone();
    let temps = dbg.temp_breakpoints.clone();
    let mut replies: Vec<Reply> = Vec::new();
    loop {
        dbg.is_executing = executing;
        dbg.has_crashed = crashed;
        dbg.breakpoints = breakpoints.clone();
        dbg.temp_breakpoints = temps.clone();
        dbg.talk = Talk::new(replies.clone());
        let result = match op(dbg) {
            Err(Pause::Ask(call)) => {
                replies.push(process.reply(&call));
                continue;
            }
            Err(Pause::Fail(fault)) => Err(fault.into_error().describe()),
            Ok(value) => Ok(value),
        };
        assert_eq!(dbg.talk.unused(), 0);
        return (result, dbg.talk.output().to_string());
    }
}

/// Carries out a command and, where it lets the process run, what comes before the next prompt.
fn command(dbg: &mut LinuxPtraceDebugger, process: &mut Process, line: &str) -> String {
    let (result, output) = drive(dbg, process, |dbg| {
        dbg.on_input(&Input::Line(line.to_string()))
    });
    assert_eq!(result, Ok(true));
    let (result, more) = drive(dbg, process, |dbg| dbg.before_prompt());
    assert!(result.is_ok());
    output + &more
}

fn started() -> (LinuxPtraceDebugger, Process) {
    let (mut dbg, mut process) = (debugger(), Process::new());
    let (result, output) = drive(&mut dbg, &mut process, |dbg| dbg.session_start());
    assert_eq!(result, Ok(true));
    assert_eq!(output, "SIGTRAP received, ./prog ready to be debugged!\n");
    (dbg, process)
}

#[test]
fn a_session_needs_a_stopped_process() {
    let (mut dbg, mut process) = (debugger(), Process::new());
    process.status = Some(WaitState::Exited(1));
    let (result, output) = drive(&mut dbg, &mut process, |dbg| dbg.session_start());
    assert_eq!(result, Ok(false));
    assert_eq!(output, "Unexpected status, returning.......\n");
}

#[test]
fn a_breakpoint_is_hit_passed_and_put_back() {
    let (mut dbg, mut process) = started();
    let output = command(&mut dbg, &mut process, "break main.c:4");
    assert_eq!(output, "Breakpoint set at main.c:4 (0x555555555008)\n");
    assert_eq!(process.memory[&(BIAS + 0x1008)], 0xcc);
    assert_eq!(dbg.breakpoints[0].saved_data, 0x90);

    let output = command(&mut dbg, &mut process, "continue");
    assert!(output.starts_with("Stopped by SIGTRAP\nPC = 0x555555555008\nAt main"));
    assert!(output.contains("main.c:4"));
    assert!(!dbg.is_executing);
    // The instruction under the breakpoint has been executed and the trap is back.
    assert_eq!(process.regs.rip, BIAS + 0x1009);
    assert_eq!(process.memory[&(BIAS + 0x1008)], 0xcc);

    let output = command(&mut dbg, &mut process, "c");
    assert_eq!(output, "Exited with 3\n");
}

#[test]
fn an_address_breakpoint_may_be_of_the_file_or_of_the_process() {
    let (mut dbg, mut process) = started();
    let output = command(&mut dbg, &mut process, "break 0x1010");
    assert_eq!(output, "Breakpoint set at 0x555555555010\n");
    let output = command(&mut dbg, &mut process, "break 0x555555555020");
    assert_eq!(output, "Breakpoint set at 0x555555555020\n");
    assert_eq!(dbg.breakpoints.len(), 2);
}

#[test]
fn bad_breakpoints_are_reported() {
    let (mut dbg, mut process) = started();
    let usage = "Usage: break 0x<addr>  OR  break <filename>:<line>\n";
    assert_eq!(command(&mut dbg, &mut process, "break"), usage);
    assert_eq!(command(&mut dbg, &mut process, "break 12"), usage);
    assert_eq!(
        command(&mut dbg, &mut process, "break 0xzz"),
        "Invalid address: 0xzz\n"
    );
    assert_eq!(
        command(&mut dbg, &mut process, "break main.c:x"),
        "Invalid line number: x\n"
    );
    assert_eq!(
        command(&mut dbg, &mut process, "break main.c:99"),
        "No code found at main.c:99\n"
    );
    command(&mut dbg, &mut process, "break main.c:4");
    assert_eq!(
        command(&mut dbg, &mut process, "break main.c:4"),
        "Breakpoint already exists at main.c:4 (0x555555555008)\n"
    );
    assert_eq!(
        command(&mut dbg, &mut process, "break 0x600000000000"),
        "Failed to set breakpoint: EIO\n"
    );
}

#[test]
fn a_step_goes_to_another_line() {
    let (mut dbg, mut process) = started();
    let output = command(&mut dbg, &mut process, "step");
    assert_eq!(process.regs.rip, BIAS + 0x1008);
    assert!(output.contains("main.c:4"));
    command(&mut dbg, &mut process, "stepi");
    process.status = None;
    assert_eq!(process.regs.rip, BIAS + 0x1009);
}

#[test]
fn a_step_over_runs_to_a_later_line() {
    let (mut dbg, mut process) = started();
    let output = command(&mut dbg, &mut process, "next");
    assert!(output.contains("PC = 0x555555555008"));
    assert!(dbg.temp_breakpoints.iter().all(|addr| *addr > BIAS + 0x1008));
    // The breakpoint for one time that was hit is gone.
    assert_eq!(process.memory[&(BIAS + 0x1008)], 0x90);
    assert!(dbg.breakpoints.iter().all(|bp| dbg.temp_breakpoints.contains(&bp.addr)));
    let (result, _) = drive(&mut dbg, &mut process, |dbg| dbg.session_end());
    assert!(result.is_ok());
    assert!(dbg.breakpoints.is_empty() && dbg.temp_breakpoints.is_empty());
    assert!(process.memory.values().all(|byte| *byte != 0xcc));
}

#[test]
fn a_plain_session_leaves_its_breakpoints() {
    let mut dbg = Debugger::new("./prog".to_string(), program());
    let mut process = Process::new();
    dbg.session.talk = Talk::new(vec![process.reply(&Call::Wait)]);
    assert!(matches!(dbg.session_start(), Ok(true)));
    assert_eq!(
        dbg.session.talk.output(),
        "SIGTRAP received, ./prog ready to be debugged!\n"
    );
    command(&mut dbg.session, &mut process, "next");
    let left = dbg.session.temp_breakpoints.clone();
    assert!(!left.is_empty());
    dbg.session.talk = Talk::new(Vec::new());
    assert!(matches!(dbg.before_prompt(), Ok(true)));
    assert!(matches!(dbg.on_input(&Input::Eof), Ok(false)));
    assert_eq!(dbg.session.talk.output(), "CTRL-D\n");
    assert!(matches!(dbg.session_end(), Ok(())));
    assert_eq!(dbg.session.temp_breakpoints, left);
}

#[test]
fn a_plain_session_names_no_mapped_object() {
    let mut plain = Debugger::new("./prog".to_string(), program());
    let (mut dbg, mut process) = (debugger(), Process::new());
    let pc = 0x7ffff7df7249;
    let (place, _) = drive(&mut dbg, &mut process, |dbg| dbg.format_location(pc));
    let named = "At 0x7ffff7df7249 (libc.so.6 + 0x4e249, no DWARF match)";
    assert_eq!(place, Ok(named.to_string()));
    let (place, _) = drive(&mut plain.session, &mut process, |dbg| dbg.format_location(pc));
    assert_eq!(place, Ok("At 0x7ffff7df7249 (no DWARF match)".to_string()));
}

#[test]
fn a_plain_session_looks_for_sources_beside_the_program() {
    let mut dbg = Debugger::new("/home/me/prog".to_string(), program());
    let mut process = Process::new();
    let mut replies = Vec::new();
    let mut looked: Vec<String> = Vec::new();
    loop {
        dbg.session.talk = Talk::new(replies.clone());
        match dbg.session.print_current_source() {
            Err(Pause::Ask(Call::PathExists(path))) => {
                replies.push(Reply::Exists(false));
                looked.push(path);
            }
            Err(Pause::Ask(Call::ReadFile(path))) => {
                replies.push(Reply::File(Err("gone".to_string())));
                looked.push(path);
            }
            Err(Pause::Ask(call)) => replies.push(process.reply(&call)),
            other => {
                assert!(other.is_ok());
                break;
            }
        }
    }
    assert_eq!(looked, vec!["main.c", "/home/me/main.c", "main.c"]);
    assert_eq!(
        dbg.session.talk.output(),
        "Unable to read source file: main.c\n"
    );
}

#[test]
fn finish_runs_to_the_return_address() {
    let (mut dbg, mut process) = started();
    process.regs.rip = BIAS + 0x1050;
    // Return into main, by the frame pointer.
    process
        .poke(process.regs.rbp + 8, (BIAS + 0x1012) as i64)
        .unwrap();
    process.poke(process.regs.rsp, (BIAS + 0x1012) as i64).unwrap();
    process.memory.insert(BIAS + 0x1054, 0xc3);
    let output = command(&mut dbg, &mut process, "finish");
    assert!(output.contains("PC = 0x555555555012"));
    assert!(output.contains("main.c:5"));
    assert!(dbg.breakpoints.is_empty() && dbg.temp_breakpoints.is_empty());
}

#[test]
fn finish_without_a_return_address_steps() {
    let (mut dbg, mut process) = started();
    process.regs.rip = BIAS + 0x1038;
    let output = command(&mut dbg, &mut process, "finish");
    assert!(output.starts_with(
        "Cannot determine valid return address.\n\
         Falling back to single-stepping until function returns.\n"
    ));
    assert_eq!(process.regs.rip, BIAS + 0x1040);
    assert!(output.contains("At tail"));
}

#[test]
fn registers_and_memory_are_read_and_written() {
    let (mut dbg, mut process) = started();
    assert_eq!(command(&mut dbg, &mut process, "register write rax 0x2a"), "");
    assert_eq!(process.regs.rax, 42);
    assert_eq!(command(&mut dbg, &mut process, "register read rax"), "42\n");
    let dump = command(&mut dbg, &mut process, "register dump");
    assert_eq!(dump.lines().count(), NUMBER_OF_REGISTERS);
    assert!(dump.contains("rax         000000000000002a\n"));
    assert_eq!(
        command(&mut dbg, &mut process, "register read nope"),
        "Invalid register_name....\n"
    );
    assert_eq!(
        command(&mut dbg, &mut process, "register write rax zz"),
        "Invalid hex value: zz\n"
    );
    assert_eq!(
        command(&mut dbg, &mut process, "memory write 0x7ffffffde000 0xff"),
        "Data 255 was written to address 140737488216064\n"
    );
    assert_eq!(command(&mut dbg, &mut process, "memory read 0x7ffffffde000"), "255\n");
    assert_eq!(
        command(&mut dbg, &mut process, "memory read 12"),
        "Address must be in hex format: 0x<addr>\n"
    );
    assert_eq!(
        command(&mut dbg, &mut process, "memory frob 0x7ffffffde000"),
        "Invalid memory command\n"
    );
    let (result, _) = drive(&mut dbg, &mut process, |dbg| {
        dbg.on_input(&Input::Line("memory read 0x0".to_string()))
    });
    assert_eq!(result, Err("EIO: EIO text".to_string()));
}

#[test]
fn a_segfault_crashes_the_program() {
    let (mut dbg, mut process) = started();
    process.regs.rip = 0x10;
    process.info = SignalInfo {
        code: 1,
        address: 0x10,
    };
    let output = command(&mut dbg, &mut process, "continue");
    assert!(output.contains("Segfault! Reason Code: 1, Address 0x10\n"));
    assert!(dbg.has_crashed);
    let refusal = "Cannot step: program has crashed. Use 'continue' to terminate or restart the debugger.\n";
    assert_eq!(command(&mut dbg, &mut process, "stepi"), refusal);
    assert_eq!(command(&mut dbg, &mut process, "step"), refusal);
    assert_eq!(command(&mut dbg, &mut process, "next"), refusal);
    assert!(command(&mut dbg, &mut process, "finish").starts_with("Cannot finish"));
    let (result, _) = drive(&mut dbg, &mut process, |dbg| dbg.continue_exec());
    assert_eq!(
        result.err(),
        Some("program has crashed; continuing will terminate it".to_string())
    );
}

#[test]
fn other_input_ends_the_session() {
    let (mut dbg, mut process) = started();
    assert_eq!(command(&mut dbg, &mut process, "frob"), "Invalid command\n");
    assert_eq!(command(&mut dbg, &mut process, "  "), "");
    for (input, text) in [
        (Input::Interrupted, "CTRL-C\n"),
        (Input::Eof, "CTRL-D\n"),
        (Input::Error("Io".to_string()), "Error: Io\n"),
    ] {
        let (more, output) = drive(&mut dbg, &mut process, |dbg| dbg.on_input(&input));
        assert_eq!((more, output.as_str()), (Ok(false), text));
    }
}

#[test]
fn a_backtrace_follows_the_frame_pointers() {
    let (mut dbg, mut process) = started();
    let rbp = process.regs.rbp;
    process.poke(rbp, (rbp + 0x20) as i64).unwrap();
    process.poke(rbp + 8, (BIAS + 0x1042) as i64).unwrap();
    let (frames, _) = drive(&mut dbg, &mut process, |dbg| dbg.backtrace());
    let frames = frames.unwrap();
    assert_eq!(frames.len(), 2);
    assert_eq!(frames[0].pc, BIAS + 0x1000);
    assert_eq!(frames[1].pc, BIAS + 0x1041);
    assert!(frames[1].location.contains("tail"));
    let output = command(&mut dbg, &mut process, "bt");
    assert!(output.starts_with("Backtrace:\n"));
    assert_eq!(output.lines().count(), 3);
}

#[test]
fn frontends_set_and_clear_breakpoints() {
    let (mut dbg, mut process) = started();
    drive(&mut dbg, &mut process, |dbg| dbg.set_breakpoint(0x1010)).0.unwrap();
    drive(&mut dbg, &mut process, |dbg| dbg.set_breakpoint(0x1010)).0.unwrap();
    let shown = dbg.breakpoints();
    assert_eq!(shown.len(), 1);
    assert_eq!((shown[0].addr, shown[0].enabled, shown[0].temporary), (BIAS + 0x1010, true, false));
    let (reason, _) = drive(&mut dbg, &mut process, |dbg| dbg.continue_exec());
    assert_eq!(reason.unwrap().message(), "Stopped by SIGTRAP");
    assert_eq!(process.regs.rip, BIAS + 0x1011);
    drive(&mut dbg, &mut process, |dbg| dbg.clear_breakpoint(0x1010)).0.unwrap();
    assert!(dbg.breakpoints.is_empty());
    assert_eq!(process.memory[&(BIAS + 0x1010)], 0x90);
    let (reason, _) = drive(&mut dbg, &mut process, |dbg| dbg.continue_exec());
    assert_eq!(reason.unwrap().message(), "Exited with 3");
}

#[test]
fn frontends_read_and_write_memory_by_bytes() {
    let (mut dbg, mut process) = started();
    let addr = 0x7ffffffde010;
    process.poke(addr, 0x1122334455667788).unwrap();
    drive(&mut dbg, &mut process, |dbg| dbg.write_memory(addr + 1, &[0xaa, 0xbb]))
        .0
        .unwrap();
    let (bytes, _) = drive(&mut dbg, &mut process, |dbg| dbg.read_memory(addr, 10));
    assert_eq!(
        bytes.unwrap(),
        vec![0x88, 0xaa, 0xbb, 0x55, 0x44, 0x33, 0x22, 0x11, 0, 0]
    );
    let data: Vec<u8> = (1..12).collect();
    drive(&mut dbg, &mut process, |dbg| dbg.write_memory(addr, &data)).0.unwrap();
    let (bytes, _) = drive(&mut dbg, &mut process, |dbg| dbg.read_memory(addr, 11));
    assert_eq!(bytes.unwrap(), data);
}

#[test]
fn frontends_step_and_take_snapshots() {
    let (mut dbg, mut process) = started();
    let (reason, _) = drive(&mut dbg, &mut process, step_source);
    assert!(reason.is_ok());
    assert_eq!(process.regs.rip, BIAS + 0x1008);
    let (result, _) = drive(&mut dbg, &mut process, snapshot);
    let shot = result.unwrap();
    assert_eq!(shot.name, "./prog");
    assert_eq!(shot.architecture, "x86-64-linux-ptrace");
    assert_eq!(shot.pc, Some(BIAS + 0x1008));
    assert_eq!(shot.source.current_line, Some(4));
    assert_eq!(shot.registers.len(), NUMBER_OF_REGISTERS);
    let (reason, _) = drive(&mut dbg, &mut process, |dbg| dbg.halt());
    assert_eq!(
        reason.unwrap().message(),
        "halt is not implemented for the local ptrace backend"
    );
    let (reason, _) = drive(&mut dbg, &mut process, |dbg| dbg.reset_halt());
    assert_eq!(reason.err(), Some("reset is not supported by this target".to_string()));
    let (result, _) = drive(&mut dbg, &mut process, |dbg| dbg.write_register_by_name("rbx", 7));
    assert!(result.is_ok());
    assert_eq!(process.regs.rbx, 7);
}

#[test]
fn captured_output_is_drained() {
    let mut dbg = LinuxPtraceDebugger::new_with_output_fd("./prog".to_string(), program(), true);
    let mut process = Process::new();
    process.output = vec![Ok(vec![1, 2]), Ok(vec![3]), Err(failed("EAGAIN"))];
    let (bytes, _) = drive(&mut dbg, &mut process, |dbg| dbg.drain_output());
    assert_eq!(bytes, Ok(vec![1, 2, 3]));
    process.output = vec![Ok(vec![4]), Err(failed("EIO"))];
    let (bytes, _) = drive(&mut dbg, &mut process, |dbg| dbg.drain_output());
    assert_eq!(bytes, Ok(vec![4]));
    process.output = vec![Ok(vec![])];
    let (bytes, _) = drive(&mut dbg, &mut process, |dbg| dbg.drain_output());
    assert_eq!(bytes, Ok(vec![]));
    process.output = vec![Ok(vec![4]), Err(failed("EBADF"))];
    let (bytes, _) = drive(&mut dbg, &mut process, |dbg| dbg.drain_output());
    assert_eq!(bytes, Err("EBADF text".to_string()));
    let (bytes, _) = drive(&mut debugger(), &mut process, |dbg| dbg.drain_output());
    assert_eq!(bytes, Ok(vec![]));
}

#[test]
fn requests_are_performed_on_a_process() {
    let (mut dbg, mut process) = started();
    let (answer, _) = drive(&mut dbg, &mut process, |dbg| {
        perform(dbg, &Request::SourceAddress("main.c".to_string(), 9))
    });
    match answer {
        Ok(Answer::Address(Ok(Some(addr)))) => assert_eq!(addr, BIAS + 0x1040),
        other => panic!("{other:?}"),
    }
    let (answer, _) = drive(&mut dbg, &mut process, |dbg| perform(dbg, &Request::Reset));
    assert!(matches!(answer, Ok(Answer::Stop(Err(_)))));
}

#[test]
fn a_breakpoint_restores_the_word_it_replaced() {
    let mut bp = Breakpoint::new(0x1000);
    let mut talk = Talk::new(vec![
        Reply::Word(Ok(0x1122334455667788)),
        Reply::Done(Ok(())),
        Reply::Word(Ok(replace_byte(0x1122334455667788, 0xcc))),
    ]);
    bp.enable(&mut talk).unwrap();
    assert!(bp.enabled_status);
    assert_eq!(bp.saved_data, 0x88);
    match bp.disable(&mut talk) {
        Err(Pause::Ask(Call::Poke(addr, word))) => {
            assert_eq!((addr, word), (0x1000, 0x1122334455667788))
        }
        other => panic!("{other:?}"),
    }
    assert_eq!(byte_of(-1), 0xff);
    assert_eq!(replace_byte(-1, 0), -256);
}

#[test]
fn registers_have_names_and_numbers() {
    assert_eq!(get_register_name(Register::Rip), "rip");
    assert_eq!(get_register_from_name("rip"), Some(Register::Rip));
    assert_eq!(get_register_from_name("RIP"), Some(Register::Rip));
    assert_eq!(get_register_from_name("xmm0"), None);
    assert_eq!(register_from_dwarf(7), Some(Register::Rsp));
    assert_eq!(register_from_dwarf(999), None);
    for i in 0..NUMBER_OF_REGISTERS {
        let desc = reg_desc(i);
        assert_eq!(get_register_from_name(desc.name), Some(desc.reg));
        let upper = desc.name.to_ascii_uppercase();
        assert_eq!(get_register_from_name(&upper), Some(desc.reg));
        assert_eq!(get_register_name(desc.reg), desc.name);
        if let Some(number) = desc.dwarf {
            assert_eq!(register_from_dwarf(number), Some(desc.reg));
        }
    }
}

#[test]
fn registers_are_asked_for_and_written_whole() {
    let mut regs = no_registers();
    regs.rdi = 5;
    let mut talk = Talk::new(vec![Reply::Registers(Ok(regs))]);
    assert!(matches!(get_register_value(&mut talk, Register::Rdi), Ok(5)));
    let mut talk = Talk::new(vec![Reply::Registers(Ok(regs))]);
    assert!(matches!(get_reg_val_from_dwarf(&mut talk, 5), Ok(Some(5))));
    let mut talk = Talk::new(vec![Reply::Registers(Ok(regs))]);
    match set_register_value(&mut talk, Register::Rsi, 9) {
        Err(Pause::Ask(Call::SetRegisters(sent))) => {
            assert_eq!(sent.get(Register::Rsi), 9);
            assert_eq!(sent.get(Register::Rdi), 5);
        }
        other => panic!("{other:?}"),
    }
    let mut talk = Talk::new(vec![Reply::Registers(Err(failed("ESRCH")))]);
    match get_register_value(&mut talk, Register::Rax) {
        Err(Pause::Fail(fault)) => {
            assert_eq!(fault.symbol(), "ESRCH");
            assert_eq!(fault.into_error().message(), "ESRCH: ESRCH text");
        }
        other => panic!("{other:?}"),
    }
}

/// Carries out a command in parts; what it printed.
fn in_parts(dbg: &mut LinuxPtraceDebugger, process: &mut Process, line: &str) -> String {
    let (result, mut output) = drive(dbg, process, |dbg| dbg.begin_command(line));
    let mut pending = result.unwrap();
    while !matches!(pending, Pending::Nothing) {
        let (result, more) = drive(dbg, process, |dbg| dbg.turn(pending.clone()));
        pending = result.unwrap();
        output += &more;
    }
    let (result, more) = drive(dbg, process, |dbg| dbg.before_prompt());
    assert!(result.is_ok());
    output + &more
}

#[test]
fn a_command_in_parts_does_what_the_whole_one_does() {
    for (line, rip) in [
        ("step", BIAS + 0x1000),
        ("next", BIAS + 0x1000),
        ("finish", BIAS + 0x1038),
        ("stepi", BIAS + 0x1000),
        ("break 0x1008", BIAS + 0x1000),
        ("", BIAS + 0x1000),
    ] {
        let (mut whole, mut process) = started();
        let (mut parts, mut other) = started();
        process.regs.rip = rip;
        other.regs.rip = rip;
        let output = command(&mut whole, &mut process, line);
        assert_eq!(in_parts(&mut parts, &mut other, line), output);
        assert_eq!(other.regs.rip, process.regs.rip);
        assert_eq!(other.memory, process.memory);
        assert_eq!(parts.breakpoints, whole.breakpoints);
        assert_eq!(parts.temp_breakpoints, whole.temp_breakpoints);
        assert_eq!(parts.is_executing, whole.is_executing);
    }
}

#[test]
fn a_long_step_is_taken_one_instruction_at_a_time() {
    let (mut dbg, mut process) = started();
    let (result, _) = drive(&mut dbg, &mut process, |dbg| dbg.begin_command("step"));
    let pending = result.unwrap();
    assert!(matches!(pending, Pending::Line(3, _)));
    let before = process.regs.rip;
    let (result, _) = drive(&mut dbg, &mut process, |dbg| dbg.turn(pending.clone()));
    assert!(matches!(result.unwrap(), Pending::Line(3, _)));
    assert_eq!(process.regs.rip, before + 1);
}

#[test]
fn a_step_over_starts_by_running_or_stepping() {
    let (mut dbg, mut process) = started();
    let (result, _) = drive(&mut dbg, &mut process, |dbg| dbg.next_begin());
    let (mut whole, mut other) = started();
    let (reason, _) = drive(&mut whole, &mut other, |dbg| dbg.next_source());
    let message = match result.unwrap() {
        NextStart::Over(reason) => reason.message(),
        NextStart::Step(mut step) => loop {
            let (result, _) = drive(&mut dbg, &mut process, |dbg| dbg.step_round(step.clone()));
            match result.unwrap() {
                StepProgress::Stopped(reason) => break reason.message(),
                StepProgress::Again(next) => step = next,
            }
        },
    };
    assert_eq!(message, reason.unwrap().message());
    assert_eq!(process.regs.rip, other.regs.rip);
    assert_eq!(process.memory, other.memory);
}

#[test]
fn requests_keep_the_tables_in_order() {
    let (mut dbg, mut process) = started();
    for request in [
        Request::SetBreakpoint(0x1008),
        Request::SetBreakpoint(BIAS + 0x1008),
        Request::SetBreakpoint(0x1010),
        Request::Continue,
        Request::StepInstruction,
        Request::NextSource,
        Request::StepSource,
        Request::ReadMemory(BIAS + 0x1000, 3),
        Request::WriteMemory(0x7ffffffde000, vec![1, 2, 3]),
        Request::Registers,
        Request::Snapshot,
        Request::DrainOutput,
        Request::ClearBreakpoint(0x1010),
    ] {
        let (result, _) = drive(&mut dbg, &mut process, |dbg| perform(dbg, &request));
        assert!(result.is_ok());
        let mut addrs: Vec<u64> = dbg.breakpoints.iter().map(|bp| bp.addr).collect();
        addrs.sort();
        addrs.dedup();
        assert_eq!(addrs.len(), dbg.breakpoints.len());
    }
    assert_eq!(dbg.breakpoints.len(), 1);
    assert_eq!(dbg.breakpoints[0].addr, BIAS + 0x1008);
    assert_eq!(process.memory[&(BIAS + 0x1008)], 0xcc);
    assert_eq!(process.memory[&(BIAS + 0x1010)], 0x90);
}

#[test]
fn a_backtrace_has_a_limit() {
    let (mut dbg, mut process) = started();
    // A chain of frames that never ends by itself.
    let mut frame = process.regs.rbp - 0x100;
    process.regs.rbp = frame;
    while frame + 16 < 0x7ffffffde1f0 {
        process.poke(frame, (frame + 8) as i64).unwrap();
        process.poke(frame + 8, (BIAS + 0x1012) as i64).unwrap();
        frame += 8;
    }
    let (frames, _) = drive(&mut dbg, &mut process, |dbg| dbg.backtrace());
    let frames = frames.unwrap();
    assert!(!frames.is_empty() && frames.len() <= MAX_BACKTRACE_FRAMES);
    assert_eq!(frames[0].pc, BIAS + 0x1000);
    for (i, frame) in frames.iter().enumerate() {
        assert_eq!((frame.index, frame.approximate), (i, false));
    }
}

#[test]
fn a_step_over_stops_at_every_other_line() {
    let (mut dbg, mut process) = started();
    process.regs.rip = BIAS + 0x1008;
    // The breakpoint at the next line is the user's.
    command(&mut dbg, &mut process, "break 0x1010");
    let (result, _) = drive(&mut dbg, &mut process, |dbg| dbg.step_over());
    assert!(result.is_ok() && dbg.is_executing);
    // The line before and the one behind, but not the current one.
    let mut addrs: Vec<u64> = dbg.breakpoints.iter().map(|bp| bp.addr).collect();
    addrs.sort();
    assert_eq!(addrs, vec![BIAS + 0x1000, BIAS + 0x1010]);
    assert_eq!(dbg.temp_breakpoints, vec![BIAS + 0x1000]);
}

#[test]
fn a_step_over_follows_a_loop() {
    let (mut dbg, mut process) = started();
    process.regs.rip = BIAS + 0x1008;
    // The code of the second line goes back to the first one.
    process.memory.insert(BIAS + 0x100a, 0xc3);
    process.poke(process.regs.rsp, (BIAS + 0x1000) as i64).unwrap();
    let output = command(&mut dbg, &mut process, "next");
    assert!(output.contains("PC = 0x555555555000"));
    assert!(output.contains("main.c:3"));
}
