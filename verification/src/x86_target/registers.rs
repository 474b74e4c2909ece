//! The registers of an x86-64 process.
use vstd::prelude::*;

use crate::dialogue::{ran, Call, CallShape, Flow, Pause, Talk, TalkShape};
use crate::text::same;
use crate::words::upper_of;

verus! {

/// A register.
#[derive(Clone, Copy, Debug, PartialEq, Eq, Structural)]
pub enum Register {
    Rax,
    Rdx,
    Rcx,
    Rbx,
    Rsi,
    Rdi,
    Rbp,
    Rsp,
    R8,
    R9,
    R10,
    R11,
    R12,
    R13,
    R14,
    R15,
    Rip,
    RFlags,
    Es,
    Cs,
    Ss,
    Ds,
    Fs,
    Gs,
    FsBase,
    GsBase,
    OrigRax,
}

/// How many registers there are.
pub const NUMBER_OF_REGISTERS: usize = 27;

/// A register, its number in DWARF where it has one, and its name.
#[derive(Clone, Copy, Debug)]
pub struct RegDesc {
    pub reg: Register,
    pub dwarf: Option<u16>,
    pub name: &'static str,
}

/// The registers of a traced process.
#[derive(Clone, Copy, Debug, PartialEq, Eq, Structural)]
pub struct UserRegs {
    pub rax: u64,
    pub rdx: u64,
    pub rcx: u64,
    pub rbx: u64,
    pub rsi: u64,
    pub rdi: u64,
    pub rbp: u64,
    pub rsp: u64,
    pub r8: u64,
    pub r9: u64,
    pub r10: u64,
    pub r11: u64,
    pub r12: u64,
    pub r13: u64,
    pub r14: u64,
    pub r15: u64,
    pub rip: u64,
    pub eflags: u64,
    pub es: u64,
    pub cs: u64,
    pub ss: u64,
    pub ds: u64,
    pub fs: u64,
    pub gs: u64,
    pub fs_base: u64,
    pub gs_base: u64,
    pub orig_rax: u64,
}

impl DeepView for UserRegs {
    type V = UserRegs;

    open spec fn deep_view(&self) -> UserRegs {
        *self
    }
}

// ---------------------------------------------------------------------------
// Values

impl UserRegs {
    /// The value of a register.
    pub open spec fn value_of(self, r: Register) -> u64 {
        match r {
            Register::Rax => self.rax,
            Register::Rdx => self.rdx,
            Register::Rcx => self.rcx,
            Register::Rbx => self.rbx,
            Register::Rsi => self.rsi,
            Register::Rdi => self.rdi,
            Register::Rbp => self.rbp,
            Register::Rsp => self.rsp,
            Register::R8 => self.r8,
            Register::R9 => self.r9,
            Register::R10 => self.r10,
            Register::R11 => self.r11,
            Register::R12 => self.r12,
            Register::R13 => self.r13,
            Register::R14 => self.r14,
            Register::R15 => self.r15,
            Register::Rip => self.rip,
            Register::RFlags => self.eflags,
            Register::Es => self.es,
            Register::Cs => self.cs,
            Register::Ss => self.ss,
            Register::Ds => self.ds,
            Register::Fs => self.fs,
            Register::Gs => self.gs,
            Register::FsBase => self.fs_base,
            Register::GsBase => self.gs_base,
            Register::OrigRax => self.orig_rax,
        }
    }

    /// The registers with another value of one of them.
    pub open spec fn with(self, r: Register, value: u64) -> UserRegs {
        match r {
            Register::Rax => UserRegs { rax: value, ..self },
            Register::Rdx => UserRegs { rdx: value, ..self },
            Register::Rcx => UserRegs { rcx: value, ..self },
            Register::Rbx => UserRegs { rbx: value, ..self },
            Register::Rsi => UserRegs { rsi: value, ..self },
            Register::Rdi => UserRegs { rdi: value, ..self },
            Register::Rbp => UserRegs { rbp: value, ..self },
            Register::Rsp => UserRegs { rsp: value, ..self },
            Register::R8 => UserRegs { r8: value, ..self },
            Register::R9 => UserRegs { r9: value, ..self },
            Register::R10 => UserRegs { r10: value, ..self },
            Register::R11 => UserRegs { r11: value, ..self },
            Register::R12 => UserRegs { r12: value, ..self },
            Register::R13 => UserRegs { r13: value, ..self },
            Register::R14 => UserRegs { r14: value, ..self },
            Register::R15 => UserRegs { r15: value, ..self },
            Register::Rip => UserRegs { rip: value, ..self },
            Register::RFlags => UserRegs { eflags: value, ..self },
            Register::Es => UserRegs { es: value, ..self },
            Register::Cs => UserRegs { cs: value, ..self },
            Register::Ss => UserRegs { ss: value, ..self },
            Register::Ds => UserRegs { ds: value, ..self },
            Register::Fs => UserRegs { fs: value, ..self },
            Register::Gs => UserRegs { gs: value, ..self },
            Register::FsBase => UserRegs { fs_base: value, ..self },
            Register::GsBase => UserRegs { gs_base: value, ..self },
            Register::OrigRax => UserRegs { orig_rax: value, ..self },
        }
    }

    /// The value of a register.
    pub fn get(&self, r: Register) -> (v: u64)
        ensures
            v == self.value_of(r),
    {
        match r {
            Register::Rax => self.rax,
            Register::Rdx => self.rdx,
            Register::Rcx => self.rcx,
            Register::Rbx => self.rbx,
            Register::Rsi => self.rsi,
            Register::Rdi => self.rdi,
            Register::Rbp => self.rbp,
            Register::Rsp => self.rsp,
            Register::R8 => self.r8,
            Register::R9 => self.r9,
            Register::R10 => self.r10,
            Register::R11 => self.r11,
            Register::R12 => self.r12,
            Register::R13 => self.r13,
            Register::R14 => self.r14,
            Register::R15 => self.r15,
            Register::Rip => self.rip,
            Register::RFlags => self.eflags,
            Register::Es => self.es,
            Register::Cs => self.cs,
            Register::Ss => self.ss,
            Register::Ds => self.ds,
            Register::Fs => self.fs,
            Register::Gs => self.gs,
            Register::FsBase => self.fs_base,
            Register::GsBase => self.gs_base,
            Register::OrigRax => self.orig_rax,
        }
    }

    /// The registers with another value of one of them.
    pub fn put(&self, r: Register, value: u64) -> (v: UserRegs)
        ensures
            v == self.with(r, value),
    {
        let mut regs = *self;
        match r {
            Register::Rax => {
                regs.rax = value;
            },
            Register::Rdx => {
                regs.rdx = value;
            },
            Register::Rcx => {
                regs.rcx = value;
            },
            Register::Rbx => {
                regs.rbx = value;
            },
            Register::Rsi => {
                regs.rsi = value;
            },
            Register::Rdi => {
                regs.rdi = value;
            },
            Register::Rbp => {
                regs.rbp = value;
            },
            Register::Rsp => {
                regs.rsp = value;
            },
            Register::R8 => {
                regs.r8 = value;
            },
            Register::R9 => {
                regs.r9 = value;
            },
            Register::R10 => {
                regs.r10 = value;
            },
            Register::R11 => {
                regs.r11 = value;
            },
            Register::R12 => {
                regs.r12 = value;
            },
            Register::R13 => {
                regs.r13 = value;
            },
            Register::R14 => {
                regs.r14 = value;
            },
            Register::R15 => {
                regs.r15 = value;
            },
            Register::Rip => {
                regs.rip = value;
            },
            Register::RFlags => {
                regs.eflags = value;
            },
            Register::Es => {
                regs.es = value;
            },
            Register::Cs => {
                regs.cs = value;
            },
            Register::Ss => {
                regs.ss = value;
            },
            Register::Ds => {
                regs.ds = value;
            },
            Register::Fs => {
                regs.fs = value;
            },
            Register::Gs => {
                regs.gs = value;
            },
            Register::FsBase => {
                regs.fs_base = value;
            },
            Register::GsBase => {
                regs.gs_base = value;
            },
            Register::OrigRax => {
                regs.orig_rax = value;
            },
        }
        regs
    }
}

/// A register that was written has its new value, and the others have their old ones.
pub proof fn lemma_with(regs: UserRegs, r: Register, value: u64, other: Register)
    ensures
        regs.with(r, value).value_of(r) == value,
        other != r ==> regs.with(r, value).value_of(other) == regs.value_of(other),
        regs.with(r, regs.value_of(r)) == regs,
{
}

// ---------------------------------------------------------------------------
// Names and numbers

/// The name of a register.
pub open spec fn register_name(r: Register) -> Seq<char> {
    match r {
        Register::Rax => "rax"@,
        Register::Rdx => "rdx"@,
        Register::Rcx => "rcx"@,
        Register::Rbx => "rbx"@,
        Register::Rsi => "rsi"@,
        Register::Rdi => "rdi"@,
        Register::Rbp => "rbp"@,
        Register::Rsp => "rsp"@,
        Register::R8 => "r8"@,
        Register::R9 => "r9"@,
        Register::R10 => "r10"@,
        Register::R11 => "r11"@,
        Register::R12 => "r12"@,
        Register::R13 => "r13"@,
        Register::R14 => "r14"@,
        Register::R15 => "r15"@,
        Register::Rip => "rip"@,
        Register::RFlags => "eflags"@,
        Register::Es => "es"@,
        Register::Cs => "cs"@,
        Register::Ss => "ss"@,
        Register::Ds => "ds"@,
        Register::Fs => "fs"@,
        Register::Gs => "gs"@,
        Register::FsBase => "fs_base"@,
        Register::GsBase => "gs_base"@,
        Register::OrigRax => "orig_rax"@,
    }
}

/// The number of a register in DWARF.
pub open spec fn register_dwarf(r: Register) -> Option<u16> {
    match r {
        Register::Rax => Some(0),
        Register::Rdx => Some(1),
        Register::Rcx => Some(2),
        Register::Rbx => Some(3),
        Register::Rsi => Some(4),
        Register::Rdi => Some(5),
        Register::Rbp => Some(6),
        Register::Rsp => Some(7),
        Register::R8 => Some(8),
        Register::R9 => Some(9),
        Register::R10 => Some(10),
        Register::R11 => Some(11),
        Register::R12 => Some(12),
        Register::R13 => Some(13),
        Register::R14 => Some(14),
        Register::R15 => Some(15),
        Register::Rip => None,
        Register::RFlags => Some(49),
        Register::Es => Some(50),
        Register::Cs => Some(51),
        Register::Ss => Some(52),
        Register::Ds => Some(53),
        Register::Fs => Some(54),
        Register::Gs => Some(55),
        Register::FsBase => Some(58),
        Register::GsBase => Some(59),
        Register::OrigRax => None,
    }
}

/// The place of a register in the list of all.
pub open spec fn register_place(r: Register) -> int {
    match r {
        Register::Rax => 0,
        Register::Rdx => 1,
        Register::Rcx => 2,
        Register::Rbx => 3,
        Register::Rsi => 4,
        Register::Rdi => 5,
        Register::Rbp => 6,
        Register::Rsp => 7,
        Register::R8 => 8,
        Register::R9 => 9,
        Register::R10 => 10,
        Register::R11 => 11,
        Register::R12 => 12,
        Register::R13 => 13,
        Register::R14 => 14,
        Register::R15 => 15,
        Register::Rip => 16,
        Register::RFlags => 17,
        Register::Es => 18,
        Register::Cs => 19,
        Register::Ss => 20,
        Register::Ds => 21,
        Register::Fs => 22,
        Register::Gs => 23,
        Register::FsBase => 24,
        Register::GsBase => 25,
        Register::OrigRax => 26,
    }
}

/// The register at a place in the list of all.
pub open spec fn register_at(index: int) -> Register {
    if index == 0 {
        Register::Rax
    } else if index == 1 {
        Register::Rdx
    } else if index == 2 {
        Register::Rcx
    } else if index == 3 {
        Register::Rbx
    } else if index == 4 {
        Register::Rsi
    } else if index == 5 {
        Register::Rdi
    } else if index == 6 {
        Register::Rbp
    } else if index == 7 {
        Register::Rsp
    } else if index == 8 {
        Register::R8
    } else if index == 9 {
        Register::R9
    } else if index == 10 {
        Register::R10
    } else if index == 11 {
        Register::R11
    } else if index == 12 {
        Register::R12
    } else if index == 13 {
        Register::R13
    } else if index == 14 {
        Register::R14
    } else if index == 15 {
        Register::R15
    } else if index == 16 {
        Register::Rip
    } else if index == 17 {
        Register::RFlags
    } else if index == 18 {
        Register::Es
    } else if index == 19 {
        Register::Cs
    } else if index == 20 {
        Register::Ss
    } else if index == 21 {
        Register::Ds
    } else if index == 22 {
        Register::Fs
    } else if index == 23 {
        Register::Gs
    } else if index == 24 {
        Register::FsBase
    } else if index == 25 {
        Register::GsBase
    } else {
        Register::OrigRax
    }
}

/// The register that a user means by a name, all in lower or all in upper case.
pub open spec fn register_named(name: Seq<char>) -> Option<Register> {
    if name == "rax"@ || name == "RAX"@ {
        Some(Register::Rax)
    } else if name == "rdx"@ || name == "RDX"@ {
        Some(Register::Rdx)
    } else if name == "rcx"@ || name == "RCX"@ {
        Some(Register::Rcx)
    } else if name == "rbx"@ || name == "RBX"@ {
        Some(Register::Rbx)
    } else if name == "rsi"@ || name == "RSI"@ {
        Some(Register::Rsi)
    } else if name == "rdi"@ || name == "RDI"@ {
        Some(Register::Rdi)
    } else if name == "rbp"@ || name == "RBP"@ {
        Some(Register::Rbp)
    } else if name == "rsp"@ || name == "RSP"@ {
        Some(Register::Rsp)
    } else if name == "r8"@ || name == "R8"@ {
        Some(Register::R8)
    } else if name == "r9"@ || name == "R9"@ {
        Some(Register::R9)
    } else if name == "r10"@ || name == "R10"@ {
        Some(Register::R10)
    } else if name == "r11"@ || name == "R11"@ {
        Some(Register::R11)
    } else if name == "r12"@ || name == "R12"@ {
        Some(Register::R12)
    } else if name == "r13"@ || name == "R13"@ {
        Some(Register::R13)
    } else if name == "r14"@ || name == "R14"@ {
        Some(Register::R14)
    } else if name == "r15"@ || name == "R15"@ {
        Some(Register::R15)
    } else if name == "rip"@ || name == "RIP"@ {
        Some(Register::Rip)
    } else if name == "eflags"@ || name == "rflags"@ || name == "EFLAGS"@ || name == "RFLAGS"@ {
        Some(Register::RFlags)
    } else if name == "es"@ || name == "ES"@ {
        Some(Register::Es)
    } else if name == "cs"@ || name == "CS"@ {
        Some(Register::Cs)
    } else if name == "ss"@ || name == "SS"@ {
        Some(Register::Ss)
    } else if name == "ds"@ || name == "DS"@ {
        Some(Register::Ds)
    } else if name == "fs"@ || name == "FS"@ {
        Some(Register::Fs)
    } else if name == "gs"@ || name == "GS"@ {
        Some(Register::Gs)
    } else if name == "fs_base"@ || name == "FS_BASE"@ {
        Some(Register::FsBase)
    } else if name == "gs_base"@ || name == "GS_BASE"@ {
        Some(Register::GsBase)
    } else if name == "orig_rax"@ || name == "ORIG_RAX"@ {
        Some(Register::OrigRax)
    } else {
        None
    }
}

/// The register of a number in DWARF.
pub open spec fn register_of_dwarf(dwarf: u16) -> Option<Register> {
    if dwarf == 0 {
        Some(Register::Rax)
    } else if dwarf == 1 {
        Some(Register::Rdx)
    } else if dwarf == 2 {
        Some(Register::Rcx)
    } else if dwarf == 3 {
        Some(Register::Rbx)
    } else if dwarf == 4 {
        Some(Register::Rsi)
    } else if dwarf == 5 {
        Some(Register::Rdi)
    } else if dwarf == 6 {
        Some(Register::Rbp)
    } else if dwarf == 7 {
        Some(Register::Rsp)
    } else if dwarf == 8 {
        Some(Register::R8)
    } else if dwarf == 9 {
        Some(Register::R9)
    } else if dwarf == 10 {
        Some(Register::R10)
    } else if dwarf == 11 {
        Some(Register::R11)
    } else if dwarf == 12 {
        Some(Register::R12)
    } else if dwarf == 13 {
        Some(Register::R13)
    } else if dwarf == 14 {
        Some(Register::R14)
    } else if dwarf == 15 {
        Some(Register::R15)
    } else if dwarf == 49 {
        Some(Register::RFlags)
    } else if dwarf == 50 {
        Some(Register::Es)
    } else if dwarf == 51 {
        Some(Register::Cs)
    } else if dwarf == 52 {
        Some(Register::Ss)
    } else if dwarf == 53 {
        Some(Register::Ds)
    } else if dwarf == 54 {
        Some(Register::Fs)
    } else if dwarf == 55 {
        Some(Register::Gs)
    } else if dwarf == 58 {
        Some(Register::FsBase)
    } else if dwarf == 59 {
        Some(Register::GsBase)
    } else {
        None
    }
}

/// The name of a register.
pub fn get_register_name(r: Register) -> (name: &'static str)
    ensures
        name@ == register_name(r),
{
    match r {
        Register::Rax => "rax",
        Register::Rdx => "rdx",
        Register::Rcx => "rcx",
        Register::Rbx => "rbx",
        Register::Rsi => "rsi",
        Register::Rdi => "rdi",
        Register::Rbp => "rbp",
        Register::Rsp => "rsp",
        Register::R8 => "r8",
        Register::R9 => "r9",
        Register::R10 => "r10",
        Register::R11 => "r11",
        Register::R12 => "r12",
        Register::R13 => "r13",
        Register::R14 => "r14",
        Register::R15 => "r15",
        Register::Rip => "rip",
        Register::RFlags => "eflags",
        Register::Es => "es",
        Register::Cs => "cs",
        Register::Ss => "ss",
        Register::Ds => "ds",
        Register::Fs => "fs",
        Register::Gs => "gs",
        Register::FsBase => "fs_base",
        Register::GsBase => "gs_base",
        Register::OrigRax => "orig_rax",
    }
}

/// The number of a register in DWARF.
fn dwarf_number(r: Register) -> (d: Option<u16>)
    ensures
        d == register_dwarf(r),
{
    match r {
        Register::Rax => Some(0),
        Register::Rdx => Some(1),
        Register::Rcx => Some(2),
        Register::Rbx => Some(3),
        Register::Rsi => Some(4),
        Register::Rdi => Some(5),
        Register::Rbp => Some(6),
        Register::Rsp => Some(7),
        Register::R8 => Some(8),
        Register::R9 => Some(9),
        Register::R10 => Some(10),
        Register::R11 => Some(11),
        Register::R12 => Some(12),
        Register::R13 => Some(13),
        Register::R14 => Some(14),
        Register::R15 => Some(15),
        Register::Rip => None,
        Register::RFlags => Some(49),
        Register::Es => Some(50),
        Register::Cs => Some(51),
        Register::Ss => Some(52),
        Register::Ds => Some(53),
        Register::Fs => Some(54),
        Register::Gs => Some(55),
        Register::FsBase => Some(58),
        Register::GsBase => Some(59),
        Register::OrigRax => None,
    }
}

/// The register at a place in the list of all.
fn nth_register(index: usize) -> (r: Register)
    ensures
        r == register_at(index as int),
{
    if index == 0 {
        Register::Rax
    } else if index == 1 {
        Register::Rdx
    } else if index == 2 {
        Register::Rcx
    } else if index == 3 {
        Register::Rbx
    } else if index == 4 {
        Register::Rsi
    } else if index == 5 {
        Register::Rdi
    } else if index == 6 {
        Register::Rbp
    } else if index == 7 {
        Register::Rsp
    } else if index == 8 {
        Register::R8
    } else if index == 9 {
        Register::R9
    } else if index == 10 {
        Register::R10
    } else if index == 11 {
        Register::R11
    } else if index == 12 {
        Register::R12
    } else if index == 13 {
        Register::R13
    } else if index == 14 {
        Register::R14
    } else if index == 15 {
        Register::R15
    } else if index == 16 {
        Register::Rip
    } else if index == 17 {
        Register::RFlags
    } else if index == 18 {
        Register::Es
    } else if index == 19 {
        Register::Cs
    } else if index == 20 {
        Register::Ss
    } else if index == 21 {
        Register::Ds
    } else if index == 22 {
        Register::Fs
    } else if index == 23 {
        Register::Gs
    } else if index == 24 {
        Register::FsBase
    } else if index == 25 {
        Register::GsBase
    } else {
        Register::OrigRax
    }
}

/// The description of the register at a place in the list of all.
pub fn reg_desc(index: usize) -> (d: RegDesc)
    ensures
        d.reg == register_at(index as int),
        d.dwarf == register_dwarf(d.reg),
        d.name@ == register_name(d.reg),
{
    let reg = nth_register(index);
    RegDesc { reg, dwarf: dwarf_number(reg), name: get_register_name(reg) }
}

/// The register that a user means by a name, all in lower or all in upper case.
pub fn get_register_from_name(name: &str) -> (r: Option<Register>)
    ensures
        r == register_named(name@),
{
    if same(name, "rax") || same(name, "RAX") {
        Some(Register::Rax)
    } else if same(name, "rdx") || same(name, "RDX") {
        Some(Register::Rdx)
    } else if same(name, "rcx") || same(name, "RCX") {
        Some(Register::Rcx)
    } else if same(name, "rbx") || same(name, "RBX") {
        Some(Register::Rbx)
    } else if same(name, "rsi") || same(name, "RSI") {
        Some(Register::Rsi)
    } else if same(name, "rdi") || same(name, "RDI") {
        Some(Register::Rdi)
    } else if same(name, "rbp") || same(name, "RBP") {
        Some(Register::Rbp)
    } else if same(name, "rsp") || same(name, "RSP") {
        Some(Register::Rsp)
    } else if same(name, "r8") || same(name, "R8") {
        Some(Register::R8)
    } else if same(name, "r9") || same(name, "R9") {
        Some(Register::R9)
    } else if same(name, "r10") || same(name, "R10") {
        Some(Register::R10)
    } else if same(name, "r11") || same(name, "R11") {
        Some(Register::R11)
    } else if same(name, "r12") || same(name, "R12") {
        Some(Register::R12)
    } else if same(name, "r13") || same(name, "R13") {
        Some(Register::R13)
    } else if same(name, "r14") || same(name, "R14") {
        Some(Register::R14)
    } else if same(name, "r15") || same(name, "R15") {
        Some(Register::R15)
    } else if same(name, "rip") || same(name, "RIP") {
        Some(Register::Rip)
    } else if same(name, "eflags") || same(name, "rflags") || same(name, "EFLAGS") || same(name, "RFLAGS") {
        Some(Register::RFlags)
    } else if same(name, "es") || same(name, "ES") {
        Some(Register::Es)
    } else if same(name, "cs") || same(name, "CS") {
        Some(Register::Cs)
    } else if same(name, "ss") || same(name, "SS") {
        Some(Register::Ss)
    } else if same(name, "ds") || same(name, "DS") {
        Some(Register::Ds)
    } else if same(name, "fs") || same(name, "FS") {
        Some(Register::Fs)
    } else if same(name, "gs") || same(name, "GS") {
        Some(Register::Gs)
    } else if same(name, "fs_base") || same(name, "FS_BASE") {
        Some(Register::FsBase)
    } else if same(name, "gs_base") || same(name, "GS_BASE") {
        Some(Register::GsBase)
    } else if same(name, "orig_rax") || same(name, "ORIG_RAX") {
        Some(Register::OrigRax)
    } else {
        None
    }
}

/// The register of a number in DWARF.
pub fn register_from_dwarf(dwarf: u16) -> (r: Option<Register>)
    ensures
        r == register_of_dwarf(dwarf),
{
    if dwarf == 0 {
        Some(Register::Rax)
    } else if dwarf == 1 {
        Some(Register::Rdx)
    } else if dwarf == 2 {
        Some(Register::Rcx)
    } else if dwarf == 3 {
        Some(Register::Rbx)
    } else if dwarf == 4 {
        Some(Register::Rsi)
    } else if dwarf == 5 {
        Some(Register::Rdi)
    } else if dwarf == 6 {
        Some(Register::Rbp)
    } else if dwarf == 7 {
        Some(Register::Rsp)
    } else if dwarf == 8 {
        Some(Register::R8)
    } else if dwarf == 9 {
        Some(Register::R9)
    } else if dwarf == 10 {
        Some(Register::R10)
    } else if dwarf == 11 {
        Some(Register::R11)
    } else if dwarf == 12 {
        Some(Register::R12)
    } else if dwarf == 13 {
        Some(Register::R13)
    } else if dwarf == 14 {
        Some(Register::R14)
    } else if dwarf == 15 {
        Some(Register::R15)
    } else if dwarf == 49 {
        Some(Register::RFlags)
    } else if dwarf == 50 {
        Some(Register::Es)
    } else if dwarf == 51 {
        Some(Register::Cs)
    } else if dwarf == 52 {
        Some(Register::Ss)
    } else if dwarf == 53 {
        Some(Register::Ds)
    } else if dwarf == 54 {
        Some(Register::Fs)
    } else if dwarf == 55 {
        Some(Register::Gs)
    } else if dwarf == 58 {
        Some(Register::FsBase)
    } else if dwarf == 59 {
        Some(Register::GsBase)
    } else {
        None
    }
}

/// Each register stands at its place in the list of all.
pub proof fn lemma_places(r: Register, index: int)
    ensures
        register_at(register_place(r)) == r,
        0 <= register_place(r) < NUMBER_OF_REGISTERS,
        0 <= index < NUMBER_OF_REGISTERS ==> register_place(register_at(index)) == index,
{
}

/// A number that tells the names of registers apart.
spec fn mark(name: Seq<char>) -> int {
    name.len() * 0x1000000 + name[0] as int * 0x10000 + name[1] as int * 0x100
        + name.last() as int
}

/// Each register is found by its name, in small letters and in capital ones.
pub proof fn lemma_names(r: Register)
    ensures
        register_named(register_name(r)) == Some(r),
        register_named(upper_of(register_name(r))) == Some(r),
{
    reveal_strlit("rax");
    assert(mark("rax"@) == 57827704);
    reveal_strlit("RAX");
    assert(mark("RAX"@) == 55722328);
    assert(upper_of("rax"@) =~= "RAX"@);
    reveal_strlit("rdx");
    assert(mark("rdx"@) == 57828472);
    reveal_strlit("RDX");
    assert(mark("RDX"@) == 55723096);
    assert(upper_of("rdx"@) =~= "RDX"@);
    reveal_strlit("rcx");
    assert(mark("rcx"@) == 57828216);
    reveal_strlit("RCX");
    assert(mark("RCX"@) == 55722840);
    assert(upper_of("rcx"@) =~= "RCX"@);
    reveal_strlit("rbx");
    assert(mark("rbx"@) == 57827960);
    reveal_strlit("RBX");
    assert(mark("RBX"@) == 55722584);
    assert(upper_of("rbx"@) =~= "RBX"@);
    reveal_strlit("rsi");
    assert(mark("rsi"@) == 57832297);
    reveal_strlit("RSI");
    assert(mark("RSI"@) == 55726921);
    assert(upper_of("rsi"@) =~= "RSI"@);
    reveal_strlit("rdi");
    assert(mark("rdi"@) == 57828457);
    reveal_strlit("RDI");
    assert(mark("RDI"@) == 55723081);
    assert(upper_of("rdi"@) =~= "RDI"@);
    reveal_strlit("rbp");
    assert(mark("rbp"@) == 57827952);
    reveal_strlit("RBP");
    assert(mark("RBP"@) == 55722576);
    assert(upper_of("rbp"@) =~= "RBP"@);
    reveal_strlit("rsp");
    assert(mark("rsp"@) == 57832304);
    reveal_strlit("RSP");
    assert(mark("RSP"@) == 55726928);
    assert(upper_of("rsp"@) =~= "RSP"@);
    reveal_strlit("r8");
    assert(mark("r8"@) == 41039928);
    reveal_strlit("R8");
    assert(mark("R8"@) == 38942776);
    assert(upper_of("r8"@) =~= "R8"@);
    reveal_strlit("r9");
    assert(mark("r9"@) == 41040185);
    reveal_strlit("R9");
    assert(mark("R9"@) == 38943033);
    assert(upper_of("r9"@) =~= "R9"@);
    reveal_strlit("r10");
    assert(mark("r10"@) == 57815344);
    reveal_strlit("R10");
    assert(mark("R10"@) == 55718192);
    assert(upper_of("r10"@) =~= "R10"@);
    reveal_strlit("r11");
    assert(mark("r11"@) == 57815345);
    reveal_strlit("R11");
    assert(mark("R11"@) == 55718193);
    assert(upper_of("r11"@) =~= "R11"@);
    reveal_strlit("r12");
    assert(mark("r12"@) == 57815346);
    reveal_strlit("R12");
    assert(mark("R12"@) == 55718194);
    assert(upper_of("r12"@) =~= "R12"@);
    reveal_strlit("r13");
    assert(mark("r13"@) == 57815347);
    reveal_strlit("R13");
    assert(mark("R13"@) == 55718195);
    assert(upper_of("r13"@) =~= "R13"@);
    reveal_strlit("r14");
    assert(mark("r14"@) == 57815348);
    reveal_strlit("R14");
    assert(mark("R14"@) == 55718196);
    assert(upper_of("r14"@) =~= "R14"@);
    reveal_strlit("r15");
    assert(mark("r15"@) == 57815349);
    reveal_strlit("R15");
    assert(mark("R15"@) == 55718197);
    assert(upper_of("r15"@) =~= "R15"@);
    reveal_strlit("rip");
    assert(mark("rip"@) == 57829744);
    reveal_strlit("RIP");
    assert(mark("RIP"@) == 55724368);
    assert(upper_of("rip"@) =~= "RIP"@);
    reveal_strlit("eflags");
    assert(mark("eflags"@) == 107308659);
    reveal_strlit("rflags");
    assert(mark("rflags"@) == 108160627);
    reveal_strlit("EFLAGS");
    assert(mark("EFLAGS"@) == 105203283);
    assert(upper_of("eflags"@) =~= "EFLAGS"@);
    reveal_strlit("RFLAGS");
    assert(mark("RFLAGS"@) == 106055251);
    reveal_strlit("es");
    assert(mark("es"@) == 40203123);
    reveal_strlit("ES");
    assert(mark("ES"@) == 38097747);
    assert(upper_of("es"@) =~= "ES"@);
    reveal_strlit("cs");
    assert(mark("cs"@) == 40072051);
    reveal_strlit("CS");
    assert(mark("CS"@) == 37966675);
    assert(upper_of("cs"@) =~= "CS"@);
    reveal_strlit("ss");
    assert(mark("ss"@) == 41120627);
    reveal_strlit("SS");
    assert(mark("SS"@) == 39015251);
    assert(upper_of("ss"@) =~= "SS"@);
    reveal_strlit("ds");
    assert(mark("ds"@) == 40137587);
    reveal_strlit("DS");
    assert(mark("DS"@) == 38032211);
    assert(upper_of("ds"@) =~= "DS"@);
    reveal_strlit("fs");
    assert(mark("fs"@) == 40268659);
    reveal_strlit("FS");
    assert(mark("FS"@) == 38163283);
    assert(upper_of("fs"@) =~= "FS"@);
    reveal_strlit("gs");
    assert(mark("gs"@) == 40334195);
    reveal_strlit("GS");
    assert(mark("GS"@) == 38228819);
    assert(upper_of("gs"@) =~= "GS"@);
    reveal_strlit("fs_base");
    assert(mark("fs_base"@) == 124154725);
    reveal_strlit("FS_BASE");
    assert(mark("FS_BASE"@) == 122049349);
    assert(upper_of("fs_base"@) =~= "FS_BASE"@);
    reveal_strlit("gs_base");
    assert(mark("gs_base"@) == 124220261);
    reveal_strlit("GS_BASE");
    assert(mark("GS_BASE"@) == 122114885);
    assert(upper_of("gs_base"@) =~= "GS_BASE"@);
    reveal_strlit("orig_rax");
    assert(mark("orig_rax"@) == 141521528);
    reveal_strlit("ORIG_RAX");
    assert(mark("ORIG_RAX"@) == 139416152);
    assert(upper_of("orig_rax"@) =~= "ORIG_RAX"@);
    assert(mark(register_name(r)) == mark(register_name(r)));
}

/// Each register with a number in DWARF is found by it, and by no other.
pub proof fn lemma_dwarf_numbers(r: Register, dwarf: u16)
    ensures
        register_dwarf(r) == Some(dwarf) <==> register_of_dwarf(dwarf) == Some(r),
{
}

// ---------------------------------------------------------------------------
// The registers of the process

impl TalkShape {
    /// Reading a register.
    pub open spec fn get_register(self, r: Register) -> Flow<u64, TalkShape> {
        self.registers().bind(
            |regs: UserRegs, t: TalkShape| Flow::Done(regs.value_of(r), t),
        )
    }

    /// Writing a register, the others being left as they are.
    pub open spec fn set_register(self, r: Register, value: u64) -> Flow<(), TalkShape> {
        self.registers().bind(
            |regs: UserRegs, t: TalkShape| t.order(CallShape::SetRegisters(regs.with(r, value))),
        )
    }

    /// Reading the register of a number in DWARF.
    pub open spec fn get_dwarf_register(self, dwarf: u16) -> Flow<Option<u64>, TalkShape> {
        self.registers().bind(
            |regs: UserRegs, t: TalkShape|
                Flow::Done(
                    match register_of_dwarf(dwarf) {
                        Some(r) => Some(regs.value_of(r)),
                        None => None,
                    },
                    t,
                ),
        )
    }
}

/// Reads a register of the process.
pub fn get_register_value(talk: &mut Talk, r: Register) -> (v: Result<u64, Pause>)
    ensures
        ran(v, final(talk)@, old(talk)@.get_register(r)),
{
    let regs = talk.registers()?;
    Ok(regs.get(r))
}

/// Writes a register of the process, the others being left as they are.
pub fn set_register_value(talk: &mut Talk, r: Register, value: u64) -> (v: Result<(), Pause>)
    ensures
        ran(v, final(talk)@, old(talk)@.set_register(r, value)),
{
    let regs = talk.registers()?;
    talk.order(Call::SetRegisters(regs.put(r, value)))
}

/// Reads the register of a number in DWARF.
pub fn get_reg_val_from_dwarf(talk: &mut Talk, dwarf_reg: u16) -> (v: Result<Option<u64>, Pause>)
    ensures
        ran(v, final(talk)@, old(talk)@.get_dwarf_register(dwarf_reg)),
{
    let regs = talk.registers()?;
    match register_from_dwarf(dwarf_reg) {
        Some(r) => Ok(Some(regs.get(r))),
        None => Ok(None),
    }
}

} // verus!
