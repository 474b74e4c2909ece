//! A debugger for Linux processes on x86-64 and for ARM Cortex-M targets behind a GDB remote stub.
pub mod arm_target;
pub mod cli;
pub mod dialogue;
pub mod dwarf;
pub mod elf_debug_info;
pub mod list;
pub mod lookup;
pub mod number;
pub mod on_disk;
pub mod range_table;
pub mod request;
pub mod rounds;
pub mod source;
pub mod splitting;
pub mod target;
pub mod text;
pub mod tui;
pub mod words;
pub mod x86_target;

pub use arm_target::debugger::RemoteArmDebugger;
pub use elf_debug_info::ElfDebugInfo;
pub use x86_target::debugger::LinuxPtraceDebugger;
