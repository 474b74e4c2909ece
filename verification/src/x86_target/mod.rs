pub mod asks;
pub mod backtrace;
pub mod breakpoint;
pub mod callers;
pub mod command_handler;
pub mod debugger;
pub mod frontend;
pub mod invariants;
pub mod leaving;
pub mod map_lines;
pub mod maps;
pub mod plain;
pub mod registers;
pub mod repl;
pub mod return_addr;
pub mod seen_bytes;
pub mod session;
pub mod signal_handler;
pub mod stepping;
pub mod stops;
pub mod target_impl;
pub mod turn;
pub mod world;
