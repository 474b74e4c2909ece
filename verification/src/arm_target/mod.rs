pub mod agreement;
pub mod answers;
pub mod asks;
pub mod backtrace;
pub mod debugger;
pub mod frontend;
pub mod gdb_protocol;
pub mod kept;
pub mod link;
pub mod next_line;
pub mod registers;
pub mod repl;
pub mod scan;
pub mod target_impl;
pub mod turn;
