# linux_debugger

A small debugger for Linux programs on x86-64 and for ARM Cortex-M firmware behind a GDB remote
stub, with a command line and a terminal interface. What it decides and computes is a library
verified with Verus; what touches the outside is a thin program around it.

## Layout

- `src/` is the verified library.
  - `dwarf` and `elf_debug_info` answer questions about a program's debugging information, which
    the `object` and `gimli` crates decode; `range_table` reads the offsets of range lists.
  - `x86_target` debugs a traced process, `arm_target` a remote target; `target` is what both
    offer a frontend, and `request` the same as plain values.
  - `tui` is the terminal interface without the terminal: its state, keys, commands and panes.
  - `dialogue` is how operations reach the outside; `source`, `text`, `words`, `number`, `list`
    and `cli` are what the rest is made of.
- `app/` traces the process, talks to the stub, and draws the terminal.
- `tests/` runs the library against a small process and a small stub of their own.

## How operations reach the outside

An operation never does input or output itself. It runs on the replies that are there and, where
one is missing, stops and says what is to be done: read a word, send a packet, look for a file.
It is then started again from the state it began in, with one more reply. So every contract says
for every course of replies what is asked for, what is printed and what the state is afterwards.

## Trusted code

Verus takes on trust what the functions marked `#[verifier::external_body]` and the
`assume_specification` items say: those of `dwarf.rs` about `object` and `gimli`, and a few about
strings and paths of the standard library in `text.rs`, `source.rs` and `arm_target/link.rs`.
