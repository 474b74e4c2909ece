[package]
name = "linux_debugger"
version = "0.1.0"
edition = "2021"
publish = false

[dependencies]
anyhow = "1"
crossterm = "*"
gimli = "*"
memmap2 = "0.9"
nix = { version = "*", features = ["process", "ptrace", "signal"] }
object = { version = "*", features = ["write"] }
ratatui = "*"
rustyline = "*"
