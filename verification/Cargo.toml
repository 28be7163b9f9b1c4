[package]
name = "syscall_monitor"
version = "0.1.0"
edition = "2021"
publish = false

[dependencies]
fuzzy-matcher = "0.3"
crossterm = "0.27"
ratatui = "0.23"
sysinfo = "0.29"
nix = { version = "0.27", features = ["signal"] }
