//! The core of a live system-call monitor: parsing of trace lines, the
//! insertion-ordered set of observed system calls, fuzzy search over that set,
//! and the state machine that coordinates process selection, tracing and
//! filtering. Everything here works on plain values; spawning the tracer,
//! reading the process table and drawing the screen belong to the caller.

pub mod machine;
pub mod order;
pub mod parse;
pub mod process;
pub mod search;
pub mod syscalls;
pub mod text;
