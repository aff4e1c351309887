//! Disbatch gives scripts a GUI: it reads the parameters of a PowerShell or
//! batch script into controls, points out what is risky in it, and composes the
//! command that runs it in an embedded terminal.
//!
//! This library holds what the program decides and computes, with proofs. The
//! window, the files and the processes are the program's own.

pub mod analyzer;
pub mod binding;
pub mod command;
pub mod controls;
pub mod emulator;
pub mod grammar;
pub mod model;
pub mod order;
pub mod parser;
pub mod pattern;
pub mod patterns;
pub mod preview;
pub mod psparse;
pub mod scan;
pub mod screen;
pub mod session;
pub mod sidecar;
pub mod span;
pub mod terminal;
pub mod text;
pub mod unicode;
pub mod values;
