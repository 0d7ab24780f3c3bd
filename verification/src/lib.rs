//! Process inspection for Linux: a command-line grammar and the decoding of
//! the kernel's per-process text records into metrics.

pub mod text;
pub mod parser;
pub mod records;
pub mod cpu;
pub mod proc_reader;
