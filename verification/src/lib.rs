//! A register-machine runtime: an assembler that turns a symbolic
//! instruction list into a resolvable label table and executable
//! instructions, an execution engine that dispatches those instructions
//! against named registers, a bounded stack and a pluggable operation
//! table, and a two-generation cons-cell heap reclaimed by a verified
//! stop-and-copy garbage collector.
//!
//! Every pointer is a bounds-checked integer index into a specific
//! heap generation, and every failure the design treats as fatal is a
//! `MachineError` value: the verified functions themselves never
//! panic.

pub mod assembler;
pub mod errors;
pub mod gc;
pub mod machine;
pub mod machine_cases;
pub mod memory;
pub mod parser;
pub mod parserfordev;
pub mod primitives;
pub mod register;
pub mod representation;
pub mod stack;
pub mod tpfordev;
