//! A stack-oriented bytecode virtual machine for a small imperative
//! language: a big-endian codec for 32-bit values and byte strings, a
//! best-fit free-list heap with coalescing on release, a unified
//! stack/heap address space, a sequential bytecode reader, and the
//! instruction evaluator itself.

pub mod errors;
pub mod evaluator;
pub mod ffi;
pub mod heap;
pub mod instructions;
pub mod loading;
pub mod memory;
pub mod preprocessor;
pub mod symbol_table;
pub mod utils;
