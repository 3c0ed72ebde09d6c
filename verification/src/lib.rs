//! A Brainfuck compiler and JIT support library targeting 64-bit ARM
//! (AArch64) under a Mach/BSD-style system-call ABI.
//!
//! The pipeline is linear: source bytes are parsed and peephole-optimized
//! into an IR instruction vector, the IR is compiled into a buffer of
//! little-endian AArch64 instruction words, and a host program installs the
//! buffer into executable memory and runs it against a 30000-cell tape.

pub mod codegen;
pub mod ir;
pub mod laws;
pub mod loops;
pub mod parse_spec;
pub mod parser;
pub mod program;

pub use ir::Instruction;
pub use program::{Program, UnbalancedBrackets, MAX_MEM_ARRAY_SIZE};
