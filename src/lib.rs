//! A RISC-V style 32-bit integer simulator: instruction decoding, a memory map of RAM and
//! memory-mapped ports, a CPU that executes a subset of the base instruction set, a
//! disassembler and the pieces of an interactive debugger.

pub mod args;
pub mod bus;
pub mod dbg;
pub mod disasm;
pub mod inst;
pub mod ops;
pub mod region;
pub mod repl;
pub mod simple;
pub mod text;
pub mod vm;
