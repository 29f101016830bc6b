//! A verified bytecode virtual machine for a PL/0-family compiled program
//! format: a loader, a procedure-table builder, a disassembler and a stack
//! machine interpreter, all sharing one bit-level definition of the format.

pub mod disasm;
pub mod error;
pub mod laws;
pub mod machine;
pub mod opcode;
pub mod parse;
pub mod render;
pub mod scan;
pub mod utf8;
pub mod vm;
pub mod word;
