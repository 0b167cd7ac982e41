//! A small register-based bytecode virtual machine, with a textual assembler
//! and an arithmetic-expression compiler that produce its bytecode.
//!
//! - `opcode`, `instr`: the instruction set and its byte encoding.
//! - `vm`: the execution engine and the laws its steps obey.
//! - `scan`, `assembler`: the assembly language.
//! - `parser`, `compiler`: the expression language and its lowering.
//! - `input`: turning a line of user input into program bytes.
pub mod assembler;
pub mod compiler;
pub mod input;
pub mod instr;
pub mod opcode;
pub mod parser;
pub mod scan;
pub mod vm;
