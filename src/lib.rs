//! Code generation for a small statically typed subset of Go.
//!
//! The library holds the typed syntax tree, a source formatter, and a code
//! generator that lowers a program into an SSA-style intermediate form made of
//! basic blocks. The generator decides every instruction, block and branch;
//! a backend only has to replay that plan one call at a time.

pub mod ast;
pub mod literal;
pub mod rules;
pub mod pretty_printer;
pub mod ir;
pub mod codegen;
pub mod typing;
