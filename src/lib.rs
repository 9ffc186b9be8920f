//! An assembler and interpreter for the Simplez machine: a single-accumulator
//! CPU with 12-bit words and a 512-word memory.

pub mod machine;
pub mod interpreter;
pub mod text;
pub mod syntax;
pub mod assembler;
pub mod laws;
