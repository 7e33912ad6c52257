//! A compiler for a minimal eight-opcode tape language.
//!
//! The pipeline tokenizes a source text into run-length counted
//! operations, lowers the tokens into a textual native-instruction
//! stream for an external assembler, and provides a reference
//! interpreter that defines the semantics of a token sequence.

pub mod codegen;
pub mod error;
pub mod interp;
pub mod numfmt;
pub mod token;
pub mod tokenizer;
