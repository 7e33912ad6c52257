//! The error taxonomy of the compile-and-run pipeline.
//!
//! Every failure is fatal for a single compile-and-run: there is no
//! local recovery anywhere in the pipeline.

use vstd::prelude::*;

verus! {

/// The four fatal failures of the pipeline.
///
/// `ParseError` comes from the tokenizer alone (an unmatched loop-exit
/// marker); the other three arise around the external assembler and the
/// executable-memory allocation, which live outside the library.
#[derive(Clone, Copy, Debug, PartialEq, Eq, Structural)]
pub enum BfError {
    /// A loop-exit character had no matching loop-enter.
    ParseError,
    /// The external assembler exited with a nonzero status.
    AssemblyFailed,
    /// A file read or write failed.
    IOError,
    /// The request for executable memory failed.
    AllocationFailed,
}

impl BfError {
    /// A short description of the failure, for diagnostics.
    pub fn message(&self) -> (r: &'static str)
        ensures
            r@ == match self {
                BfError::ParseError => "unbalanced loop markers"@,
                BfError::AssemblyFailed => "external assembler failed"@,
                BfError::IOError => "file read or write failed"@,
                BfError::AllocationFailed => "executable memory allocation failed"@,
            },
    {
        match self {
            BfError::ParseError => "unbalanced loop markers",
            BfError::AssemblyFailed => "external assembler failed",
            BfError::IOError => "file read or write failed",
            BfError::AllocationFailed => "executable memory allocation failed",
        }
    }
}

} // verus!
