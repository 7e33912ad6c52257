//! Tokens of the tape language.
//!
//! A token is either a run-length counted pointer or cell operation, a
//! unit print or read operation, or one side of a loop. Loop tokens
//! carry the id that pairs a loop-enter with its loop-exit.

use vstd::prelude::*;

verus! {

/// One counted operation of the tape language.
///
/// The `usize` of the four counted variants is the run length of the
/// consecutive identical source characters that the token stands for,
/// always at least one. The `usize` of `Jumpf` and `Jumpb` is the loop
/// id pairing a loop-enter with its loop-exit.
#[derive(Clone, Copy, Debug, PartialEq, Eq, Structural)]
pub enum TokenType {
    /// Move the cursor right by the count.
    Next(usize),
    /// Move the cursor left by the count.
    Prev(usize),
    /// Add the count to the current cell, modulo 256.
    Inc(usize),
    /// Subtract the count from the current cell, modulo 256.
    Dec(usize),
    /// Print the current cell as one byte.
    Print,
    /// Read one byte into the current cell (declared, never compiled).
    Scan,
    /// Loop enter: skip past the matching `Jumpb` when the cell is zero.
    Jumpf(usize),
    /// Loop exit: jump back to the matching `Jumpf` when the cell is nonzero.
    Jumpb(usize),
}

/// Whether a byte is one of the eight opcode characters. Every other
/// byte of a source text is a comment.
pub open spec fn is_opcode(b: u8) -> bool {
    b == '+' as u8 || b == '-' as u8 || b == '>' as u8 || b == '<' as u8 || b == '.' as u8
        || b == ',' as u8 || b == '[' as u8 || b == ']' as u8
}

/// `n` copies of the byte `b`.
pub open spec fn rep_byte(b: u8, n: nat) -> Seq<u8>
    decreases n,
{
    if n == 0 {
        Seq::empty()
    } else {
        seq![b] + rep_byte(b, (n - 1) as nat)
    }
}

/// The unit opcode characters that one token stands for: a counted
/// token expands back into its run of identical characters, every
/// other token into its single character.
pub open spec fn token_chars(t: TokenType) -> Seq<u8> {
    match t {
        TokenType::Next(n) => rep_byte('>' as u8, n as nat),
        TokenType::Prev(n) => rep_byte('<' as u8, n as nat),
        TokenType::Inc(n) => rep_byte('+' as u8, n as nat),
        TokenType::Dec(n) => rep_byte('-' as u8, n as nat),
        TokenType::Print => seq!['.' as u8],
        TokenType::Scan => seq![',' as u8],
        TokenType::Jumpf(_) => seq!['[' as u8],
        TokenType::Jumpb(_) => seq![']' as u8],
    }
}

/// The unit opcode characters that a whole token sequence stands for.
pub open spec fn expand_tokens(ts: Seq<TokenType>) -> Seq<u8>
    decreases ts.len(),
{
    if ts.len() == 0 {
        Seq::empty()
    } else {
        token_chars(ts[0]) + expand_tokens(ts.skip(1))
    }
}

/// The opcode characters of `src` from index `i` on, in order, with
/// every comment byte dropped.
pub open spec fn opcodes_from(src: Seq<u8>, i: int) -> Seq<u8>
    decreases src.len() - i,
{
    if i < 0 || i >= src.len() {
        Seq::empty()
    } else if is_opcode(src[i]) {
        seq![src[i]] + opcodes_from(src, i + 1)
    } else {
        opcodes_from(src, i + 1)
    }
}

/// The opcode characters of a whole source text.
pub open spec fn opcodes_of(src: Seq<u8>) -> Seq<u8> {
    opcodes_from(src, 0)
}

} // verus!
