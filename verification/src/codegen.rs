//! The code generator.
//!
//! Lowers a token sequence into a textual native-instruction stream
//! for an external assembler, under a fixed calling convention: one
//! register holds the tape cursor, one the tape base address, both
//! saved on entry and restored on exit, and the tape pointer arrives
//! in the first parameter register. Every emit method appends an
//! exactly specified piece of text to the instruction stream.

use vstd::prelude::*;

use crate::numfmt::dec_seq;
use crate::numfmt::dec_string;
use crate::token::TokenType;

verus! {

/// The directive that opens every instruction stream.
pub open spec fn header_text() -> Seq<char> {
    "[bits 64]\n"@
}

/// The prologue: save the two reserved registers, zero the cursor,
/// bind the tape base register to the incoming parameter register.
pub open spec fn setup_text() -> Seq<char> {
    "setup:\npush r14\npush r15\nxor r14, r14\nmov r15, rdi\n"@
}

/// The epilogue: restore the reserved registers and return zero.
pub open spec fn cleanup_text() -> Seq<char> {
    "cleanup:\npop r15\npop r14\nxor rax, rax\nret"@
}

/// Advance the cursor register by `n`.
pub open spec fn next_text(n: nat) -> Seq<char> {
    "add r14, "@ + dec_seq(n) + "\n"@
}

/// Retreat the cursor register by `n`.
pub open spec fn prev_text(n: nat) -> Seq<char> {
    "sub r14, "@ + dec_seq(n) + "\n"@
}

/// Add `n` to the current tape cell, one byte wide, so modulo 256.
pub open spec fn inc_text(n: nat) -> Seq<char> {
    "add byte [r15 + r14], "@ + dec_seq(n) + "\n"@
}

/// Subtract `n` from the current tape cell, one byte wide.
pub open spec fn dec_text(n: nat) -> Seq<char> {
    "sub byte [r15 + r14], "@ + dec_seq(n) + "\n"@
}

/// Loop enter: a start label keyed by the loop id, a zero test of the
/// current cell, and a forward jump to the matching end label.
pub open spec fn jumpf_text(id: nat) -> Seq<char> {
    ".start_"@ + dec_seq(id) + ":\ncmp byte [r15 + r14], 0x0\nje .end_"@ + dec_seq(id) + "\n"@
}

/// Loop exit: a zero test, a backward jump to the matching start
/// label, and the end label the loop enter jumps to.
pub open spec fn jumpb_text(id: nat) -> Seq<char> {
    "cmp byte [r15 + r14], 0x0\njne .start_"@ + dec_seq(id) + "\n.end_"@ + dec_seq(id) + ":\n"@
}

/// Print: load the current cell zero-extended into the parameter
/// register and call the print routine at the embedded address.
pub open spec fn print_text(addr: nat) -> Seq<char> {
    "movzx edi, byte [r15 + r14]\nmov rax, "@ + dec_seq(addr) + "\ncall rax\n"@
}

/// The text one token lowers to. `Scan` is declared but never
/// compiled, so it has no text.
pub open spec fn token_text(t: TokenType, addr: nat) -> Seq<char> {
    match t {
        TokenType::Next(n) => next_text(n as nat),
        TokenType::Prev(n) => prev_text(n as nat),
        TokenType::Inc(n) => inc_text(n as nat),
        TokenType::Dec(n) => dec_text(n as nat),
        TokenType::Print => print_text(addr),
        TokenType::Scan => Seq::empty(),
        TokenType::Jumpf(id) => jumpf_text(id as nat),
        TokenType::Jumpb(id) => jumpb_text(id as nat),
    }
}

/// The lowering of a whole token sequence, in order.
pub open spec fn tokens_text(ts: Seq<TokenType>, addr: nat) -> Seq<char>
    decreases ts.len(),
{
    if ts.len() == 0 {
        Seq::empty()
    } else {
        token_text(ts[0], addr) + tokens_text(ts.skip(1), addr)
    }
}

/// The full instruction stream of a program: header, prologue, the
/// lowering of every token in order, epilogue.
pub open spec fn program_text(ts: Seq<TokenType>, addr: nat) -> Seq<char> {
    header_text() + setup_text() + tokens_text(ts, addr) + cleanup_text()
}

/// Lowering one token after a sequence extends the sequence's text by
/// that token's text.
pub proof fn lemma_tokens_text_push(ts: Seq<TokenType>, t: TokenType, addr: nat)
    ensures
        tokens_text(ts.push(t), addr) == tokens_text(ts, addr) + token_text(t, addr),
    decreases ts.len(),
{
    if ts.len() == 0 {
        assert(ts.push(t)[0] == t);
        assert(ts.push(t).skip(1) =~= Seq::<TokenType>::empty());
        assert(tokens_text(ts.push(t), addr) == token_text(t, addr) + tokens_text(
            Seq::<TokenType>::empty(), addr));
        assert(Seq::<char>::empty() + token_text(t, addr) =~= token_text(t, addr));
        assert(token_text(t, addr) + Seq::<char>::empty() =~= token_text(t, addr));
    } else {
        assert(ts.push(t)[0] == ts[0]);
        assert(ts.push(t).skip(1) =~= ts.skip(1).push(t));
        lemma_tokens_text_push(ts.skip(1), t, addr);
        assert(tokens_text(ts.push(t), addr) == token_text(ts[0], addr) + tokens_text(
            ts.skip(1).push(t), addr));
        assert(tokens_text(ts, addr) == token_text(ts[0], addr) + tokens_text(ts.skip(1), addr));
        assert(token_text(ts[0], addr) + (tokens_text(ts.skip(1), addr) + token_text(t, addr))
            =~= (token_text(ts[0], addr) + tokens_text(ts.skip(1), addr)) + token_text(t, addr));
    }
}

/// Whether a token sequence holds no read token. The read opcode is
/// declared but never compiled.
pub open spec fn no_scan(ts: Seq<TokenType>) -> bool {
    forall|k: int| 0 <= k < ts.len() ==> !(ts[k] is Scan)
}

/// Code generation is deterministic: the same token sequence under
/// the same print routine address lowers to the identical instruction
/// stream, character for character.
pub proof fn lemma_generation_deterministic(ts1: Seq<TokenType>, ts2: Seq<TokenType>, addr: nat)
    requires
        ts1 == ts2,
    ensures
        program_text(ts1, addr) == program_text(ts2, addr),
{
}

/// The calling convention of the compiled routine and the stream
/// being built under it. Register r14 holds the cursor, r15 the tape
/// base address; the print routine's resolved address is embedded as
/// an immediate in every print call.
pub struct Codegen {
    /// The instruction stream emitted so far.
    pub code: String,
    print_fn: usize,
    pc: &'static str,
    memory: &'static str,
}

impl Codegen {
    /// The two reserved registers of the calling convention.
    pub closed spec fn wf(self) -> bool {
        self.pc@ == "r14"@ && self.memory@ == "r15"@
    }

    /// The resolved address of the print routine.
    pub closed spec fn print_addr(self) -> nat {
        self.print_fn as nat
    }

    /// The instruction stream emitted so far, as its characters.
    pub closed spec fn stream(self) -> Seq<char> {
        self.code@
    }

    /// A fresh generator holding the stream header and the print
    /// routine's address, resolved once by the caller.
    pub fn new(print_fn: usize) -> (r: Self)
        ensures
            r.wf(),
            r.print_addr() == print_fn as nat,
            r.stream() == header_text(),
    {
        Self { code: String::from_str("[bits 64]\n"), print_fn, pc: "r14", memory: "r15" }
    }

    /// Appends the prologue.
    pub fn setup(&mut self)
        requires
            old(self).wf(),
        ensures
            final(self).wf(),
            final(self).print_addr() == old(self).print_addr(),
            final(self).stream() == old(self).stream() + setup_text(),
    {
        self.code.append("setup:\n");
        self.code.append("push ");
        self.code.append(self.pc);
        self.code.append("\n");
        self.code.append("push ");
        self.code.append(self.memory);
        self.code.append("\n");
        self.code.append("xor ");
        self.code.append(self.pc);
        self.code.append(", ");
        self.code.append(self.pc);
        self.code.append("\n");
        self.code.append("mov ");
        self.code.append(self.memory);
        self.code.append(", rdi\n");
        proof {
            reveal_strlit("setup:\n");
            reveal_strlit("push ");
            reveal_strlit("\n");
            reveal_strlit("xor ");
            reveal_strlit(", ");
            reveal_strlit("mov ");
            reveal_strlit(", rdi\n");
            reveal_strlit("r14");
            reveal_strlit("r15");
            reveal_strlit("setup:\npush r14\npush r15\nxor r14, r14\nmov r15, rdi\n");
            assert(self.code@ =~= old(self).code@ + setup_text());
        }
    }

    /// Appends the epilogue.
    pub fn cleanup(&mut self)
        requires
            old(self).wf(),
        ensures
            final(self).wf(),
            final(self).print_addr() == old(self).print_addr(),
            final(self).stream() == old(self).stream() + cleanup_text(),
    {
        self.code.append("cleanup:\n");
        self.code.append("pop ");
        self.code.append(self.memory);
        self.code.append("\n");
        self.code.append("pop ");
        self.code.append(self.pc);
        self.code.append("\n");
        self.code.append("xor rax, rax\n");
        self.code.append("ret");
        proof {
            reveal_strlit("cleanup:\n");
            reveal_strlit("pop ");
            reveal_strlit("\n");
            reveal_strlit("xor rax, rax\n");
            reveal_strlit("ret");
            reveal_strlit("r14");
            reveal_strlit("r15");
            reveal_strlit("cleanup:\npop r15\npop r14\nxor rax, rax\nret");
            assert(self.code@ =~= old(self).code@ + cleanup_text());
        }
    }

    /// Appends the lowering of `Next(value)`.
    pub fn next(&mut self, value: usize)
        requires
            old(self).wf(),
        ensures
            final(self).wf(),
            final(self).print_addr() == old(self).print_addr(),
            final(self).stream() == old(self).stream() + next_text(value as nat),
    {
        self.code.append("add ");
        self.code.append(self.pc);
        self.code.append(", ");
        let v = dec_string(value);
        self.code.append(v.as_str());
        self.code.append("\n");
        proof {
            reveal_strlit("add ");
            reveal_strlit(", ");
            reveal_strlit("\n");
            reveal_strlit("r14");
            reveal_strlit("add r14, ");
            assert(self.code@ =~= old(self).code@ + next_text(value as nat));
        }
    }

    /// Appends the lowering of `Prev(value)`.
    pub fn prev(&mut self, value: usize)
        requires
            old(self).wf(),
        ensures
            final(self).wf(),
            final(self).print_addr() == old(self).print_addr(),
            final(self).stream() == old(self).stream() + prev_text(value as nat),
    {
        self.code.append("sub ");
        self.code.append(self.pc);
        self.code.append(", ");
        let v = dec_string(value);
        self.code.append(v.as_str());
        self.code.append("\n");
        proof {
            reveal_strlit("sub ");
            reveal_strlit(", ");
            reveal_strlit("\n");
            reveal_strlit("r14");
            reveal_strlit("sub r14, ");
            assert(self.code@ =~= old(self).code@ + prev_text(value as nat));
        }
    }

    /// Appends the lowering of `Inc(value)`.
    pub fn inc(&mut self, value: usize)
        requires
            old(self).wf(),
        ensures
            final(self).wf(),
            final(self).print_addr() == old(self).print_addr(),
            final(self).stream() == old(self).stream() + inc_text(value as nat),
    {
        self.code.append("add byte [");
        self.code.append(self.memory);
        self.code.append(" + ");
        self.code.append(self.pc);
        self.code.append("], ");
        let v = dec_string(value);
        self.code.append(v.as_str());
        self.code.append("\n");
        proof {
            reveal_strlit("add byte [");
            reveal_strlit(" + ");
            reveal_strlit("], ");
            reveal_strlit("\n");
            reveal_strlit("r14");
            reveal_strlit("r15");
            reveal_strlit("add byte [r15 + r14], ");
            assert(self.code@ =~= old(self).code@ + inc_text(value as nat));
        }
    }

    /// Appends the lowering of `Dec(value)`.
    pub fn dec(&mut self, value: usize)
        requires
            old(self).wf(),
        ensures
            final(self).wf(),
            final(self).print_addr() == old(self).print_addr(),
            final(self).stream() == old(self).stream() + dec_text(value as nat),
    {
        self.code.append("sub byte [");
        self.code.append(self.memory);
        self.code.append(" + ");
        self.code.append(self.pc);
        self.code.append("], ");
        let v = dec_string(value);
        self.code.append(v.as_str());
        self.code.append("\n");
        proof {
            reveal_strlit("sub byte [");
            reveal_strlit(" + ");
            reveal_strlit("], ");
            reveal_strlit("\n");
            reveal_strlit("r14");
            reveal_strlit("r15");
            reveal_strlit("sub byte [r15 + r14], ");
            assert(self.code@ =~= old(self).code@ + dec_text(value as nat));
        }
    }

    /// Appends the lowering of `Jumpf(offset)`.
    pub fn jumpf(&mut self, offset: usize)
        requires
            old(self).wf(),
        ensures
            final(self).wf(),
            final(self).print_addr() == old(self).print_addr(),
            final(self).stream() == old(self).stream() + jumpf_text(offset as nat),
    {
        self.code.append(".start_");
        let v = dec_string(offset);
        self.code.append(v.as_str());
        self.code.append(":\n");
        self.code.append("cmp byte [");
        self.code.append(self.memory);
        self.code.append(" + ");
        self.code.append(self.pc);
        self.code.append("], 0x0\n");
        self.code.append("je .end_");
        self.code.append(v.as_str());
        self.code.append("\n");
        proof {
            reveal_strlit(".start_");
            reveal_strlit(":\n");
            reveal_strlit("cmp byte [");
            reveal_strlit(" + ");
            reveal_strlit("], 0x0\n");
            reveal_strlit("je .end_");
            reveal_strlit("\n");
            reveal_strlit("r14");
            reveal_strlit("r15");
            reveal_strlit(":\ncmp byte [r15 + r14], 0x0\nje .end_");
            assert(self.code@ =~= old(self).code@ + jumpf_text(offset as nat));
        }
    }

    /// Appends the lowering of `Jumpb(offset)`.
    pub fn jumpb(&mut self, offset: usize)
        requires
            old(self).wf(),
        ensures
            final(self).wf(),
            final(self).print_addr() == old(self).print_addr(),
            final(self).stream() == old(self).stream() + jumpb_text(offset as nat),
    {
        self.code.append("cmp byte [");
        self.code.append(self.memory);
        self.code.append(" + ");
        self.code.append(self.pc);
        self.code.append("], 0x0\n");
        self.code.append("jne .start_");
        let v = dec_string(offset);
        self.code.append(v.as_str());
        self.code.append("\n");
        self.code.append(".end_");
        self.code.append(v.as_str());
        self.code.append(":\n");
        proof {
            reveal_strlit("cmp byte [");
            reveal_strlit(" + ");
            reveal_strlit("], 0x0\n");
            reveal_strlit("jne .start_");
            reveal_strlit("\n");
            reveal_strlit(".end_");
            reveal_strlit(":\n");
            reveal_strlit("r14");
            reveal_strlit("r15");
            reveal_strlit("cmp byte [r15 + r14], 0x0\njne .start_");
            reveal_strlit("\n.end_");
            assert(self.code@ =~= old(self).code@ + jumpb_text(offset as nat));
        }
    }

    /// Appends the lowering of `Print`.
    pub fn print(&mut self)
        requires
            old(self).wf(),
        ensures
            final(self).wf(),
            final(self).print_addr() == old(self).print_addr(),
            final(self).stream() == old(self).stream() + print_text(old(self).print_addr()),
    {
        self.code.append("movzx edi, byte [");
        self.code.append(self.memory);
        self.code.append(" + ");
        self.code.append(self.pc);
        self.code.append("]\n");
        self.code.append("mov rax, ");
        let v = dec_string(self.print_fn);
        self.code.append(v.as_str());
        self.code.append("\n");
        self.code.append("call rax\n");
        proof {
            reveal_strlit("movzx edi, byte [");
            reveal_strlit(" + ");
            reveal_strlit("]\n");
            reveal_strlit("mov rax, ");
            reveal_strlit("\n");
            reveal_strlit("call rax\n");
            reveal_strlit("r14");
            reveal_strlit("r15");
            reveal_strlit("movzx edi, byte [r15 + r14]\nmov rax, ");
            reveal_strlit("\ncall rax\n");
            assert(self.code@ =~= old(self).code@ + print_text(old(self).print_addr()));
        }
    }
}

/// Lowers a whole token sequence: header, prologue, one piece of text
/// per token in order, epilogue. The read opcode is not compiled, so
/// the sequence must hold none.
pub fn generate(tokens: &Vec<TokenType>, print_fn: usize) -> (r: String)
    requires
        no_scan(tokens@),
    ensures
        r@ == program_text(tokens@, print_fn as nat),
{
    let mut cg = Codegen::new(print_fn);
    cg.setup();
    proof {
        assert(tokens@.take(0) =~= Seq::<TokenType>::empty());
        assert(header_text() + setup_text() + Seq::<char>::empty() =~= header_text()
            + setup_text());
    }
    let mut k: usize = 0;
    while k < tokens.len()
        invariant
            k <= tokens.len(),
            no_scan(tokens@),
            cg.wf(),
            cg.print_addr() == print_fn as nat,
            cg.stream() == header_text() + setup_text() + tokens_text(
                tokens@.take(k as int),
                print_fn as nat,
            ),
        decreases tokens.len() - k,
    {
        let ghost pre = cg.stream();
        let ghost addr = print_fn as nat;
        let t = tokens[k];
        match t {
            TokenType::Next(n) => cg.next(n),
            TokenType::Prev(n) => cg.prev(n),
            TokenType::Inc(n) => cg.inc(n),
            TokenType::Dec(n) => cg.dec(n),
            TokenType::Jumpf(id) => cg.jumpf(id),
            TokenType::Jumpb(id) => cg.jumpb(id),
            TokenType::Print => cg.print(),
            TokenType::Scan => {
                proof {
                    assert(false);
                }
            },
        }
        proof {
            assert(cg.stream() == pre + token_text(t, addr));
            lemma_tokens_text_push(tokens@.take(k as int), t, addr);
            assert(tokens@.take(k as int + 1) =~= tokens@.take(k as int).push(t));
            assert((header_text() + setup_text()) + (tokens_text(tokens@.take(k as int), addr)
                + token_text(t, addr)) =~= (header_text() + setup_text()) + tokens_text(
                tokens@.take(k as int), addr) + token_text(t, addr));
        }
        k = k + 1;
    }
    proof {
        assert(tokens@.take(tokens@.len() as int) =~= tokens@);
    }
    cg.cleanup();
    proof {
        assert((header_text() + setup_text() + tokens_text(tokens@, print_fn as nat))
            + cleanup_text() =~= program_text(tokens@, print_fn as nat));
    }
    cg.code
}

} // verus!
