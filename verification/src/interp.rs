//! The naive execution model: a reference interpreter.
//!
//! Runs a token sequence directly on a zeroed tape and collects the
//! printed bytes. Where the compiled routine leaves tape accesses
//! unchecked, the interpreter is the bounds-checked counterpart: a
//! cursor leaving the tape, an unmatched loop token or the
//! never-compiled read opcode stops the run with no result, and a
//! step budget makes every run finite even on programs that loop
//! forever by design.

use vstd::prelude::*;
use vstd::pervasive::VecAdditionalExecFns;
use vstd::arithmetic::div_mod::lemma_add_mod_noop_right;
use vstd::arithmetic::div_mod::lemma_sub_mod_noop_right;
use vstd::arithmetic::div_mod::lemma_mod_add_multiples_vanish;

use crate::token::TokenType;
use crate::token::opcodes_of;
use crate::tokenizer::spec_tokenize;
use crate::tokenizer::lemma_tokenize_no_opcodes;

verus! {

/// The length of the tape the compiled routine is handed.
pub const TAPE_LEN: usize = 512;

/// A fresh tape: every cell zero.
pub open spec fn zero_tape() -> Seq<u8> {
    Seq::new(TAPE_LEN as nat, |i: int| 0u8)
}

/// A cell after adding `n`, one byte wide: modulo 256.
pub open spec fn cell_add(c: u8, n: nat) -> u8 {
    (((c as int) + n) % 256) as u8
}

/// A cell after subtracting `n`, one byte wide: modulo 256.
pub open spec fn cell_sub(c: u8, n: nat) -> u8 {
    (((c as int) - n) % 256) as u8
}

fn cell_add_exec(c: u8, n: usize) -> (r: u8)
    ensures
        r == cell_add(c, n as nat),
{
    let m: usize = n % 256;
    let s: usize = c as usize + m;
    proof {
        lemma_add_mod_noop_right(c as int, n as int, 256);
    }
    (s % 256) as u8
}

fn cell_sub_exec(c: u8, n: usize) -> (r: u8)
    ensures
        r == cell_sub(c, n as nat),
{
    let m: usize = n % 256;
    let s: usize = c as usize + 256 - m;
    proof {
        lemma_sub_mod_noop_right(c as int, n as int, 256);
        lemma_mod_add_multiples_vanish(c as int - (n as int % 256), 256);
    }
    (s % 256) as u8
}

/// The first loop-exit token with id `id` at or after `from`.
pub open spec fn spec_find_jumpb(ts: Seq<TokenType>, id: usize, from: int) -> Option<int>
    decreases ts.len() - from,
{
    if from < 0 || from >= ts.len() {
        None
    } else if ts[from] == TokenType::Jumpb(id) {
        Some(from)
    } else {
        spec_find_jumpb(ts, id, from + 1)
    }
}

/// The first loop-enter token with id `id` at or after `from`.
pub open spec fn spec_find_jumpf(ts: Seq<TokenType>, id: usize, from: int) -> Option<int>
    decreases ts.len() - from,
{
    if from < 0 || from >= ts.len() {
        None
    } else if ts[from] == TokenType::Jumpf(id) {
        Some(from)
    } else {
        spec_find_jumpf(ts, id, from + 1)
    }
}

fn find_jumpb(ts: &Vec<TokenType>, id: usize, from: usize) -> (r: Option<usize>)
    ensures
        match r {
            Some(k) => spec_find_jumpb(ts@, id, from as int) == Some(k as int) && (k as int)
                < ts@.len(),
            None => spec_find_jumpb(ts@, id, from as int) is None,
        },
{
    let mut j: usize = from;
    while j < ts.len()
        invariant
            spec_find_jumpb(ts@, id, from as int) == spec_find_jumpb(ts@, id, j as int),
        decreases ts@.len() - j,
    {
        if ts[j] == TokenType::Jumpb(id) {
            return Some(j);
        }
        j = j + 1;
    }
    None
}

fn find_jumpf(ts: &Vec<TokenType>, id: usize, from: usize) -> (r: Option<usize>)
    ensures
        match r {
            Some(k) => spec_find_jumpf(ts@, id, from as int) == Some(k as int) && (k as int)
                < ts@.len(),
            None => spec_find_jumpf(ts@, id, from as int) is None,
        },
{
    let mut j: usize = from;
    while j < ts.len()
        invariant
            spec_find_jumpf(ts@, id, from as int) == spec_find_jumpf(ts@, id, j as int),
        decreases ts@.len() - j,
    {
        if ts[j] == TokenType::Jumpf(id) {
            return Some(j);
        }
        j = j + 1;
    }
    None
}

/// The run of a token sequence from token `pc`, on tape `tape` with
/// the cursor at `cur` and `out` the bytes printed so far. `Some`
/// carries the final tape and the printed bytes; `None` is a run that
/// traps (cursor out of the tape, unmatched loop token, read opcode)
/// or does not finish within `fuel` steps.
pub open spec fn spec_run(
    ts: Seq<TokenType>,
    pc: int,
    tape: Seq<u8>,
    cur: int,
    out: Seq<u8>,
    fuel: nat,
) -> Option<(Seq<u8>, Seq<u8>)>
    decreases fuel,
{
    if pc < 0 || pc >= ts.len() {
        Some((tape, out))
    } else if fuel == 0 {
        None
    } else {
        let f = (fuel - 1) as nat;
        match ts[pc] {
            TokenType::Next(n) => if 0 <= cur && cur + n < tape.len() {
                spec_run(ts, pc + 1, tape, cur + n, out, f)
            } else {
                None
            },
            TokenType::Prev(n) => if cur - n >= 0 {
                spec_run(ts, pc + 1, tape, cur - n, out, f)
            } else {
                None
            },
            TokenType::Inc(n) => if 0 <= cur && cur < tape.len() {
                spec_run(ts, pc + 1, tape.update(cur, cell_add(tape[cur], n as nat)), cur, out, f)
            } else {
                None
            },
            TokenType::Dec(n) => if 0 <= cur && cur < tape.len() {
                spec_run(ts, pc + 1, tape.update(cur, cell_sub(tape[cur], n as nat)), cur, out, f)
            } else {
                None
            },
            TokenType::Print => if 0 <= cur && cur < tape.len() {
                spec_run(ts, pc + 1, tape, cur, out.push(tape[cur]), f)
            } else {
                None
            },
            TokenType::Scan => None,
            TokenType::Jumpf(id) => if 0 <= cur && cur < tape.len() {
                if tape[cur] == 0 {
                    match spec_find_jumpb(ts, id, pc + 1) {
                        Some(k) => spec_run(ts, k + 1, tape, cur, out, f),
                        None => None,
                    }
                } else {
                    spec_run(ts, pc + 1, tape, cur, out, f)
                }
            } else {
                None
            },
            TokenType::Jumpb(id) => if 0 <= cur && cur < tape.len() {
                if tape[cur] != 0 {
                    match spec_find_jumpf(ts, id, 0) {
                        Some(k) => spec_run(ts, k, tape, cur, out, f),
                        None => None,
                    }
                } else {
                    spec_run(ts, pc + 1, tape, cur, out, f)
                }
            } else {
                None
            },
        }
    }
}

fn run_from(
    ts: &Vec<TokenType>,
    pc: usize,
    tape: Vec<u8>,
    cur: usize,
    out: Vec<u8>,
    fuel: usize,
) -> (r: Option<(Vec<u8>, Vec<u8>)>)
    ensures
        match r {
            Some(p) => spec_run(ts@, pc as int, tape@, cur as int, out@, fuel as nat) == Some(
                (p.0@, p.1@),
            ),
            None => spec_run(ts@, pc as int, tape@, cur as int, out@, fuel as nat) is None,
        },
{
    let ghost init = spec_run(ts@, pc as int, tape@, cur as int, out@, fuel as nat);
    let mut pc = pc;
    let mut tape = tape;
    let mut cur = cur;
    let mut out = out;
    let mut fuel = fuel;
    #[verifier::loop_isolation(false)]
    while pc < ts.len()
        invariant
            init == spec_run(ts@, pc as int, tape@, cur as int, out@, fuel as nat),
        decreases fuel,
    {
        if fuel == 0 {
            return None;
        }
        let f: usize = fuel - 1;
        match ts[pc] {
            TokenType::Next(n) => {
                if cur < tape.len() && n < tape.len() - cur {
                    cur = cur + n;
                    pc = pc + 1;
                    fuel = f;
                } else {
                    return None;
                }
            },
            TokenType::Prev(n) => {
                if n <= cur {
                    cur = cur - n;
                    pc = pc + 1;
                    fuel = f;
                } else {
                    return None;
                }
            },
            TokenType::Inc(n) => {
                if cur < tape.len() {
                    let v = cell_add_exec(tape[cur], n);
                    tape.set(cur, v);
                    pc = pc + 1;
                    fuel = f;
                } else {
                    return None;
                }
            },
            TokenType::Dec(n) => {
                if cur < tape.len() {
                    let v = cell_sub_exec(tape[cur], n);
                    tape.set(cur, v);
                    pc = pc + 1;
                    fuel = f;
                } else {
                    return None;
                }
            },
            TokenType::Print => {
                if cur < tape.len() {
                    out.push(tape[cur]);
                    pc = pc + 1;
                    fuel = f;
                } else {
                    return None;
                }
            },
            TokenType::Scan => {
                return None;
            },
            TokenType::Jumpf(id) => {
                if cur < tape.len() {
                    if tape[cur] == 0 {
                        match find_jumpb(ts, id, pc + 1) {
                            Some(k) => {
                                pc = k + 1;
                                fuel = f;
                            },
                            None => {
                                return None;
                            },
                        }
                    } else {
                        pc = pc + 1;
                        fuel = f;
                    }
                } else {
                    return None;
                }
            },
            TokenType::Jumpb(id) => {
                if cur < tape.len() {
                    if tape[cur] != 0 {
                        match find_jumpf(ts, id, 0) {
                            Some(k) => {
                                pc = k;
                                fuel = f;
                            },
                            None => {
                                return None;
                            },
                        }
                    } else {
                        pc = pc + 1;
                        fuel = f;
                    }
                } else {
                    return None;
                }
            },
        }
    }
    Some((tape, out))
}

/// Runs a token sequence on a fresh zero tape with the cursor at the
/// first cell, within a budget of `fuel` steps. `Some` carries the
/// final tape and the printed bytes in order; `None` is a run that
/// traps or does not finish within the budget.
pub fn run(tokens: &Vec<TokenType>, fuel: usize) -> (r: Option<(Vec<u8>, Vec<u8>)>)
    ensures
        match r {
            Some(p) => spec_run(tokens@, 0, zero_tape(), 0, Seq::empty(), fuel as nat) == Some(
                (p.0@, p.1@),
            ),
            None => spec_run(tokens@, 0, zero_tape(), 0, Seq::empty(), fuel as nat) is None,
        },
{
    let mut tape: Vec<u8> = Vec::new();
    while tape.len() < TAPE_LEN
        invariant
            tape@ =~= Seq::new(tape@.len(), |i: int| 0u8),
            tape@.len() <= TAPE_LEN as nat,
        decreases TAPE_LEN - tape.len(),
    {
        tape.push(0u8);
        proof {
            assert(tape@ =~= Seq::new(tape@.len(), |i: int| 0u8));
        }
    }
    proof {
        assert(tape@ =~= zero_tape());
    }
    let out: Vec<u8> = Vec::new();
    run_from(tokens, 0, tape, 0, out, fuel)
}

/// A source text with no opcode characters compiles to a program that
/// does nothing: it tokenizes to no tokens, and a run of no tokens
/// returns at once, whatever the step budget, with the tape untouched
/// and nothing printed.
pub proof fn lemma_empty_program_no_effects(src: Seq<u8>, tape: Seq<u8>, fuel: nat)
    requires
        opcodes_of(src) == Seq::<u8>::empty(),
    ensures
        spec_tokenize(src) == Some(Seq::<TokenType>::empty()),
        spec_run(Seq::<TokenType>::empty(), 0, tape, 0, Seq::<u8>::empty(), fuel) == Some(
            (tape, Seq::<u8>::empty()),
        ),
{
    lemma_tokenize_no_opcodes(src, 0, 0, Seq::empty());
}

/// Spinning in a loop whose cell stays nonzero consumes any budget:
/// from the loop-enter of `+[]`'s tokens with a nonzero test cell, no
/// amount of fuel reaches a result.
proof fn lemma_spin(ts: Seq<TokenType>, tape: Seq<u8>, cur: int, out: Seq<u8>, fuel: nat)
    requires
        ts == seq![TokenType::Inc(1), TokenType::Jumpf(0), TokenType::Jumpb(0)],
        0 <= cur < tape.len(),
        tape[cur] != 0,
    ensures
        spec_run(ts, 1, tape, cur, out, fuel) is None,
    decreases fuel,
{
    if fuel == 0 {
    } else {
        assert(ts[1] == TokenType::Jumpf(0));
        assert(spec_run(ts, 1, tape, cur, out, fuel) == spec_run(
            ts,
            2,
            tape,
            cur,
            out,
            (fuel - 1) as nat,
        ));
        if fuel == 1 {
            assert(spec_run(ts, 2, tape, cur, out, 0) is None);
        } else {
            assert(ts[0] != TokenType::Jumpf(0));
            assert(spec_find_jumpf(ts, 0, 1) == Some(1int));
            assert(spec_find_jumpf(ts, 0, 0) == Some(1int));
            assert(spec_run(ts, 2, tape, cur, out, (fuel - 1) as nat) == spec_run(
                ts,
                1,
                tape,
                cur,
                out,
                (fuel - 2) as nat,
            ));
            lemma_spin(ts, tape, cur, out, (fuel - 2) as nat);
        }
    }
}

/// A loop whose body never clears the test cell compiles but never
/// returns: on the tokens of a source in the shape of `+[]`, a run
/// reaches no result whatever the step budget. The behaviour is
/// intended, so no iteration cap belongs in the semantics.
pub proof fn lemma_unclearable_loop_never_returns(fuel: nat)
    ensures
        spec_run(
            seq![TokenType::Inc(1), TokenType::Jumpf(0), TokenType::Jumpb(0)],
            0,
            zero_tape(),
            0,
            Seq::empty(),
            fuel,
        ) is None,
{
    let ts = seq![TokenType::Inc(1), TokenType::Jumpf(0), TokenType::Jumpb(0)];
    if fuel != 0 {
        let tape1 = zero_tape().update(0, cell_add(zero_tape()[0], 1));
        assert(zero_tape()[0] == 0);
        assert(cell_add(0, 1) == 1);
        assert(tape1[0] == 1);
        assert(spec_run(ts, 0, zero_tape(), 0, Seq::empty(), fuel) == spec_run(
            ts,
            1,
            tape1,
            0,
            Seq::empty(),
            (fuel - 1) as nat,
        ));
        lemma_spin(ts, tape1, 0, Seq::empty(), (fuel - 1) as nat);
    }
}

} // verus!
