//! The run-length tokenizer.
//!
//! One left-to-right scan over the source bytes. Comment bytes are
//! skipped; a run of identical counted opcodes becomes one token
//! carrying the run length; loop-enter characters push a fresh loop id
//! on a stack and loop-exit characters pop it, so that matching loop
//! tokens carry the same id. Popping an empty stack is the sole error.

use vstd::prelude::*;

use crate::error::BfError;
use crate::token::TokenType;
use crate::token::expand_tokens;
use crate::token::is_opcode;
use crate::token::opcodes_from;
use crate::token::opcodes_of;
use crate::token::rep_byte;
use crate::token::token_chars;

verus! {

/// Whether a byte is one of the four run-length counted opcodes.
pub open spec fn is_counted(b: u8) -> bool {
    b == '+' as u8 || b == '-' as u8 || b == '>' as u8 || b == '<' as u8
}

/// The token for a run of `n` copies of the counted opcode `b`.
pub open spec fn counted_token(b: u8, n: usize) -> TokenType {
    if b == '+' as u8 {
        TokenType::Inc(n)
    } else if b == '-' as u8 {
        TokenType::Dec(n)
    } else if b == '>' as u8 {
        TokenType::Next(n)
    } else {
        TokenType::Prev(n)
    }
}

/// The length of the run of copies of `b` that starts at `i`.
pub open spec fn run_len(src: Seq<u8>, i: int, b: u8) -> nat
    decreases src.len() - i,
{
    if 0 <= i && i < src.len() && src[i] == b {
        1 + run_len(src, i + 1, b)
    } else {
        0
    }
}

/// A run is exactly as long as the stretch of copies of `b` before the
/// first differing byte (or the end of the text).
pub proof fn lemma_run_len_exact(src: Seq<u8>, i: int, count: int, b: u8)
    requires
        0 <= i,
        1 <= count,
        i + count <= src.len(),
        forall|k: int| i <= k < i + count ==> src[k] == b,
        i + count == src.len() || src[i + count] != b,
    ensures
        run_len(src, i, b) == count,
    decreases count,
{
    if count == 1 {
        assert(run_len(src, i + 1, b) == 0);
    } else {
        lemma_run_len_exact(src, i + 1, count - 1, b);
    }
}

/// A run never reaches past the end of the text.
pub proof fn lemma_run_len_le(src: Seq<u8>, i: int, b: u8)
    requires
        0 <= i <= src.len(),
    ensures
        run_len(src, i, b) <= src.len() - i,
    decreases src.len() - i,
{
    if i < src.len() && src[i] == b {
        lemma_run_len_le(src, i + 1, b);
    }
}

/// The tokenization of `src` from index `i` on, with `next_id` the
/// next fresh loop id and `stack` the ids of the loops still open.
/// `None` is the parse error: a loop-exit with the stack empty.
/// A loop left open at the end of the text is not an error here; the
/// external assembler rejects its unresolved end label instead.
pub open spec fn spec_tokenize_from(src: Seq<u8>, i: int, next_id: int, stack: Seq<int>) -> Option<
    Seq<TokenType>,
>
    decreases src.len() - i,
    via spec_tokenize_from_dec
{
    if i < 0 || i >= src.len() {
        Some(Seq::empty())
    } else {
        let b = src[i];
        if is_counted(b) {
            let n = 1 + run_len(src, i + 1, b);
            match spec_tokenize_from(src, i + n, next_id, stack) {
                Some(rest) => Some(seq![counted_token(b, n as usize)] + rest),
                None => None,
            }
        } else if b == '.' as u8 {
            match spec_tokenize_from(src, i + 1, next_id, stack) {
                Some(rest) => Some(seq![TokenType::Print] + rest),
                None => None,
            }
        } else if b == ',' as u8 {
            match spec_tokenize_from(src, i + 1, next_id, stack) {
                Some(rest) => Some(seq![TokenType::Scan] + rest),
                None => None,
            }
        } else if b == '[' as u8 {
            match spec_tokenize_from(src, i + 1, next_id + 1, stack.push(next_id)) {
                Some(rest) => Some(seq![TokenType::Jumpf(next_id as usize)] + rest),
                None => None,
            }
        } else if b == ']' as u8 {
            if stack.len() == 0 {
                None
            } else {
                match spec_tokenize_from(src, i + 1, next_id, stack.drop_last()) {
                    Some(rest) => Some(seq![TokenType::Jumpb(stack.last() as usize)] + rest),
                    None => None,
                }
            }
        } else {
            spec_tokenize_from(src, i + 1, next_id, stack)
        }
    }
}

#[via_fn]
proof fn spec_tokenize_from_dec(src: Seq<u8>, i: int, next_id: int, stack: Seq<int>) {
    if 0 <= i && i < src.len() && is_counted(src[i]) {
        lemma_run_len_le(src, i + 1, src[i]);
    }
}

/// The tokenization of a whole source text.
pub open spec fn spec_tokenize(src: Seq<u8>) -> Option<Seq<TokenType>> {
    spec_tokenize_from(src, 0, 0, Seq::empty())
}

/// Prepends already-emitted tokens to the tokenization of the rest.
pub open spec fn with_prefix(pre: Seq<TokenType>, rest: Option<Seq<TokenType>>) -> Option<
    Seq<TokenType>,
> {
    match rest {
        Some(ts) => Some(pre + ts),
        None => None,
    }
}

/// Tokenizes a source text.
///
/// Succeeds with exactly the token sequence that `spec_tokenize`
/// describes; fails with `ParseError` exactly when a loop-exit
/// character has no matching loop-enter, and then emits no tokens.
pub fn tokenize(src: &[u8]) -> (r: Result<Vec<TokenType>, BfError>)
    ensures
        match r {
            Ok(tokens) => spec_tokenize(src@) == Some(tokens@),
            Err(e) => spec_tokenize(src@) is None && e == BfError::ParseError,
        },
{
    let mut tokens: Vec<TokenType> = Vec::new();
    let mut stack: Vec<usize> = Vec::new();
    let mut next_id: usize = 0;
    let mut i: usize = 0;
    proof {
        assert(stack@.map_values(|x: usize| x as int) =~= Seq::<int>::empty());
        match spec_tokenize(src@) {
            Some(ts) => {
                assert(Seq::<TokenType>::empty() + ts =~= ts);
            },
            None => {},
        }
    }
    while i < src.len()
        invariant
            i <= src.len(),
            next_id <= i,
            stack@.len() <= i,
            spec_tokenize(src@) == with_prefix(
                tokens@,
                spec_tokenize_from(
                    src@,
                    i as int,
                    next_id as int,
                    stack@.map_values(|x: usize| x as int),
                ),
            ),
        decreases src.len() - i,
    {
        let ghost gstack = stack@.map_values(|x: usize| x as int);
        let ghost pre = tokens@;
        let b = src[i];
        if b == '+' as u8 || b == '-' as u8 || b == '>' as u8 || b == '<' as u8 {
            let mut count: usize = 1;
            while i + count < src.len() && src[i + count] == b
                invariant
                    1 <= count,
                    i + count <= src.len(),
                    i < src.len(),
                    forall|k: int| i <= k < i + count ==> src@[k] == b,
                decreases src.len() - i - count,
            {
                count = count + 1;
            }
            proof {
                lemma_run_len_exact(src@, i as int, count as int, b);
            }
            let tok = if b == '+' as u8 {
                TokenType::Inc(count)
            } else if b == '-' as u8 {
                TokenType::Dec(count)
            } else if b == '>' as u8 {
                TokenType::Next(count)
            } else {
                TokenType::Prev(count)
            };
            tokens.push(tok);
            i = i + count;
            proof {
                assert(tok == counted_token(b, count));
                let rest = spec_tokenize_from(src@, i as int, next_id as int, gstack);
                if rest is Some {
                    assert(pre + (seq![tok] + rest->Some_0) =~= tokens@ + rest->Some_0);
                }
            }
        } else if b == '.' as u8 {
            tokens.push(TokenType::Print);
            i = i + 1;
            proof {
                let rest = spec_tokenize_from(src@, i as int, next_id as int, gstack);
                if rest is Some {
                    assert(pre + (seq![TokenType::Print] + rest->Some_0) =~= tokens@
                        + rest->Some_0);
                }
            }
        } else if b == ',' as u8 {
            tokens.push(TokenType::Scan);
            i = i + 1;
            proof {
                let rest = spec_tokenize_from(src@, i as int, next_id as int, gstack);
                if rest is Some {
                    assert(pre + (seq![TokenType::Scan] + rest->Some_0) =~= tokens@
                        + rest->Some_0);
                }
            }
        } else if b == '[' as u8 {
            let ghost nid0 = next_id as int;
            stack.push(next_id);
            tokens.push(TokenType::Jumpf(next_id));
            next_id = next_id + 1;
            i = i + 1;
            proof {
                assert(stack@.map_values(|x: usize| x as int) =~= gstack.push(nid0));
                let rest = spec_tokenize_from(src@, i as int, next_id as int, gstack.push(nid0));
                if rest is Some {
                    assert(pre + (seq![TokenType::Jumpf(nid0 as usize)] + rest->Some_0) =~= tokens@
                        + rest->Some_0);
                }
            }
        } else if b == ']' as u8 {
            let popped = stack.pop();
            match popped {
                Some(id) => {
                    tokens.push(TokenType::Jumpb(id));
                    i = i + 1;
                    proof {
                        assert(gstack.len() > 0);
                        assert(gstack.last() == id as int);
                        assert(stack@.map_values(|x: usize| x as int) =~= gstack.drop_last());
                        let rest = spec_tokenize_from(
                            src@,
                            i as int,
                            next_id as int,
                            gstack.drop_last(),
                        );
                        if rest is Some {
                            assert(pre + (seq![TokenType::Jumpb(id)] + rest->Some_0) =~= tokens@
                                + rest->Some_0);
                        }
                    }
                },
                None => {
                    return Err(BfError::ParseError);
                },
            }
        } else {
            i = i + 1;
        }
    }
    proof {
        assert(tokens@ + Seq::<TokenType>::empty() =~= tokens@);
    }
    Ok(tokens)
}

/// Expanding a token prepended to a sequence prepends its characters.
proof fn lemma_expand_cons(t: TokenType, ts: Seq<TokenType>)
    ensures
        expand_tokens(seq![t] + ts) == token_chars(t) + expand_tokens(ts),
{
    assert((seq![t] + ts)[0] == t);
    assert((seq![t] + ts).skip(1) =~= ts);
}

/// The opcode characters from `i` start with the whole run at `i`.
proof fn lemma_opcodes_run(src: Seq<u8>, i: int, b: u8)
    requires
        0 <= i <= src.len(),
        is_opcode(b),
    ensures
        opcodes_from(src, i) == rep_byte(b, run_len(src, i, b)) + opcodes_from(
            src,
            i + run_len(src, i, b),
        ),
    decreases src.len() - i,
{
    if i < src.len() && src[i] == b {
        lemma_opcodes_run(src, i + 1, b);
        let k = run_len(src, i + 1, b);
        assert(rep_byte(b, (1 + k) as nat) == seq![b] + rep_byte(b, k));
        assert(seq![b] + (rep_byte(b, k) + opcodes_from(src, i + 1 + k)) =~= (seq![b] + rep_byte(
            b,
            k,
        )) + opcodes_from(src, i + 1 + k));
    } else {
        assert(run_len(src, i, b) == 0);
        assert(rep_byte(b, 0) + opcodes_from(src, i) =~= opcodes_from(src, i));
    }
}

/// Expanding what tokenization emits from `i` on yields exactly the
/// opcode characters from `i` on.
proof fn lemma_expand_from(src: Seq<u8>, i: int, next_id: int, stack: Seq<int>)
    requires
        0 <= i <= src.len(),
        src.len() <= usize::MAX,
        spec_tokenize_from(src, i, next_id, stack) is Some,
    ensures
        expand_tokens(spec_tokenize_from(src, i, next_id, stack)->Some_0) == opcodes_from(src, i),
    decreases src.len() - i,
{
    if i >= src.len() {
    } else {
        let b = src[i];
        if is_counted(b) {
            let n = 1 + run_len(src, i + 1, b);
            lemma_run_len_le(src, i + 1, b);
            assert(run_len(src, i, b) == n);
            let rest = spec_tokenize_from(src, i + n, next_id, stack)->Some_0;
            lemma_expand_from(src, i + n, next_id, stack);
            lemma_expand_cons(counted_token(b, n as usize), rest);
            assert(n <= src.len());
            assert(token_chars(counted_token(b, n as usize)) == rep_byte(b, n as nat));
            lemma_opcodes_run(src, i, b);
        } else if b == '.' as u8 {
            let rest = spec_tokenize_from(src, i + 1, next_id, stack)->Some_0;
            lemma_expand_from(src, i + 1, next_id, stack);
            lemma_expand_cons(TokenType::Print, rest);
        } else if b == ',' as u8 {
            let rest = spec_tokenize_from(src, i + 1, next_id, stack)->Some_0;
            lemma_expand_from(src, i + 1, next_id, stack);
            lemma_expand_cons(TokenType::Scan, rest);
        } else if b == '[' as u8 {
            let rest = spec_tokenize_from(src, i + 1, next_id + 1, stack.push(next_id))->Some_0;
            lemma_expand_from(src, i + 1, next_id + 1, stack.push(next_id));
            lemma_expand_cons(TokenType::Jumpf(next_id as usize), rest);
        } else if b == ']' as u8 {
            let rest = spec_tokenize_from(src, i + 1, next_id, stack.drop_last())->Some_0;
            lemma_expand_from(src, i + 1, next_id, stack.drop_last());
            lemma_expand_cons(TokenType::Jumpb(stack.last() as usize), rest);
        } else {
            lemma_expand_from(src, i + 1, next_id, stack);
        }
    }
}

/// Round trip between the fast and the naive model of a source text:
/// expanding every run-length counted token of a successful
/// tokenization back into its unit opcodes reproduces exactly the
/// opcode characters of the source, in order, comments dropped.
pub proof fn lemma_tokenize_round_trip(src: Seq<u8>)
    requires
        src.len() <= usize::MAX,
        spec_tokenize(src) is Some,
    ensures
        expand_tokens(spec_tokenize(src)->Some_0) == opcodes_of(src),
{
    lemma_expand_from(src, 0, 0, Seq::empty());
}

/// Whether the loop tokens of `ts` obey the stack discipline, with
/// `stack` the ids of the loops open before `ts` and `next` the next
/// fresh id: every loop-enter carries the next fresh id, and every
/// loop-exit carries the id of the innermost open loop, which it
/// closes. Loops left open at the end are permitted.
pub open spec fn ids_obey_stack(ts: Seq<TokenType>, stack: Seq<int>, next: int) -> bool
    decreases ts.len(),
{
    if ts.len() == 0 {
        true
    } else {
        match ts[0] {
            TokenType::Jumpf(id) => id as int == next && ids_obey_stack(
                ts.skip(1),
                stack.push(next),
                next + 1,
            ),
            TokenType::Jumpb(id) => stack.len() > 0 && id as int == stack.last()
                && ids_obey_stack(ts.skip(1), stack.drop_last(), next),
            _ => ids_obey_stack(ts.skip(1), stack, next),
        }
    }
}

/// What tokenization emits obeys the stack discipline of loop ids.
proof fn lemma_ids_from(src: Seq<u8>, i: int, next_id: int, stack: Seq<int>)
    requires
        0 <= i <= src.len(),
        src.len() <= usize::MAX,
        0 <= next_id,
        next_id + src.len() - i <= usize::MAX,
        forall|k: int| 0 <= k < stack.len() ==> 0 <= #[trigger] stack[k] < next_id,
        spec_tokenize_from(src, i, next_id, stack) is Some,
    ensures
        ids_obey_stack(spec_tokenize_from(src, i, next_id, stack)->Some_0, stack, next_id),
    decreases src.len() - i,
{
    if i >= src.len() {
    } else {
        let b = src[i];
        if is_counted(b) {
            let n = 1 + run_len(src, i + 1, b);
            lemma_run_len_le(src, i + 1, b);
            let rest = spec_tokenize_from(src, i + n, next_id, stack)->Some_0;
            lemma_ids_from(src, i + n, next_id, stack);
            assert((seq![counted_token(b, n as usize)] + rest).skip(1) =~= rest);
        } else if b == '.' as u8 {
            let rest = spec_tokenize_from(src, i + 1, next_id, stack)->Some_0;
            lemma_ids_from(src, i + 1, next_id, stack);
            assert((seq![TokenType::Print] + rest).skip(1) =~= rest);
        } else if b == ',' as u8 {
            let rest = spec_tokenize_from(src, i + 1, next_id, stack)->Some_0;
            lemma_ids_from(src, i + 1, next_id, stack);
            assert((seq![TokenType::Scan] + rest).skip(1) =~= rest);
        } else if b == '[' as u8 {
            let rest = spec_tokenize_from(src, i + 1, next_id + 1, stack.push(next_id))->Some_0;
            lemma_ids_from(src, i + 1, next_id + 1, stack.push(next_id));
            assert((seq![TokenType::Jumpf(next_id as usize)] + rest).skip(1) =~= rest);
            assert(next_id as usize as int == next_id);
        } else if b == ']' as u8 {
            let rest = spec_tokenize_from(src, i + 1, next_id, stack.drop_last())->Some_0;
            lemma_ids_from(src, i + 1, next_id, stack.drop_last());
            assert((seq![TokenType::Jumpb(stack.last() as usize)] + rest).skip(1) =~= rest);
            assert(stack.last() as usize as int == stack.last());
        } else {
            lemma_ids_from(src, i + 1, next_id, stack);
        }
    }
}

/// The loop tokens of a successful tokenization pair up by id in a
/// strict stack discipline: each loop-exit closes exactly the
/// innermost open loop-enter with its id, and loop-enter ids count up
/// from zero in order of appearance, so no two loops share an id.
pub proof fn lemma_loop_ids_well_formed(src: Seq<u8>)
    requires
        src.len() <= usize::MAX,
        spec_tokenize(src) is Some,
    ensures
        ids_obey_stack(spec_tokenize(src)->Some_0, Seq::empty(), 0),
{
    lemma_ids_from(src, 0, 0, Seq::empty());
}

/// The number of copies of `b` among the bytes of `src` at indices
/// `i` up to (excluding) `k`.
pub open spec fn count_in(src: Seq<u8>, b: u8, i: int, k: int) -> int
    decreases k - i,
{
    if i >= k {
        0
    } else {
        (if 0 <= i && i < src.len() && src[i] == b {
            1int
        } else {
            0int
        }) + count_in(src, b, i + 1, k)
    }
}

/// Whether some prefix of `src` holds more loop-exit than loop-enter
/// characters: a loop-exit with no matching loop-enter before it.
pub open spec fn unbalanced(src: Seq<u8>) -> bool {
    exists|k: int|
        0 < k <= src.len() && #[trigger] count_in(src, ']' as u8, 0, k) > count_in(
            src,
            '[' as u8,
            0,
            k,
        )
}

/// Whether the loop markers from `i` on stay balanced when `depth`
/// loops are already open.
pub open spec fn scan_ok(src: Seq<u8>, i: int, depth: int) -> bool
    decreases src.len() - i,
{
    if i < 0 || i >= src.len() {
        true
    } else if src[i] == '[' as u8 {
        scan_ok(src, i + 1, depth + 1)
    } else if src[i] == ']' as u8 {
        depth > 0 && scan_ok(src, i + 1, depth - 1)
    } else {
        scan_ok(src, i + 1, depth)
    }
}

/// Every byte of a run is the byte the run starts with.
proof fn lemma_run_len_all(src: Seq<u8>, i: int, b: u8)
    requires
        0 <= i,
    ensures
        forall|j: int| i <= j < i + run_len(src, i, b) ==> src[j] == b,
    decreases src.len() - i,
{
    if i < src.len() && src[i] == b {
        lemma_run_len_all(src, i + 1, b);
    }
}

/// A run of a non-bracket byte does not change the balance scan.
proof fn lemma_scan_skip_run(src: Seq<u8>, i: int, n: int, depth: int)
    requires
        0 <= i,
        0 <= n,
        i + n <= src.len(),
        forall|j: int| i <= j < i + n ==> src[j] == src[i],
        n > 0 ==> src[i] != '[' as u8 && src[i] != ']' as u8,
    ensures
        scan_ok(src, i, depth) == scan_ok(src, i + n, depth),
    decreases n,
{
    if n > 0 {
        assert(n > 1 ==> src[i + 1] == src[i]);
        lemma_scan_skip_run(src, i + 1, n - 1, depth);
    }
}

/// Tokenization succeeds exactly when the balance scan accepts, with
/// the open-loop stack as the scan's depth.
proof fn lemma_tokenize_iff_scan(src: Seq<u8>, i: int, next_id: int, stack: Seq<int>)
    requires
        0 <= i <= src.len(),
    ensures
        (spec_tokenize_from(src, i, next_id, stack) is Some) <==> scan_ok(
            src,
            i,
            stack.len() as int,
        ),
    decreases src.len() - i,
{
    if i >= src.len() {
    } else {
        let b = src[i];
        if is_counted(b) {
            let n = 1 + run_len(src, i + 1, b);
            lemma_run_len_le(src, i + 1, b);
            lemma_run_len_all(src, i, b);
            assert(run_len(src, i, b) == n);
            lemma_scan_skip_run(src, i, n as int, stack.len() as int);
            lemma_tokenize_iff_scan(src, i + n, next_id, stack);
        } else if b == '.' as u8 || b == ',' as u8 {
            lemma_tokenize_iff_scan(src, i + 1, next_id, stack);
        } else if b == '[' as u8 {
            lemma_tokenize_iff_scan(src, i + 1, next_id + 1, stack.push(next_id));
        } else if b == ']' as u8 {
            if stack.len() > 0 {
                lemma_tokenize_iff_scan(src, i + 1, next_id, stack.drop_last());
            }
        } else {
            lemma_tokenize_iff_scan(src, i + 1, next_id, stack);
        }
    }
}

/// The balance scan accepts exactly when no prefix closes more loops
/// than are open.
proof fn lemma_scan_iff_counts(src: Seq<u8>, i: int, depth: int)
    requires
        0 <= i <= src.len(),
        0 <= depth,
    ensures
        scan_ok(src, i, depth) <==> (forall|k: int|
            i < k <= src.len() ==> #[trigger] count_in(src, ']' as u8, i, k) <= depth + count_in(
                src,
                '[' as u8,
                i,
                k,
            )),
    decreases src.len() - i,
{
    if i >= src.len() {
    } else {
        let b = src[i];
        let close = ']' as u8;
        let open = '[' as u8;
        let dc: int = if b == close {
            1
        } else {
            0
        };
        let dop: int = if b == open {
            1
        } else {
            0
        };
        assert forall|k: int| i < k <= src.len() implies count_in(src, close, i, k) == dc
            + count_in(src, close, i + 1, k) && count_in(src, open, i, k) == dop + count_in(
            src,
            open,
            i + 1,
            k,
        ) by {
            assert(count_in(src, close, i, k) == (if 0 <= i && i < src.len() && src[i] == close {
                1int
            } else {
                0int
            }) + count_in(src, close, i + 1, k));
        }
        let depth2: int = depth + dop - dc;
        if b == close && depth == 0 {
            assert(!scan_ok(src, i, depth));
            assert(count_in(src, close, i, i + 1) == 1 && count_in(src, open, i, i + 1) == 0)
                by {
                assert(count_in(src, close, i + 1, i + 1) == 0);
                assert(count_in(src, open, i + 1, i + 1) == 0);
            }
            assert(!(forall|k: int|
                i < k <= src.len() ==> count_in(src, close, i, k) <= depth + count_in(
                    src,
                    open,
                    i,
                    k,
                ))) by {
                assert(count_in(src, close, i, i + 1) > depth + count_in(src, open, i, i + 1));
            }
        } else {
            assert(0 <= depth2);
            lemma_scan_iff_counts(src, i + 1, depth2);
            assert(scan_ok(src, i, depth) == scan_ok(src, i + 1, depth2));
            if scan_ok(src, i, depth) {
                assert forall|k: int|
                    i < k <= src.len() implies count_in(src, close, i, k) <= depth + count_in(
                    src,
                    open,
                    i,
                    k,
                ) by {
                    if k == i + 1 {
                        assert(count_in(src, close, i + 1, k) == 0);
                        assert(count_in(src, open, i + 1, k) == 0);
                    } else {
                        assert(count_in(src, close, i + 1, k) <= depth2 + count_in(
                            src,
                            open,
                            i + 1,
                            k,
                        ));
                    }
                }
            } else {
                let k0 = choose|k: int|
                    i + 1 < k <= src.len() && #[trigger] count_in(src, close, i + 1, k) > depth2
                        + count_in(src, open, i + 1, k);
                assert(count_in(src, close, i, k0) > depth + count_in(src, open, i, k0));
            }
        }
    }
}

/// Tokenization fails exactly on the unbalanced sources: those with a
/// loop-exit character that has more loop-exits than loop-enters
/// before it. In particular a balanced source always tokenizes.
pub proof fn lemma_parse_error_iff_unbalanced(src: Seq<u8>)
    ensures
        (spec_tokenize(src) is None) <==> unbalanced(src),
{
    lemma_tokenize_iff_scan(src, 0, 0, Seq::empty());
    lemma_scan_iff_counts(src, 0, 0);
}

/// A source with no opcode characters from `i` on tokenizes to no
/// tokens, whatever the loop state.
pub proof fn lemma_tokenize_no_opcodes(src: Seq<u8>, i: int, next_id: int, stack: Seq<int>)
    requires
        opcodes_from(src, i) == Seq::<u8>::empty(),
    ensures
        spec_tokenize_from(src, i, next_id, stack) == Some(Seq::<TokenType>::empty()),
    decreases src.len() - i,
{
    if i < 0 || i >= src.len() {
    } else {
        assert(!is_opcode(src[i])) by {
            if is_opcode(src[i]) {
                assert(opcodes_from(src, i) == seq![src[i]] + opcodes_from(src, i + 1));
                assert(opcodes_from(src, i).len() >= 1);
            }
        };
        lemma_tokenize_no_opcodes(src, i + 1, next_id, stack);
    }
}

} // verus!
