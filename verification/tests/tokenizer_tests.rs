use bfjit::error::BfError;
use bfjit::token::TokenType;
use bfjit::tokenizer::tokenize;

#[test]
fn empty_source_has_no_tokens() {
    assert_eq!(tokenize(b"").unwrap(), vec![]);
}

#[test]
fn counted_opcodes_collapse_into_runs() {
    let tokens = tokenize(b"+++>><----").unwrap();
    assert_eq!(
        tokens,
        vec![
            TokenType::Inc(3),
            TokenType::Next(2),
            TokenType::Prev(1),
            TokenType::Dec(4),
        ]
    );
}

#[test]
fn print_and_scan_stay_unit_tokens() {
    let tokens = tokenize(b"..,").unwrap();
    assert_eq!(
        tokens,
        vec![TokenType::Print, TokenType::Print, TokenType::Scan]
    );
}

#[test]
fn comment_bytes_are_ignored() {
    let tokens = tokenize(b"a +b\n+ c#+!").unwrap();
    assert_eq!(tokens, vec![TokenType::Inc(1), TokenType::Inc(1), TokenType::Inc(1)]);
}

#[test]
fn comment_bytes_split_runs() {
    let tokens = tokenize(b"++ ++").unwrap();
    assert_eq!(tokens, vec![TokenType::Inc(2), TokenType::Inc(2)]);
}

#[test]
fn loop_ids_follow_a_stack_discipline() {
    let tokens = tokenize(b"[[][]]").unwrap();
    assert_eq!(
        tokens,
        vec![
            TokenType::Jumpf(0),
            TokenType::Jumpf(1),
            TokenType::Jumpb(1),
            TokenType::Jumpf(2),
            TokenType::Jumpb(2),
            TokenType::Jumpb(0),
        ]
    );
}

#[test]
fn nested_loop_pairs_share_an_id() {
    let tokens = tokenize(b"+[->[-]<]").unwrap();
    assert_eq!(
        tokens,
        vec![
            TokenType::Inc(1),
            TokenType::Jumpf(0),
            TokenType::Dec(1),
            TokenType::Next(1),
            TokenType::Jumpf(1),
            TokenType::Dec(1),
            TokenType::Jumpb(1),
            TokenType::Prev(1),
            TokenType::Jumpb(0),
        ]
    );
}

#[test]
fn extra_loop_exit_is_a_parse_error() {
    assert_eq!(tokenize(b"]"), Err(BfError::ParseError));
}

#[test]
fn extra_loop_exit_after_ops_is_a_parse_error() {
    assert_eq!(tokenize(b"+]+"), Err(BfError::ParseError));
    assert_eq!(tokenize(b"[]]"), Err(BfError::ParseError));
}

#[test]
fn unclosed_loop_enter_still_tokenizes() {
    let tokens = tokenize(b"[").unwrap();
    assert_eq!(tokens, vec![TokenType::Jumpf(0)]);
}

#[test]
fn tokenizing_twice_gives_identical_tokens() {
    let src = b"++[->++<]>.";
    assert_eq!(tokenize(src).unwrap(), tokenize(src).unwrap());
}

#[test]
fn expanding_runs_reproduces_the_opcode_characters() {
    let src = b"++x+[->>>+<]...,";
    let tokens = tokenize(src).unwrap();
    let mut expanded: Vec<u8> = Vec::new();
    for t in &tokens {
        match t {
            TokenType::Inc(n) => expanded.extend(std::iter::repeat(b'+').take(*n)),
            TokenType::Dec(n) => expanded.extend(std::iter::repeat(b'-').take(*n)),
            TokenType::Next(n) => expanded.extend(std::iter::repeat(b'>').take(*n)),
            TokenType::Prev(n) => expanded.extend(std::iter::repeat(b'<').take(*n)),
            TokenType::Print => expanded.push(b'.'),
            TokenType::Scan => expanded.push(b','),
            TokenType::Jumpf(_) => expanded.push(b'['),
            TokenType::Jumpb(_) => expanded.push(b']'),
        }
    }
    let opcodes: Vec<u8> = src
        .iter()
        .copied()
        .filter(|b| b"+-><.,[]".contains(b))
        .collect();
    assert_eq!(expanded, opcodes);
}

#[test]
fn error_messages_name_the_failure() {
    assert_eq!(BfError::ParseError.message(), "unbalanced loop markers");
    assert_eq!(BfError::AssemblyFailed.message(), "external assembler failed");
    assert_eq!(BfError::IOError.message(), "file read or write failed");
    assert_eq!(
        BfError::AllocationFailed.message(),
        "executable memory allocation failed"
    );
}
