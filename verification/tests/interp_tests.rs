use bfjit::error::BfError;
use bfjit::interp::run;
use bfjit::interp::TAPE_LEN;
use bfjit::tokenizer::tokenize;

#[test]
fn sixty_five_is_printed_exactly_once() {
    let tokens = tokenize(b"++++++++[>++++++++<-]>+.").unwrap();
    let (tape, out) = run(&tokens, 100_000).unwrap();
    assert_eq!(out, vec![65]);
    assert_eq!(tape[1], 65);
}

#[test]
fn three_then_zero_are_printed_in_order() {
    let tokens = tokenize(b"+++.---.").unwrap();
    let (tape, out) = run(&tokens, 100_000).unwrap();
    assert_eq!(out, vec![3, 0]);
    assert_eq!(tape[0], 0);
}

#[test]
fn a_lone_loop_exit_never_reaches_compilation() {
    let r = tokenize(b"]");
    assert_eq!(r, Err(BfError::ParseError));
}

#[test]
fn a_loop_that_never_clears_its_cell_never_finishes() {
    let tokens = tokenize(b"+[]").unwrap();
    assert_eq!(run(&tokens, 10), None);
    assert_eq!(run(&tokens, 100_000), None);
}

#[test]
fn no_opcodes_means_no_effects() {
    let tokens = tokenize(b"hello there! just a comment\n").unwrap();
    let (tape, out) = run(&tokens, 0).unwrap();
    assert!(out.is_empty());
    assert_eq!(tape.len(), TAPE_LEN);
    assert!(tape.iter().all(|&c| c == 0));
}

#[test]
fn cells_wrap_around_one_byte() {
    let tokens = tokenize(b"-.").unwrap();
    let (_, out) = run(&tokens, 1000).unwrap();
    assert_eq!(out, vec![255]);

    let src: Vec<u8> = std::iter::repeat(b'+').take(256).chain([b'.']).collect();
    let tokens = tokenize(&src).unwrap();
    let (_, out) = run(&tokens, 1000).unwrap();
    assert_eq!(out, vec![0]);
}

#[test]
fn the_cursor_may_not_leave_the_tape() {
    let tokens = tokenize(b"<").unwrap();
    assert_eq!(run(&tokens, 1000), None);

    let src: Vec<u8> = std::iter::repeat(b'>').take(TAPE_LEN).collect();
    let tokens = tokenize(&src).unwrap();
    assert_eq!(run(&tokens, 1000), None);
}

#[test]
fn the_read_opcode_is_not_implemented() {
    let tokens = tokenize(b",").unwrap();
    assert_eq!(run(&tokens, 1000), None);
}

#[test]
fn runs_collapse_to_single_steps() {
    let tokens = tokenize(b">>>+++++.").unwrap();
    let (tape, out) = run(&tokens, 1000).unwrap();
    assert_eq!(out, vec![5]);
    assert_eq!(tape[3], 5);
    assert_eq!(tape[0], 0);
}
