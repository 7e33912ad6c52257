use bfjit::codegen::Codegen;
use bfjit::codegen::generate;
use bfjit::numfmt::dec_string;
use bfjit::tokenizer::tokenize;

#[test]
fn decimal_rendering_is_exact() {
    assert_eq!(dec_string(0), "0");
    assert_eq!(dec_string(7), "7");
    assert_eq!(dec_string(10), "10");
    assert_eq!(dec_string(255), "255");
    assert_eq!(dec_string(12345), "12345");
    assert_eq!(dec_string(usize::MAX), "18446744073709551615");
}

#[test]
fn a_fresh_generator_holds_the_header() {
    let cg = Codegen::new(1234);
    assert_eq!(cg.code, "[bits 64]\n");
}

#[test]
fn setup_emits_the_prologue() {
    let mut cg = Codegen::new(0);
    cg.setup();
    assert_eq!(
        cg.code,
        "[bits 64]\nsetup:\npush r14\npush r15\nxor r14, r14\nmov r15, rdi\n"
    );
}

#[test]
fn cleanup_emits_the_epilogue() {
    let mut cg = Codegen::new(0);
    cg.cleanup();
    assert_eq!(cg.code, "[bits 64]\ncleanup:\npop r15\npop r14\nxor rax, rax\nret");
}

#[test]
fn next_and_prev_move_the_cursor_register() {
    let mut cg = Codegen::new(0);
    cg.next(5);
    cg.prev(2);
    assert_eq!(cg.code, "[bits 64]\nadd r14, 5\nsub r14, 2\n");
}

#[test]
fn inc_and_dec_touch_the_current_cell() {
    let mut cg = Codegen::new(0);
    cg.inc(3);
    cg.dec(12);
    assert_eq!(
        cg.code,
        "[bits 64]\nadd byte [r15 + r14], 3\nsub byte [r15 + r14], 12\n"
    );
}

#[test]
fn loop_tokens_emit_matching_labels() {
    let mut cg = Codegen::new(0);
    cg.jumpf(7);
    cg.jumpb(7);
    assert_eq!(
        cg.code,
        "[bits 64]\n.start_7:\ncmp byte [r15 + r14], 0x0\nje .end_7\n\
         cmp byte [r15 + r14], 0x0\njne .start_7\n.end_7:\n"
    );
}

#[test]
fn print_embeds_the_resolved_address() {
    let mut cg = Codegen::new(4660);
    cg.print();
    assert_eq!(
        cg.code,
        "[bits 64]\nmovzx edi, byte [r15 + r14]\nmov rax, 4660\ncall rax\n"
    );
}

#[test]
fn generate_lowers_a_whole_program() {
    let tokens = tokenize(b"+.").unwrap();
    let code = generate(&tokens, 4660);
    assert_eq!(
        code,
        "[bits 64]\n\
         setup:\npush r14\npush r15\nxor r14, r14\nmov r15, rdi\n\
         add byte [r15 + r14], 1\n\
         movzx edi, byte [r15 + r14]\nmov rax, 4660\ncall rax\n\
         cleanup:\npop r15\npop r14\nxor rax, rax\nret"
    );
}

#[test]
fn a_source_without_opcodes_lowers_to_prologue_and_epilogue() {
    let tokens = tokenize(b"no opcode here").unwrap();
    assert!(tokens.is_empty());
    let code = generate(&tokens, 99);
    assert_eq!(
        code,
        "[bits 64]\n\
         setup:\npush r14\npush r15\nxor r14, r14\nmov r15, rdi\n\
         cleanup:\npop r15\npop r14\nxor rax, rax\nret"
    );
}

#[test]
fn generation_is_deterministic() {
    let src = b"++++[>++<-]>.";
    let t1 = tokenize(src).unwrap();
    let t2 = tokenize(src).unwrap();
    let c1 = generate(&t1, 777);
    let c2 = generate(&t2, 777);
    assert_eq!(c1.as_bytes(), c2.as_bytes());
}

#[test]
fn a_loop_that_never_clears_its_cell_still_compiles() {
    let tokens = tokenize(b"+[]").unwrap();
    let code = generate(&tokens, 1);
    assert!(code.contains(".start_0:"));
    assert!(code.contains(".end_0:"));
}
