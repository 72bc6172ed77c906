//! End-to-end tests: each source program is lexed, parsed and generated,
//! and the emitted instructions are run on the library's stack-machine
//! interpreter.

use minicc::ast::ASTBuilder;
use minicc::machine::run_program;
use minicc::tokenize::Tokenizer;
use minicc::CompileError;
use minicc::compile;

fn run_src(src: &str) -> Option<i64> {
    let tokenizer = Tokenizer::new();
    let tokens = tokenizer.tokenize(String::from(src)).expect("lexing failed");
    let mut builder = ASTBuilder::new(tokens);
    let stmts = builder.parse().expect("parsing failed");
    let code = builder.gen_program(&stmts).expect("generation failed");
    run_program(&code)
}

#[test]
fn literal_program_evaluates_to_itself() {
    assert_eq!(run_src("42;"), Some(42));
    assert_eq!(run_src("0;"), Some(0));
    assert_eq!(run_src("9223372036854775807;"), Some(i64::MAX));
}

#[test]
fn precedence_mul_before_add() {
    assert_eq!(run_src("1+2*3;"), Some(7));
}

#[test]
fn parentheses_override_precedence() {
    assert_eq!(run_src("(1+2)*3;"), Some(9));
}

#[test]
fn left_to_right_associativity() {
    assert_eq!(run_src("10-2-3;"), Some(5));
}

#[test]
fn unary_minus() {
    assert_eq!(run_src("-3+8;"), Some(5));
}

#[test]
fn comparisons_yield_zero_or_one() {
    assert_eq!(run_src("1<2;"), Some(1));
    assert_eq!(run_src("2<=2;"), Some(1));
    assert_eq!(run_src("3==4;"), Some(0));
    assert_eq!(run_src("3!=4;"), Some(1));
}

#[test]
fn greater_than_swaps_operands() {
    assert_eq!(run_src("2>1;"), Some(1));
    assert_eq!(run_src("1>=2;"), Some(0));
    assert_eq!(run_src("2>=2;"), Some(1));
}

#[test]
fn assignment_persists_across_statements() {
    assert_eq!(run_src("a=3; b=a+2; return b;"), Some(5));
}

#[test]
fn assignment_is_value_producing() {
    assert_eq!(run_src("a=b=5; return a+b;"), Some(10));
}

#[test]
fn distinct_identifiers_never_alias() {
    assert_eq!(run_src("a=1; b=2; a=9; return b;"), Some(2));
    assert_eq!(run_src("a=1; b=2; b=9; return a;"), Some(1));
}

#[test]
fn division_truncates_toward_zero() {
    assert_eq!(run_src("7/2;"), Some(3));
    assert_eq!(run_src("-7/2;"), Some(-3));
    assert_eq!(run_src("7/-2;"), Some(-3));
}

#[test]
fn return_exits_early() {
    assert_eq!(run_src("return 3; 4;"), Some(3));
}

#[test]
fn last_statement_value_is_the_result() {
    assert_eq!(run_src("1; 2; 3;"), Some(3));
}

#[test]
fn division_by_zero_is_undefined() {
    assert_eq!(run_src("1/0;"), None);
}

#[test]
fn reading_an_unassigned_variable_is_undefined() {
    assert_eq!(run_src("a;"), None);
}

#[test]
fn malformed_inputs_abort_without_output() {
    assert!(compile("1+;").is_err());
    assert!(compile("(1+2").is_err());
    assert!(compile("@").is_err());
}

#[test]
fn lexical_error_reports_column() {
    assert_eq!(
        compile("1 + @"),
        Err(CompileError::Lexical { column: 4, found: '@' })
    );
}

#[test]
fn syntax_error_reports_token_index() {
    assert_eq!(compile("1+;"), Err(CompileError::Syntax { at: 2 }));
}

#[test]
fn assignment_to_non_lvalue_is_rejected() {
    assert_eq!(compile("1=2;"), Err(CompileError::NotAddressable));
}

#[test]
fn oversized_literal_is_rejected() {
    assert!(compile("9223372036854775808;").is_err());
}

#[test]
fn identical_input_gives_byte_identical_assembly() {
    let first = compile("a=3; b=a+2; return b;").expect("compilation failed");
    let second = compile("a=3; b=a+2; return b;").expect("compilation failed");
    assert_eq!(first, second);
}

#[test]
fn exact_assembly_for_a_literal() {
    let text = compile("42;").expect("compilation failed");
    let expected = ".intel_syntax noprefix\n\
                    .globl main\n\
                    main:\n\
                    \x20 push rbp\n\
                    \x20 mov rbp, rsp\n\
                    \x20 sub rsp, 208\n\
                    \x20 push 42\n\
                    \x20 pop rax\n\
                    \x20 mov rsp, rbp\n\
                    \x20 pop rbp\n\
                    \x20 ret\n";
    assert_eq!(text, expected);
}

#[test]
fn empty_program_returns_the_cleared_accumulator() {
    assert_eq!(run_src(""), Some(0));
}
