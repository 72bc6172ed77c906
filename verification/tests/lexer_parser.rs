//! Unit tests for the lexer, the scanners it builds on, and the shapes
//! the parser produces.

use minicc::ast::{ASTBuilder, Node, NodeKind};
use minicc::tokenize::{Token, TokenKind, Tokenizer};
use minicc::util::{split_alphabets, split_digits, split_var_names, str_eq};
use minicc::CompileError;

#[test]
fn split_digits_takes_the_maximal_run() {
    assert_eq!(split_digits("123abc"), 3);
    assert_eq!(split_digits("abc"), 0);
    assert_eq!(split_digits("42"), 2);
}

#[test]
fn split_alphabets_takes_the_maximal_run() {
    assert_eq!(split_alphabets("abc1"), 3);
    assert_eq!(split_alphabets("1abc"), 0);
}

#[test]
fn split_var_names_accepts_letters_digits_underscore() {
    assert_eq!(split_var_names("a_1+b"), 3);
    assert_eq!(split_var_names("+a"), 0);
}

#[test]
fn str_eq_compares_contents() {
    assert!(str_eq("abc", "abc"));
    assert!(!str_eq("abc", "abd"));
    assert!(!str_eq("abc", "ab"));
}

#[test]
fn tokenize_splits_operators_and_numbers() {
    let tokenizer = Tokenizer::new();
    let tokens = tokenizer.tokenize(String::from("1+2*3;")).expect("lexing failed");
    let texts: Vec<&str> = tokens.iter().map(|t| t.string.as_str()).collect();
    assert_eq!(texts, ["1", "+", "2", "*", "3", ";", "\0"]);
    assert_eq!(tokens[0].kind, TokenKind::NUM);
    assert_eq!(tokens[1].kind, TokenKind::Reserved);
    assert_eq!(tokens[6].kind, TokenKind::EOF);
}

#[test]
fn tokenize_takes_two_char_operators_first() {
    let tokenizer = Tokenizer::new();
    let tokens = tokenizer.tokenize(String::from("a<=b==c")).expect("lexing failed");
    let texts: Vec<&str> = tokens.iter().map(|t| t.string.as_str()).collect();
    assert_eq!(texts, ["a", "<=", "b", "==", "c", "\0"]);
}

#[test]
fn tokenize_skips_whitespace_and_counts_columns() {
    let tokenizer = Tokenizer::new();
    let tokens = tokenizer.tokenize(String::from(" 1 + 2 ")).expect("lexing failed");
    let texts: Vec<&str> = tokens.iter().map(|t| t.string.as_str()).collect();
    assert_eq!(texts, ["1", "+", "2", "\0"]);
    let err = tokenizer.tokenize(String::from("12 $")).unwrap_err();
    assert_eq!(err, CompileError::Lexical { column: 3, found: '$' });
}

#[test]
fn tokenize_promotes_the_return_keyword() {
    let tokenizer = Tokenizer::new();
    let tokens = tokenizer.tokenize(String::from("return returns;")).expect("lexing failed");
    assert_eq!(tokens[0].kind, TokenKind::RETURN);
    assert_eq!(tokens[1].kind, TokenKind::IDENT);
    assert_eq!(tokens[1].string, "returns");
}

#[test]
fn token_new_keeps_kind_and_text() {
    let t = Token::new(TokenKind::IDENT, String::from("abc"));
    assert_eq!(t.kind, TokenKind::IDENT);
    assert_eq!(t.string, "abc");
}

fn parse_src(src: &str) -> (Vec<Node>, ASTBuilder) {
    let tokenizer = Tokenizer::new();
    let tokens = tokenizer.tokenize(String::from(src)).expect("lexing failed");
    let mut builder = ASTBuilder::new(tokens);
    let stmts = builder.parse().expect("parsing failed");
    (stmts, builder)
}

#[test]
fn precedence_shapes_the_tree() {
    let (stmts, _) = parse_src("1+2*3;");
    assert_eq!(stmts.len(), 1);
    let root = &stmts[0];
    assert_eq!(root.kind, NodeKind::ADD);
    let lhs = root.lhs.as_ref().as_ref().expect("left child missing");
    let rhs = root.rhs.as_ref().as_ref().expect("right child missing");
    assert_eq!(lhs.kind, NodeKind::NUM);
    assert_eq!(lhs.val, Some(1));
    assert_eq!(rhs.kind, NodeKind::MUL);
}

#[test]
fn greater_than_is_normalized_to_less_than() {
    let (stmts, _) = parse_src("1>2;");
    let root = &stmts[0];
    assert_eq!(root.kind, NodeKind::LT);
    let lhs = root.lhs.as_ref().as_ref().expect("left child missing");
    let rhs = root.rhs.as_ref().as_ref().expect("right child missing");
    assert_eq!(lhs.val, Some(2));
    assert_eq!(rhs.val, Some(1));
}

#[test]
fn unary_minus_desugars_to_zero_minus() {
    let (stmts, _) = parse_src("-5;");
    let root = &stmts[0];
    assert_eq!(root.kind, NodeKind::SUB);
    let lhs = root.lhs.as_ref().as_ref().expect("left child missing");
    assert_eq!(lhs.val, Some(0));
}

#[test]
fn identifiers_get_fresh_slots_in_order() {
    let (_, builder) = parse_src("a=1; b=2; a=3;");
    assert_eq!(builder.lvars.len(), 2);
    assert_eq!(builder.lvars[0].name, "a");
    assert_eq!(builder.lvars[0].offset, 0);
    assert_eq!(builder.lvars[1].name, "b");
    assert_eq!(builder.lvars[1].offset, 8);
}

#[test]
fn missing_semicolon_is_a_syntax_error() {
    let tokenizer = Tokenizer::new();
    let tokens = tokenizer.tokenize(String::from("1+2")).expect("lexing failed");
    let mut builder = ASTBuilder::new(tokens);
    assert!(builder.parse().is_err());
}

#[test]
fn generator_rejects_a_malformed_node() {
    let bad = Node::new(NodeKind::ADD, Box::new(None), Box::new(None));
    let builder = ASTBuilder::new(Vec::new());
    let mut out = Vec::new();
    assert_eq!(builder.gen(&bad, &mut out), Err(CompileError::Internal));
}
