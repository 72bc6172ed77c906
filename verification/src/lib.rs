//! A small compiler front half: it lexes and parses a tiny
//! expression-and-statement language (arithmetic, comparisons, assignment to
//! single local variables, and `return`), and emits textual x86-64 assembly
//! for one stack-machine function body.

use vstd::prelude::*;
use vstd::string::StringExecFns;

pub mod util;
pub mod tokenize;
pub mod ast;
pub mod codegen;
pub mod machine;
pub mod semantics;
pub mod laws;

use crate::ast::{ASTBuilder, sp_parse};
use crate::codegen::{sp_gen_program, sp_render, render};
use crate::tokenize::{Tokenizer, TokenV, sp_lex};

verus! {

/// The one error type of the pipeline.  Every stage aborts on the first
/// defect; no partial assembly is ever produced for an erroneous program.
#[derive(Clone, Copy, Debug, PartialEq, Eq, Structural)]
pub enum CompileError {
    /// An unrecognized character in the source text, with the
    /// zero-based column where it stands.
    Lexical { column: usize, found: char },
    /// An expected token or punctuation was absent, the input ended too
    /// early, or a numeric literal does not fit the 64-bit target word;
    /// `at` is the index of the offending token.
    Syntax { at: usize },
    /// The target of an assignment is not an addressable location.
    NotAddressable,
    /// The generator met a node shape it cannot emit: a parser/generator
    /// mismatch, not a user error.
    Internal,
}

/// What the whole pipeline means: lex, parse, generate, render — or stop
/// at the first defect with its error and no text at all.
pub open spec fn sp_compile(src: Seq<char>) -> Result<Seq<char>, CompileError> {
    match sp_lex(src, 0, Seq::<TokenV>::empty()) {
        Err(e) => Err(e),
        Ok(toks) => match sp_parse(toks) {
            Err(e) => Err(e),
            Ok((stmts, lvs)) => match sp_gen_program(stmts) {
                Err(e) => Err(e),
                Ok(code) => Ok(sp_render(code)),
            },
        },
    }
}

/// Run the whole pipeline on one source string: the complete assembly
/// text of the program, or the first error found, with nothing emitted.
pub fn compile(source: &str) -> (r: Result<String, CompileError>)
    ensures
        match sp_compile(source@) {
            Ok(text) => r is Ok && r->Ok_0@ == text,
            Err(e) => r == Err::<String, CompileError>(e),
        },
{
    let tokenizer = Tokenizer::new();
    let toks = match tokenizer.tokenize(String::from_str(source)) {
        Err(e) => return Err(e),
        Ok(t) => t,
    };
    let mut builder = ASTBuilder::new(toks);
    let stmts = match builder.parse() {
        Err(e) => return Err(e),
        Ok(s) => s,
    };
    let code = match builder.gen_program(&stmts) {
        Err(e) => return Err(e),
        Ok(c) => c,
    };
    Ok(render(&code))
}

} // verus!
