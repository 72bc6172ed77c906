//! The laws the library states of itself, proved over the spec functions
//! that the executable functions are verified against: what a pure
//! integer-literal program computes, that comparisons are 0/1-valued,
//! that distinct variables never alias and assignment touches only its
//! own slot, and that the pipeline is a function of the source text.

use vstd::prelude::*;

use crate::CompileError;
use crate::sp_compile;
use crate::ast::{
    Node, NodeKind, all_digits, digits_val, node_num, sp_add, sp_add_loop, sp_assign, sp_eq_loop,
    sp_equality, sp_expect, sp_expect_number, sp_expr, sp_mul, sp_mul_loop, sp_parse, sp_primary,
    sp_program, sp_rel_loop, sp_relational, sp_stmt, sp_unary, tk_is_reserved, tk_kind_at,
    wf_lvars, LVarV, lemma_program_b,
};
use crate::codegen::{Instr, code_text_from, header_text, instr_text, sp_gen, sp_gen_program, sp_gen_stmts_from};
use crate::machine::{MState, iabs, init_state, sp_exec_program, sp_run, sp_step, tdiv};
use crate::semantics::{sp_eval, sp_eval_prog_from};
use crate::tokenize::{
    TokenKind, TokenV, lemma_digit_run_char, sp_lex, two_char_op_at,
};
use crate::util::is_digit;

verus! {

/// What the compiled program computes, by the machine model, for a
/// source text: lex it, parse it, generate it, run the instructions.
pub open spec fn sp_source_result(src: Seq<char>) -> Option<i64> {
    match sp_lex(src, 0, Seq::<TokenV>::empty()) {
        Err(_) => None,
        Ok(toks) => match sp_parse(toks) {
            Err(_) => None,
            Ok((stmts, lvs)) => match sp_gen_program(stmts) {
                Err(_) => None,
                Ok(code) => sp_exec_program(code),
            },
        },
    }
}

/// A reserved token whose text is one character never matches an operator
/// made of a different character.
proof fn lemma_one_char_text_ne(t: Seq<TokenV>, pos: int, c: char, op: Seq<char>)
    requires
        0 <= pos < t.len(),
        t[pos].text == seq![c],
        op.len() == 1,
        op[0] != c,
    ensures
        !tk_is_reserved(t, pos, op),
{
    if t[pos].text == op {
        assert(op[0] == seq![c][0]);
    }
}

/// The token sequence of a pure integer-literal source.
pub open spec fn lit_toks(d: Seq<char>) -> Seq<TokenV> {
    seq![
        TokenV { kind: TokenKind::NUM, text: d },
        TokenV { kind: TokenKind::Reserved, text: seq![';'] },
        TokenV { kind: TokenKind::EOF, text: seq!['\0'] },
    ]
}

/// The instructions generated for a pure integer-literal program.
pub open spec fn lit_code(v: i64) -> Seq<Instr> {
    seq![Instr::Prologue, Instr::PushImm(v), Instr::PopRax, Instr::Epilogue]
}

proof fn lemma_lit_lex(d: Seq<char>)
    requires
        d.len() >= 1,
        all_digits(d),
    ensures
        sp_lex(d.push(';'), 0, Seq::<TokenV>::empty()) == Ok::<Seq<TokenV>, CompileError>(
            lit_toks(d),
        ),
{
    let src = d.push(';');
    let numtok = TokenV { kind: TokenKind::NUM, text: d };
    let semitok = TokenV { kind: TokenKind::Reserved, text: seq![';'] };
    let eoftok = TokenV { kind: TokenKind::EOF, text: seq!['\0'] };
    let dl = d.len() as int;
    assert(src[dl] == ';');
    assert(forall|j: int| 0 <= j < dl ==> src[j] == d[j]);
    assert(forall|j: int| 0 <= j < dl ==> is_digit(#[trigger] src[j]));
    assert(!is_digit(src[dl]));
    lemma_digit_run_char(src, 0, dl);
    assert(!two_char_op_at(src, 0)) by {
        if two_char_op_at(src, 0) {
            assert(src[1] == '=');
            if dl >= 2 {
                assert(is_digit(src[1]));
            } else {
                assert(src[1] == ';');
            }
        }
    }
    assert(src.subrange(0, dl) =~= d);
    assert(TokenV { kind: TokenKind::NUM, text: src.subrange(0, dl) } =~~= numtok);
    assert(Seq::<TokenV>::empty().push(numtok) =~= seq![numtok]);
    assert(sp_lex(src, 0, Seq::<TokenV>::empty()) == sp_lex(src, dl, seq![numtok]));
    assert(!two_char_op_at(src, dl));
    assert(seq![src[dl]] =~= seq![';']);
    assert(seq![numtok].push(semitok) =~= seq![numtok, semitok]);
    assert(sp_lex(src, dl, seq![numtok]) == sp_lex(src, src.len() as int, seq![numtok, semitok]));
    assert(seq![numtok, semitok].push(eoftok) =~= lit_toks(d));
    assert(sp_lex(src, src.len() as int, seq![numtok, semitok]) == Ok::<
        Seq<TokenV>,
        CompileError,
    >(lit_toks(d)));
}

proof fn lemma_lit_parse(d: Seq<char>)
    requires
        d.len() >= 1,
        all_digits(d),
        digits_val(d) <= i64::MAX as int,
    ensures
        sp_parse(lit_toks(d)) == Ok::<(Seq<Node>, Seq<LVarV>), CompileError>(
            (seq![node_num(digits_val(d) as i64)], Seq::<LVarV>::empty()),
        ),
{
    let toks = lit_toks(d);
    let e = Seq::<LVarV>::empty();
    let v = digits_val(d) as i64;
    let n = node_num(v);
    assert(tk_kind_at(toks, 0, TokenKind::NUM));
    assert(sp_expect_number(toks, 0) == Ok::<(i64, int), CompileError>((v, 1)));
    assert(sp_primary(toks, 0, e) == Ok::<(Node, int, Seq<LVarV>), CompileError>((n, 1, e)));
    assert(sp_unary(toks, 0, e) == Ok::<(Node, int, Seq<LVarV>), CompileError>((n, 1, e)));
    lemma_one_char_text_ne(toks, 1, ';', seq!['*']);
    lemma_one_char_text_ne(toks, 1, ';', seq!['/']);
    lemma_one_char_text_ne(toks, 1, ';', seq!['+']);
    lemma_one_char_text_ne(toks, 1, ';', seq!['-']);
    lemma_one_char_text_ne(toks, 1, ';', seq!['<']);
    lemma_one_char_text_ne(toks, 1, ';', seq!['>']);
    lemma_one_char_text_ne(toks, 1, ';', seq!['=']);
    assert(!tk_is_reserved(toks, 1, seq!['<', '='])) by {
        if toks[1].text == seq!['<', '='] {
            assert(toks[1].text.len() == 1);
        }
    }
    assert(!tk_is_reserved(toks, 1, seq!['>', '='])) by {
        if toks[1].text == seq!['>', '='] {
            assert(toks[1].text.len() == 1);
        }
    }
    assert(!tk_is_reserved(toks, 1, seq!['=', '='])) by {
        if toks[1].text == seq!['=', '='] {
            assert(toks[1].text.len() == 1);
        }
    }
    assert(!tk_is_reserved(toks, 1, seq!['!', '='])) by {
        if toks[1].text == seq!['!', '='] {
            assert(toks[1].text.len() == 1);
        }
    }
    assert(sp_mul_loop(toks, n, 1, e) == Ok::<(Node, int, Seq<LVarV>), CompileError>((n, 1, e)));
    assert(sp_mul(toks, 0, e) == Ok::<(Node, int, Seq<LVarV>), CompileError>((n, 1, e)));
    assert(sp_add_loop(toks, n, 1, e) == Ok::<(Node, int, Seq<LVarV>), CompileError>((n, 1, e)));
    assert(sp_add(toks, 0, e) == Ok::<(Node, int, Seq<LVarV>), CompileError>((n, 1, e)));
    assert(sp_rel_loop(toks, n, 1, e) == Ok::<(Node, int, Seq<LVarV>), CompileError>((n, 1, e)));
    assert(sp_relational(toks, 0, e) == Ok::<(Node, int, Seq<LVarV>), CompileError>((n, 1, e)));
    assert(sp_eq_loop(toks, n, 1, e) == Ok::<(Node, int, Seq<LVarV>), CompileError>((n, 1, e)));
    assert(sp_equality(toks, 0, e) == Ok::<(Node, int, Seq<LVarV>), CompileError>((n, 1, e)));
    assert(sp_assign(toks, 0, e) == Ok::<(Node, int, Seq<LVarV>), CompileError>((n, 1, e)));
    assert(sp_expr(toks, 0, e) == Ok::<(Node, int, Seq<LVarV>), CompileError>((n, 1, e)));
    assert(tk_is_reserved(toks, 1, seq![';']));
    assert(sp_stmt(toks, 0, e) == Ok::<(Node, int, Seq<LVarV>), CompileError>((n, 2, e)));
    assert(tk_kind_at(toks, 2, TokenKind::EOF));
    assert(Seq::<Node>::empty().push(n) =~= seq![n]);
    assert(sp_program(toks, 2, e, seq![n]) == Ok::<(Seq<Node>, Seq<LVarV>), CompileError>(
        (seq![n], e),
    ));
}

proof fn lemma_lit_gen(v: i64)
    ensures
        sp_gen_program(seq![node_num(v)]) == Ok::<Seq<Instr>, CompileError>(lit_code(v)),
{
    let n = node_num(v);
    assert(sp_gen(n) == Ok::<Seq<Instr>, CompileError>(seq![Instr::PushImm(v)]));
    assert(sp_gen_stmts_from(seq![n], 1) == Ok::<Seq<Instr>, CompileError>(Seq::empty()));
    assert(sp_gen_stmts_from(seq![n], 0) == Ok::<Seq<Instr>, CompileError>(
        seq![Instr::PushImm(v), Instr::PopRax],
    )) by {
        assert(seq![Instr::PushImm(v)] + seq![Instr::PopRax] + Seq::<Instr>::empty() =~= seq![
            Instr::PushImm(v),
            Instr::PopRax,
        ]);
    }
    assert(seq![Instr::Prologue] + seq![Instr::PushImm(v), Instr::PopRax] + seq![
        Instr::Epilogue,
    ] =~= lit_code(v));
}

proof fn lemma_lit_run(v: i64)
    ensures
        sp_exec_program(lit_code(v)) == Some(v),
{
    let code = lit_code(v);
    let s0 = init_state();
    let s1 = MState { stack: s0.stack.push(v), ..s0 };
    let s2 = MState { rax: v, stack: s0.stack, ..s0 };
    let s3 = MState { ret: Some(v), ..s2 };
    assert(sp_step(s0, code[0]) == Some(s0));
    assert(sp_step(s0, code[1]) == Some(s1));
    assert(sp_step(s1, code[2]) == Some(s2)) by {
        assert(s1.stack.last() == v);
        assert(s1.stack.drop_last() =~= s0.stack);
        assert(sp_step(s1, Instr::PopRax)->0 =~~= s2);
    }
    assert(sp_step(s2, code[3]) == Some(s3));
    assert(sp_run(s3, code, 4) == Some(s3));
    assert(sp_run(s2, code, 3) == Some(s3));
    assert(sp_run(s1, code, 2) == Some(s3));
    assert(sp_run(s0, code, 1) == Some(s3));
    assert(sp_run(s0, code, 0) == Some(s3));
}

/// For every source that is one integer literal followed by `;`, the
/// pipeline succeeds and the generated program evaluates to exactly that
/// literal's value.
pub proof fn lemma_literal_program(d: Seq<char>)
    requires
        d.len() >= 1,
        all_digits(d),
        digits_val(d) <= i64::MAX as int,
    ensures
        sp_compile(d.push(';')) is Ok,
        sp_source_result(d.push(';')) == Some(digits_val(d) as i64),
{
    let v = digits_val(d) as i64;
    lemma_lit_lex(d);
    lemma_lit_parse(d);
    lemma_lit_gen(v);
    lemma_lit_run(v);
}

/// A comparison never yields anything but 0 or 1.
pub proof fn lemma_comparison_yields_bool(n: Node, env: Map<int, i64>, v: i64, env2: Map<int, i64>)
    requires
        n.kind == NodeKind::EQ || n.kind == NodeKind::NE || n.kind == NodeKind::LT || n.kind
            == NodeKind::LE,
        sp_eval(n, env) == Some((v, env2)),
    ensures
        v == 0 || v == 1,
{
}

/// In a well-formed variable table, two distinct entries differ both in
/// name and in offset: distinct identifiers never alias one slot.
pub proof fn lemma_distinct_names_distinct_offsets(lvs: Seq<LVarV>, i: int, j: int)
    requires
        wf_lvars(lvs),
        0 <= i < j < lvs.len(),
    ensures
        lvs[i].name != lvs[j].name,
        lvs[i].offset != lvs[j].offset,
{
    assert(lvs[i].offset as int == 8 * i);
    assert(lvs[j].offset as int == 8 * j);
}

/// A successful parse of any token sequence leaves a well-formed
/// variable table.
pub proof fn lemma_parse_table_wf(t: Seq<TokenV>, stmts: Seq<Node>, lvs: Seq<LVarV>)
    requires
        sp_parse(t) == Ok::<(Seq<Node>, Seq<LVarV>), CompileError>((stmts, lvs)),
    ensures
        wf_lvars(lvs),
{
    assert(wf_lvars(Seq::<LVarV>::empty()));
    lemma_program_b(t, 0, Seq::empty(), Seq::empty());
}

/// Assigning through a variable changes no other slot: the environment
/// after the assignment is the environment after its right-hand side,
/// with exactly the target's slot updated.
pub proof fn lemma_assign_touches_only_its_slot(
    n: Node,
    env: Map<int, i64>,
    v: i64,
    env2: Map<int, i64>,
    rhs: Node,
    v1: i64,
    env1: Map<int, i64>,
)
    requires
        n.kind == NodeKind::ASSIGN,
        *n.rhs == Some(rhs),
        (*n.lhs) is Some,
        sp_eval(n, env) == Some((v, env2)),
        sp_eval(rhs, env) == Some((v1, env1)),
    ensures
        v == v1,
        env2 == env1.insert((*n.lhs)->0.offset->0 as int, v),
        forall|o: int|
            o != (*n.lhs)->0.offset->0 as int && env1.contains_key(o) ==> env2.contains_key(o)
                && env2[o] == env1[o],
{
}

/// Division truncates toward zero, exactly as the target's `idiv` does:
/// the quotient never rounds away from zero, and the remainder it leaves
/// is smaller in magnitude than the divisor and takes the dividend's
/// sign.
pub proof fn lemma_division_truncates(a: int, b: int)
    requires
        b != 0,
    ensures
        iabs(a - tdiv(a, b) * b) < iabs(b),
        iabs(tdiv(a, b) * b) <= iabs(a),
        a - tdiv(a, b) * b == 0 || ((a - tdiv(a, b) * b < 0) == (a < 0)),
{
    let ua = iabs(a);
    let ub = iabs(b);
    let uq = ua / ub;
    let ur = ua % ub;
    vstd::arithmetic::div_mod::lemma_fundamental_div_mod(ua, ub);
    vstd::arithmetic::div_mod::lemma_mod_bound(ua, ub);
    assert(ua == ub * uq + ur);
    assert(0 <= uq) by {
        vstd::arithmetic::div_mod::lemma_div_is_ordered(0, ua, ub);
    }
    assert(ub * uq == uq * ub) by (nonlinear_arith);
    let q = tdiv(a, b);
    if (a < 0) == (b < 0) {
        assert(q == uq);
        if a >= 0 {
            assert(b > 0 && b == ub && a == ua);
            assert(q * b == uq * ub) by (nonlinear_arith)
                requires
                    q == uq,
                    b == ub,
            ;
            assert(a - q * b == ur);
        } else {
            assert(b < 0 && ub == -b && ua == -a);
            assert(q * b == -(uq * ub)) by (nonlinear_arith)
                requires
                    q == uq,
                    b == -ub,
            ;
            assert(a - q * b == -ur);
        }
        assert(iabs(q * b) == uq * ub) by (nonlinear_arith)
            requires
                0 <= uq,
                0 < ub,
                q * b == uq * ub || q * b == -(uq * ub),
        ;
        assert(uq * ub <= ua);
    } else {
        assert(q == -uq);
        if a >= 0 {
            assert(b < 0 && ub == -b && a == ua);
            assert(q * b == uq * ub) by (nonlinear_arith)
                requires
                    q == -uq,
                    b == -ub,
            ;
            assert(a - q * b == ur);
        } else {
            assert(b > 0 && b == ub && ua == -a);
            assert(q * b == -(uq * ub)) by (nonlinear_arith)
                requires
                    q == -uq,
                    b == ub,
            ;
            assert(a - q * b == -ur);
        }
        assert(iabs(q * b) == uq * ub) by (nonlinear_arith)
            requires
                0 <= uq,
                0 < ub,
                q * b == uq * ub || q * b == -(uq * ub),
        ;
        assert(uq * ub <= ua);
    }
}

/// `t` ends with exactly the characters of `e`.
pub open spec fn ends_with(t: Seq<char>, e: Seq<char>) -> bool {
    e.len() <= t.len() && t.subrange(t.len() - e.len(), t.len() as int) == e
}

/// A suffix of the second part is a suffix of the whole.
proof fn lemma_ends_with_concat(a: Seq<char>, b: Seq<char>, e: Seq<char>)
    requires
        ends_with(b, e),
    ensures
        ends_with(a + b, e),
{
    let t = a + b;
    assert(t.subrange(t.len() - e.len(), t.len() as int) =~= b.subrange(
        b.len() - e.len(),
        b.len() as int,
    ));
}

/// The rendered text of a nonempty instruction sequence ends with the
/// text of its last instruction.
proof fn lemma_code_text_suffix(code: Seq<Instr>, i: int)
    requires
        0 <= i < code.len(),
    ensures
        ends_with(code_text_from(code, i), instr_text(code[code.len() - 1])),
    decreases code.len() - i,
{
    if i == code.len() - 1 {
        let e = instr_text(code[i]);
        assert(code_text_from(code, i + 1) =~= Seq::<char>::empty());
        assert(code_text_from(code, i) =~= e);
        assert(e.subrange(0, e.len() as int) =~= e);
    } else {
        lemma_code_text_suffix(code, i + 1);
        lemma_ends_with_concat(
            instr_text(code[i]),
            code_text_from(code, i + 1),
            instr_text(code[code.len() - 1]),
        );
    }
}

/// Whatever the pipeline emits is a whole function: the text always ends
/// with the epilogue, `ret` included.  A malformed input yields only its
/// error, with no assembly at all — there is no partial program.
pub proof fn lemma_output_is_a_whole_function(src: Seq<char>)
    ensures
        match sp_compile(src) {
            Ok(text) => ends_with(text, "  mov rsp, rbp\n  pop rbp\n  ret\n"@),
            Err(_) => true,
        },
{
    if sp_compile(src) is Ok {
        let toks = sp_lex(src, 0, Seq::<TokenV>::empty())->Ok_0;
        let stmts = sp_parse(toks)->Ok_0.0;
        let body = sp_gen_stmts_from(stmts, 0)->Ok_0;
        let code = sp_gen_program(stmts)->Ok_0;
        assert(code == seq![Instr::Prologue] + body + seq![Instr::Epilogue]);
        assert(code[code.len() - 1] == Instr::Epilogue);
        lemma_code_text_suffix(code, 0);
        assert(instr_text(Instr::Epilogue) == "  mov rsp, rbp\n  pop rbp\n  ret\n"@);
        lemma_ends_with_concat(
            header_text(),
            code_text_from(code, 0),
            "  mov rsp, rbp\n  pop rbp\n  ret\n"@,
        );
    }
}

/// A statement's effect persists across statements: the environment its
/// evaluation leaves, stores included, is exactly the one the next
/// statement starts from, and its value becomes the running result.
pub proof fn lemma_environment_persists(
    stmts: Seq<Node>,
    i: int,
    env: Map<int, i64>,
    last: i64,
    v: i64,
    env2: Map<int, i64>,
)
    requires
        0 <= i < stmts.len(),
        stmts[i].kind != NodeKind::RETURN,
        sp_eval(stmts[i], env) == Some((v, env2)),
    ensures
        sp_eval_prog_from(stmts, i, env, last) == sp_eval_prog_from(stmts, i + 1, env2, v),
{
}

/// The pipeline is a function of the source text alone: identical
/// sources yield byte-identical assembly, or the identical error.
pub proof fn lemma_pipeline_deterministic(s1: Seq<char>, s2: Seq<char>)
    requires
        s1 == s2,
    ensures
        sp_compile(s1) == sp_compile(s2),
{
}

} // verus!
