//! The code generator: a post-order stack-machine walk of each statement
//! tree.  Every subtree, once generated, leaves exactly one value on an
//! explicit operand stack realized with push/pop instructions over two
//! scratch registers, the accumulator `rax` and the scratch `rdi`.  The
//! instruction repertoire is its own small type, and rendering it to
//! Intel-syntax text is a separate, equally exact step.

use vstd::prelude::*;
use vstd::string::StringExecFns;

use crate::CompileError;
use crate::ast::{ASTBuilder, Node, NodeKind};

verus! {

/// The instructions the generator emits.  Multi-line fixed sequences
/// (`cqo`/`idiv`, `cmp`/`set`/`movzb`, the frame prologue and epilogue)
/// are one instruction each, since the generator only ever emits them
/// whole.
#[derive(Clone, Copy, Debug, PartialEq, Eq, Structural)]
pub enum Instr {
    /// `push <imm>`: push a literal value.
    PushImm(i64),
    /// `push rax`.
    PushRax,
    /// `push rdi`.
    PushRdi,
    /// `pop rax`.
    PopRax,
    /// `pop rdi`.
    PopRdi,
    /// `mov rax, rbp`: start an address computation at the frame base.
    MovRaxRbp,
    /// `sub rax, <off>`: step down to a variable's slot.
    SubRaxImm(usize),
    /// `mov rax, [rax]`: load through the address in `rax`.
    LoadRax,
    /// `mov [rax], rdi`: store `rdi` at the address in `rax`.
    StoreRdi,
    /// `add rax, rdi`.
    AddRaxRdi,
    /// `sub rax, rdi`.
    SubRaxRdi,
    /// `imul rax, rdi`.
    ImulRaxRdi,
    /// `cqo` then `idiv rdi`: sign-extend and divide.
    CqoIdivRdi,
    /// `cmp rax, rdi`, `sete al`, `movzb rax, al`: 0/1 for equality.
    CmpSete,
    /// The same with `setne`.
    CmpSetne,
    /// The same with `setl`.
    CmpSetl,
    /// The same with `setle`.
    CmpSetle,
    /// `push rbp`, `mov rbp, rsp`, `sub rsp, 208`: establish the frame.
    Prologue,
    /// `mov rsp, rbp`, `pop rbp`, `ret`: restore the frame and return.
    Epilogue,
}

/// Whether this node kind is a binary operator the generator maps to one
/// arithmetic or comparison instruction.
pub open spec fn is_binop(k: NodeKind) -> bool {
    k == NodeKind::ADD || k == NodeKind::SUB || k == NodeKind::MUL || k == NodeKind::DIV || k
        == NodeKind::EQ || k == NodeKind::NE || k == NodeKind::LT || k == NodeKind::LE
}

/// The instruction a binary operator maps to.
pub open spec fn op_instr(k: NodeKind) -> Instr {
    if k == NodeKind::ADD {
        Instr::AddRaxRdi
    } else if k == NodeKind::SUB {
        Instr::SubRaxRdi
    } else if k == NodeKind::MUL {
        Instr::ImulRaxRdi
    } else if k == NodeKind::DIV {
        Instr::CqoIdivRdi
    } else if k == NodeKind::EQ {
        Instr::CmpSete
    } else if k == NodeKind::NE {
        Instr::CmpSetne
    } else if k == NodeKind::LT {
        Instr::CmpSetl
    } else {
        Instr::CmpSetle
    }
}

/// What generating an address means: only a variable reference with an
/// offset is addressable; its address, frame base minus offset, is pushed.
pub open spec fn sp_gen_lval(n: Node) -> Result<Seq<Instr>, CompileError> {
    if n.kind == NodeKind::LVAR {
        match n.offset {
            Some(off) => Ok(seq![Instr::MovRaxRbp, Instr::SubRaxImm(off), Instr::PushRax]),
            None => Err(CompileError::Internal),
        }
    } else {
        Err(CompileError::NotAddressable)
    }
}

/// What generating one expression or statement tree means.  On success
/// the instructions evaluate the tree and leave exactly one value on the
/// operand stack; a malformed shape is an internal fault, and an
/// assignment to anything but a variable is a syntax fault.
pub open spec fn sp_gen(n: Node) -> Result<Seq<Instr>, CompileError>
    decreases n,
{
    match n.kind {
        NodeKind::NUM => match n.val {
            Some(v) => Ok(seq![Instr::PushImm(v)]),
            None => Err(CompileError::Internal),
        },
        NodeKind::LVAR => match sp_gen_lval(n) {
            Ok(a) => Ok(a + seq![Instr::PopRax, Instr::LoadRax, Instr::PushRax]),
            Err(e) => Err(e),
        },
        NodeKind::ASSIGN => match (*n.lhs, *n.rhs) {
            (Some(l), Some(r)) => match sp_gen_lval(l) {
                Ok(a) => match sp_gen(r) {
                    Ok(rc) => Ok(
                        a + rc + seq![
                            Instr::PopRdi,
                            Instr::PopRax,
                            Instr::StoreRdi,
                            Instr::PushRdi,
                        ],
                    ),
                    Err(e) => Err(e),
                },
                Err(e) => Err(e),
            },
            _ => Err(CompileError::Internal),
        },
        NodeKind::RETURN => match *n.lhs {
            Some(l) => match sp_gen(l) {
                Ok(lc) => Ok(lc + seq![Instr::PopRax, Instr::Epilogue]),
                Err(e) => Err(e),
            },
            None => Err(CompileError::Internal),
        },
        _ => match (*n.lhs, *n.rhs) {
            (Some(l), Some(r)) => match sp_gen(l) {
                Ok(lc) => match sp_gen(r) {
                    Ok(rc) => Ok(
                        lc + rc + seq![Instr::PopRdi, Instr::PopRax, op_instr(n.kind), Instr::PushRax],
                    ),
                    Err(e) => Err(e),
                },
                Err(e) => Err(e),
            },
            _ => Err(CompileError::Internal),
        },
    }
}

/// The generated body of a whole statement forest from index `i` on:
/// after each statement its residual value is popped into `rax`, so the
/// operand stack is empty again between statements.
pub open spec fn sp_gen_stmts_from(stmts: Seq<Node>, i: int) -> Result<Seq<Instr>, CompileError>
    decreases stmts.len() - i,
{
    if !(0 <= i < stmts.len()) {
        Ok(Seq::empty())
    } else {
        match sp_gen(stmts[i]) {
            Ok(c) => match sp_gen_stmts_from(stmts, i + 1) {
                Ok(rest) => Ok(c + seq![Instr::PopRax] + rest),
                Err(e) => Err(e),
            },
            Err(e) => Err(e),
        }
    }
}

/// The whole generated function: prologue, the statements, epilogue.
pub open spec fn sp_gen_program(stmts: Seq<Node>) -> Result<Seq<Instr>, CompileError> {
    match sp_gen_stmts_from(stmts, 0) {
        Ok(body) => Ok(seq![Instr::Prologue] + body + seq![Instr::Epilogue]),
        Err(e) => Err(e),
    }
}

impl ASTBuilder {
    /// Emit the address of an assignable location onto the operand stack.
    pub fn gen_lval(&self, node: &Node, out: &mut Vec<Instr>) -> (r: Result<(), CompileError>)
        ensures
            match sp_gen_lval(*node) {
                Ok(c) => r is Ok && final(out)@ == old(out)@ + c,
                Err(e) => r == Err::<(), CompileError>(e) && final(out)@ == old(out)@,
            },
    {
        if !(node.kind == NodeKind::LVAR) {
            return Err(CompileError::NotAddressable);
        }
        match node.offset {
            Some(off) => {
                out.push(Instr::MovRaxRbp);
                out.push(Instr::SubRaxImm(off));
                out.push(Instr::PushRax);
                proof {
                    assert(out@ =~= old(out)@ + seq![
                        Instr::MovRaxRbp,
                        Instr::SubRaxImm(off),
                        Instr::PushRax,
                    ]);
                }
                Ok(())
            },
            None => Err(CompileError::Internal),
        }
    }

    /// Emit the instructions that evaluate one tree, appending to `out`.
    #[verifier::rlimit(60)]
    pub fn gen(&self, node: &Node, out: &mut Vec<Instr>) -> (r: Result<(), CompileError>)
        ensures
            match sp_gen(*node) {
                Ok(c) => r is Ok && final(out)@ == old(out)@ + c,
                Err(e) => r == Err::<(), CompileError>(e),
            },
        decreases *node,
    {
        match node.kind {
            NodeKind::NUM => match node.val {
                Some(v) => {
                    out.push(Instr::PushImm(v));
                    proof {
                        assert(out@ =~= old(out)@ + seq![Instr::PushImm(v)]);
                    }
                    Ok(())
                },
                None => Err(CompileError::Internal),
            },
            NodeKind::LVAR => match self.gen_lval(node, out) {
                Err(e) => Err(e),
                Ok(_) => {
                    let ghost mid = out@;
                    out.push(Instr::PopRax);
                    out.push(Instr::LoadRax);
                    out.push(Instr::PushRax);
                    proof {
                        assert(out@ =~= old(out)@ + (sp_gen_lval(*node)->Ok_0 + seq![
                            Instr::PopRax,
                            Instr::LoadRax,
                            Instr::PushRax,
                        ]));
                    }
                    Ok(())
                },
            },
            NodeKind::ASSIGN => match (&*node.lhs, &*node.rhs) {
                (Some(l), Some(rsub)) => match self.gen_lval(l, out) {
                    Err(e) => Err(e),
                    Ok(_) => match self.gen(rsub, out) {
                        Err(e) => Err(e),
                        Ok(_) => {
                            out.push(Instr::PopRdi);
                            out.push(Instr::PopRax);
                            out.push(Instr::StoreRdi);
                            out.push(Instr::PushRdi);
                            proof {
                                assert(out@ =~= old(out)@ + (sp_gen_lval(*l)->Ok_0 + sp_gen(
                                    *rsub,
                                )->Ok_0 + seq![
                                    Instr::PopRdi,
                                    Instr::PopRax,
                                    Instr::StoreRdi,
                                    Instr::PushRdi,
                                ]));
                            }
                            Ok(())
                        },
                    },
                },
                _ => Err(CompileError::Internal),
            },
            NodeKind::RETURN => match &*node.lhs {
                Some(l) => match self.gen(l, out) {
                    Err(e) => Err(e),
                    Ok(_) => {
                        out.push(Instr::PopRax);
                        out.push(Instr::Epilogue);
                        proof {
                            assert(out@ =~= old(out)@ + (sp_gen(*l)->Ok_0 + seq![
                                Instr::PopRax,
                                Instr::Epilogue,
                            ]));
                        }
                        Ok(())
                    },
                },
                None => Err(CompileError::Internal),
            },
            _ => match (&*node.lhs, &*node.rhs) {
                (Some(l), Some(rsub)) => match self.gen(l, out) {
                    Err(e) => Err(e),
                    Ok(_) => match self.gen(rsub, out) {
                        Err(e) => Err(e),
                        Ok(_) => {
                            out.push(Instr::PopRdi);
                            out.push(Instr::PopRax);
                            let op = match node.kind {
                                NodeKind::ADD => Instr::AddRaxRdi,
                                NodeKind::SUB => Instr::SubRaxRdi,
                                NodeKind::MUL => Instr::ImulRaxRdi,
                                NodeKind::DIV => Instr::CqoIdivRdi,
                                NodeKind::EQ => Instr::CmpSete,
                                NodeKind::NE => Instr::CmpSetne,
                                NodeKind::LT => Instr::CmpSetl,
                                _ => Instr::CmpSetle,
                            };
                            out.push(op);
                            out.push(Instr::PushRax);
                            proof {
                                assert(op == op_instr(node.kind));
                                assert(out@ =~= old(out)@ + (sp_gen(*l)->Ok_0 + sp_gen(
                                    *rsub,
                                )->Ok_0 + seq![
                                    Instr::PopRdi,
                                    Instr::PopRax,
                                    op_instr(node.kind),
                                    Instr::PushRax,
                                ]));
                            }
                            Ok(())
                        },
                    },
                },
                _ => Err(CompileError::Internal),
            },
        }
    }

    /// Emit the body instructions of the statements from index `i` on.
    fn gen_stmts(&self, stmts: &Vec<Node>, i: usize, out: &mut Vec<Instr>) -> (r: Result<
        (),
        CompileError,
    >)
        requires
            i <= stmts@.len(),
        ensures
            match sp_gen_stmts_from(stmts@, i as int) {
                Ok(body) => r is Ok && final(out)@ == old(out)@ + body,
                Err(e) => r == Err::<(), CompileError>(e),
            },
        decreases stmts@.len() - i,
    {
        if i == stmts.len() {
            proof {
                assert(out@ =~= out@ + Seq::<Instr>::empty());
            }
            return Ok(());
        }
        match self.gen(&stmts[i], out) {
            Err(e) => Err(e),
            Ok(_) => {
                out.push(Instr::PopRax);
                match self.gen_stmts(stmts, i + 1, out) {
                    Err(e) => Err(e),
                    Ok(_) => {
                        proof {
                            assert(out@ =~= old(out)@ + (sp_gen(stmts@[i as int])->Ok_0 + seq![
                                Instr::PopRax,
                            ] + sp_gen_stmts_from(stmts@, i + 1)->Ok_0));
                        }
                        Ok(())
                    },
                }
            },
        }
    }

    /// Emit the whole function: prologue, every statement with its
    /// residual value discarded, epilogue.
    pub fn gen_program(&self, stmts: &Vec<Node>) -> (r: Result<Vec<Instr>, CompileError>)
        ensures
            match sp_gen_program(stmts@) {
                Ok(code) => r is Ok && r->Ok_0@ == code,
                Err(e) => r == Err::<Vec<Instr>, CompileError>(e),
            },
    {
        let mut out: Vec<Instr> = Vec::new();
        out.push(Instr::Prologue);
        proof {
            assert(out@ =~= seq![Instr::Prologue]);
        }
        match self.gen_stmts(stmts, 0, &mut out) {
            Err(e) => Err(e),
            Ok(_) => {
                out.push(Instr::Epilogue);
                proof {
                    assert(out@ =~= seq![Instr::Prologue] + sp_gen_stmts_from(stmts@, 0)->Ok_0
                        + seq![Instr::Epilogue]);
                }
                Ok(out)
            },
        }
    }
}

/// The character for one decimal digit value.
pub open spec fn dec_digit(d: int) -> char {
    if d == 0 {
        '0'
    } else if d == 1 {
        '1'
    } else if d == 2 {
        '2'
    } else if d == 3 {
        '3'
    } else if d == 4 {
        '4'
    } else if d == 5 {
        '5'
    } else if d == 6 {
        '6'
    } else if d == 7 {
        '7'
    } else if d == 8 {
        '8'
    } else {
        '9'
    }
}

/// The decimal numeral of a nonnegative number, most significant digit
/// first.
pub open spec fn dec_rep(n: int) -> Seq<char>
    decreases n,
{
    if n <= 9 {
        seq![dec_digit(if n < 0 { 0 } else { n })]
    } else {
        dec_rep(n / 10).push(dec_digit(n % 10))
    }
}

/// The decimal numeral of a signed value: a minus sign before the
/// numeral of its magnitude.
pub open spec fn dec_rep_i64(v: int) -> Seq<char> {
    if v < 0 {
        seq!['-'] + dec_rep(-v)
    } else {
        dec_rep(v)
    }
}

/// The exact text of one instruction, newline-terminated lines included.
pub open spec fn instr_text(i: Instr) -> Seq<char> {
    match i {
        Instr::PushImm(v) => "  push "@ + dec_rep_i64(v as int) + "\n"@,
        Instr::PushRax => "  push rax\n"@,
        Instr::PushRdi => "  push rdi\n"@,
        Instr::PopRax => "  pop rax\n"@,
        Instr::PopRdi => "  pop rdi\n"@,
        Instr::MovRaxRbp => "  mov rax, rbp\n"@,
        Instr::SubRaxImm(off) => "  sub rax, "@ + dec_rep(off as int) + "\n"@,
        Instr::LoadRax => "  mov rax, [rax]\n"@,
        Instr::StoreRdi => "  mov [rax], rdi\n"@,
        Instr::AddRaxRdi => "  add rax, rdi\n"@,
        Instr::SubRaxRdi => "  sub rax, rdi\n"@,
        Instr::ImulRaxRdi => "  imul rax, rdi\n"@,
        Instr::CqoIdivRdi => "  cqo\n  idiv rdi\n"@,
        Instr::CmpSete => "  cmp rax, rdi\n  sete al\n  movzb rax, al\n"@,
        Instr::CmpSetne => "  cmp rax, rdi\n  setne al\n  movzb rax, al\n"@,
        Instr::CmpSetl => "  cmp rax, rdi\n  setl al\n  movzb rax, al\n"@,
        Instr::CmpSetle => "  cmp rax, rdi\n  setle al\n  movzb rax, al\n"@,
        Instr::Prologue => "  push rbp\n  mov rbp, rsp\n  sub rsp, 208\n"@,
        Instr::Epilogue => "  mov rsp, rbp\n  pop rbp\n  ret\n"@,
    }
}

/// The text of the instructions from index `i` on.
pub open spec fn code_text_from(code: Seq<Instr>, i: int) -> Seq<char>
    decreases code.len() - i,
{
    if !(0 <= i < code.len()) {
        Seq::empty()
    } else {
        instr_text(code[i]) + code_text_from(code, i + 1)
    }
}

/// The directive-and-label header above the generated function.
pub open spec fn header_text() -> Seq<char> {
    ".intel_syntax noprefix\n"@ + ".globl main\n"@ + "main:\n"@
}

/// The whole assembly text of a generated instruction sequence.
pub open spec fn sp_render(code: Seq<Instr>) -> Seq<char> {
    header_text() + code_text_from(code, 0)
}

/// One digit as a string slice.
fn digit_str(d: u64) -> (r: &'static str)
    requires
        d <= 9,
    ensures
        r@ == seq![dec_digit(d as int)],
{
    proof {
        reveal_strlit("0");
        reveal_strlit("1");
        reveal_strlit("2");
        reveal_strlit("3");
        reveal_strlit("4");
        reveal_strlit("5");
        reveal_strlit("6");
        reveal_strlit("7");
        reveal_strlit("8");
        reveal_strlit("9");
    }
    let r = if d == 0 {
        "0"
    } else if d == 1 {
        "1"
    } else if d == 2 {
        "2"
    } else if d == 3 {
        "3"
    } else if d == 4 {
        "4"
    } else if d == 5 {
        "5"
    } else if d == 6 {
        "6"
    } else if d == 7 {
        "7"
    } else if d == 8 {
        "8"
    } else {
        "9"
    };
    proof {
        assert(r@ =~= seq![dec_digit(d as int)]);
    }
    r
}

/// Append the decimal numeral of `n` to `out`.
fn push_dec(out: &mut String, n: u64) -> (u: ())
    ensures
        final(out)@ == old(out)@ + dec_rep(n as int),
    decreases n,
{
    if n >= 10 {
        push_dec(out, n / 10);
        out.append(digit_str(n % 10));
        proof {
            assert(out@ =~= old(out)@ + dec_rep(n as int));
        }
    } else {
        out.append(digit_str(n));
        proof {
            assert(out@ =~= old(out)@ + dec_rep(n as int));
        }
    }
}

/// Append the exact text of one instruction to `out`.
fn emit_instr(out: &mut String, i: Instr) -> (u: ())
    ensures
        final(out)@ == old(out)@ + instr_text(i),
{
    match i {
        Instr::PushImm(v) => {
            out.append("  push ");
            if v < 0 {
                out.append("-");
                let m: u64 = (-(v as i128)) as u64;
                push_dec(out, m);
                proof {
                    reveal_strlit("-");
                    assert("-"@ =~= seq!['-']);
                    assert(out@ =~= old(out)@ + "  push "@ + dec_rep_i64(v as int));
                }
            } else {
                push_dec(out, v as u64);
            }
            out.append("\n");
            proof {
                assert(out@ =~= old(out)@ + ("  push "@ + dec_rep_i64(v as int) + "\n"@));
            }
        },
        Instr::PushRax => out.append("  push rax\n"),
        Instr::PushRdi => out.append("  push rdi\n"),
        Instr::PopRax => out.append("  pop rax\n"),
        Instr::PopRdi => out.append("  pop rdi\n"),
        Instr::MovRaxRbp => out.append("  mov rax, rbp\n"),
        Instr::SubRaxImm(off) => {
            out.append("  sub rax, ");
            push_dec(out, off as u64);
            out.append("\n");
            proof {
                assert(out@ =~= old(out)@ + ("  sub rax, "@ + dec_rep(off as int) + "\n"@));
            }
        },
        Instr::LoadRax => out.append("  mov rax, [rax]\n"),
        Instr::StoreRdi => out.append("  mov [rax], rdi\n"),
        Instr::AddRaxRdi => out.append("  add rax, rdi\n"),
        Instr::SubRaxRdi => out.append("  sub rax, rdi\n"),
        Instr::ImulRaxRdi => out.append("  imul rax, rdi\n"),
        Instr::CqoIdivRdi => out.append("  cqo\n  idiv rdi\n"),
        Instr::CmpSete => out.append("  cmp rax, rdi\n  sete al\n  movzb rax, al\n"),
        Instr::CmpSetne => out.append("  cmp rax, rdi\n  setne al\n  movzb rax, al\n"),
        Instr::CmpSetl => out.append("  cmp rax, rdi\n  setl al\n  movzb rax, al\n"),
        Instr::CmpSetle => out.append("  cmp rax, rdi\n  setle al\n  movzb rax, al\n"),
        Instr::Prologue => out.append("  push rbp\n  mov rbp, rsp\n  sub rsp, 208\n"),
        Instr::Epilogue => out.append("  mov rsp, rbp\n  pop rbp\n  ret\n"),
    }
}

/// Render a generated instruction sequence as the complete assembly text.
pub fn render(code: &Vec<Instr>) -> (s: String)
    ensures
        s@ == sp_render(code@),
{
    let mut out = String::new();
    out.append(".intel_syntax noprefix\n");
    out.append(".globl main\n");
    out.append("main:\n");
    proof {
        assert(out@ =~= header_text());
    }
    let n = code.len();
    let mut i: usize = 0;
    while i < n
        invariant
            i <= n,
            n == code@.len(),
            header_text() + code_text_from(code@, 0) =~= out@ + code_text_from(code@, i as int),
        decreases n - i,
    {
        emit_instr(&mut out, code[i]);
        proof {
            assert(header_text() + code_text_from(code@, 0) =~= out@ + code_text_from(
                code@,
                i + 1,
            ));
        }
        i = i + 1;
    }
    proof {
        assert(code_text_from(code@, n as int) =~= Seq::<char>::empty());
        assert(out@ =~= sp_render(code@));
    }
    out
}

} // verus!
