//! The parser and AST builder: consumes the token sequence by recursive
//! descent over a precedence-climbing grammar and yields a forest of
//! statement trees plus a local-variable table.
//!
//! The grammar, lowest precedence first:
//!
//! ```text
//! program    := statement* EOF
//! statement  := "return" expr ";"  |  expr ";"
//! expr       := assign
//! assign     := equality ( "=" assign )?
//! equality   := relational ( ("==" | "!=") relational )*
//! relational := add ( ("<" | "<=" | ">" | ">=") add )*
//! add        := mul ( ("+" | "-") mul )*
//! mul        := unary ( ("*" | "/") unary )*
//! unary      := ("+" | "-")? primary
//! primary    := "(" expr ")" | IDENT | NUMBER
//! ```
//!
//! Left-associative levels fold left; `assign` nests to the right.  `>` and
//! `>=` are normalized by swapping operands and reusing the `<`/`<=` node
//! kinds.  Unary minus desugars to `0 - x`.  The whole grammar is mirrored
//! one-to-one by spec functions (`sp_primary` through `sp_program`), and
//! every parsing method is proved to return exactly what they describe.

use vstd::prelude::*;
use vstd::string::StrSliceExecFns;

use crate::CompileError;
use crate::tokenize::{Token, TokenKind, TokenV, toks_of};
use crate::util::{is_digit, str_eq};

verus! {

/// The shapes an AST node can take.
#[derive(Clone, Copy, Debug, PartialEq, Eq, Structural)]
pub enum NodeKind {
    ADD,
    SUB,
    MUL,
    DIV,
    EQ,
    NE,
    LT,
    LE,
    ASSIGN,
    LVAR,
    RETURN,
    NUM,
}

/// One AST node.  Binary kinds own two children; `RETURN` owns one (its
/// left child); `NUM` owns a 64-bit value and no children; `LVAR` owns a
/// byte offset and no children.
#[derive(Debug, PartialEq)]
pub struct Node {
    pub kind: NodeKind,
    pub lhs: Box<Option<Node>>,
    pub rhs: Box<Option<Node>>,
    pub val: Option<i64>,
    pub offset: Option<usize>,
}

/// A binary node with the two given children.
pub open spec fn node_bin(kind: NodeKind, l: Node, r: Node) -> Node {
    Node {
        kind,
        lhs: Box::new(Some(l)),
        rhs: Box::new(Some(r)),
        val: None,
        offset: None,
    }
}

/// A number-literal leaf.
pub open spec fn node_num(v: i64) -> Node {
    Node { kind: NodeKind::NUM, lhs: Box::new(None), rhs: Box::new(None), val: Some(v), offset: None }
}

/// A variable-reference leaf with its byte offset.
pub open spec fn node_lvar(off: usize) -> Node {
    Node {
        kind: NodeKind::LVAR,
        lhs: Box::new(None),
        rhs: Box::new(None),
        val: None,
        offset: Some(off),
    }
}

/// A return statement owning its value expression.
pub open spec fn node_ret(l: Node) -> Node {
    Node {
        kind: NodeKind::RETURN,
        lhs: Box::new(Some(l)),
        rhs: Box::new(None),
        val: None,
        offset: None,
    }
}

impl Node {
    /// A binary node.
    pub fn new(kind: NodeKind, lhs: Box<Option<Node>>, rhs: Box<Option<Node>>) -> (n: Node)
        ensures
            n == (Node { kind, lhs, rhs, val: None, offset: None }),
    {
        Node { kind, lhs, rhs, val: None, offset: None }
    }

    /// A number-literal leaf.
    pub fn new_num(val: i64) -> (n: Node)
        ensures
            n == node_num(val),
    {
        Node {
            kind: NodeKind::NUM,
            lhs: Box::new(None),
            rhs: Box::new(None),
            val: Some(val),
            offset: None,
        }
    }

    /// A variable-reference leaf.
    pub fn new_ident(offset: usize) -> (n: Node)
        ensures
            n == node_lvar(offset),
    {
        Node {
            kind: NodeKind::LVAR,
            lhs: Box::new(None),
            rhs: Box::new(None),
            val: None,
            offset: Some(offset),
        }
    }
}

/// One local variable: its name and the byte offset of its 8-byte slot.
#[derive(Debug)]
pub struct LVar {
    pub name: String,
    pub offset: usize,
}

/// The mathematical image of a local variable.
#[verifier::ext_equal]
pub struct LVarV {
    pub name: Seq<char>,
    pub offset: usize,
}

impl View for LVar {
    type V = LVarV;

    open spec fn view(&self) -> LVarV {
        LVarV { name: self.name@, offset: self.offset }
    }
}

/// The image of a variable table: each entry replaced by its view.
pub open spec fn lvs_of(ls: Seq<LVar>) -> Seq<LVarV> {
    ls.map_values(|l: LVar| l@)
}

/// A well-formed variable table: the `i`-th entry sits at byte offset
/// `8 * i`, and no two entries share a name.  Distinct names therefore
/// never alias one slot.
pub open spec fn wf_lvars(lvs: Seq<LVarV>) -> bool {
    (forall|i: int| 0 <= i < lvs.len() ==> #[trigger] lvs[i].offset as int == 8 * i)
        && (forall|i: int, j: int|
        0 <= i < j < lvs.len() ==> (#[trigger] lvs[i].name) != (#[trigger] lvs[j].name))
}

/// `lv2` begins with all of `lv1`, in order.
pub open spec fn extends(lv2: Seq<LVarV>, lv1: Seq<LVarV>) -> bool {
    lv2.len() >= lv1.len() && (forall|i: int| 0 <= i < lv1.len() ==> lv2[i] == lv1[i])
}

/// The first table entry with the given name, searched from index `i`.
pub open spec fn find_lv_from(lvs: Seq<LVarV>, name: Seq<char>, i: int) -> Option<usize>
    decreases lvs.len() - i,
{
    if !(0 <= i < lvs.len()) {
        None
    } else if lvs[i].name == name {
        Some(lvs[i].offset)
    } else {
        find_lv_from(lvs, name, i + 1)
    }
}

/// The offset a name resolves to, if the table already holds it.
pub open spec fn find_lv(lvs: Seq<LVarV>, name: Seq<char>) -> Option<usize> {
    find_lv_from(lvs, name, 0)
}

/// A name the search does not find stands nowhere in the table.
proof fn lemma_find_lv_none(lvs: Seq<LVarV>, name: Seq<char>, i: int)
    requires
        0 <= i,
        find_lv_from(lvs, name, i) is None,
    ensures
        forall|j: int| i <= j < lvs.len() ==> lvs[j].name != name,
    decreases lvs.len() - i,
{
    if i < lvs.len() {
        lemma_find_lv_none(lvs, name, i + 1);
    }
}

/// The token at `pos` is reserved punctuation with exactly this text.
pub open spec fn tk_is_reserved(t: Seq<TokenV>, pos: int, op: Seq<char>) -> bool {
    0 <= pos < t.len() && t[pos].kind == TokenKind::Reserved && t[pos].text == op
}

/// The token at `pos` has the given kind.
pub open spec fn tk_kind_at(t: Seq<TokenV>, pos: int, k: TokenKind) -> bool {
    0 <= pos < t.len() && t[pos].kind == k
}

/// All characters of `s` are decimal digits.
pub open spec fn all_digits(s: Seq<char>) -> bool {
    forall|i: int| 0 <= i < s.len() ==> is_digit(#[trigger] s[i])
}

/// The numeric value of one digit character.
pub open spec fn digit_of(c: char) -> int {
    c as u32 - 48
}

/// The value of a run of decimal digits, most significant first.
pub open spec fn digits_val(s: Seq<char>) -> int
    decreases s.len(),
{
    if s.len() == 0 {
        0
    } else {
        digits_val(s.drop_last()) * 10 + digit_of(s.last())
    }
}

/// Appending digits never shrinks the value of a digit run.
proof fn lemma_digits_val_grows(s: Seq<char>, i: int, j: int)
    requires
        0 <= i <= j <= s.len(),
        all_digits(s),
    ensures
        0 <= digits_val(s.take(i)) <= digits_val(s.take(j)),
    decreases j - i,
{
    if i == j {
        lemma_digits_val_nonneg(s.take(i));
    } else {
        lemma_digits_val_grows(s, i, j - 1);
        assert(s.take(j).drop_last() =~= s.take(j - 1));
        assert(is_digit(s[j - 1]));
    }
}

/// A digit run never has a negative value.
proof fn lemma_digits_val_nonneg(s: Seq<char>)
    requires
        all_digits(s),
    ensures
        digits_val(s) >= 0,
    decreases s.len(),
{
    if s.len() > 0 {
        assert(all_digits(s.drop_last())) by {
            assert(forall|i: int|
                0 <= i < s.len() - 1 ==> #[trigger] s.drop_last()[i] == s[i]);
        }
        lemma_digits_val_nonneg(s.drop_last());
        assert(is_digit(s.last()));
    }
}

/// What consuming a number token means: the token at `pos` must be a
/// nonempty all-digit run whose value fits the 64-bit signed target word.
pub open spec fn sp_expect_number(t: Seq<TokenV>, pos: int) -> Result<(i64, int), CompileError> {
    if tk_kind_at(t, pos, TokenKind::NUM) {
        let text = t[pos].text;
        if text.len() >= 1 && all_digits(text) && digits_val(text) <= i64::MAX as int {
            Ok((digits_val(text) as i64, pos + 1))
        } else {
            Err(CompileError::Syntax { at: pos as usize })
        }
    } else {
        Err(CompileError::Syntax { at: pos as usize })
    }
}

/// What demanding one reserved token means: step past it or fail there.
pub open spec fn sp_expect(t: Seq<TokenV>, pos: int, op: Seq<char>) -> Result<int, CompileError> {
    if tk_is_reserved(t, pos, op) {
        Ok(pos + 1)
    } else {
        Err(CompileError::Syntax { at: pos as usize })
    }
}

/// The result of one grammar level: the node built, the cursor after it,
/// and the variable table as it then stands.
pub type PRes = Result<(Node, int, Seq<LVarV>), CompileError>;

/// `primary := "(" expr ")" | IDENT | NUMBER`.  A fresh identifier is
/// allocated the next 8-byte slot; a known one resolves to its existing
/// offset.
pub open spec fn sp_primary(t: Seq<TokenV>, pos: int, lvs: Seq<LVarV>) -> PRes
    decreases t.len() - pos, 0int,
{
    if tk_is_reserved(t, pos, seq!['(']) {
        match sp_expr(t, pos + 1, lvs) {
            Ok((n, p2, lv2)) => match sp_expect(t, p2, seq![')']) {
                Ok(p3) => Ok((n, p3, lv2)),
                Err(e) => Err(e),
            },
            Err(e) => Err(e),
        }
    } else if tk_kind_at(t, pos, TokenKind::IDENT) {
        let name = t[pos].text;
        match find_lv(lvs, name) {
            Some(off) => Ok((node_lvar(off), pos + 1, lvs)),
            None => {
                if 8 * lvs.len() > usize::MAX as int {
                    Err(CompileError::Internal)
                } else {
                    let off = (8 * lvs.len()) as usize;
                    Ok((node_lvar(off), pos + 1, lvs.push(LVarV { name, offset: off })))
                }
            },
        }
    } else {
        match sp_expect_number(t, pos) {
            Ok((v, p2)) => Ok((node_num(v), p2, lvs)),
            Err(e) => Err(e),
        }
    }
}

/// `unary := ("+" | "-")? primary`; minus desugars to `0 - x`.
pub open spec fn sp_unary(t: Seq<TokenV>, pos: int, lvs: Seq<LVarV>) -> PRes
    decreases t.len() - pos, 1int,
{
    if tk_is_reserved(t, pos, seq!['+']) {
        sp_unary(t, pos + 1, lvs)
    } else if tk_is_reserved(t, pos, seq!['-']) {
        match sp_unary(t, pos + 1, lvs) {
            Ok((n, p2, lv2)) => Ok((node_bin(NodeKind::SUB, node_num(0), n), p2, lv2)),
            Err(e) => Err(e),
        }
    } else {
        sp_primary(t, pos, lvs)
    }
}

/// The left fold of `mul`: keep absorbing `* unary` or `/ unary`.
pub open spec fn sp_mul_loop(t: Seq<TokenV>, n: Node, pos: int, lvs: Seq<LVarV>) -> PRes
    decreases t.len() - pos, 2int,
{
    if tk_is_reserved(t, pos, seq!['*']) {
        match sp_unary(t, pos + 1, lvs) {
            Ok((r, p2, lv2)) => if pos < p2 <= t.len() {
                sp_mul_loop(t, node_bin(NodeKind::MUL, n, r), p2, lv2)
            } else {
                Err(CompileError::Internal)
            },
            Err(e) => Err(e),
        }
    } else if tk_is_reserved(t, pos, seq!['/']) {
        match sp_unary(t, pos + 1, lvs) {
            Ok((r, p2, lv2)) => if pos < p2 <= t.len() {
                sp_mul_loop(t, node_bin(NodeKind::DIV, n, r), p2, lv2)
            } else {
                Err(CompileError::Internal)
            },
            Err(e) => Err(e),
        }
    } else {
        Ok((n, pos, lvs))
    }
}

/// `mul := unary ( ("*" | "/") unary )*`.
pub open spec fn sp_mul(t: Seq<TokenV>, pos: int, lvs: Seq<LVarV>) -> PRes
    decreases t.len() - pos, 3int,
{
    match sp_unary(t, pos, lvs) {
        Ok((n, p2, lv2)) => if pos <= p2 <= t.len() {
            sp_mul_loop(t, n, p2, lv2)
        } else {
            Err(CompileError::Internal)
        },
        Err(e) => Err(e),
    }
}

/// The left fold of `add`: keep absorbing `+ mul` or `- mul`.
pub open spec fn sp_add_loop(t: Seq<TokenV>, n: Node, pos: int, lvs: Seq<LVarV>) -> PRes
    decreases t.len() - pos, 4int,
{
    if tk_is_reserved(t, pos, seq!['+']) {
        match sp_mul(t, pos + 1, lvs) {
            Ok((r, p2, lv2)) => if pos < p2 <= t.len() {
                sp_add_loop(t, node_bin(NodeKind::ADD, n, r), p2, lv2)
            } else {
                Err(CompileError::Internal)
            },
            Err(e) => Err(e),
        }
    } else if tk_is_reserved(t, pos, seq!['-']) {
        match sp_mul(t, pos + 1, lvs) {
            Ok((r, p2, lv2)) => if pos < p2 <= t.len() {
                sp_add_loop(t, node_bin(NodeKind::SUB, n, r), p2, lv2)
            } else {
                Err(CompileError::Internal)
            },
            Err(e) => Err(e),
        }
    } else {
        Ok((n, pos, lvs))
    }
}

/// `add := mul ( ("+" | "-") mul )*`.
pub open spec fn sp_add(t: Seq<TokenV>, pos: int, lvs: Seq<LVarV>) -> PRes
    decreases t.len() - pos, 5int,
{
    match sp_mul(t, pos, lvs) {
        Ok((n, p2, lv2)) => if pos <= p2 <= t.len() {
            sp_add_loop(t, n, p2, lv2)
        } else {
            Err(CompileError::Internal)
        },
        Err(e) => Err(e),
    }
}

/// The left fold of `relational`.  `>` and `>=` swap operands and reuse
/// the `<`/`<=` node kinds: a normalization, not an operator of its own.
pub open spec fn sp_rel_loop(t: Seq<TokenV>, n: Node, pos: int, lvs: Seq<LVarV>) -> PRes
    decreases t.len() - pos, 6int,
{
    if tk_is_reserved(t, pos, seq!['<']) {
        match sp_add(t, pos + 1, lvs) {
            Ok((r, p2, lv2)) => if pos < p2 <= t.len() {
                sp_rel_loop(t, node_bin(NodeKind::LT, n, r), p2, lv2)
            } else {
                Err(CompileError::Internal)
            },
            Err(e) => Err(e),
        }
    } else if tk_is_reserved(t, pos, seq!['<', '=']) {
        match sp_add(t, pos + 1, lvs) {
            Ok((r, p2, lv2)) => if pos < p2 <= t.len() {
                sp_rel_loop(t, node_bin(NodeKind::LE, n, r), p2, lv2)
            } else {
                Err(CompileError::Internal)
            },
            Err(e) => Err(e),
        }
    } else if tk_is_reserved(t, pos, seq!['>']) {
        match sp_add(t, pos + 1, lvs) {
            Ok((r, p2, lv2)) => if pos < p2 <= t.len() {
                sp_rel_loop(t, node_bin(NodeKind::LT, r, n), p2, lv2)
            } else {
                Err(CompileError::Internal)
            },
            Err(e) => Err(e),
        }
    } else if tk_is_reserved(t, pos, seq!['>', '=']) {
        match sp_add(t, pos + 1, lvs) {
            Ok((r, p2, lv2)) => if pos < p2 <= t.len() {
                sp_rel_loop(t, node_bin(NodeKind::LE, r, n), p2, lv2)
            } else {
                Err(CompileError::Internal)
            },
            Err(e) => Err(e),
        }
    } else {
        Ok((n, pos, lvs))
    }
}

/// `relational := add ( ("<" | "<=" | ">" | ">=") add )*`.
pub open spec fn sp_relational(t: Seq<TokenV>, pos: int, lvs: Seq<LVarV>) -> PRes
    decreases t.len() - pos, 7int,
{
    match sp_add(t, pos, lvs) {
        Ok((n, p2, lv2)) => if pos <= p2 <= t.len() {
            sp_rel_loop(t, n, p2, lv2)
        } else {
            Err(CompileError::Internal)
        },
        Err(e) => Err(e),
    }
}

/// The left fold of `equality`.
pub open spec fn sp_eq_loop(t: Seq<TokenV>, n: Node, pos: int, lvs: Seq<LVarV>) -> PRes
    decreases t.len() - pos, 8int,
{
    if tk_is_reserved(t, pos, seq!['=', '=']) {
        match sp_relational(t, pos + 1, lvs) {
            Ok((r, p2, lv2)) => if pos < p2 <= t.len() {
                sp_eq_loop(t, node_bin(NodeKind::EQ, n, r), p2, lv2)
            } else {
                Err(CompileError::Internal)
            },
            Err(e) => Err(e),
        }
    } else if tk_is_reserved(t, pos, seq!['!', '=']) {
        match sp_relational(t, pos + 1, lvs) {
            Ok((r, p2, lv2)) => if pos < p2 <= t.len() {
                sp_eq_loop(t, node_bin(NodeKind::NE, n, r), p2, lv2)
            } else {
                Err(CompileError::Internal)
            },
            Err(e) => Err(e),
        }
    } else {
        Ok((n, pos, lvs))
    }
}

/// `equality := relational ( ("==" | "!=") relational )*`.
pub open spec fn sp_equality(t: Seq<TokenV>, pos: int, lvs: Seq<LVarV>) -> PRes
    decreases t.len() - pos, 9int,
{
    match sp_relational(t, pos, lvs) {
        Ok((n, p2, lv2)) => if pos <= p2 <= t.len() {
            sp_eq_loop(t, n, p2, lv2)
        } else {
            Err(CompileError::Internal)
        },
        Err(e) => Err(e),
    }
}

/// `assign := equality ( "=" assign )?`: right-associative, so the
/// right-hand side is itself a full `assign`.
pub open spec fn sp_assign(t: Seq<TokenV>, pos: int, lvs: Seq<LVarV>) -> PRes
    decreases t.len() - pos, 10int,
{
    match sp_equality(t, pos, lvs) {
        Ok((n, p2, lv2)) => if tk_is_reserved(t, p2, seq!['=']) {
            if pos <= p2 {
                match sp_assign(t, p2 + 1, lv2) {
                    Ok((r, p3, lv3)) => Ok((node_bin(NodeKind::ASSIGN, n, r), p3, lv3)),
                    Err(e) => Err(e),
                }
            } else {
                Err(CompileError::Internal)
            }
        } else {
            Ok((n, p2, lv2))
        },
        Err(e) => Err(e),
    }
}

/// `expr := assign`.
pub open spec fn sp_expr(t: Seq<TokenV>, pos: int, lvs: Seq<LVarV>) -> PRes
    decreases t.len() - pos, 11int,
{
    sp_assign(t, pos, lvs)
}

/// `statement := "return" expr ";" | expr ";"`.
pub open spec fn sp_stmt(t: Seq<TokenV>, pos: int, lvs: Seq<LVarV>) -> PRes
    decreases t.len() - pos, 12int,
{
    if tk_kind_at(t, pos, TokenKind::RETURN) {
        match sp_expr(t, pos + 1, lvs) {
            Ok((n, p2, lv2)) => match sp_expect(t, p2, seq![';']) {
                Ok(p3) => Ok((node_ret(n), p3, lv2)),
                Err(e) => Err(e),
            },
            Err(e) => Err(e),
        }
    } else {
        match sp_expr(t, pos, lvs) {
            Ok((n, p2, lv2)) => match sp_expect(t, p2, seq![';']) {
                Ok(p3) => Ok((n, p3, lv2)),
                Err(e) => Err(e),
            },
            Err(e) => Err(e),
        }
    }
}

/// `program := statement* EOF`: statements accumulate in source order
/// until the end marker stands at the cursor.
pub open spec fn sp_program(t: Seq<TokenV>, pos: int, lvs: Seq<LVarV>, acc: Seq<Node>) -> Result<
    (Seq<Node>, Seq<LVarV>),
    CompileError,
>
    decreases t.len() - pos, 13int,
{
    if tk_kind_at(t, pos, TokenKind::EOF) {
        Ok((acc, lvs))
    } else {
        match sp_stmt(t, pos, lvs) {
            Ok((n, p2, lv2)) => if pos < p2 <= t.len() {
                sp_program(t, p2, lv2, acc.push(n))
            } else {
                Err(CompileError::Internal)
            },
            Err(e) => Err(e),
        }
    }
}

/// What parsing a whole token sequence from a fresh builder means.
pub open spec fn sp_parse(t: Seq<TokenV>) -> Result<(Seq<Node>, Seq<LVarV>), CompileError> {
    sp_program(t, 0, Seq::empty(), Seq::empty())
}

/// Prefix extension is transitive.
proof fn lemma_extends_trans(a: Seq<LVarV>, b: Seq<LVarV>, c: Seq<LVarV>)
    requires
        extends(a, b),
        extends(b, c),
    ensures
        extends(a, c),
{
    assert forall|i: int| 0 <= i < c.len() implies a[i] == c[i] by {
        assert(b[i] == c[i]);
        assert(a[i] == b[i]);
    }
}

/// What every successful grammar level guarantees: the cursor moved
/// forward (strictly, for the levels that always consume), stayed within
/// the tokens, and the variable table only grew, staying well formed.
pub open spec fn level_ok(
    res: PRes,
    pos: int,
    len: int,
    lvs: Seq<LVarV>,
    strict: bool,
) -> bool {
    match res {
        Ok((n, p2, lv2)) => (if strict {
            pos < p2
        } else {
            pos <= p2
        }) && p2 <= len && extends(lv2, lvs) && (wf_lvars(lvs) ==> wf_lvars(lv2)),
        Err(e) => true,
    }
}

proof fn lemma_primary_b(t: Seq<TokenV>, pos: int, lvs: Seq<LVarV>)
    requires
        0 <= pos <= t.len(),
    ensures
        level_ok(sp_primary(t, pos, lvs), pos, t.len() as int, lvs, true),
    decreases t.len() - pos, 0int,
{
    if tk_is_reserved(t, pos, seq!['(']) {
        lemma_expr_b(t, pos + 1, lvs);
    } else if tk_kind_at(t, pos, TokenKind::IDENT) {
        let name = t[pos].text;
        if find_lv(lvs, name) is None && 8 * lvs.len() <= usize::MAX as int {
            lemma_find_lv_none(lvs, name, 0);
            let off = (8 * lvs.len()) as usize;
            let lv2 = lvs.push(LVarV { name, offset: off });
            if wf_lvars(lvs) {
                assert forall|i: int| 0 <= i < lv2.len() implies #[trigger] lv2[i].offset as int
                    == 8 * i by {
                    if i < lvs.len() {
                        assert(lv2[i] == lvs[i]);
                    } else {
                        assert(lv2[i] == LVarV { name, offset: off });
                    }
                }
                assert forall|i: int, j: int|
                    0 <= i < j < lv2.len() implies (#[trigger] lv2[i].name)
                    != (#[trigger] lv2[j].name) by {
                    if j < lvs.len() {
                        assert(lv2[i] == lvs[i] && lv2[j] == lvs[j]);
                    } else {
                        assert(lv2[i] == lvs[i]);
                        assert(lv2[j].name == name);
                        assert(lvs[i].name != name);
                    }
                }
                assert(wf_lvars(lv2));
            }
        }
    } else {
    }
}

proof fn lemma_unary_b(t: Seq<TokenV>, pos: int, lvs: Seq<LVarV>)
    requires
        0 <= pos <= t.len(),
    ensures
        level_ok(sp_unary(t, pos, lvs), pos, t.len() as int, lvs, true),
    decreases t.len() - pos, 1int,
{
    if tk_is_reserved(t, pos, seq!['+']) {
        lemma_unary_b(t, pos + 1, lvs);
    } else if tk_is_reserved(t, pos, seq!['-']) {
        lemma_unary_b(t, pos + 1, lvs);
    } else {
        lemma_primary_b(t, pos, lvs);
    }
}

proof fn lemma_mul_loop_b(t: Seq<TokenV>, n: Node, pos: int, lvs: Seq<LVarV>)
    requires
        0 <= pos <= t.len(),
    ensures
        level_ok(sp_mul_loop(t, n, pos, lvs), pos, t.len() as int, lvs, false),
    decreases t.len() - pos, 2int,
{
    if tk_is_reserved(t, pos, seq!['*']) || tk_is_reserved(t, pos, seq!['/']) {
        lemma_unary_b(t, pos + 1, lvs);
        match sp_unary(t, pos + 1, lvs) {
            Ok((rn, p2, lv2)) => {
                if pos < p2 <= t.len() {
                    let kind = if tk_is_reserved(t, pos, seq!['*']) {
                        NodeKind::MUL
                    } else {
                        NodeKind::DIV
                    };
                    lemma_mul_loop_b(t, node_bin(kind, n, rn), p2, lv2);
                    match sp_mul_loop(t, node_bin(kind, n, rn), p2, lv2) {
                        Ok((m, p3, lv3)) => lemma_extends_trans(lv3, lv2, lvs),
                        Err(_) => {},
                    }
                }
            },
            Err(_) => {},
        }
    }
}

proof fn lemma_mul_b(t: Seq<TokenV>, pos: int, lvs: Seq<LVarV>)
    requires
        0 <= pos <= t.len(),
    ensures
        level_ok(sp_mul(t, pos, lvs), pos, t.len() as int, lvs, true),
    decreases t.len() - pos, 3int,
{
    lemma_unary_b(t, pos, lvs);
    match sp_unary(t, pos, lvs) {
        Ok((n, p2, lv2)) => {
            if pos <= p2 <= t.len() {
                lemma_mul_loop_b(t, n, p2, lv2);
                match sp_mul_loop(t, n, p2, lv2) {
                    Ok((m, p3, lv3)) => lemma_extends_trans(lv3, lv2, lvs),
                    Err(_) => {},
                }
            }
        },
        Err(_) => {},
    }
}

proof fn lemma_add_loop_b(t: Seq<TokenV>, n: Node, pos: int, lvs: Seq<LVarV>)
    requires
        0 <= pos <= t.len(),
    ensures
        level_ok(sp_add_loop(t, n, pos, lvs), pos, t.len() as int, lvs, false),
    decreases t.len() - pos, 4int,
{
    if tk_is_reserved(t, pos, seq!['+']) || tk_is_reserved(t, pos, seq!['-']) {
        lemma_mul_b(t, pos + 1, lvs);
        match sp_mul(t, pos + 1, lvs) {
            Ok((rn, p2, lv2)) => {
                if pos < p2 <= t.len() {
                    let kind = if tk_is_reserved(t, pos, seq!['+']) {
                        NodeKind::ADD
                    } else {
                        NodeKind::SUB
                    };
                    lemma_add_loop_b(t, node_bin(kind, n, rn), p2, lv2);
                    match sp_add_loop(t, node_bin(kind, n, rn), p2, lv2) {
                        Ok((m, p3, lv3)) => lemma_extends_trans(lv3, lv2, lvs),
                        Err(_) => {},
                    }
                }
            },
            Err(_) => {},
        }
    }
}

proof fn lemma_add_b(t: Seq<TokenV>, pos: int, lvs: Seq<LVarV>)
    requires
        0 <= pos <= t.len(),
    ensures
        level_ok(sp_add(t, pos, lvs), pos, t.len() as int, lvs, true),
    decreases t.len() - pos, 5int,
{
    lemma_mul_b(t, pos, lvs);
    match sp_mul(t, pos, lvs) {
        Ok((n, p2, lv2)) => {
            if pos <= p2 <= t.len() {
                lemma_add_loop_b(t, n, p2, lv2);
                match sp_add_loop(t, n, p2, lv2) {
                    Ok((m, p3, lv3)) => lemma_extends_trans(lv3, lv2, lvs),
                    Err(_) => {},
                }
            }
        },
        Err(_) => {},
    }
}

proof fn lemma_rel_loop_b(t: Seq<TokenV>, n: Node, pos: int, lvs: Seq<LVarV>)
    requires
        0 <= pos <= t.len(),
    ensures
        level_ok(sp_rel_loop(t, n, pos, lvs), pos, t.len() as int, lvs, false),
    decreases t.len() - pos, 6int,
{
    if tk_is_reserved(t, pos, seq!['<']) || tk_is_reserved(t, pos, seq!['<', '='])
        || tk_is_reserved(t, pos, seq!['>']) || tk_is_reserved(t, pos, seq!['>', '=']) {
        lemma_add_b(t, pos + 1, lvs);
        match sp_add(t, pos + 1, lvs) {
            Ok((rn, p2, lv2)) => {
                if pos < p2 <= t.len() {
                    let next = if tk_is_reserved(t, pos, seq!['<']) {
                        node_bin(NodeKind::LT, n, rn)
                    } else if tk_is_reserved(t, pos, seq!['<', '=']) {
                        node_bin(NodeKind::LE, n, rn)
                    } else if tk_is_reserved(t, pos, seq!['>']) {
                        node_bin(NodeKind::LT, rn, n)
                    } else {
                        node_bin(NodeKind::LE, rn, n)
                    };
                    lemma_rel_loop_b(t, next, p2, lv2);
                    match sp_rel_loop(t, next, p2, lv2) {
                        Ok((m, p3, lv3)) => lemma_extends_trans(lv3, lv2, lvs),
                        Err(_) => {},
                    }
                }
            },
            Err(_) => {},
        }
    }
}

proof fn lemma_rel_b(t: Seq<TokenV>, pos: int, lvs: Seq<LVarV>)
    requires
        0 <= pos <= t.len(),
    ensures
        level_ok(sp_relational(t, pos, lvs), pos, t.len() as int, lvs, true),
    decreases t.len() - pos, 7int,
{
    lemma_add_b(t, pos, lvs);
    match sp_add(t, pos, lvs) {
        Ok((n, p2, lv2)) => {
            if pos <= p2 <= t.len() {
                lemma_rel_loop_b(t, n, p2, lv2);
                match sp_rel_loop(t, n, p2, lv2) {
                    Ok((m, p3, lv3)) => lemma_extends_trans(lv3, lv2, lvs),
                    Err(_) => {},
                }
            }
        },
        Err(_) => {},
    }
}

proof fn lemma_eq_loop_b(t: Seq<TokenV>, n: Node, pos: int, lvs: Seq<LVarV>)
    requires
        0 <= pos <= t.len(),
    ensures
        level_ok(sp_eq_loop(t, n, pos, lvs), pos, t.len() as int, lvs, false),
    decreases t.len() - pos, 8int,
{
    if tk_is_reserved(t, pos, seq!['=', '=']) || tk_is_reserved(t, pos, seq!['!', '=']) {
        lemma_rel_b(t, pos + 1, lvs);
        match sp_relational(t, pos + 1, lvs) {
            Ok((rn, p2, lv2)) => {
                if pos < p2 <= t.len() {
                    let kind = if tk_is_reserved(t, pos, seq!['=', '=']) {
                        NodeKind::EQ
                    } else {
                        NodeKind::NE
                    };
                    lemma_eq_loop_b(t, node_bin(kind, n, rn), p2, lv2);
                    match sp_eq_loop(t, node_bin(kind, n, rn), p2, lv2) {
                        Ok((m, p3, lv3)) => lemma_extends_trans(lv3, lv2, lvs),
                        Err(_) => {},
                    }
                }
            },
            Err(_) => {},
        }
    }
}

proof fn lemma_eq_b(t: Seq<TokenV>, pos: int, lvs: Seq<LVarV>)
    requires
        0 <= pos <= t.len(),
    ensures
        level_ok(sp_equality(t, pos, lvs), pos, t.len() as int, lvs, true),
    decreases t.len() - pos, 9int,
{
    lemma_rel_b(t, pos, lvs);
    match sp_relational(t, pos, lvs) {
        Ok((n, p2, lv2)) => {
            if pos <= p2 <= t.len() {
                lemma_eq_loop_b(t, n, p2, lv2);
                match sp_eq_loop(t, n, p2, lv2) {
                    Ok((m, p3, lv3)) => lemma_extends_trans(lv3, lv2, lvs),
                    Err(_) => {},
                }
            }
        },
        Err(_) => {},
    }
}

proof fn lemma_assign_b(t: Seq<TokenV>, pos: int, lvs: Seq<LVarV>)
    requires
        0 <= pos <= t.len(),
    ensures
        level_ok(sp_assign(t, pos, lvs), pos, t.len() as int, lvs, true),
    decreases t.len() - pos, 10int,
{
    lemma_eq_b(t, pos, lvs);
    match sp_equality(t, pos, lvs) {
        Ok((n, p2, lv2)) => {
            if tk_is_reserved(t, p2, seq!['=']) && pos <= p2 {
                lemma_assign_b(t, p2 + 1, lv2);
                match sp_assign(t, p2 + 1, lv2) {
                    Ok((rn, p3, lv3)) => lemma_extends_trans(lv3, lv2, lvs),
                    Err(_) => {},
                }
            }
        },
        Err(_) => {},
    }
}

proof fn lemma_expr_b(t: Seq<TokenV>, pos: int, lvs: Seq<LVarV>)
    requires
        0 <= pos <= t.len(),
    ensures
        level_ok(sp_expr(t, pos, lvs), pos, t.len() as int, lvs, true),
    decreases t.len() - pos, 11int,
{
    lemma_assign_b(t, pos, lvs);
}

proof fn lemma_stmt_b(t: Seq<TokenV>, pos: int, lvs: Seq<LVarV>)
    requires
        0 <= pos <= t.len(),
    ensures
        level_ok(sp_stmt(t, pos, lvs), pos, t.len() as int, lvs, true),
    decreases t.len() - pos, 12int,
{
    if tk_kind_at(t, pos, TokenKind::RETURN) {
        lemma_expr_b(t, pos + 1, lvs);
    } else {
        lemma_expr_b(t, pos, lvs);
    }
}

/// A successful whole-program parse keeps the variable table well formed
/// and only ever extends it.
pub proof fn lemma_program_b(t: Seq<TokenV>, pos: int, lvs: Seq<LVarV>, acc: Seq<Node>)
    requires
        0 <= pos <= t.len(),
    ensures
        match sp_program(t, pos, lvs, acc) {
            Ok((stmts, lvf)) => extends(lvf, lvs) && (wf_lvars(lvs) ==> wf_lvars(lvf)),
            Err(e) => true,
        },
    decreases t.len() - pos, 13int,
{
    if !tk_kind_at(t, pos, TokenKind::EOF) {
        lemma_stmt_b(t, pos, lvs);
        match sp_stmt(t, pos, lvs) {
            Ok((n, p2, lv2)) => {
                if pos < p2 <= t.len() {
                    lemma_program_b(t, p2, lv2, acc.push(n));
                    match sp_program(t, p2, lv2, acc.push(n)) {
                        Ok((stmts, lvf)) => lemma_extends_trans(lvf, lv2, lvs),
                        Err(_) => {},
                    }
                }
            },
            Err(_) => {},
        }
    }
}

/// The parser: an index cursor over the token vector, plus the
/// local-variable table grown on first sight of each identifier.
pub struct ASTBuilder {
    pub tokens: Vec<Token>,
    pub pos: usize,
    pub lvars: Vec<LVar>,
}

/// A parsing method keeps the builder well formed and the tokens intact,
/// and returns, moves the cursor and grows the table exactly as the spec
/// grammar level says.
pub open spec fn step_ok(
    pre: ASTBuilder,
    post: ASTBuilder,
    r: Result<Node, CompileError>,
    res: PRes,
) -> bool {
    post.wf() && post.toks() == pre.toks() && match res {
        Ok((n, p2, lv2)) => r == Ok::<Node, CompileError>(n) && post.pos as int == p2
            && post.lvs() == lv2,
        Err(e) => r == Err::<Node, CompileError>(e),
    }
}

impl ASTBuilder {
    /// The token views before the cursor and after it.
    pub open spec fn toks(self) -> Seq<TokenV> {
        toks_of(self.tokens@)
    }

    /// The view of the variable table.
    pub open spec fn lvs(self) -> Seq<LVarV> {
        lvs_of(self.lvars@)
    }

    /// The cursor never passes the end of the token vector.
    pub open spec fn wf(self) -> bool {
        self.pos <= self.tokens@.len()
    }

    /// A fresh builder over a token sequence, with an empty table.
    pub fn new(tokens: Vec<Token>) -> (b: ASTBuilder)
        ensures
            b.wf(),
            b.toks() == toks_of(tokens@),
            b.pos == 0,
            b.lvs() == Seq::<LVarV>::empty(),
    {
        let b = ASTBuilder { tokens, pos: 0, lvars: Vec::new() };
        proof {
            assert(b.lvs() =~= Seq::<LVarV>::empty());
        }
        b
    }

    /// The offset the table already assigns to this token's name, if any.
    pub fn find_lvar(&self, tok: &Token) -> (r: Option<usize>)
        ensures
            r == find_lv(self.lvs(), tok@.text),
    {
        let n = self.lvars.len();
        let mut i: usize = 0;
        while i < n
            invariant
                i <= n,
                n == self.lvars@.len(),
                find_lv(self.lvs(), tok@.text) == find_lv_from(self.lvs(), tok@.text, i as int),
            decreases n - i,
        {
            let lv = &self.lvars[i];
            if str_eq(lv.name.as_str(), tok.string.as_str()) {
                return Some(lv.offset);
            }
            i = i + 1;
        }
        None
    }

    /// Step past the given reserved token if it stands at the cursor.
    pub fn consume(&mut self, op: &str) -> (r: bool)
        requires
            old(self).wf(),
        ensures
            final(self).wf(),
            final(self).toks() == old(self).toks(),
            final(self).lvs() == old(self).lvs(),
            final(self).tokens@ == old(self).tokens@,
            final(self).lvars@ == old(self).lvars@,
            if tk_is_reserved(old(self).toks(), old(self).pos as int, op@) {
                r && final(self).pos == old(self).pos + 1
            } else {
                !r && final(self).pos == old(self).pos
            },
    {
        if self.pos < self.tokens.len() {
            let tk = &self.tokens[self.pos];
            if tk.kind == TokenKind::Reserved && str_eq(tk.string.as_str(), op) {
                self.pos = self.pos + 1;
                return true;
            }
            false
        } else {
            false
        }
    }

    /// Step past an identifier token, handing it back, if one stands at
    /// the cursor.
    pub fn consume_ident(&mut self) -> (r: Option<Token>)
        requires
            old(self).wf(),
        ensures
            final(self).wf(),
            final(self).toks() == old(self).toks(),
            final(self).lvs() == old(self).lvs(),
            final(self).tokens@ == old(self).tokens@,
            final(self).lvars@ == old(self).lvars@,
            if tk_kind_at(old(self).toks(), old(self).pos as int, TokenKind::IDENT) {
                r is Some && r->0@ == old(self).toks()[old(self).pos as int] && final(self).pos == old(
                    self,
                ).pos + 1
            } else {
                r is None && final(self).pos == old(self).pos
            },
    {
        if self.pos < self.tokens.len() {
            let tk = &self.tokens[self.pos];
            if tk.kind == TokenKind::IDENT {
                let name = tk.string.clone();
                let out = Token::new(TokenKind::IDENT, name);
                self.pos = self.pos + 1;
                return Some(out);
            }
        }
        None
    }

    /// Step past a `return` token, handing it back, if one stands at the
    /// cursor.
    pub fn consume_return(&mut self) -> (r: Option<Token>)
        requires
            old(self).wf(),
        ensures
            final(self).wf(),
            final(self).toks() == old(self).toks(),
            final(self).lvs() == old(self).lvs(),
            final(self).tokens@ == old(self).tokens@,
            final(self).lvars@ == old(self).lvars@,
            if tk_kind_at(old(self).toks(), old(self).pos as int, TokenKind::RETURN) {
                r is Some && final(self).pos == old(self).pos + 1
            } else {
                r is None && final(self).pos == old(self).pos
            },
    {
        if self.pos < self.tokens.len() {
            let tk = &self.tokens[self.pos];
            if tk.kind == TokenKind::RETURN {
                let name = tk.string.clone();
                let out = Token::new(TokenKind::RETURN, name);
                self.pos = self.pos + 1;
                return Some(out);
            }
        }
        None
    }

    /// Demand the given reserved token at the cursor; failing that is a
    /// syntax error at the cursor's token index.
    pub fn expect(&mut self, op: &str) -> (r: Result<(), CompileError>)
        requires
            old(self).wf(),
        ensures
            final(self).wf(),
            final(self).toks() == old(self).toks(),
            final(self).lvs() == old(self).lvs(),
            final(self).tokens@ == old(self).tokens@,
            final(self).lvars@ == old(self).lvars@,
            match sp_expect(old(self).toks(), old(self).pos as int, op@) {
                Ok(p2) => r is Ok && final(self).pos as int == p2,
                Err(e) => r == Err::<(), CompileError>(e) && final(self).pos == old(self).pos,
            },
    {
        if self.consume(op) {
            Ok(())
        } else {
            Err(CompileError::Syntax { at: self.pos })
        }
    }

    /// Demand a number token at the cursor and read its value: a
    /// nonempty all-digit run that fits the 64-bit signed target word.
    pub fn expect_number(&mut self) -> (r: Result<i64, CompileError>)
        requires
            old(self).wf(),
        ensures
            final(self).wf(),
            final(self).toks() == old(self).toks(),
            final(self).lvs() == old(self).lvs(),
            final(self).tokens@ == old(self).tokens@,
            final(self).lvars@ == old(self).lvars@,
            match sp_expect_number(old(self).toks(), old(self).pos as int) {
                Ok((v, p2)) => r == Ok::<i64, CompileError>(v) && final(self).pos as int == p2,
                Err(e) => r == Err::<i64, CompileError>(e) && final(self).pos == old(self).pos,
            },
    {
        if self.pos >= self.tokens.len() {
            return Err(CompileError::Syntax { at: self.pos });
        }
        let tk = &self.tokens[self.pos];
        if tk.kind != TokenKind::NUM {
            return Err(CompileError::Syntax { at: self.pos });
        }
        let ghost text = self.toks()[self.pos as int].text;
        let s2 = tk.string.as_str();
        let slen = s2.unicode_len();
        if slen == 0 {
            return Err(CompileError::Syntax { at: self.pos });
        }
        let mut acc: u64 = 0;
        let mut i: usize = 0;
        while i < slen
            invariant
                self.wf(),
                self.pos == old(self).pos,
                self.tokens@ == old(self).tokens@,
                self.lvars@ == old(self).lvars@,
                self.pos < self.tokens@.len(),
                text == self.toks()[self.pos as int].text,
                tk_kind_at(self.toks(), self.pos as int, TokenKind::NUM),
                i <= slen,
                slen == text.len(),
                s2@ == text,
                acc <= i64::MAX as u64,
                acc as int == digits_val(text.take(i as int)),
                forall|j: int| 0 <= j < i ==> is_digit(#[trigger] text[j]),
            decreases slen - i,
        {
            let c = s2.get_char(i);
            if !('0' <= c && c <= '9') {
                return Err(CompileError::Syntax { at: self.pos });
            }
            let d: u64 = (c as u32 - 48) as u64;
            proof {
                assert(text.take(i + 1).drop_last() =~= text.take(i as int));
                assert(text.take(i + 1).last() == text[i as int]);
                assert(digits_val(text.take(i + 1)) == acc * 10 + d);
            }
            if acc > (9223372036854775807u64 - d) / 10 {
                proof {
                    if all_digits(text) {
                        lemma_digits_val_grows(text, i + 1, text.len() as int);
                        assert(text.take(text.len() as int) =~= text);
                    }
                }
                return Err(CompileError::Syntax { at: self.pos });
            }
            acc = acc * 10 + d;
            i = i + 1;
        }
        proof {
            assert(text.take(slen as int) =~= text);
            assert(all_digits(text));
        }
        let v = acc as i64;
        self.pos = self.pos + 1;
        Ok(v)
    }

    /// Whether the end marker stands at the cursor.
    pub fn at_eof(&self) -> (r: bool)
        requires
            self.wf(),
        ensures
            r == tk_kind_at(self.toks(), self.pos as int, TokenKind::EOF),
    {
        if self.pos < self.tokens.len() {
            let tk = &self.tokens[self.pos];
            tk.kind == TokenKind::EOF
        } else {
            false
        }
    }

    /// `primary := "(" expr ")" | IDENT | NUMBER`.
    pub fn primary(&mut self) -> (r: Result<Node, CompileError>)
        requires
            old(self).wf(),
        ensures
            step_ok(
                *old(self),
                *final(self),
                r,
                sp_primary(old(self).toks(), old(self).pos as int, old(self).lvs()),
            ),
        decreases old(self).tokens@.len() - old(self).pos, 0int,
    {
        proof {
            reveal_strlit("(");
            reveal_strlit(")");
            assert("("@ =~= seq!['(']);
            assert(")"@ =~= seq![')']);
        }
        if self.consume("(") {
            match self.expr() {
                Err(e) => Err(e),
                Ok(n) => match self.expect(")") {
                    Err(e) => Err(e),
                    Ok(_) => Ok(n),
                },
            }
        } else {
            match self.consume_ident() {
                Some(tok) => {
                    let ghost tname = tok@.text;
                    match self.find_lvar(&tok) {
                        Some(off) => Ok(Node::new_ident(off)),
                        None => {
                            if self.lvars.len() > usize::MAX / 8 {
                                Err(CompileError::Internal)
                            } else {
                                let off = self.lvars.len() * 8;
                                let ghost oldl = self.lvs();
                                self.lvars.push(LVar { name: tok.string, offset: off });
                                proof {
                                    assert(self.lvs() =~~= oldl.push(
                                        LVarV { name: tname, offset: off },
                                    ));
                                }
                                Ok(Node::new_ident(off))
                            }
                        },
                    }
                },
                None => match self.expect_number() {
                    Err(e) => Err(e),
                    Ok(v) => Ok(Node::new_num(v)),
                },
            }
        }
    }

    /// `unary := ("+" | "-")? primary`; minus desugars to `0 - x`.
    pub fn unary(&mut self) -> (r: Result<Node, CompileError>)
        requires
            old(self).wf(),
        ensures
            step_ok(
                *old(self),
                *final(self),
                r,
                sp_unary(old(self).toks(), old(self).pos as int, old(self).lvs()),
            ),
        decreases old(self).tokens@.len() - old(self).pos, 1int,
    {
        proof {
            reveal_strlit("+");
            reveal_strlit("-");
            assert("+"@ =~= seq!['+']);
            assert("-"@ =~= seq!['-']);
        }
        if self.consume("+") {
            self.unary()
        } else if self.consume("-") {
            match self.unary() {
                Err(e) => Err(e),
                Ok(n) => Ok(
                    Node::new(
                        NodeKind::SUB,
                        Box::new(Some(Node::new_num(0))),
                        Box::new(Some(n)),
                    ),
                ),
            }
        } else {
            self.primary()
        }
    }

    /// The left fold of `mul`.
    pub fn mul_loop(&mut self, n: Node) -> (r: Result<Node, CompileError>)
        requires
            old(self).wf(),
        ensures
            step_ok(
                *old(self),
                *final(self),
                r,
                sp_mul_loop(old(self).toks(), n, old(self).pos as int, old(self).lvs()),
            ),
        decreases old(self).tokens@.len() - old(self).pos, 2int,
    {
        proof {
            reveal_strlit("*");
            reveal_strlit("/");
            assert("*"@ =~= seq!['*']);
            assert("/"@ =~= seq!['/']);
        }
        if self.consume("*") {
            match self.unary() {
                Err(e) => Err(e),
                Ok(rhs) => {
                    proof {
                        lemma_unary_b(old(self).toks(), old(self).pos as int + 1, old(self).lvs());
                    }
                    self.mul_loop(Node::new(NodeKind::MUL, Box::new(Some(n)), Box::new(Some(rhs))))
                },
            }
        } else if self.consume("/") {
            match self.unary() {
                Err(e) => Err(e),
                Ok(rhs) => {
                    proof {
                        lemma_unary_b(old(self).toks(), old(self).pos as int + 1, old(self).lvs());
                    }
                    self.mul_loop(Node::new(NodeKind::DIV, Box::new(Some(n)), Box::new(Some(rhs))))
                },
            }
        } else {
            Ok(n)
        }
    }

    /// `mul := unary ( ("*" | "/") unary )*`.
    pub fn mul(&mut self) -> (r: Result<Node, CompileError>)
        requires
            old(self).wf(),
        ensures
            step_ok(
                *old(self),
                *final(self),
                r,
                sp_mul(old(self).toks(), old(self).pos as int, old(self).lvs()),
            ),
        decreases old(self).tokens@.len() - old(self).pos, 3int,
    {
        match self.unary() {
            Err(e) => Err(e),
            Ok(n) => {
                proof {
                    lemma_unary_b(old(self).toks(), old(self).pos as int, old(self).lvs());
                }
                self.mul_loop(n)
            },
        }
    }

    /// The left fold of `add`.
    pub fn add_loop(&mut self, n: Node) -> (r: Result<Node, CompileError>)
        requires
            old(self).wf(),
        ensures
            step_ok(
                *old(self),
                *final(self),
                r,
                sp_add_loop(old(self).toks(), n, old(self).pos as int, old(self).lvs()),
            ),
        decreases old(self).tokens@.len() - old(self).pos, 4int,
    {
        proof {
            reveal_strlit("+");
            reveal_strlit("-");
            assert("+"@ =~= seq!['+']);
            assert("-"@ =~= seq!['-']);
        }
        if self.consume("+") {
            match self.mul() {
                Err(e) => Err(e),
                Ok(rhs) => {
                    proof {
                        lemma_mul_b(old(self).toks(), old(self).pos as int + 1, old(self).lvs());
                    }
                    self.add_loop(Node::new(NodeKind::ADD, Box::new(Some(n)), Box::new(Some(rhs))))
                },
            }
        } else if self.consume("-") {
            match self.mul() {
                Err(e) => Err(e),
                Ok(rhs) => {
                    proof {
                        lemma_mul_b(old(self).toks(), old(self).pos as int + 1, old(self).lvs());
                    }
                    self.add_loop(Node::new(NodeKind::SUB, Box::new(Some(n)), Box::new(Some(rhs))))
                },
            }
        } else {
            Ok(n)
        }
    }

    /// `add := mul ( ("+" | "-") mul )*`.
    pub fn add(&mut self) -> (r: Result<Node, CompileError>)
        requires
            old(self).wf(),
        ensures
            step_ok(
                *old(self),
                *final(self),
                r,
                sp_add(old(self).toks(), old(self).pos as int, old(self).lvs()),
            ),
        decreases old(self).tokens@.len() - old(self).pos, 5int,
    {
        match self.mul() {
            Err(e) => Err(e),
            Ok(n) => {
                proof {
                    lemma_mul_b(old(self).toks(), old(self).pos as int, old(self).lvs());
                }
                self.add_loop(n)
            },
        }
    }

    /// The left fold of `relational`; `>` and `>=` swap operands.
    pub fn relational_loop(&mut self, n: Node) -> (r: Result<Node, CompileError>)
        requires
            old(self).wf(),
        ensures
            step_ok(
                *old(self),
                *final(self),
                r,
                sp_rel_loop(old(self).toks(), n, old(self).pos as int, old(self).lvs()),
            ),
        decreases old(self).tokens@.len() - old(self).pos, 6int,
    {
        proof {
            reveal_strlit("<");
            reveal_strlit("<=");
            reveal_strlit(">");
            reveal_strlit(">=");
            assert("<"@ =~= seq!['<']);
            assert("<="@ =~= seq!['<', '=']);
            assert(">"@ =~= seq!['>']);
            assert(">="@ =~= seq!['>', '=']);
        }
        if self.consume("<") {
            match self.add() {
                Err(e) => Err(e),
                Ok(rhs) => {
                    proof {
                        lemma_add_b(old(self).toks(), old(self).pos as int + 1, old(self).lvs());
                    }
                    self.relational_loop(
                        Node::new(NodeKind::LT, Box::new(Some(n)), Box::new(Some(rhs))),
                    )
                },
            }
        } else if self.consume("<=") {
            match self.add() {
                Err(e) => Err(e),
                Ok(rhs) => {
                    proof {
                        lemma_add_b(old(self).toks(), old(self).pos as int + 1, old(self).lvs());
                    }
                    self.relational_loop(
                        Node::new(NodeKind::LE, Box::new(Some(n)), Box::new(Some(rhs))),
                    )
                },
            }
        } else if self.consume(">") {
            match self.add() {
                Err(e) => Err(e),
                Ok(rhs) => {
                    proof {
                        lemma_add_b(old(self).toks(), old(self).pos as int + 1, old(self).lvs());
                    }
                    self.relational_loop(
                        Node::new(NodeKind::LT, Box::new(Some(rhs)), Box::new(Some(n))),
                    )
                },
            }
        } else if self.consume(">=") {
            match self.add() {
                Err(e) => Err(e),
                Ok(rhs) => {
                    proof {
                        lemma_add_b(old(self).toks(), old(self).pos as int + 1, old(self).lvs());
                    }
                    self.relational_loop(
                        Node::new(NodeKind::LE, Box::new(Some(rhs)), Box::new(Some(n))),
                    )
                },
            }
        } else {
            Ok(n)
        }
    }

    /// `relational := add ( ("<" | "<=" | ">" | ">=") add )*`.
    pub fn relational(&mut self) -> (r: Result<Node, CompileError>)
        requires
            old(self).wf(),
        ensures
            step_ok(
                *old(self),
                *final(self),
                r,
                sp_relational(old(self).toks(), old(self).pos as int, old(self).lvs()),
            ),
        decreases old(self).tokens@.len() - old(self).pos, 7int,
    {
        match self.add() {
            Err(e) => Err(e),
            Ok(n) => {
                proof {
                    lemma_add_b(old(self).toks(), old(self).pos as int, old(self).lvs());
                }
                self.relational_loop(n)
            },
        }
    }

    /// The left fold of `equality`.
    pub fn equality_loop(&mut self, n: Node) -> (r: Result<Node, CompileError>)
        requires
            old(self).wf(),
        ensures
            step_ok(
                *old(self),
                *final(self),
                r,
                sp_eq_loop(old(self).toks(), n, old(self).pos as int, old(self).lvs()),
            ),
        decreases old(self).tokens@.len() - old(self).pos, 8int,
    {
        proof {
            reveal_strlit("==");
            reveal_strlit("!=");
            assert("=="@ =~= seq!['=', '=']);
            assert("!="@ =~= seq!['!', '=']);
        }
        if self.consume("==") {
            match self.relational() {
                Err(e) => Err(e),
                Ok(rhs) => {
                    proof {
                        lemma_rel_b(old(self).toks(), old(self).pos as int + 1, old(self).lvs());
                    }
                    self.equality_loop(
                        Node::new(NodeKind::EQ, Box::new(Some(n)), Box::new(Some(rhs))),
                    )
                },
            }
        } else if self.consume("!=") {
            match self.relational() {
                Err(e) => Err(e),
                Ok(rhs) => {
                    proof {
                        lemma_rel_b(old(self).toks(), old(self).pos as int + 1, old(self).lvs());
                    }
                    self.equality_loop(
                        Node::new(NodeKind::NE, Box::new(Some(n)), Box::new(Some(rhs))),
                    )
                },
            }
        } else {
            Ok(n)
        }
    }

    /// `equality := relational ( ("==" | "!=") relational )*`.
    pub fn equality(&mut self) -> (r: Result<Node, CompileError>)
        requires
            old(self).wf(),
        ensures
            step_ok(
                *old(self),
                *final(self),
                r,
                sp_equality(old(self).toks(), old(self).pos as int, old(self).lvs()),
            ),
        decreases old(self).tokens@.len() - old(self).pos, 9int,
    {
        match self.relational() {
            Err(e) => Err(e),
            Ok(n) => {
                proof {
                    lemma_rel_b(old(self).toks(), old(self).pos as int, old(self).lvs());
                }
                self.equality_loop(n)
            },
        }
    }

    /// `assign := equality ( "=" assign )?`: right-associative.
    pub fn assign(&mut self) -> (r: Result<Node, CompileError>)
        requires
            old(self).wf(),
        ensures
            step_ok(
                *old(self),
                *final(self),
                r,
                sp_assign(old(self).toks(), old(self).pos as int, old(self).lvs()),
            ),
        decreases old(self).tokens@.len() - old(self).pos, 10int,
    {
        proof {
            reveal_strlit("=");
            assert("="@ =~= seq!['=']);
        }
        match self.equality() {
            Err(e) => Err(e),
            Ok(n) => {
                proof {
                    lemma_eq_b(old(self).toks(), old(self).pos as int, old(self).lvs());
                }
                if self.consume("=") {
                    match self.assign() {
                        Err(e) => Err(e),
                        Ok(rhs) => Ok(
                            Node::new(NodeKind::ASSIGN, Box::new(Some(n)), Box::new(Some(rhs))),
                        ),
                    }
                } else {
                    Ok(n)
                }
            },
        }
    }

    /// `expr := assign`.
    pub fn expr(&mut self) -> (r: Result<Node, CompileError>)
        requires
            old(self).wf(),
        ensures
            step_ok(
                *old(self),
                *final(self),
                r,
                sp_expr(old(self).toks(), old(self).pos as int, old(self).lvs()),
            ),
        decreases old(self).tokens@.len() - old(self).pos, 11int,
    {
        self.assign()
    }

    /// `statement := "return" expr ";" | expr ";"`.
    pub fn stmt(&mut self) -> (r: Result<Node, CompileError>)
        requires
            old(self).wf(),
        ensures
            step_ok(
                *old(self),
                *final(self),
                r,
                sp_stmt(old(self).toks(), old(self).pos as int, old(self).lvs()),
            ),
        decreases old(self).tokens@.len() - old(self).pos, 12int,
    {
        proof {
            reveal_strlit(";");
            assert(";"@ =~= seq![';']);
        }
        let ret_tok = self.consume_return();
        let node = match ret_tok {
            Some(_) => match self.expr() {
                Err(e) => return Err(e),
                Ok(n) => Node::new(NodeKind::RETURN, Box::new(Some(n)), Box::new(None)),
            },
            None => match self.expr() {
                Err(e) => return Err(e),
                Ok(n) => n,
            },
        };
        match self.expect(";") {
            Err(e) => Err(e),
            Ok(_) => Ok(node),
        }
    }

    /// Parse statements into `code` until the end marker is reached.
    fn program_rest(&mut self, code: &mut Vec<Node>) -> (r: Result<(), CompileError>)
        requires
            old(self).wf(),
        ensures
            final(self).wf(),
            final(self).toks() == old(self).toks(),
            match sp_program(
                old(self).toks(),
                old(self).pos as int,
                old(self).lvs(),
                old(code)@,
            ) {
                Ok((stmts, lvf)) => r is Ok && final(code)@ == stmts && final(self).lvs() == lvf,
                Err(e) => r == Err::<(), CompileError>(e),
            },
        decreases old(self).tokens@.len() - old(self).pos, 13int,
    {
        if self.at_eof() {
            return Ok(());
        }
        match self.stmt() {
            Err(e) => Err(e),
            Ok(n) => {
                proof {
                    lemma_stmt_b(old(self).toks(), old(self).pos as int, old(self).lvs());
                }
                code.push(n);
                self.program_rest(code)
            },
        }
    }

    /// `program := statement* EOF`: the statement trees in source order.
    pub fn program(&mut self) -> (r: Result<Vec<Node>, CompileError>)
        requires
            old(self).wf(),
        ensures
            final(self).wf(),
            final(self).toks() == old(self).toks(),
            match sp_program(
                old(self).toks(),
                old(self).pos as int,
                old(self).lvs(),
                Seq::<Node>::empty(),
            ) {
                Ok((stmts, lvf)) => r is Ok && r->Ok_0@ == stmts && final(self).lvs() == lvf,
                Err(e) => r == Err::<Vec<Node>, CompileError>(e),
            },
    {
        let mut code: Vec<Node> = Vec::new();
        proof {
            assert(code@ =~= Seq::<Node>::empty());
        }
        match self.program_rest(&mut code) {
            Err(e) => Err(e),
            Ok(_) => Ok(code),
        }
    }

    /// Parse the whole token sequence: the statement forest plus, held in
    /// the builder, the finished variable table.
    pub fn parse(&mut self) -> (r: Result<Vec<Node>, CompileError>)
        requires
            old(self).wf(),
        ensures
            final(self).wf(),
            final(self).toks() == old(self).toks(),
            match sp_program(
                old(self).toks(),
                old(self).pos as int,
                old(self).lvs(),
                Seq::<Node>::empty(),
            ) {
                Ok((stmts, lvf)) => r is Ok && r->Ok_0@ == stmts && final(self).lvs() == lvf,
                Err(e) => r == Err::<Vec<Node>, CompileError>(e),
            },
    {
        self.program()
    }
}

} // verus!
