//! What the source language itself means, stated over the AST: an
//! environment maps each variable's byte offset to its stored value, an
//! expression yields a value and a possibly updated environment, and a
//! program yields the value of its last statement, or of the first
//! `return` reached.  Reading a variable never assigned, dividing by
//! zero, or overflowing the division has no defined result.

use vstd::prelude::*;
use vstd::wrapping::i64_specs;

use crate::ast::{Node, NodeKind};
use crate::machine::tdiv;

verus! {

/// The value a binary operator computes from its two operands, with the
/// target's wrapping arithmetic and 0/1 comparisons.
pub open spec fn apply_op(k: NodeKind, a: i64, b: i64) -> Option<i64> {
    if k == NodeKind::ADD {
        Some(i64_specs::wrapping_add(a, b))
    } else if k == NodeKind::SUB {
        Some(i64_specs::wrapping_sub(a, b))
    } else if k == NodeKind::MUL {
        Some(i64_specs::wrapping_mul(a, b))
    } else if k == NodeKind::DIV {
        if b == 0 || (a == i64::MIN && b == -1) {
            None
        } else {
            Some(tdiv(a as int, b as int) as i64)
        }
    } else if k == NodeKind::EQ {
        Some(if a == b { 1i64 } else { 0i64 })
    } else if k == NodeKind::NE {
        Some(if a != b { 1i64 } else { 0i64 })
    } else if k == NodeKind::LT {
        Some(if a < b { 1i64 } else { 0i64 })
    } else if k == NodeKind::LE {
        Some(if a <= b { 1i64 } else { 0i64 })
    } else {
        None
    }
}

/// Evaluate one expression tree: its value and the environment after its
/// side effects.  An assignment stores into its target's slot and is
/// itself worth the assigned value.
pub open spec fn sp_eval(n: Node, env: Map<int, i64>) -> Option<(i64, Map<int, i64>)>
    decreases n,
{
    match n.kind {
        NodeKind::NUM => match n.val {
            Some(v) => Some((v, env)),
            None => None,
        },
        NodeKind::LVAR => match n.offset {
            Some(off) => if env.contains_key(off as int) {
                Some((env[off as int], env))
            } else {
                None
            },
            None => None,
        },
        NodeKind::ASSIGN => match (*n.lhs, *n.rhs) {
            (Some(l), Some(r)) => if l.kind == NodeKind::LVAR && l.offset is Some {
                match sp_eval(r, env) {
                    Some((v, env1)) => Some((v, env1.insert(l.offset->0 as int, v))),
                    None => None,
                }
            } else {
                None
            },
            _ => None,
        },
        NodeKind::RETURN => None,
        _ => match (*n.lhs, *n.rhs) {
            (Some(l), Some(r)) => match sp_eval(l, env) {
                Some((a, env1)) => match sp_eval(r, env1) {
                    Some((b, env2)) => match apply_op(n.kind, a, b) {
                        Some(v) => Some((v, env2)),
                        None => None,
                    },
                    None => None,
                },
                None => None,
            },
            _ => None,
        },
    }
}

/// Evaluate a statement forest from index `i` on: a `return` statement
/// ends the program with its value; any other statement's value becomes
/// the running result, handed on as `last` — the program is worth the
/// last statement's value when no `return` is reached.
pub open spec fn sp_eval_prog_from(stmts: Seq<Node>, i: int, env: Map<int, i64>, last: i64) -> Option<
    i64,
>
    decreases stmts.len() - i,
{
    if !(0 <= i < stmts.len()) {
        Some(last)
    } else if stmts[i].kind == NodeKind::RETURN {
        match *stmts[i].lhs {
            Some(l) => match sp_eval(l, env) {
                Some((v, env2)) => Some(v),
                None => None,
            },
            None => None,
        }
    } else {
        match sp_eval(stmts[i], env) {
            Some((v, env2)) => sp_eval_prog_from(stmts, i + 1, env2, v),
            None => None,
        }
    }
}

/// What a whole program is worth, from an empty environment.  The
/// running result starts at zero, as the machine's accumulator does.
pub open spec fn sp_eval_prog(stmts: Seq<Node>) -> Option<i64> {
    sp_eval_prog_from(stmts, 0, Map::empty(), 0)
}

} // verus!
