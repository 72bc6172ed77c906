//! The meaning of the generated instructions: a small stack machine with
//! the two scratch registers, an operand stack, and the frame's local
//! slots as memory.  The frame base is modeled at address zero, so the
//! variable with byte offset `off` lives at address `-off`.  Registers
//! start zeroed and memory starts empty; reading a slot never written,
//! dividing by zero, overflowing the division, or popping an empty stack
//! has no defined result (`None`).  A verified interpreter runs the
//! instruction sequences the generator emits.

use vstd::prelude::*;
use vstd::wrapping::i64_specs;

use crate::codegen::Instr;

verus! {

/// One machine state: accumulator, scratch register, operand stack,
/// the 8-byte slots written so far, and the returned value once the
/// epilogue has run.
#[verifier::ext_equal]
pub struct MState {
    pub rax: i64,
    pub rdi: i64,
    pub stack: Seq<i64>,
    pub mem: Map<int, i64>,
    pub ret: Option<i64>,
}

/// The state a generated function starts in.
pub open spec fn init_state() -> MState {
    MState { rax: 0, rdi: 0, stack: Seq::empty(), mem: Map::empty(), ret: None }
}

/// Truncated (toward-zero) division, as the target's `idiv` computes it.
pub open spec fn tdiv(a: int, b: int) -> int {
    if (a < 0) == (b < 0) {
        iabs(a) / iabs(b)
    } else {
        -(iabs(a) / iabs(b))
    }
}

/// The magnitude of an integer.
pub open spec fn iabs(a: int) -> int {
    if a < 0 {
        -a
    } else {
        a
    }
}

/// What one instruction does to a state, or `None` where the machine
/// traps or the result is undefined.  An address-step immediate beyond
/// the signed word (which no real encoding could carry) is undefined too.
pub open spec fn sp_step(s: MState, i: Instr) -> Option<MState> {
    match i {
        Instr::PushImm(v) => Some(MState { stack: s.stack.push(v), ..s }),
        Instr::PushRax => Some(MState { stack: s.stack.push(s.rax), ..s }),
        Instr::PushRdi => Some(MState { stack: s.stack.push(s.rdi), ..s }),
        Instr::PopRax => if s.stack.len() > 0 {
            Some(MState { rax: s.stack.last(), stack: s.stack.drop_last(), ..s })
        } else {
            None
        },
        Instr::PopRdi => if s.stack.len() > 0 {
            Some(MState { rdi: s.stack.last(), stack: s.stack.drop_last(), ..s })
        } else {
            None
        },
        Instr::MovRaxRbp => Some(MState { rax: 0, ..s }),
        Instr::SubRaxImm(off) => if off <= i64::MAX as usize {
            Some(MState { rax: i64_specs::wrapping_sub(s.rax, off as i64), ..s })
        } else {
            None
        },
        Instr::LoadRax => if s.mem.contains_key(s.rax as int) {
            Some(MState { rax: s.mem[s.rax as int], ..s })
        } else {
            None
        },
        Instr::StoreRdi => Some(MState { mem: s.mem.insert(s.rax as int, s.rdi), ..s }),
        Instr::AddRaxRdi => Some(MState { rax: i64_specs::wrapping_add(s.rax, s.rdi), ..s }),
        Instr::SubRaxRdi => Some(MState { rax: i64_specs::wrapping_sub(s.rax, s.rdi), ..s }),
        Instr::ImulRaxRdi => Some(MState { rax: i64_specs::wrapping_mul(s.rax, s.rdi), ..s }),
        Instr::CqoIdivRdi => if s.rdi == 0 || (s.rax == i64::MIN && s.rdi == -1) {
            None
        } else {
            Some(MState { rax: tdiv(s.rax as int, s.rdi as int) as i64, ..s })
        },
        Instr::CmpSete => Some(
            MState { rax: if s.rax == s.rdi { 1 } else { 0 }, ..s },
        ),
        Instr::CmpSetne => Some(
            MState { rax: if s.rax != s.rdi { 1 } else { 0 }, ..s },
        ),
        Instr::CmpSetl => Some(
            MState { rax: if s.rax < s.rdi { 1 } else { 0 }, ..s },
        ),
        Instr::CmpSetle => Some(
            MState { rax: if s.rax <= s.rdi { 1 } else { 0 }, ..s },
        ),
        Instr::Prologue => Some(s),
        Instr::Epilogue => Some(MState { ret: Some(s.rax), ..s }),
    }
}

/// Run from instruction `i` on: step until a trap, a return, or the end
/// of the code.
pub open spec fn sp_run(s: MState, code: Seq<Instr>, i: int) -> Option<MState>
    decreases code.len() - i,
{
    if s.ret is Some {
        Some(s)
    } else if !(0 <= i < code.len()) {
        Some(s)
    } else {
        match sp_step(s, code[i]) {
            None => None,
            Some(s2) => sp_run(s2, code, i + 1),
        }
    }
}

/// What a whole generated function computes: run it from the clean start
/// and take the returned value; running off the end or trapping yields
/// no result.
pub open spec fn sp_exec_program(code: Seq<Instr>) -> Option<i64> {
    match sp_run(init_state(), code, 0) {
        None => None,
        Some(s) => s.ret,
    }
}

/// The memory that a journal of stores denotes: later entries win.
pub open spec fn assoc_view(s: Seq<(i64, i64)>) -> Map<int, i64>
    decreases s.len(),
{
    if s.len() == 0 {
        Map::empty()
    } else {
        assoc_view(s.drop_last()).insert(s.last().0 as int, s.last().1)
    }
}

/// Look an address up in a store journal, most recent entry first.
fn assoc_get(mem: &Vec<(i64, i64)>, addr: i64) -> (r: Option<i64>)
    ensures
        r == (if assoc_view(mem@).contains_key(addr as int) {
            Some(assoc_view(mem@)[addr as int])
        } else {
            None::<i64>
        }),
{
    let mut idx = mem.len();
    proof {
        assert(mem@.take(mem@.len() as int) =~= mem@);
    }
    while idx > 0
        invariant
            idx <= mem@.len(),
            (if assoc_view(mem@).contains_key(addr as int) {
                Some(assoc_view(mem@)[addr as int])
            } else {
                None::<i64>
            }) == (if assoc_view(mem@.take(idx as int)).contains_key(addr as int) {
                Some(assoc_view(mem@.take(idx as int))[addr as int])
            } else {
                None::<i64>
            }),
        decreases idx,
    {
        let pair = mem[idx - 1];
        proof {
            assert(mem@.take(idx as int).drop_last() =~= mem@.take(idx - 1));
            assert(mem@.take(idx as int).last() == mem@[idx - 1]);
        }
        if pair.0 == addr {
            return Some(pair.1);
        }
        idx = idx - 1;
    }
    proof {
        assert(mem@.take(0) =~= Seq::<(i64, i64)>::empty());
    }
    None
}

/// The state the interpreter's locals denote.
pub open spec fn cur_state(rax: i64, rdi: i64, stack: Seq<i64>, mem: Seq<(i64, i64)>) -> MState {
    MState { rax, rdi, stack, mem: assoc_view(mem), ret: None }
}

/// Truncated division of two machine words, with the trapping cases
/// excluded.
fn div_trunc(a: i64, b: i64) -> (q: i64)
    requires
        b != 0,
        !(a == i64::MIN && b == -1),
    ensures
        q as int == tdiv(a as int, b as int),
{
    let ua: u64 = if a < 0 {
        (-(a as i128)) as u64
    } else {
        a as u64
    };
    let ub: u64 = if b < 0 {
        (-(b as i128)) as u64
    } else {
        b as u64
    };
    let uq: u64 = ua / ub;
    if (a < 0) == (b < 0) {
        proof {
            assert(uq <= ua);
            assert(uq as int == iabs(a as int) / iabs(b as int));
            assert(ua == iabs(a as int));
            if a == i64::MIN {
                assert(ub >= 2);
                assert(uq as int <= ua as int / 2) by {
                    vstd::arithmetic::div_mod::lemma_div_is_ordered_by_denominator(
                        ua as int,
                        2,
                        ub as int,
                    );
                }
            }
        }
        uq as i64
    } else {
        proof {
            assert(uq as int == iabs(a as int) / iabs(b as int));
            if b == i64::MIN {
                assert(ua < ub);
                vstd::arithmetic::div_mod::lemma_basic_div(ua as int, ub as int);
                assert(uq == 0);
            }
            assert(uq <= ua) by {
                vstd::arithmetic::div_mod::lemma_div_is_ordered_by_denominator(
                    ua as int,
                    1,
                    ub as int,
                );
            }
        }
        if uq == 9223372036854775808u64 {
            i64::MIN
        } else {
            -(uq as i64)
        }
    }
}

/// Run a generated instruction sequence on the small stack machine and
/// hand back what it returns, or `None` where its behavior is undefined.
pub fn run_program(code: &Vec<Instr>) -> (r: Option<i64>)
    ensures
        r == sp_exec_program(code@),
{
    let mut rax: i64 = 0;
    let mut rdi: i64 = 0;
    let mut stack: Vec<i64> = Vec::new();
    let mut mem: Vec<(i64, i64)> = Vec::new();
    let mut pc: usize = 0;
    let n = code.len();
    proof {
        assert(cur_state(rax, rdi, stack@, mem@) =~~= init_state());
    }
    while pc < n
        invariant
            pc <= n,
            n == code@.len(),
            sp_run(init_state(), code@, 0) == sp_run(
                cur_state(rax, rdi, stack@, mem@),
                code@,
                pc as int,
            ),
        decreases n - pc,
    {
        let ghost pre = cur_state(rax, rdi, stack@, mem@);
        let i = code[pc];
        match i {
            Instr::PushImm(v) => {
                stack.push(v);
            },
            Instr::PushRax => {
                stack.push(rax);
            },
            Instr::PushRdi => {
                stack.push(rdi);
            },
            Instr::PopRax => {
                match stack.pop() {
                    Some(v) => {
                        rax = v;
                        proof {
                            assert(pre.stack.len() > 0);
                            assert(stack@ =~= pre.stack.drop_last());
                            assert(v == pre.stack.last());
                        }
                    },
                    None => {
                        proof {
                            assert(sp_step(pre, i) is None);
                        }
                        return None;
                    },
                }
            },
            Instr::PopRdi => {
                match stack.pop() {
                    Some(v) => {
                        rdi = v;
                        proof {
                            assert(pre.stack.len() > 0);
                            assert(stack@ =~= pre.stack.drop_last());
                            assert(v == pre.stack.last());
                        }
                    },
                    None => {
                        proof {
                            assert(sp_step(pre, i) is None);
                        }
                        return None;
                    },
                }
            },
            Instr::MovRaxRbp => {
                rax = 0;
            },
            Instr::SubRaxImm(off) => {
                if off > i64::MAX as usize {
                    proof {
                        assert(sp_step(pre, i) is None);
                    }
                    return None;
                }
                rax = rax.wrapping_sub(off as i64);
            },
            Instr::LoadRax => {
                match assoc_get(&mem, rax) {
                    Some(v) => {
                        rax = v;
                    },
                    None => {
                        proof {
                            assert(sp_step(pre, i) is None);
                        }
                        return None;
                    },
                }
            },
            Instr::StoreRdi => {
                let ghost oldmem = mem@;
                mem.push((rax, rdi));
                proof {
                    assert(mem@.drop_last() =~= oldmem);
                    assert(mem@.last() == (rax, rdi));
                    assert(assoc_view(mem@) =~~= pre.mem.insert(rax as int, rdi));
                }
            },
            Instr::AddRaxRdi => {
                rax = rax.wrapping_add(rdi);
            },
            Instr::SubRaxRdi => {
                rax = rax.wrapping_sub(rdi);
            },
            Instr::ImulRaxRdi => {
                rax = rax.wrapping_mul(rdi);
            },
            Instr::CqoIdivRdi => {
                if rdi == 0 || (rax == i64::MIN && rdi == -1) {
                    proof {
                        assert(sp_step(pre, i) is None);
                    }
                    return None;
                }
                rax = div_trunc(rax, rdi);
            },
            Instr::CmpSete => {
                rax = if rax == rdi {
                    1
                } else {
                    0
                };
            },
            Instr::CmpSetne => {
                rax = if rax != rdi {
                    1
                } else {
                    0
                };
            },
            Instr::CmpSetl => {
                rax = if rax < rdi {
                    1
                } else {
                    0
                };
            },
            Instr::CmpSetle => {
                rax = if rax <= rdi {
                    1
                } else {
                    0
                };
            },
            Instr::Prologue => {},
            Instr::Epilogue => {
                proof {
                    let stepped = MState { ret: Some(pre.rax), ..pre };
                    assert(sp_step(pre, i) == Some(stepped));
                    assert(sp_run(stepped, code@, pc + 1) == Some(stepped));
                }
                return Some(rax);
            },
        }
        proof {
            assert(sp_step(pre, i) == Some(cur_state(rax, rdi, stack@, mem@))) by {
                assert(cur_state(rax, rdi, stack@, mem@) =~~= sp_step(pre, i)->0);
            }
        }
        pc = pc + 1;
    }
    proof {
        let fin = cur_state(rax, rdi, stack@, mem@);
        assert(sp_run(fin, code@, n as int) == Some(fin));
        assert(fin.ret is None);
    }
    None
}

} // verus!
