//! The instruction sequences the synthesizer emits, and their evaluation
//! semantics over an abstract machine: an evaluation stack, indexed locals
//! and globals, and linear memory.
//!
//! Memory is modelled at value granularity: a store records the stored
//! value under its start address. The layout engine proves separately that
//! the spilled regions `[offset, offset + size)` are pairwise disjoint, so
//! distinct start addresses never denote overlapping stores in any code the
//! synthesizer emits.

use vstd::prelude::*;
use vstd::arithmetic::div_mod::lemma_mod_bound;
use vstd::arithmetic::div_mod::lemma_mod_multiples_vanish;
use vstd::arithmetic::div_mod::lemma_small_mod;
use crate::values::ValType;
use crate::values::Value;

verus! {

/// One instruction of the synthesized wrapper bodies. Indices refer to the
/// enclosing module's globals and functions and to the wrapper's own
/// locals; `Store` pops the value to store, then the base address beneath
/// it, and writes the value at `base address + offset`.
#[derive(Clone, Copy, PartialEq, Eq, Structural, Debug)]
pub enum Instr {
    GlobalGet(usize),
    GlobalSet(usize),
    LocalGet(usize),
    LocalSet(usize),
    I32Const(u32),
    I32Sub,
    I32Add,
    Call(usize),
    Store(ValType, u32),
}

/// The abstract machine a wrapper body runs on: the evaluation stack (the
/// last element is the top), the frame's locals, the module's globals, and
/// linear memory keyed by byte address.
#[verifier::ext_equal]
pub struct Machine {
    pub stack: Seq<Value>,
    pub locals: Map<nat, Value>,
    pub globals: Map<nat, Value>,
    pub mem: Map<int, Value>,
}

/// 32-bit wrapping subtraction.
pub open spec fn sub32(a: u32, b: u32) -> u32 {
    (((a as int) - (b as int)) % 0x1_0000_0000) as u32
}

/// 32-bit wrapping addition.
pub open spec fn add32(a: u32, b: u32) -> u32 {
    (((a as int) + (b as int)) % 0x1_0000_0000) as u32
}

/// Releasing exactly what was reserved restores the original pointer:
/// `(a - b) + b == a` under 32-bit wrapping arithmetic.
pub proof fn lemma_sub_add_cancel(a: u32, b: u32)
    ensures
        add32(sub32(a, b), b) == a,
{
    let m = 0x1_0000_0000int;
    let d = ((a as int) - (b as int)) % m;
    lemma_mod_bound((a as int) - (b as int), m);
    lemma_mod_multiples_vanish(1, (a as int) - (b as int), m);
    assert(d == ((a as int) - (b as int) + m) % m);
    if a >= b {
        lemma_small_mod((a - b) as nat, m as nat);
        assert(d == a - b);
        lemma_small_mod(a as nat, m as nat);
    } else {
        lemma_small_mod((a as int - b as int + m) as nat, m as nat);
        assert(d == a as int - b as int + m);
        lemma_mod_multiples_vanish(1, a as int, m);
        lemma_small_mod(a as nat, m as nat);
    }
}


/// The two branches of 32-bit wrapping subtraction.
pub proof fn lemma_sub32_cases(a: u32, b: u32)
    ensures
        sub32(a, b) == if a >= b {
            (a - b) as u32
        } else {
            (a - b + 0x1_0000_0000) as u32
        },
{
    let m = 0x1_0000_0000int;
    if a >= b {
        lemma_small_mod((a - b) as nat, m as nat);
    } else {
        lemma_mod_multiples_vanish(1, (a as int) - (b as int), m);
        lemma_small_mod((a as int - b as int + m) as nat, m as nat);
    }
}

/// The two branches of 32-bit wrapping addition.
pub proof fn lemma_add32_cases(a: u32, b: u32)
    ensures
        add32(a, b) == if a + b > u32::MAX {
            (a + b - 0x1_0000_0000) as u32
        } else {
            (a + b) as u32
        },
{
    let m = 0x1_0000_0000int;
    if a + b > u32::MAX {
        lemma_mod_multiples_vanish(-1, (a as int) + (b as int), m);
        lemma_small_mod((a as int + b as int - m) as nat, m as nat);
    } else {
        lemma_small_mod((a + b) as nat, m as nat);
    }
}

/// The effect of one instruction on the machine, or `None` when the
/// instruction traps: a missing local or global, too few operands, or an
/// operand of the wrong type. A `Call` pops `n_args` operands and pushes
/// `rets`; the callee's behaviour is a parameter of the semantics, not
/// inspected by it.
pub open spec fn step(i: Instr, s: Machine, n_args: nat, rets: Seq<Value>) -> Option<Machine> {
    match i {
        Instr::GlobalGet(g) => if s.globals.contains_key(g as nat) {
            Some(Machine { stack: s.stack.push(s.globals[g as nat]), ..s })
        } else {
            None
        },
        Instr::GlobalSet(g) => if s.stack.len() >= 1 {
            Some(Machine {
                stack: s.stack.drop_last(),
                globals: s.globals.insert(g as nat, s.stack.last()),
                ..s
            })
        } else {
            None
        },
        Instr::LocalGet(l) => if s.locals.contains_key(l as nat) {
            Some(Machine { stack: s.stack.push(s.locals[l as nat]), ..s })
        } else {
            None
        },
        Instr::LocalSet(l) => if s.stack.len() >= 1 {
            Some(Machine {
                stack: s.stack.drop_last(),
                locals: s.locals.insert(l as nat, s.stack.last()),
                ..s
            })
        } else {
            None
        },
        Instr::I32Const(c) => Some(Machine { stack: s.stack.push(Value::I32(c)), ..s }),
        Instr::I32Sub => if s.stack.len() >= 2 {
            match (s.stack[s.stack.len() - 2], s.stack.last()) {
                (Value::I32(a), Value::I32(b)) => Some(Machine {
                    stack: s.stack.drop_last().drop_last().push(Value::I32(sub32(a, b))),
                    ..s
                }),
                _ => None,
            }
        } else {
            None
        },
        Instr::I32Add => if s.stack.len() >= 2 {
            match (s.stack[s.stack.len() - 2], s.stack.last()) {
                (Value::I32(a), Value::I32(b)) => Some(Machine {
                    stack: s.stack.drop_last().drop_last().push(Value::I32(add32(a, b))),
                    ..s
                }),
                _ => None,
            }
        } else {
            None
        },
        Instr::Call(_f) => if s.stack.len() >= n_args {
            Some(Machine { stack: s.stack.take(s.stack.len() - n_args) + rets, ..s })
        } else {
            None
        },
        Instr::Store(ty, offset) => if s.stack.len() >= 2 {
            match (s.stack[s.stack.len() - 2], s.stack.last()) {
                (Value::I32(addr), v) => if v.ty() == ty {
                    Some(Machine {
                        stack: s.stack.drop_last().drop_last(),
                        mem: s.mem.insert(addr + offset, v),
                        ..s
                    })
                } else {
                    None
                },
                _ => None,
            }
        } else {
            None
        },
    }
}

/// Runs a whole instruction sequence, stopping with `None` at the first
/// trap.
pub open spec fn run_code(code: Seq<Instr>, s: Machine, n_args: nat, rets: Seq<Value>)
    -> Option<Machine>
    decreases code.len(),
{
    if code.len() == 0 {
        Some(s)
    } else {
        match step(code[0], s, n_args, rets) {
            None => None,
            Some(s2) => run_code(code.drop_first(), s2, n_args, rets),
        }
    }
}

/// Running a concatenation runs the two halves in order.
pub proof fn lemma_run_append(a: Seq<Instr>, b: Seq<Instr>, s: Machine, n_args: nat,
    rets: Seq<Value>)
    ensures
        run_code(a + b, s, n_args, rets) == match run_code(a, s, n_args, rets) {
            None => None::<Machine>,
            Some(s2) => run_code(b, s2, n_args, rets),
        },
    decreases a.len(),
{
    if a.len() == 0 {
        assert(a + b =~= b);
    } else {
        assert((a + b)[0] == a[0]);
        match step(a[0], s, n_args, rets) {
            None => {
                assert((a + b).len() > 0);
            },
            Some(s2) => {
                assert((a + b).drop_first() =~= a.drop_first() + b);
                lemma_run_append(a.drop_first(), b, s2, n_args, rets);
            },
        }
    }
}

} // verus!
