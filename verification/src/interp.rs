//! An executable interpreter for the instruction sequences, proved to
//! agree with the specification semantics in `ir`: running a wrapper body
//! here produces exactly the machine that `run_code` describes.
//!
//! Locals and globals live in growable slot vectors (`None` = unset);
//! memory is a journal of stores where the last write to an address wins.

use vstd::prelude::*;
use crate::values::Value;
use crate::ir::Instr;
use crate::ir::Machine;
use crate::ir::step;
use crate::ir::run_code;
use crate::ir::lemma_sub32_cases;
use crate::ir::lemma_add32_cases;

verus! {

/// The executable counterpart of `Machine`.
pub struct ExecMachine {
    pub stack: Vec<Value>,
    pub locals: Vec<Option<Value>>,
    pub globals: Vec<Option<Value>>,
    pub mem: Vec<(u64, Value)>,
}

/// The map a slot vector denotes: the indices that hold a value.
pub open spec fn slot_map(s: Seq<Option<Value>>) -> Map<nat, Value> {
    Map::new(
        |k: nat| k < s.len() && s[k as int] is Some,
        |k: nat| s[k as int]->Some_0,
    )
}

/// The map a store journal denotes: the last write to an address wins.
pub open spec fn journal_map(s: Seq<(u64, Value)>) -> Map<int, Value>
    decreases s.len(),
{
    if s.len() == 0 {
        Map::empty()
    } else {
        journal_map(s.drop_last()).insert(s.last().0 as int, s.last().1)
    }
}

impl View for ExecMachine {
    type V = Machine;

    open spec fn view(&self) -> Machine {
        Machine {
            stack: self.stack@,
            locals: slot_map(self.locals@),
            globals: slot_map(self.globals@),
            mem: journal_map(self.mem@),
        }
    }
}

/// Reads a slot.
fn slot_get(v: &Vec<Option<Value>>, idx: usize) -> (r: Option<Value>)
    ensures
        match r {
            Some(x) => slot_map(v@).contains_key(idx as nat) && slot_map(v@)[idx as nat] == x,
            None => !slot_map(v@).contains_key(idx as nat),
        },
{
    if idx < v.len() {
        v[idx]
    } else {
        None
    }
}

/// Writes a slot, growing the vector as needed.
fn slot_set(v: &mut Vec<Option<Value>>, idx: usize, val: Value)
    requires
        idx < usize::MAX,
    ensures
        slot_map(final(v)@) == slot_map(old(v)@).insert(idx as nat, val),
{
    let ghost sm0 = slot_map(v@);
    while v.len() <= idx
        invariant
            idx < usize::MAX,
            slot_map(v@) == sm0,
        decreases idx + 1 - v@.len(),
    {
        let ghost before = v@;
        v.push(None);
        proof {
            assert(slot_map(v@) =~= slot_map(before));
        }
    }
    let ghost grown = v@;
    v.set(idx, Some(val));
    proof {
        assert(slot_map(v@) =~= slot_map(grown).insert(idx as nat, val));
    }
}

/// Whether every local and global a code sequence writes has an index the
/// slot vectors can reach.
pub open spec fn indices_bounded(code: Seq<Instr>) -> bool {
    forall|j: int| 0 <= j < code.len() ==> match #[trigger] code[j] {
        Instr::LocalSet(l) => l < usize::MAX,
        Instr::GlobalSet(g) => g < usize::MAX,
        _ => true,
    }
}

/// Runs one instruction; `false` when the instruction traps, in exactly
/// the cases in which the specification semantics trap.
pub fn step_exec(i: &Instr, m: &mut ExecMachine, n_args: usize, rets: &Vec<Value>) -> (ok: bool)
    requires
        (*i matches Instr::LocalSet(l) ==> l < usize::MAX),
        (*i matches Instr::GlobalSet(g) ==> g < usize::MAX),
    ensures
        match step(*i, old(m)@, n_args as nat, rets@) {
            Some(s2) => ok && final(m)@ == s2,
            None => !ok,
        },
{
    match *i {
        Instr::GlobalGet(g) => {
            match slot_get(&m.globals, g) {
                Some(v) => {
                    m.stack.push(v);
                    proof {
                        assert(m@ =~= step(*i, old(m)@, n_args as nat, rets@)->Some_0);
                    }
                    true
                },
                None => false,
            }
        },
        Instr::GlobalSet(g) => {
            match m.stack.pop() {
                Some(v) => {
                    slot_set(&mut m.globals, g, v);
                    proof {
                        assert(m.stack@ =~= old(m).stack@.drop_last());
                        assert(m@ =~= step(*i, old(m)@, n_args as nat, rets@)->Some_0);
                    }
                    true
                },
                None => false,
            }
        },
        Instr::LocalGet(l) => {
            match slot_get(&m.locals, l) {
                Some(v) => {
                    m.stack.push(v);
                    proof {
                        assert(m@ =~= step(*i, old(m)@, n_args as nat, rets@)->Some_0);
                    }
                    true
                },
                None => false,
            }
        },
        Instr::LocalSet(l) => {
            match m.stack.pop() {
                Some(v) => {
                    slot_set(&mut m.locals, l, v);
                    proof {
                        assert(m.stack@ =~= old(m).stack@.drop_last());
                        assert(m@ =~= step(*i, old(m)@, n_args as nat, rets@)->Some_0);
                    }
                    true
                },
                None => false,
            }
        },
        Instr::I32Const(c) => {
            m.stack.push(Value::I32(c));
            proof {
                assert(m@ =~= step(*i, old(m)@, n_args as nat, rets@)->Some_0);
            }
            true
        },
        Instr::I32Sub | Instr::I32Add => {
            if m.stack.len() < 2 {
                return false;
            }
            let b = m.stack[m.stack.len() - 1];
            let a = m.stack[m.stack.len() - 2];
            match (a, b) {
                (Value::I32(x), Value::I32(y)) => {
                    m.stack.pop();
                    m.stack.pop();
                    let r = if matches!(i, Instr::I32Sub) {
                        proof {
                            lemma_sub32_cases(x, y);
                        }
                        x.wrapping_sub(y)
                    } else {
                        proof {
                            lemma_add32_cases(x, y);
                        }
                        x.wrapping_add(y)
                    };
                    m.stack.push(Value::I32(r));
                    proof {
                        assert(m.stack@ =~= old(m).stack@.drop_last().drop_last().push(
                            Value::I32(r)));
                        assert(m@ =~= step(*i, old(m)@, n_args as nat, rets@)->Some_0);
                    }
                    true
                },
                _ => false,
            }
        },
        Instr::Call(_) => {
            if m.stack.len() < n_args {
                return false;
            }
            let newlen = m.stack.len() - n_args;
            m.stack.truncate(newlen);
            let ghost kept = m.stack@;
            let mut j: usize = 0;
            while j < rets.len()
                invariant
                    j <= rets@.len(),
                    n_args <= old(m).stack@.len(),
                    kept == old(m).stack@.subrange(0, old(m).stack@.len() - n_args as int),
                    m.stack@ == kept + rets@.take(j as int),
                    m.locals@ == old(m).locals@,
                    m.globals@ == old(m).globals@,
                    m.mem@ == old(m).mem@,
                decreases rets@.len() - j,
            {
                m.stack.push(rets[j]);
                proof {
                    assert(m.stack@ =~= kept + rets@.take(j as int + 1));
                }
                j = j + 1;
            }
            proof {
                assert(rets@.take(rets@.len() as int) =~= rets@);
                assert(kept =~= old(m).stack@.take(old(m).stack@.len() - n_args));
                assert(m@ =~= step(*i, old(m)@, n_args as nat, rets@)->Some_0);
            }
            true
        },
        Instr::Store(ty, offset) => {
            if m.stack.len() < 2 {
                return false;
            }
            let v = m.stack[m.stack.len() - 1];
            let addr_v = m.stack[m.stack.len() - 2];
            match addr_v {
                Value::I32(addr) => {
                    if !(v.kind() == ty) {
                        return false;
                    }
                    m.stack.pop();
                    m.stack.pop();
                    m.mem.push(((addr as u64) + (offset as u64), v));
                    proof {
                        assert(m.stack@ =~= old(m).stack@.drop_last().drop_last());
                        assert(m.mem@.drop_last() =~= old(m).mem@);
                        assert(journal_map(m.mem@) == journal_map(old(m).mem@).insert(
                            addr + offset, v));
                        assert(m@ =~= step(*i, old(m)@, n_args as nat, rets@)->Some_0);
                    }
                    true
                },
                _ => false,
            }
        },
    }
}

/// Runs a whole instruction sequence; `false` at the first trap, with
/// exactly the result of the specification semantics otherwise.
pub fn run_exec(code: &Vec<Instr>, m: &mut ExecMachine, n_args: usize, rets: &Vec<Value>)
    -> (ok: bool)
    requires
        indices_bounded(code@),
    ensures
        match run_code(code@, old(m)@, n_args as nat, rets@) {
            Some(s) => ok && final(m)@ == s,
            None => !ok,
        },
{
    proof {
        assert(code@.skip(0) =~= code@);
    }
    let mut i: usize = 0;
    while i < code.len()
        invariant
            i <= code@.len(),
            indices_bounded(code@),
            run_code(code@, old(m)@, n_args as nat, rets@) == run_code(code@.skip(i as int), m@,
                n_args as nat, rets@),
        decreases code@.len() - i,
    {
        proof {
            assert(code@.skip(i as int)[0] == code@[i as int]);
        }
        let ok = step_exec(&code[i], m, n_args, rets);
        if !ok {
            return false;
        }
        proof {
            assert(code@.skip(i as int).drop_first() =~= code@.skip(i as int + 1));
        }
        i = i + 1;
    }
    proof {
        assert(code@.skip(code@.len() as int) =~= Seq::<Instr>::empty());
    }
    true
}

/// Reads the value last stored at an address, scanning the journal from
/// the newest store backwards.
pub fn load(m: &ExecMachine, addr: u64) -> (r: Option<Value>)
    ensures
        match r {
            Some(v) => m@.mem.contains_key(addr as int) && m@.mem[addr as int] == v,
            None => !m@.mem.contains_key(addr as int),
        },
{
    proof {
        assert(m.mem@.take(m.mem@.len() as int) =~= m.mem@);
    }
    let mut i: usize = m.mem.len();
    while i > 0
        invariant
            i <= m.mem@.len(),
            journal_map(m.mem@).contains_key(addr as int) == journal_map(m.mem@.take(
                i as int)).contains_key(addr as int),
            journal_map(m.mem@).contains_key(addr as int) ==> journal_map(m.mem@)[addr as int]
                == journal_map(m.mem@.take(i as int))[addr as int],
        decreases i,
    {
        let (a, v) = m.mem[i - 1];
        proof {
            assert(m.mem@.take(i as int).drop_last() =~= m.mem@.take(i as int - 1));
            assert(m.mem@.take(i as int).last() == m.mem@[i as int - 1]);
        }
        if a == addr {
            return Some(v);
        }
        i = i - 1;
    }
    proof {
        assert(m.mem@.take(0) =~= Seq::<(u64, Value)>::empty());
    }
    None
}

} // verus!
