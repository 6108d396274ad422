//! The wrapper function synthesizer: for an original function with
//! multi-value results it builds the body of a single-result wrapper that
//! reserves shadow-stack space, calls the original, spills every result
//! but the first to its laid-out offset, restores the shadow-stack pointer
//! and leaves the first result as its return value.
//!
//! The values come off the evaluation stack in reverse declaration order
//! (last produced on top), so the spill step consumes them from index
//! N-1 down to 1; getting this order wrong would silently swap result
//! values while still emitting a well-formed body.

use vstd::prelude::*;
use crate::values::ValType;
use crate::values::Value;
use crate::values::copy_types;
use crate::layout::Layout;
use crate::layout::layout_matches;
use crate::layout::spec_offset;
use crate::layout::spec_total_size;
use crate::layout::spec_end;
use crate::layout::spec_max_align;
use crate::layout::lemma_end_bounds;
use crate::layout::lemma_end_up_to;
use crate::layout::lemma_max_align_bounds;
use crate::layout::lemma_offset_in_step;
use crate::layout::lemma_round_up;
use crate::layout::MAX_SPILLED;
use crate::ir::Instr;
use crate::ir::Machine;
use crate::ir::run_code;
use crate::ir::step;
use crate::ir::lemma_run_append;
use crate::ir::sub32;
use crate::ir::add32;
use crate::ir::lemma_sub_add_cancel;
use crate::module::Function;

verus! {

/// The 32-bit integer behind a value (0 for the other variants).
pub open spec fn as_i32(v: Value) -> u32 {
    match v {
        Value::I32(x) => x,
        _ => 0,
    }
}

/// Reservation: read the shadow-stack pointer, subtract the allocation
/// size, remember the result as the base address, and write it back.
pub open spec fn reserve_code(sp: usize, total: u32, base_local: usize) -> Seq<Instr> {
    seq![
        Instr::GlobalGet(sp),
        Instr::I32Const(total),
        Instr::I32Sub,
        Instr::LocalSet(base_local),
        Instr::LocalGet(base_local),
        Instr::GlobalSet(sp),
    ]
}

/// Release: add the allocation size back onto the shadow-stack pointer.
pub open spec fn release_code(sp: usize, total: u32) -> Seq<Instr> {
    seq![Instr::GlobalGet(sp), Instr::I32Const(total), Instr::I32Add, Instr::GlobalSet(sp)]
}

/// Forwarding the wrapper's own parameters: push locals `lo .. hi`.
pub open spec fn gets_code(lo: int, hi: int) -> Seq<Instr> {
    Seq::new((hi - lo) as nat, |j: int| Instr::LocalGet((lo + j) as usize))
}

/// Spilling the call's results into temporaries: the evaluation stack
/// holds them in declaration order with the last on top, so the `m`
/// instructions set locals `p + m` down to `p + 1`.
pub open spec fn spill_code(p: int, m: int) -> Seq<Instr> {
    Seq::new(m as nat, |j: int| Instr::LocalSet((p + m - j) as usize))
}

/// Storing the spilled values: for each spilled index `k`, push the base
/// address, push the temporary holding result `k + 1`, and store it at
/// the laid-out offset with the store instruction of its width.
pub open spec fn store_code(p: int, spilled: Seq<ValType>, k: int) -> Seq<Instr>
    decreases spilled.len() - k when 0 <= k <= spilled.len()
{
    if k >= spilled.len() {
        Seq::empty()
    } else {
        seq![
            Instr::LocalGet(p as usize),
            Instr::LocalGet((p + 1 + k) as usize),
            Instr::Store(spilled[k], spec_offset(spilled, k) as u32),
        ] + store_code(p, spilled, k + 1)
    }
}

/// The whole wrapper body for original function `f` with `p` parameters
/// and result types `ts`, against shadow-stack-pointer global `sp`:
/// reserve, forward the parameters, call, spill results N-1 down to 1,
/// store them at their offsets, release, and leave result 0 on the stack.
pub open spec fn wrapper_body(f: usize, p: usize, sp: usize, ts: Seq<ValType>) -> Seq<Instr> {
    let spilled = ts.skip(1);
    let total = spec_total_size(spilled) as u32;
    reserve_code(sp, total, p)
        + gets_code(0, p as int)
        + seq![Instr::Call(f)]
        + spill_code(p as int, spilled.len() as int)
        + store_code(p as int, spilled, 0)
        + release_code(sp, total)
}

/// Running the reservation subtracts the allocation size from the
/// shadow-stack pointer and binds the base address to its local.
#[verifier::rlimit(80)]
proof fn lemma_run_reserve(s: Machine, sp: usize, total: u32, base_local: usize, n_args: nat,
    rets: Seq<Value>)
    requires
        s.globals.contains_key(sp as nat),
        s.globals[sp as nat] matches Value::I32(_),
    ensures
        ({
            let base = sub32(as_i32(s.globals[sp as nat]), total);
            run_code(reserve_code(sp, total, base_local), s, n_args, rets) == Some(Machine {
                stack: s.stack,
                locals: s.locals.insert(base_local as nat, Value::I32(base)),
                globals: s.globals.insert(sp as nat, Value::I32(base)),
                mem: s.mem,
            })
        }),
{
    reveal_with_fuel(run_code, 8);
    let sp0 = as_i32(s.globals[sp as nat]);
    let base = sub32(sp0, total);
    let c = reserve_code(sp, total, base_local);
    let s1 = Machine { stack: s.stack.push(Value::I32(sp0)), ..s };
    let s2 = Machine { stack: s1.stack.push(Value::I32(total)), ..s1 };
    let s3 = Machine { stack: s.stack.push(Value::I32(base)), ..s2 };
    let s4 = Machine {
        stack: s.stack,
        locals: s.locals.insert(base_local as nat, Value::I32(base)),
        ..s3
    };
    let s5 = Machine { stack: s.stack.push(Value::I32(base)), ..s4 };
    let s6 = Machine {
        stack: s.stack,
        globals: s.globals.insert(sp as nat, Value::I32(base)),
        ..s5
    };
    assert(step(c[0], s, n_args, rets) == Some(s1));
    assert(s2.stack.drop_last().drop_last() =~= s.stack);
    assert(step(c[1], s1, n_args, rets) == Some(s2));
    assert(step(c[2], s2, n_args, rets) =~= Some(s3));
    assert(s3.stack.drop_last() =~= s.stack);
    assert(step(c[3], s3, n_args, rets) =~= Some(s4));
    assert(step(c[4], s4, n_args, rets) =~= Some(s5));
    assert(s5.stack.drop_last() =~= s.stack);
    assert(step(c[5], s5, n_args, rets) =~= Some(s6));
    assert(c.drop_first() =~= seq![c[1], c[2], c[3], c[4], c[5]]);
    assert(c.drop_first().drop_first() =~= seq![c[2], c[3], c[4], c[5]]);
    assert(c.drop_first().drop_first().drop_first() =~= seq![c[3], c[4], c[5]]);
    assert(c.drop_first().drop_first().drop_first().drop_first() =~= seq![c[4], c[5]]);
    assert(c.drop_first().drop_first().drop_first().drop_first().drop_first() =~= seq![c[5]]);
    assert(run_code(c, s, n_args, rets) == Some(s6));
}

/// Running the release adds the allocation size back onto the
/// shadow-stack pointer and touches nothing else.
#[verifier::rlimit(80)]
proof fn lemma_run_release(s: Machine, sp: usize, total: u32, n_args: nat, rets: Seq<Value>)
    requires
        s.globals.contains_key(sp as nat),
        s.globals[sp as nat] matches Value::I32(_),
    ensures
        ({
            let g = as_i32(s.globals[sp as nat]);
            run_code(release_code(sp, total), s, n_args, rets) == Some(Machine {
                globals: s.globals.insert(sp as nat, Value::I32(add32(g, total))),
                ..s
            })
        }),
{
    reveal_with_fuel(run_code, 6);
    let g = as_i32(s.globals[sp as nat]);
    let c = release_code(sp, total);
    let s1 = Machine { stack: s.stack.push(Value::I32(g)), ..s };
    let s2 = Machine { stack: s1.stack.push(Value::I32(total)), ..s1 };
    let s3 = Machine { stack: s.stack.push(Value::I32(add32(g, total))), ..s2 };
    let s4 = Machine {
        stack: s.stack,
        globals: s.globals.insert(sp as nat, Value::I32(add32(g, total))),
        ..s3
    };
    assert(step(c[0], s, n_args, rets) == Some(s1));
    assert(s2.stack.drop_last().drop_last() =~= s.stack);
    assert(step(c[1], s1, n_args, rets) == Some(s2));
    assert(step(c[2], s2, n_args, rets) =~= Some(s3));
    assert(s3.stack.drop_last() =~= s.stack);
    assert(step(c[3], s3, n_args, rets) =~= Some(s4));
    assert(c.drop_first() =~= seq![c[1], c[2], c[3]]);
    assert(c.drop_first().drop_first() =~= seq![c[2], c[3]]);
    assert(c.drop_first().drop_first().drop_first() =~= seq![c[3]]);
    assert(run_code(c, s, n_args, rets) == Some(s4));
}

/// Pushing locals `lo .. hi` appends their values to the stack.
proof fn lemma_run_gets(s: Machine, lo: int, hi: int, n_args: nat, rets: Seq<Value>)
    requires
        0 <= lo <= hi <= usize::MAX,
        forall|j: int| lo <= j < hi ==> s.locals.contains_key(#[trigger] (j as nat)),
    ensures
        run_code(gets_code(lo, hi), s, n_args, rets) == Some(Machine {
            stack: s.stack + Seq::new((hi - lo) as nat, |j: int| s.locals[(lo + j) as nat]),
            ..s
        }),
    decreases hi - lo,
{
    let c = gets_code(lo, hi);
    let vals = Seq::new((hi - lo) as nat, |j: int| s.locals[(lo + j) as nat]);
    if lo == hi {
        assert(s.stack + vals =~= s.stack);
        assert(Machine { stack: s.stack + vals, ..s } =~= s);
    } else {
        assert(c[0] == Instr::LocalGet(lo as usize));
        let s1 = Machine { stack: s.stack.push(s.locals[lo as nat]), ..s };
        assert(step(c[0], s, n_args, rets) == Some(s1));
        assert(c.drop_first() =~= gets_code(lo + 1, hi));
        lemma_run_gets(s1, lo + 1, hi, n_args, rets);
        let vals1 = Seq::new((hi - lo - 1) as nat, |j: int| s1.locals[(lo + 1 + j) as nat]);
        assert(s1.stack + vals1 =~= s.stack + vals);
        assert(run_code(c, s, n_args, rets) == Some(Machine { stack: s.stack + vals, ..s }));
    }
}

/// Popping the top `vals` into locals `p + m` down to `p + 1`: local
/// `p + i` receives `vals[i - 1]`, every other local is untouched.
proof fn lemma_run_spills(s: Machine, rest: Seq<Value>, vals: Seq<Value>, p: int, n_args: nat,
    rets: Seq<Value>)
    requires
        0 <= p,
        p + vals.len() <= usize::MAX,
        s.stack == rest + vals,
    ensures
        ({
            let m = vals.len() as int;
            match run_code(spill_code(p, m), s, n_args, rets) {
                Some(s1) => {
                    &&& s1.stack == rest
                    &&& s1.globals == s.globals
                    &&& s1.mem == s.mem
                    &&& forall|i: int| 1 <= i <= m ==>
                        s1.locals.contains_key(#[trigger] ((p + i) as nat))
                            && s1.locals[(p + i) as nat] == vals[i - 1]
                    &&& forall|k: nat| !(p + 1 <= k <= p + m) ==>
                        (#[trigger] s1.locals.contains_key(k)) == s.locals.contains_key(k)
                    &&& forall|k: nat| !(p + 1 <= k <= p + m) && s.locals.contains_key(k) ==>
                        (#[trigger] s1.locals[k]) == s.locals[k]
                },
                None => false,
            }
        }),
    decreases vals.len(),
{
    let m = vals.len() as int;
    let c = spill_code(p, m);
    if m == 0 {
        assert(s.stack =~= rest);
    } else {
        assert(c[0] == Instr::LocalSet((p + m) as usize));
        assert(s.stack.len() == rest.len() + m);
        assert(s.stack.last() == vals.last());
        let s1 = Machine {
            stack: s.stack.drop_last(),
            locals: s.locals.insert((p + m) as nat, vals.last()),
            ..s
        };
        assert(step(c[0], s, n_args, rets) == Some(s1));
        assert(c.drop_first() =~= spill_code(p, m - 1));
        assert(s1.stack =~= rest + vals.drop_last());
        lemma_run_spills(s1, rest, vals.drop_last(), p, n_args, rets);
        assert(run_code(c, s, n_args, rets) == run_code(spill_code(p, m - 1), s1, n_args, rets));
        let s2 = run_code(spill_code(p, m - 1), s1, n_args, rets)->Some_0;
        let kk = (p + m) as nat;
        assert forall|i: int| 1 <= i <= m implies
            s2.locals.contains_key(#[trigger] ((p + i) as nat))
                && s2.locals[(p + i) as nat] == vals[i - 1] by {
            if i < m {
                assert(s2.locals.contains_key((p + i) as nat));
                assert(s2.locals[(p + i) as nat] == vals.drop_last()[i - 1]);
            } else {
                assert(!(p + 1 <= kk <= p + (m - 1)));
                assert(s2.locals.contains_key(kk) == s1.locals.contains_key(kk));
                assert(s2.locals[kk] == s1.locals[kk]);
                assert(s1.locals[kk] == vals.last());
            }
        }
        assert forall|k: nat| !(p + 1 <= k <= p + m) implies
            (#[trigger] s2.locals.contains_key(k)) == s.locals.contains_key(k) by {
            assert(s2.locals.contains_key(k) == s1.locals.contains_key(k));
            assert(k != kk);
        }
        assert forall|k: nat| !(p + 1 <= k <= p + m) && s.locals.contains_key(k) implies
            (#[trigger] s2.locals[k]) == s.locals[k] by {
            assert(k != kk);
            assert(s1.locals.contains_key(k));
            assert(s2.locals[k] == s1.locals[k]);
        }
    }
}

/// Running one store triple writes the value at its offset from the base.
#[verifier::rlimit(80)]
proof fn lemma_run_store_one(s: Machine, p: int, baseu: u32, spilled: Seq<ValType>,
    vals: Seq<Value>, k: int, n_args: nat, rets: Seq<Value>)
    requires
        0 <= p,
        0 <= k < spilled.len(),
        spilled.len() <= MAX_SPILLED,
        p + 1 + spilled.len() <= usize::MAX,
        vals.len() == spilled.len(),
        s.locals.contains_key(p as nat),
        s.locals[p as nat] == Value::I32(baseu),
        s.locals.contains_key((p + 1 + k) as nat),
        s.locals[(p + 1 + k) as nat] == vals[k],
        vals[k].ty() == spilled[k],
    ensures
        ({
            let off = spec_offset(spilled, k);
            run_code(seq![
                Instr::LocalGet(p as usize),
                Instr::LocalGet((p + 1 + k) as usize),
                Instr::Store(spilled[k], off as u32),
            ], s, n_args, rets) == Some(Machine { mem: s.mem.insert(baseu + off, vals[k]), ..s })
        }),
{
    reveal_with_fuel(run_code, 5);
    lemma_offset_in_step(spilled, k);
    lemma_end_bounds(spilled, k);
    lemma_end_bounds(spilled, k + 1);
    let off = spec_offset(spilled, k);
    assert(0 <= off < 0x1_0000_0000);
    let offw = off as u32;
    let head = seq![
        Instr::LocalGet(p as usize),
        Instr::LocalGet((p + 1 + k) as usize),
        Instr::Store(spilled[k], offw),
    ];
    let s1 = Machine { stack: s.stack.push(Value::I32(baseu)), ..s };
    let s2 = Machine { stack: s1.stack.push(vals[k]), ..s1 };
    let s3 = Machine { stack: s.stack, mem: s.mem.insert(baseu + off, vals[k]), ..s2 };
    assert(step(head[0], s, n_args, rets) == Some(s1));
    assert(step(head[1], s1, n_args, rets) == Some(s2));
    assert(s2.stack.len() >= 2);
    assert(s2.stack[s2.stack.len() - 2] == Value::I32(baseu));
    assert(s2.stack.last() == vals[k]);
    assert(vals[k].ty() == spilled[k]);
    assert(s2.stack.drop_last().drop_last() =~= s.stack);
    assert(baseu + offw == baseu + off);
    assert(step(head[2], s2, n_args, rets) matches Some(x) && x =~= s3);
    assert(head.drop_first() =~= seq![head[1], head[2]]);
    assert(head.drop_first().drop_first() =~= seq![head[2]]);
    assert(run_code(head, s, n_args, rets) == Some(s3));
}

/// What running the store sequence from index `k` leaves behind: the stack,
/// locals and globals untouched, each remaining spilled value in memory at
/// its offset from the base, and every address outside the remaining spill
/// range untouched.
spec fn stores_post(s: Machine, s1: Machine, baseu: u32, spilled: Seq<ValType>, vals: Seq<Value>,
    k: int) -> bool {
    let n = spilled.len() as int;
    &&& s1.stack == s.stack
    &&& s1.locals == s.locals
    &&& s1.globals == s.globals
    &&& forall|i: int| k <= i < n ==>
        s1.mem.contains_key(baseu + #[trigger] spec_offset(spilled, i))
            && s1.mem[baseu + spec_offset(spilled, i)] == vals[i]
    &&& forall|a: int|
        (a < baseu + spec_end(spilled, k) || a >= baseu + spec_end(spilled, n)) ==>
            ((#[trigger] s1.mem.contains_key(a)) == s.mem.contains_key(a)
                && (s.mem.contains_key(a) ==> s1.mem[a] == s.mem[a]))
}

/// Storing each temporary at its laid-out offset from the base address
/// updates memory exactly within the spill region and nowhere else.
#[verifier::rlimit(100)]
proof fn lemma_run_stores(s: Machine, p: int, baseu: u32, spilled: Seq<ValType>, vals: Seq<Value>,
    k: int, n_args: nat, rets: Seq<Value>)
    requires
        0 <= p,
        0 <= k <= spilled.len(),
        spilled.len() <= MAX_SPILLED,
        p + 1 + spilled.len() <= usize::MAX,
        vals.len() == spilled.len(),
        s.locals.contains_key(p as nat),
        s.locals[p as nat] == Value::I32(baseu),
        forall|i: int| k <= i < spilled.len() ==>
            s.locals.contains_key(#[trigger] ((p + 1 + i) as nat))
                && s.locals[(p + 1 + i) as nat] == vals[i],
        forall|i: int| 0 <= i < spilled.len() ==> (#[trigger] vals[i]).ty() == spilled[i],
    ensures
        run_code(store_code(p, spilled, k), s, n_args, rets) is Some,
        stores_post(s, run_code(store_code(p, spilled, k), s, n_args, rets)->Some_0, baseu,
            spilled, vals, k),
    decreases spilled.len() - k,
{
    let n = spilled.len() as int;
    if k >= n {
        assert(store_code(p, spilled, k) =~= Seq::empty());
        assert(run_code(store_code(p, spilled, k), s, n_args, rets) == Some(s));
        assert(stores_post(s, s, baseu, spilled, vals, k));
    } else {
        lemma_offset_in_step(spilled, k);
        lemma_end_bounds(spilled, k);
        lemma_end_bounds(spilled, k + 1);
        lemma_end_up_to(spilled, k + 1, n);
        let off = spec_offset(spilled, k);
        assert(0 <= off < 0x1_0000_0000);
        let offw = off as u32;
        let head = seq![
            Instr::LocalGet(p as usize),
            Instr::LocalGet((p + 1 + k) as usize),
            Instr::Store(spilled[k], offw),
        ];
        let tail = store_code(p, spilled, k + 1);
        assert(store_code(p, spilled, k) == head + tail);
        let s3 = Machine { mem: s.mem.insert(baseu + off, vals[k]), ..s };
        lemma_run_store_one(s, p, baseu, spilled, vals, k, n_args, rets);
        assert(run_code(head, s, n_args, rets) == Some(s3));
        lemma_run_append(head, tail, s, n_args, rets);
        lemma_run_stores(s3, p, baseu, spilled, vals, k + 1, n_args, rets);
        let s4 = run_code(tail, s3, n_args, rets)->Some_0;
        assert forall|i: int| k <= i < n implies
            s4.mem.contains_key(baseu + #[trigger] spec_offset(spilled, i))
                && s4.mem[baseu + spec_offset(spilled, i)] == vals[i] by {
            if i == k {
                assert(baseu + off < baseu + spec_end(spilled, k + 1));
                assert(s4.mem.contains_key(baseu + off) == s3.mem.contains_key(baseu + off));
                assert(s4.mem[baseu + off] == s3.mem[baseu + off]);
            }
        }
        assert forall|a: int|
            (a < baseu + spec_end(spilled, k) || a >= baseu + spec_end(spilled, n)) implies
                ((#[trigger] s4.mem.contains_key(a)) == s.mem.contains_key(a)
                    && (s.mem.contains_key(a) ==> s4.mem[a] == s.mem[a])) by {
            assert(spec_end(spilled, k) <= spec_end(spilled, k + 1));
            assert(s4.mem.contains_key(a) == s3.mem.contains_key(a));
            assert(a != baseu + off);
        }
        assert(run_code(store_code(p, spilled, k), s, n_args, rets) == run_code(tail, s3, n_args,
            rets));
        assert(run_code(tail, s3, n_args, rets) == Some(s4));
        assert(stores_post(s, s4, baseu, spilled, vals, k));
    }
}

/// Net effect of a whole synthesized wrapper body (the shadow-stack and
/// round-trip guarantees). For any machine whose globals hold the
/// shadow-stack pointer and whose locals hold the wrapper's parameters,
/// and for whatever values `rets` the original function returns, running
/// the wrapper body:
/// - leaves exactly the first result on the evaluation stack;
/// - restores every global, the shadow-stack pointer included, to its
///   value before the call;
/// - writes result `i` (for `i >= 1`) to memory at `base + offset(i)`,
///   where `base` is the shadow-stack pointer minus the total allocation
///   size and `offset` the computed layout of the spilled types;
/// - touches no memory outside the reserved region `[base, base + total)`;
/// - leaves the wrapper's parameters unchanged.
#[verifier::rlimit(100)]
#[verifier::spinoff_prover]
pub proof fn lemma_wrapper_correct(s: Machine, f: usize, p: usize, sp: usize, ts: Seq<ValType>,
    rets: Seq<Value>)
    requires
        2 <= ts.len(),
        ts.len() <= MAX_SPILLED,
        rets.len() == ts.len(),
        forall|i: int| 0 <= i < ts.len() ==> (#[trigger] rets[i]).ty() == ts[i],
        p + ts.len() <= usize::MAX,
        s.globals.contains_key(sp as nat),
        s.globals[sp as nat] matches Value::I32(_),
        forall|j: int| 0 <= j < p ==> s.locals.contains_key(#[trigger] (j as nat)),
    ensures
        run_code(wrapper_body(f, p, sp, ts), s, p as nat, rets) is Some,
        ({
            let spilled = ts.skip(1);
            let total = spec_total_size(spilled);
            let base = sub32(as_i32(s.globals[sp as nat]), total as u32);
            let s1 = run_code(wrapper_body(f, p, sp, ts), s, p as nat, rets)->Some_0;
            &&& s1.stack == s.stack.push(rets[0])
            &&& s1.globals == s.globals
            &&& forall|i: int| 1 <= i < ts.len() ==>
                s1.mem.contains_key(base + #[trigger] spec_offset(spilled, i - 1))
                    && s1.mem[base + spec_offset(spilled, i - 1)] == rets[i]
            &&& forall|a: int| (a < base || a >= base + total) ==>
                ((#[trigger] s1.mem.contains_key(a)) == s.mem.contains_key(a)
                    && (s.mem.contains_key(a) ==> s1.mem[a] == s.mem[a]))
            &&& forall|j: int| 0 <= j < p ==>
                s1.locals.contains_key(#[trigger] (j as nat))
                    && s1.locals[j as nat] == s.locals[j as nat]
        }),
{
    let spilled = ts.skip(1);
    let m = spilled.len() as int;
    assert(m == ts.len() - 1);
    lemma_end_bounds(spilled, m);
    lemma_max_align_bounds(spilled, m);
    lemma_round_up(spec_end(spilled, m), spec_max_align(spilled, m));
    let total_i = spec_total_size(spilled);
    assert(0 <= total_i < 0x1_0000_0000);
    let total = total_i as u32;
    let sp0 = as_i32(s.globals[sp as nat]);
    let base = sub32(sp0, total);
    let na = p as nat;

    let c1 = reserve_code(sp, total, p);
    let c2 = gets_code(0, p as int);
    let c3 = seq![Instr::Call(f)];
    let c4 = spill_code(p as int, m);
    let c5 = store_code(p as int, spilled, 0);
    let c6 = release_code(sp, total);
    let code = wrapper_body(f, p, sp, ts);
    assert(code == c1 + c2 + c3 + c4 + c5 + c6);
    assert(code =~= c1 + (c2 + (c3 + (c4 + (c5 + c6)))));

    // Reserve.
    lemma_run_reserve(s, sp, total, p, na, rets);
    let s1 = Machine {
        stack: s.stack,
        locals: s.locals.insert(p as nat, Value::I32(base)),
        globals: s.globals.insert(sp as nat, Value::I32(base)),
        mem: s.mem,
    };
    lemma_run_append(c1, c2 + (c3 + (c4 + (c5 + c6))), s, na, rets);
    assert(run_code(code, s, na, rets) == run_code(c2 + (c3 + (c4 + (c5 + c6))), s1, na, rets));

    // Forward the parameters.
    assert forall|j: int| 0 <= j < p implies s1.locals.contains_key(#[trigger] (j as nat))
        && s1.locals[j as nat] == s.locals[j as nat] by {
        assert(j as nat != p as nat);
    }
    lemma_run_gets(s1, 0, p as int, na, rets);
    let args = Seq::new(p as nat, |j: int| s1.locals[(0 + j) as nat]);
    let s2 = Machine { stack: s1.stack + args, ..s1 };
    lemma_run_append(c2, c3 + (c4 + (c5 + c6)), s1, na, rets);
    assert(run_code(code, s, na, rets) == run_code(c3 + (c4 + (c5 + c6)), s2, na, rets));

    // Call the original function.
    let s3 = Machine { stack: s.stack + rets, ..s2 };
    assert(run_code(c3, s2, na, rets) == Some(s3)) by {
        reveal_with_fuel(run_code, 3);
        assert(s2.stack.len() == s.stack.len() + p);
        assert(s2.stack.take(s2.stack.len() - na) =~= s.stack);
        assert(step(c3[0], s2, na, rets) matches Some(x) && x =~= s3);
        assert(c3.drop_first() =~= Seq::<Instr>::empty());
    }
    lemma_run_append(c3, c4 + (c5 + c6), s2, na, rets);
    assert(run_code(code, s, na, rets) == run_code(c4 + (c5 + c6), s3, na, rets));

    // Spill the results into temporaries, last first.
    let vals = rets.skip(1);
    assert(s3.stack =~= s.stack.push(rets[0]) + vals);
    lemma_run_spills(s3, s.stack.push(rets[0]), vals, p as int, na, rets);
    lemma_run_append(c4, c5 + c6, s3, na, rets);
    let s4 = run_code(c4, s3, na, rets)->Some_0;
    assert(run_code(code, s, na, rets) == run_code(c5 + c6, s4, na, rets));
    assert(s4.stack == s.stack.push(rets[0]));
    assert(s4.globals == s3.globals);
    assert(s4.mem == s.mem);

    // Store the spilled values at their offsets.
    assert(s4.locals.contains_key(p as nat) && s4.locals[p as nat] == Value::I32(base)) by {
        assert(!(p as int + 1 <= p as nat <= p as int + m));
        assert(s1.locals.contains_key(p as nat));
    }
    assert forall|i: int| 0 <= i < m implies
        s4.locals.contains_key(#[trigger] ((p as int + 1 + i) as nat))
            && s4.locals[(p as int + 1 + i) as nat] == vals[i] by {
        let ii = i + 1;
        assert(1 <= ii <= m);
        assert(s4.locals.contains_key(((p as int + ii) as nat))
            && s4.locals[(p as int + ii) as nat] == vals[ii - 1]);
        assert((p as int + 1 + i) as nat == (p as int + ii) as nat);
    }
    assert forall|i: int| 0 <= i < m implies (#[trigger] vals[i]).ty() == spilled[i] by {
        assert(vals[i] == rets[i + 1]);
        assert(spilled[i] == ts[i + 1]);
    }
    lemma_run_stores(s4, p as int, base, spilled, vals, 0, na, rets);
    lemma_run_append(c5, c6, s4, na, rets);
    let s5 = run_code(c5, s4, na, rets)->Some_0;
    assert(run_code(code, s, na, rets) == run_code(c6, s5, na, rets));
    assert(stores_post(s4, s5, base, spilled, vals, 0));

    // Release the reserved region.
    assert(s5.globals == s3.globals);
    assert(s5.globals.contains_key(sp as nat) && s5.globals[sp as nat] == Value::I32(base));
    lemma_run_release(s5, sp, total, na, rets);
    let s6 = Machine {
        globals: s5.globals.insert(sp as nat, Value::I32(add32(base, total))),
        ..s5
    };
    assert(run_code(code, s, na, rets) == Some(s6));
    lemma_sub_add_cancel(sp0, total);
    assert(s6.globals =~= s.globals) by {
        lemma_sub_add_cancel(sp0, total);
        assert(add32(base, total) == sp0);
        assert(s.globals[sp as nat] == Value::I32(sp0));
    }

    // Conclusions.
    assert(s6.stack == s.stack.push(rets[0]));
    assert forall|i: int| 1 <= i < ts.len() implies
        s6.mem.contains_key(base + #[trigger] spec_offset(spilled, i - 1))
            && s6.mem[base + spec_offset(spilled, i - 1)] == rets[i] by {
        assert(s6.mem == s5.mem);
        assert(s5.mem.contains_key(base + spec_offset(spilled, i - 1))
            && s5.mem[base + spec_offset(spilled, i - 1)] == vals[i - 1]);
        assert(vals[i - 1] == rets[i]);
    }
    assert forall|a: int| (a < base || a >= base + total_i) implies
        ((#[trigger] s6.mem.contains_key(a)) == s.mem.contains_key(a)
            && (s.mem.contains_key(a) ==> s6.mem[a] == s.mem[a])) by {
        assert(0 <= spec_end(spilled, 0));
        assert(spec_end(spilled, m) <= total_i);
        assert(a < base + spec_end(spilled, 0) || a >= base + spec_end(spilled, m));
        assert(s5.mem.contains_key(a) == s4.mem.contains_key(a)
            && (s4.mem.contains_key(a) ==> s5.mem[a] == s4.mem[a]));
    }
    assert forall|j: int| 0 <= j < p implies
        s6.locals.contains_key(#[trigger] (j as nat))
            && s6.locals[j as nat] == s.locals[j as nat] by {
        assert(s6.locals == s4.locals);
        assert(!(p as int + 1 <= j as nat <= p as int + m));
        assert(s4.locals.contains_key(j as nat) == s3.locals.contains_key(j as nat));
        assert(s3.locals.contains_key(j as nat));
        assert(s4.locals[j as nat] == s3.locals[j as nat]);
        assert(s1.locals[j as nat] == s.locals[j as nat]);
    }
}

/// Builds the wrapper for original function `f`: same parameters, a single
/// result of the first original result type, and a body that is exactly
/// `wrapper_body`. `l` must be the layout of the spilled result types
/// (every result type after the first).
pub fn synthesize(f: usize, params: &Vec<ValType>, result_types: &Vec<ValType>, l: &Layout,
    sp: usize) -> (w: Function)
    requires
        2 <= result_types@.len(),
        result_types@.len() <= MAX_SPILLED,
        params@.len() + result_types@.len() <= usize::MAX,
        layout_matches(*l, result_types@.skip(1)),
    ensures
        w.params@ == params@,
        w.results@ =~= seq![result_types@[0]],
        w.body matches Some(b) && b@ == wrapper_body(f, params@.len() as usize, sp,
            result_types@),
{
    let ghost spilled = result_types@.skip(1);
    let p = params.len();
    let n = result_types.len();
    let m = n - 1;
    proof {
        assert(spilled.len() == m);
        lemma_end_bounds(spilled, m as int);
        lemma_max_align_bounds(spilled, m as int);
        lemma_round_up(spec_end(spilled, m as int), spec_max_align(spilled, m as int));
    }
    let total = l.total_size;
    let mut body: Vec<Instr> = Vec::new();
    body.push(Instr::GlobalGet(sp));
    body.push(Instr::I32Const(total));
    body.push(Instr::I32Sub);
    body.push(Instr::LocalSet(p));
    body.push(Instr::LocalGet(p));
    body.push(Instr::GlobalSet(sp));
    let ghost c1 = reserve_code(sp, total, p);
    proof {
        assert(body@ =~= c1);
    }
    let mut j: usize = 0;
    while j < p
        invariant
            j <= p,
            p == params@.len(),
            body@ == c1 + gets_code(0, j as int),
        decreases p - j,
    {
        body.push(Instr::LocalGet(j));
        proof {
            assert(c1 + gets_code(0, j as int + 1) =~= (c1 + gets_code(0, j as int)).push(
                Instr::LocalGet(j)));
        }
        j = j + 1;
    }
    body.push(Instr::Call(f));
    let ghost c123 = c1 + gets_code(0, p as int) + seq![Instr::Call(f)];
    proof {
        assert(body@ =~= c123);
    }
    let mut i: usize = m;
    while i >= 1
        invariant
            i <= m,
            p + m < usize::MAX,
            body@ == c123 + spill_code(p as int, m as int).take(m - i),
        decreases i,
    {
        body.push(Instr::LocalSet(p + i));
        proof {
            let t = (m - i) as int;
            assert(spill_code(p as int, m as int)[t] == Instr::LocalSet((p + i) as usize));
            assert(c123 + spill_code(p as int, m as int).take(t + 1) =~= (c123 + spill_code(
                p as int, m as int).take(t)).push(Instr::LocalSet((p + i) as usize)));
        }
        i = i - 1;
    }
    let ghost c1234 = c123 + spill_code(p as int, m as int);
    proof {
        assert(spill_code(p as int, m as int).take(m as int) =~= spill_code(p as int, m as int));
        assert(body@ =~= c1234);
    }
    let mut k: usize = 0;
    while k < m
        invariant
            k <= m,
            p + m < usize::MAX,
            m == spilled.len(),
            layout_matches(*l, spilled),
            c1234 + store_code(p as int, spilled, 0) =~= body@ + store_code(p as int, spilled,
                k as int),
        decreases m - k,
    {
        let e = &l.entries[k];
        body.push(Instr::LocalGet(p));
        body.push(Instr::LocalGet(p + 1 + k));
        body.push(Instr::Store(e.ty, e.offset));
        proof {
            lemma_offset_in_step(spilled, k as int);
            lemma_end_bounds(spilled, k as int);
            lemma_end_bounds(spilled, k as int + 1);
            assert(e.ty == spilled[k as int]);
            assert(e.offset == spec_offset(spilled, k as int) as u32);
            assert(store_code(p as int, spilled, k as int) =~= seq![
                Instr::LocalGet(p),
                Instr::LocalGet((p + 1 + k) as usize),
                Instr::Store(e.ty, e.offset),
            ] + store_code(p as int, spilled, k as int + 1));
            assert(c1234 + store_code(p as int, spilled, 0) =~= body@ + store_code(p as int,
                spilled, k as int + 1));
        }
        k = k + 1;
    }
    proof {
        assert(store_code(p as int, spilled, m as int) =~= Seq::<Instr>::empty());
        assert(body@ =~= c1234 + store_code(p as int, spilled, 0));
    }
    body.push(Instr::GlobalGet(sp));
    body.push(Instr::I32Const(total));
    body.push(Instr::I32Add);
    body.push(Instr::GlobalSet(sp));
    proof {
        assert(body@ =~= c1234 + store_code(p as int, spilled, 0) + release_code(sp, total));
        assert(total == spec_total_size(spilled) as u32);
        assert(body@ =~= wrapper_body(f, p, sp, result_types@));
    }
    let mut results: Vec<ValType> = Vec::new();
    results.push(result_types[0]);
    Function { params: copy_types(params), results, body: Some(body) }
}

} // verus!
