//! The transform orchestrator: resolves requested export names, validates
//! the requested result-type lists, synthesizes one wrapper per request and
//! repoints the exports. The batch is all-or-nothing: if any request fails
//! validation, nothing is synthesized or rewritten and the module is left
//! unmodified.
//!
//! Checks run in this order: the shadow-stack pointer and the memory must
//! be present, no export may be requested twice, and then per request, in
//! request order: the name must resolve, the export must bind a function,
//! every type token must be known, and at least two result types must be
//! given.

use vstd::prelude::*;
use crate::values::ValType;
use crate::values::spec_parse_val_type;
use crate::values::parse_val_type;
use crate::values::bytes_eq;
use crate::values::copy_bytes;
use crate::values::copy_types;
use crate::layout::MAX_SPILLED;
use crate::layout::layout;
use crate::layout::layout_matches;
use crate::module::Export;
use crate::module::ExportItem;
use crate::module::Function;
use crate::module::Module;
use crate::module::MAX_FUNCS;
use crate::module::MAX_PARAMS;
use crate::module::module_wf;
use crate::module::spec_find_export;
use crate::module::rewrite_export;
use crate::module::find_export;
use crate::wrapper::wrapper_body;
use crate::wrapper::synthesize;
use crate::wrapper::as_i32;
use crate::wrapper::lemma_wrapper_correct;
use crate::layout::spec_offset;
use crate::layout::spec_total_size;
use crate::ir::Machine;
use crate::ir::run_code;
use crate::ir::sub32;
use crate::values::Value;

verus! {

/// Why a batch was rejected. Every error aborts the whole invocation
/// before any module mutation.
#[derive(Clone, Copy, PartialEq, Eq, Structural, Debug)]
pub enum TransformError {
    /// The module has no shadow-stack-pointer global.
    MissingShadowStack,
    /// The module has no linear memory.
    MissingMemory,
    /// The same export name was requested twice in one batch.
    DuplicateRequest,
    /// A requested export name is not in the module's export table.
    UnknownFunction,
    /// A requested export binds something other than a function.
    NotAFunctionExport,
    /// A type token outside `i32`, `i64`, `f32`, `f64`.
    UnknownValueType,
    /// Fewer than two result types were requested.
    NotMultiValue,
}

/// One transform request: the exported function name and the textual
/// result types it is declared to return.
pub struct TransformRequest {
    pub name: Vec<u8>,
    pub type_tokens: Vec<Vec<u8>>,
}

/// What a token list denotes, or `None` if any token is unknown.
pub open spec fn spec_parse_types(tokens: Seq<Vec<u8>>) -> Option<Seq<ValType>> {
    if forall|i: int| 0 <= i < tokens.len() ==> spec_parse_val_type(#[trigger] tokens[i]@) is Some {
        Some(Seq::new(tokens.len(), |i: int| spec_parse_val_type(tokens[i]@)->Some_0))
    } else {
        None
    }
}

/// Validation of one request against the module, in order: the name must
/// resolve to an export, the export must bind a function, every token must
/// be a known type, and the arity must be at least two. On success: the
/// export index, the function index, and the parsed result types.
pub open spec fn spec_request_check(m: Module, r: TransformRequest) -> Result<
    (int, int, Seq<ValType>),
    TransformError,
> {
    match spec_find_export(m.exports@, r.name@, 0) {
        None => Err(TransformError::UnknownFunction),
        Some(e) => match m.exports@[e].item {
            ExportItem::Function(fid) => match spec_parse_types(r.type_tokens@) {
                None => Err(TransformError::UnknownValueType),
                Some(ts) => if ts.len() < 2 {
                    Err(TransformError::NotMultiValue)
                } else {
                    Ok((e, fid as int, ts))
                },
            },
            _ => Err(TransformError::NotAFunctionExport),
        },
    }
}

/// The export index a request resolves to (meaningful only when the
/// request checks out).
pub open spec fn spec_req_export(m: Module, r: TransformRequest) -> int {
    match spec_request_check(m, r) {
        Ok(t) => t.0,
        Err(_) => -1,
    }
}

/// The function index a request resolves to.
pub open spec fn spec_req_func(m: Module, r: TransformRequest) -> int {
    match spec_request_check(m, r) {
        Ok(t) => t.1,
        Err(_) => -1,
    }
}

/// The parsed result types of a request.
pub open spec fn spec_req_types(m: Module, r: TransformRequest) -> Seq<ValType> {
    match spec_request_check(m, r) {
        Ok(t) => t.2,
        Err(_) => Seq::empty(),
    }
}

/// Whether some export name is requested twice.
pub open spec fn spec_duplicate(reqs: Seq<TransformRequest>) -> bool {
    exists|i: int, j: int| 0 <= i < j < reqs.len() && reqs[i].name@ == reqs[j].name@
}

/// The first per-request error, in request order, from request `i` on.
pub open spec fn spec_first_request_error(m: Module, reqs: Seq<TransformRequest>, i: int)
    -> Option<TransformError>
    decreases reqs.len() - i when 0 <= i <= reqs.len()
{
    if i >= reqs.len() {
        None
    } else {
        match spec_request_check(m, reqs[i]) {
            Err(e) => Some(e),
            Ok(_) => spec_first_request_error(m, reqs, i + 1),
        }
    }
}

/// The error an entire batch is rejected with, if any: a missing
/// shadow-stack pointer or memory first, then a duplicate request, then
/// the first per-request error.
pub open spec fn spec_batch_error(m: Module, reqs: Seq<TransformRequest>)
    -> Option<TransformError> {
    if m.shadow_stack is None {
        Some(TransformError::MissingShadowStack)
    } else if m.memory is None {
        Some(TransformError::MissingMemory)
    } else if spec_duplicate(reqs) {
        Some(TransformError::DuplicateRequest)
    } else {
        spec_first_request_error(m, reqs, 0)
    }
}

/// A resolved export names the position it was found at.
pub proof fn lemma_find_export_found(exports: Seq<Export>, name: Seq<u8>, i: int, e: int)
    requires
        0 <= i <= exports.len(),
        spec_find_export(exports, name, i) == Some(e),
    ensures
        i <= e < exports.len(),
        exports[e].name@ == name,
    decreases exports.len() - i,
{
    if i < exports.len() && exports[i].name@ != name {
        lemma_find_export_found(exports, name, i + 1, e);
    }
}

/// Parses a token list; `Err(UnknownValueType)` if any token is unknown.
fn parse_types(tokens: &Vec<Vec<u8>>) -> (r: Result<Vec<ValType>, TransformError>)
    ensures
        match r {
            Ok(ts) => spec_parse_types(tokens@) == Some(ts@),
            Err(e) => e == TransformError::UnknownValueType && spec_parse_types(tokens@) is None,
        },
{
    let mut ts: Vec<ValType> = Vec::new();
    let mut i: usize = 0;
    while i < tokens.len()
        invariant
            i <= tokens@.len(),
            ts@.len() == i,
            forall|j: int| 0 <= j < i ==> spec_parse_val_type(#[trigger] tokens@[j]@) is Some,
            forall|j: int| 0 <= j < i ==> ts@[j] == spec_parse_val_type(#[trigger] tokens@[j]@)
                ->Some_0,
        decreases tokens@.len() - i,
    {
        match parse_val_type(&tokens[i]) {
            Some(t) => ts.push(t),
            None => {
                return Err(TransformError::UnknownValueType);
            },
        }
        i = i + 1;
    }
    proof {
        assert(ts@ =~= Seq::new(tokens@.len(), |j: int| spec_parse_val_type(tokens@[j]@)
            ->Some_0));
    }
    Ok(ts)
}

/// Validates one request against the module: resolves the export, checks
/// that it binds a function, parses the tokens and checks the arity.
fn check_request(m: &Module, r: &TransformRequest) -> (res: Result<
    (usize, usize, Vec<ValType>),
    TransformError,
>)
    ensures
        match res {
            Ok(t) => spec_request_check(*m, *r) == Ok::<_, TransformError>((t.0 as int,
                t.1 as int, t.2@)),
            Err(e) => spec_request_check(*m, *r) == Err::<(int, int, Seq<ValType>), _>(e),
        },
{
    let e = match find_export(m, &r.name) {
        Some(e) => e,
        None => {
            return Err(TransformError::UnknownFunction);
        },
    };
    proof {
        lemma_find_export_found(m.exports@, r.name@, 0, e as int);
    }
    let fid = match m.exports[e].item {
        ExportItem::Function(fid) => fid,
        _ => {
            return Err(TransformError::NotAFunctionExport);
        },
    };
    let ts = match parse_types(&r.type_tokens) {
        Ok(ts) => ts,
        Err(err) => {
            return Err(err);
        },
    };
    if ts.len() < 2 {
        return Err(TransformError::NotMultiValue);
    }
    Ok((e, fid, ts))
}

/// Whether two functions agree: same signature, and the same body or none.
pub open spec fn func_eq(a: Function, b: Function) -> bool {
    &&& a.params@ == b.params@
    &&& a.results@ == b.results@
    &&& (a.body is Some) == (b.body is Some)
    &&& (a.body is Some ==> a.body->Some_0@ == b.body->Some_0@)
}

/// What a successful batch leaves behind: one wrapper appended per request
/// in request order, each rewritten export bound to its wrapper, and
/// everything else unchanged.
pub open spec fn transform_success(m0: Module, m1: Module, reqs: Seq<TransformRequest>,
    ids: Seq<usize>) -> bool {
    let n0 = m0.funcs@.len() as int;
    let sp = m0.shadow_stack->Some_0;
    &&& ids.len() == reqs.len()
    &&& forall|k: int| 0 <= k < reqs.len() ==> #[trigger] ids[k] == n0 + k
    &&& m1.funcs@.len() == n0 + reqs.len()
    &&& forall|i: int| 0 <= i < n0 ==> func_eq(#[trigger] m1.funcs@[i], m0.funcs@[i])
    &&& forall|k: int| 0 <= k < reqs.len() ==> {
        let w = #[trigger] m1.funcs@[n0 + k];
        let f = spec_req_func(m0, reqs[k]);
        let ts = spec_req_types(m0, reqs[k]);
        &&& w.params@ == m0.funcs@[f].params@
        &&& w.results@ == seq![ts[0]]
        &&& w.body is Some
        &&& w.body->Some_0@ == wrapper_body(f as usize, m0.funcs@[f].params@.len() as usize,
            sp, ts)
    }
    &&& m1.exports@.len() == m0.exports@.len()
    &&& forall|e: int| 0 <= e < m0.exports@.len() ==>
        (#[trigger] m1.exports@[e]).name@ == m0.exports@[e].name@
    &&& forall|k: int| 0 <= k < reqs.len() ==>
        m1.exports@[spec_req_export(m0, #[trigger] reqs[k])].item == ExportItem::Function(
            (n0 + k) as usize)
    &&& forall|e: int| (0 <= e < m0.exports@.len() && (forall|k: int| 0 <= k < reqs.len() ==>
        e != spec_req_export(m0, #[trigger] reqs[k]))) ==>
            (#[trigger] m1.exports@[e]).item == m0.exports@[e].item
    &&& m1.shadow_stack == m0.shadow_stack
    &&& m1.memory == m0.memory
}

/// Runs a whole batch of transform requests against the module. Either
/// every request is applied (one wrapper appended per request, its export
/// repointed) or the first error in checking order is returned and the
/// module is left exactly as it was.
pub fn run_transform(m: &mut Module, requests: &Vec<TransformRequest>) -> (r: Result<
    Vec<usize>,
    TransformError,
>)
    requires
        module_wf(*old(m)),
        old(m).funcs@.len() + requests@.len() <= MAX_FUNCS,
        forall|k: int| 0 <= k < requests@.len() ==>
            (#[trigger] requests@[k]).type_tokens@.len() <= MAX_SPILLED,
    ensures
        module_wf(*final(m)),
        match r {
            Ok(ids) => spec_batch_error(*old(m), requests@) is None && transform_success(*old(m),
                *final(m), requests@, ids@),
            Err(e) => spec_batch_error(*old(m), requests@) == Some(e) && *final(m) == *old(m),
        },
{
    let ghost m0 = *m;
    let sp = match m.shadow_stack {
        Some(g) => g,
        None => {
            return Err(TransformError::MissingShadowStack);
        },
    };
    match m.memory {
        Some(_) => (),
        None => {
            return Err(TransformError::MissingMemory);
        },
    }

    // No export may be requested twice in one batch.
    let n_req = requests.len();
    let mut i: usize = 0;
    while i < n_req
        invariant
            i <= n_req,
            n_req == requests@.len(),
            m0 == *old(m),
            *m == m0,
            module_wf(m0),
            m0.shadow_stack is Some,
            m0.memory is Some,
            forall|a: int, b: int| 0 <= a < b < requests@.len() && a < i ==>
                (#[trigger] requests@[a]).name@ != (#[trigger] requests@[b]).name@,
        decreases n_req - i,
    {
        let mut j: usize = i + 1;
        while j < n_req
            invariant
                i < j <= n_req,
                n_req == requests@.len(),
                m0 == *old(m),
                *m == m0,
                module_wf(m0),
                m0.shadow_stack is Some,
                m0.memory is Some,
                forall|b: int| i < b < j ==>
                    requests@[i as int].name@ != (#[trigger] requests@[b]).name@,
            decreases n_req - j,
        {
            if bytes_eq(&requests[i].name, &requests[j].name) {
                proof {
                    assert(spec_duplicate(requests@));
                }
                return Err(TransformError::DuplicateRequest);
            }
            j = j + 1;
        }
        i = i + 1;
    }
    proof {
        assert(!spec_duplicate(requests@));
    }

    // Validate every request before touching anything.
    let mut plan: Vec<(usize, usize, Vec<ValType>)> = Vec::new();
    let mut k: usize = 0;
    while k < n_req
        invariant
            k <= n_req,
            n_req == requests@.len(),
            plan@.len() == k,
            m0 == *old(m),
            *m == m0,
            module_wf(m0),
            m0.shadow_stack is Some,
            m0.memory is Some,
            !spec_duplicate(requests@),
            forall|q: int| 0 <= q < k ==> spec_request_check(m0, #[trigger] requests@[q])
                == Ok::<_, TransformError>((plan@[q].0 as int, plan@[q].1 as int, plan@[q].2@)),
            spec_first_request_error(m0, requests@, 0) == spec_first_request_error(m0, requests@,
                k as int),
        decreases n_req - k,
    {
        match check_request(m, &requests[k]) {
            Ok(t) => plan.push(t),
            Err(e) => {
                return Err(e);
            },
        }
        k = k + 1;
    }

    // Apply: synthesize one wrapper per request, append it, repoint the
    // export. All requests are known good, so nothing can fail from here.
    let ghost n0 = m0.funcs@.len() as int;
    let mut ids: Vec<usize> = Vec::new();
    let mut k: usize = 0;
    while k < n_req
        invariant
            k <= n_req,
            n_req == requests@.len(),
            plan@.len() == n_req,
            m0 == *old(m),
            module_wf(m0),
            m0.memory is Some,
            !spec_duplicate(requests@),
            spec_first_request_error(m0, requests@, 0) is None,
            n0 == m0.funcs@.len() as int,
            n0 + requests@.len() <= MAX_FUNCS,
            m0.shadow_stack == Some(sp),
            forall|q: int| 0 <= q < n_req ==>
                (#[trigger] requests@[q]).type_tokens@.len() <= MAX_SPILLED,
            forall|q: int| 0 <= q < n_req ==> spec_request_check(m0, #[trigger] requests@[q])
                == Ok::<_, TransformError>((plan@[q].0 as int, plan@[q].1 as int, plan@[q].2@)),
            forall|a: int, b: int| 0 <= a < b < requests@.len() ==>
                (#[trigger] requests@[a]).name@ != (#[trigger] requests@[b]).name@,
            ids@.len() == k,
            forall|q: int| 0 <= q < k ==> #[trigger] ids@[q] == n0 + q,
            m.funcs@.len() == n0 + k,
            forall|i2: int| 0 <= i2 < n0 ==> #[trigger] m.funcs@[i2] == m0.funcs@[i2],
            forall|q: int| 0 <= q < k ==> {
                let w = #[trigger] m.funcs@[n0 + q];
                let f = spec_req_func(m0, requests@[q]);
                let ts = spec_req_types(m0, requests@[q]);
                &&& w.params@ == m0.funcs@[f].params@
                &&& w.results@ == seq![ts[0]]
                &&& w.body is Some
                &&& w.body->Some_0@ == wrapper_body(f as usize,
                    m0.funcs@[f].params@.len() as usize, sp, ts)
            },
            m.exports@.len() == m0.exports@.len(),
            forall|e: int| 0 <= e < m0.exports@.len() ==>
                (#[trigger] m.exports@[e]).name@ == m0.exports@[e].name@,
            forall|q: int| 0 <= q < k ==>
                m.exports@[spec_req_export(m0, #[trigger] requests@[q])].item
                    == ExportItem::Function((n0 + q) as usize),
            forall|e: int| (0 <= e < m0.exports@.len() && (forall|q: int| 0 <= q < k ==>
                e != spec_req_export(m0, #[trigger] requests@[q]))) ==>
                    (#[trigger] m.exports@[e]).item == m0.exports@[e].item,
            m.shadow_stack == m0.shadow_stack,
            m.memory == m0.memory,
        decreases n_req - k,
    {
        let (e, f, ts): (usize, usize, Vec<ValType>) = {
            let t = &plan[k];
            (t.0, t.1, copy_types(&t.2))
        };
        proof {
            assert(spec_request_check(m0, requests@[k as int]) == Ok::<_, TransformError>((
                e as int, f as int, ts@)));
            lemma_find_export_found(m0.exports@, requests@[k as int].name@, 0, e as int);
            assert(f < n0);
            assert(ts@.len() >= 2);
            assert(ts@.len() <= MAX_SPILLED) by {
                assert(ts@.len() == requests@[k as int].type_tokens@.len());
            }
        }
        let params = copy_types(&m.funcs[f].params);
        let mut spilled: Vec<ValType> = Vec::new();
        let mut si: usize = 1;
        while si < ts.len()
            invariant
                1 <= si <= ts@.len(),
                spilled@ == ts@.subrange(1, si as int),
            decreases ts@.len() - si,
        {
            spilled.push(ts[si]);
            proof {
                assert(spilled@ =~= ts@.subrange(1, si as int + 1));
            }
            si = si + 1;
        }
        proof {
            assert(spilled@ =~= ts@.skip(1));
        }
        let l = layout(&spilled);
        proof {
            assert(layout_matches(l, ts@.skip(1)));
        }
        let w = synthesize(f, &params, &ts, &l, sp);
        let new_id = m.funcs.len();
        m.funcs.push(w);
        rewrite_export(m, e, new_id);
        ids.push(new_id);
        proof {
            assert forall|q: int| 0 <= q < k + 1 implies
                m.exports@[spec_req_export(m0, #[trigger] requests@[q])].item
                    == ExportItem::Function((n0 + q) as usize) by {
                if q < k {
                    let eq = spec_req_export(m0, requests@[q]);
                    lemma_find_export_found(m0.exports@, requests@[q].name@, 0, eq);
                    assert(m0.exports@[eq].name@ == requests@[q].name@);
                    assert(m0.exports@[e as int].name@ == requests@[k as int].name@);
                    assert(requests@[q].name@ != requests@[k as int].name@);
                    assert(eq != e as int);
                }
            }
        }
        k = k + 1;
    }
    proof {
        assert(module_wf(*m)) by {
            assert(m.funcs@.len() <= MAX_FUNCS);
            assert forall|f2: int| 0 <= f2 < m.funcs@.len() implies
                (#[trigger] m.funcs@[f2]).params@.len() <= MAX_PARAMS by {
                if f2 < n0 {
                    assert(m.funcs@[f2] == m0.funcs@[f2]);
                } else {
                    let q = f2 - n0;
                    assert(m.funcs@[n0 + q].params@ == m0.funcs@[spec_req_func(m0,
                        requests@[q])].params@);
                    let ee = spec_req_export(m0, requests@[q]);
                    lemma_find_export_found(m0.exports@, requests@[q].name@, 0, ee);
                    assert(spec_req_func(m0, requests@[q]) < n0);
                }
            }
            assert forall|e2: int| 0 <= e2 < m.exports@.len() implies
                ((#[trigger] m.exports@[e2]).item matches ExportItem::Function(fid) ==>
                    fid < m.funcs@.len()) by {
                if exists|q: int| 0 <= q < requests@.len() && e2 == spec_req_export(m0,
                    #[trigger] requests@[q]) {
                    let q = choose|q: int| 0 <= q < requests@.len() && e2 == spec_req_export(m0,
                        #[trigger] requests@[q]);
                    assert(m.exports@[e2].item == ExportItem::Function((n0 + q) as usize));
                } else {
                    assert(forall|q: int| 0 <= q < requests@.len() ==> e2 != spec_req_export(m0,
                        #[trigger] requests@[q]));
                    assert(m.exports@[e2].item == m0.exports@[e2].item);
                }
            }
        }
        assert(transform_success(m0, *m, requests@, ids@));
    }
    Ok(ids)
}

/// The round-trip and shadow-stack guarantees, stated of what a successful
/// batch installs: for any wrapper a batch bound to an export, for any
/// machine holding the shadow-stack pointer and the wrapper's parameters,
/// and for whatever values the original function returns, running the
/// installed wrapper body leaves the first result on the stack, writes
/// every further result to memory at its laid-out offset from the reserved
/// base address, touches no other memory, and restores every global --
/// the shadow-stack pointer included -- to its value before the call.
pub proof fn lemma_transformed_export_correct(m0: Module, m1: Module, reqs: Seq<TransformRequest>,
    ids: Seq<usize>, k: int, s: Machine, rets: Seq<Value>)
    requires
        module_wf(m0),
        transform_success(m0, m1, reqs, ids),
        0 <= k < reqs.len(),
        spec_request_check(m0, reqs[k]) is Ok,
        reqs[k].type_tokens@.len() <= MAX_SPILLED,
        m0.funcs@.len() + reqs.len() <= MAX_FUNCS,
        rets.len() == spec_req_types(m0, reqs[k]).len(),
        forall|i: int| 0 <= i < rets.len() ==>
            (#[trigger] rets[i]).ty() == spec_req_types(m0, reqs[k])[i],
        s.globals.contains_key(m0.shadow_stack->Some_0 as nat),
        s.globals[m0.shadow_stack->Some_0 as nat] matches Value::I32(_),
        forall|j: int| 0 <= j < spec_req_params(m0, reqs[k]) ==>
            s.locals.contains_key(#[trigger] (j as nat)),
    ensures
        ({
            let sp = m0.shadow_stack->Some_0;
            let ts = spec_req_types(m0, reqs[k]);
            let spilled = ts.skip(1);
            let total = spec_total_size(spilled);
            let base = sub32(as_i32(s.globals[sp as nat]), total as u32);
            let body = m1.funcs@[ids[k] as int].body->Some_0@;
            let out = run_code(body, s, spec_req_params(m0, reqs[k]) as nat, rets);
            &&& out is Some
            &&& out->Some_0.stack == s.stack.push(rets[0])
            &&& out->Some_0.globals == s.globals
            &&& forall|i: int| 1 <= i < ts.len() ==>
                out->Some_0.mem.contains_key(base + #[trigger] spec_offset(spilled, i - 1))
                    && out->Some_0.mem[base + spec_offset(spilled, i - 1)] == rets[i]
            &&& forall|a: int| (a < base || a >= base + total) ==>
                ((#[trigger] out->Some_0.mem.contains_key(a)) == s.mem.contains_key(a)
                    && (s.mem.contains_key(a) ==> out->Some_0.mem[a] == s.mem[a]))
        }),
{
    let sp = m0.shadow_stack->Some_0;
    let n0 = m0.funcs@.len() as int;
    let f = spec_req_func(m0, reqs[k]);
    let ts = spec_req_types(m0, reqs[k]);
    let ee = spec_req_export(m0, reqs[k]);
    lemma_find_export_found(m0.exports@, reqs[k].name@, 0, ee);
    assert(0 <= f < n0);
    assert(ts.len() == reqs[k].type_tokens@.len());
    assert(2 <= ts.len() <= MAX_SPILLED);
    let p = m0.funcs@[f].params@.len();
    assert(p <= MAX_PARAMS);
    assert(ids[k] == n0 + k);
    assert(m1.funcs@[n0 + k].body->Some_0@ == wrapper_body(f as usize, p as usize, sp, ts));
    lemma_wrapper_correct(s, f as usize, p as usize, sp, ts, rets);
}

/// The number of parameters of the original function a request resolves
/// to: the synthesized wrapper takes the same parameters.
pub open spec fn spec_req_params(m: Module, r: TransformRequest) -> int {
    m.funcs@[spec_req_func(m, r)].params@.len() as int
}

} // verus!
