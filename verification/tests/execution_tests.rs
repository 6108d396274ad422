//! Runs synthesized wrapper bodies on a small simulator of the instruction
//! semantics: calling the wrapper must return the first result, spill the
//! remaining results to their laid-out offsets, and leave the shadow-stack
//! pointer exactly where it was.

use std::collections::HashMap;

use multivalue::interp::{load, run_exec, ExecMachine};
use multivalue::ir::Instr;
use multivalue::module::{Export, ExportItem, Function, Module};
use multivalue::transform::{run_transform, TransformRequest};
use multivalue::values::{ValType, Value};

struct Sim {
    stack: Vec<Value>,
    locals: HashMap<usize, Value>,
    globals: HashMap<usize, Value>,
    mem: HashMap<u64, Value>,
}

/// Interprets a wrapper body; the one `Call` pops `n_args` operands and
/// pushes `rets`.
fn run(body: &[Instr], sim: &mut Sim, n_args: usize, rets: &[Value]) {
    for instr in body {
        match *instr {
            Instr::GlobalGet(g) => sim.stack.push(sim.globals[&g]),
            Instr::GlobalSet(g) => {
                let v = sim.stack.pop().expect("operand for global.set");
                sim.globals.insert(g, v);
            }
            Instr::LocalGet(l) => sim.stack.push(sim.locals[&l]),
            Instr::LocalSet(l) => {
                let v = sim.stack.pop().expect("operand for local.set");
                sim.locals.insert(l, v);
            }
            Instr::I32Const(c) => sim.stack.push(Value::I32(c)),
            Instr::I32Sub | Instr::I32Add => {
                let b = match sim.stack.pop() {
                    Some(Value::I32(b)) => b,
                    other => panic!("i32 operand expected, got {:?}", other),
                };
                let a = match sim.stack.pop() {
                    Some(Value::I32(a)) => a,
                    other => panic!("i32 operand expected, got {:?}", other),
                };
                let r = if matches!(instr, Instr::I32Sub) {
                    a.wrapping_sub(b)
                } else {
                    a.wrapping_add(b)
                };
                sim.stack.push(Value::I32(r));
            }
            Instr::Call(_) => {
                for _ in 0..n_args {
                    sim.stack.pop().expect("argument for the call");
                }
                sim.stack.extend_from_slice(rets);
            }
            Instr::Store(ty, offset) => {
                let v = sim.stack.pop().expect("value for the store");
                let addr = match sim.stack.pop() {
                    Some(Value::I32(a)) => a,
                    other => panic!("address expected, got {:?}", other),
                };
                assert_eq!(value_type(v), ty, "store width must match the value");
                sim.mem.insert(addr as u64 + offset as u64, v);
            }
        }
    }
}

fn value_type(v: Value) -> ValType {
    match v {
        Value::I32(_) => ValType::I32,
        Value::I64(_) => ValType::I64,
        Value::F32(_) => ValType::F32,
        Value::F64(_) => ValType::F64,
    }
}

fn token(t: ValType) -> &'static [u8] {
    match t {
        ValType::I32 => b"i32",
        ValType::I64 => b"i64",
        ValType::F32 => b"f32",
        ValType::F64 => b"f64",
    }
}

/// A distinctive value of each type per result index.
fn sample(t: ValType, i: usize) -> Value {
    match t {
        ValType::I32 => Value::I32(0x1000 + i as u32),
        ValType::I64 => Value::I64(0x2_0000_0000 + i as u64),
        ValType::F32 => Value::F32(0x3F80_0000 + i as u32),
        ValType::F64 => Value::F64(0x3FF0_0000_0000_0000 + i as u64),
    }
}

fn size_of(t: ValType) -> u64 {
    match t {
        ValType::I32 | ValType::F32 => 4,
        ValType::I64 | ValType::F64 => 8,
    }
}

fn align_up(o: u64, a: u64) -> u64 {
    (o + a - 1) / a * a
}

const SP_GLOBAL: usize = 9;
const SP_START: u32 = 0x8000;

/// Wraps a function returning `types`, runs the wrapper, and checks that
/// the call returned the first result, spilled the others at their
/// offsets, and restored the shadow-stack pointer.
fn check_round_trip(types: &[ValType]) {
    let mut m = Module {
        funcs: vec![Function {
            params: vec![ValType::I32],
            results: types.to_vec(),
            body: None,
        }],
        exports: vec![Export {
            name: b"target".to_vec(),
            item: ExportItem::Function(0),
        }],
        shadow_stack: Some(SP_GLOBAL),
        memory: Some(0),
    };
    let request = TransformRequest {
        name: b"target".to_vec(),
        type_tokens: types.iter().map(|t| token(*t).to_vec()).collect(),
    };
    let ids = run_transform(&mut m, &vec![request]).expect("the request is valid");
    let wrapper = &m.funcs[ids[0]];
    let body = wrapper.body.as_ref().expect("the wrapper has a body");

    let rets: Vec<Value> = types
        .iter()
        .enumerate()
        .map(|(i, t)| sample(*t, i))
        .collect();
    let mut sim = Sim {
        stack: Vec::new(),
        locals: HashMap::from([(0, Value::I32(42))]),
        globals: HashMap::from([(SP_GLOBAL, Value::I32(SP_START))]),
        mem: HashMap::new(),
    };
    run(body, &mut sim, 1, &rets);

    // The first result is the wrapper's return value.
    assert_eq!(sim.stack, vec![rets[0]], "types {:?}", types);
    // The shadow-stack pointer is restored.
    assert_eq!(
        sim.globals[&SP_GLOBAL],
        Value::I32(SP_START),
        "types {:?}",
        types
    );
    // Every remaining result sits at its packed, aligned offset below the
    // old shadow-stack pointer.
    let mut offset: u64 = 0;
    let mut total: u64 = 0;
    let mut max_align: u64 = 1;
    let offsets: Vec<u64> = types[1..]
        .iter()
        .map(|t| {
            let a = size_of(*t);
            offset = align_up(offset, a);
            let o = offset;
            offset += size_of(*t);
            if a > max_align {
                max_align = a;
            }
            total = align_up(offset, max_align);
            o
        })
        .collect();
    let base = (SP_START as u64) - total;
    for (j, o) in offsets.iter().enumerate() {
        assert_eq!(
            sim.mem[&(base + o)],
            rets[j + 1],
            "types {:?}, spilled index {}",
            types,
            j
        );
    }
}

#[test]
fn round_trip_add_and_diff_shape() {
    check_round_trip(&[ValType::I32, ValType::I32]);
}

#[test]
fn round_trip_every_permutation_of_arities_two_to_four() {
    let all = [ValType::I32, ValType::I64, ValType::F32, ValType::F64];
    for n in 2..=4usize {
        let combos = 4usize.pow(n as u32);
        for c in 0..combos {
            let mut types = Vec::new();
            let mut x = c;
            for _ in 0..n {
                types.push(all[x % 4]);
                x /= 4;
            }
            check_round_trip(&types);
        }
    }
}

#[test]
fn round_trip_with_padding_before_f64() {
    check_round_trip(&[ValType::F32, ValType::I32, ValType::F64]);
}

/// The same round trip, run through the library's own verified
/// interpreter instead of the test-side simulator.
#[test]
fn verified_interpreter_round_trips_mixed_results() {
    let types = [ValType::I64, ValType::I32, ValType::F64];
    let mut m = Module {
        funcs: vec![Function {
            params: vec![ValType::I32, ValType::I32],
            results: types.to_vec(),
            body: None,
        }],
        exports: vec![Export {
            name: b"mixed".to_vec(),
            item: ExportItem::Function(0),
        }],
        shadow_stack: Some(0),
        memory: Some(0),
    };
    let request = TransformRequest {
        name: b"mixed".to_vec(),
        type_tokens: types.iter().map(|t| token(*t).to_vec()).collect(),
    };
    let ids = run_transform(&mut m, &vec![request]).expect("the request is valid");
    let body = m.funcs[ids[0]].body.clone().expect("the wrapper has a body");

    let rets = vec![
        Value::I64(0xDEAD_BEEF_0123),
        Value::I32(0x77),
        Value::F64(0x4009_21FB_5444_2D18),
    ];
    let mut machine = ExecMachine {
        stack: Vec::new(),
        locals: vec![Some(Value::I32(11)), Some(Value::I32(22))],
        globals: vec![Some(Value::I32(SP_START))],
        mem: Vec::new(),
    };
    let ok = run_exec(&body, &mut machine, 2, &rets);
    assert!(ok);
    // The first result is returned, the shadow-stack pointer restored.
    assert_eq!(machine.stack, vec![Value::I64(0xDEAD_BEEF_0123)]);
    assert_eq!(machine.globals[0], Some(Value::I32(SP_START)));
    // Spilled: i32 at offset 0, f64 at offset 8, 16 bytes reserved.
    let base = SP_START as u64 - 16;
    assert_eq!(load(&machine, base), Some(Value::I32(0x77)));
    assert_eq!(load(&machine, base + 8), Some(Value::F64(0x4009_21FB_5444_2D18)));
    // Nothing below or above the reserved region was written.
    assert_eq!(load(&machine, base - 4), None);
    assert_eq!(load(&machine, SP_START as u64), None);
}
