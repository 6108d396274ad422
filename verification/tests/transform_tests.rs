use multivalue::ir::Instr;
use multivalue::layout::layout;
use multivalue::module::{Export, ExportItem, Function, Module};
use multivalue::transform::{run_transform, TransformError, TransformRequest};
use multivalue::values::{parse_val_type, ValType};

fn req(name: &str, tokens: &[&str]) -> TransformRequest {
    TransformRequest {
        name: name.as_bytes().to_vec(),
        type_tokens: tokens.iter().map(|t| t.as_bytes().to_vec()).collect(),
    }
}

/// A module with one exported two-result function, the conventional
/// shadow-stack-pointer global and a memory.
fn add_and_diff_module() -> Module {
    Module {
        funcs: vec![Function {
            params: vec![ValType::I32, ValType::I32],
            results: vec![ValType::I32, ValType::I32],
            body: None,
        }],
        exports: vec![Export {
            name: b"add_and_diff".to_vec(),
            item: ExportItem::Function(0),
        }],
        shadow_stack: Some(7),
        memory: Some(0),
    }
}

#[test]
fn parse_val_type_accepts_the_four_types() {
    assert_eq!(parse_val_type(&b"i32".to_vec()), Some(ValType::I32));
    assert_eq!(parse_val_type(&b"i64".to_vec()), Some(ValType::I64));
    assert_eq!(parse_val_type(&b"f32".to_vec()), Some(ValType::F32));
    assert_eq!(parse_val_type(&b"f64".to_vec()), Some(ValType::F64));
}

#[test]
fn parse_val_type_rejects_unknown_tokens() {
    assert_eq!(parse_val_type(&b"i16".to_vec()), None);
    assert_eq!(parse_val_type(&b"ptr".to_vec()), None);
    assert_eq!(parse_val_type(&b"i321".to_vec()), None);
    assert_eq!(parse_val_type(&b"".to_vec()), None);
}

#[test]
fn layout_packs_one_value_at_offset_zero() {
    let l = layout(&vec![ValType::I32]);
    assert_eq!(l.entries.len(), 1);
    assert_eq!(l.entries[0].offset, 0);
    assert_eq!(l.entries[0].size, 4);
    assert_eq!(l.entries[0].align, 4);
    assert_eq!(l.total_size, 4);
}

#[test]
fn layout_inserts_padding_before_wider_value() {
    // An i32 followed by an f64 forces 4 bytes of padding before the f64.
    let l = layout(&vec![ValType::I32, ValType::F64]);
    assert_eq!(l.entries[0].offset, 0);
    assert_eq!(l.entries[1].offset, 8);
    assert_eq!(l.total_size, 16);
}

#[test]
fn layout_total_is_rounded_to_max_alignment() {
    // f64 at 0, i32 at 8: the end is 12 but the total rounds up to 16.
    let l = layout(&vec![ValType::F64, ValType::I32]);
    assert_eq!(l.entries[0].offset, 0);
    assert_eq!(l.entries[1].offset, 8);
    assert_eq!(l.total_size, 16);
}

#[test]
fn layout_offsets_are_alignment_correct() {
    let types = vec![
        ValType::I32,
        ValType::F32,
        ValType::I64,
        ValType::I32,
        ValType::F64,
    ];
    let l = layout(&types);
    let mut max_align = 1;
    let mut prev_end = 0;
    for e in &l.entries {
        assert_eq!(e.offset % e.align, 0);
        assert!(e.offset >= prev_end);
        prev_end = e.offset + e.size;
        if e.align > max_align {
            max_align = e.align;
        }
    }
    assert!(l.total_size >= prev_end);
    assert_eq!(l.total_size % max_align, 0);
}

#[test]
fn wraps_add_and_diff_and_repoints_its_export() {
    let mut m = add_and_diff_module();
    let r = run_transform(&mut m, &vec![req("add_and_diff", &["i32", "i32"])]);
    assert_eq!(r, Ok(vec![1]));
    assert_eq!(m.funcs.len(), 2);
    // The export now binds the wrapper, under the same name.
    assert_eq!(m.exports[0].name, b"add_and_diff".to_vec());
    assert_eq!(m.exports[0].item, ExportItem::Function(1));
    // The wrapper takes the original parameters and returns one i32.
    let w = &m.funcs[1];
    assert_eq!(w.params, vec![ValType::I32, ValType::I32]);
    assert_eq!(w.results, vec![ValType::I32]);
    // Its body reserves 4 bytes, forwards both parameters, calls the
    // original, spills the second result to offset 0, releases the 4
    // bytes, and leaves the first result as the return value.
    let body = w.body.as_ref().expect("the wrapper has a body");
    let expected = vec![
        Instr::GlobalGet(7),
        Instr::I32Const(4),
        Instr::I32Sub,
        Instr::LocalSet(2),
        Instr::LocalGet(2),
        Instr::GlobalSet(7),
        Instr::LocalGet(0),
        Instr::LocalGet(1),
        Instr::Call(0),
        Instr::LocalSet(3),
        Instr::LocalGet(2),
        Instr::LocalGet(3),
        Instr::Store(ValType::I32, 0),
        Instr::GlobalGet(7),
        Instr::I32Const(4),
        Instr::I32Add,
        Instr::GlobalSet(7),
    ];
    assert_eq!(body, &expected);
}

#[test]
fn wraps_three_results_with_mixed_types() {
    // `f` returns (f64, i32, f32): the f64 stays in the return slot, the
    // i32 goes to offset 0 and the f32 to offset 4, 8 bytes in all.
    let mut m = Module {
        funcs: vec![Function {
            params: vec![],
            results: vec![ValType::F64, ValType::I32, ValType::F32],
            body: None,
        }],
        exports: vec![Export {
            name: b"f".to_vec(),
            item: ExportItem::Function(0),
        }],
        shadow_stack: Some(2),
        memory: Some(0),
    };
    let r = run_transform(&mut m, &vec![req("f", &["f64", "i32", "f32"])]);
    assert_eq!(r, Ok(vec![1]));
    let w = &m.funcs[1];
    assert_eq!(w.params, vec![]);
    assert_eq!(w.results, vec![ValType::F64]);
    let body = w.body.as_ref().expect("the wrapper has a body");
    let expected = vec![
        Instr::GlobalGet(2),
        Instr::I32Const(8),
        Instr::I32Sub,
        Instr::LocalSet(0),
        Instr::LocalGet(0),
        Instr::GlobalSet(2),
        Instr::Call(0),
        // Results come off the stack last first: the f32 (index 2), then
        // the i32 (index 1); the f64 (index 0) stays.
        Instr::LocalSet(2),
        Instr::LocalSet(1),
        Instr::LocalGet(0),
        Instr::LocalGet(1),
        Instr::Store(ValType::I32, 0),
        Instr::LocalGet(0),
        Instr::LocalGet(2),
        Instr::Store(ValType::F32, 4),
        Instr::GlobalGet(2),
        Instr::I32Const(8),
        Instr::I32Add,
        Instr::GlobalSet(2),
    ];
    assert_eq!(body, &expected);
}

#[test]
fn wrapping_with_padding_between_spilled_values() {
    // `g` returns (i32, i32, f64): spilled i32 at 0, then 4 bytes of
    // padding, the f64 at 8, 16 bytes in all.
    let mut m = Module {
        funcs: vec![Function {
            params: vec![ValType::I64],
            results: vec![ValType::I32, ValType::I32, ValType::F64],
            body: None,
        }],
        exports: vec![Export {
            name: b"g".to_vec(),
            item: ExportItem::Function(0),
        }],
        shadow_stack: Some(1),
        memory: Some(0),
    };
    let r = run_transform(&mut m, &vec![req("g", &["i32", "i32", "f64"])]);
    assert_eq!(r, Ok(vec![1]));
    let body = m.funcs[1].body.as_ref().expect("the wrapper has a body");
    assert!(body.contains(&Instr::I32Const(16)));
    assert!(body.contains(&Instr::Store(ValType::I32, 0)));
    assert!(body.contains(&Instr::Store(ValType::F64, 8)));
}

#[test]
fn one_result_type_is_not_multi_value() {
    let mut m = add_and_diff_module();
    let r = run_transform(&mut m, &vec![req("add_and_diff", &["i32"])]);
    assert_eq!(r, Err(TransformError::NotMultiValue));
    assert_eq!(m.funcs.len(), 1);
    assert_eq!(m.exports[0].item, ExportItem::Function(0));
}

#[test]
fn zero_result_types_are_not_multi_value() {
    let mut m = add_and_diff_module();
    let r = run_transform(&mut m, &vec![req("add_and_diff", &[])]);
    assert_eq!(r, Err(TransformError::NotMultiValue));
    assert_eq!(m.funcs.len(), 1);
}

#[test]
fn unknown_type_token_aborts_without_mutation() {
    let mut m = add_and_diff_module();
    let r = run_transform(&mut m, &vec![req("add_and_diff", &["i16", "i32"])]);
    assert_eq!(r, Err(TransformError::UnknownValueType));
    let r2 = run_transform(&mut m, &vec![req("add_and_diff", &["ptr", "i32"])]);
    assert_eq!(r2, Err(TransformError::UnknownValueType));
    assert_eq!(m.funcs.len(), 1);
    assert_eq!(m.exports[0].item, ExportItem::Function(0));
}

#[test]
fn unknown_function_name_is_rejected() {
    let mut m = add_and_diff_module();
    let r = run_transform(&mut m, &vec![req("absent", &["i32", "i32"])]);
    assert_eq!(r, Err(TransformError::UnknownFunction));
    assert_eq!(m.funcs.len(), 1);
}

#[test]
fn non_function_export_is_rejected() {
    let mut m = add_and_diff_module();
    m.exports.push(Export {
        name: b"mem".to_vec(),
        item: ExportItem::Memory(0),
    });
    let r = run_transform(&mut m, &vec![req("mem", &["i32", "i32"])]);
    assert_eq!(r, Err(TransformError::NotAFunctionExport));
    assert_eq!(m.funcs.len(), 1);
}

#[test]
fn duplicate_request_is_rejected() {
    let mut m = add_and_diff_module();
    let r = run_transform(
        &mut m,
        &vec![
            req("add_and_diff", &["i32", "i32"]),
            req("add_and_diff", &["i32", "i32"]),
        ],
    );
    assert_eq!(r, Err(TransformError::DuplicateRequest));
    assert_eq!(m.funcs.len(), 1);
    assert_eq!(m.exports[0].item, ExportItem::Function(0));
}

#[test]
fn missing_shadow_stack_is_reported() {
    let mut m = add_and_diff_module();
    m.shadow_stack = None;
    let r = run_transform(&mut m, &vec![req("add_and_diff", &["i32", "i32"])]);
    assert_eq!(r, Err(TransformError::MissingShadowStack));
}

#[test]
fn missing_memory_is_reported() {
    let mut m = add_and_diff_module();
    m.memory = None;
    let r = run_transform(&mut m, &vec![req("add_and_diff", &["i32", "i32"])]);
    assert_eq!(r, Err(TransformError::MissingMemory));
}

#[test]
fn a_failing_request_aborts_the_whole_batch() {
    // The first request alone would be fine; the bad second request
    // leaves the module untouched.
    let mut m = add_and_diff_module();
    m.funcs.push(Function {
        params: vec![],
        results: vec![ValType::I64, ValType::I64],
        body: None,
    });
    m.exports.push(Export {
        name: b"pair".to_vec(),
        item: ExportItem::Function(1),
    });
    let r = run_transform(
        &mut m,
        &vec![
            req("add_and_diff", &["i32", "i32"]),
            req("pair", &["i64"]),
        ],
    );
    assert_eq!(r, Err(TransformError::NotMultiValue));
    assert_eq!(m.funcs.len(), 2);
    assert_eq!(m.exports[0].item, ExportItem::Function(0));
    assert_eq!(m.exports[1].item, ExportItem::Function(1));
}

#[test]
fn a_batch_wraps_each_request_in_order() {
    let mut m = add_and_diff_module();
    m.funcs.push(Function {
        params: vec![],
        results: vec![ValType::I64, ValType::I64],
        body: None,
    });
    m.exports.push(Export {
        name: b"pair".to_vec(),
        item: ExportItem::Function(1),
    });
    let r = run_transform(
        &mut m,
        &vec![
            req("add_and_diff", &["i32", "i32"]),
            req("pair", &["i64", "i64"]),
        ],
    );
    assert_eq!(r, Ok(vec![2, 3]));
    assert_eq!(m.funcs.len(), 4);
    assert_eq!(m.exports[0].item, ExportItem::Function(2));
    assert_eq!(m.exports[1].item, ExportItem::Function(3));
    // The i64 spill of the second wrapper needs 8 bytes.
    let body = m.funcs[3].body.as_ref().expect("the wrapper has a body");
    assert!(body.contains(&Instr::I32Const(8)));
    assert!(body.contains(&Instr::Store(ValType::I64, 0)));
}
