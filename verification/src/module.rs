//! The module graph the transform mutates: an arena of functions, an
//! export table, and the identities of the shadow-stack-pointer global and
//! the linear memory. All cross-references are stable indices, so appending
//! new functions never invalidates an existing reference.

use vstd::prelude::*;
use crate::values::ValType;
use crate::values::bytes_eq;
use crate::values::copy_bytes;
use crate::ir::Instr;

verus! {

/// Upper bound on the number of functions a module may hold.
pub const MAX_FUNCS: usize = 0x0FFF_FFFF;

/// Upper bound on the number of parameters of a single function.
pub const MAX_PARAMS: usize = 0xFFFF;

/// A function: its signature and, for functions this transform has
/// synthesized, its body. Pre-existing functions carry `None`: the
/// transform never inspects or alters them, it only calls them.
pub struct Function {
    pub params: Vec<ValType>,
    pub results: Vec<ValType>,
    pub body: Option<Vec<Instr>>,
}

/// What an export binds: a function, or one of the other item kinds, which
/// this transform may not rewrite.
#[derive(Clone, Copy, PartialEq, Eq, Structural, Debug)]
pub enum ExportItem {
    Function(usize),
    Table(usize),
    Memory(usize),
    Global(usize),
}

/// An externally visible name bound to one module item.
pub struct Export {
    pub name: Vec<u8>,
    pub item: ExportItem,
}

/// The module graph. The shadow-stack-pointer global and the linear
/// memory are discovered by convention in the input module, not created
/// here; either may be absent.
pub struct Module {
    pub funcs: Vec<Function>,
    pub exports: Vec<Export>,
    pub shadow_stack: Option<usize>,
    pub memory: Option<usize>,
}

/// Referential integrity and size bounds of a module graph: every export
/// that binds a function names an existing function, and the arena sizes
/// stay within the index arithmetic of the instruction set.
pub open spec fn module_wf(m: Module) -> bool {
    &&& m.funcs@.len() <= MAX_FUNCS
    &&& forall|f: int| 0 <= f < m.funcs@.len() ==>
        (#[trigger] m.funcs@[f]).params@.len() <= MAX_PARAMS
    &&& forall|e: int| 0 <= e < m.exports@.len() ==>
        ((#[trigger] m.exports@[e]).item matches ExportItem::Function(fid) ==>
            fid < m.funcs@.len())
}

/// Index of the first export with the given name, searching from `i`.
pub open spec fn spec_find_export(exports: Seq<Export>, name: Seq<u8>, i: int) -> Option<int>
    decreases exports.len() - i when 0 <= i <= exports.len()
{
    if i >= exports.len() {
        None
    } else if exports[i].name@ == name {
        Some(i)
    } else {
        spec_find_export(exports, name, i + 1)
    }
}

/// Finds the first export with the given name.
pub fn find_export(m: &Module, name: &Vec<u8>) -> (r: Option<usize>)
    ensures
        match r {
            Some(e) => spec_find_export(m.exports@, name@, 0) == Some(e as int),
            None => spec_find_export(m.exports@, name@, 0) is None,
        },
{
    let mut i: usize = 0;
    while i < m.exports.len()
        invariant
            i <= m.exports@.len(),
            spec_find_export(m.exports@, name@, 0) == spec_find_export(m.exports@, name@, i as int),
        decreases m.exports@.len() - i,
    {
        if bytes_eq(&m.exports[i].name, name) {
            return Some(i);
        }
        i = i + 1;
    }
    None
}

/// Repoints an export at a new function, in place: the export keeps its
/// name, every other export and everything else in the module stays as it
/// was. The caller has already checked that the export binds a function.
pub fn rewrite_export(m: &mut Module, export_id: usize, new_function: usize)
    requires
        export_id < old(m).exports@.len(),
        old(m).exports@[export_id as int].item matches ExportItem::Function(_),
    ensures
        final(m).exports@.len() == old(m).exports@.len(),
        final(m).exports@[export_id as int].name@ == old(m).exports@[export_id as int].name@,
        final(m).exports@[export_id as int].item == ExportItem::Function(new_function),
        forall|e: int| 0 <= e < final(m).exports@.len() && e != export_id ==>
            #[trigger] final(m).exports@[e] == old(m).exports@[e],
        final(m).funcs@ == old(m).funcs@,
        final(m).shadow_stack == old(m).shadow_stack,
        final(m).memory == old(m).memory,
{
    let name = copy_bytes(&m.exports[export_id].name);
    m.exports.set(export_id, Export { name, item: ExportItem::Function(new_function) });
}

} // verus!
