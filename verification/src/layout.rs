//! The type layout engine: given the ordered sequence of result values to be
//! spilled (the result types after the first), it computes the packed,
//! aligned byte offset of each value and the total aligned allocation size.

use vstd::prelude::*;
use vstd::arithmetic::div_mod::lemma_fundamental_div_mod;
use vstd::arithmetic::div_mod::lemma_mod_bound;
use vstd::arithmetic::div_mod::lemma_mod_multiples_basic;
use crate::values::ValType;

verus! {

/// Upper bound on how many values one transform may spill. It keeps every
/// computed offset within the 32-bit address arithmetic of the target
/// instruction set: each value occupies at most 8 bytes plus at most 7
/// bytes of padding.
pub const MAX_SPILLED: usize = 0x0FFF_FFFF;

/// `o` rounded up to the next multiple of `a`.
pub open spec fn spec_round_up(o: int, a: int) -> int
    recommends
        a > 0,
{
    ((o + a - 1) / a) * a
}

/// Running end of the packed region after placing the first `k` values:
/// each value is placed at the running end rounded up to its alignment and
/// advances the end by its size.
pub open spec fn spec_end(types: Seq<ValType>, k: int) -> int
    decreases k,
{
    if k <= 0 {
        0
    } else {
        spec_round_up(spec_end(types, k - 1), types[k - 1].spec_align() as int)
            + types[k - 1].spec_size()
    }
}

/// Byte offset of the `j`-th spilled value.
pub open spec fn spec_offset(types: Seq<ValType>, j: int) -> int {
    spec_round_up(spec_end(types, j), types[j].spec_align() as int)
}

/// Maximum alignment among the first `k` values (1 when there are none).
pub open spec fn spec_max_align(types: Seq<ValType>, k: int) -> int
    decreases k,
{
    if k <= 0 {
        1
    } else if types[k - 1].spec_align() as int > spec_max_align(types, k - 1) {
        types[k - 1].spec_align() as int
    } else {
        spec_max_align(types, k - 1)
    }
}

/// Total allocation size: the running end rounded up to the maximum
/// alignment seen.
pub open spec fn spec_total_size(types: Seq<ValType>) -> int {
    spec_round_up(spec_end(types, types.len() as int), spec_max_align(types, types.len() as int))
}

/// Rounding up lands between `o` and `o + a`, on a multiple of `a`.
pub proof fn lemma_round_up(o: int, a: int)
    requires
        0 <= o,
        0 < a,
    ensures
        o <= spec_round_up(o, a) < o + a,
        spec_round_up(o, a) % a == 0,
{
    let x = o + a - 1;
    lemma_fundamental_div_mod(x, a);
    lemma_mod_bound(x, a);
    assert(spec_round_up(o, a) == (x / a) * a);
    assert(a * (x / a) == x - x % a);
    assert((x / a) * a == a * (x / a)) by (nonlinear_arith);
    lemma_mod_multiples_basic(x / a, a);
}

/// Alignments are positive and sizes at most 8 for every value type.
pub proof fn lemma_ty_bounds(t: ValType)
    ensures
        4 <= t.spec_align() <= 8,
        4 <= t.spec_size() <= 8,
{
}

/// The running end never decreases and grows by at most 16 per value.
pub proof fn lemma_end_bounds(types: Seq<ValType>, k: int)
    requires
        0 <= k <= types.len(),
    ensures
        0 <= spec_end(types, k) <= 16 * k,
        forall|j: int| 0 <= j < k ==> spec_end(types, j) <= #[trigger] spec_end(types, j + 1),
    decreases k,
{
    if k > 0 {
        lemma_end_bounds(types, k - 1);
        lemma_round_up(spec_end(types, k - 1), types[k - 1].spec_align() as int);
    }
}

/// The maximum alignment is between 1 and 8, and bounds each value's own
/// alignment.
pub proof fn lemma_max_align_bounds(types: Seq<ValType>, k: int)
    requires
        0 <= k <= types.len(),
    ensures
        1 <= spec_max_align(types, k) <= 8,
        forall|j: int| 0 <= j < k ==>
            (#[trigger] types[j].spec_align() as int) <= spec_max_align(types, k),
    decreases k,
{
    if k > 0 {
        lemma_max_align_bounds(types, k - 1);
    }
}

/// Offsets sit between the running ends of their neighbours: each value's
/// region `[offset, offset + size)` lies inside `[end(j), end(j + 1))`.
pub proof fn lemma_offset_in_step(types: Seq<ValType>, j: int)
    requires
        0 <= j < types.len(),
    ensures
        spec_end(types, j) <= spec_offset(types, j),
        spec_offset(types, j) + types[j].spec_size() == spec_end(types, j + 1),
        spec_offset(types, j) % (types[j].spec_align() as int) == 0,
{
    lemma_end_bounds(types, j);
    lemma_round_up(spec_end(types, j), types[j].spec_align() as int);
}

/// The spilled regions are pairwise disjoint and ordered: an earlier value
/// ends at or before a later value begins.
pub proof fn lemma_offsets_disjoint(types: Seq<ValType>, j: int, k: int)
    requires
        0 <= j < k < types.len(),
    ensures
        spec_offset(types, j) + types[j].spec_size() <= spec_offset(types, k),
    decreases k - j,
{
    lemma_offset_in_step(types, j);
    lemma_offset_in_step(types, k);
    if j + 1 < k {
        lemma_offsets_disjoint(types, j + 1, k);
        lemma_offset_in_step(types, j + 1);
    } else {
        lemma_end_bounds(types, k);
    }
}

/// Alignment correctness of the whole layout: every offset is a multiple of
/// its type's alignment, offsets are monotonically non-decreasing, every
/// value's region fits below the total size, and the total size is a
/// multiple of the maximum alignment.
pub proof fn lemma_layout_aligned(types: Seq<ValType>)
    requires
        types.len() >= 1,
    ensures
        forall|j: int| 0 <= j < types.len() ==>
            #[trigger] spec_offset(types, j) % (types[j].spec_align() as int) == 0,
        forall|j: int| 0 <= j < types.len() - 1 ==>
            #[trigger] spec_offset(types, j) <= spec_offset(types, j + 1),
        forall|j: int| 0 <= j < types.len() ==>
            0 <= #[trigger] spec_offset(types, j)
                && spec_offset(types, j) + types[j].spec_size() <= spec_total_size(types),
        spec_total_size(types) % spec_max_align(types, types.len() as int) == 0,
{
    let n = types.len() as int;
    assert forall|j: int| 0 <= j < n implies
        #[trigger] spec_offset(types, j) % (types[j].spec_align() as int) == 0 by {
        lemma_offset_in_step(types, j);
    }
    assert forall|j: int| 0 <= j < n - 1 implies
        #[trigger] spec_offset(types, j) <= spec_offset(types, j + 1) by {
        lemma_offsets_disjoint(types, j, j + 1);
    }
    lemma_max_align_bounds(types, n);
    lemma_end_bounds(types, n);
    lemma_round_up(spec_end(types, n), spec_max_align(types, n));
    assert forall|j: int| 0 <= j < n implies
        0 <= #[trigger] spec_offset(types, j)
            && spec_offset(types, j) + types[j].spec_size() <= spec_total_size(types) by {
        lemma_offset_in_step(types, j);
        lemma_end_bounds(types, j);
        if j + 1 < n {
            lemma_end_up_to(types, j + 1, n);
        }
    }
}

/// The running end is monotone between any two cut points.
pub proof fn lemma_end_up_to(types: Seq<ValType>, j: int, k: int)
    requires
        0 <= j <= k <= types.len(),
    ensures
        spec_end(types, j) <= spec_end(types, k),
    decreases k - j,
{
    if j < k {
        lemma_end_up_to(types, j, k - 1);
        lemma_end_bounds(types, k);
    }
}

/// One entry of a computed layout: the value's type, its byte offset from
/// the base of the spill region, and its size and alignment.
pub struct LayoutEntry {
    pub ty: ValType,
    pub offset: u32,
    pub size: u32,
    pub align: u32,
}

/// A computed layout: one entry per spilled value, plus the total aligned
/// allocation size.
pub struct Layout {
    pub entries: Vec<LayoutEntry>,
    pub total_size: u32,
}

/// What it means for a layout to be the layout of `types`.
pub open spec fn layout_matches(l: Layout, types: Seq<ValType>) -> bool {
    &&& l.entries@.len() == types.len()
    &&& forall|j: int| 0 <= j < types.len() ==> {
        &&& (#[trigger] l.entries@[j]).ty == types[j]
        &&& l.entries@[j].offset == spec_offset(types, j)
        &&& l.entries@[j].size == types[j].spec_size()
        &&& l.entries@[j].align == types[j].spec_align()
    }
    &&& l.total_size == spec_total_size(types)
}

/// `o` rounded up to the next multiple of `a`.
fn round_up(o: u32, a: u32) -> (r: u32)
    requires
        0 < a,
        o + a <= u32::MAX,
    ensures
        r == spec_round_up(o as int, a as int),
{
    proof {
        lemma_round_up(o as int, a as int);
    }
    ((o + a - 1) / a) * a
}

/// Computes the layout of an ordered sequence of spilled value types: a
/// single left-to-right pass that rounds the running offset up to each
/// value's alignment, records the offset, and advances by the value's size;
/// the total is the running offset rounded up to the maximum alignment seen.
pub fn layout(types: &Vec<ValType>) -> (l: Layout)
    requires
        1 <= types@.len() <= MAX_SPILLED,
    ensures
        layout_matches(l, types@),
{
    let mut entries: Vec<LayoutEntry> = Vec::new();
    let mut end: u32 = 0;
    let mut max_align: u32 = 1;
    let mut i: usize = 0;
    while i < types.len()
        invariant
            i <= types@.len(),
            types@.len() <= MAX_SPILLED,
            entries@.len() == i,
            end == spec_end(types@, i as int),
            max_align == spec_max_align(types@, i as int),
            forall|j: int| 0 <= j < i ==> {
                &&& (#[trigger] entries@[j]).ty == types@[j]
                &&& entries@[j].offset == spec_offset(types@, j)
                &&& entries@[j].size == types@[j].spec_size()
                &&& entries@[j].align == types@[j].spec_align()
            },
        decreases types@.len() - i,
    {
        proof {
            lemma_end_bounds(types@, i as int);
            lemma_max_align_bounds(types@, i as int);
            lemma_ty_bounds(types@[i as int]);
            lemma_offset_in_step(types@, i as int);
            lemma_end_bounds(types@, i as int + 1);
        }
        let t = types[i];
        let a = t.align();
        let s = t.size();
        let off = round_up(end, a);
        entries.push(LayoutEntry { ty: t, offset: off, size: s, align: a });
        end = off + s;
        if a > max_align {
            max_align = a;
        }
        i = i + 1;
    }
    proof {
        lemma_end_bounds(types@, types@.len() as int);
        lemma_max_align_bounds(types@, types@.len() as int);
    }
    let total = round_up(end, max_align);
    Layout { entries, total_size: total }
}

} // verus!
