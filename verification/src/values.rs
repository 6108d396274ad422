//! The four numeric value types of the instruction set, their sizes and
//! alignments, runtime values as bit patterns, and the textual type tokens.

use vstd::prelude::*;

verus! {

/// A numeric value type: 32/64-bit integers and 32/64-bit floats.
#[derive(Clone, Copy, PartialEq, Eq, Structural, Debug)]
pub enum ValType {
    I32,
    I64,
    F32,
    F64,
}

/// A runtime value of one of the four types. Float values are carried as
/// their raw bit patterns: the transform only moves values, it never
/// interprets them numerically.
#[derive(Clone, Copy, PartialEq, Eq, Structural, Debug)]
pub enum Value {
    I32(u32),
    I64(u64),
    F32(u32),
    F64(u64),
}

impl Value {
    /// The type a value belongs to.
    pub open spec fn ty(self) -> ValType {
        match self {
            Value::I32(_) => ValType::I32,
            Value::I64(_) => ValType::I64,
            Value::F32(_) => ValType::F32,
            Value::F64(_) => ValType::F64,
        }
    }

    /// The type a value belongs to.
    pub fn kind(&self) -> (t: ValType)
        ensures
            t == self.ty(),
    {
        match self {
            Value::I32(_) => ValType::I32,
            Value::I64(_) => ValType::I64,
            Value::F32(_) => ValType::F32,
            Value::F64(_) => ValType::F64,
        }
    }
}

impl ValType {
    /// Storage size in bytes.
    pub open spec fn spec_size(self) -> nat {
        match self {
            ValType::I32 => 4,
            ValType::I64 => 8,
            ValType::F32 => 4,
            ValType::F64 => 8,
        }
    }

    /// Natural alignment in bytes.
    pub open spec fn spec_align(self) -> nat {
        match self {
            ValType::I32 => 4,
            ValType::I64 => 8,
            ValType::F32 => 4,
            ValType::F64 => 8,
        }
    }

    /// Storage size in bytes.
    pub fn size(&self) -> (n: u32)
        ensures
            n == self.spec_size(),
    {
        match self {
            ValType::I32 => 4,
            ValType::I64 => 8,
            ValType::F32 => 4,
            ValType::F64 => 8,
        }
    }

    /// Natural alignment in bytes.
    pub fn align(&self) -> (n: u32)
        ensures
            n == self.spec_align(),
    {
        match self {
            ValType::I32 => 4,
            ValType::I64 => 8,
            ValType::F32 => 4,
            ValType::F64 => 8,
        }
    }
}

/// ASCII bytes of the type tokens.
pub const LETTER_I: u8 = 105;

pub const LETTER_F: u8 = 102;

pub const DIGIT_2: u8 = 50;

pub const DIGIT_3: u8 = 51;

pub const DIGIT_4: u8 = 52;

pub const DIGIT_6: u8 = 54;

/// What a textual type token denotes: `i32`, `i64`, `f32` or `f64`; any
/// other token is unknown.
pub open spec fn spec_parse_val_type(s: Seq<u8>) -> Option<ValType> {
    if s == seq![LETTER_I, DIGIT_3, DIGIT_2] {
        Some(ValType::I32)
    } else if s == seq![LETTER_I, DIGIT_6, DIGIT_4] {
        Some(ValType::I64)
    } else if s == seq![LETTER_F, DIGIT_3, DIGIT_2] {
        Some(ValType::F32)
    } else if s == seq![LETTER_F, DIGIT_6, DIGIT_4] {
        Some(ValType::F64)
    } else {
        None
    }
}

/// Parses a textual type token; `None` for anything outside the four
/// supported types.
pub fn parse_val_type(token: &Vec<u8>) -> (r: Option<ValType>)
    ensures
        r == spec_parse_val_type(token@),
{
    if token.len() != 3 {
        proof {
            assert(token@ != seq![LETTER_I, DIGIT_3, DIGIT_2]);
            assert(token@ != seq![LETTER_I, DIGIT_6, DIGIT_4]);
            assert(token@ != seq![LETTER_F, DIGIT_3, DIGIT_2]);
            assert(token@ != seq![LETTER_F, DIGIT_6, DIGIT_4]);
        }
        return None;
    }
    let b0 = token[0];
    let b1 = token[1];
    let b2 = token[2];
    let r: Option<ValType> = if b0 == LETTER_I && b1 == DIGIT_3 && b2 == DIGIT_2 {
        proof {
            assert(token@ =~= seq![LETTER_I, DIGIT_3, DIGIT_2]);
        }
        Some(ValType::I32)
    } else if b0 == LETTER_I && b1 == DIGIT_6 && b2 == DIGIT_4 {
        proof {
            assert(token@ =~= seq![LETTER_I, DIGIT_6, DIGIT_4]);
        }
        Some(ValType::I64)
    } else if b0 == LETTER_F && b1 == DIGIT_3 && b2 == DIGIT_2 {
        proof {
            assert(token@ =~= seq![LETTER_F, DIGIT_3, DIGIT_2]);
        }
        Some(ValType::F32)
    } else if b0 == LETTER_F && b1 == DIGIT_6 && b2 == DIGIT_4 {
        proof {
            assert(token@ =~= seq![LETTER_F, DIGIT_6, DIGIT_4]);
        }
        Some(ValType::F64)
    } else {
        None
    };
    r
}

/// Byte-string equality, used for export and request names.
pub fn bytes_eq(a: &Vec<u8>, b: &Vec<u8>) -> (r: bool)
    ensures
        r == (a@ == b@),
{
    if a.len() != b.len() {
        return false;
    }
    let mut i: usize = 0;
    while i < a.len()
        invariant
            i <= a.len(),
            a@.len() == b@.len(),
            forall|j: int| 0 <= j < i ==> a@[j] == b@[j],
        decreases a@.len() - i,
    {
        if a[i] != b[i] {
            return false;
        }
        i = i + 1;
    }
    proof {
        assert(a@ =~= b@);
    }
    true
}

/// Copies a byte string.
pub(crate) fn copy_bytes(v: &Vec<u8>) -> (r: Vec<u8>)
    ensures
        r@ == v@,
{
    let mut r: Vec<u8> = Vec::new();
    let mut j: usize = 0;
    while j < v.len()
        invariant
            j <= v@.len(),
            r@ == v@.take(j as int),
        decreases v@.len() - j,
    {
        r.push(v[j]);
        proof {
            assert(r@ =~= v@.take(j as int + 1));
        }
        j = j + 1;
    }
    proof {
        assert(v@.take(v@.len() as int) =~= v@);
    }
    r
}

/// Copies a type vector.
pub(crate) fn copy_types(v: &Vec<ValType>) -> (r: Vec<ValType>)
    ensures
        r@ == v@,
{
    let mut r: Vec<ValType> = Vec::new();
    let mut j: usize = 0;
    while j < v.len()
        invariant
            j <= v@.len(),
            r@ == v@.take(j as int),
        decreases v@.len() - j,
    {
        r.push(v[j]);
        proof {
            assert(r@ =~= v@.take(j as int + 1));
        }
        j = j + 1;
    }
    proof {
        assert(v@.take(v@.len() as int) =~= v@);
    }
    r
}

} // verus!
