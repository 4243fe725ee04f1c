//! GGUF v3: types, sizes and metadata values (little-endian, alignment 32,
//! metadata and tensor-info sections in insertion order, tensor data padded
//! to the alignment after each tensor).

pub mod format;
pub mod laws;
pub mod layout;
pub mod output;
pub mod reader;
pub mod writer;

pub use reader::{GgufError, Reader, ReaderTensor};
pub use writer::{TensorInfo, Writer};

use crate::text::views;
use vstd::prelude::*;

verus! {

pub const GGUF_MAGIC: u32 = 0x4655_4747;

pub const GGUF_VERSION: u32 = 3;

pub const ALIGNMENT: u64 = 32;

pub const T_F32: u32 = 0;

pub const T_F16: u32 = 1;

pub const T_Q4_0: u32 = 2;

pub const T_Q8_0: u32 = 8;

pub const T_BF16: u32 = 30;

pub const T_Q4_0_AR16: u32 = 43;

/// Type codes that moved between enums: (legacy, current). The data layout is
/// unchanged, only the id moved. `Q4_0_AR16` went from 42 to 43.
pub const TYPE_CODE_MIGRATIONS: [(u32, u32); 1] = [(42, 43)];

/// The same for `general.ftype` values, which moved with their type code.
pub const FTYPE_MIGRATIONS: [(u32, u32); 1] = [(28, 29)];

/// (elements per block, bytes per block) of the tensor types in use.
pub open spec fn type_sizes_spec(t: u32) -> Option<(u64, u64)> {
    if t == T_F32 {
        Some((1, 4))
    } else if t == T_F16 || t == T_BF16 {
        Some((1, 2))
    } else if t == T_Q4_0 {
        Some((32, 18))
    } else if t == T_Q4_0_AR16 {
        Some((16, 10))
    } else if t == T_Q8_0 {
        Some((32, 34))
    } else {
        None
    }
}

/// (block_size, type_size) for the types this tool reads or writes.
pub fn type_sizes(t: u32) -> (r: Option<(u64, u64)>)
    ensures
        r == type_sizes_spec(t),
{
    match t {
        T_F32 => Some((1, 4)),
        T_F16 => Some((1, 2)),
        T_Q4_0 => Some((32, 18)),
        T_BF16 => Some((1, 2)),
        T_Q4_0_AR16 => Some((16, 10)),
        T_Q8_0 => Some((32, 34)),
        _ => None,
    }
}

/// Where a migration table sends `code`: to the partner of the first row that
/// lists it as legacy; a code that no row lists stays.
pub open spec fn migrated(table: Seq<(u32, u32)>, code: u32) -> u32
    decreases table.len(),
{
    if table.len() == 0 {
        code
    } else if table[0].0 == code {
        table[0].1
    } else {
        migrated(table.drop_first(), code)
    }
}

/// Look `code` up in a migration table.
fn lookup_migration(table: &[(u32, u32)], code: u32) -> (r: u32)
    ensures
        r == migrated(table@, code),
{
    let mut i: usize = 0;
    assert(table@.skip(0) =~= table@);
    while i < table.len()
        invariant
            i <= table@.len(),
            migrated(table@, code) == migrated(table@.skip(i as int), code),
        decreases table@.len() - i,
    {
        assert(table@.skip(i as int).drop_first() =~= table@.skip(i + 1));
        if table[i].0 == code {
            return table[i].1;
        }
        i += 1;
    }
    code
}

/// Resolve a type code read from a (possibly legacy) GGUF to the current enum.
/// Codes already current are returned unchanged.
pub fn resolve_type_code(code: u32) -> (r: u32)
    ensures
        r == migrated(TYPE_CODE_MIGRATIONS@, code),
{
    lookup_migration(&TYPE_CODE_MIGRATIONS, code)
}

/// Resolve a `general.ftype` value to the current enum.
pub fn resolve_ftype(code: u32) -> (r: u32)
    ensures
        r == migrated(FTYPE_MIGRATIONS@, code),
{
    lookup_migration(&FTYPE_MIGRATIONS, code)
}

/// The smallest multiple of `align` that is at least `x`.
pub open spec fn padded(x: nat, align: nat) -> nat {
    ((x + align - 1) as nat / align) * align
}

/// `x` rounded up to a multiple of `align`.
pub fn ggml_pad(x: u64, align: u64) -> (r: u64)
    requires
        align > 0,
        padded(x as nat, align as nat) <= u64::MAX,
    ensures
        r == padded(x as nat, align as nat),
        r % align == 0,
        x <= r < x + align,
{
    proof {
        padded_bounds(x as nat, align as nat);
    }
    let q: u64 = x / align;
    let rem: u64 = x % align;
    proof {
        vstd::arithmetic::div_mod::lemma_fundamental_div_mod(x as int, align as int);
        assert(align * q == q * align) by (nonlinear_arith);
        if rem == 0 {
            assert((x + align - 1) / align as int == q) by (nonlinear_arith)
                requires
                    x == q * align,
                    align > 0,
            ;
        } else {
            assert((x + align - 1) / align as int == q + 1) by (nonlinear_arith)
                requires
                    x == q * align + rem,
                    0 < rem < align,
            ;
            assert((q + 1) * align == q * align + align) by (nonlinear_arith);
        }
    }
    if rem == 0 {
        x
    } else {
        x + (align - rem)
    }
}

/// Padding reaches the next multiple and no further.
pub proof fn padded_bounds(x: nat, align: nat)
    requires
        align > 0,
    ensures
        padded(x, align) % align == 0,
        x <= padded(x, align) < x + align,
{
    let q = (x + align - 1) as nat / align;
    assert(q * align % align == 0) by (nonlinear_arith)
        requires
            align > 0,
    ;
    assert(x <= q * align < x + align) by (nonlinear_arith)
        requires
            align > 0,
            q == (x + align - 1) as nat / align,
    ;
}

/// Padding what is a multiple already changes nothing.
pub proof fn padded_fixed(x: nat, align: nat)
    requires
        align > 0,
        x % align == 0,
    ensures
        padded(x, align) == x,
{
    let q = x / align;
    vstd::arithmetic::div_mod::lemma_fundamental_div_mod(x as int, align as int);
    assert((x + align - 1) as nat / align == q) by (nonlinear_arith)
        requires
            align > 0,
            x == align * q,
    ;
    assert(q * align == align * q) by (nonlinear_arith);
}

/// A length and what fills it up to a multiple.
pub proof fn padding_is(x: nat, align: nat, fill: nat)
    requires
        align > 0,
        fill == (if x % align == 0 {
            0
        } else {
            align - x % align
        }),
    ensures
        padded(x, align) == x + fill,
{
    padded_bounds(x, align);
    let p = padded(x, align);
    vstd::arithmetic::div_mod::lemma_fundamental_div_mod(x as int, align as int);
    let q = x / align;
    let k = (x + align - 1) as nat / align;
    if x % align == 0 {
        assert(k == q) by (nonlinear_arith)
            requires
                align > 0,
                x == align * q,
                k == (x + align - 1) as nat / align,
        ;
    } else {
        let m = x % align;
        assert(k == q + 1) by (nonlinear_arith)
            requires
                0 < m < align,
                x == align * q + m,
                k == (x + align - 1) as nat / align,
        ;
        assert((q + 1) * align == align * q + align) by (nonlinear_arith);
    }
    assert(q * align == align * q) by (nonlinear_arith);
}

// Value type ids.
pub const V_U8: u32 = 0;

pub const V_I8: u32 = 1;

pub const V_U16: u32 = 2;

pub const V_I16: u32 = 3;

pub const V_U32: u32 = 4;

pub const V_I32: u32 = 5;

pub const V_F32: u32 = 6;

pub const V_BOOL: u32 = 7;

pub const V_STRING: u32 = 8;

pub const V_ARRAY: u32 = 9;

pub const V_U64: u32 = 10;

pub const V_I64: u32 = 11;

pub const V_F64: u32 = 12;

/// A metadata value. Floating-point values are held by their IEEE bit
/// patterns.
#[derive(Debug, PartialEq)]
pub enum Value {
    U8(u8),
    I8(i8),
    U16(u16),
    I16(i16),
    U32(u32),
    I32(i32),
    F32(u32),
    Bool(bool),
    Str(String),
    U64(u64),
    I64(i64),
    F64(u64),
    ArrStr(Vec<String>),
    ArrI32(Vec<i32>),
    ArrF32(Vec<u32>),
    ArrBool(Vec<bool>),
    ArrU8(Vec<u8>),
    ArrI8(Vec<i8>),
    ArrU16(Vec<u16>),
    ArrI16(Vec<i16>),
    ArrU32(Vec<u32>),
    ArrU64(Vec<u64>),
    ArrI64(Vec<i64>),
    ArrF64(Vec<u64>),
}

/// What a metadata value means, with text as characters.
pub enum ValueView {
    U8(u8),
    I8(i8),
    U16(u16),
    I16(i16),
    U32(u32),
    I32(i32),
    F32(u32),
    Bool(bool),
    Str(Seq<char>),
    U64(u64),
    I64(i64),
    F64(u64),
    ArrStr(Seq<Seq<char>>),
    ArrI32(Seq<i32>),
    ArrF32(Seq<u32>),
    ArrBool(Seq<bool>),
    ArrU8(Seq<u8>),
    ArrI8(Seq<i8>),
    ArrU16(Seq<u16>),
    ArrI16(Seq<i16>),
    ArrU32(Seq<u32>),
    ArrU64(Seq<u64>),
    ArrI64(Seq<i64>),
    ArrF64(Seq<u64>),
}

impl View for Value {
    type V = ValueView;

    open spec fn view(&self) -> ValueView {
        match *self {
            Value::U8(x) => ValueView::U8(x),
            Value::I8(x) => ValueView::I8(x),
            Value::U16(x) => ValueView::U16(x),
            Value::I16(x) => ValueView::I16(x),
            Value::U32(x) => ValueView::U32(x),
            Value::I32(x) => ValueView::I32(x),
            Value::F32(x) => ValueView::F32(x),
            Value::Bool(x) => ValueView::Bool(x),
            Value::Str(s) => ValueView::Str(s@),
            Value::U64(x) => ValueView::U64(x),
            Value::I64(x) => ValueView::I64(x),
            Value::F64(x) => ValueView::F64(x),
            Value::ArrStr(v) => ValueView::ArrStr(views(v@)),
            Value::ArrI32(v) => ValueView::ArrI32(v@),
            Value::ArrF32(v) => ValueView::ArrF32(v@),
            Value::ArrBool(v) => ValueView::ArrBool(v@),
            Value::ArrU8(v) => ValueView::ArrU8(v@),
            Value::ArrI8(v) => ValueView::ArrI8(v@),
            Value::ArrU16(v) => ValueView::ArrU16(v@),
            Value::ArrI16(v) => ValueView::ArrI16(v@),
            Value::ArrU32(v) => ValueView::ArrU32(v@),
            Value::ArrU64(v) => ValueView::ArrU64(v@),
            Value::ArrI64(v) => ValueView::ArrI64(v@),
            Value::ArrF64(v) => ValueView::ArrF64(v@),
        }
    }
}

impl ValueView {
    /// The id under which a value of this shape is stored.
    pub open spec fn type_id(self) -> u32 {
        match self {
            ValueView::U8(_) => V_U8,
            ValueView::I8(_) => V_I8,
            ValueView::U16(_) => V_U16,
            ValueView::I16(_) => V_I16,
            ValueView::U32(_) => V_U32,
            ValueView::I32(_) => V_I32,
            ValueView::F32(_) => V_F32,
            ValueView::Bool(_) => V_BOOL,
            ValueView::Str(_) => V_STRING,
            ValueView::U64(_) => V_U64,
            ValueView::I64(_) => V_I64,
            ValueView::F64(_) => V_F64,
            _ => V_ARRAY,
        }
    }
}

impl Value {
    /// The id under which this value is stored.
    pub fn type_id(&self) -> (r: u32)
        ensures
            r == self@.type_id(),
    {
        match self {
            Value::U8(_) => V_U8,
            Value::I8(_) => V_I8,
            Value::U16(_) => V_U16,
            Value::I16(_) => V_I16,
            Value::U32(_) => V_U32,
            Value::I32(_) => V_I32,
            Value::F32(_) => V_F32,
            Value::Bool(_) => V_BOOL,
            Value::Str(_) => V_STRING,
            Value::U64(_) => V_U64,
            Value::I64(_) => V_I64,
            Value::F64(_) => V_F64,
            _ => V_ARRAY,
        }
    }
}

/// A copy of a list of strings.
pub fn copy_strings(v: &Vec<String>) -> (r: Vec<String>)
    ensures
        views(r@) == views(v@),
{
    let mut r: Vec<String> = Vec::new();
    let mut i: usize = 0;
    while i < v.len()
        invariant
            i <= v@.len(),
            r@.len() == i,
            forall|j: int| 0 <= j < i ==> r@[j]@ == v@[j]@,
        decreases v@.len() - i,
    {
        r.push(v[i].clone());
        i += 1;
    }
    assert(views(r@) =~= views(v@));
    r
}

impl Clone for Value {
    fn clone(&self) -> (r: Self)
        ensures
            r@ == self@,
    {
        match self {
            Value::U8(x) => Value::U8(*x),
            Value::I8(x) => Value::I8(*x),
            Value::U16(x) => Value::U16(*x),
            Value::I16(x) => Value::I16(*x),
            Value::U32(x) => Value::U32(*x),
            Value::I32(x) => Value::I32(*x),
            Value::F32(x) => Value::F32(*x),
            Value::Bool(x) => Value::Bool(*x),
            Value::Str(s) => Value::Str(s.clone()),
            Value::U64(x) => Value::U64(*x),
            Value::I64(x) => Value::I64(*x),
            Value::F64(x) => Value::F64(*x),
            Value::ArrStr(v) => Value::ArrStr(copy_strings(v)),
            Value::ArrI32(v) => {
                let c: Vec<i32> = vstd::slice::slice_to_vec(v.as_slice());
                Value::ArrI32(c)
            },
            Value::ArrF32(v) => {
                let c: Vec<u32> = vstd::slice::slice_to_vec(v.as_slice());
                Value::ArrF32(c)
            },
            Value::ArrBool(v) => {
                let c: Vec<bool> = vstd::slice::slice_to_vec(v.as_slice());
                Value::ArrBool(c)
            },
            Value::ArrU8(v) => {
                let c: Vec<u8> = vstd::slice::slice_to_vec(v.as_slice());
                Value::ArrU8(c)
            },
            Value::ArrI8(v) => {
                let c: Vec<i8> = vstd::slice::slice_to_vec(v.as_slice());
                Value::ArrI8(c)
            },
            Value::ArrU16(v) => {
                let c: Vec<u16> = vstd::slice::slice_to_vec(v.as_slice());
                Value::ArrU16(c)
            },
            Value::ArrI16(v) => {
                let c: Vec<i16> = vstd::slice::slice_to_vec(v.as_slice());
                Value::ArrI16(c)
            },
            Value::ArrU32(v) => {
                let c: Vec<u32> = vstd::slice::slice_to_vec(v.as_slice());
                Value::ArrU32(c)
            },
            Value::ArrU64(v) => {
                let c: Vec<u64> = vstd::slice::slice_to_vec(v.as_slice());
                Value::ArrU64(c)
            },
            Value::ArrI64(v) => {
                let c: Vec<i64> = vstd::slice::slice_to_vec(v.as_slice());
                Value::ArrI64(c)
            },
            Value::ArrF64(v) => {
                let c: Vec<u64> = vstd::slice::slice_to_vec(v.as_slice());
                Value::ArrF64(c)
            },
        }
    }
}

/// What a metadata list means: (key, value) pairs in order.
pub open spec fn kv_views(kvs: Seq<(String, Value)>) -> Seq<(Seq<char>, ValueView)> {
    Seq::new(kvs.len(), |i: int| (kvs[i].0@, kvs[i].1@))
}

} // verus!
