//! The bytes of a GGUF file: what each item looks like on disk, and what a
//! reader makes of bytes at a position.

use crate::gguf::reader::{GgufError, ReaderTensor};
use crate::gguf::{
    ALIGNMENT, GGUF_MAGIC, GGUF_VERSION, TYPE_CODE_MIGRATIONS, V_ARRAY, V_BOOL, V_F32, V_F64, V_I16,
    V_I32, V_I64, V_I8, V_STRING, V_U16, V_U32, V_U64, V_U8,
};
use crate::gguf::{migrated, padded, type_sizes_spec, Value, ValueView};
use crate::le::{le_bytes, le_value};
use vstd::prelude::*;
use vstd::utf8::{decode_utf8, encode_utf8, valid_utf8};

verus! {

/// What stops a reader.
pub enum ErrorView {
    UnexpectedEof,
    NotGguf,
    UnsupportedVersion(u32),
    BadUtf8,
    BadScalarType,
    UnsupportedArrayElement { elem: u32, key: Seq<char> },
    UnsupportedTensorType { resolved: u32, stored: u32, name: Seq<char> },
    SizeOverflow { name: Seq<char> },
}

/// What a reader gets at a position: an item and the position behind it.
pub type Decoded<T> = Result<(T, int), ErrorView>;

/// The number in the `n` bytes at `pos`.
pub open spec fn dec_le(b: Seq<u8>, pos: int, n: nat) -> Decoded<nat> {
    if pos + n <= b.len() {
        Ok((le_value(b.subrange(pos, pos + n)), pos + n))
    } else {
        Err(ErrorView::UnexpectedEof)
    }
}

/// A string on disk: its length in bytes, then its UTF-8 bytes.
pub open spec fn enc_str(s: Seq<char>) -> Seq<u8> {
    le_bytes(encode_utf8(s).len(), 8) + encode_utf8(s)
}

/// The string at `pos`.
pub open spec fn dec_str(b: Seq<u8>, pos: int) -> Decoded<Seq<char>> {
    match dec_le(b, pos, 8) {
        Err(e) => Err(e),
        Ok((n, p)) => if p + n > b.len() {
            Err(ErrorView::UnexpectedEof)
        } else if valid_utf8(b.subrange(p, p + n)) {
            Ok((decode_utf8(b.subrange(p, p + n)), p + n))
        } else {
            Err(ErrorView::BadUtf8)
        },
    }
}

/// An item that stands in a GGUF header: its bytes, and how it is read.
pub trait Field: Sized {
    /// What an item means.
    type Model;

    spec fn model(&self) -> Self::Model;

    /// The items that can be written and read back.
    spec fn valid(m: Self::Model) -> bool;

    /// The bytes of an item.
    spec fn enc(m: Self::Model) -> Seq<u8>;

    /// What a reader makes of the bytes at `pos`.
    spec fn dec(b: Seq<u8>, pos: int) -> Decoded<Self::Model>;

    /// A reader stays within the bytes.
    proof fn dec_within(b: Seq<u8>, pos: int)
        requires
            0 <= pos <= b.len(),
        ensures
            Self::dec(b, pos) matches Ok((_, p)) ==> pos <= p <= b.len(),
    ;

    /// Bytes that hold an item read as that item.
    proof fn dec_enc(b: Seq<u8>, pos: int, m: Self::Model)
        requires
            Self::valid(m),
            0 <= pos,
            pos + Self::enc(m).len() <= b.len(),
            b.subrange(pos, pos + Self::enc(m).len()) == Self::enc(m),
        ensures
            Self::dec(b, pos) == Ok::<_, ErrorView>((m, pos + Self::enc(m).len())),
    ;

    /// Read the item at `pos`.
    fn read(b: &[u8], pos: usize) -> (r: Result<(Self, usize), GgufError>)
        requires
            pos <= b@.len(),
        ensures
            r matches Ok((x, p)) ==> pos <= p <= b@.len() && Self::dec(b@, pos as int) == Ok::<
                _,
                ErrorView,
            >((x.model(), p as int)),
            r matches Err(e) ==> Self::dec(b@, pos as int) == Err::<(Self::Model, int), _>(e@),
    ;
}

/// The meanings of a list of items.
pub open spec fn models<T: Field>(v: Seq<T>) -> Seq<T::Model> {
    Seq::new(v.len(), |i: int| v[i].model())
}

/// The bytes of a list of items, one after the other.
pub open spec fn enc_all<T: Field>(ms: Seq<T::Model>) -> Seq<u8>
    decreases ms.len(),
{
    if ms.len() == 0 {
        Seq::empty()
    } else {
        T::enc(ms[0]) + enc_all::<T>(ms.drop_first())
    }
}

/// The `n` items that stand one after the other from `pos` on.
pub open spec fn dec_all<T: Field>(b: Seq<u8>, pos: int, n: nat) -> Decoded<Seq<T::Model>>
    decreases n,
{
    if n == 0 {
        Ok((Seq::empty(), pos))
    } else {
        match T::dec(b, pos) {
            Err(e) => Err(e),
            Ok((m, p)) => match dec_all::<T>(b, p, (n - 1) as nat) {
                Err(e) => Err(e),
                Ok((rest, q)) => Ok((seq![m] + rest, q)),
            },
        }
    }
}

/// A counted list on disk: the number of items in 8 bytes, then the items.
pub open spec fn enc_counted<T: Field>(ms: Seq<T::Model>) -> Seq<u8> {
    le_bytes(ms.len(), 8) + enc_all::<T>(ms)
}

/// The bytes of a value without its type id. Arrays start with the type id of
/// their elements.
pub open spec fn enc_payload(v: ValueView) -> Seq<u8> {
    match v {
        ValueView::U8(x) => le_bytes(x as nat, 1),
        ValueView::I8(x) => le_bytes((x as u8) as nat, 1),
        ValueView::U16(x) => le_bytes(x as nat, 2),
        ValueView::I16(x) => le_bytes((x as u16) as nat, 2),
        ValueView::U32(x) => le_bytes(x as nat, 4),
        ValueView::I32(x) => le_bytes((x as u32) as nat, 4),
        ValueView::F32(x) => le_bytes(x as nat, 4),
        ValueView::Bool(x) => seq![bool_byte(x)],
        ValueView::Str(s) => enc_str(s),
        ValueView::U64(x) => le_bytes(x as nat, 8),
        ValueView::I64(x) => le_bytes((x as u64) as nat, 8),
        ValueView::F64(x) => le_bytes(x as nat, 8),
        ValueView::ArrStr(s) => le_bytes(V_STRING as nat, 4) + enc_counted::<String>(s),
        ValueView::ArrI32(s) => le_bytes(V_I32 as nat, 4) + enc_counted::<i32>(s),
        ValueView::ArrF32(s) => le_bytes(V_F32 as nat, 4) + enc_counted::<u32>(s),
        ValueView::ArrBool(s) => le_bytes(V_BOOL as nat, 4) + enc_counted::<bool>(s),
        ValueView::ArrU8(s) => le_bytes(V_U8 as nat, 4) + enc_counted::<u8>(s),
        ValueView::ArrI8(s) => le_bytes(V_I8 as nat, 4) + enc_counted::<i8>(s),
        ValueView::ArrU16(s) => le_bytes(V_U16 as nat, 4) + enc_counted::<u16>(s),
        ValueView::ArrI16(s) => le_bytes(V_I16 as nat, 4) + enc_counted::<i16>(s),
        ValueView::ArrU32(s) => le_bytes(V_U32 as nat, 4) + enc_counted::<u32>(s),
        ValueView::ArrU64(s) => le_bytes(V_U64 as nat, 4) + enc_counted::<u64>(s),
        ValueView::ArrI64(s) => le_bytes(V_I64 as nat, 4) + enc_counted::<i64>(s),
        ValueView::ArrF64(s) => le_bytes(V_F64 as nat, 4) + enc_counted::<u64>(s),
    }
}

/// A boolean as a byte.
pub open spec fn bool_byte(x: bool) -> u8 {
    if x {
        1
    } else {
        0
    }
}

/// A metadata pair on disk: key, value type id, value.
pub open spec fn enc_kv(kv: (Seq<char>, ValueView)) -> Seq<u8> {
    enc_str(kv.0) + le_bytes(kv.1.type_id() as nat, 4) + enc_payload(kv.1)
}

/// Wrap what was read as a number.
pub open spec fn dec_map(d: Decoded<nat>, f: spec_fn(nat) -> ValueView) -> Decoded<ValueView> {
    match d {
        Err(e) => Err(e),
        Ok((x, p)) => Ok((f(x), p)),
    }
}

/// The value of type id `t` (neither string nor array) at `pos`.
pub open spec fn dec_scalar(b: Seq<u8>, pos: int, t: u32) -> Decoded<ValueView> {
    if t == V_U8 {
        dec_map(dec_le(b, pos, 1), |x: nat| ValueView::U8(x as u8))
    } else if t == V_I8 {
        dec_map(dec_le(b, pos, 1), |x: nat| ValueView::I8((x as u8) as i8))
    } else if t == V_U16 {
        dec_map(dec_le(b, pos, 2), |x: nat| ValueView::U16(x as u16))
    } else if t == V_I16 {
        dec_map(dec_le(b, pos, 2), |x: nat| ValueView::I16((x as u16) as i16))
    } else if t == V_U32 {
        dec_map(dec_le(b, pos, 4), |x: nat| ValueView::U32(x as u32))
    } else if t == V_I32 {
        dec_map(dec_le(b, pos, 4), |x: nat| ValueView::I32((x as u32) as i32))
    } else if t == V_F32 {
        dec_map(dec_le(b, pos, 4), |x: nat| ValueView::F32(x as u32))
    } else if t == V_BOOL {
        dec_map(dec_le(b, pos, 1), |x: nat| ValueView::Bool(x != 0))
    } else if t == V_U64 {
        dec_map(dec_le(b, pos, 8), |x: nat| ValueView::U64(x as u64))
    } else if t == V_I64 {
        dec_map(dec_le(b, pos, 8), |x: nat| ValueView::I64((x as u64) as i64))
    } else if t == V_F64 {
        dec_map(dec_le(b, pos, 8), |x: nat| ValueView::F64(x as u64))
    } else {
        Err(ErrorView::BadScalarType)
    }
}

/// The array of `n` items that stand from `pos` on.
pub open spec fn dec_list<T: Field>(
    b: Seq<u8>,
    pos: int,
    n: nat,
    f: spec_fn(Seq<T::Model>) -> ValueView,
) -> Decoded<ValueView> {
    match dec_all::<T>(b, pos, n) {
        Err(e) => Err(e),
        Ok((s, p)) => Ok((f(s), p)),
    }
}

/// The array at `pos` that belongs to `key`. Elements may be of any type but
/// arrays.
pub open spec fn dec_array(b: Seq<u8>, pos: int, key: Seq<char>) -> Decoded<ValueView> {
    match dec_le(b, pos, 4) {
        Err(e) => Err(e),
        Ok((et, p)) => match dec_le(b, p, 8) {
            Err(e) => Err(e),
            Ok((n, q)) => if et == V_STRING {
                dec_list::<String>(b, q, n, |s: Seq<Seq<char>>| ValueView::ArrStr(s))
            } else if et == V_I32 {
                dec_list::<i32>(b, q, n, |s: Seq<i32>| ValueView::ArrI32(s))
            } else if et == V_F32 {
                dec_list::<u32>(b, q, n, |s: Seq<u32>| ValueView::ArrF32(s))
            } else if et == V_BOOL {
                dec_list::<bool>(b, q, n, |s: Seq<bool>| ValueView::ArrBool(s))
            } else if et == V_U8 {
                dec_list::<u8>(b, q, n, |s: Seq<u8>| ValueView::ArrU8(s))
            } else if et == V_I8 {
                dec_list::<i8>(b, q, n, |s: Seq<i8>| ValueView::ArrI8(s))
            } else if et == V_U16 {
                dec_list::<u16>(b, q, n, |s: Seq<u16>| ValueView::ArrU16(s))
            } else if et == V_I16 {
                dec_list::<i16>(b, q, n, |s: Seq<i16>| ValueView::ArrI16(s))
            } else if et == V_U32 {
                dec_list::<u32>(b, q, n, |s: Seq<u32>| ValueView::ArrU32(s))
            } else if et == V_U64 {
                dec_list::<u64>(b, q, n, |s: Seq<u64>| ValueView::ArrU64(s))
            } else if et == V_I64 {
                dec_list::<i64>(b, q, n, |s: Seq<i64>| ValueView::ArrI64(s))
            } else if et == V_F64 {
                dec_list::<u64>(b, q, n, |s: Seq<u64>| ValueView::ArrF64(s))
            } else {
                Err(ErrorView::UnsupportedArrayElement { elem: et as u32, key })
            },
        },
    }
}

/// The metadata pair at `pos`.
pub open spec fn dec_kv(b: Seq<u8>, pos: int) -> Decoded<(Seq<char>, ValueView)> {
    match dec_str(b, pos) {
        Err(e) => Err(e),
        Ok((key, p)) => match dec_le(b, p, 4) {
            Err(e) => Err(e),
            Ok((t, q)) => {
                let v = if t == V_STRING {
                    match dec_str(b, q) {
                        Err(e) => Err(e),
                        Ok((s, r)) => Ok((ValueView::Str(s), r)),
                    }
                } else if t == V_ARRAY {
                    dec_array(b, q, key)
                } else {
                    dec_scalar(b, q, t as u32)
                };
                match v {
                    Err(e) => Err(e),
                    Ok((value, r)) => Ok(((key, value), r)),
                }
            },
        },
    }
}

/// The product of a list of numbers.
pub open spec fn product(dims: Seq<u64>) -> nat
    decreases dims.len(),
{
    if dims.len() == 0 {
        1
    } else {
        product(dims.drop_last()) * (dims.last() as nat)
    }
}

/// Whether the product, taken from the left, stays within 64 bits.
pub open spec fn product_fits(dims: Seq<u64>) -> bool
    decreases dims.len(),
{
    dims.len() == 0 || (product_fits(dims.drop_last()) && product(dims) <= u64::MAX)
}

/// What the header of a file says of one tensor.
pub struct TensorView {
    pub name: Seq<char>,
    /// Shape as stored (fastest dimension first).
    pub dims: Seq<u64>,
    /// Type code as stored.
    pub dtype_orig: u32,
    /// Type code resolved to the current enum.
    pub dtype: u32,
    pub offset: u64,
    pub nbytes: u64,
}

/// The bytes that `n` elements of a type with these block sizes take.
pub open spec fn tensor_bytes(n: nat, sizes: (u64, u64)) -> nat {
    n / (sizes.0 as nat) * (sizes.1 as nat)
}

/// A tensor's entry on disk: name, number of dimensions, dimensions, type
/// code, offset into the data section.
pub open spec fn enc_tensor(name: Seq<char>, dims: Seq<u64>, dtype: u32, offset: u64) -> Seq<u8> {
    enc_str(name) + le_bytes(dims.len(), 4) + enc_all::<u64>(dims) + le_bytes(dtype as nat, 4)
        + le_bytes(offset as nat, 8)
}

/// The tensor entry at `pos`.
pub open spec fn dec_tensor(b: Seq<u8>, pos: int) -> Decoded<TensorView> {
    match dec_str(b, pos) {
        Err(e) => Err(e),
        Ok((name, p1)) => match dec_le(b, p1, 4) {
            Err(e) => Err(e),
            Ok((n, p2)) => match dec_all::<u64>(b, p2, n) {
                Err(e) => Err(e),
                Ok((dims, p3)) => match dec_le(b, p3, 4) {
                    Err(e) => Err(e),
                    Ok((dtype, p4)) => match dec_le(b, p4, 8) {
                        Err(e) => Err(e),
                        Ok((offset, p5)) => match tensor_of(
                            name,
                            dims,
                            dtype as u32,
                            offset as u64,
                        ) {
                            Err(e) => Err(e),
                            Ok(t) => Ok((t, p5)),
                        },
                    },
                },
            },
        },
    }
}

/// What a stored tensor entry means: the type code is resolved, and the size
/// follows from it and the shape. An unknown type is refused, and so is a
/// shape whose size does not fit in 64 bits.
pub open spec fn tensor_of(name: Seq<char>, dims: Seq<u64>, dtype: u32, offset: u64) -> Result<
    TensorView,
    ErrorView,
> {
    let resolved = migrated(TYPE_CODE_MIGRATIONS@, dtype);
    match type_sizes_spec(resolved) {
        None => Err(ErrorView::UnsupportedTensorType { resolved, stored: dtype, name }),
        Some(sizes) => if product_fits(dims) && tensor_bytes(product(dims), sizes) <= u64::MAX {
            Ok(
                TensorView {
                    name,
                    dims,
                    dtype_orig: dtype,
                    dtype: resolved,
                    offset,
                    nbytes: tensor_bytes(product(dims), sizes) as u64,
                },
            )
        } else {
            Err(ErrorView::SizeOverflow { name })
        },
    }
}

/// What a file's header means.
pub struct ReaderView {
    pub kvs: Seq<(Seq<char>, ValueView)>,
    pub tensors: Seq<TensorView>,
    /// Where the data section starts.
    pub data_start: nat,
}

/// The header at the start of `b`.
pub open spec fn dec_file(b: Seq<u8>) -> Result<ReaderView, ErrorView> {
    match dec_le(b, 0, 4) {
        Err(e) => Err(e),
        Ok((magic, _)) => if magic != GGUF_MAGIC {
            Err(ErrorView::NotGguf)
        } else {
            match dec_le(b, 4, 4) {
                Err(e) => Err(e),
                Ok((version, _)) => if version != GGUF_VERSION {
                    Err(ErrorView::UnsupportedVersion(version as u32))
                } else {
                    dec_sections(b)
                },
            }
        },
    }
}

/// The counts behind magic and version, then metadata and tensor entries.
pub open spec fn dec_sections(b: Seq<u8>) -> Result<ReaderView, ErrorView> {
    match dec_le(b, 8, 8) {
        Err(e) => Err(e),
        Ok((n_tensors, _)) => match dec_le(b, 16, 8) {
            Err(e) => Err(e),
            Ok((n_kv, p)) => match dec_all::<(String, Value)>(b, p, n_kv) {
                Err(e) => Err(e),
                Ok((kvs, q)) => match dec_all::<ReaderTensor>(b, q, n_tensors) {
                    Err(e) => Err(e),
                    Ok((tensors, r)) => Ok(
                        ReaderView {
                            kvs,
                            tensors,
                            data_start: padded(r as nat, ALIGNMENT as nat),
                        },
                    ),
                },
            },
        },
    }
}

/// `n` zero bytes.
pub open spec fn zeros(n: nat) -> Seq<u8> {
    Seq::new(n, |i: int| 0u8)
}

/// The padding that follows `len` bytes.
pub open spec fn pad_after(len: nat) -> Seq<u8> {
    zeros((padded(len, ALIGNMENT as nat) - len) as nat)
}

} // verus!
