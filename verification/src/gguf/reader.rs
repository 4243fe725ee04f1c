//! Reading a GGUF file.

use crate::gguf::format::{
    bool_byte, dec_all, dec_array, dec_file, dec_kv, dec_le, dec_scalar, dec_sections, dec_str,
    dec_tensor, enc_all, enc_counted, enc_kv, enc_payload, enc_str, enc_tensor, models, product,
    product_fits, tensor_of, Decoded, ErrorView, Field, ReaderView, TensorView,
};
use crate::gguf::{
    ALIGNMENT, GGUF_MAGIC, GGUF_VERSION, V_ARRAY, V_BOOL, V_F32, V_F64, V_I16, V_I32, V_I64, V_I8,
    V_STRING, V_U16, V_U32, V_U64, V_U8,
};
use crate::gguf::{
    ggml_pad, kv_views, padded_bounds, resolve_type_code, type_sizes, Value, ValueView,
};
use crate::le::{get_le, le_bytes, le_bytes_len, le_round_trip, le_value, pow256_values};
use crate::text::utf8_string;
use crate::text::views;
use vstd::prelude::*;
use vstd::slice::{slice_subrange, slice_to_vec};
use vstd::utf8::encode_utf8;

verus! {

/// What stops a reader.
#[derive(Debug, Clone, PartialEq, Eq)]
pub enum GgufError {
    /// The bytes end before the header does.
    UnexpectedEof,
    /// The magic number is missing.
    NotGguf,
    /// A format version other than the supported one.
    UnsupportedVersion(u32),
    /// A string that is not UTF-8.
    BadUtf8,
    /// A value type id that is none of the scalars.
    BadScalarType,
    /// An array of elements that arrays are not read of.
    UnsupportedArrayElement { elem: u32, key: String },
    /// A tensor type of unknown size.
    UnsupportedTensorType { resolved: u32, stored: u32, name: String },
    /// A tensor whose size in bytes does not fit in 64 bits.
    SizeOverflow { name: String },
}

impl View for GgufError {
    type V = ErrorView;

    open spec fn view(&self) -> ErrorView {
        match *self {
            GgufError::UnexpectedEof => ErrorView::UnexpectedEof,
            GgufError::NotGguf => ErrorView::NotGguf,
            GgufError::UnsupportedVersion(v) => ErrorView::UnsupportedVersion(v),
            GgufError::BadUtf8 => ErrorView::BadUtf8,
            GgufError::BadScalarType => ErrorView::BadScalarType,
            GgufError::UnsupportedArrayElement { elem, key } => {
                ErrorView::UnsupportedArrayElement { elem, key: key@ }
            },
            GgufError::UnsupportedTensorType { resolved, stored, name } => {
                ErrorView::UnsupportedTensorType { resolved, stored, name: name@ }
            },
            GgufError::SizeOverflow { name } => ErrorView::SizeOverflow { name: name@ },
        }
    }
}

/// Read the number in the `n` bytes at `pos`.
fn read_le(b: &[u8], pos: usize, n: usize) -> (r: Result<(u64, usize), GgufError>)
    requires
        pos <= b@.len(),
        n <= 8,
    ensures
        r matches Ok((x, p)) ==> p == pos + n && p <= b@.len() && dec_le(b@, pos as int, n as nat)
            == Ok::<_, ErrorView>((x as nat, p as int)),
        r matches Err(e) ==> dec_le(b@, pos as int, n as nat) == Err::<(nat, int), _>(e@),
{
    if b.len() - pos < n {
        return Err(GgufError::UnexpectedEof);
    }
    assert(pos + n <= b.len());
    Ok((get_le(b, pos, n), pos + n))
}

/// What the bytes of a number read as.
proof fn dec_le_bytes(b: Seq<u8>, pos: int, x: nat, n: nat)
    requires
        x < crate::le::pow256(n),
        0 <= pos,
        pos + n <= b.len(),
        b.subrange(pos, pos + n) == le_bytes(x, n),
    ensures
        dec_le(b, pos, n) == Ok::<_, ErrorView>((x, pos + n)),
{
    le_round_trip(x, n);
}

/// A part of what stands at a position stands at its own position.
pub proof fn part_at(b: Seq<u8>, pos: int, whole: Seq<u8>, from: int, part: Seq<u8>)
    requires
        0 <= pos,
        pos + whole.len() <= b.len(),
        b.subrange(pos, pos + whole.len()) == whole,
        0 <= from,
        from + part.len() <= whole.len(),
        whole.subrange(from, from + part.len()) == part,
    ensures
        b.subrange(pos + from, pos + from + part.len()) == part,
{
    assert(b.subrange(pos + from, pos + from + part.len()) =~= b.subrange(
        pos,
        pos + whole.len(),
    ).subrange(from, from + part.len()));
}

impl Field for u64 {
    type Model = u64;

    open spec fn model(&self) -> u64 {
        *self
    }

    open spec fn valid(m: u64) -> bool {
        true
    }

    open spec fn enc(m: u64) -> Seq<u8> {
        le_bytes(m as nat, 8)
    }

    open spec fn dec(b: Seq<u8>, pos: int) -> Decoded<u64> {
        match dec_le(b, pos, 8) {
            Err(e) => Err(e),
            Ok((x, p)) => Ok((x as u64, p)),
        }
    }

    proof fn dec_within(b: Seq<u8>, pos: int) {
    }

    proof fn dec_enc(b: Seq<u8>, pos: int, m: u64) {
        le_bytes_len(m as nat, 8);
        pow256_values();
        dec_le_bytes(b, pos, m as nat, 8);
    }

    fn read(b: &[u8], pos: usize) -> (r: Result<(Self, usize), GgufError>) {
        read_le(b, pos, 8)
    }
}

impl Field for u32 {
    type Model = u32;

    open spec fn model(&self) -> u32 {
        *self
    }

    open spec fn valid(m: u32) -> bool {
        true
    }

    open spec fn enc(m: u32) -> Seq<u8> {
        le_bytes(m as nat, 4)
    }

    open spec fn dec(b: Seq<u8>, pos: int) -> Decoded<u32> {
        match dec_le(b, pos, 4) {
            Err(e) => Err(e),
            Ok((x, p)) => Ok((x as u32, p)),
        }
    }

    proof fn dec_within(b: Seq<u8>, pos: int) {
    }

    proof fn dec_enc(b: Seq<u8>, pos: int, m: u32) {
        le_bytes_len(m as nat, 4);
        pow256_values();
        dec_le_bytes(b, pos, m as nat, 4);
    }

    fn read(b: &[u8], pos: usize) -> (r: Result<(Self, usize), GgufError>) {
        match read_le(b, pos, 4) {
            Err(e) => Err(e),
            Ok((x, p)) => Ok((x as u32, p)),
        }
    }
}

impl Field for i32 {
    type Model = i32;

    open spec fn model(&self) -> i32 {
        *self
    }

    open spec fn valid(m: i32) -> bool {
        true
    }

    open spec fn enc(m: i32) -> Seq<u8> {
        le_bytes((m as u32) as nat, 4)
    }

    open spec fn dec(b: Seq<u8>, pos: int) -> Decoded<i32> {
        match dec_le(b, pos, 4) {
            Err(e) => Err(e),
            Ok((x, p)) => Ok(((x as u32) as i32, p)),
        }
    }

    proof fn dec_within(b: Seq<u8>, pos: int) {
    }

    proof fn dec_enc(b: Seq<u8>, pos: int, m: i32) {
        le_bytes_len((m as u32) as nat, 4);
        pow256_values();
        dec_le_bytes(b, pos, (m as u32) as nat, 4);
        assert((m as u32) as i32 == m) by (bit_vector);
    }

    fn read(b: &[u8], pos: usize) -> (r: Result<(Self, usize), GgufError>) {
        match read_le(b, pos, 4) {
            Err(e) => Err(e),
            Ok((x, p)) => Ok(((x as u32) as i32, p)),
        }
    }
}

impl Field for u8 {
    type Model = u8;

    open spec fn model(&self) -> u8 {
        *self
    }

    open spec fn valid(m: u8) -> bool {
        true
    }

    open spec fn enc(m: u8) -> Seq<u8> {
        le_bytes(m as nat, 1)
    }

    open spec fn dec(b: Seq<u8>, pos: int) -> Decoded<u8> {
        match dec_le(b, pos, 1) {
            Err(e) => Err(e),
            Ok((x, p)) => Ok((x as u8, p)),
        }
    }

    proof fn dec_within(b: Seq<u8>, pos: int) {
    }

    proof fn dec_enc(b: Seq<u8>, pos: int, m: u8) {
        le_bytes_len(m as nat, 1);
        pow256_values();
        dec_le_bytes(b, pos, m as nat, 1);
    }

    fn read(b: &[u8], pos: usize) -> (r: Result<(Self, usize), GgufError>) {
        match read_le(b, pos, 1) {
            Err(e) => Err(e),
            Ok((x, p)) => Ok((x as u8, p)),
        }
    }
}

impl Field for i8 {
    type Model = i8;

    open spec fn model(&self) -> i8 {
        *self
    }

    open spec fn valid(m: i8) -> bool {
        true
    }

    open spec fn enc(m: i8) -> Seq<u8> {
        le_bytes((m as u8) as nat, 1)
    }

    open spec fn dec(b: Seq<u8>, pos: int) -> Decoded<i8> {
        match dec_le(b, pos, 1) {
            Err(e) => Err(e),
            Ok((x, p)) => Ok(((x as u8) as i8, p)),
        }
    }

    proof fn dec_within(b: Seq<u8>, pos: int) {
    }

    proof fn dec_enc(b: Seq<u8>, pos: int, m: i8) {
        le_bytes_len((m as u8) as nat, 1);
        pow256_values();
        dec_le_bytes(b, pos, (m as u8) as nat, 1);
        assert((m as u8) as i8 == m) by (bit_vector);
    }

    fn read(b: &[u8], pos: usize) -> (r: Result<(Self, usize), GgufError>) {
        match read_le(b, pos, 1) {
            Err(e) => Err(e),
            Ok((x, p)) => Ok(((x as u8) as i8, p)),
        }
    }
}

impl Field for u16 {
    type Model = u16;

    open spec fn model(&self) -> u16 {
        *self
    }

    open spec fn valid(m: u16) -> bool {
        true
    }

    open spec fn enc(m: u16) -> Seq<u8> {
        le_bytes(m as nat, 2)
    }

    open spec fn dec(b: Seq<u8>, pos: int) -> Decoded<u16> {
        match dec_le(b, pos, 2) {
            Err(e) => Err(e),
            Ok((x, p)) => Ok((x as u16, p)),
        }
    }

    proof fn dec_within(b: Seq<u8>, pos: int) {
    }

    proof fn dec_enc(b: Seq<u8>, pos: int, m: u16) {
        le_bytes_len(m as nat, 2);
        pow256_values();
        dec_le_bytes(b, pos, m as nat, 2);
    }

    fn read(b: &[u8], pos: usize) -> (r: Result<(Self, usize), GgufError>) {
        match read_le(b, pos, 2) {
            Err(e) => Err(e),
            Ok((x, p)) => Ok((x as u16, p)),
        }
    }
}

impl Field for i16 {
    type Model = i16;

    open spec fn model(&self) -> i16 {
        *self
    }

    open spec fn valid(m: i16) -> bool {
        true
    }

    open spec fn enc(m: i16) -> Seq<u8> {
        le_bytes((m as u16) as nat, 2)
    }

    open spec fn dec(b: Seq<u8>, pos: int) -> Decoded<i16> {
        match dec_le(b, pos, 2) {
            Err(e) => Err(e),
            Ok((x, p)) => Ok(((x as u16) as i16, p)),
        }
    }

    proof fn dec_within(b: Seq<u8>, pos: int) {
    }

    proof fn dec_enc(b: Seq<u8>, pos: int, m: i16) {
        le_bytes_len((m as u16) as nat, 2);
        pow256_values();
        dec_le_bytes(b, pos, (m as u16) as nat, 2);
        assert((m as u16) as i16 == m) by (bit_vector);
    }

    fn read(b: &[u8], pos: usize) -> (r: Result<(Self, usize), GgufError>) {
        match read_le(b, pos, 2) {
            Err(e) => Err(e),
            Ok((x, p)) => Ok(((x as u16) as i16, p)),
        }
    }
}

impl Field for i64 {
    type Model = i64;

    open spec fn model(&self) -> i64 {
        *self
    }

    open spec fn valid(m: i64) -> bool {
        true
    }

    open spec fn enc(m: i64) -> Seq<u8> {
        le_bytes((m as u64) as nat, 8)
    }

    open spec fn dec(b: Seq<u8>, pos: int) -> Decoded<i64> {
        match dec_le(b, pos, 8) {
            Err(e) => Err(e),
            Ok((x, p)) => Ok(((x as u64) as i64, p)),
        }
    }

    proof fn dec_within(b: Seq<u8>, pos: int) {
    }

    proof fn dec_enc(b: Seq<u8>, pos: int, m: i64) {
        le_bytes_len((m as u64) as nat, 8);
        pow256_values();
        dec_le_bytes(b, pos, (m as u64) as nat, 8);
        assert((m as u64) as i64 == m) by (bit_vector);
    }

    fn read(b: &[u8], pos: usize) -> (r: Result<(Self, usize), GgufError>) {
        match read_le(b, pos, 8) {
            Err(e) => Err(e),
            Ok((x, p)) => Ok(((x as u64) as i64, p)),
        }
    }
}

impl Field for bool {
    type Model = bool;

    open spec fn model(&self) -> bool {
        *self
    }

    open spec fn valid(m: bool) -> bool {
        true
    }

    open spec fn enc(m: bool) -> Seq<u8> {
        seq![bool_byte(m)]
    }

    open spec fn dec(b: Seq<u8>, pos: int) -> Decoded<bool> {
        match dec_le(b, pos, 1) {
            Err(e) => Err(e),
            Ok((x, p)) => Ok((x != 0, p)),
        }
    }

    proof fn dec_within(b: Seq<u8>, pos: int) {
    }

    proof fn dec_enc(b: Seq<u8>, pos: int, m: bool) {
        one_byte(b.subrange(pos, pos + 1));
        assert(seq![bool_byte(m)][0] == bool_byte(m));
    }

    fn read(b: &[u8], pos: usize) -> (r: Result<(Self, usize), GgufError>) {
        match read_le(b, pos, 1) {
            Err(e) => Err(e),
            Ok((x, p)) => Ok((x != 0, p)),
        }
    }
}

/// One byte stands for itself.
pub proof fn one_byte(s: Seq<u8>)
    requires
        s.len() == 1,
    ensures
        le_value(s) == s[0] as nat,
{
    assert(s.drop_first().len() == 0);
    reveal_with_fuel(le_value, 2);
}

impl Field for String {
    type Model = Seq<char>;

    open spec fn model(&self) -> Seq<char> {
        self@
    }

    open spec fn valid(m: Seq<char>) -> bool {
        encode_utf8(m).len() <= u64::MAX
    }

    open spec fn enc(m: Seq<char>) -> Seq<u8> {
        enc_str(m)
    }

    open spec fn dec(b: Seq<u8>, pos: int) -> Decoded<Seq<char>> {
        dec_str(b, pos)
    }

    proof fn dec_within(b: Seq<u8>, pos: int) {
    }

    proof fn dec_enc(b: Seq<u8>, pos: int, m: Seq<char>) {
        let body = encode_utf8(m);
        let whole = enc_str(m);
        le_bytes_len(body.len(), 8);
        pow256_values();
        assert(whole.subrange(0, 8) =~= le_bytes(body.len(), 8));
        assert(whole.subrange(8, 8 + body.len() as int) =~= body);
        part_at(b, pos, whole, 0, le_bytes(body.len(), 8));
        part_at(b, pos, whole, 8, body);
        dec_le_bytes(b, pos, body.len(), 8);
        vstd::utf8::encode_utf8_valid_utf8(m);
        vstd::utf8::encode_utf8_decode_utf8(m);
    }

    fn read(b: &[u8], pos: usize) -> (r: Result<(Self, usize), GgufError>) {
        match read_le(b, pos, 8) {
            Err(e) => Err(e),
            Ok((n, p)) => {
                if n > (b.len() - p) as u64 {
                    return Err(GgufError::UnexpectedEof);
                }
                let end: usize = p + n as usize;
                match utf8_string(slice_to_vec(slice_subrange(b, p, end))) {
                    Some(s) => Ok((s, end)),
                    None => Err(GgufError::BadUtf8),
                }
            },
        }
    }
}

/// Read `n` items from `pos` on.
pub fn read_all<T: Field>(b: &[u8], pos: usize, n: u64) -> (r: Result<(Vec<T>, usize), GgufError>)
    requires
        pos <= b@.len(),
    ensures
        r matches Ok((v, p)) ==> pos <= p <= b@.len() && dec_all::<T>(b@, pos as int, n as nat)
            == Ok::<_, ErrorView>((models(v@), p as int)),
        r matches Err(e) ==> dec_all::<T>(b@, pos as int, n as nat) == Err::<
            (Seq<T::Model>, int),
            _,
        >(e@),
{
    let mut v: Vec<T> = Vec::new();
    let mut p: usize = pos;
    let mut i: u64 = 0;
    assert(forall|s: Seq<T::Model>| #[trigger] (models(v@) + s) =~= s);
    while i < n
        invariant
            i <= n,
            pos <= p <= b@.len(),
            match dec_all::<T>(b@, p as int, (n - i) as nat) {
                Ok((rest, q)) => dec_all::<T>(b@, pos as int, n as nat) == Ok::<_, ErrorView>(
                    (models(v@) + rest, q),
                ),
                Err(e) => dec_all::<T>(b@, pos as int, n as nat) == Err::<
                    (Seq<T::Model>, int),
                    _,
                >(e),
            },
        decreases n - i,
    {
        let ghost before = v@;
        match T::read(b, p) {
            Err(e) => {
                return Err(e);
            },
            Ok((x, q)) => {
                v.push(x);
                proof {
                    assert(models(v@) =~= models(before).push(x.model()));
                    assert forall|s: Seq<T::Model>| #[trigger]
                        (models(v@) + s) == models(before) + (seq![x.model()] + s) by {
                        assert(models(v@) + s =~= models(before) + (seq![x.model()] + s));
                    }
                }
                p = q;
                i += 1;
            },
        }
    }
    assert(models(v@) + Seq::<T::Model>::empty() =~= models(v@));
    Ok((v, p))
}

/// Reading many items stays within the bytes.
pub proof fn dec_all_within<T: Field>(b: Seq<u8>, pos: int, n: nat)
    requires
        0 <= pos <= b.len(),
    ensures
        dec_all::<T>(b, pos, n) matches Ok((_, p)) ==> pos <= p <= b.len(),
    decreases n,
{
    if n > 0 {
        T::dec_within(b, pos);
        if let Ok((_, p)) = T::dec(b, pos) {
            dec_all_within::<T>(b, p, (n - 1) as nat);
        }
    }
}

/// Bytes that hold a list of items read as that list.
pub proof fn dec_all_enc<T: Field>(b: Seq<u8>, pos: int, ms: Seq<T::Model>)
    requires
        forall|i: int| 0 <= i < ms.len() ==> T::valid(#[trigger] ms[i]),
        0 <= pos,
        pos + enc_all::<T>(ms).len() <= b.len(),
        b.subrange(pos, pos + enc_all::<T>(ms).len()) == enc_all::<T>(ms),
    ensures
        dec_all::<T>(b, pos, ms.len()) == Ok::<_, ErrorView>((ms, pos + enc_all::<T>(ms).len())),
    decreases ms.len(),
{
    if ms.len() == 0 {
        assert(ms =~= Seq::empty());
    } else {
        let head = T::enc(ms[0]);
        let tail = enc_all::<T>(ms.drop_first());
        let whole = enc_all::<T>(ms);
        assert(whole.subrange(0, head.len() as int) =~= head);
        assert(whole.subrange(head.len() as int, (head.len() + tail.len()) as int) =~= tail);
        part_at(b, pos, whole, 0, head);
        part_at(b, pos, whole, head.len() as int, tail);
        T::dec_enc(b, pos, ms[0]);
        assert forall|i: int| 0 <= i < ms.drop_first().len() implies T::valid(
            #[trigger] ms.drop_first()[i],
        ) by {
            assert(ms.drop_first()[i] == ms[i + 1]);
        }
        dec_all_enc::<T>(b, pos + head.len(), ms.drop_first());
        assert(seq![ms[0]] + ms.drop_first() =~= ms);
    }
}

/// The values that can be written and read back: texts and lists whose
/// lengths fit in their 64-bit counts.
pub open spec fn valid_value(v: ValueView) -> bool {
    match v {
        ValueView::Str(s) => String::valid(s),
        ValueView::ArrStr(s) => s.len() <= u64::MAX && (forall|i: int|
            0 <= i < s.len() ==> String::valid(#[trigger] s[i])),
        ValueView::ArrI32(s) => s.len() <= u64::MAX,
        ValueView::ArrF32(s) => s.len() <= u64::MAX,
        ValueView::ArrBool(s) => s.len() <= u64::MAX,
        ValueView::ArrU8(s) => s.len() <= u64::MAX,
        ValueView::ArrI8(s) => s.len() <= u64::MAX,
        ValueView::ArrU16(s) => s.len() <= u64::MAX,
        ValueView::ArrI16(s) => s.len() <= u64::MAX,
        ValueView::ArrU32(s) => s.len() <= u64::MAX,
        ValueView::ArrU64(s) => s.len() <= u64::MAX,
        ValueView::ArrI64(s) => s.len() <= u64::MAX,
        ValueView::ArrF64(s) => s.len() <= u64::MAX,
        _ => true,
    }
}

/// Read the scalar of type id `t` at `pos`.
fn read_scalar(b: &[u8], pos: usize, t: u32) -> (r: Result<(Value, usize), GgufError>)
    requires
        pos <= b@.len(),
    ensures
        r matches Ok((x, p)) ==> pos <= p <= b@.len() && dec_scalar(b@, pos as int, t) == Ok::<
            _,
            ErrorView,
        >((x@, p as int)),
        r matches Err(e) ==> dec_scalar(b@, pos as int, t) == Err::<(ValueView, int), _>(e@),
{
    let n: usize = match t {
        V_U8 | V_I8 | V_BOOL => 1,
        V_U16 | V_I16 => 2,
        V_U32 | V_I32 | V_F32 => 4,
        V_U64 | V_I64 | V_F64 => 8,
        _ => {
            return Err(GgufError::BadScalarType);
        },
    };
    match read_le(b, pos, n) {
        Err(e) => Err(e),
        Ok((x, p)) => {
            let v: Value = match t {
                V_U8 => Value::U8(x as u8),
                V_I8 => Value::I8((x as u8) as i8),
                V_U16 => Value::U16(x as u16),
                V_I16 => Value::I16((x as u16) as i16),
                V_U32 => Value::U32(x as u32),
                V_I32 => Value::I32((x as u32) as i32),
                V_F32 => Value::F32(x as u32),
                V_BOOL => Value::Bool(x != 0),
                V_U64 => Value::U64(x),
                V_I64 => Value::I64(x as i64),
                _ => Value::F64(x),
            };
            Ok((v, p))
        },
    }
}

/// Read the array at `pos` that belongs to `key`.
fn read_array(b: &[u8], pos: usize, key: &String) -> (r: Result<(Value, usize), GgufError>)
    requires
        pos <= b@.len(),
    ensures
        r matches Ok((x, p)) ==> pos <= p <= b@.len() && dec_array(b@, pos as int, key@) == Ok::<
            _,
            ErrorView,
        >((x@, p as int)),
        r matches Err(e) ==> dec_array(b@, pos as int, key@) == Err::<(ValueView, int), _>(e@),
{
    match read_le(b, pos, 4) {
        Err(e) => Err(e),
        Ok((et, p)) => match read_le(b, p, 8) {
            Err(e) => Err(e),
            Ok((n, q)) => {
                if et == V_STRING as u64 {
                    match read_all::<String>(b, q, n) {
                        Err(e) => Err(e),
                        Ok((v, r)) => {
                            assert(models(v@) =~= views(v@));
                            Ok((Value::ArrStr(v), r))
                        },
                    }
                } else if et == V_I32 as u64 {
                    match read_all::<i32>(b, q, n) {
                        Err(e) => Err(e),
                        Ok((v, r)) => {
                            assert(models(v@) =~= v@);
                            Ok((Value::ArrI32(v), r))
                        },
                    }
                } else if et == V_F32 as u64 {
                    match read_all::<u32>(b, q, n) {
                        Err(e) => Err(e),
                        Ok((v, r)) => {
                            assert(models(v@) =~= v@);
                            Ok((Value::ArrF32(v), r))
                        },
                    }
                } else if et == V_BOOL as u64 {
                    match read_all::<bool>(b, q, n) {
                        Err(e) => Err(e),
                        Ok((v, r)) => {
                            assert(models(v@) =~= v@);
                            Ok((Value::ArrBool(v), r))
                        },
                    }
                } else if et == V_U8 as u64 {
                    match read_all::<u8>(b, q, n) {
                        Err(e) => Err(e),
                        Ok((v, r)) => {
                            assert(models(v@) =~= v@);
                            Ok((Value::ArrU8(v), r))
                        },
                    }
                } else if et == V_I8 as u64 {
                    match read_all::<i8>(b, q, n) {
                        Err(e) => Err(e),
                        Ok((v, r)) => {
                            assert(models(v@) =~= v@);
                            Ok((Value::ArrI8(v), r))
                        },
                    }
                } else if et == V_U16 as u64 {
                    match read_all::<u16>(b, q, n) {
                        Err(e) => Err(e),
                        Ok((v, r)) => {
                            assert(models(v@) =~= v@);
                            Ok((Value::ArrU16(v), r))
                        },
                    }
                } else if et == V_I16 as u64 {
                    match read_all::<i16>(b, q, n) {
                        Err(e) => Err(e),
                        Ok((v, r)) => {
                            assert(models(v@) =~= v@);
                            Ok((Value::ArrI16(v), r))
                        },
                    }
                } else if et == V_U32 as u64 {
                    match read_all::<u32>(b, q, n) {
                        Err(e) => Err(e),
                        Ok((v, r)) => {
                            assert(models(v@) =~= v@);
                            Ok((Value::ArrU32(v), r))
                        },
                    }
                } else if et == V_U64 as u64 {
                    match read_all::<u64>(b, q, n) {
                        Err(e) => Err(e),
                        Ok((v, r)) => {
                            assert(models(v@) =~= v@);
                            Ok((Value::ArrU64(v), r))
                        },
                    }
                } else if et == V_I64 as u64 {
                    match read_all::<i64>(b, q, n) {
                        Err(e) => Err(e),
                        Ok((v, r)) => {
                            assert(models(v@) =~= v@);
                            Ok((Value::ArrI64(v), r))
                        },
                    }
                } else if et == V_F64 as u64 {
                    match read_all::<u64>(b, q, n) {
                        Err(e) => Err(e),
                        Ok((v, r)) => {
                            assert(models(v@) =~= v@);
                            Ok((Value::ArrF64(v), r))
                        },
                    }
                } else {
                    Err(GgufError::UnsupportedArrayElement { elem: et as u32, key: key.clone() })
                }
            },
        },
    }
}

/// The bytes of a counted list behind its element type id read as the list.
proof fn dec_counted_enc<T: Field>(b: Seq<u8>, pos: int, et: u32, ms: Seq<T::Model>)
    requires
        forall|i: int| 0 <= i < ms.len() ==> T::valid(#[trigger] ms[i]),
        ms.len() <= u64::MAX,
        0 <= pos,
        ({
            let whole = le_bytes(et as nat, 4) + enc_counted::<T>(ms);
            pos + whole.len() <= b.len() && b.subrange(pos, pos + whole.len()) == whole
        }),
    ensures
        dec_le(b, pos, 4) == Ok::<_, ErrorView>((et as nat, pos + 4)),
        dec_le(b, pos + 4, 8) == Ok::<_, ErrorView>((ms.len(), pos + 12)),
        dec_all::<T>(b, pos + 12, ms.len()) == Ok::<_, ErrorView>(
            (ms, pos + (le_bytes(et as nat, 4) + enc_counted::<T>(ms)).len()),
        ),
{
    let items = enc_all::<T>(ms);
    let whole = le_bytes(et as nat, 4) + enc_counted::<T>(ms);
    le_bytes_len(et as nat, 4);
    le_bytes_len(ms.len(), 8);
    pow256_values();
    assert(whole.subrange(0, 4) =~= le_bytes(et as nat, 4));
    assert(whole.subrange(4, 12) =~= le_bytes(ms.len(), 8));
    assert(whole.subrange(12, 12 + items.len() as int) =~= items);
    part_at(b, pos, whole, 0, le_bytes(et as nat, 4));
    part_at(b, pos, whole, 4, le_bytes(ms.len(), 8));
    part_at(b, pos, whole, 12, items);
    dec_le_bytes(b, pos, et as nat, 4);
    dec_le_bytes(b, pos + 4, ms.len(), 8);
    dec_all_enc::<T>(b, pos + 12, ms);
}

/// The bytes of a scalar read as that scalar.
proof fn dec_scalar_enc(b: Seq<u8>, pos: int, v: ValueView)
    requires
        v.type_id() != V_STRING,
        v.type_id() != V_ARRAY,
        0 <= pos,
        pos + enc_payload(v).len() <= b.len(),
        b.subrange(pos, pos + enc_payload(v).len()) == enc_payload(v),
    ensures
        dec_scalar(b, pos, v.type_id()) == Ok::<_, ErrorView>((v, pos + enc_payload(v).len())),
{
    pow256_values();
    match v {
        ValueView::U8(x) => {
            le_bytes_len(x as nat, 1);
            dec_le_bytes(b, pos, x as nat, 1);
        },
        ValueView::I8(x) => {
            le_bytes_len((x as u8) as nat, 1);
            dec_le_bytes(b, pos, (x as u8) as nat, 1);
            assert((x as u8) as i8 == x) by (bit_vector);
        },
        ValueView::U16(x) => {
            le_bytes_len(x as nat, 2);
            dec_le_bytes(b, pos, x as nat, 2);
        },
        ValueView::I16(x) => {
            le_bytes_len((x as u16) as nat, 2);
            dec_le_bytes(b, pos, (x as u16) as nat, 2);
            assert((x as u16) as i16 == x) by (bit_vector);
        },
        ValueView::U32(x) => {
            u32::dec_enc(b, pos, x);
            le_bytes_len(x as nat, 4);
            dec_le_bytes(b, pos, x as nat, 4);
        },
        ValueView::I32(x) => {
            le_bytes_len((x as u32) as nat, 4);
            dec_le_bytes(b, pos, (x as u32) as nat, 4);
            assert((x as u32) as i32 == x) by (bit_vector);
        },
        ValueView::F32(x) => {
            le_bytes_len(x as nat, 4);
            dec_le_bytes(b, pos, x as nat, 4);
        },
        ValueView::Bool(x) => {
            one_byte(b.subrange(pos, pos + 1));
            assert(seq![bool_byte(x)][0] == bool_byte(x));
        },
        ValueView::U64(x) => {
            le_bytes_len(x as nat, 8);
            dec_le_bytes(b, pos, x as nat, 8);
        },
        ValueView::I64(x) => {
            le_bytes_len((x as u64) as nat, 8);
            dec_le_bytes(b, pos, (x as u64) as nat, 8);
            assert((x as u64) as i64 == x) by (bit_vector);
        },
        ValueView::F64(x) => {
            le_bytes_len(x as nat, 8);
            dec_le_bytes(b, pos, x as nat, 8);
        },
        _ => {},
    }
}

impl Field for (String, Value) {
    type Model = (Seq<char>, ValueView);

    open spec fn model(&self) -> (Seq<char>, ValueView) {
        (self.0@, self.1@)
    }

    open spec fn valid(m: (Seq<char>, ValueView)) -> bool {
        String::valid(m.0) && valid_value(m.1)
    }

    open spec fn enc(m: (Seq<char>, ValueView)) -> Seq<u8> {
        enc_kv(m)
    }

    open spec fn dec(b: Seq<u8>, pos: int) -> Decoded<(Seq<char>, ValueView)> {
        dec_kv(b, pos)
    }

    proof fn dec_within(b: Seq<u8>, pos: int) {
        if let Ok((key, p)) = dec_str(b, pos) {
            if let Ok((t, q)) = dec_le(b, p, 4) {
                if t == V_ARRAY {
                    if let Ok((et, r)) = dec_le(b, q, 4) {
                        if let Ok((n, u)) = dec_le(b, r, 8) {
                            dec_all_within::<String>(b, u, n);
                            dec_all_within::<i32>(b, u, n);
                            dec_all_within::<u32>(b, u, n);
                            dec_all_within::<bool>(b, u, n);
                            dec_all_within::<u8>(b, u, n);
                            dec_all_within::<i8>(b, u, n);
                            dec_all_within::<u16>(b, u, n);
                            dec_all_within::<i16>(b, u, n);
                            dec_all_within::<u64>(b, u, n);
                            dec_all_within::<i64>(b, u, n);
                        }
                    }
                }
            }
        }
    }

    proof fn dec_enc(b: Seq<u8>, pos: int, m: (Seq<char>, ValueView)) {
        let (key, v) = m;
        let whole = enc_kv(m);
        let k = enc_str(key);
        let t = le_bytes(v.type_id() as nat, 4);
        let y = enc_payload(v);
        le_bytes_len(v.type_id() as nat, 4);
        pow256_values();
        let q1 = k.len() as int;
        assert(whole.subrange(0, q1) =~= k);
        assert(whole.subrange(q1, q1 + 4) =~= t);
        assert(whole.subrange(q1 + 4, q1 + 4 + y.len()) =~= y);
        part_at(b, pos, whole, 0, k);
        part_at(b, pos, whole, q1, t);
        part_at(b, pos, whole, q1 + 4, y);
        String::dec_enc(b, pos, key);
        dec_le_bytes(b, pos + k.len(), v.type_id() as nat, 4);
        let q = pos + k.len() + 4;
        match v {
            ValueView::Str(s) => {
                String::dec_enc(b, q, s);
            },
            ValueView::ArrStr(s) => {
                dec_counted_enc::<String>(b, q, V_STRING, s);
            },
            ValueView::ArrI32(s) => {
                dec_counted_enc::<i32>(b, q, V_I32, s);
            },
            ValueView::ArrF32(s) => {
                dec_counted_enc::<u32>(b, q, V_F32, s);
            },
            ValueView::ArrBool(s) => {
                dec_counted_enc::<bool>(b, q, V_BOOL, s);
            },
            ValueView::ArrU8(s) => {
                dec_counted_enc::<u8>(b, q, V_U8, s);
            },
            ValueView::ArrI8(s) => {
                dec_counted_enc::<i8>(b, q, V_I8, s);
            },
            ValueView::ArrU16(s) => {
                dec_counted_enc::<u16>(b, q, V_U16, s);
            },
            ValueView::ArrI16(s) => {
                dec_counted_enc::<i16>(b, q, V_I16, s);
            },
            ValueView::ArrU32(s) => {
                dec_counted_enc::<u32>(b, q, V_U32, s);
            },
            ValueView::ArrU64(s) => {
                dec_counted_enc::<u64>(b, q, V_U64, s);
            },
            ValueView::ArrI64(s) => {
                dec_counted_enc::<i64>(b, q, V_I64, s);
            },
            ValueView::ArrF64(s) => {
                dec_counted_enc::<u64>(b, q, V_F64, s);
            },
            _ => {
                dec_scalar_enc(b, q, v);
            },
        }
    }

    fn read(b: &[u8], pos: usize) -> (r: Result<(Self, usize), GgufError>) {
        match <String as Field>::read(b, pos) {
            Err(e) => Err(e),
            Ok((key, p)) => match read_le(b, p, 4) {
                Err(e) => Err(e),
                Ok((t, q)) => {
                    if t == V_STRING as u64 {
                        match <String as Field>::read(b, q) {
                            Err(e) => Err(e),
                            Ok((s, r)) => Ok(((key, Value::Str(s)), r)),
                        }
                    } else if t == V_ARRAY as u64 {
                        match read_array(b, q, &key) {
                            Err(e) => Err(e),
                            Ok((v, r)) => Ok(((key, v), r)),
                        }
                    } else {
                        match read_scalar(b, q, t as u32) {
                            Err(e) => Err(e),
                            Ok((v, r)) => Ok(((key, v), r)),
                        }
                    }
                },
            },
        }
    }
}

/// One tensor of a parsed file.
#[derive(Debug, Clone)]
pub struct ReaderTensor {
    pub name: String,
    /// Shape exactly as stored on disk (fastest dimension first).
    pub dims: Vec<u64>,
    /// Type code as stored in the file (may be a legacy id).
    pub dtype_orig: u32,
    /// Type code resolved to the current enum.
    pub dtype: u32,
    pub offset: u64,
    pub nbytes: u64,
}

impl View for ReaderTensor {
    type V = TensorView;

    open spec fn view(&self) -> TensorView {
        TensorView {
            name: self.name@,
            dims: self.dims@,
            dtype_orig: self.dtype_orig,
            dtype: self.dtype,
            offset: self.offset,
            nbytes: self.nbytes,
        }
    }
}

/// The product of the dimensions, if it stays within 64 bits.
pub fn checked_product(dims: &[u64]) -> (r: Option<u64>)
    ensures
        r is Some <==> product_fits(dims@),
        r is Some ==> r->0 == product(dims@),
{
    let mut x: u64 = 1;
    let mut i: usize = 0;
    assert(dims@.take(0).len() == 0);
    while i < dims.len()
        invariant
            i <= dims@.len(),
            product_fits(dims@.take(i as int)),
            x == product(dims@.take(i as int)),
        decreases dims@.len() - i,
    {
        proof {
            let next = dims@.take(i + 1);
            assert(next.drop_last() =~= dims@.take(i as int));
            assert(next.last() == dims@[i as int]);
        }
        match x.checked_mul(dims[i]) {
            Some(y) => {
                x = y;
            },
            None => {
                proof {
                    product_fits_prefix(dims@, i + 1);
                }
                return None;
            },
        }
        i += 1;
    }
    assert(dims@.take(i as int) =~= dims@);
    Some(x)
}

/// Where a product fits, so do those of the prefixes.
pub proof fn product_fits_prefix(dims: Seq<u64>, k: int)
    requires
        0 <= k <= dims.len(),
    ensures
        product_fits(dims) ==> product_fits(dims.take(k)),
    decreases dims.len(),
{
    if k == dims.len() {
        assert(dims.take(k) =~= dims);
    } else {
        product_fits_prefix(dims.drop_last(), k);
        assert(dims.drop_last().take(k) =~= dims.take(k));
    }
}

/// What a stored tensor entry means.
fn make_tensor(name: String, dims: Vec<u64>, dtype: u32, offset: u64) -> (r: Result<
    ReaderTensor,
    GgufError,
>)
    ensures
        r matches Ok(t) ==> tensor_of(name@, dims@, dtype, offset) == Ok::<_, ErrorView>(t@),
        r matches Err(e) ==> tensor_of(name@, dims@, dtype, offset) == Err::<TensorView, _>(e@),
{
    let resolved: u32 = resolve_type_code(dtype);
    match type_sizes(resolved) {
        None => Err(GgufError::UnsupportedTensorType { resolved, stored: dtype, name }),
        Some((bs, ts)) => match checked_product(&dims) {
            None => Err(GgufError::SizeOverflow { name }),
            Some(n) => match (n / bs).checked_mul(ts) {
                None => Err(GgufError::SizeOverflow { name }),
                Some(nbytes) => Ok(
                    ReaderTensor { name, dims, dtype_orig: dtype, dtype: resolved, offset, nbytes },
                ),
            },
        },
    }
}

impl Field for ReaderTensor {
    type Model = TensorView;

    open spec fn model(&self) -> TensorView {
        self@
    }

    open spec fn valid(m: TensorView) -> bool {
        &&& String::valid(m.name)
        &&& m.dims.len() <= u32::MAX
        &&& tensor_of(m.name, m.dims, m.dtype_orig, m.offset) == Ok::<_, ErrorView>(m)
    }

    open spec fn enc(m: TensorView) -> Seq<u8> {
        enc_tensor(m.name, m.dims, m.dtype_orig, m.offset)
    }

    open spec fn dec(b: Seq<u8>, pos: int) -> Decoded<TensorView> {
        dec_tensor(b, pos)
    }

    proof fn dec_within(b: Seq<u8>, pos: int) {
        if let Ok((_, p)) = dec_str(b, pos) {
            if let Ok((n, q)) = dec_le(b, p, 4) {
                dec_all_within::<u64>(b, q, n);
            }
        }
    }

    proof fn dec_enc(b: Seq<u8>, pos: int, m: TensorView) {
        let whole = enc_tensor(m.name, m.dims, m.dtype_orig, m.offset);
        let e1 = enc_str(m.name);
        let e2 = le_bytes(m.dims.len(), 4);
        let e3 = enc_all::<u64>(m.dims);
        let e4 = le_bytes(m.dtype_orig as nat, 4);
        let e5 = le_bytes(m.offset as nat, 8);
        le_bytes_len(m.dims.len(), 4);
        le_bytes_len(m.dtype_orig as nat, 4);
        le_bytes_len(m.offset as nat, 8);
        pow256_values();
        let q1 = e1.len() as int;
        let q3 = q1 + 4 + e3.len();
        assert(whole.subrange(0, q1) =~= e1);
        assert(whole.subrange(q1, q1 + 4) =~= e2);
        assert(whole.subrange(q1 + 4, q3) =~= e3);
        assert(whole.subrange(q3, q3 + 4) =~= e4);
        assert(whole.subrange(q3 + 4, q3 + 12) =~= e5);
        part_at(b, pos, whole, 0, e1);
        part_at(b, pos, whole, q1, e2);
        part_at(b, pos, whole, q1 + 4, e3);
        part_at(b, pos, whole, q3, e4);
        part_at(b, pos, whole, q3 + 4, e5);
        String::dec_enc(b, pos, m.name);
        dec_le_bytes(b, pos + q1, m.dims.len(), 4);
        dec_all_enc::<u64>(b, pos + q1 + 4, m.dims);
        dec_le_bytes(b, pos + q3, m.dtype_orig as nat, 4);
        dec_le_bytes(b, pos + q3 + 4, m.offset as nat, 8);
    }

    fn read(b: &[u8], pos: usize) -> (r: Result<(Self, usize), GgufError>) {
        match <String as Field>::read(b, pos) {
            Err(e) => Err(e),
            Ok((name, p1)) => match read_le(b, p1, 4) {
                Err(e) => Err(e),
                Ok((n, p2)) => match read_all::<u64>(b, p2, n) {
                    Err(e) => Err(e),
                    Ok((dims, p3)) => match read_le(b, p3, 4) {
                        Err(e) => Err(e),
                        Ok((dtype, p4)) => match read_le(b, p4, 8) {
                            Err(e) => Err(e),
                            Ok((offset, p5)) => {
                                assert(models(dims@) =~= dims@);
                                match make_tensor(name, dims, dtype as u32, offset) {
                                    Err(e) => Err(e),
                                    Ok(t) => Ok((t, p5)),
                                }
                            },
                        },
                    },
                },
            },
        }
    }
}

/// Parsed GGUF file (metadata in file order; data accessed by range).
pub struct Reader {
    pub kvs: Vec<(String, Value)>,
    pub tensors: Vec<ReaderTensor>,
    pub data_start: u64,
}

/// What a list of tensors means.
pub open spec fn tensor_views(v: Seq<ReaderTensor>) -> Seq<TensorView> {
    Seq::new(v.len(), |i: int| v[i]@)
}

impl View for Reader {
    type V = ReaderView;

    open spec fn view(&self) -> ReaderView {
        ReaderView {
            kvs: kv_views(self.kvs@),
            tensors: tensor_views(self.tensors@),
            data_start: self.data_start as nat,
        }
    }
}

/// The first value under `key`.
pub open spec fn lookup(kvs: Seq<(Seq<char>, ValueView)>, key: Seq<char>) -> Option<ValueView>
    decreases kvs.len(),
{
    if kvs.len() == 0 {
        None
    } else if kvs[0].0 == key {
        Some(kvs[0].1)
    } else {
        lookup(kvs.drop_first(), key)
    }
}

impl Reader {
    /// Read the header of a GGUF file out of the file's bytes.
    ///
    /// A tensor whose size does not fit in 64 bits is refused.
    pub fn open(b: &[u8]) -> (r: Result<Reader, GgufError>)
        requires
            b@.len() + ALIGNMENT <= u64::MAX,
        ensures
            r matches Ok(reader) ==> dec_file(b@) == Ok::<_, ErrorView>(reader@),
            r matches Err(e) ==> dec_file(b@) == Err::<ReaderView, _>(e@),
    {
        match read_le(b, 0, 4) {
            Err(e) => Err(e),
            Ok((magic, _)) => {
                if magic != GGUF_MAGIC as u64 {
                    return Err(GgufError::NotGguf);
                }
                match read_le(b, 4, 4) {
                    Err(e) => Err(e),
                    Ok((version, _)) => {
                        if version != GGUF_VERSION as u64 {
                            return Err(GgufError::UnsupportedVersion(version as u32));
                        }
                        read_sections(b)
                    },
                }
            },
        }
    }

    /// The value under `key`, the first where there are several.
    pub fn get(&self, key: &str) -> (r: Option<&Value>)
        ensures
            r matches Some(v) ==> lookup(self@.kvs, key@) == Some(v@),
            r is None ==> lookup(self@.kvs, key@) is None,
    {
        let mut i: usize = 0;
        let key_string: String = key.to_owned();
        assert(self@.kvs.skip(0) =~= self@.kvs);
        while i < self.kvs.len()
            invariant
                i <= self.kvs@.len(),
                key_string@ == key@,
                lookup(self@.kvs, key@) == lookup(self@.kvs.skip(i as int), key@),
            decreases self.kvs@.len() - i,
        {
            assert(self@.kvs.skip(i as int).drop_first() =~= self@.kvs.skip(i + 1));
            if self.kvs[i].0 == key_string {
                return Some(&self.kvs[i].1);
            }
            i += 1;
        }
        None
    }

    /// One tensor's raw bytes, out of the file's bytes.
    pub fn tensor_data(&self, b: &[u8], t: &ReaderTensor) -> (r: Result<Vec<u8>, GgufError>)
        ensures
            r matches Ok(data) ==> tensor_data_spec(b@, self@, t@) == Ok::<_, ErrorView>(data@),
            r matches Err(e) ==> tensor_data_spec(b@, self@, t@) == Err::<Seq<u8>, _>(e@),
    {
        if t.nbytes == 0 {
            let none: Vec<u8> = Vec::new();
            assert(none@ =~= Seq::empty());
            return Ok(none);
        }
        let len: u64 = b.len() as u64;
        if self.data_start > len || t.offset > len - self.data_start || t.nbytes > len
            - self.data_start - t.offset {
            return Err(GgufError::UnexpectedEof);
        }
        let start: usize = (self.data_start + t.offset) as usize;
        let end: usize = start + t.nbytes as usize;
        Ok(slice_to_vec(slice_subrange(b, start, end)))
    }
}

/// The bytes of a tensor: those behind its offset into the data section. A
/// file that ends before them is refused; where there are none it may end
/// anywhere.
pub open spec fn tensor_data_spec(b: Seq<u8>, r: ReaderView, t: TensorView) -> Result<
    Seq<u8>,
    ErrorView,
> {
    let start = r.data_start + t.offset;
    if t.nbytes == 0 {
        Ok(Seq::empty())
    } else if start + t.nbytes <= b.len() {
        Ok(b.subrange(start as int, start + t.nbytes))
    } else {
        Err(ErrorView::UnexpectedEof)
    }
}

/// Read what follows magic and version.
fn read_sections(b: &[u8]) -> (r: Result<Reader, GgufError>)
    requires
        8 <= b@.len(),
        b@.len() + ALIGNMENT <= u64::MAX,
    ensures
        r matches Ok(reader) ==> dec_sections(b@) == Ok::<_, ErrorView>(reader@),
        r matches Err(e) ==> dec_sections(b@) == Err::<ReaderView, _>(e@),
{
    match read_le(b, 8, 8) {
        Err(e) => Err(e),
        Ok((n_tensors, q)) => match read_le(b, q, 8) {
            Err(e) => Err(e),
            Ok((n_kv, p)) => match read_all::<(String, Value)>(b, p, n_kv) {
                Err(e) => Err(e),
                Ok((kvs, q)) => match read_all::<ReaderTensor>(b, q, n_tensors) {
                    Err(e) => Err(e),
                    Ok((tensors, pos)) => {
                        assert(models(kvs@) =~= kv_views(kvs@));
                        assert(models(tensors@) =~= tensor_views(tensors@));
                        proof {
                            padded_bounds(pos as nat, ALIGNMENT as nat);
                        }
                        let data_start: u64 = ggml_pad(pos as u64, ALIGNMENT);
                        Ok(Reader { kvs, tensors, data_start })
                    },
                },
            },
        },
    }
}

} // verus!
