//! Laws of the bytes of a GGUF file, number for number: what stands where in
//! it, under which type ids, and how large the tensors are.

use crate::gguf::format::{
    dec_array, dec_file, dec_le, dec_scalar, enc_all, enc_kv, enc_str, enc_tensor, product,
    product_fits, tensor_of, ErrorView, Field, ReaderView, TensorView,
};
use crate::gguf::reader::ReaderTensor;
use crate::gguf::writer::{data_size, entries, entry, header_body, header_bytes, InfoView};
use crate::gguf::{
    migrated, padded_bounds, type_sizes_spec, FTYPE_MIGRATIONS, GGUF_MAGIC, TYPE_CODE_MIGRATIONS,
    Value, ValueView,
};
use crate::le::{le_bytes, le_bytes_len, le_round_trip, le_value, le_value_bound, pow256_values};
use vstd::arithmetic::power::{lemma_pow0, lemma_pow_positive, pow};
use vstd::prelude::*;
use vstd::utf8::encode_utf8;

verus! {

/// A number in `n` bytes, the least significant first.
pub open spec fn number(x: int, n: nat) -> Seq<u8> {
    Seq::new(n, |i: int| (x / pow(256, i as nat) % 256) as u8)
}

/// A text behind the number of its bytes.
pub open spec fn text(s: Seq<char>) -> Seq<u8> {
    number(encode_utf8(s).len() as int, 8) + encode_utf8(s)
}

/// One byte for each truth value.
pub open spec fn truth(x: bool) -> Seq<u8> {
    seq![
        if x {
            1u8
        } else {
            0u8
        },
    ]
}

/// Numbers are written with the least significant byte first.
pub proof fn numbers_are_little_endian(x: nat, n: nat)
    ensures
        le_bytes(x, n) == number(x as int, n),
    decreases n,
{
    le_bytes_len(x, n);
    if n > 0 {
        let m = (n - 1) as nat;
        numbers_are_little_endian(x / 256, m);
        assert forall|i: int| 0 <= i < n implies le_bytes(x, n)[i] == #[trigger] number(
            x as int,
            n,
        )[i] by {
            if i == 0 {
                lemma_pow0(256);
                assert(x as int / 1 == x);
            } else {
                let k = (i - 1) as nat;
                assert(le_bytes(x, n)[i] == le_bytes(x / 256, m)[i - 1]);
                assert(number((x / 256) as int, m)[i - 1] == ((x / 256) as int / pow(256, k)
                    % 256) as u8);
                lemma_pow_positive(256, k);
                assert(pow(256, i as nat) == 256 * pow(256, k)) by {
                    reveal(pow);
                }
                vstd::arithmetic::div_mod::lemma_div_denominator(x as int, 256, pow(256, k));
            }
        }
    }
    assert(le_bytes(x, n) =~= number(x as int, n));
}

/// Bytes read as a number are written as the same bytes.
proof fn read_numbers(s: Seq<u8>)
    ensures
        le_bytes(le_value(s), s.len()) == s,
    decreases s.len(),
{
    if s.len() > 0 {
        let rest = s.drop_first();
        read_numbers(rest);
        assert((s[0] as nat + 256 * le_value(rest)) % 256 == s[0] as nat);
        assert((s[0] as nat + 256 * le_value(rest)) / 256 == le_value(rest));
        assert(s =~= seq![s[0]] + rest);
    } else {
        assert(le_bytes(0, 0) =~= s);
    }
}

/// Numbers are read with the least significant byte first.
pub proof fn numbers_are_read(b: Seq<u8>, pos: int, n: nat)
    requires
        0 <= pos,
    ensures
        pos + n <= b.len() ==> dec_le(b, pos, n) is Ok && dec_le(b, pos, n)->Ok_0.1 == pos + n
            && number(dec_le(b, pos, n)->Ok_0.0 as int, n) == b.subrange(pos, pos + n),
        pos + n > b.len() ==> dec_le(b, pos, n) == Err::<(nat, int), _>(ErrorView::UnexpectedEof),
{
    if pos + n <= b.len() {
        let s = b.subrange(pos, pos + n);
        read_numbers(s);
        numbers_are_little_endian(le_value(s), n);
    }
}

/// A text is written behind the number of its bytes.
proof fn texts(s: Seq<char>)
    ensures
        enc_str(s) == text(s),
{
    numbers_are_little_endian(encode_utf8(s).len(), 8);
}

/// Each metadata pair stands as its key, the id of its type and its value.
pub proof fn values_are_laid_out(k: Seq<char>)
    ensures
        forall|x: u8|
            #[trigger] enc_kv((k, ValueView::U8(x))) == text(k) + number(0, 4) + number(
                x as int,
                1,
            ),
        forall|x: i8|
            #[trigger] enc_kv((k, ValueView::I8(x))) == text(k) + number(1, 4) + number(
                (x as u8) as int,
                1,
            ),
        forall|x: u16|
            #[trigger] enc_kv((k, ValueView::U16(x))) == text(k) + number(2, 4) + number(
                x as int,
                2,
            ),
        forall|x: i16|
            #[trigger] enc_kv((k, ValueView::I16(x))) == text(k) + number(3, 4) + number(
                (x as u16) as int,
                2,
            ),
        forall|x: u32|
            #[trigger] enc_kv((k, ValueView::U32(x))) == text(k) + number(4, 4) + number(
                x as int,
                4,
            ),
        forall|x: i32|
            #[trigger] enc_kv((k, ValueView::I32(x))) == text(k) + number(5, 4) + number(
                (x as u32) as int,
                4,
            ),
        forall|x: u32|
            #[trigger] enc_kv((k, ValueView::F32(x))) == text(k) + number(6, 4) + number(
                x as int,
                4,
            ),
        forall|x: u64|
            #[trigger] enc_kv((k, ValueView::U64(x))) == text(k) + number(10, 4) + number(
                x as int,
                8,
            ),
        forall|x: i64|
            #[trigger] enc_kv((k, ValueView::I64(x))) == text(k) + number(11, 4) + number(
                (x as u64) as int,
                8,
            ),
        forall|x: u64|
            #[trigger] enc_kv((k, ValueView::F64(x))) == text(k) + number(12, 4) + number(
                x as int,
                8,
            ),
        forall|x: bool|
            #[trigger] enc_kv((k, ValueView::Bool(x))) == text(k) + number(7, 4) + truth(x),
        forall|x: Seq<char>|
            #[trigger] enc_kv((k, ValueView::Str(x))) == text(k) + number(8, 4) + text(x),
{
    texts(k);
    assert forall|x: Seq<char>| #[trigger]
        enc_kv((k, ValueView::Str(x))) == text(k) + number(8, 4) + text(x) by {
        texts(x);
        numbers_are_little_endian(8, 4);
    }
    assert forall|x: bool| #[trigger] enc_kv((k, ValueView::Bool(x))) == text(k) + number(7, 4)
        + truth(x) by {
        numbers_are_little_endian(7, 4);
    }
    assert forall|x: u8| #[trigger] enc_kv((k, ValueView::U8(x))) == text(k) + number(0, 4)
        + number(x as int, 1) by {
        numbers_are_little_endian(0, 4);
        numbers_are_little_endian(x as nat, 1);
    }
    assert forall|x: i8| #[trigger] enc_kv((k, ValueView::I8(x))) == text(k) + number(1, 4)
        + number((x as u8) as int, 1) by {
        numbers_are_little_endian(1, 4);
        numbers_are_little_endian((x as u8) as nat, 1);
    }
    assert forall|x: u16| #[trigger] enc_kv((k, ValueView::U16(x))) == text(k) + number(2, 4)
        + number(x as int, 2) by {
        numbers_are_little_endian(2, 4);
        numbers_are_little_endian(x as nat, 2);
    }
    assert forall|x: i16| #[trigger] enc_kv((k, ValueView::I16(x))) == text(k) + number(3, 4)
        + number((x as u16) as int, 2) by {
        numbers_are_little_endian(3, 4);
        numbers_are_little_endian((x as u16) as nat, 2);
    }
    assert forall|x: u32| #[trigger] enc_kv((k, ValueView::U32(x))) == text(k) + number(4, 4)
        + number(x as int, 4) by {
        numbers_are_little_endian(4, 4);
        numbers_are_little_endian(x as nat, 4);
    }
    assert forall|x: i32| #[trigger] enc_kv((k, ValueView::I32(x))) == text(k) + number(5, 4)
        + number((x as u32) as int, 4) by {
        numbers_are_little_endian(5, 4);
        numbers_are_little_endian((x as u32) as nat, 4);
    }
    assert forall|x: u32| #[trigger] enc_kv((k, ValueView::F32(x))) == text(k) + number(6, 4)
        + number(x as int, 4) by {
        numbers_are_little_endian(6, 4);
        numbers_are_little_endian(x as nat, 4);
    }
    assert forall|x: u64| #[trigger] enc_kv((k, ValueView::U64(x))) == text(k) + number(10, 4)
        + number(x as int, 8) by {
        numbers_are_little_endian(10, 4);
        numbers_are_little_endian(x as nat, 8);
    }
    assert forall|x: i64| #[trigger] enc_kv((k, ValueView::I64(x))) == text(k) + number(11, 4)
        + number((x as u64) as int, 8) by {
        numbers_are_little_endian(11, 4);
        numbers_are_little_endian((x as u64) as nat, 8);
    }
    assert forall|x: u64| #[trigger] enc_kv((k, ValueView::F64(x))) == text(k) + number(12, 4)
        + number(x as int, 8) by {
        numbers_are_little_endian(12, 4);
        numbers_are_little_endian(x as nat, 8);
    }
}

/// Items one after the other.
proof fn items_follow<T: Field>(ms: Seq<T::Model>, f: spec_fn(T::Model) -> Seq<u8>)
    requires
        forall|m: T::Model| #[trigger] T::enc(m) == f(m),
    ensures
        enc_all::<T>(ms) == ms.map_values(f).flatten(),
    decreases ms.len(),
{
    if ms.len() > 0 {
        let rest = ms.drop_first();
        items_follow::<T>(rest, f);
        assert(ms.map_values(f).drop_first() =~= rest.map_values(f));
        assert(ms.map_values(f)[0] == T::enc(ms[0]));
    } else {
        assert(ms.map_values(f) =~= Seq::empty());
    }
}

/// Each array stands as its key, the id of arrays, the id of its elements, their
/// number, and the elements one after the other.
pub proof fn arrays_are_laid_out(k: Seq<char>)
    ensures
        forall|s: Seq<u8>|
            #[trigger] enc_kv((k, ValueView::ArrU8(s))) == text(k) + number(9, 4) + (number(0, 4)
                + (number(s.len() as int, 8) + s.map_values(|x: u8| number(x as int, 1)).flatten())),
        forall|s: Seq<i8>|
            #[trigger] enc_kv((k, ValueView::ArrI8(s))) == text(k) + number(9, 4) + (number(1, 4)
                + (number(s.len() as int, 8) + s.map_values(|x: i8| number((x as u8) as int, 1)).flatten())),
        forall|s: Seq<u16>|
            #[trigger] enc_kv((k, ValueView::ArrU16(s))) == text(k) + number(9, 4) + (number(2, 4)
                + (number(s.len() as int, 8) + s.map_values(|x: u16| number(x as int, 2)).flatten())),
        forall|s: Seq<i16>|
            #[trigger] enc_kv((k, ValueView::ArrI16(s))) == text(k) + number(9, 4) + (number(3, 4)
                + (number(s.len() as int, 8) + s.map_values(|x: i16| number((x as u16) as int, 2)).flatten())),
        forall|s: Seq<u32>|
            #[trigger] enc_kv((k, ValueView::ArrU32(s))) == text(k) + number(9, 4) + (number(4, 4)
                + (number(s.len() as int, 8) + s.map_values(|x: u32| number(x as int, 4)).flatten())),
        forall|s: Seq<i32>|
            #[trigger] enc_kv((k, ValueView::ArrI32(s))) == text(k) + number(9, 4) + (number(5, 4)
                + (number(s.len() as int, 8) + s.map_values(|x: i32| number((x as u32) as int, 4)).flatten())),
        forall|s: Seq<u32>|
            #[trigger] enc_kv((k, ValueView::ArrF32(s))) == text(k) + number(9, 4) + (number(6, 4)
                + (number(s.len() as int, 8) + s.map_values(|x: u32| number(x as int, 4)).flatten())),
        forall|s: Seq<u64>|
            #[trigger] enc_kv((k, ValueView::ArrU64(s))) == text(k) + number(9, 4) + (number(10, 4)
                + (number(s.len() as int, 8) + s.map_values(|x: u64| number(x as int, 8)).flatten())),
        forall|s: Seq<i64>|
            #[trigger] enc_kv((k, ValueView::ArrI64(s))) == text(k) + number(9, 4) + (number(11, 4)
                + (number(s.len() as int, 8) + s.map_values(|x: i64| number((x as u64) as int, 8)).flatten())),
        forall|s: Seq<u64>|
            #[trigger] enc_kv((k, ValueView::ArrF64(s))) == text(k) + number(9, 4) + (number(12, 4)
                + (number(s.len() as int, 8) + s.map_values(|x: u64| number(x as int, 8)).flatten())),
        forall|s: Seq<bool>|
            #[trigger] enc_kv((k, ValueView::ArrBool(s))) == text(k) + number(9, 4) + (number(7, 4)
                + (number(s.len() as int, 8) + s.map_values(|x: bool| truth(x)).flatten())),
        forall|s: Seq<Seq<char>>|
            #[trigger] enc_kv((k, ValueView::ArrStr(s))) == text(k) + number(9, 4) + (number(8, 4)
                + (number(s.len() as int, 8) + s.map_values(|x: Seq<char>| text(x)).flatten())),
{
    texts(k);
    numbers_are_little_endian(9, 4);
    assert forall|s: Seq<u8>| #[trigger]
        enc_kv((k, ValueView::ArrU8(s))) == text(k) + number(9, 4) + (number(0, 4) + (number(
            s.len() as int,
            8,
        ) + s.map_values(|x: u8| number(x as int, 1)).flatten())) by {
        let f = |x: u8| number(x as int, 1);
        numbers_are_little_endian(0, 4);
        numbers_are_little_endian(s.len(), 8);
        assert forall|x: u8| #[trigger] <u8 as Field>::enc(x) == f(x) by {
            numbers_are_little_endian(x as nat, 1);
        }
        items_follow::<u8>(s, f);
    }
    assert forall|s: Seq<i8>| #[trigger]
        enc_kv((k, ValueView::ArrI8(s))) == text(k) + number(9, 4) + (number(1, 4) + (number(
            s.len() as int,
            8,
        ) + s.map_values(|x: i8| number((x as u8) as int, 1)).flatten())) by {
        let f = |x: i8| number((x as u8) as int, 1);
        numbers_are_little_endian(1, 4);
        numbers_are_little_endian(s.len(), 8);
        assert forall|x: i8| #[trigger] <i8 as Field>::enc(x) == f(x) by {
            numbers_are_little_endian((x as u8) as nat, 1);
        }
        items_follow::<i8>(s, f);
    }
    assert forall|s: Seq<u16>| #[trigger]
        enc_kv((k, ValueView::ArrU16(s))) == text(k) + number(9, 4) + (number(2, 4) + (number(
            s.len() as int,
            8,
        ) + s.map_values(|x: u16| number(x as int, 2)).flatten())) by {
        let f = |x: u16| number(x as int, 2);
        numbers_are_little_endian(2, 4);
        numbers_are_little_endian(s.len(), 8);
        assert forall|x: u16| #[trigger] <u16 as Field>::enc(x) == f(x) by {
            numbers_are_little_endian(x as nat, 2);
        }
        items_follow::<u16>(s, f);
    }
    assert forall|s: Seq<i16>| #[trigger]
        enc_kv((k, ValueView::ArrI16(s))) == text(k) + number(9, 4) + (number(3, 4) + (number(
            s.len() as int,
            8,
        ) + s.map_values(|x: i16| number((x as u16) as int, 2)).flatten())) by {
        let f = |x: i16| number((x as u16) as int, 2);
        numbers_are_little_endian(3, 4);
        numbers_are_little_endian(s.len(), 8);
        assert forall|x: i16| #[trigger] <i16 as Field>::enc(x) == f(x) by {
            numbers_are_little_endian((x as u16) as nat, 2);
        }
        items_follow::<i16>(s, f);
    }
    assert forall|s: Seq<u32>| #[trigger]
        enc_kv((k, ValueView::ArrU32(s))) == text(k) + number(9, 4) + (number(4, 4) + (number(
            s.len() as int,
            8,
        ) + s.map_values(|x: u32| number(x as int, 4)).flatten())) by {
        let f = |x: u32| number(x as int, 4);
        numbers_are_little_endian(4, 4);
        numbers_are_little_endian(s.len(), 8);
        assert forall|x: u32| #[trigger] <u32 as Field>::enc(x) == f(x) by {
            numbers_are_little_endian(x as nat, 4);
        }
        items_follow::<u32>(s, f);
    }
    assert forall|s: Seq<i32>| #[trigger]
        enc_kv((k, ValueView::ArrI32(s))) == text(k) + number(9, 4) + (number(5, 4) + (number(
            s.len() as int,
            8,
        ) + s.map_values(|x: i32| number((x as u32) as int, 4)).flatten())) by {
        let f = |x: i32| number((x as u32) as int, 4);
        numbers_are_little_endian(5, 4);
        numbers_are_little_endian(s.len(), 8);
        assert forall|x: i32| #[trigger] <i32 as Field>::enc(x) == f(x) by {
            numbers_are_little_endian((x as u32) as nat, 4);
        }
        items_follow::<i32>(s, f);
    }
    assert forall|s: Seq<u32>| #[trigger]
        enc_kv((k, ValueView::ArrF32(s))) == text(k) + number(9, 4) + (number(6, 4) + (number(
            s.len() as int,
            8,
        ) + s.map_values(|x: u32| number(x as int, 4)).flatten())) by {
        let f = |x: u32| number(x as int, 4);
        numbers_are_little_endian(6, 4);
        numbers_are_little_endian(s.len(), 8);
        assert forall|x: u32| #[trigger] <u32 as Field>::enc(x) == f(x) by {
            numbers_are_little_endian(x as nat, 4);
        }
        items_follow::<u32>(s, f);
    }
    assert forall|s: Seq<u64>| #[trigger]
        enc_kv((k, ValueView::ArrU64(s))) == text(k) + number(9, 4) + (number(10, 4) + (number(
            s.len() as int,
            8,
        ) + s.map_values(|x: u64| number(x as int, 8)).flatten())) by {
        let f = |x: u64| number(x as int, 8);
        numbers_are_little_endian(10, 4);
        numbers_are_little_endian(s.len(), 8);
        assert forall|x: u64| #[trigger] <u64 as Field>::enc(x) == f(x) by {
            numbers_are_little_endian(x as nat, 8);
        }
        items_follow::<u64>(s, f);
    }
    assert forall|s: Seq<i64>| #[trigger]
        enc_kv((k, ValueView::ArrI64(s))) == text(k) + number(9, 4) + (number(11, 4) + (number(
            s.len() as int,
            8,
        ) + s.map_values(|x: i64| number((x as u64) as int, 8)).flatten())) by {
        let f = |x: i64| number((x as u64) as int, 8);
        numbers_are_little_endian(11, 4);
        numbers_are_little_endian(s.len(), 8);
        assert forall|x: i64| #[trigger] <i64 as Field>::enc(x) == f(x) by {
            numbers_are_little_endian((x as u64) as nat, 8);
        }
        items_follow::<i64>(s, f);
    }
    assert forall|s: Seq<u64>| #[trigger]
        enc_kv((k, ValueView::ArrF64(s))) == text(k) + number(9, 4) + (number(12, 4) + (number(
            s.len() as int,
            8,
        ) + s.map_values(|x: u64| number(x as int, 8)).flatten())) by {
        let f = |x: u64| number(x as int, 8);
        numbers_are_little_endian(12, 4);
        numbers_are_little_endian(s.len(), 8);
        assert forall|x: u64| #[trigger] <u64 as Field>::enc(x) == f(x) by {
            numbers_are_little_endian(x as nat, 8);
        }
        items_follow::<u64>(s, f);
    }
    assert forall|s: Seq<bool>| #[trigger]
        enc_kv((k, ValueView::ArrBool(s))) == text(k) + number(9, 4) + (number(7, 4) + (number(
            s.len() as int,
            8,
        ) + s.map_values(|x: bool| truth(x)).flatten())) by {
        let f = |x: bool| truth(x);
        numbers_are_little_endian(7, 4);
        numbers_are_little_endian(s.len(), 8);
        assert forall|x: bool| #[trigger] <bool as Field>::enc(x) == f(x) by {
        }
        items_follow::<bool>(s, f);
    }
    assert forall|s: Seq<Seq<char>>| #[trigger]
        enc_kv((k, ValueView::ArrStr(s))) == text(k) + number(9, 4) + (number(8, 4) + (number(
            s.len() as int,
            8,
        ) + s.map_values(|x: Seq<char>| text(x)).flatten())) by {
        let f = |x: Seq<char>| text(x);
        numbers_are_little_endian(8, 4);
        numbers_are_little_endian(s.len(), 8);
        assert forall|x: Seq<char>| #[trigger] <String as Field>::enc(x) == f(x) by {
            texts(x);
        }
        items_follow::<String>(s, f);
    }
}

/// A value of no known type is refused, and so is the type of no value.
pub proof fn unknown_types_are_refused(b: Seq<u8>, pos: int, t: u32)
    requires
        t == 8 || t == 9 || t > 12,
    ensures
        dec_scalar(b, pos, t) == Err::<(ValueView, int), _>(ErrorView::BadScalarType),
{
}

/// An array of arrays, or of elements of no known type, is refused with its key.
pub proof fn nested_arrays_are_refused(b: Seq<u8>, pos: int, key: Seq<char>, t: u32)
    requires
        0 <= pos,
        pos + 12 <= b.len(),
        b.subrange(pos, pos + 4) == number(t as int, 4),
        t == 9 || t > 12,
    ensures
        dec_array(b, pos, key) == Err::<(ValueView, int), _>(
            ErrorView::UnsupportedArrayElement { elem: t, key },
        ),
{
    numbers_are_little_endian(t as nat, 4);
    pow256_values();
    le_round_trip(t as nat, 4);
}

/// Every byte but zero reads as true.
pub proof fn bytes_read_as_truth(b: Seq<u8>, pos: int)
    requires
        0 <= pos < b.len(),
    ensures
        dec_scalar(b, pos, 7) == Ok::<_, ErrorView>((ValueView::Bool(b[pos] != 0), pos + 1)),
{
    let s = b.subrange(pos, pos + 1);
    assert(s[0] == b[pos]);
    assert(s.drop_first().len() == 0);
    reveal_with_fuel(le_value, 2);
    assert(le_value(s) == b[pos] as nat);
}

/// An entry stands as the tensor's name, the number of its dimensions in four
/// bytes, each of them in eight, its type in four and its offset in eight.
pub proof fn entries_are_laid_out(name: Seq<char>, dims: Seq<u64>, dtype: u32, offset: u64)
    ensures
        enc_tensor(name, dims, dtype, offset) == text(name) + number(dims.len() as int, 4)
            + dims.map_values(|d: u64| number(d as int, 8)).flatten() + number(dtype as int, 4)
            + number(offset as int, 8),
{
    let f = |d: u64| number(d as int, 8);
    texts(name);
    numbers_are_little_endian(dims.len(), 4);
    numbers_are_little_endian(dtype as nat, 4);
    numbers_are_little_endian(offset as nat, 8);
    assert forall|x: u64| #[trigger] <u64 as Field>::enc(x) == f(x) by {
        numbers_are_little_endian(x as nat, 8);
    }
    items_follow::<u64>(dims, f);
}

/// What a tensor's entry says: the shape with the fastest dimension first, the
/// type as declared, and an offset behind the tensors before it: the first one
/// stands at zero, and each next one at the next multiple of 32 behind the data of
/// the one before.
pub proof fn tensors_are_entered(tensors: Seq<InfoView>, i: int)
    requires
        0 <= i < tensors.len(),
        data_size(tensors) <= u64::MAX,
    ensures
        ({
            let e = entries(tensors)[i];
            let t = tensors[i];
            &&& ReaderTensor::enc(e) == enc_tensor(t.name, e.dims, t.dtype, e.offset)
            &&& e.dims.len() == t.shape.len()
            &&& forall|j: int|
                0 <= j < t.shape.len() ==> #[trigger] e.dims[j] == t.shape[t.shape.len() - 1 - j]
            &&& e.offset % 32 == 0
            &&& i == 0 ==> e.offset == 0
            &&& i > 0 ==> {
                let end = entries(tensors)[i - 1].offset + tensors[i - 1].nbytes;
                end <= e.offset < end + 32
            }
        }),
{
    data_sizes(tensors, i);
    assert(entries(tensors)[i] == entry(tensors, i));
    if i > 0 {
        data_sizes(tensors, i - 1);
        assert(entries(tensors)[i - 1] == entry(tensors, i - 1));
        assert(tensors.take(i).drop_last() =~= tensors.take(i - 1));
        assert(tensors.take(i).last() == tensors[i - 1]);
        padded_bounds(tensors[i - 1].nbytes as nat, 32);
    } else {
        assert(tensors.take(0).len() == 0);
    }
}

/// The data of the first tensors are no larger than those of all.
proof fn data_sizes(tensors: Seq<InfoView>, i: int)
    requires
        0 <= i <= tensors.len(),
    ensures
        data_size(tensors.take(i)) <= data_size(tensors),
        data_size(tensors.take(i)) % 32 == 0,
    decreases tensors.len(), i,
{
    if i < tensors.len() {
        data_sizes(tensors.drop_last(), i);
        assert(tensors.drop_last().take(i) =~= tensors.take(i));
    } else {
        assert(tensors.take(i) =~= tensors);
        if i > 0 {
            data_sizes(tensors.drop_last(), i - 1);
            assert(tensors.drop_last().take(i - 1) =~= tensors.drop_last());
            padded_bounds(tensors.last().nbytes as nat, 32);
        }
    }
}

/// A file starts with `GGUF` and the version, three, in four bytes; the numbers of
/// tensors and of metadata pairs in eight bytes each; the pairs; the entries; and
/// zeros up to the next multiple of 32.
pub proof fn files_are_laid_out(kvs: Seq<(Seq<char>, ValueView)>, tensors: Seq<InfoView>)
    ensures
        ({
            let body = seq![71u8, 71u8, 85u8, 70u8, 3u8, 0u8, 0u8, 0u8] + number(
                tensors.len() as int,
                8,
            ) + number(kvs.len() as int, 8) + kvs.map_values(
                |kv: (Seq<char>, ValueView)| enc_kv(kv),
            ).flatten() + entries(tensors).map_values(
                |e: TensorView| ReaderTensor::enc(e),
            ).flatten();
            let b = header_bytes(kvs, tensors);
            &&& body.len() <= b.len() < body.len() + 32
            &&& b.len() % 32 == 0
            &&& b.take(body.len() as int) == body
            &&& forall|i: int| body.len() <= i < b.len() ==> #[trigger] b[i] == 0
        }),
{
    let f = |kv: (Seq<char>, ValueView)| enc_kv(kv);
    let g = |e: TensorView| ReaderTensor::enc(e);
    items_follow::<(String, Value)>(kvs, f);
    items_follow::<ReaderTensor>(entries(tensors), g);
    numbers_are_little_endian(tensors.len(), 8);
    numbers_are_little_endian(kvs.len(), 8);
    reveal_with_fuel(le_bytes, 5);
    assert(le_bytes(GGUF_MAGIC as nat, 4) =~= seq![71u8, 71u8, 85u8, 70u8]);
    assert(le_bytes(3, 4) =~= seq![3u8, 0u8, 0u8, 0u8]);
    let body = seq![71u8, 71u8, 85u8, 70u8, 3u8, 0u8, 0u8, 0u8] + number(tensors.len() as int, 8)
        + number(kvs.len() as int, 8) + kvs.map_values(f).flatten() + entries(tensors).map_values(
        g,
    ).flatten();
    assert(header_body(kvs, tensors) =~= body);
    padded_bounds(body.len(), 32);
}

/// What does not start so is refused.
pub proof fn other_files_are_refused(b: Seq<u8>)
    ensures
        b.len() >= 4 && b.take(4) != seq![71u8, 71u8, 85u8, 70u8] ==> dec_file(b) == Err::<
            ReaderView,
            _,
        >(ErrorView::NotGguf),
        b.len() >= 8 && b.take(4) == seq![71u8, 71u8, 85u8, 70u8] && b.subrange(4, 8)
            != seq![3u8, 0u8, 0u8, 0u8] ==> (dec_file(b) matches Err(
            ErrorView::UnsupportedVersion(v),
        ) && number(v as int, 4) == b.subrange(4, 8)),
{
    reveal_with_fuel(le_bytes, 5);
    assert(le_bytes(GGUF_MAGIC as nat, 4) =~= seq![71u8, 71u8, 85u8, 70u8]);
    assert(le_bytes(3, 4) =~= seq![3u8, 0u8, 0u8, 0u8]);
    if b.len() >= 4 {
        assert(b.take(4) =~= b.subrange(0, 4));
        read_numbers(b.subrange(0, 4));
    }
    if b.len() >= 8 {
        read_numbers(b.subrange(4, 8));
        numbers_are_read(b, 4, 4);
        le_value_bound(b.subrange(4, 8));
        pow256_values();
        if b.take(4) == seq![71u8, 71u8, 85u8, 70u8] {
            le_round_trip(GGUF_MAGIC as nat, 4);
        }
    }
}

/// The legacy codes of one tensor type and one file type are those of the current
/// ones, and every other code stays.
pub proof fn legacy_codes_move(code: u32)
    ensures
        migrated(TYPE_CODE_MIGRATIONS@, code) == (if code == 42 {
            43
        } else {
            code
        }),
        migrated(FTYPE_MIGRATIONS@, code) == (if code == 28 {
            29
        } else {
            code
        }),
{
    reveal_with_fuel(migrated, 2);
    assert(TYPE_CODE_MIGRATIONS@[0] == (42u32, 43u32));
    assert(FTYPE_MIGRATIONS@[0] == (28u32, 29u32));
    assert(TYPE_CODE_MIGRATIONS@.drop_first().len() == 0);
    assert(FTYPE_MIGRATIONS@.drop_first().len() == 0);
}

/// The product of a shape in any number of steps.
pub open spec fn elements(dims: Seq<u64>) -> int
    decreases dims.len(),
{
    if dims.len() == 0 {
        1
    } else {
        dims[0] * elements(dims.drop_first())
    }
}

/// One number more.
proof fn elements_push(dims: Seq<u64>, d: u64)
    ensures
        elements(dims.push(d)) == elements(dims) * d,
    decreases dims.len(),
{
    if dims.len() == 0 {
        assert(dims.push(d).drop_first() =~= Seq::empty());
        assert(elements(Seq::<u64>::empty()) == 1);
    } else {
        elements_push(dims.drop_first(), d);
        assert(dims.push(d).drop_first() =~= dims.drop_first().push(d));
        let a = dims[0] as int;
        let b = elements(dims.drop_first());
        let c = d as int;
        assert(a * (b * c) == (a * b) * c) by (nonlinear_arith);
    }
}

/// The number of a shape's elements is the product of its dimensions.
pub proof fn shapes_multiply(dims: Seq<u64>)
    ensures
        product(dims) == elements(dims),
    decreases dims.len(),
{
    if dims.len() > 0 {
        shapes_multiply(dims.drop_last());
        elements_push(dims.drop_last(), dims.last());
        assert(dims.drop_last().push(dims.last()) =~= dims);
    }
}

/// The size of a tensor by its type: four bytes for each element, or two, or so
/// many bytes for each block of elements. Other types are refused.
pub proof fn types_have_sizes(name: Seq<char>, dims: Seq<u64>, dtype: u32, offset: u64)
    requires
        product_fits(dims),
        elements(dims) * 4 <= u64::MAX,
    ensures
        ({
            let r = tensor_of(name, dims, dtype, offset);
            let n = elements(dims);
            &&& r is Ok <==> dtype == 0 || dtype == 1 || dtype == 2 || dtype == 8 || dtype == 30
                || dtype == 42 || dtype == 43
            &&& r matches Ok(t) ==> t.name == name && t.dims == dims && t.dtype_orig == dtype
                && t.offset == offset && t.nbytes == (if dtype == 0 {
                n * 4
            } else if dtype == 1 || dtype == 30 {
                n * 2
            } else if dtype == 2 {
                n / 32 * 18
            } else if dtype == 8 {
                n / 32 * 34
            } else {
                n / 16 * 10
            })
            &&& r is Ok ==> r->Ok_0.dtype == (if dtype == 42 {
                43
            } else {
                dtype
            })
            &&& r is Err ==> r->Err_0 == (ErrorView::UnsupportedTensorType {
                resolved: dtype,
                stored: dtype,
                name,
            })
        }),
{
    legacy_codes_move(dtype);
    shapes_multiply(dims);
    let n = product(dims);
    assert(n / 1 == n);
    assert(n / 32 * 18 <= n * 4 && n / 32 * 34 <= n * 4 && n / 16 * 10 <= n * 4);
}

/// The blocks of the tensor types: so many elements in so many bytes.
pub proof fn blocks_have_sizes(t: u32)
    ensures
        type_sizes_spec(t) == (if t == 0 {
            Some((1u64, 4u64))
        } else if t == 1 || t == 30 {
            Some((1u64, 2u64))
        } else if t == 2 {
            Some((32u64, 18u64))
        } else if t == 8 {
            Some((32u64, 34u64))
        } else if t == 43 {
            Some((16u64, 10u64))
        } else {
            None
        }),
{
}

} // verus!
