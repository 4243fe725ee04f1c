//! Laws of what a shard's header says: element types, places and shapes, and
//! the numbers in the data.

use crate::gguf::layout::{number, numbers_are_little_endian};
use crate::json::{json_text, JsonView};
use crate::le::{le_bytes, le_round_trip, le_value, pow256_values};
use crate::safetensors::{
    all_refs, by_name, dtype_named, header_refs, inserted, precedes, shard_refs, tensor_ref,
    u16_values, u32_values, Dtype, RefView, ShardErrorView,
};
use vstd::prelude::*;

verus! {

/// Element types have the names of their kind and width, and no other names.
pub proof fn element_types_are_named(s: Seq<char>)
    ensures
        dtype_named(s) == Some(Dtype::BF16) <==> s == "BF16"@,
        dtype_named(s) == Some(Dtype::F16) <==> s == "F16"@,
        dtype_named(s) == Some(Dtype::F32) <==> s == "F32"@,
        dtype_named(s) == Some(Dtype::I32) <==> s == "I32"@,
{
    reveal_strlit("BF16");
    reveal_strlit("F16");
    reveal_strlit("F32");
    reveal_strlit("I32");
    assert("BF16"@.len() == 4);
    assert("F16"@.len() == 3 && "F32"@.len() == 3 && "I32"@.len() == 3);
    assert("F16"@[1] == '1' && "F32"@[1] == '3');
    assert("F16"@[0] == 'F' && "F32"@[0] == 'F' && "I32"@[0] == 'I');
}

/// A tensor's data stand between its two offsets, counted from where the data of
/// its shard start, and its dimensions are those that its entry lists.
pub proof fn tensors_are_placed(
    shard: usize,
    data_start: usize,
    meta: JsonView,
    dtype: Dtype,
    from: u64,
    to: u64,
)
    requires
        meta.at("dtype"@).as_str() is Some,
        dtype_named(meta.at("dtype"@).as_str()->0) == Some(dtype),
        meta.at("data_offsets"@) is Arr,
        meta.at("data_offsets"@)->Arr_0.len() >= 2,
        meta.at("data_offsets"@)->Arr_0[0].as_unsigned() == Some(from),
        meta.at("data_offsets"@)->Arr_0[1].as_unsigned() == Some(to),
        from <= to <= usize::MAX,
        data_start + from <= usize::MAX,
    ensures
        ({
            let r = tensor_ref(shard, data_start, meta);
            &&& r is Ok
            &&& r->Ok_0.shard == shard
            &&& r->Ok_0.dtype == dtype
            &&& r->Ok_0.start == data_start + from
            &&& r->Ok_0.start + r->Ok_0.len == data_start + to
            &&& meta.at("shape"@) matches JsonView::Arr(dims) ==> r->Ok_0.shape.len() == dims.len()
                && forall|i: int|
                0 <= i < dims.len() ==> #[trigger] r->Ok_0.shape[i] == (
                match dims[i].as_unsigned() {
                    Some(d) => d as usize,
                    None => 0,
                })
        }),
{
}

/// A tensor is refused for its element type, for offsets that are missing, or for
/// offsets that are not two or do not ascend, in this order.
pub proof fn tensors_that_are_refused(shard: usize, data_start: usize, meta: JsonView)
    ensures
        ({
            let r = tensor_ref(shard, data_start, meta);
            let named = match meta.at("dtype"@) {
                JsonView::Str(s) => s,
                _ => Seq::empty(),
            };
            let known = named == "BF16"@ || named == "F16"@ || named == "F32"@ || named == "I32"@;
            &&& !known <==> r == Err::<RefView, _>(ShardErrorView::UnsupportedDtype(named))
            &&& known && !(meta.at("data_offsets"@) is Arr) ==> r == Err::<RefView, _>(
                ShardErrorView::MissingOffsets,
            )
            &&& known && meta.at("data_offsets"@) is Arr && r is Err ==> r == Err::<RefView, _>(
                ShardErrorView::BadOffsets,
            )
            &&& known && meta.at("data_offsets"@) is Arr && meta.at("data_offsets"@)->Arr_0.len()
                < 2 ==> r is Err
        }),
{
}

/// The data of a shard start behind its header, whose length stands in the first
/// eight bytes.
pub proof fn data_start_behind_the_header(
    before: Seq<(Seq<char>, RefView)>,
    shard: usize,
    b: Seq<u8>,
    n: usize,
)
    requires
        b.len() >= 8 + n,
        b.len() <= usize::MAX,
        b.take(8) == number(n as int, 8),
    ensures
        match json_text(b.subrange(8, 8 + n)) {
            Some(header) => shard_refs(before, shard, b) == header_refs(
                before,
                shard,
                (8 + n) as usize,
                header,
            ),
            None => shard_refs(before, shard, b) is Err,
        },
{
    numbers_are_little_endian(n as nat, 8);
    pow256_values();
    le_round_trip(n as nat, 8);
    assert(b.take(8) == le_bytes(n as nat, 8));
}

/// A name comes before another where it has the smaller character at the first
/// place at which they differ, or ends there.
pub proof fn names_are_ordered(a: Seq<char>, b: Seq<char>, k: int)
    requires
        0 <= k <= a.len(),
        k < b.len(),
        a.take(k) == b.take(k),
        k < a.len() ==> a[k] < b[k],
    ensures
        precedes(a, b),
    decreases k,
{
    if k > 0 {
        assert(a.take(k)[0] == a[0]);
        assert(b.take(k)[0] == b[0]);
        assert(a[0] == b[0]);
        assert(a.drop_first().take(k - 1) =~= a.take(k).drop_first());
        assert(b.drop_first().take(k - 1) =~= b.take(k).drop_first());
        names_are_ordered(a.drop_first(), b.drop_first(), k - 1);
    }
}

/// The numbers in the data are little-endian, one behind the other.
pub proof fn data_hold_numbers(b: Seq<u8>, i: int)
    ensures
        u16_values(b).len() == b.len() / 2,
        u32_values(b).len() == b.len() / 4,
        0 <= i < b.len() / 2 ==> u16_values(b)[i] == b[2 * i] + 256 * b[2 * i + 1],
        0 <= i < b.len() / 4 ==> u32_values(b)[i] == b[4 * i] + 256 * b[4 * i + 1] + 65536 * b[4 * i
            + 2] + 16777216 * b[4 * i + 3],
{
    reveal_with_fuel(le_value, 5);
    if 0 <= i < b.len() / 2 {
        let s = b.subrange(2 * i, 2 * i + 2);
        assert(s.drop_first().drop_first().len() == 0);
        assert(s.drop_first()[0] == b[2 * i + 1]);
    }
    if 0 <= i < b.len() / 4 {
        let s = b.subrange(4 * i, 4 * i + 4);
        assert(s.drop_first()[0] == b[4 * i + 1]);
        assert(s.drop_first().drop_first()[0] == b[4 * i + 2]);
        assert(s.drop_first().drop_first().drop_first()[0] == b[4 * i + 3]);
        assert(s.drop_first().drop_first().drop_first().drop_first().len() == 0);
    }
}

/// Insertion brings in no other name.
proof fn inserted_names(list: Seq<(Seq<char>, JsonView)>, name: Seq<char>, value: JsonView)
    ensures
        forall|i: int|
            0 <= i < inserted(list, name, value).len() ==> (#[trigger] inserted(
                list,
                name,
                value,
            )[i]).0 == name || exists|k: int|
                0 <= k < list.len() && (#[trigger] list[k]).0 == inserted(list, name, value)[i].0,
    decreases list.len(),
{
    let r = inserted(list, name, value);
    if list.len() == 0 || precedes(list.last().0, name) {
        assert forall|i: int| 0 <= i < r.len() implies (#[trigger] r[i]).0 == name || exists|k: int|
            0 <= k < list.len() && (#[trigger] list[k]).0 == r[i].0 by {
            if i < list.len() {
                assert(list[i].0 == r[i].0);
            }
        }
    } else if list.last().0 == name {
        assert forall|i: int| 0 <= i < r.len() implies (#[trigger] r[i]).0 == name || exists|k: int|
            0 <= k < list.len() && (#[trigger] list[k]).0 == r[i].0 by {
            if i < list.len() - 1 {
                assert(list[i].0 == r[i].0);
            }
        }
    } else {
        let rest = list.drop_last();
        inserted_names(rest, name, value);
        let q = inserted(rest, name, value);
        assert forall|i: int| 0 <= i < r.len() implies (#[trigger] r[i]).0 == name || exists|k: int|
            0 <= k < list.len() && (#[trigger] list[k]).0 == r[i].0 by {
            if i < q.len() {
                assert(r[i] == q[i]);
                if q[i].0 != name {
                    let k = choose|k: int| 0 <= k < rest.len() && (#[trigger] rest[k]).0 == q[i].0;
                    assert(list[k].0 == r[i].0);
                }
            } else {
                assert(list[list.len() - 1].0 == r[i].0);
            }
        }
    }
}

/// The metadata of a header is no tensor.
pub proof fn metadata_is_no_tensor(entries: Seq<(Seq<char>, JsonView)>)
    ensures
        forall|i: int|
            0 <= i < by_name(entries).len() ==> (#[trigger] by_name(entries)[i]).0
                != "__metadata__"@,
    decreases entries.len(),
{
    if entries.len() > 0 {
        let rest = by_name(entries.drop_last());
        metadata_is_no_tensor(entries.drop_last());
        let e = entries.last();
        if e.0 != "__metadata__"@ {
            inserted_names(rest, e.0, e.1);
            let r = inserted(rest, e.0, e.1);
            assert forall|i: int| 0 <= i < r.len() implies (#[trigger] r[i]).0
                != "__metadata__"@ by {
                if r[i].0 != e.0 {
                    let k = choose|k: int| 0 <= k < rest.len() && (#[trigger] rest[k]).0 == r[i].0;
                    assert(rest[k].0 != "__metadata__"@);
                }
            }
        }
    }
}

/// The tensors of shards come in the order of the shards, each with the number of its own. The
/// first shard that is refused is why all are.
pub proof fn shards_come_in_order(
    before: Seq<(Seq<char>, RefView)>,
    shards: Seq<Seq<u8>>,
    i: int,
)
    ensures
        i >= shards.len() ==> all_refs(before, shards, i) == Ok::<_, ShardErrorView>(before),
        i < shards.len() ==> (match shard_refs(before, i as usize, shards[i]) {
            Ok(refs) => all_refs(before, shards, i) == all_refs(refs, shards, i + 1),
            Err(e) => all_refs(before, shards, i) == Err::<Seq<(Seq<char>, RefView)>, _>(e),
        }),
{
}

} // verus!
