//! Laws of what a migration moves: the file type, and the type codes of tensors.

use crate::gguf::format::TensorView;
use crate::gguf::layout::legacy_codes_move;
use crate::gguf::ValueView;
use crate::migrate::{last_ftype, migrated_entry, migrated_infos, moved_tensors};
use vstd::prelude::*;

verus! {

/// The one legacy file type becomes the current one, whichever integer holds it; every other
/// file type and every other entry stays. A file type that is no such integer is refused.
pub proof fn file_types_move(key: Seq<char>, v: ValueView)
    ensures
        key != "general.ftype"@ ==> migrated_entry((key, v)) == Some((key, v)),
        key == "general.ftype"@ ==> (match v {
            ValueView::U32(x) => migrated_entry((key, v)) == Some(
                (
                    key,
                    ValueView::U32(
                        if x == 28 {
                            29
                        } else {
                            x
                        },
                    ),
                ),
            ),
            ValueView::I32(x) => migrated_entry((key, v)) == Some(
                (
                    key,
                    ValueView::I32(
                        if x == 28 {
                            29
                        } else {
                            x
                        },
                    ),
                ),
            ),
            _ => migrated_entry((key, v)) is None,
        }),
{
    if let ValueView::U32(x) = v {
        legacy_codes_move(x);
    }
    if let ValueView::I32(x) = v {
        legacy_codes_move(x as u32);
        assert((x as u32) as i32 == x && (x as u32 == 28 <==> x == 28) && 29u32 as i32 == 29)
            by (bit_vector);
    }
}

/// The file type that is told of is the last one, under its current id.
pub proof fn the_last_file_type_is_told(
    kvs: Seq<(Seq<char>, ValueView)>,
    kv: (Seq<char>, ValueView),
)
    ensures
        kv.0 != "general.ftype"@ ==> last_ftype(kvs.push(kv)) == last_ftype(kvs),
        kv.0 == "general.ftype"@ ==> (match kv.1 {
            ValueView::U32(x) => last_ftype(kvs.push(kv)) == Some(
                if x == 28 {
                    29u32
                } else {
                    x
                },
            ),
            ValueView::I32(x) => last_ftype(kvs.push(kv)) == Some(
                if x == 28 {
                    29u32
                } else {
                    x as u32
                },
            ),
            _ => last_ftype(kvs.push(kv)) == last_ftype(kvs),
        }),
        last_ftype(Seq::empty()) is None,
{
    assert(kvs.push(kv).drop_last() =~= kvs);
    if let ValueView::U32(x) = kv.1 {
        legacy_codes_move(x);
    }
    if let ValueView::I32(x) = kv.1 {
        legacy_codes_move(x as u32);
        assert(x as u32 == 28 <==> x == 28) by (bit_vector);
    }
}

/// The tensors that are told of are those whose code changes, in their order.
pub proof fn moved_tensors_are_told(tensors: Seq<TensorView>, t: TensorView)
    ensures
        t.dtype_orig != t.dtype ==> moved_tensors(tensors.push(t)) == moved_tensors(tensors).push(
            (t.name, t.dtype_orig, t.dtype),
        ),
        t.dtype_orig == t.dtype ==> moved_tensors(tensors.push(t)) == moved_tensors(tensors),
        moved_tensors(Seq::empty()).len() == 0,
{
    assert(tensors.push(t).drop_last() =~= tensors);
}

/// Each tensor is declared with its name, its shape, its size and its current code.
pub proof fn tensors_are_declared_anew(tensors: Seq<TensorView>, i: int)
    requires
        0 <= i < tensors.len(),
    ensures
        ({
            let info = migrated_infos(tensors)[i];
            let t = tensors[i];
            &&& migrated_infos(tensors).len() == tensors.len()
            &&& info.name == t.name
            &&& info.dtype == t.dtype
            &&& info.nbytes == t.nbytes
            &&& info.shape.len() == t.dims.len()
            &&& forall|j: int|
                0 <= j < t.dims.len() ==> #[trigger] info.shape[j] == t.dims[t.dims.len() - 1 - j]
        }),
{
}

} // verus!
