//! What holds of a recast as a whole.

use crate::fp::bf16_half;
use crate::gguf::format::{dec_file, ErrorView, Field, TensorView};
use crate::gguf::laws::{
    as_declared, data_fits, file_reads_back, read_is_writable, readable, resolved_codes_stay, sized,
};
use crate::gguf::reader::{tensor_data_spec, ReaderTensor};
use crate::gguf::writer::{entries, entry, InfoView};
use crate::gguf::{migrated, Value, TYPE_CODE_MIGRATIONS, T_BF16, T_F16, T_F32};
use crate::ieee::convert::DOUBLE_ONE;
use crate::recast::plan::{
    bf16_count, matrix_has_rows, measured_entry, nothing_is_zero, Kind, Tier,
};
use crate::recast::policy::any_matches;
use crate::recast::range::{scaled_casts, within_range_casts};
use crate::recast::run::{recast_infos, stored_type, task_entries, Task};
use crate::recast::turned::turned_casts;
use crate::recast::values::{
    absmax_of, any_infinite, band_of, cast_values, half_bytes, halves_of, Band,
};
use crate::recast::wht::floor_log2_bounds;
use crate::safetensors::u16_values;
use vstd::prelude::*;

verus! {

/// Where nothing stops the tensors from `k` on, none is stopped.
proof fn no_error(task: Task, k: int)
    requires
        0 <= k,
        task.error(k) is None,
    ensures
        forall|i: int| k <= i < task.source.tensors.len() ==> #[trigger] task.step(i) is Ok,
    decreases task.source.tensors.len() - k,
{
    if k < task.source.tensors.len() {
        no_error(task, k + 1);
    }
}

/// Where nothing stops the data of the tensors from `k` on, none are stopped.
proof fn no_data_error(task: Task, k: int)
    requires
        0 <= k,
        task.data_error(k) is None,
    ensures
        forall|i: int| k <= i < task.source.tensors.len() ==> #[trigger] task.data(i) is Ok,
    decreases task.source.tensors.len() - k,
{
    if k < task.source.tensors.len() {
        no_data_error(task, k + 1);
    }
}

/// The first tier never gives an infinite element: what it casts fits.
pub proof fn first_tier_never_overflows(task: Task, i: int)
    requires
        task.tier == Tier::T1,
        task.error(0) is None,
        0 <= i < task.source.tensors.len(),
    ensures
        task.data(i) matches Err(e) ==> e is Gguf,
{
    no_error(task, 0);
    assert(task.step(i) is Ok);
    let t = task.source.tensors[i];
    let kind = task.entries()[i].kind;
    if kind is CastF16 {
        let elems = u16_values(tensor_data_spec(task.bytes, task.source, t)->Ok_0);
        assert(band_of(0) == Band::A);
        within_range_casts(elems, t.dims);
    }
}

/// The second and third tiers never give an infinite element, whether or not
/// scales are forced: what does not fit is scaled so that it does.
pub proof fn scaling_tiers_never_overflow(task: Task, i: int)
    requires
        task.tier == Tier::T2 || task.tier == Tier::T3,
        task.error(0) is None,
        0 <= i < task.source.tensors.len(),
    ensures
        task.data(i) matches Err(e) ==> e is Gguf,
{
    no_error(task, 0);
    assert(task.step(i) is Ok);
    let t = task.source.tensors[i];
    let kind = task.entries()[i].kind;
    if kind is CastF16 {
        let elems = u16_values(tensor_data_spec(task.bytes, task.source, t)->Ok_0);
        if absmax_of(elems) == 0 {
            assert(band_of(0) == Band::A);
            within_range_casts(elems, t.dims);
        } else {
            scaled_casts(elems, t.dims, task.force_rescale);
        }
    }
}

/// What the last tier casts has no infinite element.
proof fn last_tier_casts(dims: Seq<u64>, elems: Seq<u16>, force_rescale: bool)
    requires
        absmax_of(elems) != 0,
        dims.len() == 2 ==> 0 < dims[0] <= usize::MAX,
    ensures
        measured_entry(dims, elems, absmax_of(elems), Tier::T5, force_rescale).kind matches
            Kind::CastF16 { scale, hadamard_d } && !any_infinite(
            halves_of(cast_values(elems, dims, scale, hadamard_d as nat)),
        ),
{
    if dims.len() != 2 {
        scaled_casts(elems, dims, force_rescale);
    } else {
        floor_log2_bounds(dims[0] as nat);
        turned_casts(elems, dims, force_rescale);
    }
}

/// The last tier never gives an infinite element, whether or not scales are
/// forced: what does not fit after its rows are transformed is scaled so that
/// it does.
pub proof fn last_tier_never_overflows(task: Task, i: int)
    requires
        task.tier == Tier::T5,
        task.error(0) is None,
        task.bytes.len() <= usize::MAX,
        0 <= i < task.source.tensors.len(),
        sized(task.source.tensors[i]),
    ensures
        task.data(i) matches Err(e) ==> e is Gguf,
{
    no_error(task, 0);
    assert(task.step(i) is Ok);
    let t = task.source.tensors[i];
    let kind = task.entries()[i].kind;
    if kind is CastF16 {
        let elems = u16_values(tensor_data_spec(task.bytes, task.source, t)->Ok_0);
        if absmax_of(elems) == 0 {
            assert(band_of(0) == Band::A);
            within_range_casts(elems, t.dims);
        } else {
            assert(t.dims.len() == 2 ==> 0 < t.dims[0] <= usize::MAX) by {
                nothing_is_zero();
                bf16_count(t);
                if elems.len() == 0 {
                    assert(elems =~= Seq::empty());
                }
                if t.dims.len() == 2 {
                    matrix_has_rows(t.dims);
                }
            }
            last_tier_casts(t.dims, elems, task.force_rescale);
        }
    }
}

/// A tensor that is not cast keeps its data.
pub proof fn uncast_data_stay(task: Task, i: int)
    requires
        0 <= i < task.source.tensors.len(),
        !(task.entries()[i].kind is CastF16),
        task.data(i) is Ok,
    ensures
        tensor_data_spec(task.bytes, task.source, task.source.tensors[i]) is Ok,
        task.data(i)->Ok_0 == tensor_data_spec(
            task.bytes,
            task.source,
            task.source.tensors[i],
        )->Ok_0,
{
}

/// A tensor that is neither BF16 nor looked at is not cast, and neither is one
/// that the policy preserves.
pub proof fn preserved_tensors_stay(task: Task, i: int)
    requires
        task.error(0) is None,
        0 <= i < task.source.tensors.len(),
        task.source.tensors[i].dtype != T_BF16 || any_matches(
            task.patterns,
            task.source.tensors[i].name,
        ),
    ensures
        !(task.entries()[i].kind is CastF16),
        task.entries()[i].out_dtype == task.source.tensors[i].dtype,
{
    no_error(task, 0);
    assert(task.step(i) is Ok);
}

/// The scales that are recorded for the rows of a matrix are not applied: its
/// elements are only rounded.
pub proof fn recorded_scales_are_not_applied(task: Task, i: int)
    requires
        task.tier == Tier::T4,
        task.error(0) is None,
        0 <= i < task.source.tensors.len(),
        task.source.tensors[i].dims.len() == 2,
        task.entries()[i].kind is CastF16,
    ensures
        task.entries()[i].kind == (Kind::CastF16 { scale: DOUBLE_ONE, hadamard_d: 0 }),
        task.data(i) matches Ok(data) ==> data == half_bytes(
            u16_values(
                tensor_data_spec(task.bytes, task.source, task.source.tensors[i])->Ok_0,
            ).map_values(|b: u16| bf16_half(b)),
        ),
{
    no_error(task, 0);
    assert(task.step(i) is Ok);
    let elems = u16_values(
        tensor_data_spec(task.bytes, task.source, task.source.tensors[i])->Ok_0,
    );
    assert(halves_of(cast_values(elems, task.source.tensors[i].dims, DOUBLE_ONE, 0))
        =~= elems.map_values(|b: u16| bf16_half(b)));
}

/// Which types plans speak of.
proof fn plan_types(task: Task, i: int)
    requires
        task.step(i) is Ok,
        0 <= i < task.source.tensors.len(),
    ensures
        ({
            let t = task.source.tensors[i];
            let kind = task.entries()[i].kind;
            &&& kind is CastF16 ==> t.dtype == T_BF16
            &&& kind is Bf16Passthrough ==> t.dtype == T_BF16
            &&& kind is F32Passthrough ==> t.dtype == T_F32
        }),
{
}

/// A tensor can be declared with the type that it is stored in.
proof fn stored_is_readable(t: TensorView, kind: Kind)
    requires
        ReaderTensor::valid(t),
        kind is CastF16 ==> t.dtype == T_BF16,
        kind is Bf16Passthrough ==> t.dtype == T_BF16,
        kind is F32Passthrough ==> t.dtype == T_F32,
    ensures
        readable(
            InfoView {
                name: t.name,
                shape: t.dims.reverse(),
                dtype: stored_type(kind, t.dtype),
                nbytes: t.nbytes,
            },
        ),
        migrated(TYPE_CODE_MIGRATIONS@, stored_type(kind, t.dtype)) == stored_type(kind, t.dtype),
{
    resolved_codes_stay(t.dtype_orig);
    resolved_codes_stay(T_F16);
    assert(t.dims.reverse().reverse() =~= t.dims);
    assert(migrated(TYPE_CODE_MIGRATIONS@, T_F16) == T_F16) by {
        reveal_with_fuel(migrated, 4);
    }
}

/// Whether a tensor is another one in the type that it is stored in.
pub open spec fn same_but_type(after: TensorView, before: TensorView, kind: Kind) -> bool {
    &&& after.name == before.name
    &&& after.dims == before.dims
    &&& after.nbytes == before.nbytes
    &&& after.dtype == stored_type(kind, before.dtype)
}

/// What a recast writes of one tensor fits together, and can be read back.
proof fn recast_tensor_fits(task: Task, i: int)
    requires
        0 <= i < task.source.tensors.len(),
        task.step(i) is Ok,
        task.data(i) is Ok,
        ReaderTensor::valid(task.source.tensors[i]),
    ensures
        ({
            let infos = recast_infos(task.source.tensors, task.entries());
            &&& readable(infos[i])
            &&& task.data(i)->Ok_0.len() == infos[i].nbytes
            &&& same_but_type(
                entry(infos, i),
                task.source.tensors[i],
                task.entries()[i].kind,
            )
        }),
{
    let t = task.source.tensors[i];
    plan_types(task, i);
    stored_is_readable(t, task.entries()[i].kind);
    assert(t.dims.reverse().reverse() =~= t.dims);
    if task.entries()[i].kind is CastF16 {
        bf16_count(t);
    }
}

/// A recast file reads back with the metadata of the recast, and with the
/// tensors of the source: names and shapes are the same, the types are those
/// of the plan, and the data are the cast ones or, where nothing is cast, those
/// of the source.
pub proof fn recast_reads_back(task: Task, arch: Seq<char>)
    requires
        dec_file(task.bytes) == Ok::<_, ErrorView>(task.source),
        task.error(0) is None,
        task.file(arch) is Ok,
        task_entries(task, arch)->Ok_0.len() <= u64::MAX,
        forall|k: int|
            0 <= k < task_entries(task, arch)->Ok_0.len() ==> <(String, Value)>::valid(
                #[trigger] task_entries(task, arch)->Ok_0[k],
            ),
    ensures
        ({
            let file = task.file(arch)->Ok_0;
            let back = dec_file(file)->Ok_0;
            &&& dec_file(file) is Ok
            &&& back.kvs == task_entries(task, arch)->Ok_0
            &&& back.tensors.len() == task.source.tensors.len()
            &&& forall|i: int|
                0 <= i < back.tensors.len() ==> same_but_type(
                    #[trigger] back.tensors[i],
                    task.source.tensors[i],
                    task.entries()[i].kind,
                ) && tensor_data_spec(file, back, back.tensors[i]) == Ok::<
                    _,
                    ErrorView,
                >(task.data(i)->Ok_0)
        }),
{
    let kvs = task_entries(task, arch)->Ok_0;
    let infos = recast_infos(task.source.tensors, task.entries());
    let datas = task.datas();
    no_error(task, 0);
    no_data_error(task, 0);
    read_is_writable(task.bytes);
    assert forall|i: int| 0 <= i < infos.len() implies readable(#[trigger] infos[i]) && datas[i].len()
        == infos[i].nbytes && same_but_type(
        entries(infos)[i],
        task.source.tensors[i],
        task.entries()[i].kind,
    ) by {
        assert(task.step(i) is Ok);
        assert(task.data(i) is Ok);
        assert(ReaderTensor::valid(task.source.tensors[i]));
        recast_tensor_fits(task, i);
    }
    assert(data_fits(infos, datas));
    file_reads_back(kvs, infos, datas);
    let back = as_declared(kvs, infos);
    assert forall|i: int| 0 <= i < back.tensors.len() implies same_but_type(
        #[trigger] back.tensors[i],
        task.source.tensors[i],
        task.entries()[i].kind,
    ) && tensor_data_spec(task.file(arch)->Ok_0, back, back.tensors[i]) == Ok::<_, ErrorView>(
        task.data(i)->Ok_0,
    ) by {
        assert(readable(infos[i]));
        assert(back.tensors[i] == entries(infos)[i]);
        assert(datas[i] == task.data(i)->Ok_0);
    }
}

} // verus!
