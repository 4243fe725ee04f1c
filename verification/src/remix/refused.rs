//! Laws of which tensors of a checkpoint are taken, and of how many
//! parameters they make.

use crate::gguf::layout::{elements, shapes_multiply};
use crate::json::JsonView;
use crate::remix::config::{config_refusal, missing_topology, topology_of};
use crate::remix::emit::{plain_refusal, quant_refusal, PermsView};
use crate::remix::names::filtered_name;
use crate::remix::plan::{
    belongs_to, consumed_by, full_plan, packed_size, place_of, quant_plan, standard_plan,
    standard_plans, stored_f32, taken, PlannedView, Refusal, Source, Topology,
};
use crate::remix::run::{countable, param_count, planned_infos, prepare_refusal};
use crate::safetensors::{Dtype, RefView, ShardSet};
use crate::text::{has_part, has_suffix, without_suffix};
use vstd::prelude::*;

verus! {

/// Whether a tensor's data stand within its shard.
pub open spec fn within_shard(t: RefView, shards: ShardSet) -> bool {
    t.shard < shards.shards@.len() && t.start + t.len <= shards.shards@[t.shard as int]@.len()
}

/// Whether an order has the length that quantized weights ask for.
pub open spec fn order_fits(src: Source, in_f: int, out_f: int, perms: PermsView) -> bool {
    &&& src is QuantVRowQkv ==> perms.qkv.len() == out_f
    &&& src is QuantVRowZ ==> perms.rows.len() == out_f
    &&& src is QuantVCol ==> perms.rows.len() == in_f
}

/// Quantized weights are taken where their words are a matrix of eight inputs each; where
/// their scales are one for each 128 inputs and each output; where the data of both stand within
/// their shards and are just so many; where inputs come in whole groups; and where the order
/// fits. They are refused for the first of these that fails.
pub proof fn quantized_weights_are_taken(
    src: Source,
    q: RefView,
    s: RefView,
    shards: ShardSet,
    perms: PermsView,
)
    requires
        q.shape.len() >= 2,
        q.shape[0] * 8 <= usize::MAX,
    ensures
        ({
            let r = quant_refusal(src, q, s, shards, perms);
            let in_f = q.shape[0] * 8;
            let out_f = q.shape[1] as int;
            let scaled = s.shape.len() == 2 && s.shape[0] == in_f / 128 && s.shape[1] == out_f;
            let there = within_shard(q, shards) && within_shard(s, shards);
            let whole = (q.len / 4) as int == q.shape[0] * out_f && (s.len / 2) as int == in_f / 128
                * out_f && q.shape[0] * 8 * out_f <= usize::MAX && (out_f != 0 ==> in_f % 128 == 0)
                && (out_f == 0 && src is QuantVCol ==> in_f % 16 == 0) && (out_f == 0 && !(
            src is QuantVCol) ==> in_f % 32 == 0);
            &&& !scaled ==> r == Some(Refusal::ScalesShape)
            &&& scaled && !there ==> r == Some(Refusal::Truncated)
            &&& scaled && there && !whole ==> r == Some(Refusal::BadShape)
            &&& scaled && there && whole && !order_fits(src, in_f, out_f, perms) ==> r == Some(
                Refusal::PermLength,
            )
            &&& scaled && there && whole && order_fits(src, in_f, out_f, perms) ==> r is None
        }),
{
    if within_shard(q, shards) {
        assert(shards.data(q).len() == q.len);
    }
    if within_shard(s, shards) {
        assert(shards.data(s).len() == s.len);
    }
}

/// Words that are no matrix are refused.
pub proof fn words_are_a_matrix(
    src: Source,
    q: RefView,
    s: RefView,
    shards: ShardSet,
    perms: PermsView,
)
    requires
        q.shape.len() < 2 || q.shape[0] * 8 > usize::MAX,
    ensures
        quant_refusal(src, q, s, shards, perms) == Some(Refusal::BadShape),
{
}

/// Any other tensor is refused where its data do not stand within its shard. What stays in its
/// order as F16 is taken at any size; all else where it gives the elements that its plan asks for.
pub proof fn other_tensors_are_taken(
    p: PlannedView,
    t: RefView,
    shards: ShardSet,
    perms: PermsView,
)
    ensures
        ({
            let r = plain_refusal(p, t, shards, perms);
            let n = (t.len / 2) as int;
            let there = within_shard(t, shards);
            &&& !there ==> r == Some(Refusal::Truncated)
            &&& there && p.src == Source::Bf16ToF16 ==> r is None
            &&& there && p.src == Source::F32PlusOne ==> (r is None <==> n * 4 == p.nbytes)
            &&& there && p.src == (Source::F32Plain { reordered: false }) ==> (r is None <==> n * 4
                == p.nbytes)
            &&& there && (p.src == (Source::F32Plain { reordered: true }) || p.src
                == Source::F32NegExp) ==> (r is None <==> perms.heads.len() <= n
                && perms.heads.len() * 4 == p.nbytes)
            &&& there && r is Some ==> r == Some(Refusal::BadShape)
        }),
{
    if within_shard(t, shards) {
        assert(shards.data(t).len() == t.len);
    }
}

/// Each tensor adds the product of its shape to the number of parameters.
pub proof fn parameters_are_counted(plan: Seq<PlannedView>, p: PlannedView)
    ensures
        param_count(plan.push(p)) == param_count(plan) + elements(p.shape),
        param_count(Seq::empty()) == 0,
{
    assert(plan.push(p).drop_last() =~= plan);
    shapes_multiply(p.shape);
}

/// A tensor is declared as it is planned.
pub proof fn planned_tensors_are_declared(plan: Seq<PlannedView>, i: int)
    requires
        0 <= i < plan.len(),
    ensures
        planned_infos(plan).len() == plan.len(),
        planned_infos(plan)[i].name == plan[i].gguf_name,
        planned_infos(plan)[i].shape == plan[i].shape,
        planned_infos(plan)[i].dtype == plan[i].dtype,
        planned_infos(plan)[i].nbytes == plan[i].nbytes,
{
}

/// A checkpoint is refused for its configuration, for a missing parameter, for a tensor, or for
/// more parameters than can be counted, in this order.
pub proof fn checkpoints_are_refused(root: JsonView, refs: Seq<(Seq<char>, RefView)>)
    ensures
        ({
            let r = prepare_refusal(root, refs);
            let config = config_refusal(root);
            let missing = missing_topology(root);
            let plan = full_plan(taken(refs), topology_of(root));
            &&& config is Some ==> r == config
            &&& config is None && missing is Some ==> r == Some(
                (Refusal::MissingParameter, missing->0),
            )
            &&& config is None && missing is None && plan is Err ==> r == Some(plan->Err_0)
            &&& config is None && missing is None && plan is Ok && param_count(plan->Ok_0) > i64::MAX
                / 7 ==> r == Some((Refusal::TooManyParameters, ""@))
            &&& config is None && missing is None && plan is Ok && countable(plan->Ok_0)
                ==> r is None
        }),
{
}

/// The first tensor of a name.
proof fn first_of_name(tensors: Seq<(Seq<char>, RefView)>, i: int, from: int)
    requires
        0 <= from <= i < tensors.len(),
        forall|k: int| from <= k < i ==> (#[trigger] tensors[k]).0 != tensors[i].0,
    ensures
        place_of(tensors, tensors[i].0, from) == Some(i),
    decreases i - from,
{
    if from < i {
        assert(tensors[from].0 != tensors[i].0);
        first_of_name(tensors, i, from + 1);
    }
}

/// A tensor of quantized weights: the words, the zeros, the scales and the order of the groups.
pub open spec fn is_part_of(name: Seq<char>, base: Seq<char>) -> bool {
    name == base + ".qweight"@ || name == base + ".qzeros"@ || name == base + ".scales"@ || name
        == base + ".g_idx"@
}

/// Where there are words, the other parts of the same weights belong to them.
pub proof fn parts_belong_to_their_words(
    tensors: Seq<(Seq<char>, RefView)>,
    base: Seq<char>,
    q: int,
    i: int,
)
    requires
        0 <= q < tensors.len(),
        0 <= i < tensors.len(),
        tensors[q].0 == base + ".qweight"@,
        is_part_of(tensors[i].0, base),
        forall|k: int| 0 <= k < i ==> (#[trigger] tensors[k]).0 != tensors[i].0,
    ensures
        consumed_by(tensors, tensors.len() as int, i),
{
    first_of_name(tensors, i, 0);
    let name = tensors[q].0;
    let n = ".qweight"@.len();
    assert(name.subrange(name.len() - n, name.len() as int) =~= ".qweight"@);
    assert(has_suffix(name, ".qweight"@));
    assert(name.take(name.len() - n) =~= base);
    assert(without_suffix(name, ".qweight"@) == Some(base));
    assert(belongs_to(tensors, base, i));
}

/// What a place is found for.
proof fn found_by_name(tensors: Seq<(Seq<char>, RefView)>, name: Seq<char>, from: int)
    ensures
        place_of(tensors, name, from) matches Some(i) ==> 0 <= i < tensors.len() && tensors[i].0
            == name,
    decreases tensors.len() - from,
{
    if 0 <= from < tensors.len() && tensors[from].0 != name {
        found_by_name(tensors, name, from + 1);
    }
}

/// No other tensor belongs to quantized weights.
pub proof fn other_tensors_belong_to_none(tensors: Seq<(Seq<char>, RefView)>, i: int)
    requires
        consumed_by(tensors, tensors.len() as int, i),
    ensures
        exists|q: int, base: Seq<char>|
            0 <= q < tensors.len() && (#[trigger] tensors[q]).0 == base + ".qweight"@
                && #[trigger] is_part_of(tensors[i].0, base),
{
    let q = choose|q: int|
        0 <= q < tensors.len() && has_suffix(#[trigger] tensors[q].0, ".qweight"@) && belongs_to(
            tensors,
            without_suffix(tensors[q].0, ".qweight"@)->0,
            i,
        );
    let name = tensors[q].0;
    let base = without_suffix(name, ".qweight"@)->0;
    assert(name =~= base + ".qweight"@) by {
        let n = ".qweight"@.len();
        assert(name.subrange(name.len() - n, name.len() as int) == ".qweight"@);
        assert(name =~= name.take(name.len() - n) + name.subrange(
            name.len() - n,
            name.len() as int,
        ));
    }
    found_by_name(tensors, base + ".qweight"@, 0);
    found_by_name(tensors, base + ".qzeros"@, 0);
    found_by_name(tensors, base + ".scales"@, 0);
    found_by_name(tensors, base + ".g_idx"@, 0);
    assert(is_part_of(tensors[i].0, base));
}

/// Tensors are taken in their order, under the names under which they are taken.
pub proof fn tensors_are_taken_in_order(
    tensors: Seq<(Seq<char>, RefView)>,
    t: (Seq<char>, RefView),
)
    ensures
        taken(tensors.push(t)) == (match filtered_name(t.0) {
            Some(name) => taken(tensors).push((name, t.1)),
            None => taken(tensors),
        }),
        taken(Seq::empty()).len() == 0,
{
    assert(tensors.push(t).drop_last() =~= tensors);
}

/// Quantized weights are refused without scales, in other words than of 32 bits, or with a shape
/// that is no matrix, in this order; one with a name for it takes so many bytes as its blocks: of
/// sixteen inputs in ten bytes for the output of linear attention, else of 32 in 18.
pub proof fn quantized_weights_are_planned(
    tensors: Seq<(Seq<char>, RefView)>,
    base: Seq<char>,
    i: int,
    n_layer: usize,
)
    requires
        0 <= i < tensors.len(),
        tensors[i].0 == base + ".qweight"@,
    ensures
        ({
            let r = quant_plan(tensors, i, n_layer);
            let t = tensors[i].1;
            let scales = place_of(tensors, base + ".scales"@, 0);
            let matrix = t.shape.len() >= 2 && t.shape[0] * 8 <= usize::MAX;
            let out = has_suffix(base, ".linear_attn.out_proj"@) && !has_suffix(
                base,
                ".linear_attn.in_proj_qkv"@,
            ) && !has_suffix(base, ".linear_attn.in_proj_z"@);
            &&& scales is None ==> r == Err::<PlannedView, _>((Refusal::MissingScales, base))
            &&& scales is Some && t.dtype != Dtype::I32 ==> r == Err::<PlannedView, _>(
                (Refusal::NotI32, tensors[i].0),
            )
            &&& scales is Some && t.dtype == Dtype::I32 && !matrix ==> r == Err::<PlannedView, _>(
                (Refusal::BadShape, tensors[i].0),
            )
            &&& r matches Ok(p) ==> {
                let outputs = t.shape[1] as int;
                let inputs = t.shape[0] * 8;
                &&& p.dtype == (if out {
                    43u32
                } else {
                    2u32
                })
                &&& p.nbytes == (if out {
                    packed_size(inputs, outputs, 16, 10) as u64
                } else {
                    packed_size(inputs, outputs, 32, 18) as u64
                })
            }
        }),
{
    let name = tensors[i].0;
    let n = ".qweight"@.len();
    assert(name.subrange(name.len() - n, name.len() as int) =~= ".qweight"@);
    assert(has_suffix(name, ".qweight"@));
    assert(name.take(name.len() - n) =~= base);
    assert(without_suffix(name, ".qweight"@) == Some(base));
}

/// What belongs to no quantized weights is refused unless it is BF16.
pub proof fn other_tensors_are_bf16(
    before: Seq<PlannedView>,
    tensors: Seq<(Seq<char>, RefView)>,
    i: int,
    topo: Topology,
)
    requires
        0 <= i < tensors.len(),
        !consumed_by(tensors, tensors.len() as int, i),
    ensures
        tensors[i].1.dtype != Dtype::BF16 ==> standard_plans(before, tensors, i, topo) == Err::<
            Seq<PlannedView>,
            _,
        >((Refusal::NotBf16, tensors[i].0)),
        tensors[i].1.dtype == Dtype::BF16 ==> (match standard_plan(
            tensors[i].0,
            i,
            tensors[i].1,
            topo,
        ) {
            Ok(p) => standard_plans(before, tensors, i, topo) == standard_plans(
                before.push(p),
                tensors,
                i + 1,
                topo,
            ),
            Err(e) => standard_plans(before, tensors, i, topo) == Err::<Seq<PlannedView>, _>(e),
        }),
{
}

/// A tensor is stored in F32 where it has one dimension at most, is a norm or the convolution, or is
/// no weight and no part of an adapter.
pub proof fn some_tensors_stay_wide(name: Seq<char>, n: nat)
    ensures
        n <= 1 ==> stored_f32(name, n),
        has_suffix(name, "_norm.weight"@) ==> stored_f32(name, n),
        has_part(name, ".ssm_conv1d."@) ==> stored_f32(name, n),
        n > 1 && !has_suffix(name, "_norm.weight"@) && !has_part(name, ".ssm_conv1d."@) ==> (
        stored_f32(name, n) <==> !has_suffix(name, ".weight"@) && !has_suffix(name, ".lora_a"@)
            && !has_suffix(name, ".lora_b"@)),
{
}

/// Packed weights take so many bytes for each block of each output.
pub proof fn blocks_take_bytes(in_f: int, out_f: int, block: int, bytes: int)
    ensures
        packed_size(in_f, out_f, block, bytes) == out_f * (in_f / block) * bytes,
{
    let n = in_f / block;
    assert(n * bytes * out_f == out_f * n * bytes) by (nonlinear_arith);
}

} // verus!
