//! Laws of the converted file: nothing is left out, and it reads back.

use crate::gguf::format::{
    dec_file, product, product_fits, tensor_bytes as stored_bytes, ErrorView, Field,
};
use crate::gguf::laws::{
    as_declared, data_section, declared_data, file_bytes, header_reads_back, readable,
};
use crate::gguf::reader::tensor_data_spec;
use crate::gguf::writer::{entries, entry, InfoView};
use crate::gguf::{migrated, Value, ValueView, TYPE_CODE_MIGRATIONS};
use crate::remix::emit::whole_groups;
use crate::remix::plan::{
    consumed_by, full_plan, packed_size, quant_plan, quant_plans, standard_plan, standard_plans,
    PlannedView, Source, Topology,
};
use crate::remix::run::{planned_infos, start_refusal, Job};
use crate::safetensors::{Dtype, RefView};
use crate::text::has_suffix;
use vstd::prelude::*;

verus! {

/// Whether a plan is the one for the tensor that it names.
pub open spec fn plans_its_tensor(
    p: PlannedView,
    tensors: Seq<(Seq<char>, RefView)>,
    topo: Topology,
) -> bool {
    let i = p.tensor as int;
    &&& i < tensors.len()
    &&& if p.src.quantized() {
        &&& has_suffix(tensors[i].0, ".qweight"@)
        &&& quant_plan(tensors, i, topo.n_layer) matches Ok(q) && q == p
    } else {
        standard_plan(tensors[i].0, i, tensors[i].1, topo) matches Ok(q) && q == p
    }
}

/// Whether all plans are those for the tensors that they name.
pub open spec fn all_plan_theirs(
    plan: Seq<PlannedView>,
    tensors: Seq<(Seq<char>, RefView)>,
    topo: Topology,
) -> bool {
    forall|k: int| 0 <= k < plan.len() ==> plans_its_tensor(#[trigger] plan[k], tensors, topo)
}

/// Whether a tensor has a plan.
pub open spec fn has_plan(plan: Seq<PlannedView>, i: int) -> bool {
    exists|k: int| 0 <= k < plan.len() && (#[trigger] plan[k]).tensor == i
}

/// The plans of quantized weights are theirs, and keep those before them.
proof fn quant_plans_theirs(
    before: Seq<PlannedView>,
    tensors: Seq<(Seq<char>, RefView)>,
    i: int,
    topo: Topology,
)
    requires
        0 <= i <= tensors.len() <= usize::MAX,
        all_plan_theirs(before, tensors, topo),
    ensures
        quant_plans(before, tensors, i, topo.n_layer) matches Ok(plan) ==> all_plan_theirs(
            plan,
            tensors,
            topo,
        ) && before.len() <= plan.len() && plan.take(before.len() as int) == before,
    decreases tensors.len() - i,
{
    if i >= tensors.len() {
        assert(before.take(before.len() as int) =~= before);
    } else if !has_suffix(tensors[i].0, ".qweight"@) {
        quant_plans_theirs(before, tensors, i + 1, topo);
    } else if let Ok(p) = quant_plan(tensors, i, topo.n_layer) {
        let next = before.push(p);
        assert forall|k: int| 0 <= k < next.len() implies plans_its_tensor(
            #[trigger] next[k],
            tensors,
            topo,
        ) by {
            if k < before.len() {
                assert(next[k] == before[k]);
            }
        }
        quant_plans_theirs(next, tensors, i + 1, topo);
        if let Ok(plan) = quant_plans(next, tensors, i + 1, topo.n_layer) {
            assert(plan.take(before.len() as int) =~= plan.take(next.len() as int).take(
                before.len() as int,
            ));
            assert(next.take(before.len() as int) =~= before);
        }
    }
}

/// The plans of the other tensors are theirs, keep those before them, and
/// leave out no tensor that is not part of quantized weights.
proof fn standard_plans_theirs(
    before: Seq<PlannedView>,
    tensors: Seq<(Seq<char>, RefView)>,
    i: int,
    topo: Topology,
)
    requires
        0 <= i <= tensors.len() <= usize::MAX,
        all_plan_theirs(before, tensors, topo),
    ensures
        standard_plans(before, tensors, i, topo) matches Ok(plan) ==> {
            &&& all_plan_theirs(plan, tensors, topo)
            &&& before.len() <= plan.len()
            &&& plan.take(before.len() as int) == before
            &&& forall|j: int|
                i <= j < tensors.len() && !#[trigger] consumed_by(
                    tensors,
                    tensors.len() as int,
                    j,
                ) ==> has_plan(plan, j)
        },
    decreases tensors.len() - i,
{
    if i >= tensors.len() {
        assert(before.take(before.len() as int) =~= before);
    } else if consumed_by(tensors, tensors.len() as int, i) {
        standard_plans_theirs(before, tensors, i + 1, topo);
    } else if tensors[i].1.dtype == Dtype::BF16 {
        if let Ok(p) = standard_plan(tensors[i].0, i, tensors[i].1, topo) {
            let next = before.push(p);
            assert forall|k: int| 0 <= k < next.len() implies plans_its_tensor(
                #[trigger] next[k],
                tensors,
                topo,
            ) by {
                if k < before.len() {
                    assert(next[k] == before[k]);
                }
            }
            standard_plans_theirs(next, tensors, i + 1, topo);
            if let Ok(plan) = standard_plans(next, tensors, i + 1, topo) {
                assert(plan.take(before.len() as int) =~= plan.take(next.len() as int).take(
                    before.len() as int,
                ));
                assert(next.take(before.len() as int) =~= before);
                assert(plan[before.len() as int] == plan.take(next.len() as int)[before.len() as int]);
                assert(plan[before.len() as int].tensor == i);
                assert(has_plan(plan, i));
            }
        }
    }
}

/// No tensor that is taken is lost: each is part of quantized weights or has a
/// plan of its own. And every plan is the one for the tensor that it names.
pub proof fn no_tensor_is_lost(tensors: Seq<(Seq<char>, RefView)>, topo: Topology)
    requires
        tensors.len() <= usize::MAX,
        full_plan(tensors, topo) is Ok,
    ensures
        all_plan_theirs(full_plan(tensors, topo)->Ok_0, tensors, topo),
        forall|i: int|
            0 <= i < tensors.len() ==> #[trigger] consumed_by(tensors, tensors.len() as int, i)
                || has_plan(full_plan(tensors, topo)->Ok_0, i),
{
    quant_plans_theirs(Seq::empty(), tensors, 0, topo);
    let quants = quant_plans(Seq::empty(), tensors, 0, topo.n_layer)->Ok_0;
    standard_plans_theirs(quants, tensors, 0, topo);
}

/// What a planned tensor is declared as.
pub open spec fn planned_info(p: PlannedView) -> InfoView {
    InfoView { name: p.gguf_name, shape: p.shape, dtype: p.dtype, nbytes: p.nbytes }
}

/// The product of dimensions from either end.
proof fn product_reversed(s: Seq<u64>)
    ensures
        product(s.reverse()) == product(s),
    decreases s.len(),
{
    if s.len() > 0 {
        let rest = s.drop_first();
        product_reversed(rest);
        assert(s.reverse().drop_last() =~= rest.reverse());
        product_first(s);
        assert((s[0] as nat) * product(rest) == product(rest) * (s[0] as nat)) by (nonlinear_arith);
    }
}

/// The product with the first dimension taken out.
proof fn product_first(s: Seq<u64>)
    requires
        s.len() > 0,
    ensures
        product(s) == s[0] as nat * product(s.drop_first()),
    decreases s.len(),
{
    if s.len() == 1 {
        reveal_with_fuel(product, 2);
        assert(s.drop_last().len() == 0 && s.drop_first().len() == 0);
        assert(product(s) == 1 * (s[0] as nat));
        assert(s[0] as nat * 1 == s[0] as nat);
    } else {
        product_first(s.drop_last());
        let inner = s.drop_last().drop_first();
        assert(s.drop_first().drop_last() =~= inner);
        let a = s[0] as nat;
        let b = product(inner);
        let c = s.last() as nat;
        assert((a * b) * c == a * (b * c)) by (nonlinear_arith);
    }
}

/// Whether the name and the shape of a planned tensor can be stored.
pub open spec fn storable(p: PlannedView) -> bool {
    &&& String::valid(p.gguf_name)
    &&& p.shape.len() <= u32::MAX
    &&& product_fits(p.shape.reverse())
}

/// Whole blocks of a matrix.
proof fn blocks_of_matrix(in_f: nat, out_f: nat, block: u64, bytes: u64)
    requires
        block > 0,
        out_f == 0 || in_f % (block as nat) == 0,
    ensures
        stored_bytes(out_f * in_f, (block, bytes)) == packed_size(
            in_f as int,
            out_f as int,
            block as int,
            bytes as int,
        ),
{
    if out_f == 0 {
        assert(out_f * in_f == 0) by (nonlinear_arith)
            requires
                out_f == 0,
        ;
        vstd::arithmetic::div_mod::lemma_basic_div(0, block as int);
        assert(0 * bytes == 0);
        assert(in_f / (block as nat) * (bytes as nat) * out_f == 0) by (nonlinear_arith)
            requires
                out_f == 0,
        ;
    } else {
        let q = in_f / (block as nat);
        vstd::arithmetic::div_mod::lemma_fundamental_div_mod(in_f as int, block as int);
        assert(out_f * in_f == (out_f * q) * block + 0) by (nonlinear_arith)
            requires
                in_f == block * q,
        ;
        vstd::arithmetic::div_mod::lemma_fundamental_div_mod_converse(
            (out_f * in_f) as int,
            block as int,
            (out_f * q) as int,
            0,
        );
        assert(out_f * q * (bytes as nat) == q * (bytes as nat) * out_f) by (nonlinear_arith);
    }
}

/// A tensor that could be converted is declared so that it can be read back.
proof fn planned_is_readable<'a>(job: Job<'a>, topo: Topology, k: int)
    requires
        0 <= k < job.plan.len(),
        plans_its_tensor(job.plan[k], job.tensors, topo),
        job.bytes(k) is Ok,
        storable(job.plan[k]),
    ensures
        readable(planned_info(job.plan[k])),
        migrated(TYPE_CODE_MIGRATIONS@, job.plan[k].dtype) == job.plan[k].dtype,
        job.plan[k].src != Source::Bf16ToF16 ==> job.bytes(k)->Ok_0.len() == job.plan[k].nbytes,
{
    let p = job.plan[k];
    let t = job.tensors[p.tensor as int].1;
    product_reversed(p.shape);
    assert(migrated(TYPE_CODE_MIGRATIONS@, p.dtype) == p.dtype) by {
        reveal_with_fuel(migrated, 4);
    }
    if p.src.quantized() {
        let in_f = (t.shape[0] * 8) as nat;
        let out_f = t.shape[1] as nat;
        assert(p.shape =~= seq![out_f as u64, in_f as u64]);
        assert(whole_groups(p.src, in_f as int, out_f as int));
        let s = p.shape;
        assert(s.drop_last() =~= seq![out_f as u64]);
        assert(s.drop_last().drop_last().len() == 0);
        reveal_with_fuel(product, 3);
        assert(product(s.drop_last()) == 1 * out_f);
        assert(product(s) == out_f * in_f);
        if p.src is QuantVCol {
            blocks_of_matrix(in_f, out_f, 16, 10);
        } else {
            blocks_of_matrix(in_f, out_f, 32, 18);
        }
    } else {
        assert(product(p.shape) / 1 == product(p.shape));
        assert(product(p.shape) * 4 == 4 * product(p.shape));
    }
}

/// Where nothing stops the tensors from `k` on, none is stopped.
proof fn no_refusal<'a>(job: Job<'a>, k: int)
    requires
        0 <= k,
        job.refusal(k) is None,
    ensures
        forall|i: int| k <= i < job.plan.len() ==> #[trigger] job.bytes(i) is Ok,
    decreases job.plan.len() - k,
{
    if k < job.plan.len() {
        no_refusal(job, k + 1);
    }
}

/// Whether those of the first `k` tensors that are converted from BF16 to F16
/// in their order have data of the declared size.
pub open spec fn sized_before<'a>(job: Job<'a>, k: int) -> bool {
    forall|j: int|
        0 <= j < k && job.plan[j].src == Source::Bf16ToF16 ==> (#[trigger] job.datas()[j]).len()
            == job.plan[j].nbytes
}

/// A converted checkpoint reads back with the metadata that were written, and
/// with a tensor for each plan: under its name, with its shape and type. The
/// data of a tensor read back as they were converted, where no tensor up to it
/// has data of another size than its shape says.
pub proof fn conversion_reads_back<'a>(
    job: Job<'a>,
    topo: Topology,
    kvs: Seq<(Seq<char>, ValueView)>,
)
    requires
        job.tensors.len() <= usize::MAX,
        full_plan(job.tensors, topo) matches Ok(plan) && plan == job.plan,
        start_refusal(kvs, job.plan, topo) is None,
        job.refusal(0) is None,
        kvs.len() <= u64::MAX,
        job.plan.len() <= u64::MAX,
        forall|i: int| 0 <= i < kvs.len() ==> <(String, Value)>::valid(#[trigger] kvs[i]),
        forall|i: int| 0 <= i < job.plan.len() ==> storable(#[trigger] job.plan[i]),
    ensures
        ({
            let file = file_bytes(kvs, planned_infos(job.plan), job.datas());
            let back = dec_file(file)->Ok_0;
            &&& dec_file(file) is Ok
            &&& back.kvs == kvs
            &&& back.tensors.len() == job.plan.len()
            &&& forall|i: int|
                0 <= i < job.plan.len() ==> {
                    &&& (#[trigger] back.tensors[i]).name == job.plan[i].gguf_name
                    &&& back.tensors[i].dims == job.plan[i].shape.reverse()
                    &&& back.tensors[i].dtype == job.plan[i].dtype
                    &&& back.tensors[i].nbytes == job.plan[i].nbytes
                    &&& sized_before(job, i + 1) ==> tensor_data_spec(file, back, back.tensors[i])
                        == Ok::<_, ErrorView>(job.datas()[i])
                }
        }),
{
    let infos = planned_infos(job.plan);
    let datas = job.datas();
    no_tensor_is_lost(job.tensors, topo);
    no_refusal(job, 0);
    assert forall|i: int| 0 <= i < infos.len() implies readable(#[trigger] infos[i]) by {
        assert(job.bytes(i) is Ok);
        assert(plans_its_tensor(job.plan[i], job.tensors, topo));
        planned_is_readable(job, topo, i);
        assert(infos[i] == planned_info(job.plan[i]));
    }
    header_reads_back(kvs, infos, data_section(datas));
    let file = file_bytes(kvs, infos, datas);
    let back = as_declared(kvs, infos);
    assert forall|i: int| 0 <= i < job.plan.len() implies {
        &&& (#[trigger] back.tensors[i]).name == job.plan[i].gguf_name
        &&& back.tensors[i].dims == job.plan[i].shape.reverse()
        &&& back.tensors[i].dtype == job.plan[i].dtype
        &&& back.tensors[i].nbytes == job.plan[i].nbytes
        &&& sized_before(job, i + 1) ==> tensor_data_spec(file, back, back.tensors[i]) == Ok::<
            _,
            ErrorView,
        >(datas[i])
    } by {
        assert(job.bytes(i) is Ok);
        assert(plans_its_tensor(job.plan[i], job.tensors, topo));
        planned_is_readable(job, topo, i);
        assert(back.tensors[i] == entries(infos)[i]);
        assert(entries(infos)[i] == entry(infos, i));
        if sized_before(job, i + 1) {
            assert forall|j: int| 0 <= j <= i implies (#[trigger] datas[j]).len()
                == infos[j].nbytes by {
                assert(job.bytes(j) is Ok);
                assert(plans_its_tensor(job.plan[j], job.tensors, topo));
                planned_is_readable(job, topo, j);
                assert(infos[j] == planned_info(job.plan[j]));
            }
            declared_data(kvs, infos, datas, i);
        }
    }
}

} // verus!
