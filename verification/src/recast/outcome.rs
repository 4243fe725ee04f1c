//! Laws of a recast as a whole: what stops it, in which order, and what it
//! gives.

use crate::gguf::format::{dec_file, ErrorView, ReaderView, TensorView};

use crate::gguf::reader::{lookup, tensor_data_spec};
use crate::gguf::writer::{data_size, InfoView};
use crate::gguf::ValueView;
use crate::ieee::convert::half_of_single;
use crate::recast::plan::{entry_of, planned, tier_of, EntryView, Kind, Tier};
use crate::recast::policy::{pattern_language, policy_of};
use crate::recast::run::{
    architecture, file_fault, recast_data, recast_of, tsv_table, FileFault, OutcomeView,
    RecastErrorView, Task,
};
use crate::recast::values::{cast_values, half_bytes, half_infinite, halves_of, row_scales};
use crate::safetensors::u16_values;
use vstd::prelude::*;

verus! {

/// A pattern that a policy lists preserves the tensors in whose name it has a match; data
/// that are not there stop only what has to be looked at.
pub proof fn policies_preserve(
    b: Seq<u8>,
    r: ReaderView,
    t: TensorView,
    patterns: Seq<Seq<char>>,
    tier: Tier,
    force: bool,
)
    ensures
        ({
            let p = planned(b, r, t, patterns, tier, force);
            let kept = exists|i: int|
                0 <= i < patterns.len() && pattern_language(
                    #[trigger] patterns[i],
                )->0.contains(t.name);
            let data = tensor_data_spec(b, r, t);
            &&& t.dtype != 30 || kept ==> p is Ok && !(p->Ok_0.kind is CastF16) && p->Ok_0.absmax
                == 0
            &&& t.dtype == 30 && kept ==> p is Ok && p->Ok_0.kind == Kind::Bf16Passthrough
            &&& t.dtype == 30 && !kept ==> (match data {
                Ok(d) => p == Ok::<_, ErrorView>(
                    entry_of(t, false, u16_values(d), tier, force),
                ),
                Err(e) => p == Err::<EntryView, _>(e),
            })
        }),
{
}

/// What is cast is written as the halves nearest to its values, unless one of them is
/// infinite, which is refused. All else is copied.
pub proof fn data_are_cast(b: Seq<u8>, r: ReaderView, t: TensorView, kind: Kind)
    ensures
        ({
            let data = tensor_data_spec(b, r, t);
            let new = recast_data(b, r, t, kind);
            &&& data matches Err(e) ==> new == Err::<Seq<u8>, _>(RecastErrorView::Gguf(e))
            &&& data is Ok && !(kind is CastF16) ==> new == Ok::<_, RecastErrorView>(data->Ok_0)
            &&& data is Ok ==> (kind matches Kind::CastF16 { scale, hadamard_d } ==> {
                let v = cast_values(u16_values(data->Ok_0), t.dims, scale, hadamard_d as nat);
                let h = v.map_values(|x: u32| half_of_single(x));
                let infinite = exists|i: int|
                    0 <= i < h.len() && (#[trigger] h[i] == 0x7c00 || h[i] == 0xfc00);
                &&& infinite ==> new == Err::<Seq<u8>, _>(
                    RecastErrorView::Infinite { name: t.name, scale, hadamard_d },
                )
                &&& !infinite ==> new == Ok::<_, RecastErrorView>(half_bytes(h))
            })
        }),
{
    if let Ok(data) = tensor_data_spec(b, r, t) {
        if let Kind::CastF16 { scale, hadamard_d } = kind {
            let v = cast_values(u16_values(data), t.dims, scale, hadamard_d as nat);
            let h = halves_of(v);
            assert(h =~= v.map_values(|x: u32| half_of_single(x)));
            assert forall|i: int| 0 <= i < h.len() implies (half_infinite(
                #[trigger] h[i],
            ) <==> h[i] == 0x7c00 || h[i] == 0xfc00) by {}
        }
    }
}

/// The first tensor that is stopped stops a recast, and else none does.
pub proof fn the_first_stop_counts(task: Task, k: int, n: int)
    requires
        0 <= k <= n <= task.source.tensors.len(),
        forall|i: int| k <= i < n ==> (#[trigger] task.step(i)) is Ok,
        n < task.source.tensors.len() ==> task.step(n) is Err,
    ensures
        n < task.source.tensors.len() ==> task.error(k) == Some(task.step(n)->Err_0),
        n == task.source.tensors.len() ==> task.error(k) is None,
    decreases n - k,
{
    if k < n {
        assert(task.step(k) is Ok);
        the_first_stop_counts(task, k + 1, n);
    }
}

/// Each tensor is planned by the policy and the tier. Scales are recorded by the fourth tier,
/// for the matrices that it casts.
pub proof fn tensors_are_planned(task: Task, i: int)
    requires
        0 <= i < task.source.tensors.len(),
    ensures
        ({
            let t = task.source.tensors[i];
            let p = planned(
                task.bytes,
                task.source,
                t,
                task.patterns,
                task.tier,
                task.force_rescale,
            );
            let data = tensor_data_spec(task.bytes, task.source, t);
            let recorded = task.tier == Tier::T4 && p is Ok && p->Ok_0.kind is CastF16
                && t.dims.len() == 2;
            &&& p matches Err(e) ==> task.step(i) == Err::<(EntryView, Seq<u32>), _>(
                RecastErrorView::Gguf(e),
            )
            &&& p is Ok && !recorded ==> task.step(i) == Ok::<_, RecastErrorView>(
                (p->Ok_0, Seq::<u32>::empty()),
            )
            &&& recorded && data is Ok && t.dims[0] == 0 ==> task.step(i) == Err::<
                (EntryView, Seq<u32>),
                _,
            >(RecastErrorView::EmptyRows(t.name))
            &&& recorded && data is Ok && t.dims[0] > 0 ==> task.step(i) == Ok::<
                _,
                RecastErrorView,
            >((p->Ok_0, row_scales(u16_values(data->Ok_0), t.dims[0] as nat, task.force_rescale)))
        }),
{
}

/// A file cannot be written with a key or a name twice, in this order, nor beyond 64 bits.
pub proof fn faults_of_files(kvs: Seq<(Seq<char>, ValueView)>, infos: Seq<InfoView>)
    ensures
        ({
            let key = exists|i: int, j: int|
                0 <= i < j < kvs.len() && (#[trigger] kvs[i]).0 == (#[trigger] kvs[j]).0;
            let name = exists|i: int, j: int|
                0 <= i < j < infos.len() && (#[trigger] infos[i]).name == (
                #[trigger] infos[j]).name;
            let large = data_size(infos) > 0xffff_ffff_ffff_ffff;
            &&& key ==> file_fault(kvs, infos) == Some(FileFault::DuplicateKey)
            &&& !key && name ==> file_fault(kvs, infos) == Some(FileFault::DuplicateTensor)
            &&& !key && !name && large ==> file_fault(kvs, infos) == Some(FileFault::TooLarge)
            &&& !key && !name && !large ==> file_fault(kvs, infos) is None
        }),
{
}

/// A dry run gives the table alone, and every other recast the table and the file.
pub proof fn dry_runs_write_nothing(task: Task, arch: Seq<char>)
    requires
        task.error(0) is None,
    ensures
        ({
            let table = tsv_table(task.source.tensors, task.entries());
            &&& task.tier == Tier::DryRun ==> task.result(arch) == Ok::<_, RecastErrorView>(
                OutcomeView { tsv: table, file: None },
            )
            &&& task.tier != Tier::DryRun ==> (match task.file(arch) {
                Ok(f) => task.result(arch) == Ok::<_, RecastErrorView>(
                    OutcomeView { tsv: table, file: Some(f) },
                ),
                Err(e) => task.result(arch) == Err::<OutcomeView, _>(e),
            })
        }),
{
}

/// A recast is stopped by an unknown tier, a policy that cannot be read, a file that cannot be
/// read, or one that names no architecture, in this order; and else it is that of the file's
/// tensors.
pub proof fn recasts_are_stopped(b: Seq<u8>, policy: Seq<char>, tier: Seq<char>, force: bool)
    ensures
        ({
            let r = recast_of(b, policy, tier, force);
            let known = tier_of(tier) is Some;
            let read = policy_of(policy) is Ok;
            let file = dec_file(b) is Ok;
            let named = file && (lookup(
                dec_file(b)->Ok_0.kvs,
                "general.architecture"@,
            ) matches Some(ValueView::Str(_)));
            &&& !known ==> r == Err::<OutcomeView, _>(RecastErrorView::UnknownTier)
            &&& known && !read ==> r == Err::<OutcomeView, _>(
                RecastErrorView::Policy(policy_of(policy)->Err_0),
            )
            &&& known && read && !file ==> r == Err::<OutcomeView, _>(
                RecastErrorView::Gguf(dec_file(b)->Err_0),
            )
            &&& known && read && file && !named ==> r == Err::<OutcomeView, _>(
                RecastErrorView::NoArchitecture,
            )
            &&& known && read && file && named ==> r == (Task {
                bytes: b,
                source: dec_file(b)->Ok_0,
                patterns: policy_of(policy)->Ok_0,
                tier: tier_of(tier)->0,
                force_rescale: force,
            }).result(lookup(dec_file(b)->Ok_0.kvs, "general.architecture"@)->0->Str_0)
        }),
{
}

} // verus!
