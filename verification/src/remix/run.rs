//! A checkpoint converted from start to end.

use crate::fp::{bf16_to_f16_table, is_half_table};
use crate::gguf::format::{product, product_fits};
use crate::gguf::laws::{data_section, file_bytes};
use crate::gguf::output::{FileError, Output, OutputView};
use crate::gguf::reader::checked_product;
use crate::gguf::writer::{
    data_size, distinct_keys, distinct_names, header_bytes, info_views, InfoView, TensorInfo,
};
use crate::gguf::{kv_views, padded, Value, ValueView, ALIGNMENT};
use crate::json::JsonView;
use crate::quant::moves_chunks;
use crate::remix::card::card_of;
use crate::remix::config::{
    check_config, config_refusal, missing_topology, read_topology, topology_of, Hparams,
};
use crate::remix::emit::{emit_tensor, make_perms, perms_of, tensor_bytes, Perms, PermsView};
use crate::remix::kvs::{build_kvs, model_entries, vocab_entries};
use crate::remix::meta::opt_view;
use crate::remix::plan::{
    all_within, full_plan, plan_tensors, plan_views, refuse, take_tensors, taken, Planned,
    PlannedView, Refusal, RemixError, Topology,
};
use crate::remix::vocab::{id_views, json_or_none, Vocab};
use crate::safetensors::{ref_views, RefView, ShardSet, TensorRef};
use crate::text::views;
use vstd::prelude::*;

verus! {

/// The number of elements of all planned tensors.
pub open spec fn param_count(plan: Seq<PlannedView>) -> nat
    decreases plan.len(),
{
    if plan.len() == 0 {
        0
    } else {
        param_count(plan.drop_last()) + product(plan.last().shape)
    }
}

/// Whether the elements of all planned tensors can be counted.
pub open spec fn countable(plan: Seq<PlannedView>) -> bool {
    &&& forall|i: int| 0 <= i < plan.len() ==> product_fits((#[trigger] plan[i]).shape)
    &&& param_count(plan) <= i64::MAX / 7
}

/// Some of the tensors have no more elements than all.
proof fn param_count_prefix(plan: Seq<PlannedView>, k: int)
    requires
        0 <= k <= plan.len(),
    ensures
        param_count(plan.take(k)) <= param_count(plan),
    decreases plan.len(),
{
    if k == plan.len() {
        assert(plan.take(k) =~= plan);
    } else {
        param_count_prefix(plan.drop_last(), k);
        assert(plan.drop_last().take(k) =~= plan.take(k));
    }
}

/// The number of elements of all planned tensors, if they can be counted.
pub fn count_params(plan: &[Planned]) -> (r: Option<u64>)
    ensures
        r is Some <==> countable(plan_views(plan@)),
        r is Some ==> r->0 == param_count(plan_views(plan@)),
{
    let ghost all = plan_views(plan@);
    let limit: u64 = 0x7fff_ffff_ffff_ffff / 7;
    let mut total: u64 = 0;
    let mut i: usize = 0;
    assert(all.take(0) =~= Seq::empty());
    while i < plan.len()
        invariant
            i <= plan@.len(),
            all == plan_views(plan@),
            limit == i64::MAX / 7,
            forall|k: int| 0 <= k < i ==> product_fits((#[trigger] all[k]).shape),
            total == param_count(all.take(i as int)),
            total <= limit,
        decreases plan@.len() - i,
    {
        proof {
            assert(all[i as int] == plan@[i as int]@);
            assert(all.take(i + 1).drop_last() =~= all.take(i as int));
            param_count_prefix(all, i + 1);
        }
        match checked_product(plan[i].shape.as_slice()) {
            None => {
                return None;
            },
            Some(n) => {
                if n > limit - total {
                    return None;
                }
                total = total + n;
            },
        }
        i += 1;
    }
    assert(all.take(i as int) =~= all);
    Some(total)
}

/// How a planned tensor is declared.
pub open spec fn planned_infos(plan: Seq<PlannedView>) -> Seq<InfoView> {
    Seq::new(
        plan.len(),
        |i: int|
            InfoView {
                name: plan[i].gguf_name,
                shape: plan[i].shape,
                dtype: plan[i].dtype,
                nbytes: plan[i].nbytes,
            },
    )
}

/// How planned tensors are declared.
fn declare(plan: &[Planned]) -> (r: Vec<TensorInfo>)
    ensures
        info_views(r@) == planned_infos(plan_views(plan@)),
{
    let ghost want = planned_infos(plan_views(plan@));
    let mut r: Vec<TensorInfo> = Vec::new();
    let mut i: usize = 0;
    while i < plan.len()
        invariant
            i <= plan@.len(),
            want == planned_infos(plan_views(plan@)),
            r@.len() == i,
            forall|k: int| 0 <= k < i ==> (#[trigger] r@[k])@ == want[k],
        decreases plan@.len() - i,
    {
        let p = &plan[i];
        let shape: Vec<u64> = p.shape.clone();
        assert(shape@ =~= p.shape@);
        let info = TensorInfo {
            name: p.gguf_name.clone(),
            shape,
            dtype: p.dtype,
            nbytes: p.nbytes,
        };
        assert(info@ == want[i as int]);
        r.push(info);
        i += 1;
    }
    assert(info_views(r@) =~= want);
    r
}

/// A checkpoint that is ready to be converted.
pub struct Prepared {
    /// The tensors that are taken.
    pub tensors: Vec<(String, TensorRef)>,
    /// What becomes of them.
    pub plan: Vec<Planned>,
    /// The heads and layers of the model.
    pub topo: Topology,
    /// The number of parameters.
    pub total: u64,
}

/// Why a checkpoint with this configuration and these tensors is not taken.
pub open spec fn prepare_refusal(root: JsonView, refs: Seq<(Seq<char>, RefView)>) -> Option<
    (Refusal, Seq<char>),
> {
    let topo = topology_of(root);
    if config_refusal(root) is Some {
        config_refusal(root)
    } else if missing_topology(root) is Some {
        Some((Refusal::MissingParameter, missing_topology(root)->0))
    } else {
        match full_plan(taken(refs), topo) {
            Err(e) => Some(e),
            Ok(plan) => if !countable(plan) {
                Some((Refusal::TooManyParameters, ""@))
            } else {
                None
            },
        }
    }
}

/// The plan for a checkpoint.
pub open spec fn plan_of(root: JsonView, refs: Seq<(Seq<char>, RefView)>) -> Seq<PlannedView> {
    full_plan(taken(refs), topology_of(root))->Ok_0
}

impl Prepared {
    /// Whether this is what the configuration and the tensors ask for.
    pub open spec fn is_of(self, root: JsonView, refs: Seq<(Seq<char>, RefView)>) -> bool {
        &&& ref_views(self.tensors@) == taken(refs)
        &&& plan_views(self.plan@) == plan_of(root, refs)
        &&& self.topo == topology_of(root)
        &&& self.total == param_count(plan_of(root, refs))
    }

    /// Whether the plan speaks of the tensors, and every V head belongs to a K
    /// head.
    pub open spec fn wf(self) -> bool {
        &&& all_within(plan_views(self.plan@), self.tensors@.len())
        &&& self.topo.wf()
        &&& self.total <= i64::MAX / 7
    }
}

/// Check a checkpoint's configuration and plan its tensors.
pub fn prepare(hp: &Hparams, shards: &ShardSet) -> (r: Result<Prepared, RemixError>)
    ensures
        match prepare_refusal(hp.root@, ref_views(shards.tensors@)) {
            Some(e) => r is Err && r->Err_0@ == e,
            None => r is Ok && r->Ok_0.is_of(hp.root@, ref_views(shards.tensors@))
                && r->Ok_0.wf(),
        },
{
    match check_config(hp) {
        Ok(()) => {},
        Err(e) => {
            return Err(e);
        },
    }
    let topo = match read_topology(hp) {
        Ok(t) => t,
        Err(e) => {
            return Err(e);
        },
    };
    let tensors = take_tensors(shards.tensors.as_slice());
    let plan = match plan_tensors(tensors.as_slice(), &topo) {
        Ok(p) => p,
        Err(e) => {
            return Err(e);
        },
    };
    let total: u64 = match count_params(plan.as_slice()) {
        Some(n) => n,
        None => {
            return Err(refuse(Refusal::TooManyParameters, ""));
        },
    };
    Ok(Prepared { tensors, plan, topo, total })
}

/// What a conversion works on.
pub struct Job<'a> {
    pub tensors: Seq<(Seq<char>, RefView)>,
    pub plan: Seq<PlannedView>,
    pub shards: ShardSet<'a>,
    pub perms: PermsView,
    pub exp: Seq<u32>,
}

impl<'a> Job<'a> {
    /// What comes of the tensor at `i`.
    pub open spec fn bytes(self, i: int) -> Result<Seq<u8>, Refusal> {
        tensor_bytes(self.plan[i], self.tensors, self.shards, self.perms, self.exp)
    }

    /// What is written for the tensor at `i` behind those before it: what comes
    /// of it, where the data section has room for that in 64 bits.
    pub open spec fn written(self, i: int) -> Result<Seq<u8>, Refusal> {
        match self.bytes(i) {
            Err(e) => Err(e),
            Ok(b) => if data_section(self.datas().take(i)).len() + padded(
                b.len(),
                ALIGNMENT as nat,
            ) <= u64::MAX {
                Ok(b)
            } else {
                Err(Refusal::TooLarge)
            },
        }
    }

    /// Whether these are the data of the first tensors.
    pub open spec fn gives(self, datas: Seq<Seq<u8>>) -> bool {
        &&& datas.len() <= self.plan.len()
        &&& forall|i: int|
            0 <= i < datas.len() ==> #[trigger] self.bytes(i) == Ok::<Seq<u8>, Refusal>(datas[i])
    }

    /// Why the first tensor from `k` on that cannot be written cannot.
    pub open spec fn refusal(self, k: int) -> Option<(Refusal, Seq<char>)>
        decreases self.plan.len() - k,
    {
        if k >= self.plan.len() {
            None
        } else {
            match self.written(k) {
                Err(e) => Some((e, self.plan[k].gguf_name)),
                Ok(_) => self.refusal(k + 1),
            }
        }
    }

    /// The data of all tensors.
    pub open spec fn datas(self) -> Seq<Seq<u8>> {
        Seq::new(self.plan.len(), |i: int| self.bytes(i)->Ok_0)
    }
}

/// A conversion that writes one tensor after the other.
pub struct Conversion<'a> {
    tensors: Vec<(String, TensorRef)>,
    plan: Vec<Planned>,
    shards: &'a ShardSet<'a>,
    perms: Perms,
    halves: Vec<u16>,
    exp: &'a [u32],
    output: Output,
}

impl<'a> View for Conversion<'a> {
    type V = OutputView;

    closed spec fn view(&self) -> OutputView {
        self.output@
    }
}

impl<'a> Conversion<'a> {
    /// What the conversion works on.
    pub closed spec fn job(self) -> Job<'a> {
        Job {
            tensors: ref_views(self.tensors@),
            plan: plan_views(self.plan@),
            shards: *self.shards,
            perms: self.perms@,
            exp: self.exp@,
        }
    }

    /// The tensors written so far hold what the plan asks for.
    pub closed spec fn wf(self) -> bool {
        &&& self.output.wf()
        &&& all_within(plan_views(self.plan@), self.tensors@.len())
        &&& self.perms@.wf()
        &&& is_half_table(self.halves@)
        &&& self.exp@.len() == 0x1_0000
        &&& self.output@.tensors == planned_infos(self.job().plan)
        &&& self.job().gives(self.output@.datas)
    }

    /// What was taken and what was not make the header and the data that the
    /// plan asks for so far; once every tensor was written, the whole file.
    pub proof fn so_far(self)
        requires
            self.wf(),
        ensures
            self@.tensors == planned_infos(self.job().plan),
            self.job().gives(self@.datas),
            self@.taken + self@.rest == header_bytes(self@.kvs, self@.tensors) + data_section(
                self@.datas,
            ),
            self@.complete() ==> self@.datas == self.job().datas() && self@.taken + self@.rest
                == file_bytes(self@.kvs, planned_infos(self.job().plan), self.job().datas()),
    {
        self.output.so_far();
        if self@.complete() {
            assert(self@.datas =~= self.job().datas()) by {
                assert forall|i: int| 0 <= i < self@.datas.len() implies self@.datas[i]
                    == #[trigger] self.job().datas()[i] by {
                    assert(self.job().bytes(i) == Ok::<Seq<u8>, Refusal>(self@.datas[i]));
                }
            }
        }
    }

    /// Start a conversion that writes these metadata. The table gives the
    /// exponential of every BF16 value.
    pub fn start(
        prepared: Prepared,
        shards: &'a ShardSet<'a>,
        exp: &'a [u32],
        kvs: Vec<(String, Value)>,
    ) -> (r: Result<Conversion<'a>, RemixError>)
        requires
            prepared.wf(),
            exp@.len() == 0x1_0000,
        ensures
            start_refusal(kv_views(kvs@), plan_views(prepared.plan@), prepared.topo) is Some
                <==> r is Err,
            r is Err ==> r->Err_0.what == start_refusal(
                kv_views(kvs@),
                plan_views(prepared.plan@),
                prepared.topo,
            )->0,
            r matches Ok(c) ==> c.wf() && c.job() == (Job {
                tensors: ref_views(prepared.tensors@),
                plan: plan_views(prepared.plan@),
                shards: *shards,
                perms: perms_of(prepared.topo),
                exp: exp@,
            }) && c@ == (OutputView {
                kvs: kv_views(kvs@),
                tensors: planned_infos(plan_views(prepared.plan@)),
                datas: Seq::empty(),
                taken: Seq::empty(),
                rest: header_bytes(
                    kv_views(kvs@),
                    planned_infos(plan_views(prepared.plan@)),
                ),
            }),
    {
        let infos = declare(prepared.plan.as_slice());
        match Output::start(kvs, infos) {
            Ok(output) => match make_perms(&prepared.topo) {
                Ok(perms) => Ok(
                    Conversion {
                        tensors: prepared.tensors,
                        plan: prepared.plan,
                        shards,
                        perms,
                        halves: bf16_to_f16_table(),
                        exp,
                        output,
                    },
                ),
                Err(e) => Err(e),
            },
            Err(FileError::DuplicateKey(key)) => Err(
                refuse(Refusal::DuplicateKey, key.as_str()),
            ),
            Err(FileError::DuplicateTensor(name)) => Err(
                refuse(Refusal::DuplicateTensor, name.as_str()),
            ),
            Err(FileError::TooLarge) => Err(refuse(Refusal::TooLarge, "")),
        }
    }

    /// Convert the next tensor; whether there was one.
    pub fn step(&mut self) -> (r: Result<bool, RemixError>)
        requires
            old(self).wf(),
        ensures
            final(self).wf(),
            final(self).job() == old(self).job(),
            old(self)@.complete() ==> r == Ok::<bool, RemixError>(false) && final(self)@ == old(
                self,
            )@,
            !old(self)@.complete() ==> match old(self).job().written(
                old(self)@.datas.len() as int,
            ) {
                Ok(data) => r == Ok::<bool, RemixError>(true) && final(self)@ == old(
                    self,
                )@.pushed(data),
                Err(e) => r is Err && r->Err_0@ == (
                    e,
                    old(self).job().plan[old(self)@.datas.len() as int].gguf_name,
                ) && final(self)@ == old(self)@,
            },
    {
        let ghost before = self.output@.datas;
        let ghost k = before.len() as int;
        proof {
            self.output.so_far();
        }
        let i: usize = self.output.written();
        if i >= self.plan.len() {
            return Ok(false);
        }
        let ghost p = plan_views(self.plan@)[k];
        assert(p == self.plan@[k]@);
        match emit_tensor(
            &self.plan[i],
            self.tensors.as_slice(),
            self.shards,
            &self.perms,
            self.halves.as_slice(),
            self.exp,
        ) {
            Err(e) => Err(e),
            Ok(data) => {
                assert(before =~= self.job().datas().take(k)) by {
                    assert forall|j: int| 0 <= j < k implies before[j]
                        == #[trigger] self.job().datas()[j] by {
                        assert(self.job().bytes(j) == Ok::<Seq<u8>, Refusal>(before[j]));
                    }
                }
                if !self.output.has_room(data.len()) {
                    return Err(refuse(Refusal::TooLarge, self.plan[i].gguf_name.as_str()));
                }
                self.output.push(data.as_slice());
                proof {
                    let now = self.output@.datas;
                    assert forall|j: int| 0 <= j < now.len() implies #[trigger] self.job().bytes(j)
                        == Ok::<Seq<u8>, Refusal>(now[j]) by {
                        if j < k {
                            assert(old(self).job().bytes(j) == Ok::<Seq<u8>, Refusal>(before[j]));
                        }
                    }
                }
                Ok(true)
            },
        }
    }

    /// Take the bytes that were written and not yet taken.
    pub fn take(&mut self) -> (r: Vec<u8>)
        requires
            old(self).wf(),
        ensures
            final(self).wf(),
            final(self).job() == old(self).job(),
            r@ == old(self)@.rest,
            final(self)@ == (OutputView {
                taken: old(self)@.taken + r@,
                rest: Seq::empty(),
                ..old(self)@
            }),
    {
        self.output.take()
    }
}

/// Why a file with these metadata and planned tensors cannot be started.
pub open spec fn start_refusal(
    kvs: Seq<(Seq<char>, ValueView)>,
    plan: Seq<PlannedView>,
    topo: Topology,
) -> Option<Refusal> {
    if !distinct_keys(kvs) {
        Some(Refusal::DuplicateKey)
    } else if !distinct_names(planned_infos(plan)) {
        Some(Refusal::DuplicateTensor)
    } else if data_size(planned_infos(plan)) > u64::MAX {
        Some(Refusal::TooLarge)
    } else if !moves_chunks(perms_of(topo).rows) {
        Some(Refusal::BrokenBlocks)
    } else {
        None
    }
}

/// The metadata of a converted checkpoint, or why there are none.
pub open spec fn entries_of(
    root: JsonView,
    readme: Option<&str>,
    generation_config: Option<&[u8]>,
    dir: Seq<char>,
    total: u64,
    vocab: Vocab,
    ids: Seq<(Seq<char>, u32)>,
    template: Option<Seq<char>>,
) -> Result<Seq<(Seq<char>, ValueView)>, (Refusal, Seq<char>)> {
    match (match readme {
        Some(s) => card_of(s@),
        None => Ok(None),
    }) {
        Err(e) => Err((e, ""@)),
        Ok(card) => match model_entries(
            root,
            card,
            json_or_none(generation_config),
            dir,
            total,
        ) {
            Err(e) => Err(e),
            Ok(m) => Ok(
                m + vocab_entries(
                    views(vocab.tokens@),
                    vocab.token_types@,
                    views(vocab.merges@),
                    ids,
                    template,
                ),
            ),
        },
    }
}

/// Convert a checkpoint: out of its configuration, its shards and its
/// tokenizer, the bytes of the file.
pub fn run<'a>(
    hp: &Hparams,
    shards: &'a ShardSet<'a>,
    readme: Option<&str>,
    generation_config: Option<&[u8]>,
    dir: &str,
    vocab: Vocab,
    ids: &[(&'static str, u32)],
    template: &Option<String>,
    exp: &'a [u32],
) -> (r: Result<Vec<u8>, RemixError>)
    requires
        exp@.len() == 0x1_0000,
    ensures
        match prepare_refusal(hp.root@, ref_views(shards.tensors@)) {
            Some(e) => r is Err && r->Err_0@ == e,
            None => {
                let refs = ref_views(shards.tensors@);
                let plan = plan_of(hp.root@, refs);
                match entries_of(
                    hp.root@,
                    readme,
                    generation_config,
                    dir@,
                    param_count(plan) as u64,
                    vocab,
                    id_views(ids@),
                    opt_view(*template),
                ) {
                    Err(e) => r is Err && r->Err_0@ == e,
                    Ok(kvs) => match start_refusal(kvs, plan, topology_of(hp.root@)) {
                        Some(e) => r is Err && r->Err_0.what == e,
                        None => {
                            let job = Job {
                                tensors: taken(refs),
                                plan,
                                shards: *shards,
                                perms: perms_of(topology_of(hp.root@)),
                                exp: exp@,
                            };
                            match job.refusal(0) {
                                Some(e) => r is Err && r->Err_0@ == e,
                                None => r is Ok && r->Ok_0@ == file_bytes(
                                    kvs,
                                    planned_infos(plan),
                                    job.datas(),
                                ),
                            }
                        },
                    },
                }
            },
        },
{
    let prepared = match prepare(hp, shards) {
        Ok(p) => p,
        Err(e) => {
            return Err(e);
        },
    };
    let ghost refs = ref_views(shards.tensors@);
    let ghost plan = plan_of(hp.root@, refs);
    let ghost perms = perms_of(topology_of(hp.root@));
    let kvs = match build_kvs(
        hp,
        readme,
        generation_config,
        dir,
        prepared.total,
        vocab,
        ids,
        template,
    ) {
        Ok(k) => k,
        Err(e) => {
            return Err(e);
        },
    };
    let ghost entries = kv_views(kvs@);
    let mut c = match Conversion::start(prepared, shards, exp, kvs) {
        Ok(c) => c,
        Err(e) => {
            return Err(e);
        },
    };
    let ghost job = c.job();
    let mut more = true;
    while more
        invariant
            c.wf(),
            c.job() == job,
            c@.kvs == entries,
            c@.tensors == planned_infos(job.plan),
            c@.taken == Seq::<u8>::empty(),
            job.refusal(0) == job.refusal(c@.datas.len() as int),
            !more ==> c@.complete(),
            perms == perms_of(topology_of(hp.root@)),
            job == (Job { tensors: taken(refs), plan, shards: *shards, perms, exp: exp@ }),
            refs == ref_views(shards.tensors@),
            plan == plan_of(hp.root@, refs),
            prepare_refusal(hp.root@, refs) is None,
            entries_of(
                hp.root@,
                readme,
                generation_config,
                dir@,
                param_count(plan) as u64,
                vocab,
                id_views(ids@),
                opt_view(*template),
            ) == Ok::<_, (Refusal, Seq<char>)>(entries),
            start_refusal(entries, plan, topology_of(hp.root@)) is None,
        decreases job.plan.len() - c@.datas.len() + (if more {
            1int
        } else {
            0int
        }),
    {
        proof {
            c.so_far();
        }
        match c.step() {
            Ok(b) => {
                more = b;
            },
            Err(e) => {
                return Err(e);
            },
        }
    }
    proof {
        c.so_far();
    }
    let out = c.take();
    assert(Seq::<u8>::empty() + out@ =~= out@);
    Ok(out)
}

} // verus!
