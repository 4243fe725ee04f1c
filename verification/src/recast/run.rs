//! A file recast from start to end.

use crate::fp::{bf16_to_f16_table, is_half_table};
use crate::gguf::format::{dec_file, product, ErrorView, ReaderView, TensorView};
use crate::gguf::laws::{data_section, file_bytes, sized, tensors_are_sized};
use crate::gguf::output::{
    declared_has_room, starts_with_data, FileError, Output, OutputView,
};
use crate::gguf::reader::{
    checked_product, lookup, tensor_data_spec, GgufError, Reader, ReaderTensor,
};
use crate::gguf::writer::{
    data_size, distinct_keys, distinct_names, header_bytes, info_views, InfoView, TensorInfo,
};
use crate::gguf::{kv_views, Value, ValueView, ALIGNMENT, T_BF16, T_F16, T_F32};
use crate::ieee::decimal::g6_text;
use crate::recast::kvs::{
    build_recast_kvs, channel_views, entry_views, kinds_of, recast_entries,
};
use crate::recast::plan::{
    bf16_count, dtype_name, planned, recast_tensor, rotates_well, tier_of, type_text, EntryView,
    Kind, PlanEntry, Tier,
};
use crate::recast::policy::{policy_of, Policy, PolicyError};
use crate::recast::values::{
    any_infinite, cast_pass2, cast_values, fmt_g6, half_bytes, halves_of, row_scales,
    t4_row_scales, Band,
};
use crate::safetensors::{u16_values, words16};
use crate::text::{decimal, decimal_text, views};
use vstd::prelude::*;

verus! {

/// Why a file is not recast.
#[derive(Debug)]
pub enum RecastError {
    /// There is no such tier.
    UnknownTier,
    /// The policy is not taken.
    Policy(PolicyError),
    /// The file cannot be read.
    Gguf(GgufError),
    /// The file names no architecture.
    NoArchitecture,
    /// A matrix whose rows have no elements has no scales for its rows.
    EmptyRows(String),
    /// An array under this key has an integer that does not fit in 32 bits.
    ArrayRange(String),
    /// A cast gave an infinite element.
    Infinite { name: String, scale: u64, hadamard_d: usize },
    /// The new file cannot be written.
    File(FileError),
}

/// What an error means.
pub enum RecastErrorView {
    UnknownTier,
    Policy(PolicyError),
    Gguf(ErrorView),
    NoArchitecture,
    EmptyRows(Seq<char>),
    ArrayRange(Seq<char>),
    Infinite { name: Seq<char>, scale: u64, hadamard_d: usize },
    File(FileFault),
}

/// What stops a new file.
pub enum FileFault {
    DuplicateKey,
    DuplicateTensor,
    TooLarge,
}

impl FileError {
    /// What stops a new file, without its name.
    pub open spec fn fault(self) -> FileFault {
        match self {
            FileError::DuplicateKey(_) => FileFault::DuplicateKey,
            FileError::DuplicateTensor(_) => FileFault::DuplicateTensor,
            FileError::TooLarge => FileFault::TooLarge,
        }
    }
}

impl View for RecastError {
    type V = RecastErrorView;

    open spec fn view(&self) -> RecastErrorView {
        match *self {
            RecastError::UnknownTier => RecastErrorView::UnknownTier,
            RecastError::Policy(e) => RecastErrorView::Policy(e),
            RecastError::Gguf(e) => RecastErrorView::Gguf(e@),
            RecastError::NoArchitecture => RecastErrorView::NoArchitecture,
            RecastError::EmptyRows(name) => RecastErrorView::EmptyRows(name@),
            RecastError::ArrayRange(key) => RecastErrorView::ArrayRange(key@),
            RecastError::Infinite { name, scale, hadamard_d } => RecastErrorView::Infinite {
                name: name@,
                scale,
                hadamard_d,
            },
            RecastError::File(e) => RecastErrorView::File(e.fault()),
        }
    }
}

/// What a recast works on.
pub struct Task {
    pub bytes: Seq<u8>,
    pub source: ReaderView,
    pub patterns: Seq<Seq<char>>,
    pub tier: Tier,
    pub force_rescale: bool,
}

impl Task {
    /// What becomes of the tensor at `i`, and the scales of its rows where
    /// they are recorded.
    pub open spec fn step(self, i: int) -> Result<(EntryView, Seq<u32>), RecastErrorView> {
        let t = self.source.tensors[i];
        match planned(
            self.bytes,
            self.source,
            t,
            self.patterns,
            self.tier,
            self.force_rescale,
        ) {
            Err(e) => Err(RecastErrorView::Gguf(e)),
            Ok(entry) => if self.tier == Tier::T4 && entry.kind is CastF16 && t.dims.len() == 2 {
                match tensor_data_spec(self.bytes, self.source, t) {
                    Err(e) => Err(RecastErrorView::Gguf(e)),
                    Ok(data) => if t.dims[0] == 0 {
                        Err(RecastErrorView::EmptyRows(t.name))
                    } else {
                        Ok(
                            (
                                entry,
                                row_scales(
                                    u16_values(data),
                                    t.dims[0] as nat,
                                    self.force_rescale,
                                ),
                            ),
                        )
                    },
                }
            } else {
                Ok((entry, Seq::empty()))
            },
        }
    }

    /// What stops the first tensor from `k` on that is stopped.
    pub open spec fn error(self, k: int) -> Option<RecastErrorView>
        decreases self.source.tensors.len() - k,
    {
        if k >= self.source.tensors.len() {
            None
        } else {
            match self.step(k) {
                Err(e) => Some(e),
                Ok(_) => self.error(k + 1),
            }
        }
    }

    /// What becomes of each tensor.
    pub open spec fn entries(self) -> Seq<EntryView> {
        Seq::new(self.source.tensors.len(), |i: int| self.step(i)->Ok_0.0)
    }

    /// The recorded scales of each tensor.
    pub open spec fn channels(self) -> Seq<Seq<u32>> {
        Seq::new(self.source.tensors.len(), |i: int| self.step(i)->Ok_0.1)
    }
}

/// Whether every tensor has the size that follows from its type and shape.
pub open spec fn all_sized(tensors: Seq<TensorView>) -> bool {
    forall|i: int| 0 <= i < tensors.len() ==> sized(#[trigger] tensors[i])
}

/// What becomes of each tensor of a file.
pub struct Analysis {
    pub entries: Vec<PlanEntry>,
    /// The scale of each row, for the tensors whose scales are recorded.
    pub channels: Vec<Vec<u32>>,
}

/// Whether a plan suits a tensor: only BF16 data are cast, and rows are
/// transformed over a power of two.
pub open spec fn suits(e: EntryView, t: TensorView) -> bool {
    &&& rotates_well(e.kind)
    &&& e.kind is CastF16 ==> t.dtype == T_BF16
}

/// Whether plans suit tensors.
pub open spec fn all_suit(entries: Seq<EntryView>, tensors: Seq<TensorView>) -> bool {
    &&& entries.len() == tensors.len()
    &&& forall|i: int| 0 <= i < entries.len() ==> suits(#[trigger] entries[i], tensors[i])
}

/// What becomes of one tensor, with the scales of its rows where they are
/// recorded.
fn analyze_tensor(
    reader: &Reader,
    b: &[u8],
    t: &ReaderTensor,
    policy: &Policy,
    tier: Tier,
    force_rescale: bool,
) -> (r: Result<(PlanEntry, Vec<u32>), RecastError>)
    requires
        policy.wf(),
        sized(t@),
    ensures
        forall|i: int|
            0 <= i < reader@.tensors.len() && #[trigger] reader@.tensors[i] == t@ ==> match (Task {
                bytes: b@,
                source: reader@,
                patterns: policy@,
                tier,
                force_rescale,
            }).step(i) {
                Ok(p) => r is Ok && (r->Ok_0.0@, r->Ok_0.1@) == p,
                Err(e) => r is Err && r->Err_0@ == e,
            },
        r is Ok ==> suits(r->Ok_0.0@, t@),
{
    let entry = match recast_tensor(reader, b, t, policy, tier, force_rescale) {
        Ok(e) => e,
        Err(e) => {
            return Err(RecastError::Gguf(e));
        },
    };
    let cast = match entry.kind {
        Kind::CastF16 { scale: _, hadamard_d: _ } => true,
        _ => false,
    };
    if tier == Tier::T4 && cast && t.dims.len() == 2 {
        let data = match reader.tensor_data(b, t) {
            Ok(d) => d,
            Err(e) => {
                return Err(RecastError::Gguf(e));
            },
        };
        if t.dims[0] == 0 {
            return Err(RecastError::EmptyRows(t.name.clone()));
        }
        let elems = words16(data.as_slice());
        if t.dims[0] > usize::MAX as u64 {
            let n: usize = elems.len();
            proof {
                vstd::arithmetic::div_mod::lemma_basic_div(
                    elems@.len() as int,
                    t.dims@[0] as int,
                );
                assert(row_scales(elems@, t.dims@[0] as nat, force_rescale) =~= Seq::empty());
            }
            return Ok((entry, Vec::new()));
        }
        let scales = t4_row_scales(elems.as_slice(), t.dims[0] as usize, force_rescale);
        Ok((entry, scales))
    } else {
        Ok((entry, Vec::new()))
    }
}

/// Decide what becomes of each tensor.
pub fn analyze(b: &[u8], reader: &Reader, policy: &Policy, tier: Tier, force_rescale: bool) -> (r:
    Result<Analysis, RecastError>)
    requires
        policy.wf(),
        all_sized(reader@.tensors),
    ensures
        ({
            let task = Task {
                bytes: b@,
                source: reader@,
                patterns: policy@,
                tier,
                force_rescale,
            };
            match task.error(0) {
                Some(e) => r is Err && r->Err_0@ == e,
                None => r is Ok && entry_views(r->Ok_0.entries@) == task.entries()
                    && channel_views(r->Ok_0.channels@) == task.channels() && all_suit(
                    task.entries(),
                    reader@.tensors,
                ),
            }
        }),
{
    let ghost task = Task {
        bytes: b@,
        source: reader@,
        patterns: policy@,
        tier,
        force_rescale,
    };
    let mut entries: Vec<PlanEntry> = Vec::new();
    let mut channels: Vec<Vec<u32>> = Vec::new();
    let mut i: usize = 0;
    while i < reader.tensors.len()
        invariant
            policy.wf(),
            all_sized(reader@.tensors),
            i <= reader.tensors@.len(),
            reader@.tensors.len() == reader.tensors@.len(),
            task == (Task {
                bytes: b@,
                source: reader@,
                patterns: policy@,
                tier,
                force_rescale,
            }),
            task.error(0) == task.error(i as int),
            entries@.len() == i,
            channels@.len() == i,
            forall|k: int|
                0 <= k < i ==> (#[trigger] entries@[k])@ == task.entries()[k] && suits(
                    entries@[k]@,
                    reader@.tensors[k],
                ),
            forall|k: int| 0 <= k < i ==> (#[trigger] channels@[k])@ == task.channels()[k],
        decreases reader.tensors@.len() - i,
    {
        assert(reader@.tensors[i as int] == reader.tensors@[i as int]@);
        match analyze_tensor(reader, b, &reader.tensors[i], policy, tier, force_rescale) {
            Err(e) => {
                return Err(e);
            },
            Ok((entry, scales)) => {
                entries.push(entry);
                channels.push(scales);
            },
        }
        i += 1;
    }
    proof {
        assert(entry_views(entries@) =~= task.entries());
        assert(channel_views(channels@) =~= task.channels());
        assert forall|k: int| 0 <= k < task.entries().len() implies suits(
            #[trigger] task.entries()[k],
            reader@.tensors[k],
        ) by {
            assert(entries@[k]@ == task.entries()[k]);
        }
    }
    Ok(Analysis { entries, channels })
}

/// The line of a tensor in the table of largest magnitudes.
pub open spec fn tsv_line(t: TensorView, e: EntryView) -> Seq<char> {
    t.name + "\t"@ + type_text(t.dtype) + "\t"@ + type_text(e.out_dtype) + "\t"@ + e.band.text()
        + "\t"@ + g6_text(e.absmax) + "\t"@ + decimal(product(t.dims)) + "\t"@ + e.note
}

/// The line of a tensor in the table of largest magnitudes.
pub fn tsv_row(t: &ReaderTensor, e: &PlanEntry) -> (r: String)
    requires
        sized(t@),
    ensures
        r@ == tsv_line(t@, e@),
{
    let n: u64 = match checked_product(t.dims.as_slice()) {
        Some(n) => n,
        None => 0,
    };
    let mut r = t.name.clone();
    r.append("\t");
    r.append(dtype_name(t.dtype));
    r.append("\t");
    r.append(dtype_name(e.out_dtype));
    r.append("\t");
    r.append(e.band.name());
    r.append("\t");
    r.append(fmt_g6(e.absmax).as_str());
    r.append("\t");
    r.append(decimal_text(n).as_str());
    r.append("\t");
    r.append(e.note.as_str());
    r
}

/// The table of largest magnitudes: a heading, and a line for each tensor.
pub open spec fn tsv_table(tensors: Seq<TensorView>, entries: Seq<EntryView>) -> Seq<Seq<char>> {
    Seq::new(
        tensors.len() + 1,
        |i: int|
            if i == 0 {
                "name\tsrc_type\tout_type\tband\tabsmax\tn_elem\tnote"@
            } else {
                tsv_line(tensors[i - 1], entries[i - 1])
            },
    )
}

/// The table of largest magnitudes.
pub fn tsv_lines(reader: &Reader, entries: &[PlanEntry]) -> (r: Vec<String>)
    requires
        all_sized(reader@.tensors),
        entries@.len() == reader@.tensors.len(),
    ensures
        views(r@) == tsv_table(reader@.tensors, entry_views(entries@)),
{
    let ghost want = tsv_table(reader@.tensors, entry_views(entries@));
    let mut r: Vec<String> = Vec::new();
    r.push("name\tsrc_type\tout_type\tband\tabsmax\tn_elem\tnote".to_owned());
    let mut i: usize = 0;
    while i < reader.tensors.len()
        invariant
            all_sized(reader@.tensors),
            entries@.len() == reader@.tensors.len(),
            reader@.tensors.len() == reader.tensors@.len(),
            i <= reader.tensors@.len(),
            want == tsv_table(reader@.tensors, entry_views(entries@)),
            r@.len() == i + 1,
            forall|k: int| 0 <= k < r@.len() ==> (#[trigger] r@[k])@ == want[k],
        decreases reader.tensors@.len() - i,
    {
        assert(reader@.tensors[i as int] == reader.tensors@[i as int]@);
        assert(entry_views(entries@)[i as int] == entries@[i as int]@);
        let line = tsv_row(&reader.tensors[i], &entries[i]);
        assert(line@ == want[i + 1]);
        r.push(line);
        i += 1;
    }
    assert(views(r@) =~= want);
    r
}

/// How many tensors are in a band.
pub open spec fn band_count(entries: Seq<EntryView>, band: Band) -> nat
    decreases entries.len(),
{
    if entries.len() == 0 {
        0
    } else {
        band_count(entries.drop_last(), band) + (if entries.last().band == band {
            1nat
        } else {
            0
        })
    }
}

/// How many tensors are in a band.
pub fn count_band(entries: &[PlanEntry], band: Band) -> (n: usize)
    ensures
        n == band_count(entry_views(entries@), band),
{
    let ghost all = entry_views(entries@);
    let mut n: usize = 0;
    let mut i: usize = 0;
    assert(all.take(0) =~= Seq::empty());
    while i < entries.len()
        invariant
            i <= entries@.len(),
            n <= i,
            all == entry_views(entries@),
            n == band_count(all.take(i as int), band),
        decreases entries@.len() - i,
    {
        assert(all.take(i + 1).drop_last() =~= all.take(i as int));
        assert(all.take(i + 1).last() == entries@[i as int]@);
        if entries[i].band == band {
            n += 1;
        }
        i += 1;
    }
    assert(all.take(i as int) =~= all);
    n
}

/// Every tensor is in one band: the counts of the bands add up.
pub proof fn bands_add_up(entries: Seq<EntryView>)
    ensures
        band_count(entries, Band::A) + band_count(entries, Band::B) + band_count(entries, Band::C)
            + band_count(entries, Band::Untouched) == entries.len(),
    decreases entries.len(),
{
    if entries.len() > 0 {
        bands_add_up(entries.drop_last());
    }
}

/// The type a tensor is stored in.
pub open spec fn stored_type(kind: Kind, dtype: u32) -> u32 {
    match kind {
        Kind::CastF16 { scale: _, hadamard_d: _ } => T_F16,
        Kind::Bf16Passthrough => T_BF16,
        Kind::F32Passthrough => T_F32,
        Kind::RawPassthrough => dtype,
    }
}

/// How the tensors of the new file are declared. A cast tensor takes as many
/// bytes as before.
pub open spec fn recast_infos(tensors: Seq<TensorView>, entries: Seq<EntryView>) -> Seq<InfoView> {
    Seq::new(
        tensors.len(),
        |i: int|
            InfoView {
                name: tensors[i].name,
                shape: tensors[i].dims.reverse(),
                dtype: stored_type(entries[i].kind, tensors[i].dtype),
                nbytes: tensors[i].nbytes,
            },
    )
}

/// A list from its end.
pub fn reversed(v: &[u64]) -> (r: Vec<u64>)
    ensures
        r@ == v@.reverse(),
{
    let mut r: Vec<u64> = Vec::new();
    let n: usize = v.len();
    let mut i: usize = 0;
    while i < n
        invariant
            i <= n,
            n == v@.len(),
            r@.len() == i,
            forall|k: int| 0 <= k < i ==> #[trigger] r@[k] == v@[n - 1 - k],
        decreases n - i,
    {
        r.push(v[n - 1 - i]);
        i += 1;
    }
    assert(r@ =~= v@.reverse());
    r
}

/// How the tensors of the new file are declared.
fn declare(reader: &Reader, entries: &[PlanEntry]) -> (r: Vec<TensorInfo>)
    requires
        entries@.len() == reader@.tensors.len(),
    ensures
        info_views(r@) == recast_infos(reader@.tensors, entry_views(entries@)),
{
    let ghost want = recast_infos(reader@.tensors, entry_views(entries@));
    let mut r: Vec<TensorInfo> = Vec::new();
    let mut i: usize = 0;
    while i < reader.tensors.len()
        invariant
            entries@.len() == reader@.tensors.len(),
            reader@.tensors.len() == reader.tensors@.len(),
            i <= reader.tensors@.len(),
            want == recast_infos(reader@.tensors, entry_views(entries@)),
            r@.len() == i,
            forall|k: int| 0 <= k < i ==> (#[trigger] r@[k])@ == want[k],
        decreases reader.tensors@.len() - i,
    {
        let t = &reader.tensors[i];
        assert(reader@.tensors[i as int] == t@);
        assert(entry_views(entries@)[i as int] == entries@[i as int]@);
        let dtype: u32 = match entries[i].kind {
            Kind::CastF16 { scale: _, hadamard_d: _ } => T_F16,
            Kind::Bf16Passthrough => T_BF16,
            Kind::F32Passthrough => T_F32,
            Kind::RawPassthrough => t.dtype,
        };
        let info = TensorInfo {
            name: t.name.clone(),
            shape: reversed(t.dims.as_slice()),
            dtype,
            nbytes: t.nbytes,
        };
        assert(info@ == want[i as int]);
        r.push(info);
        i += 1;
    }
    assert(info_views(r@) =~= want);
    r
}

/// The new data of a tensor: the old ones, or their cast, in which no element
/// may be infinite.
pub open spec fn recast_data(b: Seq<u8>, r: ReaderView, t: TensorView, kind: Kind) -> Result<
    Seq<u8>,
    RecastErrorView,
> {
    match tensor_data_spec(b, r, t) {
        Err(e) => Err(RecastErrorView::Gguf(e)),
        Ok(data) => match kind {
            Kind::CastF16 { scale, hadamard_d } => {
                let halves = halves_of(
                    cast_values(u16_values(data), t.dims, scale, hadamard_d as nat),
                );
                if any_infinite(halves) {
                    Err(RecastErrorView::Infinite { name: t.name, scale, hadamard_d })
                } else {
                    Ok(half_bytes(halves))
                }
            },
            _ => Ok(data),
        },
    }
}

/// The new data of a tensor.
fn emit(reader: &Reader, b: &[u8], t: &ReaderTensor, kind: Kind, halves: &[u16]) -> (r: Result<
    Vec<u8>,
    RecastError,
>)
    requires
        is_half_table(halves@),
        sized(t@),
        rotates_well(kind),
        kind is CastF16 ==> t.dtype == T_BF16,
    ensures
        match recast_data(b@, reader@, t@, kind) {
            Ok(data) => r is Ok && r->Ok_0@ == data && data.len() == t.nbytes,
            Err(e) => r is Err && r->Err_0@ == e,
        },
{
    let data = match reader.tensor_data(b, t) {
        Ok(d) => d,
        Err(e) => {
            return Err(RecastError::Gguf(e));
        },
    };
    match kind {
        Kind::CastF16 { scale, hadamard_d } => {
            let elems = words16(data.as_slice());
            proof {
                bf16_count(t@);
            }
            match cast_pass2(elems.as_slice(), t.dims.as_slice(), scale, hadamard_d, halves) {
                Some(out) => Ok(out),
                None => Err(RecastError::Infinite { name: t.name.clone(), scale, hadamard_d }),
            }
        },
        _ => Ok(data),
    }
}

/// A recast that writes one tensor after the other.
pub struct Recasting<'a> {
    bytes: &'a [u8],
    reader: Reader,
    entries: Vec<PlanEntry>,
    halves: Vec<u16>,
    output: Output,
}

impl<'a> View for Recasting<'a> {
    type V = OutputView;

    closed spec fn view(&self) -> OutputView {
        self.output@
    }
}

impl<'a> Recasting<'a> {
    /// The bytes of the source.
    pub closed spec fn bytes(self) -> Seq<u8> {
        self.bytes@
    }

    /// The source.
    pub closed spec fn source(self) -> ReaderView {
        self.reader@
    }

    /// What becomes of each tensor.
    pub closed spec fn plan(self) -> Seq<EntryView> {
        entry_views(self.entries@)
    }

    /// What the new data of the tensor at `i` are.
    pub open spec fn data(self, i: int) -> Result<Seq<u8>, RecastErrorView> {
        recast_data(self.bytes(), self.source(), self.source().tensors[i], self.plan()[i].kind)
    }

    /// The tensors written so far hold what the plan asks for.
    pub closed spec fn wf(self) -> bool {
        &&& self.output.wf()
        &&& is_half_table(self.halves@)
        &&& all_sized(self.reader@.tensors)
        &&& all_suit(self.plan(), self.reader@.tensors)
        &&& self.output@.tensors == recast_infos(self.reader@.tensors, self.plan())
        &&& starts_with_data(self.output@.tensors, self.output@.datas)
        &&& forall|i: int|
            0 <= i < self.output@.datas.len() ==> #[trigger] self.data(i) == Ok::<
                Seq<u8>,
                RecastErrorView,
            >(self.output@.datas[i])
    }

    /// What was taken and what was not make the header and the data that the
    /// plan asks for so far; once every tensor was written, the whole file.
    pub proof fn so_far(self)
        requires
            self.wf(),
        ensures
            self@.tensors == recast_infos(self.source().tensors, self.plan()),
            self@.datas.len() <= self.source().tensors.len(),
            forall|i: int|
                0 <= i < self@.datas.len() ==> #[trigger] self.data(i) == Ok::<
                    Seq<u8>,
                    RecastErrorView,
                >(self@.datas[i]),
            self@.taken + self@.rest == header_bytes(self@.kvs, self@.tensors) + data_section(
                self@.datas,
            ),
            self@.complete() ==> self@.taken + self@.rest == file_bytes(
                self@.kvs,
                self@.tensors,
                self@.datas,
            ),
    {
        self.output.so_far();
    }

    /// Start a recast that writes these metadata.
    pub fn start(
        bytes: &'a [u8],
        reader: Reader,
        entries: Vec<PlanEntry>,
        kvs: Vec<(String, Value)>,
    ) -> (r: Result<Recasting<'a>, RecastError>)
        requires
            all_sized(reader@.tensors),
            all_suit(entry_views(entries@), reader@.tensors),
        ensures
            match file_fault(
                kv_views(kvs@),
                recast_infos(reader@.tensors, entry_views(entries@)),
            ) {
                Some(e) => r is Err && r->Err_0@ == RecastErrorView::File(e),
                None => r is Ok,
            },
            r matches Ok(c) ==> c.wf() && c.bytes() == bytes@ && c.source() == reader@ && c.plan()
                == entry_views(entries@) && c@ == (OutputView {
                kvs: kv_views(kvs@),
                tensors: recast_infos(reader@.tensors, entry_views(entries@)),
                datas: Seq::empty(),
                taken: Seq::empty(),
                rest: header_bytes(
                    kv_views(kvs@),
                    recast_infos(reader@.tensors, entry_views(entries@)),
                ),
            }),
    {
        let infos = declare(&reader, entries.as_slice());
        match Output::start(kvs, infos) {
            Ok(output) => Ok(
                Recasting { bytes, reader, entries, halves: bf16_to_f16_table(), output },
            ),
            Err(e) => Err(RecastError::File(e)),
        }
    }

    /// Recast the next tensor; whether there was one.
    pub fn step(&mut self) -> (r: Result<bool, RecastError>)
        requires
            old(self).wf(),
        ensures
            final(self).wf(),
            final(self).bytes() == old(self).bytes(),
            final(self).source() == old(self).source(),
            final(self).plan() == old(self).plan(),
            old(self)@.complete() ==> r == Ok::<bool, RecastError>(false) && final(self)@ == old(
                self,
            )@,
            !old(self)@.complete() ==> match old(self).data(old(self)@.datas.len() as int) {
                Ok(data) => r == Ok::<bool, RecastError>(true) && final(self)@ == old(
                    self,
                )@.pushed(data),
                Err(e) => r is Err && r->Err_0@ == e && final(self)@ == old(self)@,
            },
    {
        let ghost before = self.output@.datas;
        let ghost k = before.len() as int;
        proof {
            self.output.so_far();
        }
        let i: usize = self.output.written();
        if i >= self.reader.tensors.len() {
            return Ok(false);
        }
        assert(self.reader@.tensors[k] == self.reader.tensors@[k]@);
        assert(self.plan()[k] == self.entries@[k]@);
        match emit(
            &self.reader,
            self.bytes,
            &self.reader.tensors[i],
            self.entries[i].kind,
            self.halves.as_slice(),
        ) {
            Err(e) => Err(e),
            Ok(data) => {
                proof {
                    declared_has_room(self.output@);
                }
                self.output.push(data.as_slice());
                proof {
                    let now = self.output@.datas;
                    assert forall|j: int| 0 <= j < now.len() implies (#[trigger] now[j]).len()
                        == self.output@.tensors[j].nbytes by {
                        if j < k {
                            assert(now[j] == before[j]);
                        }
                    }
                    assert forall|j: int| 0 <= j < now.len() implies #[trigger] self.data(j) == Ok::<
                        Seq<u8>,
                        RecastErrorView,
                    >(now[j]) by {
                        if j < k {
                            assert(old(self).data(j) == Ok::<Seq<u8>, RecastErrorView>(before[j]));
                        }
                    }
                }
                Ok(true)
            },
        }
    }

    /// Take the bytes that were written and not yet taken.
    pub fn take(&mut self) -> (r: Vec<u8>)
        requires
            old(self).wf(),
        ensures
            final(self).wf(),
            final(self).bytes() == old(self).bytes(),
            final(self).source() == old(self).source(),
            final(self).plan() == old(self).plan(),
            r@ == old(self)@.rest,
            final(self)@ == (OutputView {
                taken: old(self)@.taken + r@,
                rest: Seq::empty(),
                ..old(self)@
            }),
    {
        let out = self.output.take();
        proof {
            let datas = self.output@.datas;
            assert forall|j: int| 0 <= j < datas.len() implies #[trigger] self.data(j) == Ok::<
                Seq<u8>,
                RecastErrorView,
            >(datas[j]) by {
                assert(old(self).data(j) == Ok::<Seq<u8>, RecastErrorView>(datas[j]));
            }
        }
        out
    }
}

/// What stops a file with these metadata and tensors.
pub open spec fn file_fault(
    kvs: Seq<(Seq<char>, ValueView)>,
    infos: Seq<InfoView>,
) -> Option<FileFault> {
    if !distinct_keys(kvs) {
        Some(FileFault::DuplicateKey)
    } else if !distinct_names(infos) {
        Some(FileFault::DuplicateTensor)
    } else if data_size(infos) > u64::MAX {
        Some(FileFault::TooLarge)
    } else {
        None
    }
}

/// The names of tensors.
pub open spec fn names_of(tensors: Seq<TensorView>) -> Seq<Seq<char>> {
    tensors.map_values(|t: TensorView| t.name)
}

/// The names of tensors.
fn tensor_names(reader: &Reader) -> (r: Vec<String>)
    ensures
        views(r@) == names_of(reader@.tensors),
        r@.len() == reader@.tensors.len(),
{
    let mut r: Vec<String> = Vec::new();
    let mut i: usize = 0;
    while i < reader.tensors.len()
        invariant
            i <= reader.tensors@.len(),
            r@.len() == i,
            forall|k: int| 0 <= k < i ==> (#[trigger] r@[k])@ == reader.tensors@[k].name@,
        decreases reader.tensors@.len() - i,
    {
        r.push(reader.tensors[i].name.clone());
        i += 1;
    }
    assert(views(r@) =~= names_of(reader@.tensors));
    r
}

/// The architecture that a file names, if it does.
pub open spec fn architecture(kvs: Seq<(Seq<char>, ValueView)>) -> Option<Seq<char>> {
    match lookup(kvs, "general.architecture"@) {
        Some(ValueView::Str(s)) => Some(s),
        _ => None,
    }
}

/// The architecture that a file names.
pub fn find_architecture(reader: &Reader) -> (r: Result<String, RecastError>)
    ensures
        match architecture(reader@.kvs) {
            Some(s) => r is Ok && r->Ok_0@ == s,
            None => r is Err && r->Err_0@ == RecastErrorView::NoArchitecture,
        },
{
    match reader.get("general.architecture") {
        Some(Value::Str(s)) => Ok(s.clone()),
        _ => Err(RecastError::NoArchitecture),
    }
}

/// Every tensor of an opened file has the size that follows from its type and
/// shape.
pub proof fn opened_sized(b: Seq<u8>, r: ReaderView)
    requires
        dec_file(b) == Ok::<_, ErrorView>(r),
    ensures
        all_sized(r.tensors),
{
    assert forall|i: int| 0 <= i < r.tensors.len() implies sized(#[trigger] r.tensors[i]) by {
        tensors_are_sized(b, i);
    }
}

/// What a recast gives: the table of largest magnitudes, and the new file
/// unless the recast only looks.
pub struct Outcome {
    pub tsv: Vec<String>,
    pub file: Option<Vec<u8>>,
}

/// The metadata of the file that a task writes, or the key under which an
/// integer does not fit.
pub open spec fn task_entries(task: Task, arch: Seq<char>) -> Result<
    Seq<(Seq<char>, ValueView)>,
    Seq<char>,
> {
    recast_entries(
        arch,
        task.source.kvs,
        task.tier,
        task.force_rescale,
        names_of(task.source.tensors),
        kinds_of(task.entries()),
        task.channels(),
    )
}

impl Task {
    /// What the new data of the tensor at `i` are.
    pub open spec fn data(self, i: int) -> Result<Seq<u8>, RecastErrorView> {
        recast_data(self.bytes, self.source, self.source.tensors[i], self.entries()[i].kind)
    }

    /// What stops the data of the first tensor from `k` on that are stopped.
    pub open spec fn data_error(self, k: int) -> Option<RecastErrorView>
        decreases self.source.tensors.len() - k,
    {
        if k >= self.source.tensors.len() {
            None
        } else {
            match self.data(k) {
                Err(e) => Some(e),
                Ok(_) => self.data_error(k + 1),
            }
        }
    }

    /// The new data of all tensors.
    pub open spec fn datas(self) -> Seq<Seq<u8>> {
        Seq::new(self.source.tensors.len(), |i: int| self.data(i)->Ok_0)
    }

    /// The file that is written, or what stops it.
    pub open spec fn file(self, arch: Seq<char>) -> Result<Seq<u8>, RecastErrorView> {
        let infos = recast_infos(self.source.tensors, self.entries());
        match task_entries(self, arch) {
            Err(key) => Err(RecastErrorView::ArrayRange(key)),
            Ok(kvs) => match file_fault(kvs, infos) {
                Some(e) => Err(RecastErrorView::File(e)),
                None => match self.data_error(0) {
                    Some(e) => Err(e),
                    None => Ok(file_bytes(kvs, infos, self.datas())),
                },
            },
        }
    }
}

/// Write the file of a task.
fn write_file(
    b: &[u8],
    reader: Reader,
    analysis: Analysis,
    arch: &str,
    tier: Tier,
    force_rescale: bool,
    Ghost(task): Ghost<Task>,
) -> (r: Result<Vec<u8>, RecastError>)
    requires
        all_sized(reader@.tensors),
        task.bytes == b@,
        task.source == reader@,
        task.tier == tier,
        task.force_rescale == force_rescale,
        entry_views(analysis.entries@) == task.entries(),
        channel_views(analysis.channels@) == task.channels(),
        all_suit(task.entries(), reader@.tensors),
    ensures
        match task.file(arch@) {
            Ok(f) => r is Ok && r->Ok_0@ == f,
            Err(e) => r is Err && r->Err_0@ == e,
        },
{
    let names = tensor_names(&reader);
    assert(entry_views(analysis.entries@).len() == analysis.entries@.len());
    assert(channel_views(analysis.channels@).len() == analysis.channels@.len());
    let kvs = match build_recast_kvs(
        arch,
        reader.kvs.as_slice(),
        tier,
        force_rescale,
        names.as_slice(),
        analysis.entries.as_slice(),
        analysis.channels.as_slice(),
    ) {
        Ok(k) => k,
        Err(key) => {
            return Err(RecastError::ArrayRange(key));
        },
    };
    let ghost entries = kv_views(kvs@);
    let ghost infos = recast_infos(task.source.tensors, task.entries());
    assert(task_entries(task, arch@) == Ok::<_, Seq<char>>(entries));
    let mut c = match Recasting::start(b, reader, analysis.entries, kvs) {
        Ok(c) => c,
        Err(e) => {
            return Err(e);
        },
    };
    let mut more = true;
    while more
        invariant
            c.wf(),
            c.bytes() == task.bytes,
            c.source() == task.source,
            c.plan() == task.entries(),
            c@.kvs == entries,
            c@.tensors == infos,
            c@.taken == Seq::<u8>::empty(),
            infos == recast_infos(task.source.tensors, task.entries()),
            task_entries(task, arch@) == Ok::<_, Seq<char>>(entries),
            file_fault(entries, infos) is None,
            task.data_error(0) == task.data_error(c@.datas.len() as int),
            !more ==> c@.complete(),
        decreases task.source.tensors.len() - c@.datas.len() + (if more {
            1int
        } else {
            0int
        }),
    {
        proof {
            c.so_far();
            assert(c.data(c@.datas.len() as int) == task.data(c@.datas.len() as int));
        }
        match c.step() {
            Ok(more_now) => {
                more = more_now;
            },
            Err(e) => {
                return Err(e);
            },
        }
    }
    proof {
        c.so_far();
        assert(c@.datas =~= task.datas()) by {
            assert forall|i: int| 0 <= i < c@.datas.len() implies c@.datas[i]
                == #[trigger] task.datas()[i] by {
                assert(c.data(i) == Ok::<Seq<u8>, RecastErrorView>(c@.datas[i]));
                assert(c.data(i) == task.data(i));
            }
        }
    }
    let out = c.take();
    assert(Seq::<u8>::empty() + out@ =~= out@);
    Ok(out)
}

/// What the outcome of a recast is.
pub struct OutcomeView {
    pub tsv: Seq<Seq<char>>,
    pub file: Option<Seq<u8>>,
}

impl View for Outcome {
    type V = OutcomeView;

    open spec fn view(&self) -> OutcomeView {
        OutcomeView {
            tsv: views(self.tsv@),
            file: match self.file {
                Some(f) => Some(f@),
                None => None,
            },
        }
    }
}

impl Task {
    /// What a task gives once every tensor is planned, or what stops it: a
    /// file unless the recast only looks.
    pub open spec fn outcome(self, arch: Seq<char>) -> Result<OutcomeView, RecastErrorView> {
        let tsv = tsv_table(self.source.tensors, self.entries());
        if self.tier == Tier::DryRun {
            Ok(OutcomeView { tsv, file: None })
        } else {
            match self.file(arch) {
                Err(e) => Err(e),
                Ok(f) => Ok(OutcomeView { tsv, file: Some(f) }),
            }
        }
    }

    /// What a task gives, or what stops it: first all tensors are planned.
    pub open spec fn result(self, arch: Seq<char>) -> Result<OutcomeView, RecastErrorView> {
        match self.error(0) {
            Some(e) => Err(e),
            None => self.outcome(arch),
        }
    }
}

/// Carry out a task whose tensors are planned.
fn carry_out(
    b: &[u8],
    reader: Reader,
    analysis: Analysis,
    arch: &str,
    tier: Tier,
    force_rescale: bool,
    Ghost(task): Ghost<Task>,
) -> (r: Result<Outcome, RecastError>)
    requires
        all_sized(reader@.tensors),
        task.bytes == b@,
        task.source == reader@,
        task.tier == tier,
        task.force_rescale == force_rescale,
        entry_views(analysis.entries@) == task.entries(),
        channel_views(analysis.channels@) == task.channels(),
        all_suit(task.entries(), reader@.tensors),
    ensures
        match task.outcome(arch@) {
            Ok(o) => r is Ok && r->Ok_0@ == o,
            Err(e) => r is Err && r->Err_0@ == e,
        },
{
    assert(entry_views(analysis.entries@).len() == analysis.entries@.len());
    let tsv = tsv_lines(&reader, analysis.entries.as_slice());
    if tier == Tier::DryRun {
        return Ok(Outcome { tsv, file: None });
    }
    match write_file(b, reader, analysis, arch, tier, force_rescale, Ghost(task)) {
        Ok(f) => Ok(Outcome { tsv, file: Some(f) }),
        Err(e) => Err(e),
    }
}

/// What a recast gives, or what stops it.
pub open spec fn recast_of(
    b: Seq<u8>,
    policy: Seq<char>,
    tier: Seq<char>,
    force_rescale: bool,
) -> Result<OutcomeView, RecastErrorView> {
    match tier_of(tier) {
        None => Err(RecastErrorView::UnknownTier),
        Some(tier) => match policy_of(policy) {
            Err(e) => Err(RecastErrorView::Policy(e)),
            Ok(patterns) => match dec_file(b) {
                Err(e) => Err(RecastErrorView::Gguf(e)),
                Ok(source) => match architecture(source.kvs) {
                    None => Err(RecastErrorView::NoArchitecture),
                    Some(arch) => (Task {
                        bytes: b,
                        source,
                        patterns,
                        tier,
                        force_rescale,
                    }).result(arch),
                },
            },
        },
    }
}

/// Recast a file by a policy.
pub fn run(b: &[u8], policy: &str, tier: &str, force_rescale: bool) -> (r: Result<
    Outcome,
    RecastError,
>)
    requires
        b@.len() + ALIGNMENT <= u64::MAX,
    ensures
        match recast_of(b@, policy@, tier@, force_rescale) {
            Ok(o) => r is Ok && r->Ok_0@ == o,
            Err(e) => r is Err && r->Err_0@ == e,
        },
{
    let tier = match Tier::parse(tier) {
        Some(t) => t,
        None => {
            return Err(RecastError::UnknownTier);
        },
    };
    let policy = match Policy::load(policy) {
        Ok(p) => p,
        Err(e) => {
            return Err(RecastError::Policy(e));
        },
    };
    let reader = match Reader::open(b) {
        Ok(r) => r,
        Err(e) => {
            return Err(RecastError::Gguf(e));
        },
    };
    let arch = match find_architecture(&reader) {
        Ok(a) => a,
        Err(e) => {
            return Err(e);
        },
    };
    proof {
        opened_sized(b@, reader@);
    }
    let ghost task = Task {
        bytes: b@,
        source: reader@,
        patterns: policy@,
        tier,
        force_rescale,
    };
    match analyze(b, &reader, &policy, tier, force_rescale) {
        Ok(analysis) => carry_out(
            b,
            reader,
            analysis,
            arch.as_str(),
            tier,
            force_rescale,
            Ghost(task),
        ),
        Err(e) => Err(e),
    }
}

} // verus!
