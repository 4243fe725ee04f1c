//! Type-code migration for GGUF files written by earlier enums.
//!
//! Rewrites a GGUF so every tensor carries the type code of the current enum,
//! remapping ids that moved between enums. Tensor data and metadata are copied;
//! only the ids in the header change.

pub mod moved;

use crate::gguf::format::{dec_file, ErrorView, Field, ReaderView, TensorView};
use crate::gguf::laws::{
    as_declared, data_fits, file_bytes, file_reads_back, read_is_writable, readable,
    resolved_codes_stay,
};
use crate::gguf::output::FileError;
use crate::gguf::reader::{tensor_data_spec, GgufError, Reader, ReaderTensor};
use crate::gguf::writer::{entries, entry, InfoView};
use crate::gguf::{
    kv_views, migrated, resolve_ftype, Value, ValueView, ALIGNMENT, FTYPE_MIGRATIONS,
    TYPE_CODE_MIGRATIONS,
};
use crate::metadata::{one, put};
use crate::recast::kvs::entry_views;
use crate::recast::plan::{EntryView, Kind, PlanEntry};
use crate::recast::run::{
    file_fault, opened_sized, recast_infos, FileFault, RecastError, RecastErrorView, Recasting,
};
use crate::recast::values::Band;
use crate::text::same;
use vstd::prelude::*;

verus! {

/// Why a file is not migrated.
#[derive(Debug)]
pub enum MigrateError {
    /// The file type is no integer.
    FtypeNotInteger,
    /// The file cannot be read.
    Gguf(GgufError),
    /// The new file cannot be written.
    File(FileError),
}

/// What an error means.
pub enum MigrateErrorView {
    FtypeNotInteger,
    Gguf(ErrorView),
    File(FileFault),
}

impl View for MigrateError {
    type V = MigrateErrorView;

    open spec fn view(&self) -> MigrateErrorView {
        match *self {
            MigrateError::FtypeNotInteger => MigrateErrorView::FtypeNotInteger,
            MigrateError::Gguf(e) => MigrateErrorView::Gguf(e@),
            MigrateError::File(e) => MigrateErrorView::File(e.fault()),
        }
    }
}

/// A file type, if it is an integer.
pub open spec fn ftype_in(v: ValueView) -> Option<u32> {
    match v {
        ValueView::U32(x) => Some(x),
        ValueView::I32(x) => Some(x as u32),
        _ => None,
    }
}

/// A file type under its current id, `None` where it is no integer.
pub open spec fn current_ftype(v: ValueView) -> Option<ValueView> {
    match v {
        ValueView::U32(x) => Some(ValueView::U32(migrated(FTYPE_MIGRATIONS@, x))),
        ValueView::I32(x) => Some(ValueView::I32(migrated(FTYPE_MIGRATIONS@, x as u32) as i32)),
        _ => None,
    }
}

/// What becomes of an entry: the file type takes its current id, all else
/// stays. `None` where the file type is no integer.
pub open spec fn migrated_entry(kv: (Seq<char>, ValueView)) -> Option<(Seq<char>, ValueView)> {
    if kv.0 == "general.ftype"@ {
        match current_ftype(kv.1) {
            Some(v) => Some((kv.0, v)),
            None => None,
        }
    } else {
        Some(kv)
    }
}

/// Whether every file type is an integer.
pub open spec fn ftypes_known(kvs: Seq<(Seq<char>, ValueView)>) -> bool {
    forall|i: int| 0 <= i < kvs.len() ==> migrated_entry(#[trigger] kvs[i]) is Some
}

/// What becomes of the entries.
pub open spec fn migrated_entries(kvs: Seq<(Seq<char>, ValueView)>) -> Seq<
    (Seq<char>, ValueView),
> {
    Seq::new(kvs.len(), |i: int| migrated_entry(kvs[i])->0)
}

/// The remapped file type that stands last.
pub open spec fn last_ftype(kvs: Seq<(Seq<char>, ValueView)>) -> Option<u32>
    decreases kvs.len(),
{
    if kvs.len() == 0 {
        None
    } else if kvs.last().0 == "general.ftype"@ && ftype_in(kvs.last().1) is Some {
        Some(migrated(FTYPE_MIGRATIONS@, ftype_in(kvs.last().1)->0))
    } else {
        last_ftype(kvs.drop_last())
    }
}

/// The tensors whose type code changes: name, stored code, current code.
pub open spec fn moved_tensors(tensors: Seq<TensorView>) -> Seq<(Seq<char>, u32, u32)>
    decreases tensors.len(),
{
    if tensors.len() == 0 {
        Seq::empty()
    } else {
        let rest = moved_tensors(tensors.drop_last());
        let t = tensors.last();
        if t.dtype_orig != t.dtype {
            rest.push((t.name, t.dtype_orig, t.dtype))
        } else {
            rest
        }
    }
}

/// How the tensors of the new file are declared: with their current type
/// codes.
pub open spec fn migrated_infos(tensors: Seq<TensorView>) -> Seq<InfoView> {
    Seq::new(
        tensors.len(),
        |i: int|
            InfoView {
                name: tensors[i].name,
                shape: tensors[i].dims.reverse(),
                dtype: tensors[i].dtype,
                nbytes: tensors[i].nbytes,
            },
    )
}

/// A tensor whose type code changed.
#[derive(Debug)]
pub struct Moved {
    pub name: String,
    /// The stored code.
    pub from: u32,
    /// The current code.
    pub to: u32,
}

impl View for Moved {
    type V = (Seq<char>, u32, u32);

    open spec fn view(&self) -> (Seq<char>, u32, u32) {
        (self.name@, self.from, self.to)
    }
}

/// What a list of changes means.
pub open spec fn moved_views(v: Seq<Moved>) -> Seq<(Seq<char>, u32, u32)> {
    Seq::new(v.len(), |i: int| v[i]@)
}

/// A file type under its current id, with that id.
fn update_ftype(v: &Value) -> (r: Option<(Value, u32)>)
    ensures
        r is Some <==> current_ftype(v@) is Some,
        r matches Some(p) ==> p.0@ == current_ftype(v@)->0 && ftype_in(v@) is Some && p.1
            == migrated(FTYPE_MIGRATIONS@, ftype_in(v@)->0),
{
    match v {
        Value::U32(x) => {
            let f: u32 = resolve_ftype(*x);
            Some((Value::U32(f), f))
        },
        Value::I32(x) => {
            let f: u32 = resolve_ftype(*x as u32);
            Some((Value::I32(f as i32), f))
        },
        _ => None,
    }
}

/// What becomes of the metadata, and the file type that stands last.
fn migrate_kvs(kvs: &[(String, Value)]) -> (r: Result<
    (Vec<(String, Value)>, Option<u32>),
    MigrateError,
>)
    ensures
        if ftypes_known(kv_views(kvs@)) {
            r is Ok && kv_views(r->Ok_0.0@) == migrated_entries(kv_views(kvs@)) && r->Ok_0.1
                == last_ftype(kv_views(kvs@))
        } else {
            r is Err && r->Err_0@ == MigrateErrorView::FtypeNotInteger
        },
{
    let ghost all = kv_views(kvs@);
    let ghost want = migrated_entries(all);
    let mut out: Vec<(String, Value)> = Vec::new();
    let mut ftype: Option<u32> = None;
    let mut i: usize = 0;
    assert(all.take(0) =~= Seq::empty());
    assert(kv_views(out@) =~= want.take(0));
    while i < kvs.len()
        invariant
            i <= kvs@.len(),
            all == kv_views(kvs@),
            want == migrated_entries(all),
            kv_views(out@) == want.take(i as int),
            forall|k: int| 0 <= k < i ==> migrated_entry(#[trigger] all[k]) is Some,
            ftype == last_ftype(all.take(i as int)),
        decreases kvs@.len() - i,
    {
        proof {
            assert(all[i as int] == (kvs@[i as int].0@, kvs@[i as int].1@));
            assert(all.take(i + 1).drop_last() =~= all.take(i as int));
            assert(all.take(i + 1).last() == all[i as int]);
            assert(want.take(i + 1) =~= want.take(i as int).push(want[i as int]));
        }
        let key = kvs[i].0.as_str();
        let ghost before = kv_views(out@);
        if same(key, "general.ftype") {
            match update_ftype(&kvs[i].1) {
                Some((v, f)) => {
                    let ghost w = v@;
                    ftype = Some(f);
                    put(&mut out, key, v);
                    assert(before + one(key@, w) =~= before.push((key@, w)));
                },
                None => {
                    return Err(MigrateError::FtypeNotInteger);
                },
            }
        } else {
            put(&mut out, key, kvs[i].1.clone());
            assert(before + one(key@, kvs@[i as int].1@) =~= before.push(all[i as int]));
        }
        i += 1;
    }
    assert(all.take(i as int) =~= all);
    assert(want.take(i as int) =~= want);
    Ok((out, ftype))
}

/// The tensors whose type code changes.
fn find_moved(reader: &Reader) -> (r: Vec<Moved>)
    ensures
        moved_views(r@) == moved_tensors(reader@.tensors),
{
    let ghost all = reader@.tensors;
    let mut r: Vec<Moved> = Vec::new();
    let mut i: usize = 0;
    assert(all.take(0) =~= Seq::empty());
    assert(moved_views(r@) =~= Seq::empty());
    while i < reader.tensors.len()
        invariant
            i <= reader.tensors@.len(),
            all == reader@.tensors,
            all.len() == reader.tensors@.len(),
            moved_views(r@) == moved_tensors(all.take(i as int)),
        decreases reader.tensors@.len() - i,
    {
        proof {
            assert(all.take(i + 1).drop_last() =~= all.take(i as int));
            assert(all.take(i + 1).last() == reader.tensors@[i as int]@);
        }
        let t = &reader.tensors[i];
        if t.dtype_orig != t.dtype {
            let ghost before = moved_views(r@);
            let m = Moved { name: t.name.clone(), from: t.dtype_orig, to: t.dtype };
            let ghost v = m@;
            r.push(m);
            assert(moved_views(r@) =~= before.push(v));
        }
        i += 1;
    }
    assert(all.take(i as int) =~= all);
    r
}

/// Plans under which all data stay.
pub open spec fn raw_plans(n: nat) -> Seq<EntryView> {
    Seq::new(
        n,
        |i: int|
            EntryView {
                kind: Kind::RawPassthrough,
                out_dtype: 0,
                band: Band::Untouched,
                absmax: 0,
                note: Seq::empty(),
            },
    )
}

/// Plans under which all data stay.
fn keep_all(n: usize) -> (r: Vec<PlanEntry>)
    ensures
        entry_views(r@) == raw_plans(n as nat),
{
    let mut r: Vec<PlanEntry> = Vec::new();
    let mut i: usize = 0;
    while i < n
        invariant
            i <= n,
            r@.len() == i,
            forall|k: int| 0 <= k < i ==> (#[trigger] r@[k])@ == raw_plans(n as nat)[k],
        decreases n - i,
    {
        let e = PlanEntry {
            kind: Kind::RawPassthrough,
            out_dtype: 0,
            band: Band::Untouched,
            absmax: 0,
            note: String::new(),
        };
        assert(e.note@ =~= Seq::empty());
        r.push(e);
        i += 1;
    }
    assert(entry_views(r@) =~= raw_plans(n as nat));
    r
}

/// A migration that writes one tensor after the other, with what it changes.
pub struct Migrating<'a> {
    pub work: Recasting<'a>,
    /// The tensors whose type code changes.
    pub moved: Vec<Moved>,
    /// The remapped file type.
    pub ftype: Option<u32>,
}

/// The metadata of the new file, `None` where the file type is no integer.
pub open spec fn new_entries(source: ReaderView) -> Option<Seq<(Seq<char>, ValueView)>> {
    if ftypes_known(source.kvs) {
        Some(migrated_entries(source.kvs))
    } else {
        None
    }
}

/// What stops a migration before any data are copied.
pub open spec fn start_error(b: Seq<u8>) -> Option<MigrateErrorView> {
    match dec_file(b) {
        Err(e) => Some(MigrateErrorView::Gguf(e)),
        Ok(source) => match new_entries(source) {
            None => Some(MigrateErrorView::FtypeNotInteger),
            Some(kvs) => match file_fault(kvs, migrated_infos(source.tensors)) {
                Some(e) => Some(MigrateErrorView::File(e)),
                None => None,
            },
        },
    }
}

/// Start a migration: read the header and write the new one.
pub fn start<'a>(b: &'a [u8]) -> (r: Result<Migrating<'a>, MigrateError>)
    requires
        b@.len() + ALIGNMENT <= u64::MAX,
    ensures
        match start_error(b@) {
            Some(e) => r is Err && r->Err_0@ == e,
            None => r is Ok,
        },
        r matches Ok(m) ==> {
            let source = dec_file(b@)->Ok_0;
            &&& m.work.wf()
            &&& m.work.bytes() == b@
            &&& m.work.source() == source
            &&& m.work.plan() == raw_plans(source.tensors.len())
            &&& m.work@.kvs == new_entries(source)->0
            &&& m.work@.tensors == migrated_infos(source.tensors)
            &&& m.work@.datas == Seq::<Seq<u8>>::empty()
            &&& m.work@.taken == Seq::<u8>::empty()
            &&& moved_views(m.moved@) == moved_tensors(source.tensors)
            &&& m.ftype == last_ftype(source.kvs)
        },
{
    let reader = match Reader::open(b) {
        Ok(r) => r,
        Err(e) => {
            return Err(MigrateError::Gguf(e));
        },
    };
    let ghost source = reader@;
    proof {
        opened_sized(b@, source);
    }
    let (kvs, ftype) = match migrate_kvs(reader.kvs.as_slice()) {
        Ok(p) => p,
        Err(e) => {
            return Err(e);
        },
    };
    let moved = find_moved(&reader);
    let plans = keep_all(reader.tensors.len());
    assert(recast_infos(source.tensors, raw_plans(source.tensors.len())) =~= migrated_infos(
        source.tensors,
    ));
    match Recasting::start(b, reader, plans, kvs) {
        Ok(work) => Ok(Migrating { work, moved, ftype }),
        Err(RecastError::File(e)) => Err(MigrateError::File(e)),
        Err(_) => Err(MigrateError::File(FileError::TooLarge)),
    }
}

/// The data of the first tensors from `k` on that are missing stop a
/// migration.
pub open spec fn data_missing(b: Seq<u8>, source: ReaderView, k: int) -> Option<ErrorView>
    decreases source.tensors.len() - k,
{
    if k >= source.tensors.len() {
        None
    } else {
        match tensor_data_spec(b, source, source.tensors[k]) {
            Err(e) => Some(e),
            Ok(_) => data_missing(b, source, k + 1),
        }
    }
}

/// The data of all tensors.
pub open spec fn source_data(b: Seq<u8>, source: ReaderView) -> Seq<Seq<u8>> {
    Seq::new(
        source.tensors.len(),
        |i: int| tensor_data_spec(b, source, source.tensors[i])->Ok_0,
    )
}

/// The migrated file, or what stops it.
pub open spec fn migrated_file(b: Seq<u8>) -> Result<Seq<u8>, MigrateErrorView> {
    match start_error(b) {
        Some(e) => Err(e),
        None => {
            let source = dec_file(b)->Ok_0;
            match data_missing(b, source, 0) {
                Some(e) => Err(MigrateErrorView::Gguf(e)),
                None => Ok(
                    file_bytes(
                        new_entries(source)->0,
                        migrated_infos(source.tensors),
                        source_data(b, source),
                    ),
                ),
            }
        },
    }
}

/// What a migration gives.
pub struct Migration {
    pub file: Vec<u8>,
    /// The tensors whose type code changed.
    pub moved: Vec<Moved>,
    /// The remapped file type.
    pub ftype: Option<u32>,
}

/// An error while data are copied.
fn copy_error(e: RecastError) -> (r: MigrateError)
    requires
        e is Gguf,
    ensures
        r@ == MigrateErrorView::Gguf(e->Gguf_0@),
{
    match e {
        RecastError::Gguf(g) => MigrateError::Gguf(g),
        _ => MigrateError::FtypeNotInteger,
    }
}

/// Migrate a file.
pub fn run(b: &[u8]) -> (r: Result<Migration, MigrateError>)
    requires
        b@.len() + ALIGNMENT <= u64::MAX,
    ensures
        match migrated_file(b@) {
            Err(e) => r is Err && r->Err_0@ == e,
            Ok(f) => r is Ok && r->Ok_0.file@ == f && moved_views(r->Ok_0.moved@)
                == moved_tensors(dec_file(b@)->Ok_0.tensors) && r->Ok_0.ftype == last_ftype(
                dec_file(b@)->Ok_0.kvs,
            ),
        },
{
    let m = match start(b) {
        Ok(m) => m,
        Err(e) => {
            return Err(e);
        },
    };
    let ghost source = dec_file(b@)->Ok_0;
    let ghost kvs = new_entries(source)->0;
    let ghost infos = migrated_infos(source.tensors);
    let mut c = m.work;
    let mut more = true;
    while more
        invariant
            c.wf(),
            c.bytes() == b@,
            c.source() == source,
            c.plan() == raw_plans(source.tensors.len()),
            c@.kvs == kvs,
            c@.tensors == infos,
            infos == migrated_infos(source.tensors),
            c@.taken == Seq::<u8>::empty(),
            start_error(b@) is None,
            source == dec_file(b@)->Ok_0,
            kvs == new_entries(source)->0,
            data_missing(b@, source, 0) == data_missing(b@, source, c@.datas.len() as int),
            !more ==> c@.complete(),
        decreases source.tensors.len() - c@.datas.len() + (if more {
            1int
        } else {
            0int
        }),
    {
        proof {
            c.so_far();
        }
        match c.step() {
            Ok(more_now) => {
                more = more_now;
            },
            Err(e) => {
                return Err(copy_error(e));
            },
        }
    }
    proof {
        c.so_far();
        assert(c@.datas =~= source_data(b@, source)) by {
            assert forall|i: int| 0 <= i < c@.datas.len() implies c@.datas[i]
                == #[trigger] source_data(b@, source)[i] by {
                assert(c.data(i) == Ok::<Seq<u8>, RecastErrorView>(c@.datas[i]));
            }
        }
    }
    let file = c.take();
    assert(Seq::<u8>::empty() + file@ =~= file@);
    Ok(Migration { file, moved: m.moved, ftype: m.ftype })
}

/// A tensor that was read can be declared with its current type code, and its
/// code then stays.
proof fn current_code_is_readable(t: TensorView)
    requires
        ReaderTensor::valid(t),
    ensures
        readable(
            InfoView {
                name: t.name,
                shape: t.dims.reverse(),
                dtype: t.dtype,
                nbytes: t.nbytes,
            },
        ),
        migrated(TYPE_CODE_MIGRATIONS@, t.dtype) == t.dtype,
{
    resolved_codes_stay(t.dtype_orig);
    assert(t.dims.reverse().reverse() =~= t.dims);
}

/// Tensors that all carry their current code are not moved.
proof fn nothing_to_move(tensors: Seq<TensorView>)
    requires
        forall|i: int|
            0 <= i < tensors.len() ==> (#[trigger] tensors[i]).dtype_orig == tensors[i].dtype,
    ensures
        moved_tensors(tensors).len() == 0,
    decreases tensors.len(),
{
    if tensors.len() > 0 {
        nothing_to_move(tensors.drop_last());
    }
}

/// Whether a tensor is another one under its current type code.
pub open spec fn same_but_code(after: TensorView, before: TensorView) -> bool {
    &&& after.name == before.name
    &&& after.dims == before.dims
    &&& after.nbytes == before.nbytes
    &&& after.dtype == before.dtype
    &&& after.dtype_orig == before.dtype
}

/// Whether an entry is another one but for the id of a file type that moved.
pub open spec fn same_but_ftype(
    after: (Seq<char>, ValueView),
    before: (Seq<char>, ValueView),
) -> bool {
    if before.0 == "general.ftype"@ {
        &&& after.0 == before.0
        &&& current_ftype(before.1) == Some(after.1)
        &&& ftype_in(before.1) matches Some(f) && (migrated(FTYPE_MIGRATIONS@, f) == f ==> after
            == before)
    } else {
        after == before
    }
}

/// What becomes of an entry is the entry but for the id of a file type that
/// moved, and stays when migrated again.
proof fn entry_stays(kv: (Seq<char>, ValueView))
    requires
        migrated_entry(kv) is Some,
    ensures
        same_but_ftype(migrated_entry(kv)->0, kv),
        migrated_entry(migrated_entry(kv)->0) == migrated_entry(kv),
        <(String, Value)>::valid(kv) ==> <(String, Value)>::valid(migrated_entry(kv)->0),
{
    if kv.0 == "general.ftype"@ {
        let f = ftype_in(kv.1)->0;
        let g = migrated(FTYPE_MIGRATIONS@, f);
        resolved_codes_stay(f);
        assert((g as i32) as u32 == g) by (bit_vector);
        if let ValueView::I32(x) = kv.1 {
            assert((x as u32) as i32 == x) by (bit_vector);
        }
    }
}

/// The metadata of a migrated file can be written, and are those of the
/// source but for the id of a file type that moved.
proof fn metadata_stay(b: Seq<u8>)
    requires
        start_error(b) is None,
    ensures
        ({
            let source = dec_file(b)->Ok_0;
            let kvs = new_entries(source)->0;
            &&& kvs.len() == source.kvs.len() <= u64::MAX
            &&& forall|i: int|
                0 <= i < kvs.len() ==> <(String, Value)>::valid(#[trigger] kvs[i])
                    && same_but_ftype(kvs[i], source.kvs[i])
        }),
{
    let source = dec_file(b)->Ok_0;
    let kvs = new_entries(source)->0;
    read_is_writable(b);
    assert forall|i: int| 0 <= i < kvs.len() implies <(String, Value)>::valid(#[trigger] kvs[i])
        && same_but_ftype(kvs[i], source.kvs[i]) by {
        assert(<(String, Value)>::valid(source.kvs[i]));
        entry_stays(source.kvs[i]);
    }
}

/// The tensors of a migrated file are declared so that they can be read back,
/// and then are those of the source under their current type codes.
proof fn declarations_stay(b: Seq<u8>)
    requires
        start_error(b) is None,
    ensures
        ({
            let source = dec_file(b)->Ok_0;
            let infos = migrated_infos(source.tensors);
            &&& infos.len() == source.tensors.len() <= u64::MAX
            &&& forall|i: int| 0 <= i < infos.len() ==> readable(#[trigger] infos[i])
            &&& forall|i: int|
                0 <= i < infos.len() ==> same_but_code(
                    #[trigger] entries(infos)[i],
                    source.tensors[i],
                )
        }),
{
    let source = dec_file(b)->Ok_0;
    let infos = migrated_infos(source.tensors);
    read_is_writable(b);
    assert forall|i: int| 0 <= i < infos.len() implies readable(#[trigger] infos[i]) by {
        assert(ReaderTensor::valid(source.tensors[i]));
        current_code_is_readable(source.tensors[i]);
    }
    assert forall|i: int| 0 <= i < infos.len() implies same_but_code(
        #[trigger] entries(infos)[i],
        source.tensors[i],
    ) by {
        assert(ReaderTensor::valid(source.tensors[i]));
        current_code_is_readable(source.tensors[i]);
        assert(entries(infos)[i] == entry(infos, i));
        assert(source.tensors[i].dims.reverse().reverse() =~= source.tensors[i].dims);
    }
}

/// The data that are copied have the declared sizes.
proof fn copied_data_fit(b: Seq<u8>)
    requires
        migrated_file(b) is Ok,
    ensures
        ({
            let source = dec_file(b)->Ok_0;
            let datas = source_data(b, source);
            &&& data_fits(migrated_infos(source.tensors), datas)
            &&& forall|i: int|
                0 <= i < datas.len() ==> tensor_data_spec(b, source, source.tensors[i]) == Ok::<
                    _,
                    ErrorView,
                >(#[trigger] datas[i])
        }),
{
    let source = dec_file(b)->Ok_0;
    let infos = migrated_infos(source.tensors);
    let datas = source_data(b, source);
    no_data_missing(b, source, 0);
    assert forall|i: int| 0 <= i < datas.len() implies (#[trigger] datas[i]).len()
        == infos[i].nbytes && tensor_data_spec(b, source, source.tensors[i]) == Ok::<_, ErrorView>(
        datas[i],
    ) by {
        assert(tensor_data_spec(b, source, source.tensors[i]) is Ok);
    }
}

/// A migrated file reads back as it was declared, with the data that were
/// copied.
proof fn migrated_reads_back(b: Seq<u8>)
    requires
        migrated_file(b) is Ok,
    ensures
        ({
            let source = dec_file(b)->Ok_0;
            let kvs = new_entries(source)->0;
            let infos = migrated_infos(source.tensors);
            let file = migrated_file(b)->Ok_0;
            &&& dec_file(file) == Ok::<_, ErrorView>(as_declared(kvs, infos))
            &&& forall|i: int|
                0 <= i < source.tensors.len() ==> tensor_data_spec(
                    file,
                    as_declared(kvs, infos),
                    #[trigger] entries(infos)[i],
                ) == Ok::<_, ErrorView>(source_data(b, source)[i])
        }),
{
    let source = dec_file(b)->Ok_0;
    metadata_stay(b);
    declarations_stay(b);
    copied_data_fit(b);
    file_reads_back(
        new_entries(source)->0,
        migrated_infos(source.tensors),
        source_data(b, source),
    );
}

/// A migrated file reads back with the metadata of the source, in which only
/// the id of a file type that moved is another.
pub proof fn migration_keeps_metadata(b: Seq<u8>)
    requires
        migrated_file(b) is Ok,
    ensures
        ({
            let source = dec_file(b)->Ok_0;
            let file = migrated_file(b)->Ok_0;
            let back = dec_file(file)->Ok_0;
            &&& dec_file(file) is Ok
            &&& back.kvs == new_entries(source)->0
            &&& back.kvs.len() == source.kvs.len()
            &&& forall|i: int|
                0 <= i < source.kvs.len() ==> same_but_ftype(
                    #[trigger] back.kvs[i],
                    source.kvs[i],
                )
        }),
{
    migrated_reads_back(b);
    metadata_stay(b);
}

/// A migrated file reads back with the tensors of the source under their
/// current type codes: names, shapes, sizes and data are the same. Nothing is
/// left to migrate.
pub proof fn migration_keeps_tensors(b: Seq<u8>)
    requires
        migrated_file(b) is Ok,
    ensures
        ({
            let source = dec_file(b)->Ok_0;
            let file = migrated_file(b)->Ok_0;
            let back = dec_file(file)->Ok_0;
            &&& dec_file(file) is Ok
            &&& back.tensors.len() == source.tensors.len()
            &&& forall|i: int|
                0 <= i < source.tensors.len() ==> same_but_code(
                    #[trigger] back.tensors[i],
                    source.tensors[i],
                ) && tensor_data_spec(file, back, back.tensors[i]) == tensor_data_spec(
                    b,
                    source,
                    source.tensors[i],
                )
            &&& moved_tensors(back.tensors).len() == 0
        }),
{
    let source = dec_file(b)->Ok_0;
    let infos = migrated_infos(source.tensors);
    let back = as_declared(new_entries(source)->0, infos);
    migrated_reads_back(b);
    declarations_stay(b);
    copied_data_fit(b);
    assert forall|i: int| 0 <= i < source.tensors.len() implies same_but_code(
        #[trigger] back.tensors[i],
        source.tensors[i],
    ) && tensor_data_spec(migrated_file(b)->Ok_0, back, back.tensors[i]) == tensor_data_spec(
        b,
        source,
        source.tensors[i],
    ) by {
        assert(back.tensors[i] == entries(infos)[i]);
        assert(source_data(b, source)[i] == tensor_data_spec(b, source, source.tensors[i])->Ok_0);
    }
    nothing_to_move(back.tensors);
}

/// Migrating a migrated file gives that file.
pub proof fn migrating_again_changes_nothing(b: Seq<u8>)
    requires
        migrated_file(b) is Ok,
    ensures
        migrated_file(migrated_file(b)->Ok_0) == migrated_file(b),
{
    let source = dec_file(b)->Ok_0;
    let file = migrated_file(b)->Ok_0;
    let back = dec_file(file)->Ok_0;
    let kvs = new_entries(source)->0;
    migration_keeps_metadata(b);
    migration_keeps_tensors(b);
    assert forall|i: int| 0 <= i < kvs.len() implies migrated_entry(#[trigger] kvs[i]) == Some(
        kvs[i],
    ) by {
        assert(migrated_entry(source.kvs[i]) is Some);
        entry_stays(source.kvs[i]);
    }
    assert(ftypes_known(back.kvs));
    assert(migrated_entries(back.kvs) =~= back.kvs);
    no_data_missing(b, source, 0);
    assert forall|i: int| 0 <= i < source.tensors.len() implies migrated_infos(back.tensors)[i]
        == #[trigger] migrated_infos(source.tensors)[i] && source_data(file, back)[i]
        == source_data(b, source)[i] && tensor_data_spec(file, back, back.tensors[i]) is Ok by {
        assert(same_but_code(back.tensors[i], source.tensors[i]));
        assert(tensor_data_spec(b, source, source.tensors[i]) is Ok);
    }
    assert(migrated_infos(back.tensors) =~= migrated_infos(source.tensors));
    assert(source_data(file, back) =~= source_data(b, source));
    all_data_there(file, back, 0);
}

/// Where every tensor's data are there none are missing.
proof fn all_data_there(b: Seq<u8>, source: ReaderView, k: int)
    requires
        0 <= k,
        forall|i: int|
            0 <= i < source.tensors.len() ==> tensor_data_spec(
                b,
                source,
                #[trigger] source.tensors[i],
            ) is Ok,
    ensures
        data_missing(b, source, k) is None,
    decreases source.tensors.len() - k,
{
    if k < source.tensors.len() {
        all_data_there(b, source, k + 1);
    }
}

/// Where no data are missing every tensor's data are there.
proof fn no_data_missing(b: Seq<u8>, source: ReaderView, k: int)
    requires
        0 <= k,
        data_missing(b, source, k) is None,
    ensures
        forall|i: int|
            k <= i < source.tensors.len() ==> tensor_data_spec(
                b,
                source,
                #[trigger] source.tensors[i],
            ) is Ok,
    decreases source.tensors.len() - k,
{
    if k < source.tensors.len() {
        no_data_missing(b, source, k + 1);
    }
}

} // verus!
