//! Multi-shard safetensors: within each shard, tensors are ordered by name,
//! and shards come in the order in which they are given.

pub mod laws;
pub mod placed;

use crate::json::{json_parts, json_text, obj_view, Json, JsonView};
use crate::le::{get_le, le_value};
use crate::text::{chars_of, same};
use vstd::prelude::*;

verus! {

/// The element types of the tensors in use.
#[derive(Debug, Clone, Copy, PartialEq, Eq, Structural)]
pub enum Dtype {
    BF16,
    F16,
    F32,
    I32,
}

/// The element type of a name.
pub open spec fn dtype_named(s: Seq<char>) -> Option<Dtype> {
    if s == "BF16"@ {
        Some(Dtype::BF16)
    } else if s == "F16"@ {
        Some(Dtype::F16)
    } else if s == "F32"@ {
        Some(Dtype::F32)
    } else if s == "I32"@ {
        Some(Dtype::I32)
    } else {
        None
    }
}

impl Dtype {
    /// The element type of a name.
    pub fn parse(s: &str) -> (r: Result<Dtype, ShardError>)
        ensures
            r is Ok <==> dtype_named(s@) is Some,
            r matches Ok(d) ==> dtype_named(s@) == Some(d),
            r matches Err(e) ==> e@ == ShardErrorView::UnsupportedDtype(s@),
    {
        if same(s, "BF16") {
            Ok(Dtype::BF16)
        } else if same(s, "F16") {
            Ok(Dtype::F16)
        } else if same(s, "F32") {
            Ok(Dtype::F32)
        } else if same(s, "I32") {
            Ok(Dtype::I32)
        } else {
            Err(ShardError::UnsupportedDtype(s.to_owned()))
        }
    }
}

/// What keeps shards from being read.
#[derive(Debug, PartialEq)]
pub enum ShardError {
    /// The bytes end before the header does.
    UnexpectedEof,
    /// The header is no JSON.
    BadJson,
    /// The header is no object.
    BadHeader,
    /// An element type that is not in use.
    UnsupportedDtype(String),
    /// A tensor without data offsets.
    MissingOffsets,
    /// Data offsets that are not two integers in order.
    BadOffsets,
}

/// What a shard error means.
pub enum ShardErrorView {
    UnexpectedEof,
    BadJson,
    BadHeader,
    UnsupportedDtype(Seq<char>),
    MissingOffsets,
    BadOffsets,
}

impl View for ShardError {
    type V = ShardErrorView;

    open spec fn view(&self) -> ShardErrorView {
        match *self {
            ShardError::UnexpectedEof => ShardErrorView::UnexpectedEof,
            ShardError::BadJson => ShardErrorView::BadJson,
            ShardError::BadHeader => ShardErrorView::BadHeader,
            ShardError::UnsupportedDtype(s) => ShardErrorView::UnsupportedDtype(s@),
            ShardError::MissingOffsets => ShardErrorView::MissingOffsets,
            ShardError::BadOffsets => ShardErrorView::BadOffsets,
        }
    }
}

/// Where a tensor's data stand.
#[derive(Debug)]
pub struct TensorRef {
    pub shard: usize,
    pub dtype: Dtype,
    pub shape: Vec<usize>,
    pub start: usize,
    pub len: usize,
}

/// What the place of a tensor's data means.
pub struct RefView {
    pub shard: usize,
    pub dtype: Dtype,
    pub shape: Seq<usize>,
    pub start: usize,
    pub len: usize,
}

impl View for TensorRef {
    type V = RefView;

    open spec fn view(&self) -> RefView {
        RefView {
            shard: self.shard,
            dtype: self.dtype,
            shape: self.shape@,
            start: self.start,
            len: self.len,
        }
    }
}

impl Clone for TensorRef {
    fn clone(&self) -> (r: TensorRef)
        ensures
            r@ == self@,
    {
        let shape: Vec<usize> = self.shape.clone();
        assert(shape@ =~= self.shape@);
        TensorRef { shard: self.shard, dtype: self.dtype, shape, start: self.start, len: self.len }
    }
}

/// Whether a name comes before another: by the first characters that differ,
/// or as its beginning.
pub open spec fn precedes(a: Seq<char>, b: Seq<char>) -> bool
    decreases a.len(),
{
    if b.len() == 0 {
        false
    } else if a.len() == 0 {
        true
    } else if a[0] != b[0] {
        a[0] < b[0]
    } else {
        precedes(a.drop_first(), b.drop_first())
    }
}

/// Whether a name comes before another.
pub fn is_before(a: &[char], b: &[char]) -> (r: bool)
    ensures
        r == precedes(a@, b@),
{
    let mut i: usize = 0;
    assert(a@.skip(0) =~= a@);
    assert(b@.skip(0) =~= b@);
    loop
        invariant
            i <= a@.len(),
            i <= b@.len(),
            precedes(a@, b@) == precedes(a@.skip(i as int), b@.skip(i as int)),
        decreases a@.len() - i,
    {
        if i == b.len() {
            return false;
        }
        if i == a.len() {
            return true;
        }
        if a[i] != b[i] {
            return a[i] < b[i];
        }
        assert(a@.skip(i as int).drop_first() =~= a@.skip(i + 1));
        assert(b@.skip(i as int).drop_first() =~= b@.skip(i + 1));
        i += 1;
    }
}

/// A list in order of its names with one more entry, in place of one of the
/// same name.
pub open spec fn inserted(
    list: Seq<(Seq<char>, JsonView)>,
    name: Seq<char>,
    value: JsonView,
) -> Seq<(Seq<char>, JsonView)>
    decreases list.len(),
{
    if list.len() == 0 || precedes(list.last().0, name) {
        list.push((name, value))
    } else if list.last().0 == name {
        list.drop_last().push((name, value))
    } else {
        inserted(list.drop_last(), name, value).push(list.last())
    }
}

/// The entries of a header but its metadata, in order of their names.
pub open spec fn by_name(entries: Seq<(Seq<char>, JsonView)>) -> Seq<(Seq<char>, JsonView)>
    decreases entries.len(),
{
    if entries.len() == 0 {
        Seq::empty()
    } else {
        let rest = by_name(entries.drop_last());
        if entries.last().0 == "__metadata__"@ {
            rest
        } else {
            inserted(rest, entries.last().0, entries.last().1)
        }
    }
}

/// The shape of a tensor: zero for a dimension that is no integer.
pub open spec fn shape_of(v: JsonView) -> Seq<usize> {
    match v.as_arr() {
        Some(a) => Seq::new(
            a.len(),
            |i: int|
                match a[i].as_unsigned() {
                    Some(d) => d as usize,
                    None => 0,
                },
        ),
        None => Seq::empty(),
    }
}

/// A tensor of a shard whose data start at `data_start`.
pub open spec fn tensor_ref(shard: usize, data_start: usize, meta: JsonView) -> Result<
    RefView,
    ShardErrorView,
> {
    let name = match meta.at("dtype"@).as_str() {
        Some(s) => s,
        None => Seq::empty(),
    };
    match dtype_named(name) {
        None => Err(ShardErrorView::UnsupportedDtype(name)),
        Some(dtype) => match meta.at("data_offsets"@).as_arr() {
            None => Err(ShardErrorView::MissingOffsets),
            Some(offs) => if offs.len() < 2 {
                Err(ShardErrorView::BadOffsets)
            } else {
                match (offs[0].as_unsigned(), offs[1].as_unsigned()) {
                    (Some(s), Some(e)) => {
                        let start = s as usize;
                        let end = e as usize;
                        if start <= end && data_start + start <= usize::MAX {
                            Ok(
                                RefView {
                                    shard,
                                    dtype,
                                    shape: shape_of(meta.at("shape"@)),
                                    start: (data_start + start) as usize,
                                    len: (end - start) as usize,
                                },
                            )
                        } else {
                            Err(ShardErrorView::BadOffsets)
                        }
                    },
                    _ => Err(ShardErrorView::BadOffsets),
                }
            },
        },
    }
}

/// Named tensors after `before`, or the first error among them.
pub open spec fn refs_of(
    before: Seq<(Seq<char>, RefView)>,
    shard: usize,
    data_start: usize,
    list: Seq<(Seq<char>, JsonView)>,
) -> Result<Seq<(Seq<char>, RefView)>, ShardErrorView>
    decreases list.len(),
{
    if list.len() == 0 {
        Ok(before)
    } else {
        match tensor_ref(shard, data_start, list[0].1) {
            Err(e) => Err(e),
            Ok(t) => refs_of(before.push((list[0].0, t)), shard, data_start, list.drop_first()),
        }
    }
}

/// The tensors of a shard after `before`: the length of the header, the
/// header, the data.
pub open spec fn shard_refs(before: Seq<(Seq<char>, RefView)>, shard: usize, b: Seq<u8>) -> Result<
    Seq<(Seq<char>, RefView)>,
    ShardErrorView,
> {
    if b.len() < 8 || le_value(b.take(8)) > b.len() - 8 {
        Err(ShardErrorView::UnexpectedEof)
    } else {
        let start = 8 + le_value(b.take(8)) as int;
        match json_text(b.subrange(8, start)) {
            None => Err(ShardErrorView::BadJson),
            Some(header) => header_refs(before, shard, start as usize, header),
        }
    }
}

/// The tensors that a shard's header lists, by name, after `before`.
pub open spec fn header_refs(
    before: Seq<(Seq<char>, RefView)>,
    shard: usize,
    data_start: usize,
    header: JsonView,
) -> Result<Seq<(Seq<char>, RefView)>, ShardErrorView> {
    match header {
        JsonView::Obj(entries) => refs_of(before, shard, data_start, by_name(entries)),
        _ => Err(ShardErrorView::BadHeader),
    }
}

/// The tensors of all shards from `i` on after `before`.
pub open spec fn all_refs(before: Seq<(Seq<char>, RefView)>, shards: Seq<Seq<u8>>, i: int) -> Result<
    Seq<(Seq<char>, RefView)>,
    ShardErrorView,
>
    decreases shards.len() - i,
{
    if i >= shards.len() {
        Ok(before)
    } else {
        match shard_refs(before, i as usize, shards[i]) {
            Err(e) => Err(e),
            Ok(refs) => all_refs(refs, shards, i + 1),
        }
    }
}

/// What named tensors mean.
pub open spec fn ref_views(v: Seq<(String, TensorRef)>) -> Seq<(Seq<char>, RefView)> {
    Seq::new(v.len(), |i: int| (v[i].0@, v[i].1@))
}

/// What shards hold.
pub open spec fn shard_bytes(v: Seq<&[u8]>) -> Seq<Seq<u8>> {
    Seq::new(v.len(), |i: int| v[i]@)
}

/// What borrowed entries mean.
pub open spec fn borrowed(v: Seq<(&String, &Json)>) -> Seq<(Seq<char>, JsonView)> {
    Seq::new(v.len(), |i: int| (v[i].0@, v[i].1@))
}

/// Insertion looks only at the entries that are not before the name.
proof fn inserted_before(
    list: Seq<(Seq<char>, JsonView)>,
    name: Seq<char>,
    value: JsonView,
    i: int,
)
    requires
        0 <= i <= list.len(),
        forall|k: int|
            i <= k < list.len() ==> !precedes((#[trigger] list[k]).0, name) && list[k].0 != name,
    ensures
        inserted(list, name, value) == inserted(list.take(i), name, value) + list.skip(i),
    decreases list.len() - i,
{
    if i == list.len() {
        assert(list.take(i) =~= list);
        assert(list.skip(i) =~= Seq::empty());
        assert(inserted(list, name, value) + list.skip(i) =~= inserted(list, name, value));
    } else {
        let rest = list.drop_last();
        assert(list[list.len() - 1] == list.last());
        assert forall|k: int| i <= k < rest.len() implies !precedes((#[trigger] rest[k]).0, name)
            && rest[k].0 != name by {
            assert(rest[k] == list[k]);
        }
        inserted_before(rest, name, value, i);
        assert(rest.take(i) =~= list.take(i));
        assert((inserted(list.take(i), name, value) + rest.skip(i)).push(list.last()) =~= inserted(
            list.take(i),
            name,
            value,
        ) + list.skip(i));
    }
}

/// Insert an entry into a list in order of its names.
fn insert_by_name<'a>(list: &mut Vec<(&'a String, &'a Json)>, name: &'a String, value: &'a Json)
    ensures
        borrowed(final(list)@) == inserted(borrowed(old(list)@), name@, value@),
{
    let c = chars_of(name.as_str());
    let mut i: usize = list.len();
    let ghost before = borrowed(list@);
    while i > 0
        invariant
            i <= list@.len(),
            list@ == old(list)@,
            before == borrowed(list@),
            c@ == name@,
            forall|k: int|
                i <= k < before.len() ==> !precedes((#[trigger] before[k]).0, name@) && before[k].0
                    != name@,
        ensures
            i == 0 || precedes(before[i - 1].0, name@),
        decreases i,
    {
        let other = chars_of(list[i - 1].0.as_str());
        assert(before[i - 1].0 == other@);
        if is_before(&other, &c) {
            break;
        }
        if same(list[i - 1].0.as_str(), name.as_str()) {
            proof {
                inserted_before(before, name@, value@, i as int);
                let t = before.take(i as int);
                assert(t.last() == before[i - 1]);
                assert(t.drop_last().push((name@, value@)) + before.skip(i as int)
                    =~= before.update(i - 1, (name@, value@)));
            }
            list[i - 1] = (name, value);
            assert(borrowed(list@) =~= before.update(i - 1, (name@, value@)));
            return;
        }
        i -= 1;
    }
    proof {
        inserted_before(before, name@, value@, i as int);
        let t = before.take(i as int);
        if i > 0 {
            assert(t.last() == before[i - 1]);
        }
        assert(t.push((name@, value@)) + before.skip(i as int) =~= before.insert(
            i as int,
            (name@, value@),
        ));
    }
    list.insert(i, (name, value));
    assert(borrowed(list@) =~= before.insert(i as int, (name@, value@)));
}

/// The entries of a header but its metadata, in order of their names.
fn sort_entries<'a>(entries: &'a Vec<(String, Json)>) -> (r: Vec<(&'a String, &'a Json)>)
    ensures
        borrowed(r@) == by_name(obj_view(entries@)),
{
    let mut list: Vec<(&'a String, &'a Json)> = Vec::new();
    let ghost all = obj_view(entries@);
    let mut i: usize = 0;
    assert(all.take(0) =~= Seq::empty());
    assert(borrowed(list@) =~= Seq::empty());
    while i < entries.len()
        invariant
            i <= entries@.len(),
            all == obj_view(entries@),
            borrowed(list@) == by_name(all.take(i as int)),
        decreases entries@.len() - i,
    {
        proof {
            let t = all.take(i + 1);
            assert(t.drop_last() =~= all.take(i as int));
            assert(t.last() == (entries@[i as int].0@, entries@[i as int].1@));
        }
        if !same(entries[i].0.as_str(), "__metadata__") {
            insert_by_name(&mut list, &entries[i].0, &entries[i].1);
        }
        i += 1;
    }
    assert(all.take(i as int) =~= all);
    list
}

/// The shape of a tensor.
fn read_shape(meta: &Json) -> (r: Vec<usize>)
    ensures
        r@ == shape_of(meta@.at("shape"@)),
{
    let mut shape: Vec<usize> = Vec::new();
    match meta.arr_at("shape") {
        None => {
            assert(shape@ =~= Seq::empty());
            shape
        },
        Some(a) => {
            let ghost want = shape_of(meta@.at("shape"@));
            let ghost items = meta@.at("shape"@).as_arr()->0;
            let mut i: usize = 0;
            while i < a.len()
                invariant
                    i <= a@.len(),
                    items == crate::json::arr_view(a@),
                    want.len() == items.len(),
                    want == shape_of(meta@.at("shape"@)),
                    meta@.at("shape"@).as_arr() == Some(items),
                    shape@.len() == i,
                    forall|k: int| 0 <= k < i ==> #[trigger] shape@[k] == want[k],
                decreases a@.len() - i,
            {
                assert(items[i as int] == a@[i as int]@);
                let d: usize = match a[i].as_unsigned() {
                    Some(d) => d as usize,
                    None => 0,
                };
                shape.push(d);
                i += 1;
            }
            assert(shape@ =~= want);
            shape
        },
    }
}

/// A tensor of a shard whose data start at `data_start`.
fn read_ref(shard: usize, data_start: usize, meta: &Json) -> (r: Result<TensorRef, ShardError>)
    ensures
        r is Ok <==> tensor_ref(shard, data_start, meta@) is Ok,
        r matches Ok(t) ==> tensor_ref(shard, data_start, meta@) == Ok::<RefView, ShardErrorView>(
            t@,
        ),
        r matches Err(e) ==> tensor_ref(shard, data_start, meta@) == Err::<
            RefView,
            ShardErrorView,
        >(e@),
{
    let name = match meta.str_at("dtype") {
        Some(s) => s,
        None => "",
    };
    proof {
        reveal_strlit("");
        assert(""@ =~= Seq::empty());
    }
    let dtype = match Dtype::parse(name) {
        Ok(d) => d,
        Err(e) => {
            return Err(e);
        },
    };
    let offs = match meta.arr_at("data_offsets") {
        Some(o) => o,
        None => {
            return Err(ShardError::MissingOffsets);
        },
    };
    if offs.len() < 2 {
        return Err(ShardError::BadOffsets);
    }
    proof {
        let items = crate::json::arr_view(offs@);
        assert(items[0] == offs@[0]@ && items[1] == offs@[1]@);
    }
    match (offs[0].as_unsigned(), offs[1].as_unsigned()) {
        (Some(s), Some(e)) => {
            let start: usize = s as usize;
            let end: usize = e as usize;
            if start > end || start > usize::MAX - data_start {
                return Err(ShardError::BadOffsets);
            }
            Ok(
                TensorRef {
                    shard,
                    dtype,
                    shape: read_shape(meta),
                    start: data_start + start,
                    len: end - start,
                },
            )
        },
        _ => Err(ShardError::BadOffsets),
    }
}

/// Named tensors after those before.
fn read_refs(
    tensors: &mut Vec<(String, TensorRef)>,
    shard: usize,
    data_start: usize,
    list: &Vec<(&String, &Json)>,
) -> (r: Result<(), ShardError>)
    ensures
        match refs_of(ref_views(old(tensors)@), shard, data_start, borrowed(list@)) {
            Ok(refs) => r is Ok && ref_views(final(tensors)@) == refs,
            Err(e) => r is Err && r->Err_0@ == e,
        },
{
    let ghost all = borrowed(list@);
    let ghost want = refs_of(ref_views(tensors@), shard, data_start, all);
    let mut i: usize = 0;
    assert(all.skip(0) =~= all);
    while i < list.len()
        invariant
            i <= list@.len(),
            all == borrowed(list@),
            want == refs_of(ref_views(old(tensors)@), shard, data_start, all),
            want == refs_of(ref_views(tensors@), shard, data_start, all.skip(i as int)),
        decreases list@.len() - i,
    {
        proof {
            let rest = all.skip(i as int);
            assert(rest[0] == (list@[i as int].0@, list@[i as int].1@));
            assert(rest.drop_first() =~= all.skip(i + 1));
        }
        match read_ref(shard, data_start, list[i].1) {
            Err(e) => {
                return Err(e);
            },
            Ok(t) => {
                let ghost before = ref_views(tensors@);
                let ghost tv = t@;
                tensors.push((list[i].0.clone(), t));
                assert(ref_views(tensors@) =~= before.push((list@[i as int].0@, tv)));
            },
        }
        i += 1;
    }
    assert(all.skip(i as int) =~= Seq::empty());
    Ok(())
}

/// The tensors that a shard's header lists after those before.
pub fn read_header(
    tensors: &mut Vec<(String, TensorRef)>,
    shard: usize,
    data_start: usize,
    header: &Json,
) -> (r: Result<(), ShardError>)
    ensures
        match header_refs(ref_views(old(tensors)@), shard, data_start, header@) {
            Ok(refs) => r is Ok && ref_views(final(tensors)@) == refs,
            Err(e) => r is Err && r->Err_0@ == e,
        },
{
    proof {
        json_parts(*header);
    }
    match header {
        Json::Obj(entries) => {
            let list = sort_entries(entries);
            read_refs(tensors, shard, data_start, &list)
        },
        _ => Err(ShardError::BadHeader),
    }
}

/// The tensors of a shard after those before.
fn read_shard(tensors: &mut Vec<(String, TensorRef)>, shard: usize, b: &[u8]) -> (r: Result<
    (),
    ShardError,
>)
    ensures
        match shard_refs(ref_views(old(tensors)@), shard, b@) {
            Ok(refs) => r is Ok && ref_views(final(tensors)@) == refs,
            Err(e) => r is Err && r->Err_0@ == e,
        },
{
    if b.len() < 8 {
        return Err(ShardError::UnexpectedEof);
    }
    let n: u64 = get_le(b, 0, 8);
    assert(b@.subrange(0, 8) =~= b@.take(8));
    if n > (b.len() - 8) as u64 {
        return Err(ShardError::UnexpectedEof);
    }
    let start: usize = 8 + n as usize;
    match Json::parse(vstd::slice::slice_subrange(b, 8, start)) {
        Ok(header) => read_header(tensors, shard, start, &header),
        Err(_) => Err(ShardError::BadJson),
    }
}

/// The shards of a checkpoint with the tensors in them.
pub struct ShardSet<'a> {
    pub shards: Vec<&'a [u8]>,
    /// (name, tensor) by shard and name.
    pub tensors: Vec<(String, TensorRef)>,
}

impl<'a> ShardSet<'a> {
    /// Whether a tensor's data lie within its shard.
    pub open spec fn holds(self, t: RefView) -> bool {
        t.shard < self.shards@.len() && t.start + t.len <= self.shards@[t.shard as int]@.len()
    }

    /// A tensor's data.
    pub open spec fn data(self, t: RefView) -> Seq<u8> {
        self.shards@[t.shard as int]@.subrange(t.start as int, t.start + t.len)
    }

    /// Read the headers of shards. They must be in the order in which their
    /// tensors are to come.
    pub fn open(shards: Vec<&'a [u8]>) -> (r: Result<ShardSet<'a>, ShardError>)
        ensures
            match all_refs(Seq::empty(), shard_bytes(shards@), 0) {
                Ok(refs) => r is Ok && ref_views(r->Ok_0.tensors@) == refs && r->Ok_0.shards@
                    == shards@,
                Err(e) => r is Err && r->Err_0@ == e,
            },
    {
        let mut tensors: Vec<(String, TensorRef)> = Vec::new();
        let ghost all = shard_bytes(shards@);
        let ghost want = all_refs(Seq::empty(), all, 0);
        let mut i: usize = 0;
        assert(ref_views(tensors@) =~= Seq::empty());
        while i < shards.len()
            invariant
                i <= shards@.len(),
                all == shard_bytes(shards@),
                want == all_refs(Seq::empty(), all, 0),
                want == all_refs(ref_views(tensors@), all, i as int),
            decreases shards@.len() - i,
        {
            assert(all[i as int] == shards@[i as int]@);
            match read_shard(&mut tensors, i, shards[i]) {
                Err(e) => {
                    return Err(e);
                },
                Ok(()) => {},
            }
            i += 1;
        }
        Ok(ShardSet { shards, tensors })
    }

    /// Whether a tensor's data lie within its shard.
    pub fn has(&self, t: &TensorRef) -> (r: bool)
        ensures
            r == self.holds(t@),
    {
        t.shard < self.shards.len() && t.start <= self.shards[t.shard].len() && t.len
            <= self.shards[t.shard].len() - t.start
    }

    /// A tensor's data.
    pub fn bytes(&self, t: &TensorRef) -> (r: &[u8])
        requires
            self.holds(t@),
        ensures
            r@ == self.data(t@),
    {
        let shard = self.shards[t.shard];
        assert(t.start + t.len <= shard.len());
        vstd::slice::slice_subrange(shard, t.start, t.start + t.len)
    }

    /// A BF16 or F16 tensor as its raw little-endian elements.
    pub fn u16_elems(&self, t: &TensorRef) -> (r: Vec<u16>)
        requires
            self.holds(t@),
        ensures
            r@ == u16_values(self.data(t@)),
    {
        words16(self.bytes(t))
    }

    /// An I32 tensor as its raw little-endian elements.
    pub fn i32_elems(&self, t: &TensorRef) -> (r: Vec<u32>)
        requires
            self.holds(t@),
        ensures
            r@ == u32_values(self.data(t@)),
    {
        let b = self.bytes(t);
        let mut v: Vec<u32> = Vec::new();
        let n: usize = b.len() / 4;
        let mut i: usize = 0;
        while i < n
            invariant
                i <= n,
                n == b@.len() / 4,
                v@.len() == i,
                forall|k: int| 0 <= k < i ==> #[trigger] v@[k] == u32_values(b@)[k],
            decreases n - i,
        {
            assert(4 * i + 4 <= b.len());
            let x: u64 = get_le(b, 4 * i, 4);
            proof {
                let w = b@.subrange(4 * i as int, 4 * i + 4);
                crate::le::le_value_bound(w);
                crate::le::pow256_values();
                assert(u32_values(b@)[i as int] == le_value(w) as u32);
            }
            v.push(x as u32);
            i += 1;
        }
        assert(v@ =~= u32_values(b@));
        v
    }
}

/// The 16-bit little-endian numbers in some bytes.
pub open spec fn u16_values(b: Seq<u8>) -> Seq<u16> {
    Seq::new(b.len() / 2, |i: int| le_value(b.subrange(2 * i, 2 * i + 2)) as u16)
}

/// The 32-bit little-endian numbers in some bytes.
pub open spec fn u32_values(b: Seq<u8>) -> Seq<u32> {
    Seq::new(b.len() / 4, |i: int| le_value(b.subrange(4 * i, 4 * i + 4)) as u32)
}

/// The 16-bit little-endian numbers in some bytes.
pub fn words16(b: &[u8]) -> (v: Vec<u16>)
    ensures
        v@ == u16_values(b@),
{
    let mut v: Vec<u16> = Vec::new();
    let n: usize = b.len() / 2;
    let mut i: usize = 0;
    while i < n
        invariant
            i <= n,
            n == b@.len() / 2,
            v@.len() == i,
            forall|k: int| 0 <= k < i ==> #[trigger] v@[k] == u16_values(b@)[k],
        decreases n - i,
    {
        assert(2 * i + 2 <= b.len());
        let x: u64 = get_le(b, 2 * i, 2);
        proof {
            let w = b@.subrange(2 * i as int, 2 * i + 2);
            crate::le::le_value_bound(w);
            crate::le::pow256_values();
            assert(u16_values(b@)[i as int] == le_value(w) as u16);
        }
        v.push(x as u16);
        i += 1;
    }
    assert(v@ =~= u16_values(b@));
    v
}

} // verus!
