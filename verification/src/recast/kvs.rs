//! The metadata of a recast file.

use crate::gguf::{kv_views, Value, ValueView};
use crate::ieee::convert::{double_to_single, single_of_double, DOUBLE_ONE};
use crate::metadata::{one, put, put_all, put_text, text_entry};
use crate::recast::plan::{EntryView, Kind, PlanEntry, Tier};
use crate::text::{same, views};
use vstd::prelude::*;

verus! {

/// Whether a value is an empty text or list.
pub open spec fn empty_value(v: ValueView) -> bool {
    match v {
        ValueView::Str(s) => s.len() == 0,
        ValueView::ArrStr(s) => s.len() == 0,
        ValueView::ArrI32(s) => s.len() == 0,
        ValueView::ArrF32(s) => s.len() == 0,
        ValueView::ArrBool(s) => s.len() == 0,
        ValueView::ArrU8(s) => s.len() == 0,
        ValueView::ArrI8(s) => s.len() == 0,
        ValueView::ArrU16(s) => s.len() == 0,
        ValueView::ArrI16(s) => s.len() == 0,
        ValueView::ArrU32(s) => s.len() == 0,
        ValueView::ArrU64(s) => s.len() == 0,
        ValueView::ArrI64(s) => s.len() == 0,
        ValueView::ArrF64(s) => s.len() == 0,
        _ => false,
    }
}

/// An integer of some width.
pub trait Whole: Sized + Copy {
    /// The number.
    spec fn whole(self) -> int;

    /// The number in 32 bits, if it fits.
    fn narrow(self) -> (r: Option<i32>)
        ensures
            r is Some <==> i32::MIN <= self.whole() <= i32::MAX,
            r is Some ==> r->0 == self.whole(),
    ;
}

impl Whole for u8 {
    open spec fn whole(self) -> int {
        self as int
    }

    fn narrow(self) -> (r: Option<i32>) {
        Some(self as i32)
    }
}

impl Whole for i8 {
    open spec fn whole(self) -> int {
        self as int
    }

    fn narrow(self) -> (r: Option<i32>) {
        Some(self as i32)
    }
}

impl Whole for u16 {
    open spec fn whole(self) -> int {
        self as int
    }

    fn narrow(self) -> (r: Option<i32>) {
        Some(self as i32)
    }
}

impl Whole for i16 {
    open spec fn whole(self) -> int {
        self as int
    }

    fn narrow(self) -> (r: Option<i32>) {
        Some(self as i32)
    }
}

impl Whole for u32 {
    open spec fn whole(self) -> int {
        self as int
    }

    fn narrow(self) -> (r: Option<i32>) {
        if self <= 0x7fff_ffff {
            Some(self as i32)
        } else {
            None
        }
    }
}

impl Whole for u64 {
    open spec fn whole(self) -> int {
        self as int
    }

    fn narrow(self) -> (r: Option<i32>) {
        if self <= 0x7fff_ffff {
            Some(self as i32)
        } else {
            None
        }
    }
}

impl Whole for i64 {
    open spec fn whole(self) -> int {
        self as int
    }

    fn narrow(self) -> (r: Option<i32>) {
        if self >= -0x8000_0000 && self <= 0x7fff_ffff {
            Some(self as i32)
        } else {
            None
        }
    }
}

/// The numbers of a list of integers.
pub open spec fn wholes<T: Whole>(v: Seq<T>) -> Seq<int> {
    Seq::new(v.len(), |i: int| v[i].whole())
}

/// The numbers of an array of integers of another width than 32 bits with a
/// sign.
pub open spec fn other_integers(v: ValueView) -> Option<Seq<int>> {
    match v {
        ValueView::ArrU8(s) => Some(wholes(s)),
        ValueView::ArrI8(s) => Some(wholes(s)),
        ValueView::ArrU16(s) => Some(wholes(s)),
        ValueView::ArrI16(s) => Some(wholes(s)),
        ValueView::ArrU32(s) => Some(wholes(s)),
        ValueView::ArrU64(s) => Some(wholes(s)),
        ValueView::ArrI64(s) => Some(wholes(s)),
        _ => None,
    }
}

/// Whether numbers all fit in 32 bits with a sign.
pub open spec fn all_narrow(v: Seq<int>) -> bool {
    forall|i: int| 0 <= i < v.len() ==> i32::MIN <= #[trigger] v[i] <= i32::MAX
}

/// How a value is copied: an array of integers as 32-bit integers, an array of
/// floating-point numbers as singles, all else as it is. `None` where an
/// integer does not fit.
pub open spec fn recoded(v: ValueView) -> Option<ValueView> {
    match other_integers(v) {
        Some(n) => if all_narrow(n) {
            Some(ValueView::ArrI32(n.map_values(|x: int| x as i32)))
        } else {
            None
        },
        None => match v {
            ValueView::ArrF64(s) => Some(
                ValueView::ArrF32(s.map_values(|x: u64| single_of_double(x))),
            ),
            _ => Some(v),
        },
    }
}

/// The entries that are copied: all but the architecture and what is empty.
/// The first key under which an integer does not fit stops the copy.
pub open spec fn copied(kvs: Seq<(Seq<char>, ValueView)>) -> Result<
    Seq<(Seq<char>, ValueView)>,
    Seq<char>,
>
    decreases kvs.len(),
{
    if kvs.len() == 0 {
        Ok(Seq::empty())
    } else {
        match copied(kvs.drop_last()) {
            Err(key) => Err(key),
            Ok(rest) => {
                let last = kvs.last();
                if last.0 == "general.architecture"@ || empty_value(last.1) {
                    Ok(rest)
                } else {
                    match recoded(last.1) {
                        Some(v) => Ok(rest.push((last.0, v))),
                        None => Err(last.0),
                    }
                }
            },
        }
    }
}

/// Whether a value is an empty text or list.
pub fn is_empty_value(v: &Value) -> (r: bool)
    ensures
        r == empty_value(v@),
{
    match v {
        Value::Str(s) => s.as_str().is_empty(),
        Value::ArrStr(s) => s.is_empty(),
        Value::ArrI32(s) => s.is_empty(),
        Value::ArrF32(s) => s.is_empty(),
        Value::ArrBool(s) => s.is_empty(),
        Value::ArrU8(s) => s.is_empty(),
        Value::ArrI8(s) => s.is_empty(),
        Value::ArrU16(s) => s.is_empty(),
        Value::ArrI16(s) => s.is_empty(),
        Value::ArrU32(s) => s.is_empty(),
        Value::ArrU64(s) => s.is_empty(),
        Value::ArrI64(s) => s.is_empty(),
        Value::ArrF64(s) => s.is_empty(),
        _ => false,
    }
}

/// The numbers of a list of integers in 32 bits, if they fit.
fn narrow_all<T: Whole>(v: &Vec<T>) -> (r: Option<Vec<i32>>)
    ensures
        r is Some <==> all_narrow(wholes(v@)),
        r is Some ==> r->0@ == wholes(v@).map_values(|x: int| x as i32),
{
    let ghost all = wholes(v@);
    let mut out: Vec<i32> = Vec::new();
    let mut i: usize = 0;
    while i < v.len()
        invariant
            i <= v@.len(),
            all == wholes(v@),
            out@.len() == i,
            forall|k: int|
                0 <= k < i ==> i32::MIN <= #[trigger] all[k] <= i32::MAX && out@[k] == all[k],
        decreases v@.len() - i,
    {
        assert(all[i as int] == v@[i as int].whole());
        match v[i].narrow() {
            Some(x) => {
                out.push(x);
            },
            None => {
                return None;
            },
        }
        i += 1;
    }
    assert(out@ =~= all.map_values(|x: int| x as i32));
    Some(out)
}

/// Doubles as singles.
fn singles(v: &Vec<u64>) -> (r: Vec<u32>)
    ensures
        r@ == v@.map_values(|x: u64| single_of_double(x)),
{
    let mut r: Vec<u32> = Vec::new();
    let mut i: usize = 0;
    while i < v.len()
        invariant
            i <= v@.len(),
            r@.len() == i,
            forall|k: int| 0 <= k < i ==> #[trigger] r@[k] == single_of_double(v@[k]),
        decreases v@.len() - i,
    {
        r.push(double_to_single(v[i]));
        i += 1;
    }
    assert(r@ =~= v@.map_values(|x: u64| single_of_double(x)));
    r
}

/// An array of 32-bit integers, if there is one.
fn narrow_array(v: Option<Vec<i32>>) -> (r: Option<Value>)
    ensures
        r is Some <==> v is Some,
        r is Some ==> r->0@ == ValueView::ArrI32(v->0@),
{
    match v {
        Some(x) => Some(Value::ArrI32(x)),
        None => None,
    }
}

/// A value as it is copied.
pub fn recode(v: &Value) -> (r: Option<Value>)
    ensures
        r is Some <==> recoded(v@) is Some,
        r is Some ==> r->0@ == recoded(v@)->0,
{
    match v {
        Value::ArrU8(s) => narrow_array(narrow_all(s)),
        Value::ArrI8(s) => narrow_array(narrow_all(s)),
        Value::ArrU16(s) => narrow_array(narrow_all(s)),
        Value::ArrI16(s) => narrow_array(narrow_all(s)),
        Value::ArrU32(s) => narrow_array(narrow_all(s)),
        Value::ArrU64(s) => narrow_array(narrow_all(s)),
        Value::ArrI64(s) => narrow_array(narrow_all(s)),
        Value::ArrF64(s) => Some(Value::ArrF32(singles(s))),
        _ => Some(v.clone()),
    }
}

/// Copy entries behind others, or give the first key under which an integer
/// does not fit.
pub fn copy_kvs(kvs: &[(String, Value)], out: &mut Vec<(String, Value)>) -> (r: Result<(), String>)
    ensures
        match copied(kv_views(kvs@)) {
            Ok(e) => r is Ok && kv_views(final(out)@) == kv_views(old(out)@) + e,
            Err(key) => r is Err && r->Err_0@ == key && final(out)@ == old(out)@,
        },
{
    let ghost all = kv_views(kvs@);
    let mut more: Vec<(String, Value)> = Vec::new();
    let mut i: usize = 0;
    assert(all.take(0) =~= Seq::empty());
    assert(kv_views(more@) =~= Seq::empty());
    while i < kvs.len()
        invariant
            i <= kvs@.len(),
            all == kv_views(kvs@),
            copied(all.take(i as int)) is Ok,
            out@ == old(out)@,
            kv_views(more@) == copied(all.take(i as int))->Ok_0,
        decreases kvs@.len() - i,
    {
        let ghost rest = copied(all.take(i as int))->Ok_0;
        proof {
            assert(all.take(i + 1).drop_last() =~= all.take(i as int));
            assert(all.take(i + 1).last() == (kvs@[i as int].0@, kvs@[i as int].1@));
        }
        let key = kvs[i].0.as_str();
        if !same(key, "general.architecture") && !is_empty_value(&kvs[i].1) {
            match recode(&kvs[i].1) {
                Some(v) => {
                    let ghost w = v@;
                    put(&mut more, key, v);
                    assert(rest + one(key@, w) =~= rest.push((key@, w)));
                },
                None => {
                    proof {
                        copy_stops(all, i as int);
                    }
                    return Err(key.to_owned());
                },
            }
        }
        i += 1;
    }
    assert(all.take(i as int) =~= all);
    put_all(out, more);
    Ok(())
}

/// What stops the copy of some entries stops that of all.
proof fn copy_stops(kvs: Seq<(Seq<char>, ValueView)>, i: int)
    requires
        0 <= i < kvs.len(),
        copied(kvs.take(i + 1)) is Err,
    ensures
        copied(kvs) == copied(kvs.take(i + 1)),
    decreases kvs.len(),
{
    if i + 1 == kvs.len() {
        assert(kvs.take(i + 1) =~= kvs);
    } else {
        assert(kvs.drop_last().take(i + 1) =~= kvs.take(i + 1));
        copy_stops(kvs.drop_last(), i);
    }
}

/// Whether a list has an entry.
pub open spec fn has_entry(kvs: Seq<(Seq<char>, ValueView)>, kv: (Seq<char>, ValueView)) -> bool {
    exists|k: int| 0 <= k < kvs.len() && #[trigger] kvs[k] == kv
}

/// Every entry but the architecture and what is empty is copied: an array of
/// integers with the same numbers as 32-bit integers, an array of
/// floating-point numbers as singles, all else as it is.
pub proof fn entries_are_copied(kvs: Seq<(Seq<char>, ValueView)>, i: int)
    requires
        copied(kvs) is Ok,
        0 <= i < kvs.len(),
        kvs[i].0 != "general.architecture"@,
        !empty_value(kvs[i].1),
    ensures
        recoded(kvs[i].1) is Some,
        has_entry(copied(kvs)->Ok_0, (kvs[i].0, recoded(kvs[i].1)->0)),
        other_integers(kvs[i].1) matches Some(n) ==> {
            &&& recoded(kvs[i].1)->0 is ArrI32
            &&& wholes_of(recoded(kvs[i].1)->0->ArrI32_0) == n
        },
    decreases kvs.len(),
{
    let front = kvs.drop_last();
    let e = copied(kvs)->Ok_0;
    if i + 1 == kvs.len() {
        assert(e[e.len() - 1] == (kvs[i].0, recoded(kvs[i].1)->0));
    } else {
        entries_are_copied(front, i);
        let rest = copied(front)->Ok_0;
        let kv = (kvs[i].0, recoded(kvs[i].1)->0);
        let k = choose|k: int| 0 <= k < rest.len() && #[trigger] rest[k] == kv;
        assert(e[k] == kv);
    }
    if let Some(n) = other_integers(kvs[i].1) {
        assert(wholes_of(n.map_values(|x: int| x as i32)) =~= n);
    }
}

/// The numbers of 32-bit integers.
pub open spec fn wholes_of(v: Seq<i32>) -> Seq<int> {
    Seq::new(v.len(), |i: int| v[i] as int)
}

/// The scale of a cast that has one.
pub open spec fn scale_in(kind: Kind) -> Option<u64> {
    match kind {
        Kind::CastF16 { scale, hadamard_d: _ } => if scale != DOUBLE_ONE {
            Some(scale)
        } else {
            None
        },
        _ => None,
    }
}

/// The length over which a cast transforms rows, if it does.
pub open spec fn length_in(kind: Kind) -> Option<usize> {
    match kind {
        Kind::CastF16 { scale: _, hadamard_d } => if hadamard_d != 0 {
            Some(hadamard_d)
        } else {
            None
        },
        _ => None,
    }
}

/// The names of the tensors that are scaled, and their scales.
pub open spec fn scaled_tensors(names: Seq<Seq<char>>, kinds: Seq<Kind>) -> (
    Seq<Seq<char>>,
    Seq<u32>,
)
    decreases kinds.len(),
{
    if kinds.len() == 0 {
        (Seq::empty(), Seq::empty())
    } else {
        let rest = scaled_tensors(names, kinds.drop_last());
        match scale_in(kinds.last()) {
            Some(s) => (rest.0.push(names[kinds.len() - 1]), rest.1.push(single_of_double(s))),
            None => rest,
        }
    }
}

/// The names of the tensors whose rows are transformed, and over how many
/// elements.
pub open spec fn turned_tensors(names: Seq<Seq<char>>, kinds: Seq<Kind>) -> (
    Seq<Seq<char>>,
    Seq<i32>,
)
    decreases kinds.len(),
{
    if kinds.len() == 0 {
        (Seq::empty(), Seq::empty())
    } else {
        let rest = turned_tensors(names, kinds.drop_last());
        match length_in(kinds.last()) {
            Some(d) => (rest.0.push(names[kinds.len() - 1]), rest.1.push(d as i32)),
            None => rest,
        }
    }
}

/// The names of the tensors with a scale for each row, how many rows each has,
/// and all their scales.
pub open spec fn channel_tensors(names: Seq<Seq<char>>, channels: Seq<Seq<u32>>) -> (
    Seq<Seq<char>>,
    Seq<i32>,
    Seq<u32>,
)
    decreases channels.len(),
{
    if channels.len() == 0 {
        (Seq::empty(), Seq::empty(), Seq::empty())
    } else {
        let rest = channel_tensors(names, channels.drop_last());
        let last = channels.last();
        if last.len() == 0 {
            rest
        } else {
            (
                rest.0.push(names[channels.len() - 1]),
                rest.1.push(last.len() as usize as i32),
                rest.2 + last,
            )
        }
    }
}

/// The entries for scaled tensors.
pub open spec fn scale_entries(names: Seq<Seq<char>>, kinds: Seq<Kind>) -> Seq<
    (Seq<char>, ValueView),
> {
    let (n, v) = scaled_tensors(names, kinds);
    if n.len() == 0 {
        Seq::empty()
    } else {
        Seq::empty() + one("recast.scales.names"@, ValueView::ArrStr(n)) + one(
            "recast.scales.values"@,
            ValueView::ArrF32(v),
        )
    }
}

/// The entries for tensors whose rows are transformed.
pub open spec fn hadamard_entries(names: Seq<Seq<char>>, kinds: Seq<Kind>) -> Seq<
    (Seq<char>, ValueView),
> {
    let (n, v) = turned_tensors(names, kinds);
    if n.len() == 0 {
        Seq::empty()
    } else {
        Seq::empty() + one("recast.hadamard.names"@, ValueView::ArrStr(n)) + one(
            "recast.hadamard.values"@,
            ValueView::ArrI32(v),
        )
    }
}

/// The entries for tensors with a scale for each row.
pub open spec fn channel_entries(names: Seq<Seq<char>>, channels: Seq<Seq<u32>>) -> Seq<
    (Seq<char>, ValueView),
> {
    let (n, l, v) = channel_tensors(names, channels);
    if n.len() == 0 {
        Seq::empty()
    } else {
        Seq::empty() + one("recast.per_channel.names"@, ValueView::ArrStr(n)) + one(
            "recast.per_channel.lengths"@,
            ValueView::ArrI32(l),
        ) + one("recast.per_channel.values"@, ValueView::ArrF32(v))
    }
}

/// The metadata of a recast file: the architecture, what is copied, and what
/// tells of the recast; or the key under which an integer does not fit.
pub open spec fn recast_entries(
    arch: Seq<char>,
    kvs: Seq<(Seq<char>, ValueView)>,
    tier: Tier,
    force_rescale: bool,
    names: Seq<Seq<char>>,
    kinds: Seq<Kind>,
    channels: Seq<Seq<u32>>,
) -> Result<Seq<(Seq<char>, ValueView)>, Seq<char>> {
    match copied(kvs) {
        Err(key) => Err(key),
        Ok(copy) => Ok(
            Seq::empty() + text_entry("general.architecture"@, arch) + copy + text_entry(
                "recast.tier"@,
                tier.text(),
            ) + (if force_rescale {
                one("recast.force_rescale"@, ValueView::Bool(true))
            } else {
                Seq::empty()
            }) + scale_entries(names, kinds) + hadamard_entries(names, kinds) + channel_entries(
                names,
                channels,
            ),
        ),
    }
}

/// What is done with each tensor.
pub open spec fn kinds_of(entries: Seq<EntryView>) -> Seq<Kind> {
    entries.map_values(|e: EntryView| e.kind)
}

/// What plans mean.
pub open spec fn entry_views(v: Seq<PlanEntry>) -> Seq<EntryView> {
    Seq::new(v.len(), |i: int| v[i]@)
}

/// What lists of scales mean.
pub open spec fn channel_views(v: Seq<Vec<u32>>) -> Seq<Seq<u32>> {
    Seq::new(v.len(), |i: int| v[i]@)
}

/// Append the entries for scaled tensors.
fn put_scales(kvs: &mut Vec<(String, Value)>, names: &[String], entries: &[PlanEntry])
    requires
        names@.len() == entries@.len(),
    ensures
        kv_views(final(kvs)@) == kv_views(old(kvs)@) + scale_entries(
            views(names@),
            kinds_of(entry_views(entries@)),
        ),
{
    let ghost all = kinds_of(entry_views(entries@));
    let mut n: Vec<String> = Vec::new();
    let mut v: Vec<u32> = Vec::new();
    let mut i: usize = 0;
    assert(all.take(0) =~= Seq::empty());
    assert(views(n@) =~= Seq::empty());
    while i < entries.len()
        invariant
            i <= entries@.len(),
            names@.len() == entries@.len(),
            all == kinds_of(entry_views(entries@)),
            (views(n@), v@) == scaled_tensors(views(names@), all.take(i as int)),
        decreases entries@.len() - i,
    {
        proof {
            assert(all.take(i + 1).drop_last() =~= all.take(i as int));
            assert(all.take(i + 1).last() == entries@[i as int].kind);
            assert(views(names@)[i as int] == names@[i as int]@);
        }
        match entries[i].kind {
            Kind::CastF16 { scale, hadamard_d: _ } => {
                if scale != DOUBLE_ONE {
                    let ghost before = views(n@);
                    n.push(names[i].clone());
                    assert(views(n@) =~= before.push(names@[i as int]@));
                    v.push(double_to_single(scale));
                }
            },
            _ => {},
        }
        i += 1;
    }
    assert(all.take(i as int) =~= all);
    let ghost start = kv_views(kvs@);
    if n.is_empty() {
        assert(start =~= start + Seq::empty());
    } else {
        put(kvs, "recast.scales.names", Value::ArrStr(n));
        put(kvs, "recast.scales.values", Value::ArrF32(v));
        assert(kv_views(kvs@) =~= start + scale_entries(views(names@), all));
    }
}

/// Append the entries for tensors whose rows are transformed.
fn put_hadamard(kvs: &mut Vec<(String, Value)>, names: &[String], entries: &[PlanEntry])
    requires
        names@.len() == entries@.len(),
    ensures
        kv_views(final(kvs)@) == kv_views(old(kvs)@) + hadamard_entries(
            views(names@),
            kinds_of(entry_views(entries@)),
        ),
{
    let ghost all = kinds_of(entry_views(entries@));
    let mut n: Vec<String> = Vec::new();
    let mut v: Vec<i32> = Vec::new();
    let mut i: usize = 0;
    assert(all.take(0) =~= Seq::empty());
    assert(views(n@) =~= Seq::empty());
    while i < entries.len()
        invariant
            i <= entries@.len(),
            names@.len() == entries@.len(),
            all == kinds_of(entry_views(entries@)),
            (views(n@), v@) == turned_tensors(views(names@), all.take(i as int)),
        decreases entries@.len() - i,
    {
        proof {
            assert(all.take(i + 1).drop_last() =~= all.take(i as int));
            assert(all.take(i + 1).last() == entries@[i as int].kind);
            assert(views(names@)[i as int] == names@[i as int]@);
        }
        match entries[i].kind {
            Kind::CastF16 { scale: _, hadamard_d } => {
                if hadamard_d != 0 {
                    let ghost before = views(n@);
                    n.push(names[i].clone());
                    assert(views(n@) =~= before.push(names@[i as int]@));
                    v.push(hadamard_d as i32);
                }
            },
            _ => {},
        }
        i += 1;
    }
    assert(all.take(i as int) =~= all);
    let ghost start = kv_views(kvs@);
    if n.is_empty() {
        assert(start =~= start + Seq::empty());
    } else {
        put(kvs, "recast.hadamard.names", Value::ArrStr(n));
        put(kvs, "recast.hadamard.values", Value::ArrI32(v));
        assert(kv_views(kvs@) =~= start + hadamard_entries(views(names@), all));
    }
}

/// Append the entries for tensors with a scale for each row.
fn put_channels(kvs: &mut Vec<(String, Value)>, names: &[String], channels: &[Vec<u32>])
    requires
        names@.len() == channels@.len(),
    ensures
        kv_views(final(kvs)@) == kv_views(old(kvs)@) + channel_entries(
            views(names@),
            channel_views(channels@),
        ),
{
    let ghost all = channel_views(channels@);
    let mut n: Vec<String> = Vec::new();
    let mut l: Vec<i32> = Vec::new();
    let mut v: Vec<u32> = Vec::new();
    let mut i: usize = 0;
    assert(all.take(0) =~= Seq::empty());
    assert(views(n@) =~= Seq::empty());
    while i < channels.len()
        invariant
            i <= channels@.len(),
            names@.len() == channels@.len(),
            all == channel_views(channels@),
            (views(n@), l@, v@) == channel_tensors(views(names@), all.take(i as int)),
        decreases channels@.len() - i,
    {
        proof {
            assert(all.take(i + 1).drop_last() =~= all.take(i as int));
            assert(all.take(i + 1).last() == channels@[i as int]@);
            assert(views(names@)[i as int] == names@[i as int]@);
        }
        let rows: usize = channels[i].len();
        if rows > 0 {
            let ghost before = views(n@);
            let ghost values = v@;
            n.push(names[i].clone());
            assert(views(n@) =~= before.push(names@[i as int]@));
            l.push(rows as i32);
            v.extend_from_slice(channels[i].as_slice());
            assert(v@ =~= values + channels@[i as int]@);
        }
        i += 1;
    }
    assert(all.take(i as int) =~= all);
    let ghost start = kv_views(kvs@);
    if n.is_empty() {
        assert(start =~= start + Seq::empty());
    } else {
        put(kvs, "recast.per_channel.names", Value::ArrStr(n));
        put(kvs, "recast.per_channel.lengths", Value::ArrI32(l));
        put(kvs, "recast.per_channel.values", Value::ArrF32(v));
        assert(kv_views(kvs@) =~= start + channel_entries(views(names@), all));
    }
}

/// The metadata of a recast file, or the key under which an integer does not
/// fit.
pub fn build_recast_kvs(
    arch: &str,
    source: &[(String, Value)],
    tier: Tier,
    force_rescale: bool,
    names: &[String],
    entries: &[PlanEntry],
    channels: &[Vec<u32>],
) -> (r: Result<Vec<(String, Value)>, String>)
    requires
        names@.len() == entries@.len(),
        names@.len() == channels@.len(),
    ensures
        match recast_entries(
            arch@,
            kv_views(source@),
            tier,
            force_rescale,
            views(names@),
            kinds_of(entry_views(entries@)),
            channel_views(channels@),
        ) {
            Ok(e) => r is Ok && kv_views(r->Ok_0@) == e,
            Err(key) => r is Err && r->Err_0@ == key,
        },
{
    let mut kvs: Vec<(String, Value)> = Vec::new();
    assert(kv_views(kvs@) =~= Seq::empty());
    put_text(&mut kvs, "general.architecture", arch);
    match copy_kvs(source, &mut kvs) {
        Ok(()) => {},
        Err(key) => {
            return Err(key);
        },
    }
    put_text(&mut kvs, "recast.tier", tier.name());
    if force_rescale {
        put(&mut kvs, "recast.force_rescale", Value::Bool(true));
    } else {
        assert(kv_views(kvs@) =~= kv_views(kvs@) + Seq::empty());
    }
    put_scales(&mut kvs, names, entries);
    put_hadamard(&mut kvs, names, entries);
    put_channels(&mut kvs, names, channels);
    Ok(kvs)
}

} // verus!
