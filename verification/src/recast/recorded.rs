//! Laws of the metadata of a recast: what is recorded of each tensor, and what
//! is copied.

use crate::gguf::laws::entry_is_found;
use crate::gguf::reader::{lookup, tensor_data_spec};
use crate::gguf::writer::distinct_keys;
use crate::gguf::ValueView;
use crate::ieee::convert::single_of_double;
use crate::metadata::text_entry;
use crate::recast::kvs::{
    channel_entries, channel_tensors, copied, empty_value, hadamard_entries, kinds_of,
    recoded, scale_entries, scaled_tensors, turned_tensors, wholes,
};
use crate::recast::plan::{Kind, Tier};
use crate::recast::run::{names_of, task_entries, Task};
use crate::recast::values::{largest_single, row_scale, singles_of};
use crate::safetensors::u16_values;
use vstd::prelude::*;

verus! {

/// Whether some places are all those below `n` that are asked for, in their
/// order.
pub open spec fn picks(at: Seq<int>, n: int, asked: spec_fn(int) -> bool) -> bool {
    &&& forall|k: int| 0 <= k < at.len() ==> 0 <= #[trigger] at[k] < n && asked(at[k])
    &&& forall|k: int, l: int| 0 <= k < l < at.len() ==> #[trigger] at[k] < #[trigger] at[l]
    &&& forall|i: int| 0 <= i < n && #[trigger] asked(i) ==> at.contains(i)
}

/// One place more, where it is asked for.
proof fn picks_next(at: Seq<int>, n: int, asked: spec_fn(int) -> bool) -> (r: Seq<int>)
    requires
        0 <= n,
        picks(at, n, asked),
    ensures
        picks(r, n + 1, asked),
        r == (if asked(n) {
            at.push(n)
        } else {
            at
        }),
{
    let r = if asked(n) {
        at.push(n)
    } else {
        at
    };
    assert forall|i: int| 0 <= i < n + 1 && #[trigger] asked(i) implies r.contains(i) by {
        if i < n {
            let k = choose|k: int| 0 <= k < at.len() && at[k] == i;
            assert(r[k] == i);
        } else {
            assert(r[at.len() as int] == i);
        }
    }
    r
}

/// Whether a tensor is cast and divided by a scale other than one.
pub open spec fn is_scaled(kind: Kind) -> bool {
    kind matches Kind::CastF16 { scale, hadamard_d: _ } && scale != 0x3ff0_0000_0000_0000
}

/// Whether a tensor is cast after its rows are transformed.
pub open spec fn is_turned(kind: Kind) -> bool {
    kind matches Kind::CastF16 { scale: _, hadamard_d } && hadamard_d != 0
}

/// The scaled tensors are recorded one by one: the name of each with its own
/// scale.
proof fn scaled_one_by_one(names: Seq<Seq<char>>, kinds: Seq<Kind>) -> (at: Seq<int>)
    requires
        kinds.len() <= names.len(),
    ensures
        picks(at, kinds.len() as int, |i: int| is_scaled(kinds[i])),
        scaled_tensors(names, kinds).0.len() == at.len(),
        scaled_tensors(names, kinds).1.len() == at.len(),
        forall|k: int|
            0 <= k < at.len() ==> scaled_tensors(names, kinds).0[k] == names[#[trigger] at[k]]
                && scaled_tensors(names, kinds).1[k] == single_of_double(
                kinds[at[k]]->CastF16_scale,
            ),
    decreases kinds.len(),
{
    let asked = |i: int| is_scaled(kinds[i]);
    if kinds.len() == 0 {
        Seq::empty()
    } else {
        let n = kinds.len() - 1;
        let front = kinds.drop_last();
        let at = scaled_one_by_one(names, front);
        assert(picks(at, n, asked)) by {
            assert forall|i: int| 0 <= i < n && #[trigger] asked(i) implies at.contains(i) by {
                assert((|i: int| is_scaled(front[i]))(i));
            }
        }
        let r = picks_next(at, n, asked);
        assert(kinds.last() == kinds[n]);
        r
    }
}

/// The transformed tensors are recorded one by one: the name of each with its
/// own length.
proof fn turned_one_by_one(names: Seq<Seq<char>>, kinds: Seq<Kind>) -> (at: Seq<int>)
    requires
        kinds.len() <= names.len(),
    ensures
        picks(at, kinds.len() as int, |i: int| is_turned(kinds[i])),
        turned_tensors(names, kinds).0.len() == at.len(),
        turned_tensors(names, kinds).1.len() == at.len(),
        forall|k: int|
            0 <= k < at.len() ==> turned_tensors(names, kinds).0[k] == names[#[trigger] at[k]]
                && turned_tensors(names, kinds).1[k] == kinds[at[k]]->CastF16_hadamard_d as i32,
    decreases kinds.len(),
{
    let asked = |i: int| is_turned(kinds[i]);
    if kinds.len() == 0 {
        Seq::empty()
    } else {
        let n = kinds.len() - 1;
        let front = kinds.drop_last();
        let at = turned_one_by_one(names, front);
        assert(picks(at, n, asked)) by {
            assert forall|i: int| 0 <= i < n && #[trigger] asked(i) implies at.contains(i) by {
                assert((|i: int| is_turned(front[i]))(i));
            }
        }
        let r = picks_next(at, n, asked);
        assert(kinds.last() == kinds[n]);
        r
    }
}

/// How many scales of rows are recorded before those of tensor `at[k]`.
pub open spec fn scales_before(channels: Seq<Seq<u32>>, at: Seq<int>, k: int) -> nat
    decreases k,
{
    if k <= 0 {
        0
    } else {
        scales_before(channels, at, k - 1) + channels[at[k - 1]].len()
    }
}

/// The places of more tensors leave those before them where they were.
proof fn scales_before_push(channels: Seq<Seq<u32>>, at: Seq<int>, x: int, k: int)
    requires
        0 <= k <= at.len(),
    ensures
        scales_before(channels, at.push(x), k) == scales_before(channels, at, k),
    decreases k,
{
    if k > 0 {
        scales_before_push(channels, at, x, k - 1);
    }
}

/// The places of scales depend on the tensors before them alone.
proof fn scales_before_same(a: Seq<Seq<u32>>, b: Seq<Seq<u32>>, at: Seq<int>, k: int)
    requires
        0 <= k <= at.len(),
        forall|i: int| 0 <= i < k ==> a[#[trigger] at[i]] == b[at[i]],
    ensures
        scales_before(a, at, k) == scales_before(b, at, k),
    decreases k,
{
    if k > 0 {
        scales_before_same(a, b, at, k - 1);
    }
}

/// Whether scale `r` of tensor `at[k]` stands at its place among all.
pub open spec fn placed(
    values: Seq<u32>,
    channels: Seq<Seq<u32>>,
    at: Seq<int>,
    k: int,
    r: int,
) -> bool {
    let i = scales_before(channels, at, k) + r;
    i < values.len() && values[i] == channels[at[k]][r]
}

/// The tensors with scales of rows are recorded one by one: the name of each
/// with the number of its rows, and its scales at their place among all.
proof fn channels_one_by_one(names: Seq<Seq<char>>, channels: Seq<Seq<u32>>) -> (at: Seq<int>)
    requires
        channels.len() <= names.len(),
    ensures
        picks(at, channels.len() as int, |i: int| channels[i].len() > 0),
        channel_tensors(names, channels).0.len() == at.len(),
        channel_tensors(names, channels).1.len() == at.len(),
        channel_tensors(names, channels).2.len() == scales_before(channels, at, at.len() as int),
        forall|k: int|
            0 <= k < at.len() ==> channel_tensors(names, channels).0[k] == names[#[trigger] at[k]]
                && channel_tensors(names, channels).1[k] == channels[at[k]].len() as usize as i32,
        forall|k: int, r: int|
            0 <= k < at.len() && 0 <= r < channels[at[k]].len() ==> #[trigger] placed(
                channel_tensors(names, channels).2,
                channels,
                at,
                k,
                r,
            ),
    decreases channels.len(),
{
    let asked = |i: int| channels[i].len() > 0;
    if channels.len() == 0 {
        Seq::empty()
    } else {
        let n = channels.len() - 1;
        let front = channels.drop_last();
        let at = channels_one_by_one(names, front);
        assert(picks(at, n, asked)) by {
            assert forall|i: int| 0 <= i < n && #[trigger] asked(i) implies at.contains(i) by {
                assert((|i: int| front[i].len() > 0)(i));
            }
        }
        let res = picks_next(at, n, asked);
        assert(channels.last() == channels[n]);
        let old_values = channel_tensors(names, front).2;
        let values = channel_tensors(names, channels).2;
        let m = at.len() as int;
        assert forall|k: int| 0 <= k <= m implies #[trigger] scales_before(channels, res, k)
            == scales_before(front, at, k) by {
            scales_before_same(channels, front, at, k);
            if asked(n) {
                scales_before_push(channels, at, n, k);
            }
        }
        assert(scales_before(channels, res, m) == old_values.len());
        if asked(n) {
            assert(scales_before(channels, res, m + 1) == scales_before(channels, res, m)
                + channels[res[m]].len());
        }
        assert forall|k: int, r: int|
            0 <= k < res.len() && 0 <= r < channels[res[k]].len() implies #[trigger] placed(
            values,
            channels,
            res,
            k,
            r,
        ) by {
            if k < m {
                assert(res[k] == at[k]);
                assert(scales_before(channels, res, k) == scales_before(front, at, k));
                assert(front[at[k]] == channels[res[k]]);
                assert(placed(old_values, front, at, k, r));
            } else {
                assert(res[k] == n);
                assert(values[old_values.len() + r] == channels.last()[r]);
            }
        }
        res
    }
}

/// The three parts that tell of tensors are in the metadata.
proof fn parts_are_there(task: Task, arch: Seq<char>)
    requires
        task_entries(task, arch) is Ok,
    ensures
        ({
            let kvs = task_entries(task, arch)->Ok_0;
            let names = names_of(task.source.tensors);
            let kinds = kinds_of(task.entries());
            &&& forall|i: int|
                0 <= i < scale_entries(names, kinds).len() ==> kvs.contains(
                    #[trigger] scale_entries(names, kinds)[i],
                )
            &&& forall|i: int|
                0 <= i < hadamard_entries(names, kinds).len() ==> kvs.contains(
                    #[trigger] hadamard_entries(names, kinds)[i],
                )
            &&& forall|i: int|
                0 <= i < channel_entries(names, task.channels()).len() ==> kvs.contains(
                    #[trigger] channel_entries(names, task.channels())[i],
                )
        }),
{
    let kvs = task_entries(task, arch)->Ok_0;
    let names = names_of(task.source.tensors);
    let kinds = kinds_of(task.entries());
    let a = scale_entries(names, kinds);
    let b = hadamard_entries(names, kinds);
    let c = channel_entries(names, task.channels());
    let head = kvs.take(kvs.len() - c.len() - b.len() - a.len());
    assert(kvs =~= head + a + b + c);
    assert forall|i: int| 0 <= i < a.len() implies kvs.contains(#[trigger] a[i]) by {
        assert(kvs[head.len() + i] == a[i]);
    }
    assert forall|i: int| 0 <= i < b.len() implies kvs.contains(#[trigger] b[i]) by {
        assert(kvs[head.len() + a.len() + i] == b[i]);
    }
    assert forall|i: int| 0 <= i < c.len() implies kvs.contains(#[trigger] c[i]) by {
        assert(kvs[head.len() + a.len() + b.len() + i] == c[i]);
    }
}

/// The scales that are recorded in a recast file are those that its data were
/// divided by: there is an entry for each tensor that is cast with a scale
/// other than one, in the order of the tensors, its name in one list and its
/// own scale as a single at the same place of the other. Where there is no such
/// tensor, neither list is written.
pub proof fn scales_are_recorded(task: Task, arch: Seq<char>) -> (at: Seq<int>)
    requires
        task_entries(task, arch) is Ok,
        distinct_keys(task_entries(task, arch)->Ok_0),
    ensures
        ({
            let kvs = task_entries(task, arch)->Ok_0;
            let tensors = task.source.tensors;
            &&& picks(at, tensors.len() as int, |i: int| is_scaled(task.entries()[i].kind))
            &&& at.len() == 0 ==> scale_entries(
                names_of(tensors),
                kinds_of(task.entries()),
            ).len() == 0
            &&& at.len() > 0 ==> {
                &&& lookup(kvs, "recast.scales.names"@) matches Some(ValueView::ArrStr(n))
                    && n.len() == at.len() && forall|k: int|
                    0 <= k < n.len() ==> #[trigger] n[k] == tensors[at[k]].name
                &&& lookup(kvs, "recast.scales.values"@) matches Some(ValueView::ArrF32(v))
                    && v.len() == at.len() && forall|k: int|
                    0 <= k < v.len() ==> #[trigger] v[k] == single_of_double(
                        task.entries()[at[k]].kind->CastF16_scale,
                    )
            }
        }),
{
    let kvs = task_entries(task, arch)->Ok_0;
    let tensors = task.source.tensors;
    let names = names_of(tensors);
    let kinds = kinds_of(task.entries());
    let at = scaled_one_by_one(names, kinds);
    let want = |i: int| is_scaled(task.entries()[i].kind);
    assert(picks(at, tensors.len() as int, want)) by {
        assert forall|i: int| 0 <= i < tensors.len() && #[trigger] want(i) implies at.contains(
            i,
        ) by {
            assert((|i: int| is_scaled(kinds[i]))(i));
        }
        assert forall|k: int| 0 <= k < at.len() implies 0 <= #[trigger] at[k] < tensors.len()
            && want(at[k]) by {
            assert((|i: int| is_scaled(kinds[i]))(at[k]));
        }
    }
    parts_are_there(task, arch);
    let e = scale_entries(names, kinds);
    let (n, v) = scaled_tensors(names, kinds);
    if at.len() > 0 {
        assert(e[0] == ("recast.scales.names"@, ValueView::ArrStr(n)));
        assert(e[1] == ("recast.scales.values"@, ValueView::ArrF32(v)));
        entry_is_found(kvs, e[0]);
        entry_is_found(kvs, e[1]);
        assert forall|k: int| 0 <= k < n.len() implies #[trigger] n[k] == tensors[at[k]].name by {
            assert(n[k] == names[at[k]]);
        }
        assert forall|k: int| 0 <= k < v.len() implies #[trigger] v[k] == single_of_double(
            task.entries()[at[k]].kind->CastF16_scale,
        ) by {
            assert(v[k] == single_of_double(kinds[at[k]]->CastF16_scale));
        }
    }
    at
}

/// The lengths over which rows were transformed are recorded: there is an entry
/// for each tensor that is cast after a transform, in the order of the tensors,
/// its name in one list and its own length at the same place of the other.
/// Where there is no such tensor, neither list is written.
pub proof fn lengths_are_recorded(task: Task, arch: Seq<char>) -> (at: Seq<int>)
    requires
        task_entries(task, arch) is Ok,
        distinct_keys(task_entries(task, arch)->Ok_0),
    ensures
        ({
            let kvs = task_entries(task, arch)->Ok_0;
            let tensors = task.source.tensors;
            &&& picks(at, tensors.len() as int, |i: int| is_turned(task.entries()[i].kind))
            &&& at.len() == 0 ==> hadamard_entries(
                names_of(tensors),
                kinds_of(task.entries()),
            ).len() == 0
            &&& at.len() > 0 ==> {
                &&& lookup(kvs, "recast.hadamard.names"@) matches Some(ValueView::ArrStr(n))
                    && n.len() == at.len() && forall|k: int|
                    0 <= k < n.len() ==> #[trigger] n[k] == tensors[at[k]].name
                &&& lookup(kvs, "recast.hadamard.values"@) matches Some(ValueView::ArrI32(v))
                    && v.len() == at.len() && forall|k: int|
                    0 <= k < v.len() ==> #[trigger] v[k]
                        == task.entries()[at[k]].kind->CastF16_hadamard_d as i32
            }
        }),
{
    let kvs = task_entries(task, arch)->Ok_0;
    let tensors = task.source.tensors;
    let names = names_of(tensors);
    let kinds = kinds_of(task.entries());
    let at = turned_one_by_one(names, kinds);
    let want = |i: int| is_turned(task.entries()[i].kind);
    assert(picks(at, tensors.len() as int, want)) by {
        assert forall|i: int| 0 <= i < tensors.len() && #[trigger] want(i) implies at.contains(
            i,
        ) by {
            assert((|i: int| is_turned(kinds[i]))(i));
        }
        assert forall|k: int| 0 <= k < at.len() implies 0 <= #[trigger] at[k] < tensors.len()
            && want(at[k]) by {
            assert((|i: int| is_turned(kinds[i]))(at[k]));
        }
    }
    parts_are_there(task, arch);
    let e = hadamard_entries(names, kinds);
    let (n, v) = turned_tensors(names, kinds);
    if at.len() > 0 {
        assert(e[0] == ("recast.hadamard.names"@, ValueView::ArrStr(n)));
        assert(e[1] == ("recast.hadamard.values"@, ValueView::ArrI32(v)));
        entry_is_found(kvs, e[0]);
        entry_is_found(kvs, e[1]);
        assert forall|k: int| 0 <= k < n.len() implies #[trigger] n[k] == tensors[at[k]].name by {
            assert(n[k] == names[at[k]]);
        }
        assert forall|k: int| 0 <= k < v.len() implies #[trigger] v[k]
            == task.entries()[at[k]].kind->CastF16_hadamard_d as i32 by {
            assert(v[k] == kinds[at[k]]->CastF16_hadamard_d as i32);
        }
    }
    at
}

/// The scales of rows are recorded: there is an entry for each tensor that has
/// some, in the order of the tensors, its name in one list and the number of its
/// rows at the same place of another; the third list holds its scales, behind
/// those of the tensors before it. Where there is no such tensor, no list is
/// written.
pub proof fn row_scales_are_recorded(task: Task, arch: Seq<char>) -> (at: Seq<int>)
    requires
        task_entries(task, arch) is Ok,
        distinct_keys(task_entries(task, arch)->Ok_0),
    ensures
        ({
            let kvs = task_entries(task, arch)->Ok_0;
            let tensors = task.source.tensors;
            let channels = task.channels();
            &&& picks(at, tensors.len() as int, |i: int| channels[i].len() > 0)
            &&& at.len() == 0 ==> channel_entries(names_of(tensors), channels).len() == 0
            &&& at.len() > 0 ==> {
                &&& lookup(kvs, "recast.per_channel.names"@) matches Some(ValueView::ArrStr(n))
                    && n.len() == at.len() && forall|k: int|
                    0 <= k < n.len() ==> #[trigger] n[k] == tensors[at[k]].name
                &&& lookup(kvs, "recast.per_channel.lengths"@) matches Some(ValueView::ArrI32(l))
                    && l.len() == at.len() && forall|k: int|
                    0 <= k < l.len() ==> #[trigger] l[k] == channels[at[k]].len() as usize as i32
                &&& lookup(kvs, "recast.per_channel.values"@) matches Some(ValueView::ArrF32(v))
                    && v.len() == scales_before(channels, at, at.len() as int) && forall|
                    k: int,
                    r: int,
                |
                    0 <= k < at.len() && 0 <= r < channels[at[k]].len() ==> #[trigger] placed(
                        v,
                        channels,
                        at,
                        k,
                        r,
                    )
            }
        }),
{
    let kvs = task_entries(task, arch)->Ok_0;
    let tensors = task.source.tensors;
    let names = names_of(tensors);
    let channels = task.channels();
    let at = channels_one_by_one(names, channels);
    parts_are_there(task, arch);
    let e = channel_entries(names, channels);
    let (n, l, v) = channel_tensors(names, channels);
    if at.len() > 0 {
        assert(e[0] == ("recast.per_channel.names"@, ValueView::ArrStr(n)));
        assert(e[1] == ("recast.per_channel.lengths"@, ValueView::ArrI32(l)));
        assert(e[2] == ("recast.per_channel.values"@, ValueView::ArrF32(v)));
        entry_is_found(kvs, e[0]);
        entry_is_found(kvs, e[1]);
        entry_is_found(kvs, e[2]);
        assert forall|k: int| 0 <= k < n.len() implies #[trigger] n[k] == tensors[at[k]].name by {
            assert(n[k] == names[at[k]]);
        }
        assert forall|k: int| 0 <= k < l.len() implies #[trigger] l[k]
            == channels[at[k]].len() as usize as i32 by {
            assert(n[k] == names[at[k]]);
        }
    }
    at
}

/// Scales of rows are those of the matrices that the fourth tier casts, each
/// from the largest magnitude of its own row. All other tensors have none.
pub proof fn just_cast_matrices_have_row_scales(task: Task, i: int)
    requires
        task.step(i) is Ok,
        0 <= i < task.source.tensors.len(),
    ensures
        ({
            let t = task.source.tensors[i];
            let elems = u16_values(tensor_data_spec(task.bytes, task.source, t)->Ok_0);
            let scales = task.channels()[i];
            if task.tier == Tier::T4 && task.entries()[i].kind is CastF16 && t.dims.len() == 2 {
                &&& scales.len() == elems.len() / t.dims[0] as nat
                &&& forall|r: int|
                    0 <= r < scales.len() ==> #[trigger] scales[r] == row_scale(
                        largest_single(
                            singles_of(
                                elems.subrange(r * t.dims[0], r * t.dims[0] + t.dims[0]),
                            ),
                        ),
                        task.force_rescale,
                    )
            } else {
                scales.len() == 0
            }
        }),
{
}

/// What a recast file says of itself: its architecture, the tier by its name,
/// and whether scales were forced.
pub proof fn the_recast_is_recorded(task: Task, arch: Seq<char>)
    requires
        task_entries(task, arch) is Ok,
        distinct_keys(task_entries(task, arch)->Ok_0),
    ensures
        ({
            let kvs = task_entries(task, arch)->Ok_0;
            &&& arch.len() > 0 ==> lookup(kvs, "general.architecture"@) == Some(
                ValueView::Str(arch),
            )
            &&& task.tier == Tier::T1 ==> lookup(kvs, "recast.tier"@) == Some(
                ValueView::Str("T1"@),
            )
            &&& task.tier == Tier::T2 ==> lookup(kvs, "recast.tier"@) == Some(
                ValueView::Str("T2"@),
            )
            &&& task.tier == Tier::T3 ==> lookup(kvs, "recast.tier"@) == Some(
                ValueView::Str("T3"@),
            )
            &&& task.tier == Tier::T4 ==> lookup(kvs, "recast.tier"@) == Some(
                ValueView::Str("T4"@),
            )
            &&& task.tier == Tier::T5 ==> lookup(kvs, "recast.tier"@) == Some(
                ValueView::Str("T5"@),
            )
            &&& task.force_rescale ==> lookup(kvs, "recast.force_rescale"@) == Some(
                ValueView::Bool(true),
            )
        }),
{
    let kvs = task_entries(task, arch)->Ok_0;
    let copy = copied(task.source.kvs)->Ok_0;
    reveal_strlit("T1");
    reveal_strlit("T2");
    reveal_strlit("T3");
    reveal_strlit("T4");
    reveal_strlit("T5");
    reveal_strlit("dry-run");
    let a = text_entry("general.architecture"@, arch);
    let t = text_entry("recast.tier"@, task.tier.text());
    assert(t.len() == 1);
    assert(kvs[(a.len() + copy.len()) as int] == t[0]);
    entry_is_found(kvs, t[0]);
    if arch.len() > 0 {
        assert(kvs[0] == a[0]);
        entry_is_found(kvs, a[0]);
    }
    if task.force_rescale {
        let f = ("recast.force_rescale"@, ValueView::Bool(true));
        assert(kvs[(a.len() + copy.len() + 1) as int] == f);
        entry_is_found(kvs, f);
    }
}

/// Whether an entry of the source is copied: it is no architecture, and neither
/// an empty text nor an empty list.
pub open spec fn is_copied(kv: (Seq<char>, ValueView)) -> bool {
    kv.0 != "general.architecture"@ && !empty_value(kv.1)
}

/// The entries of a source are copied in their order, each under its key, but
/// for the architecture and what is empty.
pub proof fn copies_keep_order(kvs: Seq<(Seq<char>, ValueView)>) -> (at: Seq<int>)
    requires
        copied(kvs) is Ok,
    ensures
        picks(at, kvs.len() as int, |i: int| is_copied(kvs[i])),
        copied(kvs)->Ok_0.len() == at.len(),
        forall|k: int|
            0 <= k < at.len() ==> recoded(kvs[#[trigger] at[k]].1) == Some(
                copied(kvs)->Ok_0[k].1,
            ) && copied(kvs)->Ok_0[k].0 == kvs[at[k]].0,
    decreases kvs.len(),
{
    let asked = |i: int| is_copied(kvs[i]);
    if kvs.len() == 0 {
        Seq::empty()
    } else {
        let n = kvs.len() - 1;
        let front = kvs.drop_last();
        let at = copies_keep_order(front);
        assert(picks(at, n, asked)) by {
            assert forall|i: int| 0 <= i < n && #[trigger] asked(i) implies at.contains(i) by {
                assert((|i: int| is_copied(front[i]))(i));
            }
        }
        let r = picks_next(at, n, asked);
        assert(kvs.last() == kvs[n]);
        r
    }
}

/// How a value is copied: numbers and texts, and lists of texts, truth values,
/// 32-bit integers and singles as they are; lists of other integers with the
/// same numbers, where each fits in 32 bits, and else not at all; lists of
/// doubles as singles.
pub proof fn values_are_copied(v: ValueView)
    ensures
        ({
            let r = recoded(v);
            &&& (v is U8 || v is I8 || v is U16 || v is I16 || v is U32 || v is I32 || v is F32
                || v is Bool || v is Str || v is U64 || v is I64 || v is F64 || v is ArrStr
                || v is ArrBool || v is ArrI32 || v is ArrF32) ==> r == Some(v)
            &&& v matches ValueView::ArrU8(s) ==> r matches Some(ValueView::ArrI32(n)) && n.len()
                == s.len() && forall|i: int| 0 <= i < s.len() ==> #[trigger] n[i] == s[i]
            &&& v matches ValueView::ArrI8(s) ==> r matches Some(ValueView::ArrI32(n)) && n.len()
                == s.len() && forall|i: int| 0 <= i < s.len() ==> #[trigger] n[i] == s[i]
            &&& v matches ValueView::ArrU16(s) ==> r matches Some(ValueView::ArrI32(n)) && n.len()
                == s.len() && forall|i: int| 0 <= i < s.len() ==> #[trigger] n[i] == s[i]
            &&& v matches ValueView::ArrI16(s) ==> r matches Some(ValueView::ArrI32(n)) && n.len()
                == s.len() && forall|i: int| 0 <= i < s.len() ==> #[trigger] n[i] == s[i]
            &&& v matches ValueView::ArrF64(s) ==> r matches Some(ValueView::ArrF32(n)) && n.len()
                == s.len() && forall|i: int|
                0 <= i < s.len() ==> #[trigger] n[i] == single_of_double(s[i])
        }),
        v matches ValueView::ArrU32(s) ==> {
            &&& recoded(v) is None <==> exists|i: int|
                0 <= i < s.len() && #[trigger] s[i] > 0x7fff_ffff
            &&& recoded(v) matches Some(x) ==> x matches ValueView::ArrI32(n) && n.len() == s.len()
                && forall|i: int| 0 <= i < s.len() ==> #[trigger] n[i] == s[i]
        },
        v matches ValueView::ArrU64(s) ==> {
            &&& recoded(v) is None <==> exists|i: int|
                0 <= i < s.len() && #[trigger] s[i] > 0x7fff_ffff
            &&& recoded(v) matches Some(x) ==> x matches ValueView::ArrI32(n) && n.len() == s.len()
                && forall|i: int| 0 <= i < s.len() ==> #[trigger] n[i] == s[i]
        },
        v matches ValueView::ArrI64(s) ==> {
            &&& recoded(v) is None <==> exists|i: int|
                0 <= i < s.len() && !(-0x8000_0000 <= #[trigger] s[i] <= 0x7fff_ffff)
            &&& recoded(v) matches Some(x) ==> x matches ValueView::ArrI32(n) && n.len() == s.len()
                && forall|i: int| 0 <= i < s.len() ==> #[trigger] n[i] == s[i]
        },
{
    match v {
        ValueView::ArrU32(s) => {
            assert forall|i: int| 0 <= i < s.len() implies wholes(s)[i] == #[trigger] s[i] by {}
            if exists|i: int| 0 <= i < s.len() && #[trigger] s[i] > 0x7fff_ffff {
                let i = choose|i: int| 0 <= i < s.len() && #[trigger] s[i] > 0x7fff_ffff;
                assert(wholes(s)[i] == s[i]);
            }
        },
        ValueView::ArrU64(s) => {
            assert forall|i: int| 0 <= i < s.len() implies wholes(s)[i] == #[trigger] s[i] by {}
            if exists|i: int| 0 <= i < s.len() && #[trigger] s[i] > 0x7fff_ffff {
                let i = choose|i: int| 0 <= i < s.len() && #[trigger] s[i] > 0x7fff_ffff;
                assert(wholes(s)[i] == s[i]);
            }
        },
        ValueView::ArrI64(s) => {
            assert forall|i: int| 0 <= i < s.len() implies wholes(s)[i] == #[trigger] s[i] by {}
            if exists|i: int|
                0 <= i < s.len() && !(-0x8000_0000 <= #[trigger] s[i] <= 0x7fff_ffff) {
                let i = choose|i: int|
                    0 <= i < s.len() && !(-0x8000_0000 <= #[trigger] s[i] <= 0x7fff_ffff);
                assert(wholes(s)[i] == s[i]);
            }
        },
        _ => {},
    }
}

} // verus!
