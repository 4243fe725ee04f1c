//! Laws of the order of tensors.

use crate::json::JsonView;
use crate::safetensors::{
    by_name, inserted, precedes, refs_of, tensor_ref, RefView, ShardErrorView,
};
use vstd::prelude::*;

verus! {

/// No name comes before itself.
pub proof fn precedes_irreflexive(a: Seq<char>)
    ensures
        !precedes(a, a),
    decreases a.len(),
{
    if a.len() > 0 {
        precedes_irreflexive(a.drop_first());
    }
}

/// What comes before what comes before comes before.
pub proof fn precedes_transitive(a: Seq<char>, b: Seq<char>, c: Seq<char>)
    requires
        precedes(a, b),
        precedes(b, c),
    ensures
        precedes(a, c),
    decreases a.len(),
{
    if a.len() > 0 && a[0] == b[0] && b[0] == c[0] {
        precedes_transitive(a.drop_first(), b.drop_first(), c.drop_first());
    }
}

/// Of two different names one comes before the other.
pub proof fn precedes_total(a: Seq<char>, b: Seq<char>)
    ensures
        a == b || precedes(a, b) || precedes(b, a),
    decreases a.len(),
{
    if a.len() > 0 && b.len() > 0 {
        if a[0] == b[0] {
            precedes_total(a.drop_first(), b.drop_first());
            if a.drop_first() == b.drop_first() {
                assert(a =~= seq![a[0]] + a.drop_first());
                assert(b =~= seq![b[0]] + b.drop_first());
            }
        }
    } else if a.len() == 0 && b.len() == 0 {
        assert(a =~= b);
    }
}

/// Whether names come in ascending order, none twice.
pub open spec fn ascending(list: Seq<(Seq<char>, JsonView)>) -> bool {
    forall|i: int, j: int|
        0 <= i < j < list.len() ==> precedes((#[trigger] list[i]).0, (#[trigger] list[j]).0)
}

/// Whether all names come before this one.
spec fn all_before(list: Seq<(Seq<char>, JsonView)>, name: Seq<char>) -> bool {
    forall|i: int| 0 <= i < list.len() ==> precedes((#[trigger] list[i]).0, name)
}

/// The value under a name, the last of those with it.
pub open spec fn last_named(list: Seq<(Seq<char>, JsonView)>, name: Seq<char>) -> Option<JsonView>
    decreases list.len(),
{
    if list.len() == 0 {
        None
    } else if list.last().0 == name {
        Some(list.last().1)
    } else {
        last_named(list.drop_last(), name)
    }
}

/// Insertion keeps the order and adds just the one name.
proof fn inserted_keeps(
    list: Seq<(Seq<char>, JsonView)>,
    name: Seq<char>,
    value: JsonView,
    other: Seq<char>,
    bound: Seq<char>,
)
    requires
        ascending(list),
    ensures
        ascending(inserted(list, name, value)),
        all_before(list, bound) && precedes(name, bound) ==> all_before(
            inserted(list, name, value),
            bound,
        ),
        last_named(inserted(list, name, value), other) == (if other == name {
            Some(value)
        } else {
            last_named(list, other)
        }),
    decreases list.len(),
{
    let r = inserted(list, name, value);
    if list.len() == 0 {
        assert(r.drop_last() =~= list);
    } else if precedes(list.last().0, name) {
        assert(r.drop_last() =~= list);
        assert forall|i: int, j: int| 0 <= i < j < r.len() implies precedes(
            (#[trigger] r[i]).0,
            (#[trigger] r[j]).0,
        ) by {
            if j == list.len() && i < list.len() - 1 {
                precedes_transitive(list[i].0, list.last().0, name);
            }
        }
    } else if list.last().0 == name {
        assert(r.drop_last() =~= list.drop_last());
        assert forall|i: int, j: int| 0 <= i < j < r.len() implies precedes(
            (#[trigger] r[i]).0,
            (#[trigger] r[j]).0,
        ) by {
            assert(r[j].0 == list[j].0);
            assert(r[i].0 == list[i].0);
        }
        if all_before(list, bound) && precedes(name, bound) {
            assert forall|i: int| 0 <= i < r.len() implies precedes((#[trigger] r[i]).0, bound) by {
                assert(r[i].0 == list[i].0);
            }
        }
    } else {
        let rest = list.drop_last();
        let last = list.last();
        precedes_total(last.0, name);
        assert(ascending(rest)) by {
            assert forall|i: int, j: int| 0 <= i < j < rest.len() implies precedes(
                (#[trigger] rest[i]).0,
                (#[trigger] rest[j]).0,
            ) by {
                assert(rest[i] == list[i] && rest[j] == list[j]);
            }
        }
        inserted_keeps(rest, name, value, other, last.0);
        inserted_keeps(rest, name, value, other, bound);
        let q = inserted(rest, name, value);
        assert(all_before(rest, last.0)) by {
            assert forall|i: int| 0 <= i < rest.len() implies precedes(
                (#[trigger] rest[i]).0,
                last.0,
            ) by {
                assert(rest[i] == list[i]);
            }
        }
        assert(r.drop_last() =~= q);
        assert forall|i: int, j: int| 0 <= i < j < r.len() implies precedes(
            (#[trigger] r[i]).0,
            (#[trigger] r[j]).0,
        ) by {
            assert(r[i] == q[i]);
            if j < q.len() {
                assert(r[j] == q[j]);
            }
        }
        if all_before(list, bound) && precedes(name, bound) {
            assert(all_before(rest, bound)) by {
                assert forall|i: int| 0 <= i < rest.len() implies precedes(
                    (#[trigger] rest[i]).0,
                    bound,
                ) by {
                    assert(rest[i] == list[i]);
                }
            }
            assert(precedes(list[list.len() - 1].0, bound));
            assert forall|i: int| 0 <= i < r.len() implies precedes((#[trigger] r[i]).0, bound) by {
                if i < q.len() {
                    assert(r[i] == q[i]);
                }
            }
        }
    }
}

/// Within a shard tensors come in ascending order of their names, none twice.
pub proof fn tensors_ascend(entries: Seq<(Seq<char>, JsonView)>)
    ensures
        ascending(by_name(entries)),
    decreases entries.len(),
{
    if entries.len() > 0 {
        let rest = entries.drop_last();
        tensors_ascend(rest);
        let e = entries.last();
        inserted_keeps(by_name(rest), e.0, e.1, e.0, e.0);
    }
}

/// Every entry of a header but the metadata is kept under its name.
pub proof fn entries_kept(entries: Seq<(Seq<char>, JsonView)>, name: Seq<char>)
    requires
        name != "__metadata__"@,
    ensures
        last_named(by_name(entries), name) == last_named(entries, name),
    decreases entries.len(),
{
    if entries.len() > 0 {
        let rest = entries.drop_last();
        entries_kept(rest, name);
        tensors_ascend(rest);
        let e = entries.last();
        inserted_keeps(by_name(rest), e.0, e.1, name, name);
    }
}

/// The tensors read from a list have the list's names in its order, each with
/// what its entry says.
pub proof fn refs_follow_list(
    before: Seq<(Seq<char>, RefView)>,
    shard: usize,
    data_start: usize,
    list: Seq<(Seq<char>, JsonView)>,
)
    requires
        refs_of(before, shard, data_start, list) is Ok,
    ensures
        ({
            let refs = refs_of(before, shard, data_start, list)->Ok_0;
            &&& refs.len() == before.len() + list.len()
            &&& refs.take(before.len() as int) == before
            &&& forall|i: int|
                0 <= i < list.len() ==> (#[trigger] refs[before.len() + i]).0 == list[i].0
                    && tensor_ref(shard, data_start, list[i].1) == Ok::<RefView, ShardErrorView>(
                    refs[before.len() + i].1,
                )
        }),
    decreases list.len(),
{
    let refs = refs_of(before, shard, data_start, list)->Ok_0;
    if list.len() == 0 {
        assert(refs.take(before.len() as int) =~= before);
    } else {
        let t = tensor_ref(shard, data_start, list[0].1)->Ok_0;
        let next = before.push((list[0].0, t));
        let rest = list.drop_first();
        refs_follow_list(next, shard, data_start, rest);
        assert(refs.take(before.len() as int) =~= before) by {
            assert forall|i: int| 0 <= i < before.len() implies refs[i] == before[i] by {
                assert(refs.take(next.len() as int)[i] == next[i]);
            }
        }
        assert forall|i: int| 0 <= i < list.len() implies (#[trigger] refs[before.len() + i]).0
            == list[i].0 && tensor_ref(shard, data_start, list[i].1) == Ok::<
            RefView,
            ShardErrorView,
        >(refs[before.len() + i].1) by {
            if i == 0 {
                assert(refs.take(next.len() as int)[before.len() as int] == next[before.len() as int]);
            } else {
                let k = i - 1;
                assert(refs[next.len() + k].0 == rest[k].0);
                assert(rest[k] == list[i]);
            }
        }
    }
}

} // verus!
