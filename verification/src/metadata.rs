//! Lists of metadata.

use crate::gguf::{kv_views, Value, ValueView};
use vstd::prelude::*;

verus! {

/// A list of one entry.
pub open spec fn one(key: Seq<char>, value: ValueView) -> Seq<(Seq<char>, ValueView)> {
    seq![(key, value)]
}

/// An entry for a text; an empty one is dropped.
pub open spec fn text_entry(key: Seq<char>, s: Seq<char>) -> Seq<(Seq<char>, ValueView)> {
    if s.len() == 0 {
        Seq::empty()
    } else {
        one(key, ValueView::Str(s))
    }
}

/// An entry for a text that is there.
pub open spec fn text_entry_if(key: Seq<char>, s: Option<Seq<char>>) -> Seq<
    (Seq<char>, ValueView),
> {
    match s {
        Some(t) => text_entry(key, t),
        None => Seq::empty(),
    }
}

/// Append an entry.
pub fn put(kvs: &mut Vec<(String, Value)>, key: &str, value: Value)
    ensures
        kv_views(final(kvs)@) == kv_views(old(kvs)@) + one(key@, value@),
{
    let ghost v = value@;
    kvs.push((key.to_owned(), value));
    assert(kv_views(kvs@) =~= kv_views(old(kvs)@) + one(key@, v));
}

/// Append an entry for a text; an empty one is dropped.
pub fn put_text(kvs: &mut Vec<(String, Value)>, key: &str, s: &str)
    ensures
        kv_views(final(kvs)@) == kv_views(old(kvs)@) + text_entry(key@, s@),
{
    if s.is_empty() {
        assert(kv_views(kvs@) =~= kv_views(old(kvs)@) + Seq::empty());
    } else {
        put(kvs, key, Value::Str(s.to_owned()));
    }
}

/// Append an entry for a text that is there.
pub fn put_text_if(kvs: &mut Vec<(String, Value)>, key: &str, s: Option<&str>)
    ensures
        kv_views(final(kvs)@) == kv_views(old(kvs)@) + text_entry_if(
            key@,
            match s {
                Some(t) => Some(t@),
                None => None,
            },
        ),
{
    match s {
        Some(t) => put_text(kvs, key, t),
        None => {
            assert(kv_views(kvs@) =~= kv_views(old(kvs)@) + Seq::empty());
        },
    }
}

/// Append entries.
pub fn put_all(kvs: &mut Vec<(String, Value)>, more: Vec<(String, Value)>)
    ensures
        kv_views(final(kvs)@) == kv_views(old(kvs)@) + kv_views(more@),
{
    let ghost before = kvs@;
    let mut rest = more;
    kvs.append(&mut rest);
    assert(kv_views(kvs@) =~= kv_views(before) + kv_views(more@));
}

} // verus!
