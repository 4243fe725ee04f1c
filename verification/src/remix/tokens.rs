//! Laws of the vocabulary: which token an id has and of which type, and where
//! the ids of special tokens come from.

use crate::json::JsonView;
use crate::remix::told::is_kind;
use crate::remix::vocab::{
    added_ids, added_of, first_assignment_wins, id_for, id_in_model, id_in_tokenizer, ids_in_model,
    ids_in_tokenizer, last_with, merge_part, merge_text, special_ids_of, token_kind, token_of,
    vocab_ids, with_content, AddedToken,
};
use crate::text::{decimal, has_prefix, has_suffix};
use vstd::prelude::*;

verus! {

/// The last place of an id is the one behind which it does not stand.
proof fn last_is(ids: Seq<u32>, k: int)
    requires
        0 <= k < ids.len(),
        forall|j: int| k < j < ids.len() ==> #[trigger] ids[j] != ids[k],
    ensures
        last_with(ids, ids[k]) == Some(k),
    decreases ids.len(),
{
    if k < ids.len() - 1 {
        let front = ids.drop_last();
        assert(ids.last() == ids[ids.len() - 1]);
        last_is(front, k);
    }
}

/// An id that stands nowhere has no place.
proof fn last_is_none(ids: Seq<u32>, id: u32)
    requires
        forall|j: int| 0 <= j < ids.len() ==> #[trigger] ids[j] != id,
    ensures
        last_with(ids, id) is None,
    decreases ids.len(),
{
    if ids.len() > 0 {
        assert(ids.last() == ids[ids.len() - 1]);
        last_is_none(ids.drop_last(), id);
    }
}

/// Whether the text of a token marks it as special.
pub open spec fn marked(s: Seq<char>) -> bool {
    ||| s == "<pad>"@
    ||| s == "<mask>"@
    ||| s == "<2mass>"@
    ||| s == "[@BOS@]"@
    ||| has_prefix(s, "<|"@) && has_suffix(s, "|>"@)
    ||| has_prefix(s, "<\u{ff5c}"@) && has_suffix(s, "\u{ff5c}>"@)
    ||| has_prefix(s, "<unused"@) && has_suffix(s, ">"@)
}

/// Whether a text is another one with spaces for its bars.
pub open spec fn spaced_out(t: Seq<char>, s: Seq<char>) -> bool {
    &&& t.len() == s.len()
    &&& forall|i: int|
        0 <= i < s.len() ==> #[trigger] t[i] == (if s[i] == '\u{2581}' {
            ' '
        } else {
            s[i]
        })
}

/// An added token has its id, the last of those with the id: as a control token
/// with its own text where it is special or looks so, and else as a
/// user-defined one with spaces for its bars.
pub proof fn added_tokens_come_first(vocab: Seq<(String, u32)>, added: Seq<AddedToken>, k: int)
    requires
        0 <= k < added.len(),
        forall|j: int| k < j < added.len() ==> (#[trigger] added[j]).id != added[k].id,
    ensures
        ({
            let t = token_of(vocab, added, added[k].id);
            if added[k].special || marked(added[k].content@) {
                t == (added[k].content@, 3i32)
            } else {
                spaced_out(t.0, added[k].content@) && t.1 == 4
            }
        }),
{
    let ids = added_ids(added);
    assert forall|j: int| k < j < ids.len() implies #[trigger] ids[j] != ids[k] by {
        assert(added[j].id != added[k].id);
    }
    last_is(ids, k);
}

/// An id that no added token has is that of the vocabulary's token, the last of
/// those with the id, as a normal one.
pub proof fn the_vocabulary_follows(vocab: Seq<(String, u32)>, added: Seq<AddedToken>, k: int)
    requires
        0 <= k < vocab.len(),
        forall|j: int| 0 <= j < added.len() ==> (#[trigger] added[j]).id != vocab[k].1,
        forall|j: int| k < j < vocab.len() ==> (#[trigger] vocab[j]).1 != vocab[k].1,
    ensures
        token_of(vocab, added, vocab[k].1) == (vocab[k].0@, 1i32),
{
    let a = added_ids(added);
    assert forall|j: int| 0 <= j < a.len() implies #[trigger] a[j] != vocab[k].1 by {
        assert(added[j].id != vocab[k].1);
    }
    last_is_none(a, vocab[k].1);
    let ids = vocab_ids(vocab);
    assert forall|j: int| k < j < ids.len() implies #[trigger] ids[j] != ids[k] by {
        assert(vocab[j].1 != vocab[k].1);
    }
    last_is(ids, k);
}

/// An id that no token has is unused, under a name made of it.
pub proof fn other_ids_are_unused(vocab: Seq<(String, u32)>, added: Seq<AddedToken>, id: u32)
    requires
        forall|j: int| 0 <= j < added.len() ==> (#[trigger] added[j]).id != id,
        forall|j: int| 0 <= j < vocab.len() ==> (#[trigger] vocab[j]).1 != id,
    ensures
        token_of(vocab, added, id) == ("[PAD"@ + decimal(id as nat) + "]"@, 5i32),
{
    let a = added_ids(added);
    assert forall|j: int| 0 <= j < a.len() implies #[trigger] a[j] != id by {
        assert(added[j].id != id);
    }
    last_is_none(a, id);
    let ids = vocab_ids(vocab);
    assert forall|j: int| 0 <= j < ids.len() implies #[trigger] ids[j] != id by {
        assert(vocab[j].1 != id);
    }
    last_is_none(ids, id);
}

/// Whether a text is another one with the spaces in it encoded.
pub open spec fn spaces_encoded(t: Seq<char>, s: Seq<char>) -> bool {
    &&& t.len() == s.len()
    &&& forall|i: int|
        0 <= i < s.len() ==> #[trigger] t[i] == (if s[i] == ' ' {
            '\u{120}'
        } else {
            s[i]
        })
}

/// What a part of a pair says: its text, or nothing.
pub open spec fn said(v: JsonView) -> Seq<char> {
    match v {
        JsonView::Str(s) => s,
        _ => Seq::empty(),
    }
}

/// Whether a merge is made of two parts with a space between them.
pub open spec fn joined(t: Option<Seq<char>>, one: JsonView, two: JsonView) -> bool {
    exists|a: Seq<char>, b: Seq<char>|
        t == Some(#[trigger] (a + seq![' '] + b)) && spaces_encoded(a, said(one)) && spaces_encoded(
            b,
            said(two),
        )
}

/// A merge is a text, which stays, or a pair, whose parts stand one after the
/// other with one space between them and those in them encoded. What is no text
/// in a pair counts as an empty one, and nothing else is a merge.
pub proof fn merges_are_texts(v: JsonView)
    ensures
        v matches JsonView::Str(s) ==> merge_text(v) == Some(s),
        v matches JsonView::Arr(p) ==> p.len() == 2 ==> joined(merge_text(v), p[0], p[1]),
        merge_text(v) is Some ==> v is Str || v is Arr && v->Arr_0.len() == 2,
{
    if let JsonView::Arr(p) = v {
        if p.len() == 2 {
            reveal_strlit(" ");
            assert(" "@ =~= seq![' ']);
            let a = merge_part(p[0]);
            let b = merge_part(p[1]);
            assert(merge_text(v) == Some(a + seq![' '] + b));
            assert(spaces_encoded(a, said(p[0])));
            assert(spaces_encoded(b, said(p[1])));
        }
    }
}

/// What a tokenizer's configuration says of a kind of token: a text, or the
/// content of an entry.
pub open spec fn token_text(config: JsonView, kind: Seq<char>) -> Option<Seq<char>> {
    let v = config.at(kind + "_token"@);
    if v is Str {
        v.as_str()
    } else {
        v.at("content"@).as_str()
    }
}

/// The first added token of a content.
proof fn first_with_content(added: Seq<JsonView>, content: Seq<char>, i: int)
    requires
        0 <= i < added.len(),
        added[i].at("content"@).as_str() == Some(content),
        forall|j: int|
            0 <= j < i ==> (#[trigger] added[j]).at("content"@).as_str() != Some(content),
    ensures
        with_content(added, content) == Some(added[i]),
    decreases i,
{
    if i > 0 {
        let rest = added.drop_first();
        assert(added[0].at("content"@).as_str() != Some(content));
        assert forall|j: int| 0 <= j < i - 1 implies (#[trigger] rest[j]).at("content"@).as_str()
            != Some(content) by {
            assert(rest[j] == added[j + 1]);
        }
        first_with_content(rest, content, i - 1);
    }
}

/// No added token of a content.
proof fn none_with_content(added: Seq<JsonView>, content: Seq<char>)
    requires
        forall|j: int|
            0 <= j < added.len() ==> (#[trigger] added[j]).at("content"@).as_str() != Some(content),
    ensures
        with_content(added, content) is None,
    decreases added.len(),
{
    if added.len() > 0 {
        let rest = added.drop_first();
        assert(added[0].at("content"@).as_str() != Some(content));
        assert forall|j: int| 0 <= j < rest.len() implies (#[trigger] rest[j]).at(
            "content"@,
        ).as_str() != Some(content) by {
            assert(rest[j] == added[j + 1]);
        }
        none_with_content(rest, content);
    }
}

/// The id of a kind in a tokenizer is that of the first added token with the
/// text that the tokenizer's configuration says.
pub proof fn named_tokens_give_their_id(
    added: Seq<JsonView>,
    config: JsonView,
    kind: Seq<char>,
    i: int,
)
    requires
        0 <= i < added.len(),
        token_text(config, kind) is Some,
        added[i].at("content"@).as_str() == token_text(config, kind),
        forall|j: int|
            0 <= j < i ==> (#[trigger] added[j]).at("content"@).as_str() != token_text(
                config,
                kind,
            ),
    ensures
        added[i].at("id"@).as_unsigned() matches Some(x) ==> id_in_tokenizer(added, config, kind)
            == Some(x as u32),
        added[i].at("id"@).as_unsigned() is None ==> id_in_tokenizer(added, config, kind) is None,
{
    first_with_content(added, token_text(config, kind)->0, i);
}

/// A kind has no id in a tokenizer where the configuration says nothing of it,
/// or a text that no added token has.
pub proof fn unnamed_tokens_give_none(added: Seq<JsonView>, config: JsonView, kind: Seq<char>)
    requires
        token_text(config, kind) matches Some(s) ==> forall|j: int|
            0 <= j < added.len() ==> (#[trigger] added[j]).at("content"@).as_str() != Some(s),
    ensures
        id_in_tokenizer(added, config, kind) is None,
{
    if let Some(s) = token_text(config, kind) {
        none_with_content(added, s);
    }
}

/// The id of a kind in a model is that of its configuration, before that of the
/// configuration of its text.
pub proof fn models_give_ids(config: JsonView, kind: Seq<char>)
    ensures
        ({
            let key = kind + "_token_id"@;
            let here = config.at(key).as_unsigned();
            let there = config.at("text_config"@).at(key).as_unsigned();
            &&& here matches Some(x) ==> id_in_model(config, kind) == Some(x as u32)
            &&& here is None && there is Some ==> id_in_model(config, kind) == Some(
                there->0 as u32,
            )
            &&& here is None && there is None ==> id_in_model(config, kind) is None
        }),
{
}

/// The id of a kind: that of the tokenizer, and else that of the model.
pub open spec fn chosen_id(
    tokenizer: JsonView,
    tokenizer_config: Option<JsonView>,
    config: Option<JsonView>,
    kind: Seq<char>,
) -> Option<u32> {
    let named = match tokenizer_config {
        Some(c) => id_in_tokenizer(
            match tokenizer.at("added_tokens"@).as_arr() {
                Some(a) => a,
                None => Seq::empty(),
            },
            c,
            kind,
        ),
        None => None,
    };
    match (named, config) {
        (Some(x), _) => Some(x),
        (None, Some(c)) => id_in_model(c, kind),
        (None, None) => None,
    }
}

/// Each of the kinds has the id of the tokenizer, and else that of the model.
pub proof fn every_kind_has_its_id(
    tokenizer: JsonView,
    tokenizer_config: Option<JsonView>,
    config: Option<JsonView>,
)
    ensures
        ({
            let ids = special_ids_of(tokenizer, tokenizer_config, config);
            &&& id_for(ids, "bos"@) == chosen_id(tokenizer, tokenizer_config, config, "bos"@)
            &&& id_for(ids, "eos"@) == chosen_id(tokenizer, tokenizer_config, config, "eos"@)
            &&& id_for(ids, "unk"@) == chosen_id(tokenizer, tokenizer_config, config, "unk"@)
            &&& id_for(ids, "sep"@) == chosen_id(tokenizer, tokenizer_config, config, "sep"@)
            &&& id_for(ids, "pad"@) == chosen_id(tokenizer, tokenizer_config, config, "pad"@)
            &&& id_for(ids, "cls"@) == chosen_id(tokenizer, tokenizer_config, config, "cls"@)
            &&& id_for(ids, "mask"@) == chosen_id(tokenizer, tokenizer_config, config, "mask"@)
        }),
{
    first_assignment_wins(tokenizer, tokenizer_config, config);
    let ids = special_ids_of(tokenizer, tokenizer_config, config);
    assert(token_kind(0) == "bos"@ && token_kind(1) == "eos"@ && token_kind(2) == "unk"@);
    assert(token_kind(3) == "sep"@ && token_kind(4) == "pad"@ && token_kind(5) == "cls"@);
    assert(token_kind(6) == "mask"@);
    assert(id_for(ids, token_kind(0)) == id_for(ids, "bos"@));
    assert(id_for(ids, token_kind(1)) == id_for(ids, "eos"@));
    assert(id_for(ids, token_kind(2)) == id_for(ids, "unk"@));
    assert(id_for(ids, token_kind(3)) == id_for(ids, "sep"@));
    assert(id_for(ids, token_kind(4)) == id_for(ids, "pad"@));
    assert(id_for(ids, token_kind(5)) == id_for(ids, "cls"@));
    assert(id_for(ids, token_kind(6)) == id_for(ids, "mask"@));
}

/// What the tokenizer's configuration gives are ids of kinds.
proof fn tokenizer_gives_kinds(added: Seq<JsonView>, config: JsonView, n: int)
    requires
        n <= 7,
    ensures
        forall|i: int|
            0 <= i < ids_in_tokenizer(added, config, n).len() ==> is_kind(
                (#[trigger] ids_in_tokenizer(added, config, n)[i]).0,
            ),
    decreases n,
{
    if n > 0 {
        tokenizer_gives_kinds(added, config, n - 1);
        let a = ids_in_tokenizer(added, config, n - 1);
        let b = ids_in_tokenizer(added, config, n);
        assert(is_kind(token_kind(n - 1)));
        assert forall|i: int| 0 <= i < b.len() implies is_kind((#[trigger] b[i]).0) by {
            assert(i < a.len() ==> b[i] == a[i] && is_kind(a[i].0));
        }
    }
}

/// What the model's configuration adds are ids of kinds.
proof fn model_gives_kinds(ids: Seq<(Seq<char>, u32)>, config: JsonView, n: int)
    requires
        n <= 7,
        forall|i: int| 0 <= i < ids.len() ==> is_kind((#[trigger] ids[i]).0),
    ensures
        forall|i: int|
            0 <= i < ids_in_model(ids, config, n).len() ==> is_kind(
                (#[trigger] ids_in_model(ids, config, n)[i]).0,
            ),
    decreases n,
{
    if n > 0 {
        model_gives_kinds(ids, config, n - 1);
        let a = ids_in_model(ids, config, n - 1);
        let b = ids_in_model(ids, config, n);
        assert(is_kind(token_kind(n - 1)));
        assert forall|i: int| 0 <= i < b.len() implies is_kind((#[trigger] b[i]).0) by {
            assert(i < a.len() ==> b[i] == a[i] && is_kind(a[i].0));
        }
    }
}

/// Only the known kinds have ids.
pub proof fn only_kinds_have_ids(
    tokenizer: JsonView,
    tokenizer_config: Option<JsonView>,
    config: Option<JsonView>,
)
    ensures
        ({
            let ids = special_ids_of(tokenizer, tokenizer_config, config);
            forall|i: int| 0 <= i < ids.len() ==> is_kind((#[trigger] ids[i]).0)
        }),
{
    if let Some(c) = tokenizer_config {
        tokenizer_gives_kinds(added_of(tokenizer), c, 7);
    }
    let first = match tokenizer_config {
        Some(c) => ids_in_tokenizer(added_of(tokenizer), c, 7),
        None => Seq::empty(),
    };
    if let Some(c) = config {
        model_gives_kinds(first, c, 7);
    }
}

} // verus!
