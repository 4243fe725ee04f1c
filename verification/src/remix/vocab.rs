//! GPT-2 style vocabulary out of a fast tokenizer's files.

use crate::json::{arr_view, json_parts, json_text, Json, JsonView};
use crate::remix::meta::opt_view;
use crate::text::{
    chars_of, decimal, decimal_text, ends_with, exchange, exchanged, has_prefix, has_suffix, same,
    starts_with, string_of,
};
use std::collections::HashMap;
use vstd::prelude::*;

verus! {

pub const TOKTYPE_NORMAL: i32 = 1;

pub const TOKTYPE_CONTROL: i32 = 3;

pub const TOKTYPE_USER_DEFINED: i32 = 4;

pub const TOKTYPE_UNUSED: i32 = 5;

/// A token that a tokenizer adds to its vocabulary.
#[derive(Debug)]
pub struct AddedToken {
    pub id: u32,
    pub content: String,
    pub special: bool,
}

/// Tokens by id with their types, and merges by rank.
#[derive(Debug)]
pub struct Vocab {
    pub tokens: Vec<String>,
    pub token_types: Vec<i32>,
    pub merges: Vec<String>,
}

/// What keeps the tokenizer's files from being used.
#[derive(Debug, Clone, Copy, PartialEq, Eq, Structural)]
pub enum VocabError {
    /// A merge is neither a text nor a pair.
    UnknownMerges,
    /// A file is no JSON.
    BadJson,
    /// The chat template of the tokenizer's configuration is no text.
    TemplateNotText,
    /// There are additional chat templates.
    AdditionalTemplates,
}

/// Whether a token looks special by its text.
pub open spec fn special_looking(s: Seq<char>) -> bool {
    ||| s == "<pad>"@ || s == "<mask>"@ || s == "<2mass>"@ || s == "[@BOS@]"@
    ||| has_prefix(s, "<|"@) && has_suffix(s, "|>"@)
    ||| has_prefix(s, "<\u{ff5c}"@) && has_suffix(s, "\u{ff5c}>"@)
    ||| has_prefix(s, "<unused"@) && has_suffix(s, ">"@)
}

/// Whether a token looks special by its text.
pub fn looks_special(token: &str) -> (r: bool)
    ensures
        r == special_looking(token@),
{
    same(token, "<pad>") || same(token, "<mask>") || same(token, "<2mass>") || same(
        token,
        "[@BOS@]",
    ) || (starts_with(token, "<|") && ends_with(token, "|>")) || (starts_with(token, "<\u{ff5c}")
        && ends_with(token, "\u{ff5c}>")) || (starts_with(token, "<unused") && ends_with(token, ">"))
}

/// The last place where `id` stands.
pub open spec fn last_with(ids: Seq<u32>, id: u32) -> Option<int>
    decreases ids.len(),
{
    if ids.len() == 0 {
        None
    } else if ids.last() == id {
        Some(ids.len() - 1)
    } else {
        last_with(ids.drop_last(), id)
    }
}

/// The ids of added tokens.
pub open spec fn added_ids(added: Seq<AddedToken>) -> Seq<u32> {
    Seq::new(added.len(), |i: int| added[i].id)
}

/// The ids of a vocabulary.
pub open spec fn vocab_ids(vocab: Seq<(String, u32)>) -> Seq<u32> {
    Seq::new(vocab.len(), |i: int| vocab[i].1)
}

/// The name of an id that no token has.
pub open spec fn pad_name(id: nat) -> Seq<char> {
    "[PAD"@ + decimal(id) + "]"@
}

/// The token of an id with its type: an added token before one of the
/// vocabulary, the last of those with the id.
pub open spec fn token_of(vocab: Seq<(String, u32)>, added: Seq<AddedToken>, id: u32) -> (
    Seq<char>,
    i32,
) {
    match last_with(added_ids(added), id) {
        Some(k) => {
            let a = added[k];
            if a.special || special_looking(a.content@) {
                (a.content@, TOKTYPE_CONTROL)
            } else {
                (exchanged(a.content@, '\u{2581}', ' '), TOKTYPE_USER_DEFINED)
            }
        },
        None => match last_with(vocab_ids(vocab), id) {
            Some(k) => (vocab[k].0@, TOKTYPE_NORMAL),
            None => (pad_name(id as nat), TOKTYPE_UNUSED),
        },
    }
}

/// A part of a merge, with the spaces in it encoded.
pub open spec fn merge_part(v: JsonView) -> Seq<char> {
    match v.as_str() {
        Some(s) => exchanged(s, ' ', '\u{120}'),
        None => Seq::empty(),
    }
}

/// The text of a merge: a text as it is, a pair with a space between.
pub open spec fn merge_text(v: JsonView) -> Option<Seq<char>> {
    match v {
        JsonView::Str(s) => Some(s),
        JsonView::Arr(p) => if p.len() == 2 {
            Some(merge_part(p[0]) + " "@ + merge_part(p[1]))
        } else {
            None
        },
        _ => None,
    }
}

/// What a map from ids to places holds.
spec fn last_places(m: Map<u32, usize>, ids: Seq<u32>) -> bool {
    forall|id: u32|
        #![trigger m.dom().contains(id)]
        m.dom().contains(id) == (last_with(ids, id) is Some) && (m.dom().contains(id) ==> m[id]
            == last_with(ids, id)->0)
}

/// One id more.
proof fn last_places_next(m: Map<u32, usize>, ids: Seq<u32>, i: int)
    requires
        0 <= i < ids.len() <= usize::MAX,
        last_places(m, ids.take(i)),
    ensures
        last_places(m.insert(ids[i], i as usize), ids.take(i + 1)),
{
    assert(ids.take(i + 1).drop_last() =~= ids.take(i));
    let n = m.insert(ids[i], i as usize);
    assert forall|id: u32| #![trigger n.dom().contains(id)]
        n.dom().contains(id) == (last_with(ids.take(i + 1), id) is Some) && (n.dom().contains(id)
            ==> n[id] == last_with(ids.take(i + 1), id)->0) by {
        assert(m.dom().contains(id) == (last_with(ids.take(i), id) is Some));
    }
}

/// The last place of each id among the added tokens.
fn places_of_added(added: &[AddedToken]) -> (m: HashMap<u32, usize>)
    ensures
        last_places(m@, added_ids(added@)),
{
    broadcast use vstd::std_specs::hash::group_hash_axioms;

    let mut m: HashMap<u32, usize> = HashMap::new();
    let ghost ids = added_ids(added@);
    let mut i: usize = 0;
    assert(ids.take(0) =~= Seq::empty());
    while i < added.len()
        invariant
            i <= added@.len(),
            ids == added_ids(added@),
            last_places(m@, ids.take(i as int)),
        decreases added@.len() - i,
    {
        proof {
            assert(added.len() == ids.len());
            last_places_next(m@, ids, i as int);
        }
        m.insert(added[i].id, i);
        i += 1;
    }
    assert(ids.take(i as int) =~= ids);
    m
}

/// The last place of each id in a vocabulary.
fn places_of_vocab(vocab: &[(String, u32)]) -> (m: HashMap<u32, usize>)
    ensures
        last_places(m@, vocab_ids(vocab@)),
{
    broadcast use vstd::std_specs::hash::group_hash_axioms;

    let mut m: HashMap<u32, usize> = HashMap::new();
    let ghost ids = vocab_ids(vocab@);
    let mut i: usize = 0;
    assert(ids.take(0) =~= Seq::empty());
    while i < vocab.len()
        invariant
            i <= vocab@.len(),
            ids == vocab_ids(vocab@),
            last_places(m@, ids.take(i as int)),
        decreases vocab@.len() - i,
    {
        proof {
            assert(vocab.len() == ids.len());
            last_places_next(m@, ids, i as int);
        }
        m.insert(vocab[i].1, i);
        i += 1;
    }
    assert(ids.take(i as int) =~= ids);
    m
}

/// Where the last place of an id is.
proof fn last_with_bounds(ids: Seq<u32>, id: u32)
    ensures
        last_with(ids, id) matches Some(k) ==> 0 <= k < ids.len() && ids[k] == id,
    decreases ids.len(),
{
    if ids.len() > 0 && ids.last() != id {
        last_with_bounds(ids.drop_last(), id);
    }
}

/// The name of an id that no token has.
fn pad_token(id: u32) -> (r: String)
    ensures
        r@ == pad_name(id as nat),
{
    let mut r = String::new();
    r.append("[PAD");
    r.append(decimal_text(id as u64).as_str());
    r.append("]");
    assert(r@ =~= pad_name(id as nat));
    r
}

/// A part of a merge, with the spaces in it encoded.
fn encode_part(v: &Json) -> (r: Vec<char>)
    ensures
        r@ == merge_part(v@),
{
    match v.as_str() {
        Some(s) => {
            let c = chars_of(s);
            exchange(&c, ' ', '\u{120}')
        },
        None => Vec::new(),
    }
}

/// The text of a merge.
fn encode_merge(v: &Json) -> (r: Option<String>)
    ensures
        r is Some <==> merge_text(v@) is Some,
        r is Some ==> r->0@ == merge_text(v@)->0,
{
    proof {
        json_parts(*v);
    }
    match v {
        Json::Str(s) => Some(s.clone()),
        Json::Arr(p) => {
            if p.len() != 2 {
                return None;
            }
            assert(arr_view(p@)[0] == p@[0]@ && arr_view(p@)[1] == p@[1]@);
            let left = encode_part(&p[0]);
            let right = encode_part(&p[1]);
            let mut r = string_of(&left);
            r.append(" ");
            r.append(string_of(&right).as_str());
            assert(r@ =~= merge_part(p@[0]@) + " "@ + merge_part(p@[1]@));
            Some(r)
        },
        _ => None,
    }
}

/// Whether merges all have a text.
pub open spec fn merges_known(merges: Seq<JsonView>) -> bool {
    forall|i: int| 0 <= i < merges.len() ==> merge_text(#[trigger] merges[i]) is Some
}

/// Tokens and types by id, as many as a vocabulary of `vocab_size` has, and
/// the texts of the merges. Added tokens come before those of the vocabulary,
/// and an id that no token has is unused. Spaces in user-defined tokens are
/// normalized.
pub fn load_vocab(
    vocab: &[(String, u32)],
    added: &[AddedToken],
    merges: &[Json],
    vocab_size: usize,
) -> (r: Result<Vocab, VocabError>)
    ensures
        r == Err::<Vocab, VocabError>(VocabError::UnknownMerges) <==> !merges_known(
            arr_view(merges@),
        ),
        r is Ok <==> merges_known(arr_view(merges@)),
        r matches Ok(v) ==> {
            &&& v.tokens@.len() == vocab_size as u32
            &&& v.token_types@.len() == vocab_size as u32
            &&& forall|i: int|
                0 <= i < vocab_size as u32 ==> #[trigger] v.tokens@[i]@ == token_of(
                    vocab@,
                    added@,
                    i as u32,
                ).0
            &&& forall|i: int|
                0 <= i < vocab_size as u32 ==> #[trigger] v.token_types@[i] == token_of(
                    vocab@,
                    added@,
                    i as u32,
                ).1
            &&& v.merges@.len() == merges@.len()
            &&& forall|i: int|
                0 <= i < merges@.len() ==> Some(#[trigger] v.merges@[i]@) == merge_text(
                    merges@[i]@,
                )
        },
{
    let by_added = places_of_added(added);
    let by_vocab = places_of_vocab(vocab);
    let n: u32 = vocab_size as u32;
    let mut tokens: Vec<String> = Vec::new();
    let mut token_types: Vec<i32> = Vec::new();
    let mut i: u32 = 0;
    while i < n
        invariant
            i <= n,
            last_places(by_added@, added_ids(added@)),
            last_places(by_vocab@, vocab_ids(vocab@)),
            tokens@.len() == i,
            token_types@.len() == i,
            forall|k: int|
                0 <= k < i ==> #[trigger] tokens@[k]@ == token_of(vocab@, added@, k as u32).0,
            forall|k: int|
                0 <= k < i ==> #[trigger] token_types@[k] == token_of(vocab@, added@, k as u32).1,
        decreases n - i,
    {
        broadcast use vstd::std_specs::hash::group_hash_axioms;

        proof {
            last_with_bounds(added_ids(added@), i);
            last_with_bounds(vocab_ids(vocab@), i);
            assert(by_added@.dom().contains(i) == (last_with(added_ids(added@), i) is Some));
            assert(by_vocab@.dom().contains(i) == (last_with(vocab_ids(vocab@), i) is Some));
        }
        match by_added.get(&i) {
            Some(k) => {
                let a = &added[*k];
                if a.special || looks_special(a.content.as_str()) {
                    tokens.push(a.content.clone());
                    token_types.push(TOKTYPE_CONTROL);
                } else {
                    let c = chars_of(a.content.as_str());
                    tokens.push(string_of(&exchange(&c, '\u{2581}', ' ')));
                    token_types.push(TOKTYPE_USER_DEFINED);
                }
            },
            None => match by_vocab.get(&i) {
                Some(k) => {
                    tokens.push(vocab[*k].0.clone());
                    token_types.push(TOKTYPE_NORMAL);
                },
                None => {
                    tokens.push(pad_token(i));
                    token_types.push(TOKTYPE_UNUSED);
                },
            },
        }
        i += 1;
    }
    let mut out: Vec<String> = Vec::new();
    let mut j: usize = 0;
    while j < merges.len()
        invariant
            j <= merges@.len(),
            out@.len() == j,
            forall|k: int|
                0 <= k < j ==> Some(#[trigger] out@[k]@) == merge_text(merges@[k]@),
            forall|k: int| 0 <= k < j ==> merge_text(#[trigger] arr_view(merges@)[k]) is Some,
        decreases merges@.len() - j,
    {
        assert(arr_view(merges@)[j as int] == merges@[j as int]@);
        match encode_merge(&merges[j]) {
            Some(t) => {
                out.push(t);
            },
            None => {
                return Err(VocabError::UnknownMerges);
            },
        }
        j += 1;
    }
    Ok(Vocab { tokens, token_types, merges: out })
}

/// The kinds of special tokens, in the order in which they are looked for.
pub open spec fn token_kind(k: int) -> Seq<char> {
    if k == 0 {
        "bos"@
    } else if k == 1 {
        "eos"@
    } else if k == 2 {
        "unk"@
    } else if k == 3 {
        "sep"@
    } else if k == 4 {
        "pad"@
    } else if k == 5 {
        "cls"@
    } else {
        "mask"@
    }
}

/// The kinds of special tokens, in the order in which they are looked for.
fn kind_of_token(k: usize) -> (r: &'static str)
    ensures
        r@ == token_kind(k as int),
{
    if k == 0 {
        "bos"
    } else if k == 1 {
        "eos"
    } else if k == 2 {
        "unk"
    } else if k == 3 {
        "sep"
    } else if k == 4 {
        "pad"
    } else if k == 5 {
        "cls"
    } else {
        "mask"
    }
}

/// Whether a kind has an id.
pub open spec fn has_kind(ids: Seq<(Seq<char>, u32)>, kind: Seq<char>) -> bool {
    exists|i: int| 0 <= i < ids.len() && (#[trigger] ids[i]).0 == kind
}

/// An id for a kind, unless the kind has one.
pub open spec fn with_id(ids: Seq<(Seq<char>, u32)>, kind: Seq<char>, id: Option<u32>) -> Seq<
    (Seq<char>, u32),
> {
    match id {
        Some(x) => if has_kind(ids, kind) {
            ids
        } else {
            ids.push((kind, x))
        },
        None => ids,
    }
}

/// An integer cut to 32 bits.
pub open spec fn cut_u32(x: Option<u64>) -> Option<u32> {
    match x {
        Some(v) => Some(v as u32),
        None => None,
    }
}

/// The first of the added tokens with this content.
pub open spec fn with_content(added: Seq<JsonView>, content: Seq<char>) -> Option<JsonView>
    decreases added.len(),
{
    if added.len() == 0 {
        None
    } else if added[0].at("content"@).as_str() == Some(content) {
        Some(added[0])
    } else {
        with_content(added.drop_first(), content)
    }
}

/// The added tokens of a tokenizer.
pub open spec fn added_of(tokenizer: JsonView) -> Seq<JsonView> {
    match tokenizer.at("added_tokens"@).as_arr() {
        Some(v) => v,
        None => Seq::empty(),
    }
}

/// The text that a tokenizer's configuration gives for a kind of token: a
/// text, or the content of an entry.
pub open spec fn kind_content(config: JsonView, kind: Seq<char>) -> Option<Seq<char>> {
    let entry = config.at(kind + "_token"@);
    match entry.as_str() {
        Some(s) => Some(s),
        None => entry.at("content"@).as_str(),
    }
}

/// The id of the added token that a tokenizer's configuration names.
pub open spec fn id_in_tokenizer(added: Seq<JsonView>, config: JsonView, kind: Seq<char>) -> Option<
    u32,
> {
    match kind_content(config, kind) {
        Some(content) => match with_content(added, content) {
            Some(a) => cut_u32(a.at("id"@).as_unsigned()),
            None => None,
        },
        None => None,
    }
}

/// The id that the model's configuration gives for a kind of token.
pub open spec fn id_in_model(config: JsonView, kind: Seq<char>) -> Option<u32> {
    let key = kind + "_token_id"@;
    match config.at(key).as_unsigned() {
        Some(x) => Some(x as u32),
        None => cut_u32(config.at("text_config"@).at(key).as_unsigned()),
    }
}

/// The ids of the first `n` kinds from the tokenizer's configuration.
pub open spec fn ids_in_tokenizer(added: Seq<JsonView>, config: JsonView, n: int) -> Seq<
    (Seq<char>, u32),
>
    decreases n,
{
    if n <= 0 {
        Seq::empty()
    } else {
        with_id(
            ids_in_tokenizer(added, config, n - 1),
            token_kind(n - 1),
            id_in_tokenizer(added, config, token_kind(n - 1)),
        )
    }
}

/// Ids with those of the first `n` kinds from the model's configuration.
pub open spec fn ids_in_model(ids: Seq<(Seq<char>, u32)>, config: JsonView, n: int) -> Seq<
    (Seq<char>, u32),
>
    decreases n,
{
    if n <= 0 {
        ids
    } else {
        with_id(
            ids_in_model(ids, config, n - 1),
            token_kind(n - 1),
            id_in_model(config, token_kind(n - 1)),
        )
    }
}

/// The special token ids: those of the tokenizer's configuration, then those
/// of the model's, the first of each kind.
pub open spec fn special_ids_of(
    tokenizer: JsonView,
    tokenizer_config: Option<JsonView>,
    config: Option<JsonView>,
) -> Seq<(Seq<char>, u32)> {
    let first = match tokenizer_config {
        Some(c) => ids_in_tokenizer(added_of(tokenizer), c, 7),
        None => Seq::empty(),
    };
    match config {
        Some(c) => ids_in_model(first, c, 7),
        None => first,
    }
}

/// The id that a list has for a kind.
pub open spec fn id_for(ids: Seq<(Seq<char>, u32)>, kind: Seq<char>) -> Option<u32> {
    if has_kind(ids, kind) {
        Some(ids[choose|i: int| 0 <= i < ids.len() && (#[trigger] ids[i]).0 == kind].1)
    } else {
        None
    }
}

/// Whether no kind has two ids.
pub open spec fn kinds_distinct(ids: Seq<(Seq<char>, u32)>) -> bool {
    forall|i: int, j: int|
        0 <= i < j < ids.len() ==> (#[trigger] ids[i]).0 != (#[trigger] ids[j]).0
}

/// An id that is set stays, and the others stay as they were.
proof fn with_id_keeps(ids: Seq<(Seq<char>, u32)>, kind: Seq<char>, id: Option<u32>)
    requires
        kinds_distinct(ids),
    ensures
        kinds_distinct(with_id(ids, kind, id)),
        id_for(with_id(ids, kind, id), kind) == (match id_for(ids, kind) {
            Some(x) => Some(x),
            None => id,
        }),
        forall|other: Seq<char>|
            other != kind ==> #[trigger] id_for(with_id(ids, kind, id), other) == id_for(ids, other),
{
    let now = with_id(ids, kind, id);
    if id is Some && !has_kind(ids, kind) {
        let n = ids.len() as int;
        assert(now[n] == (kind, id->0));
        assert(has_kind(now, kind));
        assert forall|other: Seq<char>| other != kind implies #[trigger] id_for(now, other)
            == id_for(ids, other) by {
            if has_kind(ids, other) {
                let i = choose|i: int| 0 <= i < ids.len() && (#[trigger] ids[i]).0 == other;
                assert(now[i] == ids[i]);
                let j = choose|j: int| 0 <= j < now.len() && (#[trigger] now[j]).0 == other;
                assert(j == i);
            } else if has_kind(now, other) {
                let j = choose|j: int| 0 <= j < now.len() && (#[trigger] now[j]).0 == other;
                assert(ids[j].0 == other);
            }
        }
        let j = choose|j: int| 0 <= j < now.len() && (#[trigger] now[j]).0 == kind;
        if j < n {
            assert(ids[j].0 == kind);
        }
    }
}

/// The seven kinds differ.
proof fn kinds_differ(a: int, b: int)
    requires
        0 <= a < 7,
        0 <= b < 7,
        a != b,
    ensures
        token_kind(a) != token_kind(b),
{
    reveal_strlit("bos");
    reveal_strlit("eos");
    reveal_strlit("unk");
    reveal_strlit("sep");
    reveal_strlit("pad");
    reveal_strlit("cls");
    reveal_strlit("mask");
    let x = token_kind(a);
    let y = token_kind(b);
    assert(x.len() != y.len() || x[0] != y[0]);
}

/// The ids of the first `n` kinds from the tokenizer's configuration.
proof fn tokenizer_sets(added: Seq<JsonView>, config: JsonView, n: int)
    requires
        0 <= n <= 7,
    ensures
        kinds_distinct(ids_in_tokenizer(added, config, n)),
        forall|k: int|
            0 <= k < 7 ==> #[trigger] id_for(ids_in_tokenizer(added, config, n), token_kind(k)) == (
            if k < n {
                id_in_tokenizer(added, config, token_kind(k))
            } else {
                None
            }),
    decreases n,
{
    if n > 0 {
        tokenizer_sets(added, config, n - 1);
        let before = ids_in_tokenizer(added, config, n - 1);
        let kind = token_kind(n - 1);
        with_id_keeps(before, kind, id_in_tokenizer(added, config, kind));
        assert forall|k: int| 0 <= k < 7 implies #[trigger] id_for(
            ids_in_tokenizer(added, config, n),
            token_kind(k),
        ) == (if k < n {
            id_in_tokenizer(added, config, token_kind(k))
        } else {
            None
        }) by {
            assert(id_for(before, token_kind(n - 1)) is None);
            if k != n - 1 {
                kinds_differ(k, n - 1);
            }
        }
    }
}

/// The ids of the first `n` kinds from the model's configuration.
proof fn model_sets(ids: Seq<(Seq<char>, u32)>, config: JsonView, n: int)
    requires
        0 <= n <= 7,
        kinds_distinct(ids),
    ensures
        kinds_distinct(ids_in_model(ids, config, n)),
        forall|k: int|
            0 <= k < 7 ==> #[trigger] id_for(ids_in_model(ids, config, n), token_kind(k)) == (
            if k < n && id_for(ids, token_kind(k)) is None {
                id_in_model(config, token_kind(k))
            } else {
                id_for(ids, token_kind(k))
            }),
    decreases n,
{
    if n > 0 {
        model_sets(ids, config, n - 1);
        let before = ids_in_model(ids, config, n - 1);
        let kind = token_kind(n - 1);
        with_id_keeps(before, kind, id_in_model(config, kind));
        assert forall|k: int| 0 <= k < 7 implies #[trigger] id_for(
            ids_in_model(ids, config, n),
            token_kind(k),
        ) == (if k < n && id_for(ids, token_kind(k)) is None {
            id_in_model(config, token_kind(k))
        } else {
            id_for(ids, token_kind(k))
        }) by {
            assert(id_for(before, token_kind(k)) == (if k < n - 1 && id_for(
                ids,
                token_kind(k),
            ) is None {
                id_in_model(config, token_kind(k))
            } else {
                id_for(ids, token_kind(k))
            }));
            if k != n - 1 {
                kinds_differ(k, n - 1);
            }
        }
    }
}

/// The first assignment of each kind wins: no kind has two ids, and the one
/// that it has is that of the tokenizer's configuration, else that of the
/// model's.
pub proof fn first_assignment_wins(
    tokenizer: JsonView,
    tokenizer_config: Option<JsonView>,
    config: Option<JsonView>,
)
    ensures
        ({
            let ids = special_ids_of(tokenizer, tokenizer_config, config);
            &&& kinds_distinct(ids)
            &&& forall|k: int|
                0 <= k < 7 ==> #[trigger] id_for(ids, token_kind(k)) == (match tokenizer_config {
                    Some(c) if id_in_tokenizer(added_of(tokenizer), c, token_kind(k)) is Some =>
                        id_in_tokenizer(added_of(tokenizer), c, token_kind(k)),
                    _ => match config {
                        Some(c) => id_in_model(c, token_kind(k)),
                        None => None,
                    },
                })
        }),
{
    let none = Seq::<(Seq<char>, u32)>::empty();
    assert(forall|k: int| #[trigger] id_for(none, token_kind(k)) is None);
    if let Some(c) = tokenizer_config {
        tokenizer_sets(added_of(tokenizer), c, 7);
    }
    let first = match tokenizer_config {
        Some(c) => ids_in_tokenizer(added_of(tokenizer), c, 7),
        None => Seq::empty(),
    };
    if let Some(c) = config {
        model_sets(first, c, 7);
    }
}

/// What a list of ids means.
pub open spec fn id_views(ids: Seq<(&'static str, u32)>) -> Seq<(Seq<char>, u32)> {
    Seq::new(ids.len(), |i: int| (ids[i].0@, ids[i].1))
}

/// Set an id for a kind, unless the kind has one.
fn set_id(ids: &mut Vec<(&'static str, u32)>, kind: &'static str, id: Option<u32>)
    ensures
        id_views(final(ids)@) == with_id(id_views(old(ids)@), kind@, id),
{
    match id {
        None => {},
        Some(x) => {
            let mut i: usize = 0;
            while i < ids.len()
                invariant
                    i <= ids@.len(),
                    ids@ == old(ids)@,
                    id == Some(x),
                    forall|k: int| 0 <= k < i ==> (#[trigger] id_views(ids@)[k]).0 != kind@,
                decreases ids@.len() - i,
            {
                assert(id_views(ids@)[i as int] == (ids@[i as int].0@, ids@[i as int].1));
                if same(ids[i].0, kind) {
                    return;
                }
                i += 1;
            }
            ids.push((kind, x));
            assert(id_views(ids@) =~= id_views(old(ids)@).push((kind@, x)));
        },
    }
}

/// A key made of a kind and a suffix.
fn kind_key(kind: &str, suffix: &str) -> (r: String)
    ensures
        r@ == kind@ + suffix@,
{
    let mut r = String::new();
    r.append(kind);
    r.append(suffix);
    assert(r@ =~= kind@ + suffix@);
    r
}

/// The first of the added tokens with this content.
fn find_content<'a>(added: &'a [Json], content: &str) -> (r: Option<&'a Json>)
    ensures
        r is Some <==> with_content(arr_view(added@), content@) is Some,
        r is Some ==> r->0@ == with_content(arr_view(added@), content@)->0,
{
    let mut i: usize = 0;
    assert(arr_view(added@).skip(0) =~= arr_view(added@));
    while i < added.len()
        invariant
            i <= added@.len(),
            with_content(arr_view(added@), content@) == with_content(
                arr_view(added@).skip(i as int),
                content@,
            ),
        decreases added@.len() - i,
    {
        proof {
            let rest = arr_view(added@).skip(i as int);
            assert(rest[0] == added@[i as int]@);
            assert(rest.drop_first() =~= arr_view(added@).skip(i + 1));
        }
        match added[i].str_at("content") {
            Some(s) => {
                if same(s, content) {
                    return Some(&added[i]);
                }
            },
            None => {},
        }
        i += 1;
    }
    None
}

/// An integer cut to 32 bits.
fn cut(x: Option<u64>) -> (r: Option<u32>)
    ensures
        r == cut_u32(x),
{
    match x {
        Some(v) => Some(v as u32),
        None => None,
    }
}

/// The id of the added token that a tokenizer's configuration names.
fn find_in_tokenizer(added: &[Json], config: &Json, kind: &str) -> (r: Option<u32>)
    ensures
        r == id_in_tokenizer(arr_view(added@), config@, kind@),
{
    let key = kind_key(kind, "_token");
    let content = match config.get(key.as_str()) {
        Some(entry) => match entry.as_str() {
            Some(s) => Some(s),
            None => entry.str_at("content"),
        },
        None => None,
    };
    match content {
        Some(c) => match find_content(added, c) {
            Some(a) => cut(a.unsigned_at("id")),
            None => None,
        },
        None => None,
    }
}

/// The id that the model's configuration gives for a kind of token.
fn find_in_model(config: &Json, kind: &str) -> (r: Option<u32>)
    ensures
        r == id_in_model(config@, kind@),
{
    let key = kind_key(kind, "_token_id");
    match config.unsigned_at(key.as_str()) {
        Some(x) => Some(x as u32),
        None => match config.get("text_config") {
            Some(t) => cut(t.unsigned_at(key.as_str())),
            None => None,
        },
    }
}

/// The special token ids of a tokenizer, its configuration and the model's
/// configuration.
pub fn special_ids(tokenizer: &Json, tokenizer_config: Option<&Json>, config: Option<&Json>) -> (r:
    Vec<(&'static str, u32)>)
    ensures
        id_views(r@) == special_ids_of(
            tokenizer@,
            match tokenizer_config {
                Some(c) => Some(c@),
                None => None,
            },
            match config {
                Some(c) => Some(c@),
                None => None,
            },
        ),
{
    let none: Vec<Json> = Vec::new();
    let added: &Vec<Json> = match tokenizer.arr_at("added_tokens") {
        Some(v) => v,
        None => &none,
    };
    assert(arr_view(added@) =~= added_of(tokenizer@));
    let mut ids: Vec<(&'static str, u32)> = Vec::new();
    assert(id_views(ids@) =~= Seq::empty());
    if let Some(c) = tokenizer_config {
        let mut k: usize = 0;
        while k < 7
            invariant
                k <= 7,
                id_views(ids@) == ids_in_tokenizer(arr_view(added@), c@, k as int),
            decreases 7 - k,
        {
            let kind = kind_of_token(k);
            let id = find_in_tokenizer(added, c, kind);
            set_id(&mut ids, kind, id);
            k += 1;
        }
    }
    let ghost first = id_views(ids@);
    if let Some(c) = config {
        let mut k: usize = 0;
        while k < 7
            invariant
                k <= 7,
                id_views(ids@) == ids_in_model(first, c@, k as int),
            decreases 7 - k,
        {
            let kind = kind_of_token(k);
            let id = find_in_model(c, kind);
            set_id(&mut ids, kind, id);
            k += 1;
        }
    }
    ids
}

/// What an optional JSON text holds, `None` where it is absent or no JSON.
pub open spec fn json_or_none(b: Option<&[u8]>) -> Option<JsonView> {
    match b {
        Some(x) => json_text(x@),
        None => None,
    }
}

/// What an optional JSON text holds, `None` where it is absent or no JSON.
pub(crate) fn parse_or_none(b: Option<&[u8]>) -> (r: Option<Json>)
    ensures
        r is Some <==> json_or_none(b) is Some,
        r is Some ==> r->0@ == json_or_none(b)->0,
{
    match b {
        Some(x) => match Json::parse(x) {
            Ok(v) => Some(v),
            Err(_) => None,
        },
        None => None,
    }
}

/// The special token ids out of the bytes of `tokenizer.json`,
/// `tokenizer_config.json` and `config.json`. A tokenizer's configuration that
/// is no JSON counts as absent.
pub fn special_token_ids(
    tokenizer: &[u8],
    tokenizer_config: Option<&[u8]>,
    config: Option<&[u8]>,
) -> (r: Result<Vec<(&'static str, u32)>, VocabError>)
    ensures
        r == Err::<Vec<(&'static str, u32)>, VocabError>(VocabError::BadJson) <==> json_text(
            tokenizer@,
        ) is None || (config is Some && json_text(config->0@) is None),
        r is Ok <==> json_text(tokenizer@) is Some && (config is Some ==> json_text(
            config->0@,
        ) is Some),
        r is Ok ==> id_views(r->Ok_0@) == special_ids_of(
            json_text(tokenizer@)->0,
            json_or_none(tokenizer_config),
            json_or_none(config),
        ),
{
    let t = match Json::parse(tokenizer) {
        Ok(v) => v,
        Err(_) => {
            return Err(VocabError::BadJson);
        },
    };
    let tc = parse_or_none(tokenizer_config);
    let c = match config {
        Some(b) => match Json::parse(b) {
            Ok(v) => Some(v),
            Err(_) => {
                return Err(VocabError::BadJson);
            },
        },
        None => None,
    };
    Ok(special_ids(&t, tc.as_ref(), c.as_ref()))
}

/// Where a chat template is to be had.
#[derive(Debug, PartialEq)]
pub enum Template {
    /// The tokenizer's configuration has it.
    Found(String),
    /// There is none.
    Absent,
    /// The tokenizer's configuration has something that is no text.
    NotText,
    /// It is in a file of its own, if anywhere.
    InFiles,
}

/// What a chat template's place means.
pub enum TemplateView {
    Found(Seq<char>),
    Absent,
    NotText,
    InFiles,
}

impl View for Template {
    type V = TemplateView;

    open spec fn view(&self) -> TemplateView {
        match *self {
            Template::Found(s) => TemplateView::Found(s@),
            Template::Absent => TemplateView::Absent,
            Template::NotText => TemplateView::NotText,
            Template::InFiles => TemplateView::InFiles,
        }
    }
}

/// Where the tokenizer's configuration says a chat template is. Without a
/// configuration there is none.
pub open spec fn template_place(config: Option<JsonView>) -> TemplateView {
    match config {
        None => TemplateView::Absent,
        Some(c) => match c.at("chat_template"@) {
            JsonView::Str(s) => TemplateView::Found(s),
            JsonView::Null => TemplateView::InFiles,
            _ => TemplateView::NotText,
        },
    }
}

/// Where a parsed configuration of a tokenizer says a chat template is.
pub fn template_in(tokenizer_config: Option<&Json>) -> (r: Template)
    ensures
        r@ == template_place(
            match tokenizer_config {
                Some(c) => Some(c@),
                None => None,
            },
        ),
{
    match tokenizer_config {
        None => Template::Absent,
        Some(c) => match c.get("chat_template") {
            None => Template::InFiles,
            Some(Json::Str(s)) => Template::Found(s.clone()),
            Some(Json::Null) => Template::InFiles,
            Some(_) => Template::NotText,
        },
    }
}

/// Where the tokenizer's configuration says a chat template is.
pub fn template_in_config(tokenizer_config: Option<&[u8]>) -> (r: Template)
    ensures
        r@ == template_place(json_or_none(tokenizer_config)),
{
    let c = parse_or_none(tokenizer_config);
    template_in(c.as_ref())
}

/// The chat template in a parsed `chat_template.json`.
pub fn template_under(v: &Json) -> (r: Option<String>)
    ensures
        opt_view(r) == v@.at("chat_template"@).as_str(),
{
    match v.str_at("chat_template") {
        Some(s) => Some(s.to_owned()),
        None => None,
    }
}

/// The chat template out of its own files.
pub open spec fn template_of_files(
    jinja: Option<Seq<char>>,
    additional: bool,
    json: Option<Seq<u8>>,
) -> Result<Option<Seq<char>>, VocabError> {
    match jinja {
        Some(t) => if additional {
            Err(VocabError::AdditionalTemplates)
        } else {
            Ok(Some(t))
        },
        None => match json {
            Some(b) => match json_text(b) {
                Some(v) => Ok(v.at("chat_template"@).as_str()),
                None => Err(VocabError::BadJson),
            },
            None => Ok(None),
        },
    }
}

/// What a chat template or the lack of one means.
pub open spec fn template_view(r: Result<Option<String>, VocabError>) -> Result<
    Option<Seq<char>>,
    VocabError,
> {
    match r {
        Ok(Some(s)) => Ok(Some(s@)),
        Ok(None) => Ok(None),
        Err(e) => Err(e),
    }
}

/// The chat template out of its own files: the text of `chat_template.jinja`
/// before the bytes of `chat_template.json`. With the first there may be no
/// additional templates.
pub fn template_in_files(jinja: Option<String>, additional: bool, json: Option<&[u8]>) -> (r: Result<
    Option<String>,
    VocabError,
>)
    ensures
        template_view(r) == template_of_files(
            match jinja {
                Some(s) => Some(s@),
                None => None,
            },
            additional,
            match json {
                Some(b) => Some(b@),
                None => None,
            },
        ),
{
    if let Some(t) = jinja {
        return if additional {
            Err(VocabError::AdditionalTemplates)
        } else {
            Ok(Some(t))
        };
    }
    match json {
        None => Ok(None),
        Some(b) => match Json::parse(b) {
            Err(_) => Err(VocabError::BadJson),
            Ok(v) => Ok(template_under(&v)),
        },
    }
}

/// The chat template: that of the tokenizer's configuration, else that of
/// `chat_template.jinja`, else that of `chat_template.json`.
pub fn chat_template(
    tokenizer_config: Option<&[u8]>,
    jinja: Option<String>,
    additional: bool,
    json: Option<&[u8]>,
) -> (r: Result<Option<String>, VocabError>)
    ensures
        template_view(r) == (match template_place(json_or_none(tokenizer_config)) {
            TemplateView::Found(s) => Ok(Some(s)),
            TemplateView::Absent => Ok(None),
            TemplateView::NotText => Err(VocabError::TemplateNotText),
            TemplateView::InFiles => template_of_files(
                match jinja {
                    Some(s) => Some(s@),
                    None => None,
                },
                additional,
                match json {
                    Some(b) => Some(b@),
                    None => None,
                },
            ),
        }),
{
    match template_in_config(tokenizer_config) {
        Template::Found(s) => Ok(Some(s)),
        Template::Absent => Ok(None),
        Template::NotText => Err(VocabError::TemplateNotText),
        Template::InFiles => template_in_files(jinja, additional, json),
    }
}

} // verus!
