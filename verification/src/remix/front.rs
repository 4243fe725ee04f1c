//! Laws of the texts beside a model: the front matter of its card, and its chat
//! template.

use crate::json::{json_text, JsonView};
use crate::remix::card::{card_of, front_matter, lines, up_to_dashes};
use crate::remix::plan::Refusal;
use crate::remix::vocab::{template_of_files, template_place, TemplateView, VocabError};
use crate::text::laws::{no_split, split_here};
use crate::text::{joined, pieces, replaced, split_at_first};
use crate::yaml::yaml_text_as_json;
use vstd::prelude::*;

verus! {

/// A line ends with a line feed, which a carriage return may come before.
pub proof fn lines_end_with_feeds(a: Seq<char>, b: Seq<char>)
    requires
        forall|k: int| 0 <= k < a.len() ==> #[trigger] a[k] != '\n',
    ensures
        lines(a + seq!['\n'] + b) == seq![
            if a.len() > 0 && a.last() == '\r' {
                a.drop_last()
            } else {
                a
            },
        ] + lines(b),
{
    split_here(a, '\n', b);
    let s = a + seq!['\n'] + b;
    let p = pieces(b, '\n');
    assert(p.len() > 0) by {
        match split_at_first(b, '\n') {
            Some((head, tail)) => {},
            None => {},
        }
    }
    assert(pieces(s, '\n') =~= seq![a] + p);
    assert(pieces(s, '\n').last() == p.last());
    assert(lines(s) =~= seq![
        if a.len() > 0 && a.last() == '\r' {
            a.drop_last()
        } else {
            a
        },
    ] + lines(b));
}

/// What has no line feed is a line by itself, unless it is empty.
pub proof fn the_last_line_may_end_without(a: Seq<char>)
    requires
        forall|k: int| 0 <= k < a.len() ==> #[trigger] a[k] != '\n',
    ensures
        a.len() > 0 ==> lines(a) == seq![a],
        a.len() == 0 ==> lines(a).len() == 0,
{
    no_split(a, '\n');
    assert(pieces(a, '\n') == seq![a]);
    if a.len() > 0 {
        assert(lines(a) =~= seq![a]);
    }
}

/// The lines up to the first one of dashes.
proof fn lines_before_dashes(v: Seq<Seq<char>>, i: int, n: int)
    requires
        0 <= i <= n <= v.len(),
        forall|k: int| i <= k < n ==> #[trigger] v[k] != "---"@,
        n < v.len() ==> v[n] == "---"@,
    ensures
        up_to_dashes(v, i) == v.subrange(i, n),
    decreases n - i,
{
    if i < n {
        assert(v[i] != "---"@);
        lines_before_dashes(v, i + 1, n);
        assert(v.subrange(i, n) =~= seq![v[i]] + v.subrange(i + 1, n));
    } else {
        assert(v.subrange(i, n) =~= Seq::empty());
    }
}

/// The front matter is the lines between the dashes that start a text and the next ones, with
/// a bare `no` in a list made a text and each tab made two spaces.
pub proof fn front_matter_stands_between_dashes(s: Seq<char>, n: int)
    requires
        1 <= n <= lines(s).len(),
        lines(s)[0] == "---"@,
        forall|k: int| 1 <= k < n ==> #[trigger] lines(s)[k] != "---"@,
        n < lines(s).len() ==> lines(s)[n] == "---"@,
    ensures
        front_matter(s) == Some(
            replaced(
                replaced(
                    joined(lines(s).subrange(1, n), seq!['\n']).push('\n'),
                    "- no\n"@,
                    "- \"no\"\n"@,
                ),
                "\t"@,
                "  "@,
            ),
        ),
{
    lines_before_dashes(lines(s), 1, n);
    reveal_strlit("\n");
    assert("\n"@ =~= seq!['\n']);
    let j = joined(lines(s).subrange(1, n), seq!['\n']);
    assert(j.push('\n') =~= j + seq!['\n']);
}

/// A text that does not start with a line of dashes has no front matter, and no card.
pub proof fn other_texts_have_none(s: Seq<char>)
    requires
        lines(s).len() == 0 || lines(s)[0] != "---"@,
    ensures
        front_matter(s) is None,
        card_of(s) == Ok::<_, Refusal>(None::<JsonView>),
{
}

/// A card is the front matter where that is an object. Front matter that cannot be read is
/// refused, and any other is no card.
pub proof fn cards_are_objects(s: Seq<char>, yaml: Seq<char>)
    requires
        front_matter(s) == Some(yaml),
    ensures
        yaml_text_as_json(yaml) is None ==> card_of(s) == Err::<Option<JsonView>, _>(
            Refusal::BadCard,
        ),
        yaml_text_as_json(yaml) matches Some(v) ==> card_of(s) == Ok::<_, Refusal>(
            match v {
                JsonView::Obj(_) => Some(v),
                _ => None,
            },
        ),
{
}

/// A replacement goes from left to right: what stands in front is replaced, and else the first
/// character stays.
pub proof fn replacements_go_on(p: Seq<char>, q: Seq<char>, c: char, rest: Seq<char>)
    requires
        p.len() > 0,
    ensures
        replaced(p + rest, p, q) == q + replaced(rest, p, q),
        !((seq![c] + rest).len() >= p.len() && (seq![c] + rest).take(p.len() as int) == p)
            ==> replaced(seq![c] + rest, p, q) == seq![c] + replaced(rest, p, q),
        replaced(Seq::empty(), p, q).len() == 0,
{
    let s = p + rest;
    assert(s.subrange(0, p.len() as int) =~= p);
    assert(s.skip(p.len() as int) =~= rest);
    let t = seq![c] + rest;
    assert(t.skip(1) =~= rest);
    if t.len() >= p.len() {
        assert(t.subrange(0, p.len() as int) =~= t.take(p.len() as int));
    }
}

/// A chat template is the text in the tokenizer's configuration. Without a configuration there
/// is none; where the configuration has none it may be in files of its own.
pub proof fn templates_are_placed(config: Option<JsonView>)
    ensures
        config is None ==> template_place(config) == TemplateView::Absent,
        config matches Some(c) ==> (match c.get("chat_template"@) {
            None => template_place(config) == TemplateView::InFiles,
            Some(JsonView::Null) => template_place(config) == TemplateView::InFiles,
            Some(JsonView::Str(s)) => template_place(config) == TemplateView::Found(s),
            Some(_) => template_place(config) == TemplateView::NotText,
        }),
{
}

/// Of the files the plain one comes first, beside which there may be no others; then the one
/// that holds it under a key.
pub proof fn templates_in_files(jinja: Option<Seq<char>>, additional: bool, json: Option<Seq<u8>>)
    ensures
        jinja is Some && additional ==> template_of_files(jinja, additional, json) == Err::<
            Option<Seq<char>>,
            _,
        >(VocabError::AdditionalTemplates),
        jinja is Some && !additional ==> template_of_files(jinja, additional, json) == Ok::<
            _,
            VocabError,
        >(jinja),
        jinja is None && json is None ==> template_of_files(jinja, additional, json) == Ok::<
            Option<Seq<char>>,
            VocabError,
        >(None),
        jinja is None && json is Some && json_text(json->0) is None ==> template_of_files(
            jinja,
            additional,
            json,
        ) == Err::<Option<Seq<char>>, _>(VocabError::BadJson),
        jinja is None && json is Some && json_text(json->0) is Some ==> template_of_files(
            jinja,
            additional,
            json,
        ) == Ok::<_, VocabError>(
            match json_text(json->0)->0.get("chat_template"@) {
                Some(JsonView::Str(s)) => Some(s),
                _ => None,
            },
        ),
{
}

} // verus!
