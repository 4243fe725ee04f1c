//! The metadata of a converted checkpoint.

use crate::gguf::{kv_views, Value, ValueView};
use crate::ieee::convert::{cut_product, double_to_single, multiply_and_cut, single_of_double};
use crate::json::{arr_view, json_parts, Json, JsonView};
use crate::metadata::{
    one, put, put_all, put_text, put_text_if, text_entry, text_entry_if,
};
use crate::remix::card::{card_of, load_model_card};
use crate::remix::config::{or_empty, param_at, Hparams};
use crate::remix::meta::{
    components, get_model_id_components, id_to_title, opt_view, size_label_from_params,
    size_label_text, title_of, IdComponents, IdView,
};
use crate::remix::plan::{refuse, Refusal, RemixError};
use crate::remix::vocab::{id_views, json_or_none, parse_or_none, Vocab};
use crate::text::{
    chars_of, decimal, decimal_text, has_prefix, join, joined, same, starts_with, views,
    views_push,
};
use vstd::prelude::*;

verus! {

/// An entry for an integer that is there, cut to 32 bits.
pub open spec fn signed_entry(key: Seq<char>, x: Option<i64>) -> Seq<(Seq<char>, ValueView)> {
    match x {
        Some(v) => one(key, ValueView::I32(v as i32)),
        None => Seq::empty(),
    }
}

/// An entry for a real number that is there, as a single.
pub open spec fn single_entry(key: Seq<char>, x: Option<u64>) -> Seq<(Seq<char>, ValueView)> {
    match x {
        Some(v) => one(key, ValueView::F32(single_of_double(v))),
        None => Seq::empty(),
    }
}

/// Append an entry for an integer that is there, cut to 32 bits.
fn put_signed(kvs: &mut Vec<(String, Value)>, key: &str, x: Option<i64>)
    ensures
        kv_views(final(kvs)@) == kv_views(old(kvs)@) + signed_entry(key@, x),
{
    match x {
        Some(v) => put(kvs, key, Value::I32(v as i32)),
        None => {
            assert(kv_views(kvs@) =~= kv_views(old(kvs)@) + Seq::empty());
        },
    }
}

/// Append an entry for a real number that is there, as a single.
fn put_single(kvs: &mut Vec<(String, Value)>, key: &str, x: Option<u64>)
    ensures
        kv_views(final(kvs)@) == kv_views(old(kvs)@) + single_entry(key@, x),
{
    match x {
        Some(v) => put(kvs, key, Value::F32(double_to_single(v))),
        None => {
            assert(kv_views(kvs@) =~= kv_views(old(kvs)@) + Seq::empty());
        },
    }
}

/// The sampling parameters of `generation_config.json`.
pub open spec fn sampling_entries(g: JsonView) -> Seq<(Seq<char>, ValueView)> {
    Seq::empty() + text_entry_if("general.sampling.sequence"@, g.at("sequence"@).as_str())
        + signed_entry("general.sampling.top_k"@, g.at("top_k"@).as_signed()) + single_entry(
        "general.sampling.top_p"@,
        g.at("top_p"@).as_real(),
    ) + single_entry("general.sampling.min_p"@, g.at("min_p"@).as_real()) + single_entry(
        "general.sampling.xtc_probability"@,
        g.at("xtc_probability"@).as_real(),
    ) + single_entry("general.sampling.xtc_threshold"@, g.at("xtc_threshold"@).as_real())
        + single_entry("general.sampling.temp"@, g.at("temperature"@).as_real()) + signed_entry(
        "general.sampling.penalty_last_n"@,
        g.at("penalty_last_n"@).as_signed(),
    ) + single_entry("general.sampling.penalty_repeat"@, g.at("penalty_repeat"@).as_real())
        + signed_entry("general.sampling.mirostat"@, g.at("mirostat"@).as_signed()) + single_entry(
        "general.sampling.mirostat_tau"@,
        g.at("mirostat_tau"@).as_real(),
    ) + single_entry("general.sampling.mirostat_eta"@, g.at("mirostat_eta"@).as_real())
}

/// The sampling parameters of `generation_config.json`.
pub fn sampling_kvs(g: &Json) -> (r: Vec<(String, Value)>)
    ensures
        kv_views(r@) == sampling_entries(g@),
{
    let mut kvs: Vec<(String, Value)> = Vec::new();
    assert(kv_views(kvs@) =~= Seq::empty());
    put_text_if(&mut kvs, "general.sampling.sequence", g.str_at("sequence"));
    put_signed(&mut kvs, "general.sampling.top_k", g.signed_at("top_k"));
    put_single(&mut kvs, "general.sampling.top_p", g.real_at("top_p"));
    put_single(&mut kvs, "general.sampling.min_p", g.real_at("min_p"));
    put_single(&mut kvs, "general.sampling.xtc_probability", g.real_at("xtc_probability"));
    put_single(&mut kvs, "general.sampling.xtc_threshold", g.real_at("xtc_threshold"));
    put_single(&mut kvs, "general.sampling.temp", g.real_at("temperature"));
    put_signed(&mut kvs, "general.sampling.penalty_last_n", g.signed_at("penalty_last_n"));
    put_single(&mut kvs, "general.sampling.penalty_repeat", g.real_at("penalty_repeat"));
    put_signed(&mut kvs, "general.sampling.mirostat", g.signed_at("mirostat"));
    put_single(&mut kvs, "general.sampling.mirostat_tau", g.real_at("mirostat_tau"));
    put_single(&mut kvs, "general.sampling.mirostat_eta", g.real_at("mirostat_eta"));
    kvs
}

/// What is known of a model's name.
#[derive(Debug)]
pub struct NameParts {
    pub name: Option<String>,
    pub author: Option<String>,
    pub version: Option<String>,
    pub organization: Option<String>,
    pub finetune: Option<String>,
    pub basename: Option<String>,
    pub description: Option<String>,
    pub size_label: Option<String>,
}

/// What the parts of a model's name mean.
pub struct NameView {
    pub name: Option<Seq<char>>,
    pub author: Option<Seq<char>>,
    pub version: Option<Seq<char>>,
    pub organization: Option<Seq<char>>,
    pub finetune: Option<Seq<char>>,
    pub basename: Option<Seq<char>>,
    pub description: Option<Seq<char>>,
    pub size_label: Option<Seq<char>>,
}

impl View for NameParts {
    type V = NameView;

    open spec fn view(&self) -> NameView {
        NameView {
            name: opt_view(self.name),
            author: opt_view(self.author),
            version: opt_view(self.version),
            organization: opt_view(self.organization),
            finetune: opt_view(self.finetune),
            basename: opt_view(self.basename),
            description: opt_view(self.description),
            size_label: opt_view(self.size_label),
        }
    }
}

/// The first of two that is there.
pub open spec fn either(a: Option<Seq<char>>, b: Option<Seq<char>>) -> Option<Seq<char>> {
    match a {
        Some(_) => a,
        None => b,
    }
}

/// The title of an id that is there.
pub open spec fn title_if(id: Option<Seq<char>>) -> Option<Seq<char>> {
    match id {
        Some(s) => Some(title_of(s)),
        None => None,
    }
}

/// What a model card says of the model's name.
pub open spec fn named_by_card(c: JsonView) -> NameView {
    NameView {
        name: either(c.at("name"@).as_str(), c.at("model_name"@).as_str()),
        author: either(
            either(c.at("author"@).as_str(), c.at("model_author"@).as_str()),
            c.at("model_creator"@).as_str(),
        ),
        version: either(c.at("version"@).as_str(), c.at("model_version"@).as_str()),
        organization: either(c.at("organization"@).as_str(), c.at("model_organization"@).as_str()),
        finetune: either(c.at("finetune"@).as_str(), c.at("model_finetune"@).as_str()),
        basename: either(
            either(c.at("basename"@).as_str(), c.at("model_basename"@).as_str()),
            c.at("model_type"@).as_str(),
        ),
        description: either(c.at("description"@).as_str(), c.at("model_description"@).as_str()),
        size_label: either(c.at("size_label"@).as_str(), c.at("model_size_label"@).as_str()),
    }
}

/// What is known of a name with the components of an id for what is not.
pub open spec fn completed(m: NameView, c: IdView) -> NameView {
    NameView {
        name: either(m.name, title_if(c.model_full_name)),
        organization: either(m.organization, title_if(c.org)),
        basename: either(m.basename, c.basename),
        finetune: either(m.finetune, c.finetune),
        version: either(m.version, c.version),
        size_label: either(m.size_label, c.size_label),
        ..m
    }
}

/// How often a character stands in a text.
pub open spec fn count_char(s: Seq<char>, c: char) -> nat
    decreases s.len(),
{
    if s.len() == 0 {
        0
    } else {
        count_char(s.drop_last(), c) + (if s.last() == c {
            1nat
        } else {
            0nat
        })
    }
}

/// Whether a path looks like the id of a model.
pub open spec fn looks_like_id(s: Seq<char>) -> bool {
    s.len() > 0 && count_char(s, '/') <= 1
}

/// What is known of a model's name: first by its card, then by the path it was
/// loaded from, then by its directory.
pub open spec fn names_of(card: JsonView, path: Seq<char>, dir: Seq<char>, total: i64) -> NameView {
    let m = named_by_card(card);
    let n = if looks_like_id(path) {
        completed(m, components(path, total))
    } else {
        m
    };
    completed(n, components(dir, total))
}

/// The first of the texts under two keys.
fn text_of(c: &Json, a: &str, b: &str) -> (r: Option<String>)
    ensures
        opt_view(r) == either(c@.at(a@).as_str(), c@.at(b@).as_str()),
{
    match c.str_at(a) {
        Some(s) => Some(s.to_owned()),
        None => match c.str_at(b) {
            Some(s) => Some(s.to_owned()),
            None => None,
        },
    }
}

/// The first of a text and the text under a key.
fn or_text(s: Option<String>, c: &Json, key: &str) -> (r: Option<String>)
    ensures
        opt_view(r) == either(opt_view(s), c@.at(key@).as_str()),
{
    match s {
        Some(t) => Some(t),
        None => match c.str_at(key) {
            Some(t) => Some(t.to_owned()),
            None => None,
        },
    }
}

/// What a model card says of the model's name.
fn read_names(c: &Json) -> (r: NameParts)
    ensures
        r@ == named_by_card(c@),
{
    NameParts {
        name: text_of(c, "name", "model_name"),
        author: or_text(text_of(c, "author", "model_author"), c, "model_creator"),
        version: text_of(c, "version", "model_version"),
        organization: text_of(c, "organization", "model_organization"),
        finetune: text_of(c, "finetune", "model_finetune"),
        basename: or_text(text_of(c, "basename", "model_basename"), c, "model_type"),
        description: text_of(c, "description", "model_description"),
        size_label: text_of(c, "size_label", "model_size_label"),
    }
}

/// The first of two that is there.
fn pick(a: Option<String>, b: Option<String>) -> (r: Option<String>)
    ensures
        opt_view(r) == either(opt_view(a), opt_view(b)),
{
    match a {
        Some(s) => Some(s),
        None => b,
    }
}

/// The title of an id that is there.
fn make_title(id: &Option<String>) -> (r: Option<String>)
    ensures
        opt_view(r) == title_if(opt_view(*id)),
{
    match id {
        Some(s) => Some(id_to_title(s.as_str())),
        None => None,
    }
}

/// What is known of a name with the components of an id for what is not.
fn complete(m: NameParts, c: IdComponents) -> (r: NameParts)
    ensures
        r@ == completed(m@, c@),
{
    let full_title = make_title(&c.model_full_name);
    let org_title = make_title(&c.org);
    NameParts {
        name: pick(m.name, full_title),
        author: m.author,
        version: pick(m.version, c.version),
        organization: pick(m.organization, org_title),
        finetune: pick(m.finetune, c.finetune),
        basename: pick(m.basename, c.basename),
        description: m.description,
        size_label: pick(m.size_label, c.size_label),
    }
}

/// Whether a path looks like the id of a model.
fn is_like_id(s: &str) -> (r: bool)
    ensures
        r == looks_like_id(s@),
{
    let c = chars_of(s);
    let mut n: usize = 0;
    let mut i: usize = 0;
    assert(c@.take(0) =~= Seq::empty());
    while i < c.len()
        invariant
            i <= c@.len(),
            n <= i,
            n == count_char(c@.take(i as int), '/'),
        decreases c@.len() - i,
    {
        assert(c@.take(i + 1).drop_last() =~= c@.take(i as int));
        if c[i] == '/' {
            n += 1;
        }
        i += 1;
    }
    assert(c@.take(i as int) =~= c@);
    c.len() > 0 && n <= 1
}

/// What is known of a model's name.
fn find_names(card: &Json, path: &str, dir: &str, total: i64) -> (r: NameParts)
    requires
        -i64::MAX <= total <= i64::MAX / 7,
    ensures
        r@ == names_of(card@, path@, dir@, total),
{
    let mut m = read_names(card);
    if is_like_id(path) {
        m = complete(m, get_model_id_components(path, total));
    }
    complete(m, get_model_id_components(dir, total))
}

/// The entries for a model's name. The directory stands for a name that is not
/// known, and the number of parameters for a size that is not.
pub open spec fn name_entries(m: NameView, dir: Seq<char>, total: u64) -> Seq<
    (Seq<char>, ValueView),
> {
    Seq::empty() + text_entry("general.name"@, match m.name {
        Some(s) => s,
        None => dir,
    }) + text_entry_if("general.author"@, m.author) + text_entry_if("general.version"@, m.version)
        + text_entry_if("general.organization"@, m.organization) + text_entry_if(
        "general.finetune"@,
        m.finetune,
    ) + text_entry_if("general.basename"@, m.basename) + text_entry_if(
        "general.description"@,
        m.description,
    ) + text_entry(
        "general.size_label"@,
        match m.size_label {
            Some(s) => s,
            None => size_label_text(total),
        },
    )
}

/// Append an entry for a text that is there.
fn put_opt(kvs: &mut Vec<(String, Value)>, key: &str, s: &Option<String>)
    ensures
        kv_views(final(kvs)@) == kv_views(old(kvs)@) + text_entry_if(key@, opt_view(*s)),
{
    match s {
        Some(t) => put_text(kvs, key, t.as_str()),
        None => {
            assert(kv_views(kvs@) =~= kv_views(old(kvs)@) + Seq::empty());
        },
    }
}

/// The entries for a model's name.
fn name_kvs(m: &NameParts, dir: &str, total: u64) -> (r: Vec<(String, Value)>)
    ensures
        kv_views(r@) == name_entries(m@, dir@, total),
{
    let mut kvs: Vec<(String, Value)> = Vec::new();
    assert(kv_views(kvs@) =~= Seq::empty());
    match &m.name {
        Some(s) => put_text(&mut kvs, "general.name", s.as_str()),
        None => put_text(&mut kvs, "general.name", dir),
    }
    put_opt(&mut kvs, "general.author", &m.author);
    put_opt(&mut kvs, "general.version", &m.version);
    put_opt(&mut kvs, "general.organization", &m.organization);
    put_opt(&mut kvs, "general.finetune", &m.finetune);
    put_opt(&mut kvs, "general.basename", &m.basename);
    put_opt(&mut kvs, "general.description", &m.description);
    match &m.size_label {
        Some(s) => put_text(&mut kvs, "general.size_label", s.as_str()),
        None => {
            let label = size_label_from_params(total);
            put_text(&mut kvs, "general.size_label", label.as_str())
        },
    }
    kvs
}

/// The texts among values.
pub open spec fn texts_in(v: Seq<JsonView>) -> Seq<Seq<char>>
    decreases v.len(),
{
    if v.len() == 0 {
        Seq::empty()
    } else {
        match v.last().as_str() {
            Some(s) => texts_in(v.drop_last()).push(s),
            None => texts_in(v.drop_last()),
        }
    }
}

/// A text, or the texts of a list.
pub open spec fn texts_of(v: JsonView) -> Seq<Seq<char>> {
    match v {
        JsonView::Str(s) => seq![s],
        JsonView::Arr(a) => texts_in(a),
        _ => Seq::empty(),
    }
}

/// The texts among values.
fn collect_texts(v: &Vec<Json>) -> (r: Vec<String>)
    ensures
        views(r@) == texts_in(arr_view(v@)),
{
    let mut out: Vec<String> = Vec::new();
    let ghost all = arr_view(v@);
    let mut i: usize = 0;
    assert(all.take(0) =~= Seq::empty());
    assert(views(out@) =~= Seq::empty());
    while i < v.len()
        invariant
            i <= v@.len(),
            all == arr_view(v@),
            views(out@) == texts_in(all.take(i as int)),
        decreases v@.len() - i,
    {
        proof {
            let t = all.take(i + 1);
            assert(t.drop_last() =~= all.take(i as int));
            assert(t.last() == v@[i as int]@);
        }
        match v[i].as_str() {
            Some(s) => {
                let s = s.to_owned();
                proof {
                    views_push(out@, s);
                }
                out.push(s);
            },
            None => {},
        }
        i += 1;
    }
    assert(all.take(i as int) =~= all);
    out
}

/// A text, or the texts of a list.
fn read_texts(v: Option<&Json>) -> (r: Vec<String>)
    ensures
        views(r@) == texts_of(
            match v {
                Some(j) => j@,
                None => JsonView::Null,
            },
        ),
{
    let none: Vec<String> = Vec::new();
    assert(views(none@) =~= Seq::empty());
    match v {
        None => none,
        Some(j) => {
            proof {
                json_parts(*j);
            }
            match j {
                Json::Str(s) => {
                    let mut out = none;
                    out.push(s.clone());
                    assert(views(out@) =~= seq![s@]);
                    out
                },
                Json::Arr(a) => collect_texts(a),
                _ => none,
            }
        },
    }
}

/// Whether an id is an address.
pub open spec fn is_url(id: Seq<char>) -> bool {
    has_prefix(id, "http://"@) || has_prefix(id, "https://"@) || has_prefix(id, "ssh://"@)
}

/// The base models that a card names, under the first of three keys.
pub open spec fn base_models(card: JsonView) -> Option<Seq<Seq<char>>> {
    match card.get("base_model"@) {
        Some(v) => Some(texts_of(v)),
        None => match card.get("base_models"@) {
            Some(v) => Some(texts_of(v)),
            None => match card.get("base_model_sources"@) {
                Some(v) => Some(texts_of(v)),
                None => None,
            },
        },
    }
}

/// A key of a base model.
pub open spec fn base_key(k: nat, suffix: Seq<char>) -> Seq<char> {
    "general.base_model."@ + decimal(k) + suffix
}

/// The entries of a base model.
pub open spec fn base_entries(k: nat, id: Seq<char>, total: i64) -> Seq<(Seq<char>, ValueView)> {
    let c = components(id, total);
    Seq::empty() + text_entry_if(base_key(k, ".name"@), title_if(c.model_full_name))
        + text_entry_if(base_key(k, ".version"@), c.version) + text_entry_if(
        base_key(k, ".organization"@),
        title_if(c.org),
    ) + text_entry_if(
        base_key(k, ".repo_url"@),
        match (c.org, c.model_full_name) {
            (Some(org), Some(full)) => Some("https://huggingface.co/"@ + org + "/"@ + full),
            _ => None,
        },
    )
}

/// The entries of the first `n` base models.
pub open spec fn bases_entries(ids: Seq<Seq<char>>, n: int, total: i64) -> Seq<
    (Seq<char>, ValueView),
>
    decreases n,
{
    if n <= 0 {
        Seq::empty()
    } else {
        bases_entries(ids, n - 1, total) + base_entries((n - 1) as nat, ids[n - 1], total)
    }
}

/// A key of a base model.
fn make_base_key(k: usize, suffix: &str) -> (r: String)
    ensures
        r@ == base_key(k as nat, suffix@),
{
    let mut r = "general.base_model.".to_owned();
    r.append(decimal_text(k as u64).as_str());
    r.append(suffix);
    r
}

/// The entries of a base model.
fn base_kvs(k: usize, id: &str, total: i64) -> (r: Vec<(String, Value)>)
    requires
        -i64::MAX <= total <= i64::MAX / 7,
    ensures
        kv_views(r@) == base_entries(k as nat, id@, total),
{
    let c = get_model_id_components(id, total);
    let mut kvs: Vec<(String, Value)> = Vec::new();
    assert(kv_views(kvs@) =~= Seq::empty());
    put_opt(&mut kvs, make_base_key(k, ".name").as_str(), &make_title(&c.model_full_name));
    put_opt(&mut kvs, make_base_key(k, ".version").as_str(), &c.version);
    put_opt(&mut kvs, make_base_key(k, ".organization").as_str(), &make_title(&c.org));
    let url: Option<String> = match (&c.org, &c.model_full_name) {
        (Some(org), Some(full)) => {
            let mut u = "https://huggingface.co/".to_owned();
            u.append(org.as_str());
            u.append("/");
            u.append(full.as_str());
            Some(u)
        },
        _ => None,
    };
    put_opt(&mut kvs, make_base_key(k, ".repo_url").as_str(), &url);
    kvs
}

/// An entry for a list that is not empty.
pub open spec fn list_entry(key: Seq<char>, v: Seq<Seq<char>>) -> Seq<(Seq<char>, ValueView)> {
    if v.len() == 0 {
        Seq::empty()
    } else {
        one(key, ValueView::ArrStr(v))
    }
}

/// Append an entry for a list that is not empty.
fn put_list(kvs: &mut Vec<(String, Value)>, key: &str, v: Vec<String>)
    ensures
        kv_views(final(kvs)@) == kv_views(old(kvs)@) + list_entry(key@, views(v@)),
{
    assert(views(v@).len() == v@.len());
    if v.len() == 0 {
        assert(kv_views(kvs@) =~= kv_views(old(kvs)@) + Seq::empty());
    } else {
        put(kvs, key, Value::ArrStr(v));
    }
}

/// The license of a card: a text, or texts with commas between them.
pub open spec fn license_entry(v: JsonView) -> Seq<(Seq<char>, ValueView)> {
    match v {
        JsonView::Str(s) => text_entry("general.license"@, s),
        JsonView::Arr(a) => text_entry("general.license"@, joined(texts_in(a), ","@)),
        _ => Seq::empty(),
    }
}

/// Whether some base model is given by its address.
pub open spec fn names_url(ids: Seq<Seq<char>>) -> bool {
    exists|i: int| 0 <= i < ids.len() && is_url(#[trigger] ids[i])
}

/// The entries of base models.
pub open spec fn base_section(card: JsonView, total: i64) -> Seq<(Seq<char>, ValueView)> {
    match base_models(card) {
        Some(ids) => one("general.base_model.count"@, ValueView::U32(ids.len() as u32))
            + bases_entries(ids, ids.len() as int, total),
        None => Seq::empty(),
    }
}

/// What a model card gives beside the model's name: license, base models, tags
/// and languages. Base models given by their address and data sets are not
/// taken.
pub open spec fn card_entries(card: JsonView, total: i64) -> Result<
    Seq<(Seq<char>, ValueView)>,
    Refusal,
> {
    if base_models(card) is Some && names_url(base_models(card)->0) {
        Err(Refusal::UrlBaseModel)
    } else if card.get("datasets"@) is Some || card.get("dataset"@) is Some {
        Err(Refusal::Datasets)
    } else {
        Ok(
            Seq::empty() + license_entry(card.at("license"@)) + text_entry_if(
                "general.license_name"@,
                card.at("license_name"@).as_str(),
            ) + text_entry_if("general.license_link"@, card.at("license_link"@).as_str())
                + base_section(card, total) + list_entry(
                "general.tags"@,
                texts_of(card.at("tags"@)) + texts_of(card.at("pipeline_tag"@)),
            ) + list_entry(
                "general.languages"@,
                texts_of(card.at("languages"@)) + texts_of(card.at("language"@)),
            ),
        )
    }
}

/// The base models that a card names.
fn read_base_models(card: &Json) -> (r: Option<Vec<String>>)
    ensures
        r is Some <==> base_models(card@) is Some,
        r is Some ==> views(r->0@) == base_models(card@)->0,
{
    match card.get("base_model") {
        Some(v) => Some(read_texts(Some(v))),
        None => match card.get("base_models") {
            Some(v) => Some(read_texts(Some(v))),
            None => match card.get("base_model_sources") {
                Some(v) => Some(read_texts(Some(v))),
                None => None,
            },
        },
    }
}

/// Whether some base model is given by its address.
fn any_url(ids: &Vec<String>) -> (r: bool)
    ensures
        r == names_url(views(ids@)),
{
    let mut i: usize = 0;
    while i < ids.len()
        invariant
            i <= ids@.len(),
            forall|k: int| 0 <= k < i ==> !is_url(#[trigger] views(ids@)[k]),
        decreases ids@.len() - i,
    {
        let id = ids[i].as_str();
        assert(views(ids@)[i as int] == id@);
        if starts_with(id, "http://") || starts_with(id, "https://") || starts_with(id, "ssh://") {
            return true;
        }
        i += 1;
    }
    assert(views(ids@).len() == ids@.len());
    false
}

/// The texts under two keys.
fn read_both(card: &Json, a: &str, b: &str) -> (r: Vec<String>)
    ensures
        views(r@) == texts_of(card@.at(a@)) + texts_of(card@.at(b@)),
{
    let mut v = read_texts(card.get(a));
    let mut w = read_texts(card.get(b));
    let ghost x = v@;
    let ghost y = w@;
    v.append(&mut w);
    assert(views(v@) =~= views(x) + views(y));
    v
}

/// What a model card gives beside the model's name.
pub fn card_kvs(card: &Json, total: i64) -> (r: Result<Vec<(String, Value)>, RemixError>)
    requires
        -i64::MAX <= total <= i64::MAX / 7,
    ensures
        match card_entries(card@, total) {
            Ok(e) => r is Ok && kv_views(r->Ok_0@) == e,
            Err(e) => r is Err && r->Err_0@ == (e, ""@),
        },
{
    let bases = read_base_models(card);
    if let Some(ids) = &bases {
        if any_url(ids) {
            return Err(refuse(Refusal::UrlBaseModel, ""));
        }
    }
    if card.get("datasets").is_some() || card.get("dataset").is_some() {
        return Err(refuse(Refusal::Datasets, ""));
    }
    let mut kvs: Vec<(String, Value)> = Vec::new();
    assert(kv_views(kvs@) =~= Seq::empty());
    match card.get("license") {
        Some(v) => {
            proof {
                json_parts(*v);
            }
            match v {
                Json::Str(s) => put_text(&mut kvs, "general.license", s.as_str()),
                Json::Arr(a) => {
                    let parts = collect_texts(a);
                    put_text(&mut kvs, "general.license", join(&parts, ",").as_str())
                },
                _ => {
                    assert(kv_views(kvs@) =~= kv_views(kvs@) + Seq::empty());
                },
            }
        },
        None => {
            assert(kv_views(kvs@) =~= kv_views(kvs@) + Seq::empty());
        },
    }
    put_text_if(&mut kvs, "general.license_name", card.str_at("license_name"));
    put_text_if(&mut kvs, "general.license_link", card.str_at("license_link"));
    match &bases {
        Some(ids) => {
            let ghost before = kv_views(kvs@);
            let ghost all = views(ids@);
            let n: usize = ids.len();
            put(&mut kvs, "general.base_model.count", Value::U32(n as u32));
            let ghost first = one("general.base_model.count"@, ValueView::U32(n as u32));
            let mut k: usize = 0;
            assert(before + first =~= before + (first + bases_entries(all, 0, total)));
            while k < n
                invariant
                    k <= n,
                    n == ids@.len(),
                    all == views(ids@),
                    -i64::MAX <= total <= i64::MAX / 7,
                    kv_views(kvs@) == before + (first + bases_entries(all, k as int, total)),
                decreases n - k,
            {
                assert(all[k as int] == ids@[k as int]@);
                let more = base_kvs(k, ids[k].as_str(), total);
                put_all(&mut kvs, more);
                proof {
                    let b = bases_entries(all, k as int, total);
                    let e = base_entries(k as nat, all[k as int], total);
                    assert(before + (first + b) + e =~= before + (first + (b + e)));
                }
                k += 1;
            }
        },
        None => {
            assert(kv_views(kvs@) =~= kv_views(kvs@) + Seq::empty());
        },
    }
    put_list(&mut kvs, "general.tags", read_both(card, "tags", "pipeline_tag"));
    put_list(&mut kvs, "general.languages", read_both(card, "languages", "language"));
    Ok(kvs)
}

/// An unsigned parameter that is there.
pub open spec fn whole(root: JsonView, key: Seq<char>) -> u64 {
    param_at(root, key).as_unsigned()->0
}

/// The parameters of sizes.
#[derive(Debug, Clone, Copy)]
pub struct Sizes {
    pub num_hidden_layers: u64,
    pub max_position_embeddings: u64,
    pub hidden_size: u64,
    pub intermediate_size: u64,
    pub num_attention_heads: u64,
    pub num_key_value_heads: u64,
}

/// The parameters of norms and heads.
#[derive(Debug, Clone, Copy)]
pub struct Heads {
    /// The bit pattern of a double.
    pub rms_norm_eps: u64,
    pub head_dim: u64,
    pub linear_conv_kernel_dim: u64,
    pub linear_key_head_dim: u64,
    pub linear_num_key_heads: u64,
    pub linear_num_value_heads: u64,
    pub linear_value_head_dim: u64,
}

/// The first parameter of sizes that is missing.
pub open spec fn missing_size(root: JsonView) -> Option<Seq<char>> {
    if param_at(root, "num_hidden_layers"@).as_unsigned() is None {
        Some("num_hidden_layers"@)
    } else if param_at(root, "max_position_embeddings"@).as_unsigned() is None {
        Some("max_position_embeddings"@)
    } else if param_at(root, "hidden_size"@).as_unsigned() is None {
        Some("hidden_size"@)
    } else if param_at(root, "intermediate_size"@).as_unsigned() is None {
        Some("intermediate_size"@)
    } else if param_at(root, "num_attention_heads"@).as_unsigned() is None {
        Some("num_attention_heads"@)
    } else if param_at(root, "num_key_value_heads"@).as_unsigned() is None {
        Some("num_key_value_heads"@)
    } else {
        None
    }
}

/// The first parameter of norms and heads that is missing.
pub open spec fn missing_head(root: JsonView) -> Option<Seq<char>> {
    if param_at(root, "rms_norm_eps"@).as_real() is None {
        Some("rms_norm_eps"@)
    } else if param_at(root, "head_dim"@).as_unsigned() is None {
        Some("head_dim"@)
    } else if param_at(root, "linear_conv_kernel_dim"@).as_unsigned() is None {
        Some("linear_conv_kernel_dim"@)
    } else if param_at(root, "linear_key_head_dim"@).as_unsigned() is None {
        Some("linear_key_head_dim"@)
    } else if param_at(root, "linear_num_key_heads"@).as_unsigned() is None {
        Some("linear_num_key_heads"@)
    } else if param_at(root, "linear_num_value_heads"@).as_unsigned() is None {
        Some("linear_num_value_heads"@)
    } else if param_at(root, "linear_value_head_dim"@).as_unsigned() is None {
        Some("linear_value_head_dim"@)
    } else {
        None
    }
}

/// The parameters of sizes.
pub open spec fn sizes_of(root: JsonView) -> Sizes {
    Sizes {
        num_hidden_layers: whole(root, "num_hidden_layers"@),
        max_position_embeddings: whole(root, "max_position_embeddings"@),
        hidden_size: whole(root, "hidden_size"@),
        intermediate_size: whole(root, "intermediate_size"@),
        num_attention_heads: whole(root, "num_attention_heads"@),
        num_key_value_heads: whole(root, "num_key_value_heads"@),
    }
}

/// The parameters of norms and heads.
pub open spec fn heads_of(root: JsonView) -> Heads {
    Heads {
        rms_norm_eps: param_at(root, "rms_norm_eps"@).as_real()->0,
        head_dim: whole(root, "head_dim"@),
        linear_conv_kernel_dim: whole(root, "linear_conv_kernel_dim"@),
        linear_key_head_dim: whole(root, "linear_key_head_dim"@),
        linear_num_key_heads: whole(root, "linear_num_key_heads"@),
        linear_num_value_heads: whole(root, "linear_num_value_heads"@),
        linear_value_head_dim: whole(root, "linear_value_head_dim"@),
    }
}

/// The parameters of sizes.
fn read_sizes(hp: &Hparams) -> (r: Result<Sizes, RemixError>)
    ensures
        match missing_size(hp.root@) {
            Some(key) => r is Err && r->Err_0@ == (Refusal::MissingParameter, key),
            None => r is Ok && r->Ok_0 == sizes_of(hp.root@),
        },
{
    let num_hidden_layers: u64 = match hp.u64("num_hidden_layers") {
        Ok(x) => x,
        Err(e) => {
            return Err(e);
        },
    };
    let max_position_embeddings: u64 = match hp.u64("max_position_embeddings") {
        Ok(x) => x,
        Err(e) => {
            return Err(e);
        },
    };
    let hidden_size: u64 = match hp.u64("hidden_size") {
        Ok(x) => x,
        Err(e) => {
            return Err(e);
        },
    };
    let intermediate_size: u64 = match hp.u64("intermediate_size") {
        Ok(x) => x,
        Err(e) => {
            return Err(e);
        },
    };
    let num_attention_heads: u64 = match hp.u64("num_attention_heads") {
        Ok(x) => x,
        Err(e) => {
            return Err(e);
        },
    };
    let num_key_value_heads: u64 = match hp.u64("num_key_value_heads") {
        Ok(x) => x,
        Err(e) => {
            return Err(e);
        },
    };
    Ok(
        Sizes {
            num_hidden_layers,
            max_position_embeddings,
            hidden_size,
            intermediate_size,
            num_attention_heads,
            num_key_value_heads,
        },
    )
}

/// The parameters of norms and heads.
fn read_heads(hp: &Hparams) -> (r: Result<Heads, RemixError>)
    ensures
        match missing_head(hp.root@) {
            Some(key) => r is Err && r->Err_0@ == (Refusal::MissingParameter, key),
            None => r is Ok && r->Ok_0 == heads_of(hp.root@),
        },
{
    let rms_norm_eps: u64 = match hp.number("rms_norm_eps") {
        Ok(x) => x,
        Err(e) => {
            return Err(e);
        },
    };
    let head_dim: u64 = match hp.u64("head_dim") {
        Ok(x) => x,
        Err(e) => {
            return Err(e);
        },
    };
    let linear_conv_kernel_dim: u64 = match hp.u64("linear_conv_kernel_dim") {
        Ok(x) => x,
        Err(e) => {
            return Err(e);
        },
    };
    let linear_key_head_dim: u64 = match hp.u64("linear_key_head_dim") {
        Ok(x) => x,
        Err(e) => {
            return Err(e);
        },
    };
    let linear_num_key_heads: u64 = match hp.u64("linear_num_key_heads") {
        Ok(x) => x,
        Err(e) => {
            return Err(e);
        },
    };
    let linear_num_value_heads: u64 = match hp.u64("linear_num_value_heads") {
        Ok(x) => x,
        Err(e) => {
            return Err(e);
        },
    };
    let linear_value_head_dim: u64 = match hp.u64("linear_value_head_dim") {
        Ok(x) => x,
        Err(e) => {
            return Err(e);
        },
    };
    Ok(
        Heads {
            rms_norm_eps,
            head_dim,
            linear_conv_kernel_dim,
            linear_key_head_dim,
            linear_num_key_heads,
            linear_num_value_heads,
            linear_value_head_dim,
        },
    )
}

/// The parameters of the rotary embedding, null where there are none.
pub open spec fn rope_of(root: JsonView) -> JsonView {
    let a = param_at(root, "rope_parameters"@);
    let b = param_at(root, "rope_scaling"@);
    if !(a is Null) {
        a
    } else if !(b is Null) {
        b
    } else {
        JsonView::Null
    }
}

/// Whether a scaling of the rotary embedding has metadata of its own.
pub open spec fn scaled_rope(t: Seq<char>) -> bool {
    t == "linear"@ || t == "yarn"@ || t == "su"@ || t == "longrope"@
}

/// The integers among values, cut to 32 bits.
pub open spec fn integers_in(v: Seq<JsonView>) -> Seq<i32>
    decreases v.len(),
{
    if v.len() == 0 {
        Seq::empty()
    } else {
        match v.last().as_signed() {
            Some(x) => integers_in(v.drop_last()).push(x as i32),
            None => integers_in(v.drop_last()),
        }
    }
}

/// The first four of some numbers, with zeros for what is missing.
pub open spec fn four_of(v: Seq<i32>) -> Seq<i32> {
    Seq::new(
        4,
        |i: int|
            if i < v.len() {
                v[i]
            } else {
                0
            },
    )
}

/// The entry for the sections of the rotary embedding.
pub open spec fn section_entry(rope: JsonView) -> Seq<(Seq<char>, ValueView)> {
    match rope.at("mrope_section"@).as_arr() {
        Some(a) => one(
            "qwen35.rope.dimension_sections"@,
            ValueView::ArrI32(four_of(integers_in(a))),
        ),
        None => Seq::empty(),
    }
}

/// An entry for an unsigned number, cut to 32 bits.
pub open spec fn cut_entry(key: Seq<char>, x: u64) -> Seq<(Seq<char>, ValueView)> {
    one(key, ValueView::U32(x as u32))
}

/// The number of layers that predict further tokens.
pub open spec fn nextn_layers(root: JsonView) -> u64 {
    match param_at(root, "mtp_num_hidden_layers"@).as_unsigned() {
        Some(x) => x,
        None => 0,
    }
}

/// How often there is a layer of full attention.
pub open spec fn attention_interval(root: JsonView) -> u64 {
    match param_at(root, "full_attention_interval"@).as_unsigned() {
        Some(x) => x,
        None => 4,
    }
}

/// The part of a head that is rotated, a quarter where it is not given.
pub open spec fn rotated_part(root: JsonView) -> u64 {
    match param_at(root, "partial_rotary_factor"@).as_real() {
        Some(x) => x,
        None => 0x3fd0_0000_0000_0000,
    }
}

/// The entries for the shape of a model.
pub open spec fn shape_entries(root: JsonView) -> Seq<(Seq<char>, ValueView)> {
    let m = sizes_of(root);
    let h = heads_of(root);
    let rope = rope_of(root);
    Seq::empty() + cut_entry(
        "qwen35.block_count"@,
        (m.num_hidden_layers + nextn_layers(root)) as u64,
    ) + cut_entry("qwen35.context_length"@, m.max_position_embeddings) + cut_entry(
        "qwen35.embedding_length"@,
        m.hidden_size,
    ) + cut_entry("qwen35.feed_forward_length"@, m.intermediate_size) + cut_entry(
        "qwen35.attention.head_count"@,
        m.num_attention_heads,
    ) + cut_entry("qwen35.attention.head_count_kv"@, m.num_key_value_heads) + section_entry(rope)
        + single_entry("qwen35.rope.freq_base"@, rope.at("rope_theta"@).as_real()) + single_entry(
        "qwen35.attention.layer_norm_rms_epsilon"@,
        Some(h.rms_norm_eps),
    ) + cut_entry("qwen35.attention.key_length"@, h.head_dim) + cut_entry(
        "qwen35.attention.value_length"@,
        h.head_dim,
    ) + cut_entry("general.file_type"@, 1) + cut_entry(
        "qwen35.ssm.conv_kernel"@,
        h.linear_conv_kernel_dim,
    ) + cut_entry("qwen35.ssm.state_size"@, h.linear_key_head_dim) + cut_entry(
        "qwen35.ssm.group_count"@,
        h.linear_num_key_heads,
    ) + cut_entry("qwen35.ssm.time_step_rank"@, h.linear_num_value_heads) + cut_entry(
        "qwen35.ssm.inner_size"@,
        (h.linear_value_head_dim * h.linear_num_value_heads) as u64,
    ) + cut_entry("qwen35.full_attention_interval"@, attention_interval(root)) + one(
        "qwen35.rope.dimension_count"@,
        ValueView::U32(cut_product(h.head_dim, rotated_part(root))),
    ) + (if nextn_layers(root) > 0 {
        cut_entry("qwen35.nextn_predict_layers"@, nextn_layers(root))
    } else {
        Seq::empty()
    }) + cut_entry("general.quantization_version"@, 2)
}

/// Why a model of this shape is not taken, if it is not.
pub open spec fn shape_refusal(root: JsonView) -> Option<(Refusal, Seq<char>)> {
    let m = sizes_of(root);
    let h = heads_of(root);
    let rope_type = rope_of(root).at("rope_type"@).as_str();
    let model_type = or_empty(param_at(root, "model_type"@).as_str());
    if missing_size(root) is Some {
        Some((Refusal::MissingParameter, missing_size(root)->0))
    } else if m.num_hidden_layers + nextn_layers(root) > u64::MAX {
        Some((Refusal::ParameterRange, "num_hidden_layers"@))
    } else if rope_type is Some && scaled_rope(rope_type->0) {
        Some((Refusal::RopeScaling, rope_type->0))
    } else if missing_head(root) is Some {
        Some((Refusal::MissingParameter, missing_head(root)->0))
    } else if h.linear_value_head_dim * h.linear_num_value_heads > u64::MAX {
        Some((Refusal::ParameterRange, "linear_value_head_dim"@))
    } else if model_type != "qwen3_5"@ && model_type != "qwen3_5_text"@ {
        Some((Refusal::UnknownModelType, model_type))
    } else if param_at(root, "vocab_size"@).as_unsigned() is None {
        Some((Refusal::MissingParameter, "vocab_size"@))
    } else {
        None
    }
}

/// Append an entry for an unsigned number, cut to 32 bits.
fn put_cut(kvs: &mut Vec<(String, Value)>, key: &str, x: u64)
    ensures
        kv_views(final(kvs)@) == kv_views(old(kvs)@) + cut_entry(key@, x),
{
    put(kvs, key, Value::U32(x as u32));
}

/// The integers among values, the first four of them, with zeros for what is
/// missing.
fn read_sections(v: &Vec<Json>) -> (r: Vec<i32>)
    ensures
        r@ == four_of(integers_in(arr_view(v@))),
{
    let mut out: Vec<i32> = Vec::new();
    let ghost all = arr_view(v@);
    let mut i: usize = 0;
    assert(all.take(0) =~= Seq::empty());
    assert(out@ =~= Seq::empty());
    while i < v.len()
        invariant
            i <= v@.len(),
            all == arr_view(v@),
            out@ == integers_in(all.take(i as int)),
        decreases v@.len() - i,
    {
        proof {
            let t = all.take(i + 1);
            assert(t.drop_last() =~= all.take(i as int));
            assert(t.last() == v@[i as int]@);
        }
        match v[i].as_signed() {
            Some(x) => {
                out.push(x as i32);
            },
            None => {},
        }
        i += 1;
    }
    assert(all.take(i as int) =~= all);
    let ghost found = out@;
    while out.len() < 4
        invariant
            out@.len() <= 4 || out@ == found,
            out@.len() >= found.len(),
            forall|k: int|
                0 <= k < out@.len() ==> #[trigger] out@[k] == (if k < found.len() {
                    found[k]
                } else {
                    0
                }),
        decreases 4 - out@.len(),
    {
        out.push(0);
    }
    out.truncate(4);
    assert(out@ =~= four_of(found));
    out
}

/// The entries for the shape of a model.
pub fn shape_kvs(hp: &Hparams) -> (r: Result<Vec<(String, Value)>, RemixError>)
    ensures
        match shape_refusal(hp.root@) {
            Some(e) => r is Err && r->Err_0@ == e,
            None => r is Ok && kv_views(r->Ok_0@) == shape_entries(hp.root@),
        },
{
    let ghost root = hp.root@;
    let m = match read_sizes(hp) {
        Ok(m) => m,
        Err(e) => {
            return Err(e);
        },
    };
    let nextn: u64 = match hp.find("mtp_num_hidden_layers") {
        Some(v) => match v.as_unsigned() {
            Some(x) => x,
            None => 0,
        },
        None => 0,
    };
    let block_count: u64 = match m.num_hidden_layers.checked_add(nextn) {
        Some(x) => x,
        None => {
            return Err(refuse(Refusal::ParameterRange, "num_hidden_layers"));
        },
    };
    let null = Json::Null;
    let rope: &Json = match hp.get("rope_parameters") {
        Some(r) => r,
        None => match hp.get("rope_scaling") {
            Some(r) => r,
            None => &null,
        },
    };
    assert(rope@ == rope_of(root));
    match rope.str_at("rope_type") {
        Some(t) => {
            if same(t, "linear") || same(t, "yarn") || same(t, "su") || same(t, "longrope") {
                return Err(refuse(Refusal::RopeScaling, t));
            }
        },
        None => {},
    }
    let h = match read_heads(hp) {
        Ok(h) => h,
        Err(e) => {
            return Err(e);
        },
    };
    let inner: u64 = match h.linear_value_head_dim.checked_mul(h.linear_num_value_heads) {
        Some(x) => x,
        None => {
            return Err(refuse(Refusal::ParameterRange, "linear_value_head_dim"));
        },
    };
    proof {
        reveal_strlit("");
        assert(""@ =~= Seq::empty());
    }
    let model_type = match hp.text("model_type") {
        Some(s) => s,
        None => "",
    };
    if !same(model_type, "qwen3_5") && !same(model_type, "qwen3_5_text") {
        return Err(refuse(Refusal::UnknownModelType, model_type));
    }
    match hp.u64("vocab_size") {
        Ok(_) => {},
        Err(e) => {
            return Err(e);
        },
    }
    let mut kvs: Vec<(String, Value)> = Vec::new();
    assert(kv_views(kvs@) =~= Seq::empty());
    put_cut(&mut kvs, "qwen35.block_count", block_count);
    put_cut(&mut kvs, "qwen35.context_length", m.max_position_embeddings);
    put_cut(&mut kvs, "qwen35.embedding_length", m.hidden_size);
    put_cut(&mut kvs, "qwen35.feed_forward_length", m.intermediate_size);
    put_cut(&mut kvs, "qwen35.attention.head_count", m.num_attention_heads);
    put_cut(&mut kvs, "qwen35.attention.head_count_kv", m.num_key_value_heads);
    match rope.arr_at("mrope_section") {
        Some(a) => put(
            &mut kvs,
            "qwen35.rope.dimension_sections",
            Value::ArrI32(read_sections(a)),
        ),
        None => {
            assert(kv_views(kvs@) =~= kv_views(kvs@) + Seq::empty());
        },
    }
    put_single(&mut kvs, "qwen35.rope.freq_base", rope.real_at("rope_theta"));
    put_single(&mut kvs, "qwen35.attention.layer_norm_rms_epsilon", Some(h.rms_norm_eps));
    put_cut(&mut kvs, "qwen35.attention.key_length", h.head_dim);
    put_cut(&mut kvs, "qwen35.attention.value_length", h.head_dim);
    put_cut(&mut kvs, "general.file_type", 1);
    put_cut(&mut kvs, "qwen35.ssm.conv_kernel", h.linear_conv_kernel_dim);
    put_cut(&mut kvs, "qwen35.ssm.state_size", h.linear_key_head_dim);
    put_cut(&mut kvs, "qwen35.ssm.group_count", h.linear_num_key_heads);
    put_cut(&mut kvs, "qwen35.ssm.time_step_rank", h.linear_num_value_heads);
    put_cut(&mut kvs, "qwen35.ssm.inner_size", inner);
    let interval: u64 = match hp.find("full_attention_interval") {
        Some(v) => match v.as_unsigned() {
            Some(x) => x,
            None => 4,
        },
        None => 4,
    };
    put_cut(&mut kvs, "qwen35.full_attention_interval", interval);
    let part: u64 = match hp.find("partial_rotary_factor") {
        Some(v) => match v.as_real() {
            Some(x) => x,
            None => 0x3fd0_0000_0000_0000,
        },
        None => 0x3fd0_0000_0000_0000,
    };
    put(
        &mut kvs,
        "qwen35.rope.dimension_count",
        Value::U32(multiply_and_cut(h.head_dim, part)),
    );
    if nextn > 0 {
        put_cut(&mut kvs, "qwen35.nextn_predict_layers", nextn);
    } else {
        assert(kv_views(kvs@) =~= kv_views(kvs@) + Seq::empty());
    }
    put_cut(&mut kvs, "general.quantization_version", 2);
    Ok(kvs)
}

/// The key of a special token's id.
pub open spec fn id_key(kind: Seq<char>) -> Seq<char> {
    if kind == "bos"@ {
        "tokenizer.ggml.bos_token_id"@
    } else if kind == "eos"@ {
        "tokenizer.ggml.eos_token_id"@
    } else if kind == "unk"@ {
        "tokenizer.ggml.unknown_token_id"@
    } else if kind == "sep"@ {
        "tokenizer.ggml.seperator_token_id"@
    } else if kind == "pad"@ {
        "tokenizer.ggml.padding_token_id"@
    } else if kind == "cls"@ {
        "tokenizer.ggml.cls_token_id"@
    } else {
        "tokenizer.ggml.mask_token_id"@
    }
}

/// The entries of the first `n` special tokens.
pub open spec fn id_entries(ids: Seq<(Seq<char>, u32)>, n: int) -> Seq<(Seq<char>, ValueView)>
    decreases n,
{
    if n <= 0 {
        Seq::empty()
    } else {
        id_entries(ids, n - 1) + one(id_key(ids[n - 1].0), ValueView::U32(ids[n - 1].1))
    }
}

/// The entries of a tokenizer: tokens with their types, merges, special tokens
/// and the chat template.
pub open spec fn vocab_entries(
    tokens: Seq<Seq<char>>,
    types: Seq<i32>,
    merges: Seq<Seq<char>>,
    ids: Seq<(Seq<char>, u32)>,
    template: Option<Seq<char>>,
) -> Seq<(Seq<char>, ValueView)> {
    Seq::empty() + text_entry("tokenizer.ggml.model"@, "gpt2"@) + text_entry(
        "tokenizer.ggml.pre"@,
        "qwen35"@,
    ) + one("tokenizer.ggml.tokens"@, ValueView::ArrStr(tokens)) + one(
        "tokenizer.ggml.token_type"@,
        ValueView::ArrI32(types),
    ) + one("tokenizer.ggml.merges"@, ValueView::ArrStr(merges)) + id_entries(
        ids,
        ids.len() as int,
    ) + text_entry_if("tokenizer.chat_template"@, template)
}

/// The key of a special token's id.
fn key_of_id(kind: &str) -> (r: &'static str)
    ensures
        r@ == id_key(kind@),
{
    if same(kind, "bos") {
        "tokenizer.ggml.bos_token_id"
    } else if same(kind, "eos") {
        "tokenizer.ggml.eos_token_id"
    } else if same(kind, "unk") {
        "tokenizer.ggml.unknown_token_id"
    } else if same(kind, "sep") {
        "tokenizer.ggml.seperator_token_id"
    } else if same(kind, "pad") {
        "tokenizer.ggml.padding_token_id"
    } else if same(kind, "cls") {
        "tokenizer.ggml.cls_token_id"
    } else {
        "tokenizer.ggml.mask_token_id"
    }
}

/// The entries of a tokenizer.
pub fn vocab_kvs(vocab: Vocab, ids: &[(&'static str, u32)], template: &Option<String>) -> (r: Vec<
    (String, Value),
>)
    ensures
        kv_views(r@) == vocab_entries(
            views(vocab.tokens@),
            vocab.token_types@,
            views(vocab.merges@),
            id_views(ids@),
            opt_view(*template),
        ),
{
    let mut kvs: Vec<(String, Value)> = Vec::new();
    assert(kv_views(kvs@) =~= Seq::empty());
    put_text(&mut kvs, "tokenizer.ggml.model", "gpt2");
    put_text(&mut kvs, "tokenizer.ggml.pre", "qwen35");
    put(&mut kvs, "tokenizer.ggml.tokens", Value::ArrStr(vocab.tokens));
    put(&mut kvs, "tokenizer.ggml.token_type", Value::ArrI32(vocab.token_types));
    put(&mut kvs, "tokenizer.ggml.merges", Value::ArrStr(vocab.merges));
    let ghost before = kv_views(kvs@);
    let ghost all = id_views(ids@);
    let mut i: usize = 0;
    assert(before =~= before + id_entries(all, 0));
    while i < ids.len()
        invariant
            i <= ids@.len(),
            all == id_views(ids@),
            kv_views(kvs@) == before + id_entries(all, i as int),
        decreases ids@.len() - i,
    {
        assert(all[i as int] == (ids@[i as int].0@, ids@[i as int].1));
        put(&mut kvs, key_of_id(ids[i].0), Value::U32(ids[i].1));
        proof {
            let a = id_entries(all, i as int);
            let e = one(id_key(all[i as int].0), ValueView::U32(all[i as int].1));
            assert(before + a + e =~= before + (a + e));
        }
        i += 1;
    }
    put_opt(&mut kvs, "tokenizer.chat_template", template);
    kvs
}

/// The card that a name is read from, null where there is none.
pub open spec fn card_or_null(card: Option<JsonView>) -> JsonView {
    match card {
        Some(c) => c,
        None => JsonView::Null,
    }
}

/// What stands before the metadata of the tokenizer.
pub open spec fn model_entries(
    root: JsonView,
    card: Option<JsonView>,
    generation: Option<JsonView>,
    dir: Seq<char>,
    total: u64,
) -> Result<Seq<(Seq<char>, ValueView)>, (Refusal, Seq<char>)> {
    let path = or_empty(param_at(root, "_name_or_path"@).as_str());
    let from_card = match card {
        Some(c) => card_entries(c, total as i64),
        None => Ok(Seq::empty()),
    };
    match from_card {
        Err(e) => Err((e, ""@)),
        Ok(c) => match shape_refusal(root) {
            Some(e) => Err(e),
            None => Ok(
                Seq::empty() + text_entry("general.architecture"@, "qwen35"@) + text_entry(
                    "general.type"@,
                    "model"@,
                ) + (match generation {
                    Some(g) => sampling_entries(g),
                    None => Seq::empty(),
                }) + name_entries(
                    names_of(card_or_null(card), path, dir, total as i64),
                    dir,
                    total,
                ) + c + shape_entries(root),
            ),
        },
    }
}

/// What stands before the metadata of the tokenizer: architecture, sampling
/// parameters, the model's name, what its card says, and its shape.
pub fn model_kvs(
    hp: &Hparams,
    card: Option<&Json>,
    generation: Option<&Json>,
    dir: &str,
    total: u64,
) -> (r: Result<Vec<(String, Value)>, RemixError>)
    requires
        total <= i64::MAX / 7,
    ensures
        match model_entries(
            hp.root@,
            match card {
                Some(c) => Some(c@),
                None => None,
            },
            match generation {
                Some(g) => Some(g@),
                None => None,
            },
            dir@,
            total,
        ) {
            Ok(e) => r is Ok && kv_views(r->Ok_0@) == e,
            Err(e) => r is Err && r->Err_0@ == e,
        },
{
    let none: Vec<(String, Value)> = Vec::new();
    assert(kv_views(none@) =~= Seq::empty());
    let from_card = match card {
        Some(c) => match card_kvs(c, total as i64) {
            Ok(k) => k,
            Err(e) => {
                return Err(e);
            },
        },
        None => none,
    };
    let shape = match shape_kvs(hp) {
        Ok(k) => k,
        Err(e) => {
            return Err(e);
        },
    };
    let mut kvs: Vec<(String, Value)> = Vec::new();
    assert(kv_views(kvs@) =~= Seq::empty());
    put_text(&mut kvs, "general.architecture", "qwen35");
    put_text(&mut kvs, "general.type", "model");
    match generation {
        Some(g) => put_all(&mut kvs, sampling_kvs(g)),
        None => {
            assert(kv_views(kvs@) =~= kv_views(kvs@) + Seq::empty());
        },
    }
    proof {
        reveal_strlit("");
        assert(""@ =~= Seq::empty());
    }
    let path = match hp.text("_name_or_path") {
        Some(s) => s,
        None => "",
    };
    let null = Json::Null;
    let names = find_names(
        match card {
            Some(c) => c,
            None => &null,
        },
        path,
        dir,
        total as i64,
    );
    put_all(&mut kvs, name_kvs(&names, dir, total));
    put_all(&mut kvs, from_card);
    put_all(&mut kvs, shape);
    Ok(kvs)
}

/// The metadata of a converted checkpoint: out of its configuration, its
/// `README.md` and `generation_config.json` where they are there, the name of
/// its directory, its number of parameters, and its tokenizer. A
/// `generation_config.json` that is no JSON counts as absent.
pub fn build_kvs(
    hp: &Hparams,
    readme: Option<&str>,
    generation_config: Option<&[u8]>,
    dir: &str,
    total: u64,
    vocab: Vocab,
    ids: &[(&'static str, u32)],
    template: &Option<String>,
) -> (r: Result<Vec<(String, Value)>, RemixError>)
    requires
        total <= i64::MAX / 7,
    ensures
        match (match readme {
            Some(s) => card_of(s@),
            None => Ok(None),
        }) {
            Err(e) => r is Err && r->Err_0@ == (e, ""@),
            Ok(card) => match model_entries(
                hp.root@,
                card,
                json_or_none(generation_config),
                dir@,
                total,
            ) {
                Err(e) => r is Err && r->Err_0@ == e,
                Ok(m) => r is Ok && kv_views(r->Ok_0@) == m + vocab_entries(
                    views(vocab.tokens@),
                    vocab.token_types@,
                    views(vocab.merges@),
                    id_views(ids@),
                    opt_view(*template),
                ),
            },
        },
{
    let card = match load_model_card(readme) {
        Ok(c) => c,
        Err(e) => {
            return Err(e);
        },
    };
    let generation = parse_or_none(generation_config);
    let mut kvs = match model_kvs(hp, card.as_ref(), generation.as_ref(), dir, total) {
        Ok(k) => k,
        Err(e) => {
            return Err(e);
        },
    };
    put_all(&mut kvs, vocab_kvs(vocab, ids, template));
    Ok(kvs)
}

} // verus!
