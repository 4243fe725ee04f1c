//! Laws of the metadata of a converted checkpoint: the model's name, what its
//! card says, its tokenizer, and the file as a whole.

use crate::gguf::reader::lookup;

use crate::gguf::ValueView;
use crate::json::JsonView;
use crate::metadata::{one, text_entry, text_entry_if};

use crate::remix::kvs::{
    base_entries, base_key, base_section, bases_entries, card_entries, id_entries, id_key,
    license_entry, list_entry, looks_like_id, name_entries, names_of, texts_in, texts_of,
    vocab_entries,
};
use crate::remix::lookups::{
    as_list, as_text, lookup_both, lookup_list, lookup_one, lookup_text, lookup_text_if,
};
use crate::remix::meta::{components, size_label_text, title_of, IdView};
use crate::remix::plan::Refusal;

use crate::text::{decimal, decimal_reads_back, has_prefix, is_digit, joined};
use vstd::prelude::*;

verus! {

/// The first of some texts that is there.
pub open spec fn first(a: Option<Seq<char>>, b: Option<Seq<char>>) -> Option<Seq<char>> {
    if a is Some {
        a
    } else {
        b
    }
}

/// The text under a key of a card.
pub open spec fn says(card: JsonView, key: Seq<char>) -> Option<Seq<char>> {
    card.at(key).as_str()
}

/// What an id tells, where it looks like one.
pub open spec fn of_id(path: Seq<char>, total: i64, part: spec_fn(IdView) -> Option<Seq<char>>) -> Option<
    Seq<char>,
> {
    if looks_like_id(path) {
        part(components(path, total))
    } else {
        None
    }
}

/// The title of a text that is there.
pub open spec fn titled_if(s: Option<Seq<char>>) -> Option<Seq<char>> {
    match s {
        Some(t) => Some(title_of(t)),
        None => None,
    }
}

/// The keys of a model's name differ.
#[verifier::spinoff_prover]
proof fn name_keys_differ()
    ensures
        "general.name"@ != "general.author"@,
        "general.name"@ != "general.version"@,
        "general.name"@ != "general.organization"@,
        "general.name"@ != "general.finetune"@,
        "general.name"@ != "general.basename"@,
        "general.name"@ != "general.description"@,
        "general.name"@ != "general.size_label"@,
        "general.author"@ != "general.version"@,
        "general.author"@ != "general.organization"@,
        "general.author"@ != "general.finetune"@,
        "general.author"@ != "general.basename"@,
        "general.author"@ != "general.description"@,
        "general.author"@ != "general.size_label"@,
        "general.version"@ != "general.organization"@,
        "general.version"@ != "general.finetune"@,
        "general.version"@ != "general.basename"@,
        "general.version"@ != "general.description"@,
        "general.version"@ != "general.size_label"@,
        "general.organization"@ != "general.finetune"@,
        "general.organization"@ != "general.basename"@,
        "general.organization"@ != "general.description"@,
        "general.organization"@ != "general.size_label"@,
        "general.finetune"@ != "general.basename"@,
        "general.finetune"@ != "general.description"@,
        "general.finetune"@ != "general.size_label"@,
        "general.basename"@ != "general.description"@,
        "general.basename"@ != "general.size_label"@,
        "general.description"@ != "general.size_label"@,
{
    reveal_strlit("general.name");
    reveal_strlit("general.author");
    reveal_strlit("general.version");
    reveal_strlit("general.organization");
    reveal_strlit("general.finetune");
    reveal_strlit("general.basename");
    reveal_strlit("general.description");
    reveal_strlit("general.size_label");
    assert("general.name"@.len() == 12);
    assert("general.author"@.len() == 14);
    assert("general.version"@.len() == 15);
    assert("general.organization"@.len() == 20);
    assert("general.finetune"@.len() == 16);
    assert("general.basename"@.len() == 16);
    assert("general.description"@.len() == 19);
    assert("general.size_label"@.len() == 18);
    assert("general.finetune"@[8] != "general.basename"@[8]);
}

/// Each part of a model's name stands under its own key: what the card says,
/// under the first of its keys, before what the path tells that the model was
/// loaded from, before what its directory tells.
#[verifier::spinoff_prover]
pub proof fn names_are_told(card: JsonView, path: Seq<char>, dir: Seq<char>, total: u64)
    ensures
        ({
            let e = name_entries(names_of(card, path, dir, total as i64), dir, total);
            &&& lookup(e, "general.name"@) == as_text(
                Some(
                    match first(
                        first(
                            first(says(card, "name"@), says(card, "model_name"@)),
                            of_id(path, total as i64, |c: IdView| titled_if(c.model_full_name)),
                        ),
                        titled_if(components(dir, total as i64).model_full_name),
                    ) {
                        Some(s) => s,
                        None => dir,
                    },
                ),
            )
            &&& lookup(e, "general.author"@) == as_text(
                first(
                    first(says(card, "author"@), says(card, "model_author"@)),
                    says(card, "model_creator"@),
                ),
            )
            &&& lookup(e, "general.version"@) == as_text(
                first(
                    first(
                        first(says(card, "version"@), says(card, "model_version"@)),
                        of_id(path, total as i64, |c: IdView| c.version),
                    ),
                    components(dir, total as i64).version,
                ),
            )
            &&& lookup(e, "general.organization"@) == as_text(
                first(
                    first(
                        first(says(card, "organization"@), says(card, "model_organization"@)),
                        of_id(path, total as i64, |c: IdView| titled_if(c.org)),
                    ),
                    titled_if(components(dir, total as i64).org),
                ),
            )
            &&& lookup(e, "general.finetune"@) == as_text(
                first(
                    first(
                        first(says(card, "finetune"@), says(card, "model_finetune"@)),
                        of_id(path, total as i64, |c: IdView| c.finetune),
                    ),
                    components(dir, total as i64).finetune,
                ),
            )
            &&& lookup(e, "general.basename"@) == as_text(
                first(
                    first(
                        first(first(says(card, "basename"@), says(card, "model_basename"@)), says(card, "model_type"@)),
                        of_id(path, total as i64, |c: IdView| c.basename),
                    ),
                    components(dir, total as i64).basename,
                ),
            )
            &&& lookup(e, "general.description"@) == as_text(
                first(says(card, "description"@), says(card, "model_description"@)),
            )
            &&& lookup(e, "general.size_label"@) == as_text(
                Some(
                    match first(
                            first(
                                first(says(card, "size_label"@), says(card, "model_size_label"@)),
                                of_id(path, total as i64, |c: IdView| c.size_label),
                            ),
                            components(dir, total as i64).size_label,
                        ) {
                        Some(s) => s,
                        None => size_label_text(total),
                    },
                ),
            )
        }),
{
    name_keys_differ();
    let m = names_of(card, path, dir, total as i64);
    let s0 = Seq::<(Seq<char>, ValueView)>::empty();
    let e1 = text_entry("general.name"@, match m.name {
        Some(s) => s,
        None => dir,
    });
    lookup_text("general.name"@, match m.name {
        Some(s) => s,
        None => dir,
    });
    let s1 = s0 + e1;
    lookup_both(s0, e1);
    let e2 = text_entry_if("general.author"@, m.author);
    lookup_text_if("general.author"@, m.author);
    let s2 = s1 + e2;
    lookup_both(s1, e2);
    let e3 = text_entry_if("general.version"@, m.version);
    lookup_text_if("general.version"@, m.version);
    let s3 = s2 + e3;
    lookup_both(s2, e3);
    let e4 = text_entry_if("general.organization"@, m.organization);
    lookup_text_if("general.organization"@, m.organization);
    let s4 = s3 + e4;
    lookup_both(s3, e4);
    let e5 = text_entry_if("general.finetune"@, m.finetune);
    lookup_text_if("general.finetune"@, m.finetune);
    let s5 = s4 + e5;
    lookup_both(s4, e5);
    let e6 = text_entry_if("general.basename"@, m.basename);
    lookup_text_if("general.basename"@, m.basename);
    let s6 = s5 + e6;
    lookup_both(s5, e6);
    let e7 = text_entry_if("general.description"@, m.description);
    lookup_text_if("general.description"@, m.description);
    let s7 = s6 + e7;
    lookup_both(s6, e7);
    let e8 = text_entry(
        "general.size_label"@,
        match m.size_label {
            Some(s) => s,
            None => size_label_text(total),
        },
    );
    lookup_text(
        "general.size_label"@,
        match m.size_label {
            Some(s) => s,
            None => size_label_text(total),
        },
    );
    let s8 = s7 + e8;
    lookup_both(s7, e8);
    assert(name_entries(m, dir, total) == s8);
}

/// The keys of what a card says differ.
#[verifier::spinoff_prover]
proof fn card_keys_differ()
    ensures
        "general.license"@ != "general.license_name"@,
        "general.license"@ != "general.license_link"@,
        "general.license"@ != "general.base_model.count"@,
        "general.license"@ != "general.tags"@,
        "general.license"@ != "general.languages"@,
        "general.license_name"@ != "general.license_link"@,
        "general.license_name"@ != "general.base_model.count"@,
        "general.license_name"@ != "general.tags"@,
        "general.license_name"@ != "general.languages"@,
        "general.license_link"@ != "general.base_model.count"@,
        "general.license_link"@ != "general.tags"@,
        "general.license_link"@ != "general.languages"@,
        "general.base_model.count"@ != "general.tags"@,
        "general.base_model.count"@ != "general.languages"@,
        "general.tags"@ != "general.languages"@,
{
    reveal_strlit("general.license");
    reveal_strlit("general.license_name");
    reveal_strlit("general.license_link");
    reveal_strlit("general.base_model.count");
    reveal_strlit("general.tags");
    reveal_strlit("general.languages");
    assert("general.license"@.len() == 15);
    assert("general.license_name"@.len() == 20);
    assert("general.license_link"@.len() == 20);
    assert("general.base_model.count"@.len() == 24);
    assert("general.tags"@.len() == 12);
    assert("general.languages"@.len() == 17);
    assert("general.license_name"@[16] != "general.license_link"@[16]);
}

/// The base models that a card names: the texts under the first of three keys.
pub open spec fn bases(card: JsonView) -> Option<Seq<Seq<char>>> {
    if card.get("base_model"@) is Some {
        Some(texts_of(card.get("base_model"@)->0))
    } else if card.get("base_models"@) is Some {
        Some(texts_of(card.get("base_models"@)->0))
    } else if card.get("base_model_sources"@) is Some {
        Some(texts_of(card.get("base_model_sources"@)->0))
    } else {
        None
    }
}

/// Whether a key can be one of a base model.
pub open spec fn of_base(key: Seq<char>) -> bool {
    key.len() > 19 && key[8] == 'b' && is_digit(key[19])
}

/// The keys of a base model have its number.
pub proof fn base_key_has_number(k: nat, suffix: Seq<char>)
    ensures
        of_base(base_key(k, suffix)),
{
    reveal_strlit("general.base_model.");
    decimal_reads_back(k);
    let key = base_key(k, suffix);
    assert("general.base_model."@.len() == 19);
    assert(key[8] == "general.base_model."@[8]);
    assert(key[19] == decimal(k)[0]);
}

/// A base model has no entry under another key.
proof fn no_base_under(ids: Seq<Seq<char>>, n: int, total: i64, key: Seq<char>)
    requires
        !of_base(key),
    ensures
        lookup(bases_entries(ids, n, total), key) is None,
    decreases n,
{
    if n > 0 {
        no_base_under(ids, n - 1, total, key);
        let k = (n - 1) as nat;
        base_is_told(k, ids[n - 1], total, key);
        lookup_both(bases_entries(ids, n - 1, total), base_entries(k, ids[n - 1], total));
    }
}

/// What stands under a key of a base model.
proof fn base_is_told(k: nat, id: Seq<char>, total: i64, key: Seq<char>)
    ensures
        !of_base(key) ==> lookup(base_entries(k, id, total), key) is None,
{
    let c = components(id, total);
    base_key_has_number(k, ".name"@);
    base_key_has_number(k, ".version"@);
    base_key_has_number(k, ".organization"@);
    base_key_has_number(k, ".repo_url"@);
    let url = match (c.org, c.model_full_name) {
        (Some(org), Some(full)) => Some("https://huggingface.co/"@ + org + "/"@ + full),
        _ => None,
    };
    let s0 = Seq::<(Seq<char>, ValueView)>::empty();
    let e1 = text_entry_if(base_key(k, ".name"@), titled_if(c.model_full_name));
    lookup_text_if(base_key(k, ".name"@), titled_if(c.model_full_name));
    let s1 = s0 + e1;
    lookup_both(s0, e1);
    let e2 = text_entry_if(base_key(k, ".version"@), c.version);
    lookup_text_if(base_key(k, ".version"@), c.version);
    let s2 = s1 + e2;
    lookup_both(s1, e2);
    let e3 = text_entry_if(base_key(k, ".organization"@), titled_if(c.org));
    lookup_text_if(base_key(k, ".organization"@), titled_if(c.org));
    let s3 = s2 + e3;
    lookup_both(s2, e3);
    let e4 = text_entry_if(base_key(k, ".repo_url"@), url);
    lookup_text_if(base_key(k, ".repo_url"@), url);
    let s4 = s3 + e4;
    lookup_both(s3, e4);
    assert(base_entries(k, id, total) == s4);
}

/// What stands in the section of base models under another key.
proof fn base_section_is_told(card: JsonView, total: i64, key: Seq<char>)
    requires
        !of_base(key),
    ensures
        lookup(base_section(card, total), key) == (if key == "general.base_model.count"@
            && bases(card) is Some {
            Some(ValueView::U32(bases(card)->0.len() as u32))
        } else {
            None
        }),
{
    if let Some(ids) = bases(card) {
        let count = ValueView::U32(ids.len() as u32);
        lookup_one("general.base_model.count"@, count);
        no_base_under(ids, ids.len() as int, total, key);
        lookup_both(
            one("general.base_model.count"@, count),
            bases_entries(ids, ids.len() as int, total),
        );
    }
}

/// What a license says: a text, or the texts of a list with commas between
/// them.
pub open spec fn license_text(v: JsonView) -> Option<Seq<char>> {
    match v {
        JsonView::Str(s) => Some(s),
        JsonView::Arr(a) => Some(joined(texts_in(a), ","@)),
        _ => None,
    }
}

/// Each thing that a card says stands under its own key.
#[verifier::spinoff_prover]
pub proof fn the_card_is_told(card: JsonView, total: i64)
    requires
        card_entries(card, total) is Ok,
    ensures
        ({
            let e = card_entries(card, total)->Ok_0;
            &&& lookup(e, "general.license"@) == as_text(license_text(card.at("license"@)))
            &&& lookup(e, "general.license_name"@) == as_text(says(card, "license_name"@))
            &&& lookup(e, "general.license_link"@) == as_text(says(card, "license_link"@))
            &&& lookup(e, "general.base_model.count"@) == match bases(card) {
                Some(ids) => Some(ValueView::U32(ids.len() as u32)),
                None => None,
            }
            &&& lookup(e, "general.tags"@) == as_list(
                texts_of(card.at("tags"@)) + texts_of(card.at("pipeline_tag"@)),
            )
            &&& lookup(e, "general.languages"@) == as_list(
                texts_of(card.at("languages"@)) + texts_of(card.at("language"@)),
            )
        }),
{
    card_keys_differ();
    assert(!of_base("general.license"@)) by {
        reveal_strlit("general.license");
    }
    base_section_is_told(card, total, "general.license"@);
    assert(!of_base("general.license_name"@)) by {
        reveal_strlit("general.license_name");
    }
    base_section_is_told(card, total, "general.license_name"@);
    assert(!of_base("general.license_link"@)) by {
        reveal_strlit("general.license_link");
    }
    base_section_is_told(card, total, "general.license_link"@);
    assert(!of_base("general.base_model.count"@)) by {
        reveal_strlit("general.base_model.count");
    }
    base_section_is_told(card, total, "general.base_model.count"@);
    assert(!of_base("general.tags"@)) by {
        reveal_strlit("general.tags");
    }
    base_section_is_told(card, total, "general.tags"@);
    assert(!of_base("general.languages"@)) by {
        reveal_strlit("general.languages");
    }
    base_section_is_told(card, total, "general.languages"@);
    if let Some(t) = license_text(card.at("license"@)) {
        lookup_text("general.license"@, t);
    }
    let tags = texts_of(card.at("tags"@)) + texts_of(card.at("pipeline_tag"@));
    let languages = texts_of(card.at("languages"@)) + texts_of(card.at("language"@));
    let s0 = Seq::<(Seq<char>, ValueView)>::empty();
    let e1 = license_entry(card.at("license"@));
    let s1 = s0 + e1;
    lookup_both(s0, e1);
    let e2 = text_entry_if("general.license_name"@, says(card, "license_name"@));
    lookup_text_if("general.license_name"@, says(card, "license_name"@));
    let s2 = s1 + e2;
    lookup_both(s1, e2);
    let e3 = text_entry_if("general.license_link"@, says(card, "license_link"@));
    lookup_text_if("general.license_link"@, says(card, "license_link"@));
    let s3 = s2 + e3;
    lookup_both(s2, e3);
    let e4 = base_section(card, total);
    let s4 = s3 + e4;
    lookup_both(s3, e4);
    let e5 = list_entry("general.tags"@, tags);
    lookup_list("general.tags"@, tags);
    let s5 = s4 + e5;
    lookup_both(s4, e5);
    let e6 = list_entry("general.languages"@, languages);
    lookup_list("general.languages"@, languages);
    let s6 = s5 + e6;
    lookup_both(s5, e6);
    assert(card_entries(card, total)->Ok_0 == s6);
}

/// A card is refused just where a base model is given by its address, or where
/// it names data sets; the address is looked at first.
pub proof fn cards_that_are_refused(card: JsonView, total: i64)
    ensures
        ({
            let by_address = bases(card) is Some && exists|i: int|
                0 <= i < bases(card)->0.len() && {
                    ||| has_prefix(#[trigger] bases(card)->0[i], "http://"@)
                    ||| has_prefix(bases(card)->0[i], "https://"@)
                    ||| has_prefix(bases(card)->0[i], "ssh://"@)
                };
            let sets = card.get("datasets"@) is Some || card.get("dataset"@) is Some;
            match card_entries(card, total) {
                Ok(_) => !by_address && !sets,
                Err(e) => if by_address {
                    e == Refusal::UrlBaseModel
                } else {
                    sets && e == Refusal::Datasets
                },
            }
        }),
{
}

/// The keys of a tokenizer differ.
#[verifier::spinoff_prover]
proof fn tokenizer_keys_differ()
    ensures
        "tokenizer.ggml.model"@ != "tokenizer.ggml.pre"@,
        "tokenizer.ggml.model"@ != "tokenizer.ggml.tokens"@,
        "tokenizer.ggml.model"@ != "tokenizer.ggml.token_type"@,
        "tokenizer.ggml.model"@ != "tokenizer.ggml.merges"@,
        "tokenizer.ggml.model"@ != "tokenizer.chat_template"@,
        "tokenizer.ggml.model"@ != "tokenizer.ggml.bos_token_id"@,
        "tokenizer.ggml.model"@ != "tokenizer.ggml.eos_token_id"@,
        "tokenizer.ggml.model"@ != "tokenizer.ggml.unknown_token_id"@,
        "tokenizer.ggml.model"@ != "tokenizer.ggml.seperator_token_id"@,
        "tokenizer.ggml.model"@ != "tokenizer.ggml.padding_token_id"@,
        "tokenizer.ggml.model"@ != "tokenizer.ggml.cls_token_id"@,
        "tokenizer.ggml.model"@ != "tokenizer.ggml.mask_token_id"@,
        "tokenizer.ggml.pre"@ != "tokenizer.ggml.tokens"@,
        "tokenizer.ggml.pre"@ != "tokenizer.ggml.token_type"@,
        "tokenizer.ggml.pre"@ != "tokenizer.ggml.merges"@,
        "tokenizer.ggml.pre"@ != "tokenizer.chat_template"@,
        "tokenizer.ggml.pre"@ != "tokenizer.ggml.bos_token_id"@,
        "tokenizer.ggml.pre"@ != "tokenizer.ggml.eos_token_id"@,
        "tokenizer.ggml.pre"@ != "tokenizer.ggml.unknown_token_id"@,
        "tokenizer.ggml.pre"@ != "tokenizer.ggml.seperator_token_id"@,
        "tokenizer.ggml.pre"@ != "tokenizer.ggml.padding_token_id"@,
        "tokenizer.ggml.pre"@ != "tokenizer.ggml.cls_token_id"@,
        "tokenizer.ggml.pre"@ != "tokenizer.ggml.mask_token_id"@,
        "tokenizer.ggml.tokens"@ != "tokenizer.ggml.token_type"@,
        "tokenizer.ggml.tokens"@ != "tokenizer.ggml.merges"@,
        "tokenizer.ggml.tokens"@ != "tokenizer.chat_template"@,
        "tokenizer.ggml.tokens"@ != "tokenizer.ggml.bos_token_id"@,
        "tokenizer.ggml.tokens"@ != "tokenizer.ggml.eos_token_id"@,
        "tokenizer.ggml.tokens"@ != "tokenizer.ggml.unknown_token_id"@,
        "tokenizer.ggml.tokens"@ != "tokenizer.ggml.seperator_token_id"@,
        "tokenizer.ggml.tokens"@ != "tokenizer.ggml.padding_token_id"@,
        "tokenizer.ggml.tokens"@ != "tokenizer.ggml.cls_token_id"@,
        "tokenizer.ggml.tokens"@ != "tokenizer.ggml.mask_token_id"@,
        "tokenizer.ggml.token_type"@ != "tokenizer.ggml.merges"@,
        "tokenizer.ggml.token_type"@ != "tokenizer.chat_template"@,
        "tokenizer.ggml.token_type"@ != "tokenizer.ggml.bos_token_id"@,
        "tokenizer.ggml.token_type"@ != "tokenizer.ggml.eos_token_id"@,
        "tokenizer.ggml.token_type"@ != "tokenizer.ggml.unknown_token_id"@,
        "tokenizer.ggml.token_type"@ != "tokenizer.ggml.seperator_token_id"@,
        "tokenizer.ggml.token_type"@ != "tokenizer.ggml.padding_token_id"@,
        "tokenizer.ggml.token_type"@ != "tokenizer.ggml.cls_token_id"@,
        "tokenizer.ggml.token_type"@ != "tokenizer.ggml.mask_token_id"@,
        "tokenizer.ggml.merges"@ != "tokenizer.chat_template"@,
        "tokenizer.ggml.merges"@ != "tokenizer.ggml.bos_token_id"@,
        "tokenizer.ggml.merges"@ != "tokenizer.ggml.eos_token_id"@,
        "tokenizer.ggml.merges"@ != "tokenizer.ggml.unknown_token_id"@,
        "tokenizer.ggml.merges"@ != "tokenizer.ggml.seperator_token_id"@,
        "tokenizer.ggml.merges"@ != "tokenizer.ggml.padding_token_id"@,
        "tokenizer.ggml.merges"@ != "tokenizer.ggml.cls_token_id"@,
        "tokenizer.ggml.merges"@ != "tokenizer.ggml.mask_token_id"@,
        "tokenizer.chat_template"@ != "tokenizer.ggml.bos_token_id"@,
        "tokenizer.chat_template"@ != "tokenizer.ggml.eos_token_id"@,
        "tokenizer.chat_template"@ != "tokenizer.ggml.unknown_token_id"@,
        "tokenizer.chat_template"@ != "tokenizer.ggml.seperator_token_id"@,
        "tokenizer.chat_template"@ != "tokenizer.ggml.padding_token_id"@,
        "tokenizer.chat_template"@ != "tokenizer.ggml.cls_token_id"@,
        "tokenizer.chat_template"@ != "tokenizer.ggml.mask_token_id"@,
        "tokenizer.ggml.bos_token_id"@ != "tokenizer.ggml.eos_token_id"@,
        "tokenizer.ggml.bos_token_id"@ != "tokenizer.ggml.unknown_token_id"@,
        "tokenizer.ggml.bos_token_id"@ != "tokenizer.ggml.seperator_token_id"@,
        "tokenizer.ggml.bos_token_id"@ != "tokenizer.ggml.padding_token_id"@,
        "tokenizer.ggml.bos_token_id"@ != "tokenizer.ggml.cls_token_id"@,
        "tokenizer.ggml.bos_token_id"@ != "tokenizer.ggml.mask_token_id"@,
        "tokenizer.ggml.eos_token_id"@ != "tokenizer.ggml.unknown_token_id"@,
        "tokenizer.ggml.eos_token_id"@ != "tokenizer.ggml.seperator_token_id"@,
        "tokenizer.ggml.eos_token_id"@ != "tokenizer.ggml.padding_token_id"@,
        "tokenizer.ggml.eos_token_id"@ != "tokenizer.ggml.cls_token_id"@,
        "tokenizer.ggml.eos_token_id"@ != "tokenizer.ggml.mask_token_id"@,
        "tokenizer.ggml.unknown_token_id"@ != "tokenizer.ggml.seperator_token_id"@,
        "tokenizer.ggml.unknown_token_id"@ != "tokenizer.ggml.padding_token_id"@,
        "tokenizer.ggml.unknown_token_id"@ != "tokenizer.ggml.cls_token_id"@,
        "tokenizer.ggml.unknown_token_id"@ != "tokenizer.ggml.mask_token_id"@,
        "tokenizer.ggml.seperator_token_id"@ != "tokenizer.ggml.padding_token_id"@,
        "tokenizer.ggml.seperator_token_id"@ != "tokenizer.ggml.cls_token_id"@,
        "tokenizer.ggml.seperator_token_id"@ != "tokenizer.ggml.mask_token_id"@,
        "tokenizer.ggml.padding_token_id"@ != "tokenizer.ggml.cls_token_id"@,
        "tokenizer.ggml.padding_token_id"@ != "tokenizer.ggml.mask_token_id"@,
        "tokenizer.ggml.cls_token_id"@ != "tokenizer.ggml.mask_token_id"@,
{
    reveal_strlit("tokenizer.ggml.model");
    reveal_strlit("tokenizer.ggml.pre");
    reveal_strlit("tokenizer.ggml.tokens");
    reveal_strlit("tokenizer.ggml.token_type");
    reveal_strlit("tokenizer.ggml.merges");
    reveal_strlit("tokenizer.chat_template");
    reveal_strlit("tokenizer.ggml.bos_token_id");
    reveal_strlit("tokenizer.ggml.eos_token_id");
    reveal_strlit("tokenizer.ggml.unknown_token_id");
    reveal_strlit("tokenizer.ggml.seperator_token_id");
    reveal_strlit("tokenizer.ggml.padding_token_id");
    reveal_strlit("tokenizer.ggml.cls_token_id");
    reveal_strlit("tokenizer.ggml.mask_token_id");
    assert("tokenizer.ggml.model"@.len() == 20);
    assert("tokenizer.ggml.pre"@.len() == 18);
    assert("tokenizer.ggml.tokens"@.len() == 21);
    assert("tokenizer.ggml.token_type"@.len() == 25);
    assert("tokenizer.ggml.merges"@.len() == 21);
    assert("tokenizer.chat_template"@.len() == 23);
    assert("tokenizer.ggml.bos_token_id"@.len() == 27);
    assert("tokenizer.ggml.eos_token_id"@.len() == 27);
    assert("tokenizer.ggml.unknown_token_id"@.len() == 31);
    assert("tokenizer.ggml.seperator_token_id"@.len() == 33);
    assert("tokenizer.ggml.padding_token_id"@.len() == 31);
    assert("tokenizer.ggml.cls_token_id"@.len() == 27);
    assert("tokenizer.ggml.mask_token_id"@.len() == 28);
    assert("tokenizer.ggml.tokens"@[15] != "tokenizer.ggml.merges"@[15]);
    assert("tokenizer.ggml.bos_token_id"@[15] != "tokenizer.ggml.eos_token_id"@[15]);
    assert("tokenizer.ggml.bos_token_id"@[15] != "tokenizer.ggml.cls_token_id"@[15]);
    assert("tokenizer.ggml.eos_token_id"@[15] != "tokenizer.ggml.cls_token_id"@[15]);
    assert("tokenizer.ggml.unknown_token_id"@[15] != "tokenizer.ggml.padding_token_id"@[15]);
}

/// The kinds of special tokens differ.
#[verifier::spinoff_prover]
proof fn kinds_differ()
    ensures
        "bos"@ != "eos"@,
        "bos"@ != "unk"@,
        "bos"@ != "sep"@,
        "bos"@ != "pad"@,
        "bos"@ != "cls"@,
        "bos"@ != "mask"@,
        "eos"@ != "unk"@,
        "eos"@ != "sep"@,
        "eos"@ != "pad"@,
        "eos"@ != "cls"@,
        "eos"@ != "mask"@,
        "unk"@ != "sep"@,
        "unk"@ != "pad"@,
        "unk"@ != "cls"@,
        "unk"@ != "mask"@,
        "sep"@ != "pad"@,
        "sep"@ != "cls"@,
        "sep"@ != "mask"@,
        "pad"@ != "cls"@,
        "pad"@ != "mask"@,
        "cls"@ != "mask"@,
{
    reveal_strlit("bos");
    reveal_strlit("eos");
    reveal_strlit("unk");
    reveal_strlit("sep");
    reveal_strlit("pad");
    reveal_strlit("cls");
    reveal_strlit("mask");
    assert("bos"@.len() == 3);
    assert("eos"@.len() == 3);
    assert("unk"@.len() == 3);
    assert("sep"@.len() == 3);
    assert("pad"@.len() == 3);
    assert("cls"@.len() == 3);
    assert("mask"@.len() == 4);
    assert("bos"@[0] != "eos"@[0]);
    assert("bos"@[0] != "unk"@[0]);
    assert("bos"@[0] != "sep"@[0]);
    assert("bos"@[0] != "pad"@[0]);
    assert("bos"@[0] != "cls"@[0]);
    assert("eos"@[0] != "unk"@[0]);
    assert("eos"@[0] != "sep"@[0]);
    assert("eos"@[0] != "pad"@[0]);
    assert("eos"@[0] != "cls"@[0]);
    assert("unk"@[0] != "sep"@[0]);
    assert("unk"@[0] != "pad"@[0]);
    assert("unk"@[0] != "cls"@[0]);
    assert("sep"@[0] != "pad"@[0]);
    assert("sep"@[0] != "cls"@[0]);
    assert("pad"@[0] != "cls"@[0]);
}

/// Whether a kind of special token is one that a tokenizer can have.
pub open spec fn is_kind(kind: Seq<char>) -> bool {
    ||| kind == "bos"@
    ||| kind == "eos"@
    ||| kind == "unk"@
    ||| kind == "sep"@
    ||| kind == "pad"@
    ||| kind == "cls"@
    ||| kind == "mask"@
}

/// The first id of a kind.
pub open spec fn id_of(ids: Seq<(Seq<char>, u32)>, kind: Seq<char>) -> Option<ValueView>
    decreases ids.len(),
{
    if ids.len() == 0 {
        None
    } else if ids[0].0 == kind {
        Some(ValueView::U32(ids[0].1))
    } else {
        id_of(ids.drop_first(), kind)
    }
}

/// The first id of a kind, with one id more.
proof fn id_of_next(ids: Seq<(Seq<char>, u32)>, n: int, kind: Seq<char>)
    requires
        0 <= n < ids.len(),
    ensures
        id_of(ids.take(n + 1), kind) == (if id_of(ids.take(n), kind) is Some {
            id_of(ids.take(n), kind)
        } else if ids[n].0 == kind {
            Some(ValueView::U32(ids[n].1))
        } else {
            None
        }),
    decreases n,
{
    let a = ids.take(n + 1);
    let b = ids.take(n);
    if n == 0 {
        assert(a.drop_first().len() == 0);
        assert(id_of(a.drop_first(), kind) is None);
    } else {
        let rest = ids.drop_first();
        assert(a.drop_first() =~= rest.take(n));
        assert(b.drop_first() =~= rest.take(n - 1));
        id_of_next(rest, n - 1, kind);
    }
}

/// Each kind of special token has its id under its own key, and no other entry.
#[verifier::spinoff_prover]
proof fn ids_one_by_one(ids: Seq<(Seq<char>, u32)>, n: int)
    requires
        0 <= n <= ids.len(),
        forall|i: int| 0 <= i < ids.len() ==> is_kind((#[trigger] ids[i]).0),
    ensures
        ({
            let e = id_entries(ids, n);
            let t = ids.take(n);
            &&& lookup(e, "tokenizer.ggml.bos_token_id"@) == id_of(t, "bos"@)
            &&& lookup(e, "tokenizer.ggml.eos_token_id"@) == id_of(t, "eos"@)
            &&& lookup(e, "tokenizer.ggml.unknown_token_id"@) == id_of(t, "unk"@)
            &&& lookup(e, "tokenizer.ggml.seperator_token_id"@) == id_of(t, "sep"@)
            &&& lookup(e, "tokenizer.ggml.padding_token_id"@) == id_of(t, "pad"@)
            &&& lookup(e, "tokenizer.ggml.cls_token_id"@) == id_of(t, "cls"@)
            &&& lookup(e, "tokenizer.ggml.mask_token_id"@) == id_of(t, "mask"@)
            &&& lookup(e, "tokenizer.ggml.model"@) is None
            &&& lookup(e, "tokenizer.ggml.pre"@) is None
            &&& lookup(e, "tokenizer.ggml.tokens"@) is None
            &&& lookup(e, "tokenizer.ggml.token_type"@) is None
            &&& lookup(e, "tokenizer.ggml.merges"@) is None
            &&& lookup(e, "tokenizer.chat_template"@) is None
        }),
    decreases n,
{
    if n > 0 {
        ids_one_by_one(ids, n - 1);
        tokenizer_keys_differ();
        kinds_differ();
        let x = ids[n - 1];
        assert(is_kind(x.0));
        id_of_next(ids, n - 1, "bos"@);
        id_of_next(ids, n - 1, "eos"@);
        id_of_next(ids, n - 1, "unk"@);
        id_of_next(ids, n - 1, "sep"@);
        id_of_next(ids, n - 1, "pad"@);
        id_of_next(ids, n - 1, "cls"@);
        id_of_next(ids, n - 1, "mask"@);
        let entry = one(id_key(x.0), ValueView::U32(x.1));
        lookup_one(id_key(x.0), ValueView::U32(x.1));
        lookup_both(id_entries(ids, n - 1), entry);
    }
}

/// Each part of a tokenizer stands under its own key, and each special token's
/// id under the key of its kind, just where there is one.
#[verifier::spinoff_prover]
pub proof fn the_tokenizer_is_told(
    tokens: Seq<Seq<char>>,
    types: Seq<i32>,
    merges: Seq<Seq<char>>,
    ids: Seq<(Seq<char>, u32)>,
    template: Option<Seq<char>>,
)
    requires
        forall|i: int| 0 <= i < ids.len() ==> is_kind((#[trigger] ids[i]).0),
    ensures
        ({
            let e = vocab_entries(tokens, types, merges, ids, template);
            &&& lookup(e, "tokenizer.ggml.model"@) == Some(ValueView::Str("gpt2"@))
            &&& lookup(e, "tokenizer.ggml.pre"@) == Some(ValueView::Str("qwen35"@))
            &&& lookup(e, "tokenizer.ggml.tokens"@) == Some(ValueView::ArrStr(tokens))
            &&& lookup(e, "tokenizer.ggml.token_type"@) == Some(ValueView::ArrI32(types))
            &&& lookup(e, "tokenizer.ggml.merges"@) == Some(ValueView::ArrStr(merges))
            &&& lookup(e, "tokenizer.ggml.bos_token_id"@) == id_of(ids, "bos"@)
            &&& lookup(e, "tokenizer.ggml.eos_token_id"@) == id_of(ids, "eos"@)
            &&& lookup(e, "tokenizer.ggml.unknown_token_id"@) == id_of(ids, "unk"@)
            &&& lookup(e, "tokenizer.ggml.seperator_token_id"@) == id_of(ids, "sep"@)
            &&& lookup(e, "tokenizer.ggml.padding_token_id"@) == id_of(ids, "pad"@)
            &&& lookup(e, "tokenizer.ggml.cls_token_id"@) == id_of(ids, "cls"@)
            &&& lookup(e, "tokenizer.ggml.mask_token_id"@) == id_of(ids, "mask"@)
            &&& lookup(e, "tokenizer.chat_template"@) == as_text(template)
        }),
{
    tokenizer_keys_differ();
    ids_one_by_one(ids, ids.len() as int);
    assert(ids.take(ids.len() as int) =~= ids);
    assert("gpt2"@.len() > 0 && "qwen35"@.len() > 0) by {
        reveal_strlit("gpt2");
        reveal_strlit("qwen35");
    }
    let s0 = Seq::<(Seq<char>, ValueView)>::empty();
    let e1 = text_entry("tokenizer.ggml.model"@, "gpt2"@);
    lookup_text("tokenizer.ggml.model"@, "gpt2"@);
    let s1 = s0 + e1;
    lookup_both(s0, e1);
    let e2 = text_entry("tokenizer.ggml.pre"@, "qwen35"@);
    lookup_text("tokenizer.ggml.pre"@, "qwen35"@);
    let s2 = s1 + e2;
    lookup_both(s1, e2);
    let e3 = one("tokenizer.ggml.tokens"@, ValueView::ArrStr(tokens));
    lookup_one("tokenizer.ggml.tokens"@, ValueView::ArrStr(tokens));
    let s3 = s2 + e3;
    lookup_both(s2, e3);
    let e4 = one("tokenizer.ggml.token_type"@, ValueView::ArrI32(types));
    lookup_one("tokenizer.ggml.token_type"@, ValueView::ArrI32(types));
    let s4 = s3 + e4;
    lookup_both(s3, e4);
    let e5 = one("tokenizer.ggml.merges"@, ValueView::ArrStr(merges));
    lookup_one("tokenizer.ggml.merges"@, ValueView::ArrStr(merges));
    let s5 = s4 + e5;
    lookup_both(s4, e5);
    let e6 = id_entries(ids, ids.len() as int);
    let s6 = s5 + e6;
    lookup_both(s5, e6);
    let e7 = text_entry_if("tokenizer.chat_template"@, template);
    lookup_text_if("tokenizer.chat_template"@, template);
    let s7 = s6 + e7;
    lookup_both(s6, e7);
    assert(vocab_entries(tokens, types, merges, ids, template) == s7);
}

} // verus!
