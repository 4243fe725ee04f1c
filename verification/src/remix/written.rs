//! Laws of the metadata of a converted checkpoint as they stand in its file.

use crate::gguf::laws::entry_is_found;
use crate::gguf::reader::lookup;
use crate::gguf::writer::distinct_keys;
use crate::gguf::ValueView;
use crate::ieee::convert::cut_product;
use crate::json::JsonView;
use crate::metadata::{one, text_entry, text_entry_if};
use crate::remix::card::card_of;
use crate::remix::config::{or_empty, param_at};
use crate::remix::kvs::{
    attention_interval, base_entries, base_key, base_section, bases_entries, card_entries,
    card_or_null, cut_entry, heads_of, license_entry, list_entry, name_entries, names_of,
    nextn_layers, rope_of, rotated_part, sampling_entries, section_entry, shape_entries,
    signed_entry, single_entry, sizes_of, texts_of, vocab_entries, NameView,
};
use crate::remix::lookups::{
    as_f32, as_text, as_u32, four_sections, further_layers, lookup_both, lookup_text, rope,
    shape_is_told, whole, Entries,
};
use crate::remix::meta::{components, size_label_text};
use crate::remix::run::entries_of;
use crate::remix::told::{bases, id_of, is_kind, says, the_tokenizer_is_told, titled_if};
use crate::remix::vocab::{json_or_none, Vocab};
use crate::text::{decimal, views};
use vstd::prelude::*;

verus! {

/// What the metadata of a checkpoint are made of.
pub struct Told<'a> {
    /// `config.json`.
    pub root: JsonView,
    /// `README.md`.
    pub readme: Option<&'a str>,
    /// `generation_config.json`.
    pub generation: Option<&'a [u8]>,
    /// The name of the directory.
    pub dir: Seq<char>,
    /// The number of parameters.
    pub total: u64,
    pub vocab: Vocab,
    /// The ids of special tokens.
    pub ids: Seq<(Seq<char>, u32)>,
    pub template: Option<Seq<char>>,
}

impl<'a> Told<'a> {
    /// The metadata.
    pub open spec fn kvs(self) -> Entries {
        entries_of(
            self.root,
            self.readme,
            self.generation,
            self.dir,
            self.total,
            self.vocab,
            self.ids,
            self.template,
        )->Ok_0
    }

    /// Whether there are metadata that a file can have.
    pub open spec fn written(self) -> bool {
        &&& entries_of(
            self.root,
            self.readme,
            self.generation,
            self.dir,
            self.total,
            self.vocab,
            self.ids,
            self.template,
        ) is Ok
        &&& distinct_keys(self.kvs())
    }

    /// The model card, if there is one.
    pub open spec fn card(self) -> Option<JsonView> {
        match self.readme {
            Some(s) => card_of(s@)->Ok_0,
            None => None,
        }
    }

    /// The entries for sampling.
    pub open spec fn sampling(self) -> Entries {
        match json_or_none(self.generation) {
            Some(g) => sampling_entries(g),
            None => Seq::empty(),
        }
    }

    /// The entries for the model's name.
    pub open spec fn names(self) -> Entries {
        name_entries(
            names_of(
                card_or_null(self.card()),
                or_empty(param_at(self.root, "_name_or_path"@).as_str()),
                self.dir,
                self.total as i64,
            ),
            self.dir,
            self.total,
        )
    }

    /// The entries for what the card says.
    pub open spec fn of_card(self) -> Entries {
        match self.card() {
            Some(c) => card_entries(c, self.total as i64)->Ok_0,
            None => Seq::empty(),
        }
    }

    /// The entries for the tokenizer.
    pub open spec fn tokenizer(self) -> Entries {
        vocab_entries(
            views(self.vocab.tokens@),
            self.vocab.token_types@,
            views(self.vocab.merges@),
            self.ids,
            self.template,
        )
    }
}

/// Whether all entries of a list are in another.
spec fn inside(kvs: Entries, part: Entries) -> bool {
    forall|i: int| 0 <= i < part.len() ==> kvs.contains(#[trigger] part[i])
}

/// What is found in a list is an entry of it.
proof fn found_is_there(kvs: Entries, key: Seq<char>)
    requires
        lookup(kvs, key) is Some,
    ensures
        kvs.contains((key, lookup(kvs, key)->0)),
    decreases kvs.len(),
{
    if kvs[0].0 == key {
        assert(kvs[0] == (key, lookup(kvs, key)->0));
    } else {
        let rest = kvs.drop_first();
        found_is_there(rest, key);
        let i = choose|i: int| 0 <= i < rest.len() && rest[i] == (key, lookup(rest, key)->0);
        assert(kvs[i + 1] == rest[i]);
    }
}

/// What is found in a part is found in the whole.
proof fn found_in_part(kvs: Entries, part: Entries, key: Seq<char>)
    requires
        distinct_keys(kvs),
        inside(kvs, part),
        lookup(part, key) is Some,
    ensures
        lookup(kvs, key) == lookup(part, key),
{
    found_is_there(part, key);
    let kv = (key, lookup(part, key)->0);
    let i = choose|i: int| 0 <= i < part.len() && part[i] == kv;
    assert(kvs.contains(part[i]));
    entry_is_found(kvs, kv);
}

/// The parts of the metadata.
proof fn parts_are_inside(t: Told)
    requires
        t.written(),
    ensures
        inside(t.kvs(), text_entry("general.architecture"@, "qwen35"@)),
        inside(t.kvs(), text_entry("general.type"@, "model"@)),
        inside(t.kvs(), t.sampling()),
        inside(t.kvs(), t.names()),
        inside(t.kvs(), t.of_card()),
        inside(t.kvs(), shape_entries(t.root)),
        inside(t.kvs(), t.tokenizer()),
{
    let kvs = t.kvs();
    let a = text_entry("general.architecture"@, "qwen35"@);
    let b = text_entry("general.type"@, "model"@);
    let c = t.sampling();
    let d = t.names();
    let e = t.of_card();
    let f = shape_entries(t.root);
    let g = t.tokenizer();
    let n2 = (a.len() + b.len()) as int;
    let n3 = n2 + c.len();
    let n4 = n3 + d.len();
    let n5 = n4 + e.len();
    let n6 = n5 + f.len();
    assert(kvs == Seq::empty() + a + b + c + d + e + f + g);
    assert forall|i: int| 0 <= i < a.len() implies kvs.contains(#[trigger] a[i]) by {
        assert(kvs[i] == a[i]);
    }
    assert forall|i: int| 0 <= i < b.len() implies kvs.contains(#[trigger] b[i]) by {
        assert(kvs[a.len() + i] == b[i]);
    }
    assert forall|i: int| 0 <= i < c.len() implies kvs.contains(#[trigger] c[i]) by {
        assert(kvs[n2 + i] == c[i]);
    }
    assert forall|i: int| 0 <= i < d.len() implies kvs.contains(#[trigger] d[i]) by {
        assert(kvs[n3 + i] == d[i]);
    }
    assert forall|i: int| 0 <= i < e.len() implies kvs.contains(#[trigger] e[i]) by {
        assert(kvs[n4 + i] == e[i]);
    }
    assert forall|i: int| 0 <= i < f.len() implies kvs.contains(#[trigger] f[i]) by {
        assert(kvs[n5 + i] == f[i]);
    }
    assert forall|i: int| 0 <= i < g.len() implies kvs.contains(#[trigger] g[i]) by {
        assert(kvs[n6 + i] == g[i]);
    }
}

/// What each part has under a key, the file has under it too.
pub proof fn the_file_tells_all(t: Told, key: Seq<char>)
    requires
        t.written(),
    ensures
        lookup(t.sampling(), key) is Some ==> lookup(t.kvs(), key) == lookup(t.sampling(), key),
        lookup(t.names(), key) is Some ==> lookup(t.kvs(), key) == lookup(t.names(), key),
        lookup(t.of_card(), key) is Some ==> lookup(t.kvs(), key) == lookup(t.of_card(), key),
        lookup(shape_entries(t.root), key) is Some ==> lookup(t.kvs(), key) == lookup(
            shape_entries(t.root),
            key,
        ),
        lookup(t.tokenizer(), key) is Some ==> lookup(t.kvs(), key) == lookup(t.tokenizer(), key),
{
    parts_are_inside(t);
    if lookup(t.sampling(), key) is Some {
        found_in_part(t.kvs(), t.sampling(), key);
    }
    if lookup(t.names(), key) is Some {
        found_in_part(t.kvs(), t.names(), key);
    }
    if lookup(t.of_card(), key) is Some {
        found_in_part(t.kvs(), t.of_card(), key);
    }
    if lookup(shape_entries(t.root), key) is Some {
        found_in_part(t.kvs(), shape_entries(t.root), key);
    }
    if lookup(t.tokenizer(), key) is Some {
        found_in_part(t.kvs(), t.tokenizer(), key);
    }
}

/// The file is one of a model of this architecture.
pub proof fn the_file_tells_the_architecture(t: Told)
    requires
        t.written(),
    ensures
        lookup(t.kvs(), "general.architecture"@) == Some(ValueView::Str("qwen35"@)),
        lookup(t.kvs(), "general.type"@) == Some(ValueView::Str("model"@)),
{
    reveal_strlit("qwen35");
    reveal_strlit("model");
    parts_are_inside(t);
    lookup_text("general.architecture"@, "qwen35"@);
    lookup_text("general.type"@, "model"@);
    found_in_part(
        t.kvs(),
        text_entry("general.architecture"@, "qwen35"@),
        "general.architecture"@,
    );
    found_in_part(t.kvs(), text_entry("general.type"@, "model"@), "general.type"@);
}

/// Each parameter of the model's shape is found in the file under its own key.
#[verifier::spinoff_prover]
pub proof fn the_file_tells_the_shape(t: Told)
    requires
        t.written(),
    ensures
        ({
            let e = t.kvs();
            let root = t.root;
            &&& lookup(e, "qwen35.block_count"@) == as_u32(whole(root, "num_hidden_layers"@) + further_layers(root))
            &&& lookup(e, "qwen35.context_length"@) == as_u32(whole(root, "max_position_embeddings"@))
            &&& lookup(e, "qwen35.embedding_length"@) == as_u32(whole(root, "hidden_size"@))
            &&& lookup(e, "qwen35.feed_forward_length"@) == as_u32(whole(root, "intermediate_size"@))
            &&& lookup(e, "qwen35.attention.head_count"@) == as_u32(whole(root, "num_attention_heads"@))
            &&& lookup(e, "qwen35.attention.head_count_kv"@) == as_u32(whole(root, "num_key_value_heads"@))
            &&& (match rope(root).at("mrope_section"@).as_arr() {
                Some(a) => Some(ValueView::ArrI32(four_sections(a))),
                None => None,
            }) is Some ==> lookup(e, "qwen35.rope.dimension_sections"@) == match rope(root).at("mrope_section"@).as_arr() {
                Some(a) => Some(ValueView::ArrI32(four_sections(a))),
                None => None,
            }
            &&& (as_f32(rope(root).at("rope_theta"@).as_real())) is Some ==> lookup(e, "qwen35.rope.freq_base"@) == as_f32(rope(root).at("rope_theta"@).as_real())
            &&& lookup(e, "qwen35.attention.layer_norm_rms_epsilon"@) == as_f32(
                param_at(root, "rms_norm_eps"@).as_real(),
            )
            &&& lookup(e, "qwen35.attention.key_length"@) == as_u32(whole(root, "head_dim"@))
            &&& lookup(e, "qwen35.attention.value_length"@) == as_u32(whole(root, "head_dim"@))
            &&& lookup(e, "general.file_type"@) == as_u32(1)
            &&& lookup(e, "qwen35.ssm.conv_kernel"@) == as_u32(whole(root, "linear_conv_kernel_dim"@))
            &&& lookup(e, "qwen35.ssm.state_size"@) == as_u32(whole(root, "linear_key_head_dim"@))
            &&& lookup(e, "qwen35.ssm.group_count"@) == as_u32(whole(root, "linear_num_key_heads"@))
            &&& lookup(e, "qwen35.ssm.time_step_rank"@) == as_u32(whole(root, "linear_num_value_heads"@))
            &&& lookup(e, "qwen35.ssm.inner_size"@) == as_u32(
                whole(root, "linear_value_head_dim"@) * whole(root, "linear_num_value_heads"@),
            )
            &&& lookup(e, "qwen35.full_attention_interval"@) == as_u32(
                match param_at(root, "full_attention_interval"@).as_unsigned() {
                    Some(x) => x as int,
                    None => 4,
                },
            )
            &&& lookup(e, "qwen35.rope.dimension_count"@) == Some(
                ValueView::U32(
                    cut_product(
                        whole(root, "head_dim"@) as u64,
                        match param_at(root, "partial_rotary_factor"@).as_real() {
                            Some(x) => x,
                            None => 0x3fd0_0000_0000_0000,
                        },
                    ),
                ),
            )
            &&& ((if further_layers(root) > 0 {
                as_u32(further_layers(root))
            } else {
                None
            })) is Some ==> lookup(e, "qwen35.nextn_predict_layers"@) == (if further_layers(root) > 0 {
                as_u32(further_layers(root))
            } else {
                None
            })
            &&& lookup(e, "general.quantization_version"@) == as_u32(2)
        }),
{
    shape_is_told(t.root);
    the_file_tells_all(t, "qwen35.block_count"@);
    the_file_tells_all(t, "qwen35.context_length"@);
    the_file_tells_all(t, "qwen35.embedding_length"@);
    the_file_tells_all(t, "qwen35.feed_forward_length"@);
    the_file_tells_all(t, "qwen35.attention.head_count"@);
    the_file_tells_all(t, "qwen35.attention.head_count_kv"@);
    the_file_tells_all(t, "qwen35.rope.dimension_sections"@);
    the_file_tells_all(t, "qwen35.rope.freq_base"@);
    the_file_tells_all(t, "qwen35.attention.layer_norm_rms_epsilon"@);
    the_file_tells_all(t, "qwen35.attention.key_length"@);
    the_file_tells_all(t, "qwen35.attention.value_length"@);
    the_file_tells_all(t, "general.file_type"@);
    the_file_tells_all(t, "qwen35.ssm.conv_kernel"@);
    the_file_tells_all(t, "qwen35.ssm.state_size"@);
    the_file_tells_all(t, "qwen35.ssm.group_count"@);
    the_file_tells_all(t, "qwen35.ssm.time_step_rank"@);
    the_file_tells_all(t, "qwen35.ssm.inner_size"@);
    the_file_tells_all(t, "qwen35.full_attention_interval"@);
    the_file_tells_all(t, "qwen35.rope.dimension_count"@);
    the_file_tells_all(t, "qwen35.nextn_predict_layers"@);
    the_file_tells_all(t, "general.quantization_version"@);
}

/// Whether no key is one of a tokenizer.
spec fn apart(e: Entries) -> bool {
    forall|i: int| 0 <= i < e.len() ==> (#[trigger] e[i]).0.len() > 0 && e[i].0[0] != 't'
}

/// Two lists without a key of a tokenizer make one.
proof fn both_apart(a: Entries, b: Entries)
    requires
        apart(a),
        apart(b),
    ensures
        apart(a + b),
{
}

/// A list without a key of a tokenizer has nothing under one.
proof fn nothing_under(e: Entries, key: Seq<char>)
    requires
        apart(e),
        key.len() > 0,
        key[0] == 't',
    ensures
        lookup(e, key) is None,
    decreases e.len(),
{
    if e.len() > 0 {
        let rest = e.drop_first();
        assert forall|i: int| 0 <= i < rest.len() implies (#[trigger] rest[i]).0.len() > 0
            && rest[i].0[0] != 't' by {
            assert(rest[i] == e[i + 1]);
        }
        nothing_under(rest, key);
    }
}

/// No key of this section is one of a tokenizer.
#[verifier::spinoff_prover]
proof fn sampling_is_apart(g: JsonView)
    ensures
        apart(sampling_entries(g)),
{
    let s0 = Seq::<(Seq<char>, ValueView)>::empty();
    let e1 = text_entry_if("general.sampling.sequence"@, g.at("sequence"@).as_str());
    assert(apart(e1)) by {
        reveal_strlit("general.sampling.sequence");
        assert("general.sampling.sequence"@.len() == 25 && "general.sampling.sequence"@[0] == 'g');
    }
    let s1 = s0 + e1;
    both_apart(s0, e1);
    let e2 = signed_entry("general.sampling.top_k"@, g.at("top_k"@).as_signed());
    assert(apart(e2)) by {
        reveal_strlit("general.sampling.top_k");
        assert("general.sampling.top_k"@.len() == 22 && "general.sampling.top_k"@[0] == 'g');
    }
    let s2 = s1 + e2;
    both_apart(s1, e2);
    let e3 = single_entry("general.sampling.top_p"@, g.at("top_p"@).as_real());
    assert(apart(e3)) by {
        reveal_strlit("general.sampling.top_p");
        assert("general.sampling.top_p"@.len() == 22 && "general.sampling.top_p"@[0] == 'g');
    }
    let s3 = s2 + e3;
    both_apart(s2, e3);
    let e4 = single_entry("general.sampling.min_p"@, g.at("min_p"@).as_real());
    assert(apart(e4)) by {
        reveal_strlit("general.sampling.min_p");
        assert("general.sampling.min_p"@.len() == 22 && "general.sampling.min_p"@[0] == 'g');
    }
    let s4 = s3 + e4;
    both_apart(s3, e4);
    let e5 = single_entry("general.sampling.xtc_probability"@, g.at("xtc_probability"@).as_real());
    assert(apart(e5)) by {
        reveal_strlit("general.sampling.xtc_probability");
        assert("general.sampling.xtc_probability"@.len() == 32 && "general.sampling.xtc_probability"@[0] == 'g');
    }
    let s5 = s4 + e5;
    both_apart(s4, e5);
    let e6 = single_entry("general.sampling.xtc_threshold"@, g.at("xtc_threshold"@).as_real());
    assert(apart(e6)) by {
        reveal_strlit("general.sampling.xtc_threshold");
        assert("general.sampling.xtc_threshold"@.len() == 30 && "general.sampling.xtc_threshold"@[0] == 'g');
    }
    let s6 = s5 + e6;
    both_apart(s5, e6);
    let e7 = single_entry("general.sampling.temp"@, g.at("temperature"@).as_real());
    assert(apart(e7)) by {
        reveal_strlit("general.sampling.temp");
        assert("general.sampling.temp"@.len() == 21 && "general.sampling.temp"@[0] == 'g');
    }
    let s7 = s6 + e7;
    both_apart(s6, e7);
    let e8 = signed_entry("general.sampling.penalty_last_n"@, g.at("penalty_last_n"@).as_signed());
    assert(apart(e8)) by {
        reveal_strlit("general.sampling.penalty_last_n");
        assert("general.sampling.penalty_last_n"@.len() == 31 && "general.sampling.penalty_last_n"@[0] == 'g');
    }
    let s8 = s7 + e8;
    both_apart(s7, e8);
    let e9 = single_entry("general.sampling.penalty_repeat"@, g.at("penalty_repeat"@).as_real());
    assert(apart(e9)) by {
        reveal_strlit("general.sampling.penalty_repeat");
        assert("general.sampling.penalty_repeat"@.len() == 31 && "general.sampling.penalty_repeat"@[0] == 'g');
    }
    let s9 = s8 + e9;
    both_apart(s8, e9);
    let e10 = signed_entry("general.sampling.mirostat"@, g.at("mirostat"@).as_signed());
    assert(apart(e10)) by {
        reveal_strlit("general.sampling.mirostat");
        assert("general.sampling.mirostat"@.len() == 25 && "general.sampling.mirostat"@[0] == 'g');
    }
    let s10 = s9 + e10;
    both_apart(s9, e10);
    let e11 = single_entry("general.sampling.mirostat_tau"@, g.at("mirostat_tau"@).as_real());
    assert(apart(e11)) by {
        reveal_strlit("general.sampling.mirostat_tau");
        assert("general.sampling.mirostat_tau"@.len() == 29 && "general.sampling.mirostat_tau"@[0] == 'g');
    }
    let s11 = s10 + e11;
    both_apart(s10, e11);
    let e12 = single_entry("general.sampling.mirostat_eta"@, g.at("mirostat_eta"@).as_real());
    assert(apart(e12)) by {
        reveal_strlit("general.sampling.mirostat_eta");
        assert("general.sampling.mirostat_eta"@.len() == 29 && "general.sampling.mirostat_eta"@[0] == 'g');
    }
    let s12 = s11 + e12;
    both_apart(s11, e12);
    assert(sampling_entries(g) == s12);
}

/// No key of this section is one of a tokenizer.
#[verifier::spinoff_prover]
proof fn shape_is_apart(root: JsonView)
    ensures
        apart(shape_entries(root)),
{
    let m = sizes_of(root);
    let h = heads_of(root);
    let s0 = Seq::<(Seq<char>, ValueView)>::empty();
    let e1 = cut_entry("qwen35.block_count"@, (m.num_hidden_layers + nextn_layers(root)) as u64);
    assert(apart(e1)) by {
        reveal_strlit("qwen35.block_count");
        assert("qwen35.block_count"@.len() == 18 && "qwen35.block_count"@[0] == 'q');
    }
    let s1 = s0 + e1;
    both_apart(s0, e1);
    let e2 = cut_entry("qwen35.context_length"@, m.max_position_embeddings);
    assert(apart(e2)) by {
        reveal_strlit("qwen35.context_length");
        assert("qwen35.context_length"@.len() == 21 && "qwen35.context_length"@[0] == 'q');
    }
    let s2 = s1 + e2;
    both_apart(s1, e2);
    let e3 = cut_entry("qwen35.embedding_length"@, m.hidden_size);
    assert(apart(e3)) by {
        reveal_strlit("qwen35.embedding_length");
        assert("qwen35.embedding_length"@.len() == 23 && "qwen35.embedding_length"@[0] == 'q');
    }
    let s3 = s2 + e3;
    both_apart(s2, e3);
    let e4 = cut_entry("qwen35.feed_forward_length"@, m.intermediate_size);
    assert(apart(e4)) by {
        reveal_strlit("qwen35.feed_forward_length");
        assert("qwen35.feed_forward_length"@.len() == 26 && "qwen35.feed_forward_length"@[0] == 'q');
    }
    let s4 = s3 + e4;
    both_apart(s3, e4);
    let e5 = cut_entry("qwen35.attention.head_count"@, m.num_attention_heads);
    assert(apart(e5)) by {
        reveal_strlit("qwen35.attention.head_count");
        assert("qwen35.attention.head_count"@.len() == 27 && "qwen35.attention.head_count"@[0] == 'q');
    }
    let s5 = s4 + e5;
    both_apart(s4, e5);
    let e6 = cut_entry("qwen35.attention.head_count_kv"@, m.num_key_value_heads);
    assert(apart(e6)) by {
        reveal_strlit("qwen35.attention.head_count_kv");
        assert("qwen35.attention.head_count_kv"@.len() == 30 && "qwen35.attention.head_count_kv"@[0] == 'q');
    }
    let s6 = s5 + e6;
    both_apart(s5, e6);
    let e7 = section_entry(rope_of(root));
    assert(apart(e7)) by {
        reveal_strlit("qwen35.rope.dimension_sections");
        assert("qwen35.rope.dimension_sections"@.len() == 30 && "qwen35.rope.dimension_sections"@[0] == 'q');
    }
    let s7 = s6 + e7;
    both_apart(s6, e7);
    let e8 = single_entry("qwen35.rope.freq_base"@, rope_of(root).at("rope_theta"@).as_real());
    assert(apart(e8)) by {
        reveal_strlit("qwen35.rope.freq_base");
        assert("qwen35.rope.freq_base"@.len() == 21 && "qwen35.rope.freq_base"@[0] == 'q');
    }
    let s8 = s7 + e8;
    both_apart(s7, e8);
    let e9 = single_entry("qwen35.attention.layer_norm_rms_epsilon"@, Some(h.rms_norm_eps));
    assert(apart(e9)) by {
        reveal_strlit("qwen35.attention.layer_norm_rms_epsilon");
        assert("qwen35.attention.layer_norm_rms_epsilon"@.len() == 39 && "qwen35.attention.layer_norm_rms_epsilon"@[0] == 'q');
    }
    let s9 = s8 + e9;
    both_apart(s8, e9);
    let e10 = cut_entry("qwen35.attention.key_length"@, h.head_dim);
    assert(apart(e10)) by {
        reveal_strlit("qwen35.attention.key_length");
        assert("qwen35.attention.key_length"@.len() == 27 && "qwen35.attention.key_length"@[0] == 'q');
    }
    let s10 = s9 + e10;
    both_apart(s9, e10);
    let e11 = cut_entry("qwen35.attention.value_length"@, h.head_dim);
    assert(apart(e11)) by {
        reveal_strlit("qwen35.attention.value_length");
        assert("qwen35.attention.value_length"@.len() == 29 && "qwen35.attention.value_length"@[0] == 'q');
    }
    let s11 = s10 + e11;
    both_apart(s10, e11);
    let e12 = cut_entry("general.file_type"@, 1);
    assert(apart(e12)) by {
        reveal_strlit("general.file_type");
        assert("general.file_type"@.len() == 17 && "general.file_type"@[0] == 'g');
    }
    let s12 = s11 + e12;
    both_apart(s11, e12);
    let e13 = cut_entry("qwen35.ssm.conv_kernel"@, h.linear_conv_kernel_dim);
    assert(apart(e13)) by {
        reveal_strlit("qwen35.ssm.conv_kernel");
        assert("qwen35.ssm.conv_kernel"@.len() == 22 && "qwen35.ssm.conv_kernel"@[0] == 'q');
    }
    let s13 = s12 + e13;
    both_apart(s12, e13);
    let e14 = cut_entry("qwen35.ssm.state_size"@, h.linear_key_head_dim);
    assert(apart(e14)) by {
        reveal_strlit("qwen35.ssm.state_size");
        assert("qwen35.ssm.state_size"@.len() == 21 && "qwen35.ssm.state_size"@[0] == 'q');
    }
    let s14 = s13 + e14;
    both_apart(s13, e14);
    let e15 = cut_entry("qwen35.ssm.group_count"@, h.linear_num_key_heads);
    assert(apart(e15)) by {
        reveal_strlit("qwen35.ssm.group_count");
        assert("qwen35.ssm.group_count"@.len() == 22 && "qwen35.ssm.group_count"@[0] == 'q');
    }
    let s15 = s14 + e15;
    both_apart(s14, e15);
    let e16 = cut_entry("qwen35.ssm.time_step_rank"@, h.linear_num_value_heads);
    assert(apart(e16)) by {
        reveal_strlit("qwen35.ssm.time_step_rank");
        assert("qwen35.ssm.time_step_rank"@.len() == 25 && "qwen35.ssm.time_step_rank"@[0] == 'q');
    }
    let s16 = s15 + e16;
    both_apart(s15, e16);
    let e17 = cut_entry(
        "qwen35.ssm.inner_size"@,
        (h.linear_value_head_dim * h.linear_num_value_heads) as u64,
    );
    assert(apart(e17)) by {
        reveal_strlit("qwen35.ssm.inner_size");
        assert("qwen35.ssm.inner_size"@.len() == 21 && "qwen35.ssm.inner_size"@[0] == 'q');
    }
    let s17 = s16 + e17;
    both_apart(s16, e17);
    let e18 = cut_entry("qwen35.full_attention_interval"@, attention_interval(root));
    assert(apart(e18)) by {
        reveal_strlit("qwen35.full_attention_interval");
        assert("qwen35.full_attention_interval"@.len() == 30 && "qwen35.full_attention_interval"@[0] == 'q');
    }
    let s18 = s17 + e18;
    both_apart(s17, e18);
    let e19 = one(
        "qwen35.rope.dimension_count"@,
        ValueView::U32(cut_product(h.head_dim, rotated_part(root))),
    );
    assert(apart(e19)) by {
        reveal_strlit("qwen35.rope.dimension_count");
        assert("qwen35.rope.dimension_count"@.len() == 27 && "qwen35.rope.dimension_count"@[0] == 'q');
    }
    let s19 = s18 + e19;
    both_apart(s18, e19);
    let e20 = if nextn_layers(root) > 0 {
        cut_entry("qwen35.nextn_predict_layers"@, nextn_layers(root))
    } else {
        Seq::empty()
    };
    assert(apart(e20)) by {
        reveal_strlit("qwen35.nextn_predict_layers");
        assert("qwen35.nextn_predict_layers"@.len() == 27 && "qwen35.nextn_predict_layers"@[0] == 'q');
    }
    let s20 = s19 + e20;
    both_apart(s19, e20);
    let e21 = cut_entry("general.quantization_version"@, 2);
    assert(apart(e21)) by {
        reveal_strlit("general.quantization_version");
        assert("general.quantization_version"@.len() == 28 && "general.quantization_version"@[0] == 'g');
    }
    let s21 = s20 + e21;
    both_apart(s20, e21);
    assert(shape_entries(root) == s21);
}

/// No key of this section is one of a tokenizer.
#[verifier::spinoff_prover]
proof fn names_are_apart(m: NameView, dir: Seq<char>, total: u64)
    ensures
        apart(name_entries(m, dir, total)),
{
    let s0 = Seq::<(Seq<char>, ValueView)>::empty();
    let e1 = text_entry("general.name"@, match m.name {
        Some(s) => s,
        None => dir,
    });
    assert(apart(e1)) by {
        reveal_strlit("general.name");
        assert("general.name"@.len() == 12 && "general.name"@[0] == 'g');
    }
    let s1 = s0 + e1;
    both_apart(s0, e1);
    let e2 = text_entry_if("general.author"@, m.author);
    assert(apart(e2)) by {
        reveal_strlit("general.author");
        assert("general.author"@.len() == 14 && "general.author"@[0] == 'g');
    }
    let s2 = s1 + e2;
    both_apart(s1, e2);
    let e3 = text_entry_if("general.version"@, m.version);
    assert(apart(e3)) by {
        reveal_strlit("general.version");
        assert("general.version"@.len() == 15 && "general.version"@[0] == 'g');
    }
    let s3 = s2 + e3;
    both_apart(s2, e3);
    let e4 = text_entry_if("general.organization"@, m.organization);
    assert(apart(e4)) by {
        reveal_strlit("general.organization");
        assert("general.organization"@.len() == 20 && "general.organization"@[0] == 'g');
    }
    let s4 = s3 + e4;
    both_apart(s3, e4);
    let e5 = text_entry_if("general.finetune"@, m.finetune);
    assert(apart(e5)) by {
        reveal_strlit("general.finetune");
        assert("general.finetune"@.len() == 16 && "general.finetune"@[0] == 'g');
    }
    let s5 = s4 + e5;
    both_apart(s4, e5);
    let e6 = text_entry_if("general.basename"@, m.basename);
    assert(apart(e6)) by {
        reveal_strlit("general.basename");
        assert("general.basename"@.len() == 16 && "general.basename"@[0] == 'g');
    }
    let s6 = s5 + e6;
    both_apart(s5, e6);
    let e7 = text_entry_if("general.description"@, m.description);
    assert(apart(e7)) by {
        reveal_strlit("general.description");
        assert("general.description"@.len() == 19 && "general.description"@[0] == 'g');
    }
    let s7 = s6 + e7;
    both_apart(s6, e7);
    let e8 = text_entry(
        "general.size_label"@,
        match m.size_label {
            Some(s) => s,
            None => size_label_text(total),
        },
    );
    assert(apart(e8)) by {
        reveal_strlit("general.size_label");
        assert("general.size_label"@.len() == 18 && "general.size_label"@[0] == 'g');
    }
    let s8 = s7 + e8;
    both_apart(s7, e8);
    assert(name_entries(m, dir, total) == s8);
}

/// No key of a base model is one of a tokenizer.
proof fn base_is_apart(k: nat, id: Seq<char>, total: i64)
    ensures
        apart(base_entries(k, id, total)),
{
    reveal_strlit("general.base_model.");
    assert("general.base_model."@.len() == 19 && "general.base_model."@[0] == 'g');
    assert(base_key(k, ".name"@)[0] == 'g');
    assert(base_key(k, ".version"@)[0] == 'g');
    assert(base_key(k, ".organization"@)[0] == 'g');
    assert(base_key(k, ".repo_url"@)[0] == 'g');
}

/// No key of base models is one of a tokenizer.
proof fn bases_are_apart(ids: Seq<Seq<char>>, n: int, total: i64)
    ensures
        apart(bases_entries(ids, n, total)),
    decreases n,
{
    if n > 0 {
        bases_are_apart(ids, n - 1, total);
        base_is_apart((n - 1) as nat, ids[n - 1], total);
        both_apart(
            bases_entries(ids, n - 1, total),
            base_entries((n - 1) as nat, ids[n - 1], total),
        );
    }
}

/// No key of what a card says is one of a tokenizer.
#[verifier::spinoff_prover]
proof fn card_is_apart(card: JsonView, total: i64)
    requires
        card_entries(card, total) is Ok,
    ensures
        apart(card_entries(card, total)->Ok_0),
{
    let tags = texts_of(card.at("tags"@)) + texts_of(card.at("pipeline_tag"@));
    let languages = texts_of(card.at("languages"@)) + texts_of(card.at("language"@));
    assert(apart(base_section(card, total))) by {
        if let Some(ids) = bases(card) {
            reveal_strlit("general.base_model.count");
            assert("general.base_model.count"@.len() == 24);
            let first = one("general.base_model.count"@, ValueView::U32(ids.len() as u32));
            bases_are_apart(ids, ids.len() as int, total);
            assert(first[0].0[0] == 'g');
            both_apart(first, bases_entries(ids, ids.len() as int, total));
        }
    }
    let s0 = Seq::<(Seq<char>, ValueView)>::empty();
    let e1 = license_entry(card.at("license"@));
    assert(apart(e1)) by {
        reveal_strlit("general.license");
        assert("general.license"@.len() == 15 && "general.license"@[0] == 'g');
    }
    let s1 = s0 + e1;
    both_apart(s0, e1);
    let e2 = text_entry_if("general.license_name"@, says(card, "license_name"@));
    assert(apart(e2)) by {
        reveal_strlit("general.license_name");
        assert("general.license_name"@.len() == 20 && "general.license_name"@[0] == 'g');
    }
    let s2 = s1 + e2;
    both_apart(s1, e2);
    let e3 = text_entry_if("general.license_link"@, says(card, "license_link"@));
    assert(apart(e3)) by {
        reveal_strlit("general.license_link");
        assert("general.license_link"@.len() == 20 && "general.license_link"@[0] == 'g');
    }
    let s3 = s2 + e3;
    both_apart(s2, e3);
    let e4 = base_section(card, total);
    let s4 = s3 + e4;
    both_apart(s3, e4);
    let e5 = list_entry("general.tags"@, tags);
    assert(apart(e5)) by {
        reveal_strlit("general.tags");
        assert("general.tags"@.len() == 12 && "general.tags"@[0] == 'g');
    }
    let s5 = s4 + e5;
    both_apart(s4, e5);
    let e6 = list_entry("general.languages"@, languages);
    assert(apart(e6)) by {
        reveal_strlit("general.languages");
        assert("general.languages"@.len() == 17 && "general.languages"@[0] == 'g');
    }
    let s6 = s5 + e6;
    both_apart(s5, e6);
    assert(card_entries(card, total)->Ok_0 == s6);
}

/// Under a key of a tokenizer the file has just what the tokenizer has.
proof fn tokenizer_keys_are_its_own(t: Told, key: Seq<char>)
    requires
        t.written(),
        key.len() > 0,
        key[0] == 't',
    ensures
        lookup(t.kvs(), key) == lookup(t.tokenizer(), key),
{
    let a = text_entry("general.architecture"@, "qwen35"@);
    let b = text_entry("general.type"@, "model"@);
    let c = t.sampling();
    let d = t.names();
    let e = t.of_card();
    let f = shape_entries(t.root);
    let none = Seq::<(Seq<char>, ValueView)>::empty();
    assert(apart(a) && apart(b)) by {
        reveal_strlit("general.architecture");
        reveal_strlit("general.type");
        assert("general.architecture"@.len() == 20 && "general.type"@.len() == 12);
        assert("general.architecture"@[0] == 'g' && "general.type"@[0] == 'g');
    }
    if let Some(g) = json_or_none(t.generation) {
        sampling_is_apart(g);
    }
    names_are_apart(
        names_of(
            card_or_null(t.card()),
            or_empty(param_at(t.root, "_name_or_path"@).as_str()),
            t.dir,
            t.total as i64,
        ),
        t.dir,
        t.total,
    );
    if let Some(x) = t.card() {
        card_is_apart(x, t.total as i64);
    }
    shape_is_apart(t.root);
    both_apart(none, a);
    both_apart(none + a, b);
    both_apart(none + a + b, c);
    both_apart(none + a + b + c, d);
    both_apart(none + a + b + c + d, e);
    both_apart(none + a + b + c + d + e, f);
    let m = none + a + b + c + d + e + f;
    nothing_under(m, key);
    lookup_both(m, t.tokenizer());
    assert(t.kvs() == m + t.tokenizer());
}

/// Each part of the tokenizer is found in the file under its own key. A special
/// token's id is found under the key of its kind, and nothing is where there is
/// no id of the kind.
#[verifier::spinoff_prover]
pub proof fn the_file_tells_the_tokenizer(t: Told)
    requires
        t.written(),
        forall|i: int| 0 <= i < t.ids.len() ==> is_kind((#[trigger] t.ids[i]).0),
    ensures
        ({
            let e = t.kvs();
            &&& lookup(e, "tokenizer.ggml.model"@) == Some(ValueView::Str("gpt2"@))
            &&& lookup(e, "tokenizer.ggml.pre"@) == Some(ValueView::Str("qwen35"@))
            &&& lookup(e, "tokenizer.ggml.tokens"@) == Some(
                ValueView::ArrStr(views(t.vocab.tokens@)),
            )
            &&& lookup(e, "tokenizer.ggml.token_type"@) == Some(
                ValueView::ArrI32(t.vocab.token_types@),
            )
            &&& lookup(e, "tokenizer.ggml.merges"@) == Some(
                ValueView::ArrStr(views(t.vocab.merges@)),
            )
            &&& lookup(e, "tokenizer.ggml.bos_token_id"@) == id_of(t.ids, "bos"@)
            &&& lookup(e, "tokenizer.ggml.eos_token_id"@) == id_of(t.ids, "eos"@)
            &&& lookup(e, "tokenizer.ggml.unknown_token_id"@) == id_of(t.ids, "unk"@)
            &&& lookup(e, "tokenizer.ggml.seperator_token_id"@) == id_of(t.ids, "sep"@)
            &&& lookup(e, "tokenizer.ggml.padding_token_id"@) == id_of(t.ids, "pad"@)
            &&& lookup(e, "tokenizer.ggml.cls_token_id"@) == id_of(t.ids, "cls"@)
            &&& lookup(e, "tokenizer.ggml.mask_token_id"@) == id_of(t.ids, "mask"@)
            &&& lookup(e, "tokenizer.chat_template"@) == as_text(t.template)
        }),
{
    the_tokenizer_is_told(
        views(t.vocab.tokens@),
        t.vocab.token_types@,
        views(t.vocab.merges@),
        t.ids,
        t.template,
    );
    assert("tokenizer.ggml.model"@.len() > 0 && "tokenizer.ggml.model"@[0] == 't') by {
        reveal_strlit("tokenizer.ggml.model");
        assert("tokenizer.ggml.model"@.len() == 20);
    }
    tokenizer_keys_are_its_own(t, "tokenizer.ggml.model"@);
    assert("tokenizer.ggml.pre"@.len() > 0 && "tokenizer.ggml.pre"@[0] == 't') by {
        reveal_strlit("tokenizer.ggml.pre");
        assert("tokenizer.ggml.pre"@.len() == 18);
    }
    tokenizer_keys_are_its_own(t, "tokenizer.ggml.pre"@);
    assert("tokenizer.ggml.tokens"@.len() > 0 && "tokenizer.ggml.tokens"@[0] == 't') by {
        reveal_strlit("tokenizer.ggml.tokens");
        assert("tokenizer.ggml.tokens"@.len() == 21);
    }
    tokenizer_keys_are_its_own(t, "tokenizer.ggml.tokens"@);
    assert("tokenizer.ggml.token_type"@.len() > 0 && "tokenizer.ggml.token_type"@[0] == 't') by {
        reveal_strlit("tokenizer.ggml.token_type");
        assert("tokenizer.ggml.token_type"@.len() == 25);
    }
    tokenizer_keys_are_its_own(t, "tokenizer.ggml.token_type"@);
    assert("tokenizer.ggml.merges"@.len() > 0 && "tokenizer.ggml.merges"@[0] == 't') by {
        reveal_strlit("tokenizer.ggml.merges");
        assert("tokenizer.ggml.merges"@.len() == 21);
    }
    tokenizer_keys_are_its_own(t, "tokenizer.ggml.merges"@);
    assert("tokenizer.chat_template"@.len() > 0 && "tokenizer.chat_template"@[0] == 't') by {
        reveal_strlit("tokenizer.chat_template");
        assert("tokenizer.chat_template"@.len() == 23);
    }
    tokenizer_keys_are_its_own(t, "tokenizer.chat_template"@);
    assert("tokenizer.ggml.bos_token_id"@.len() > 0 && "tokenizer.ggml.bos_token_id"@[0] == 't') by {
        reveal_strlit("tokenizer.ggml.bos_token_id");
        assert("tokenizer.ggml.bos_token_id"@.len() == 27);
    }
    tokenizer_keys_are_its_own(t, "tokenizer.ggml.bos_token_id"@);
    assert("tokenizer.ggml.eos_token_id"@.len() > 0 && "tokenizer.ggml.eos_token_id"@[0] == 't') by {
        reveal_strlit("tokenizer.ggml.eos_token_id");
        assert("tokenizer.ggml.eos_token_id"@.len() == 27);
    }
    tokenizer_keys_are_its_own(t, "tokenizer.ggml.eos_token_id"@);
    assert("tokenizer.ggml.unknown_token_id"@.len() > 0 && "tokenizer.ggml.unknown_token_id"@[0] == 't') by {
        reveal_strlit("tokenizer.ggml.unknown_token_id");
        assert("tokenizer.ggml.unknown_token_id"@.len() == 31);
    }
    tokenizer_keys_are_its_own(t, "tokenizer.ggml.unknown_token_id"@);
    assert("tokenizer.ggml.seperator_token_id"@.len() > 0 && "tokenizer.ggml.seperator_token_id"@[0] == 't') by {
        reveal_strlit("tokenizer.ggml.seperator_token_id");
        assert("tokenizer.ggml.seperator_token_id"@.len() == 33);
    }
    tokenizer_keys_are_its_own(t, "tokenizer.ggml.seperator_token_id"@);
    assert("tokenizer.ggml.padding_token_id"@.len() > 0 && "tokenizer.ggml.padding_token_id"@[0] == 't') by {
        reveal_strlit("tokenizer.ggml.padding_token_id");
        assert("tokenizer.ggml.padding_token_id"@.len() == 31);
    }
    tokenizer_keys_are_its_own(t, "tokenizer.ggml.padding_token_id"@);
    assert("tokenizer.ggml.cls_token_id"@.len() > 0 && "tokenizer.ggml.cls_token_id"@[0] == 't') by {
        reveal_strlit("tokenizer.ggml.cls_token_id");
        assert("tokenizer.ggml.cls_token_id"@.len() == 27);
    }
    tokenizer_keys_are_its_own(t, "tokenizer.ggml.cls_token_id"@);
    assert("tokenizer.ggml.mask_token_id"@.len() > 0 && "tokenizer.ggml.mask_token_id"@[0] == 't') by {
        reveal_strlit("tokenizer.ggml.mask_token_id");
        assert("tokenizer.ggml.mask_token_id"@.len() == 28);
    }
    tokenizer_keys_are_its_own(t, "tokenizer.ggml.mask_token_id"@);
}

/// The entries of base model `k` are among those of all.
proof fn base_is_inside(ids: Seq<Seq<char>>, n: int, total: i64, k: int)
    requires
        0 <= k < n,
    ensures
        inside(bases_entries(ids, n, total), base_entries(k as nat, ids[k], total)),
    decreases n,
{
    let all = bases_entries(ids, n, total);
    let front = bases_entries(ids, n - 1, total);
    let last = base_entries((n - 1) as nat, ids[n - 1], total);
    let part = base_entries(k as nat, ids[k], total);
    if k < n - 1 {
        base_is_inside(ids, n - 1, total, k);
    }
    assert forall|i: int| 0 <= i < part.len() implies all.contains(#[trigger] part[i]) by {
        if k < n - 1 {
            let j = choose|j: int| 0 <= j < front.len() && front[j] == part[i];
            assert(all[j] == part[i]);
        } else {
            assert(all[front.len() + i] == last[i]);
        }
    }
}

/// What a base model's id tells is found in the file under the model's number:
/// its title, its version, the title of its organization, and where it is.
pub proof fn the_file_tells_base_models(t: Told, k: int)
    requires
        t.written(),
        t.card() is Some,
        bases(t.card()->0) is Some,
        0 <= k < bases(t.card()->0)->0.len(),
    ensures
        ({
            let e = t.kvs();
            let c = components(bases(t.card()->0)->0[k], t.total as i64);
            let key = "general.base_model."@ + decimal(k as nat);
            &&& as_text(titled_if(c.model_full_name)) is Some ==> lookup(e, key + ".name"@)
                == as_text(titled_if(c.model_full_name))
            &&& as_text(c.version) is Some ==> lookup(e, key + ".version"@) == as_text(c.version)
            &&& as_text(titled_if(c.org)) is Some ==> lookup(e, key + ".organization"@) == as_text(
                titled_if(c.org),
            )
            &&& c.org is Some && c.model_full_name is Some ==> lookup(e, key + ".repo_url"@)
                == Some(
                ValueView::Str("https://huggingface.co/"@ + c.org->0 + "/"@ + c.model_full_name->0),
            )
        }),
{
    let card = t.card()->0;
    let total = t.total as i64;
    let ids = bases(card)->0;
    let n = ids.len() as int;
    let c = components(ids[k], total);
    let part = base_entries(k as nat, ids[k], total);
    let all = bases_entries(ids, n, total);
    let kvs = t.kvs();
    parts_are_inside(t);
    base_is_inside(ids, n, total, k);
    let section = base_section(card, total);
    let whole_card = t.of_card();
    assert forall|i: int| 0 <= i < part.len() implies kvs.contains(#[trigger] part[i]) by {
        let j = choose|j: int| 0 <= j < all.len() && all[j] == part[i];
        assert(section[1 + j] == all[j]);
        let a = license_entry(card.at("license"@));
        let b = text_entry_if("general.license_name"@, says(card, "license_name"@));
        let d = text_entry_if("general.license_link"@, says(card, "license_link"@));
        assert(whole_card[a.len() + b.len() + d.len() + 1 + j] == section[1 + j]);
    }
    let url = match (c.org, c.model_full_name) {
        (Some(org), Some(full)) => Some("https://huggingface.co/"@ + org + "/"@ + full),
        _ => None,
    };
    let e1 = text_entry_if(base_key(k as nat, ".name"@), titled_if(c.model_full_name));
    let e2 = text_entry_if(base_key(k as nat, ".version"@), c.version);
    let e3 = text_entry_if(base_key(k as nat, ".organization"@), titled_if(c.org));
    let e4 = text_entry_if(base_key(k as nat, ".repo_url"@), url);
    assert(part == Seq::empty() + e1 + e2 + e3 + e4);
    if e1.len() > 0 {
        assert(part[0] == e1[0]);
        entry_is_found(kvs, e1[0]);
    }
    if e2.len() > 0 {
        assert(part[e1.len() as int] == e2[0]);
        entry_is_found(kvs, e2[0]);
    }
    if e3.len() > 0 {
        assert(part[(e1.len() + e2.len()) as int] == e3[0]);
        entry_is_found(kvs, e3[0]);
    }
    reveal_strlit("https://huggingface.co/");
    if e4.len() > 0 {
        assert(part[(e1.len() + e2.len() + e3.len()) as int] == e4[0]);
        entry_is_found(kvs, e4[0]);
    }
}

} // verus!
