//! Laws of the order of the metadata: in which order the entries of a file
//! stand.

use crate::gguf::ValueView;
use crate::ieee::convert::cut_product;
use crate::json::JsonView;
use crate::metadata::{one, text_entry, text_entry_if};
use crate::remix::config::param_at;
use crate::remix::kvs::{
    attention_interval, card_entries, cut_entry, heads_of, id_entries, id_key, model_entries,
    name_entries, names_of, nextn_layers, rope_of, rotated_part, sampling_entries, section_entry,
    shape_entries, shape_refusal, signed_entry, single_entry, sizes_of, vocab_entries, NameView,
};
use crate::remix::lookups::Entries;
use crate::remix::meta::size_label_text;
use crate::remix::plan::Refusal;
use vstd::prelude::*;

verus! {

/// Whether the keys of some entries stand at these places of a list, one behind the other.
pub open spec fn stand_at(e: Entries, keys: Seq<Seq<char>>, at: Seq<int>) -> bool {
    &&& at.len() == e.len()
    &&& forall|i: int|
        0 <= i < at.len() ==> 0 <= #[trigger] at[i] < keys.len() && keys[at[i]] == e[i].0
    &&& forall|i: int, j: int| 0 <= i < j < at.len() ==> #[trigger] at[i] < #[trigger] at[j]
}

/// Whether some entries have keys of a list, in the order of the list and each once.
pub open spec fn in_order(e: Entries, keys: Seq<Seq<char>>) -> bool {
    exists|at: Seq<int>| stand_at(e, keys, at)
}

/// One entry more, or none, and one key more.
proof fn next_in_order(e: Entries, more: Entries, keys: Seq<Seq<char>>, key: Seq<char>)
    requires
        in_order(e, keys),
        more.len() <= 1,
        more.len() == 1 ==> more[0].0 == key,
    ensures
        in_order(e + more, keys.push(key)),
{
    let at = choose|at: Seq<int>| stand_at(e, keys, at);
    let next = if more.len() == 0 {
        at
    } else {
        at.push(keys.len() as int)
    };
    assert(stand_at(e + more, keys.push(key), next)) by {
        assert forall|i: int| 0 <= i < next.len() implies 0 <= #[trigger] next[i] < keys.push(
            key,
        ).len() && keys.push(key)[next[i]] == (e + more)[i].0 by {
            if i < at.len() {
                assert(next[i] == at[i]);
            }
        }
        assert forall|i: int, j: int| 0 <= i < j < next.len() implies #[trigger] next[i]
            < #[trigger] next[j] by {
            assert(next[i] == at[i]);
            if j < at.len() {
                assert(next[j] == at[j]);
            }
        }
    }
}

/// No entries are in order.
proof fn none_in_order()
    ensures
        in_order(Seq::<(Seq<char>, ValueView)>::empty(), Seq::<Seq<char>>::empty()),
{
    assert(stand_at(
        Seq::<(Seq<char>, ValueView)>::empty(),
        Seq::<Seq<char>>::empty(),
        Seq::<int>::empty(),
    ));
}

/// Sampling parameters stand in this order.
pub proof fn sampling_stands_in_order(g: JsonView)
    ensures
        in_order(
            sampling_entries(g),
            seq![
                "general.sampling.sequence"@,
                "general.sampling.top_k"@,
                "general.sampling.top_p"@,
                "general.sampling.min_p"@,
                "general.sampling.xtc_probability"@,
                "general.sampling.xtc_threshold"@,
                "general.sampling.temp"@,
                "general.sampling.penalty_last_n"@,
                "general.sampling.penalty_repeat"@,
                "general.sampling.mirostat"@,
                "general.sampling.mirostat_tau"@,
                "general.sampling.mirostat_eta"@,
            ],
        ),
{
    none_in_order();
    let s0 = Seq::<(Seq<char>, ValueView)>::empty();
    let k0 = Seq::<Seq<char>>::empty();
    let e1 = text_entry_if("general.sampling.sequence"@, g.at("sequence"@).as_str());
    next_in_order(s0, e1, k0, "general.sampling.sequence"@);
    let s1 = s0 + e1;
    let k1 = k0.push("general.sampling.sequence"@);
    let e2 = signed_entry("general.sampling.top_k"@, g.at("top_k"@).as_signed());
    next_in_order(s1, e2, k1, "general.sampling.top_k"@);
    let s2 = s1 + e2;
    let k2 = k1.push("general.sampling.top_k"@);
    let e3 = single_entry("general.sampling.top_p"@, g.at("top_p"@).as_real());
    next_in_order(s2, e3, k2, "general.sampling.top_p"@);
    let s3 = s2 + e3;
    let k3 = k2.push("general.sampling.top_p"@);
    let e4 = single_entry("general.sampling.min_p"@, g.at("min_p"@).as_real());
    next_in_order(s3, e4, k3, "general.sampling.min_p"@);
    let s4 = s3 + e4;
    let k4 = k3.push("general.sampling.min_p"@);
    let e5 = single_entry("general.sampling.xtc_probability"@, g.at("xtc_probability"@).as_real());
    next_in_order(s4, e5, k4, "general.sampling.xtc_probability"@);
    let s5 = s4 + e5;
    let k5 = k4.push("general.sampling.xtc_probability"@);
    let e6 = single_entry("general.sampling.xtc_threshold"@, g.at("xtc_threshold"@).as_real());
    next_in_order(s5, e6, k5, "general.sampling.xtc_threshold"@);
    let s6 = s5 + e6;
    let k6 = k5.push("general.sampling.xtc_threshold"@);
    let e7 = single_entry("general.sampling.temp"@, g.at("temperature"@).as_real());
    next_in_order(s6, e7, k6, "general.sampling.temp"@);
    let s7 = s6 + e7;
    let k7 = k6.push("general.sampling.temp"@);
    let e8 = signed_entry("general.sampling.penalty_last_n"@, g.at("penalty_last_n"@).as_signed());
    next_in_order(s7, e8, k7, "general.sampling.penalty_last_n"@);
    let s8 = s7 + e8;
    let k8 = k7.push("general.sampling.penalty_last_n"@);
    let e9 = single_entry("general.sampling.penalty_repeat"@, g.at("penalty_repeat"@).as_real());
    next_in_order(s8, e9, k8, "general.sampling.penalty_repeat"@);
    let s9 = s8 + e9;
    let k9 = k8.push("general.sampling.penalty_repeat"@);
    let e10 = signed_entry("general.sampling.mirostat"@, g.at("mirostat"@).as_signed());
    next_in_order(s9, e10, k9, "general.sampling.mirostat"@);
    let s10 = s9 + e10;
    let k10 = k9.push("general.sampling.mirostat"@);
    let e11 = single_entry("general.sampling.mirostat_tau"@, g.at("mirostat_tau"@).as_real());
    next_in_order(s10, e11, k10, "general.sampling.mirostat_tau"@);
    let s11 = s10 + e11;
    let k11 = k10.push("general.sampling.mirostat_tau"@);
    let e12 = single_entry("general.sampling.mirostat_eta"@, g.at("mirostat_eta"@).as_real());
    next_in_order(s11, e12, k11, "general.sampling.mirostat_eta"@);
    let s12 = s11 + e12;
    let k12 = k11.push("general.sampling.mirostat_eta"@);
    assert(k12 =~= seq![
        "general.sampling.sequence"@,
        "general.sampling.top_k"@,
        "general.sampling.top_p"@,
        "general.sampling.min_p"@,
        "general.sampling.xtc_probability"@,
        "general.sampling.xtc_threshold"@,
        "general.sampling.temp"@,
        "general.sampling.penalty_last_n"@,
        "general.sampling.penalty_repeat"@,
        "general.sampling.mirostat"@,
        "general.sampling.mirostat_tau"@,
        "general.sampling.mirostat_eta"@,
    ]);
    assert(sampling_entries(g) == s12);
}

/// The shape of a model stands in this order.
pub proof fn the_shape_stands_in_order(root: JsonView)
    ensures
        in_order(
            shape_entries(root),
            seq![
                "qwen35.block_count"@,
                "qwen35.context_length"@,
                "qwen35.embedding_length"@,
                "qwen35.feed_forward_length"@,
                "qwen35.attention.head_count"@,
                "qwen35.attention.head_count_kv"@,
                "qwen35.rope.dimension_sections"@,
                "qwen35.rope.freq_base"@,
                "qwen35.attention.layer_norm_rms_epsilon"@,
                "qwen35.attention.key_length"@,
                "qwen35.attention.value_length"@,
                "general.file_type"@,
                "qwen35.ssm.conv_kernel"@,
                "qwen35.ssm.state_size"@,
                "qwen35.ssm.group_count"@,
                "qwen35.ssm.time_step_rank"@,
                "qwen35.ssm.inner_size"@,
                "qwen35.full_attention_interval"@,
                "qwen35.rope.dimension_count"@,
                "qwen35.nextn_predict_layers"@,
                "general.quantization_version"@,
            ],
        ),
{
    let m = sizes_of(root);
    let h = heads_of(root);
    none_in_order();
    let s0 = Seq::<(Seq<char>, ValueView)>::empty();
    let k0 = Seq::<Seq<char>>::empty();
    let e1 = cut_entry("qwen35.block_count"@, (m.num_hidden_layers + nextn_layers(root)) as u64);
    next_in_order(s0, e1, k0, "qwen35.block_count"@);
    let s1 = s0 + e1;
    let k1 = k0.push("qwen35.block_count"@);
    let e2 = cut_entry("qwen35.context_length"@, m.max_position_embeddings);
    next_in_order(s1, e2, k1, "qwen35.context_length"@);
    let s2 = s1 + e2;
    let k2 = k1.push("qwen35.context_length"@);
    let e3 = cut_entry("qwen35.embedding_length"@, m.hidden_size);
    next_in_order(s2, e3, k2, "qwen35.embedding_length"@);
    let s3 = s2 + e3;
    let k3 = k2.push("qwen35.embedding_length"@);
    let e4 = cut_entry("qwen35.feed_forward_length"@, m.intermediate_size);
    next_in_order(s3, e4, k3, "qwen35.feed_forward_length"@);
    let s4 = s3 + e4;
    let k4 = k3.push("qwen35.feed_forward_length"@);
    let e5 = cut_entry("qwen35.attention.head_count"@, m.num_attention_heads);
    next_in_order(s4, e5, k4, "qwen35.attention.head_count"@);
    let s5 = s4 + e5;
    let k5 = k4.push("qwen35.attention.head_count"@);
    let e6 = cut_entry("qwen35.attention.head_count_kv"@, m.num_key_value_heads);
    next_in_order(s5, e6, k5, "qwen35.attention.head_count_kv"@);
    let s6 = s5 + e6;
    let k6 = k5.push("qwen35.attention.head_count_kv"@);
    let e7 = section_entry(rope_of(root));
    next_in_order(s6, e7, k6, "qwen35.rope.dimension_sections"@);
    let s7 = s6 + e7;
    let k7 = k6.push("qwen35.rope.dimension_sections"@);
    let e8 = single_entry("qwen35.rope.freq_base"@, rope_of(root).at("rope_theta"@).as_real());
    next_in_order(s7, e8, k7, "qwen35.rope.freq_base"@);
    let s8 = s7 + e8;
    let k8 = k7.push("qwen35.rope.freq_base"@);
    let e9 = single_entry("qwen35.attention.layer_norm_rms_epsilon"@, Some(h.rms_norm_eps));
    next_in_order(s8, e9, k8, "qwen35.attention.layer_norm_rms_epsilon"@);
    let s9 = s8 + e9;
    let k9 = k8.push("qwen35.attention.layer_norm_rms_epsilon"@);
    let e10 = cut_entry("qwen35.attention.key_length"@, h.head_dim);
    next_in_order(s9, e10, k9, "qwen35.attention.key_length"@);
    let s10 = s9 + e10;
    let k10 = k9.push("qwen35.attention.key_length"@);
    let e11 = cut_entry("qwen35.attention.value_length"@, h.head_dim);
    next_in_order(s10, e11, k10, "qwen35.attention.value_length"@);
    let s11 = s10 + e11;
    let k11 = k10.push("qwen35.attention.value_length"@);
    let e12 = cut_entry("general.file_type"@, 1);
    next_in_order(s11, e12, k11, "general.file_type"@);
    let s12 = s11 + e12;
    let k12 = k11.push("general.file_type"@);
    let e13 = cut_entry("qwen35.ssm.conv_kernel"@, h.linear_conv_kernel_dim);
    next_in_order(s12, e13, k12, "qwen35.ssm.conv_kernel"@);
    let s13 = s12 + e13;
    let k13 = k12.push("qwen35.ssm.conv_kernel"@);
    let e14 = cut_entry("qwen35.ssm.state_size"@, h.linear_key_head_dim);
    next_in_order(s13, e14, k13, "qwen35.ssm.state_size"@);
    let s14 = s13 + e14;
    let k14 = k13.push("qwen35.ssm.state_size"@);
    let e15 = cut_entry("qwen35.ssm.group_count"@, h.linear_num_key_heads);
    next_in_order(s14, e15, k14, "qwen35.ssm.group_count"@);
    let s15 = s14 + e15;
    let k15 = k14.push("qwen35.ssm.group_count"@);
    let e16 = cut_entry("qwen35.ssm.time_step_rank"@, h.linear_num_value_heads);
    next_in_order(s15, e16, k15, "qwen35.ssm.time_step_rank"@);
    let s16 = s15 + e16;
    let k16 = k15.push("qwen35.ssm.time_step_rank"@);
    let e17 = cut_entry(
        "qwen35.ssm.inner_size"@,
        (h.linear_value_head_dim * h.linear_num_value_heads) as u64,
    );
    next_in_order(s16, e17, k16, "qwen35.ssm.inner_size"@);
    let s17 = s16 + e17;
    let k17 = k16.push("qwen35.ssm.inner_size"@);
    let e18 = cut_entry("qwen35.full_attention_interval"@, attention_interval(root));
    next_in_order(s17, e18, k17, "qwen35.full_attention_interval"@);
    let s18 = s17 + e18;
    let k18 = k17.push("qwen35.full_attention_interval"@);
    let e19 = one(
        "qwen35.rope.dimension_count"@,
        ValueView::U32(cut_product(h.head_dim, rotated_part(root))),
    );
    next_in_order(s18, e19, k18, "qwen35.rope.dimension_count"@);
    let s19 = s18 + e19;
    let k19 = k18.push("qwen35.rope.dimension_count"@);
    let e20 = if nextn_layers(root) > 0 {
        cut_entry("qwen35.nextn_predict_layers"@, nextn_layers(root))
    } else {
        Seq::empty()
    };
    next_in_order(s19, e20, k19, "qwen35.nextn_predict_layers"@);
    let s20 = s19 + e20;
    let k20 = k19.push("qwen35.nextn_predict_layers"@);
    let e21 = cut_entry("general.quantization_version"@, 2);
    next_in_order(s20, e21, k20, "general.quantization_version"@);
    let s21 = s20 + e21;
    let k21 = k20.push("general.quantization_version"@);
    assert(k21 =~= seq![
        "qwen35.block_count"@,
        "qwen35.context_length"@,
        "qwen35.embedding_length"@,
        "qwen35.feed_forward_length"@,
        "qwen35.attention.head_count"@,
        "qwen35.attention.head_count_kv"@,
        "qwen35.rope.dimension_sections"@,
        "qwen35.rope.freq_base"@,
        "qwen35.attention.layer_norm_rms_epsilon"@,
        "qwen35.attention.key_length"@,
        "qwen35.attention.value_length"@,
        "general.file_type"@,
        "qwen35.ssm.conv_kernel"@,
        "qwen35.ssm.state_size"@,
        "qwen35.ssm.group_count"@,
        "qwen35.ssm.time_step_rank"@,
        "qwen35.ssm.inner_size"@,
        "qwen35.full_attention_interval"@,
        "qwen35.rope.dimension_count"@,
        "qwen35.nextn_predict_layers"@,
        "general.quantization_version"@,
    ]);
    assert(shape_entries(root) == s21);
}

/// The names of a model stand in this order.
pub proof fn names_stand_in_order(m: NameView, dir: Seq<char>, total: u64)
    ensures
        in_order(
            name_entries(m, dir, total),
            seq![
                "general.name"@,
                "general.author"@,
                "general.version"@,
                "general.organization"@,
                "general.finetune"@,
                "general.basename"@,
                "general.description"@,
                "general.size_label"@,
            ],
        ),
{
    none_in_order();
    let s0 = Seq::<(Seq<char>, ValueView)>::empty();
    let k0 = Seq::<Seq<char>>::empty();
    let e1 = text_entry("general.name"@, match m.name {
        Some(s) => s,
        None => dir,
    });
    next_in_order(s0, e1, k0, "general.name"@);
    let s1 = s0 + e1;
    let k1 = k0.push("general.name"@);
    let e2 = text_entry_if("general.author"@, m.author);
    next_in_order(s1, e2, k1, "general.author"@);
    let s2 = s1 + e2;
    let k2 = k1.push("general.author"@);
    let e3 = text_entry_if("general.version"@, m.version);
    next_in_order(s2, e3, k2, "general.version"@);
    let s3 = s2 + e3;
    let k3 = k2.push("general.version"@);
    let e4 = text_entry_if("general.organization"@, m.organization);
    next_in_order(s3, e4, k3, "general.organization"@);
    let s4 = s3 + e4;
    let k4 = k3.push("general.organization"@);
    let e5 = text_entry_if("general.finetune"@, m.finetune);
    next_in_order(s4, e5, k4, "general.finetune"@);
    let s5 = s4 + e5;
    let k5 = k4.push("general.finetune"@);
    let e6 = text_entry_if("general.basename"@, m.basename);
    next_in_order(s5, e6, k5, "general.basename"@);
    let s6 = s5 + e6;
    let k6 = k5.push("general.basename"@);
    let e7 = text_entry_if("general.description"@, m.description);
    next_in_order(s6, e7, k6, "general.description"@);
    let s7 = s6 + e7;
    let k7 = k6.push("general.description"@);
    let e8 = text_entry(
        "general.size_label"@,
        match m.size_label {
            Some(s) => s,
            None => size_label_text(total),
        },
    );
    next_in_order(s7, e8, k7, "general.size_label"@);
    let s8 = s7 + e8;
    let k8 = k7.push("general.size_label"@);
    assert(k8 =~= seq![
        "general.name"@,
        "general.author"@,
        "general.version"@,
        "general.organization"@,
        "general.finetune"@,
        "general.basename"@,
        "general.description"@,
        "general.size_label"@,
    ]);
    assert(name_entries(m, dir, total) == s8);
}

/// The ids of special tokens stand in the order in which they were found, between the merges
/// and the chat template.
pub proof fn the_tokenizer_stands_in_order(
    tokens: Seq<Seq<char>>,
    types: Seq<i32>,
    merges: Seq<Seq<char>>,
    ids: Seq<(Seq<char>, u32)>,
    template: Option<Seq<char>>,
)
    ensures
        ({
            let e = vocab_entries(tokens, types, merges, ids, template);
            &&& 5 + ids.len() <= e.len() <= 6 + ids.len()
            &&& e[0].0 == "tokenizer.ggml.model"@
            &&& e[1].0 == "tokenizer.ggml.pre"@
            &&& e[2].0 == "tokenizer.ggml.tokens"@
            &&& e[3].0 == "tokenizer.ggml.token_type"@
            &&& e[4].0 == "tokenizer.ggml.merges"@
            &&& forall|i: int|
                0 <= i < ids.len() ==> #[trigger] e[5 + i] == (id_key(ids[i].0), ValueView::U32(
                    ids[i].1,
                ))
            &&& e.len() == 6 + ids.len() ==> e[ids.len() as int + 5].0 == "tokenizer.chat_template"@
        }),
{
    reveal_strlit("gpt2");
    reveal_strlit("qwen35");
    assert("gpt2"@.len() == 4 && "qwen35"@.len() == 6);
    ids_stand_in_order(ids, ids.len() as int);
    let e = vocab_entries(tokens, types, merges, ids, template);
    let f = id_entries(ids, ids.len() as int);
    assert forall|i: int| 0 <= i < ids.len() implies #[trigger] e[5 + i] == (
        id_key(ids[i].0),
        ValueView::U32(ids[i].1),
    ) by {
        assert(e[5 + i] == f[i]);
    }
}

/// A file tells first what it is, then of sampling, of its names, what its card says, and its
/// shape. It is refused for its card before its shape.
pub proof fn sections_stand_in_order(
    root: JsonView,
    card: Option<JsonView>,
    generation: Option<JsonView>,
    dir: Seq<char>,
    total: u64,
)
    ensures
        ({
            let r = model_entries(root, card, generation, dir, total);
            let path = match param_at(root, "_name_or_path"@) {
                JsonView::Str(s) => s,
                _ => Seq::empty(),
            };
            let c = match card {
                Some(v) => v,
                None => JsonView::Null,
            };
            let said = match card {
                Some(v) => card_entries(v, total as i64),
                None => Ok(Seq::empty()),
            };
            let sampling = match generation {
                Some(g) => sampling_entries(g),
                None => Seq::empty(),
            };
            &&& said matches Err(e) ==> (r matches Err(x) && x.0 == e)
            &&& said is Ok && shape_refusal(root) is Some ==> r == Err::<Entries, _>(
                shape_refusal(root)->0,
            )
            &&& said is Ok && shape_refusal(root) is None ==> r == Ok::<_, (Refusal, Seq<char>)>(
                seq![
                    ("general.architecture"@, ValueView::Str("qwen35"@)),
                    ("general.type"@, ValueView::Str("model"@)),
                ] + sampling + name_entries(names_of(c, path, dir, total as i64), dir, total)
                    + said->Ok_0 + shape_entries(root),
            )
        }),
{
    reveal_strlit("qwen35");
    reveal_strlit("model");
    assert("qwen35"@.len() == 6 && "model"@.len() == 5);
    let first = Seq::<(Seq<char>, ValueView)>::empty() + text_entry(
        "general.architecture"@,
        "qwen35"@,
    ) + text_entry("general.type"@, "model"@);
    assert(first =~= seq![
        ("general.architecture"@, ValueView::Str("qwen35"@)),
        ("general.type"@, ValueView::Str("model"@)),
    ]);
}

/// The ids of special tokens, one by one.
proof fn ids_stand_in_order(ids: Seq<(Seq<char>, u32)>, n: int)
    requires
        0 <= n <= ids.len(),
    ensures
        id_entries(ids, n).len() == n,
        forall|i: int|
            0 <= i < n ==> #[trigger] id_entries(ids, n)[i] == (id_key(ids[i].0), ValueView::U32(
                ids[i].1,
            )),
    decreases n,
{
    if n > 0 {
        ids_stand_in_order(ids, n - 1);
    }
}

} // verus!
