//! Laws of the metadata of a converted checkpoint: which value stands under
//! which key.

use crate::gguf::reader::lookup;

use crate::gguf::ValueView;
use crate::ieee::convert::{cut_product, single_of_double};
use crate::json::JsonView;
use crate::metadata::{one, text_entry, text_entry_if};

use crate::remix::config::param_at;
use crate::remix::kvs::{
    attention_interval, cut_entry, four_of, heads_of, integers_in, list_entry, nextn_layers,
    rope_of, rotated_part, sampling_entries, section_entry, shape_entries, shape_refusal,
    signed_entry, single_entry, sizes_of,
};

use vstd::prelude::*;

verus! {

/// A list of metadata.
pub type Entries = Seq<(Seq<char>, ValueView)>;

/// What is found in two lists one after the other.
pub proof fn lookup_both(a: Entries, b: Entries)
    ensures
        forall|k: Seq<char>| #[trigger]
            lookup(a + b, k) == (if lookup(a, k) is Some {
                lookup(a, k)
            } else {
                lookup(b, k)
            }),
    decreases a.len(),
{
    if a.len() == 0 {
        assert(a + b =~= b);
    } else {
        lookup_both(a.drop_first(), b);
        assert((a + b).drop_first() =~= a.drop_first() + b);
        assert forall|k: Seq<char>| #[trigger]
            lookup(a + b, k) == (if lookup(a, k) is Some {
                lookup(a, k)
            } else {
                lookup(b, k)
            }) by {
            assert(lookup(a.drop_first() + b, k) == lookup((a + b).drop_first(), k));
        }
    }
}

/// What is found in a list of one entry.
pub proof fn lookup_one(key: Seq<char>, v: ValueView)
    ensures
        forall|k: Seq<char>| #[trigger]
            lookup(one(key, v), k) == (if k == key {
                Some(v)
            } else {
                None
            }),
{
    assert forall|k: Seq<char>| #[trigger]
        lookup(one(key, v), k) == (if k == key {
            Some(v)
        } else {
            None
        }) by {
        assert(one(key, v).drop_first().len() == 0);
        assert(lookup(one(key, v).drop_first(), k) is None);
    }
}

/// A text that is there and not empty.
pub open spec fn as_text(s: Option<Seq<char>>) -> Option<ValueView> {
    match s {
        Some(t) => if t.len() == 0 {
            None
        } else {
            Some(ValueView::Str(t))
        },
        None => None,
    }
}

/// An integer that is there, in 32 bits with a sign.
pub open spec fn as_i32(x: Option<i64>) -> Option<ValueView> {
    match x {
        Some(v) => Some(ValueView::I32(v as i32)),
        None => None,
    }
}

/// A number that is there, as a single.
pub open spec fn as_f32(x: Option<u64>) -> Option<ValueView> {
    match x {
        Some(v) => Some(ValueView::F32(single_of_double(v))),
        None => None,
    }
}

/// A number in 32 bits.
pub open spec fn as_u32(x: int) -> Option<ValueView> {
    Some(ValueView::U32(x as u64 as u32))
}

/// A list that is not empty.
pub open spec fn as_list(v: Seq<Seq<char>>) -> Option<ValueView> {
    if v.len() == 0 {
        None
    } else {
        Some(ValueView::ArrStr(v))
    }
}

/// What is found in an entry of this form.
pub proof fn lookup_text(key: Seq<char>, x: Seq<char>)
    ensures
        forall|k: Seq<char>| #[trigger]
            lookup(text_entry(key, x), k) == (if k == key {
                as_text(Some(x))
            } else {
                None
            }),
{
    lookup_one(key, ValueView::Str(x));
}

/// What is found in an entry of this form.
pub proof fn lookup_text_if(key: Seq<char>, x: Option<Seq<char>>)
    ensures
        forall|k: Seq<char>| #[trigger]
            lookup(text_entry_if(key, x), k) == (if k == key {
                as_text(x)
            } else {
                None
            }),
{
    if let Some(t) = x {
        lookup_one(key, ValueView::Str(t));
    }
}

/// What is found in an entry of this form.
pub proof fn lookup_signed(key: Seq<char>, x: Option<i64>)
    ensures
        forall|k: Seq<char>| #[trigger]
            lookup(signed_entry(key, x), k) == (if k == key {
                as_i32(x)
            } else {
                None
            }),
{
    if let Some(v) = x {
        lookup_one(key, ValueView::I32(v as i32));
    }
}

/// What is found in an entry of this form.
pub proof fn lookup_single(key: Seq<char>, x: Option<u64>)
    ensures
        forall|k: Seq<char>| #[trigger]
            lookup(single_entry(key, x), k) == (if k == key {
                as_f32(x)
            } else {
                None
            }),
{
    if let Some(v) = x {
        lookup_one(key, ValueView::F32(single_of_double(v)));
    }
}

/// What is found in an entry of this form.
pub proof fn lookup_cut(key: Seq<char>, x: u64)
    ensures
        forall|k: Seq<char>| #[trigger]
            lookup(cut_entry(key, x), k) == (if k == key {
                as_u32(x as int)
            } else {
                None
            }),
{
    lookup_one(key, ValueView::U32(x as u32));
}

/// What is found in an entry of this form.
pub proof fn lookup_list(key: Seq<char>, x: Seq<Seq<char>>)
    ensures
        forall|k: Seq<char>| #[trigger]
            lookup(list_entry(key, x), k) == (if k == key {
                as_list(x)
            } else {
                None
            }),
{
    lookup_one(key, ValueView::ArrStr(x));
}

/// The keys of sampling parameters differ.
#[verifier::spinoff_prover]
proof fn sampling_keys_differ()
    ensures
        "general.sampling.sequence"@ != "general.sampling.top_k"@,
        "general.sampling.sequence"@ != "general.sampling.top_p"@,
        "general.sampling.sequence"@ != "general.sampling.min_p"@,
        "general.sampling.sequence"@ != "general.sampling.xtc_probability"@,
        "general.sampling.sequence"@ != "general.sampling.xtc_threshold"@,
        "general.sampling.sequence"@ != "general.sampling.temp"@,
        "general.sampling.sequence"@ != "general.sampling.penalty_last_n"@,
        "general.sampling.sequence"@ != "general.sampling.penalty_repeat"@,
        "general.sampling.sequence"@ != "general.sampling.mirostat"@,
        "general.sampling.sequence"@ != "general.sampling.mirostat_tau"@,
        "general.sampling.sequence"@ != "general.sampling.mirostat_eta"@,
        "general.sampling.top_k"@ != "general.sampling.top_p"@,
        "general.sampling.top_k"@ != "general.sampling.min_p"@,
        "general.sampling.top_k"@ != "general.sampling.xtc_probability"@,
        "general.sampling.top_k"@ != "general.sampling.xtc_threshold"@,
        "general.sampling.top_k"@ != "general.sampling.temp"@,
        "general.sampling.top_k"@ != "general.sampling.penalty_last_n"@,
        "general.sampling.top_k"@ != "general.sampling.penalty_repeat"@,
        "general.sampling.top_k"@ != "general.sampling.mirostat"@,
        "general.sampling.top_k"@ != "general.sampling.mirostat_tau"@,
        "general.sampling.top_k"@ != "general.sampling.mirostat_eta"@,
        "general.sampling.top_p"@ != "general.sampling.min_p"@,
        "general.sampling.top_p"@ != "general.sampling.xtc_probability"@,
        "general.sampling.top_p"@ != "general.sampling.xtc_threshold"@,
        "general.sampling.top_p"@ != "general.sampling.temp"@,
        "general.sampling.top_p"@ != "general.sampling.penalty_last_n"@,
        "general.sampling.top_p"@ != "general.sampling.penalty_repeat"@,
        "general.sampling.top_p"@ != "general.sampling.mirostat"@,
        "general.sampling.top_p"@ != "general.sampling.mirostat_tau"@,
        "general.sampling.top_p"@ != "general.sampling.mirostat_eta"@,
        "general.sampling.min_p"@ != "general.sampling.xtc_probability"@,
        "general.sampling.min_p"@ != "general.sampling.xtc_threshold"@,
        "general.sampling.min_p"@ != "general.sampling.temp"@,
        "general.sampling.min_p"@ != "general.sampling.penalty_last_n"@,
        "general.sampling.min_p"@ != "general.sampling.penalty_repeat"@,
        "general.sampling.min_p"@ != "general.sampling.mirostat"@,
        "general.sampling.min_p"@ != "general.sampling.mirostat_tau"@,
        "general.sampling.min_p"@ != "general.sampling.mirostat_eta"@,
        "general.sampling.xtc_probability"@ != "general.sampling.xtc_threshold"@,
        "general.sampling.xtc_probability"@ != "general.sampling.temp"@,
        "general.sampling.xtc_probability"@ != "general.sampling.penalty_last_n"@,
        "general.sampling.xtc_probability"@ != "general.sampling.penalty_repeat"@,
        "general.sampling.xtc_probability"@ != "general.sampling.mirostat"@,
        "general.sampling.xtc_probability"@ != "general.sampling.mirostat_tau"@,
        "general.sampling.xtc_probability"@ != "general.sampling.mirostat_eta"@,
        "general.sampling.xtc_threshold"@ != "general.sampling.temp"@,
        "general.sampling.xtc_threshold"@ != "general.sampling.penalty_last_n"@,
        "general.sampling.xtc_threshold"@ != "general.sampling.penalty_repeat"@,
        "general.sampling.xtc_threshold"@ != "general.sampling.mirostat"@,
        "general.sampling.xtc_threshold"@ != "general.sampling.mirostat_tau"@,
        "general.sampling.xtc_threshold"@ != "general.sampling.mirostat_eta"@,
        "general.sampling.temp"@ != "general.sampling.penalty_last_n"@,
        "general.sampling.temp"@ != "general.sampling.penalty_repeat"@,
        "general.sampling.temp"@ != "general.sampling.mirostat"@,
        "general.sampling.temp"@ != "general.sampling.mirostat_tau"@,
        "general.sampling.temp"@ != "general.sampling.mirostat_eta"@,
        "general.sampling.penalty_last_n"@ != "general.sampling.penalty_repeat"@,
        "general.sampling.penalty_last_n"@ != "general.sampling.mirostat"@,
        "general.sampling.penalty_last_n"@ != "general.sampling.mirostat_tau"@,
        "general.sampling.penalty_last_n"@ != "general.sampling.mirostat_eta"@,
        "general.sampling.penalty_repeat"@ != "general.sampling.mirostat"@,
        "general.sampling.penalty_repeat"@ != "general.sampling.mirostat_tau"@,
        "general.sampling.penalty_repeat"@ != "general.sampling.mirostat_eta"@,
        "general.sampling.mirostat"@ != "general.sampling.mirostat_tau"@,
        "general.sampling.mirostat"@ != "general.sampling.mirostat_eta"@,
        "general.sampling.mirostat_tau"@ != "general.sampling.mirostat_eta"@,
{
    reveal_strlit("general.sampling.sequence");
    reveal_strlit("general.sampling.top_k");
    reveal_strlit("general.sampling.top_p");
    reveal_strlit("general.sampling.min_p");
    reveal_strlit("general.sampling.xtc_probability");
    reveal_strlit("general.sampling.xtc_threshold");
    reveal_strlit("general.sampling.temp");
    reveal_strlit("general.sampling.penalty_last_n");
    reveal_strlit("general.sampling.penalty_repeat");
    reveal_strlit("general.sampling.mirostat");
    reveal_strlit("general.sampling.mirostat_tau");
    reveal_strlit("general.sampling.mirostat_eta");
    assert("general.sampling.sequence"@.len() == 25);
    assert("general.sampling.top_k"@.len() == 22);
    assert("general.sampling.top_p"@.len() == 22);
    assert("general.sampling.min_p"@.len() == 22);
    assert("general.sampling.xtc_probability"@.len() == 32);
    assert("general.sampling.xtc_threshold"@.len() == 30);
    assert("general.sampling.temp"@.len() == 21);
    assert("general.sampling.penalty_last_n"@.len() == 31);
    assert("general.sampling.penalty_repeat"@.len() == 31);
    assert("general.sampling.mirostat"@.len() == 25);
    assert("general.sampling.mirostat_tau"@.len() == 29);
    assert("general.sampling.mirostat_eta"@.len() == 29);
    assert("general.sampling.sequence"@[17] != "general.sampling.mirostat"@[17]);
    assert("general.sampling.top_k"@[21] != "general.sampling.top_p"@[21]);
    assert("general.sampling.top_k"@[17] != "general.sampling.min_p"@[17]);
    assert("general.sampling.top_p"@[17] != "general.sampling.min_p"@[17]);
    assert("general.sampling.penalty_last_n"@[25] != "general.sampling.penalty_repeat"@[25]);
    assert("general.sampling.mirostat_tau"@[26] != "general.sampling.mirostat_eta"@[26]);
}

/// Each sampling parameter stands under its own key, just where it is given.
#[verifier::spinoff_prover]
pub proof fn sampling_is_told(g: JsonView)
    ensures
        ({
            let e = sampling_entries(g);
            &&& lookup(e, "general.sampling.sequence"@) == as_text(g.at("sequence"@).as_str())
            &&& lookup(e, "general.sampling.top_k"@) == as_i32(g.at("top_k"@).as_signed())
            &&& lookup(e, "general.sampling.top_p"@) == as_f32(g.at("top_p"@).as_real())
            &&& lookup(e, "general.sampling.min_p"@) == as_f32(g.at("min_p"@).as_real())
            &&& lookup(e, "general.sampling.xtc_probability"@) == as_f32(g.at("xtc_probability"@).as_real())
            &&& lookup(e, "general.sampling.xtc_threshold"@) == as_f32(g.at("xtc_threshold"@).as_real())
            &&& lookup(e, "general.sampling.temp"@) == as_f32(g.at("temperature"@).as_real())
            &&& lookup(e, "general.sampling.penalty_last_n"@) == as_i32(g.at("penalty_last_n"@).as_signed())
            &&& lookup(e, "general.sampling.penalty_repeat"@) == as_f32(g.at("penalty_repeat"@).as_real())
            &&& lookup(e, "general.sampling.mirostat"@) == as_i32(g.at("mirostat"@).as_signed())
            &&& lookup(e, "general.sampling.mirostat_tau"@) == as_f32(g.at("mirostat_tau"@).as_real())
            &&& lookup(e, "general.sampling.mirostat_eta"@) == as_f32(g.at("mirostat_eta"@).as_real())
        }),
{
    sampling_keys_differ();
    let s0 = Seq::<(Seq<char>, ValueView)>::empty();
    let e1 = text_entry_if("general.sampling.sequence"@, g.at("sequence"@).as_str());
    lookup_text_if("general.sampling.sequence"@, g.at("sequence"@).as_str());
    let s1 = s0 + e1;
    lookup_both(s0, e1);
    let e2 = signed_entry("general.sampling.top_k"@, g.at("top_k"@).as_signed());
    lookup_signed("general.sampling.top_k"@, g.at("top_k"@).as_signed());
    let s2 = s1 + e2;
    lookup_both(s1, e2);
    let e3 = single_entry("general.sampling.top_p"@, g.at("top_p"@).as_real());
    lookup_single("general.sampling.top_p"@, g.at("top_p"@).as_real());
    let s3 = s2 + e3;
    lookup_both(s2, e3);
    let e4 = single_entry("general.sampling.min_p"@, g.at("min_p"@).as_real());
    lookup_single("general.sampling.min_p"@, g.at("min_p"@).as_real());
    let s4 = s3 + e4;
    lookup_both(s3, e4);
    let e5 = single_entry("general.sampling.xtc_probability"@, g.at("xtc_probability"@).as_real());
    lookup_single("general.sampling.xtc_probability"@, g.at("xtc_probability"@).as_real());
    let s5 = s4 + e5;
    lookup_both(s4, e5);
    let e6 = single_entry("general.sampling.xtc_threshold"@, g.at("xtc_threshold"@).as_real());
    lookup_single("general.sampling.xtc_threshold"@, g.at("xtc_threshold"@).as_real());
    let s6 = s5 + e6;
    lookup_both(s5, e6);
    let e7 = single_entry("general.sampling.temp"@, g.at("temperature"@).as_real());
    lookup_single("general.sampling.temp"@, g.at("temperature"@).as_real());
    let s7 = s6 + e7;
    lookup_both(s6, e7);
    let e8 = signed_entry("general.sampling.penalty_last_n"@, g.at("penalty_last_n"@).as_signed());
    lookup_signed("general.sampling.penalty_last_n"@, g.at("penalty_last_n"@).as_signed());
    let s8 = s7 + e8;
    lookup_both(s7, e8);
    let e9 = single_entry("general.sampling.penalty_repeat"@, g.at("penalty_repeat"@).as_real());
    lookup_single("general.sampling.penalty_repeat"@, g.at("penalty_repeat"@).as_real());
    let s9 = s8 + e9;
    lookup_both(s8, e9);
    let e10 = signed_entry("general.sampling.mirostat"@, g.at("mirostat"@).as_signed());
    lookup_signed("general.sampling.mirostat"@, g.at("mirostat"@).as_signed());
    let s10 = s9 + e10;
    lookup_both(s9, e10);
    let e11 = single_entry("general.sampling.mirostat_tau"@, g.at("mirostat_tau"@).as_real());
    lookup_single("general.sampling.mirostat_tau"@, g.at("mirostat_tau"@).as_real());
    let s11 = s10 + e11;
    lookup_both(s10, e11);
    let e12 = single_entry("general.sampling.mirostat_eta"@, g.at("mirostat_eta"@).as_real());
    lookup_single("general.sampling.mirostat_eta"@, g.at("mirostat_eta"@).as_real());
    let s12 = s11 + e12;
    lookup_both(s11, e12);
    assert(sampling_entries(g) == s12);
}

/// An unsigned parameter of a model.
pub open spec fn whole(root: JsonView, key: Seq<char>) -> int {
    param_at(root, key).as_unsigned()->0 as int
}

/// The layers that predict further tokens, none where they are not given.
pub open spec fn further_layers(root: JsonView) -> int {
    match param_at(root, "mtp_num_hidden_layers"@).as_unsigned() {
        Some(x) => x as int,
        None => 0,
    }
}

/// The parameters of the rotary embedding, under the first of two keys.
pub open spec fn rope(root: JsonView) -> JsonView {
    if param_at(root, "rope_parameters"@) is Null {
        param_at(root, "rope_scaling"@)
    } else {
        param_at(root, "rope_parameters"@)
    }
}

/// The integers of a list, four of them: further ones are left out, and zeros
/// stand for those that are missing.
pub open spec fn four_sections(a: Seq<JsonView>) -> Seq<i32> {
    let n = integers_in(a);
    if n.len() >= 4 {
        n.take(4)
    } else {
        n + Seq::new((4 - n.len()) as nat, |i: int| 0i32)
    }
}

/// The keys of the shape of a model differ.
#[verifier::spinoff_prover]
proof fn shape_keys_differ()
    ensures
        "qwen35.block_count"@ != "qwen35.context_length"@,
        "qwen35.block_count"@ != "qwen35.embedding_length"@,
        "qwen35.block_count"@ != "qwen35.feed_forward_length"@,
        "qwen35.block_count"@ != "qwen35.attention.head_count"@,
        "qwen35.block_count"@ != "qwen35.attention.head_count_kv"@,
        "qwen35.block_count"@ != "qwen35.rope.dimension_sections"@,
        "qwen35.block_count"@ != "qwen35.rope.freq_base"@,
        "qwen35.block_count"@ != "qwen35.attention.layer_norm_rms_epsilon"@,
        "qwen35.block_count"@ != "qwen35.attention.key_length"@,
        "qwen35.block_count"@ != "qwen35.attention.value_length"@,
        "qwen35.block_count"@ != "general.file_type"@,
        "qwen35.block_count"@ != "qwen35.ssm.conv_kernel"@,
        "qwen35.block_count"@ != "qwen35.ssm.state_size"@,
        "qwen35.block_count"@ != "qwen35.ssm.group_count"@,
        "qwen35.block_count"@ != "qwen35.ssm.time_step_rank"@,
        "qwen35.block_count"@ != "qwen35.ssm.inner_size"@,
        "qwen35.block_count"@ != "qwen35.full_attention_interval"@,
        "qwen35.block_count"@ != "qwen35.rope.dimension_count"@,
        "qwen35.block_count"@ != "qwen35.nextn_predict_layers"@,
        "qwen35.block_count"@ != "general.quantization_version"@,
        "qwen35.context_length"@ != "qwen35.embedding_length"@,
        "qwen35.context_length"@ != "qwen35.feed_forward_length"@,
        "qwen35.context_length"@ != "qwen35.attention.head_count"@,
        "qwen35.context_length"@ != "qwen35.attention.head_count_kv"@,
        "qwen35.context_length"@ != "qwen35.rope.dimension_sections"@,
        "qwen35.context_length"@ != "qwen35.rope.freq_base"@,
        "qwen35.context_length"@ != "qwen35.attention.layer_norm_rms_epsilon"@,
        "qwen35.context_length"@ != "qwen35.attention.key_length"@,
        "qwen35.context_length"@ != "qwen35.attention.value_length"@,
        "qwen35.context_length"@ != "general.file_type"@,
        "qwen35.context_length"@ != "qwen35.ssm.conv_kernel"@,
        "qwen35.context_length"@ != "qwen35.ssm.state_size"@,
        "qwen35.context_length"@ != "qwen35.ssm.group_count"@,
        "qwen35.context_length"@ != "qwen35.ssm.time_step_rank"@,
        "qwen35.context_length"@ != "qwen35.ssm.inner_size"@,
        "qwen35.context_length"@ != "qwen35.full_attention_interval"@,
        "qwen35.context_length"@ != "qwen35.rope.dimension_count"@,
        "qwen35.context_length"@ != "qwen35.nextn_predict_layers"@,
        "qwen35.context_length"@ != "general.quantization_version"@,
        "qwen35.embedding_length"@ != "qwen35.feed_forward_length"@,
        "qwen35.embedding_length"@ != "qwen35.attention.head_count"@,
        "qwen35.embedding_length"@ != "qwen35.attention.head_count_kv"@,
        "qwen35.embedding_length"@ != "qwen35.rope.dimension_sections"@,
        "qwen35.embedding_length"@ != "qwen35.rope.freq_base"@,
        "qwen35.embedding_length"@ != "qwen35.attention.layer_norm_rms_epsilon"@,
        "qwen35.embedding_length"@ != "qwen35.attention.key_length"@,
        "qwen35.embedding_length"@ != "qwen35.attention.value_length"@,
        "qwen35.embedding_length"@ != "general.file_type"@,
        "qwen35.embedding_length"@ != "qwen35.ssm.conv_kernel"@,
        "qwen35.embedding_length"@ != "qwen35.ssm.state_size"@,
        "qwen35.embedding_length"@ != "qwen35.ssm.group_count"@,
        "qwen35.embedding_length"@ != "qwen35.ssm.time_step_rank"@,
        "qwen35.embedding_length"@ != "qwen35.ssm.inner_size"@,
        "qwen35.embedding_length"@ != "qwen35.full_attention_interval"@,
        "qwen35.embedding_length"@ != "qwen35.rope.dimension_count"@,
        "qwen35.embedding_length"@ != "qwen35.nextn_predict_layers"@,
        "qwen35.embedding_length"@ != "general.quantization_version"@,
        "qwen35.feed_forward_length"@ != "qwen35.attention.head_count"@,
        "qwen35.feed_forward_length"@ != "qwen35.attention.head_count_kv"@,
        "qwen35.feed_forward_length"@ != "qwen35.rope.dimension_sections"@,
        "qwen35.feed_forward_length"@ != "qwen35.rope.freq_base"@,
        "qwen35.feed_forward_length"@ != "qwen35.attention.layer_norm_rms_epsilon"@,
        "qwen35.feed_forward_length"@ != "qwen35.attention.key_length"@,
        "qwen35.feed_forward_length"@ != "qwen35.attention.value_length"@,
        "qwen35.feed_forward_length"@ != "general.file_type"@,
        "qwen35.feed_forward_length"@ != "qwen35.ssm.conv_kernel"@,
        "qwen35.feed_forward_length"@ != "qwen35.ssm.state_size"@,
        "qwen35.feed_forward_length"@ != "qwen35.ssm.group_count"@,
        "qwen35.feed_forward_length"@ != "qwen35.ssm.time_step_rank"@,
        "qwen35.feed_forward_length"@ != "qwen35.ssm.inner_size"@,
        "qwen35.feed_forward_length"@ != "qwen35.full_attention_interval"@,
        "qwen35.feed_forward_length"@ != "qwen35.rope.dimension_count"@,
        "qwen35.feed_forward_length"@ != "qwen35.nextn_predict_layers"@,
        "qwen35.feed_forward_length"@ != "general.quantization_version"@,
        "qwen35.attention.head_count"@ != "qwen35.attention.head_count_kv"@,
        "qwen35.attention.head_count"@ != "qwen35.rope.dimension_sections"@,
        "qwen35.attention.head_count"@ != "qwen35.rope.freq_base"@,
        "qwen35.attention.head_count"@ != "qwen35.attention.layer_norm_rms_epsilon"@,
        "qwen35.attention.head_count"@ != "qwen35.attention.key_length"@,
        "qwen35.attention.head_count"@ != "qwen35.attention.value_length"@,
        "qwen35.attention.head_count"@ != "general.file_type"@,
        "qwen35.attention.head_count"@ != "qwen35.ssm.conv_kernel"@,
        "qwen35.attention.head_count"@ != "qwen35.ssm.state_size"@,
        "qwen35.attention.head_count"@ != "qwen35.ssm.group_count"@,
        "qwen35.attention.head_count"@ != "qwen35.ssm.time_step_rank"@,
        "qwen35.attention.head_count"@ != "qwen35.ssm.inner_size"@,
        "qwen35.attention.head_count"@ != "qwen35.full_attention_interval"@,
        "qwen35.attention.head_count"@ != "qwen35.rope.dimension_count"@,
        "qwen35.attention.head_count"@ != "qwen35.nextn_predict_layers"@,
        "qwen35.attention.head_count"@ != "general.quantization_version"@,
        "qwen35.attention.head_count_kv"@ != "qwen35.rope.dimension_sections"@,
        "qwen35.attention.head_count_kv"@ != "qwen35.rope.freq_base"@,
        "qwen35.attention.head_count_kv"@ != "qwen35.attention.layer_norm_rms_epsilon"@,
        "qwen35.attention.head_count_kv"@ != "qwen35.attention.key_length"@,
        "qwen35.attention.head_count_kv"@ != "qwen35.attention.value_length"@,
        "qwen35.attention.head_count_kv"@ != "general.file_type"@,
        "qwen35.attention.head_count_kv"@ != "qwen35.ssm.conv_kernel"@,
        "qwen35.attention.head_count_kv"@ != "qwen35.ssm.state_size"@,
        "qwen35.attention.head_count_kv"@ != "qwen35.ssm.group_count"@,
        "qwen35.attention.head_count_kv"@ != "qwen35.ssm.time_step_rank"@,
        "qwen35.attention.head_count_kv"@ != "qwen35.ssm.inner_size"@,
        "qwen35.attention.head_count_kv"@ != "qwen35.full_attention_interval"@,
        "qwen35.attention.head_count_kv"@ != "qwen35.rope.dimension_count"@,
        "qwen35.attention.head_count_kv"@ != "qwen35.nextn_predict_layers"@,
        "qwen35.attention.head_count_kv"@ != "general.quantization_version"@,
        "qwen35.rope.dimension_sections"@ != "qwen35.rope.freq_base"@,
        "qwen35.rope.dimension_sections"@ != "qwen35.attention.layer_norm_rms_epsilon"@,
        "qwen35.rope.dimension_sections"@ != "qwen35.attention.key_length"@,
        "qwen35.rope.dimension_sections"@ != "qwen35.attention.value_length"@,
        "qwen35.rope.dimension_sections"@ != "general.file_type"@,
        "qwen35.rope.dimension_sections"@ != "qwen35.ssm.conv_kernel"@,
        "qwen35.rope.dimension_sections"@ != "qwen35.ssm.state_size"@,
        "qwen35.rope.dimension_sections"@ != "qwen35.ssm.group_count"@,
        "qwen35.rope.dimension_sections"@ != "qwen35.ssm.time_step_rank"@,
        "qwen35.rope.dimension_sections"@ != "qwen35.ssm.inner_size"@,
        "qwen35.rope.dimension_sections"@ != "qwen35.full_attention_interval"@,
        "qwen35.rope.dimension_sections"@ != "qwen35.rope.dimension_count"@,
        "qwen35.rope.dimension_sections"@ != "qwen35.nextn_predict_layers"@,
        "qwen35.rope.dimension_sections"@ != "general.quantization_version"@,
        "qwen35.rope.freq_base"@ != "qwen35.attention.layer_norm_rms_epsilon"@,
        "qwen35.rope.freq_base"@ != "qwen35.attention.key_length"@,
        "qwen35.rope.freq_base"@ != "qwen35.attention.value_length"@,
        "qwen35.rope.freq_base"@ != "general.file_type"@,
        "qwen35.rope.freq_base"@ != "qwen35.ssm.conv_kernel"@,
        "qwen35.rope.freq_base"@ != "qwen35.ssm.state_size"@,
        "qwen35.rope.freq_base"@ != "qwen35.ssm.group_count"@,
        "qwen35.rope.freq_base"@ != "qwen35.ssm.time_step_rank"@,
        "qwen35.rope.freq_base"@ != "qwen35.ssm.inner_size"@,
        "qwen35.rope.freq_base"@ != "qwen35.full_attention_interval"@,
        "qwen35.rope.freq_base"@ != "qwen35.rope.dimension_count"@,
        "qwen35.rope.freq_base"@ != "qwen35.nextn_predict_layers"@,
        "qwen35.rope.freq_base"@ != "general.quantization_version"@,
        "qwen35.attention.layer_norm_rms_epsilon"@ != "qwen35.attention.key_length"@,
        "qwen35.attention.layer_norm_rms_epsilon"@ != "qwen35.attention.value_length"@,
        "qwen35.attention.layer_norm_rms_epsilon"@ != "general.file_type"@,
        "qwen35.attention.layer_norm_rms_epsilon"@ != "qwen35.ssm.conv_kernel"@,
        "qwen35.attention.layer_norm_rms_epsilon"@ != "qwen35.ssm.state_size"@,
        "qwen35.attention.layer_norm_rms_epsilon"@ != "qwen35.ssm.group_count"@,
        "qwen35.attention.layer_norm_rms_epsilon"@ != "qwen35.ssm.time_step_rank"@,
        "qwen35.attention.layer_norm_rms_epsilon"@ != "qwen35.ssm.inner_size"@,
        "qwen35.attention.layer_norm_rms_epsilon"@ != "qwen35.full_attention_interval"@,
        "qwen35.attention.layer_norm_rms_epsilon"@ != "qwen35.rope.dimension_count"@,
        "qwen35.attention.layer_norm_rms_epsilon"@ != "qwen35.nextn_predict_layers"@,
        "qwen35.attention.layer_norm_rms_epsilon"@ != "general.quantization_version"@,
        "qwen35.attention.key_length"@ != "qwen35.attention.value_length"@,
        "qwen35.attention.key_length"@ != "general.file_type"@,
        "qwen35.attention.key_length"@ != "qwen35.ssm.conv_kernel"@,
        "qwen35.attention.key_length"@ != "qwen35.ssm.state_size"@,
        "qwen35.attention.key_length"@ != "qwen35.ssm.group_count"@,
        "qwen35.attention.key_length"@ != "qwen35.ssm.time_step_rank"@,
        "qwen35.attention.key_length"@ != "qwen35.ssm.inner_size"@,
        "qwen35.attention.key_length"@ != "qwen35.full_attention_interval"@,
        "qwen35.attention.key_length"@ != "qwen35.rope.dimension_count"@,
        "qwen35.attention.key_length"@ != "qwen35.nextn_predict_layers"@,
        "qwen35.attention.key_length"@ != "general.quantization_version"@,
        "qwen35.attention.value_length"@ != "general.file_type"@,
        "qwen35.attention.value_length"@ != "qwen35.ssm.conv_kernel"@,
        "qwen35.attention.value_length"@ != "qwen35.ssm.state_size"@,
        "qwen35.attention.value_length"@ != "qwen35.ssm.group_count"@,
        "qwen35.attention.value_length"@ != "qwen35.ssm.time_step_rank"@,
        "qwen35.attention.value_length"@ != "qwen35.ssm.inner_size"@,
        "qwen35.attention.value_length"@ != "qwen35.full_attention_interval"@,
        "qwen35.attention.value_length"@ != "qwen35.rope.dimension_count"@,
        "qwen35.attention.value_length"@ != "qwen35.nextn_predict_layers"@,
        "qwen35.attention.value_length"@ != "general.quantization_version"@,
        "general.file_type"@ != "qwen35.ssm.conv_kernel"@,
        "general.file_type"@ != "qwen35.ssm.state_size"@,
        "general.file_type"@ != "qwen35.ssm.group_count"@,
        "general.file_type"@ != "qwen35.ssm.time_step_rank"@,
        "general.file_type"@ != "qwen35.ssm.inner_size"@,
        "general.file_type"@ != "qwen35.full_attention_interval"@,
        "general.file_type"@ != "qwen35.rope.dimension_count"@,
        "general.file_type"@ != "qwen35.nextn_predict_layers"@,
        "general.file_type"@ != "general.quantization_version"@,
        "qwen35.ssm.conv_kernel"@ != "qwen35.ssm.state_size"@,
        "qwen35.ssm.conv_kernel"@ != "qwen35.ssm.group_count"@,
        "qwen35.ssm.conv_kernel"@ != "qwen35.ssm.time_step_rank"@,
        "qwen35.ssm.conv_kernel"@ != "qwen35.ssm.inner_size"@,
        "qwen35.ssm.conv_kernel"@ != "qwen35.full_attention_interval"@,
        "qwen35.ssm.conv_kernel"@ != "qwen35.rope.dimension_count"@,
        "qwen35.ssm.conv_kernel"@ != "qwen35.nextn_predict_layers"@,
        "qwen35.ssm.conv_kernel"@ != "general.quantization_version"@,
        "qwen35.ssm.state_size"@ != "qwen35.ssm.group_count"@,
        "qwen35.ssm.state_size"@ != "qwen35.ssm.time_step_rank"@,
        "qwen35.ssm.state_size"@ != "qwen35.ssm.inner_size"@,
        "qwen35.ssm.state_size"@ != "qwen35.full_attention_interval"@,
        "qwen35.ssm.state_size"@ != "qwen35.rope.dimension_count"@,
        "qwen35.ssm.state_size"@ != "qwen35.nextn_predict_layers"@,
        "qwen35.ssm.state_size"@ != "general.quantization_version"@,
        "qwen35.ssm.group_count"@ != "qwen35.ssm.time_step_rank"@,
        "qwen35.ssm.group_count"@ != "qwen35.ssm.inner_size"@,
        "qwen35.ssm.group_count"@ != "qwen35.full_attention_interval"@,
        "qwen35.ssm.group_count"@ != "qwen35.rope.dimension_count"@,
        "qwen35.ssm.group_count"@ != "qwen35.nextn_predict_layers"@,
        "qwen35.ssm.group_count"@ != "general.quantization_version"@,
        "qwen35.ssm.time_step_rank"@ != "qwen35.ssm.inner_size"@,
        "qwen35.ssm.time_step_rank"@ != "qwen35.full_attention_interval"@,
        "qwen35.ssm.time_step_rank"@ != "qwen35.rope.dimension_count"@,
        "qwen35.ssm.time_step_rank"@ != "qwen35.nextn_predict_layers"@,
        "qwen35.ssm.time_step_rank"@ != "general.quantization_version"@,
        "qwen35.ssm.inner_size"@ != "qwen35.full_attention_interval"@,
        "qwen35.ssm.inner_size"@ != "qwen35.rope.dimension_count"@,
        "qwen35.ssm.inner_size"@ != "qwen35.nextn_predict_layers"@,
        "qwen35.ssm.inner_size"@ != "general.quantization_version"@,
        "qwen35.full_attention_interval"@ != "qwen35.rope.dimension_count"@,
        "qwen35.full_attention_interval"@ != "qwen35.nextn_predict_layers"@,
        "qwen35.full_attention_interval"@ != "general.quantization_version"@,
        "qwen35.rope.dimension_count"@ != "qwen35.nextn_predict_layers"@,
        "qwen35.rope.dimension_count"@ != "general.quantization_version"@,
        "qwen35.nextn_predict_layers"@ != "general.quantization_version"@,
{
    reveal_strlit("qwen35.block_count");
    reveal_strlit("qwen35.context_length");
    reveal_strlit("qwen35.embedding_length");
    reveal_strlit("qwen35.feed_forward_length");
    reveal_strlit("qwen35.attention.head_count");
    reveal_strlit("qwen35.attention.head_count_kv");
    reveal_strlit("qwen35.rope.dimension_sections");
    reveal_strlit("qwen35.rope.freq_base");
    reveal_strlit("qwen35.attention.layer_norm_rms_epsilon");
    reveal_strlit("qwen35.attention.key_length");
    reveal_strlit("qwen35.attention.value_length");
    reveal_strlit("general.file_type");
    reveal_strlit("qwen35.ssm.conv_kernel");
    reveal_strlit("qwen35.ssm.state_size");
    reveal_strlit("qwen35.ssm.group_count");
    reveal_strlit("qwen35.ssm.time_step_rank");
    reveal_strlit("qwen35.ssm.inner_size");
    reveal_strlit("qwen35.full_attention_interval");
    reveal_strlit("qwen35.rope.dimension_count");
    reveal_strlit("qwen35.nextn_predict_layers");
    reveal_strlit("general.quantization_version");
    assert("qwen35.block_count"@.len() == 18);
    assert("qwen35.context_length"@.len() == 21);
    assert("qwen35.embedding_length"@.len() == 23);
    assert("qwen35.feed_forward_length"@.len() == 26);
    assert("qwen35.attention.head_count"@.len() == 27);
    assert("qwen35.attention.head_count_kv"@.len() == 30);
    assert("qwen35.rope.dimension_sections"@.len() == 30);
    assert("qwen35.rope.freq_base"@.len() == 21);
    assert("qwen35.attention.layer_norm_rms_epsilon"@.len() == 39);
    assert("qwen35.attention.key_length"@.len() == 27);
    assert("qwen35.attention.value_length"@.len() == 29);
    assert("general.file_type"@.len() == 17);
    assert("qwen35.ssm.conv_kernel"@.len() == 22);
    assert("qwen35.ssm.state_size"@.len() == 21);
    assert("qwen35.ssm.group_count"@.len() == 22);
    assert("qwen35.ssm.time_step_rank"@.len() == 25);
    assert("qwen35.ssm.inner_size"@.len() == 21);
    assert("qwen35.full_attention_interval"@.len() == 30);
    assert("qwen35.rope.dimension_count"@.len() == 27);
    assert("qwen35.nextn_predict_layers"@.len() == 27);
    assert("general.quantization_version"@.len() == 28);
    assert("qwen35.context_length"@[7] != "qwen35.rope.freq_base"@[7]);
    assert("qwen35.context_length"@[7] != "qwen35.ssm.state_size"@[7]);
    assert("qwen35.context_length"@[7] != "qwen35.ssm.inner_size"@[7]);
    assert("qwen35.attention.head_count"@[17] != "qwen35.attention.key_length"@[17]);
    assert("qwen35.attention.head_count"@[7] != "qwen35.rope.dimension_count"@[7]);
    assert("qwen35.attention.head_count"@[7] != "qwen35.nextn_predict_layers"@[7]);
    assert("qwen35.attention.head_count_kv"@[7] != "qwen35.rope.dimension_sections"@[7]);
    assert("qwen35.attention.head_count_kv"@[7] != "qwen35.full_attention_interval"@[7]);
    assert("qwen35.rope.dimension_sections"@[7] != "qwen35.full_attention_interval"@[7]);
    assert("qwen35.rope.freq_base"@[7] != "qwen35.ssm.state_size"@[7]);
    assert("qwen35.rope.freq_base"@[7] != "qwen35.ssm.inner_size"@[7]);
    assert("qwen35.attention.key_length"@[7] != "qwen35.rope.dimension_count"@[7]);
    assert("qwen35.attention.key_length"@[7] != "qwen35.nextn_predict_layers"@[7]);
    assert("qwen35.ssm.conv_kernel"@[11] != "qwen35.ssm.group_count"@[11]);
    assert("qwen35.ssm.state_size"@[11] != "qwen35.ssm.inner_size"@[11]);
    assert("qwen35.rope.dimension_count"@[7] != "qwen35.nextn_predict_layers"@[7]);
}

/// What is found in the entry for the sections of the rotary embedding.
proof fn lookup_sections(r: JsonView)
    ensures
        forall|k: Seq<char>| #[trigger]
            lookup(section_entry(r), k) == (if k == "qwen35.rope.dimension_sections"@ {
                match r.at("mrope_section"@).as_arr() {
                    Some(a) => Some(ValueView::ArrI32(four_sections(a))),
                    None => None,
                }
            } else {
                None
            }),
{
    if let Some(a) = r.at("mrope_section"@).as_arr() {
        assert(four_of(integers_in(a)) =~= four_sections(a));
        lookup_one("qwen35.rope.dimension_sections"@, ValueView::ArrI32(four_sections(a)));
    }
}

/// Each parameter of a model's shape stands under its own key.
#[verifier::spinoff_prover]
#[verifier::rlimit(40)]
pub proof fn shape_is_told(root: JsonView)
    requires
        shape_refusal(root) is None,
    ensures
        ({
            let e = shape_entries(root);
            &&& lookup(e, "qwen35.block_count"@) == as_u32(whole(root, "num_hidden_layers"@) + further_layers(root))
            &&& lookup(e, "qwen35.context_length"@) == as_u32(whole(root, "max_position_embeddings"@))
            &&& lookup(e, "qwen35.embedding_length"@) == as_u32(whole(root, "hidden_size"@))
            &&& lookup(e, "qwen35.feed_forward_length"@) == as_u32(whole(root, "intermediate_size"@))
            &&& lookup(e, "qwen35.attention.head_count"@) == as_u32(whole(root, "num_attention_heads"@))
            &&& lookup(e, "qwen35.attention.head_count_kv"@) == as_u32(whole(root, "num_key_value_heads"@))
            &&& lookup(e, "qwen35.rope.dimension_sections"@) == match rope(root).at("mrope_section"@).as_arr() {
                Some(a) => Some(ValueView::ArrI32(four_sections(a))),
                None => None,
            }
            &&& lookup(e, "qwen35.rope.freq_base"@) == as_f32(rope(root).at("rope_theta"@).as_real())
            &&& lookup(e, "qwen35.attention.layer_norm_rms_epsilon"@) == as_f32(
                param_at(root, "rms_norm_eps"@).as_real(),
            )
            &&& lookup(e, "qwen35.attention.key_length"@) == as_u32(whole(root, "head_dim"@))
            &&& lookup(e, "qwen35.attention.value_length"@) == as_u32(whole(root, "head_dim"@))
            &&& lookup(e, "general.file_type"@) == as_u32(1)
            &&& lookup(e, "qwen35.ssm.conv_kernel"@) == as_u32(whole(root, "linear_conv_kernel_dim"@))
            &&& lookup(e, "qwen35.ssm.state_size"@) == as_u32(whole(root, "linear_key_head_dim"@))
            &&& lookup(e, "qwen35.ssm.group_count"@) == as_u32(whole(root, "linear_num_key_heads"@))
            &&& lookup(e, "qwen35.ssm.time_step_rank"@) == as_u32(whole(root, "linear_num_value_heads"@))
            &&& lookup(e, "qwen35.ssm.inner_size"@) == as_u32(
                whole(root, "linear_value_head_dim"@) * whole(root, "linear_num_value_heads"@),
            )
            &&& lookup(e, "qwen35.full_attention_interval"@) == as_u32(
                match param_at(root, "full_attention_interval"@).as_unsigned() {
                    Some(x) => x as int,
                    None => 4,
                },
            )
            &&& lookup(e, "qwen35.rope.dimension_count"@) == Some(
                ValueView::U32(
                    cut_product(
                        whole(root, "head_dim"@) as u64,
                        match param_at(root, "partial_rotary_factor"@).as_real() {
                            Some(x) => x,
                            None => 0x3fd0_0000_0000_0000,
                        },
                    ),
                ),
            )
            &&& lookup(e, "qwen35.nextn_predict_layers"@) == (if further_layers(root) > 0 {
                as_u32(further_layers(root))
            } else {
                None
            })
            &&& lookup(e, "general.quantization_version"@) == as_u32(2)
        }),
{
    shape_keys_differ();
    let m = sizes_of(root);
    let h = heads_of(root);
    let s0 = Seq::<(Seq<char>, ValueView)>::empty();
    let e1 = cut_entry("qwen35.block_count"@, (m.num_hidden_layers + nextn_layers(root)) as u64);
    lookup_cut("qwen35.block_count"@, (m.num_hidden_layers + nextn_layers(root)) as u64);
    let s1 = s0 + e1;
    lookup_both(s0, e1);
    let e2 = cut_entry("qwen35.context_length"@, m.max_position_embeddings);
    lookup_cut("qwen35.context_length"@, m.max_position_embeddings);
    let s2 = s1 + e2;
    lookup_both(s1, e2);
    let e3 = cut_entry("qwen35.embedding_length"@, m.hidden_size);
    lookup_cut("qwen35.embedding_length"@, m.hidden_size);
    let s3 = s2 + e3;
    lookup_both(s2, e3);
    let e4 = cut_entry("qwen35.feed_forward_length"@, m.intermediate_size);
    lookup_cut("qwen35.feed_forward_length"@, m.intermediate_size);
    let s4 = s3 + e4;
    lookup_both(s3, e4);
    let e5 = cut_entry("qwen35.attention.head_count"@, m.num_attention_heads);
    lookup_cut("qwen35.attention.head_count"@, m.num_attention_heads);
    let s5 = s4 + e5;
    lookup_both(s4, e5);
    let e6 = cut_entry("qwen35.attention.head_count_kv"@, m.num_key_value_heads);
    lookup_cut("qwen35.attention.head_count_kv"@, m.num_key_value_heads);
    let s6 = s5 + e6;
    lookup_both(s5, e6);
    let e7 = section_entry(rope_of(root));
    lookup_sections(rope_of(root));
    let s7 = s6 + e7;
    lookup_both(s6, e7);
    let e8 = single_entry("qwen35.rope.freq_base"@, rope_of(root).at("rope_theta"@).as_real());
    lookup_single("qwen35.rope.freq_base"@, rope_of(root).at("rope_theta"@).as_real());
    let s8 = s7 + e8;
    lookup_both(s7, e8);
    let e9 = single_entry("qwen35.attention.layer_norm_rms_epsilon"@, Some(h.rms_norm_eps));
    lookup_single("qwen35.attention.layer_norm_rms_epsilon"@, Some(h.rms_norm_eps));
    let s9 = s8 + e9;
    lookup_both(s8, e9);
    let e10 = cut_entry("qwen35.attention.key_length"@, h.head_dim);
    lookup_cut("qwen35.attention.key_length"@, h.head_dim);
    let s10 = s9 + e10;
    lookup_both(s9, e10);
    let e11 = cut_entry("qwen35.attention.value_length"@, h.head_dim);
    lookup_cut("qwen35.attention.value_length"@, h.head_dim);
    let s11 = s10 + e11;
    lookup_both(s10, e11);
    let e12 = cut_entry("general.file_type"@, 1);
    lookup_cut("general.file_type"@, 1);
    let s12 = s11 + e12;
    lookup_both(s11, e12);
    let e13 = cut_entry("qwen35.ssm.conv_kernel"@, h.linear_conv_kernel_dim);
    lookup_cut("qwen35.ssm.conv_kernel"@, h.linear_conv_kernel_dim);
    let s13 = s12 + e13;
    lookup_both(s12, e13);
    let e14 = cut_entry("qwen35.ssm.state_size"@, h.linear_key_head_dim);
    lookup_cut("qwen35.ssm.state_size"@, h.linear_key_head_dim);
    let s14 = s13 + e14;
    lookup_both(s13, e14);
    let e15 = cut_entry("qwen35.ssm.group_count"@, h.linear_num_key_heads);
    lookup_cut("qwen35.ssm.group_count"@, h.linear_num_key_heads);
    let s15 = s14 + e15;
    lookup_both(s14, e15);
    let e16 = cut_entry("qwen35.ssm.time_step_rank"@, h.linear_num_value_heads);
    lookup_cut("qwen35.ssm.time_step_rank"@, h.linear_num_value_heads);
    let s16 = s15 + e16;
    lookup_both(s15, e16);
    let e17 = cut_entry(
        "qwen35.ssm.inner_size"@,
        (h.linear_value_head_dim * h.linear_num_value_heads) as u64,
    );
    lookup_cut(
        "qwen35.ssm.inner_size"@,
        (h.linear_value_head_dim * h.linear_num_value_heads) as u64,
    );
    let s17 = s16 + e17;
    lookup_both(s16, e17);
    let e18 = cut_entry("qwen35.full_attention_interval"@, attention_interval(root));
    lookup_cut("qwen35.full_attention_interval"@, attention_interval(root));
    let s18 = s17 + e18;
    lookup_both(s17, e18);
    let e19 = one(
        "qwen35.rope.dimension_count"@,
        ValueView::U32(cut_product(h.head_dim, rotated_part(root))),
    );
    lookup_one(
        "qwen35.rope.dimension_count"@,
        ValueView::U32(cut_product(h.head_dim, rotated_part(root))),
    );
    let s19 = s18 + e19;
    lookup_both(s18, e19);
    let e20 = if nextn_layers(root) > 0 {
        cut_entry("qwen35.nextn_predict_layers"@, nextn_layers(root))
    } else {
        Seq::empty()
    };
    lookup_cut("qwen35.nextn_predict_layers"@, nextn_layers(root));
    let s20 = s19 + e20;
    lookup_both(s19, e20);
    let e21 = cut_entry("general.quantization_version"@, 2);
    lookup_cut("general.quantization_version"@, 2);
    let s21 = s20 + e21;
    lookup_both(s20, e21);
    assert(shape_entries(root) == s21);
}

/// Which parameters a model must have: those of its shape, and a type that is
/// known.
pub proof fn a_shape_is_whole(root: JsonView)
    requires
        shape_refusal(root) is None,
    ensures
        param_at(root, "num_hidden_layers"@).as_unsigned() is Some,
        param_at(root, "max_position_embeddings"@).as_unsigned() is Some,
        param_at(root, "hidden_size"@).as_unsigned() is Some,
        param_at(root, "intermediate_size"@).as_unsigned() is Some,
        param_at(root, "num_attention_heads"@).as_unsigned() is Some,
        param_at(root, "num_key_value_heads"@).as_unsigned() is Some,
        param_at(root, "head_dim"@).as_unsigned() is Some,
        param_at(root, "linear_conv_kernel_dim"@).as_unsigned() is Some,
        param_at(root, "linear_key_head_dim"@).as_unsigned() is Some,
        param_at(root, "linear_num_key_heads"@).as_unsigned() is Some,
        param_at(root, "linear_num_value_heads"@).as_unsigned() is Some,
        param_at(root, "linear_value_head_dim"@).as_unsigned() is Some,
        param_at(root, "vocab_size"@).as_unsigned() is Some,
        param_at(root, "rms_norm_eps"@).as_real() is Some,
        ({
            let t = param_at(root, "model_type"@).as_str();
            t == Some("qwen3_5"@) || t == Some("qwen3_5_text"@)
        }),
        ({
            let t = rope(root).at("rope_type"@).as_str();
            t != Some("linear"@) && t != Some("yarn"@) && t != Some("su"@) && t != Some(
                "longrope"@,
            )
        }),
{
    reveal_strlit("qwen3_5");
    reveal_strlit("qwen3_5_text");
    reveal_strlit("");
    assert("qwen3_5"@.len() == 7 && "qwen3_5_text"@.len() == 12 && ""@.len() == 0);
}

} // verus!
