//! Names of tensors: which are taken, and what they are called in a GGUF.

use crate::text::{
    all_digits, chars_of, contains, decimal, decimal_text, ends_with, has_part, has_prefix,
    has_suffix, number_read, only_digits, read_number, replace, replaced, same, split_at_first,
    split_once, starts_with, strip_prefix, strip_suffix, without_prefix, without_suffix,
};
use vstd::prelude::*;

verus! {

/// Whether a tensor belongs to another modality than text.
pub open spec fn other_modality(s: Seq<char>) -> bool {
    ||| has_prefix(s, "mlp"@)
    ||| has_prefix(s, "vit."@)
    ||| has_prefix(s, "vpm."@)
    ||| has_prefix(s, "siglip2."@)
    ||| has_prefix(s, "conformer."@)
    ||| has_prefix(s, "merger."@)
    ||| has_prefix(s, "resampler."@)
    ||| has_prefix(s, "sound_encoder."@)
    ||| has_prefix(s, "sound_projection."@)
    ||| has_prefix(s, "speech_embeddings."@)
    ||| has_part(s, "visual."@)
    ||| has_part(s, "vision."@)
    ||| has_part(s, "audio."@)
    ||| has_part(s, "talker."@)
    ||| has_part(s, "vision_"@)
    ||| has_part(s, "audio_"@)
    ||| has_part(s, "sam_model"@)
    ||| has_part(s, "token2wav."@)
    ||| has_part(s, "code2wav."@)
    ||| has_part(s, "projector."@)
    ||| has_part(s, "pre_mm_projector_norm"@)
    ||| has_part(s, "image_newline"@)
    ||| has_part(s, "view_seperator"@)
    ||| has_part(s, "patch_embed"@)
    ||| has_part(s, "patch_embedding"@)
    ||| has_part(s, "patch_merger."@)
    ||| has_part(s, "model.connector."@)
}

/// The name under which a tensor of a checkpoint is taken, if it is taken.
pub open spec fn filtered_name(s: Seq<char>) -> Option<Seq<char>> {
    if has_prefix(s, "mtp."@) {
        Some(s)
    } else if other_modality(s) {
        None
    } else {
        let t = if has_suffix(s, "e_score_correction_bias"@) {
            replaced(s, "e_score_correction_bias"@, "e_score_correction.bias"@)
        } else {
            s
        };
        Some(replaced(t, "language_model."@, ""@))
    }
}

/// Whether a tensor belongs to another modality than text.
fn is_other_modality(s: &str) -> (r: bool)
    ensures
        r == other_modality(s@),
{
    starts_with(s, "mlp")
        || starts_with(s, "vit.")
        || starts_with(s, "vpm.")
        || starts_with(s, "siglip2.")
        || starts_with(s, "conformer.")
        || starts_with(s, "merger.")
        || starts_with(s, "resampler.")
        || starts_with(s, "sound_encoder.")
        || starts_with(s, "sound_projection.")
        || starts_with(s, "speech_embeddings.")
        || contains(s, "visual.")
        || contains(s, "vision.")
        || contains(s, "audio.")
        || contains(s, "talker.")
        || contains(s, "vision_")
        || contains(s, "audio_")
        || contains(s, "sam_model")
        || contains(s, "token2wav.")
        || contains(s, "code2wav.")
        || contains(s, "projector.")
        || contains(s, "pre_mm_projector_norm")
        || contains(s, "image_newline")
        || contains(s, "view_seperator")
        || contains(s, "patch_embed")
        || contains(s, "patch_embedding")
        || contains(s, "patch_merger.")
        || contains(s, "model.connector.")
}

/// The name under which a tensor of a checkpoint is taken, if it is taken.
/// Names that start with `mtp.` are taken as they are.
pub fn filter_name(orig: &str) -> (r: Option<String>)
    ensures
        r is Some <==> filtered_name(orig@) is Some,
        r is Some ==> r->0@ == filtered_name(orig@)->0,
{
    if starts_with(orig, "mtp.") {
        return Some(orig.to_owned());
    }
    if is_other_modality(orig) {
        return None;
    }
    proof {
        reveal_strlit("e_score_correction_bias");
        reveal_strlit("language_model.");
    }
    let name = if ends_with(orig, "e_score_correction_bias") {
        replace(orig, "e_score_correction_bias", "e_score_correction.bias")
    } else {
        orig.to_owned()
    };
    Some(replace(name.as_str(), "language_model.", ""))
}

/// What a part of a layer is called.
pub open spec fn layer_part(t: Seq<char>) -> Option<Seq<char>> {
    if t == "input_layernorm"@ {
        Some("attn_norm"@)
    } else if t == "post_attention_layernorm"@ {
        Some("post_attention_norm"@)
    } else if t == "self_attn.q_proj"@ {
        Some("attn_q"@)
    } else if t == "self_attn.k_proj"@ {
        Some("attn_k"@)
    } else if t == "self_attn.v_proj"@ {
        Some("attn_v"@)
    } else if t == "self_attn.o_proj"@ {
        Some("attn_output"@)
    } else if t == "self_attn.q_norm"@ {
        Some("attn_q_norm"@)
    } else if t == "self_attn.k_norm"@ {
        Some("attn_k_norm"@)
    } else if t == "mlp.gate_proj"@ {
        Some("ffn_gate"@)
    } else if t == "mlp.up_proj"@ {
        Some("ffn_up"@)
    } else if t == "mlp.down_proj"@ {
        Some("ffn_down"@)
    } else if t == "linear_attn.in_proj_qkv"@ {
        Some("attn_qkv"@)
    } else if t == "linear_attn.in_proj_z"@ {
        Some("attn_gate"@)
    } else if t == "linear_attn.out_proj"@ {
        Some("ssm_out"@)
    } else if t == "linear_attn.in_proj_a"@ {
        Some("ssm_alpha"@)
    } else if t == "linear_attn.in_proj_b"@ {
        Some("ssm_beta"@)
    } else if t == "linear_attn.conv1d"@ {
        Some("ssm_conv1d"@)
    } else if t == "linear_attn.dt_proj"@ {
        Some("ssm_dt"@)
    } else if t == "linear_attn.A_log"@ {
        Some("ssm_a"@)
    } else if t == "linear_attn.norm"@ {
        Some("ssm_norm"@)
    } else if t == "eh_proj"@ {
        Some("nextn.eh_proj"@)
    } else if t == "enorm"@ {
        Some("nextn.enorm"@)
    } else if t == "hnorm"@ {
        Some("nextn.hnorm"@)
    } else if t == "shared_head.norm"@ {
        Some("nextn.shared_head_norm"@)
    } else {
        None
    }
}

/// What a part of a layer is called.
fn name_layer_part(t: &str) -> (r: Option<&'static str>)
    ensures
        r is Some <==> layer_part(t@) is Some,
        r is Some ==> r->0@ == layer_part(t@)->0,
{
    if same(t, "input_layernorm") {
        Some("attn_norm")
    } else if same(t, "post_attention_layernorm") {
        Some("post_attention_norm")
    } else if same(t, "self_attn.q_proj") {
        Some("attn_q")
    } else if same(t, "self_attn.k_proj") {
        Some("attn_k")
    } else if same(t, "self_attn.v_proj") {
        Some("attn_v")
    } else if same(t, "self_attn.o_proj") {
        Some("attn_output")
    } else if same(t, "self_attn.q_norm") {
        Some("attn_q_norm")
    } else if same(t, "self_attn.k_norm") {
        Some("attn_k_norm")
    } else if same(t, "mlp.gate_proj") {
        Some("ffn_gate")
    } else if same(t, "mlp.up_proj") {
        Some("ffn_up")
    } else if same(t, "mlp.down_proj") {
        Some("ffn_down")
    } else if same(t, "linear_attn.in_proj_qkv") {
        Some("attn_qkv")
    } else if same(t, "linear_attn.in_proj_z") {
        Some("attn_gate")
    } else if same(t, "linear_attn.out_proj") {
        Some("ssm_out")
    } else if same(t, "linear_attn.in_proj_a") {
        Some("ssm_alpha")
    } else if same(t, "linear_attn.in_proj_b") {
        Some("ssm_beta")
    } else if same(t, "linear_attn.conv1d") {
        Some("ssm_conv1d")
    } else if same(t, "linear_attn.dt_proj") {
        Some("ssm_dt")
    } else if same(t, "linear_attn.A_log") {
        Some("ssm_a")
    } else if same(t, "linear_attn.norm") {
        Some("ssm_norm")
    } else if same(t, "eh_proj") {
        Some("nextn.eh_proj")
    } else if same(t, "enorm") {
        Some("nextn.enorm")
    } else if same(t, "hnorm") {
        Some("nextn.hnorm")
    } else if same(t, "shared_head.norm") {
        Some("nextn.shared_head_norm")
    } else {
        None
    }
}

/// What a tensor is called in a GGUF, without a suffix.
pub open spec fn mapped_name(base: Seq<char>) -> Option<Seq<char>> {
    if base == "model.embed_tokens"@ {
        Some("token_embd"@)
    } else if base == "model.norm"@ {
        Some("output_norm"@)
    } else if base == "lm_head"@ {
        Some("output"@)
    } else {
        match without_prefix(base, "model.layers."@) {
            None => None,
            Some(rest) => match split_at_first(rest, '.') {
                None => None,
                Some((layer, tail)) => match layer_part(tail) {
                    None => None,
                    Some(part) => if all_digits(layer) {
                        Some("blk."@ + layer + "."@ + part)
                    } else {
                        None
                    },
                },
            },
        }
    }
}

/// What a tensor is called in a GGUF.
pub open spec fn mapped_with_suffix(name: Seq<char>) -> Option<Seq<char>> {
    match without_suffix(name, ".weight"@) {
        Some(base) => match mapped_name(base) {
            Some(m) => Some(m + ".weight"@),
            None => None,
        },
        None => match without_suffix(name, ".bias"@) {
            Some(base) => match mapped_name(base) {
                Some(m) => Some(m + ".bias"@),
                None => None,
            },
            None => mapped_name(name),
        },
    }
}

/// What a tensor is called in a GGUF, without a suffix.
pub fn map_tensor_name(base: &str) -> (r: Option<String>)
    ensures
        r is Some <==> mapped_name(base@) is Some,
        r is Some ==> r->0@ == mapped_name(base@)->0,
{
    if same(base, "model.embed_tokens") {
        return Some("token_embd".to_owned());
    }
    if same(base, "model.norm") {
        return Some("output_norm".to_owned());
    }
    if same(base, "lm_head") {
        return Some("output".to_owned());
    }
    match strip_prefix(base, "model.layers.") {
        None => None,
        Some(rest) => match split_once(rest.as_str(), '.') {
            None => None,
            Some((layer, tail)) => {
                let digits = chars_of(layer.as_str());
                if !only_digits(&digits) {
                    return None;
                }
                match name_layer_part(tail.as_str()) {
                    None => None,
                    Some(part) => {
                        let mut r = String::new();
                        r.append("blk.");
                        r.append(layer.as_str());
                        r.append(".");
                        r.append(part);
                        assert(r@ =~= "blk."@ + layer@ + "."@ + part@);
                        Some(r)
                    },
                }
            },
        },
    }
}

/// What a tensor is called in a GGUF.
pub fn map_with_suffix(name: &str) -> (r: Option<String>)
    ensures
        r is Some <==> mapped_with_suffix(name@) is Some,
        r is Some ==> r->0@ == mapped_with_suffix(name@)->0,
{
    match strip_suffix(name, ".weight") {
        Some(base) => match map_tensor_name(base.as_str()) {
            Some(mut m) => {
                m.append(".weight");
                Some(m)
            },
            None => None,
        },
        None => match strip_suffix(name, ".bias") {
            Some(base) => match map_tensor_name(base.as_str()) {
                Some(mut m) => {
                    m.append(".bias");
                    Some(m)
                },
                None => None,
            },
            None => map_tensor_name(name),
        },
    }
}

/// The name of a part of a layer of the model.
pub open spec fn layer_name(layer: nat, tail: Seq<char>) -> Seq<char> {
    "model.layers."@ + decimal(layer) + "."@ + tail
}

/// A layer of the prediction module in `rest`, counted on from the model's
/// layers, with what comes behind its number. `None` where there is no number
/// or the sum of both has no room.
pub open spec fn counted_on(rest: Seq<char>, n_layer: usize) -> Option<(nat, Seq<char>)> {
    match split_at_first(rest, '.') {
        None => None,
        Some((k, tail)) => match number_read(k, usize::MAX as nat) {
            None => None,
            Some(x) => if x + n_layer <= usize::MAX {
                Some((x + n_layer as nat, tail))
            } else {
                None
            },
        },
    }
}

/// The name of a part of a layer of the model.
fn make_layer_name(layer: usize, tail: &str) -> (r: String)
    ensures
        r@ == layer_name(layer as nat, tail@),
{
    let mut r = String::new();
    r.append("model.layers.");
    r.append(decimal_text(layer as u64).as_str());
    r.append(".");
    r.append(tail);
    assert(r@ =~= layer_name(layer as nat, tail@));
    r
}

/// A layer of the prediction module, counted on from the model's layers.
fn count_on(rest: &str, n_layer: usize) -> (r: Option<(usize, String)>)
    ensures
        r is Some <==> counted_on(rest@, n_layer) is Some,
        r matches Some(p) ==> counted_on(rest@, n_layer) == Some((p.0 as nat, p.1@)),
{
    match split_once(rest, '.') {
        None => None,
        Some((k, tail)) => match read_number(k.as_str()) {
            None => None,
            Some(x) => match x.checked_add(n_layer) {
                None => None,
                Some(layer) => Some((layer, tail)),
            },
        },
    }
}

/// The name of a quantized tensor with a layer of the prediction module
/// counted on from the model's layers. A name without such a layer stays.
pub open spec fn remapped(base: Seq<char>, n_layer: usize) -> Seq<char> {
    match without_prefix(base, "mtp.layers."@) {
        Some(rest) => match counted_on(rest, n_layer) {
            Some((layer, tail)) => layer_name(layer, tail),
            None => base,
        },
        None => base,
    }
}

/// The name of a quantized tensor with a layer of the prediction module
/// counted on from the model's layers.
pub fn remap_mtp_layers(base: &str, n_layer: usize) -> (r: String)
    ensures
        r@ == remapped(base@, n_layer),
{
    match strip_prefix(base, "mtp.layers.") {
        Some(rest) => match count_on(rest.as_str(), n_layer) {
            Some((layer, tail)) => make_layer_name(layer, tail.as_str()),
            None => base.to_owned(),
        },
        None => base.to_owned(),
    }
}

/// Why a tensor of the prediction module cannot be named.
pub enum MtpError {
    /// Its layer is no number, or has no room behind the model's layers.
    BadLayer,
    /// It is none of the known ones.
    Unknown,
}

/// The last place where `c` stands, or -1.
pub open spec fn last_place(s: Seq<char>, c: char) -> int
    decreases s.len(),
{
    if s.len() == 0 {
        -1
    } else if s.last() == c {
        s.len() - 1
    } else {
        last_place(s.drop_last(), c)
    }
}

/// A name up to its last point.
pub open spec fn stem_of(name: Seq<char>) -> Seq<char> {
    name.take(last_place(name, '.'))
}

/// What a tensor of the prediction module outside its layers is called.
pub open spec fn mtp_part(stem: Seq<char>) -> Option<Seq<char>> {
    if stem == "mtp.fc"@ {
        Some("eh_proj"@)
    } else if stem == "mtp.pre_fc_norm_embedding"@ {
        Some("enorm"@)
    } else if stem == "mtp.pre_fc_norm_hidden"@ {
        Some("hnorm"@)
    } else if stem == "mtp.norm"@ {
        Some("shared_head.norm"@)
    } else {
        None
    }
}

/// The name of a tensor with the prediction module behind the model's layers.
pub open spec fn standard_name(name: Seq<char>, n_layer: usize) -> Result<Seq<char>, MtpError> {
    match without_prefix(name, "mtp."@) {
        None => Ok(name),
        Some(rest) => match without_prefix(rest, "layers."@) {
            Some(rest) => match counted_on(rest, n_layer) {
                Some((layer, tail)) => Ok(layer_name(layer, tail)),
                None => Err(MtpError::BadLayer),
            },
            None => match mtp_part(stem_of(name)) {
                Some(part) => Ok(
                    layer_name(n_layer as nat, part) + name.skip(last_place(name, '.')),
                ),
                None => Err(MtpError::Unknown),
            },
        },
    }
}

/// The last place where `c` stands among the first `n` characters.
fn find_last(s: &[char], c: char) -> (r: Option<usize>)
    ensures
        match r {
            Some(i) => i == last_place(s@, c) && i < s@.len(),
            None => last_place(s@, c) == -1,
        },
{
    let mut n: usize = s.len();
    assert(s@.take(n as int) =~= s@);
    while n > 0
        invariant
            n <= s@.len(),
            last_place(s@, c) == last_place(s@.take(n as int), c),
        decreases n,
    {
        assert(s@.take(n as int).drop_last() =~= s@.take(n - 1));
        if s[n - 1] == c {
            return Some(n - 1);
        }
        n -= 1;
    }
    None
}

/// A name that has a prefix with a point has a last point.
proof fn mtp_has_point(name: Seq<char>)
    requires
        has_prefix(name, "mtp."@),
    ensures
        last_place(name, '.') >= 3,
{
    reveal_strlit("mtp.");
    assert(name.subrange(0, 4)[3] == '.');
    assert(name[3] == '.');
    last_place_at_least(name, '.', 3);
}

proof fn last_place_at_least(s: Seq<char>, c: char, i: int)
    requires
        0 <= i < s.len(),
        s[i] == c,
    ensures
        i <= last_place(s, c) < s.len(),
    decreases s.len(),
{
    if s.last() != c {
        last_place_at_least(s.drop_last(), c, i);
    }
}

/// The name of a tensor of the prediction module up to its last point.
pub fn cut_stem(name: &str) -> (r: String)
    requires
        has_prefix(name@, "mtp."@),
    ensures
        r@ == stem_of(name@),
{
    let c = chars_of(name);
    proof {
        mtp_has_point(name@);
    }
    let i: usize = match find_last(&c, '.') {
        Some(i) => i,
        None => 0,
    };
    let stem = crate::text::cut(&c, 0, i);
    assert(stem@ =~= name@.take(i as int));
    stem
}

/// The name of a tensor with the prediction module behind the model's layers.
pub fn rename_standard(name: &str, n_layer: usize) -> (r: Result<String, MtpError>)
    ensures
        match r {
            Ok(s) => standard_name(name@, n_layer) == Ok::<Seq<char>, MtpError>(s@),
            Err(e) => standard_name(name@, n_layer) == Err::<Seq<char>, MtpError>(e),
        },
{
    match strip_prefix(name, "mtp.") {
        None => Ok(name.to_owned()),
        Some(rest) => match strip_prefix(rest.as_str(), "layers.") {
            Some(rest) => match count_on(rest.as_str(), n_layer) {
                Some((layer, tail)) => Ok(make_layer_name(layer, tail.as_str())),
                None => Err(MtpError::BadLayer),
            },
            None => {
                let stem = cut_stem(name);
                let part = if same(stem.as_str(), "mtp.fc") {
                    "eh_proj"
                } else if same(stem.as_str(), "mtp.pre_fc_norm_embedding") {
                    "enorm"
                } else if same(stem.as_str(), "mtp.pre_fc_norm_hidden") {
                    "hnorm"
                } else if same(stem.as_str(), "mtp.norm") {
                    "shared_head.norm"
                } else {
                    return Err(MtpError::Unknown);
                };
                let mut r = make_layer_name(n_layer, part);
                let c = chars_of(name);
                proof {
                    mtp_has_point(name@);
                }
                let i: usize = match find_last(&c, '.') {
                    Some(i) => i,
                    None => 0,
                };
                let suffix = crate::text::cut(&c, i, c.len());
                assert(suffix@ =~= name@.skip(i as int));
                r.append(suffix.as_str());
                Ok(r)
            },
        },
    }
}

} // verus!
