//! Laws of a model's configuration: where its parameters stand, which of them
//! make its heads and layers, and which checkpoints are taken.

use crate::json::{entry, JsonView};
use crate::remix::config::{config_refusal, missing_topology, param, param_at, topology_of};
use crate::remix::kvs::{
    count_char, looks_like_id, missing_head, missing_size, shape_refusal, texts_in, texts_of,
};
use crate::remix::plan::Refusal;
use vstd::prelude::*;

verus! {

/// Under a key stands the first entry with it.
pub proof fn keys_are_found(entries: Seq<(Seq<char>, JsonView)>, i: int)
    requires
        0 <= i < entries.len(),
        forall|j: int| 0 <= j < i ==> (#[trigger] entries[j]).0 != entries[i].0,
    ensures
        JsonView::Obj(entries).get(entries[i].0) == Some(entries[i].1),
        JsonView::Obj(entries).at(entries[i].0) == entries[i].1,
    decreases i,
{
    if i > 0 {
        let rest = entries.drop_first();
        assert(entries[0].0 != entries[i].0);
        assert forall|j: int| 0 <= j < i - 1 implies (#[trigger] rest[j]).0 != rest[i - 1].0 by {
            assert(rest[j] == entries[j + 1]);
        }
        keys_are_found(rest, i - 1);
        assert(entry(rest, entries[i].0) == Some(entries[i].1));
    }
}

/// A parameter of the text's configuration comes before one of the model's own.
pub proof fn text_parameters_come_first(root: JsonView, key: Seq<char>)
    ensures
        root.at("text_config"@).get(key) is Some ==> param(root, key) == root.at(
            "text_config"@,
        ).get(key),
        root.at("text_config"@).get(key) is None ==> param(root, key) == root.get(key),
{
}

/// The number of a parameter.
pub open spec fn counted(root: JsonView, key: Seq<char>) -> Option<u64> {
    match param(root, key) {
        Some(JsonView::Num(n)) => n.unsigned,
        _ => None,
    }
}

/// A model's heads and layers are counted by five parameters.
pub proof fn heads_are_counted(root: JsonView, k: u64, v: u64, dk: u64, dv: u64, n: u64)
    requires
        counted(root, "linear_num_key_heads"@) == Some(k),
        counted(root, "linear_num_value_heads"@) == Some(v),
        counted(root, "linear_key_head_dim"@) == Some(dk),
        counted(root, "linear_value_head_dim"@) == Some(dv),
        counted(root, "num_hidden_layers"@) == Some(n),
    ensures
        missing_topology(root) is None,
        topology_of(root).num_k_heads == k as usize,
        topology_of(root).num_v_heads == v as usize,
        topology_of(root).head_k_dim == dk as usize,
        topology_of(root).head_v_dim == dv as usize,
        topology_of(root).n_layer == n as usize,
{
}

/// The first of these parameters that is missing is named.
pub proof fn a_missing_count_is_named(root: JsonView)
    ensures
        ({
            let k = counted(root, "linear_num_key_heads"@) is None;
            let v = counted(root, "linear_num_value_heads"@) is None;
            let dk = counted(root, "linear_key_head_dim"@) is None;
            let dv = counted(root, "linear_value_head_dim"@) is None;
            let n = counted(root, "num_hidden_layers"@) is None;
            let m = missing_topology(root);
            &&& k ==> m == Some("linear_num_key_heads"@)
            &&& !k && v ==> m == Some("linear_num_value_heads"@)
            &&& !k && !v && dk ==> m == Some("linear_key_head_dim"@)
            &&& !k && !v && !dk && dv ==> m == Some("linear_value_head_dim"@)
            &&& !k && !v && !dk && !dv && n ==> m == Some("num_hidden_layers"@)
            &&& !k && !v && !dk && !dv && !n ==> m is None
        }),
{
}

/// A text, or nothing where there is none.
pub open spec fn said(v: JsonView) -> Seq<char> {
    match v {
        JsonView::Str(s) => s,
        _ => Seq::empty(),
    }
}

/// Whether a checkpoint's architecture is known.
pub open spec fn known_architecture(root: JsonView) -> bool {
    let a = said(param_at(root, "architectures"@).item(0));
    a == "Qwen3_5ForConditionalGeneration"@ || a == "Qwen3_5ForCausalLM"@
}

/// Whether a checkpoint was quantized by a known method.
pub open spec fn known_method(root: JsonView) -> bool {
    let m = said(param_at(root, "quantization_config"@).at("quant_method"@));
    m == "auto-round"@ || m == "auto_round"@
}

/// Whether a checkpoint has four symmetric bits.
pub open spec fn known_bits(root: JsonView) -> bool {
    let q = param_at(root, "quantization_config"@);
    q.at("bits"@).as_unsigned() == Some(4u64) && q.at("sym"@) == JsonView::Bool(true)
}

/// Whether a checkpoint has groups of 128.
pub open spec fn known_groups(root: JsonView) -> bool {
    param_at(root, "quantization_config"@).at("group_size"@).as_unsigned() == Some(128u64)
}

/// A checkpoint is taken where its architecture, its method, its bits and its groups
/// are known, and else refused for the first of these that is not.
pub proof fn checkpoints_that_are_taken(root: JsonView)
    ensures
        ({
            let a = known_architecture(root);
            let m = known_method(root);
            let b = known_bits(root);
            let g = known_groups(root);
            let r = config_refusal(root);
            &&& r is None <==> a && m && b && g
            &&& !a ==> r == Some(
                (
                    Refusal::UnsupportedArchitecture,
                    said(param_at(root, "architectures"@).item(0)),
                ),
            )
            &&& a && !m ==> r == Some(
                (
                    Refusal::NotAutoRound,
                    said(param_at(root, "quantization_config"@).at("quant_method"@)),
                ),
            )
            &&& a && m && !b ==> (r matches Some(e) && e.0 == Refusal::UnsupportedBits)
            &&& a && m && b && !g ==> (r matches Some(e) && e.0
                == Refusal::UnsupportedGroupSize)
        }),
{
}

/// The parameters of the rotary embedding are those of one key, or of another where that has none.
pub open spec fn rotary(root: JsonView) -> JsonView {
    if param_at(root, "rope_parameters"@) != JsonView::Null {
        param_at(root, "rope_parameters"@)
    } else {
        param_at(root, "rope_scaling"@)
    }
}

/// Whether the rotary embedding is scaled in a way that has metadata of its own.
pub open spec fn scaled(root: JsonView) -> bool {
    let t = rotary(root).at("rope_type"@);
    t == JsonView::Str("linear"@) || t == JsonView::Str("yarn"@) || t == JsonView::Str("su"@) || t
        == JsonView::Str("longrope"@)
}

/// Whether the sizes of a model are there.
pub open spec fn has_sizes(root: JsonView) -> bool {
    &&& counted(root, "num_hidden_layers"@) is Some
    &&& counted(root, "max_position_embeddings"@) is Some
    &&& counted(root, "hidden_size"@) is Some
    &&& counted(root, "intermediate_size"@) is Some
    &&& counted(root, "num_attention_heads"@) is Some
    &&& counted(root, "num_key_value_heads"@) is Some
}

/// Whether the heads of a model are there.
pub open spec fn has_heads(root: JsonView) -> bool {
    &&& param_at(root, "rms_norm_eps"@).as_real() is Some
    &&& counted(root, "head_dim"@) is Some
    &&& counted(root, "linear_conv_kernel_dim"@) is Some
    &&& counted(root, "linear_key_head_dim"@) is Some
    &&& counted(root, "linear_num_key_heads"@) is Some
    &&& counted(root, "linear_num_value_heads"@) is Some
    &&& counted(root, "linear_value_head_dim"@) is Some
}

/// How many layers a model has with those that predict further tokens.
pub open spec fn all_layers(root: JsonView) -> int {
    counted(root, "num_hidden_layers"@)->0 + (match counted(root, "mtp_num_hidden_layers"@) {
        Some(n) => n as int,
        None => 0,
    })
}

/// A model's shape is refused for a size that is missing, for too many layers, for a scaled rotary
/// embedding, for a head that is missing, for heads that are too large, for an unknown type, or for
/// a missing number of tokens, in this order, and for nothing else.
pub proof fn shapes_that_are_refused(root: JsonView)
    ensures
        ({
            let r = shape_refusal(root);
            let a = has_sizes(root);
            let b = all_layers(root) <= 0xffff_ffff_ffff_ffff;
            let c = !scaled(root);
            let d = has_heads(root);
            let e = counted(root, "linear_value_head_dim"@)->0 * counted(
                root,
                "linear_num_value_heads"@,
            )->0 <= 0xffff_ffff_ffff_ffff;
            let t = said(param_at(root, "model_type"@));
            let f = t == "qwen3_5"@ || t == "qwen3_5_text"@;
            let g = counted(root, "vocab_size"@) is Some;
            &&& !a ==> (r matches Some(x) && x.0 == Refusal::MissingParameter)
            &&& a && !b ==> r == Some((Refusal::ParameterRange, "num_hidden_layers"@))
            &&& a && b && !c ==> r == Some(
                (Refusal::RopeScaling, said(rotary(root).at("rope_type"@))),
            )
            &&& a && b && c && !d ==> (r matches Some(x) && x.0 == Refusal::MissingParameter)
            &&& a && b && c && d && !e ==> r == Some(
                (Refusal::ParameterRange, "linear_value_head_dim"@),
            )
            &&& a && b && c && d && e && !f ==> r == Some((Refusal::UnknownModelType, t))
            &&& a && b && c && d && e && f && !g ==> r == Some(
                (Refusal::MissingParameter, "vocab_size"@),
            )
            &&& a && b && c && d && e && f && g ==> r is None
        }),
{
}

/// A missing parameter of a shape is named: it is the first that is not there.
pub proof fn missing_sizes_are_named(root: JsonView)
    ensures
        ({
            let x0 = counted(root, "num_hidden_layers"@) is Some;
            let x1 = counted(root, "max_position_embeddings"@) is Some;
            let x2 = counted(root, "hidden_size"@) is Some;
            let x3 = counted(root, "intermediate_size"@) is Some;
            let x4 = counted(root, "num_attention_heads"@) is Some;
            let x5 = counted(root, "num_key_value_heads"@) is Some;
            let m = missing_size(root);
            &&& !x0 ==> m == Some("num_hidden_layers"@)
            &&& x0 && !x1 ==> m == Some("max_position_embeddings"@)
            &&& x0 && x1 && !x2 ==> m == Some("hidden_size"@)
            &&& x0 && x1 && x2 && !x3 ==> m == Some("intermediate_size"@)
            &&& x0 && x1 && x2 && x3 && !x4 ==> m == Some("num_attention_heads"@)
            &&& x0 && x1 && x2 && x3 && x4 && !x5 ==> m == Some("num_key_value_heads"@)
            &&& x0 && x1 && x2 && x3 && x4 && x5 ==> m is None
        }),
        ({
            let x0 = param_at(root, "rms_norm_eps"@).as_real() is Some;
            let x1 = counted(root, "head_dim"@) is Some;
            let x2 = counted(root, "linear_conv_kernel_dim"@) is Some;
            let x3 = counted(root, "linear_key_head_dim"@) is Some;
            let x4 = counted(root, "linear_num_key_heads"@) is Some;
            let x5 = counted(root, "linear_num_value_heads"@) is Some;
            let x6 = counted(root, "linear_value_head_dim"@) is Some;
            let m = missing_head(root);
            &&& !x0 ==> m == Some("rms_norm_eps"@)
            &&& x0 && !x1 ==> m == Some("head_dim"@)
            &&& x0 && x1 && !x2 ==> m == Some("linear_conv_kernel_dim"@)
            &&& x0 && x1 && x2 && !x3 ==> m == Some("linear_key_head_dim"@)
            &&& x0 && x1 && x2 && x3 && !x4 ==> m == Some("linear_num_key_heads"@)
            &&& x0 && x1 && x2 && x3 && x4 && !x5 ==> m == Some("linear_num_value_heads"@)
            &&& x0 && x1 && x2 && x3 && x4 && x5 && !x6 ==> m == Some("linear_value_head_dim"@)
            &&& x0 && x1 && x2 && x3 && x4 && x5 && x6 ==> m is None
        }),
{
}

/// The texts of a list are those of its items that are texts, in their order.
pub proof fn texts_are_picked(v: Seq<JsonView>, last: JsonView)
    ensures
        texts_in(Seq::empty()).len() == 0,
        texts_in(v.push(last)) == (match last {
            JsonView::Str(s) => texts_in(v).push(s),
            _ => texts_in(v),
        }),
        texts_of(JsonView::Arr(v)) == texts_in(v),
        last matches JsonView::Str(s) ==> texts_of(last) == seq![s],
        !(last is Str) && !(last is Arr) ==> texts_of(last).len() == 0,
{
    assert(v.push(last).drop_last() =~= v);
}

/// How often a character stands in a text, from either end.
proof fn counts_add_up(a: Seq<char>, b: Seq<char>, c: char)
    ensures
        count_char(a + b, c) == count_char(a, c) + count_char(b, c),
    decreases b.len(),
{
    if b.len() == 0 {
        assert(a + b =~= a);
    } else {
        counts_add_up(a, b.drop_last(), c);
        assert((a + b).drop_last() =~= a + b.drop_last());
        assert((a + b).last() == b.last());
    }
}

/// A path looks like the id of a model where it has one slash at most, and is not empty.
pub proof fn paths_look_like_ids(a: Seq<char>, b: Seq<char>)
    requires
        forall|k: int| 0 <= k < a.len() ==> #[trigger] a[k] != '/',
    ensures
        looks_like_id(a) <==> a.len() > 0,
        looks_like_id(a + seq!['/'] + b) <==> forall|k: int| 0 <= k < b.len() ==> #[trigger] b[k]
            != '/',
{
    no_slash(a);
    no_slash(b);
    counts_add_up(a + seq!['/'], b, '/');
    counts_add_up(a, seq!['/'], '/');
    assert(count_char(seq!['/'], '/') == 1) by {
        assert(seq!['/'].drop_last() =~= Seq::empty());
        reveal_with_fuel(count_char, 2);
    }
}

/// There is none of a character just where no place has it.
proof fn no_slash(s: Seq<char>)
    ensures
        count_char(s, '/') == 0 <==> forall|k: int| 0 <= k < s.len() ==> #[trigger] s[k] != '/',
    decreases s.len(),
{
    if s.len() > 0 {
        let t = s.drop_last();
        no_slash(t);
        if count_char(s, '/') == 0 {
            assert forall|k: int| 0 <= k < s.len() implies #[trigger] s[k] != '/' by {
                if k < t.len() {
                    assert(t[k] == s[k]);
                }
            }
        }
        if forall|k: int| 0 <= k < s.len() ==> #[trigger] s[k] != '/' {
            assert forall|k: int| 0 <= k < t.len() implies #[trigger] t[k] != '/' by {
                assert(t[k] == s[k]);
            }
            assert(s[s.len() - 1] != '/');
        }
    }
}

} // verus!
