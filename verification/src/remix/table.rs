//! Laws of the table of names: which name each tensor gets.

use crate::remix::names::{layer_part, mapped_name, mapped_with_suffix};
use crate::remix::naming::{ends_like, mapped_forms};
use crate::text::{all_digits, find_bounds, find_from, has_suffix};
use vstd::prelude::*;

verus! {

/// The tensor of a layer.
pub open spec fn of_layer(n: Seq<char>, tail: Seq<char>) -> Seq<char> {
    "model.layers."@ + (n + seq!['.'] + tail)
}

/// A tensor of a block.
pub open spec fn of_block(n: Seq<char>, part: Seq<char>) -> Seq<char> {
    "blk."@ + n + "."@ + part
}

/// Whether a tensor gets a name, with whatever suffix it has.
pub open spec fn called(base: Seq<char>, name: Seq<char>) -> bool {
    &&& mapped_name(base) == Some(name)
    &&& mapped_with_suffix(base) == Some(name)
    &&& mapped_with_suffix(base + ".weight"@) == Some(name + ".weight"@)
    &&& mapped_with_suffix(base + ".bias"@) == Some(name + ".bias"@)
}

/// Whether a part of a layer is one that a model has.
pub open spec fn listed(t: Seq<char>) -> bool {
    ||| t == "input_layernorm"@
    ||| t == "post_attention_layernorm"@
    ||| t == "self_attn.q_proj"@
    ||| t == "self_attn.k_proj"@
    ||| t == "self_attn.v_proj"@
    ||| t == "self_attn.o_proj"@
    ||| t == "self_attn.q_norm"@
    ||| t == "self_attn.k_norm"@
    ||| t == "mlp.gate_proj"@
    ||| t == "mlp.up_proj"@
    ||| t == "mlp.down_proj"@
    ||| t == "linear_attn.in_proj_qkv"@
    ||| t == "linear_attn.in_proj_z"@
    ||| t == "linear_attn.out_proj"@
    ||| t == "linear_attn.in_proj_a"@
    ||| t == "linear_attn.in_proj_b"@
    ||| t == "linear_attn.conv1d"@
    ||| t == "linear_attn.dt_proj"@
    ||| t == "linear_attn.A_log"@
    ||| t == "linear_attn.norm"@
    ||| t == "eh_proj"@
    ||| t == "enorm"@
    ||| t == "hnorm"@
    ||| t == "shared_head.norm"@
}

/// What the parts of a layer are called.
#[verifier::spinoff_prover]
proof fn parts_are_called()
    ensures
        layer_part("input_layernorm"@) == Some("attn_norm"@),
        layer_part("post_attention_layernorm"@) == Some("post_attention_norm"@),
        layer_part("self_attn.q_proj"@) == Some("attn_q"@),
        layer_part("self_attn.k_proj"@) == Some("attn_k"@),
        layer_part("self_attn.v_proj"@) == Some("attn_v"@),
        layer_part("self_attn.o_proj"@) == Some("attn_output"@),
        layer_part("self_attn.q_norm"@) == Some("attn_q_norm"@),
        layer_part("self_attn.k_norm"@) == Some("attn_k_norm"@),
        layer_part("mlp.gate_proj"@) == Some("ffn_gate"@),
        layer_part("mlp.up_proj"@) == Some("ffn_up"@),
        layer_part("mlp.down_proj"@) == Some("ffn_down"@),
        layer_part("linear_attn.in_proj_qkv"@) == Some("attn_qkv"@),
        layer_part("linear_attn.in_proj_z"@) == Some("attn_gate"@),
        layer_part("linear_attn.out_proj"@) == Some("ssm_out"@),
        layer_part("linear_attn.in_proj_a"@) == Some("ssm_alpha"@),
        layer_part("linear_attn.in_proj_b"@) == Some("ssm_beta"@),
        layer_part("linear_attn.conv1d"@) == Some("ssm_conv1d"@),
        layer_part("linear_attn.dt_proj"@) == Some("ssm_dt"@),
        layer_part("linear_attn.A_log"@) == Some("ssm_a"@),
        layer_part("linear_attn.norm"@) == Some("ssm_norm"@),
        layer_part("eh_proj"@) == Some("nextn.eh_proj"@),
        layer_part("enorm"@) == Some("nextn.enorm"@),
        layer_part("hnorm"@) == Some("nextn.hnorm"@),
        layer_part("shared_head.norm"@) == Some("nextn.shared_head_norm"@),
{
    reveal_strlit("input_layernorm");
    reveal_strlit("post_attention_layernorm");
    reveal_strlit("self_attn.q_proj");
    reveal_strlit("self_attn.k_proj");
    reveal_strlit("self_attn.v_proj");
    reveal_strlit("self_attn.o_proj");
    reveal_strlit("self_attn.q_norm");
    reveal_strlit("self_attn.k_norm");
    reveal_strlit("mlp.gate_proj");
    reveal_strlit("mlp.up_proj");
    reveal_strlit("mlp.down_proj");
    reveal_strlit("linear_attn.in_proj_qkv");
    reveal_strlit("linear_attn.in_proj_z");
    reveal_strlit("linear_attn.out_proj");
    reveal_strlit("linear_attn.in_proj_a");
    reveal_strlit("linear_attn.in_proj_b");
    reveal_strlit("linear_attn.conv1d");
    reveal_strlit("linear_attn.dt_proj");
    reveal_strlit("linear_attn.A_log");
    reveal_strlit("linear_attn.norm");
    reveal_strlit("eh_proj");
    reveal_strlit("enorm");
    reveal_strlit("hnorm");
    reveal_strlit("shared_head.norm");
    assert("input_layernorm"@.len() == 15);
    assert("post_attention_layernorm"@.len() == 24);
    assert("self_attn.q_proj"@.len() == 16);
    assert("self_attn.k_proj"@.len() == 16);
    assert("self_attn.v_proj"@.len() == 16);
    assert("self_attn.o_proj"@.len() == 16);
    assert("self_attn.q_norm"@.len() == 16);
    assert("self_attn.k_norm"@.len() == 16);
    assert("mlp.gate_proj"@.len() == 13);
    assert("mlp.up_proj"@.len() == 11);
    assert("mlp.down_proj"@.len() == 13);
    assert("linear_attn.in_proj_qkv"@.len() == 23);
    assert("linear_attn.in_proj_z"@.len() == 21);
    assert("linear_attn.out_proj"@.len() == 20);
    assert("linear_attn.in_proj_a"@.len() == 21);
    assert("linear_attn.in_proj_b"@.len() == 21);
    assert("linear_attn.conv1d"@.len() == 18);
    assert("linear_attn.dt_proj"@.len() == 19);
    assert("linear_attn.A_log"@.len() == 17);
    assert("linear_attn.norm"@.len() == 16);
    assert("eh_proj"@.len() == 7);
    assert("enorm"@.len() == 5);
    assert("hnorm"@.len() == 5);
    assert("shared_head.norm"@.len() == 16);
    assert("self_attn.q_proj"@[10] != "self_attn.k_proj"@[10]);
    assert("self_attn.q_proj"@[10] != "self_attn.v_proj"@[10]);
    assert("self_attn.q_proj"@[10] != "self_attn.o_proj"@[10]);
    assert("self_attn.q_proj"@[12] != "self_attn.q_norm"@[12]);
    assert("self_attn.q_proj"@[10] != "self_attn.k_norm"@[10]);
    assert("self_attn.q_proj"@[0] != "linear_attn.norm"@[0]);
    assert("self_attn.q_proj"@[1] != "shared_head.norm"@[1]);
    assert("self_attn.k_proj"@[10] != "self_attn.v_proj"@[10]);
    assert("self_attn.k_proj"@[10] != "self_attn.o_proj"@[10]);
    assert("self_attn.k_proj"@[10] != "self_attn.q_norm"@[10]);
    assert("self_attn.k_proj"@[12] != "self_attn.k_norm"@[12]);
    assert("self_attn.k_proj"@[0] != "linear_attn.norm"@[0]);
    assert("self_attn.k_proj"@[1] != "shared_head.norm"@[1]);
    assert("self_attn.v_proj"@[10] != "self_attn.o_proj"@[10]);
    assert("self_attn.v_proj"@[10] != "self_attn.q_norm"@[10]);
    assert("self_attn.v_proj"@[10] != "self_attn.k_norm"@[10]);
    assert("self_attn.v_proj"@[0] != "linear_attn.norm"@[0]);
    assert("self_attn.v_proj"@[1] != "shared_head.norm"@[1]);
    assert("self_attn.o_proj"@[10] != "self_attn.q_norm"@[10]);
    assert("self_attn.o_proj"@[10] != "self_attn.k_norm"@[10]);
    assert("self_attn.o_proj"@[0] != "linear_attn.norm"@[0]);
    assert("self_attn.o_proj"@[1] != "shared_head.norm"@[1]);
    assert("self_attn.q_norm"@[10] != "self_attn.k_norm"@[10]);
    assert("self_attn.q_norm"@[0] != "linear_attn.norm"@[0]);
    assert("self_attn.q_norm"@[1] != "shared_head.norm"@[1]);
    assert("self_attn.k_norm"@[0] != "linear_attn.norm"@[0]);
    assert("self_attn.k_norm"@[1] != "shared_head.norm"@[1]);
    assert("mlp.gate_proj"@[4] != "mlp.down_proj"@[4]);
    assert("linear_attn.in_proj_z"@[20] != "linear_attn.in_proj_a"@[20]);
    assert("linear_attn.in_proj_z"@[20] != "linear_attn.in_proj_b"@[20]);
    assert("linear_attn.in_proj_a"@[20] != "linear_attn.in_proj_b"@[20]);
    assert("linear_attn.norm"@[0] != "shared_head.norm"@[0]);
    assert("enorm"@[0] != "hnorm"@[0]);
}

/// How the name of a part ends.
#[verifier::spinoff_prover]
proof fn listed_ends(t: Seq<char>)
    requires
        listed(t),
    ensures
        t.len() >= 2,
        t.last() != 's',
        t.last() != 't' || t[t.len() - 2] != 'h',
{
    reveal_strlit("input_layernorm");
    reveal_strlit("post_attention_layernorm");
    reveal_strlit("self_attn.q_proj");
    reveal_strlit("self_attn.k_proj");
    reveal_strlit("self_attn.v_proj");
    reveal_strlit("self_attn.o_proj");
    reveal_strlit("self_attn.q_norm");
    reveal_strlit("self_attn.k_norm");
    reveal_strlit("mlp.gate_proj");
    reveal_strlit("mlp.up_proj");
    reveal_strlit("mlp.down_proj");
    reveal_strlit("linear_attn.in_proj_qkv");
    reveal_strlit("linear_attn.in_proj_z");
    reveal_strlit("linear_attn.out_proj");
    reveal_strlit("linear_attn.in_proj_a");
    reveal_strlit("linear_attn.in_proj_b");
    reveal_strlit("linear_attn.conv1d");
    reveal_strlit("linear_attn.dt_proj");
    reveal_strlit("linear_attn.A_log");
    reveal_strlit("linear_attn.norm");
    reveal_strlit("eh_proj");
    reveal_strlit("enorm");
    reveal_strlit("hnorm");
    reveal_strlit("shared_head.norm");
}

/// A tensor that has a name keeps a suffix behind it.
proof fn suffixes_follow(base: Seq<char>, name: Seq<char>)
    requires
        mapped_name(base) == Some(name),
        !has_suffix(base, ".weight"@),
        !has_suffix(base, ".bias"@),
    ensures
        called(base, name),
{
    let w = ".weight"@;
    let s = ".bias"@;
    reveal_strlit(".weight");
    reveal_strlit(".bias");
    assert(w.len() == 7 && w[6] == 't' && w[5] == 'h');
    assert(s.len() == 5 && s[4] == 's');
    ends_like(base + s, w);
    let a = base + w;
    assert(a.subrange(a.len() - 7, a.len() as int) =~= w);
    assert(a.take(a.len() - 7) =~= base);
    let b = base + s;
    assert(b.last() == 's');
    assert(b.subrange(b.len() - 5, b.len() as int) =~= s);
    assert(b.take(b.len() - 5) =~= base);
}

/// A part of a layer is called by the number of the layer and its own name.
proof fn layer_is_called(n: Seq<char>, tail: Seq<char>)
    requires
        all_digits(n),
        listed(tail),
        layer_part(tail) is Some,
    ensures
        called(of_layer(n, tail), of_block(n, layer_part(tail)->0)),
{
    let p = "model.layers."@;
    let rest = n + seq!['.'] + tail;
    let base = of_layer(n, tail);
    reveal_strlit("model.layers.");
    reveal_strlit("model.embed_tokens");
    reveal_strlit("model.norm");
    reveal_strlit("lm_head");
    assert(p.len() == 13 && p[6] == 'l');
    assert(base[6] == p[6] && base[0] == p[0]);
    assert("model.embed_tokens"@[6] == 'e');
    assert("model.norm"@[6] == 'n');
    assert("lm_head"@[0] == 'l');
    assert(base.subrange(0, 13) =~= p);
    assert(base.skip(13) =~= rest);
    find_bounds(rest, '.', 0);
    let k = find_from(rest, '.', 0);
    assert(rest[n.len() as int] == '.');
    if k < n.len() {
        assert(rest[k] == n[k]);
    }
    assert(k == n.len());
    assert(rest.take(k) =~= n);
    assert(rest.skip(k + 1) =~= tail);
    listed_ends(tail);
    assert(base.last() == tail.last());
    assert(base[base.len() - 2] == tail[tail.len() - 2]);
    reveal_strlit(".weight");
    reveal_strlit(".bias");
    ends_like(base, ".weight"@);
    ends_like(base, ".bias"@);
    suffixes_follow(base, of_block(n, layer_part(tail)->0));
}

/// Each part of layer `n` gets its name of block `n`.
pub proof fn layers_are_called(n: Seq<char>)
    requires
        all_digits(n),
    ensures
        called(of_layer(n, "input_layernorm"@), of_block(n, "attn_norm"@)),
        called(of_layer(n, "post_attention_layernorm"@), of_block(n, "post_attention_norm"@)),
        called(of_layer(n, "self_attn.q_proj"@), of_block(n, "attn_q"@)),
        called(of_layer(n, "self_attn.k_proj"@), of_block(n, "attn_k"@)),
        called(of_layer(n, "self_attn.v_proj"@), of_block(n, "attn_v"@)),
        called(of_layer(n, "self_attn.o_proj"@), of_block(n, "attn_output"@)),
        called(of_layer(n, "self_attn.q_norm"@), of_block(n, "attn_q_norm"@)),
        called(of_layer(n, "self_attn.k_norm"@), of_block(n, "attn_k_norm"@)),
        called(of_layer(n, "mlp.gate_proj"@), of_block(n, "ffn_gate"@)),
        called(of_layer(n, "mlp.up_proj"@), of_block(n, "ffn_up"@)),
        called(of_layer(n, "mlp.down_proj"@), of_block(n, "ffn_down"@)),
        called(of_layer(n, "linear_attn.in_proj_qkv"@), of_block(n, "attn_qkv"@)),
        called(of_layer(n, "linear_attn.in_proj_z"@), of_block(n, "attn_gate"@)),
        called(of_layer(n, "linear_attn.out_proj"@), of_block(n, "ssm_out"@)),
        called(of_layer(n, "linear_attn.in_proj_a"@), of_block(n, "ssm_alpha"@)),
        called(of_layer(n, "linear_attn.in_proj_b"@), of_block(n, "ssm_beta"@)),
        called(of_layer(n, "linear_attn.conv1d"@), of_block(n, "ssm_conv1d"@)),
        called(of_layer(n, "linear_attn.dt_proj"@), of_block(n, "ssm_dt"@)),
        called(of_layer(n, "linear_attn.A_log"@), of_block(n, "ssm_a"@)),
        called(of_layer(n, "linear_attn.norm"@), of_block(n, "ssm_norm"@)),
        called(of_layer(n, "eh_proj"@), of_block(n, "nextn.eh_proj"@)),
        called(of_layer(n, "enorm"@), of_block(n, "nextn.enorm"@)),
        called(of_layer(n, "hnorm"@), of_block(n, "nextn.hnorm"@)),
        called(of_layer(n, "shared_head.norm"@), of_block(n, "nextn.shared_head_norm"@)),
{
    parts_are_called();
    layer_is_called(n, "input_layernorm"@);
    layer_is_called(n, "post_attention_layernorm"@);
    layer_is_called(n, "self_attn.q_proj"@);
    layer_is_called(n, "self_attn.k_proj"@);
    layer_is_called(n, "self_attn.v_proj"@);
    layer_is_called(n, "self_attn.o_proj"@);
    layer_is_called(n, "self_attn.q_norm"@);
    layer_is_called(n, "self_attn.k_norm"@);
    layer_is_called(n, "mlp.gate_proj"@);
    layer_is_called(n, "mlp.up_proj"@);
    layer_is_called(n, "mlp.down_proj"@);
    layer_is_called(n, "linear_attn.in_proj_qkv"@);
    layer_is_called(n, "linear_attn.in_proj_z"@);
    layer_is_called(n, "linear_attn.out_proj"@);
    layer_is_called(n, "linear_attn.in_proj_a"@);
    layer_is_called(n, "linear_attn.in_proj_b"@);
    layer_is_called(n, "linear_attn.conv1d"@);
    layer_is_called(n, "linear_attn.dt_proj"@);
    layer_is_called(n, "linear_attn.A_log"@);
    layer_is_called(n, "linear_attn.norm"@);
    layer_is_called(n, "eh_proj"@);
    layer_is_called(n, "enorm"@);
    layer_is_called(n, "hnorm"@);
    layer_is_called(n, "shared_head.norm"@);
}

/// The bias of a layer's time steps gets its name.
pub proof fn step_bias_is_called(n: Seq<char>)
    requires
        all_digits(n),
    ensures
        mapped_with_suffix(of_layer(n, "linear_attn.dt_proj"@) + ".bias"@) == Some(
            of_block(n, "ssm_dt"@) + ".bias"@,
        ),
{
    layers_are_called(n);
}

/// The tensors outside the layers get their names.
pub proof fn others_are_called()
    ensures
        called("model.embed_tokens"@, "token_embd"@),
        called("model.norm"@, "output_norm"@),
        called("lm_head"@, "output"@),
{
    reveal_strlit("model.embed_tokens");
    reveal_strlit("model.norm");
    reveal_strlit("lm_head");
    assert("model.embed_tokens"@.len() == 18);
    assert("model.norm"@.len() == 10);
    assert("lm_head"@.len() == 7);
    reveal_strlit(".weight");
    reveal_strlit(".bias");
    ends_like("model.embed_tokens"@, ".weight"@);
    ends_like("model.embed_tokens"@, ".bias"@);
    ends_like("model.norm"@, ".weight"@);
    ends_like("model.norm"@, ".bias"@);
    ends_like("lm_head"@, ".weight"@);
    ends_like("lm_head"@, ".bias"@);
    suffixes_follow("model.embed_tokens"@, "token_embd"@);
    suffixes_follow("lm_head"@, "output"@);
    suffixes_follow("model.norm"@, "output_norm"@);
}

/// No other tensor gets a name: it is one of three, or a part that a layer
/// has.
pub proof fn only_these_are_called(base: Seq<char>) -> (r: (Seq<char>, Seq<char>))
    requires
        mapped_name(base) is Some,
    ensures
        ({
            ||| base == "model.embed_tokens"@
            ||| base == "model.norm"@
            ||| base == "lm_head"@
            ||| base == of_layer(r.0, r.1) && all_digits(r.0) && listed(r.1)
        }),
{
    mapped_forms(base)
}

} // verus!
