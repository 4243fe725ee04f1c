//! Laws of tensor names: what a tensor is called tells which tensor it is.

use crate::remix::names::{layer_part, mapped_name, mapped_with_suffix};
use crate::text::{
    all_digits, find_bounds, has_suffix, split_at_first, without_prefix, without_suffix,
};
use vstd::prelude::*;

verus! {

/// Different parts of a layer are called differently.
#[verifier::spinoff_prover]
proof fn parts_differ(a: Seq<char>, b: Seq<char>)
    requires
        layer_part(a) is Some,
        layer_part(a) == layer_part(b),
    ensures
        a == b,
{
    reveal_strlit("attn_norm");
    reveal_strlit("post_attention_norm");
    reveal_strlit("attn_q");
    reveal_strlit("attn_k");
    reveal_strlit("attn_v");
    reveal_strlit("attn_output");
    reveal_strlit("attn_q_norm");
    reveal_strlit("attn_k_norm");
    reveal_strlit("ffn_gate");
    reveal_strlit("ffn_up");
    reveal_strlit("ffn_down");
    reveal_strlit("attn_qkv");
    reveal_strlit("attn_gate");
    reveal_strlit("ssm_out");
    reveal_strlit("ssm_alpha");
    reveal_strlit("ssm_beta");
    reveal_strlit("ssm_conv1d");
    reveal_strlit("ssm_dt");
    reveal_strlit("ssm_a");
    reveal_strlit("ssm_norm");
    reveal_strlit("nextn.eh_proj");
    reveal_strlit("nextn.enorm");
    reveal_strlit("nextn.hnorm");
    reveal_strlit("nextn.shared_head_norm");
    assert("attn_norm"@.len() == 9);
    assert("post_attention_norm"@.len() == 19);
    assert("attn_q"@.len() == 6);
    assert("attn_k"@.len() == 6);
    assert("attn_v"@.len() == 6);
    assert("attn_output"@.len() == 11);
    assert("attn_q_norm"@.len() == 11);
    assert("attn_k_norm"@.len() == 11);
    assert("ffn_gate"@.len() == 8);
    assert("ffn_up"@.len() == 6);
    assert("ffn_down"@.len() == 8);
    assert("attn_qkv"@.len() == 8);
    assert("attn_gate"@.len() == 9);
    assert("ssm_out"@.len() == 7);
    assert("ssm_alpha"@.len() == 9);
    assert("ssm_beta"@.len() == 8);
    assert("ssm_conv1d"@.len() == 10);
    assert("ssm_dt"@.len() == 6);
    assert("ssm_a"@.len() == 5);
    assert("ssm_norm"@.len() == 8);
    assert("nextn.eh_proj"@.len() == 13);
    assert("nextn.enorm"@.len() == 11);
    assert("nextn.hnorm"@.len() == 11);
    assert("nextn.shared_head_norm"@.len() == 22);
    assert("attn_norm"@[5] != "attn_gate"@[5]);
    assert("attn_norm"@[0] != "ssm_alpha"@[0]);
    assert("attn_q"@[5] != "attn_k"@[5]);
    assert("attn_q"@[5] != "attn_v"@[5]);
    assert("attn_q"@[0] != "ffn_up"@[0]);
    assert("attn_q"@[0] != "ssm_dt"@[0]);
    assert("attn_k"@[5] != "attn_v"@[5]);
    assert("attn_k"@[0] != "ffn_up"@[0]);
    assert("attn_k"@[0] != "ssm_dt"@[0]);
    assert("attn_v"@[0] != "ffn_up"@[0]);
    assert("attn_v"@[0] != "ssm_dt"@[0]);
    assert("attn_output"@[5] != "attn_q_norm"@[5]);
    assert("attn_output"@[5] != "attn_k_norm"@[5]);
    assert("attn_output"@[0] != "nextn.enorm"@[0]);
    assert("attn_output"@[0] != "nextn.hnorm"@[0]);
    assert("attn_q_norm"@[5] != "attn_k_norm"@[5]);
    assert("attn_q_norm"@[0] != "nextn.enorm"@[0]);
    assert("attn_q_norm"@[0] != "nextn.hnorm"@[0]);
    assert("attn_k_norm"@[0] != "nextn.enorm"@[0]);
    assert("attn_k_norm"@[0] != "nextn.hnorm"@[0]);
    assert("ffn_gate"@[4] != "ffn_down"@[4]);
    assert("ffn_gate"@[0] != "attn_qkv"@[0]);
    assert("ffn_gate"@[0] != "ssm_beta"@[0]);
    assert("ffn_gate"@[0] != "ssm_norm"@[0]);
    assert("ffn_up"@[0] != "ssm_dt"@[0]);
    assert("ffn_down"@[0] != "attn_qkv"@[0]);
    assert("ffn_down"@[0] != "ssm_beta"@[0]);
    assert("ffn_down"@[0] != "ssm_norm"@[0]);
    assert("attn_qkv"@[0] != "ssm_beta"@[0]);
    assert("attn_qkv"@[0] != "ssm_norm"@[0]);
    assert("attn_gate"@[0] != "ssm_alpha"@[0]);
    assert("ssm_beta"@[4] != "ssm_norm"@[4]);
    assert("nextn.enorm"@[6] != "nextn.hnorm"@[6]);
    if layer_part(a) == Some("attn_norm"@) {
        assert(a == "input_layernorm"@);
        assert(b == "input_layernorm"@);
    }
    if layer_part(a) == Some("post_attention_norm"@) {
        assert(a == "post_attention_layernorm"@);
        assert(b == "post_attention_layernorm"@);
    }
    if layer_part(a) == Some("attn_q"@) {
        assert(a == "self_attn.q_proj"@);
        assert(b == "self_attn.q_proj"@);
    }
    if layer_part(a) == Some("attn_k"@) {
        assert(a == "self_attn.k_proj"@);
        assert(b == "self_attn.k_proj"@);
    }
    if layer_part(a) == Some("attn_v"@) {
        assert(a == "self_attn.v_proj"@);
        assert(b == "self_attn.v_proj"@);
    }
    if layer_part(a) == Some("attn_output"@) {
        assert(a == "self_attn.o_proj"@);
        assert(b == "self_attn.o_proj"@);
    }
    if layer_part(a) == Some("attn_q_norm"@) {
        assert(a == "self_attn.q_norm"@);
        assert(b == "self_attn.q_norm"@);
    }
    if layer_part(a) == Some("attn_k_norm"@) {
        assert(a == "self_attn.k_norm"@);
        assert(b == "self_attn.k_norm"@);
    }
    if layer_part(a) == Some("ffn_gate"@) {
        assert(a == "mlp.gate_proj"@);
        assert(b == "mlp.gate_proj"@);
    }
    if layer_part(a) == Some("ffn_up"@) {
        assert(a == "mlp.up_proj"@);
        assert(b == "mlp.up_proj"@);
    }
    if layer_part(a) == Some("ffn_down"@) {
        assert(a == "mlp.down_proj"@);
        assert(b == "mlp.down_proj"@);
    }
    if layer_part(a) == Some("attn_qkv"@) {
        assert(a == "linear_attn.in_proj_qkv"@);
        assert(b == "linear_attn.in_proj_qkv"@);
    }
    if layer_part(a) == Some("attn_gate"@) {
        assert(a == "linear_attn.in_proj_z"@);
        assert(b == "linear_attn.in_proj_z"@);
    }
    if layer_part(a) == Some("ssm_out"@) {
        assert(a == "linear_attn.out_proj"@);
        assert(b == "linear_attn.out_proj"@);
    }
    if layer_part(a) == Some("ssm_alpha"@) {
        assert(a == "linear_attn.in_proj_a"@);
        assert(b == "linear_attn.in_proj_a"@);
    }
    if layer_part(a) == Some("ssm_beta"@) {
        assert(a == "linear_attn.in_proj_b"@);
        assert(b == "linear_attn.in_proj_b"@);
    }
    if layer_part(a) == Some("ssm_conv1d"@) {
        assert(a == "linear_attn.conv1d"@);
        assert(b == "linear_attn.conv1d"@);
    }
    if layer_part(a) == Some("ssm_dt"@) {
        assert(a == "linear_attn.dt_proj"@);
        assert(b == "linear_attn.dt_proj"@);
    }
    if layer_part(a) == Some("ssm_a"@) {
        assert(a == "linear_attn.A_log"@);
        assert(b == "linear_attn.A_log"@);
    }
    if layer_part(a) == Some("ssm_norm"@) {
        assert(a == "linear_attn.norm"@);
        assert(b == "linear_attn.norm"@);
    }
    if layer_part(a) == Some("nextn.eh_proj"@) {
        assert(a == "eh_proj"@);
        assert(b == "eh_proj"@);
    }
    if layer_part(a) == Some("nextn.enorm"@) {
        assert(a == "enorm"@);
        assert(b == "enorm"@);
    }
    if layer_part(a) == Some("nextn.hnorm"@) {
        assert(a == "hnorm"@);
        assert(b == "hnorm"@);
    }
    if layer_part(a) == Some("nextn.shared_head_norm"@) {
        assert(a == "shared_head.norm"@);
        assert(b == "shared_head.norm"@);
    }
}

/// How the name of a part ends.
#[verifier::spinoff_prover]
proof fn part_end(t: Seq<char>)
    requires
        layer_part(t) is Some,
    ensures
        ({
            let p = layer_part(t)->0;
            &&& p.len() >= 2
            &&& p.last() != 's'
            &&& p.last() != 't' || p[p.len() - 2] != 'h'
        }),
{
    reveal_strlit("attn_norm");
    reveal_strlit("post_attention_norm");
    reveal_strlit("attn_q");
    reveal_strlit("attn_k");
    reveal_strlit("attn_v");
    reveal_strlit("attn_output");
    reveal_strlit("attn_q_norm");
    reveal_strlit("attn_k_norm");
    reveal_strlit("ffn_gate");
    reveal_strlit("ffn_up");
    reveal_strlit("ffn_down");
    reveal_strlit("attn_qkv");
    reveal_strlit("attn_gate");
    reveal_strlit("ssm_out");
    reveal_strlit("ssm_alpha");
    reveal_strlit("ssm_beta");
    reveal_strlit("ssm_conv1d");
    reveal_strlit("ssm_dt");
    reveal_strlit("ssm_a");
    reveal_strlit("ssm_norm");
    reveal_strlit("nextn.eh_proj");
    reveal_strlit("nextn.enorm");
    reveal_strlit("nextn.hnorm");
    reveal_strlit("nextn.shared_head_norm");
}

/// A name is its prefix and what follows it.
proof fn prefix_and_rest(s: Seq<char>, p: Seq<char>)
    requires
        without_prefix(s, p) is Some,
    ensures
        s == p + without_prefix(s, p)->0,
{
    assert(s.subrange(0, p.len() as int) == p);
    assert(s =~= s.subrange(0, p.len() as int) + s.skip(p.len() as int));
}

/// A name is its suffix behind what it follows.
proof fn rest_and_suffix(s: Seq<char>, p: Seq<char>)
    requires
        without_suffix(s, p) is Some,
    ensures
        s == without_suffix(s, p)->0 + p,
{
    let n = s.len() - p.len();
    assert(s.subrange(n, n + p.len()) == p);
    assert(s =~= s.take(n) + s.subrange(n, n + p.len()));
}

/// Whether a name is that of a part of a layer.
pub open spec fn names_layer(base: Seq<char>, layer: Seq<char>, tail: Seq<char>) -> bool {
    &&& base == "model.layers."@ + (layer + seq!['.'] + tail)
    &&& all_digits(layer)
    &&& layer_part(tail) is Some
    &&& mapped_name(base) == Some("blk."@ + layer + "."@ + layer_part(tail)->0)
}

/// A tensor that has a name is one of three, or a part of a layer.
pub proof fn mapped_forms(base: Seq<char>) -> (r: (Seq<char>, Seq<char>))
    requires
        mapped_name(base) is Some,
    ensures
        ({
            ||| base == "model.embed_tokens"@ && mapped_name(base) == Some("token_embd"@)
            ||| base == "model.norm"@ && mapped_name(base) == Some("output_norm"@)
            ||| base == "lm_head"@ && mapped_name(base) == Some("output"@)
            ||| names_layer(base, r.0, r.1)
        }),
{
    if base == "model.embed_tokens"@ || base == "model.norm"@ || base == "lm_head"@ {
        (base, base)
    } else {
        prefix_and_rest(base, "model.layers."@);
        let rest = without_prefix(base, "model.layers."@)->0;
        find_bounds(rest, '.', 0);
        let (layer, tail) = split_at_first(rest, '.')->0;
        assert(rest =~= layer + seq!['.'] + tail);
        (layer, tail)
    }
}

/// How a name without a suffix starts and ends.
proof fn mapped_ends(base: Seq<char>)
    requires
        mapped_name(base) is Some,
    ensures
        ({
            let m = mapped_name(base)->0;
            &&& m.len() >= 2
            &&& m.last() != 's'
            &&& m.last() != 't' || m[m.len() - 2] != 'h'
        }),
{
    reveal_strlit("token_embd");
    reveal_strlit("output_norm");
    reveal_strlit("output");
    let (layer, tail) = mapped_forms(base);
    if names_layer(base, layer, tail) {
        part_end(tail);
        let m = mapped_name(base)->0;
        let p = layer_part(tail)->0;
        assert(m.last() == p.last());
        assert(m[m.len() - 2] == p[p.len() - 2]);
    }
}

/// Parts of layers that are called the same are the same.
proof fn layers_differ(
    a: Seq<char>,
    b: Seq<char>,
    la: Seq<char>,
    ta: Seq<char>,
    lb: Seq<char>,
    tb: Seq<char>,
)
    requires
        names_layer(a, la, ta),
        names_layer(b, lb, tb),
        mapped_name(a) == mapped_name(b),
    ensures
        a == b,
{
    reveal_strlit("blk.");
    reveal_strlit(".");
    let pa = layer_part(ta)->0;
    let pb = layer_part(tb)->0;
    let x = "blk."@ + la + "."@ + pa;
    let y = "blk."@ + lb + "."@ + pb;
    assert(x == y);
    if la.len() < lb.len() {
        let k = la.len() as int;
        assert(x[4 + k] == '.');
        assert(y[4 + k] == lb[k]);
    } else if lb.len() < la.len() {
        let k = lb.len() as int;
        assert(y[4 + k] == '.');
        assert(x[4 + k] == la[k]);
    } else {
        let n = la.len() as int;
        assert(la =~= x.subrange(4, 4 + n));
        assert(lb =~= y.subrange(4, 4 + n));
        assert(pa =~= x.skip(5 + n));
        assert(pb =~= y.skip(5 + n));
        parts_differ(ta, tb);
    }
}

/// Different tensors are called differently, without a suffix.
pub proof fn names_differ(a: Seq<char>, b: Seq<char>)
    requires
        mapped_name(a) is Some,
        mapped_name(a) == mapped_name(b),
    ensures
        a == b,
{
    reveal_strlit("token_embd");
    reveal_strlit("output_norm");
    reveal_strlit("output");
    reveal_strlit("blk.");
    let (la, ta) = mapped_forms(a);
    let (lb, tb) = mapped_forms(b);
    let m = mapped_name(a)->0;
    if names_layer(a, la, ta) {
        assert(m[0] == 'b');
    }
    if names_layer(b, lb, tb) {
        assert(m[0] == 'b');
    }
    assert("token_embd"@[0] == 't' && "output_norm"@[0] == 'o' && "output"@[0] == 'o');
    assert("output_norm"@.len() != "output"@.len());
    if names_layer(a, la, ta) && names_layer(b, lb, tb) {
        layers_differ(a, b, la, ta, lb, tb);
    }
}

/// A name keeps its suffix: what a tensor is called ends with `.weight` or
/// `.bias` just where the tensor's name does, and without it is what the
/// tensor without it is called.
pub proof fn suffix_stays(a: Seq<char>)
    requires
        mapped_with_suffix(a) is Some,
    ensures
        ({
            let x = mapped_with_suffix(a)->0;
            &&& has_suffix(x, ".weight"@) == has_suffix(a, ".weight"@)
            &&& has_suffix(x, ".bias"@) == has_suffix(a, ".bias"@)
            &&& has_suffix(a, ".weight"@) ==> without_suffix(x, ".weight"@) == mapped_name(
                without_suffix(a, ".weight"@)->0,
            )
            &&& has_suffix(a, ".bias"@) ==> without_suffix(x, ".bias"@) == mapped_name(
                without_suffix(a, ".bias"@)->0,
            )
            &&& !has_suffix(a, ".weight"@) && !has_suffix(a, ".bias"@) ==> mapped_name(a) == Some(x)
        }),
{
    let w = ".weight"@;
    let s = ".bias"@;
    reveal_strlit(".weight");
    reveal_strlit(".bias");
    assert(w.len() == 7 && w[6] == 't' && w[5] == 'h');
    assert(s.len() == 5 && s[4] == 's');
    let x = mapped_with_suffix(a)->0;
    ends_like(x, w);
    ends_like(x, s);
    ends_like(a, w);
    ends_like(a, s);
    if has_suffix(a, w) {
        let m = mapped_name(without_suffix(a, w)->0)->0;
        assert(x.skip(m.len() as int) =~= w);
        assert(x.take(m.len() as int) =~= m);
    } else if has_suffix(a, s) {
        let m = mapped_name(without_suffix(a, s)->0)->0;
        assert(x.skip(m.len() as int) =~= s);
        assert(x.take(m.len() as int) =~= m);
    } else {
        mapped_ends(a);
    }
}

/// What ends with a suffix ends with the suffix's characters.
pub proof fn ends_like(s: Seq<char>, p: Seq<char>)
    requires
        p.len() >= 2,
    ensures
        has_suffix(s, p) ==> s.len() >= p.len() && s.last() == p.last() && s[s.len() - 2] == p[p.len()
            - 2],
{
    if has_suffix(s, p) {
        let t = s.subrange(s.len() - p.len(), s.len() as int);
        assert(t == p);
        assert(t[p.len() - 1] == s.last());
        assert(t[p.len() - 2] == s[s.len() - 2]);
    }
}

/// No two tensors are called the same.
pub proof fn mapped_names_differ(a: Seq<char>, b: Seq<char>)
    requires
        mapped_with_suffix(a) is Some,
        mapped_with_suffix(a) == mapped_with_suffix(b),
    ensures
        a == b,
{
    let w = ".weight"@;
    let s = ".bias"@;
    suffix_stays(a);
    suffix_stays(b);
    if has_suffix(a, w) {
        names_differ(without_suffix(a, w)->0, without_suffix(b, w)->0);
        rest_and_suffix(a, w);
        rest_and_suffix(b, w);
    } else if has_suffix(a, s) {
        names_differ(without_suffix(a, s)->0, without_suffix(b, s)->0);
        rest_and_suffix(a, s);
        rest_and_suffix(b, s);
    } else {
        names_differ(a, b);
    }
}

} // verus!
