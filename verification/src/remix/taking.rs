//! Laws of which tensors are taken, and of the layers of the prediction
//! module.

use crate::remix::names::{filtered_name, last_place, mtp_part, remapped, standard_name, MtpError};
use crate::text::{
    decimal, decimal_reads_back, find_bounds, find_from, has_part, has_prefix, has_suffix, is_digit,
    number_read, occurs_at, replaced, split_at_first, without_prefix,
};
use vstd::prelude::*;

verus! {

/// What starts with a text has it as its prefix.
proof fn starts(p: Seq<char>, rest: Seq<char>)
    ensures
        has_prefix(p + rest, p),
        without_prefix(p + rest, p) == Some(rest),
{
    let s = p + rest;
    assert(s.subrange(0, p.len() as int) =~= p);
    assert(s.skip(p.len() as int) =~= rest);
}

/// Digits and what follows the point behind them.
proof fn number_and_tail(k: nat, tail: Seq<char>)
    ensures
        split_at_first(decimal(k) + seq!['.'] + tail, '.') == Some((decimal(k), tail)),
        number_read(decimal(k), k) == Some(k),
        decimal(k)[0] != '+',
{
    let n = decimal(k);
    let s = n + seq!['.'] + tail;
    decimal_reads_back(k);
    find_bounds(s, '.', 0);
    let i = find_from(s, '.', 0);
    assert(s[n.len() as int] == '.');
    if i < n.len() {
        assert(s[i] == n[i]);
    }
    assert(s.take(i) =~= n);
    assert(s.skip(i + 1) =~= tail);
    assert(is_digit(n[0]));
}

/// Layer `k` of the prediction module becomes layer `k + n_layer` of the
/// model, whatever stands behind its number, for quantized weights and for all
/// others.
pub proof fn prediction_layers_count_on(k: nat, tail: Seq<char>, n_layer: usize)
    requires
        k + n_layer <= usize::MAX,
    ensures
        ({
            let from = "mtp.layers."@ + (decimal(k) + seq!['.'] + tail);
            let to = "model.layers."@ + decimal(k + n_layer as nat) + "."@ + tail;
            &&& remapped(from, n_layer) == to
            &&& standard_name(from, n_layer) == Ok::<Seq<char>, MtpError>(to)
        }),
{
    let rest = decimal(k) + seq!['.'] + tail;
    let from = "mtp.layers."@ + rest;
    number_and_tail(k, tail);
    decimal_reads_back(k);
    starts("mtp.layers."@, rest);
    reveal_strlit("mtp.layers.");
    reveal_strlit("mtp.");
    reveal_strlit("layers.");
    assert("mtp.layers."@ =~= "mtp."@ + "layers."@);
    assert(from =~= "mtp."@ + ("layers."@ + rest));
    starts("mtp."@, "layers."@ + rest);
    starts("layers."@, rest);
}

/// What is no tensor of the prediction module keeps its name.
pub proof fn other_names_stay(name: Seq<char>, n_layer: usize)
    requires
        !has_prefix(name, "mtp."@),
    ensures
        remapped(name, n_layer) == name,
        standard_name(name, n_layer) == Ok::<Seq<char>, MtpError>(name),
{
    if has_prefix(name, "mtp.layers."@) {
        reveal_strlit("mtp.layers.");
        reveal_strlit("mtp.");
        assert(name.subrange(0, 4) =~= name.subrange(0, 11).subrange(0, 4));
        assert("mtp.layers."@.subrange(0, 4) =~= "mtp."@);
    }
}

/// The last point of a name that ends with a suffix of one.
proof fn last_point(stem: Seq<char>, x: Seq<char>)
    requires
        !x.contains('.'),
    ensures
        last_place(stem + seq!['.'] + x, '.') == stem.len(),
    decreases x.len(),
{
    let s = stem + seq!['.'] + x;
    if x.len() > 0 {
        let y = x.drop_last();
        assert(s.drop_last() =~= stem + seq!['.'] + y);
        assert(x[x.len() - 1] == x.last());
        assert(!y.contains('.')) by {
            if y.contains('.') {
                let i = choose|i: int| 0 <= i < y.len() && y[i] == '.';
                assert(x[i] == '.');
            }
        }
        last_point(stem, y);
    } else {
        assert(s =~= stem.push('.'));
    }
}

/// What the tensors of the prediction module outside its layers are called.
proof fn mtp_parts()
    ensures
        mtp_part("mtp.fc"@) == Some("eh_proj"@),
        mtp_part("mtp.pre_fc_norm_embedding"@) == Some("enorm"@),
        mtp_part("mtp.pre_fc_norm_hidden"@) == Some("hnorm"@),
        mtp_part("mtp.norm"@) == Some("shared_head.norm"@),
{
    reveal_strlit("mtp.fc");
    reveal_strlit("mtp.pre_fc_norm_embedding");
    reveal_strlit("mtp.pre_fc_norm_hidden");
    reveal_strlit("mtp.norm");
    assert("mtp.fc"@.len() == 6);
    assert("mtp.pre_fc_norm_embedding"@.len() == 25);
    assert("mtp.pre_fc_norm_hidden"@.len() == 22);
    assert("mtp.norm"@.len() == 8);
}

/// A tensor of the prediction module outside its layers stands in the first
/// layer behind those of the model.
proof fn outside_layers(stem: Seq<char>, x: Seq<char>, n_layer: usize)
    requires
        !x.contains('.'),
        has_prefix(stem, "mtp."@),
        !has_prefix(stem + seq!['.'] + x, "mtp.layers."@),
        mtp_part(stem) is Some,
    ensures
        standard_name(stem + seq!['.'] + x, n_layer) == Ok::<Seq<char>, MtpError>(
            "model.layers."@ + decimal(n_layer as nat) + "."@ + mtp_part(stem)->0 + (seq!['.'] + x),
        ),
{
    let name = stem + seq!['.'] + x;
    reveal_strlit("mtp.layers.");
    reveal_strlit("mtp.");
    reveal_strlit("layers.");
    last_point(stem, x);
    assert(name.take(stem.len() as int) =~= stem);
    assert(name.skip(stem.len() as int) =~= seq!['.'] + x);
    assert(name.subrange(0, 4) =~= stem.subrange(0, 4));
    let rest = name.skip(4);
    if has_prefix(rest, "layers."@) {
        assert(name.subrange(0, 11) =~= name.subrange(0, 4) + rest.subrange(0, 7));
        assert("mtp.layers."@ =~= "mtp."@ + "layers."@);
    }
}

/// The tensors of the prediction module outside its layers become parts of the
/// first layer behind those of the model, with their suffix.
pub proof fn prediction_parts_follow(x: Seq<char>, n_layer: usize)
    requires
        !x.contains('.'),
    ensures
        ({
            let layer = "model.layers."@ + decimal(n_layer as nat) + "."@;
            let tail = seq!['.'] + x;
            &&& standard_name("mtp.fc"@ + seq!['.'] + x, n_layer) == Ok::<Seq<char>, MtpError>(
                layer + "eh_proj"@ + tail,
            )
            &&& standard_name("mtp.pre_fc_norm_embedding"@ + seq!['.'] + x, n_layer) == Ok::<Seq<char>, MtpError>(
                layer + "enorm"@ + tail,
            )
            &&& standard_name("mtp.pre_fc_norm_hidden"@ + seq!['.'] + x, n_layer) == Ok::<Seq<char>, MtpError>(
                layer + "hnorm"@ + tail,
            )
            &&& standard_name("mtp.norm"@ + seq!['.'] + x, n_layer) == Ok::<Seq<char>, MtpError>(
                layer + "shared_head.norm"@ + tail,
            )
        }),
{
    mtp_parts();
    reveal_strlit("mtp.layers.");
    reveal_strlit("mtp.");
    let s = "mtp.fc"@;
    reveal_strlit("mtp.fc");
    assert(s.len() == 6);
    assert(s.subrange(0, 4) =~= "mtp."@);
    let t = s + seq!['.'] + x;
    assert(t[4] == s[4] && t[4] != "mtp.layers."@[4]);
    if has_prefix(t, "mtp.layers."@) {
        assert(t.subrange(0, 11)[4] == "mtp.layers."@[4]);
    }
    outside_layers(s, x, n_layer);
    let s = "mtp.pre_fc_norm_embedding"@;
    reveal_strlit("mtp.pre_fc_norm_embedding");
    assert(s.len() == 25);
    assert(s.subrange(0, 4) =~= "mtp."@);
    let t = s + seq!['.'] + x;
    assert(t[4] == s[4] && t[4] != "mtp.layers."@[4]);
    if has_prefix(t, "mtp.layers."@) {
        assert(t.subrange(0, 11)[4] == "mtp.layers."@[4]);
    }
    outside_layers(s, x, n_layer);
    let s = "mtp.pre_fc_norm_hidden"@;
    reveal_strlit("mtp.pre_fc_norm_hidden");
    assert(s.len() == 22);
    assert(s.subrange(0, 4) =~= "mtp."@);
    let t = s + seq!['.'] + x;
    assert(t[4] == s[4] && t[4] != "mtp.layers."@[4]);
    if has_prefix(t, "mtp.layers."@) {
        assert(t.subrange(0, 11)[4] == "mtp.layers."@[4]);
    }
    outside_layers(s, x, n_layer);
    let s = "mtp.norm"@;
    reveal_strlit("mtp.norm");
    assert(s.len() == 8);
    assert(s.subrange(0, 4) =~= "mtp."@);
    let t = s + seq!['.'] + x;
    assert(t[4] == s[4] && t[4] != "mtp.layers."@[4]);
    if has_prefix(t, "mtp.layers."@) {
        assert(t.subrange(0, 11)[4] == "mtp.layers."@[4]);
    }
    outside_layers(s, x, n_layer);
}

/// No other tensor of the prediction module is known.
pub proof fn other_parts_are_unknown(stem: Seq<char>, x: Seq<char>, n_layer: usize)
    requires
        !x.contains('.'),
        has_prefix(stem, "mtp."@),
        !has_prefix(stem + seq!['.'] + x, "mtp.layers."@),
        stem != "mtp.fc"@,
        stem != "mtp.pre_fc_norm_embedding"@,
        stem != "mtp.pre_fc_norm_hidden"@,
        stem != "mtp.norm"@,
    ensures
        standard_name(stem + seq!['.'] + x, n_layer) == Err::<Seq<char>, MtpError>(
            MtpError::Unknown,
        ),
{
    let name = stem + seq!['.'] + x;
    reveal_strlit("mtp.layers.");
    reveal_strlit("mtp.");
    reveal_strlit("layers.");
    last_point(stem, x);
    assert(name.take(stem.len() as int) =~= stem);
    assert(name.subrange(0, 4) =~= stem.subrange(0, 4));
    let rest = name.skip(4);
    if has_prefix(rest, "layers."@) {
        assert(name.subrange(0, 11) =~= name.subrange(0, 4) + rest.subrange(0, 7));
        assert("mtp.layers."@ =~= "mtp."@ + "layers."@);
    }
}

/// Whether a tensor is left out: it belongs to an image, a sound or what joins
/// them to the text.
pub open spec fn left_out(s: Seq<char>) -> bool {
    ||| has_prefix(s, "mlp"@)
    ||| has_prefix(s, "vit."@)
    ||| has_prefix(s, "vpm."@)
    ||| has_prefix(s, "siglip2."@)
    ||| has_prefix(s, "conformer."@)
    ||| has_prefix(s, "merger."@)
    ||| has_prefix(s, "resampler."@)
    ||| has_prefix(s, "sound_encoder."@)
    ||| has_prefix(s, "sound_projection."@)
    ||| has_prefix(s, "speech_embeddings."@)
    ||| has_part(s, "visual."@)
    ||| has_part(s, "vision."@)
    ||| has_part(s, "audio."@)
    ||| has_part(s, "talker."@)
    ||| has_part(s, "vision_"@)
    ||| has_part(s, "audio_"@)
    ||| has_part(s, "sam_model"@)
    ||| has_part(s, "token2wav."@)
    ||| has_part(s, "code2wav."@)
    ||| has_part(s, "projector."@)
    ||| has_part(s, "pre_mm_projector_norm"@)
    ||| has_part(s, "image_newline"@)
    ||| has_part(s, "view_seperator"@)
    ||| has_part(s, "patch_embed"@)
    ||| has_part(s, "patch_embedding"@)
    ||| has_part(s, "patch_merger."@)
    ||| has_part(s, "model.connector."@)
}

/// A text without the replaced one stays.
proof fn nothing_replaced(s: Seq<char>, p: Seq<char>, q: Seq<char>)
    requires
        !has_part(s, p),
    ensures
        replaced(s, p, q) == s,
    decreases s.len(),
{
    if p.len() > 0 && s.len() > 0 {
        assert(!occurs_at(s, p, 0));
        let t = s.skip(1);
        if has_part(t, p) {
            let i = choose|i: int| occurs_at(t, p, i);
            assert(s.subrange(i + 1, i + 1 + p.len()) =~= t.subrange(i, i + p.len()));
            assert(occurs_at(s, p, i + 1));
        }
        nothing_replaced(t, p, q);
        assert(seq![s[0]] + t =~= s);
    }
}

/// Where a text stands for the first time, it is replaced there.
pub proof fn first_replaced(a: Seq<char>, p: Seq<char>, q: Seq<char>, b: Seq<char>)
    requires
        p.len() > 0,
        forall|i: int| 0 <= i < a.len() ==> !#[trigger] occurs_at(a + p + b, p, i),
    ensures
        replaced(a + p + b, p, q) == a + q + replaced(b, p, q),
    decreases a.len(),
{
    let s = a + p + b;
    if a.len() == 0 {
        assert(s.subrange(0, p.len() as int) =~= p);
        assert(s.skip(p.len() as int) =~= b);
        assert(q + replaced(b, p, q) =~= a + q + replaced(b, p, q));
    } else {
        let c = a.skip(1);
        assert(!occurs_at(s, p, 0));
        assert(s.skip(1) =~= c + p + b);
        assert forall|i: int| 0 <= i < c.len() implies !#[trigger] occurs_at(c + p + b, p, i) by {
            assert(!occurs_at(s, p, i + 1));
            assert(s.subrange(i + 1, i + 1 + p.len()) =~= (c + p + b).subrange(i, i + p.len()));
        }
        first_replaced(c, p, q, b);
        assert(seq![s[0]] + (c + q + replaced(b, p, q)) =~= a + q + replaced(b, p, q));
    }
}

/// A tensor of the prediction module is taken under its own name.
pub proof fn prediction_is_taken(s: Seq<char>)
    requires
        has_prefix(s, "mtp."@),
    ensures
        filtered_name(s) == Some(s),
{
}

/// Of all others just those are taken that belong to the text.
pub proof fn only_text_is_taken(s: Seq<char>)
    requires
        !has_prefix(s, "mtp."@),
    ensures
        filtered_name(s) is None <==> left_out(s),
{
}

/// A tensor of the text is taken under its own name where no model stands
/// around the text.
pub proof fn plain_names_stay(s: Seq<char>)
    requires
        !has_prefix(s, "mtp."@),
        !left_out(s),
        !has_part(s, "language_model."@),
        !has_suffix(s, "e_score_correction_bias"@),
    ensures
        filtered_name(s) == Some(s),
{
    nothing_replaced(s, "language_model."@, ""@);
}

/// The name of the text's own model is left out of a name.
pub proof fn the_text_model_is_left_out(a: Seq<char>, b: Seq<char>)
    requires
        !has_prefix(a + "language_model."@ + b, "mtp."@),
        !left_out(a + "language_model."@ + b),
        !has_suffix(a + "language_model."@ + b, "e_score_correction_bias"@),
        !has_part(b, "language_model."@),
        forall|i: int|
            0 <= i < a.len() ==> !#[trigger] occurs_at(
                a + "language_model."@ + b,
                "language_model."@,
                i,
            ),
    ensures
        filtered_name(a + "language_model."@ + b) == Some(a + b),
{
    let p = "language_model."@;
    reveal_strlit("language_model.");
    reveal_strlit("");
    nothing_replaced(b, p, ""@);
    first_replaced(a, p, ""@, b);
    assert(a + ""@ + b =~= a + b);
}

/// A name that ends with a bias of scores written as one word gets the suffix
/// of a bias.
pub proof fn score_bias_gets_its_suffix(a: Seq<char>)
    requires
        !has_prefix(a + "e_score_correction_bias"@, "mtp."@),
        !left_out(a + "e_score_correction_bias"@),
        !has_part(a + "e_score_correction.bias"@, "language_model."@),
        forall|i: int|
            0 <= i < a.len() ==> !#[trigger] occurs_at(
                a + "e_score_correction_bias"@,
                "e_score_correction_bias"@,
                i,
            ),
    ensures
        filtered_name(a + "e_score_correction_bias"@) == Some(a + "e_score_correction.bias"@),
{
    let p = "e_score_correction_bias"@;
    let q = "e_score_correction.bias"@;
    let none = Seq::<char>::empty();
    reveal_strlit("e_score_correction_bias");
    assert(p.len() == 23);
    let s = a + p;
    assert(s.subrange(a.len() as int, s.len() as int) =~= p);
    assert(s =~= a + p + none);
    first_replaced(a, p, q, none);
    assert(a + q + none =~= a + q);
    nothing_replaced(a + q, "language_model."@, ""@);
}

} // verus!
