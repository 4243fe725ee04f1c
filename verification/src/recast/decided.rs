//! Laws of what a recast decides: names, bands, tiers and scales, and what
//! becomes of a tensor's type and of its elements.

use crate::fp::bf16_single;
use crate::gguf::format::{product, TensorView};
use crate::ieee::convert::{double_of_single, double_over, single_of_double, single_over};
use crate::ieee::decimal::g6_text;
use crate::ieee::sum::{single_difference, single_sum};
use crate::le::le_bytes;
use crate::quant::row_col;
use crate::recast::plan::{
    entry_of, measured_entry, tensor_scale, tier_of, type_text, EntryView, Kind, Tier,
};
use crate::recast::policy::{all_compile, pattern_language, policy_of, texts_among, PolicyError};
use crate::recast::run::{band_count, recast_infos, tsv_line, tsv_table};
use crate::recast::values::{
    absmax_of, band_of, cast_values, half_bytes, largest_bits, largest_bits_is_largest,
    largest_single, rotated, row_of, row_scale, row_scales, scale_after, scaled_count, singles_of,
    Band,
};
use crate::recast::wht::{butterflies, butterfly, floor_log2, root_of_pow2, walsh_hadamard};

use crate::text::decimal;
use crate::yaml::{yaml_text, YamlView};
use vstd::arithmetic::power2::pow2;
use vstd::prelude::*;

verus! {

/// Each tier has its name, and no other text names one.
pub proof fn tiers_are_named(s: Seq<char>)
    ensures
        tier_of(s) == Some(Tier::DryRun) <==> s == "dry-run"@,
        tier_of(s) == Some(Tier::T1) <==> s == "T1"@,
        tier_of(s) == Some(Tier::T2) <==> s == "T2"@,
        tier_of(s) == Some(Tier::T3) <==> s == "T3"@,
        tier_of(s) == Some(Tier::T4) <==> s == "T4"@,
        tier_of(s) == Some(Tier::T5) <==> s == "T5"@,
        forall|t: Tier| tier_of(s) == Some(t) ==> #[trigger] t.text() == s,
{
    reveal_strlit("dry-run");
    reveal_strlit("T1");
    reveal_strlit("T2");
    reveal_strlit("T3");
    reveal_strlit("T4");
    reveal_strlit("T5");
    assert("dry-run"@.len() == 7);
    assert("T1"@.len() == 2 && "T2"@.len() == 2 && "T3"@.len() == 2 && "T4"@.len() == 2);
    assert("T5"@.len() == 2);
    assert("T1"@[1] == '1' && "T2"@[1] == '2' && "T3"@[1] == '3' && "T4"@[1] == '4');
    assert("T5"@[1] == '5');
}

/// Each type code in use has its name, and other codes have none.
pub proof fn types_are_named(t: u32)
    ensures
        t == 0 ==> type_text(t) == "F32"@,
        t == 1 ==> type_text(t) == "F16"@,
        t == 2 ==> type_text(t) == "Q4_0"@,
        t == 8 ==> type_text(t) == "Q8_0"@,
        t == 30 ==> type_text(t) == "BF16"@,
        t == 43 ==> type_text(t) == "Q4_0_AR16"@,
        t != 0 && t != 1 && t != 2 && t != 8 && t != 30 && t != 43 ==> type_text(t) == "?"@,
{
}

/// A tensor's line tells its name, its types before and after, its band, its
/// largest magnitude, the number of its elements and what becomes of it.
pub proof fn lines_tell_all(tensors: Seq<TensorView>, entries: Seq<EntryView>, i: int)
    requires
        0 <= i < tensors.len(),
    ensures
        tsv_table(tensors, entries).len() == tensors.len() + 1,
        tsv_table(tensors, entries)[0] == "name\tsrc_type\tout_type\tband\tabsmax\tn_elem\tnote"@,
        ({
            let t = tensors[i];
            let e = entries[i];
            tsv_table(tensors, entries)[i + 1] == t.name + "\t"@ + type_text(t.dtype) + "\t"@
                + type_text(e.out_dtype) + "\t"@ + (match e.band {
                Band::A => "A"@,
                Band::B => "B"@,
                Band::C => "C"@,
                Band::Untouched => "-"@,
            }) + "\t"@ + g6_text(e.absmax) + "\t"@ + decimal(product(t.dims)) + "\t"@ + e.note
        }),
{
    assert(tsv_table(tensors, entries)[i + 1] == tsv_line(tensors[i], entries[i]));
}

/// The bands: up to 32768, up to 65504, and beyond, in the order of the bits of
/// doubles that are not below zero. What is not a number lies beyond.
pub proof fn bands_are_ranges(x: u64)
    ensures
        x <= 0x40e0_0000_0000_0000 ==> band_of(x) == Band::A,
        0x40e0_0000_0000_0000 < x <= 0x40ef_fc00_0000_0000 ==> band_of(x) == Band::B,
        0x40ef_fc00_0000_0000 < x < 0x8000_0000_0000_0000 ==> band_of(x) == Band::C,
        0x8000_0000_0000_0000 <= x <= 0xfff0_0000_0000_0000 ==> band_of(x) == Band::A,
        0xfff0_0000_0000_0000 < x ==> band_of(x) == Band::C,
{
}

/// How many tensors are in a band.
pub proof fn bands_are_counted(entries: Seq<EntryView>, band: Band)
    ensures
        band_count(entries, band) == entries.filter(|e: EntryView| e.band == band).len(),
    decreases entries.len(),
{
    reveal(Seq::filter);
    if entries.len() > 0 {
        bands_are_counted(entries.drop_last(), band);
    }
}

/// How many scales are not one.
pub proof fn scales_are_counted(scales: Seq<u32>)
    ensures
        scaled_count(scales) == scales.filter(|s: u32| s != 0x3f80_0000).len(),
    decreases scales.len(),
{
    reveal(Seq::filter);
    if scales.len() > 0 {
        scales_are_counted(scales.drop_last());
    }
}

/// The largest magnitude of a tensor is that of one of its elements, and no
/// element has a larger one. Magnitudes are ordered as the bits below the sign.
pub proof fn the_largest_is_found(elems: Seq<u16>, k: int)
    requires
        0 <= k < elems.len(),
        forall|i: int|
            0 <= i < elems.len() ==> #[trigger] elems[i] % 0x8000 <= elems[k] % 0x8000,
    ensures
        absmax_of(elems) == double_of_single(((elems[k] % 0x8000) * 0x1_0000) as u32),
{
    largest_bits_is_largest(elems);
    let i = choose|i: int|
        0 <= i < elems.len() && #[trigger] elems[i] % 0x8000 == largest_bits(elems);
    assert(elems[i] % 0x8000 <= elems[k] % 0x8000);
    assert(largest_bits(elems) == elems[k] % 0x8000);
}

/// The largest single is one of those that are a number, without its sign.
proof fn largest_single_is(values: Seq<u32>)
    ensures
        forall|i: int|
            0 <= i < values.len() && #[trigger] values[i] % 0x8000_0000 <= 0x7f80_0000
                ==> values[i] % 0x8000_0000 <= largest_single(values),
        largest_single(values) == 0 || exists|i: int|
            0 <= i < values.len() && #[trigger] values[i] % 0x8000_0000 == largest_single(values),
        largest_single(values) <= 0x7f80_0000,
    decreases values.len(),
{
    if values.len() > 0 {
        let front = values.drop_last();
        largest_single_is(front);
        assert forall|i: int|
            0 <= i < values.len() && #[trigger] values[i] % 0x8000_0000
                <= 0x7f80_0000 implies values[i] % 0x8000_0000 <= largest_single(values) by {
            if i < front.len() {
                assert(values[i] == front[i]);
            }
        }
        assert(values.last() == values[values.len() - 1]);
        if largest_single(values) == largest_single(front) && largest_single(front) != 0 {
            let i = choose|i: int|
                0 <= i < front.len() && #[trigger] front[i] % 0x8000_0000 == largest_single(front);
            assert(values[i] == front[i]);
        }
    }
}

/// Each row of a matrix has the scale of its own elements: one where none of them
/// is beyond 65504 and no scale is forced.
pub proof fn rows_within_range_have_scale_one(elems: Seq<u16>, in_dim: nat, r: int)
    requires
        in_dim > 0,
        0 <= r < elems.len() / in_dim,
        r * in_dim + in_dim <= elems.len(),
        forall|c: int|
            0 <= c < in_dim ==> (#[trigger] elems[r * in_dim + c] % 0x8000) * 0x1_0000
                <= 0x477f_e000,
    ensures
        row_scales(elems, in_dim, false)[r] == 0x3f80_0000,
{
    let row = row_of(elems, in_dim, r);
    largest_single_is(singles_of(row));
    let m = largest_single(singles_of(row));
    if m != 0 {
        let c = choose|c: int|
            0 <= c < row.len() && #[trigger] singles_of(row)[c] % 0x8000_0000 == m;
        assert(singles_of(row)[c] == bf16_single(row[c]));
        assert(row[c] == elems[r * in_dim + c]);
        assert((elems[r * in_dim + c] % 0x8000) * 0x1_0000 <= 0x477f_e000);
    }
}

/// A row with an element beyond 65504, or any row where scales are forced, has the
/// scale that brings its largest element to 30000; where forced, none below 1e-30.
pub proof fn rows_are_brought_to_the_target(elems: Seq<u16>, in_dim: nat, r: int, c: int)
    requires
        in_dim > 0,
        0 <= r < elems.len() / in_dim,
        r * in_dim + in_dim <= elems.len(),
        0 <= c < in_dim,
        (elems[r * in_dim + c] % 0x8000) * 0x1_0000 <= 0x7f80_0000,
        forall|d: int|
            0 <= d < in_dim && (#[trigger] elems[r * in_dim + d] % 0x8000) * 0x1_0000
                <= 0x7f80_0000 ==> elems[r * in_dim + d] % 0x8000 <= elems[r * in_dim + c]
                % 0x8000,
    ensures
        ({
            let m = ((elems[r * in_dim + c] % 0x8000) * 0x1_0000) as u32;
            let wanted = single_over(m, 0x46ea_6000);
            &&& m > 0x477f_e000 ==> row_scales(elems, in_dim, false)[r] == wanted
            &&& wanted >= 0x0da2_4260 ==> row_scales(elems, in_dim, true)[r] == wanted
            &&& wanted < 0x0da2_4260 ==> row_scales(elems, in_dim, true)[r] == 0x0da2_4260
        }),
{
    let row = row_of(elems, in_dim, r);
    let s = singles_of(row);
    largest_single_is(s);
    let m = ((elems[r * in_dim + c] % 0x8000) * 0x1_0000) as u32;
    let l = largest_single(s);
    assert(row[c] == elems[r * in_dim + c]);
    assert(s[c] == bf16_single(row[c]));
    assert(s[c] % 0x8000_0000 == m);
    if l != 0 {
        let d = choose|d: int| 0 <= d < row.len() && #[trigger] s[d] % 0x8000_0000 == l;
        assert(s[d] == bf16_single(row[d]));
        assert(row[d] == elems[r * in_dim + d]);
        assert(s[d] % 0x8000_0000 == (elems[r * in_dim + d] % 0x8000) * 0x1_0000);
    }
    assert(l == m);
}

/// The scale for a largest magnitude: one up to 65504, and beyond it or where forced the one that
/// brings it to 30000; where forced, none below 1e-30.
pub proof fn scales_of_magnitudes(m: u32)
    ensures
        m <= 0x477f_e000 ==> row_scale(m, false) == 0x3f80_0000,
        m > 0x477f_e000 ==> row_scale(m, false) == single_over(m, 0x46ea_6000),
        single_over(m, 0x46ea_6000) >= 0x0da2_4260 ==> row_scale(m, true) == single_over(
            m,
            0x46ea_6000,
        ),
        single_over(m, 0x46ea_6000) < 0x0da2_4260 ==> row_scale(m, true) == 0x0da2_4260,
{
}

/// The scale of a tensor brings its largest element to 30000 where it does not fit
/// or a scale is forced, and is one else.
pub proof fn tensors_are_brought_to_the_target(absmax: u64)
    ensures
        tensor_scale(absmax, true) == double_over(absmax, 30000),
        0x40ef_fc00_0000_0000 < absmax < 0x8000_0000_0000_0000 ==> tensor_scale(absmax, false)
            == double_over(absmax, 30000),
        absmax <= 0x40ef_fc00_0000_0000 ==> tensor_scale(absmax, false) == 0x3ff0_0000_0000_0000,
{
}

/// After a transform the scale is one up to 32768 unless forced, and else brings the
/// largest element to 30000, with 1e-30 as the least.
pub proof fn turned_tensors_are_brought_to_the_target(absmax: u64, force: bool)
    ensures
        !force && absmax <= 0x40e0_0000_0000_0000 ==> scale_after(absmax, force)
            == 0x3ff0_0000_0000_0000,
        force || absmax > 0x40e0_0000_0000_0000 ==> {
            let wanted = double_over(absmax, 30000);
            &&& wanted >= 0x39b4_484b_feeb_c2a0 ==> scale_after(absmax, force) == wanted
            &&& wanted < 0x39b4_484b_feeb_c2a0 ==> scale_after(absmax, force)
                == 0x39b4_484b_feeb_c2a0
        },
{
}

/// What is not BF16, what is preserved, and zeros, whatever the tier.
pub proof fn some_tensors_are_not_looked_at(
    t: TensorView,
    preserve: bool,
    elems: Seq<u16>,
    tier: Tier,
    force: bool,
)
    ensures
        ({
            let e = entry_of(t, preserve, elems, tier, force);
            &&& t.dtype == 0 ==> e.kind == Kind::F32Passthrough
            &&& t.dtype != 0 && t.dtype != 30 ==> e.kind == Kind::RawPassthrough
            &&& t.dtype != 30 ==> e.out_dtype == t.dtype && e.band == Band::Untouched && e.absmax
                == 0 && e.note == "passthrough"@
            &&& t.dtype == 30 && preserve ==> e.kind == Kind::Bf16Passthrough && e.out_dtype == 30
                && e.band == Band::Untouched && e.absmax == 0 && e.note == "policy-preserve"@
            &&& t.dtype == 30 && !preserve && absmax_of(elems) == 0 ==> e.kind == (Kind::CastF16 {
                scale: 0x3ff0_0000_0000_0000,
                hadamard_d: 0,
            }) && e.out_dtype == 1 && e.band == Band::A && e.absmax == 0 && e.note
                == "zero-tensor"@
            &&& t.dtype == 30 && !preserve && absmax_of(elems) != 0 ==> e == measured_entry(
                t.dims,
                elems,
                absmax_of(elems),
                tier,
                force,
            )
        }),
{
}

/// What the tiers make of a tensor: a dry run keeps it; the first tier casts it where
/// it fits; the next two scale it; the fourth casts matrices as they are; the last one
/// transforms the rows of matrices over the largest power of two that fits in one.
pub proof fn tiers_decide(dims: Seq<u64>, elems: Seq<u16>, absmax: u64, force: bool)
    ensures
        ({
            let one = 0x3ff0_0000_0000_0000u64;
            let scale = tensor_scale(absmax, force);
            let plain = Kind::CastF16 { scale: one, hadamard_d: 0 };
            let scaled = Kind::CastF16 { scale, hadamard_d: 0 };
            let beyond = band_of(absmax) == Band::C;
            let dry = measured_entry(dims, elems, absmax, Tier::DryRun, force);
            let t1 = measured_entry(dims, elems, absmax, Tier::T1, force);
            let t2 = measured_entry(dims, elems, absmax, Tier::T2, force);
            let t3 = measured_entry(dims, elems, absmax, Tier::T3, force);
            let t4 = measured_entry(dims, elems, absmax, Tier::T4, force);
            let t5 = measured_entry(dims, elems, absmax, Tier::T5, force);
            let d = pow2(floor_log2(dims[0] as nat));
            let after = double_of_single(
                largest_single(rotated(singles_of(elems), dims[0] as nat, d)),
            );
            &&& dry.kind == Kind::Bf16Passthrough && dry.out_dtype == 30
            &&& beyond ==> t1.kind == Kind::Bf16Passthrough && t1.out_dtype == 30
            &&& !beyond ==> t1.kind == plain && t1.out_dtype == 1
            &&& t2.kind == scaled && t3.kind == scaled && t2.out_dtype == 1 && t3.out_dtype == 1
            &&& dims.len() == 2 ==> t4.kind == plain
            &&& dims.len() != 2 ==> t4.kind == scaled && t5.kind == scaled
            &&& t4.out_dtype == 1 && t5.out_dtype == 1
            &&& dims.len() == 2 ==> t5.kind == (Kind::CastF16 {
                scale: scale_after(after, force),
                hadamard_d: d as usize,
            })
            &&& dry.absmax == absmax && t1.absmax == absmax && t2.absmax == absmax && t3.absmax
                == absmax && t4.absmax == absmax && t5.absmax == absmax
            &&& dry.band == band_of(absmax) && t1.band == band_of(absmax) && t2.band == band_of(
                absmax,
            ) && t3.band == band_of(absmax) && t4.band == band_of(absmax) && t5.band == band_of(
                absmax,
            )
        }),
{
}

/// What the tiers note of a tensor.
pub proof fn tiers_are_noted(dims: Seq<u64>, elems: Seq<u16>, absmax: u64, force: bool)
    ensures
        ({
            let scale = tensor_scale(absmax, force);
            let band = match band_of(absmax) {
                Band::A => "A"@,
                Band::B => "B"@,
                Band::C => "C"@,
                Band::Untouched => "-"@,
            };
            let dry = measured_entry(dims, elems, absmax, Tier::DryRun, force).note;
            let t1 = measured_entry(dims, elems, absmax, Tier::T1, force).note;
            let t2 = measured_entry(dims, elems, absmax, Tier::T2, force).note;
            let t3 = measured_entry(dims, elems, absmax, Tier::T3, force).note;
            let t4 = measured_entry(dims, elems, absmax, Tier::T4, force).note;
            let t5 = measured_entry(dims, elems, absmax, Tier::T5, force).note;
            let scales = row_scales(elems, dims[0] as nat, force);
            let d = pow2(floor_log2(dims[0] as nat));
            let after = double_of_single(
                largest_single(rotated(singles_of(elems), dims[0] as nat, d)),
            );
            &&& dry == "dry-run band "@ + band
            &&& band_of(absmax) == Band::C ==> t1 == "T1 BF16 fallback"@
            &&& band_of(absmax) != Band::C ==> t1 == "T1 RNE-cast (band "@ + band + ")"@
            &&& scale != 0x3ff0_0000_0000_0000 ==> t2 == "T2"@ + " per-tensor /"@ + g6_text(scale)
            &&& scale != 0x3ff0_0000_0000_0000 ==> t3 == "T3"@ + " per-tensor /"@ + g6_text(scale)
            &&& scale == 0x3ff0_0000_0000_0000 ==> t2 == "T2"@ + " no-rescale"@
            &&& scale == 0x3ff0_0000_0000_0000 ==> t3 == "T3"@ + " no-rescale"@
            &&& dims.len() != 2 ==> t4 == "T4 falls-back-T2 /"@ + g6_text(scale)
            &&& dims.len() != 2 ==> t5 == "T5 falls-back-T2 /"@ + g6_text(scale)
            &&& dims.len() == 2 ==> t4 == "T4 per-channel ("@ + decimal(scaled_count(scales)) + "/"@
                + decimal(scales.len()) + " rows scaled)"@
            &&& dims.len() == 2 ==> t5 == "T5 hadamard d="@ + decimal(d) + ", post_absmax="@
                + g6_text(after) + ", /"@ + g6_text(scale_after(after, force))
        }),
{
}

/// A tensor is declared in the new file with its name, its shape and its size, and
/// with the type that its plan gives it.
pub proof fn tensors_are_declared(tensors: Seq<TensorView>, entries: Seq<EntryView>, i: int)
    requires
        0 <= i < tensors.len(),
    ensures
        ({
            let info = recast_infos(tensors, entries)[i];
            let t = tensors[i];
            &&& recast_infos(tensors, entries).len() == tensors.len()
            &&& info.name == t.name
            &&& info.nbytes == t.nbytes
            &&& info.shape.len() == t.dims.len()
            &&& forall|j: int|
                0 <= j < t.dims.len() ==> #[trigger] info.shape[j] == t.dims[t.dims.len() - 1 - j]
            &&& info.dtype == (match entries[i].kind {
                Kind::CastF16 { .. } => 1u32,
                Kind::Bf16Passthrough => 30u32,
                Kind::F32Passthrough => 0u32,
                Kind::RawPassthrough => t.dtype,
            })
        }),
{
}

/// Without a transform each element is widened, which keeps its bits, and divided by
/// the scale unless that is one.
pub proof fn elements_are_scaled(elems: Seq<u16>, dims: Seq<u64>, scale: u64, i: int)
    requires
        0 <= i < elems.len(),
    ensures
        cast_values(elems, dims, scale, 0).len() == elems.len(),
        scale == 0x3ff0_0000_0000_0000 ==> cast_values(elems, dims, scale, 0)[i] == elems[i]
            * 0x1_0000,
        scale != 0x3ff0_0000_0000_0000 ==> cast_values(elems, dims, scale, 0)[i] == single_over(
            (elems[i] * 0x1_0000) as u32,
            single_of_double(scale),
        ),
{
}

/// A transform changes the first elements of each row by themselves, and leaves the
/// others of the row.
pub proof fn rows_are_transformed(values: Seq<u32>, in_dim: nat, d: nat, r: int, c: int)
    requires
        0 < d <= in_dim,
        0 <= c < in_dim,
        0 <= r < values.len() / in_dim,
        r * in_dim + in_dim <= values.len(),
    ensures
        rotated(values, in_dim, d).len() == values.len(),
        c < d ==> rotated(values, in_dim, d)[r * in_dim + c] == walsh_hadamard(
            values.subrange(r * in_dim, r * in_dim + d),
        )[c],
        c >= d ==> rotated(values, in_dim, d)[r * in_dim + c] == values[r * in_dim + c],
{
    row_col(r, c, in_dim as int);
}

/// One level on two halves is one level on each of them.
proof fn level_on_halves(lo: Seq<u32>, hi: Seq<u32>, h: nat)
    requires
        h > 0,
        lo.len() == hi.len(),
        lo.len() % (2 * h) == 0,
    ensures
        butterfly(lo + hi, h) == butterfly(lo, h) + butterfly(hi, h),
{
    let m = lo.len() as int;
    let g = 2 * h as int;
    let both = butterfly(lo + hi, h);
    let each = butterfly(lo, h) + butterfly(hi, h);
    vstd::arithmetic::div_mod::lemma_fundamental_div_mod(m, g);
    assert forall|j: int| 0 <= j < 2 * m implies #[trigger] both[j] == each[j] by {
        let k = if j < m {
            j
        } else {
            j - m
        };
        assert(j % g == k % g) by {
            if j >= m {
                vstd::arithmetic::div_mod::lemma_mod_multiples_vanish(m / g, k, g);
            }
        }
        vstd::arithmetic::div_mod::lemma_fundamental_div_mod(k, g);
        vstd::arithmetic::div_mod::lemma_mod_bound(k, g);
        if k % g < h {
            let a = k / g;
            let b = m / g;
            assert(a < b) by (nonlinear_arith)
                requires
                    k == g * a + k % g,
                    k % g >= 0,
                    k < m,
                    m == g * b,
                    g > 0,
            ;
            assert(g * a + g <= g * b) by (nonlinear_arith)
                requires
                    a < b,
                    g > 0,
            ;
            assert(k + h < m);
        } else {
            assert(k / g >= 0) by (nonlinear_arith)
                requires
                    k >= 0,
                    g > 0,
            ;
            assert(g * (k / g) >= 0) by (nonlinear_arith)
                requires
                    k / g >= 0,
                    g > 0,
            ;
            assert(k - h >= 0);
        }
    }
    assert(both =~= each);
}

/// All levels on two halves are those on each of them, and one more across.
proof fn levels_on_halves(lo: Seq<u32>, hi: Seq<u32>, h: nat, k: nat)
    requires
        h > 0,
        lo.len() == hi.len(),
        lo.len() == h * pow2(k),
    ensures
        butterflies(lo + hi, h) == butterfly(butterflies(lo, h) + butterflies(hi, h), lo.len()),
        butterflies(lo, h).len() == lo.len(),
        butterflies(hi, h).len() == hi.len(),
    decreases k,
{
    let m = lo.len();
    if k == 0 {
        vstd::arithmetic::power2::lemma2_to64();
        assert(h * 1 == h);
        reveal_with_fuel(butterflies, 2);
    } else {
        let p = pow2((k - 1) as nat);
        vstd::arithmetic::power2::lemma_pow2_unfold(k);
        vstd::arithmetic::power2::lemma_pow2_pos((k - 1) as nat);
        assert(h * (2 * p) == (2 * h) * p) by (nonlinear_arith);
        assert(h < h * (2 * p)) by (nonlinear_arith)
            requires
                h > 0,
                p >= 1,
        ;
        assert(((2 * h) * p) % (2 * h) == 0) by {
            vstd::arithmetic::div_mod::lemma_mod_multiples_basic(p as int, 2 * h as int);
            assert((2 * h) * p == p * (2 * h)) by (nonlinear_arith);
        }
        level_on_halves(lo, hi, h);
        levels_on_halves(butterfly(lo, h), butterfly(hi, h), 2 * h, (k - 1) as nat);
    }
}

/// The transform of a row, before it is normalized, is made of those of its halves:
/// their sums, then their differences.
pub proof fn halves_are_combined(row: Seq<u32>, k: nat, j: int)
    requires
        row.len() == 2 * pow2(k),
        0 <= j < pow2(k),
    ensures
        ({
            let m = pow2(k) as int;
            let lo = butterflies(row.take(m), 1);
            let hi = butterflies(row.skip(m), 1);
            let all = butterflies(row, 1);
            &&& all[j] == single_sum(lo[j], hi[j])
            &&& all[m + j] == single_difference(lo[j], hi[j])
        }),
{
    let m = pow2(k);
    let lo = row.take(m as int);
    let hi = row.skip(m as int);
    assert(lo + hi =~= row);
    assert(1 * pow2(k) == m);
    levels_on_halves(lo, hi, 1, k);
    assert(j % (2 * m as int) == j) by {
        vstd::arithmetic::div_mod::lemma_small_mod(j as nat, 2 * m);
    }
    assert((m + j) % (2 * m as int) == m + j) by {
        vstd::arithmetic::div_mod::lemma_small_mod((m + j) as nat, 2 * m);
    }
}

/// A row of one element stays before it is normalized, and every transform is
/// normalized by the root of its length.
pub proof fn transforms_are_normalized(row: Seq<u32>, j: int)
    requires
        0 <= j < butterflies(row, 1).len(),
    ensures
        row.len() == 1 ==> butterflies(row, 1) == row,
        walsh_hadamard(row)[j] == single_over(
            butterflies(row, 1)[j],
            root_of_pow2(floor_log2(row.len())),
        ),
{
}

/// The root of a power of two is the nearest single: its significand, in half steps,
/// lies on both sides of the root.
pub proof fn roots_are_nearest(k: nat)
    requires
        k < 256,
    ensures
        ({
            let bits = root_of_pow2(k) as int;
            let sig = 0x80_0000 + bits % 0x80_0000;
            let square = 0x4000_0000_0000 * (if k % 2 == 0 {
                1int
            } else {
                2
            });
            &&& bits / 0x80_0000 == 127 + k / 2
            &&& (2 * sig - 1) * (2 * sig - 1) < 4 * square < (2 * sig + 1) * (2 * sig + 1)
        }),
{
    assert(16777215 * 16777215 == 281474943156225) by (nonlinear_arith);
    assert(16777217 * 16777217 == 281475010265089) by (nonlinear_arith);
    assert(23726565 * 23726565 == 562949886699225int) by (nonlinear_arith);
    assert(23726567 * 23726567 == 562949981605489int) by (nonlinear_arith);
}

/// Halves are written one behind the other, the lower byte first.
pub proof fn halves_are_written(halves: Seq<u16>, i: int)
    requires
        0 <= i < halves.len(),
    ensures
        half_bytes(halves).len() == 2 * halves.len(),
        half_bytes(halves)[2 * i] == halves[i] % 0x100,
        half_bytes(halves)[2 * i + 1] == halves[i] / 0x100,
{
    reveal_with_fuel(le_bytes, 3);
    assert(le_bytes(halves[i] as nat, 2)[0] == halves[i] % 0x100);
    assert(le_bytes(halves[i] as nat, 2)[1] == halves[i] / 0x100);
    assert((2 * i) / 2 == i && (2 * i) % 2 == 0);
    assert((2 * i + 1) / 2 == i && (2 * i + 1) % 2 == 1);
}

/// The texts of a list of texts are that list.
proof fn texts_stay(items: Seq<Option<Seq<char>>>, texts: Seq<Seq<char>>)
    requires
        items.len() == texts.len(),
        forall|i: int| 0 <= i < items.len() ==> #[trigger] items[i] == Some(texts[i]),
    ensures
        texts_among(items) == texts,
    decreases items.len(),
{
    if items.len() > 0 {
        texts_stay(items.drop_last(), texts.drop_last());
        assert(items.last() == Some(texts.last()));
        assert(texts.drop_last().push(texts.last()) =~= texts);
    } else {
        assert(texts =~= Seq::empty());
    }
}

/// A policy preserves what it lists under `preserve_bf16`, in its order.
pub proof fn policies_preserve_what_they_list(
    text: Seq<char>,
    v: YamlView,
    items: Seq<YamlView>,
    texts: Seq<Seq<char>>,
)
    requires
        yaml_text(text) == Some(v),
        v.get("cast_fp16"@) is None,
        pattern_language(".*"@) is Some,
        v.get("preserve_bf16"@) == Some(YamlView::List(items)),
        items.len() == texts.len(),
        forall|i: int| 0 <= i < items.len() ==> #[trigger] items[i].as_str() == Some(texts[i]),
        forall|i: int| 0 <= i < texts.len() ==> pattern_language(#[trigger] texts[i]) is Some,
    ensures
        policy_of(text) == Ok::<_, PolicyError>(texts),
{
    let listed = items.map_values(|x: YamlView| x.as_str());
    assert forall|i: int| 0 <= i < listed.len() implies #[trigger] listed[i] == Some(
        texts[i],
    ) by {
        assert(items[i].as_str() == Some(texts[i]));
    }
    texts_stay(listed, texts);
    assert(all_compile(seq![".*"@]));
}

/// A policy that lists nothing preserves nothing, and one with something else than a
/// list is refused.
pub proof fn other_policies(text: Seq<char>, v: YamlView)
    requires
        yaml_text(text) == Some(v),
    ensures
        v.get("cast_fp16"@) is None && v.get("preserve_bf16"@) is None && pattern_language(
            ".*"@,
        ) is Some ==> policy_of(text) == Ok::<_, PolicyError>(
            Seq::<Seq<char>>::empty(),
        ),
        v.get("cast_fp16"@) is Some && !(v.get("cast_fp16"@)->0 is List) ==> policy_of(text)
            == Err::<Seq<Seq<char>>, _>(PolicyError::CastNotList),
        v.get("cast_fp16"@) is None && pattern_language(".*"@) is Some && v.get(
            "preserve_bf16"@,
        ) is Some && !(v.get("preserve_bf16"@)->0 is List) ==> policy_of(text) == Err::<
            Seq<Seq<char>>,
            _,
        >(PolicyError::PreserveNotList),
{
    assert(pattern_language(".*"@) is Some ==> all_compile(seq![".*"@]));
}

} // verus!
