//! Which elements of transformed rows have a finite half.

use crate::ieee::convert::{
    double_field, double_near, double_of_single, double_over, double_power, double_sig,
    half_of_single, single_magnitude, single_of_double, single_over, single_power, single_sig,
    DOUBLE_INFINITY, DOUBLE_ONE, SINGLE_INFINITY,
};
use crate::ieee::{
    nearest, nearest_scaled, rounded, rounded_at, rounded_at_least, rounded_at_most,
    rounded_on_grid, rounded_zero,
};
use crate::recast::range::{
    double_not_below, double_units, pow2_grows, scaled_quotient, single_of_large, single_units,
    small_half, units_grow,
};
use crate::recast::values::{
    any_infinite, cast_values, half_infinite, halves_of, largest_single, rotated, scale_after,
    singles_of, FP16_HALF_RANGE, LEAST_SCALE, TARGET,
};
use crate::recast::wht::{floor_log2, floor_log2_bounds};
use vstd::arithmetic::power2::{
    lemma2_to64, lemma2_to64_rest, lemma_pow2_adds, lemma_pow2_pos, lemma_pow2_strictly_increases,
    pow2,
};
use vstd::prelude::*;

verus! {

/// A double holds a finite single exactly.
pub proof fn single_is_double(x: u32)
    requires
        x < SINGLE_INFINITY,
    ensures
        double_of_single(x) < 0x8000_0000_0000_0000,
        double_field(double_of_single(x)) != 0x7ff,
        double_units(double_of_single(x)) == single_units(x) * pow2(925),
{
    let sig = single_sig(x);
    let p = (single_power(x) + 149) as nat;
    let k = (p + 925) as nat;
    let a = sig * pow2(k);
    let d = double_of_single(x);
    lemma2_to64();
    lemma2_to64_rest();
    lemma_pow2_adds(p, 925);
    assert(a == single_units(x) * pow2(925)) by (nonlinear_arith)
        requires
            a == sig * pow2(k),
            pow2(k) == pow2(p) * pow2(925),
            single_units(x) == sig * pow2(p),
    ;
    if sig == 0 {
        rounded_zero(1, k as int, 53);
        assert(d == 0);
        assert(0 * pow2(0) == 0);
        assert(0 * pow2(k) == 0);
    } else {
        let n = floor_log2(sig);
        floor_log2_bounds(sig);
        if n > 23 {
            pow2_grows(24, n);
        }
        let s = (n + k - 52) as nat;
        let up = (52 - n) as nat;
        let q = sig * pow2(up);
        lemma_pow2_pos(k);
        lemma_pow2_pos(s);
        lemma_pow2_pos(up);
        lemma_pow2_adds(n, k);
        lemma_pow2_adds(n + 1, k);
        lemma_pow2_adds(n, up);
        lemma_pow2_adds(n + 1, up);
        lemma_pow2_adds(s, up);
        lemma_pow2_adds((s - 1) as nat, 53);
        lemma_pow2_adds(s, 53);
        assert(pow2(n) * pow2(k) <= a < pow2(n + 1) * pow2(k)) by (nonlinear_arith)
            requires
                a == sig * pow2(k),
                pow2(n) <= sig < pow2(n + 1),
                pow2(k) > 0,
        ;
        assert(pow2(n) * pow2(up) <= q < pow2(n + 1) * pow2(up)) by (nonlinear_arith)
            requires
                q == sig * pow2(up),
                pow2(n) <= sig < pow2(n + 1),
                pow2(up) > 0,
        ;
        assert(a == q * pow2(s)) by (nonlinear_arith)
            requires
                a == sig * pow2(k),
                q == sig * pow2(up),
                pow2(k) == pow2(s) * pow2(up),
        ;
        rounded_on_grid(a, 1, s, 53);
        nearest_scaled(q, 1, pow2(s));
        assert(nearest(q, 1) == q) by {
            assert(q / 1 == q && q % 1 == 0);
        }
        let r = rounded(a, 1, 53);
        assert(r == s * 0x10_0000_0000_0000 + q);
        assert(d == r);
        assert(d / 0x10_0000_0000_0000 == s + 1 && d % 0x10_0000_0000_0000 == q
            - 0x10_0000_0000_0000);
        assert(double_units(d) == q * pow2(s));
    }
}

/// The largest magnitude is none smaller than any that is a number.
proof fn largest_single_bounds(values: Seq<u32>)
    ensures
        largest_single(values) <= SINGLE_INFINITY,
        forall|i: int|
            0 <= i < values.len() && single_magnitude(values[i]) <= SINGLE_INFINITY
                ==> single_magnitude(#[trigger] values[i]) <= largest_single(values),
    decreases values.len(),
{
    if values.len() > 0 {
        let front = values.drop_last();
        largest_single_bounds(front);
        assert forall|i: int|
            0 <= i < values.len() && single_magnitude(values[i])
                <= SINGLE_INFINITY implies single_magnitude(#[trigger] values[i]) <= largest_single(
            values,
        ) by {
            if i < front.len() {
                assert(front[i] == values[i]);
            }
        }
    }
}

/// The scale of transformed rows with this largest magnitude, and how many
/// times as large the magnitude can be.
proof fn turned_scale(m: u32) -> (u: nat)
    requires
        m < SINGLE_INFINITY,
    ensures
        ({
            let q = double_over(double_of_single(m), TARGET);
            let scale = if q > LEAST_SCALE {
                q
            } else {
                LEAST_SCALE
            };
            &&& double_field(scale) != 0x7ff
            &&& scale < 0x8000_0000_0000_0000
            &&& double_units(scale) >= pow2(u + 925)
            &&& single_units(m) < 60000 * pow2(u)
        }),
{
    let d = double_of_single(m);
    let q = double_over(d, TARGET);
    let units = single_units(m);
    let a = units * pow2(925);
    let b = TARGET as nat;
    single_is_double(m);
    lemma2_to64();
    lemma2_to64_rest();
    lemma_pow2_pos(925);
    // The magnitude is below 2^277 units.
    let p = (single_power(m) + 149) as nat;
    pow2_grows(p, 253);
    lemma_pow2_adds(24, 253);
    lemma_pow2_adds(277, 925);
    lemma_pow2_adds(1, 1202);
    assert(units < pow2(277)) by (nonlinear_arith)
        requires
            units == single_sig(m) * pow2(p),
            single_sig(m) < pow2(24),
            pow2(p) <= pow2(253),
            pow2(277) == pow2(24) * pow2(253),
            pow2(253) > 0,
            pow2(p) > 0,
    ;
    assert(a < pow2(1203) * b) by (nonlinear_arith)
        requires
            a == units * pow2(925),
            units < pow2(277),
            pow2(1202) == pow2(277) * pow2(925),
            pow2(1203) == 2 * pow2(1202),
            b == 30000,
            pow2(925) > 0,
    ;
    lemma_pow2_adds(1150, 53);
    rounded_at_most(a, b, 1150, 53);
    assert(q == rounded(a, b, 53)) by {
        let k = double_power(d) + 1074;
        assert(k >= 0);
        assert(double_sig(d) * pow2(k as nat) == a);
        assert(rounded_at(double_sig(d), b, k, 53) == rounded(a, b, 53));
        assert(rounded(a, b, 53) <= 1152 * pow2(52));
        assert(rounded(a, b, 53) < DOUBLE_INFINITY);
        assert(q == double_near(double_sig(d), b, double_power(d)));
    }
    if q <= LEAST_SCALE {
        lemma_pow2_adds(923, 52);
        lemma_pow2_adds(50, 925);
        if units >= pow2(50) * 30000 {
            assert(pow2(923) * pow2(52) * b <= a) by (nonlinear_arith)
                requires
                    a == units * pow2(925),
                    units >= pow2(50) * 30000,
                    pow2(975) == pow2(923) * pow2(52),
                    pow2(975) == pow2(50) * pow2(925),
                    b == 30000,
                    pow2(925) > 0,
            ;
            rounded_at_least(a, b, 923, 53);
            assert(false);
        }
        lemma_pow2_adds(52, 922);
        assert(double_units(LEAST_SCALE) >= pow2(974)) by {
            let sig = 0x14_484b_feeb_c2a0nat;
            assert(double_units(LEAST_SCALE) == sig * pow2(922));
            lemma_pow2_pos(922);
            assert(sig * pow2(922) >= pow2(52) * pow2(922)) by (nonlinear_arith)
                requires
                    sig >= pow2(52),
                    pow2(922) > 0,
            ;
        }
        49
    } else {
        lemma_pow2_adds(872, 53);
        if units < 30000 {
            assert(a < pow2(872) * pow2(53) * b) by (nonlinear_arith)
                requires
                    a == units * pow2(925),
                    units < 30000,
                    pow2(925) == pow2(872) * pow2(53),
                    b == 30000,
                    pow2(925) > 0,
            ;
            rounded_at_most(a, b, 872, 53);
            assert(false);
        }
        let whole = units / 30000;
        let u = floor_log2(whole);
        vstd::arithmetic::div_mod::lemma_fundamental_div_mod(units as int, 30000);
        floor_log2_bounds(whole);
        lemma_pow2_adds(1, u);
        lemma_pow2_adds(u, 925);
        assert(pow2(u + 925) * b <= a) by (nonlinear_arith)
            requires
                a == units * pow2(925),
                units >= 30000 * pow2(u),
                pow2(u + 925) == pow2(u) * pow2(925),
                b == 30000,
                pow2(925) > 0,
        ;
        double_not_below(a, b, u + 925);
        u
    }
}

/// A magnitude below 65280 is below its pattern.
proof fn small_units(x: u32)
    requires
        single_magnitude(x) < SINGLE_INFINITY,
        single_units(x) < 65280 * pow2(149),
    ensures
        single_magnitude(x) <= 0x477f_0000,
{
    if single_magnitude(x) > 0x477f_0000 {
        let y = 0x477f_0000u32;
        units_grow(y, x);
        assert(single_sig(y) == 0xff_0000 && single_power(y) == -8);
        lemma2_to64();
        lemma_pow2_adds(8, 141);
        assert(single_units(y) == 65280 * pow2(149)) by (nonlinear_arith)
            requires
                single_units(y) == 0xff_0000 * pow2(141),
                pow2(149) == 0x100 * pow2(141),
        ;
    }
}

/// A double of at most 32768 has no more units than 32768.
proof fn half_range_units(d: u64)
    requires
        d <= FP16_HALF_RANGE,
    ensures
        double_units(d) <= pow2(1089),
{
    lemma2_to64();
    lemma2_to64_rest();
    let field = double_field(d);
    lemma_pow2_adds(52, 1037);
    lemma_pow2_adds(53, 1036);
    if field == 0 {
        pow2_grows(52, 1089);
        assert(double_units(d) == (d as nat) * 1);
    } else if field == 0x40e {
        assert(d == FP16_HALF_RANGE);
    } else {
        let p = (field - 1) as nat;
        let sig = double_sig(d);
        pow2_grows(p, 1036);
        assert(sig * pow2(p) <= pow2(53) * pow2(1036)) by (nonlinear_arith)
            requires
                sig <= pow2(53),
                pow2(p) <= pow2(1036),
                pow2(p) > 0,
        ;
    }
}

/// An element divided by the scale of transformed rows has a finite half.
proof fn turned_half(x: u32, m: u32, force_rescale: bool)
    requires
        m <= SINGLE_INFINITY,
        single_magnitude(x) > SINGLE_INFINITY || single_magnitude(x) <= m,
    ensures
        ({
            let scale = scale_after(double_of_single(m), force_rescale);
            let y = if scale != DOUBLE_ONE {
                single_over(x, single_of_double(scale))
            } else {
                x
            };
            !half_infinite(half_of_single(y))
        }),
{
    let after = double_of_single(m);
    let scale = scale_after(after, force_rescale);
    if single_magnitude(x) > SINGLE_INFINITY {
    } else if m == SINGLE_INFINITY {
        let y = single_over(x, SINGLE_INFINITY);
        assert(single_of_double(scale) == SINGLE_INFINITY);
        if single_magnitude(x) < SINGLE_INFINITY {
            small_half(y);
        }
    } else {
        let units = single_units(m);
        lemma2_to64();
        lemma2_to64_rest();
        single_is_double(m);
        units_grow(x, m);
        if after <= FP16_HALF_RANGE && !force_rescale {
            half_range_units(after);
            lemma_pow2_adds(15, 149);
            lemma_pow2_adds(164, 925);
            lemma_pow2_pos(925);
            lemma_pow2_pos(149);
            assert(units <= pow2(164)) by (nonlinear_arith)
                requires
                    units * pow2(925) <= pow2(164) * pow2(925),
                    pow2(925) > 0,
            ;
            small_units(x);
            small_half(x);
        } else {
            let u = turned_scale(m);
            if scale == DOUBLE_ONE {
                assert(double_units(DOUBLE_ONE) == pow2(52) * pow2(1022));
                lemma_pow2_adds(52, 1022);
                if u > 149 {
                    lemma_pow2_strictly_increases(1074, u + 925);
                }
                pow2_grows(u, 149);
                small_units(x);
                small_half(x);
            } else {
                let s = single_of_double(scale);
                single_of_large(scale, u);
                if s < SINGLE_INFINITY {
                    let px = (single_power(x) + 149) as nat;
                    let ps = (single_power(s) + 149) as nat;
                    lemma_pow2_pos(u);
                    lemma_pow2_pos(ps);
                    if single_sig(s) == 0 {
                        assert(0 * pow2(ps) == 0);
                    }
                    let units_x = single_units(x);
                    assert(units_x * 0x80 <= 0xff * 0x8000 * pow2(u)) by (nonlinear_arith)
                        requires
                            units_x < 60000 * pow2(u),
                            pow2(u) > 0,
                    ;
                    scaled_quotient(
                        single_sig(x),
                        px,
                        single_sig(s),
                        ps,
                        u,
                        single_units(x),
                        single_units(s),
                    );
                }
                small_half(single_over(x, s));
            }
        }
    }
}

/// A matrix whose rows are transformed and then divided by their scale has a
/// cast without infinities.
pub proof fn turned_casts(elems: Seq<u16>, dims: Seq<u64>, force_rescale: bool)
    requires
        dims.len() == 2,
        dims[0] > 0,
    ensures
        ({
            let d = pow2(floor_log2(dims[0] as nat));
            let after = double_of_single(
                largest_single(rotated(singles_of(elems), dims[0] as nat, d)),
            );
            !any_infinite(halves_of(cast_values(elems, dims, scale_after(after, force_rescale), d)))
        }),
{
    let d = pow2(floor_log2(dims[0] as nat));
    let turned = rotated(singles_of(elems), dims[0] as nat, d);
    let m = largest_single(turned);
    let scale = scale_after(double_of_single(m), force_rescale);
    let halves = halves_of(cast_values(elems, dims, scale, d));
    floor_log2_bounds(dims[0] as nat);
    lemma_pow2_pos(floor_log2(dims[0] as nat));
    largest_single_bounds(turned);
    assert forall|i: int| 0 <= i < halves.len() implies !half_infinite(#[trigger] halves[i]) by {
        turned_half(turned[i], m, force_rescale);
    }
}

} // verus!
