//! Which elements have a finite half, with and without a scale.

use crate::fp::{bf16_half, bf16_single};
use crate::ieee::convert::{
    double_field, double_near, double_of_single, double_over, double_power, double_sig, half_near,
    half_of_single, single_field, single_fraction, single_magnitude, single_of_double, single_over,
    single_power, single_sig, DOUBLE_ONE, HALF_INFINITY, SINGLE_INFINITY,
};
use crate::ieee::{nearest, rounded, rounded_at, rounded_at_least, rounded_at_most, rounded_on_grid};
use crate::recast::plan::tensor_scale;
use crate::recast::values::{
    absmax_of, any_infinite, band_of, cast_values, half_infinite, halves_of, largest_bits,
    largest_bits_is_largest, Band, FP16_MAX, TARGET,
};
use crate::recast::wht::{floor_log2, floor_log2_bounds};
use vstd::arithmetic::power2::{
    lemma2_to64, lemma2_to64_rest, lemma_pow2_adds, lemma_pow2_pos, lemma_pow2_strictly_increases,
    lemma_pow2_unfold, pow2,
};
use vstd::prelude::*;

verus! {

/// Larger exponents never give smaller powers.
pub proof fn pow2_grows(a: nat, b: nat)
    requires
        a <= b,
    ensures
        pow2(a) <= pow2(b),
        pow2(a) > 0,
{
    lemma_pow2_pos(a);
    if a < b {
        lemma_pow2_strictly_increases(a, b);
    }
}

/// A finite single of at least 65536 is a double of at least 65536.
proof fn large_double(x: u32)
    requires
        0x4780_0000 <= x < 0x7f80_0000,
    ensures
        double_near(single_sig(x), 1, single_power(x)) > FP16_MAX,
{
    let k = (single_power(x) + 1074) as nat;
    let sig = single_sig(x);
    let a = sig * pow2(k);
    lemma2_to64();
    lemma2_to64_rest();
    lemma_pow2_adds(23, 1067);
    lemma_pow2_adds(1038, 52);
    pow2_grows(1067, k);
    assert(a >= pow2(23) * pow2(1067)) by (nonlinear_arith)
        requires
            a == sig * pow2(k),
            sig >= pow2(23),
            pow2(k) >= pow2(1067),
            pow2(1067) >= 0,
    ;
    assert(pow2(1038) * pow2(52) * 1 <= a);
    rounded_at_least(a, 1, 1038, 53);
}

/// The band of elements that reach 65536 is the last.
proof fn beyond_range(elems: Seq<u16>)
    requires
        largest_bits(elems) >= 0x4780,
    ensures
        band_of(absmax_of(elems)) == Band::C,
{
    largest_bits_is_largest(elems);
    let x = bf16_single(largest_bits(elems));
    if x < 0x7f80_0000 {
        large_double(x);
    }
}

/// A single of at most 65280 has a finite half.
pub proof fn small_half(x: u32)
    requires
        single_magnitude(x) <= 0x477f_0000,
    ensures
        !half_infinite(half_of_single(x)),
{
    let sig = single_sig(x);
    let power = single_power(x);
    let k = power + 24;
    let m = single_magnitude(x);
    assert(single_field(x) == m / 0x80_0000 && single_fraction(x) == m % 0x80_0000);
    lemma2_to64();
    lemma2_to64_rest();
    if m < 0x4700_0000 {
        if k >= 0 {
            let a = sig * pow2(k as nat);
            pow2_grows(k as nat, 15);
            assert(a < pow2(28) * pow2(11) * 1) by (nonlinear_arith)
                requires
                    a == sig * pow2(k as nat),
                    sig < 0x100_0000,
                    pow2(k as nat) <= 0x8000,
                    pow2(28) == 0x1000_0000,
                    pow2(11) == 0x800,
            ;
            rounded_at_most(a, 1, 28, 11);
            assert(rounded_at(sig, 1, k, 11) <= 30 * pow2(10));
        } else {
            let d = 1 * pow2((-k) as nat);
            lemma_pow2_pos((-k) as nat);
            assert(sig < pow2(28) * pow2(11) * d) by (nonlinear_arith)
                requires
                    sig < 0x100_0000,
                    d >= 1,
                    pow2(28) == 0x1000_0000,
                    pow2(11) == 0x800,
            ;
            rounded_at_most(sig, d, 28, 11);
            assert(rounded_at(sig, 1, k, 11) <= 30 * pow2(10));
        }
    } else {
        let a = sig * pow2(16);
        assert(k == 16 && sig <= 0xff_0000);
        assert(a == sig * 0x1_0000);
        assert(pow2(29) * pow2(11) * 1 == 0x100_0000_0000);
        assert(pow2(28) * pow2(11) * 1 == 0x80_0000_0000);
        rounded_on_grid(a, 1, 29, 11);
        assert(pow2(29) * 1 == 0x2000_0000);
        assert(nearest(a, 0x2000_0000) <= 2040);
        assert(rounded_at(sig, 1, k, 11) <= 29 * pow2(10) + 2040);
    }
    assert(half_near(sig, power) < HALF_INFINITY);
}

/// What a BF16 value's magnitude is as a single.
proof fn bf16_magnitude(b: u16)
    ensures
        single_magnitude(bf16_single(b)) == (b % 0x8000) * 0x1_0000,
{
}

/// Elements within the range of FP16 have a cast without infinities.
pub proof fn within_range_casts(elems: Seq<u16>, dims: Seq<u64>)
    requires
        band_of(absmax_of(elems)) != Band::C,
    ensures
        !any_infinite(halves_of(cast_values(elems, dims, DOUBLE_ONE, 0))),
{
    if largest_bits(elems) >= 0x4780 {
        beyond_range(elems);
    }
    largest_bits_is_largest(elems);
    let halves = halves_of(cast_values(elems, dims, DOUBLE_ONE, 0));
    assert forall|i: int| 0 <= i < halves.len() implies !half_infinite(#[trigger] halves[i]) by {
        assert(halves[i] == bf16_half(elems[i]));
        assert(elems[i] % 0x8000 <= largest_bits(elems));
        bf16_magnitude(elems[i]);
        small_half(bf16_single(elems[i]));
    }
}

/// How many of the least positive single a finite single's magnitude is.
pub open spec fn single_units(x: u32) -> nat {
    single_sig(x) * pow2((single_power(x) + 149) as nat)
}

/// How many of the least positive double a finite double's magnitude is.
pub open spec fn double_units(x: u64) -> nat {
    double_sig(x) * pow2((double_power(x) + 1074) as nat)
}

/// A number of at least `2^u` units is not rounded below it.
proof fn single_not_below(a: nat, b: nat, u: nat)
    requires
        b > 0,
        pow2(u) * b <= a,
    ensures
        ({
            let r = rounded(a, b, 24);
            r < SINGLE_INFINITY ==> single_units(r as u32) >= pow2(u)
        }),
{
    let r = rounded(a, b, 24);
    lemma2_to64();
    lemma2_to64_rest();
    if r < SINGLE_INFINITY {
        let x = r as u32;
        let field = single_field(x);
        let sig = single_sig(x);
        if u >= 23 {
            let t = (u - 23) as nat;
            lemma_pow2_adds(t, 23);
            assert(pow2(t) * pow2(23) * b <= a);
            rounded_at_least(a, b, t, 24);
            assert(r >= (t + 1) * 0x80_0000);
            assert(field >= t + 1);
            let p = (field - 1) as nat;
            pow2_grows(t, p);
            assert(sig * pow2(p) >= pow2(23) * pow2(t)) by (nonlinear_arith)
                requires
                    sig >= pow2(23),
                    pow2(p) >= pow2(t),
                    pow2(t) > 0,
            ;
            assert(pow2(23) * pow2(t) == pow2(t) * pow2(23)) by (nonlinear_arith);
        } else {
            pow2_grows(u, 23);
            if r >= 0x80_0000 {
                let p = (field - 1) as nat;
                lemma_pow2_pos(p);
                assert(sig * pow2(p) >= pow2(23)) by (nonlinear_arith)
                    requires
                        sig >= pow2(23),
                        pow2(p) >= 1,
                ;
            } else {
                if a >= pow2(24) * b {
                    lemma_pow2_unfold(24);
                    assert(pow2(1) * pow2(23) * b <= a);
                    rounded_at_least(a, b, 1, 24);
                }
                let q = a / b;
                vstd::arithmetic::div_mod::lemma_fundamental_div_mod(a as int, b as int);
                assert(q >= pow2(u)) by (nonlinear_arith)
                    requires
                        pow2(u) * b <= a,
                        a == b * q + a % b,
                        a % b < b,
                        b > 0,
                ;
                assert(sig * pow2(0) == sig);
            }
        }
    }
}

/// A number between `2^w` and `2^1203` units stays finite as a double and is
/// not rounded below `2^w`.
pub proof fn double_not_below(a: nat, b: nat, w: nat)
    requires
        b > 0,
        w >= 52,
        pow2(w) * b <= a,
        a < pow2(1203) * b,
    ensures
        ({
            let r = rounded(a, b, 53);
            &&& r <= 1152 * 0x10_0000_0000_0000
            &&& double_units(r as u64) >= pow2(w)
            &&& double_field(r as u64) != 0x7ff
            &&& double_power(r as u64) <= 77
        }),
{
    let r = rounded(a, b, 53);
    lemma2_to64();
    lemma2_to64_rest();
    lemma_pow2_adds(1150, 53);
    assert(a < pow2(1150) * pow2(53) * b);
    rounded_at_most(a, b, 1150, 53);
    let t = (w - 52) as nat;
    lemma_pow2_adds(t, 52);
    assert(pow2(t) * pow2(52) * b <= a);
    rounded_at_least(a, b, t, 53);
    let x = r as u64;
    let field = double_field(x);
    assert(r >= (t + 1) * 0x10_0000_0000_0000);
    assert(field >= t + 1);
    let p = (field - 1) as nat;
    let sig = double_sig(x);
    pow2_grows(t, p);
    assert(sig * pow2(p) >= pow2(52) * pow2(t)) by (nonlinear_arith)
        requires
            sig >= pow2(52),
            pow2(p) >= pow2(t),
            pow2(t) > 0,
    ;
    assert(pow2(52) * pow2(t) == pow2(t) * pow2(52)) by (nonlinear_arith);
}

/// The significant bits of a BF16 magnitude.
spec fn bf16_sig(m: u16) -> nat {
    if m < 0x80 {
        m as nat
    } else {
        (m % 0x80 + 0x80) as nat
    }
}

/// The exponent of the largest power of two in a BF16 magnitude, counted from
/// the least positive single over thirty two thousand.
spec fn scale_floor(m: u16) -> nat {
    (150 + floor_log2(bf16_sig(m)) + single_power(bf16_single(m))) as nat
}

/// What a BF16 magnitude is made of.
proof fn bf16_parts(m: u16)
    requires
        0 < m < 0x7f80,
    ensures
        single_sig(bf16_single(m)) == bf16_sig(m) * 0x1_0000,
        0 < bf16_sig(m) < 0x100,
        -149 <= single_power(bf16_single(m)) <= 104,
        floor_log2(bf16_sig(m)) <= 7,
        pow2(floor_log2(bf16_sig(m))) <= bf16_sig(m),
        bf16_sig(m) * 0x80 <= 0xff * pow2(floor_log2(bf16_sig(m))),
        1 <= 150 + floor_log2(bf16_sig(m)) + single_power(bf16_single(m)) <= 261,
{
    let kk = bf16_sig(m);
    let j = floor_log2(kk);
    floor_log2_bounds(kk);
    lemma2_to64();
    if j > 7 {
        pow2_grows(8, j);
    }
    assert(j == 0 || j == 1 || j == 2 || j == 3 || j == 4 || j == 5 || j == 6 || j == 7);
    assert(kk <= 2 * pow2(j) - 1);
    assert(kk * 0x80 <= 0xff * pow2(j));
}

/// The scale of a tensor with this largest magnitude, as a double, is not too
/// small.
proof fn scale_not_small(m: u16)
    requires
        0 < m < 0x7f80,
    ensures
        ({
            let s = double_over(double_of_single(bf16_single(m)), TARGET);
            &&& double_field(s) != 0x7ff
            &&& s < 0x8000_0000_0000_0000
            &&& double_units(s) >= pow2((scale_floor(m) + 925) as nat)
        }),
{
    let x = bf16_single(m);
    let sig = single_sig(x);
    let power = single_power(x);
    let j = floor_log2(bf16_sig(m));
    bf16_parts(m);
    bf16_magnitude(m);
    lemma2_to64();
    lemma2_to64_rest();
    // The double of the magnitude.
    let k = (power + 1074) as nat;
    let a = sig * pow2(k);
    let w = (16 + j + k) as nat;
    lemma_pow2_adds(16, j);
    lemma_pow2_adds(16 + j, k);
    lemma_pow2_pos(k);
    assert(a * 1 == a);
    assert(pow2(w) * 1 <= a) by (nonlinear_arith)
        requires
            pow2(w) == pow2(16 + j) * pow2(k),
            pow2(16 + j) == pow2(16) * pow2(j),
            pow2(16) == 0x1_0000,
            pow2(j) <= bf16_sig(m),
            sig == bf16_sig(m) * 0x1_0000,
            a == sig * pow2(k),
            pow2(k) >= 0,
    ;
    lemma_pow2_adds(24, k);
    pow2_grows(24 + k, 1203);
    assert(a < pow2(1203) * 1) by (nonlinear_arith)
        requires
            a == sig * pow2(k),
            sig < 0x100_0000,
            pow2(24) == 0x100_0000,
            pow2(24 + k) == pow2(24) * pow2(k),
            pow2(24 + k) <= pow2(1203),
            pow2(k) > 0,
    ;
    double_not_below(a, 1, w);
    let d = double_of_single(x);
    assert(single_field(x) != 0xff);
    assert(d == rounded(a, 1, 53));
    // Divided.
    let kd = (double_power(d) + 1074) as nat;
    let ad = double_sig(d) * pow2(kd);
    let ws = (w - 15) as nat;
    lemma_pow2_adds(15, ws);
    assert(pow2(ws) * (TARGET as nat) <= ad) by (nonlinear_arith)
        requires
            pow2(w) == pow2(15) * pow2(ws),
            pow2(15) == 0x8000,
            pow2(w) <= ad,
            TARGET == 30000,
    ;
    lemma_pow2_adds(53, kd);
    pow2_grows(53 + kd, 1204);
    lemma_pow2_unfold(1204);
    lemma_pow2_pos(1203);
    assert(double_sig(d) < pow2(53));
    assert(ad < pow2(1203) * (TARGET as nat)) by (nonlinear_arith)
        requires
            ad == double_sig(d) * pow2(kd),
            double_sig(d) < pow2(53),
            pow2(53 + kd) == pow2(53) * pow2(kd),
            pow2(53 + kd) <= pow2(1204),
            pow2(1204) == 2 * pow2(1203),
            pow2(1203) > 0,
            pow2(kd) > 0,
            TARGET == 30000,
    ;
    double_not_below(ad, TARGET as nat, ws);
    assert(ws == scale_floor(m) + 925);
}

/// A double of at least `2^u` units of a single is, as a single, not below it.
pub proof fn single_of_large(s: u64, u: nat)
    requires
        double_field(s) != 0x7ff,
        s < 0x8000_0000_0000_0000,
        double_units(s) >= pow2(u + 925),
    ensures
        single_of_double(s) <= SINGLE_INFINITY,
        single_of_double(s) < SINGLE_INFINITY ==> single_units(single_of_double(s)) >= pow2(u),
{
    let sig = double_sig(s);
    let k = double_power(s) + 149;
    lemma_pow2_adds(u, 925);
    lemma_pow2_pos(925);
    lemma_pow2_pos(u);
    if k >= 0 {
        let kn = k as nat;
        lemma_pow2_adds(kn, 925);
        lemma_pow2_pos(kn);
        assert(pow2(u) * 1 <= sig * pow2(kn)) by (nonlinear_arith)
            requires
                sig * pow2(kn + 925) >= pow2(u + 925),
                pow2(kn + 925) == pow2(kn) * pow2(925),
                pow2(u + 925) == pow2(u) * pow2(925),
                pow2(925) > 0,
        ;
        single_not_below(sig * pow2(kn), 1, u);
    } else {
        let kn = (-k) as nat;
        let rest = (925 - kn) as nat;
        let b = 1 * pow2(kn);
        lemma_pow2_pos(kn);
        lemma_pow2_pos(rest);
        lemma_pow2_adds(kn, rest);
        assert(pow2(u) * b <= sig) by (nonlinear_arith)
            requires
                sig * pow2(rest) >= pow2(u + 925),
                pow2(u + 925) == pow2(u) * pow2(925),
                pow2(925) == pow2(kn) * pow2(rest),
                pow2(rest) > 0,
                b == pow2(kn),
        ;
        single_not_below(sig, b, u);
    }
}

/// A number of at most 65280 is not rounded above it.
proof fn single_not_above(a: nat, b: nat)
    requires
        b > 0,
        a <= 0xff * pow2(157) * b,
    ensures
        rounded(a, b, 24) <= 0x477f_0000,
{
    lemma2_to64();
    lemma2_to64_rest();
    lemma_pow2_adds(140, 24);
    if a < pow2(140) * pow2(24) * b {
        rounded_at_most(a, b, 140, 24);
        assert((140 + 2) * pow2(23) == 0x4700_0000);
    } else {
        let d = pow2(141) * b;
        lemma_pow2_unfold(141);
        lemma_pow2_pos(141);
        lemma_pow2_adds(141, 16);
        assert(d > 0) by (nonlinear_arith)
            requires
                d == pow2(141) * b,
                pow2(141) > 0,
                b > 0,
        ;
        assert(a < pow2(141) * pow2(24) * b) by (nonlinear_arith)
            requires
                a <= 0xff * pow2(157) * b,
                pow2(157) == pow2(141) * pow2(16),
                pow2(16) == 0x1_0000,
                pow2(24) == 0x100_0000,
                pow2(141) > 0,
                b > 0,
        ;
        rounded_on_grid(a, b, 141, 24);
        assert(a <= 0xff_0000 * d) by (nonlinear_arith)
            requires
                a <= 0xff * pow2(157) * b,
                pow2(157) == pow2(141) * pow2(16),
                pow2(16) == 0x1_0000,
                d == pow2(141) * b,
        ;
        let q = a / d;
        let r = a % d;
        vstd::arithmetic::div_mod::lemma_fundamental_div_mod(a as int, d as int);
        assert(q <= 0xff_0000 && (q == 0xff_0000 ==> r == 0)) by (nonlinear_arith)
            requires
                a == d * q + r,
                a <= 0xff_0000 * d,
                0 <= r < d,
                d > 0,
        ;
        assert(nearest(a, d) <= 0xff_0000);
        assert(141 * pow2(23) == 0x4680_0000);
        assert(rounded(a, b, 24) == 141 * pow2(23) + nearest(a, d));
    }
}

/// Larger magnitudes have more units.
pub proof fn units_grow(x: u32, y: u32)
    requires
        single_magnitude(x) <= single_magnitude(y) < SINGLE_INFINITY,
    ensures
        single_units(x) <= single_units(y),
{
    let a = single_magnitude(x);
    let b = single_magnitude(y);
    assert(single_field(x) == a / 0x80_0000 && single_fraction(x) == a % 0x80_0000);
    assert(single_field(y) == b / 0x80_0000 && single_fraction(y) == b % 0x80_0000);
    let p = (single_power(x) + 149) as nat;
    let q = (single_power(y) + 149) as nat;
    lemma2_to64();
    if p == q {
        assert(single_sig(x) * pow2(p) <= single_sig(y) * pow2(p)) by (nonlinear_arith)
            requires
                single_sig(x) <= single_sig(y),
                pow2(p) >= 0,
        ;
    } else {
        assert(p < q);
        lemma_pow2_unfold(q);
        pow2_grows(p, (q - 1) as nat);
        assert(single_sig(y) >= 0x80_0000 && single_sig(x) < 0x100_0000);
        assert(single_sig(x) * pow2(p) <= single_sig(y) * pow2(q)) by (nonlinear_arith)
            requires
                single_sig(x) <= 0x100_0000,
                single_sig(y) >= 0x80_0000,
                pow2(q) == 2 * pow2((q - 1) as nat),
                pow2(p) <= pow2((q - 1) as nat),
                pow2(p) > 0,
        ;
    }
}

/// An element divided by the scale of its tensor has a finite half.
proof fn scaled_half(b: u16, m: u16)
    requires
        0 < m,
        b % 0x8000 <= m < 0x7f80,
    ensures
        ({
            let s = single_of_double(double_over(double_of_single(bf16_single(m)), TARGET));
            !half_infinite(half_of_single(single_over(bf16_single(b), s)))
        }),
{
    let s = single_of_double(double_over(double_of_single(bf16_single(m)), TARGET));
    let x = bf16_single(b);
    let u = scale_floor(m);
    scale_not_small(m);
    single_of_large(double_over(double_of_single(bf16_single(m)), TARGET), u);
    bf16_parts(m);
    bf16_magnitude(b);
    bf16_magnitude(m);
    lemma2_to64();
    lemma2_to64_rest();
    if s == SINGLE_INFINITY {
        small_half(single_over(x, s));
    } else {
        units_grow(x, bf16_single(m));
        let j = floor_log2(bf16_sig(m));
        let pm = (single_power(bf16_single(m)) + 149) as nat;
        let px = (single_power(x) + 149) as nat;
        let ps = (single_power(s) + 149) as nat;
        lemma_pow2_pos(u);
        lemma_pow2_pos(ps);
        if single_sig(s) == 0 {
            assert(0 * pow2(ps) == 0);
        }
        // At most 255 * 2^8 times the scale.
        lemma_pow2_adds(j, pm);
        lemma_pow2_adds(1, u);
        assert(u + 1 == j + pm + 2);
        lemma_pow2_adds(2, j + pm);
        let units_m = single_units(bf16_single(m));
        lemma_pow2_pos(pm);
        assert(units_m * 0x80 <= 0xff * 0x8000 * pow2(u)) by (nonlinear_arith)
            requires
                units_m == (bf16_sig(m) * 0x1_0000) * pow2(pm),
                bf16_sig(m) * 0x80 <= 0xff * pow2(j),
                pow2(j + pm) == pow2(j) * pow2(pm),
                pow2(u) * 2 == 4 * pow2(j + pm),
                pow2(pm) > 0,
        ;
        scaled_quotient(single_sig(x), px, single_sig(s), ps, u, single_units(x), single_units(s));
        small_half(single_over(x, s));
    }
}

/// A quotient of at most 65280 is not rounded above it.
pub proof fn scaled_quotient(
    sx: nat,
    px: nat,
    ss: nat,
    ps: nat,
    u: nat,
    units_x: nat,
    units_s: nat,
)
    requires
        units_x == sx * pow2(px),
        units_s == ss * pow2(ps),
        sx < 0x100_0000,
        ss > 0,
        units_s >= pow2(u),
        units_x * 0x80 <= 0xff * 0x8000 * pow2(u),
    ensures
        rounded_at(sx, ss, px - ps + 149, 24) <= 0x477f_0000,
{
    let k = px - ps + 149;
    lemma2_to64();
    lemma2_to64_rest();
    lemma_pow2_pos(ps);
    lemma_pow2_pos(157);
    if k >= 0 {
        let kn = k as nat;
        let a = sx * pow2(kn);
        lemma_pow2_adds(kn, ps);
        lemma_pow2_adds(px, 149);
        lemma_pow2_adds(8, 149);
        assert(kn + ps == px + 149);
        lemma_pow2_pos(149);
        assert(units_x <= 0xff * pow2(8) * units_s) by (nonlinear_arith)
            requires
                units_x * 0x80 <= 0xff * 0x8000 * pow2(u),
                units_s >= pow2(u),
                pow2(8) == 0x100,
        ;
        assert(a * pow2(ps) == units_x * pow2(149)) by (nonlinear_arith)
            requires
                a == sx * pow2(kn),
                units_x == sx * pow2(px),
                pow2(kn + ps) == pow2(kn) * pow2(ps),
                pow2(px + 149) == pow2(px) * pow2(149),
                pow2(kn + ps) == pow2(px + 149),
        ;
        assert(units_x * pow2(149) <= 0xff * pow2(157) * (ss * pow2(ps))) by (nonlinear_arith)
            requires
                units_x <= 0xff * pow2(8) * units_s,
                units_s == ss * pow2(ps),
                pow2(157) == pow2(8) * pow2(149),
                pow2(149) > 0,
        ;
        assert(a <= 0xff * pow2(157) * ss) by (nonlinear_arith)
            requires
                a * pow2(ps) <= 0xff * pow2(157) * (ss * pow2(ps)),
                pow2(ps) > 0,
        ;
        single_not_above(a, ss);
    } else {
        let b = ss * pow2((-k) as nat);
        lemma_pow2_pos((-k) as nat);
        pow2_grows(24, 157);
        assert(b > 0 && sx <= 0xff * pow2(157) * b) by (nonlinear_arith)
            requires
                b == ss * pow2((-k) as nat),
                ss > 0,
                pow2((-k) as nat) > 0,
                sx < 0x100_0000,
                pow2(157) >= 0x100_0000,
        ;
        single_not_above(sx, b);
    }
}

/// A whole tensor divided by its scale has a cast without infinities.
pub proof fn scaled_casts(elems: Seq<u16>, dims: Seq<u64>, force_rescale: bool)
    requires
        absmax_of(elems) != 0,
    ensures
        !any_infinite(
            halves_of(
                cast_values(elems, dims, tensor_scale(absmax_of(elems), force_rescale), 0),
            ),
        ),
{
    let m = largest_bits(elems);
    let scale = tensor_scale(absmax_of(elems), force_rescale);
    let halves = halves_of(cast_values(elems, dims, scale, 0));
    largest_bits_is_largest(elems);
    if band_of(absmax_of(elems)) != Band::C && !force_rescale {
        within_range_casts(elems, dims);
    } else {
        if m == 0 {
            crate::ieee::rounded_zero(1, 925, 53);
        }
        assert forall|i: int| 0 <= i < halves.len() implies !half_infinite(
            #[trigger] halves[i],
        ) by {
            assert(elems[i] % 0x8000 <= m);
            let x = bf16_single(elems[i]);
            bf16_magnitude(elems[i]);
            bf16_magnitude(m);
            if m < 0x7f80 {
                if scale == DOUBLE_ONE {
                    scale_of_one(m);
                    small_half(x);
                } else {
                    scaled_half(elems[i], m);
                }
            } else {
                beyond_numbers(elems[i], m);
            }
        }
    }
}

/// Where the scale is one every element is within the range.
proof fn scale_of_one(m: u16)
    requires
        0 < m < 0x7f80,
        double_over(double_of_single(bf16_single(m)), TARGET) == DOUBLE_ONE,
    ensures
        m <= 0x477f,
{
    if m >= 0x4780 {
        scale_not_small(m);
        bf16_parts(m);
        let kk = bf16_sig(m);
        floor_log2_bounds(kk);
        lemma2_to64();
        lemma2_to64_rest();
        if floor_log2(kk) < 7 {
            pow2_grows(floor_log2(kk), 6);
        }
        assert(double_power(DOUBLE_ONE) == -52);
        assert(double_sig(DOUBLE_ONE) == 0x10_0000_0000_0000);
        lemma_pow2_adds(52, 1022);
        let w = (scale_floor(m) + 925) as nat;
        assert(w >= 1075);
        lemma_pow2_strictly_increases(1074, w);
    }
}

/// Divided by a scale that is infinite or not a number nothing is infinite.
proof fn beyond_numbers(b: u16, m: u16)
    requires
        0x7f80 <= m < 0x8000,
        b % 0x8000 <= m,
    ensures
        ({
            let s = single_of_double(double_over(double_of_single(bf16_single(m)), TARGET));
            !half_infinite(half_of_single(single_over(bf16_single(b), s)))
        }),
        double_over(double_of_single(bf16_single(m)), TARGET) != DOUBLE_ONE,
{
    let d = double_of_single(bf16_single(m));
    bf16_magnitude(m);
    bf16_magnitude(b);
    let s = single_of_double(d);
    let y = single_over(bf16_single(b), s);
    if m == 0x7f80 {
        assert(s == SINGLE_INFINITY);
        if single_magnitude(y) <= 0x477f_0000 {
            small_half(y);
        }
    } else {
        assert(single_magnitude(s) > SINGLE_INFINITY);
    }
}

} // verus!
