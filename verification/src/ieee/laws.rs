//! Laws of the arithmetic on bit patterns: every result is the nearest number of
//! its format, the even one of two, in numbers of the least positive one.

use crate::fp::single_plus_one;
use crate::ieee::convert::{
    double_near, double_of_single, double_over, double_power, double_sig, double_times, half_near,
    half_of_single, single_near, single_of_double, single_over, single_power, single_sig,
};
use crate::ieee::sum::{lower, magnitude, negated, signed, single_difference, single_sum, sum_units};
use crate::ieee::{
    nearest, rounded, rounded_at, rounded_at_least, rounded_at_most, rounded_scaled, rounded_zero,
};
use vstd::arithmetic::power2::{
    lemma2_to64, lemma_pow2_adds, lemma_pow2_pos, lemma_pow2_unfold, pow2,
};
use vstd::prelude::*;

verus! {

/// How many of the least positive number the magnitude bits `m` stand for, with
/// significands of `p` bits.
pub open spec fn worth(m: nat, p: nat) -> nat {
    let h = pow2((p - 1) as nat);
    if m < h {
        m
    } else {
        (h + m % h) * pow2((m / h - 1) as nat)
    }
}

/// Whether the bits `m` are those of the number nearest to `a / b`: it lies no
/// further than half way to the next number above and below, and just half way only
/// where `m` is even.
#[verifier::opaque]
pub open spec fn is_nearest(a: nat, b: nat, m: nat, p: nat) -> bool {
    &&& 2 * a <= b * (worth(m, p) + worth(m + 1, p))
    &&& 2 * a == b * (worth(m, p) + worth(m + 1, p)) ==> m % 2 == 0
    &&& m > 0 ==> 2 * a >= b * (worth((m - 1) as nat, p) + worth(m, p))
    &&& m > 0 && 2 * a == b * (worth((m - 1) as nat, p) + worth(m, p)) ==> m % 2 == 0
}

/// The nearest integer is no further than half way off, and just half way only where it
/// is even.
pub proof fn integers_are_nearest(a: nat, b: nat)
    requires
        b > 0,
    ensures
        2 * a <= b * (2 * nearest(a, b) + 1),
        2 * a == b * (2 * nearest(a, b) + 1) ==> nearest(a, b) % 2 == 0,
        nearest(a, b) > 0 ==> 2 * a >= b * (2 * nearest(a, b) - 1),
        nearest(a, b) > 0 && 2 * a == b * (2 * nearest(a, b) - 1) ==> nearest(a, b) % 2 == 0,
{
    let q = (a / b) as int;
    let r = (a % b) as int;
    vstd::arithmetic::div_mod::lemma_fundamental_div_mod(a as int, b as int);
    assert(0 <= r < b);
    let n = nearest(a, b) as int;
    assert(a == b * q + r);
    assert(b * (2 * q + 1) == 2 * (b * q) + b) by (nonlinear_arith);
    assert(b * (2 * q - 1) == 2 * (b * q) - b) by (nonlinear_arith);
    assert(b * (2 * (q + 1) + 1) == 2 * (b * q) + 3 * b) by (nonlinear_arith);
    assert(b * (2 * (q + 1) - 1) == 2 * (b * q) + b) by (nonlinear_arith);
}

/// What small bits stand for.
proof fn small_worth(m: nat, p: nat)
    requires
        p >= 2,
        m <= pow2(p) + 1,
    ensures
        m <= pow2(p) ==> worth(m, p) == m,
        m == pow2(p) + 1 ==> worth(m, p) == m + 1,
{
    let h = pow2((p - 1) as nat);
    lemma_pow2_unfold(p);
    lemma_pow2_unfold((p - 1) as nat);
    lemma_pow2_pos((p - 2) as nat);
    lemma2_to64();
    if h <= m < 2 * h {
        vstd::arithmetic::div_mod::lemma_fundamental_div_mod_converse(
            m as int,
            h as int,
            1,
            m - h,
        );
        assert(pow2((m / h - 1) as nat) == 1);
        assert((h + (m - h)) * 1 == m);
    } else if m >= 2 * h {
        vstd::arithmetic::div_mod::lemma_fundamental_div_mod_converse(
            m as int,
            h as int,
            2,
            m - 2 * h,
        );
        assert(pow2((m / h - 1) as nat) == 2);
        assert((h + (m - 2 * h)) * 2 == 2 * (m - h));
    }
}

/// One step of the exponent doubles the worth.
proof fn doubled_worth(m: nat, p: nat)
    requires
        p >= 2,
        m >= pow2((p - 1) as nat),
    ensures
        worth(m + pow2((p - 1) as nat), p) == 2 * worth(m, p),
{
    let h = pow2((p - 1) as nat);
    lemma_pow2_pos((p - 1) as nat);
    let q = m / h;
    let r = m % h;
    vstd::arithmetic::div_mod::lemma_fundamental_div_mod(m as int, h as int);
    assert(q >= 1) by (nonlinear_arith)
        requires
            m == h * q + r,
            r < h,
            m >= h,
    ;
    assert(m + h == (q + 1) * h + r) by (nonlinear_arith)
        requires
            m == h * q + r,
    ;
    vstd::arithmetic::div_mod::lemma_fundamental_div_mod_converse(
        (m + h) as int,
        h as int,
        (q + 1) as int,
        r as int,
    );
    lemma_pow2_unfold(q);
    let e = pow2((q - 1) as nat);
    assert((h + r) * (2 * e) == 2 * ((h + r) * e)) by (nonlinear_arith);
}

/// Rounding gives the nearest number.
pub proof fn rounding_is_nearest(a: nat, b: nat, p: nat)
    requires
        b > 0,
        p >= 2,
    ensures
        is_nearest(a, b, rounded(a, b, p), p),
    decreases a - b,
{
    reveal(is_nearest);
    let m = rounded(a, b, p);
    let h = pow2((p - 1) as nat);
    lemma_pow2_unfold(p);
    lemma_pow2_unfold((p - 1) as nat);
    lemma_pow2_pos((p - 2) as nat);
    if a < pow2(p) * b {
        integers_are_nearest(a, b);
        assert(m <= pow2(p)) by {
            assert(a / b < pow2(p)) by (nonlinear_arith)
                requires
                    a < pow2(p) * b,
                    b > 0,
            ;
        }
        small_worth(m, p);
        small_worth(m + 1, p);
        if m > 0 {
            small_worth((m - 1) as nat, p);
        }
        if m == pow2(p) {
            let w = pow2(p);
            assert(2 * a < b * (w + (w + 2))) by (nonlinear_arith)
                requires
                    a < w * b,
                    b > 0,
            ;
        }
    } else {
        assert(a >= 2 * b) by (nonlinear_arith)
            requires
                a >= pow2(p) * b,
                pow2(p) >= 2,
        ;
        let n = rounded(a, 2 * b, p);
        rounding_is_nearest(a, 2 * b, p);
        assert(n >= h) by {
            lemma2_to64();
            assert(pow2(0) * h * (2 * b) <= a) by (nonlinear_arith)
                requires
                    a >= (2 * h) * b,
                    pow2(0) == 1,
            ;
            rounded_at_least(a, 2 * b, 0, p);
            assert(1 * h == h);
        }
        assert(m == h + n);
        doubled_worth(n, p);
        doubled_worth(n + 1, p);
        let v = worth(n, p);
        let u = worth(n + 1, p);
        assert(b * (2 * v + 2 * u) == (2 * b) * (v + u)) by (nonlinear_arith);
        assert(n + h == m && n + 1 + h == m + 1);
        if n > h {
            doubled_worth((n - 1) as nat, p);
            let l = worth((n - 1) as nat, p);
            assert(b * (2 * l + 2 * v) == (2 * b) * (l + v)) by (nonlinear_arith);
        } else {
            small_worth((m - 1) as nat, p);
            small_worth(m, p);
            let w = pow2(p);
            assert(2 * a > b * ((w - 1) + w)) by (nonlinear_arith)
                requires
                    a >= w * b,
                    b > 0,
            ;
        }
    }
}

/// Rounding of a number that is scaled by a power of two.
proof fn scaled_is_nearest(a: nat, b: nat, k: int, p: nat, n: nat)
    requires
        b > 0,
        p >= 2,
        k + n >= 0,
    ensures
        is_nearest(a * pow2((k + n) as nat), b * pow2(n), rounded_at(a, b, k, p), p),
{
    let s = pow2((k + n) as nat);
    let t = pow2(n);
    lemma_pow2_pos((k + n) as nat);
    lemma_pow2_pos(n);
    if k >= 0 {
        lemma_pow2_adds(k as nat, n);
        rounded_scaled(a * pow2(k as nat), b, t, p);
        assert(a * pow2(k as nat) * t == a * s) by (nonlinear_arith)
            requires
                s == pow2(k as nat) * t,
        ;
    } else {
        let d = pow2((-k) as nat);
        lemma_pow2_pos((-k) as nat);
        lemma_pow2_adds((-k) as nat, (k + n) as nat);
        assert(b * d > 0) by (nonlinear_arith)
            requires
                b > 0,
                d > 0,
        ;
        rounded_scaled(a, b * d, s, p);
        assert(b * d * s == b * t) by (nonlinear_arith)
            requires
                t == d * s,
        ;
    }
    assert(b * t > 0) by (nonlinear_arith)
        requires
            b > 0,
            t > 0,
    ;
    rounding_is_nearest(a * s, b * t, p);
}

/// What the bits of a finite single stand for.
proof fn single_worth(x: u32)
    ensures
        x % 0x8000_0000 < 0x7f80_0000 ==> worth((x % 0x8000_0000) as nat, 24) == single_sig(x)
            * pow2((single_power(x) + 149) as nat),
{
    lemma2_to64();
    let m = x % 0x8000_0000;
    assert(pow2(23) == 0x80_0000);
    assert(m / 0x80_0000 == x / 0x80_0000 % 0x100);
    assert(m % 0x80_0000 == x % 0x80_0000);
    let n = single_sig(x);
    assert(n * 1 == n);
}

/// What the bits of a finite double stand for.
pub proof fn double_worth(x: u64)
    ensures
        x % 0x8000_0000_0000_0000 < 0x7ff0_0000_0000_0000 ==> worth(
            (x % 0x8000_0000_0000_0000) as nat,
            53,
        ) == double_sig(x) * pow2((double_power(x) + 1074) as nat),
{
    lemma2_to64();
    vstd::arithmetic::power2::lemma2_to64_rest();
    let m = x % 0x8000_0000_0000_0000;
    assert(pow2(52) == 0x10_0000_0000_0000);
    assert(m / 0x10_0000_0000_0000 == x / 0x10_0000_0000_0000 % 0x800);
    assert(m % 0x10_0000_0000_0000 == x % 0x10_0000_0000_0000);
    let n = double_sig(x);
    assert(n * 1 == n);
}

/// The worth of a single's magnitude.
pub open spec fn single_units_of(x: u32) -> nat {
    worth((x % 0x8000_0000) as nat, 24)
}

/// The worth of a double's magnitude.
pub open spec fn double_units_of(x: u64) -> nat {
    worth((x % 0x8000_0000_0000_0000) as nat, 53)
}

/// A single is rounded to the nearest half of its sign. The least half is `2^125` of
/// the least single; what is beyond the largest half by half a step is infinite.
pub proof fn halves_are_nearest(x: u32)
    requires
        x % 0x8000_0000 < 0x7f80_0000,
    ensures
        ({
            let h = half_of_single(x);
            let m = (h % 0x8000) as nat;
            &&& h >= 0x8000 <==> x >= 0x8000_0000
            &&& m < 0x7c00 ==> is_nearest(single_units_of(x), pow2(125), m, 11)
            &&& m >= 0x7c00 ==> m == 0x7c00 && exists|r: nat|
                r >= 0x7c00 && #[trigger] is_nearest(single_units_of(x), pow2(125), r, 11)
        }),
{
    single_worth(x);
    let k = single_power(x) + 24;
    let sig = single_sig(x);
    scaled_is_nearest(sig, 1, k, 11, 125);
    assert(1 * pow2(125) == pow2(125));
    let r = rounded_at(sig, 1, k, 11);
    assert(is_nearest(single_units_of(x), pow2(125), r, 11));
    assert(half_near(sig, single_power(x)) <= 0x7c00);
}

/// An infinite single is an infinite half of its sign, and what is not a number stays
/// so, with the leading bits of its fraction.
pub proof fn other_singles_stay_so(x: u32)
    requires
        x % 0x8000_0000 >= 0x7f80_0000,
    ensures
        ({
            let h = half_of_single(x);
            let m = h % 0x8000;
            let fraction = x % 0x80_0000;
            &&& h >= 0x8000 <==> x >= 0x8000_0000
            &&& fraction == 0 ==> m == 0x7c00
            &&& 0 < fraction < 0x2000 ==> m == 0x7c01
            &&& fraction >= 0x2000 ==> m == 0x7c00 + fraction / 0x2000
        }),
{
}

/// A double is rounded to the nearest single of its sign. The least single is `2^925` of
/// the least double.
pub proof fn singles_are_nearest(x: u64)
    requires
        x % 0x8000_0000_0000_0000 < 0x7ff0_0000_0000_0000,
    ensures
        ({
            let s = single_of_double(x);
            let m = (s % 0x8000_0000) as nat;
            &&& s >= 0x8000_0000 <==> x >= 0x8000_0000_0000_0000
            &&& m < 0x7f80_0000 ==> is_nearest(double_units_of(x), pow2(925), m, 24)
            &&& m >= 0x7f80_0000 ==> m == 0x7f80_0000 && exists|r: nat|
                r >= 0x7f80_0000 && #[trigger] is_nearest(double_units_of(x), pow2(925), r, 24)
        }),
{
    double_worth(x);
    let k = double_power(x) + 149;
    let sig = double_sig(x);
    scaled_is_nearest(sig, 1, k, 24, 925);
    assert(1 * pow2(925) == pow2(925));
    let r = rounded_at(sig, 1, k, 24);
    assert(is_nearest(double_units_of(x), pow2(925), r, 24));
    assert(single_near(sig, 1, double_power(x)) <= 0x7f80_0000);
}

/// A single divided by a single is the single nearest to the quotient, with the sign of
/// the two.
#[verifier::spinoff_prover]
#[verifier::rlimit(60)]
pub proof fn quotients_are_nearest(x: u32, y: u32)
    requires
        x % 0x8000_0000 < 0x7f80_0000,
        0 < y % 0x8000_0000 < 0x7f80_0000,
    ensures
        ({
            let q = single_over(x, y);
            let m = (q % 0x8000_0000) as nat;
            let a = single_units_of(x) * pow2(149);
            let b = single_units_of(y);
            &&& q >= 0x8000_0000 <==> ((x >= 0x8000_0000) != (y >= 0x8000_0000))
            &&& m < 0x7f80_0000 ==> is_nearest(a, b, m, 24)
            &&& m >= 0x7f80_0000 ==> m == 0x7f80_0000 && exists|r: nat|
                r >= 0x7f80_0000 && #[trigger] is_nearest(a, b, r, 24)
        }),
{
    single_worth(x);
    single_worth(y);
    let k = single_power(x) - single_power(y) + 149;
    let n = (single_power(y) + 149) as nat;
    let sx = single_sig(x);
    let sy = single_sig(y);
    assert(sy > 0);
    scaled_is_nearest(sx, sy, k, 24, n);
    let r = rounded_at(sx, sy, k, 24);
    assert(k + n == single_power(x) + 149 + 149);
    lemma_pow2_adds((single_power(x) + 149) as nat, 149);
    let px = pow2((single_power(x) + 149) as nat);
    assert(sx * (px * pow2(149)) == (sx * px) * pow2(149)) by (nonlinear_arith);
    assert(is_nearest(single_units_of(x) * pow2(149), single_units_of(y), r, 24));
    let q = single_near(sx, sy, single_power(x) - single_power(y));
    assert(q <= 0x7f80_0000);
    if x % 0x8000_0000 == 0 {
        assert(r == 0) by {
            assert(sx == 0);
            rounded_zero(sy, k, 24);
        }
    }
}

/// A double divided by a whole number is the double nearest to the quotient.
pub proof fn double_quotients_are_nearest(x: u64, d: u64)
    requires
        x < 0x7ff0_0000_0000_0000,
        d > 0,
    ensures
        ({
            let m = double_over(x, d) as nat;
            &&& m < 0x7ff0_0000_0000_0000 ==> is_nearest(double_units_of(x), d as nat, m, 53)
            &&& m >= 0x7ff0_0000_0000_0000 ==> m == 0x7ff0_0000_0000_0000 && exists|r: nat|
                r >= 0x7ff0_0000_0000_0000 && #[trigger] is_nearest(
                    double_units_of(x),
                    d as nat,
                    r,
                    53,
                )
        }),
{
    double_worth(x);
    let k = double_power(x) + 1074;
    scaled_is_nearest(double_sig(x), d as nat, k, 53, 0);
    lemma2_to64();
    assert(d as nat * 1 == d as nat);
    let r = rounded_at(double_sig(x), d as nat, k, 53);
    assert(is_nearest(double_units_of(x), d as nat, r, 53));
    assert(double_near(double_sig(x), d as nat, double_power(x)) <= 0x7ff0_0000_0000_0000);
}

/// A whole number is the nearest double.
pub proof fn whole_numbers_are_nearest(n: u64)
    ensures
        double_near(n as nat, 1, 0) <= 0x43f0_0000_0000_0000,
        is_nearest(n as nat * pow2(1074), 1, double_near(n as nat, 1, 0) as nat, 53),
{
    let u = pow2(1074);
    lemma2_to64();
    vstd::arithmetic::power2::lemma2_to64_rest();
    lemma_pow2_adds(64, 1074);
    lemma_pow2_adds(1085, 53);
    lemma_pow2_pos(1074);
    assert(n as nat * u < pow2(1085) * pow2(53) * 1) by (nonlinear_arith)
        requires
            pow2(1085) * pow2(53) == 0x1_0000_0000_0000_0000 * u,
            n < 0x1_0000_0000_0000_0000,
            u > 0,
    ;
    rounded_at_most(n as nat * u, 1, 1085, 53);
    let r = rounded(n as nat * u, 1, 53);
    assert(pow2(52) == 0x10_0000_0000_0000);
    assert(r <= 1087 * 0x10_0000_0000_0000);
    assert(rounded_at(n as nat, 1, 1074, 53) == r);
    assert(double_near(n as nat, 1, 0) == r);
    assert(pow2(0) == 1);
    scaled_is_nearest(n as nat, 1, 1074, 53, 0);
    assert(1 * pow2(0) == 1);
}

/// A whole number times a double is the double nearest to the product of the doubles.
pub proof fn products_are_nearest(n: u64, x: u64)
    requires
        x < 0x7ff0_0000_0000_0000,
    ensures
        ({
            let y = double_near(n as nat, 1, 0);
            let a = double_units_of(y) * double_units_of(x);
            let m = double_times(n, x) as nat;
            &&& m < 0x7ff0_0000_0000_0000 ==> is_nearest(a, pow2(1074), m, 53)
            &&& m >= 0x7ff0_0000_0000_0000 ==> m == 0x7ff0_0000_0000_0000 && exists|r: nat|
                r >= 0x7ff0_0000_0000_0000 && #[trigger] is_nearest(a, pow2(1074), r, 53)
        }),
{
    let y = double_near(n as nat, 1, 0);
    whole_numbers_are_nearest(n);
    double_worth(x);
    double_worth(y);
    let sy = double_sig(y);
    let sx = double_sig(x);
    let py = (double_power(y) + 1074) as nat;
    let px = (double_power(x) + 1074) as nat;
    let k = double_power(y) + double_power(x) + 1074;
    scaled_is_nearest(sy * sx, 1, k, 53, 1074);
    lemma_pow2_adds(py, px);
    assert(k + 1074 == py + px);
    let a = pow2(py);
    let b = pow2(px);
    assert((sy * sx) * (a * b) == (sy * a) * (sx * b)) by (nonlinear_arith);
    assert(1 * pow2(1074) == pow2(1074));
    let r = rounded_at(sy * sx, 1, k, 53);
    assert(is_nearest(double_units_of(y) * double_units_of(x), pow2(1074), r, 53));
    assert(double_near(sy * sx, 1, double_power(y) + double_power(x)) <= 0x7ff0_0000_0000_0000);
}

/// A number of units with its sign.
pub open spec fn signed_units(x: u32) -> int {
    if x >= 0x8000_0000 {
        -(single_units_of(x) as int)
    } else {
        single_units_of(x) as int
    }
}

/// The magnitude of a whole number.
pub open spec fn size(n: int) -> nat {
    if n < 0 {
        (-n) as nat
    } else {
        n as nat
    }
}

/// Whether a single is the one nearest to a number of units, with its sign.
pub open spec fn is_nearest_single(n: int, s: u32) -> bool {
    let m = (s % 0x8000_0000) as nat;
    &&& n > 0 ==> s < 0x8000_0000
    &&& n < 0 ==> s >= 0x8000_0000
    &&& m < 0x7f80_0000 ==> is_nearest(size(n), 1, m, 24)
    &&& m >= 0x7f80_0000 ==> m == 0x7f80_0000 && exists|r: nat|
        r >= 0x7f80_0000 && #[trigger] is_nearest(size(n), 1, r, 24)
}

/// A power common to a number of units.
proof fn units_move(s: nat, p: int, f: int)
    requires
        -149 <= f <= p,
    ensures
        s * pow2((p - f) as nat) * pow2((f + 149) as nat) == s * pow2((p + 149) as nat),
{
    lemma_pow2_adds((p - f) as nat, (f + 149) as nat);
    let a = pow2((p - f) as nat);
    let b = pow2((f + 149) as nat);
    assert(s * a * b == s * (a * b)) by (nonlinear_arith);
}

/// The sum of two singles in units.
proof fn sum_in_units(x: u32, y: u32)
    requires
        x % 0x8000_0000 < 0x7f80_0000,
        y % 0x8000_0000 < 0x7f80_0000,
    ensures
        sum_units(x, y) * pow2((lower(single_power(x), single_power(y)) + 149) as nat)
            == signed_units(x) + signed_units(y),
{
    single_worth(x);
    single_worth(y);
    let f = lower(single_power(x), single_power(y));
    let c = pow2((f + 149) as nat) as int;
    units_move(single_sig(x), single_power(x), f);
    units_move(single_sig(y), single_power(y), f);
    let xs = (single_sig(x) * pow2((single_power(x) - f) as nat)) as int;
    let ys = (single_sig(y) * pow2((single_power(y) - f) as nat)) as int;
    let sx = signed(x >= 0x8000_0000, xs);
    let sy = signed(y >= 0x8000_0000, ys);
    assert((sx + sy) * c == sx * c + sy * c) by (nonlinear_arith);
    assert((-xs) * c == -(xs * c)) by (nonlinear_arith);
    assert((-ys) * c == -(ys * c)) by (nonlinear_arith);
}

/// A multiple has the sign of what is multiplied.
proof fn multiple_has_sign(n: int, c: int, t: int)
    requires
        n * c == t,
        c > 0,
    ensures
        n > 0 <==> t > 0,
        n < 0 <==> t < 0,
        magnitude(n) * c == size(t),
{
    assert((n > 0 <==> t > 0) && (n < 0 <==> t < 0)) by (nonlinear_arith)
        requires
            n * c == t,
            c > 0,
    ;
    assert((-n) * c == -(n * c)) by (nonlinear_arith);
}

/// The sum of two singles is the single nearest to their sum.
#[verifier::spinoff_prover]
#[verifier::rlimit(60)]
pub proof fn sums_are_nearest(x: u32, y: u32)
    requires
        x % 0x8000_0000 < 0x7f80_0000,
        y % 0x8000_0000 < 0x7f80_0000,
    ensures
        is_nearest_single(signed_units(x) + signed_units(y), single_sum(x, y)),
{
    let f = lower(single_power(x), single_power(y));
    let n = sum_units(x, y);
    let c = pow2((f + 149) as nat);
    let t = signed_units(x) + signed_units(y);
    lemma_pow2_pos((f + 149) as nat);
    sum_in_units(x, y);
    multiple_has_sign(n, c as int, t);
    let a = magnitude(n);
    scaled_is_nearest(a, 1, f + 149, 24, 0);
    let r = rounded_at(a, 1, f + 149, 24);
    assert(is_nearest(size(t), 1, r, 24)) by {
        lemma2_to64();
    }
    assert(single_near(a, 1, f) <= 0x7f80_0000);
}

/// The difference of two singles is the single nearest to their difference.
pub proof fn differences_are_nearest(x: u32, y: u32)
    requires
        x % 0x8000_0000 < 0x7f80_0000,
        y % 0x8000_0000 < 0x7f80_0000,
    ensures
        is_nearest_single(signed_units(x) - signed_units(y), single_difference(x, y)),
{
    let z = negated(y);
    assert(z % 0x8000_0000 == y % 0x8000_0000);
    assert(signed_units(z) == -signed_units(y)) by {
        single_worth(y);
        small_worth_zero();
    }
    sums_are_nearest(x, z);
}

/// Nothing is worth nothing.
proof fn small_worth_zero()
    ensures
        worth(0, 24) == 0,
{
    lemma_pow2_pos(23);
}

/// A single and one more is the single nearest to the sum: one is `2^149` of the least single.
pub proof fn one_more_is_nearest(x: u32)
    requires
        x % 0x8000_0000 < 0x7f80_0000,
    ensures
        is_nearest_single(signed_units(x) + pow2(149), single_plus_one(x)),
{
    sums_are_nearest(x, 0x3f80_0000);
    lemma2_to64();
    lemma_pow2_adds(23, 126);
    assert(pow2(23) == 0x80_0000);
    assert(0x3f80_0000u32 % 0x8000_0000 == 0x3f80_0000);
    assert(0x3f80_0000nat % 0x80_0000 == 0 && 0x3f80_0000nat / 0x80_0000 == 127);
    assert(worth(0x3f80_0000, 24) == (0x80_0000 + 0) * pow2(126));
    assert(signed_units(0x3f80_0000) == pow2(149));
}

/// A sum of nothing is below zero only where both are.
pub proof fn zeros_have_signs(x: u32, y: u32)
    requires
        x % 0x8000_0000 < 0x7f80_0000,
        y % 0x8000_0000 < 0x7f80_0000,
        signed_units(x) + signed_units(y) == 0,
    ensures
        single_sum(x, y) == (if x >= 0x8000_0000 && y >= 0x8000_0000 {
            0x8000_0000u32
        } else {
            0u32
        }),
{
    let f = lower(single_power(x), single_power(y));
    let n = sum_units(x, y);
    let c = pow2((f + 149) as nat);
    lemma_pow2_pos((f + 149) as nat);
    sum_in_units(x, y);
    multiple_has_sign(n, c as int, 0);
    assert(n == 0);
    rounded_zero(1, f + 149, 24);
    assert(single_near(0, 1, f) == 0);
}

/// What is not a number stays so in a sum, the first before the second, with the leading bit of its
/// fraction set; infinities of different signs have no sum; else what is infinite stays.
pub proof fn sums_of_others(x: u32, y: u32)
    ensures
        ({
            let a = x % 0x8000_0000;
            let b = y % 0x8000_0000;
            let s = single_sum(x, y);
            &&& a > 0x7f80_0000 ==> s == with_leading_bit(x)
            &&& a <= 0x7f80_0000 && b > 0x7f80_0000 ==> s == with_leading_bit(y)
            &&& a == 0x7f80_0000 && b == 0x7f80_0000 && x != y ==> s == 0x7fc0_0000
            &&& a == 0x7f80_0000 && b == 0x7f80_0000 && x == y ==> s == x
            &&& a == 0x7f80_0000 && b < 0x7f80_0000 ==> s == x
            &&& a < 0x7f80_0000 && b == 0x7f80_0000 ==> s == y
        }),
{
}

/// What is not a number, with the leading bit of its fraction set.
pub open spec fn with_leading_bit(x: u32) -> u32 {
    if x % 0x80_0000 < 0x40_0000 {
        (x + 0x40_0000) as u32
    } else {
        x
    }
}

/// What is not a number stays so in a quotient, the first before the second; infinities have no
/// quotient, and neither have zeros; what is infinite stays so, what is divided by zero becomes so,
/// and what is divided by an infinity is zero, each with the sign of the two.
pub proof fn quotients_of_others(x: u32, y: u32)
    ensures
        ({
            let a = x % 0x8000_0000;
            let b = y % 0x8000_0000;
            let q = single_over(x, y);
            let sign = if (x >= 0x8000_0000) != (y >= 0x8000_0000) {
                0x8000_0000int
            } else {
                0
            };
            &&& a > 0x7f80_0000 ==> q == with_leading_bit(x)
            &&& a <= 0x7f80_0000 && b > 0x7f80_0000 ==> q == with_leading_bit(y)
            &&& a == 0x7f80_0000 && b == 0x7f80_0000 ==> q == 0x7fc0_0000
            &&& a == 0 && b == 0 ==> q == 0x7fc0_0000
            &&& a == 0x7f80_0000 && b < 0x7f80_0000 ==> q == 0x7f80_0000 + sign
            &&& 0 < a < 0x7f80_0000 && b == 0 ==> q == 0x7f80_0000 + sign
            &&& a < 0x7f80_0000 && b == 0x7f80_0000 ==> q == sign
        }),
{
}

/// Infinite doubles are infinite singles of their sign, and the other way round; what is not a number
/// stays so.
pub proof fn others_are_converted(x: u64, y: u32)
    ensures
        x == 0x7ff0_0000_0000_0000 ==> single_of_double(x) == 0x7f80_0000,
        x == 0xfff0_0000_0000_0000 ==> single_of_double(x) == 0xff80_0000,
        x % 0x8000_0000_0000_0000 > 0x7ff0_0000_0000_0000 ==> single_of_double(x) % 0x8000_0000
            == 0x7fc0_0000 + x % 0x10_0000_0000_0000 / 0x2000_0000 % 0x40_0000 && (
        single_of_double(x) >= 0x8000_0000 <==> x >= 0x8000_0000_0000_0000),
        y == 0x7f80_0000 ==> double_of_single(y) == 0x7ff0_0000_0000_0000,
        y == 0xff80_0000 ==> double_of_single(y) == 0xfff0_0000_0000_0000,
        y % 0x8000_0000 > 0x7f80_0000 ==> double_of_single(y) % 0x8000_0000_0000_0000
            == 0x7ff8_0000_0000_0000 + y % 0x40_0000 * 0x2000_0000 && (double_of_single(y)
            >= 0x8000_0000_0000_0000 <==> y >= 0x8000_0000),
        x >= 0x7ff0_0000_0000_0000 && x < 0x8000_0000_0000_0000 ==> forall|d: u64|
            #[trigger] double_over(x, d) == x,
{
    assert(y % 0x80_0000 % 0x40_0000 == y % 0x40_0000);
}

} // verus!
