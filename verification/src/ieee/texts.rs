//! Laws of numbers as texts: how many digits they have and how far they are
//! off.

use crate::ieee::convert::{cut_product, double_floor, double_power, double_sig, double_times};
use crate::ieee::decimal::{
    double_fixed, double_ratio, exponent_text, fixed_text, fraction_text, g6_text, general_text,
    places, pow10, pow10_adds, pow10_pos, scientific, six_digits, tens, tens_over, tens_under,
    trimmed, zero_digits,
};
use crate::ieee::laws::{
    double_units_of, double_worth, integers_are_nearest, is_nearest, rounding_is_nearest,
};
use crate::ieee::reading::{count_read, decimal_parts, double_read, thousands};
use crate::ieee::{nearest, nearest_scaled, rounded_at};
use crate::remix::meta::{label_places, size_label_text, unit_factor, unit_of};
use crate::text::laws::first_place;
use crate::text::{decimal, decimal_reads_back, decimal_value, digit_char};
use vstd::arithmetic::power2::{lemma_pow2_adds, lemma_pow2_pos, pow2};
use vstd::prelude::*;

verus! {

/// How often ten goes into a number.
proof fn tens_over_bounds(a: nat, b: nat)
    requires
        0 < b <= a,
    ensures
        pow10(tens_over(a, b)) * b <= a < pow10(tens_over(a, b) + 1) * b,
    decreases a - b,
{
    reveal_with_fuel(pow10, 2);
    if a >= 10 * b {
        tens_over_bounds(a, 10 * b);
        let t = tens_over(a, 10 * b);
        assert(tens_over(a, b) == t + 1);
        assert(pow10(t) * (10 * b) == pow10(t + 1) * b) by (nonlinear_arith)
            requires
                pow10(t + 1) == 10 * pow10(t),
        ;
        assert(pow10(t + 1) * (10 * b) == pow10(t + 2) * b) by (nonlinear_arith)
            requires
                pow10(t + 2) == 10 * pow10(t + 1),
        ;
        assert(tens_over(a, b) + 1 == t + 2);
    } else {
        assert(tens_over(a, b) == 0);
        assert(pow10(0) == 1 && pow10(1) == 10);
        assert(pow10(0) * b == b && pow10(1) * b == 10 * b) by (nonlinear_arith)
            requires
                pow10(0) == 1,
                pow10(1) == 10,
        ;
    }
}

/// How often a number is to be taken ten times.
proof fn tens_under_bounds(a: nat, b: nat)
    requires
        0 < a < b,
    ensures
        tens_under(a, b) >= 1,
        pow10(tens_under(a, b)) * a >= b,
        pow10((tens_under(a, b) - 1) as nat) * a < b,
    decreases b - a,
{
    reveal_with_fuel(pow10, 2);
    if 10 * a < b {
        tens_under_bounds(10 * a, b);
        let t = tens_under(10 * a, b);
        assert(tens_under(a, b) == t + 1);
        assert(pow10(t) * (10 * a) == pow10(t + 1) * a) by (nonlinear_arith)
            requires
                pow10(t + 1) == 10 * pow10(t),
        ;
        let s = (t - 1) as nat;
        assert(pow10(s) * (10 * a) == pow10(t) * a) by (nonlinear_arith)
            requires
                pow10(t) == 10 * pow10(s),
        ;
    } else {
        assert(tens_under(10 * a, b) == 0);
        assert(tens_under(a, b) == 1);
        assert(pow10(0) == 1 && pow10(1) == 10);
        assert(pow10(0) * a == a && pow10(1) * a == 10 * a) by (nonlinear_arith)
            requires
                pow10(0) == 1,
                pow10(1) == 10,
        ;
    }
}

/// A number brought to six digits before the point.
pub open spec fn raised_to_six(a: nat, e: int) -> nat {
    if e <= 5 {
        a * pow10((5 - e) as nat)
    } else {
        a
    }
}

/// What such a number is divided by.
pub open spec fn lowered_to_six(b: nat, e: int) -> nat {
    if e <= 5 {
        b
    } else {
        b * pow10((e - 5) as nat)
    }
}

/// By the exponent of a number it has six digits.
proof fn six_digits_bounds(a: nat, b: nat)
    requires
        a > 0,
        b > 0,
    ensures
        ({
            let e = tens(a, b);
            let x = raised_to_six(a, e);
            let y = lowered_to_six(b, e);
            &&& y > 0
            &&& 100_000 * y <= x < 1_000_000 * y
        }),
{
    let e = tens(a, b);
    assert(pow10(5) == 100_000 && pow10(6) == 1_000_000) by {
        reveal_with_fuel(pow10, 7);
    }
    if a >= b {
        tens_over_bounds(a, b);
        let t = e as nat;
        if e <= 5 {
            let u = (5 - e) as nat;
            pow10_adds(t, u);
            pow10_adds(t + 1, u);
            pow10_pos(u);
            let p = pow10(t);
            let q = pow10(t + 1);
            let r = pow10(u);
            assert(100_000 * b <= a * r < 1_000_000 * b) by (nonlinear_arith)
                requires
                    p * b <= a < q * b,
                    p * r == 100_000,
                    q * r == 1_000_000,
                    r > 0,
            ;
        } else {
            let u = (e - 5) as nat;
            pow10_adds(5, u);
            pow10_adds(6, u);
            pow10_pos(u);
            let r = pow10(u);
            assert(b * r > 0 && 100_000 * (b * r) == (100_000 * r) * b && 1_000_000 * (b * r) == (
            1_000_000 * r) * b) by (nonlinear_arith)
                requires
                    b > 0,
                    r > 0,
            ;
        }
    } else {
        tens_under_bounds(a, b);
        let t = (-e) as nat;
        pow10_adds(t, 5);
        pow10_adds((t - 1) as nat, 6);
        let p = pow10(t);
        let q = pow10((t - 1) as nat);
        assert(a * (p * 100_000) >= 100_000 * b && a * (q * 1_000_000) < 1_000_000 * b)
            by (nonlinear_arith)
            requires
                p * a >= b,
                q * a < b,
        ;
    }
}

/// A number in six significant digits: the digits are six, they are no further off than half of
/// the last one, and just so far only where it is even.
pub proof fn six_digits_are_nearest(a: nat, b: nat)
    requires
        a > 0,
        b > 0,
    ensures
        ({
            let (d, e) = scientific(a, b);
            let x = raised_to_six(a, e);
            let y = lowered_to_six(b, e);
            &&& 100_000 <= d < 1_000_000
            &&& 2 * x <= y * (2 * d + 1)
            &&& 2 * x >= y * (2 * d - 1)
            &&& 2 * x == y * (2 * d + 1) || 2 * x == y * (2 * d - 1) ==> d % 2 == 0
        }),
{
    let e = tens(a, b);
    let x = raised_to_six(a, e);
    let y = lowered_to_six(b, e);
    six_digits_bounds(a, b);
    let d = six_digits(a, b, e);
    assert(d == nearest(x, y));
    integers_are_nearest(x, y);
    assert(100_000 <= d <= 1_000_000) by {
        assert(100_000 <= x / y < 1_000_000) by (nonlinear_arith)
            requires
                100_000 * y <= x < 1_000_000 * y,
                y > 0,
        ;
    }
    if d == 1_000_000 {
        let x1 = raised_to_six(a, e + 1);
        let y1 = lowered_to_six(b, e + 1);
        reveal_with_fuel(pow10, 2);
        if e <= 4 {
            let u = (4 - e) as nat;
            assert(pow10((5 - e) as nat) == 10 * pow10(u));
            let r = pow10(u);
            assert(a * (10 * r) == 10 * (a * r)) by (nonlinear_arith);
            assert(x == 10 * x1 && y1 == y);
        } else if e == 5 {
            assert(pow10(0) == 1 && pow10(1) == 10);
            assert(a * pow10(0) == a && b * pow10(1) == 10 * b) by (nonlinear_arith)
                requires
                    pow10(0) == 1,
                    pow10(1) == 10,
            ;
            assert(x1 == x && y1 == 10 * y);
        } else {
            let u = (e - 5) as nat;
            assert(pow10(u + 1) == 10 * pow10(u));
            let r = pow10(u);
            assert(b * (10 * r) == 10 * (b * r)) by (nonlinear_arith);
            assert(x1 == x && y1 == 10 * y);
        }
        assert(y * (2 * 1_000_000 + 1) == 2_000_001 * y) by (nonlinear_arith);
        assert(y * (2 * 1_000_000 - 1) == 1_999_999 * y) by (nonlinear_arith);
        assert(y1 * (2 * 100_000 + 1) == 200_001 * y1) by (nonlinear_arith);
        assert(y1 * (2 * 100_000 - 1) == 199_999 * y1) by (nonlinear_arith);
    }
}

/// A number of tenths or hundredths is written with a point before its last digits.
pub proof fn fixed_texts_have_a_point(v: nat)
    ensures
        fixed_text(v, 0) == decimal(v),
        fixed_text(v, 1) == decimal(v / 10) + seq!['.', digit_char((v % 10) as int)],
        fixed_text(v, 2) == decimal(v / 100) + seq![
            '.',
            digit_char((v / 10 % 10) as int),
            digit_char((v % 10) as int),
        ],
{
    reveal_with_fuel(pow10, 3);
    reveal_with_fuel(places, 3);
    assert(pow10(1) == 10 && pow10(2) == 100);
    assert(v % 100 / 10 == v / 10 % 10);
    assert(v % 100 % 10 == v % 10);
    assert(v % 100 / 10 % 10 == v / 10 % 10);
    assert(fixed_text(v, 1) =~= decimal(v / 10) + seq!['.', digit_char((v % 10) as int)]);
    assert(fixed_text(v, 2) =~= decimal(v / 100) + seq![
        '.',
        digit_char((v / 10 % 10) as int),
        digit_char((v % 10) as int),
    ]);
}

/// A double times a power of ten is rounded to the nearest integer, the even one of two.
pub proof fn fixed_numbers_are_nearest(x: u64, n: nat)
    requires
        x % 0x8000_0000_0000_0000 < 0x7ff0_0000_0000_0000,
    ensures
        ({
            let r = double_fixed(x, n) as int;
            let a = double_units_of(x) * pow10(n) as int;
            let u = pow2(1074) as int;
            &&& 2 * a <= u * (2 * r + 1)
            &&& r > 0 ==> 2 * a >= u * (2 * r - 1)
            &&& 2 * a == u * (2 * r + 1) || (r > 0 && 2 * a == u * (2 * r - 1)) ==> r % 2 == 0
        }),
{
    double_worth(x);
    let s = double_sig(x);
    let p = double_power(x);
    let t = pow10(n);
    let u = pow2(1074);
    let r = double_fixed(x, n);
    lemma_pow2_pos(1074);
    if p >= 0 {
        lemma_pow2_adds(p as nat, 1074);
        let q = pow2(p as nat);
        assert(s * (q * u) * t == (s * q * t) * u) by (nonlinear_arith);
        let w = s * q * t;
        assert(r == w);
        assert(u * (2 * w + 1) == 2 * (w * u) + u) by (nonlinear_arith);
        assert(u * (2 * w - 1) == 2 * (w * u) - u) by (nonlinear_arith);
    } else {
        let k = (-p) as nat;
        let m = (p + 1074) as nat;
        lemma_pow2_adds(k, m);
        lemma_pow2_pos(k);
        lemma_pow2_pos(m);
        let c = pow2(m);
        nearest_scaled(s * t, pow2(k), c);
        assert(s * t * c == s * c * t) by (nonlinear_arith);
        integers_are_nearest(s * c * t, u);
    }
}

/// A size label has two digits at least: none behind the point where two stand before it, one
/// where one does, and two where none does.
pub proof fn labels_have_two_digits(scaled: u64)
    ensures
        double_fixed(scaled, 0) == 0 ==> label_places(scaled) == 2,
        1 <= double_fixed(scaled, 0) <= 9 ==> label_places(scaled) == 1,
        double_fixed(scaled, 0) >= 10 ==> label_places(scaled) == 0,
{
    let v = double_fixed(scaled, 0);
    if v >= 10 {
        assert(decimal(v / 10).len() > 0) by {
            decimal_reads_back(v / 10);
        }
    }
}

/// A decimal number is digits, with or without a point among them.
pub proof fn decimal_numbers_are_read(whole: Seq<char>, fraction: Seq<char>)
    requires
        forall|k: int| 0 <= k < whole.len() ==> '0' <= #[trigger] whole[k] <= '9',
    ensures
        whole.len() > 0 ==> decimal_parts(whole) == Some((whole, Seq::<char>::empty())),
        whole.len() == 0 ==> decimal_parts(whole) is None,
        ({
            let r = decimal_parts(whole + seq!['.'] + fraction);
            let digits = forall|k: int|
                0 <= k < fraction.len() ==> '0' <= #[trigger] fraction[k] <= '9';
            &&& digits && whole.len() + fraction.len() > 0 ==> r == Some((whole, fraction))
            &&& !digits || whole.len() + fraction.len() == 0 ==> r is None
        }),
{
    let s = whole + seq!['.'] + fraction;
    let n = whole.len() as int;
    assert forall|k: int| 0 <= k < n implies #[trigger] s[k] != '.' by {
        assert(s[k] == whole[k]);
    }
    first_place(s, '.', 0, n);
    first_place(whole, '.', 0, n);
    assert(s.take(n) =~= whole);
    assert(s.skip(n + 1) =~= fraction);
    assert(whole.take(n) =~= whole);
}

/// The powers of a thousand.
pub proof fn thousands_are_powers(k: nat)
    requires
        k <= 4,
    ensures
        k == 0 ==> thousands(k) == 1,
        k > 0 ==> thousands(k) == 1000 * thousands((k - 1) as nat),
{
}

/// A decimal number is read as the nearest double.
pub proof fn decimals_are_nearest(whole: Seq<char>, fraction: Seq<char>)
    ensures
        ({
            let m = double_read(whole, fraction) as nat;
            let a = decimal_value(whole + fraction) * pow2(1074);
            let b = pow10(fraction.len());
            &&& m < 0x7ff0_0000_0000_0000 ==> is_nearest(a, b, m, 53)
            &&& m >= 0x7ff0_0000_0000_0000 ==> m == 0x7ff0_0000_0000_0000 && exists|r: nat|
                r >= 0x7ff0_0000_0000_0000 && #[trigger] is_nearest(a, b, r, 53)
        }),
{
    let v = decimal_value(whole + fraction);
    let b = pow10(fraction.len());
    pow10_pos(fraction.len());
    rounding_is_nearest(v * pow2(1074), b, 53);
    let r = rounded_at(v, b, 1074, 53);
    assert(is_nearest(v * pow2(1074), b, r, 53));
}

/// A number in thousands is read as the whole part of the product, as far as it fits.
pub proof fn counts_are_read(s: Seq<char>, k: nat)
    ensures
        decimal_parts(s) is None ==> count_read(s, k) is None,
        decimal_parts(s) matches Some((whole, fraction)) ==> {
            let n = double_floor(double_times(thousands(k), double_read(whole, fraction)));
            &&& n <= 0x7fff_ffff_ffff_ffff ==> count_read(s, k) == Some(n as i64)
            &&& n > 0x7fff_ffff_ffff_ffff ==> count_read(s, k) == Some(0x7fff_ffff_ffff_ffffi64)
        },
{
}

/// The whole part of a double is the largest integer that is no larger.
pub proof fn whole_parts_are_largest(x: u64)
    requires
        x < 0x7ff0_0000_0000_0000,
    ensures
        double_floor(x) * pow2(1074) <= double_units_of(x),
        double_units_of(x) < (double_floor(x) + 1) * pow2(1074),
{
    double_worth(x);
    let s = double_sig(x);
    let p = double_power(x);
    let u = pow2(1074);
    lemma_pow2_pos(1074);
    if p >= 0 {
        let q = pow2(p as nat);
        lemma_pow2_adds(p as nat, 1074);
        assert(s * (q * u) == (s * q) * u) by (nonlinear_arith);
        let w = s * q;
        assert((w + 1) * u == w * u + u) by (nonlinear_arith);
    } else {
        let k = (-p) as nat;
        let m = (p + 1074) as nat;
        lemma_pow2_adds(k, m);
        lemma_pow2_pos(k);
        lemma_pow2_pos(m);
        let a = pow2(k);
        let c = pow2(m);
        let f = s / a;
        vstd::arithmetic::div_mod::lemma_fundamental_div_mod(s as int, a as int);
        assert((f + 1) * a == f * a + a) by (nonlinear_arith);
        assert(a * f == f * a) by (nonlinear_arith);
        let low = f * a;
        let high = (f + 1) * a;
        assert(low <= s < high);
        assert(low * c <= s * c && s * c < high * c) by (nonlinear_arith)
            requires
                low <= s < high,
                c > 0,
        ;
        assert(f * a * c == f * (a * c)) by (nonlinear_arith);
        assert((f + 1) * a * c == (f + 1) * (a * c)) by (nonlinear_arith);
    }
}

/// A size label is the number in its unit with so many digits behind the point, and the unit.
pub proof fn size_labels_are_written(n: u64)
    ensures
        ({
            let scaled = double_times(n, unit_factor(n));
            let label = size_label_text(n);
            let places = label_places(scaled);
            &&& label.len() > 0 && label.last() == unit_of(n)
            &&& places == 0 ==> label.drop_last() == fixed_text(double_fixed(scaled, 0), 0)
            &&& places == 1 ==> label.drop_last() == fixed_text(double_fixed(scaled, 1), 1)
            &&& places == 2 ==> label.drop_last() == fixed_text(double_fixed(scaled, 2), 2)
        }),
{
    let scaled = double_times(n, unit_factor(n));
    let places = label_places(scaled);
    let t = fixed_text(double_fixed(scaled, places), places);
    assert(t.push(unit_of(n)).drop_last() =~= t);
}

/// Zeros at the end are left out.
proof fn zeros_are_trimmed(s: Seq<char>, z: nat)
    requires
        s.len() == 0 || s.last() != '0',
    ensures
        trimmed(s + zero_digits(z)) == s,
    decreases z,
{
    let t = s + zero_digits(z);
    if z == 0 {
        assert(t =~= s);
    } else {
        assert(t.last() == '0');
        assert(t.drop_last() =~= s + zero_digits((z - 1) as nat));
        zeros_are_trimmed(s, (z - 1) as nat);
    }
}

/// The digits of a multiple of a power of ten end with zeros.
proof fn multiples_end_with_zeros(m: nat, k: nat, z: nat)
    ensures
        places(m * pow10(z), k + z) == places(m, k) + zero_digits(z),
        places(m, k).len() == k,
    decreases z, k,
{
    if z > 0 {
        let y = (z - 1) as nat;
        multiples_end_with_zeros(m, k, y);
        let v = m * pow10(y);
        assert(m * pow10(z) == 10 * v) by (nonlinear_arith)
            requires
                pow10(z) == 10 * pow10(y),
                v == m * pow10(y),
        ;
        assert((10 * v) / 10 == v && (10 * v) % 10 == 0);
        assert(digit_char(0) == '0');
        assert(places(m * pow10(z), k + z) =~= places(v, k + y).push('0'));
        assert(places(m, k) + zero_digits(z) =~= (places(m, k) + zero_digits(y)).push('0'));
    } else {
        assert(pow10(0) == 1);
        assert(m * 1 == m);
        assert(places(m, k) + zero_digits(0) =~= places(m, k));
        if k > 0 {
            multiples_end_with_zeros(m / 10, (k - 1) as nat, 0);
        }
    }
}

/// A number of `k` significant digits `m` and an exponent `e` is written with a power of ten where
/// `e` is below -4 or above 5, and else with its point where it belongs; never with a zero at the
/// end behind a point.
pub proof fn numbers_are_written_shortest(m: nat, k: nat, e: int)
    requires
        1 <= k <= 6,
        k > 1 ==> m % 10 != 0,
        k == 1 ==> 1 <= m <= 9,
    ensures
        ({
            let d = m * pow10((6 - k) as nat);
            let p = places(m, k);
            let t = general_text(d, e);
            &&& p.len() == k
            &&& e < -4 && k == 1 ==> t == p + seq!['e', '-'] + two_digits((-e) as nat)
            &&& e < -4 && k > 1 ==> t == p.take(1) + seq!['.'] + p.skip(1) + seq!['e', '-']
                + two_digits((-e) as nat)
            &&& e >= 6 && k == 1 ==> t == p + seq!['e', '+'] + two_digits(e as nat)
            &&& e >= 6 && k > 1 ==> t == p.take(1) + seq!['.'] + p.skip(1) + seq!['e', '+']
                + two_digits(e as nat)
            &&& -4 <= e < 0 ==> t == seq!['0', '.'] + Seq::new(
                (-e - 1) as nat,
                |i: int| '0',
            ) + p
            &&& 0 <= e < 6 && k <= e + 1 ==> t == p + Seq::new((e + 1 - k) as nat, |i: int| '0')
            &&& 0 <= e < 6 && k > e + 1 ==> t == p.take(e + 1) + seq!['.'] + p.skip(e + 1)
        }),
{
    let z = (6 - k) as nat;
    let d = m * pow10(z);
    let p = places(m, k);
    multiples_end_with_zeros(m, k, z);
    let all = places(d, 6);
    assert(all == p + zero_digits(z));
    assert(p.last() != '0') by {
        assert(p == places(m / 10, (k - 1) as nat).push(digit_char((m % 10) as int)));
        assert(p.last() == digit_char((m % 10) as int));
        assert(m % 10 != 0);
        assert(digit_char((m % 10) as int) as int == '0' as int + (m % 10) as int);
    }
    zeros_are_trimmed(p, z);
    if e < -4 || e >= 6 {
        rest_is_trimmed(p, z, 1);
        assert(all[0] == p[0]);
        assert(seq![all[0]] =~= p.take(1));
        let x = if e < 0 {
            seq!['-'] + exponent_text((-e) as nat)
        } else {
            seq!['+'] + exponent_text(e as nat)
        };
        let t = general_text(d, e);
        if k == 1 {
            assert(p.take(1) =~= p);
            assert(fraction_text(all.skip(1)) =~= Seq::empty());
            if e < 0 {
                assert(t =~= p + seq!['e', '-'] + two_digits((-e) as nat));
            } else {
                assert(t =~= p + seq!['e', '+'] + two_digits(e as nat));
            }
        } else {
            assert(fraction_text(all.skip(1)) =~= seq!['.'] + p.skip(1));
            if e < 0 {
                assert(t =~= p.take(1) + seq!['.'] + p.skip(1) + seq!['e', '-'] + two_digits(
                    (-e) as nat,
                ));
            } else {
                assert(t =~= p.take(1) + seq!['.'] + p.skip(1) + seq!['e', '+'] + two_digits(
                    e as nat,
                ));
            }
        }
    } else if e >= 0 {
        rest_is_trimmed(p, z, e + 1);
        if k <= e + 1 {
            assert(all.take(e + 1) + fraction_text(all.skip(e + 1)) =~= p + Seq::new(
                (e + 1 - k) as nat,
                |i: int| '0',
            ));
        } else {
            assert(all.take(e + 1) =~= p.take(e + 1));
            assert(all.take(e + 1) + fraction_text(all.skip(e + 1)) =~= p.take(e + 1) + seq!['.']
                + p.skip(e + 1));
        }
    } else {
        assert(zero_digits((-e - 1) as nat) =~= Seq::new((-e - 1) as nat, |i: int| '0'));
    }
}

/// What stands behind the first digits, without the zeros at the end.
proof fn rest_is_trimmed(p: Seq<char>, z: nat, n: int)
    requires
        p.len() > 0,
        p.last() != '0',
        0 <= n <= p.len() + z,
    ensures
        n < p.len() ==> trimmed((p + zero_digits(z)).skip(n)) == p.skip(n),
        n >= p.len() ==> trimmed((p + zero_digits(z)).skip(n)).len() == 0,
{
    let s = (p + zero_digits(z)).skip(n);
    if n < p.len() {
        assert(s =~= p.skip(n) + zero_digits(z));
        assert(p.skip(n).last() == p.last());
        zeros_are_trimmed(p.skip(n), z);
    } else {
        let none = Seq::<char>::empty();
        let y = (p.len() + z - n) as nat;
        assert(s =~= none + zero_digits(y));
        zeros_are_trimmed(none, y);
    }
}

/// An exponent in two digits at least.
pub open spec fn two_digits(e: nat) -> Seq<char> {
    if e < 10 {
        seq!['0'] + decimal(e)
    } else {
        decimal(e)
    }
}

/// What is not a number, what is infinite and what is nothing have texts of their own. All else is
/// its sign and the number in six digits.
pub proof fn doubles_are_written(x: u64, a: nat, b: nat)
    requires
        x % 0x8000_0000_0000_0000 < 0x7ff0_0000_0000_0000 ==> b > 0 && a * pow2(1074)
            == double_units_of(x) * b,
    ensures
        x % 0x8000_0000_0000_0000 > 0x7ff0_0000_0000_0000 ==> g6_text(x) == seq!['n', 'a', 'n'],
        x == 0x7ff0_0000_0000_0000 ==> g6_text(x) == seq!['i', 'n', 'f'],
        x == 0xfff0_0000_0000_0000 ==> g6_text(x) == seq!['-', 'i', 'n', 'f'],
        x % 0x8000_0000_0000_0000 == 0 ==> g6_text(x) == seq!['0'],
        0 < x < 0x7ff0_0000_0000_0000 ==> double_ratio(x).0 * b == a * double_ratio(x).1
            && g6_text(x) == ({
            let (d, e) = scientific(double_ratio(x).0, double_ratio(x).1);
            general_text(d, e)
        }),
        0x8000_0000_0000_0000 < x < 0xfff0_0000_0000_0000 ==> double_ratio(x).0 * b == a
            * double_ratio(x).1 && g6_text(x) == ({
            let (d, e) = scientific(double_ratio(x).0, double_ratio(x).1);
            seq!['-'] + general_text(d, e)
        }),
{
    double_worth(x);
    let s = double_sig(x);
    let p = double_power(x);
    let u = pow2(1074);
    lemma_pow2_pos(1074);
    let none = Seq::<char>::empty();
    if x == 0x7ff0_0000_0000_0000 {
        assert(none + seq!['i', 'n', 'f'] =~= seq!['i', 'n', 'f']);
    }
    if x == 0xfff0_0000_0000_0000 {
        assert(seq!['-'] + seq!['i', 'n', 'f'] =~= seq!['-', 'i', 'n', 'f']);
    }
    if x % 0x8000_0000_0000_0000 < 0x7ff0_0000_0000_0000 {
        let (c, d) = double_ratio(x);
        if p >= 0 {
            let q = pow2(p as nat);
            lemma_pow2_adds(p as nat, 1074);
            assert(s * (q * u) == (s * q) * u) by (nonlinear_arith);
            assert(c * b == a * 1) by (nonlinear_arith)
                requires
                    a * u == (c * u) * b,
                    u > 0,
            ;
        } else {
            let m = pow2((p + 1074) as nat);
            lemma_pow2_adds((-p) as nat, (p + 1074) as nat);
            lemma_pow2_pos((p + 1074) as nat);
            assert(c * b == a * d) by (nonlinear_arith)
                requires
                    a * (d * m) == (c * m) * b,
                    m > 0,
            ;
        }
        let (e, f) = scientific(c, d);
        if 0 < x < 0x7ff0_0000_0000_0000 {
            assert(none + general_text(e, f) =~= general_text(e, f));
        }
    }
}

/// A whole number times a double is cut to its whole part in 32 bits; what is beyond them is the
/// largest, and what is below zero or not a number is nothing.
pub proof fn products_are_cut(n: u64, x: u64)
    ensures
        x >= 0x8000_0000_0000_0000 || x > 0x7ff0_0000_0000_0000 ==> cut_product(n, x) == 0,
        x == 0x7ff0_0000_0000_0000 && n == 0 ==> cut_product(n, x) == 0,
        x == 0x7ff0_0000_0000_0000 && n > 0 ==> cut_product(n, x) == 0xffff_ffff,
        x < 0x7ff0_0000_0000_0000 ==> ({
            let w = double_floor(double_times(n, x));
            &&& w <= 0xffff_ffff ==> cut_product(n, x) == w
            &&& w > 0xffff_ffff ==> cut_product(n, x) == 0xffff_ffff
        }),
{
}

} // verus!
