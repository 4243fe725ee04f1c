//! Doubles in decimal.

use crate::ieee::convert::{
    double_finite, double_nan, double_negative, double_parts, double_power, double_sig,
};
use crate::ieee::{nearest, nearest_scaled, nearest_u128, two_to};
use crate::text::{chars_of, decimal, decimal_text, digit_char, string_of};
use vstd::arithmetic::power2::{
    lemma2_to64, lemma2_to64_rest, lemma_pow2_pos, lemma_pow2_strictly_increases,
    lemma_pow2_unfold, pow2,
};
use vstd::prelude::*;

verus! {

/// A power of ten.
pub open spec fn pow10(n: nat) -> nat
    decreases n,
{
    if n == 0 {
        1
    } else {
        10 * pow10((n - 1) as nat)
    }
}

/// A power of five.
pub open spec fn pow5(n: nat) -> nat
    decreases n,
{
    if n == 0 {
        1
    } else {
        5 * pow5((n - 1) as nat)
    }
}

pub proof fn pow10_pos(n: nat)
    ensures
        pow10(n) > 0,
    decreases n,
{
    if n > 0 {
        pow10_pos((n - 1) as nat);
    }
}

pub proof fn pow10_adds(m: nat, n: nat)
    ensures
        pow10(m + n) == pow10(m) * pow10(n),
    decreases m,
{
    if m > 0 {
        pow10_adds((m - 1) as nat, n);
        assert((m - 1) as nat + n == (m + n - 1) as nat);
        assert(10 * (pow10((m - 1) as nat) * pow10(n)) == (10 * pow10((m - 1) as nat)) * pow10(n))
            by (nonlinear_arith);
    } else {
        assert(1 * pow10(n) == pow10(n));
    }
}

/// Ten is two times five.
pub proof fn pow10_parts(n: nat)
    ensures
        pow10(n) == pow5(n) * pow2(n),
        pow5(n) > 0,
    decreases n,
{
    lemma2_to64();
    if n > 0 {
        let m = (n - 1) as nat;
        pow10_parts(m);
        lemma_pow2_unfold(n);
        assert(10 * (pow5(m) * pow2(m)) == (5 * pow5(m)) * (2 * pow2(m))) by (nonlinear_arith);
    }
}

/// How often ten goes into `a / b`, which is at least 1.
pub open spec fn tens_over(a: nat, b: nat) -> nat
    decreases a - b,
    when b > 0
{
    if a < 10 * b {
        0
    } else {
        1 + tens_over(a, 10 * b)
    }
}

/// How often `a / b`, which is below 1, is to be taken ten times to be at
/// least 1.
pub open spec fn tens_under(a: nat, b: nat) -> nat
    decreases
            (if a < b {
                b - a
            } else {
                0
            }),
    when a > 0
{
    if a >= b {
        0
    } else {
        1 + tens_under(10 * a, b)
    }
}

/// The decimal exponent of `a / b`.
pub open spec fn tens(a: nat, b: nat) -> int {
    if a >= b {
        tens_over(a, b) as int
    } else {
        -tens_under(a, b)
    }
}

/// The six leading decimal digits of `a / b` to the exponent `e`, rounded.
pub open spec fn six_digits(a: nat, b: nat, e: int) -> nat {
    if e <= 5 {
        nearest(a * pow10((5 - e) as nat), b)
    } else {
        nearest(a, b * pow10((e - 5) as nat))
    }
}

/// `a / b` as six digits and an exponent.
pub open spec fn scientific(a: nat, b: nat) -> (nat, int) {
    let e = tens(a, b);
    let d = six_digits(a, b, e);
    if d == 1_000_000 {
        (100_000, e + 1)
    } else {
        (d, e)
    }
}

/// The digits of `v`, from the `n`th place down to the units.
pub open spec fn places(v: nat, n: nat) -> Seq<char>
    decreases n,
{
    if n == 0 {
        Seq::empty()
    } else {
        places(v / 10, (n - 1) as nat).push(digit_char((v % 10) as int))
    }
}

/// Digits without the zeros at the end.
pub open spec fn trimmed(s: Seq<char>) -> Seq<char>
    decreases s.len(),
{
    if s.len() > 0 && s.last() == '0' {
        trimmed(s.drop_last())
    } else {
        s
    }
}

/// A fraction with its point, nothing where it is empty.
pub open spec fn fraction_text(s: Seq<char>) -> Seq<char> {
    if trimmed(s).len() == 0 {
        Seq::empty()
    } else {
        seq!['.'] + trimmed(s)
    }
}

/// Some zeros.
pub open spec fn zero_digits(n: nat) -> Seq<char> {
    Seq::new(n, |i: int| '0')
}

/// Two digits at least.
pub open spec fn exponent_text(e: nat) -> Seq<char> {
    if e < 10 {
        seq!['0', digit_char(e as int)]
    } else {
        decimal(e)
    }
}

/// Six digits `d` and an exponent `e` in the shorter of plain and exponent
/// notation.
pub open spec fn general_text(d: nat, e: int) -> Seq<char> {
    let digits = places(d, 6);
    if e < -4 || e >= 6 {
        seq![digits[0]] + fraction_text(digits.skip(1)) + seq!['e'] + (if e < 0 {
            seq!['-'] + exponent_text((-e) as nat)
        } else {
            seq!['+'] + exponent_text(e as nat)
        })
    } else if e >= 0 {
        digits.take(e + 1) + fraction_text(digits.skip(e + 1))
    } else {
        seq!['0', '.'] + zero_digits((-e - 1) as nat) + trimmed(digits)
    }
}

/// A double to six significant digits.
pub open spec fn g6_text(x: u64) -> Seq<char> {
    let sign = if double_negative(x) {
        seq!['-']
    } else {
        Seq::empty()
    };
    if double_nan(x) {
        seq!['n', 'a', 'n']
    } else if !double_finite(x) {
        sign + seq!['i', 'n', 'f']
    } else if double_sig(x) == 0 {
        seq!['0']
    } else {
        let (d, e) = if double_power(x) >= 0 {
            scientific(double_sig(x) * pow2(double_power(x) as nat), 1)
        } else {
            scientific(double_sig(x), pow2((-double_power(x)) as nat))
        };
        sign + general_text(d, e)
    }
}

/// The number that decimal digits stand for, the units first.
pub open spec fn digits_value(d: Seq<u8>) -> nat
    decreases d.len(),
{
    if d.len() == 0 {
        0
    } else {
        d[0] as nat + 10 * digits_value(d.drop_first())
    }
}

/// Whether all are decimal digits.
pub open spec fn are_digits(d: Seq<u8>) -> bool {
    forall|i: int| 0 <= i < d.len() ==> #[trigger] d[i] <= 9
}

/// Digits split in two.
proof fn digits_split(d: Seq<u8>, k: int)
    requires
        0 <= k <= d.len(),
    ensures
        digits_value(d) == digits_value(d.take(k)) + pow10(k as nat) * digits_value(d.skip(k)),
    decreases k,
{
    if k == 0 {
        assert(d.skip(0) =~= d);
        assert(1 * digits_value(d) == digits_value(d));
    } else {
        let t = d.drop_first();
        digits_split(t, k - 1);
        assert(d.take(k).drop_first() =~= t.take(k - 1));
        assert(t.skip(k - 1) =~= d.skip(k));
        let p = pow10((k - 1) as nat);
        let v = digits_value(d.skip(k));
        assert(10 * (p * v) == (10 * p) * v) by (nonlinear_arith);
    }
}

/// Digits are below the power of ten of their number.
proof fn digits_bound(d: Seq<u8>)
    requires
        are_digits(d),
    ensures
        digits_value(d) < pow10(d.len()),
    decreases d.len(),
{
    if d.len() > 0 {
        let t = d.drop_first();
        assert forall|i: int| 0 <= i < t.len() implies #[trigger] t[i] <= 9 by {
            assert(d[i + 1] <= 9);
        }
        digits_bound(t);
        assert(d[0] <= 9);
    }
}

/// Multiply digits by a small number.
fn times(d: &mut Vec<u8>, m: u8)
    requires
        are_digits(old(d)@),
        m == 2 || m == 5,
        old(d)@.len() > 0,
        old(d)@.last() > 0,
    ensures
        are_digits(final(d)@),
        digits_value(final(d)@) == m * digits_value(old(d)@),
        final(d)@.len() > 0,
        final(d)@.last() > 0,
        final(d)@.len() <= old(d)@.len() + 1,
{
    let ghost before = d@;
    let mut carry: u8 = 0;
    let mut i: usize = 0;
    proof {
        assert(before.skip(0) =~= before);
        assert(d@.take(0) =~= Seq::empty());
        assert(m * digits_value(before) + 0 == 0 + 1 * (m * digits_value(before) + 0));
    }
    while i < d.len()
        invariant
            m == 2 || m == 5,
            i <= d@.len(),
            d@.len() == before.len(),
            before.len() > 0,
            are_digits(before),
            before.last() > 0,
            are_digits(d@),
            carry < m,
            d@.skip(i as int) == before.skip(i as int),
            m * digits_value(before) == digits_value(d@.take(i as int)) + pow10(i as nat) * (m
                * digits_value(before.skip(i as int)) + carry),
            i == d@.len() ==> carry > 0 || d@.last() > 0,
        decreases d@.len() - i,
    {
        let ghost old_d = d@;
        let ghost c0 = carry;
        assert(d@.skip(i as int)[0] == d@[i as int]);
        assert(before.skip(i as int)[0] == before[i as int]);
        let x: u8 = d[i];
        assert(x <= 9);
        let y: u8 = x * m + carry;
        d[i] = y % 10;
        carry = y / 10;
        proof {
            let rest = before.skip(i as int);
            assert(rest.drop_first() =~= before.skip(i + 1));
            assert(d@.skip(i + 1) =~= old_d.skip(i as int).drop_first());
            let lo = d@.take(i as int);
            let hi = d@.take(i + 1);
            assert(lo =~= old_d.take(i as int));
            digits_split(hi, i as int);
            assert(hi.take(i as int) =~= lo);
            assert(hi.skip(i as int) =~= seq![y % 10]);
            assert(digits_value(hi.skip(i as int)) == (y % 10) as nat) by {
                assert(seq![y % 10].drop_first() =~= Seq::<u8>::empty());
                reveal_with_fuel(digits_value, 2);
            }
            let p = pow10(i as nat);
            let r = digits_value(before.skip(i + 1));
            assert(digits_value(rest) == x as nat + 10 * r);
            assert(p * (m * (x + 10 * r) + c0) == p * (y % 10) + (10 * p) * (m * r + y / 10))
                by (nonlinear_arith)
                requires
                    x * m + c0 == 10 * (y / 10) + y % 10,
            ;
            if i + 1 == d@.len() {
                assert(x == before.last());
            }
        }
        i += 1;
    }
    proof {
        assert(d@.take(i as int) =~= d@);
        assert(before.skip(i as int) =~= Seq::empty());
        let p = pow10(i as nat);
        assert(p * (m * 0 + carry) == p * carry) by (nonlinear_arith);
    }
    if carry > 0 {
        let ghost low = d@;
        d.push(carry);
        proof {
            digits_split(d@, low.len() as int);
            assert(d@.take(low.len() as int) =~= low);
            assert(d@.skip(low.len() as int) =~= seq![carry]);
            assert(digits_value(seq![carry]) == carry as nat) by {
                assert(seq![carry].drop_first() =~= Seq::<u8>::empty());
                reveal_with_fuel(digits_value, 2);
            }
        }
    } else {
        assert(pow10(i as nat) * carry == 0) by (nonlinear_arith)
            requires
                carry == 0,
        ;
    }
}

/// The digits of a positive number, the units first.
fn digits_of(n: u64) -> (d: Vec<u8>)
    requires
        n > 0,
    ensures
        are_digits(d@),
        digits_value(d@) == n,
        d@.len() > 0,
        d@.last() > 0,
        d@.len() <= 20,
{
    let mut d: Vec<u8> = Vec::new();
    let mut rest: u64 = n;
    proof {
        assert(d@ =~= Seq::empty());
        pow10_20();
        assert(pow10(0) == 1);
        assert(1 * rest == rest);
    }
    while rest > 0
        invariant
            are_digits(d@),
            n > 0,
            n == digits_value(d@) + pow10(d@.len()) * (rest as nat),
            rest == 0 ==> d@.len() > 0 && d@.last() > 0,
            n <= u64::MAX,
            pow10(20) > u64::MAX,
            d@.len() <= 20,
        decreases rest,
    {
        let ghost low = d@;
        let x: u8 = (rest % 10) as u8;
        d.push(x);
        proof {
            digits_split(d@, low.len() as int);
            assert(d@.take(low.len() as int) =~= low);
            assert(d@.skip(low.len() as int) =~= seq![x]);
            assert(digits_value(seq![x]) == x as nat) by {
                assert(seq![x].drop_first() =~= Seq::<u8>::empty());
                reveal_with_fuel(digits_value, 2);
            }
            let p = pow10(low.len());
            assert(p * rest == p * x + (10 * p) * (rest / 10)) by (nonlinear_arith)
                requires
                    rest == 10 * (rest / 10) + x,
            ;
            if low.len() >= 20 {
                assert(p * rest >= p) by (nonlinear_arith)
                    requires
                        rest >= 1,
                        p >= 0,
                ;
            }
        }
        rest = rest / 10;
    }
    assert(pow10(d@.len()) * 0 == 0) by (nonlinear_arith);
    d
}

proof fn pow10_20()
    ensures
        pow10(20) == 100_000_000_000_000_000_000,
{
    reveal_with_fuel(pow10, 21);
}

proof fn tens_over_is(a: nat, b: nat, e: nat)
    requires
        b > 0,
        pow10(e) * b <= a,
        a < pow10(e + 1) * b,
    ensures
        tens_over(a, b) == e,
    decreases e,
{
    if e > 0 {
        let f = (e - 1) as nat;
        pow10_pos(f);
        assert(pow10(e) * b == pow10(f) * (10 * b)) by (nonlinear_arith)
            requires
                pow10(e) == 10 * pow10(f),
        ;
        assert(pow10(e + 1) * b == pow10(f + 1) * (10 * b)) by (nonlinear_arith)
            requires
                pow10(e + 1) == 10 * pow10(e),
                pow10(f + 1) == pow10(e),
        ;
        assert(10 * b <= pow10(f) * (10 * b)) by (nonlinear_arith)
            requires
                pow10(f) >= 1,
        ;
        tens_over_is(a, 10 * b, f);
    } else {
        reveal_with_fuel(pow10, 2);
    }
}

proof fn tens_under_is(a: nat, b: nat, e: nat)
    requires
        a > 0,
        e > 0,
        pow10(e) * a >= b,
        pow10((e - 1) as nat) * a < b,
    ensures
        tens_under(a, b) == e,
    decreases e,
{
    let f = (e - 1) as nat;
    pow10_pos(f);
    assert(a <= pow10(f) * a) by (nonlinear_arith)
        requires
            pow10(f) >= 1,
    ;
    assert(pow10(e) * a == pow10(f) * (10 * a)) by (nonlinear_arith)
        requires
            pow10(e) == 10 * pow10(f),
    ;
    if f > 0 {
        let g = (f - 1) as nat;
        assert(pow10(f) * a == pow10(g) * (10 * a)) by (nonlinear_arith)
            requires
                pow10(f) == 10 * pow10(g),
        ;
        tens_under_is(10 * a, b, f);
    } else {
        assert(pow10(0) == 1);
        assert(1 * (10 * a) >= b);
        assert(tens_under(10 * a, b) == 0);
    }
}

/// The exponent of a number of `l` digits over `10^n`, both divided by `c`.
proof fn tens_from_digits(a: nat, b: nat, c: nat, v: nat, l: nat, n: nat)
    requires
        c > 0,
        b > 0,
        v == a * c,
        pow10(n) == b * c,
        l > 0,
        pow10((l - 1) as nat) <= v < pow10(l),
    ensures
        tens(a, b) == l - 1 - n,
{
    let l1 = (l - 1) as nat;
    if l1 >= n {
        let e = (l1 - n) as nat;
        pow10_adds(e, n);
        pow10_adds(e + 1, n);
        let p = pow10(e);
        let q = pow10(e + 1);
        assert(p * b <= a && a < q * b) by (nonlinear_arith)
            requires
                c > 0,
                p * pow10(n) <= a * c,
                a * c < q * pow10(n),
                pow10(n) == b * c,
        ;
        tens_over_is(a, b, e);
        pow10_pos(e);
        assert(b <= p * b) by (nonlinear_arith)
            requires
                p >= 1,
        ;
    } else {
        let e = (n - l1) as nat;
        let f = (e - 1) as nat;
        pow10_adds(e, l1);
        pow10_adds(f, l);
        let p = pow10(e);
        let q = pow10(f);
        pow10_pos(e);
        pow10_pos(f);
        pow10_pos(l1);
        assert(p * a >= b && q * a < b) by (nonlinear_arith)
            requires
                c > 0,
                p > 0,
                q > 0,
                pow10(n) == p * pow10(l1),
                pow10(n) == q * pow10(l),
                pow10(l1) <= a * c,
                a * c < pow10(l),
                pow10(n) == b * c,
        ;
        assert(a > 0) by (nonlinear_arith)
            requires
                pow10(l1) <= a * c,
                pow10(l1) > 0,
        ;
        assert(a <= q * a) by (nonlinear_arith)
            requires
                q >= 1,
        ;
        tens_under_is(a, b, e);
    }
}

/// The six digits of a number of `l` digits over `10^n`, both divided by `c`.
proof fn six_from_digits(a: nat, b: nat, c: nat, v: nat, l: nat, n: nat)
    requires
        c > 0,
        b > 0,
        v == a * c,
        pow10(n) == b * c,
        l > 0,
    ensures
        six_digits(a, b, l - 1 - n) == (if l <= 6 {
            v * pow10((6 - l) as nat)
        } else {
            nearest(v, pow10((l - 6) as nat))
        }),
{
    let e = l - 1 - n;
    pow10_pos(n);
    if e <= 5 {
        let k = (5 - e) as nat;
        let p = pow10(k);
        pow10_pos(k);
        nearest_scaled(a * p, b, c);
        assert(a * p * c == v * p) by (nonlinear_arith)
            requires
                v == a * c,
        ;
        if l <= 6 {
            let m = (6 - l) as nat;
            pow10_adds(m, n);
            assert(k == m + n);
            let w = v * pow10(m);
            assert(v * p == w * pow10(n)) by (nonlinear_arith)
                requires
                    p == pow10(m) * pow10(n),
                    w == v * pow10(m),
            ;
            vstd::arithmetic::div_mod::lemma_fundamental_div_mod_converse(
                (w * pow10(n)) as int,
                pow10(n) as int,
                w as int,
                0,
            );
        } else {
            let m = (l - 6) as nat;
            pow10_adds(k, m);
            assert(n == k + m);
            pow10_pos(m);
            nearest_scaled(v, pow10(m), p);
            assert(pow10(m) * p == p * pow10(m)) by (nonlinear_arith);
        }
    } else {
        let k = (e - 5) as nat;
        let m = (l - 6) as nat;
        pow10_adds(n, k);
        assert(m == n + k);
        pow10_pos(k);
        assert(b * pow10(k) * c == pow10(m) && b * pow10(k) > 0) by (nonlinear_arith)
            requires
                pow10(m) == pow10(n) * pow10(k),
                pow10(n) == b * c,
                b > 0,
                pow10(k) > 0,
        ;
        nearest_scaled(a, b * pow10(k), c);
    }
}

/// The leading six digits, rounded by the rest.
fn leading_six(d: &Vec<u8>) -> (r: u64)
    requires
        are_digits(d@),
        d@.len() > 0,
    ensures
        r == (if d@.len() <= 6 {
            digits_value(d@) * pow10((6 - d@.len()) as nat)
        } else {
            nearest(digits_value(d@), pow10((d@.len() - 6) as nat))
        }),
        r <= 1_000_000,
{
    let l: usize = d.len();
    let from: usize = if l <= 6 {
        0
    } else {
        l - 6
    };
    let mut hi: u64 = 0;
    let mut i: usize = l;
    proof {
        assert(d@.skip(l as int) =~= Seq::empty());
        reveal_with_fuel(pow10, 7);
    }
    while i > from
        invariant
            from <= i <= l,
            l == d@.len(),
            l - from <= 6,
            are_digits(d@),
            hi == digits_value(d@.skip(i as int)),
            hi < pow10((l - i) as nat),
            pow10(6) == 1_000_000,
        decreases i,
    {
        i -= 1;
        proof {
            assert(d@.skip(i as int).drop_first() =~= d@.skip(i + 1));
            assert(d@[i as int] <= 9);
            pow10_grows((l - i - 1) as nat, 6);
        }
        hi = hi * 10 + d[i] as u64;
    }
    if l <= 6 {
        proof {
            assert(d@.skip(0) =~= d@);
        }
        let mut k: usize = l;
        proof {
            assert(hi * 1 == hi);
        }
        while k < 6
            invariant
                l <= k <= 6,
                l == d@.len(),
                hi == digits_value(d@) * pow10((k - l) as nat),
                hi < pow10(k as nat),
                pow10(6) == 1_000_000,
            decreases 6 - k,
        {
            proof {
                pow10_grows(k as nat, 6);
                let p = pow10((k - l) as nat);
                assert(digits_value(d@) * (10 * p) == 10 * (digits_value(d@) * p))
                    by (nonlinear_arith);
            }
            hi = hi * 10;
            k += 1;
        }
        return hi;
    }
    let next: u8 = d[from - 1];
    let mut tail: bool = false;
    let mut j: usize = 0;
    assert(d@.take(0) =~= Seq::empty());
    while j < from - 1
        invariant
            j <= from - 1,
            0 < from <= d@.len(),
            are_digits(d@),
            tail == (digits_value(d@.take(j as int)) > 0),
        decreases from - j,
    {
        if d[j] != 0 {
            tail = true;
        }
        proof {
            let t = d@.take(j + 1);
            digits_split(t, j as int);
            assert(t.take(j as int) =~= d@.take(j as int));
            assert(t.skip(j as int) =~= seq![d@[j as int]]);
            assert(digits_value(seq![d@[j as int]]) == d@[j as int] as nat) by {
                assert(seq![d@[j as int]].drop_first() =~= Seq::<u8>::empty());
                reveal_with_fuel(digits_value, 2);
            }
            pow10_pos(j as nat);
            let p = pow10(j as nat);
            let x = d@[j as int] as nat;
            assert((p * x > 0) == (x > 0)) by (nonlinear_arith)
                requires
                    p > 0,
                    x >= 0,
            ;
        }
        j += 1;
    }
    proof {
        let v = digits_value(d@);
        let k = from as nat;
        let k1 = (from - 1) as nat;
        let p = pow10(k1);
        pow10_pos(k1);
        digits_split(d@, from as int);
        let low = d@.take(from as int);
        let lo = digits_value(low);
        assert forall|x: int| 0 <= x < low.len() implies #[trigger] low[x] <= 9 by {
            assert(d@[x] <= 9);
        }
        digits_bound(low);
        assert(pow10(k) * (hi as nat) == hi * pow10(k)) by (nonlinear_arith);
        vstd::arithmetic::div_mod::lemma_fundamental_div_mod_converse(
            v as int,
            pow10(k) as int,
            hi as int,
            lo as int,
        );
        digits_split(low, from - 1);
        let bottom = low.take(from - 1);
        assert(bottom =~= d@.take(from - 1));
        assert forall|x: int| 0 <= x < bottom.len() implies #[trigger] bottom[x] <= 9 by {
            assert(d@[x] <= 9);
        }
        digits_bound(bottom);
        assert(low.skip(from - 1) =~= seq![next]);
        assert(digits_value(seq![next]) == next as nat) by {
            assert(seq![next].drop_first() =~= Seq::<u8>::empty());
            reveal_with_fuel(digits_value, 2);
        }
        let bo = digits_value(bottom);
        assert(lo == bo + p * (next as nat));
        if next > 5 {
            assert(p * (next as nat) >= p * 6) by (nonlinear_arith)
                requires
                    next >= 6,
                    p >= 0,
            ;
        } else if next < 5 {
            assert(p * (next as nat) <= p * 4) by (nonlinear_arith)
                requires
                    next <= 4,
                    p >= 0,
            ;
        }
        assert(pow10(k) == 10 * p);
        assert(tail == (bo > 0));
        assert(next > 5 ==> 2 * lo > pow10(k));
        assert(next < 5 ==> 2 * lo < pow10(k));
        assert(next == 5 ==> 2 * lo == pow10(k) + 2 * bo) by {
            if next == 5 {
                assert(p * 5 == 5 * p);
            }
        }
        assert(v / pow10(k) == hi && v % pow10(k) == lo);
    }
    if next > 5 || (next == 5 && (tail || hi % 2 != 0)) {
        hi + 1
    } else {
        hi
    }
}

/// A larger exponent gives a larger power.
pub proof fn pow10_grows(m: nat, n: nat)
    requires
        m <= n,
    ensures
        pow10(m) <= pow10(n),
    decreases n - m,
{
    if m < n {
        pow10_grows(m + 1, n);
        pow10_pos(m);
    }
}

/// A number with a leading digit is at least its place.
proof fn leading_digit(d: Seq<u8>)
    requires
        are_digits(d),
        d.len() > 0,
        d.last() > 0,
    ensures
        pow10((d.len() - 1) as nat) <= digits_value(d) < pow10(d.len()),
{
    digits_bound(d);
    let k = d.len() - 1;
    digits_split(d, k);
    assert(d.skip(k) =~= seq![d.last()]);
    assert(digits_value(seq![d.last()]) == d.last() as nat) by {
        assert(seq![d.last()].drop_first() =~= Seq::<u8>::empty());
        reveal_with_fuel(digits_value, 2);
    }
    let p = pow10(k as nat);
    assert(p * (d.last() as nat) >= p) by (nonlinear_arith)
        requires
            d.last() >= 1,
            p >= 0,
    ;
}

/// A positive finite double as a ratio.
pub open spec fn double_ratio(x: u64) -> (nat, nat) {
    if double_power(x) >= 0 {
        (double_sig(x) * pow2(double_power(x) as nat), 1)
    } else {
        (double_sig(x), pow2((-double_power(x)) as nat))
    }
}

/// A positive finite double as six digits and an exponent.
fn to_scientific(x: u64) -> (r: (u64, i32))
    requires
        double_sig(x) > 0,
    ensures
        (r.0 as nat, r.1 as int) == scientific(double_ratio(x).0, double_ratio(x).1),
        r.0 < 1_000_000,
        -2000 < r.1 < 2000,
{
    let (sig, power) = double_parts(x);
    let mut d = digits_of(sig);
    let ghost a = double_ratio(x).0;
    let ghost b = double_ratio(x).1;
    let n: usize = if power >= 0 {
        let times_two: usize = power as usize;
        let mut i: usize = 0;
        proof {
            lemma2_to64();
            assert(sig * 1 == sig);
        }
        while i < times_two
            invariant
                i <= times_two,
                are_digits(d@),
                d@.len() > 0,
                d@.last() > 0,
                d@.len() <= 20 + i,
                digits_value(d@) == sig * pow2(i as nat),
            decreases times_two - i,
        {
            times(&mut d, 2);
            proof {
                lemma_pow2_unfold((i + 1) as nat);
                let p = pow2(i as nat);
                assert(2 * (sig * p) == sig * (2 * p)) by (nonlinear_arith);
            }
            i += 1;
        }
        proof {
            assert(a * 1 == a);
            assert(pow10(0) == 1);
            leading_digit(d@);
            tens_from_digits(a, b, 1, digits_value(d@), d@.len(), 0);
            six_from_digits(a, b, 1, digits_value(d@), d@.len(), 0);
        }
        0
    } else {
        let n: usize = (-power) as usize;
        let mut i: usize = 0;
        assert(sig * 1 == sig);
        while i < n
            invariant
                i <= n,
                are_digits(d@),
                d@.len() > 0,
                d@.last() > 0,
                d@.len() <= 20 + i,
                digits_value(d@) == sig * pow5(i as nat),
            decreases n - i,
        {
            times(&mut d, 5);
            proof {
                let p = pow5(i as nat);
                assert(5 * (sig * p) == sig * (5 * p)) by (nonlinear_arith);
            }
            i += 1;
        }
        proof {
            pow10_parts(n as nat);
            lemma_pow2_pos(n as nat);
            assert(pow5(n as nat) * pow2(n as nat) == pow2(n as nat) * pow5(n as nat))
                by (nonlinear_arith);
            leading_digit(d@);
            tens_from_digits(a, b, pow5(n as nat), digits_value(d@), d@.len(), n as nat);
            six_from_digits(a, b, pow5(n as nat), digits_value(d@), d@.len(), n as nat);
        }
        n
    };
    let six: u64 = leading_six(&d);
    let e: i32 = d.len() as i32 - 1 - n as i32;
    if six == 1_000_000 {
        (100_000, e + 1)
    } else {
        (six, e)
    }
}

/// The digits of `v`, from the `n`th place down to the units.
fn place_chars(v: u64, n: usize) -> (r: Vec<char>)
    ensures
        r@ == places(v as nat, n as nat),
        r@.len() == n,
    decreases n,
{
    if n == 0 {
        Vec::new()
    } else {
        let mut r = place_chars(v / 10, n - 1);
        r.push(digit_to_char((v % 10) as u8));
        r
    }
}

/// The character of a decimal digit.
pub fn digit_to_char(d: u8) -> (c: char)
    requires
        d <= 9,
    ensures
        c == digit_char(d as int),
{
    ('0' as u8 + d) as char
}

/// Take the zeros at the end away.
fn trim(v: &mut Vec<char>)
    ensures
        final(v)@ == trimmed(old(v)@),
{
    while v.len() > 0 && v[v.len() - 1] == '0'
        invariant
            trimmed(v@) == trimmed(old(v)@),
        decreases v@.len(),
    {
        v.pop();
    }
}

/// Append characters.
fn extend(out: &mut Vec<char>, more: &Vec<char>)
    ensures
        final(out)@ == old(out)@ + more@,
{
    let mut i: usize = 0;
    assert(out@ =~= out@ + more@.take(0));
    while i < more.len()
        invariant
            i <= more@.len(),
            out@ == old(out)@ + more@.take(i as int),
        decreases more@.len() - i,
    {
        out.push(more[i]);
        assert(more@.take(i + 1) =~= more@.take(i as int).push(more@[i as int]));
        i += 1;
    }
    assert(more@.take(i as int) =~= more@);
}

/// The characters from `from` to `to`.
fn part(v: &Vec<char>, from: usize, to: usize) -> (r: Vec<char>)
    requires
        from <= to <= v@.len(),
    ensures
        r@ == v@.subrange(from as int, to as int),
{
    let mut r: Vec<char> = Vec::new();
    let mut i: usize = from;
    while i < to
        invariant
            from <= i <= to <= v@.len(),
            r@ == v@.subrange(from as int, i as int),
        decreases to - i,
    {
        r.push(v[i]);
        assert(v@.subrange(from as int, i + 1) =~= v@.subrange(from as int, i as int).push(
            v@[i as int],
        ));
        i += 1;
    }
    r
}

/// Append a fraction with its point, nothing where it is empty.
fn put_fraction(out: &mut Vec<char>, digits: &Vec<char>, from: usize)
    requires
        from <= digits@.len(),
    ensures
        final(out)@ == old(out)@ + fraction_text(digits@.skip(from as int)),
{
    let mut frac = part(digits, from, digits.len());
    assert(frac@ =~= digits@.skip(from as int));
    trim(&mut frac);
    if frac.len() > 0 {
        let ghost before = out@;
        out.push('.');
        extend(out, &frac);
        assert(out@ =~= before + (seq!['.'] + frac@));
    } else {
        assert(out@ =~= out@ + Seq::empty());
    }
}

/// Append two digits at least.
fn put_exponent(out: &mut Vec<char>, e: u32)
    ensures
        final(out)@ == old(out)@ + exponent_text(e as nat),
{
    let ghost before = out@;
    if e < 10 {
        out.push('0');
        out.push(digit_to_char(e as u8));
        assert(out@ =~= before + seq!['0', digit_char(e as int)]);
    } else {
        let t = decimal_text(e as u64);
        let c = chars_of(t.as_str());
        extend(out, &c);
    }
}

/// Append six digits and an exponent in the shorter notation.
fn put_general(out: &mut Vec<char>, d: u64, e: i32)
    requires
        -2000 < e < 2000,
    ensures
        final(out)@ == old(out)@ + general_text(d as nat, e as int),
{
    let digits = place_chars(d, 6);
    let ghost before = out@;
    let ghost all = digits@;
    if e < -4 || e >= 6 {
        out.push(digits[0]);
        put_fraction(out, &digits, 1);
        let ghost mid = out@;
        out.push('e');
        if e < 0 {
            out.push('-');
            put_exponent(out, (-e) as u32);
            assert(out@ =~= mid + seq!['e'] + (seq!['-'] + exponent_text((-e) as nat)));
        } else {
            out.push('+');
            put_exponent(out, e as u32);
            assert(out@ =~= mid + seq!['e'] + (seq!['+'] + exponent_text(e as nat)));
        }
        assert(mid =~= before + (seq![all[0]] + fraction_text(all.skip(1))));
        assert(out@ =~= before + general_text(d as nat, e as int));
    } else if e >= 0 {
        let whole = part(&digits, 0, e as usize + 1);
        assert(whole@ =~= all.take(e + 1));
        extend(out, &whole);
        put_fraction(out, &digits, e as usize + 1);
        assert(out@ =~= before + general_text(d as nat, e as int));
    } else {
        out.push('0');
        out.push('.');
        let n: usize = (-e - 1) as usize;
        let mut i: usize = 0;
        assert(out@ =~= before + seq!['0', '.'] + zero_digits(0));
        while i < n
            invariant
                i <= n,
                out@ == before + seq!['0', '.'] + zero_digits(i as nat),
            decreases n - i,
        {
            out.push('0');
            i += 1;
            assert(out@ =~= before + seq!['0', '.'] + zero_digits(i as nat));
        }
        let mut frac = part(&digits, 0, 6);
        assert(frac@ =~= all);
        trim(&mut frac);
        extend(out, &frac);
        assert(out@ =~= before + general_text(d as nat, e as int));
    }
}

/// A double to six significant digits, in the shorter of plain and exponent
/// notation.
pub fn g6(x: u64) -> (r: String)
    ensures
        r@ == g6_text(x),
{
    let field: u64 = x / 0x10_0000_0000_0000 % 0x800;
    let fraction: u64 = x % 0x10_0000_0000_0000;
    let mut out: Vec<char> = Vec::new();
    if field == 0x7ff && fraction != 0 {
        out.push('n');
        out.push('a');
        out.push('n');
        assert(out@ =~= seq!['n', 'a', 'n']);
        return string_of(&out);
    }
    let (sig, power) = double_parts(x);
    if field != 0x7ff && sig == 0 {
        out.push('0');
        assert(out@ =~= seq!['0']);
        return string_of(&out);
    }
    if x >= 0x8000_0000_0000_0000 {
        out.push('-');
        assert(out@ =~= seq!['-']);
    } else {
        assert(out@ =~= Seq::empty());
    }
    let ghost sign = out@;
    if field == 0x7ff {
        out.push('i');
        out.push('n');
        out.push('f');
        assert(out@ =~= sign + seq!['i', 'n', 'f']);
        return string_of(&out);
    }
    let (d, e) = to_scientific(x);
    put_general(&mut out, d, e);
    string_of(&out)
}

/// The integer nearest to a double's magnitude times a power of ten.
pub open spec fn double_fixed(x: u64, n: nat) -> nat {
    if double_power(x) >= 0 {
        double_sig(x) * pow2(double_power(x) as nat) * pow10(n)
    } else {
        nearest(double_sig(x) * pow10(n), pow2((-double_power(x)) as nat))
    }
}

/// The integer nearest to a double's magnitude times a power of ten.
pub fn fixed_of_double(x: u64, n: u32) -> (r: u64)
    requires
        n <= 2,
        double_power(x) <= 4,
    ensures
        r == double_fixed(x, n as nat),
{
    let (sig, power) = double_parts(x);
    let ten: u128 = if n == 0 {
        1
    } else if n == 1 {
        10
    } else {
        100
    };
    proof {
        reveal_with_fuel(pow10, 3);
        lemma2_to64();
        lemma2_to64_rest();
    }
    assert(0 <= sig * ten <= 0x20_0000_0000_0000 * 100) by (nonlinear_arith)
        requires
            0 <= sig < 0x20_0000_0000_0000,
            0 <= ten <= 100,
    ;
    if power >= 0 {
        let w: u128 = two_to(power as u32);
        proof {
            if power < 4 {
                lemma_pow2_strictly_increases(power as nat, 4);
            }
            assert(0 <= sig * w <= 0x20_0000_0000_0000 * 0x10) by (nonlinear_arith)
                requires
                    0 <= sig < 0x20_0000_0000_0000,
                    0 <= w <= 0x10,
            ;
            assert(0 <= sig * w * ten <= 0x20_0000_0000_0000 * 0x10 * 100) by (nonlinear_arith)
                requires
                    0 <= sig * w <= 0x20_0000_0000_0000 * 0x10,
                    0 <= ten <= 100,
            ;
        }
        (sig as u128 * w * ten) as u64
    } else {
        let n: u32 = (-power) as u32;
        proof {
            lemma_pow2_pos(n as nat);
        }
        if n >= 127 {
            proof {
                crate::ieee::pow2_127();
                if n > 127 {
                    lemma_pow2_strictly_increases(127, n as nat);
                }
                vstd::arithmetic::div_mod::lemma_small_mod((sig * ten) as nat, pow2(n as nat));
                vstd::arithmetic::div_mod::lemma_basic_div(sig * ten, pow2(n as nat) as int);
            }
            return 0;
        }
        nearest_u128(sig as u128 * ten, two_to(n)) as u64
    }
}

/// A number of `10^-n`ths with a point and `n` digits behind it.
pub open spec fn fixed_text(v: nat, n: nat) -> Seq<char> {
    if n == 0 {
        decimal(v)
    } else {
        decimal(v / pow10(n)) + seq!['.'] + places(v % pow10(n), n)
    }
}

/// A number of `10^-n`ths with a point and `n` digits behind it.
pub fn fixed_string(v: u64, n: u32) -> (r: String)
    requires
        n <= 2,
    ensures
        r@ == fixed_text(v as nat, n as nat),
{
    if n == 0 {
        return decimal_text(v);
    }
    proof {
        reveal_with_fuel(pow10, 3);
    }
    let ten: u64 = if n == 1 {
        10
    } else {
        100
    };
    let whole = decimal_text(v / ten);
    let mut out = chars_of(whole.as_str());
    out.push('.');
    let frac = place_chars(v % ten, n as usize);
    extend(&mut out, &frac);
    assert(out@ =~= decimal(v as nat / pow10(n as nat)) + seq!['.'] + places(
        v as nat % pow10(n as nat),
        n as nat,
    ));
    string_of(&out)
}

/// How many digits a number has; none where it is zero.
pub open spec fn digit_count(v: nat) -> nat {
    if v == 0 {
        0
    } else {
        decimal(v).len()
    }
}

} // verus!
