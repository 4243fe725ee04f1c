//! Decimal text as doubles.

use crate::ieee::convert::{
    double_field, double_floor, double_near, double_power, double_sig, double_times, floor_double,
    multiply_double, DOUBLE_INFINITY,
};
use crate::ieee::decimal::{pow10, pow10_pos};
use crate::ieee::{down, round_quotient, rounded_at, rounded_at_least, rounded_moved, up};
use crate::text::{
    all_digits, decimal_value, decimal_value_grows, digit_value, find, find_from, is_digit,
    only_digits,
};
use vstd::arithmetic::power2::{
    lemma2_to64, lemma2_to64_rest, lemma_pow2_adds, lemma_pow2_pos, lemma_pow2_strictly_increases,
    lemma_pow2_unfold, pow2,
};
use vstd::prelude::*;

verus! {

/// The double nearest to a decimal number with these digits before and after
/// the point.
pub open spec fn double_read(whole: Seq<char>, fraction: Seq<char>) -> u64 {
    double_near(decimal_value(whole + fraction), pow10(fraction.len()), 0)
}

/// Digits of a decimal fraction double to whole `carry` and digits.
fn double_digits(f: &mut Vec<u8>) -> (carry: u8)
    requires
        small_digits(old(f)@),
    ensures
        small_digits(final(f)@),
        final(f)@.len() == old(f)@.len(),
        carry <= 1,
        carry * pow10(final(f)@.len()) + fraction_value(final(f)@) == 2 * fraction_value(old(f)@),
{
    let ghost before = f@;
    let mut carry: u8 = 0;
    let mut i: usize = f.len();
    proof {
        assert(f@.skip(i as int) =~= Seq::empty());
        assert(before.skip(i as int) =~= Seq::empty());
        assert(0 * pow10(0) == 0) by (nonlinear_arith);
    }
    while i > 0
        invariant
            i <= f@.len(),
            f@.len() == before.len(),
            small_digits(f@),
            small_digits(before),
            carry <= 1,
            forall|k: int| 0 <= k < i ==> #[trigger] f@[k] == before[k],
            carry * pow10((f@.len() - i) as nat) + fraction_value(f@.skip(i as int)) == 2
                * fraction_value(before.skip(i as int)),
        decreases i,
    {
        i -= 1;
        let ghost mid = f@;
        let ghost c0 = carry;
        let x: u8 = f[i];
        assert(before[i as int] == x && x <= 9);
        let y: u8 = 2 * x + carry;
        f[i] = y % 10;
        carry = y / 10;
        proof {
            assert(f@.skip(i as int).drop_first() =~= mid.skip(i + 1));
            assert(before.skip(i as int).drop_first() =~= before.skip(i + 1));
            let p = pow10((f@.len() - i - 1) as nat);
            let a = fraction_value(mid.skip(i + 1));
            let b = fraction_value(before.skip(i + 1));
            assert((y / 10) * (10 * p) + ((y % 10) * p + a) == 2 * (x * p + b)) by (nonlinear_arith)
                requires
                    c0 * p + a == 2 * b,
                    2 * x + c0 == 10 * (y / 10) + y % 10,
            ;
        }
    }
    assert(f@.skip(0) =~= f@);
    assert(before.skip(0) =~= before);
    carry
}

/// Whether all are decimal digits.
pub open spec fn small_digits(d: Seq<u8>) -> bool {
    forall|i: int| 0 <= i < d.len() ==> #[trigger] d[i] <= 9
}

/// The number that decimal digits stand for, the units last.
pub open spec fn fraction_value(d: Seq<u8>) -> nat
    decreases d.len(),
{
    if d.len() == 0 {
        0
    } else {
        d[0] as nat * pow10((d.len() - 1) as nat) + fraction_value(d.drop_first())
    }
}

/// Digits are below the power of ten of their number.
proof fn fraction_bound(d: Seq<u8>)
    requires
        small_digits(d),
    ensures
        fraction_value(d) < pow10(d.len()),
    decreases d.len(),
{
    if d.len() > 0 {
        let t = d.drop_first();
        assert forall|i: int| 0 <= i < t.len() implies #[trigger] t[i] <= 9 by {
            assert(d[i + 1] <= 9);
        }
        fraction_bound(t);
        let p = pow10((d.len() - 1) as nat);
        assert(d[0] as nat * p <= 9 * p) by (nonlinear_arith)
            requires
                d[0] <= 9,
        ;
    }
}

/// Digits as characters and as numbers.
pub open spec fn same_digits(s: Seq<char>, d: Seq<u8>) -> bool {
    &&& s.len() == d.len()
    &&& forall|i: int| 0 <= i < s.len() ==> digit_value(#[trigger] s[i]) == d[i] as nat
}

/// A number in decimal, split at the point.
proof fn value_split(whole: Seq<char>, s: Seq<char>, d: Seq<u8>)
    requires
        same_digits(s, d),
    ensures
        decimal_value(whole + s) == decimal_value(whole) * pow10(s.len()) + fraction_value(d),
    decreases s.len(),
{
    if s.len() == 0 {
        assert(whole + s =~= whole);
        assert(decimal_value(whole) * 1 == decimal_value(whole));
    } else {
        let c = s[0];
        let w = whole.push(c);
        let s1 = s.drop_first();
        let d1 = d.drop_first();
        assert(same_digits(s1, d1)) by {
            assert forall|i: int| 0 <= i < s1.len() implies digit_value(#[trigger] s1[i])
                == d1[i] as nat by {
                assert(s[i + 1] == s1[i]);
            }
        }
        value_split(w, s1, d1);
        assert(whole + s =~= w + s1);
        assert(w.drop_last() =~= whole);
        let p = pow10(s1.len());
        let v = decimal_value(whole);
        let x = digit_value(c);
        assert((v * 10 + x) * p == v * (10 * p) + x * p) by (nonlinear_arith);
    }
}

/// Whether any digit is not zero.
fn any_digit(d: &Vec<u8>) -> (r: bool)
    requires
        small_digits(d@),
    ensures
        r == (fraction_value(d@) > 0),
{
    let mut i: usize = d.len();
    assert(d@.skip(i as int) =~= Seq::empty());
    while i > 0
        invariant
            i <= d@.len(),
            fraction_value(d@.skip(i as int)) == 0,
        decreases i,
    {
        i -= 1;
        proof {
            assert(d@.skip(i as int).drop_first() =~= d@.skip(i + 1));
            let p = pow10((d@.len() - i - 1) as nat);
            pow10_pos((d@.len() - i - 1) as nat);
            let x = d@[i as int] as nat;
            assert((x * p > 0) == (x > 0)) by (nonlinear_arith)
                requires
                    p > 0,
                    x >= 0,
            ;
            if x > 0 {
                value_of_part(d@, i as int);
            }
        }
        if d[i] != 0 {
            return true;
        }
    }
    assert(d@.skip(0) =~= d@);
    false
}

/// A part at the end stands for no more than the whole.
proof fn value_of_part(d: Seq<u8>, i: int)
    requires
        0 <= i <= d.len(),
    ensures
        fraction_value(d.skip(i)) <= fraction_value(d),
    decreases i,
{
    if i == 0 {
        assert(d.skip(0) =~= d);
    } else {
        value_of_part(d, i - 1);
        assert(d.skip(i - 1).drop_first() =~= d.skip(i));
        assert(d[i - 1] as nat * pow10((d.len() - i) as nat) >= 0) by (nonlinear_arith);
    }
}

/// A number too small for any double but zero.
proof fn rounds_to_zero(a: nat, b: nat, q: nat)
    requires
        b > 0,
        a * pow2(1200) < (q + 1) * b,
        q < pow2(62),
    ensures
        rounded_at(a, b, 1074, 53) == 0,
{
    lemma_pow2_adds(1074, 126);
    lemma_pow2_adds(62, 64);
    lemma_pow2_pos(62);
    lemma_pow2_pos(53);
    lemma2_to64();
    lemma2_to64_rest();
    let x = a * pow2(1074);
    let h = pow2(62);
    assert(2 * x < b) by (nonlinear_arith)
        requires
            x == a * pow2(1074),
            pow2(1200) == pow2(1074) * (h * 0x1_0000_0000_0000_0000),
            a * pow2(1200) < (q + 1) * b,
            q + 1 <= h,
            h > 0,
            b > 0,
    ;
    assert(x < pow2(53) * b) by (nonlinear_arith)
        requires
            2 * x < b,
            pow2(53) >= 1,
            b > 0,
            x >= 0,
    ;
    vstd::arithmetic::div_mod::lemma_small_mod(x, b);
    vstd::arithmetic::div_mod::lemma_basic_div(x as int, b as int);
}

/// The double nearest to a decimal number.
fn read_double(
    whole: u64,
    digits: Vec<u8>,
    Ghost(whole_text): Ghost<Seq<char>>,
    Ghost(text): Ghost<Seq<char>>,
) -> (r: u64)
    requires
        small_digits(digits@),
        same_digits(text, digits@),
        whole == decimal_value(whole_text),
    ensures
        r == double_read(whole_text, text),
{
    let ghost n = decimal_value(whole_text + text);
    let ghost b = pow10(text.len());
    proof {
        value_split(whole_text, text, digits@);
        pow10_pos(text.len());
        lemma2_to64();
        lemma2_to64_rest();
        assert(n * 1 == n);
    }
    let mut f = digits;
    let mut q: u128 = whole as u128;
    let mut j: i32 = 0;
    while q < 0x4000_0000_0000_0000 && j < 1200
        invariant
            small_digits(f@),
            f@.len() == text.len(),
            b == pow10(text.len()),
            b > 0,
            0 <= j <= 1200,
            q < 0x1_0000_0000_0000_0000,
            n * pow2(j as nat) == q * b + fraction_value(f@),
        decreases 1200 - j,
    {
        let ghost v = fraction_value(f@);
        let carry: u8 = double_digits(&mut f);
        proof {
            lemma_pow2_unfold((j + 1) as nat);
            let p = pow2(j as nat);
            let q0 = q as nat;
            let v1 = fraction_value(f@);
            assert(n * (2 * p) == (2 * q0 + carry) * b + v1) by (nonlinear_arith)
                requires
                    n * p == q0 * b + v,
                    carry * b + v1 == 2 * v,
            ;
        }
        q = 2 * q + carry as u128;
        j += 1;
    }
    let rest: bool = any_digit(&f);
    let ghost x = n * pow2(j as nat);
    proof {
        fraction_bound(f@);
        let v = fraction_value(f@);
        vstd::arithmetic::div_mod::lemma_fundamental_div_mod_converse(
            x as int,
            b as int,
            q as int,
            v as int,
        );
        assert(x < (q + 1) * b) by (nonlinear_arith)
            requires
                x == q * b + v,
                v < b,
        ;
    }
    if q < 0x4000_0000_0000_0000 {
        proof {
            rounds_to_zero(n, b, q as nat);
        }
        return 0;
    }
    let full: u128 = if rest {
        2 * q + 1
    } else {
        2 * q
    };
    proof {
        rounded_moved(n, b, 1074, 53, j as nat, up(1074 - j), down(1074 - j));
    }
    let r: u128 = round_quotient(full, 1074 - j, 53, Ghost(x), Ghost(b));
    if r < DOUBLE_INFINITY as u128 {
        r as u64
    } else {
        DOUBLE_INFINITY
    }
}

/// The digits before and after the point of a decimal number: digits with at
/// most one point among them.
pub open spec fn decimal_parts(s: Seq<char>) -> Option<(Seq<char>, Seq<char>)> {
    let i = find_from(s, '.', 0);
    let whole = s.take(i);
    let fraction = if i < s.len() {
        s.skip(i + 1)
    } else {
        Seq::empty()
    };
    if whole.len() + fraction.len() > 0 && all_digits(whole) && all_digits(fraction) {
        Some((whole, fraction))
    } else {
        None
    }
}

/// A power of a thousand, up to the fourth.
pub open spec fn thousands(k: nat) -> u64 {
    if k == 0 {
        1
    } else if k == 1 {
        1_000
    } else if k == 2 {
        1_000_000
    } else if k == 3 {
        1_000_000_000
    } else {
        1_000_000_000_000
    }
}

/// A decimal number in thousands to some power, in double arithmetic and
/// without its fraction.
pub open spec fn count_read(s: Seq<char>, k: nat) -> Option<i64> {
    match decimal_parts(s) {
        Some((whole, fraction)) => {
            let n = double_floor(double_times(thousands(k), double_read(whole, fraction)));
            Some(
                if n < i64::MAX {
                    n as i64
                } else {
                    i64::MAX
                },
            )
        },
        None => None,
    }
}

/// Fields of a double from its bits on.
proof fn field_at_least(x: u64, f: nat)
    requires
        f * 0x10_0000_0000_0000 <= x <= DOUBLE_INFINITY,
        f >= 1,
    ensures
        double_field(x) >= f,
        double_sig(x) >= 0x10_0000_0000_0000,
        double_power(x) >= f - 1075,
{
    assert(x / 0x10_0000_0000_0000 >= f);
}

/// A double of at least `2^(f - 1023)` has at least the exponent field `f`.
proof fn near_at_least(a: nat, b: nat, k: int, f: nat)
    requires
        b > 0,
        1 <= f <= 2047,
        k + 1074 >= 0,
        pow2((f - 1) as nat) * pow2(52) * b <= a * pow2((k + 1074) as nat),
    ensures
        double_field(double_near(a, b, k)) >= f,
        double_sig(double_near(a, b, k)) >= 0x10_0000_0000_0000,
        double_power(double_near(a, b, k)) >= f - 1075,
        double_near(a, b, k) <= DOUBLE_INFINITY,
{
    lemma2_to64_rest();
    rounded_at_least(a * pow2((k + 1074) as nat), b, (f - 1) as nat, 53);
    assert(((f - 1) + 1) * pow2(52) == f * 0x10_0000_0000_0000);
    field_at_least(double_near(a, b, k), f);
}

/// A decimal number from `2^64` on stays beyond 63 bits.
proof fn large_count(whole: Seq<char>, fraction: Seq<char>, d: Seq<u8>, k: nat)
    requires
        same_digits(fraction, d),
        decimal_value(whole) >= 0x1_0000_0000_0000_0000,
    ensures
        double_floor(double_times(thousands(k), double_read(whole, fraction))) > i64::MAX,
{
    lemma2_to64();
    lemma2_to64_rest();
    let b = pow10(fraction.len());
    let n = decimal_value(whole + fraction);
    pow10_pos(fraction.len());
    value_split(whole, fraction, d);
    let w = decimal_value(whole);
    lemma_pow2_adds(1086, 52);
    lemma_pow2_adds(64, 1074);
    let u = pow2(1074);
    assert(pow2(1086) * pow2(52) * b <= n * u) by (nonlinear_arith)
        requires
            pow2(1086) * pow2(52) == 0x1_0000_0000_0000_0000 * u,
            n >= w * b,
            w >= 0x1_0000_0000_0000_0000,
            b > 0,
            u >= 0,
    ;
    near_at_least(n, b, 0, 1087);
    let x = double_read(whole, fraction);
    let t = thousands(k) as nat;
    lemma_pow2_adds(1022, 52);
    assert(pow2(1022) * pow2(52) * 1 <= t * u) by (nonlinear_arith)
        requires
            pow2(1022) * pow2(52) == u,
            t >= 1,
            u >= 0,
    ;
    near_at_least(t, 1, 0, 1023);
    let y = double_near(t, 1, 0);
    let s = double_sig(y) * double_sig(x);
    let p = double_power(y) + double_power(x);
    assert(s >= 0x10_0000_0000_0000 * 0x10_0000_0000_0000) by (nonlinear_arith)
        requires
            s == double_sig(y) * double_sig(x),
            double_sig(y) >= 0x10_0000_0000_0000,
            double_sig(x) >= 0x10_0000_0000_0000,
    ;
    let e = (p + 1074) as nat;
    lemma_pow2_adds(104, 1034);
    lemma_pow2_adds(52, 52);
    if e > 1034 {
        lemma_pow2_strictly_increases(1034, e);
    }
    assert(pow2(1086) * pow2(52) * 1 <= s * pow2(e)) by (nonlinear_arith)
        requires
            pow2(1086) * pow2(52) == pow2(104) * pow2(1034),
            pow2(104) == 0x10_0000_0000_0000 * 0x10_0000_0000_0000,
            s >= pow2(104),
            pow2(e) >= pow2(1034),
    ;
    near_at_least(s, 1, p, 1087);
    let z = double_near(s, 1, p);
    let q = double_power(z) as nat;
    if q > 12 {
        lemma_pow2_strictly_increases(12, q);
    }
    assert(double_sig(z) * pow2(q) >= 0x10_0000_0000_0000 * 0x1000) by (nonlinear_arith)
        requires
            double_sig(z) >= 0x10_0000_0000_0000,
            pow2(q) >= 0x1000,
    ;
}

/// A decimal number in thousands to some power, in double arithmetic and
/// without its fraction.
pub fn read_count(s: &[char], k: usize) -> (r: Option<i64>)
    requires
        k <= 4,
    ensures
        r == count_read(s@, k as nat),
{
    let i: usize = find(s, '.', 0);
    let from: usize = if i < s.len() {
        i + 1
    } else {
        i
    };
    let ghost whole = s@.take(i as int);
    let ghost fraction = if i < s@.len() {
        s@.skip(i + 1)
    } else {
        Seq::empty()
    };
    assert(fraction =~= s@.skip(from as int));
    let head = vstd::slice::slice_subrange(s, 0, i);
    let tail = vstd::slice::slice_subrange(s, from, s.len());
    assert(head@ =~= whole);
    assert(tail@ =~= fraction);
    if head.len() == 0 && tail.len() == 0 {
        return None;
    }
    if !only_digits(head) || !only_digits(tail) {
        return None;
    }
    let mut digits: Vec<u8> = Vec::new();
    let mut j: usize = 0;
    while j < tail.len()
        invariant
            j <= tail@.len(),
            tail@ == fraction,
            all_digits(fraction),
            digits@.len() == j,
            small_digits(digits@),
            forall|x: int|
                0 <= x < j ==> digit_value(#[trigger] fraction[x]) == digits@[x] as nat,
        decreases tail@.len() - j,
    {
        assert(is_digit(fraction[j as int]));
        digits.push((tail[j] as u32 - '0' as u32) as u8);
        j += 1;
    }
    let mut n: u64 = 0;
    let mut m: usize = 0;
    assert(whole.take(0) =~= Seq::empty());
    while m < head.len()
        invariant
            m <= head@.len(),
            head@ == whole,
            all_digits(whole),
            same_digits(fraction, digits@),
            decimal_parts(s@) == Some((whole, fraction)),
            n == decimal_value(whole.take(m as int)),
        decreases head@.len() - m,
    {
        assert(is_digit(whole[m as int]));
        let d: u64 = (head[m] as u32 - '0' as u32) as u64;
        proof {
            let t = whole.take(m + 1);
            assert(t.drop_last() =~= whole.take(m as int));
            assert(t.last() == whole[m as int]);
            decimal_value_grows(whole, m + 1);
        }
        match n.checked_mul(10) {
            None => {
                proof {
                    large_count(whole, fraction, digits@, k as nat);
                }
                return Some(i64::MAX);
            },
            Some(x) => match x.checked_add(d) {
                None => {
                    proof {
                        large_count(whole, fraction, digits@, k as nat);
                    }
                    return Some(i64::MAX);
                },
                Some(y) => {
                    n = y;
                },
            },
        }
        m += 1;
    }
    assert(whole.take(m as int) =~= whole);
    let x: u64 = read_double(n, digits, Ghost(whole), Ghost(fraction));
    let scale: u64 = if k == 0 {
        1
    } else if k == 1 {
        1_000
    } else if k == 2 {
        1_000_000
    } else if k == 3 {
        1_000_000_000
    } else {
        1_000_000_000_000
    };
    let y: u64 = multiply_double(scale, x);
    Some(floor_double(y, i64::MAX as u64) as i64)
}

} // verus!
