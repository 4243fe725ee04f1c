//! Sums of singles.

use crate::ieee::convert::{
    magnitude_of, near_single, quiet, quieted, signed_single, single_magnitude, single_near,
    single_negative, single_parts, single_power, single_sig, with_sign, SINGLE_INFINITY,
    SINGLE_NAN,
};
use crate::ieee::{round_quotient, rounded_scaled, sticky, two_to};
use vstd::arithmetic::power2::{
    lemma2_to64, lemma2_to64_rest, lemma_pow2_adds, lemma_pow2_pos, lemma_pow2_strictly_increases,
    pow2,
};
use vstd::prelude::*;

verus! {

/// A whole number with a sign.
pub open spec fn signed(negative: bool, n: int) -> int {
    if negative {
        -n
    } else {
        n
    }
}

/// The smaller of two exponents.
pub open spec fn lower(a: int, b: int) -> int {
    if a < b {
        a
    } else {
        b
    }
}

/// The sum of two finite singles, as a whole number of two to the smaller of
/// their powers.
pub open spec fn sum_units(x: u32, y: u32) -> int {
    let f = lower(single_power(x), single_power(y));
    signed(
        single_negative(x),
        (single_sig(x) * pow2((single_power(x) - f) as nat)) as int,
    ) + signed(
        single_negative(y),
        (single_sig(y) * pow2((single_power(y) - f) as nat)) as int,
    )
}

/// The magnitude of a whole number.
pub open spec fn magnitude(n: int) -> nat {
    (if n < 0 {
        -n
    } else {
        n
    }) as nat
}

/// The single nearest to the sum of two. What is not a number stays so, the
/// first before the second; infinities of different signs have no sum. A sum
/// of zero is negative only where both are.
pub open spec fn single_sum(x: u32, y: u32) -> u32 {
    let xm = single_magnitude(x);
    let ym = single_magnitude(y);
    let xn = single_negative(x);
    let yn = single_negative(y);
    if xm > SINGLE_INFINITY {
        signed_single(xn, quiet(xm))
    } else if ym > SINGLE_INFINITY {
        signed_single(yn, quiet(ym))
    } else if xm == SINGLE_INFINITY && ym == SINGLE_INFINITY && xn != yn {
        SINGLE_NAN
    } else if xm == SINGLE_INFINITY {
        x
    } else if ym == SINGLE_INFINITY {
        y
    } else {
        let n = sum_units(x, y);
        signed_single(
            n < 0 || (n == 0 && xn && yn),
            single_near(magnitude(n), 1, lower(single_power(x), single_power(y))),
        )
    }
}

/// A single with the other sign.
pub open spec fn negated(x: u32) -> u32 {
    signed_single(!single_negative(x), single_magnitude(x))
}

/// The single nearest to the difference of two.
pub open spec fn single_difference(x: u32, y: u32) -> u32 {
    if single_magnitude(y) > SINGLE_INFINITY {
        single_sum(x, y)
    } else {
        single_sum(x, negated(y))
    }
}

/// A number with far less added or taken away.
fn near_far(minus: bool, m: u32, d: u32, s: u32, e: i32) -> (r: u32)
    requires
        0x80_0000 <= m < 0x100_0000,
        s < 0x100_0000,
        minus ==> s > 0,
        100 < d <= 254,
        -149 <= e,
        e + d <= 105,
    ensures
        r == single_near((m * pow2(d as nat) + signed(minus, s as int)) as nat, 1, e as int),
        r < 0x8000_0000,
        m * pow2(d as nat) > s,
{
    let ghost b = pow2((d - 60) as nat);
    let ghost x = (m * pow2(d as nat) + signed(minus, s as int)) as nat;
    let whole: u128 = m as u128 * 0x1000_0000_0000_0000;
    let q: u128 = if minus {
        whole - 1
    } else {
        whole
    };
    let full: u128 = if s > 0 {
        2 * q + 1
    } else {
        2 * q
    };
    let k: i32 = e + d as i32 + 89;
    proof {
        lemma2_to64();
        lemma2_to64_rest();
        lemma_pow2_adds(60, (d - 60) as nat);
        if d - 60 > 41 {
            lemma_pow2_strictly_increases(41, (d - 60) as nat);
        }
        let rest = if minus {
            b - s
        } else {
            s as int
        };
        assert(m * pow2(d as nat) > s) by (nonlinear_arith)
            requires
                m >= 1,
                pow2(d as nat) == 0x1000_0000_0000_0000 * b,
                b >= 1,
                s < 0x100_0000,
        ;
        assert(x == q * b + rest) by (nonlinear_arith)
            requires
                pow2(d as nat) == 0x1000_0000_0000_0000 * b,
                minus ==> x == m * pow2(d as nat) - s && q == m * 0x1000_0000_0000_0000 - 1
                    && rest == b - s,
                !minus ==> x == m * pow2(d as nat) + s && q == m * 0x1000_0000_0000_0000
                    && rest == s,
        ;
        vstd::arithmetic::div_mod::lemma_fundamental_div_mod_converse(
            x as int,
            b as int,
            q as int,
            rest,
        );
        assert(full == sticky(x, b));
        let up = (e + 149) as nat;
        lemma_pow2_adds(up, (d - 60) as nat);
        rounded_scaled(x * pow2(up), 1, b, 24);
        assert(x * pow2(up) * b == x * pow2(k as nat)) by (nonlinear_arith)
            requires
                pow2(k as nat) == pow2(up) * b,
        ;
        assert(1 * b == b);
        assert(b * pow2(0) == b) by (nonlinear_arith)
            requires
                pow2(0) == 1,
        ;
    }
    let r: u128 = round_quotient(full, k, 24, Ghost(x), Ghost(b));
    if r < SINGLE_INFINITY as u128 {
        r as u32
    } else {
        SINGLE_INFINITY
    }
}

/// The sum of two finite singles, the one with the larger power first.
fn add_finite(an: bool, am: u32, ae: i32, bn: bool, bm: u32, be: i32) -> (r: u32)
    requires
        am < 0x100_0000,
        bm < 0x100_0000,
        -149 <= be <= ae <= 105,
        ae > -149 ==> am >= 0x80_0000,
    ensures
        ({
            let n = signed(an, (am * pow2((ae - be) as nat)) as int) + signed(bn, bm as int);
            r == signed_single(
                n < 0 || (n == 0 && an && bn),
                single_near(magnitude(n), 1, be as int),
            )
        }),
{
    let d: u32 = (ae - be) as u32;
    if d > 100 {
        let r: u32 = near_far(an != bn && bm > 0, am, d, bm, be);
        return with_sign(an, r);
    }
    let w: u128 = two_to(d);
    proof {
        lemma2_to64();
        lemma2_to64_rest();
        lemma_pow2_adds(50, 50);
        if d < 100 {
            lemma_pow2_strictly_increases(d as nat, 100);
        }
        lemma_pow2_pos(d as nat);
        assert(0 <= am * w < 0x100_0000 * 0x10_0000_0000_0000_0000_0000_0000int)
            by (nonlinear_arith)
            requires
                0 <= am < 0x100_0000,
                0 < w <= 0x10_0000_0000_0000_0000_0000_0000int,
        ;
    }
    let v: u128 = am as u128 * w;
    let b: u128 = bm as u128;
    if an == bn {
        with_sign(an, near_single(v + b, 1, be))
    } else if v > b {
        with_sign(an, near_single(v - b, 1, be))
    } else {
        with_sign(bn && v < b, near_single(b - v, 1, be))
    }
}

/// The sum of two singles.
pub fn add_single(x: u32, y: u32) -> (r: u32)
    ensures
        r == single_sum(x, y),
{
    let xm: u32 = magnitude_of(x);
    let ym: u32 = magnitude_of(y);
    let xn: bool = x >= 0x8000_0000;
    let yn: bool = y >= 0x8000_0000;
    if xm > SINGLE_INFINITY {
        return with_sign(xn, quieted(xm));
    }
    if ym > SINGLE_INFINITY {
        return with_sign(yn, quieted(ym));
    }
    if xm == SINGLE_INFINITY {
        return if ym == SINGLE_INFINITY && xn != yn {
            SINGLE_NAN
        } else {
            x
        };
    }
    if ym == SINGLE_INFINITY {
        return y;
    }
    let (mx, ex) = single_parts(x);
    let (my, ey) = single_parts(y);
    proof {
        lemma2_to64();
        assert(mx * 1 == mx && my * 1 == my);
    }
    if ex >= ey {
        add_finite(xn, mx, ex, yn, my, ey)
    } else {
        add_finite(yn, my, ey, xn, mx, ex)
    }
}

/// The difference of two singles.
pub fn subtract_single(x: u32, y: u32) -> (r: u32)
    ensures
        r == single_difference(x, y),
{
    let ym: u32 = magnitude_of(y);
    if ym > SINGLE_INFINITY {
        add_single(x, y)
    } else {
        add_single(x, with_sign(y < 0x8000_0000, ym))
    }
}

} // verus!
