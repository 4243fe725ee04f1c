//! Double, single and half precision numbers by their bit patterns.

use crate::ieee::{round_ratio, rounded_at, two_to};
use vstd::arithmetic::power2::{
    lemma2_to64, lemma2_to64_rest, lemma_pow2_pos, lemma_pow2_strictly_increases, pow2,
};
use vstd::prelude::*;

verus! {

/// The magnitude bits of the infinite double.
pub const DOUBLE_INFINITY: u64 = 0x7ff0_0000_0000_0000;

/// The magnitude bits of the infinite single.
pub const SINGLE_INFINITY: u32 = 0x7f80_0000;

/// The magnitude bits of the infinite half.
pub const HALF_INFINITY: u16 = 0x7c00;

/// The double 1.
pub const DOUBLE_ONE: u64 = 0x3ff0_0000_0000_0000;

/// The single 1.
pub const SINGLE_ONE: u32 = 0x3f80_0000;

/// The single that stands for "not a number" where no operand is one.
pub const SINGLE_NAN: u32 = 0x7fc0_0000;

/// The exponent field of a double.
pub open spec fn double_field(x: u64) -> int {
    (x / 0x10_0000_0000_0000 % 0x800) as int
}

/// The fraction field of a double.
pub open spec fn double_fraction(x: u64) -> int {
    (x % 0x10_0000_0000_0000) as int
}

/// Whether a double is below zero or a negative zero.
pub open spec fn double_negative(x: u64) -> bool {
    x >= 0x8000_0000_0000_0000
}

/// Whether a double is not a number.
pub open spec fn double_nan(x: u64) -> bool {
    double_field(x) == 0x7ff && double_fraction(x) != 0
}

/// Whether a double is a number and not infinite.
pub open spec fn double_finite(x: u64) -> bool {
    double_field(x) != 0x7ff
}

/// A finite double is `double_sig * 2^double_power` in magnitude.
pub open spec fn double_sig(x: u64) -> nat {
    (if double_field(x) == 0 {
        double_fraction(x)
    } else {
        double_fraction(x) + 0x10_0000_0000_0000
    }) as nat
}

/// A finite double is `double_sig * 2^double_power` in magnitude.
pub open spec fn double_power(x: u64) -> int {
    if double_field(x) == 0 {
        -1074
    } else {
        double_field(x) - 1075
    }
}

/// The magnitude bits of the double nearest to `a / b * 2^k`.
pub open spec fn double_near(a: nat, b: nat, k: int) -> u64 {
    let r = rounded_at(a, b, k + 1074, 53);
    if r < DOUBLE_INFINITY {
        r as u64
    } else {
        DOUBLE_INFINITY
    }
}

/// The largest integer that is no larger than a finite double's magnitude.
pub open spec fn double_floor(x: u64) -> nat {
    if double_power(x) >= 0 {
        double_sig(x) * pow2(double_power(x) as nat)
    } else {
        double_sig(x) / pow2((-double_power(x)) as nat)
    }
}

/// The exponent field of a single.
pub open spec fn single_field(x: u32) -> int {
    (x / 0x80_0000 % 0x100) as int
}

/// The fraction field of a single.
pub open spec fn single_fraction(x: u32) -> int {
    (x % 0x80_0000) as int
}

/// Whether a single is below zero or a negative zero.
pub open spec fn single_negative(x: u32) -> bool {
    x >= 0x8000_0000
}

/// A single without its sign.
pub open spec fn single_magnitude(x: u32) -> u32 {
    if single_negative(x) {
        (x - 0x8000_0000) as u32
    } else {
        x
    }
}

/// A finite single is `single_sig * 2^single_power` in magnitude.
pub open spec fn single_sig(x: u32) -> nat {
    (if single_field(x) == 0 {
        single_fraction(x)
    } else {
        single_fraction(x) + 0x80_0000
    }) as nat
}

/// A finite single is `single_sig * 2^single_power` in magnitude.
pub open spec fn single_power(x: u32) -> int {
    if single_field(x) == 0 {
        -149
    } else {
        single_field(x) - 150
    }
}

/// The magnitude bits of the single nearest to `a / b * 2^k`.
pub open spec fn single_near(a: nat, b: nat, k: int) -> u32 {
    let r = rounded_at(a, b, k + 149, 24);
    if r < SINGLE_INFINITY {
        r as u32
    } else {
        SINGLE_INFINITY
    }
}

/// The magnitude bits of the half nearest to `a * 2^k`.
pub open spec fn half_near(a: nat, k: int) -> u16 {
    let r = rounded_at(a, 1, k + 24, 11);
    if r < HALF_INFINITY {
        r as u16
    } else {
        HALF_INFINITY
    }
}

/// A single with the sign set or not.
pub open spec fn signed_single(negative: bool, magnitude: u32) -> u32 {
    (if negative {
        magnitude + 0x8000_0000
    } else {
        magnitude as int
    }) as u32
}

/// The single nearest to a double. What is not a number stays so, with the
/// leading bits of its fraction.
pub open spec fn single_of_double(x: u64) -> u32 {
    signed_single(
        double_negative(x),
        if double_nan(x) {
            (SINGLE_NAN + double_fraction(x) / 0x2000_0000 % 0x40_0000) as u32
        } else if !double_finite(x) {
            SINGLE_INFINITY
        } else {
            single_near(double_sig(x), 1, double_power(x))
        },
    )
}

/// The half nearest to a single. What is not a number stays so, with the
/// leading bits of its fraction.
pub open spec fn half_of_single(x: u32) -> u16 {
    let magnitude: u16 = if single_field(x) == 0xff {
        if single_fraction(x) == 0 {
            HALF_INFINITY
        } else if single_fraction(x) < 0x2000 {
            0x7c01
        } else {
            (HALF_INFINITY + single_fraction(x) / 0x2000) as u16
        }
    } else {
        half_near(single_sig(x), single_power(x))
    };
    (if single_negative(x) {
        magnitude + 0x8000
    } else {
        magnitude as int
    }) as u16
}

/// A single as a double, which holds it exactly.
pub open spec fn double_of_single(x: u32) -> u64 {
    let magnitude: u64 = if single_field(x) == 0xff {
        if single_fraction(x) == 0 {
            DOUBLE_INFINITY
        } else {
            (0x7ff8_0000_0000_0000 + single_fraction(x) % 0x40_0000 * 0x2000_0000) as u64
        }
    } else {
        double_near(single_sig(x), 1, single_power(x))
    };
    (if single_negative(x) {
        magnitude + 0x8000_0000_0000_0000
    } else {
        magnitude as int
    }) as u64
}

/// A magnitude of a double divided by a whole number.
pub open spec fn double_over(x: u64, d: u64) -> u64 {
    if double_finite(x) {
        double_near(double_sig(x), d as nat, double_power(x))
    } else {
        x
    }
}

/// A single divided by another.
pub open spec fn single_over(x: u32, y: u32) -> u32 {
    let xm = single_magnitude(x);
    let ym = single_magnitude(y);
    let negative = single_negative(x) != single_negative(y);
    if xm > SINGLE_INFINITY {
        signed_single(single_negative(x), quiet(xm))
    } else if ym > SINGLE_INFINITY {
        signed_single(single_negative(y), quiet(ym))
    } else if (xm == SINGLE_INFINITY && ym == SINGLE_INFINITY) || (xm == 0 && ym == 0) {
        SINGLE_NAN
    } else if xm == SINGLE_INFINITY || ym == 0 {
        signed_single(negative, SINGLE_INFINITY)
    } else if ym == SINGLE_INFINITY {
        signed_single(negative, 0)
    } else {
        signed_single(
            negative,
            single_near(single_sig(x), single_sig(y), single_power(x) - single_power(y)),
        )
    }
}

/// What is not a number, with the leading fraction bit set.
pub open spec fn quiet(magnitude: u32) -> u32 {
    if magnitude % 0x80_0000 < 0x40_0000 {
        (magnitude + 0x40_0000) as u32
    } else {
        magnitude
    }
}

/// The magnitude bits of the double nearest to `a / b * 2^k`.
pub fn near_double(a: u128, b: u64, k: i32) -> (r: u64)
    requires
        a < 0x4000_0000_0000_0000_0000_0000_0000_0000,
        b > 0,
        -8000 <= k <= 8000,
    ensures
        r == double_near(a as nat, b as nat, k as int),
{
    let r: u128 = round_ratio(a, b, k + 1074, 53);
    if r < DOUBLE_INFINITY as u128 {
        r as u64
    } else {
        DOUBLE_INFINITY
    }
}

/// The magnitude bits of the single nearest to `a / b * 2^k`.
pub fn near_single(a: u128, b: u64, k: i32) -> (r: u32)
    requires
        a < 0x4000_0000_0000_0000_0000_0000_0000_0000,
        b > 0,
        -8000 <= k <= 8000,
    ensures
        r == single_near(a as nat, b as nat, k as int),
{
    let r: u128 = round_ratio(a, b, k + 149, 24);
    if r < SINGLE_INFINITY as u128 {
        r as u32
    } else {
        SINGLE_INFINITY
    }
}

/// Significand and power of a finite double.
pub fn double_parts(x: u64) -> (r: (u64, i32))
    ensures
        r.0 == double_sig(x),
        r.1 == double_power(x),
        r.0 < 0x20_0000_0000_0000,
        -1074 <= r.1 <= 972,
{
    let field: u64 = x / 0x10_0000_0000_0000 % 0x800;
    let fraction: u64 = x % 0x10_0000_0000_0000;
    if field == 0 {
        (fraction, -1074)
    } else {
        (fraction + 0x10_0000_0000_0000, field as i32 - 1075)
    }
}

/// Significand and power of a finite single.
pub fn single_parts(x: u32) -> (r: (u32, i32))
    ensures
        r.0 == single_sig(x),
        r.1 == single_power(x),
        r.0 < 0x100_0000,
        -149 <= r.1 <= 105,
        r.0 == 0 <==> single_magnitude(x) == 0,
        r.1 > -149 ==> r.0 >= 0x80_0000,
{
    let field: u32 = x / 0x80_0000 % 0x100;
    let fraction: u32 = x % 0x80_0000;
    if field == 0 {
        (fraction, -149)
    } else {
        (fraction + 0x80_0000, field as i32 - 150)
    }
}

/// The single nearest to a double.
pub fn double_to_single(x: u64) -> (r: u32)
    ensures
        r == single_of_double(x),
{
    let field: u64 = x / 0x10_0000_0000_0000 % 0x800;
    let fraction: u64 = x % 0x10_0000_0000_0000;
    let magnitude: u32 = if field == 0x7ff {
        if fraction != 0 {
            SINGLE_NAN + (fraction / 0x2000_0000 % 0x40_0000) as u32
        } else {
            SINGLE_INFINITY
        }
    } else {
        let (sig, power) = double_parts(x);
        near_single(sig as u128, 1, power)
    };
    if x >= 0x8000_0000_0000_0000 {
        magnitude + 0x8000_0000
    } else {
        magnitude
    }
}

/// The half nearest to a single.
pub fn single_to_half(x: u32) -> (r: u16)
    ensures
        r == half_of_single(x),
{
    let field: u32 = x / 0x80_0000 % 0x100;
    let fraction: u32 = x % 0x80_0000;
    let magnitude: u16 = if field == 0xff {
        if fraction == 0 {
            HALF_INFINITY
        } else if fraction < 0x2000 {
            0x7c01
        } else {
            HALF_INFINITY + (fraction / 0x2000) as u16
        }
    } else {
        let (sig, power) = single_parts(x);
        let r: u128 = round_ratio(sig as u128, 1, power + 24, 11);
        if r < HALF_INFINITY as u128 {
            r as u16
        } else {
            HALF_INFINITY
        }
    };
    if x >= 0x8000_0000 {
        magnitude + 0x8000
    } else {
        magnitude
    }
}

/// A single as a double.
pub fn single_to_double(x: u32) -> (r: u64)
    ensures
        r == double_of_single(x),
{
    let field: u32 = x / 0x80_0000 % 0x100;
    let fraction: u32 = x % 0x80_0000;
    let magnitude: u64 = if field == 0xff {
        if fraction == 0 {
            DOUBLE_INFINITY
        } else {
            0x7ff8_0000_0000_0000 + (fraction % 0x40_0000) as u64 * 0x2000_0000
        }
    } else {
        let (sig, power) = single_parts(x);
        near_double(sig as u128, 1, power)
    };
    if x >= 0x8000_0000 {
        magnitude + 0x8000_0000_0000_0000
    } else {
        magnitude
    }
}

/// A magnitude of a double divided by a whole number.
pub fn divide_double(x: u64, d: u64) -> (r: u64)
    requires
        d > 0,
    ensures
        r == double_over(x, d),
{
    if x / 0x10_0000_0000_0000 % 0x800 == 0x7ff {
        x
    } else {
        let (sig, power) = double_parts(x);
        near_double(sig as u128, d, power)
    }
}

/// A single without its sign.
pub fn magnitude_of(x: u32) -> (r: u32)
    ensures
        r == single_magnitude(x),
        r < 0x8000_0000,
{
    if x >= 0x8000_0000 {
        x - 0x8000_0000
    } else {
        x
    }
}

/// A single with the sign set or not.
pub fn with_sign(negative: bool, magnitude: u32) -> (r: u32)
    requires
        magnitude < 0x8000_0000,
    ensures
        r == signed_single(negative, magnitude),
{
    if negative {
        magnitude + 0x8000_0000
    } else {
        magnitude
    }
}

/// What is not a number, with the leading fraction bit set.
pub fn quieted(magnitude: u32) -> (r: u32)
    requires
        magnitude < 0x8000_0000,
    ensures
        r == quiet(magnitude),
        r < 0x8000_0000,
{
    if magnitude % 0x80_0000 < 0x40_0000 {
        magnitude + 0x40_0000
    } else {
        magnitude
    }
}

/// A single divided by another.
pub fn divide_single(x: u32, y: u32) -> (r: u32)
    ensures
        r == single_over(x, y),
{
    let xm: u32 = magnitude_of(x);
    let ym: u32 = magnitude_of(y);
    let xn: bool = x >= 0x8000_0000;
    let yn: bool = y >= 0x8000_0000;
    let negative: bool = xn != yn;
    if xm > SINGLE_INFINITY {
        return with_sign(xn, quieted(xm));
    }
    if ym > SINGLE_INFINITY {
        return with_sign(yn, quieted(ym));
    }
    if (xm == SINGLE_INFINITY && ym == SINGLE_INFINITY) || (xm == 0 && ym == 0) {
        return SINGLE_NAN;
    }
    if xm == SINGLE_INFINITY || ym == 0 {
        return with_sign(negative, SINGLE_INFINITY);
    }
    if ym == SINGLE_INFINITY {
        return with_sign(negative, 0);
    }
    let (xs, xp) = single_parts(x);
    let (ys, yp) = single_parts(y);
    let m: u32 = near_single(xs as u128, ys as u64, xp - yp);
    with_sign(negative, m)
}

/// The largest integer that is no larger than a double's magnitude, but at
/// most `max`.
pub fn floor_double(x: u64, max: u64) -> (r: u64)
    ensures
        r == (if double_floor(x) < max {
            double_floor(x) as u64
        } else {
            max
        }),
{
    let (sig, power) = double_parts(x);
    proof {
        lemma2_to64();
        lemma2_to64_rest();
    }
    if power >= 0 {
        if sig == 0 {
            assert(double_sig(x) * pow2(power as nat) == 0) by (nonlinear_arith)
                requires
                    double_sig(x) == 0,
            ;
            return 0;
        }
        if power >= 64 {
            proof {
                if power > 64 {
                    lemma_pow2_strictly_increases(64, power as nat);
                }
                assert(double_sig(x) * pow2(power as nat) >= pow2(64)) by (nonlinear_arith)
                    requires
                        double_sig(x) >= 1,
                        pow2(power as nat) >= pow2(64),
                ;
            }
            return max;
        }
        let w: u128 = two_to(power as u32);
        proof {
            lemma_pow2_strictly_increases(power as nat, 64);
            assert(0 <= sig * w < 0x20_0000_0000_0000 * 0x1_0000_0000_0000_0000)
                by (nonlinear_arith)
                requires
                    0 <= sig < 0x20_0000_0000_0000,
                    0 <= w < 0x1_0000_0000_0000_0000,
            ;
        }
        let v: u128 = sig as u128 * w;
        if v < max as u128 {
            v as u64
        } else {
            max
        }
    } else {
        let n: i32 = -power;
        proof {
            lemma_pow2_pos(n as nat);
        }
        if n >= 64 {
            proof {
                if n > 64 {
                    lemma_pow2_strictly_increases(64, n as nat);
                }
                vstd::arithmetic::div_mod::lemma_basic_div(sig as int, pow2(n as nat) as int);
            }
            return 0;
        }
        let w: u128 = two_to(n as u32);
        let v: u128 = sig as u128 / w;
        assert(v <= sig) by (nonlinear_arith)
            requires
                v == sig as int / w as int,
                w > 0,
                sig >= 0,
        ;
        if v < max as u128 {
            v as u64
        } else {
            max
        }
    }
}

/// A whole number times a double that is not below zero, as a double.
pub open spec fn double_times(n: u64, x: u64) -> u64 {
    let y = double_near(n as nat, 1, 0);
    double_near(double_sig(y) * double_sig(x), 1, double_power(y) + double_power(x))
}

/// A whole number times a finite double that is not below zero.
pub fn multiply_double(n: u64, x: u64) -> (r: u64)
    ensures
        r == double_times(n, x),
{
    let y: u64 = near_double(n as u128, 1, 0);
    let (ys, yp) = double_parts(y);
    let (xs, xp) = double_parts(x);
    assert(0 <= ys * xs < 0x20_0000_0000_0000 * 0x20_0000_0000_0000) by (nonlinear_arith)
        requires
            0 <= ys < 0x20_0000_0000_0000,
            0 <= xs < 0x20_0000_0000_0000,
    ;
    near_double(ys as u128 * xs as u128, 1, yp + xp)
}

/// What a whole number times a double leaves when it is cut to 32 bits: no
/// fraction, and the nearest bound where it is out of range.
pub open spec fn cut_product(n: u64, x: u64) -> u32 {
    if double_nan(x) || double_negative(x) || (n == 0 && !double_finite(x)) {
        0
    } else if !double_finite(x) {
        u32::MAX
    } else if double_floor(double_times(n, x)) < u32::MAX {
        double_floor(double_times(n, x)) as u32
    } else {
        u32::MAX
    }
}

/// What a whole number times a double leaves when it is cut to 32 bits.
pub fn multiply_and_cut(n: u64, x: u64) -> (r: u32)
    ensures
        r == cut_product(n, x),
{
    let field: u64 = x / 0x10_0000_0000_0000 % 0x800;
    let fraction: u64 = x % 0x10_0000_0000_0000;
    if (field == 0x7ff && (fraction != 0 || n == 0)) || x >= 0x8000_0000_0000_0000 {
        return 0;
    }
    if field == 0x7ff {
        return u32::MAX;
    }
    let y: u64 = multiply_double(n, x);
    floor_double(y, u32::MAX as u64) as u32
}

} // verus!
