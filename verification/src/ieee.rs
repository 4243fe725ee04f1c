//! Arithmetic on the bit patterns of binary floating-point numbers, in
//! integers: rounding is to nearest, ties to even, throughout.

pub mod convert;
pub mod decimal;
pub mod laws;
pub mod reading;
pub mod sum;
pub mod texts;

use vstd::arithmetic::div_mod::lemma_fundamental_div_mod_converse;
use vstd::arithmetic::power2::{
    lemma2_to64, lemma2_to64_rest, lemma_pow2_adds, lemma_pow2_pos, lemma_pow2_strictly_increases,
    lemma_pow2_unfold, pow2,
};
use vstd::prelude::*;

verus! {

/// The integer nearest to `a / b`, the even one of two.
pub open spec fn nearest(a: nat, b: nat) -> nat {
    let q = a / b;
    let r = a % b;
    if 2 * r < b || (2 * r == b && q % 2 == 0) {
        q
    } else {
        q + 1
    }
}

/// The magnitude bits of the floating-point number nearest to `a / b`, where
/// the least positive number stands for 1 and a significand has `p` bits:
/// below `2^p` the numbers are the integers, and from each power of two on
/// they stand twice as far apart.
pub open spec fn rounded(a: nat, b: nat, p: nat) -> nat
    decreases a - b,
    when b > 0 && p > 0
    via rounded_decreases
{
    if a < pow2(p) * b {
        nearest(a, b)
    } else {
        pow2((p - 1) as nat) + rounded(a, 2 * b, p)
    }
}

#[via_fn]
proof fn rounded_decreases(a: nat, b: nat, p: nat) {
    if a >= pow2(p) * b {
        room_to_double(a, b, p);
    }
}

/// A number beyond the integers leaves room for twice the distance.
proof fn room_to_double(a: nat, b: nat, p: nat)
    requires
        b > 0,
        p > 0,
        a >= pow2(p) * b,
    ensures
        a >= 2 * b,
{
    lemma_pow2_unfold(p);
    lemma_pow2_pos((p - 1) as nat);
    assert(2 * b <= pow2(p) * b) by (nonlinear_arith)
        requires
            pow2(p) >= 2,
            b > 0,
    ;
}

/// `rounded` of `a / b * 2^k`.
pub open spec fn rounded_at(a: nat, b: nat, k: int, p: nat) -> nat {
    if k >= 0 {
        rounded(a * pow2(k as nat), b, p)
    } else {
        rounded(a, b * pow2((-k) as nat), p)
    }
}

/// A common factor does not change the nearest integer.
pub proof fn nearest_scaled(a: nat, b: nat, c: nat)
    requires
        b > 0,
        c > 0,
    ensures
        nearest(a * c, b * c) == nearest(a, b),
{
    let q = (a / b) as int;
    let r = (a % b) as int;
    assert(a == b * q + r) by {
        vstd::arithmetic::div_mod::lemma_fundamental_div_mod(a as int, b as int);
    }
    assert(a * c == (b * c) * q + r * c && 0 <= r * c < b * c && b * c > 0) by (nonlinear_arith)
        requires
            a == b * q + r,
            0 <= r < b,
            c > 0,
    ;
    assert(q * (b * c) == (b * c) * q) by (nonlinear_arith);
    lemma_fundamental_div_mod_converse((a * c) as int, (b * c) as int, q, r * c);
    assert((2 * (r * c) < b * c <==> 2 * r < b) && (2 * (r * c) == b * c <==> 2 * r == b))
        by (nonlinear_arith)
        requires
            c > 0,
    ;
}

/// A common factor does not change the rounded number.
pub proof fn rounded_scaled(a: nat, b: nat, c: nat, p: nat)
    requires
        b > 0,
        c > 0,
        p > 0,
    ensures
        rounded(a * c, b * c, p) == rounded(a, b, p),
    decreases a - b,
{
    let w = pow2(p);
    assert((a * c < w * (b * c) <==> a < w * b) && b * c > 0) by (nonlinear_arith)
        requires
            c > 0,
            b > 0,
    ;
    if a < w * b {
        nearest_scaled(a, b, c);
    } else {
        room_to_double(a, b, p);
        rounded_scaled(a, 2 * b, c, p);
        assert((2 * b) * c == 2 * (b * c)) by (nonlinear_arith);
    }
}

/// The rounded number, from the distance `2^s` of the numbers around it.
pub proof fn rounded_on_grid(a: nat, b: nat, s: nat, p: nat)
    requires
        b > 0,
        p > 0,
        a < pow2(s) * pow2(p) * b,
        s > 0 ==> pow2((s - 1) as nat) * pow2(p) * b <= a,
    ensures
        rounded(a, b, p) == s * pow2((p - 1) as nat) + nearest(a, pow2(s) * b),
    decreases s,
{
    lemma2_to64();
    let w = pow2(p);
    let h = pow2((p - 1) as nat);
    if s == 0 {
        assert(pow2(s) * w * b == w * b) by (nonlinear_arith)
            requires
                pow2(s) == 1,
        ;
        assert(pow2(s) * b == b) by (nonlinear_arith)
            requires
                pow2(s) == 1,
        ;
        assert(s * h == 0) by (nonlinear_arith)
            requires
                s == 0,
        ;
    } else {
        let t = (s - 1) as nat;
        lemma_pow2_unfold(s);
        lemma_pow2_pos(t);
        assert(w * b <= pow2(t) * w * b) by (nonlinear_arith)
            requires
                pow2(t) >= 1,
        ;
        assert(pow2(s) * w * b == pow2(t) * w * (2 * b) && pow2(s) * b == pow2(t) * (2 * b))
            by (nonlinear_arith)
            requires
                pow2(s) == 2 * pow2(t),
        ;
        if t > 0 {
            lemma_pow2_unfold(t);
            assert(pow2(t) * w * b == pow2((t - 1) as nat) * w * (2 * b)) by (nonlinear_arith)
                requires
                    pow2(t) == 2 * pow2((t - 1) as nat),
            ;
        }
        rounded_on_grid(a, 2 * b, t, p);
        assert(s * h == h + t * h) by (nonlinear_arith)
            requires
                s == t + 1,
        ;
    }
}

/// One more bit tells whether a division left a rest.
proof fn nearest_sticky(a: nat, b: nat, d: nat)
    requires
        b > 0,
        d > 0,
        d % 2 == 0,
    ensures
        nearest(a, b * d) == nearest(
            2 * (a / b) + (if a % b > 0 {
                1nat
            } else {
                0nat
            }),
            2 * d,
        ),
{
    let q = (a / b) as int;
    let r = (a % b) as int;
    let e = (d / 2) as int;
    let st = if r > 0 {
        1int
    } else {
        0int
    };
    assert(a == b * q + r) by {
        vstd::arithmetic::div_mod::lemma_fundamental_div_mod(a as int, b as int);
    }
    let u = q / d as int;
    let v = q % d as int;
    assert(q == d * u + v) by {
        vstd::arithmetic::div_mod::lemma_fundamental_div_mod(q, d as int);
    }
    let bd = b * d;
    let rest = b * v + r;
    assert(a == u * bd + rest && 0 <= rest < bd) by (nonlinear_arith)
        requires
            a == b * q + r,
            q == d * u + v,
            bd == b * d,
            rest == b * v + r,
            0 <= r < b,
            0 <= v < d,
    ;
    lemma_fundamental_div_mod_converse(a as int, bd as int, u, rest);
    let x = 2 * q + st;
    assert(x == u * (2 * d) + (2 * v + st)) by (nonlinear_arith)
        requires
            x == 2 * q + st,
            q == d * u + v,
    ;
    lemma_fundamental_div_mod_converse(x, (2 * d) as int, u, 2 * v + st);
    assert(bd == 2 * (b * e)) by (nonlinear_arith)
        requires
            bd == b * d,
            d == 2 * e,
    ;
    if v < e {
        assert(rest < b * e) by (nonlinear_arith)
            requires
                rest == b * v + r,
                r < b,
                v < e,
                b > 0,
        ;
    } else if v > e {
        assert(rest > b * e) by (nonlinear_arith)
            requires
                rest == b * v + r,
                r >= 0,
                v > e,
                b > 0,
        ;
    } else {
        assert(rest == b * e + r);
    }
}

/// A power of two.
pub fn two_to(n: u32) -> (r: u128)
    requires
        n < 128,
    ensures
        r == pow2(n as nat),
{
    let mut r: u128 = 1;
    let mut i: u32 = 0;
    proof {
        lemma2_to64();
    }
    while i < n
        invariant
            i <= n < 128,
            r == pow2(i as nat),
        decreases n - i,
    {
        proof {
            lemma_pow2_unfold((i + 1) as nat);
            pow2_fits((i + 1) as nat);
        }
        r = 2 * r;
        i += 1;
    }
    r
}

/// Powers of two below the 128th fit in 128 bits.
pub proof fn pow2_fits(n: nat)
    requires
        n < 128,
    ensures
        pow2(n) <= 0x8000_0000_0000_0000_0000_0000_0000_0000int,
{
    lemma2_to64();
    lemma2_to64_rest();
    lemma_pow2_adds(64, 63);
    if n < 127 {
        lemma_pow2_strictly_increases(n, 127);
    }
}

pub proof fn pow2_127()
    ensures
        pow2(127) == 0x8000_0000_0000_0000_0000_0000_0000_0000int,
{
    lemma2_to64();
    lemma2_to64_rest();
    lemma_pow2_adds(64, 63);
}

/// How many bits a number has.
fn bit_len(x: u128) -> (n: u32)
    requires
        x > 0,
    ensures
        1 <= n <= 128,
        pow2((n - 1) as nat) <= x < pow2(n as nat),
{
    let mut n: u32 = 0;
    let mut y: u128 = x;
    proof {
        lemma2_to64();
        lemma2_to64_rest();
        lemma_pow2_adds(64, 64);
        assert(y == x / 1);
    }
    while y > 1
        invariant
            n <= 127,
            y >= 1,
            y * pow2(n as nat) <= x < (y + 1) * pow2(n as nat),
            x < pow2(128),
        decreases y,
    {
        let ghost w = pow2(n as nat);
        proof {
            lemma_pow2_unfold((n + 1) as nat);
            lemma_pow2_pos(n as nat);
            let h = (y / 2) as int;
            assert(h * (2 * w) <= y * w && (y + 1) * w <= (h + 1) * (2 * w)) by (nonlinear_arith)
                requires
                    2 * h <= y <= 2 * h + 1,
                    w > 0,
            ;
            if n == 127 {
                lemma_pow2_unfold(128);
                assert(2 * w <= y * w) by (nonlinear_arith)
                    requires
                        y >= 2,
                        w > 0,
                ;
            }
        }
        y = y / 2;
        n += 1;
    }
    proof {
        lemma_pow2_unfold((n + 1) as nat);
        assert(y * pow2(n as nat) == pow2(n as nat)) by (nonlinear_arith)
            requires
                y == 1,
        ;
        assert((y + 1) * pow2(n as nat) == 2 * pow2(n as nat)) by (nonlinear_arith)
            requires
                y == 1,
        ;
    }
    n + 1
}

/// The integer nearest to `a / b`.
pub fn nearest_u128(a: u128, b: u128) -> (r: u128)
    requires
        b > 0,
        a <= 0x7fff_ffff_ffff_ffff_ffff_ffff_ffff_ffff,
    ensures
        r == nearest(a as nat, b as nat),
        r <= a + 1,
{
    let q: u128 = a / b;
    let r: u128 = a % b;
    assert(q <= a) by (nonlinear_arith)
        requires
            q == a / b,
            b > 0,
            a >= 0,
    ;
    let up: bool = r > b - r || (r == b - r && q % 2 != 0);
    if up {
        q + 1
    } else {
        q
    }
}

/// `rounded_at` of `a / b * 2^k`, from the same value written as
/// `x / b * 2^(u - v)`.
pub proof fn rounded_moved(a: nat, b: nat, k: int, p: nat, z: nat, u: nat, v: nat)
    requires
        b > 0,
        p > 0,
        u - v == k - z,
        u == 0 || v == 0,
    ensures
        rounded_at(a, b, k, p) == rounded(a * pow2(z) * pow2(u), b * pow2(v), p),
{
    lemma_pow2_pos(v);
    lemma_pow2_pos(z);
    lemma2_to64();
    if k >= 0 {
        let kk = k as nat;
        lemma_pow2_pos(kk);
        lemma_pow2_adds(kk, v);
        lemma_pow2_adds(z, u);
        assert(kk + v == z + u);
        rounded_scaled(a * pow2(kk), b, pow2(v), p);
        assert(a * pow2(kk) * pow2(v) == a * (pow2(kk) * pow2(v))) by (nonlinear_arith);
        assert(a * pow2(z) * pow2(u) == a * (pow2(z) * pow2(u))) by (nonlinear_arith);
    } else {
        let kk = (-k) as nat;
        lemma_pow2_pos(kk);
        assert(u == 0);
        lemma_pow2_adds(kk, z);
        assert(v == kk + z);
        assert(b * pow2(kk) > 0) by (nonlinear_arith)
            requires
                b > 0,
                pow2(kk) > 0,
        ;
        rounded_scaled(a, b * pow2(kk), pow2(z), p);
        assert(b * pow2(kk) * pow2(z) == b * (pow2(kk) * pow2(z))) by (nonlinear_arith);
        assert(a * pow2(z) * pow2(u) == a * pow2(z)) by (nonlinear_arith)
            requires
                pow2(u) == 1,
        ;
    }
}

/// The rounded number from the quotient `q` of `x / b` and whether it left a
/// rest, which together have `n` bits.
proof fn rounded_from_quotient(x: nat, b: nat, n: nat, u: nat, v: nat, s: nat, t: nat, p: nat)
    requires
        b > 0,
        p > 0,
        n >= 2,
        u == 0 || v == 0,
        t >= 2,
        t - 1 == s + v - u,
        pow2((n - 1) as nat) <= sticky(x, b) < pow2(n),
        n - 1 + u <= s + p + v,
        s > 0 ==> n - 1 + u == s + p + v,
    ensures
        rounded(x * pow2(u), b * pow2(v), p) == s * pow2((p - 1) as nat) + nearest(
            sticky(x, b),
            pow2(t),
        ),
{
    let q = x / b;
    let n1 = (n - 1) as nat;
    let n2 = (n - 2) as nat;
    lemma_pow2_unfold(n);
    lemma_pow2_unfold(n1);
    vstd::arithmetic::div_mod::lemma_fundamental_div_mod(x as int, b as int);
    lemma_pow2_pos(u);
    lemma_pow2_pos(v);
    lemma_pow2_pos(s);
    lemma_pow2_pos(p);
    // The value lies between b * 2^(n - 2) and b * 2^(n - 1).
    assert(pow2(n2) <= q < pow2(n1));
    assert(b * pow2(n2) <= x < b * pow2(n1)) by (nonlinear_arith)
        requires
            x == b * q + x % b,
            0 <= x % b < b,
            pow2(n2) <= q,
            q + 1 <= pow2(n1),
    ;
    let a = x * pow2(u);
    let bb = b * pow2(v);
    lemma_pow2_adds(n1, u);
    lemma_pow2_adds(s, p);
    lemma_pow2_adds(s + p, v);
    if n1 + u < s + p + v {
        lemma_pow2_strictly_increases(n1 + u, s + p + v);
    }
    let top = pow2(s + p + v);
    assert(pow2(s) * pow2(p) * bb == top * b) by (nonlinear_arith)
        requires
            bb == b * pow2(v),
            top == pow2(s + p) * pow2(v),
            pow2(s + p) == pow2(s) * pow2(p),
    ;
    assert(a < top * b) by (nonlinear_arith)
        requires
            a == x * pow2(u),
            x < b * pow2(n1),
            pow2(n1 + u) == pow2(n1) * pow2(u),
            pow2(n1 + u) <= top,
            pow2(u) > 0,
            b > 0,
    ;
    if s > 0 {
        let s1 = (s - 1) as nat;
        lemma_pow2_adds(n2, u);
        lemma_pow2_adds(s1, p);
        lemma_pow2_adds(s1 + p, v);
        assert(n2 + u == s1 + p + v);
        let low = pow2(s1 + p + v);
        assert(pow2(s1) * pow2(p) * bb == low * b) by (nonlinear_arith)
            requires
                bb == b * pow2(v),
                low == pow2(s1 + p) * pow2(v),
                pow2(s1 + p) == pow2(s1) * pow2(p),
        ;
        assert(low * b <= a) by (nonlinear_arith)
            requires
                a == x * pow2(u),
                b * pow2(n2) <= x,
                low == pow2(n2) * pow2(u),
        ;
    }
    assert(bb > 0) by (nonlinear_arith)
        requires
            bb == b * pow2(v),
            b > 0,
            pow2(v) > 0,
    ;
    rounded_on_grid(a, bb, s, p);
    // The divisor is b * 2^(t - 1), and the factor 2^u falls out.
    let d = pow2((t - 1) as nat);
    lemma_pow2_unfold(t);
    lemma_pow2_unfold((t - 1) as nat);
    lemma_pow2_pos((t - 1) as nat);
    lemma_pow2_adds(s, v);
    lemma_pow2_adds((t - 1) as nat, u);
    assert(s + v == t - 1 + u);
    assert(pow2(s) * bb == b * d * pow2(u)) by (nonlinear_arith)
        requires
            bb == b * pow2(v),
            pow2(s + v) == pow2(s) * pow2(v),
            pow2(s + v) == d * pow2(u),
    ;
    assert(b * d > 0) by (nonlinear_arith)
        requires
            b > 0,
            d > 0,
    ;
    nearest_scaled(x, b * d, pow2(u));
    nearest_sticky(x, b, d);
}

/// Twice the quotient, and one more where the division leaves a rest.
pub open spec fn sticky(a: nat, b: nat) -> nat {
    2 * (a / b) + (if a % b > 0 {
        1nat
    } else {
        0nat
    })
}

/// The magnitude bits of the floating-point number nearest to `a / b * 2^k`
/// in units of the least positive number, with significands of `p` bits.
pub fn round_ratio(a: u128, b: u64, k: i32, p: u32) -> (r: u128)
    requires
        a < 0x4000_0000_0000_0000_0000_0000_0000_0000,
        b > 0,
        1 <= p <= 53,
        -10000 <= k <= 10000,
    ensures
        r == rounded_at(a as nat, b as nat, k as int, p as nat),
{
    proof {
        lemma2_to64();
        lemma2_to64_rest();
    }
    if a == 0 {
        proof {
            rounded_zero(b as nat, k as int, p as nat);
        }
        return 0;
    }
    let l: u32 = bit_len(a);
    proof {
        lemma_pow2_adds(63, 63);
        if l > 127 {
            lemma_pow2_strictly_increases(126, (l - 1) as nat);
        }
    }
    let z: u32 = 126 - l;
    let w: u128 = two_to(z);
    proof {
        lemma_pow2_adds(l as nat, z as nat);
        lemma_pow2_adds((l - 1) as nat, z as nat);
        lemma_pow2_pos(z as nat);
        assert(pow2(125) <= a * w < pow2(126)) by (nonlinear_arith)
            requires
                pow2((l - 1) as nat) <= a < pow2(l as nat),
                w == pow2(z as nat),
                w > 0,
                pow2(125) == pow2((l - 1) as nat) * pow2(z as nat),
                pow2(126) == pow2(l as nat) * pow2(z as nat),
        ;
        lemma_pow2_adds(63, 63);
        lemma_pow2_adds(61, 64);
    }
    let x: u128 = a * w;
    let q: u128 = x / (b as u128);
    let rest: u128 = x % (b as u128);
    proof {
        vstd::arithmetic::div_mod::lemma_fundamental_div_mod(x as int, b as int);
        assert(pow2(61) <= q <= x) by (nonlinear_arith)
            requires
                x == b * q + rest,
                0 <= rest < b,
                b <= 0xffff_ffff_ffff_ffff,
                x >= pow2(61) * 0x1_0000_0000_0000_0000,
                b > 0,
        ;
    }
    let full: u128 = if rest > 0 {
        2 * q + 1
    } else {
        2 * q
    };
    proof {
        lemma_pow2_unfold(127);
        lemma_pow2_unfold(62);
        rounded_moved(
            a as nat,
            b as nat,
            k as int,
            p as nat,
            z as nat,
            up(k - z),
            down(k - z),
        );
    }
    round_quotient(full, k - z as i32, p, Ghost(x as nat), Ghost(b as nat))
}

/// An exponent's part above zero.
pub open spec fn up(k: int) -> nat {
    if k >= 0 {
        k as nat
    } else {
        0
    }
}

/// An exponent's part below zero.
pub open spec fn down(k: int) -> nat {
    if k >= 0 {
        0
    } else {
        (-k) as nat
    }
}

/// The rounded number of `x / b * 2^k`, from the quotient of `x` and `b` and
/// whether it leaves a rest.
pub(crate) fn round_quotient(full: u128, k: i32, p: u32, Ghost(x): Ghost<nat>, Ghost(b): Ghost<nat>) -> (r:
    u128)
    requires
        b > 0,
        full == sticky(x, b),
        0x4000_0000_0000_0000 <= full < 0x8000_0000_0000_0000_0000_0000_0000_0000,
        1 <= p <= 53,
        -11000 <= k <= 11000,
    ensures
        r == rounded(x * pow2(up(k as int)), b * pow2(down(k as int)), p as nat),
{
    proof {
        lemma2_to64();
        lemma2_to64_rest();
        pow2_127();
    }
    let n: u32 = bit_len(full);
    proof {
        if n > 127 {
            assert(n == 128);
        }
        if n < 63 {
            if n < 62 {
                lemma_pow2_strictly_increases(n as nat, 62);
            }
        }
    }
    let j: i32 = k - 1;
    let over: i32 = n as i32 + j - p as i32;
    let s: i32 = if over > 0 {
        over
    } else {
        0
    };
    let t: i32 = s - j;
    let m: u128 = if t > n as i32 {
        proof {
            lemma_pow2_unfold(t as nat);
            if n < t - 1 {
                lemma_pow2_strictly_increases(n as nat, (t - 1) as nat);
            }
            vstd::arithmetic::div_mod::lemma_small_mod(full as nat, pow2(t as nat));
            vstd::arithmetic::div_mod::lemma_basic_div(full as int, pow2(t as nat) as int);
        }
        0
    } else {
        let d: u128 = two_to(t as u32);
        proof {
            lemma_pow2_pos(t as nat);
        }
        nearest_u128(full, d)
    };
    proof {
        rounded_from_quotient(
            x,
            b,
            n as nat,
            up(k as int),
            down(k as int),
            s as nat,
            t as nat,
            p as nat,
        );
    }
    let h: u128 = two_to(p - 1);
    proof {
        if p - 1 < 52 {
            lemma_pow2_strictly_increases((p - 1) as nat, 52);
        }
        assert(0 <= s * h <= 20000 * 0x10_0000_0000_0000) by (nonlinear_arith)
            requires
                0 <= s <= 20000,
                0 <= h <= 0x10_0000_0000_0000,
        ;
    }
    s as u128 * h + m
}

/// A number of at least `2^(t + p - 1)` is not rounded below it.
pub proof fn rounded_at_least(a: nat, b: nat, t: nat, p: nat)
    requires
        b > 0,
        p > 0,
        pow2(t) * pow2((p - 1) as nat) * b <= a,
    ensures
        rounded(a, b, p) >= (t + 1) * pow2((p - 1) as nat),
    decreases a - b,
{
    let h = pow2((p - 1) as nat);
    lemma_pow2_unfold(p);
    lemma2_to64();
    if a < pow2(p) * b {
        if t > 0 {
            lemma_pow2_unfold(t);
            lemma_pow2_pos((t - 1) as nat);
            assert(pow2(t) * h * b >= 2 * h * b) by (nonlinear_arith)
                requires
                    pow2(t) >= 2,
            ;
        }
        assert(t == 0);
        assert(h * b <= a) by (nonlinear_arith)
            requires
                pow2(t) * h * b <= a,
                pow2(t) == 1,
        ;
        assert(a / b >= h) by (nonlinear_arith)
            requires
                h * b <= a,
                b > 0,
        ;
        assert((t + 1) * h == h) by (nonlinear_arith)
            requires
                t == 0,
        ;
    } else {
        room_to_double(a, b, p);
        let u = if t > 0 {
            (t - 1) as nat
        } else {
            0nat
        };
        if t > 0 {
            lemma_pow2_unfold(t);
            assert(pow2(u) * h * (2 * b) == pow2(t) * h * b) by (nonlinear_arith)
                requires
                    pow2(t) == 2 * pow2(u),
            ;
        } else {
            assert(pow2(u) * h * (2 * b) == pow2(p) * b) by (nonlinear_arith)
                requires
                    pow2(u) == 1,
                    pow2(p) == 2 * h,
            ;
        }
        rounded_at_least(a, 2 * b, u, p);
        assert((t + 1) * h <= h + (u + 1) * h) by (nonlinear_arith)
            requires
                t <= u + 1,
        ;
    }
}

/// A number below `2^(t + p)` is not rounded above it.
pub proof fn rounded_at_most(a: nat, b: nat, t: nat, p: nat)
    requires
        b > 0,
        p > 0,
        a < pow2(t) * pow2(p) * b,
    ensures
        rounded(a, b, p) <= (t + 2) * pow2((p - 1) as nat),
    decreases t,
{
    let h = pow2((p - 1) as nat);
    let w = pow2(p);
    lemma_pow2_unfold(p);
    lemma2_to64();
    if a < w * b {
        assert(a / b < w) by (nonlinear_arith)
            requires
                a < w * b,
                b > 0,
        ;
        assert((t + 2) * h >= 2 * h) by (nonlinear_arith);
    } else {
        if t == 0 {
            assert(pow2(t) * w * b == w * b) by (nonlinear_arith)
                requires
                    pow2(t) == 1,
            ;
        }
        let u = (t - 1) as nat;
        lemma_pow2_unfold(t);
        assert(pow2(u) * w * (2 * b) == pow2(t) * w * b) by (nonlinear_arith)
            requires
                pow2(t) == 2 * pow2(u),
        ;
        rounded_at_most(a, 2 * b, u, p);
        assert((t + 2) * h == h + (u + 2) * h) by (nonlinear_arith)
            requires
                t == u + 1,
        ;
    }
}

/// Nothing rounds to nothing.
pub proof fn rounded_zero(b: nat, k: int, p: nat)
    requires
        b > 0,
        p > 0,
    ensures
        rounded_at(0, b, k, p) == 0,
{
    lemma_pow2_pos(p);
    if k >= 0 {
        assert(0 * pow2(k as nat) == 0) by (nonlinear_arith);
        assert(pow2(p) * b > 0) by (nonlinear_arith)
            requires
                pow2(p) > 0,
                b > 0,
        ;
        vstd::arithmetic::div_mod::lemma_small_mod(0, b);
        vstd::arithmetic::div_mod::lemma_basic_div(0, b as int);
    } else {
        let d = b * pow2((-k) as nat);
        lemma_pow2_pos((-k) as nat);
        assert(d > 0) by (nonlinear_arith)
            requires
                d == b * pow2((-k) as nat),
                b > 0,
                pow2((-k) as nat) > 0,
        ;
        assert(pow2(p) * d > 0) by (nonlinear_arith)
            requires
                pow2(p) > 0,
                d > 0,
        ;
        vstd::arithmetic::div_mod::lemma_small_mod(0, d);
        vstd::arithmetic::div_mod::lemma_basic_div(0, d as int);
    }
}

} // verus!
