//! The normalized Walsh-Hadamard transform of singles.

use crate::ieee::convert::{divide_single, single_over};
use crate::ieee::sum::{add_single, single_difference, single_sum, subtract_single};
use vstd::arithmetic::div_mod::lemma_fundamental_div_mod_converse;
use vstd::arithmetic::power2::{
    lemma2_to64, lemma_pow2_adds, lemma_pow2_pos, lemma_pow2_strictly_increases, lemma_pow2_unfold,
    pow2,
};
use vstd::prelude::*;

verus! {

/// The exponent of the largest power of two that is at most `n`, zero for
/// zero.
pub open spec fn floor_log2(n: nat) -> nat
    decreases n,
{
    if n <= 1 {
        0
    } else {
        1 + floor_log2(n / 2)
    }
}

/// Between which powers of two a number lies.
pub proof fn floor_log2_bounds(n: nat)
    requires
        n > 0,
    ensures
        pow2(floor_log2(n)) <= n < 2 * pow2(floor_log2(n)),
    decreases n,
{
    lemma2_to64();
    if n > 1 {
        floor_log2_bounds(n / 2);
        lemma_pow2_unfold(floor_log2(n));
    }
}

/// Which exponent belongs to a number between two powers of two.
proof fn floor_log2_is(n: nat, k: nat)
    requires
        pow2(k) <= n < 2 * pow2(k),
    ensures
        floor_log2(n) == k,
{
    lemma_pow2_pos(k);
    floor_log2_bounds(n);
    let f = floor_log2(n);
    if f < k {
        lemma_pow2_unfold(k);
        if f < k - 1 {
            lemma_pow2_strictly_increases(f, (k - 1) as nat);
        }
    } else if f > k {
        lemma_pow2_unfold(f);
        if k < f - 1 {
            lemma_pow2_strictly_increases(k, (f - 1) as nat);
        }
    }
}

/// Whether a number is a power of two.
pub open spec fn is_power_of_two(n: nat) -> bool {
    n == pow2(floor_log2(n))
}

/// The largest power of two that is at most `n`, one for zero.
pub fn largest_pow2_le(n: usize) -> (d: usize)
    ensures
        d == pow2(floor_log2(n as nat)),
        is_power_of_two(d as nat),
        n > 0 ==> d <= n < 2 * d,
{
    let mut d: usize = 1;
    let ghost mut k: nat = 0;
    proof {
        lemma2_to64();
    }
    while d <= n / 2
        invariant
            d == pow2(k),
            d >= 1,
            n > 0 ==> d <= n,
            n == 0 ==> k == 0,
        decreases n - d,
    {
        d = 2 * d;
        proof {
            k = k + 1;
            lemma_pow2_unfold(k);
        }
    }
    proof {
        floor_log2_is(d as nat, k);
        if n > 0 {
            floor_log2_is(n as nat, k);
        }
    }
    d
}

/// One level of butterflies over pairs at distance `h`: sums in the first
/// half of each group of `2 * h`, differences in the second.
pub open spec fn butterfly(row: Seq<u32>, h: nat) -> Seq<u32> {
    Seq::new(
        row.len(),
        |j: int|
            if j % (2 * h as int) < h {
                single_sum(row[j], row[j + h])
            } else {
                single_difference(row[j - h], row[j])
            },
    )
}

/// The levels from distance `h` on.
pub open spec fn butterflies(row: Seq<u32>, h: nat) -> Seq<u32>
    decreases (if h < row.len() {
        row.len() - h
    } else {
        0
    }),
{
    if h == 0 || h >= row.len() {
        row
    } else {
        butterflies(butterfly(row, h), 2 * h)
    }
}

/// The single nearest to the square root of `2^k`: a power of two for even
/// `k`, else the square root of two times one.
pub open spec fn root_of_pow2(k: nat) -> u32 {
    ((127 + k / 2) * 0x80_0000 + (if k % 2 == 0 {
        0int
    } else {
        0x35_04f3
    })) as u32
}

/// The normalized transform of a row whose length is a power of two.
pub open spec fn walsh_hadamard(row: Seq<u32>) -> Seq<u32> {
    let norm = root_of_pow2(floor_log2(row.len()));
    butterflies(row, 1).map_values(|x: u32| single_over(x, norm))
}

/// Where an element stands in its group.
proof fn place_in_group(i: int, t: int, g: int)
    requires
        g > 0,
        i % g == 0,
        0 <= t < g,
    ensures
        (i + t) % g == t,
{
    let m = i / g;
    vstd::arithmetic::div_mod::lemma_fundamental_div_mod(i, g);
    assert(m * g == g * m) by (nonlinear_arith);
    lemma_fundamental_div_mod_converse(i + t, g, m, t);
}

/// The start of a group leaves room for it.
proof fn group_fits(i: int, g: int, d: int)
    requires
        g > 0,
        i % g == 0,
        d % g == 0,
        0 <= i < d,
    ensures
        i + g <= d,
        (i + g) % g == 0,
{
    let m = i / g;
    let c = d / g;
    vstd::arithmetic::div_mod::lemma_fundamental_div_mod(i, g);
    vstd::arithmetic::div_mod::lemma_fundamental_div_mod(d, g);
    assert(m < c && i + g <= d) by (nonlinear_arith)
        requires
            i == g * m,
            d == g * c,
            i < d,
            g > 0,
    ;
    assert((m + 1) * g == i + g) by (nonlinear_arith)
        requires
            i == g * m,
    ;
    lemma_fundamental_div_mod_converse(i + g, g, m + 1, 0);
}

/// A smaller power of two divides a larger one.
proof fn powers_divide(k: nat, l: nat)
    requires
        l <= k,
    ensures
        pow2(k) % pow2(l) == 0,
        pow2(l) > 0,
{
    lemma_pow2_pos(l);
    lemma_pow2_adds(l, (k - l) as nat);
    let c = pow2((k - l) as nat);
    assert(c * pow2(l) == pow2(l) * c) by (nonlinear_arith);
    lemma_fundamental_div_mod_converse(pow2(k) as int, pow2(l) as int, c as int, 0);
}

/// One level of butterflies.
fn apply_butterfly(row: &mut Vec<u32>, h: usize)
    requires
        h > 0,
        2 * h <= old(row)@.len(),
        old(row)@.len() % (2 * h as nat) == 0,
    ensures
        final(row)@ == butterfly(old(row)@, h as nat),
{
    let ghost before = row@;
    let ghost want = butterfly(before, h as nat);
    let d: usize = row.len();
    let ghost g = 2 * h as int;
    let mut i: usize = 0;
    proof {
        vstd::arithmetic::div_mod::lemma_small_mod(0, g as nat);
    }
    while i < d
        invariant
            h > 0,
            g == 2 * h as int,
            g <= d,
            d as int % g == 0,
            i <= d,
            i as int % g == 0,
            row@.len() == d,
            before.len() == d,
            want == butterfly(before, h as nat),
            forall|k: int| 0 <= k < i ==> #[trigger] row@[k] == want[k],
            forall|k: int| i <= k < d ==> #[trigger] row@[k] == before[k],
        decreases d - i,
    {
        proof {
            group_fits(i as int, g, d as int);
        }
        let mut j: usize = i;
        while j < i + h
            invariant
                h > 0,
                g == 2 * h as int,
                i + g <= d,
                i as int % g == 0,
                i <= j <= i + h,
                row@.len() == d,
                before.len() == d,
                want == butterfly(before, h as nat),
                forall|k: int| 0 <= k < j ==> #[trigger] row@[k] == want[k],
                forall|k: int| j <= k < i + h ==> #[trigger] row@[k] == before[k],
                forall|k: int| i + h <= k < j + h ==> #[trigger] row@[k] == want[k],
                forall|k: int| j + h <= k < d ==> #[trigger] row@[k] == before[k],
            decreases i + h - j,
        {
            let a: u32 = row[j];
            let b: u32 = row[j + h];
            proof {
                place_in_group(i as int, j - i, g);
                place_in_group(i as int, j - i + h, g);
            }
            row.set(j, add_single(a, b));
            row.set(j + h, subtract_single(a, b));
            j += 1;
        }
        i = i + 2 * h;
    }
    assert(row@ =~= want);
}

/// In-place normalized fast Walsh-Hadamard transform of one row.
pub fn walsh_hadamard_row(row: &mut Vec<u32>)
    requires
        is_power_of_two(old(row)@.len()),
    ensures
        final(row)@ == walsh_hadamard(old(row)@),
        final(row)@.len() == old(row)@.len(),
{
    let ghost start = row@;
    let d: usize = row.len();
    let ghost k = floor_log2(d as nat);
    let mut h: usize = 1;
    let mut levels: u32 = 0;
    proof {
        lemma2_to64();
    }
    while h < d
        invariant
            d == row@.len(),
            d == start.len(),
            d == pow2(k),
            h == pow2(levels as nat),
            levels <= k,
            h <= d,
            levels < 0x8000_0000,
            levels <= h,
            butterflies(start, 1) == butterflies(row@, h as nat),
        decreases d - h,
    {
        proof {
            let l = levels as nat;
            if l >= k {
                if l > k {
                    lemma_pow2_strictly_increases(k, l);
                }
            }
            lemma_pow2_unfold(l + 1);
            powers_divide(k, l + 1);
            vstd::arithmetic::div_mod::lemma_fundamental_div_mod(d as int, 2 * h as int);
            if l + 1 < k {
                lemma_pow2_strictly_increases(l + 1, k);
            }
            levels_are_few(l + 1, d as nat);
        }
        apply_butterfly(row, h);
        h = 2 * h;
        levels += 1;
    }
    proof {
        if (levels as nat) < k {
            lemma_pow2_strictly_increases(levels as nat, k);
        }
        levels_are_few(k, d as nat);
    }
    let norm: u32 = (127 + levels / 2) * 0x80_0000 + (if levels % 2 == 0 {
        0
    } else {
        0x35_04f3
    });
    let ghost turned = row@;
    let mut i: usize = 0;
    while i < d
        invariant
            i <= d,
            d == row@.len(),
            d == turned.len(),
            forall|j: int| 0 <= j < i ==> #[trigger] row@[j] == single_over(turned[j], norm),
            forall|j: int| i <= j < d ==> #[trigger] row@[j] == turned[j],
        decreases d - i,
    {
        let x: u32 = row[i];
        row.set(i, divide_single(x, norm));
        i += 1;
    }
    assert(row@ =~= walsh_hadamard(start));
}

/// A power of two within the range of lengths has a small exponent.
proof fn levels_are_few(k: nat, d: nat)
    requires
        pow2(k) <= d <= usize::MAX,
    ensures
        k < 64,
{
    lemma2_to64();
    vstd::arithmetic::power2::lemma2_to64_rest();
    if k >= 64 {
        if k > 64 {
            lemma_pow2_strictly_increases(64, k);
        }
        assert(pow2(64) == 0x1_0000_0000_0000_0000);
    }
}

} // verus!
