//! The elements of a tensor: their largest magnitudes, scales, and casts.

use crate::fp::{bf16_half, bf16_single, bf16_to_f32, f32_to_f16_bits, is_half_table};
use crate::ieee::convert::{
    divide_single, double_nan, double_negative, double_of_single, double_to_single, half_of_single,
    magnitude_of, single_magnitude, single_of_double, single_over, single_to_double, DOUBLE_ONE,
    HALF_INFINITY, SINGLE_INFINITY, SINGLE_ONE,
};
use crate::ieee::decimal::{g6, g6_text};
use crate::le::{le_bytes, le_bytes_len, put_le};
use crate::quant::{blocks, blocks_next};
use crate::recast::wht::{is_power_of_two, walsh_hadamard, walsh_hadamard_row};
use vstd::prelude::*;
use vstd::slice::slice_subrange;

verus! {

/// The double 65504, the largest finite half.
pub const FP16_MAX: u64 = 0x40ef_fc00_0000_0000;

/// The double 32768.
pub const FP16_HALF_RANGE: u64 = 0x40e0_0000_0000_0000;

/// The single 65504, the largest finite half.
pub const FP16_MAX_SINGLE: u32 = 0x477f_e000;

/// The single 30000, to which the largest element is scaled.
pub const TARGET_SINGLE: u32 = 0x46ea_6000;

/// The number 30000, to which the largest element is scaled.
pub const TARGET: u64 = 30000;

/// The single 1e-30, the least scale.
pub const LEAST_SCALE_SINGLE: u32 = 0x0da2_4260;

/// The double 1e-30, the least scale.
pub const LEAST_SCALE: u64 = 0x39b4_484b_feeb_c2a0;

/// How the largest magnitude of a tensor lies in the range of FP16.
#[derive(Debug, Clone, Copy, PartialEq, Eq, Structural)]
pub enum Band {
    /// Up to half the range.
    A,
    /// Up to the whole range.
    B,
    /// Beyond the range, or not a number.
    C,
    /// Not looked at.
    Untouched,
}

impl Band {
    /// The name of a band.
    pub open spec fn text(self) -> Seq<char> {
        match self {
            Band::A => "A"@,
            Band::B => "B"@,
            Band::C => "C"@,
            Band::Untouched => "-"@,
        }
    }

    /// The name of a band.
    pub fn name(self) -> (r: &'static str)
        ensures
            r@ == self.text(),
    {
        match self {
            Band::A => "A",
            Band::B => "B",
            Band::C => "C",
            Band::Untouched => "-",
        }
    }
}

/// The band of a largest magnitude, given as a double. Doubles that are not
/// negative are ordered as their bits; what is not a number is in no range.
pub open spec fn band_of(absmax: u64) -> Band {
    if double_nan(absmax) {
        Band::C
    } else if double_negative(absmax) || absmax <= FP16_HALF_RANGE {
        Band::A
    } else if absmax <= FP16_MAX {
        Band::B
    } else {
        Band::C
    }
}

/// The band of a largest magnitude.
pub fn classify_band(absmax: u64) -> (r: Band)
    ensures
        r == band_of(absmax),
{
    let field: u64 = absmax / 0x10_0000_0000_0000 % 0x800;
    let fraction: u64 = absmax % 0x10_0000_0000_0000;
    if field == 0x7ff && fraction != 0 {
        Band::C
    } else if absmax >= 0x8000_0000_0000_0000 || absmax <= FP16_HALF_RANGE {
        Band::A
    } else if absmax <= FP16_MAX {
        Band::B
    } else {
        Band::C
    }
}

/// A double to six significant digits.
pub fn fmt_g6(x: u64) -> (r: String)
    ensures
        r@ == g6_text(x),
{
    g6(x)
}

/// The largest of some BF16 values without their signs, by their bits.
pub open spec fn largest_bits(elems: Seq<u16>) -> u16
    decreases elems.len(),
{
    if elems.len() == 0 {
        0
    } else {
        let rest = largest_bits(elems.drop_last());
        let last = elems.last() % 0x8000;
        if last > rest {
            last
        } else {
            rest
        }
    }
}

/// The largest magnitude of some BF16 values, as a double.
pub open spec fn absmax_of(elems: Seq<u16>) -> u64 {
    double_of_single(bf16_single(largest_bits(elems)))
}

/// The largest of some BF16 values without their signs is none smaller than
/// any of them, and one of them.
pub proof fn largest_bits_is_largest(elems: Seq<u16>)
    ensures
        forall|i: int| 0 <= i < elems.len() ==> #[trigger] elems[i] % 0x8000 <= largest_bits(elems),
        elems.len() > 0 ==> exists|i: int|
            0 <= i < elems.len() && #[trigger] elems[i] % 0x8000 == largest_bits(elems),
        largest_bits(elems) < 0x8000,
    decreases elems.len(),
{
    if elems.len() > 0 {
        let front = elems.drop_last();
        let n = elems.len() - 1;
        largest_bits_is_largest(front);
        assert forall|i: int| 0 <= i < elems.len() implies #[trigger] elems[i] % 0x8000
            <= largest_bits(elems) by {
            if i < n {
                assert(elems[i] == front[i]);
            }
        }
        if elems[n] % 0x8000 > largest_bits(front) || front.len() == 0 {
            assert(elems[n] % 0x8000 == largest_bits(elems));
        } else {
            let i = choose|i: int|
                0 <= i < front.len() && #[trigger] front[i] % 0x8000 == largest_bits(front);
            assert(elems[i] % 0x8000 == largest_bits(elems));
        }
    }
}

/// The largest magnitude of some BF16 values, as a double.
pub fn bf16_absmax(elems: &[u16]) -> (r: u64)
    ensures
        r == absmax_of(elems@),
{
    let mut max: u16 = 0;
    let mut i: usize = 0;
    assert(elems@.take(0) =~= Seq::empty());
    while i < elems.len()
        invariant
            i <= elems@.len(),
            max == largest_bits(elems@.take(i as int)),
        decreases elems@.len() - i,
    {
        assert(elems@.take(i + 1).drop_last() =~= elems@.take(i as int));
        let b: u16 = elems[i] % 0x8000;
        if b > max {
            max = b;
        }
        i += 1;
    }
    assert(elems@.take(i as int) =~= elems@);
    single_to_double(bf16_to_f32(max))
}

/// The largest magnitude of some singles, without those that are not a
/// number.
pub open spec fn largest_single(values: Seq<u32>) -> u32
    decreases values.len(),
{
    if values.len() == 0 {
        0
    } else {
        let rest = largest_single(values.drop_last());
        let last = single_magnitude(values.last());
        if rest < last <= SINGLE_INFINITY {
            last
        } else {
            rest
        }
    }
}

/// The largest magnitude of some singles.
fn single_absmax(values: &[u32]) -> (r: u32)
    ensures
        r == largest_single(values@),
{
    let mut max: u32 = 0;
    let mut i: usize = 0;
    assert(values@.take(0) =~= Seq::empty());
    while i < values.len()
        invariant
            i <= values@.len(),
            max == largest_single(values@.take(i as int)),
        decreases values@.len() - i,
    {
        assert(values@.take(i + 1).drop_last() =~= values@.take(i as int));
        let m: u32 = magnitude_of(values[i]);
        if m > max && m <= SINGLE_INFINITY {
            max = m;
        }
        i += 1;
    }
    assert(values@.take(i as int) =~= values@);
    max
}

/// BF16 values as singles.
pub open spec fn singles_of(elems: Seq<u16>) -> Seq<u32> {
    elems.map_values(|b: u16| bf16_single(b))
}

/// BF16 values as singles.
pub fn widen_all(elems: &[u16]) -> (r: Vec<u32>)
    ensures
        r@ == singles_of(elems@),
{
    let mut r: Vec<u32> = Vec::new();
    let mut i: usize = 0;
    while i < elems.len()
        invariant
            i <= elems@.len(),
            r@.len() == i,
            forall|k: int| 0 <= k < i ==> #[trigger] r@[k] == bf16_single(elems@[k]),
        decreases elems@.len() - i,
    {
        r.push(bf16_to_f32(elems[i]));
        i += 1;
    }
    assert(r@ =~= singles_of(elems@));
    r
}

/// The larger of two bit patterns.
pub open spec fn larger(a: int, b: int) -> int {
    if a > b {
        a
    } else {
        b
    }
}

/// The scale of a row with this largest magnitude.
pub open spec fn row_scale(absmax: u32, force_rescale: bool) -> u32 {
    if force_rescale {
        larger(
            single_over(absmax, TARGET_SINGLE) as int,
            LEAST_SCALE_SINGLE as int,
        ) as u32
    } else if absmax > FP16_MAX_SINGLE {
        single_over(absmax, TARGET_SINGLE)
    } else {
        SINGLE_ONE
    }
}

/// Row `r` of a matrix.
pub open spec fn row_of(elems: Seq<u16>, in_dim: nat, r: int) -> Seq<u16> {
    elems.subrange(r * in_dim, r * in_dim + in_dim)
}

/// The scales of the rows of a matrix.
pub open spec fn row_scales(elems: Seq<u16>, in_dim: nat, force_rescale: bool) -> Seq<u32> {
    Seq::new(
        elems.len() / in_dim,
        |r: int|
            row_scale(largest_single(singles_of(row_of(elems, in_dim, r))), force_rescale),
    )
}

/// A row lies within its matrix.
pub proof fn row_within(n: int, in_dim: int, r: int)
    requires
        in_dim > 0,
        0 <= r < n / in_dim,
    ensures
        0 <= r * in_dim,
        r * in_dim + in_dim <= n,
{
    vstd::arithmetic::div_mod::lemma_fundamental_div_mod(n, in_dim);
    assert(r * in_dim + in_dim <= n && 0 <= r * in_dim) by (nonlinear_arith)
        requires
            n >= in_dim * (n / in_dim),
            0 <= r < n / in_dim,
            in_dim > 0,
    ;
}

/// The scales of the rows of a matrix.
pub fn t4_row_scales(elems: &[u16], in_dim: usize, force_rescale: bool) -> (r: Vec<u32>)
    requires
        in_dim > 0,
    ensures
        r@ == row_scales(elems@, in_dim as nat, force_rescale),
{
    let n: usize = elems.len();
    let rows: usize = n / in_dim;
    let mut scales: Vec<u32> = Vec::new();
    let mut r: usize = 0;
    while r < rows
        invariant
            in_dim > 0,
            r <= rows,
            rows == elems@.len() / in_dim as nat,
            elems@.len() <= usize::MAX,
            scales@.len() == r,
            forall|k: int|
                0 <= k < r ==> #[trigger] scales@[k] == row_scale(
                    largest_single(singles_of(row_of(elems@, in_dim as nat, k))),
                    force_rescale,
                ),
        decreases rows - r,
    {
        proof {
            row_within(elems@.len() as int, in_dim as int, r as int);
        }
        let start: usize = r * in_dim;
        let row = slice_subrange(elems, start, start + in_dim);
        let absmax: u32 = single_absmax(widen_all(row).as_slice());
        let s: u32 = if force_rescale {
            let q: u32 = divide_single(absmax, TARGET_SINGLE);
            if q > LEAST_SCALE_SINGLE {
                q
            } else {
                LEAST_SCALE_SINGLE
            }
        } else if absmax > FP16_MAX_SINGLE {
            divide_single(absmax, TARGET_SINGLE)
        } else {
            SINGLE_ONE
        };
        scales.push(s);
        r += 1;
    }
    assert(scales@ =~= row_scales(elems@, in_dim as nat, force_rescale));
    scales
}

/// How many scales are not one.
pub open spec fn scaled_count(scales: Seq<u32>) -> nat
    decreases scales.len(),
{
    if scales.len() == 0 {
        0
    } else {
        scaled_count(scales.drop_last()) + (if scales.last() != SINGLE_ONE {
            1nat
        } else {
            0
        })
    }
}

/// How many scales are not one.
pub fn count_scaled(scales: &[u32]) -> (n: usize)
    ensures
        n == scaled_count(scales@),
        n <= scales@.len(),
{
    let mut n: usize = 0;
    let mut i: usize = 0;
    assert(scales@.take(0) =~= Seq::empty());
    while i < scales.len()
        invariant
            i <= scales@.len(),
            n <= i,
            n == scaled_count(scales@.take(i as int)),
        decreases scales@.len() - i,
    {
        assert(scales@.take(i + 1).drop_last() =~= scales@.take(i as int));
        if scales[i] != SINGLE_ONE {
            n += 1;
        }
        i += 1;
    }
    assert(scales@.take(i as int) =~= scales@);
    n
}

/// The first `d` elements of each row of a matrix transformed.
pub open spec fn rotated(values: Seq<u32>, in_dim: nat, d: nat) -> Seq<u32> {
    Seq::new(
        values.len(),
        |i: int|
            {
                let r = i / in_dim as int;
                if r < values.len() / in_dim && (i % in_dim as int) < d {
                    walsh_hadamard(
                        values.subrange(r * in_dim, r * in_dim + d),
                    )[i % in_dim as int]
                } else {
                    values[i]
                }
            },
    )
}

/// Where an element of a row stands.
proof fn place_in_row(r: int, c: int, in_dim: int)
    requires
        in_dim > 0,
        0 <= c < in_dim,
    ensures
        (r * in_dim + c) / in_dim == r,
        (r * in_dim + c) % in_dim == c,
{
    vstd::arithmetic::div_mod::lemma_fundamental_div_mod_converse(r * in_dim + c, in_dim, r, c);
}

/// Transform the first `d` elements of each row of a matrix.
pub fn rotate_rows(values: &mut Vec<u32>, in_dim: usize, d: usize)
    requires
        in_dim > 0,
        0 < d <= in_dim,
        is_power_of_two(d as nat),
    ensures
        final(values)@ == rotated(old(values)@, in_dim as nat, d as nat),
{
    let ghost before = values@;
    let ghost want = rotated(before, in_dim as nat, d as nat);
    let ghost n = before.len() as int;
    let rows: usize = values.len() / in_dim;
    let mut r: usize = 0;
    assert(0 * in_dim == 0);
    while r < rows
        invariant
            0 < d <= in_dim,
            is_power_of_two(d as nat),
            n == before.len(),
            values@.len() == n,
            rows == n / in_dim as int,
            r <= rows,
            n <= usize::MAX,
            want == rotated(before, in_dim as nat, d as nat),
            forall|k: int| 0 <= k < n && k < r * in_dim ==> #[trigger] values@[k] == want[k],
            forall|k: int| r * in_dim <= k < n ==> #[trigger] values@[k] == before[k],
        decreases rows - r,
    {
        proof {
            row_within(n, in_dim as int, r as int);
        }
        let start: usize = r * in_dim;
        let mut row: Vec<u32> = Vec::new();
        let mut c: usize = 0;
        while c < d
            invariant
                c <= d,
                start + d <= n,
                values@.len() == n,
                n <= usize::MAX,
                row@.len() == c,
                forall|k: int| 0 <= k < c ==> #[trigger] row@[k] == values@[start + k],
            decreases d - c,
        {
            row.push(values[start + c]);
            c += 1;
        }
        assert(row@ =~= before.subrange(start as int, start + d));
        walsh_hadamard_row(&mut row);
        let ghost turned = row@;
        let mut c: usize = 0;
        while c < d
            invariant
                0 < d <= in_dim,
                c <= d,
                n == before.len(),
                values@.len() == n,
                n <= usize::MAX,
                r < rows,
                rows == n / in_dim as int,
                start == r * in_dim,
                start + in_dim <= n,
                want == rotated(before, in_dim as nat, d as nat),
                turned == walsh_hadamard(before.subrange(start as int, start + d)),
                turned == row@,
                row@.len() == d,
                forall|k: int| 0 <= k < start ==> #[trigger] values@[k] == want[k],
                forall|k: int| start <= k < start + c ==> #[trigger] values@[k] == want[k],
                forall|k: int| start + c <= k < n ==> #[trigger] values@[k] == before[k],
            decreases d - c,
        {
            proof {
                place_in_row(r as int, c as int, in_dim as int);
                assert(want[start + c] == turned[c as int]);
            }
            values.set(start + c, row[c]);
            c += 1;
        }
        proof {
            assert((r + 1) * in_dim == r * in_dim + in_dim) by (nonlinear_arith);
            assert forall|k: int| start + d <= k < start + in_dim implies #[trigger] values@[k]
                == want[k] by {
                place_in_row(r as int, k - start, in_dim as int);
            }
        }
        r += 1;
    }
    proof {
        assert forall|k: int| rows * in_dim <= k < n implies #[trigger] values@[k] == want[k] by {
            vstd::arithmetic::div_mod::lemma_fundamental_div_mod(k, in_dim as int);
            let q = k / in_dim as int;
            assert(q >= rows) by (nonlinear_arith)
                requires
                    rows * in_dim <= k,
                    k == in_dim * q + k % in_dim as int,
                    k % in_dim as int <= in_dim - 1,
                    in_dim > 0,
            ;
        }
        assert(values@ =~= want);
    }
}

/// The larger of two double patterns that are not negative.
pub open spec fn scale_after(post_absmax: u64, force_rescale: bool) -> u64 {
    if post_absmax > FP16_HALF_RANGE || force_rescale {
        larger(
            crate::ieee::convert::double_over(post_absmax, TARGET) as int,
            LEAST_SCALE as int,
        ) as u64
    } else {
        DOUBLE_ONE
    }
}

/// The largest magnitude of some singles, as a double.
pub fn absmax_after(values: &[u32]) -> (r: u64)
    ensures
        r == double_of_single(largest_single(values@)),
{
    single_to_double(single_absmax(values))
}

/// The values that are rounded to halves: BF16 values as singles, the rows of
/// a matrix transformed, divided by the scale.
pub open spec fn cast_values(elems: Seq<u16>, dims: Seq<u64>, scale: u64, hadamard_d: nat) -> Seq<
    u32,
> {
    let wide = singles_of(elems);
    let turned = if hadamard_d != 0 && dims.len() >= 2 && hadamard_d <= dims[0] {
        rotated(wide, dims[0] as nat, hadamard_d)
    } else {
        wide
    };
    if scale != DOUBLE_ONE {
        turned.map_values(|x: u32| single_over(x, single_of_double(scale)))
    } else {
        turned
    }
}

/// The nearest halves.
pub open spec fn halves_of(values: Seq<u32>) -> Seq<u16> {
    values.map_values(|x: u32| half_of_single(x))
}

/// Whether a half is infinite.
pub open spec fn half_infinite(h: u16) -> bool {
    h % 0x8000 == HALF_INFINITY
}

/// Whether one of some halves is infinite.
pub open spec fn any_infinite(halves: Seq<u16>) -> bool {
    exists|i: int| 0 <= i < halves.len() && half_infinite(#[trigger] halves[i])
}

/// Halves as bytes.
pub open spec fn half_bytes(halves: Seq<u16>) -> Seq<u8> {
    blocks(halves.len(), 2, |i: int| le_bytes(halves[i] as nat, 2))
}

/// Halves as bytes, unless one is infinite.
fn put_halves(halves: &[u16]) -> (r: Option<Vec<u8>>)
    ensures
        r is None <==> any_infinite(halves@),
        r is Some ==> r->0@ == half_bytes(halves@),
{
    let ghost block = |i: int| le_bytes(halves@[i] as nat, 2);
    let mut out: Vec<u8> = Vec::new();
    let mut i: usize = 0;
    assert(out@ =~= blocks(0, 2, block));
    while i < halves.len()
        invariant
            i <= halves@.len(),
            block == (|i: int| le_bytes(halves@[i] as nat, 2)),
            out@ == blocks(i as nat, 2, block),
            forall|k: int| 0 <= k < i ==> !half_infinite(#[trigger] halves@[k]),
        decreases halves@.len() - i,
    {
        let h: u16 = halves[i];
        if h % 0x8000 == HALF_INFINITY {
            assert(half_infinite(halves@[i as int]));
            return None;
        }
        put_le(&mut out, h as u64, 2);
        proof {
            le_bytes_len(h as nat, 2);
            blocks_next(i as nat, 2, block);
        }
        i += 1;
    }
    Some(out)
}

/// The cast of a tensor's elements, or `None` where one becomes infinite.
/// `halves` holds every BF16 value as a half.
pub fn cast_pass2(
    elems: &[u16],
    dims: &[u64],
    scale: u64,
    hadamard_d: usize,
    halves: &[u16],
) -> (r: Option<Vec<u8>>)
    requires
        is_half_table(halves@),
        hadamard_d != 0 && dims@.len() >= 2 && hadamard_d <= dims@[0] ==> is_power_of_two(
            hadamard_d as nat,
        ),
    ensures
        r is None <==> any_infinite(
            halves_of(cast_values(elems@, dims@, scale, hadamard_d as nat)),
        ),
        r is Some ==> r->0@ == half_bytes(
            halves_of(cast_values(elems@, dims@, scale, hadamard_d as nat)),
        ),
{
    let ghost want = halves_of(cast_values(elems@, dims@, scale, hadamard_d as nat));
    let mut out: Vec<u16> = Vec::new();
    let mut i: usize = 0;
    if hadamard_d == 0 && scale == DOUBLE_ONE {
        while i < elems.len()
            invariant
                i <= elems@.len(),
                is_half_table(halves@),
                out@.len() == i,
                forall|k: int| 0 <= k < i ==> #[trigger] out@[k] == bf16_half(elems@[k]),
            decreases elems@.len() - i,
        {
            let b: u16 = elems[i];
            assert(halves@[b as int] == bf16_half(b));
            out.push(halves[b as usize]);
            i += 1;
        }
        assert(out@ =~= want);
        return put_halves(out.as_slice());
    }
    let mut f = widen_all(elems);
    let n: usize = f.len();
    if hadamard_d != 0 && dims.len() >= 2 && hadamard_d as u64 <= dims[0] {
        if dims[0] <= usize::MAX as u64 {
            rotate_rows(&mut f, dims[0] as usize, hadamard_d);
        } else {
            proof {
                no_rows(f@, dims@[0] as nat, hadamard_d as nat);
            }
        }
    }
    let ghost turned = f@;
    let divisor: u32 = double_to_single(scale);
    while i < f.len()
        invariant
            i <= f@.len(),
            f@ == turned,
            divisor == single_of_double(scale),
            out@.len() == i,
            forall|k: int|
                0 <= k < i ==> #[trigger] out@[k] == half_of_single(
                    if scale != DOUBLE_ONE {
                        single_over(turned[k], divisor)
                    } else {
                        turned[k]
                    },
                ),
        decreases f@.len() - i,
    {
        let x: u32 = if scale != DOUBLE_ONE {
            divide_single(f[i], divisor)
        } else {
            f[i]
        };
        out.push(f32_to_f16_bits(x));
        i += 1;
    }
    assert(out@ =~= want);
    put_halves(out.as_slice())
}

/// Where a row would be longer than the matrix there is none to transform.
proof fn no_rows(values: Seq<u32>, in_dim: nat, d: nat)
    requires
        values.len() < in_dim,
    ensures
        rotated(values, in_dim, d) == values,
{
    vstd::arithmetic::div_mod::lemma_basic_div(values.len() as int, in_dim as int);
    assert forall|i: int| 0 <= i < values.len() implies rotated(values, in_dim, d)[i]
        == values[i] by {
        vstd::arithmetic::div_mod::lemma_basic_div(i, in_dim as int);
    }
    assert(rotated(values, in_dim, d) =~= values);
}

} // verus!
