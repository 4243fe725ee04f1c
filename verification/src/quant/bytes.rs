//! Laws of packed weights, byte for byte: where each code and each scale of a
//! matrix stands.

use crate::le::le_value;
use crate::quant::{
    ar16_code, ar16_is_lossless, ar16_packed, ar16_scale, chunks_error, code_of, q4_0_code,
    q4_0_is_lossless, q4_0_packed, q4_0_scale, row_col, transposed, unpacked, within, ChunkError,
};
use vstd::prelude::*;

verus! {

/// A byte is made of its halves.
proof fn byte_of_halves(x: u8)
    ensures
        x == (x & 0xf) + 16 * (x >> 4),
{
    assert(x == (x & 0xf) + 16 * (x >> 4)) by (bit_vector);
}

/// Two bytes as a number.
proof fn two_bytes(s: Seq<u8>)
    requires
        s.len() == 2,
    ensures
        le_value(s) == s[0] + 256 * s[1],
{
    reveal_with_fuel(le_value, 3);
    assert(s.drop_first()[0] == s[1]);
    assert(s.drop_first().drop_first().len() == 0);
}

/// Block `b` of row `o` in Q4_0 takes 18 bytes: the scale of its group, then a byte
/// for each two codes that stand 16 apart, the earlier one below.
#[verifier::rlimit(30)]
pub proof fn q4_0_bytes(
    codes: Seq<u8>,
    scales: Seq<u16>,
    out_f: nat,
    in_f: nat,
    group_size: nat,
    o: int,
    b: int,
    j: int,
)
    requires
        in_f % 32 == 0,
        group_size > 0,
        group_size % 32 == 0,
        in_f % group_size == 0,
        codes.len() == out_f * in_f,
        scales.len() == (in_f / group_size) * out_f,
        forall|i: int| 0 <= i < codes.len() ==> #[trigger] codes[i] <= 15,
        0 <= o < out_f,
        0 <= b < in_f / 32,
        0 <= j < 16,
    ensures
        ({
            let packed = q4_0_packed(codes, scales, out_f, in_f, group_size);
            let at = (o * (in_f / 32) + b) * 18;
            let first = o * in_f + b * 32;
            let scale = scales[b * 32 / group_size as int * out_f + o];
            &&& packed.len() == out_f * (in_f / 32) * 18
            &&& packed[at] + 256 * packed[at + 1] == scale
            &&& packed[at + 2 + j] == codes[first + j] + 16 * codes[first + j + 16]
        }),
{
    let packed = q4_0_packed(codes, scales, out_f, in_f, group_size);
    let at = (o * (in_f / 32) + b) * 18;
    q4_0_is_lossless(codes, scales, out_f, in_f, group_size);
    let lo = b * 32 + j;
    let hi = b * 32 + j + 16;
    assert(lo / 32 == b && lo % 32 == j);
    assert(hi / 32 == b && hi % 32 == j + 16);
    assert(q4_0_code(packed, in_f, o, lo) == codes[o * in_f + lo]);
    assert(q4_0_code(packed, in_f, o, hi) == codes[o * in_f + hi]);
    byte_of_halves(packed[at + 2 + j]);
    assert(q4_0_scale(packed, in_f, o, b) == scales[b * 32 / group_size as int * out_f + o]);
    within(o, b, out_f as int, (in_f / 32) as int);
    two_bytes(packed.subrange(at, at + 2));
}

/// Block `b` of row `o` in Q4_0_AR16 takes 10 bytes: its scale, then a byte for each two
/// codes that stand next to each other, the earlier one below.
pub proof fn ar16_bytes(
    codes: Seq<u8>,
    scales: Seq<u16>,
    out_f: nat,
    in_f: nat,
    o: int,
    b: int,
    j: int,
)
    requires
        in_f % 16 == 0,
        codes.len() == out_f * in_f,
        scales.len() == out_f * (in_f / 16),
        forall|i: int| 0 <= i < codes.len() ==> #[trigger] codes[i] <= 15,
        0 <= o < out_f,
        0 <= b < in_f / 16,
        0 <= j < 8,
    ensures
        ({
            let packed = ar16_packed(codes, scales, out_f, in_f);
            let at = (o * (in_f / 16) + b) * 10;
            let first = o * in_f + b * 16;
            &&& packed.len() == out_f * (in_f / 16) * 10
            &&& packed[at] + 256 * packed[at + 1] == scales[o * (in_f / 16) + b]
            &&& packed[at + 2 + j] == codes[first + 2 * j] + 16 * codes[first + 2 * j + 1]
        }),
{
    let packed = ar16_packed(codes, scales, out_f, in_f);
    let at = (o * (in_f / 16) + b) * 10;
    ar16_is_lossless(codes, scales, out_f, in_f);
    let lo = b * 16 + 2 * j;
    let hi = b * 16 + 2 * j + 1;
    assert(lo / 16 == b && lo % 16 / 2 == j && lo % 2 == 0);
    assert(hi / 16 == b && hi % 16 / 2 == j && hi % 2 == 1);
    assert(ar16_code(packed, in_f, o, lo) == codes[o * in_f + lo]);
    assert(ar16_code(packed, in_f, o, hi) == codes[o * in_f + hi]);
    byte_of_halves(packed[at + 2 + j]);
    assert(ar16_scale(packed, in_f, o, b) == scales[o * (in_f / 16) + b]);
    within(o, b, out_f as int, (in_f / 16) as int);
    two_bytes(packed.subrange(at, at + 2));
}

/// Each column of a word holds the codes of eight rows, the first in the lowest bits.
pub proof fn words_hold_eight_rows(
    qweight: Seq<u32>,
    rows: nat,
    out_f: nat,
    w: int,
    k: int,
    c: int,
)
    requires
        0 <= w < rows,
        0 <= k < 8,
        0 <= c < out_f,
    ensures
        ({
            let word = qweight[w * out_f + c];
            let code = unpacked(qweight, rows, out_f)[(w * 8 + k) * out_f + c];
            &&& unpacked(qweight, rows, out_f).len() == rows * 8 * out_f
            &&& k == 0 ==> code == word % 16
            &&& k == 1 ==> code == word / 0x10 % 16
            &&& k == 2 ==> code == word / 0x100 % 16
            &&& k == 3 ==> code == word / 0x1000 % 16
            &&& k == 4 ==> code == word / 0x1_0000 % 16
            &&& k == 5 ==> code == word / 0x10_0000 % 16
            &&& k == 6 ==> code == word / 0x100_0000 % 16
            &&& k == 7 ==> code == word / 0x1000_0000 % 16
        }),
{
    let word = qweight[w * out_f + c];
    let row = w * 8 + k;
    within(row, c, (rows * 8) as int, out_f as int);
    row_col(row, c, out_f as int);
    assert(row / 8 == w && row % 8 == k);
    assert(unpacked(qweight, rows, out_f)[row * out_f + c] == code_of(word, k));
    assert((word >> 0u32) & 0xf == word % 16 && (word >> 4u32) & 0xf == word / 0x10 % 16 && (word
        >> 8u32) & 0xf == word / 0x100 % 16 && (word >> 12u32) & 0xf == word / 0x1000 % 16 && (word
        >> 16u32) & 0xf == word / 0x1_0000 % 16 && (word >> 20u32) & 0xf == word / 0x10_0000 % 16
        && (word >> 24u32) & 0xf == word / 0x100_0000 % 16 && (word >> 28u32) & 0xf == word
        / 0x1000_0000 % 16) by (bit_vector);
}

/// A transposed matrix has at row `c` and column `r` what the matrix has at row `r` and
/// column `c`.
pub proof fn rows_become_columns(m: Seq<u8>, rows: nat, cols: nat, r: int, c: int)
    requires
        0 <= r < rows,
        0 <= c < cols,
    ensures
        transposed(m, rows, cols).len() == rows * cols,
        transposed(m, rows, cols)[c * rows + r] == m[r * cols + c],
{
    within(c, r, cols as int, rows as int);
    row_col(c, r, rows as int);
    assert(rows * cols == cols * rows) by (nonlinear_arith);
}

/// The first chunk of sixteen that is broken is told of: by its start where that is no multiple of
/// sixteen, and else by its order.
pub proof fn the_first_broken_chunk_is_told(perm: Seq<usize>, at: int)
    requires
        0 <= at,
        at + 16 <= perm.len(),
    ensures
        ({
            let start = perm[at] % 16 != 0;
            let order = exists|i: int| 0 <= i < 16 && #[trigger] perm[at + i] != perm[at] + i;
            &&& start ==> chunks_error(perm, at) == Some(ChunkError::Start)
            &&& !start && order ==> chunks_error(perm, at) == Some(ChunkError::Order)
            &&& !start && !order ==> chunks_error(perm, at) == chunks_error(perm, at + 16)
        }),
{
}

} // verus!
