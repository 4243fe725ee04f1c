//! Laws of the conversion: no weight is changed.

use crate::quant::{
    ar16_code, ar16_is_lossless, ar16_packed, ar16_scale, code_of, keeps_chunk, moves_chunks,
    q4_0_code, q4_0_is_lossless, q4_0_packed, q4_0_scale, row_col, transposed, unpacked, within,
};
use crate::remix::emit::{
    block_scales, gather_rows, gather_scales, in_range, quant_bytes, PermsView,
};
use crate::remix::plan::Source;
use vstd::prelude::*;

verus! {

/// The code of input `i` of output `o` in packed words of `[in / 8, out]`.
pub open spec fn word_code(words: Seq<u32>, out_f: nat, o: int, i: int) -> u8 {
    code_of(words[i / 8 * out_f + o], i % 8)
}

/// Whether words and scales have the sizes that `[in, out]` weights in groups
/// of 128 inputs have.
pub open spec fn sizes_agree(words: Seq<u32>, scales: Seq<u16>, in_packed: nat, out_f: nat) -> bool {
    &&& words.len() == in_packed * out_f
    &&& scales.len() == (in_packed * 8 / 128) * out_f
    &&& in_packed * 8 % 128 == 0
}

/// Codes fit in half a byte.
proof fn code_fits(word: u32, k: int)
    ensures
        code_of(word, k) <= 15,
{
    let s = (4 * k) as u32;
    assert((word >> s) & 0xf <= 15) by (bit_vector);
}

/// The code of an input and output among the unpacked ones.
proof fn unpacked_at(words: Seq<u32>, in_packed: nat, out_f: nat, o: int, i: int)
    requires
        0 <= o < out_f,
        0 <= i < in_packed * 8,
    ensures
        0 <= i * out_f + o < unpacked(words, in_packed, out_f).len(),
        unpacked(words, in_packed, out_f)[i * out_f + o] == word_code(words, out_f, o, i),
{
    within(i, o, (in_packed * 8) as int, out_f as int);
    row_col(i, o, out_f as int);
}

/// All unpacked codes fit in half a byte.
proof fn unpacked_fit(words: Seq<u32>, in_packed: nat, out_f: nat)
    ensures
        forall|i: int|
            0 <= i < unpacked(words, in_packed, out_f).len() ==> #[trigger] unpacked(
                words,
                in_packed,
                out_f,
            )[i] <= 15,
{
    assert forall|i: int| 0 <= i < unpacked(words, in_packed, out_f).len() implies #[trigger]
        unpacked(words, in_packed, out_f)[i] <= 15 by {
        let row = i / out_f as int;
        code_fits(words[row / 8 * out_f + i % out_f as int], row % 8);
    }
}

/// An element of a transposed matrix.
proof fn transposed_at(m: Seq<u8>, rows: nat, cols: nat, r: int, c: int)
    requires
        0 <= r < rows,
        0 <= c < cols,
    ensures
        0 <= c * rows + r < transposed(m, rows, cols).len(),
        transposed(m, rows, cols)[c * rows + r] == m[r * cols + c],
{
    within(c, r, cols as int, rows as int);
    row_col(c, r, rows as int);
    assert(rows * cols == cols * rows) by (nonlinear_arith);
}

/// Elements that all fit still do after transposing.
proof fn transposed_fit(m: Seq<u8>, rows: nat, cols: nat)
    requires
        m.len() == rows * cols,
        forall|i: int| 0 <= i < m.len() ==> #[trigger] m[i] <= 15,
    ensures
        forall|i: int|
            0 <= i < rows * cols ==> #[trigger] transposed(m, rows, cols)[i] <= 15,
{
    assert forall|i: int| 0 <= i < rows * cols implies #[trigger] transposed(m, rows, cols)[i]
        <= 15 by {
        if rows == 0 {
            assert(rows * cols == 0) by (nonlinear_arith)
                requires
                    rows == 0,
            ;
        }
        let r = i % rows as int;
        let c = i / rows as int;
        vstd::arithmetic::div_mod::lemma_fundamental_div_mod(i, rows as int);
        assert(0 <= c < cols) by (nonlinear_arith)
            requires
                i == rows * c + r,
                0 <= r < rows,
                0 <= i < rows * cols,
        ;
        within(r, c, rows as int, cols as int);
        assert(m[r * cols + c] <= 15);
    }
}

/// An element of a matrix with its rows in another order.
proof fn gathered_at(m: Seq<u8>, perm: Seq<usize>, row: nat, j: int, c: int)
    requires
        0 <= j < perm.len(),
        0 <= c < row,
    ensures
        0 <= j * row + c < gather_rows(m, perm, row).len(),
        gather_rows(m, perm, row)[j * row + c] == m[perm[j] * row + c],
{
    within(j, c, perm.len() as int, row as int);
    row_col(j, c, row as int);
}

/// Elements that all fit still do with the rows in another order.
proof fn gathered_fit(m: Seq<u8>, perm: Seq<usize>, row: nat)
    requires
        in_range(perm),
        m.len() == perm.len() * row,
        forall|i: int| 0 <= i < m.len() ==> #[trigger] m[i] <= 15,
    ensures
        forall|i: int|
            0 <= i < perm.len() * row ==> #[trigger] gather_rows(m, perm, row)[i] <= 15,
{
    assert forall|i: int| 0 <= i < perm.len() * row implies #[trigger] gather_rows(m, perm, row)[i]
        <= 15 by {
        if row == 0 {
            assert(perm.len() * row == 0) by (nonlinear_arith)
                requires
                    row == 0,
            ;
        }
        let j = i / row as int;
        let c = i % row as int;
        vstd::arithmetic::div_mod::lemma_fundamental_div_mod(i, row as int);
        let n = perm.len();
        assert(0 <= j < n) by (nonlinear_arith)
            requires
                i == row * j + c,
                0 <= c < row,
                0 <= i < n * row,
        ;
        assert(perm[j] < perm.len());
        within(perm[j] as int, c, n as int, row as int);
        assert(m[perm[j] * row + c] <= 15);
    }
}

/// The trunk's weights are kept: the code of every weight stands at its place
/// in the output, and so does the scale of its group.
pub proof fn trunk_keeps_weights(
    words: Seq<u32>,
    scales: Seq<u16>,
    in_packed: nat,
    out_f: nat,
    perms: PermsView,
)
    requires
        sizes_agree(words, scales, in_packed, out_f),
    ensures
        ({
            let in_f = in_packed * 8;
            let out = quant_bytes(Source::QuantTrunk, words, scales, in_packed, out_f, perms);
            &&& forall|o: int, i: int|
                0 <= o < out_f && 0 <= i < in_f ==> #[trigger] q4_0_code(out, in_f, o, i)
                    == word_code(words, out_f, o, i)
            &&& forall|o: int, b: int|
                0 <= o < out_f && 0 <= b < in_f / 32 ==> #[trigger] q4_0_scale(out, in_f, o, b)
                    == scales[b * 32 / 128 * out_f + o]
        }),
{
    let in_f = in_packed * 8;
    let codes = unpacked(words, in_packed, out_f);
    let t = transposed(codes, in_f, out_f);
    unpacked_fit(words, in_packed, out_f);
    transposed_fit(codes, in_f, out_f);
    assert(in_f * out_f == out_f * in_f) by (nonlinear_arith);
    q4_0_is_lossless(t, scales, out_f, in_f, 128);
    let out = quant_bytes(Source::QuantTrunk, words, scales, in_packed, out_f, perms);
    assert(out == q4_0_packed(t, scales, out_f, in_f, 128));
    assert forall|o: int, i: int| 0 <= o < out_f && 0 <= i < in_f implies #[trigger] q4_0_code(
        out,
        in_f,
        o,
        i,
    ) == word_code(words, out_f, o, i) by {
        transposed_at(codes, in_f, out_f, i, o);
        unpacked_at(words, in_packed, out_f, o, i);
    }
}

/// With V rows reordered no weight is changed: row `o` of the output holds the
/// codes and the scales of the row that feeds it.
pub proof fn reordered_rows_keep_weights(
    words: Seq<u32>,
    scales: Seq<u16>,
    in_packed: nat,
    out_f: nat,
    perms: PermsView,
)
    requires
        sizes_agree(words, scales, in_packed, out_f),
        in_range(perms.rows),
        perms.rows.len() == out_f,
    ensures
        ({
            let in_f = in_packed * 8;
            let out = quant_bytes(Source::QuantVRowZ, words, scales, in_packed, out_f, perms);
            &&& forall|o: int, i: int|
                0 <= o < out_f && 0 <= i < in_f ==> #[trigger] q4_0_code(out, in_f, o, i)
                    == word_code(words, out_f, perms.rows[o] as int, i)
            &&& forall|o: int, b: int|
                0 <= o < out_f && 0 <= b < in_f / 32 ==> #[trigger] q4_0_scale(out, in_f, o, b)
                    == scales[b * 32 / 128 * out_f + perms.rows[o]]
        }),
{
    rows_keep_weights(words, scales, in_packed, out_f, perms.rows);
}

/// With the V rows of QKV reordered no weight is changed: row `o` of the
/// output holds the codes and the scales of the row that feeds it.
pub proof fn reordered_qkv_keeps_weights(
    words: Seq<u32>,
    scales: Seq<u16>,
    in_packed: nat,
    out_f: nat,
    perms: PermsView,
)
    requires
        sizes_agree(words, scales, in_packed, out_f),
        in_range(perms.qkv),
        perms.qkv.len() == out_f,
    ensures
        ({
            let in_f = in_packed * 8;
            let out = quant_bytes(Source::QuantVRowQkv, words, scales, in_packed, out_f, perms);
            &&& forall|o: int, i: int|
                0 <= o < out_f && 0 <= i < in_f ==> #[trigger] q4_0_code(out, in_f, o, i)
                    == word_code(words, out_f, perms.qkv[o] as int, i)
            &&& forall|o: int, b: int|
                0 <= o < out_f && 0 <= b < in_f / 32 ==> #[trigger] q4_0_scale(out, in_f, o, b)
                    == scales[b * 32 / 128 * out_f + perms.qkv[o]]
        }),
{
    rows_keep_weights(words, scales, in_packed, out_f, perms.qkv);
}

proof fn rows_keep_weights(
    words: Seq<u32>,
    scales: Seq<u16>,
    in_packed: nat,
    out_f: nat,
    perm: Seq<usize>,
)
    requires
        sizes_agree(words, scales, in_packed, out_f),
        in_range(perm),
        perm.len() == out_f,
    ensures
        ({
            let in_f = in_packed * 8;
            let codes = unpacked(words, in_packed, out_f);
            let out = q4_0_packed(
                gather_rows(transposed(codes, in_f, out_f), perm, in_f),
                gather_scales(scales, perm, in_f / 128),
                out_f,
                in_f,
                128,
            );
            &&& forall|o: int, i: int|
                0 <= o < out_f && 0 <= i < in_f ==> #[trigger] q4_0_code(out, in_f, o, i)
                    == word_code(words, out_f, perm[o] as int, i)
            &&& forall|o: int, b: int|
                0 <= o < out_f && 0 <= b < in_f / 32 ==> #[trigger] q4_0_scale(out, in_f, o, b)
                    == scales[b * 32 / 128 * out_f + perm[o]]
        }),
{
    let in_f = in_packed * 8;
    let codes = unpacked(words, in_packed, out_f);
    let t = transposed(codes, in_f, out_f);
    let g = gather_rows(t, perm, in_f);
    let s = gather_scales(scales, perm, in_f / 128);
    unpacked_fit(words, in_packed, out_f);
    transposed_fit(codes, in_f, out_f);
    assert(in_f * out_f == out_f * in_f) by (nonlinear_arith);
    gathered_fit(t, perm, in_f);
    q4_0_is_lossless(g, s, out_f, in_f, 128);
    let out = q4_0_packed(g, s, out_f, in_f, 128);
    assert forall|o: int, i: int| 0 <= o < out_f && 0 <= i < in_f implies #[trigger] q4_0_code(
        out,
        in_f,
        o,
        i,
    ) == word_code(words, out_f, perm[o] as int, i) by {
        let p = perm[o] as int;
        assert(perm[o] < perm.len());
        gathered_at(t, perm, in_f, o, i);
        transposed_at(codes, in_f, out_f, i, p);
        unpacked_at(words, in_packed, out_f, p, i);
    }
    assert forall|o: int, b: int| 0 <= o < out_f && 0 <= b < in_f / 32 implies #[trigger] q4_0_scale(
        out,
        in_f,
        o,
        b,
    ) == scales[b * 32 / 128 * out_f + perm[o]] by {
        let grp = b * 32 / 128;
        assert(0 <= grp < in_f / 128);
        within(grp, o, (in_f / 128) as int, out_f as int);
        row_col(grp, o, out_f as int);
        assert(s[grp * out_f + o] == scales[grp * out_f + perm[o]]);
    }
}

/// Whether the weight of output `o` at input `i` of a Q4_0_AR16 matrix is that
/// of input `p` of the words, by its code and its scale.
pub open spec fn weight_kept(
    out: Seq<u8>,
    words: Seq<u32>,
    scales: Seq<u16>,
    in_f: nat,
    out_f: nat,
    o: int,
    i: int,
    p: int,
) -> bool {
    &&& ar16_code(out, in_f, o, i) == word_code(words, out_f, o, p)
    &&& ar16_scale(out, in_f, o, i / 16) == scales[p / 128 * out_f + o]
}

/// With V columns reordered no weight is changed: column `i` of the output
/// holds the codes of the column that feeds it, and the scale of its block is
/// that of the group of this column.
pub proof fn reordered_columns_keep_weights(
    words: Seq<u32>,
    scales: Seq<u16>,
    in_packed: nat,
    out_f: nat,
    perms: PermsView,
)
    requires
        sizes_agree(words, scales, in_packed, out_f),
        in_range(perms.rows),
        moves_chunks(perms.rows),
        perms.rows.len() == in_packed * 8,
    ensures
        ({
            let in_f = in_packed * 8;
            let out = quant_bytes(Source::QuantVCol, words, scales, in_packed, out_f, perms);
            forall|o: int, i: int|
                0 <= o < out_f && 0 <= i < in_f ==> #[trigger] weight_kept(
                    out,
                    words,
                    scales,
                    in_f,
                    out_f,
                    o,
                    i,
                    perms.rows[i] as int,
                )
        }),
{
    let in_f = in_packed * 8;
    let perm = perms.rows;
    let codes = unpacked(words, in_packed, out_f);
    let g = gather_rows(codes, perm, out_f);
    let t = transposed(g, in_f, out_f);
    let s = block_scales(scales, perm, out_f);
    unpacked_fit(words, in_packed, out_f);
    gathered_fit(codes, perm, out_f);
    transposed_fit(g, in_f, out_f);
    assert(in_f * out_f == out_f * in_f) by (nonlinear_arith);
    ar16_is_lossless(t, s, out_f, in_f);
    let out = quant_bytes(Source::QuantVCol, words, scales, in_packed, out_f, perms);
    assert(out == ar16_packed(t, s, out_f, in_f));
    assert forall|o: int, i: int| 0 <= o < out_f && 0 <= i < in_f implies #[trigger] weight_kept(
        out,
        words,
        scales,
        in_f,
        out_f,
        o,
        i,
        perms.rows[i] as int,
    ) by {
        let p = perm[i] as int;
        assert(perm[i] < perm.len());
        transposed_at(g, in_f, out_f, i, o);
        gathered_at(codes, perm, out_f, i, o);
        unpacked_at(words, in_packed, out_f, o, p);
        let b = i / 16;
        let n = (in_f / 16) as int;
        assert(0 <= b < n);
        within(o, b, out_f as int, n);
        row_col(o, b, n);
        assert(ar16_scale(out, in_f, o, b) == s[o * n + b]);
        assert(b * 16 == i - i % 16);
        assert(keeps_chunk(perm, i));
        assert(perm[b * 16] / 128 == perm[i] / 128);
    }
}

} // verus!
