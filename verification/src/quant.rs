//! AutoRound INT4 (AutoGPTQ packing) -> Q4_0 / Q4_0_AR16 lossless repack
//! primitives. Codes and scales copy verbatim; no rounding anywhere.
//!
//! - Q4_0 block: fp16 scale + 16 bytes; byte j holds code j in its low and
//!   code j+16 in its high half; 18 bytes per 32 input elements.
//! - Q4_0_AR16 block: fp16 scale + 8 bytes; byte j holds code 2j in its low
//!   and code 2j+1 in its high half; 10 bytes per 16 elements.
//! - AutoGPTQ packing: word (r, c) holds the codes of input rows 8r..8r+8 of
//!   output channel c; code k in bits 4k..4k+4.

pub mod bytes;

use crate::le::{le_bytes, le_bytes_len, le_round_trip, le_value, pow256_values, put_le};
use vstd::arithmetic::div_mod::{lemma_fundamental_div_mod, lemma_fundamental_div_mod_converse};
use vstd::prelude::*;

verus! {

/// Code `k` of a packed word.
pub open spec fn code_of(word: u32, k: int) -> u8 {
    ((word >> ((4 * k) as u32)) & 0xf) as u8
}

/// The codes of packed words, `[in, out]` row-major.
pub open spec fn unpacked(qweight: Seq<u32>, in_packed_rows: nat, out_f: nat) -> Seq<u8> {
    Seq::new(
        in_packed_rows * 8 * out_f,
        |i: int|
            {
                let row = i / out_f as int;
                code_of(qweight[row / 8 * out_f + i % out_f as int], row % 8)
            },
    )
}

/// Row and column of a row-major index.
pub proof fn row_col(row: int, col: int, cols: int)
    requires
        0 <= row,
        0 <= col < cols,
    ensures
        (row * cols + col) / cols == row,
        (row * cols + col) % cols == col,
{
    lemma_fundamental_div_mod_converse(row * cols + col, cols, row, col);
}

/// An index within a row-major matrix stays within it.
pub proof fn within(row: int, col: int, rows: int, cols: int)
    requires
        0 <= row < rows,
        0 <= col < cols,
    ensures
        0 <= row * cols,
        0 <= row * cols + col < rows * cols,
        (row + 1) * cols == row * cols + cols,
        row * cols + cols <= rows * cols,
{
    assert(0 <= row * cols && (row + 1) * cols == row * cols + cols && row * cols + cols <= rows
        * cols) by (nonlinear_arith)
        requires
            0 <= row < rows,
            0 <= col < cols,
    ;
}

/// Unpack AutoGPTQ INT4: `qweight` is `[in/8, out]` words. Returns codes
/// `[in, out]` row-major, values in 0..=15.
pub fn unpack_autogptq_int4(qweight: &[u32], in_packed_rows: usize, out_f: usize) -> (codes: Vec<
    u8,
>)
    requires
        qweight@.len() == in_packed_rows * out_f,
        in_packed_rows * 8 * out_f <= usize::MAX,
    ensures
        codes@ == unpacked(qweight@, in_packed_rows as nat, out_f as nat),
        forall|i: int| 0 <= i < codes@.len() ==> #[trigger] codes@[i] <= 15,
{
    let mut codes: Vec<u8> = Vec::new();
    let mut row: usize = 0;
    let ghost whole = unpacked(qweight@, in_packed_rows as nat, out_f as nat);
    if out_f == 0 {
        assert(in_packed_rows * 8 * out_f == 0) by (nonlinear_arith)
            requires
                out_f == 0,
        ;
        assert(codes@ =~= whole);
        return codes;
    }
    assert(in_packed_rows * 8 <= in_packed_rows * 8 * out_f) by (nonlinear_arith)
        requires
            out_f >= 1,
    ;
    while row < in_packed_rows * 8
        invariant
            row <= in_packed_rows * 8,
            in_packed_rows * 8 <= usize::MAX,
            in_packed_rows * 8 * out_f <= usize::MAX,
            out_f > 0,
            qweight@.len() == in_packed_rows * out_f,
            whole == unpacked(qweight@, in_packed_rows as nat, out_f as nat),
            codes@.len() == row * out_f,
            forall|i: int| 0 <= i < codes@.len() ==> #[trigger] codes@[i] == whole[i],
            forall|i: int| 0 <= i < codes@.len() ==> #[trigger] codes@[i] <= 15,
        decreases in_packed_rows * 8 - row,
    {
        let r: usize = row / 8;
        let shift: u32 = 4 * (row % 8) as u32;
        proof {
            within(r as int, 0, in_packed_rows as int, out_f as int);
            within(row as int, 0, in_packed_rows * 8, out_f as int);
            assert(qweight.len() == in_packed_rows * out_f);
        }
        let base: usize = r * out_f;
        let mut c: usize = 0;
        while c < out_f
            invariant
                c <= out_f,
                out_f > 0,
                row < in_packed_rows * 8,
                in_packed_rows * 8 * out_f <= usize::MAX,
                r == row / 8,
                base == r * out_f,
                shift == 4 * (row % 8),
                qweight@.len() == in_packed_rows * out_f,
                whole == unpacked(qweight@, in_packed_rows as nat, out_f as nat),
                codes@.len() == row * out_f + c,
                forall|i: int| 0 <= i < codes@.len() ==> #[trigger] codes@[i] == whole[i],
                forall|i: int| 0 <= i < codes@.len() ==> #[trigger] codes@[i] <= 15,
            decreases out_f - c,
        {
            proof {
                within(r as int, c as int, in_packed_rows as int, out_f as int);
                within(row as int, c as int, in_packed_rows * 8, out_f as int);
                row_col(row as int, c as int, out_f as int);
                assert(qweight.len() == in_packed_rows * out_f);
            }
            let w: u32 = qweight[base + c];
            let code: u8 = ((w >> shift) & 0xf) as u8;
            proof {
                assert((w >> shift) & 0xf <= 15) by (bit_vector);
                assert(code == code_of(w, (row % 8) as int));
                assert(whole[codes@.len() as int] == code);
            }
            codes.push(code);
            c += 1;
        }
        row += 1;
    }
    assert(codes@ =~= whole);
    codes
}

/// A `[rows, cols]` matrix as `[cols, rows]`.
pub open spec fn transposed(src: Seq<u8>, rows: nat, cols: nat) -> Seq<u8> {
    Seq::new(rows * cols, |i: int| src[i % rows as int * cols + i / rows as int])
}

/// Whether the element of row `r` and column `c` stands in its place.
pub open spec fn placed(src: Seq<u8>, dst: Seq<u8>, rows: int, cols: int, r: int, c: int) -> bool {
    dst[c * rows + r] == src[r * cols + c]
}

/// Different places have different indices.
proof fn places_differ(r: int, c: int, a: int, b: int, rows: int)
    requires
        0 <= r < rows,
        0 <= a < rows,
        0 <= c,
        0 <= b,
        r != a || c != b,
    ensures
        c * rows + r != b * rows + a,
{
    row_col(c, r, rows);
    row_col(b, a, rows);
}

const BLOCK: usize = 64;

/// The end of the block that starts at `from`.
fn block_end(from: usize, limit: usize) -> (r: usize)
    requires
        from < limit,
    ensures
        from < r <= limit,
{
    if limit - from > BLOCK {
        from + BLOCK
    } else {
        limit
    }
}

/// Blocked transpose of a `[rows, cols]` u8 matrix into `[cols, rows]`.
pub fn transpose_u8(src: &[u8], rows: usize, cols: usize) -> (dst: Vec<u8>)
    requires
        src@.len() == rows * cols,
    ensures
        dst@ == transposed(src@, rows as nat, cols as nat),
{
    let mut dst: Vec<u8> = Vec::new();
    dst.resize(src.len(), 0);
    let mut r0: usize = 0;
    while r0 < rows
        invariant
            r0 <= rows,
            src@.len() == rows * cols,
            dst@.len() == rows * cols,
            forall|r: int, c: int|
                0 <= r < r0 && 0 <= c < cols ==> #[trigger] placed(
                    src@,
                    dst@,
                    rows as int,
                    cols as int,
                    r,
                    c,
                ),
        decreases rows - r0,
    {
        let r1: usize = block_end(r0, rows);
        let mut c0: usize = 0;
        while c0 < cols
            invariant
                r0 < r1 <= rows,
                c0 <= cols,
                src@.len() == rows * cols,
                dst@.len() == rows * cols,
                forall|r: int, c: int|
                    (0 <= r < r0 && 0 <= c < cols) || (0 <= r < r1 && 0 <= c < c0)
                        ==> #[trigger] placed(src@, dst@, rows as int, cols as int, r, c),
            decreases cols - c0,
        {
            let c1: usize = block_end(c0, cols);
            let mut r: usize = r0;
            while r < r1
                invariant
                    r0 <= r <= r1 <= rows,
                    c0 < c1 <= cols,
                    src@.len() == rows * cols,
                    dst@.len() == rows * cols,
                    forall|a: int, b: int|
                        (0 <= a < r0 && 0 <= b < cols) || (0 <= a < r1 && 0 <= b < c0) || (0 <= a
                            < r && 0 <= b < c1) ==> #[trigger] placed(
                            src@,
                            dst@,
                            rows as int,
                            cols as int,
                            a,
                            b,
                        ),
                decreases r1 - r,
            {
                let mut c: usize = c0;
                while c < c1
                    invariant
                        r0 <= r < r1 <= rows,
                        c0 <= c <= c1 <= cols,
                        src@.len() == rows * cols,
                        dst@.len() == rows * cols,
                        forall|a: int, b: int|
                            (0 <= a < r0 && 0 <= b < cols) || (0 <= a < r1 && 0 <= b < c0) || (0
                                <= a < r && 0 <= b < c1) || (a == r && 0 <= b < c)
                                ==> #[trigger] placed(
                                src@,
                                dst@,
                                rows as int,
                                cols as int,
                                a,
                                b,
                            ),
                    decreases c1 - c,
                {
                    let ghost before = dst@;
                    proof {
                        within(r as int, c as int, rows as int, cols as int);
                        within(c as int, r as int, cols as int, rows as int);
                        assert(cols * rows == rows * cols) by (nonlinear_arith);
                        assert(src.len() == rows * cols);
                    }
                    dst[c * rows + r] = src[r * cols + c];
                    proof {
                        assert forall|a: int, b: int|
                            (0 <= a < r0 && 0 <= b < cols) || (0 <= a < r1 && 0 <= b < c0) || (0
                                <= a < r && 0 <= b < c1) || (a == r && 0 <= b < c + 1) implies
                            #[trigger] placed(src@, dst@, rows as int, cols as int, a, b) by {
                            if a != r || b != c {
                                assert(placed(src@, before, rows as int, cols as int, a, b));
                                places_differ(r as int, c as int, a, b, rows as int);
                                within(b, a, cols as int, rows as int);
                            }
                        }
                    }
                    c += 1;
                }
                r += 1;
            }
            c0 = c1;
        }
        r0 = r1;
    }
    proof {
        let want = transposed(src@, rows as nat, cols as nat);
        assert forall|i: int| 0 <= i < dst@.len() implies dst@[i] == want[i] by {
            if rows == 0 {
                assert(rows * cols == 0) by (nonlinear_arith)
                    requires
                        rows == 0,
                ;
            }
            lemma_fundamental_div_mod(i, rows as int);
            let r = i % rows as int;
            let c = i / rows as int;
            assert(rows * c == c * rows) by (nonlinear_arith);
            assert(0 <= c < cols) by (nonlinear_arith)
                requires
                    c == i / rows as int,
                    0 <= i < rows * cols,
                    rows > 0,
            ;
            assert(placed(src@, dst@, rows as int, cols as int, r, c));
        }
        assert(dst@ =~= want);
    }
    dst
}

/// Two codes in one byte, `lo` in the low half.
pub open spec fn nibbles(lo: u8, hi: u8) -> u8 {
    lo | (hi << 4)
}

/// The Q4_0 block of 32 codes: the scale, then the codes by split halves.
pub open spec fn q4_0_block(scale: u16, c: Seq<u8>) -> Seq<u8> {
    le_bytes(scale as nat, 2) + Seq::new(16, |j: int| nibbles(c[j], c[j + 16]))
}

/// The Q4_0_AR16 block of 16 codes: the scale, then the codes in pairs.
pub open spec fn ar16_block(scale: u16, c: Seq<u8>) -> Seq<u8> {
    le_bytes(scale as nat, 2) + Seq::new(8, |j: int| nibbles(c[2 * j], c[2 * j + 1]))
}

/// `n` blocks of `len` bytes one after another.
pub open spec fn blocks(n: nat, len: nat, block: spec_fn(int) -> Seq<u8>) -> Seq<u8> {
    Seq::new(n * len, |i: int| block(i / len as int)[i % len as int])
}

/// Block `k` of a matrix of codes in rows of `in_f`, in blocks of `size`.
pub open spec fn block_codes(codes: Seq<u8>, in_f: nat, size: nat, k: int) -> Seq<u8> {
    let n_blocks = (in_f / size) as int;
    let start = k / n_blocks * in_f + k % n_blocks * size;
    codes.subrange(start, start + size)
}

/// Where the scale of block `b` of row `o` stands in `[groups, out]` scales.
pub open spec fn group_scale_at(o: int, b: int, out_f: nat, group_size: nat) -> int {
    b / (group_size / 32) as int * out_f + o
}

/// The Q4_0 blocks of a matrix, by number.
pub open spec fn q4_0_blocks(
    codes: Seq<u8>,
    scales: Seq<u16>,
    out_f: nat,
    in_f: nat,
    group_size: nat,
) -> spec_fn(int) -> Seq<u8> {
    |k: int|
        {
            let n_blocks = (in_f / 32) as int;
            q4_0_block(
                scales[group_scale_at(k / n_blocks, k % n_blocks, out_f, group_size)],
                block_codes(codes, in_f, 32, k),
            )
        }
}

/// A matrix in Q4_0.
pub open spec fn q4_0_packed(
    codes: Seq<u8>,
    scales: Seq<u16>,
    out_f: nat,
    in_f: nat,
    group_size: nat,
) -> Seq<u8> {
    blocks(out_f * (in_f / 32), 18, q4_0_blocks(codes, scales, out_f, in_f, group_size))
}

/// The Q4_0_AR16 blocks of a matrix, by number.
pub open spec fn ar16_blocks(codes: Seq<u8>, scales: Seq<u16>, in_f: nat) -> spec_fn(
    int,
) -> Seq<u8> {
    |k: int| ar16_block(scales[k], block_codes(codes, in_f, 16, k))
}

/// A matrix in Q4_0_AR16.
pub open spec fn ar16_packed(codes: Seq<u8>, scales: Seq<u16>, out_f: nat, in_f: nat) -> Seq<u8> {
    blocks(out_f * (in_f / 16), 10, ar16_blocks(codes, scales, in_f))
}

/// One block more.
pub proof fn blocks_next(n: nat, len: nat, block: spec_fn(int) -> Seq<u8>)
    requires
        len > 0,
        block(n as int).len() == len,
    ensures
        blocks(n + 1, len, block) == blocks(n, len, block) + block(n as int),
{
    let l = blocks(n + 1, len, block);
    let r = blocks(n, len, block) + block(n as int);
    assert((n + 1) * len == n * len + len) by (nonlinear_arith);
    assert forall|i: int| 0 <= i < l.len() implies l[i] == r[i] by {
        if i >= n * len {
            row_col(n as int, i - n * len, len as int);
        }
    }
    assert(l =~= r);
}

/// Where block `b` of row `o` stands in a matrix of codes.
proof fn block_within(o: int, b: int, out_f: int, in_f: int, size: int)
    requires
        0 <= o < out_f,
        size > 0,
        in_f % size == 0,
        0 <= b < in_f / size,
    ensures
        o * (in_f / size) + b < out_f * (in_f / size),
        (o * (in_f / size) + b) / (in_f / size) == o,
        (o * (in_f / size) + b) % (in_f / size) == b,
        0 <= o * in_f + b * size,
        o * in_f + b * size + size <= (o + 1) * in_f <= out_f * in_f,
{
    within(o, b, out_f, in_f / size);
    row_col(o, b, in_f / size);
    lemma_fundamental_div_mod(in_f, size);
    assert(o * in_f + b * size + size <= (o + 1) * in_f <= out_f * in_f && 0 <= o * in_f + b * size)
        by (nonlinear_arith)
        requires
            0 <= o < out_f,
            size > 0,
            in_f == size * (in_f / size),
            0 <= b < in_f / size,
    ;
}

/// Append a Q4_0 block for the codes at `at`.
fn put_q4_0(out: &mut Vec<u8>, scale: u16, codes: &[u8], at: usize)
    requires
        at + 32 <= codes@.len(),
    ensures
        final(out)@ == old(out)@ + q4_0_block(scale, codes@.subrange(at as int, at + 32)),
{
    let ghost c = codes@.subrange(at as int, at + 32);
    let ghost whole = q4_0_block(scale, c);
    put_le(out, scale as u64, 2);
    proof {
        le_bytes_len(scale as nat, 2);
        assert(out@ =~= old(out)@ + whole.take(2));
    }
    let mut j: usize = 0;
    while j < 16
        invariant
            j <= 16,
            at + 32 <= codes@.len(),
            c == codes@.subrange(at as int, at + 32),
            whole == q4_0_block(scale, c),
            whole.len() == 18,
            le_bytes(scale as nat, 2).len() == 2,
            out@ == old(out)@ + whole.take(2 + j),
        decreases 16 - j,
    {
        assert(at + j + 16 < codes.len());
        out.push(codes[at + j] | (codes[at + j + 16] << 4));
        assert(whole[2 + j] == nibbles(c[j as int], c[j + 16]));
        assert(whole.take(3 + j) =~= whole.take(2 + j).push(whole[2 + j]));
        j += 1;
    }
    assert(whole.take(18) =~= whole);
}

/// Append a Q4_0_AR16 block for the codes at `at`.
fn put_ar16(out: &mut Vec<u8>, scale: u16, codes: &[u8], at: usize)
    requires
        at + 16 <= codes@.len(),
    ensures
        final(out)@ == old(out)@ + ar16_block(scale, codes@.subrange(at as int, at + 16)),
{
    let ghost c = codes@.subrange(at as int, at + 16);
    let ghost whole = ar16_block(scale, c);
    put_le(out, scale as u64, 2);
    proof {
        le_bytes_len(scale as nat, 2);
        assert(out@ =~= old(out)@ + whole.take(2));
    }
    let mut j: usize = 0;
    while j < 8
        invariant
            j <= 8,
            at + 16 <= codes@.len(),
            c == codes@.subrange(at as int, at + 16),
            whole == ar16_block(scale, c),
            whole.len() == 10,
            le_bytes(scale as nat, 2).len() == 2,
            out@ == old(out)@ + whole.take(2 + j),
        decreases 8 - j,
    {
        assert(at + 2 * j + 1 < codes.len());
        out.push(codes[at + 2 * j] | (codes[at + 2 * j + 1] << 4));
        assert(whole[2 + j] == nibbles(c[2 * j], c[2 * j + 1]));
        assert(whole.take(3 + j) =~= whole.take(2 + j).push(whole[2 + j]));
        j += 1;
    }
    assert(whole.take(10) =~= whole);
}

/// Pack Q4_0 blocks from codes in `[out, in]` order plus fp16 scale bits by
/// group in `[n_groups, out]` order, as stored in the checkpoint.
/// `group_size` inputs share one scale, replicated across `group_size / 32`
/// blocks.
pub fn pack_q4_0(
    codes_out_in: &[u8],
    scales_groups_out: &[u16],
    out_f: usize,
    in_f: usize,
    group_size: usize,
) -> (out: Vec<u8>)
    requires
        in_f % 32 == 0,
        group_size > 0,
        group_size % 32 == 0,
        out_f == 0 || in_f % group_size == 0,
        codes_out_in@.len() == out_f * in_f,
        scales_groups_out@.len() == (in_f / group_size) * out_f,
    ensures
        out@ == q4_0_packed(
            codes_out_in@,
            scales_groups_out@,
            out_f as nat,
            in_f as nat,
            group_size as nat,
        ),
{
    let n_blocks: usize = in_f / 32;
    let blocks_per_grp: usize = group_size / 32;
    let ghost block = q4_0_blocks(
        codes_out_in@,
        scales_groups_out@,
        out_f as nat,
        in_f as nat,
        group_size as nat,
    );
    let mut out: Vec<u8> = Vec::new();
    let mut o: usize = 0;
    assert(out@ =~= blocks(0, 18, block));
    while o < out_f
        invariant
            o <= out_f,
            in_f % 32 == 0,
            group_size > 0,
            group_size % 32 == 0,
            out_f == 0 || in_f % group_size == 0,
            n_blocks == in_f / 32,
            blocks_per_grp == group_size / 32,
            codes_out_in@.len() == out_f * in_f,
            scales_groups_out@.len() == (in_f / group_size) * out_f,
            block == q4_0_blocks(
                codes_out_in@,
                scales_groups_out@,
                out_f as nat,
                in_f as nat,
                group_size as nat,
            ),
            out@ == blocks((o * n_blocks) as nat, 18, block),
        decreases out_f - o,
    {
        let mut b: usize = 0;
        while b < n_blocks
            invariant
                b <= n_blocks,
                o < out_f,
                in_f % 32 == 0,
                group_size > 0,
                group_size % 32 == 0,
                in_f % group_size == 0,
                n_blocks == in_f / 32,
                blocks_per_grp == group_size / 32,
                codes_out_in@.len() == out_f * in_f,
                scales_groups_out@.len() == (in_f / group_size) * out_f,
                block == q4_0_blocks(
                    codes_out_in@,
                    scales_groups_out@,
                    out_f as nat,
                    in_f as nat,
                    group_size as nat,
                ),
                out@ == blocks((o * n_blocks + b) as nat, 18, block),
            decreases n_blocks - b,
        {
            proof {
                assert(codes_out_in.len() == out_f * in_f);
                assert(scales_groups_out.len() == (in_f / group_size) * out_f);
                block_within(o as int, b as int, out_f as int, in_f as int, 32);
                group_within(b as int, in_f as int, group_size as int);
                within(
                    (b / blocks_per_grp) as int,
                    o as int,
                    (in_f / group_size) as int,
                    out_f as int,
                );
            }
            let scale: u16 = scales_groups_out[(b / blocks_per_grp) * out_f + o];
            assert(0 <= o * in_f <= o * in_f + b * 32) by (nonlinear_arith)
                requires
                    0 <= o,
                    0 <= in_f,
                    0 <= b,
            ;
            put_q4_0(&mut out, scale, codes_out_in, o * in_f + b * 32);
            proof {
                le_bytes_len(scale as nat, 2);
                blocks_next((o * n_blocks + b) as nat, 18, block);
            }
            b += 1;
        }
        assert((o + 1) * n_blocks == o * n_blocks + n_blocks) by (nonlinear_arith);
        o += 1;
    }
    out
}

/// Every block lies in a group.
proof fn group_within(b: int, in_f: int, group_size: int)
    requires
        group_size > 0,
        group_size % 32 == 0,
        in_f % group_size == 0,
        0 <= b < in_f / 32,
    ensures
        0 <= b / (group_size / 32) < in_f / group_size,
{
    let per = group_size / 32;
    let groups = in_f / group_size;
    lemma_fundamental_div_mod(in_f, group_size);
    lemma_fundamental_div_mod(b, per);
    assert(in_f == 32 * (per * groups)) by (nonlinear_arith)
        requires
            in_f == group_size * groups,
            group_size == 32 * per,
    ;
    assert(0 <= b / per < groups) by (nonlinear_arith)
        requires
            b == per * (b / per) + b % per,
            0 <= b % per < per,
            0 <= b < per * groups,
            per > 0,
    ;
}

/// Pack Q4_0_AR16 blocks from codes in `[out, in]` order plus a scale for
/// each block of 16 elements in `[out, n_blocks]` order.
pub fn pack_q4_0_ar16(
    codes_out_in: &[u8],
    scales_out_blocks: &[u16],
    out_f: usize,
    in_f: usize,
) -> (out: Vec<u8>)
    requires
        in_f % 16 == 0,
        codes_out_in@.len() == out_f * in_f,
        scales_out_blocks@.len() == out_f * (in_f / 16),
    ensures
        out@ == ar16_packed(codes_out_in@, scales_out_blocks@, out_f as nat, in_f as nat),
{
    let n_blocks: usize = in_f / 16;
    let ghost block = ar16_blocks(codes_out_in@, scales_out_blocks@, in_f as nat);
    let mut out: Vec<u8> = Vec::new();
    let mut o: usize = 0;
    assert(out@ =~= blocks(0, 10, block));
    while o < out_f
        invariant
            o <= out_f,
            in_f % 16 == 0,
            n_blocks == in_f / 16,
            codes_out_in@.len() == out_f * in_f,
            scales_out_blocks@.len() == out_f * n_blocks,
            block == ar16_blocks(codes_out_in@, scales_out_blocks@, in_f as nat),
            out@ == blocks((o * n_blocks) as nat, 10, block),
        decreases out_f - o,
    {
        let mut b: usize = 0;
        while b < n_blocks
            invariant
                b <= n_blocks,
                o < out_f,
                in_f % 16 == 0,
                n_blocks == in_f / 16,
                codes_out_in@.len() == out_f * in_f,
                scales_out_blocks@.len() == out_f * n_blocks,
                block == ar16_blocks(codes_out_in@, scales_out_blocks@, in_f as nat),
                out@ == blocks((o * n_blocks + b) as nat, 10, block),
            decreases n_blocks - b,
        {
            proof {
                assert(codes_out_in.len() == out_f * in_f);
                assert(scales_out_blocks.len() == out_f * n_blocks);
                block_within(o as int, b as int, out_f as int, in_f as int, 16);
                assert(0 <= o * n_blocks && 0 <= o * in_f) by (nonlinear_arith);
            }
            let scale: u16 = scales_out_blocks[o * n_blocks + b];
            put_ar16(&mut out, scale, codes_out_in, o * in_f + b * 16);
            proof {
                le_bytes_len(scale as nat, 2);
                blocks_next((o * n_blocks + b) as nat, 10, block);
            }
            b += 1;
        }
        assert((o + 1) * n_blocks == o * n_blocks + n_blocks) by (nonlinear_arith);
        o += 1;
    }
    out
}

/// The original index that feeds target position `t`.
pub open spec fn v_source(num_k_heads: nat, num_v_heads: nat, head_dim: nat, t: int) -> int {
    let head = t / head_dim as int;
    let k = head % num_k_heads as int;
    let v = head / num_k_heads as int;
    (k * (num_v_heads / num_k_heads) + v) * head_dim + t % head_dim as int
}

/// Every position has its source among the positions.
pub proof fn v_source_within(num_k_heads: nat, num_v_heads: nat, head_dim: nat, t: int)
    requires
        num_k_heads > 0,
        num_v_heads % num_k_heads == 0,
        0 <= t < num_v_heads * head_dim,
    ensures
        0 <= v_source(num_k_heads, num_v_heads, head_dim, t) < num_v_heads * head_dim,
{
    let per = (num_v_heads / num_k_heads) as int;
    let hd = head_dim as int;
    let nk = num_k_heads as int;
    if head_dim == 0 {
        assert(num_v_heads * head_dim == 0) by (nonlinear_arith)
            requires
                head_dim == 0,
        ;
    }
    let head = t / hd;
    lemma_fundamental_div_mod(t, hd);
    lemma_fundamental_div_mod(num_v_heads as int, nk);
    lemma_fundamental_div_mod(head, nk);
    assert(0 <= head < num_v_heads) by (nonlinear_arith)
        requires
            t == hd * head + t % hd,
            0 <= t % hd < hd,
            0 <= t < num_v_heads * hd,
    ;
    assert(0 <= head / nk < per) by (nonlinear_arith)
        requires
            head == nk * (head / nk) + head % nk,
            0 <= head % nk < nk,
            0 <= head < num_v_heads,
            num_v_heads == nk * per,
    ;
    within(head % nk, head / nk, nk, per);
    within(head % nk * per + head / nk, t % hd, num_v_heads as int, hd);
}

/// V-head reorder permutation: grouped-by-K-head -> tiled order.
/// `perm[t]` gives the original index that feeds target position `t`, over
/// `num_v_heads * head_dim` positions.
pub fn v_reorder_perm(num_k_heads: usize, num_v_heads: usize, head_dim: usize) -> (perm: Vec<usize>)
    requires
        num_k_heads > 0,
        num_v_heads % num_k_heads == 0,
        num_v_heads * head_dim <= usize::MAX,
    ensures
        perm@.len() == num_v_heads * head_dim,
        forall|t: int|
            0 <= t < perm@.len() ==> #[trigger] perm@[t] == v_source(
                num_k_heads as nat,
                num_v_heads as nat,
                head_dim as nat,
                t,
            ),
{
    let num_v_per_k: usize = num_v_heads / num_k_heads;
    let mut perm: Vec<usize> = Vec::new();
    let mut head: usize = 0;
    while head < num_v_heads
        invariant
            head <= num_v_heads,
            num_k_heads > 0,
            num_v_heads % num_k_heads == 0,
            num_v_heads * head_dim <= usize::MAX,
            num_v_per_k == num_v_heads / num_k_heads,
            perm@.len() == head * head_dim,
            forall|t: int|
                0 <= t < perm@.len() ==> #[trigger] perm@[t] == v_source(
                    num_k_heads as nat,
                    num_v_heads as nat,
                    head_dim as nat,
                    t,
                ),
        decreases num_v_heads - head,
    {
        let kh: usize = head % num_k_heads;
        let vpk: usize = head / num_k_heads;
        let mut d: usize = 0;
        while d < head_dim
            invariant
                d <= head_dim,
                head < num_v_heads,
                num_k_heads > 0,
                num_v_heads % num_k_heads == 0,
                num_v_heads * head_dim <= usize::MAX,
                num_v_per_k == num_v_heads / num_k_heads,
                kh == head % num_k_heads,
                vpk == head / num_k_heads,
                perm@.len() == head * head_dim + d,
                forall|t: int|
                    0 <= t < perm@.len() ==> #[trigger] perm@[t] == v_source(
                        num_k_heads as nat,
                        num_v_heads as nat,
                        head_dim as nat,
                        t,
                    ),
            decreases head_dim - d,
        {
            proof {
                let t = head * head_dim + d;
                row_col(head as int, d as int, head_dim as int);
                within(head as int, d as int, num_v_heads as int, head_dim as int);
                v_source_within(num_k_heads as nat, num_v_heads as nat, head_dim as nat, t);
                let h = kh * num_v_per_k + vpk;
                assert(v_source(num_k_heads as nat, num_v_heads as nat, head_dim as nat, t) == h
                    * head_dim + d);
                assert(0 <= kh * num_v_per_k <= h <= h * head_dim) by (nonlinear_arith)
                    requires
                        kh >= 0,
                        num_v_per_k >= 0,
                        h == kh * num_v_per_k + vpk,
                        vpk >= 0,
                        head_dim >= 1,
                ;
            }
            perm.push((kh * num_v_per_k + vpk) * head_dim + d);
            d += 1;
        }
        assert((head + 1) * head_dim == head * head_dim + head_dim) by (nonlinear_arith);
        head += 1;
    }
    perm
}

/// What keeps a permutation from moving whole 16-aligned chunks.
#[derive(Debug, Clone, Copy, PartialEq, Eq, Structural)]
pub enum ChunkError {
    /// Its length is not a multiple of 16.
    Length,
    /// A chunk does not start at a multiple of 16.
    Start,
    /// A chunk is not contiguous.
    Order,
}

/// What is wrong with the chunk at `at`, if anything.
pub open spec fn chunk_error(perm: Seq<usize>, at: int) -> Option<ChunkError> {
    if perm[at] % 16 != 0 {
        Some(ChunkError::Start)
    } else if exists|i: int| 0 <= i < 16 && #[trigger] perm[at + i] != perm[at] + i {
        Some(ChunkError::Order)
    } else {
        None
    }
}

/// What is wrong with the chunks from `at` on, in their order.
pub open spec fn chunks_error(perm: Seq<usize>, at: int) -> Option<ChunkError>
    decreases perm.len() - at,
{
    if at + 16 > perm.len() {
        None
    } else if chunk_error(perm, at) is Some {
        chunk_error(perm, at)
    } else {
        chunks_error(perm, at + 16)
    }
}

/// Whether an element stands in its chunk as its source does in an aligned
/// chunk.
pub open spec fn keeps_chunk(perm: Seq<usize>, t: int) -> bool {
    perm[t] == perm[t - t % 16] + t % 16 && perm[t - t % 16] % 16 == 0
}

/// Whether a permutation moves whole 16-aligned chunks.
pub open spec fn moves_chunks(perm: Seq<usize>) -> bool {
    &&& perm.len() % 16 == 0
    &&& forall|t: int| 0 <= t < perm.len() ==> #[trigger] keeps_chunk(perm, t)
}

/// The chunks from `at` on are free of errors just when each of their
/// elements stands where its chunk starts plus its place in the chunk.
proof fn no_chunk_error(perm: Seq<usize>, at: int)
    requires
        perm.len() % 16 == 0,
        0 <= at <= perm.len(),
        at % 16 == 0,
    ensures
        chunks_error(perm, at) is None <==> forall|t: int|
            at <= t < perm.len() ==> #[trigger] keeps_chunk(perm, t),
    decreases perm.len() - at,
{
    if at < perm.len() {
        no_chunk_error(perm, at + 16);
        if chunk_error(perm, at) is None {
            assert forall|t: int| at <= t < at + 16 implies #[trigger] keeps_chunk(perm, t) by {
                let i = t - at;
                assert(perm[at + i] == perm[at] + i);
            }
        } else if perm[at] % 16 == 0 {
            let i = choose|i: int| 0 <= i < 16 && #[trigger] perm[at + i] != perm[at] + i;
            assert(!keeps_chunk(perm, at + i));
        } else {
            assert(!keeps_chunk(perm, at));
        }
    }
}

/// The first chunk that is broken, among chunks of full length.
fn find_broken_chunk(perm: &[usize]) -> (r: Option<ChunkError>)
    requires
        perm@.len() % 16 == 0,
    ensures
        r == chunks_error(perm@, 0),
{
    let mut at: usize = 0;
    while at < perm.len()
        invariant
            at <= perm@.len(),
            at % 16 == 0,
            perm@.len() % 16 == 0,
            chunks_error(perm@, 0) == chunks_error(perm@, at as int),
        decreases perm@.len() - at,
    {
        let start: usize = perm[at];
        if start % 16 != 0 {
            return Some(ChunkError::Start);
        }
        let mut i: usize = 0;
        while i < 16
            invariant
                i <= 16,
                at + 16 <= perm@.len(),
                start == perm@[at as int],
                start % 16 == 0,
                chunks_error(perm@, 0) == chunks_error(perm@, at as int),
                forall|j: int| 0 <= j < i ==> #[trigger] perm@[at + j] == start + j,
            decreases 16 - i,
        {
            assert(at + i < perm.len());
            let p: usize = perm[at + i];
            if p < start || p - start != i {
                assert(perm@[at + i as int] != perm@[at as int] + i);
                return Some(ChunkError::Order);
            }
            i += 1;
        }
        at += 16;
    }
    None
}

/// The V-col permutation must move whole 16-aligned chunks for Q4_0_AR16 to
/// be lossless: check that invariant.
pub fn assert_16_aligned_chunks(perm: &[usize]) -> (r: Result<(), ChunkError>)
    ensures
        r is Ok <==> moves_chunks(perm@),
        r == (if perm@.len() % 16 != 0 {
            Err::<(), ChunkError>(ChunkError::Length)
        } else {
            match chunks_error(perm@, 0) {
                Some(e) => Err(e),
                None => Ok(()),
            }
        }),
{
    if perm.len() % 16 != 0 {
        return Err(ChunkError::Length);
    }
    proof {
        no_chunk_error(perm@, 0);
    }
    match find_broken_chunk(perm) {
        Some(e) => Err(e),
        None => Ok(()),
    }
}

/// The code of input `i` of row `o` in a Q4_0 matrix.
pub open spec fn q4_0_code(packed: Seq<u8>, in_f: nat, o: int, i: int) -> u8 {
    let at = (o * (in_f / 32) + i / 32) * 18 + 2;
    if i % 32 < 16 {
        packed[at + i % 32] & 0xf
    } else {
        packed[at + i % 32 - 16] >> 4
    }
}

/// The scale of block `b` of row `o` in a Q4_0 matrix.
pub open spec fn q4_0_scale(packed: Seq<u8>, in_f: nat, o: int, b: int) -> nat {
    let at = (o * (in_f / 32) + b) * 18;
    le_value(packed.subrange(at, at + 2))
}

/// The code of input `i` of row `o` in a Q4_0_AR16 matrix.
pub open spec fn ar16_code(packed: Seq<u8>, in_f: nat, o: int, i: int) -> u8 {
    let at = (o * (in_f / 16) + i / 16) * 10 + 2;
    if i % 2 == 0 {
        packed[at + i % 16 / 2] & 0xf
    } else {
        packed[at + i % 16 / 2] >> 4
    }
}

/// The scale of block `b` of row `o` in a Q4_0_AR16 matrix.
pub open spec fn ar16_scale(packed: Seq<u8>, in_f: nat, o: int, b: int) -> nat {
    let at = (o * (in_f / 16) + b) * 10;
    le_value(packed.subrange(at, at + 2))
}

/// Both halves of a byte are recovered.
proof fn nibbles_split(lo: u8, hi: u8)
    requires
        lo <= 15,
        hi <= 15,
    ensures
        nibbles(lo, hi) & 0xf == lo,
        nibbles(lo, hi) >> 4 == hi,
{
    assert((lo | (hi << 4)) & 0xf == lo && (lo | (hi << 4)) >> 4 == hi) by (bit_vector)
        requires
            lo <= 15,
            hi <= 15,
    ;
}

/// Byte `t` of block `k` among blocks.
proof fn block_byte(n: nat, len: nat, block: spec_fn(int) -> Seq<u8>, k: int, t: int)
    requires
        0 <= k < n,
        0 <= t < len,
    ensures
        0 <= k * len + t < n * len,
        blocks(n, len, block)[k * len + t] == block(k)[t],
{
    within(k, t, n as int, len as int);
    row_col(k, t, len as int);
}

/// Block and place of input `i`.
proof fn block_of(i: int, in_f: int, size: int)
    requires
        size > 0,
        in_f % size == 0,
        0 <= i < in_f,
    ensures
        0 <= i / size < in_f / size,
        i == i / size * size + i % size,
        0 <= i % size < size,
{
    lemma_fundamental_div_mod(i, size);
    lemma_fundamental_div_mod(in_f, size);
    assert(0 <= i / size < in_f / size && i == i / size * size + i % size) by (nonlinear_arith)
        requires
            i == size * (i / size) + i % size,
            0 <= i % size < size,
            in_f == size * (in_f / size),
            0 <= i < in_f,
    ;
}

/// Packing to Q4_0 is lossless: every code and every scale is recovered from
/// the packed matrix.
pub proof fn q4_0_is_lossless(
    codes: Seq<u8>,
    scales: Seq<u16>,
    out_f: nat,
    in_f: nat,
    group_size: nat,
)
    requires
        in_f % 32 == 0,
        group_size > 0,
        group_size % 32 == 0,
        out_f == 0 || in_f % group_size == 0,
        codes.len() == out_f * in_f,
        scales.len() == (in_f / group_size) * out_f,
        forall|i: int| 0 <= i < codes.len() ==> #[trigger] codes[i] <= 15,
    ensures
        forall|o: int, i: int|
            0 <= o < out_f && 0 <= i < in_f ==> #[trigger] q4_0_code(
                q4_0_packed(codes, scales, out_f, in_f, group_size),
                in_f,
                o,
                i,
            ) == codes[o * in_f + i],
        forall|o: int, b: int|
            0 <= o < out_f && 0 <= b < in_f / 32 ==> #[trigger] q4_0_scale(
                q4_0_packed(codes, scales, out_f, in_f, group_size),
                in_f,
                o,
                b,
            ) == scales[b * 32 / group_size as int * out_f + o],
{
    let n = out_f * (in_f / 32);
    let block = q4_0_blocks(codes, scales, out_f, in_f, group_size);
    let packed = q4_0_packed(codes, scales, out_f, in_f, group_size);
    assert forall|o: int, i: int| 0 <= o < out_f && 0 <= i < in_f implies #[trigger] q4_0_code(
        packed,
        in_f,
        o,
        i,
    ) == codes[o * in_f + i] by {
        let b = i / 32;
        block_of(i, in_f as int, 32);
        block_within(o, b, out_f as int, in_f as int, 32);
        within(o, i, out_f as int, in_f as int);
        let k = o * (in_f / 32) + b;
        let c = block_codes(codes, in_f, 32, k);
        let j = if i % 32 < 16 { i % 32 } else { i % 32 - 16 };
        assert(0 <= k) by (nonlinear_arith)
            requires
                k == o * (in_f / 32) + b,
                0 <= o,
                0 <= b,
        ;
        block_byte(n, 18, block, k, 2 + j);
        assert(c[j] == codes[o * in_f + b * 32 + j]);
        assert(c[j + 16] == codes[o * in_f + b * 32 + j + 16]);
        nibbles_split(c[j], c[j + 16]);
        le_bytes_len(
            scales[group_scale_at(o, b, out_f, group_size)] as nat,
            2,
        );
        assert(block(k)[2 + j] == nibbles(c[j], c[j + 16]));
    }
    assert forall|o: int, b: int| 0 <= o < out_f && 0 <= b < in_f / 32 implies #[trigger] q4_0_scale(
        packed,
        in_f,
        o,
        b,
    ) == scales[b * 32 / group_size as int * out_f + o] by {
        block_within(o, b, out_f as int, in_f as int, 32);
        let k = o * (in_f / 32) + b;
        assert(0 <= k) by (nonlinear_arith)
            requires
                k == o * (in_f / 32) + b,
                0 <= o,
                0 <= b,
        ;
        block_byte(n, 18, block, k, 0);
        block_byte(n, 18, block, k, 1);
        let scale = scales[group_scale_at(o, b, out_f, group_size)];
        le_bytes_len(scale as nat, 2);
        pow256_values();
        le_round_trip(scale as nat, 2);
        assert(packed.subrange(k * 18, k * 18 + 2) =~= le_bytes(scale as nat, 2));
        group_of_block(b, group_size as int);
    }
}

/// The group of a block, by elements and by blocks.
proof fn group_of_block(b: int, group_size: int)
    requires
        0 <= b,
        group_size > 0,
        group_size % 32 == 0,
    ensures
        b * 32 / group_size == b / (group_size / 32),
{
    let per = group_size / 32;
    lemma_fundamental_div_mod(b, per);
    let q = b / per;
    let r = b % per;
    assert(b * 32 == q * group_size + r * 32 && 0 <= r * 32 < group_size) by (nonlinear_arith)
        requires
            b == per * q + r,
            0 <= r < per,
            group_size == 32 * per,
    ;
    row_col(q, r * 32, group_size);
}

/// Packing to Q4_0_AR16 is lossless: every code and every scale is recovered
/// from the packed matrix.
pub proof fn ar16_is_lossless(codes: Seq<u8>, scales: Seq<u16>, out_f: nat, in_f: nat)
    requires
        in_f % 16 == 0,
        codes.len() == out_f * in_f,
        scales.len() == out_f * (in_f / 16),
        forall|i: int| 0 <= i < codes.len() ==> #[trigger] codes[i] <= 15,
    ensures
        forall|o: int, i: int|
            0 <= o < out_f && 0 <= i < in_f ==> #[trigger] ar16_code(
                ar16_packed(codes, scales, out_f, in_f),
                in_f,
                o,
                i,
            ) == codes[o * in_f + i],
        forall|o: int, b: int|
            0 <= o < out_f && 0 <= b < in_f / 16 ==> #[trigger] ar16_scale(
                ar16_packed(codes, scales, out_f, in_f),
                in_f,
                o,
                b,
            ) == scales[o * (in_f / 16) + b],
{
    let n = out_f * (in_f / 16);
    let block = ar16_blocks(codes, scales, in_f);
    let packed = ar16_packed(codes, scales, out_f, in_f);
    assert forall|o: int, i: int| 0 <= o < out_f && 0 <= i < in_f implies #[trigger] ar16_code(
        packed,
        in_f,
        o,
        i,
    ) == codes[o * in_f + i] by {
        let b = i / 16;
        block_of(i, in_f as int, 16);
        block_within(o, b, out_f as int, in_f as int, 16);
        within(o, i, out_f as int, in_f as int);
        let k = o * (in_f / 16) + b;
        let c = block_codes(codes, in_f, 16, k);
        let j = i % 16 / 2;
        assert(0 <= k) by (nonlinear_arith)
            requires
                k == o * (in_f / 16) + b,
                0 <= o,
                0 <= b,
        ;
        block_byte(n, 10, block, k, 2 + j);
        assert(c[2 * j] == codes[o * in_f + b * 16 + 2 * j]);
        assert(c[2 * j + 1] == codes[o * in_f + b * 16 + 2 * j + 1]);
        nibbles_split(c[2 * j], c[2 * j + 1]);
        le_bytes_len(scales[k] as nat, 2);
        assert(block(k)[2 + j] == nibbles(c[2 * j], c[2 * j + 1]));
        assert(i % 2 == i % 16 % 2);
    }
    assert forall|o: int, b: int| 0 <= o < out_f && 0 <= b < in_f / 16 implies #[trigger] ar16_scale(
        packed,
        in_f,
        o,
        b,
    ) == scales[o * (in_f / 16) + b] by {
        block_within(o, b, out_f as int, in_f as int, 16);
        let k = o * (in_f / 16) + b;
        assert(0 <= k) by (nonlinear_arith)
            requires
                k == o * (in_f / 16) + b,
                0 <= o,
                0 <= b,
        ;
        block_byte(n, 10, block, k, 0);
        block_byte(n, 10, block, k, 1);
        let scale = scales[k];
        le_bytes_len(scale as nat, 2);
        pow256_values();
        le_round_trip(scale as nat, 2);
        assert(packed.subrange(k * 10, k * 10 + 2) =~= le_bytes(scale as nat, 2));
    }
}

/// Unpacking is lossless: a word is the sum of its eight codes, each in its
/// place.
pub proof fn unpacking_is_lossless(word: u32)
    ensures
        word == code_of(word, 0) as u32 | (code_of(word, 1) as u32) << 4 | (code_of(word, 2) as u32)
            << 8 | (code_of(word, 3) as u32) << 12 | (code_of(word, 4) as u32) << 16 | (code_of(
            word,
            5,
        ) as u32) << 20 | (code_of(word, 6) as u32) << 24 | (code_of(word, 7) as u32) << 28,
{
    assert(word == ((word >> 0u32) & 0xf) as u8 as u32 | (((word >> 4u32) & 0xf) as u8 as u32) << 4
        | (((word >> 8u32) & 0xf) as u8 as u32) << 8 | (((word >> 12u32) & 0xf) as u8 as u32) << 12
        | (((word >> 16u32) & 0xf) as u8 as u32) << 16 | (((word >> 20u32) & 0xf) as u8 as u32)
        << 20 | (((word >> 24u32) & 0xf) as u8 as u32) << 24 | (((word >> 28u32) & 0xf) as u8 as u32)
        << 28) by (bit_vector);
}

/// Transposing a `[rows, cols]` matrix twice gives it back.
pub proof fn transposing_twice_is_identity(m: Seq<u8>, rows: nat, cols: nat)
    requires
        m.len() == rows * cols,
    ensures
        transposed(transposed(m, rows, cols), cols, rows) == m,
{
    let t = transposed(m, rows, cols);
    let back = transposed(t, cols, rows);
    assert(rows * cols == cols * rows) by (nonlinear_arith);
    assert forall|i: int| 0 <= i < m.len() implies back[i] == m[i] by {
        if cols == 0 {
            assert(rows * cols == 0) by (nonlinear_arith)
                requires
                    cols == 0,
            ;
        }
        let r = i / cols as int;
        let c = i % cols as int;
        lemma_fundamental_div_mod(i, cols as int);
        assert(0 <= r < rows && i == r * cols + c) by (nonlinear_arith)
            requires
                i == cols * r + c,
                0 <= c < cols,
                0 <= i < rows * cols,
        ;
        within(c, r, cols as int, rows as int);
        row_col(c, r, rows as int);
    }
    assert(back =~= m);
}

/// Whether some position has `p` as its source.
pub open spec fn is_source(num_k_heads: nat, num_v_heads: nat, head_dim: nat, p: int) -> bool {
    exists|t: int|
        0 <= t < num_v_heads * head_dim && p == #[trigger] v_source(
            num_k_heads,
            num_v_heads,
            head_dim,
            t,
        )
}

/// The V-head reorder is a permutation: no position is a source twice, and
/// every position is a source.
pub proof fn v_reorder_is_permutation(num_k_heads: nat, num_v_heads: nat, head_dim: nat)
    requires
        num_k_heads > 0,
        num_v_heads % num_k_heads == 0,
    ensures
        forall|s: int, t: int|
            0 <= s < t < num_v_heads * head_dim ==> #[trigger] v_source(
                num_k_heads,
                num_v_heads,
                head_dim,
                s,
            ) != #[trigger] v_source(num_k_heads, num_v_heads, head_dim, t),
        forall|p: int|
            0 <= p < num_v_heads * head_dim ==> #[trigger] is_source(
                num_k_heads,
                num_v_heads,
                head_dim,
                p,
            ),
{
    let n = num_v_heads * head_dim;
    let per = (num_v_heads / num_k_heads) as nat;
    lemma_fundamental_div_mod(num_v_heads as int, num_k_heads as int);
    assert(num_v_heads == num_k_heads * per);
    assert forall|t: int| 0 <= t < n implies v_source(
        per,
        num_v_heads,
        head_dim,
        #[trigger] v_source(num_k_heads, num_v_heads, head_dim, t),
    ) == t by {
        v_source_undone(num_k_heads, per, head_dim, t);
    }
    if num_v_heads > 0 {
        assert(per > 0 && num_v_heads % per == 0 && num_v_heads / per == num_k_heads) by {
            assert(per > 0) by (nonlinear_arith)
                requires
                    num_v_heads == num_k_heads * per,
                    num_v_heads > 0,
            ;
            assert(num_v_heads == num_k_heads * per + 0);
            row_col(num_k_heads as int, 0, per as int);
        }
        assert forall|p: int| 0 <= p < n implies #[trigger] is_source(
            num_k_heads,
            num_v_heads,
            head_dim,
            p,
        ) by {
            let t = v_source(per, num_v_heads, head_dim, p);
            v_source_within(per, num_v_heads, head_dim, p);
            assert(per * num_k_heads == num_k_heads * per) by (nonlinear_arith);
            v_source_undone(per, num_k_heads, head_dim, p);
            assert(p == v_source(num_k_heads, num_v_heads, head_dim, t));
        }
    } else {
        assert(n == 0) by (nonlinear_arith)
            requires
                n == num_v_heads * head_dim,
                num_v_heads == 0,
        ;
    }
}

/// Exchanging the two kinds of head undoes the reorder.
proof fn v_source_undone(nk: nat, per: nat, head_dim: nat, t: int)
    requires
        nk > 0,
        0 <= t < nk * per * head_dim,
    ensures
        v_source(per, nk * per, head_dim, v_source(nk, nk * per, head_dim, t)) == t,
{
    let hd = head_dim as int;
    let nv = nk * per;
    assert(hd > 0 && per > 0) by (nonlinear_arith)
        requires
            0 <= t < nk * per * hd,
            nk > 0,
            hd >= 0,
            per >= 0,
    ;
    let head = t / hd;
    let d = t % hd;
    lemma_fundamental_div_mod(t, hd);
    let k = head % nk as int;
    let v = head / nk as int;
    lemma_fundamental_div_mod(head, nk as int);
    assert(nv / nk == per && nv % nk == 0) by {
        assert(nk * per == per * nk + 0) by (nonlinear_arith);
        row_col(per as int, 0, nk as int);
    }
    assert(nv / per == nk) by {
        row_col(nk as int, 0, per as int);
    }
    assert(0 <= head < nv) by (nonlinear_arith)
        requires
            t == hd * head + d,
            0 <= d < hd,
            0 <= t < nv * hd,
    ;
    assert(0 <= v < per) by (nonlinear_arith)
        requires
            head == nk * v + k,
            0 <= k < nk,
            0 <= head < nk * per,
    ;
    let s = (k * per + v) * hd + d;
    assert(s == v_source(nk, nv, head_dim, t));
    within(k, v, nk as int, per as int);
    row_col(k * per + v, d, hd);
    row_col(k, v, per as int);
    assert(v * nk + k == head && head * hd + d == t) by (nonlinear_arith)
        requires
            head == nk * v + k,
            t == hd * head + d,
    ;
}

/// With a head dimension divisible by 16 the reorder moves whole 16-aligned
/// chunks, so that blocks of 16 stay whole.
pub proof fn v_reorder_keeps_chunks(
    num_k_heads: nat,
    num_v_heads: nat,
    head_dim: nat,
    perm: Seq<usize>,
)
    requires
        num_k_heads > 0,
        num_v_heads % num_k_heads == 0,
        head_dim % 16 == 0,
        perm.len() == num_v_heads * head_dim,
        forall|t: int|
            0 <= t < perm.len() ==> #[trigger] perm[t] == v_source(
                num_k_heads,
                num_v_heads,
                head_dim,
                t,
            ),
    ensures
        moves_chunks(perm),
{
    if head_dim == 0 {
        assert(num_v_heads * head_dim == 0) by (nonlinear_arith)
            requires
                head_dim == 0,
        ;
    }
    assert(num_v_heads * head_dim == 16 * (num_v_heads * (head_dim / 16))) by (nonlinear_arith)
        requires
            head_dim == 16 * (head_dim / 16),
    ;
    assert forall|t: int| 0 <= t < perm.len() implies #[trigger] keeps_chunk(perm, t) by {
        v_source_chunk(num_k_heads, num_v_heads, head_dim, t);
        assert(perm[t - t % 16] == v_source(num_k_heads, num_v_heads, head_dim, t - t % 16));
    }
}

/// The source of a position, from that of the chunk that holds it.
proof fn v_source_chunk(num_k_heads: nat, num_v_heads: nat, head_dim: nat, t: int)
    requires
        0 <= t,
        head_dim > 0,
        head_dim % 16 == 0,
    ensures
        ({
            let s = v_source(num_k_heads, num_v_heads, head_dim, t - t % 16);
            s % 16 == 0 && v_source(num_k_heads, num_v_heads, head_dim, t) == s + t % 16
        }),
{
    let hd = head_dim as int;
    let w = hd / 16;
    let head = t / hd;
    let d = t % hd;
    lemma_fundamental_div_mod(t, hd);
    let wh = w * head;
    assert(hd * head == 16 * wh && hd * head == head * hd) by (nonlinear_arith)
        requires
            hd == 16 * w,
            wh == w * head,
    ;
    assert(t % 16 == d % 16);
    assert(0 <= head) by (nonlinear_arith)
        requires
            head == t / hd,
            0 <= t,
            hd > 0,
    ;
    row_col(head, d - d % 16, hd);
    let base = head % num_k_heads as int * (num_v_heads / num_k_heads) + head / num_k_heads as int;
    let bw = base * w;
    assert(base * hd == 16 * bw) by (nonlinear_arith)
        requires
            hd == 16 * w,
            bw == base * w,
    ;
    assert(v_source(num_k_heads, num_v_heads, head_dim, t - t % 16) == base * hd + (d - d % 16));
}

} // verus!
