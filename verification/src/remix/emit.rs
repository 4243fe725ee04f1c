//! The data of each planned tensor.

use crate::fp::{
    bf16_half, bf16_single, bf16_to_f32, is_half_table, plus_one, single_plus_one,
};
use crate::ieee::sum::negated;
use crate::le::{le_bytes, le_bytes_len, put_le};
use crate::quant::{
    ar16_packed, assert_16_aligned_chunks, blocks, blocks_next, moves_chunks, pack_q4_0,
    pack_q4_0_ar16, q4_0_packed, row_col, transpose_u8, transposed, unpack_autogptq_int4,
    unpacked, v_reorder_perm, v_source, v_source_within, within,
};
use crate::remix::plan::{
    count_qk_rows, planned_within, refuse, Planned, PlannedView, Refusal, RemixError, Source,
    Topology,
};
use crate::safetensors::{ref_views, u16_values, u32_values, RefView, ShardSet, TensorRef};
use vstd::prelude::*;

verus! {

/// The number of inputs that share a scale.
pub const GROUP_SIZE: usize = 128;

/// The order of V heads, of V rows, and of the rows of Q, K and V.
#[derive(Debug)]
pub struct Perms {
    pub heads: Vec<usize>,
    pub rows: Vec<usize>,
    pub qkv: Vec<usize>,
}

/// The V reorder over heads of this size.
pub open spec fn reorder(topo: Topology, head_dim: nat) -> Seq<usize> {
    Seq::new(
        topo.num_v_heads as nat * head_dim,
        |t: int|
            v_source(topo.num_k_heads as nat, topo.num_v_heads as nat, head_dim, t) as usize,
    )
}

/// The V reorder behind the rows of Q and K.
pub open spec fn reorder_qkv(topo: Topology) -> Seq<usize> {
    let rows = reorder(topo, topo.head_v_dim as nat);
    Seq::new(
        (topo.qk_rows() + rows.len()) as nat,
        |i: int|
            if i < topo.qk_rows() {
                i as usize
            } else {
                (topo.qk_rows() + rows[i - topo.qk_rows()]) as usize
            },
    )
}

/// Whether all indices are within a list's own range.
pub open spec fn in_range(perm: Seq<usize>) -> bool {
    forall|i: int| 0 <= i < perm.len() ==> #[trigger] perm[i] < perm.len()
}

/// What the orders of a model mean.
pub struct PermsView {
    pub heads: Seq<usize>,
    pub rows: Seq<usize>,
    pub qkv: Seq<usize>,
}

impl View for Perms {
    type V = PermsView;

    open spec fn view(&self) -> PermsView {
        PermsView { heads: self.heads@, rows: self.rows@, qkv: self.qkv@ }
    }
}

impl PermsView {
    /// Whether all indices are in range.
    pub open spec fn wf(self) -> bool {
        in_range(self.heads) && in_range(self.rows) && in_range(self.qkv)
    }
}

/// The orders of a model.
pub open spec fn perms_of(topo: Topology) -> PermsView {
    PermsView {
        heads: reorder(topo, 1),
        rows: reorder(topo, topo.head_v_dim as nat),
        qkv: reorder_qkv(topo),
    }
}

/// The orders of a model. The order of V rows has to move whole blocks.
pub fn make_perms(topo: &Topology) -> (r: Result<Perms, RemixError>)
    requires
        topo.wf(),
    ensures
        r is Ok <==> moves_chunks(reorder(*topo, topo.head_v_dim as nat)),
        r matches Ok(p) ==> p@ == perms_of(*topo) && p@.wf(),
        r matches Err(e) ==> e@ == (Refusal::BrokenBlocks, ""@),
{
    let qk: usize = count_qk_rows(topo);
    let ghost nk = topo.num_k_heads as nat;
    let ghost nv = topo.num_v_heads as nat;
    let ghost hd = topo.head_v_dim as nat;
    assert(topo.num_v_heads * 1 == topo.num_v_heads);
    let heads = v_reorder_perm(topo.num_k_heads, topo.num_v_heads, 1);
    let rows = v_reorder_perm(topo.num_k_heads, topo.num_v_heads, topo.head_v_dim);
    proof {
        assert forall|t: int| 0 <= t < heads@.len() implies #[trigger] heads@[t] < heads@.len() by {
            v_source_within(nk, nv, 1, t);
        }
        assert forall|t: int| 0 <= t < rows@.len() implies #[trigger] rows@[t] < rows@.len() by {
            v_source_within(nk, nv, hd, t);
        }
        assert(heads@ =~= reorder(*topo, 1));
        assert(rows@ =~= reorder(*topo, hd));
    }
    match assert_16_aligned_chunks(&rows) {
        Ok(()) => {},
        Err(_) => {
            return Err(refuse(Refusal::BrokenBlocks, ""));
        },
    }
    let ghost want = reorder_qkv(*topo);
    let mut qkv: Vec<usize> = Vec::new();
    let mut i: usize = 0;
    while i < qk
        invariant
            i <= qk,
            qk == topo.qk_rows(),
            want == reorder_qkv(*topo),
            want.len() == qk + rows@.len(),
            qkv@.len() == i,
            forall|k: int| 0 <= k < i ==> #[trigger] qkv@[k] == want[k],
        decreases qk - i,
    {
        qkv.push(i);
        i += 1;
    }
    let mut j: usize = 0;
    while j < rows.len()
        invariant
            j <= rows@.len(),
            in_range(rows@),
            qk == topo.qk_rows(),
            rows@ == reorder(*topo, topo.head_v_dim as nat),
            want == reorder_qkv(*topo),
            want.len() == qk + rows@.len(),
            qk + rows@.len() <= usize::MAX,
            qkv@.len() == qk + j,
            forall|k: int| 0 <= k < qkv@.len() ==> #[trigger] qkv@[k] == want[k],
        decreases rows@.len() - j,
    {
        assert(rows@[j as int] < rows@.len());
        qkv.push(qk + rows[j]);
        j += 1;
    }
    proof {
        assert(qkv@ =~= want);
        assert forall|i: int| 0 <= i < qkv@.len() implies #[trigger] qkv@[i] < qkv@.len() by {
            if i >= qk {
                assert(rows@[i - qk] < rows@.len());
            }
        }
    }
    Ok(Perms { heads, rows, qkv })
}

/// Rows of `row` elements in another order.
pub open spec fn gather_rows(m: Seq<u8>, perm: Seq<usize>, row: nat) -> Seq<u8> {
    Seq::new(
        perm.len() * row,
        |i: int| m[perm[i / row as int] * row + i % row as int],
    )
}

/// Rows of `row` elements in another order.
fn permute_rows(m: &[u8], perm: &[usize], row: usize) -> (r: Vec<u8>)
    requires
        in_range(perm@),
        m@.len() == perm@.len() * row,
    ensures
        r@ == gather_rows(m@, perm@, row as nat),
{
    let ghost want = gather_rows(m@, perm@, row as nat);
    let mut out: Vec<u8> = Vec::new();
    let mut j: usize = 0;
    while j < perm.len()
        invariant
            j <= perm@.len(),
            in_range(perm@),
            m@.len() == perm@.len() * row,
            want == gather_rows(m@, perm@, row as nat),
            out@.len() == j * row,
            forall|k: int| 0 <= k < out@.len() ==> #[trigger] out@[k] == want[k],
        decreases perm@.len() - j,
    {
        let from: usize = perm[j];
        let mut c: usize = 0;
        while c < row
            invariant
                c <= row,
                j < perm@.len(),
                from == perm@[j as int],
                in_range(perm@),
                m@.len() == perm@.len() * row,
                want == gather_rows(m@, perm@, row as nat),
                out@.len() == j * row + c,
                forall|k: int| 0 <= k < out@.len() ==> #[trigger] out@[k] == want[k],
            decreases row - c,
        {
            proof {
                assert(perm@[j as int] < perm@.len());
                assert(m.len() == perm@.len() * row);
                within(from as int, c as int, perm@.len() as int, row as int);
                within(j as int, c as int, perm@.len() as int, row as int);
                row_col(j as int, c as int, row as int);
            }
            out.push(m[from * row + c]);
            c += 1;
        }
        assert((j + 1) * row == j * row + row) by (nonlinear_arith);
        j += 1;
    }
    assert(out@ =~= want);
    out
}

/// Columns of scales in another order.
pub open spec fn gather_scales(s: Seq<u16>, perm: Seq<usize>, groups: nat) -> Seq<u16> {
    let cols = perm.len() as int;
    Seq::new(groups * perm.len(), |i: int| s[i / cols * cols + perm[i % cols]])
}

/// Columns of scales in another order.
fn permute_scales(s: &[u16], perm: &[usize], groups: usize) -> (r: Vec<u16>)
    requires
        in_range(perm@),
        s@.len() == groups * perm@.len(),
    ensures
        r@ == gather_scales(s@, perm@, groups as nat),
{
    let ghost want = gather_scales(s@, perm@, groups as nat);
    let n: usize = perm.len();
    let mut out: Vec<u16> = Vec::new();
    let mut g: usize = 0;
    while g < groups
        invariant
            g <= groups,
            n == perm@.len(),
            in_range(perm@),
            s@.len() == groups * perm@.len(),
            want == gather_scales(s@, perm@, groups as nat),
            out@.len() == g * n,
            forall|k: int| 0 <= k < out@.len() ==> #[trigger] out@[k] == want[k],
        decreases groups - g,
    {
        let mut j: usize = 0;
        while j < n
            invariant
                j <= n,
                g < groups,
                n == perm@.len(),
                in_range(perm@),
                s@.len() == groups * perm@.len(),
                want == gather_scales(s@, perm@, groups as nat),
                out@.len() == g * n + j,
                forall|k: int| 0 <= k < out@.len() ==> #[trigger] out@[k] == want[k],
            decreases n - j,
        {
            let from: usize = perm[j];
            proof {
                assert(perm@[j as int] < perm@.len());
                assert(s.len() == groups * n);
                within(g as int, from as int, groups as int, n as int);
                within(g as int, j as int, groups as int, n as int);
                row_col(g as int, j as int, n as int);
            }
            out.push(s[g * n + from]);
            j += 1;
        }
        assert((g + 1) * n == g * n + n) by (nonlinear_arith);
        g += 1;
    }
    assert(out@ =~= want);
    out
}

/// A scale for each block of 16 columns in another order, by row.
pub open spec fn block_scales(s: Seq<u16>, perm: Seq<usize>, out_f: nat) -> Seq<u16> {
    let n = (perm.len() / 16) as int;
    Seq::new(
        out_f * (perm.len() / 16),
        |i: int| s[perm[i % n * 16] / 128 * out_f + i / n],
    )
}

/// A scale for each block of 16 columns in another order, by row.
fn spread_scales(s: &[u16], perm: &[usize], out_f: usize) -> (r: Vec<u16>)
    requires
        in_range(perm@),
        out_f == 0 || perm@.len() % 128 == 0,
        s@.len() == (perm@.len() / 128) * out_f,
    ensures
        r@ == block_scales(s@, perm@, out_f as nat),
{
    let ghost want = block_scales(s@, perm@, out_f as nat);
    let n: usize = perm.len() / 16;
    let mut out: Vec<u16> = Vec::new();
    let mut o: usize = 0;
    while o < out_f
        invariant
            o <= out_f,
            n == perm@.len() / 16,
            in_range(perm@),
            out_f == 0 || perm@.len() % 128 == 0,
            s@.len() == (perm@.len() / 128) * out_f,
            want == block_scales(s@, perm@, out_f as nat),
            out@.len() == o * n,
            forall|k: int| 0 <= k < out@.len() ==> #[trigger] out@[k] == want[k],
        decreases out_f - o,
    {
        let mut b: usize = 0;
        while b < n
            invariant
                b <= n,
                o < out_f,
                n == perm@.len() / 16,
                in_range(perm@),
                perm@.len() % 128 == 0,
                s@.len() == (perm@.len() / 128) * out_f,
                want == block_scales(s@, perm@, out_f as nat),
                out@.len() == o * n + b,
                forall|k: int| 0 <= k < out@.len() ==> #[trigger] out@[k] == want[k],
            decreases n - b,
        {
            assert(b * 16 < perm.len());
            let from: usize = perm[b * 16];
            let g: usize = from / 128;
            proof {
                assert(perm@[b * 16] < perm@.len());
                assert(s.len() == (perm@.len() / 128) * out_f);
                within(g as int, o as int, (perm@.len() / 128) as int, out_f as int);
                within(o as int, b as int, out_f as int, n as int);
                row_col(o as int, b as int, n as int);
            }
            out.push(s[g * out_f + o]);
            b += 1;
        }
        assert((o + 1) * n == o * n + n) by (nonlinear_arith);
        o += 1;
    }
    assert(out@ =~= want);
    out
}

/// The data of quantized weights: packed words of `[in / 8, out]` and scales
/// of `[in / 128, out]`, with rows or columns in another order.
pub open spec fn quant_bytes(
    src: Source,
    words: Seq<u32>,
    scales: Seq<u16>,
    in_packed: nat,
    out_f: nat,
    perms: PermsView,
) -> Seq<u8> {
    let in_f = in_packed * 8;
    let codes = unpacked(words, in_packed, out_f);
    match src {
        Source::QuantVRowQkv => q4_0_packed(
            gather_rows(transposed(codes, in_f, out_f), perms.qkv, in_f),
            gather_scales(scales, perms.qkv, in_f / 128),
            out_f,
            in_f,
            128,
        ),
        Source::QuantVRowZ => q4_0_packed(
            gather_rows(transposed(codes, in_f, out_f), perms.rows, in_f),
            gather_scales(scales, perms.rows, in_f / 128),
            out_f,
            in_f,
            128,
        ),
        Source::QuantVCol => ar16_packed(
            transposed(gather_rows(codes, perms.rows, out_f), in_f, out_f),
            block_scales(scales, perms.rows, out_f),
            out_f,
            in_f,
        ),
        _ => q4_0_packed(transposed(codes, in_f, out_f), scales, out_f, in_f, 128),
    }
}

/// Whether an order has the length that quantized weights ask for.
pub open spec fn perm_fits(src: Source, in_f: int, out_f: int, perms: PermsView) -> bool {
    match src {
        Source::QuantVRowQkv => perms.qkv.len() == out_f,
        Source::QuantVRowZ => perms.rows.len() == out_f,
        Source::QuantVCol => perms.rows.len() == in_f,
        _ => true,
    }
}

/// Whether inputs come in whole groups; without outputs, in whole blocks.
pub open spec fn whole_groups(src: Source, in_f: int, out_f: int) -> bool {
    if out_f != 0 {
        in_f % 128 == 0
    } else if src is QuantVCol {
        in_f % 16 == 0
    } else {
        in_f % 32 == 0
    }
}

/// Why quantized weights are not taken: their shape, that of their scales,
/// data beyond their shard, or data of another size than their shape says.
pub open spec fn quant_refusal(
    src: Source,
    q: RefView,
    s: RefView,
    shards: ShardSet,
    perms: PermsView,
) -> Option<Refusal> {
    if q.shape.len() < 2 || q.shape[0] * 8 > usize::MAX {
        Some(Refusal::BadShape)
    } else {
        let in_f = q.shape[0] * 8;
        let out_f = q.shape[1] as int;
        if !(s.shape.len() == 2 && s.shape[0] == in_f / 128 && s.shape[1] == out_f) {
            Some(Refusal::ScalesShape)
        } else if !shards.holds(q) || !shards.holds(s) {
            Some(Refusal::Truncated)
        } else if u32_values(shards.data(q)).len() != q.shape[0] * out_f || u16_values(
            shards.data(s),
        ).len() != in_f / 128 * out_f || q.shape[0] * 8 * out_f > usize::MAX || !whole_groups(
            src,
            in_f,
            out_f,
        ) {
            Some(Refusal::BadShape)
        } else if !perm_fits(src, in_f, out_f, perms) {
            Some(Refusal::PermLength)
        } else {
            None
        }
    }
}

/// Whether a product is this number.
fn is_product(a: usize, b: usize, n: usize) -> (r: bool)
    ensures
        r == (a * b == n),
{
    match a.checked_mul(b) {
        Some(p) => p == n,
        None => false,
    }
}

/// Packed words and scales, with rows or columns in another order, in blocks.
fn pack_words(
    src: Source,
    words: &[u32],
    scales: &[u16],
    in_packed: usize,
    out_f: usize,
    perms: &Perms,
) -> (r: Vec<u8>)
    requires
        perms@.wf(),
        in_packed * 8 <= usize::MAX,
        words@.len() == in_packed * out_f,
        scales@.len() == in_packed * 8 / 128 * out_f,
        in_packed * 8 * out_f <= usize::MAX,
        whole_groups(src, in_packed * 8, out_f as int),
        perm_fits(src, in_packed * 8, out_f as int, perms@),
    ensures
        r@ == quant_bytes(src, words@, scales@, in_packed as nat, out_f as nat, perms@),
{
    let in_f: usize = in_packed * 8;
    let n_groups: usize = in_f / GROUP_SIZE;
    let codes_in_out = unpack_autogptq_int4(words, in_packed, out_f);
    assert(out_f * in_f == in_f * out_f) by (nonlinear_arith);
    proof {
        // Without outputs there is nothing to pack.
        assert(in_f % 128 == 0 ==> in_f % 32 == 0 && in_f % 16 == 0);
    }
    match src {
        Source::QuantVRowQkv => {
            let codes_t = transpose_u8(&codes_in_out, in_f, out_f);
            let codes_p = permute_rows(&codes_t, &perms.qkv, in_f);
            let scales_p = permute_scales(scales, &perms.qkv, n_groups);
            pack_q4_0(&codes_p, &scales_p, out_f, in_f, GROUP_SIZE)
        },
        Source::QuantVRowZ => {
            let codes_t = transpose_u8(&codes_in_out, in_f, out_f);
            let codes_p = permute_rows(&codes_t, &perms.rows, in_f);
            let scales_p = permute_scales(scales, &perms.rows, n_groups);
            pack_q4_0(&codes_p, &scales_p, out_f, in_f, GROUP_SIZE)
        },
        Source::QuantVCol => {
            let codes_p = permute_rows(&codes_in_out, &perms.rows, out_f);
            let codes_t = transpose_u8(&codes_p, in_f, out_f);
            let scales_b = spread_scales(scales, &perms.rows, out_f);
            pack_q4_0_ar16(&codes_t, &scales_b, out_f, in_f)
        },
        _ => {
            let codes_t = transpose_u8(&codes_in_out, in_f, out_f);
            pack_q4_0(&codes_t, scales, out_f, in_f, GROUP_SIZE)
        },
    }
}

/// The data of planned quantized weights.
pub fn emit_quant(
    p: &Planned,
    qref: &TensorRef,
    sref: &TensorRef,
    shards: &ShardSet,
    perms: &Perms,
) -> (r: Result<Vec<u8>, RemixError>)
    requires
        perms@.wf(),
    ensures
        match quant_refusal(p.src, qref@, sref@, *shards, perms@) {
            Some(e) => r is Err && r->Err_0@ == (e, p.gguf_name@),
            None => r is Ok && r->Ok_0@ == quant_bytes(
                p.src,
                u32_values(shards.data(qref@)),
                u16_values(shards.data(sref@)),
                qref.shape@[0] as nat,
                qref.shape@[1] as nat,
                perms@,
            ),
        },
{
    let name = p.gguf_name.as_str();
    if qref.shape.len() < 2 {
        return Err(refuse(Refusal::BadShape, name));
    }
    let in_packed: usize = qref.shape[0];
    let out_f: usize = qref.shape[1];
    let in_f: usize = match in_packed.checked_mul(8) {
        Some(n) => n,
        None => {
            return Err(refuse(Refusal::BadShape, name));
        },
    };
    let n_groups: usize = in_f / GROUP_SIZE;
    if sref.shape.len() != 2 || sref.shape[0] != n_groups || sref.shape[1] != out_f {
        return Err(refuse(Refusal::ScalesShape, name));
    }
    if !shards.has(qref) || !shards.has(sref) {
        return Err(refuse(Refusal::Truncated, name));
    }
    let words = shards.i32_elems(qref);
    let scales = shards.u16_elems(sref);
    let whole = if out_f != 0 {
        in_f % 128 == 0
    } else if p.src == Source::QuantVCol {
        in_f % 16 == 0
    } else {
        in_f % 32 == 0
    };
    assert(in_packed * 8 * out_f == in_f * out_f);
    if !is_product(in_packed, out_f, words.len()) || !is_product(n_groups, out_f, scales.len())
        || in_f.checked_mul(out_f).is_none() || !whole {
        return Err(refuse(Refusal::BadShape, name));
    }
    let fits = match p.src {
        Source::QuantVRowQkv => perms.qkv.len() == out_f,
        Source::QuantVRowZ => perms.rows.len() == out_f,
        Source::QuantVCol => perms.rows.len() == in_f,
        _ => true,
    };
    if !fits {
        return Err(refuse(Refusal::PermLength, name));
    }
    Ok(
        pack_words(p.src, words.as_slice(), scales.as_slice(), in_packed, out_f, perms),
    )
}

/// How many elements a conversion of `n` elements gives.
pub open spec fn element_count(src: Source, n: nat, perms: PermsView) -> nat {
    match src {
        Source::Bf16ToF16RowPerm { row_len } => perms.heads.len() * row_len as nat,
        Source::F32Plain { reordered: true } => perms.heads.len(),
        Source::F32NegExp => perms.heads.len(),
        Source::F32Conv1d { qk_rows, row_len } => (qk_rows as nat + perms.rows.len())
            * row_len as nat,
        _ => n,
    }
}

/// Which element becomes element `i`.
pub open spec fn element_place(src: Source, perms: PermsView, i: int) -> int {
    match src {
        Source::Bf16ToF16RowPerm { row_len } => perms.heads[i / row_len as int] * row_len + i
            % row_len as int,
        Source::F32Plain { reordered: true } => perms.heads[i] as int,
        Source::F32NegExp => perms.heads[i] as int,
        Source::F32Conv1d { qk_rows, row_len } => {
            let row = i / row_len as int;
            let from = if row < qk_rows {
                row
            } else {
                qk_rows + perms.rows[row - qk_rows]
            };
            from * row_len + i % row_len as int
        },
        _ => i,
    }
}

/// What a BF16 element is converted to. `exp` holds the exponential of every
/// BF16 value.
pub open spec fn element_value(src: Source, exp: Seq<u32>, b: u16) -> nat {
    match src {
        Source::F32Plain { .. } => bf16_single(b) as nat,
        Source::F32Conv1d { .. } => bf16_single(b) as nat,
        Source::F32PlusOne => single_plus_one(bf16_single(b)) as nat,
        Source::F32NegExp => negated(exp[b as int]) as nat,
        _ => bf16_half(b) as nat,
    }
}

/// The bytes of an element.
pub open spec fn element_size(src: Source) -> nat {
    if src.gives_f32() {
        4
    } else {
        2
    }
}

/// The elements of a converted tensor, as bytes.
pub open spec fn plain_blocks(src: Source, elems: Seq<u16>, perms: PermsView, exp: Seq<u32>) -> spec_fn(
    int,
) -> Seq<u8> {
    |i: int|
        le_bytes(
            element_value(src, exp, elems[element_place(src, perms, i)]),
            element_size(src),
        )
}

/// The data of a tensor that is not quantized.
pub open spec fn plain_bytes(src: Source, elems: Seq<u16>, perms: PermsView, exp: Seq<u32>) -> Seq<u8> {
    blocks(
        element_count(src, elems.len(), perms),
        element_size(src),
        plain_blocks(src, elems, perms, exp),
    )
}

/// Why a tensor that is not quantized is not taken: data beyond its shard, or
/// of another size than its shape and the orders ask for. What is converted
/// from BF16 to F16 in its order is taken at any size.
pub open spec fn plain_refusal(p: PlannedView, t: RefView, shards: ShardSet, perms: PermsView) -> Option<
    Refusal,
> {
    if !shards.holds(t) {
        Some(Refusal::Truncated)
    } else {
        let n = u16_values(shards.data(t)).len();
        let count = element_count(p.src, n, perms);
        if p.src != Source::Bf16ToF16 && (count > n || count * element_size(p.src) != p.nbytes) {
            Some(Refusal::BadShape)
        } else {
            None
        }
    }
}

/// How many elements a conversion of `n` elements gives, if they have room.
fn count_elements(src: Source, n: usize, perms: &Perms) -> (r: Option<usize>)
    ensures
        r is Some <==> element_count(src, n as nat, perms@) <= usize::MAX,
        r is Some ==> r->0 == element_count(src, n as nat, perms@),
{
    match src {
        Source::Bf16ToF16RowPerm { row_len } => perms.heads.len().checked_mul(row_len),
        Source::F32Plain { reordered } => if reordered {
            Some(perms.heads.len())
        } else {
            Some(n)
        },
        Source::F32NegExp => Some(perms.heads.len()),
        Source::F32Conv1d { qk_rows, row_len } => match qk_rows.checked_add(perms.rows.len()) {
            Some(rows) => rows.checked_mul(row_len),
            None => {
                if row_len == 0 {
                    assert((qk_rows + perms.rows@.len()) * row_len == 0) by (nonlinear_arith)
                        requires
                            row_len == 0,
                    ;
                    Some(0)
                } else {
                    assert((qk_rows + perms.rows@.len()) * row_len >= qk_rows + perms.rows@.len())
                        by (nonlinear_arith)
                        requires
                            row_len >= 1,
                    ;
                    None
                }
            },
        },
        _ => Some(n),
    }
}

/// Every element of a conversion is made of one of its tensor.
proof fn place_within(src: Source, perms: PermsView, n: nat, i: int)
    requires
        perms.wf(),
        0 <= i < element_count(src, n, perms) <= n,
    ensures
        0 <= element_place(src, perms, i) < n,
{
    match src {
        Source::Bf16ToF16RowPerm { row_len } => {
            let l = row_len as int;
            let h = perms.heads.len() as int;
            row_and_rest(i, h, l);
            assert(perms.heads[i / l] < perms.heads.len());
            within(perms.heads[i / l] as int, i % l, h, l);
        },
        Source::F32Plain { reordered: true } => {
            assert(perms.heads[i] < perms.heads.len());
        },
        Source::F32NegExp => {
            assert(perms.heads[i] < perms.heads.len());
        },
        Source::F32Conv1d { qk_rows, row_len } => {
            let l = row_len as int;
            let h = qk_rows + perms.rows.len();
            row_and_rest(i, h, l);
            let row = i / l;
            if row >= qk_rows {
                assert(perms.rows[row - qk_rows] < perms.rows.len());
            }
            let from = if row < qk_rows {
                row
            } else {
                qk_rows + perms.rows[row - qk_rows]
            };
            within(from, i % l, h, l);
        },
        _ => {},
    }
}

/// The row of an index, and its place in the row.
proof fn row_and_rest(i: int, rows: int, row_len: int)
    requires
        0 <= i < rows * row_len,
        rows >= 0,
        row_len >= 0,
    ensures
        row_len > 0,
        0 <= i / row_len < rows,
        0 <= i % row_len < row_len,
{
    assert(row_len > 0) by (nonlinear_arith)
        requires
            0 <= i < rows * row_len,
            rows >= 0,
            row_len >= 0,
    ;
    vstd::arithmetic::div_mod::lemma_fundamental_div_mod(i, row_len);
    assert(0 <= i / row_len < rows) by (nonlinear_arith)
        requires
            i == row_len * (i / row_len) + i % row_len,
            0 <= i % row_len < row_len,
            0 <= i < rows * row_len,
    ;
}

/// Which element becomes element `i`.
fn place_element(src: Source, perms: &Perms, i: usize, n: usize) -> (r: usize)
    requires
        perms@.wf(),
        i < element_count(src, n as nat, perms@) <= n,
    ensures
        r == element_place(src, perms@, i as int),
        r < n,
{
    proof {
        place_within(src, perms@, n as nat, i as int);
    }
    match src {
        Source::Bf16ToF16RowPerm { row_len } => {
            proof {
                row_and_rest(i as int, perms.heads@.len() as int, row_len as int);
                assert(perms.heads@[i as int / row_len as int] * row_len >= 0) by (nonlinear_arith);
            }
            perms.heads[i / row_len] * row_len + i % row_len
        },
        Source::F32Plain { reordered } => if reordered {
            perms.heads[i]
        } else {
            i
        },
        Source::F32NegExp => perms.heads[i],
        Source::F32Conv1d { qk_rows, row_len } => {
            proof {
                row_and_rest(i as int, qk_rows + perms.rows@.len(), row_len as int);
            }
            let row: usize = i / row_len;
            proof {
                let l = row_len as int;
                if row >= qk_rows {
                    let f = qk_rows + perms.rows@[row - qk_rows];
                    assert(f <= f * l) by (nonlinear_arith)
                        requires
                            l >= 1,
                            f >= 0,
                    ;
                } else {
                    assert(row * l >= 0) by (nonlinear_arith)
                        requires
                            row >= 0,
                            l >= 1,
                    ;
                }
            }
            let from: usize = if row < qk_rows {
                row
            } else {
                qk_rows + perms.rows[row - qk_rows]
            };
            from * row_len + i % row_len
        },
        _ => i,
    }
}

/// What a BF16 element is converted to.
fn convert_element(src: Source, halves: &[u16], exp: &[u32], b: u16) -> (r: u64)
    requires
        is_half_table(halves@),
        exp@.len() == 0x1_0000,
    ensures
        r == element_value(src, exp@, b),
{
    match src {
        Source::F32Plain { .. } => bf16_to_f32(b) as u64,
        Source::F32Conv1d { .. } => bf16_to_f32(b) as u64,
        Source::F32PlusOne => plus_one(bf16_to_f32(b)) as u64,
        Source::F32NegExp => {
            let x: u32 = exp[b as usize];
            (if x >= 0x8000_0000 {
                x - 0x8000_0000
            } else {
                x + 0x8000_0000
            }) as u64
        },
        _ => {
            assert(halves@[b as int] == bf16_half(b as int as u16));
            halves[b as usize] as u64
        },
    }
}

/// The data of a planned tensor that is not quantized. `halves` holds every
/// BF16 value as a half, `exp` its exponential.
pub fn emit_plain(
    p: &Planned,
    tref: &TensorRef,
    shards: &ShardSet,
    perms: &Perms,
    halves: &[u16],
    exp: &[u32],
) -> (r: Result<Vec<u8>, RemixError>)
    requires
        perms@.wf(),
        is_half_table(halves@),
        exp@.len() == 0x1_0000,
    ensures
        match plain_refusal(p@, tref@, *shards, perms@) {
            Some(e) => r is Err && r->Err_0@ == (e, p.gguf_name@),
            None => r is Ok && r->Ok_0@ == plain_bytes(
                p.src,
                u16_values(shards.data(tref@)),
                perms@,
                exp@,
            ),
        },
{
    let name = p.gguf_name.as_str();
    if !shards.has(tref) {
        return Err(refuse(Refusal::Truncated, name));
    }
    let elems = shards.u16_elems(tref);
    let n: usize = elems.len();
    let src = p.src;
    let count: usize = match count_elements(src, n, perms) {
        Some(c) => c,
        None => {
            return Err(refuse(Refusal::BadShape, name));
        },
    };
    let size: usize = match src {
        Source::F32Plain { .. } => 4,
        Source::F32PlusOne => 4,
        Source::F32NegExp => 4,
        Source::F32Conv1d { .. } => 4,
        _ => 2,
    };
    let streamed = matches!(src, Source::Bf16ToF16);
    if !streamed && (count > n || count as u128 * size as u128 != p.nbytes as u128) {
        return Err(refuse(Refusal::BadShape, name));
    }
    let ghost block = plain_blocks(src, elems@, perms@, exp@);
    let mut out: Vec<u8> = Vec::new();
    let mut i: usize = 0;
    assert(out@ =~= blocks(0, size as nat, block));
    while i < count
        invariant
            i <= count <= n,
            n == elems@.len(),
            count == element_count(src, n as nat, perms@),
            size == element_size(src),
            perms@.wf(),
            is_half_table(halves@),
            exp@.len() == 0x1_0000,
            block == plain_blocks(src, elems@, perms@, exp@),
            out@ == blocks(i as nat, size as nat, block),
        decreases count - i,
    {
        let k: usize = place_element(src, perms, i, n);
        let x: u64 = convert_element(src, halves, exp, elems[k]);
        put_le(&mut out, x, size);
        proof {
            le_bytes_len(x as nat, size as nat);
            blocks_next(i as nat, size as nat, block);
        }
        i += 1;
    }
    Ok(out)
}

/// The data of a planned tensor, or why it is not taken.
pub open spec fn tensor_bytes(
    p: PlannedView,
    tensors: Seq<(Seq<char>, RefView)>,
    shards: ShardSet,
    perms: PermsView,
    exp: Seq<u32>,
) -> Result<Seq<u8>, Refusal> {
    let t = tensors[p.tensor as int].1;
    if p.src.quantized() {
        let s = tensors[p.scales->0 as int].1;
        match quant_refusal(p.src, t, s, shards, perms) {
            Some(e) => Err(e),
            None => {
                let b = quant_bytes(
                    p.src,
                    u32_values(shards.data(t)),
                    u16_values(shards.data(s)),
                    t.shape[0] as nat,
                    t.shape[1] as nat,
                    perms,
                );
                if b.len() == p.nbytes {
                    Ok(b)
                } else {
                    Err(Refusal::BadShape)
                }
            },
        }
    } else {
        match plain_refusal(p, t, shards, perms) {
            Some(e) => Err(e),
            None => Ok(plain_bytes(p.src, u16_values(shards.data(t)), perms, exp)),
        }
    }
}

/// The data of a planned tensor: as many bytes as the plan says, unless they
/// are converted from BF16 to F16 in their order.
pub fn emit_tensor(
    p: &Planned,
    tensors: &[(String, TensorRef)],
    shards: &ShardSet,
    perms: &Perms,
    halves: &[u16],
    exp: &[u32],
) -> (r: Result<Vec<u8>, RemixError>)
    requires
        planned_within(p@, tensors@.len()),
        perms@.wf(),
        is_half_table(halves@),
        exp@.len() == 0x1_0000,
    ensures
        match tensor_bytes(p@, ref_views(tensors@), *shards, perms@, exp@) {
            Ok(b) => r is Ok && r->Ok_0@ == b && (p.src != Source::Bf16ToF16 ==> b.len()
                == p.nbytes),
            Err(e) => r is Err && r->Err_0@ == (e, p.gguf_name@),
        },
{
    let tref = &tensors[p.tensor].1;
    match p.scales {
        Some(s) => match emit_quant(p, tref, &tensors[s].1, shards, perms) {
            Err(e) => Err(e),
            Ok(b) => {
                if b.len() as u64 == p.nbytes {
                    Ok(b)
                } else {
                    Err(refuse(Refusal::BadShape, p.gguf_name.as_str()))
                }
            },
        },
        None => emit_plain(p, tref, shards, perms, halves, exp),
    }
}

} // verus!
