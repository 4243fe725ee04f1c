//! Laws of the conversion by name: what each tensor of a checkpoint becomes,
//! element by element, and which head its rows belong to.

use crate::fp::{bf16_half, bf16_single, single_plus_one};
use crate::gguf::format::product;
use crate::le::{le_bytes, le_bytes_len};
use crate::quant::{
    ar16_code, ar16_scale, moves_chunks, q4_0_code, q4_0_scale, row_col, v_source_within, within,
};
use crate::remix::emit::{
    element_count, element_place, element_size, element_value, in_range, perm_fits, perms_of,
    plain_blocks, plain_bytes, quant_bytes, reorder, tensor_bytes,
};
use crate::remix::laws::{
    reordered_columns_keep_weights, reordered_qkv_keeps_weights, reordered_rows_keep_weights,
    sizes_agree, trunk_keeps_weights, weight_kept, word_code,
};
use crate::remix::names::{mapped_with_suffix, remapped, standard_name};
use crate::remix::plan::{place_of, quant_plan, standard_plan, PlannedView, Source, Topology};
use crate::remix::table::{of_block, of_layer, step_bias_is_called};
use crate::remix::taking::first_replaced;
use crate::safetensors::{u16_values, u32_values, RefView, ShardSet};
use crate::text::{all_digits, has_part, has_suffix, occurs_at, replaced, without_suffix};
use vstd::prelude::*;

verus! {

/// How many V heads belong to a K head.
pub open spec fn heads_per_key(topo: Topology) -> int {
    (topo.num_v_heads / topo.num_k_heads) as int
}

/// Head `j` of K head `k` where the V heads of a K head follow each other.
pub open spec fn grouped_head(topo: Topology, k: int, j: int) -> int {
    k * heads_per_key(topo) + j
}

/// Head `j` of K head `k` where the first V heads of all K heads come first,
/// and so on.
pub open spec fn tiled_head(topo: Topology, k: int, j: int) -> int {
    j * topo.num_k_heads + k
}

/// Whether there is a head `j` of K head `k`.
pub open spec fn is_head(topo: Topology, k: int, j: int) -> bool {
    0 <= k < topo.num_k_heads && 0 <= j < heads_per_key(topo)
}

/// Both places of a head are among the V heads.
proof fn heads_within(topo: Topology, k: int, j: int)
    requires
        topo.wf(),
        is_head(topo, k, j),
    ensures
        0 <= grouped_head(topo, k, j) < topo.num_v_heads,
        0 <= tiled_head(topo, k, j) < topo.num_v_heads,
{
    let nk = topo.num_k_heads as int;
    let per = heads_per_key(topo);
    vstd::arithmetic::div_mod::lemma_fundamental_div_mod(topo.num_v_heads as int, nk);
    within(k, j, nk, per);
    within(j, k, per, nk);
    assert(nk * per == per * nk) by (nonlinear_arith);
}

/// The order of V heads and of their rows: the rows of a head in tiled order
/// are those of the same head in grouped order.
proof fn rows_are_tiled(topo: Topology, dim: nat, k: int, j: int, d: int)
    requires
        topo.wf(),
        is_head(topo, k, j),
        0 <= d < dim,
        topo.num_v_heads * dim <= usize::MAX,
    ensures
        0 <= tiled_head(topo, k, j) * dim + d < reorder(topo, dim).len(),
        reorder(topo, dim)[tiled_head(topo, k, j) * dim + d] == grouped_head(topo, k, j) * dim + d,
{
    let nk = topo.num_k_heads as int;
    let nv = topo.num_v_heads as int;
    let head = tiled_head(topo, k, j);
    heads_within(topo, k, j);
    within(head, d, nv, dim as int);
    row_col(head, d, dim as int);
    row_col(j, k, nk);
    v_source_within(nk as nat, nv as nat, dim, head * dim + d);
}

/// The orders of a model: V heads, V rows, and behind the rows of Q and K the
/// V rows once more.
pub proof fn heads_are_tiled(topo: Topology, k: int, j: int)
    requires
        topo.wf(),
        is_head(topo, k, j),
    ensures
        ({
            let p = perms_of(topo);
            let hd = topo.head_v_dim as int;
            let qk = topo.head_k_dim * topo.num_k_heads * 2;
            let to = tiled_head(topo, k, j);
            let from = grouped_head(topo, k, j);
            &&& p.heads.len() == topo.num_v_heads
            &&& p.heads[to] == from
            &&& p.rows.len() == topo.num_v_heads * hd
            &&& forall|d: int| 0 <= d < hd ==> #[trigger] p.rows[to * hd + d] == from * hd + d
            &&& p.qkv.len() == qk + topo.num_v_heads * hd
            &&& forall|r: int| 0 <= r < qk ==> #[trigger] p.qkv[r] == r
            &&& forall|d: int|
                0 <= d < hd ==> #[trigger] p.qkv[qk + (to * hd + d)] == qk + (from * hd + d)
        }),
{
    let p = perms_of(topo);
    let hd = topo.head_v_dim as int;
    let nv = topo.num_v_heads as int;
    let qk = topo.head_k_dim * topo.num_k_heads * 2;
    let to = tiled_head(topo, k, j);
    let from = grouped_head(topo, k, j);
    heads_within(topo, k, j);
    assert(qk >= 0) by (nonlinear_arith)
        requires
            qk == topo.head_k_dim * topo.num_k_heads * 2,
    ;
    assert(0 <= nv * hd) by (nonlinear_arith)
        requires
            nv >= 0,
            hd >= 0,
    ;
    assert(nv * 1 == nv);
    rows_are_tiled(topo, 1, k, j, 0);
    assert(to * 1 + 0 == to && from * 1 + 0 == from);
    assert forall|d: int| 0 <= d < hd implies #[trigger] p.rows[to * hd + d] == from * hd + d by {
        rows_are_tiled(topo, hd as nat, k, j, d);
    }
    assert forall|d: int| 0 <= d < hd implies #[trigger] p.qkv[qk + (to * hd + d)] == qk + (from
        * hd + d) by {
        rows_are_tiled(topo, hd as nat, k, j, d);
        within(from, d, nv, hd);
        within(to, d, nv, hd);
        assert(p.rows[to * hd + d] == from * hd + d);
    }
}

/// A tensor of a checkpoint that is not quantized, and what it is converted
/// with.
pub struct Case<'a> {
    pub tensors: Seq<(Seq<char>, RefView)>,
    pub at: int,
    pub topo: Topology,
    pub shards: ShardSet<'a>,
    pub exp: Seq<u32>,
}

impl<'a> Case<'a> {
    /// Its name, with the prediction module behind the model's layers.
    pub open spec fn name(self) -> Seq<char> {
        standard_name(self.tensors[self.at].0, self.topo.n_layer)->Ok_0
    }

    /// Its shape.
    pub open spec fn shape(self) -> Seq<usize> {
        self.tensors[self.at].1.shape
    }

    /// Its elements.
    pub open spec fn elems(self) -> Seq<u16> {
        u16_values(self.shards.data(self.tensors[self.at].1))
    }

    /// What becomes of it.
    pub open spec fn plan(self) -> PlannedView {
        standard_plan(self.tensors[self.at].0, self.at, self.tensors[self.at].1, self.topo)->Ok_0
    }

    /// Its converted data.
    pub open spec fn out(self) -> Seq<u8> {
        tensor_bytes(self.plan(), self.tensors, self.shards, perms_of(self.topo), self.exp)->Ok_0
    }

    /// Whether it is converted.
    pub open spec fn done(self) -> bool {
        &&& self.topo.wf()
        &&& 0 <= self.at < self.tensors.len() <= usize::MAX
        &&& standard_plan(
            self.tensors[self.at].0,
            self.at,
            self.tensors[self.at].1,
            self.topo,
        ) is Ok
        &&& tensor_bytes(
            self.plan(),
            self.tensors,
            self.shards,
            perms_of(self.topo),
            self.exp,
        ) is Ok
    }

    /// Whether it is one of linear attention.
    pub open spec fn linear(self) -> bool {
        has_part(self.name(), "linear_attn."@)
    }

    /// Whether element `e` of the output is this half.
    pub open spec fn has_half(self, e: int, half: u16) -> bool {
        &&& 0 <= e
        &&& 2 * e + 2 <= self.out().len()
        &&& self.out().subrange(2 * e, 2 * e + 2) == le_bytes(half as nat, 2)
    }

    /// Whether element `e` of the output is this single.
    pub open spec fn has_single(self, e: int, single: u32) -> bool {
        &&& 0 <= e
        &&& 4 * e + 4 <= self.out().len()
        &&& self.out().subrange(4 * e, 4 * e + 4) == le_bytes(single as nat, 4)
    }

    /// Whether its elements become halves, in their order.
    pub open spec fn gives_halves(self) -> bool {
        &&& self.plan().dtype == 1
        &&& self.out().len() == 2 * self.elems().len()
        &&& forall|e: int|
            0 <= e < self.elems().len() ==> #[trigger] self.has_half(e, bf16_half(self.elems()[e]))
    }

    /// Whether its elements become singles, in their order.
    pub open spec fn gives_singles(self) -> bool {
        &&& self.plan().dtype == 0
        &&& self.out().len() == 4 * self.elems().len()
        &&& forall|e: int|
            0 <= e < self.elems().len() ==> #[trigger] self.has_single(
                e,
                bf16_single(self.elems()[e]),
            )
    }
}

/// The length of what a tensor that is not quantized becomes.
proof fn plain_length(c: Case)
    requires
        c.done(),
    ensures
        c.out().len() == element_count(c.plan().src, c.elems().len(), perms_of(c.topo))
            * element_size(c.plan().src),
{
}

/// The group of an input, from its block.
proof fn group_of_block(i: int)
    requires
        0 <= i,
    ensures
        i / 32 * 32 / 128 == i / 128,
{
}

/// Element `e` of a tensor that is not quantized.
proof fn element_at(c: Case, e: int)
    requires
        c.done(),
        0 <= e < element_count(c.plan().src, c.elems().len(), perms_of(c.topo)),
    ensures
        ({
            let src = c.plan().src;
            let perms = perms_of(c.topo);
            let size = element_size(src);
            &&& c.out() == plain_bytes(src, c.elems(), perms, c.exp)
            &&& c.out().len() == element_count(src, c.elems().len(), perms) * size
            &&& size * e + size <= c.out().len()
            &&& c.out().subrange(size * e, size * e + size) == le_bytes(
                element_value(src, c.exp, c.elems()[element_place(src, perms, e)]),
                size,
            )
        }),
{
    let src = c.plan().src;
    let perms = perms_of(c.topo);
    let size = element_size(src) as int;
    let n = element_count(src, c.elems().len(), perms) as int;
    within(e, 0, n, size);
    assert(e * size == size * e) by (nonlinear_arith);
    let block = plain_blocks(src, c.elems(), perms, c.exp)(e);
    le_bytes_len(element_value(src, c.exp, c.elems()[element_place(src, perms, e)]), size as nat);
    let part = c.out().subrange(size * e, size * e + size);
    assert forall|b: int| 0 <= b < size implies #[trigger] part[b] == block[b] by {
        row_col(e, b, size);
    }
    assert(part =~= block);
}

/// What ends with one text does not end with another.
proof fn ends_differ(name: Seq<char>, p: Seq<char>, q: Seq<char>, k: int)
    requires
        has_suffix(name, p),
        1 <= k <= p.len(),
        k <= q.len(),
        p[p.len() - k] != q[q.len() - k],
    ensures
        !has_suffix(name, q),
{
    if has_suffix(name, q) {
        let n = name.len() as int;
        assert(name.subrange(n - p.len(), n)[p.len() - k] == name[n - k]);
        assert(name.subrange(n - q.len(), n)[q.len() - k] == name[n - k]);
    }
}

/// What ends with a text ends with the end of that text.
proof fn ends_also(name: Seq<char>, p: Seq<char>, q: Seq<char>)
    requires
        has_suffix(name, p),
        q.len() <= p.len(),
        p.subrange(p.len() - q.len(), p.len() as int) == q,
    ensures
        has_suffix(name, q),
{
    let n = name.len() as int;
    assert(name.subrange(n - q.len(), n) =~= name.subrange(n - p.len(), n).subrange(
        p.len() - q.len(),
        p.len() as int,
    ));
}

/// Rows that belong to V heads, those of `in_proj_a` and `in_proj_b` of linear
/// attention alike: in the output they stand in tiled order, as halves.
pub proof fn head_rows_are_tiled(c: Case, k: int, j: int, i: int)
    requires
        c.done(),
        c.linear(),
        has_suffix(c.name(), ".in_proj_a.weight"@) || has_suffix(c.name(), ".in_proj_b.weight"@),
        is_head(c.topo, k, j),
        c.shape().len() >= 2,
        0 <= i < c.shape()[1],
    ensures
        c.plan().dtype == 1,
        mapped_with_suffix(c.name()) == Some(c.plan().gguf_name),
        c.has_half(
            tiled_head(c.topo, k, j) * c.shape()[1] + i,
            bf16_half(c.elems()[grouped_head(c.topo, k, j) * c.shape()[1] + i]),
        ),
{
    let len = c.shape()[1] as int;
    let to = tiled_head(c.topo, k, j);
    heads_are_tiled(c.topo, k, j);
    heads_within(c.topo, k, j);
    within(to, i, c.topo.num_v_heads as int, len);
    row_col(to, i, len);
    element_at(c, to * len + i);
}

/// The factors of decay, one for a V head: in the output they stand in tiled
/// order, each minus the exponential of the one that was given.
pub proof fn decays_are_tiled(c: Case, k: int, j: int)
    requires
        c.done(),
        c.linear(),
        has_suffix(c.name(), ".A_log"@),
        is_head(c.topo, k, j),
        c.exp.len() == 0x1_0000,
    ensures
        c.plan().dtype == 0,
        mapped_with_suffix(c.name()) == Some(c.plan().gguf_name),
        ({
            let e = c.exp[c.elems()[grouped_head(c.topo, k, j)] as int];
            c.has_single(
                tiled_head(c.topo, k, j),
                if e < 0x8000_0000 {
                    (e + 0x8000_0000) as u32
                } else {
                    (e - 0x8000_0000) as u32
                },
            )
        }),
{
    reveal_strlit(".A_log");
    reveal_strlit(".in_proj_a.weight");
    reveal_strlit(".in_proj_b.weight");
    ends_differ(c.name(), ".A_log"@, ".in_proj_a.weight"@, 1);
    ends_differ(c.name(), ".A_log"@, ".in_proj_b.weight"@, 1);
    heads_are_tiled(c.topo, k, j);
    heads_within(c.topo, k, j);
    element_at(c, tiled_head(c.topo, k, j));
}

/// The biases of time steps, one for a V head: in the output they stand in
/// tiled order, as singles, under the name of a projection's bias.
pub proof fn step_biases_are_tiled(c: Case, k: int, j: int)
    requires
        c.done(),
        c.linear(),
        has_suffix(c.name(), ".dt_bias"@),
        is_head(c.topo, k, j),
    ensures
        c.plan().dtype == 0,
        mapped_with_suffix(replaced(c.name(), ".dt_bias"@, ".dt_proj.bias"@)) == Some(
            c.plan().gguf_name,
        ),
        c.has_single(
            tiled_head(c.topo, k, j),
            (c.elems()[grouped_head(c.topo, k, j)] * 0x1_0000) as u32,
        ),
{
    reveal_strlit(".A_log");
    reveal_strlit(".dt_bias");
    reveal_strlit(".in_proj_a.weight");
    reveal_strlit(".in_proj_b.weight");
    ends_differ(c.name(), ".dt_bias"@, ".in_proj_a.weight"@, 1);
    ends_differ(c.name(), ".dt_bias"@, ".in_proj_b.weight"@, 1);
    ends_differ(c.name(), ".dt_bias"@, ".A_log"@, 1);
    heads_are_tiled(c.topo, k, j);
    heads_within(c.topo, k, j);
    element_at(c, tiled_head(c.topo, k, j));
}

/// How the convolution of linear attention is planned.
proof fn convolution_is_planned(c: Case)
    requires
        c.done(),
        c.linear(),
        has_suffix(c.name(), ".conv1d.weight"@),
    ensures
        c.shape().len() >= 3,
        c.plan().dtype == 0,
        mapped_with_suffix(c.name()) == Some(c.plan().gguf_name),
        c.plan().shape == seq![c.shape()[0] as u64, c.shape()[2] as u64],
        c.plan().src == (Source::F32Conv1d {
            qk_rows: (c.topo.head_k_dim * c.topo.num_k_heads * 2) as usize,
            row_len: c.shape()[2],
        }),
{
    let p = ".conv1d.weight"@;
    reveal_strlit(".A_log");
    reveal_strlit(".dt_bias");
    reveal_strlit(".conv1d.weight");
    reveal_strlit("conv1d");
    reveal_strlit(".in_proj_a.weight");
    reveal_strlit(".in_proj_b.weight");
    assert(p.len() == 14);
    ends_differ(c.name(), p, ".in_proj_a.weight"@, 8);
    ends_differ(c.name(), p, ".in_proj_b.weight"@, 8);
    ends_differ(c.name(), p, ".A_log"@, 1);
    ends_differ(c.name(), p, ".dt_bias"@, 1);
    let n = c.name().len() as int;
    assert(c.name().subrange(n - 13, n - 13 + 6) =~= c.name().subrange(n - 14, n).subrange(1, 7));
    assert(p.subrange(1, 7) =~= "conv1d"@);
    assert(occurs_at(c.name(), "conv1d"@, n - 13));
}

/// The convolution of linear attention: the rows of Q and K stay, and behind
/// them the rows of V heads stand in tiled order, as singles. The middle
/// dimension is left out.
pub proof fn convolution_is_tiled(c: Case, k: int, j: int, d: int, i: int)
    requires
        c.done(),
        c.linear(),
        has_suffix(c.name(), ".conv1d.weight"@),
        is_head(c.topo, k, j),
        0 <= d < c.topo.head_v_dim,
        0 <= i < c.shape()[2],
    ensures
        ({
            let len = c.shape()[2] as int;
            let hd = c.topo.head_v_dim as int;
            let qk = c.topo.head_k_dim * c.topo.num_k_heads * 2;
            let to = qk + (tiled_head(c.topo, k, j) * hd + d);
            let from = qk + (grouped_head(c.topo, k, j) * hd + d);
            &&& c.plan().dtype == 0
            &&& mapped_with_suffix(c.name()) == Some(c.plan().gguf_name)
            &&& c.plan().shape == seq![c.shape()[0] as u64, c.shape()[2] as u64]
            &&& c.has_single(to * len + i, (c.elems()[from * len + i] * 0x1_0000) as u32)
            &&& forall|r: int|
                0 <= r < qk ==> c.has_single(
                    r * len + i,
                    (#[trigger] c.elems()[r * len + i] * 0x1_0000) as u32,
                )
        }),
{
    let len = c.shape()[2] as int;
    let hd = c.topo.head_v_dim as int;
    let nv = c.topo.num_v_heads as int;
    let qk = c.topo.head_k_dim * c.topo.num_k_heads * 2;
    let head = tiled_head(c.topo, k, j);
    let to = qk + (head * hd + d);
    let from = qk + (grouped_head(c.topo, k, j) * hd + d);
    convolution_is_planned(c);
    heads_are_tiled(c.topo, k, j);
    heads_within(c.topo, k, j);
    assert(qk >= 0) by (nonlinear_arith)
        requires
            qk == c.topo.head_k_dim * c.topo.num_k_heads * 2,
    ;
    within(head, d, nv, hd);
    within(to, i, qk + nv * hd, len);
    row_col(to, i, len);
    let perms = perms_of(c.topo);
    assert(perms.rows[to - qk] == from - qk);
    element_at(c, to * len + i);
    assert forall|r: int| 0 <= r < qk implies c.has_single(
        r * len + i,
        (#[trigger] c.elems()[r * len + i] * 0x1_0000) as u32,
    ) by {
        within(r, i, qk + nv * hd, len);
        row_col(r, i, len);
        element_at(c, r * len + i);
    }
}

/// Whether a tensor of linear attention has rows or elements that belong to V
/// heads.
pub open spec fn by_head(c: Case) -> bool {
    &&& c.linear()
    &&& {
        ||| has_suffix(c.name(), ".in_proj_a.weight"@)
        ||| has_suffix(c.name(), ".in_proj_b.weight"@)
        ||| has_suffix(c.name(), ".A_log"@)
        ||| has_suffix(c.name(), ".dt_bias"@)
        ||| has_part(c.name(), "conv1d"@)
    }
}

/// The weights of norms become singles and one more, in their order.
pub proof fn norms_grow_by_one(c: Case)
    requires
        c.done(),
        !by_head(c),
        has_suffix(c.name(), "norm.weight"@),
        !has_suffix(c.name(), "linear_attn.norm.weight"@),
    ensures
        c.plan().dtype == 0,
        mapped_with_suffix(c.name()) == Some(c.plan().gguf_name),
        c.out().len() == 4 * c.elems().len(),
        forall|e: int|
            0 <= e < c.elems().len() ==> #[trigger] c.has_single(
                e,
                single_plus_one((c.elems()[e] * 0x1_0000) as u32),
            ),
{
    assert forall|e: int| 0 <= e < c.elems().len() implies #[trigger] c.has_single(
        e,
        single_plus_one((c.elems()[e] * 0x1_0000) as u32),
    ) by {
        element_at(c, e);
    }
    plain_length(c);
}

/// The norm of linear attention becomes singles, in their order.
pub proof fn the_linear_norm_stays(c: Case)
    requires
        c.done(),
        !by_head(c),
        has_suffix(c.name(), "linear_attn.norm.weight"@),
    ensures
        c.gives_singles(),
        mapped_with_suffix(c.name()) == Some(c.plan().gguf_name),
{
    let p = "linear_attn.norm.weight"@;
    reveal_strlit("linear_attn.norm.weight");
    reveal_strlit("norm.weight");
    reveal_strlit("linear_attn.");
    assert(p.len() == 23);
    assert(p.subrange(12, 23) =~= "norm.weight"@);
    ends_also(c.name(), p, "norm.weight"@);
    let n = c.name().len() as int;
    assert(c.name().subrange(n - 23, n - 11) =~= c.name().subrange(n - 23, n).subrange(0, 12));
    assert(p.subrange(0, 12) =~= "linear_attn."@);
    assert(occurs_at(c.name(), "linear_attn."@, n - 23));
    assert forall|e: int| 0 <= e < c.elems().len() implies #[trigger] c.has_single(
        e,
        bf16_single(c.elems()[e]),
    ) by {
        element_at(c, e);
    }
    plain_length(c);
}

/// All else becomes singles where it has one dimension, and halves where it
/// has more, in their order.
pub proof fn all_else_stays_in_order(c: Case)
    requires
        c.done(),
        !by_head(c),
        !has_suffix(c.name(), "norm.weight"@),
    ensures
        c.shape().len() == 1 ==> c.gives_singles(),
        c.shape().len() != 1 ==> c.gives_halves(),
        mapped_with_suffix(c.name()) == Some(c.plan().gguf_name),
{
    assert forall|e: int|
        0 <= e < c.elems().len() && c.shape().len() == 1 implies #[trigger] c.has_single(
        e,
        bf16_single(c.elems()[e]),
    ) by {
        element_at(c, e);
    }
    assert forall|e: int|
        0 <= e < c.elems().len() && c.shape().len() != 1 implies #[trigger] c.has_half(
        e,
        bf16_half(c.elems()[e]),
    ) by {
        element_at(c, e);
    }
    plain_length(c);
}

/// A tensor keeps its shape, but for the middle dimension of the convolution;
/// the plan names the tensor itself and no scales, and its size follows from
/// its shape.
pub proof fn shapes_stay(c: Case)
    requires
        c.done(),
        !(c.linear() && has_part(c.name(), "conv1d"@)) || has_suffix(
            c.name(),
            ".in_proj_a.weight"@,
        ) || has_suffix(c.name(), ".in_proj_b.weight"@) || has_suffix(c.name(), ".A_log"@)
            || has_suffix(c.name(), ".dt_bias"@),
    ensures
        c.plan().shape.len() == c.shape().len(),
        forall|d: int| 0 <= d < c.shape().len() ==> #[trigger] c.plan().shape[d] == c.shape()[d],
        c.plan().tensor == c.at,
        c.plan().scales is None,
        c.plan().nbytes == product(c.plan().shape) * (if c.plan().dtype == 0 {
            4int
        } else {
            2int
        }),
{
}

/// Quantized weights of a checkpoint, and what they are converted with.
pub struct Packed<'a> {
    pub tensors: Seq<(Seq<char>, RefView)>,
    pub at: int,
    pub topo: Topology,
    pub shards: ShardSet<'a>,
    pub exp: Seq<u32>,
}

impl<'a> Packed<'a> {
    /// Their name.
    pub open spec fn base(self) -> Seq<char> {
        without_suffix(self.tensors[self.at].0, ".qweight"@)->0
    }

    /// The inputs, eight to a word.
    pub open spec fn inputs(self) -> int {
        self.tensors[self.at].1.shape[0] * 8
    }

    /// The outputs.
    pub open spec fn outputs(self) -> int {
        self.tensors[self.at].1.shape[1] as int
    }

    /// What becomes of them.
    pub open spec fn plan(self) -> PlannedView {
        quant_plan(self.tensors, self.at, self.topo.n_layer)->Ok_0
    }

    /// The packed words.
    pub open spec fn words(self) -> Seq<u32> {
        u32_values(self.shards.data(self.tensors[self.at].1))
    }

    /// The scales, one for each output of 128 inputs.
    pub open spec fn scales(self) -> Seq<u16> {
        u16_values(self.shards.data(self.tensors[self.plan().scales->0 as int].1))
    }

    /// The converted data.
    pub open spec fn out(self) -> Seq<u8> {
        tensor_bytes(self.plan(), self.tensors, self.shards, perms_of(self.topo), self.exp)->Ok_0
    }

    /// Whether they are converted.
    pub open spec fn done(self) -> bool {
        &&& self.topo.wf()
        &&& 0 <= self.at < self.tensors.len() <= usize::MAX
        &&& has_suffix(self.tensors[self.at].0, ".qweight"@)
        &&& quant_plan(self.tensors, self.at, self.topo.n_layer) is Ok
        &&& tensor_bytes(
            self.plan(),
            self.tensors,
            self.shards,
            perms_of(self.topo),
            self.exp,
        ) is Ok
    }

    /// The code of input `i` of output `o`.
    pub open spec fn code(self, o: int, i: int) -> u8 {
        word_code(self.words(), self.outputs() as nat, o, i)
    }

    /// The scale of the group of input `i` of output `o`.
    pub open spec fn scale(self, o: int, i: int) -> u16 {
        self.scales()[i / 128 * self.outputs() + o]
    }

    /// Whether output `to` of a Q4_0 matrix has the weight of output `from` at
    /// input `i`.
    pub open spec fn keeps_row(self, to: int, from: int, i: int) -> bool {
        &&& q4_0_code(self.out(), self.inputs() as nat, to, i) == self.code(from, i)
        &&& q4_0_scale(self.out(), self.inputs() as nat, to, i / 32) == self.scale(from, i)
    }

    /// Whether input `to` of output `o` of a Q4_0_AR16 matrix has the weight of
    /// input `from`.
    pub open spec fn keeps_column(self, o: int, to: int, from: int) -> bool {
        &&& ar16_code(self.out(), self.inputs() as nat, o, to) == self.code(o, from)
        &&& ar16_scale(self.out(), self.inputs() as nat, o, to / 16) == self.scale(o, from)
    }
}

/// The first tensor of a name has that name.
proof fn place_has_name(tensors: Seq<(Seq<char>, RefView)>, name: Seq<char>, i: int)
    requires
        0 <= i,
        place_of(tensors, name, i) is Some,
    ensures
        i <= place_of(tensors, name, i)->0 < tensors.len(),
        tensors[place_of(tensors, name, i)->0].0 == name,
    decreases tensors.len() - i,
{
    if tensors[i].0 != name {
        place_has_name(tensors, name, i + 1);
    }
}

/// The plan of quantized weights: outputs before inputs, with the scales that
/// stand under the same name.
pub proof fn packed_weights_are_planned(c: Packed)
    requires
        c.done(),
    ensures
        c.plan().shape == seq![c.outputs() as u64, c.inputs() as u64],
        c.plan().tensor == c.at,
        c.plan().scales is Some,
        c.plan().scales->0 < c.tensors.len(),
        c.tensors[c.plan().scales->0 as int].0 == c.base() + ".scales"@,
{
    place_has_name(c.tensors, c.base() + ".scales"@, 0);
}

/// Words and scales have the sizes that the shape says.
proof fn packed_sizes(c: Packed)
    requires
        c.done(),
        c.outputs() > 0,
    ensures
        sizes_agree(
            c.words(),
            c.scales(),
            c.tensors[c.at].1.shape[0] as nat,
            c.outputs() as nat,
        ),
        perm_fits(c.plan().src, c.inputs(), c.outputs(), perms_of(c.topo)),
        c.out() == quant_bytes(
            c.plan().src,
            c.words(),
            c.scales(),
            c.tensors[c.at].1.shape[0] as nat,
            c.outputs() as nat,
            perms_of(c.topo),
        ),
{
    packed_weights_are_planned(c);
}

/// The orders of a model stay in their own range.
proof fn orders_within(topo: Topology)
    requires
        topo.wf(),
    ensures
        in_range(perms_of(topo).rows),
        in_range(perms_of(topo).qkv),
{
    let p = perms_of(topo);
    let hd = topo.head_v_dim as nat;
    let nv = topo.num_v_heads as nat;
    let qk = topo.qk_rows();
    assert(qk >= 0) by (nonlinear_arith)
        requires
            qk == topo.head_k_dim * topo.num_k_heads * 2,
    ;
    assert forall|t: int| 0 <= t < p.rows.len() implies #[trigger] p.rows[t] < p.rows.len() by {
        v_source_within(topo.num_k_heads as nat, nv, hd, t);
    }
    assert forall|t: int| 0 <= t < p.qkv.len() implies #[trigger] p.qkv[t] < p.qkv.len() by {
        if t >= qk {
            assert(p.rows[t - qk] < p.rows.len());
        }
    }
}

/// The V part of the rows of linear attention's first projection: the rows of
/// Q and K stay, and behind them the rows of V heads stand in tiled order, each
/// weight with its code and its scale, in Q4_0.
pub proof fn packed_qkv_is_tiled(c: Packed, k: int, j: int, d: int, i: int)
    requires
        c.done(),
        c.outputs() > 0,
        has_suffix(c.base(), ".linear_attn.in_proj_qkv"@),
        is_head(c.topo, k, j),
        0 <= d < c.topo.head_v_dim,
        0 <= i < c.inputs(),
    ensures
        ({
            let hd = c.topo.head_v_dim as int;
            let qk = c.topo.head_k_dim * c.topo.num_k_heads * 2;
            let to = qk + (tiled_head(c.topo, k, j) * hd + d);
            let from = qk + (grouped_head(c.topo, k, j) * hd + d);
            &&& c.plan().dtype == 2
            &&& mapped_with_suffix(c.base() + ".weight"@) == Some(c.plan().gguf_name)
            &&& c.keeps_row(to, from, i)
            &&& forall|r: int| 0 <= r < qk ==> #[trigger] c.keeps_row(r, r, i)
        }),
{
    let hd = c.topo.head_v_dim as int;
    let nv = c.topo.num_v_heads as int;
    let qk = c.topo.head_k_dim * c.topo.num_k_heads * 2;
    let to = qk + (tiled_head(c.topo, k, j) * hd + d);
    let from = qk + (grouped_head(c.topo, k, j) * hd + d);
    let perms = perms_of(c.topo);
    packed_sizes(c);
    orders_within(c.topo);
    heads_are_tiled(c.topo, k, j);
    heads_within(c.topo, k, j);
    within(tiled_head(c.topo, k, j), d, nv, hd);
    reordered_qkv_keeps_weights(
        c.words(),
        c.scales(),
        c.tensors[c.at].1.shape[0] as nat,
        c.outputs() as nat,
        perms,
    );
    assert(qk >= 0) by (nonlinear_arith)
        requires
            qk == c.topo.head_k_dim * c.topo.num_k_heads * 2,
    ;
    assert(perms.qkv[to] == from);
    group_of_block(i);
    assert(c.keeps_row(to, from, i));
    assert forall|r: int| 0 <= r < qk implies #[trigger] c.keeps_row(r, r, i) by {
        assert(perms.qkv[r] == r);
    }
}

/// The rows of linear attention's gate stand in tiled order, each weight with
/// its code and its scale, in Q4_0.
pub proof fn packed_gate_is_tiled(c: Packed, k: int, j: int, d: int, i: int)
    requires
        c.done(),
        c.outputs() > 0,
        has_suffix(c.base(), ".linear_attn.in_proj_z"@),
        is_head(c.topo, k, j),
        0 <= d < c.topo.head_v_dim,
        0 <= i < c.inputs(),
    ensures
        ({
            let hd = c.topo.head_v_dim as int;
            let to = tiled_head(c.topo, k, j) * hd + d;
            let from = grouped_head(c.topo, k, j) * hd + d;
            &&& c.plan().dtype == 2
            &&& mapped_with_suffix(c.base() + ".weight"@) == Some(c.plan().gguf_name)
            &&& c.keeps_row(to, from, i)
        }),
{
    let hd = c.topo.head_v_dim as int;
    let nv = c.topo.num_v_heads as int;
    let to = tiled_head(c.topo, k, j) * hd + d;
    let from = grouped_head(c.topo, k, j) * hd + d;
    let perms = perms_of(c.topo);
    reveal_strlit(".linear_attn.in_proj_qkv");
    reveal_strlit(".linear_attn.in_proj_z");
    ends_differ(c.base(), ".linear_attn.in_proj_z"@, ".linear_attn.in_proj_qkv"@, 1);
    packed_sizes(c);
    orders_within(c.topo);
    heads_are_tiled(c.topo, k, j);
    heads_within(c.topo, k, j);
    within(tiled_head(c.topo, k, j), d, nv, hd);
    reordered_rows_keep_weights(
        c.words(),
        c.scales(),
        c.tensors[c.at].1.shape[0] as nat,
        c.outputs() as nat,
        perms,
    );
    assert(perms.rows[to] == from);
    group_of_block(i);
}

/// The inputs of linear attention's last projection stand in tiled order, each
/// weight with its code and its scale, in Q4_0_AR16.
pub proof fn packed_output_is_tiled(c: Packed, k: int, j: int, d: int, o: int)
    requires
        c.done(),
        moves_chunks(perms_of(c.topo).rows),
        has_suffix(c.base(), ".linear_attn.out_proj"@),
        is_head(c.topo, k, j),
        0 <= d < c.topo.head_v_dim,
        0 <= o < c.outputs(),
    ensures
        ({
            let hd = c.topo.head_v_dim as int;
            let to = tiled_head(c.topo, k, j) * hd + d;
            let from = grouped_head(c.topo, k, j) * hd + d;
            &&& c.plan().dtype == 43
            &&& mapped_with_suffix(c.base() + ".weight"@) == Some(c.plan().gguf_name)
            &&& c.keeps_column(o, to, from)
        }),
{
    let hd = c.topo.head_v_dim as int;
    let nv = c.topo.num_v_heads as int;
    let to = tiled_head(c.topo, k, j) * hd + d;
    let from = grouped_head(c.topo, k, j) * hd + d;
    let perms = perms_of(c.topo);
    let rows = c.tensors[c.at].1.shape[0] as nat;
    reveal_strlit(".linear_attn.in_proj_qkv");
    reveal_strlit(".linear_attn.in_proj_z");
    reveal_strlit(".linear_attn.out_proj");
    ends_differ(c.base(), ".linear_attn.out_proj"@, ".linear_attn.in_proj_qkv"@, 1);
    ends_differ(c.base(), ".linear_attn.out_proj"@, ".linear_attn.in_proj_z"@, 1);
    packed_sizes(c);
    orders_within(c.topo);
    heads_are_tiled(c.topo, k, j);
    heads_within(c.topo, k, j);
    within(tiled_head(c.topo, k, j), d, nv, hd);
    reordered_columns_keep_weights(c.words(), c.scales(), rows, c.outputs() as nat, perms);
    assert(perms.rows[to] == from);
    assert(weight_kept(
        c.out(),
        c.words(),
        c.scales(),
        rows * 8,
        c.outputs() as nat,
        o,
        to,
        perms.rows[to] as int,
    ));
}

/// All other quantized weights stay in their order, each with its code and its
/// scale, in Q4_0. Those of the prediction module are named behind the model's
/// layers.
pub proof fn other_packed_weights_stay(c: Packed, o: int, i: int)
    requires
        c.done(),
        !has_suffix(c.base(), ".linear_attn.in_proj_qkv"@),
        !has_suffix(c.base(), ".linear_attn.in_proj_z"@),
        !has_suffix(c.base(), ".linear_attn.out_proj"@),
        0 <= o < c.outputs(),
        0 <= i < c.inputs(),
    ensures
        c.plan().dtype == 2,
        mapped_with_suffix(remapped(c.base(), c.topo.n_layer) + ".weight"@) == Some(
            c.plan().gguf_name,
        ),
        c.keeps_row(o, o, i),
{
    packed_sizes(c);
    trunk_keeps_weights(
        c.words(),
        c.scales(),
        c.tensors[c.at].1.shape[0] as nat,
        c.outputs() as nat,
        perms_of(c.topo),
    );
    group_of_block(i);
}

/// The bias of time steps stands nowhere before the end of its name.
#[verifier::spinoff_prover]
proof fn step_bias_is_last(n: Seq<char>, i: int)
    requires
        all_digits(n),
        0 <= i < of_layer(n, "linear_attn"@).len(),
    ensures
        !occurs_at(of_layer(n, "linear_attn"@) + ".dt_bias"@, ".dt_bias"@, i),
{
    let p = ".dt_bias"@;
    let head = "model.layers."@;
    let tail = "linear_attn"@;
    let t = of_layer(n, tail) + p;
    reveal_strlit(".dt_bias");
    reveal_strlit("linear_attn");
    reveal_strlit("model.layers.");
    assert(head.len() == 13 && tail.len() == 11 && p.len() == 8);
    if occurs_at(t, p, i) {
        let found = t.subrange(i, i + 8);
        assert(found[0] == t[i] && found[1] == t[i + 1]);
        let m = 13 + n.len() as int;
        if i < 12 {
            assert(t[i] == head[i] && t[i + 1] == head[i + 1]);
        } else if i == 12 {
            if n.len() > 0 {
                assert(t[13] == n[0]);
            } else {
                assert(t[13] == '.');
            }
        } else if i < m {
            assert(t[i] == n[i - 13]);
        } else if i == m {
            assert(t[i + 1] == tail[0]);
        } else {
            assert(t[i] == tail[i - m - 1]);
        }
    }
}

/// The name of a bias of time steps as that of a projection's bias.
proof fn step_bias_is_replaced(n: Seq<char>)
    requires
        all_digits(n),
    ensures
        replaced(of_layer(n, "linear_attn.dt_bias"@), ".dt_bias"@, ".dt_proj.bias"@) == of_layer(
            n,
            "linear_attn.dt_proj"@,
        ) + ".bias"@,
{
    let p = ".dt_bias"@;
    let q = ".dt_proj.bias"@;
    let a = of_layer(n, "linear_attn"@);
    let none = Seq::<char>::empty();
    let s = of_layer(n, "linear_attn.dt_bias"@);
    assert(s =~= a + p + none) by {
        reveal_strlit(".dt_bias");
        reveal_strlit("linear_attn");
        reveal_strlit("linear_attn.dt_bias");
        assert("linear_attn.dt_bias"@ =~= "linear_attn"@ + p);
    }
    assert(p.len() > 0) by {
        reveal_strlit(".dt_bias");
    }
    assert(a + p + none =~= a + p);
    assert forall|i: int| 0 <= i < a.len() implies !#[trigger] occurs_at(a + p + none, p, i) by {
        step_bias_is_last(n, i);
    }
    first_replaced(a, p, q, none);
    assert(replaced(none, p, q) =~= none);
    assert(a + q + none =~= of_layer(n, "linear_attn.dt_proj"@) + ".bias"@) by {
        reveal_strlit(".dt_proj.bias");
        reveal_strlit("linear_attn");
        reveal_strlit("linear_attn.dt_proj");
        reveal_strlit(".bias");
        assert("linear_attn"@ + q =~= "linear_attn.dt_proj"@ + ".bias"@);
    }
}

/// The bias of time steps of layer `n` is called by its block.
pub proof fn step_biases_are_called(n: Seq<char>)
    requires
        all_digits(n),
    ensures
        mapped_with_suffix(
            replaced(of_layer(n, "linear_attn.dt_bias"@), ".dt_bias"@, ".dt_proj.bias"@),
        ) == Some(of_block(n, "ssm_dt"@) + ".bias"@),
{
    step_bias_is_replaced(n);
    step_bias_is_called(n);
}

} // verus!
