//! What becomes of each tensor of a checkpoint.

use crate::gguf::format::{product, product_fits};
use crate::gguf::reader::checked_product;
use crate::gguf::{T_F16, T_F32, T_Q4_0, T_Q4_0_AR16};
use crate::remix::names::{
    cut_stem, filter_name, filtered_name, map_with_suffix, mapped_with_suffix, remap_mtp_layers,
    remapped, rename_standard, standard_name, stem_of, MtpError,
};
use crate::safetensors::{ref_views, Dtype, RefView, TensorRef};
use crate::text::{
    contains, ends_with, has_part, has_suffix, replace, replaced, same, strip_suffix,
    without_suffix,
};
use vstd::prelude::*;

verus! {

/// Why a checkpoint is not taken.
#[derive(Debug, Clone, Copy, PartialEq, Eq, Structural)]
pub enum Refusal {
    /// A file is no JSON.
    BadJson,
    /// The architecture is not the supported one.
    UnsupportedArchitecture,
    /// The checkpoint is not one of AutoRound.
    NotAutoRound,
    /// The quantization is not symmetric with four bits.
    UnsupportedBits,
    /// The group size is not the supported one.
    UnsupportedGroupSize,
    /// A parameter of the model is missing or of another type.
    MissingParameter,
    /// A parameter of the model has no room.
    ParameterRange,
    /// The index has no weight map.
    NoWeightMap,
    /// Quantized weights without scales.
    MissingScales,
    /// Quantized weights of another type.
    NotI32,
    /// A tensor that is neither quantized nor BF16.
    NotBf16,
    /// A tensor with too few dimensions, or too large.
    BadShape,
    /// Quantized weights that have no name in a GGUF.
    CannotMap,
    /// A tensor that has no name in a GGUF.
    CannotMapTensor,
    /// A layer of the prediction module that is no number.
    BadLayer,
    /// An unknown tensor of the prediction module.
    UnknownMtp,
    /// A tensor whose conversion disagrees with its type.
    RoutingMismatch,
    /// Scales of another shape than the weights ask for.
    ScalesShape,
    /// Weights of another size than the permutation of their rows or columns.
    PermLength,
    /// A permutation of columns that does not move whole blocks.
    BrokenBlocks,
    /// Data that lie beyond the end of their shard.
    Truncated,
    /// A base model given by its address.
    UrlBaseModel,
    /// A model card that names data sets.
    Datasets,
    /// A model card that is no YAML.
    BadCard,
    /// A scaling of the rotary embedding that is not supported.
    RopeScaling,
    /// A model type without a known pre-tokenizer.
    UnknownModelType,
    /// More parameters than can be counted.
    TooManyParameters,
    /// Metadata under one key twice.
    DuplicateKey,
    /// Two tensors of one name.
    DuplicateTensor,
    /// Data that have no room.
    TooLarge,
}

/// Why a checkpoint is not taken, and what of it.
#[derive(Debug, PartialEq)]
pub struct RemixError {
    pub what: Refusal,
    pub subject: String,
}

impl View for RemixError {
    type V = (Refusal, Seq<char>);

    open spec fn view(&self) -> (Refusal, Seq<char>) {
        (self.what, self.subject@)
    }
}

/// A refusal of something.
pub fn refuse(what: Refusal, subject: &str) -> (r: RemixError)
    ensures
        r@ == (what, subject@),
{
    RemixError { what, subject: subject.to_owned() }
}

/// How a tensor is converted.
#[derive(Debug, Clone, Copy, PartialEq, Eq, Structural)]
pub enum Source {
    /// Quantized weights as they are.
    QuantTrunk,
    /// Quantized weights with the V rows of QKV reordered.
    QuantVRowQkv,
    /// Quantized weights with V rows reordered.
    QuantVRowZ,
    /// Quantized weights with V columns reordered.
    QuantVCol,
    /// BF16 -> F16, identity layout.
    Bf16ToF16,
    /// BF16 -> F16 with V heads' rows of `row_len` elements reordered.
    Bf16ToF16RowPerm { row_len: usize },
    /// BF16 -> F32, with V heads reordered or not.
    F32Plain { reordered: bool },
    /// BF16 -> F32, plus one.
    F32PlusOne,
    /// BF16 -> F32, V heads reordered, the negative exponential.
    F32NegExp,
    /// BF16 -> F32, squeezed, V channels reordered behind `qk_rows` rows.
    F32Conv1d { qk_rows: usize, row_len: usize },
}

/// What becomes of a tensor.
#[derive(Debug)]
pub struct Planned {
    pub gguf_name: String,
    pub dtype: u32,
    /// Logical shape in row-major order; reversed on disk.
    pub shape: Vec<u64>,
    pub nbytes: u64,
    /// The quantized weights or the tensor itself.
    pub tensor: usize,
    /// The scales of quantized weights.
    pub scales: Option<usize>,
    pub src: Source,
}

/// What a plan for a tensor means.
pub struct PlannedView {
    pub gguf_name: Seq<char>,
    pub dtype: u32,
    pub shape: Seq<u64>,
    pub nbytes: u64,
    pub tensor: usize,
    pub scales: Option<usize>,
    pub src: Source,
}

impl View for Planned {
    type V = PlannedView;

    open spec fn view(&self) -> PlannedView {
        PlannedView {
            gguf_name: self.gguf_name@,
            dtype: self.dtype,
            shape: self.shape@,
            nbytes: self.nbytes,
            tensor: self.tensor,
            scales: self.scales,
            src: self.src,
        }
    }
}

/// Whether a plan speaks of tensors among `n`, with scales just for quantized
/// weights.
pub open spec fn planned_within(p: PlannedView, n: nat) -> bool {
    &&& p.tensor < n
    &&& p.src.quantized() == (p.scales is Some)
    &&& p.scales is Some ==> p.scales->0 < n
}

/// The heads and layers of a model.
#[derive(Debug, Clone, Copy, PartialEq, Eq, Structural)]
pub struct Topology {
    pub num_k_heads: usize,
    pub num_v_heads: usize,
    pub head_k_dim: usize,
    pub head_v_dim: usize,
    pub n_layer: usize,
}

impl Topology {
    /// The rows of Q and K.
    pub open spec fn qk_rows(self) -> int {
        self.head_k_dim * self.num_k_heads * 2
    }

    /// Whether every V head belongs to a K head, and the rows have room.
    pub open spec fn wf(self) -> bool {
        &&& self.num_k_heads > 0
        &&& self.num_v_heads % self.num_k_heads == 0
        &&& self.qk_rows() + self.num_v_heads * self.head_v_dim <= usize::MAX
        &&& self.head_k_dim * self.num_k_heads <= usize::MAX
    }
}

/// The tensors that are taken, under the names under which they are taken.
pub open spec fn taken(tensors: Seq<(Seq<char>, RefView)>) -> Seq<(Seq<char>, RefView)>
    decreases tensors.len(),
{
    if tensors.len() == 0 {
        Seq::empty()
    } else {
        let rest = taken(tensors.drop_last());
        match filtered_name(tensors.last().0) {
            Some(name) => rest.push((name, tensors.last().1)),
            None => rest,
        }
    }
}

/// The tensors that are taken, under the names under which they are taken.
pub fn take_tensors(tensors: &[(String, TensorRef)]) -> (r: Vec<(String, TensorRef)>)
    ensures
        ref_views(r@) == taken(ref_views(tensors@)),
{
    let mut out: Vec<(String, TensorRef)> = Vec::new();
    let ghost all = ref_views(tensors@);
    let mut i: usize = 0;
    assert(all.take(0) =~= Seq::empty());
    assert(ref_views(out@) =~= Seq::empty());
    while i < tensors.len()
        invariant
            i <= tensors@.len(),
            all == ref_views(tensors@),
            ref_views(out@) == taken(all.take(i as int)),
        decreases tensors@.len() - i,
    {
        proof {
            let t = all.take(i + 1);
            assert(t.drop_last() =~= all.take(i as int));
            assert(t.last() == (tensors@[i as int].0@, tensors@[i as int].1@));
        }
        if let Some(name) = filter_name(tensors[i].0.as_str()) {
            let ghost before = ref_views(out@);
            let ghost n = name@;
            out.push((name, tensors[i].1.clone()));
            assert(ref_views(out@) =~= before.push((n, tensors@[i as int].1@)));
        }
        i += 1;
    }
    assert(all.take(i as int) =~= all);
    out
}

/// The first tensor of a name from `i` on.
pub open spec fn place_of(tensors: Seq<(Seq<char>, RefView)>, name: Seq<char>, i: int) -> Option<int>
    decreases tensors.len() - i,
{
    if i < 0 || i >= tensors.len() {
        None
    } else if tensors[i].0 == name {
        Some(i)
    } else {
        place_of(tensors, name, i + 1)
    }
}

/// The first tensor of a name.
fn find_tensor(tensors: &[(String, TensorRef)], name: &str) -> (r: Option<usize>)
    ensures
        match r {
            Some(i) => place_of(ref_views(tensors@), name@, 0) == Some(i as int) && i
                < tensors@.len(),
            None => place_of(ref_views(tensors@), name@, 0) is None,
        },
{
    let mut i: usize = 0;
    while i < tensors.len()
        invariant
            i <= tensors@.len(),
            place_of(ref_views(tensors@), name@, 0) == place_of(
                ref_views(tensors@),
                name@,
                i as int,
            ),
        decreases tensors@.len() - i,
    {
        assert(ref_views(tensors@)[i as int].0 == tensors@[i as int].0@);
        if same(tensors[i].0.as_str(), name) {
            return Some(i);
        }
        i += 1;
    }
    None
}

/// Bytes of a matrix in blocks of `block` elements and `bytes` bytes.
pub open spec fn packed_size(in_f: int, out_f: int, block: int, bytes: int) -> int {
    in_f / block * bytes * out_f
}

/// How quantized weights of this name are converted.
pub open spec fn quant_source(base: Seq<char>) -> Source {
    if has_suffix(base, ".linear_attn.in_proj_qkv"@) {
        Source::QuantVRowQkv
    } else if has_suffix(base, ".linear_attn.in_proj_z"@) {
        Source::QuantVRowZ
    } else if has_suffix(base, ".linear_attn.out_proj"@) {
        Source::QuantVCol
    } else {
        Source::QuantTrunk
    }
}

/// What quantized weights of this name are called in a GGUF.
pub open spec fn quant_name(base: Seq<char>, n_layer: usize) -> Option<Seq<char>> {
    if quant_source(base) == Source::QuantTrunk {
        mapped_with_suffix(remapped(base, n_layer) + ".weight"@)
    } else {
        mapped_with_suffix(base + ".weight"@)
    }
}

/// What becomes of the quantized weights at `i`.
pub open spec fn quant_plan(tensors: Seq<(Seq<char>, RefView)>, i: int, n_layer: usize) -> Result<
    PlannedView,
    (Refusal, Seq<char>),
> {
    let name = tensors[i].0;
    let t = tensors[i].1;
    let base = without_suffix(name, ".qweight"@)->0;
    match place_of(tensors, base + ".scales"@, 0) {
        None => Err((Refusal::MissingScales, base)),
        Some(s) => if t.dtype != Dtype::I32 {
            Err((Refusal::NotI32, name))
        } else if t.shape.len() < 2 || t.shape[0] * 8 > usize::MAX {
            Err((Refusal::BadShape, name))
        } else {
            let in_f = t.shape[0] * 8;
            let out_f = t.shape[1] as int;
            let src = quant_source(base);
            let size = if src == Source::QuantVCol {
                packed_size(in_f, out_f, 16, 10)
            } else {
                packed_size(in_f, out_f, 32, 18)
            };
            match quant_name(base, n_layer) {
                None => Err((Refusal::CannotMap, base)),
                Some(gguf_name) => if size > usize::MAX {
                    Err((Refusal::BadShape, name))
                } else {
                    Ok(
                        PlannedView {
                            gguf_name,
                            dtype: if src == Source::QuantVCol {
                                T_Q4_0_AR16
                            } else {
                                T_Q4_0
                            },
                            shape: seq![out_f as u64, in_f as u64],
                            nbytes: size as u64,
                            tensor: i as usize,
                            scales: Some(s as usize),
                            src,
                        },
                    )
                },
            }
        },
    }
}

/// Two texts one after the other.
pub fn concat(a: &str, b: &str) -> (r: String)
    ensures
        r@ == a@ + b@,
{
    let mut r = a.to_owned();
    r.append(b);
    r
}

/// How quantized weights of this name are converted.
fn choose_quant(base: &str) -> (r: Source)
    ensures
        r == quant_source(base@),
{
    if ends_with(base, ".linear_attn.in_proj_qkv") {
        Source::QuantVRowQkv
    } else if ends_with(base, ".linear_attn.in_proj_z") {
        Source::QuantVRowZ
    } else if ends_with(base, ".linear_attn.out_proj") {
        Source::QuantVCol
    } else {
        Source::QuantTrunk
    }
}

/// What quantized weights of this name are called in a GGUF.
fn name_quant(base: &str, n_layer: usize) -> (r: Option<String>)
    ensures
        r is Some <==> quant_name(base@, n_layer) is Some,
        r is Some ==> r->0@ == quant_name(base@, n_layer)->0,
{
    if choose_quant(base) == Source::QuantTrunk {
        let mapped = remap_mtp_layers(base, n_layer);
        map_with_suffix(concat(mapped.as_str(), ".weight").as_str())
    } else {
        map_with_suffix(concat(base, ".weight").as_str())
    }
}

/// Bytes of a matrix in blocks, if they have room.
fn size_packed(in_f: usize, out_f: usize, block: usize, bytes: usize) -> (r: Option<usize>)
    requires
        block > 0,
    ensures
        r is Some <==> packed_size(in_f as int, out_f as int, block as int, bytes as int)
            <= usize::MAX,
        r is Some ==> r->0 == packed_size(in_f as int, out_f as int, block as int, bytes as int),
{
    let n: usize = in_f / block;
    match n.checked_mul(bytes) {
        Some(row) => row.checked_mul(out_f),
        None => {
            if out_f == 0 {
                assert(n * bytes * out_f == 0) by (nonlinear_arith)
                    requires
                        out_f == 0,
                ;
                Some(0)
            } else {
                assert(n * bytes * out_f >= n * bytes) by (nonlinear_arith)
                    requires
                        out_f >= 1,
                        n * bytes >= 0,
                ;
                None
            }
        },
    }
}

/// What becomes of the quantized weights at `i`.
pub fn plan_quant(tensors: &[(String, TensorRef)], i: usize, n_layer: usize) -> (r: Result<
    Planned,
    RemixError,
>)
    requires
        i < tensors@.len(),
        has_suffix(ref_views(tensors@)[i as int].0, ".qweight"@),
    ensures
        match quant_plan(ref_views(tensors@), i as int, n_layer) {
            Ok(p) => r is Ok && r->Ok_0@ == p && planned_within(p, tensors@.len()),
            Err(e) => r is Err && r->Err_0@ == e,
        },
{
    let ghost all = ref_views(tensors@);
    assert(all[i as int] == (tensors@[i as int].0@, tensors@[i as int].1@));
    let name = tensors[i].0.as_str();
    let t = &tensors[i].1;
    let base = match strip_suffix(name, ".qweight") {
        Some(b) => b,
        None => String::new(),
    };
    let base = base.as_str();
    let scales: usize = match find_tensor(tensors, concat(base, ".scales").as_str()) {
        Some(s) => s,
        None => {
            return Err(refuse(Refusal::MissingScales, base));
        },
    };
    if t.dtype != Dtype::I32 {
        return Err(refuse(Refusal::NotI32, name));
    }
    if t.shape.len() < 2 {
        return Err(refuse(Refusal::BadShape, name));
    }
    let in_f: usize = match t.shape[0].checked_mul(8) {
        Some(n) => n,
        None => {
            return Err(refuse(Refusal::BadShape, name));
        },
    };
    let out_f: usize = t.shape[1];
    let gguf_name = match name_quant(base, n_layer) {
        Some(n) => n,
        None => {
            return Err(refuse(Refusal::CannotMap, base));
        },
    };
    let src = choose_quant(base);
    let (dtype, size) = if src == Source::QuantVCol {
        (T_Q4_0_AR16, size_packed(in_f, out_f, 16, 10))
    } else {
        (T_Q4_0, size_packed(in_f, out_f, 32, 18))
    };
    let nbytes: u64 = match size {
        Some(n) => n as u64,
        None => {
            return Err(refuse(Refusal::BadShape, name));
        },
    };
    let mut shape: Vec<u64> = Vec::new();
    shape.push(out_f as u64);
    shape.push(in_f as u64);
    assert(shape@ =~= seq![out_f as u64, in_f as u64]);
    Ok(Planned { gguf_name, dtype, shape, nbytes, tensor: i, scales: Some(scales), src })
}

/// A shape in 64 bits.
pub open spec fn wide_shape(shape: Seq<usize>) -> Seq<u64> {
    Seq::new(shape.len(), |i: int| shape[i] as u64)
}

/// How a tensor that is not quantized is converted: the conversion, the name
/// before it is mapped, and the shape. `None` where it has too few dimensions.
pub open spec fn route(name: Seq<char>, shape: Seq<usize>, topo: Topology) -> Option<
    (Source, Seq<char>, Seq<u64>),
> {
    let linear = has_part(name, "linear_attn."@);
    let wide = wide_shape(shape);
    if linear && (has_suffix(name, ".in_proj_a.weight"@) || has_suffix(
        name,
        ".in_proj_b.weight"@,
    )) {
        if shape.len() < 2 {
            None
        } else {
            Some((Source::Bf16ToF16RowPerm { row_len: shape[1] }, name, wide))
        }
    } else if linear && has_suffix(name, ".A_log"@) {
        Some((Source::F32NegExp, name, wide))
    } else if linear && has_suffix(name, ".dt_bias"@) {
        Some(
            (
                Source::F32Plain { reordered: true },
                replaced(name, ".dt_bias"@, ".dt_proj.bias"@),
                wide,
            ),
        )
    } else if linear && has_part(name, "conv1d"@) {
        if shape.len() < 3 {
            None
        } else {
            Some(
                (
                    Source::F32Conv1d { qk_rows: topo.qk_rows() as usize, row_len: shape[2] },
                    name,
                    seq![shape[0] as u64, shape[2] as u64],
                ),
            )
        }
    } else if has_suffix(name, "norm.weight"@) && !has_suffix(name, "linear_attn.norm.weight"@) {
        Some((Source::F32PlusOne, name, wide))
    } else if linear && has_suffix(name, "norm.weight"@) {
        Some((Source::F32Plain { reordered: false }, name, wide))
    } else if shape.len() == 1 {
        Some((Source::F32Plain { reordered: false }, name, wide))
    } else {
        Some((Source::Bf16ToF16, name, wide))
    }
}

/// Whether a tensor is stored in F32: those of one dimension, norms, the
/// convolution, and all that are no weights.
pub open spec fn stored_f32(gguf_name: Seq<char>, n_dims: nat) -> bool {
    ||| n_dims <= 1
    ||| has_suffix(gguf_name, "_norm.weight"@)
    ||| has_part(gguf_name, ".ssm_conv1d."@)
    ||| !has_suffix(gguf_name, ".weight"@) && !has_suffix(gguf_name, ".lora_a"@) && !has_suffix(
        gguf_name,
        ".lora_b"@,
    )
}

impl Source {
    /// Whether a conversion gives F32.
    pub open spec fn gives_f32(self) -> bool {
        self is F32Plain || self is F32PlusOne || self is F32NegExp || self is F32Conv1d
    }

    /// Whether a conversion is of quantized weights.
    pub open spec fn quantized(self) -> bool {
        self is QuantTrunk || self is QuantVRowQkv || self is QuantVRowZ || self is QuantVCol
    }
}

/// What becomes of a tensor that is not quantized.
pub open spec fn standard_plan(name: Seq<char>, i: int, t: RefView, topo: Topology) -> Result<
    PlannedView,
    (Refusal, Seq<char>),
> {
    match standard_name(name, topo.n_layer) {
        Err(MtpError::BadLayer) => Err((Refusal::BadLayer, name)),
        Err(MtpError::Unknown) => Err((Refusal::UnknownMtp, stem_of(name))),
        Ok(renamed) => match route(renamed, t.shape, topo) {
            None => Err((Refusal::BadShape, name)),
            Some((src, out_name, shape)) => match mapped_with_suffix(out_name) {
                None => Err((Refusal::CannotMapTensor, out_name)),
                Some(gguf_name) => {
                    let f32_out = stored_f32(gguf_name, shape.len());
                    let elem = if f32_out {
                        4int
                    } else {
                        2int
                    };
                    if f32_out != src.gives_f32() {
                        Err((Refusal::RoutingMismatch, gguf_name))
                    } else if !product_fits(shape) || product(shape) * elem > u64::MAX {
                        Err((Refusal::BadShape, name))
                    } else {
                        Ok(
                            PlannedView {
                                gguf_name,
                                dtype: if f32_out {
                                    T_F32
                                } else {
                                    T_F16
                                },
                                shape,
                                nbytes: (product(shape) * elem) as u64,
                                tensor: i as usize,
                                scales: None,
                                src,
                            },
                        )
                    }
                },
            },
        },
    }
}

/// A shape in 64 bits.
fn widen(shape: &Vec<usize>) -> (r: Vec<u64>)
    ensures
        r@ == wide_shape(shape@),
{
    let mut r: Vec<u64> = Vec::new();
    let mut i: usize = 0;
    while i < shape.len()
        invariant
            i <= shape@.len(),
            r@.len() == i,
            forall|k: int| 0 <= k < i ==> #[trigger] r@[k] == shape@[k] as u64,
        decreases shape@.len() - i,
    {
        r.push(shape[i] as u64);
        i += 1;
    }
    assert(r@ =~= wide_shape(shape@));
    r
}

/// How a tensor that is not quantized is converted.
fn choose_route(name: &str, shape: &Vec<usize>, topo: &Topology) -> (r: Option<
    (Source, String, Vec<u64>),
>)
    requires
        topo.wf(),
    ensures
        r is Some <==> route(name@, shape@, *topo) is Some,
        r matches Some(p) ==> route(name@, shape@, *topo) == Some((p.0, p.1@, p.2@)),
{
    let linear = contains(name, "linear_attn.");
    if linear && (ends_with(name, ".in_proj_a.weight") || ends_with(name, ".in_proj_b.weight")) {
        if shape.len() < 2 {
            return None;
        }
        return Some(
            (Source::Bf16ToF16RowPerm { row_len: shape[1] }, name.to_owned(), widen(shape)),
        );
    }
    if linear && ends_with(name, ".A_log") {
        return Some((Source::F32NegExp, name.to_owned(), widen(shape)));
    }
    if linear && ends_with(name, ".dt_bias") {
        proof {
            reveal_strlit(".dt_bias");
        }
        let out_name = replace(name, ".dt_bias", ".dt_proj.bias");
        return Some((Source::F32Plain { reordered: true }, out_name, widen(shape)));
    }
    if linear && contains(name, "conv1d") {
        if shape.len() < 3 {
            return None;
        }
        let qk_rows: usize = count_qk_rows(topo);
        let mut squeezed: Vec<u64> = Vec::new();
        squeezed.push(shape[0] as u64);
        squeezed.push(shape[2] as u64);
        assert(squeezed@ =~= seq![shape@[0] as u64, shape@[2] as u64]);
        return Some(
            (Source::F32Conv1d { qk_rows, row_len: shape[2] }, name.to_owned(), squeezed),
        );
    }
    if ends_with(name, "norm.weight") && !ends_with(name, "linear_attn.norm.weight") {
        return Some((Source::F32PlusOne, name.to_owned(), widen(shape)));
    }
    if (linear && ends_with(name, "norm.weight")) || shape.len() == 1 {
        return Some((Source::F32Plain { reordered: false }, name.to_owned(), widen(shape)));
    }
    Some((Source::Bf16ToF16, name.to_owned(), widen(shape)))
}

/// The rows of Q and K.
pub fn count_qk_rows(topo: &Topology) -> (r: usize)
    requires
        topo.wf(),
    ensures
        r == topo.qk_rows(),
{
    assert(0 <= topo.num_v_heads * topo.head_v_dim) by (nonlinear_arith);
    topo.head_k_dim * topo.num_k_heads * 2
}

/// Whether a tensor is stored in F32.
fn is_stored_f32(gguf_name: &str, n_dims: usize) -> (r: bool)
    ensures
        r == stored_f32(gguf_name@, n_dims as nat),
{
    n_dims <= 1 || ends_with(gguf_name, "_norm.weight") || contains(gguf_name, ".ssm_conv1d.") || (
    !ends_with(gguf_name, ".weight") && !ends_with(gguf_name, ".lora_a") && !ends_with(
        gguf_name,
        ".lora_b",
    ))
}

/// What becomes of a tensor that is not quantized.
pub fn plan_standard(name: &str, i: usize, t: &TensorRef, topo: &Topology) -> (r: Result<
    Planned,
    RemixError,
>)
    requires
        topo.wf(),
    ensures
        match standard_plan(name@, i as int, t@, *topo) {
            Ok(p) => r is Ok && r->Ok_0@ == p && planned_within(p, i as nat + 1),
            Err(e) => r is Err && r->Err_0@ == e,
        },
{
    let renamed = match rename_standard(name, topo.n_layer) {
        Ok(s) => s,
        Err(MtpError::BadLayer) => {
            return Err(refuse(Refusal::BadLayer, name));
        },
        Err(MtpError::Unknown) => {
            return Err(refuse(Refusal::UnknownMtp, cut_stem(name).as_str()));
        },
    };
    let (src, out_name, shape) = match choose_route(renamed.as_str(), &t.shape, topo) {
        Some(p) => p,
        None => {
            return Err(refuse(Refusal::BadShape, name));
        },
    };
    let gguf_name = match map_with_suffix(out_name.as_str()) {
        Some(n) => n,
        None => {
            return Err(refuse(Refusal::CannotMapTensor, out_name.as_str()));
        },
    };
    let f32_out = is_stored_f32(gguf_name.as_str(), shape.len());
    let gives_f32 = match src {
        Source::F32Plain { .. } => true,
        Source::F32PlusOne => true,
        Source::F32NegExp => true,
        Source::F32Conv1d { .. } => true,
        _ => false,
    };
    if f32_out != gives_f32 {
        return Err(refuse(Refusal::RoutingMismatch, gguf_name.as_str()));
    }
    let (dtype, elem) = if f32_out {
        (T_F32, 4u64)
    } else {
        (T_F16, 2u64)
    };
    let nbytes: u64 = match checked_product(&shape) {
        Some(n) => match n.checked_mul(elem) {
            Some(b) => b,
            None => {
                return Err(refuse(Refusal::BadShape, name));
            },
        },
        None => {
            return Err(refuse(Refusal::BadShape, name));
        },
    };
    Ok(Planned { gguf_name, dtype, shape, nbytes, tensor: i, scales: None, src })
}

/// The plans of the quantized weights from `i` on, after `before`.
pub open spec fn quant_plans(
    before: Seq<PlannedView>,
    tensors: Seq<(Seq<char>, RefView)>,
    i: int,
    n_layer: usize,
) -> Result<Seq<PlannedView>, (Refusal, Seq<char>)>
    decreases tensors.len() - i,
{
    if i < 0 || i >= tensors.len() {
        Ok(before)
    } else if !has_suffix(tensors[i].0, ".qweight"@) {
        quant_plans(before, tensors, i + 1, n_layer)
    } else {
        match quant_plan(tensors, i, n_layer) {
            Err(e) => Err(e),
            Ok(p) => quant_plans(before.push(p), tensors, i + 1, n_layer),
        }
    }
}

/// Whether a tensor is part of quantized weights.
pub open spec fn belongs_to(tensors: Seq<(Seq<char>, RefView)>, base: Seq<char>, i: int) -> bool {
    ||| place_of(tensors, base + ".qweight"@, 0) == Some(i)
    ||| place_of(tensors, base + ".qzeros"@, 0) == Some(i)
    ||| place_of(tensors, base + ".scales"@, 0) == Some(i)
    ||| place_of(tensors, base + ".g_idx"@, 0) == Some(i)
}

/// Whether a tensor is part of some of the quantized weights before `n`.
pub open spec fn consumed_by(tensors: Seq<(Seq<char>, RefView)>, n: int, i: int) -> bool {
    exists|q: int|
        0 <= q < n && has_suffix(#[trigger] tensors[q].0, ".qweight"@) && belongs_to(
            tensors,
            without_suffix(tensors[q].0, ".qweight"@)->0,
            i,
        )
}

/// The plans of the tensors from `i` on that are not quantized, after
/// `before`.
pub open spec fn standard_plans(
    before: Seq<PlannedView>,
    tensors: Seq<(Seq<char>, RefView)>,
    i: int,
    topo: Topology,
) -> Result<Seq<PlannedView>, (Refusal, Seq<char>)>
    decreases tensors.len() - i,
{
    if i < 0 || i >= tensors.len() {
        Ok(before)
    } else if consumed_by(tensors, tensors.len() as int, i) {
        standard_plans(before, tensors, i + 1, topo)
    } else if tensors[i].1.dtype != Dtype::BF16 {
        Err((Refusal::NotBf16, tensors[i].0))
    } else {
        match standard_plan(tensors[i].0, i, tensors[i].1, topo) {
            Err(e) => Err(e),
            Ok(p) => standard_plans(before.push(p), tensors, i + 1, topo),
        }
    }
}

/// What becomes of the tensors of a checkpoint: first the quantized weights,
/// then all others, each in their order. The others are taken only where every
/// V head belongs to a K head.
pub open spec fn full_plan(tensors: Seq<(Seq<char>, RefView)>, topo: Topology) -> Result<
    Seq<PlannedView>,
    (Refusal, Seq<char>),
> {
    match quant_plans(Seq::empty(), tensors, 0, topo.n_layer) {
        Err(e) => Err(e),
        Ok(plans) => if !topo.wf() {
            Err((Refusal::ParameterRange, "linear_num_value_heads"@))
        } else {
            standard_plans(plans, tensors, 0, topo)
        },
    }
}

/// What plans mean.
pub open spec fn plan_views(v: Seq<Planned>) -> Seq<PlannedView> {
    Seq::new(v.len(), |i: int| v[i]@)
}

/// Whether plans all speak of tensors among `n`.
pub open spec fn all_within(v: Seq<PlannedView>, n: nat) -> bool {
    forall|i: int| 0 <= i < v.len() ==> planned_within(#[trigger] v[i], n)
}

/// Mark a tensor as part of quantized weights.
fn consume(
    consumed: &mut Vec<bool>,
    tensors: &[(String, TensorRef)],
    name: &str,
)
    requires
        old(consumed)@.len() == tensors@.len(),
    ensures
        final(consumed)@.len() == old(consumed)@.len(),
        forall|i: int|
            0 <= i < final(consumed)@.len() ==> #[trigger] final(consumed)@[i] == (
            old(consumed)@[i] || place_of(ref_views(tensors@), name@, 0) == Some(i)),
{
    match find_tensor(tensors, name) {
        Some(i) => {
            consumed[i] = true;
        },
        None => {},
    }
}

/// Which tensors are part of quantized weights.
fn find_consumed(tensors: &[(String, TensorRef)]) -> (r: Vec<bool>)
    ensures
        r@.len() == tensors@.len(),
        forall|i: int|
            0 <= i < r@.len() ==> #[trigger] r@[i] == consumed_by(
                ref_views(tensors@),
                tensors@.len() as int,
                i,
            ),
{
    let ghost all = ref_views(tensors@);
    let mut consumed: Vec<bool> = Vec::new();
    consumed.resize(tensors.len(), false);
    let mut q: usize = 0;
    while q < tensors.len()
        invariant
            q <= tensors@.len(),
            all == ref_views(tensors@),
            consumed@.len() == tensors@.len(),
            forall|i: int|
                0 <= i < consumed@.len() ==> #[trigger] consumed@[i] == consumed_by(
                    all,
                    q as int,
                    i,
                ),
        decreases tensors@.len() - q,
    {
        assert(all[q as int].0 == tensors@[q as int].0@);
        let ghost before = consumed@;
        match strip_suffix(tensors[q].0.as_str(), ".qweight") {
            Some(base) => {
                let base = base.as_str();
                consume(&mut consumed, tensors, concat(base, ".qweight").as_str());
                consume(&mut consumed, tensors, concat(base, ".qzeros").as_str());
                consume(&mut consumed, tensors, concat(base, ".scales").as_str());
                consume(&mut consumed, tensors, concat(base, ".g_idx").as_str());
                assert forall|i: int| 0 <= i < consumed@.len() implies #[trigger] consumed@[i]
                    == consumed_by(all, q + 1, i) by {
                    assert(before[i] == consumed_by(all, q as int, i));
                    assert(consumed@[i] == (before[i] || belongs_to(all, base@, i)));
                    if belongs_to(all, base@, i) {
                        assert(has_suffix(all[q as int].0, ".qweight"@));
                    }
                }
            },
            None => {
                assert forall|i: int| 0 <= i < consumed@.len() implies #[trigger] consumed@[i]
                    == consumed_by(all, q + 1, i) by {
                    assert(before[i] == consumed_by(all, q as int, i));
                }
            },
        }
        q += 1;
    }
    consumed
}

/// Whether every V head belongs to a K head, and the rows have room.
fn is_wf(topo: &Topology) -> (r: bool)
    ensures
        r == topo.wf(),
{
    if topo.num_k_heads == 0 || topo.num_v_heads % topo.num_k_heads != 0 {
        return false;
    }
    assert(0 <= topo.num_v_heads * topo.head_v_dim) by (nonlinear_arith);
    assert(0 <= topo.head_k_dim * topo.num_k_heads) by (nonlinear_arith);
    let k: usize = match topo.head_k_dim.checked_mul(topo.num_k_heads) {
        Some(x) => x,
        None => {
            return false;
        },
    };
    let qk: usize = match k.checked_mul(2) {
        Some(x) => x,
        None => {
            return false;
        },
    };
    let v: usize = match topo.num_v_heads.checked_mul(topo.head_v_dim) {
        Some(x) => x,
        None => {
            return false;
        },
    };
    qk.checked_add(v).is_some()
}

/// What becomes of the tensors of a checkpoint.
pub fn plan_tensors(tensors: &[(String, TensorRef)], topo: &Topology) -> (r: Result<
    Vec<Planned>,
    RemixError,
>)
    ensures
        match full_plan(ref_views(tensors@), *topo) {
            Ok(p) => {
                &&& r is Ok
                &&& plan_views(r->Ok_0@) == p
                &&& all_within(p, tensors@.len())
                &&& topo.wf()
            },
            Err(e) => r is Err && r->Err_0@ == e,
        },
{
    let ghost all = ref_views(tensors@);
    let mut plan: Vec<Planned> = Vec::new();
    let mut i: usize = 0;
    assert(plan_views(plan@) =~= Seq::empty());
    while i < tensors.len()
        invariant
            i <= tensors@.len(),
            all == ref_views(tensors@),
            all_within(plan_views(plan@), tensors@.len()),
            quant_plans(Seq::empty(), all, 0, topo.n_layer) == quant_plans(
                plan_views(plan@),
                all,
                i as int,
                topo.n_layer,
            ),
        decreases tensors@.len() - i,
    {
        assert(all[i as int].0 == tensors@[i as int].0@);
        if ends_with(tensors[i].0.as_str(), ".qweight") {
            match plan_quant(tensors, i, topo.n_layer) {
                Err(e) => {
                    return Err(e);
                },
                Ok(p) => {
                    let ghost before = plan_views(plan@);
                    let ghost v = p@;
                    plan.push(p);
                    assert(plan_views(plan@) =~= before.push(v));
                },
            }
        }
        i += 1;
    }
    if !is_wf(topo) {
        return Err(refuse(Refusal::ParameterRange, "linear_num_value_heads"));
    }
    let consumed = find_consumed(tensors);
    let ghost quants = plan_views(plan@);
    let mut i: usize = 0;
    while i < tensors.len()
        invariant
            i <= tensors@.len(),
            topo.wf(),
            all == ref_views(tensors@),
            all_within(plan_views(plan@), tensors@.len()),
            consumed@.len() == tensors@.len(),
            forall|k: int|
                0 <= k < consumed@.len() ==> #[trigger] consumed@[k] == consumed_by(
                    all,
                    tensors@.len() as int,
                    k,
                ),
            quant_plans(Seq::empty(), all, 0, topo.n_layer) == Ok::<
                Seq<PlannedView>,
                (Refusal, Seq<char>),
            >(quants),
            standard_plans(quants, all, 0, *topo) == standard_plans(
                plan_views(plan@),
                all,
                i as int,
                *topo,
            ),
        decreases tensors@.len() - i,
    {
        assert(all[i as int] == (tensors@[i as int].0@, tensors@[i as int].1@));
        if !consumed[i] {
            let t = &tensors[i].1;
            if t.dtype != Dtype::BF16 {
                return Err(refuse(Refusal::NotBf16, tensors[i].0.as_str()));
            }
            match plan_standard(tensors[i].0.as_str(), i, t, topo) {
                Err(e) => {
                    return Err(e);
                },
                Ok(p) => {
                    let ghost before = plan_views(plan@);
                    let ghost v = p@;
                    plan.push(p);
                    assert(plan_views(plan@) =~= before.push(v));
                },
            }
        }
        i += 1;
    }
    Ok(plan)
}

} // verus!
