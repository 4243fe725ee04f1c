//! What becomes of each tensor of a file.

use crate::gguf::format::{product, ErrorView, ReaderView, TensorView};
use crate::gguf::laws::sized;
use crate::gguf::reader::{tensor_data_spec, GgufError, Reader, ReaderTensor};
use crate::gguf::{T_BF16, T_F16, T_F32, T_Q4_0, T_Q4_0_AR16, T_Q8_0};
use crate::ieee::convert::{divide_double, double_of_single, double_over, DOUBLE_ONE};
use crate::ieee::decimal::g6_text;
use crate::recast::policy::{any_matches, Policy};
use crate::recast::values::{
    absmax_after, absmax_of, band_of, bf16_absmax, classify_band, count_scaled, fmt_g6,
    largest_single, rotate_rows, rotated, row_scales, scale_after, scaled_count, singles_of,
    t4_row_scales, widen_all, Band, FP16_HALF_RANGE, LEAST_SCALE, TARGET,
};
use crate::recast::wht::{floor_log2, is_power_of_two, largest_pow2_le};
use crate::safetensors::{u16_values, words16};
use crate::text::{decimal, decimal_text, same};
use vstd::arithmetic::power2::pow2;
use vstd::prelude::*;

verus! {

/// How far a recast goes.
#[derive(Debug, Clone, Copy, PartialEq, Eq, Structural)]
pub enum Tier {
    /// Look only.
    DryRun,
    /// Cast what fits.
    T1,
    /// Scale what does not fit.
    T2,
    /// As `T2`.
    T3,
    /// Record a scale for each row.
    T4,
    /// Transform each row, then scale.
    T5,
}

impl Tier {
    /// The name of a tier.
    pub open spec fn text(self) -> Seq<char> {
        match self {
            Tier::DryRun => "dry-run"@,
            Tier::T1 => "T1"@,
            Tier::T2 => "T2"@,
            Tier::T3 => "T3"@,
            Tier::T4 => "T4"@,
            Tier::T5 => "T5"@,
        }
    }

    /// The name of a tier.
    pub fn name(self) -> (r: &'static str)
        ensures
            r@ == self.text(),
    {
        match self {
            Tier::DryRun => "dry-run",
            Tier::T1 => "T1",
            Tier::T2 => "T2",
            Tier::T3 => "T3",
            Tier::T4 => "T4",
            Tier::T5 => "T5",
        }
    }

    /// The tier of this name, if there is one.
    pub fn parse(s: &str) -> (r: Option<Tier>)
        ensures
            r == tier_of(s@),
    {
        if same(s, "dry-run") {
            Some(Tier::DryRun)
        } else if same(s, "T1") {
            Some(Tier::T1)
        } else if same(s, "T2") {
            Some(Tier::T2)
        } else if same(s, "T3") {
            Some(Tier::T3)
        } else if same(s, "T4") {
            Some(Tier::T4)
        } else if same(s, "T5") {
            Some(Tier::T5)
        } else {
            None
        }
    }
}

/// The tier of a name, if there is one.
pub open spec fn tier_of(s: Seq<char>) -> Option<Tier> {
    if s == Tier::DryRun.text() {
        Some(Tier::DryRun)
    } else if s == Tier::T1.text() {
        Some(Tier::T1)
    } else if s == Tier::T2.text() {
        Some(Tier::T2)
    } else if s == Tier::T3.text() {
        Some(Tier::T3)
    } else if s == Tier::T4.text() {
        Some(Tier::T4)
    } else if s == Tier::T5.text() {
        Some(Tier::T5)
    } else {
        None
    }
}

/// The name of a tensor type.
pub open spec fn type_text(t: u32) -> Seq<char> {
    if t == T_F32 {
        "F32"@
    } else if t == T_F16 {
        "F16"@
    } else if t == T_Q4_0 {
        "Q4_0"@
    } else if t == T_Q8_0 {
        "Q8_0"@
    } else if t == T_BF16 {
        "BF16"@
    } else if t == T_Q4_0_AR16 {
        "Q4_0_AR16"@
    } else {
        "?"@
    }
}

/// The name of a tensor type.
pub fn dtype_name(t: u32) -> (r: &'static str)
    ensures
        r@ == type_text(t),
{
    match t {
        T_F32 => "F32",
        T_F16 => "F16",
        T_Q4_0 => "Q4_0",
        T_Q8_0 => "Q8_0",
        T_BF16 => "BF16",
        T_Q4_0_AR16 => "Q4_0_AR16",
        _ => "?",
    }
}

/// What is done with a tensor's data.
#[derive(Debug, Clone, Copy, PartialEq, Eq, Structural)]
pub enum Kind {
    /// BF16 data stay.
    Bf16Passthrough,
    /// F32 data stay.
    F32Passthrough,
    /// Other data stay.
    RawPassthrough,
    /// BF16 data are cast: rows transformed over `hadamard_d` elements unless
    /// it is zero, divided by the double `scale`.
    CastF16 { scale: u64, hadamard_d: usize },
}

/// What becomes of a tensor.
#[derive(Debug)]
pub struct PlanEntry {
    pub kind: Kind,
    pub out_dtype: u32,
    pub band: Band,
    /// The largest magnitude, a double.
    pub absmax: u64,
    pub note: String,
}

/// What a plan for a tensor means.
pub struct EntryView {
    pub kind: Kind,
    pub out_dtype: u32,
    pub band: Band,
    pub absmax: u64,
    pub note: Seq<char>,
}

impl View for PlanEntry {
    type V = EntryView;

    open spec fn view(&self) -> EntryView {
        EntryView {
            kind: self.kind,
            out_dtype: self.out_dtype,
            band: self.band,
            absmax: self.absmax,
            note: self.note@,
        }
    }
}

/// The scale of a whole tensor: what does not fit is scaled, and with
/// `force_rescale` everything.
pub open spec fn tensor_scale(absmax: u64, force_rescale: bool) -> u64 {
    if band_of(absmax) == Band::C || force_rescale {
        double_over(absmax, TARGET)
    } else {
        DOUBLE_ONE
    }
}

/// A cast.
pub open spec fn cast_entry(
    scale: u64,
    hadamard_d: usize,
    absmax: u64,
    note: Seq<char>,
) -> EntryView {
    EntryView {
        kind: Kind::CastF16 { scale, hadamard_d },
        out_dtype: T_F16,
        band: band_of(absmax),
        absmax,
        note,
    }
}

/// What becomes of a BF16 tensor that is looked at, with `absmax` the largest
/// magnitude of its elements.
pub open spec fn measured_entry(
    dims: Seq<u64>,
    elems: Seq<u16>,
    absmax: u64,
    tier: Tier,
    force_rescale: bool,
) -> EntryView {
    let band = band_of(absmax);
    let scale = tensor_scale(absmax, force_rescale);
    match tier {
        Tier::DryRun => EntryView {
            kind: Kind::Bf16Passthrough,
            out_dtype: T_BF16,
            band,
            absmax,
            note: "dry-run band "@ + band.text(),
        },
        Tier::T1 => if band == Band::C {
            EntryView {
                kind: Kind::Bf16Passthrough,
                out_dtype: T_BF16,
                band,
                absmax,
                note: "T1 BF16 fallback"@,
            }
        } else {
            cast_entry(DOUBLE_ONE, 0, absmax, "T1 RNE-cast (band "@ + band.text() + ")"@)
        },
        Tier::T2 | Tier::T3 => cast_entry(
            scale,
            0,
            absmax,
            if scale != DOUBLE_ONE {
                tier.text() + " per-tensor /"@ + g6_text(scale)
            } else {
                tier.text() + " no-rescale"@
            },
        ),
        Tier::T4 => if dims.len() != 2 {
            cast_entry(scale, 0, absmax, "T4 falls-back-T2 /"@ + g6_text(scale))
        } else {
            let scales = row_scales(elems, dims[0] as nat, force_rescale);
            cast_entry(
                DOUBLE_ONE,
                0,
                absmax,
                "T4 per-channel ("@ + decimal(scaled_count(scales)) + "/"@ + decimal(scales.len())
                    + " rows scaled)"@,
            )
        },
        Tier::T5 => if dims.len() != 2 {
            cast_entry(scale, 0, absmax, "T5 falls-back-T2 /"@ + g6_text(scale))
        } else {
            let d = pow2(floor_log2(dims[0] as nat));
            let after = double_of_single(
                largest_single(rotated(singles_of(elems), dims[0] as nat, d)),
            );
            let turned_scale = scale_after(after, force_rescale);
            cast_entry(
                turned_scale,
                d as usize,
                absmax,
                "T5 hadamard d="@ + decimal(d) + ", post_absmax="@ + g6_text(after) + ", /"@
                    + g6_text(turned_scale),
            )
        },
    }
}

/// What becomes of a tensor of these elements. Only those of a BF16 tensor
/// that is not preserved are looked at; one of zeros is cast.
pub open spec fn entry_of(
    t: TensorView,
    preserve: bool,
    elems: Seq<u16>,
    tier: Tier,
    force_rescale: bool,
) -> EntryView {
    if t.dtype != T_BF16 {
        EntryView {
            kind: if t.dtype == T_F32 {
                Kind::F32Passthrough
            } else {
                Kind::RawPassthrough
            },
            out_dtype: t.dtype,
            band: Band::Untouched,
            absmax: 0,
            note: "passthrough"@,
        }
    } else if preserve {
        EntryView {
            kind: Kind::Bf16Passthrough,
            out_dtype: T_BF16,
            band: Band::Untouched,
            absmax: 0,
            note: "policy-preserve"@,
        }
    } else if absmax_of(elems) == 0 {
        EntryView {
            kind: Kind::CastF16 { scale: DOUBLE_ONE, hadamard_d: 0 },
            out_dtype: T_F16,
            band: Band::A,
            absmax: 0,
            note: "zero-tensor"@,
        }
    } else {
        measured_entry(t.dims, elems, absmax_of(elems), tier, force_rescale)
    }
}

/// What becomes of a tensor of a file.
pub open spec fn planned(
    b: Seq<u8>,
    r: ReaderView,
    t: TensorView,
    patterns: Seq<Seq<char>>,
    tier: Tier,
    force_rescale: bool,
) -> Result<EntryView, ErrorView> {
    planned_with(b, r, t, any_matches(patterns, t.name), tier, force_rescale)
}

/// What becomes of a tensor of a file that is preserved or not.
pub open spec fn planned_with(
    b: Seq<u8>,
    r: ReaderView,
    t: TensorView,
    preserve: bool,
    tier: Tier,
    force_rescale: bool,
) -> Result<EntryView, ErrorView> {
    if t.dtype != T_BF16 || preserve {
        Ok(entry_of(t, preserve, Seq::empty(), tier, force_rescale))
    } else {
        match tensor_data_spec(b, r, t) {
            Err(e) => Err(e),
            Ok(data) => Ok(entry_of(t, preserve, u16_values(data), tier, force_rescale)),
        }
    }
}

/// A BF16 tensor has as many elements as its shape says.
pub proof fn bf16_count(t: TensorView)
    requires
        sized(t),
        t.dtype == T_BF16,
    ensures
        t.nbytes == 2 * product(t.dims),
{
    let n = product(t.dims);
    assert(n / 1 == n);
    assert(n * 2 == 2 * n);
}

/// A matrix with elements has rows, none longer than the matrix.
pub proof fn matrix_has_rows(dims: Seq<u64>)
    requires
        dims.len() == 2,
        product(dims) > 0,
    ensures
        0 < dims[0] <= product(dims),
{
    reveal_with_fuel(product, 3);
    let a = dims[0] as nat;
    let c = dims[1] as nat;
    assert(dims.drop_last().drop_last().len() == 0);
    assert(dims.drop_last().last() == dims[0]);
    assert(product(dims.drop_last()) == 1 * a);
    assert(product(dims) == a * c);
    assert(a > 0 && a <= a * c) by (nonlinear_arith)
        requires
            a * c > 0,
            a >= 0,
            c >= 0,
    ;
}

/// The largest magnitude of no elements is zero.
pub proof fn nothing_is_zero()
    ensures
        absmax_of(Seq::empty()) == 0,
{
    crate::ieee::rounded_zero(1, 925, 53);
}

/// The scale of a whole tensor.
fn scale_tensor(absmax: u64, band: Band, force_rescale: bool) -> (r: u64)
    requires
        band == band_of(absmax),
    ensures
        r == tensor_scale(absmax, force_rescale),
{
    if band == Band::C || force_rescale {
        divide_double(absmax, TARGET)
    } else {
        DOUBLE_ONE
    }
}

/// A cast.
fn make_cast(scale: u64, hadamard_d: usize, absmax: u64, band: Band, note: String) -> (r: PlanEntry)
    requires
        band == band_of(absmax),
    ensures
        r@ == cast_entry(scale, hadamard_d, absmax, note@),
{
    PlanEntry {
        kind: Kind::CastF16 { scale, hadamard_d },
        out_dtype: T_F16,
        band,
        absmax,
        note,
    }
}

/// What becomes of a matrix whose rows are transformed.
fn plan_rotation(elems: &[u16], in_dim: usize, absmax: u64, force_rescale: bool) -> (r: PlanEntry)
    requires
        in_dim > 0,
    ensures
        forall|dims: Seq<u64>|
            dims.len() == 2 && #[trigger] dims[0] == in_dim ==> r@ == measured_entry(
                dims,
                elems@,
                absmax,
                Tier::T5,
                force_rescale,
            ),
        r.kind matches Kind::CastF16 { scale: _, hadamard_d } && is_power_of_two(
            hadamard_d as nat,
        ),
{
    let d: usize = largest_pow2_le(in_dim);
    let mut f = widen_all(elems);
    proof {
        crate::recast::wht::floor_log2_bounds(in_dim as nat);
    }
    rotate_rows(&mut f, in_dim, d);
    let after: u64 = absmax_after(f.as_slice());
    let scale: u64 = if after > FP16_HALF_RANGE || force_rescale {
        let q: u64 = divide_double(after, TARGET);
        if q > LEAST_SCALE {
            q
        } else {
            LEAST_SCALE
        }
    } else {
        DOUBLE_ONE
    };
    let mut note = "T5 hadamard d=".to_owned();
    note.append(decimal_text(d as u64).as_str());
    note.append(", post_absmax=");
    note.append(fmt_g6(after).as_str());
    note.append(", /");
    note.append(fmt_g6(scale).as_str());
    make_cast(scale, d, absmax, classify_band(absmax), note)
}

/// What becomes of a BF16 tensor that is looked at.
fn plan_measured(
    dims: &[u64],
    elems: &[u16],
    absmax: u64,
    tier: Tier,
    force_rescale: bool,
) -> (r: PlanEntry)
    requires
        dims@.len() == 2 ==> 0 < dims@[0] <= usize::MAX,
    ensures
        r@ == measured_entry(dims@, elems@, absmax, tier, force_rescale),
        r.kind matches Kind::CastF16 { scale: _, hadamard_d } ==> hadamard_d == 0
            || is_power_of_two(hadamard_d as nat),
{
    let band = classify_band(absmax);
    match tier {
        Tier::DryRun => {
            let mut note = "dry-run band ".to_owned();
            note.append(band.name());
            PlanEntry { kind: Kind::Bf16Passthrough, out_dtype: T_BF16, band, absmax, note }
        },
        Tier::T1 => {
            if band == Band::C {
                let note = "T1 BF16 fallback".to_owned();
                PlanEntry { kind: Kind::Bf16Passthrough, out_dtype: T_BF16, band, absmax, note }
            } else {
                let mut note = "T1 RNE-cast (band ".to_owned();
                note.append(band.name());
                note.append(")");
                make_cast(DOUBLE_ONE, 0, absmax, band, note)
            }
        },
        Tier::T2 | Tier::T3 => {
            let scale: u64 = scale_tensor(absmax, band, force_rescale);
            let mut note = tier.name().to_owned();
            if scale != DOUBLE_ONE {
                note.append(" per-tensor /");
                note.append(fmt_g6(scale).as_str());
            } else {
                note.append(" no-rescale");
            }
            make_cast(scale, 0, absmax, band, note)
        },
        Tier::T4 => {
            if dims.len() != 2 {
                let scale: u64 = scale_tensor(absmax, band, force_rescale);
                let mut note = "T4 falls-back-T2 /".to_owned();
                note.append(fmt_g6(scale).as_str());
                make_cast(scale, 0, absmax, band, note)
            } else {
                let scales = t4_row_scales(elems, dims[0] as usize, force_rescale);
                let mut note = "T4 per-channel (".to_owned();
                note.append(decimal_text(count_scaled(scales.as_slice()) as u64).as_str());
                note.append("/");
                note.append(decimal_text(scales.len() as u64).as_str());
                note.append(" rows scaled)");
                make_cast(DOUBLE_ONE, 0, absmax, band, note)
            }
        },
        Tier::T5 => {
            if dims.len() != 2 {
                let scale: u64 = scale_tensor(absmax, band, force_rescale);
                let mut note = "T5 falls-back-T2 /".to_owned();
                note.append(fmt_g6(scale).as_str());
                make_cast(scale, 0, absmax, band, note)
            } else {
                plan_rotation(elems, dims[0] as usize, absmax, force_rescale)
            }
        },
    }
}

/// Whether a plan transforms rows over a power of two, if at all.
pub open spec fn rotates_well(kind: Kind) -> bool {
    kind matches Kind::CastF16 { scale: _, hadamard_d } ==> hadamard_d == 0 || is_power_of_two(
        hadamard_d as nat,
    )
}

/// What becomes of a tensor of a file that is preserved or not.
pub fn plan_tensor(
    reader: &Reader,
    b: &[u8],
    t: &ReaderTensor,
    preserve: bool,
    tier: Tier,
    force_rescale: bool,
) -> (r: Result<PlanEntry, GgufError>)
    requires
        sized(t@),
    ensures
        match planned_with(b@, reader@, t@, preserve, tier, force_rescale) {
            Ok(e) => r is Ok && r->Ok_0@ == e && rotates_well(e.kind),
            Err(e) => r is Err && r->Err_0@ == e,
        },
{
    if t.dtype != T_BF16 {
        let kind = if t.dtype == T_F32 {
            Kind::F32Passthrough
        } else {
            Kind::RawPassthrough
        };
        return Ok(
            PlanEntry {
                kind,
                out_dtype: t.dtype,
                band: Band::Untouched,
                absmax: 0,
                note: "passthrough".to_owned(),
            },
        );
    }
    if preserve {
        return Ok(
            PlanEntry {
                kind: Kind::Bf16Passthrough,
                out_dtype: T_BF16,
                band: Band::Untouched,
                absmax: 0,
                note: "policy-preserve".to_owned(),
            },
        );
    }
    let data = match reader.tensor_data(b, t) {
        Ok(d) => d,
        Err(e) => {
            return Err(e);
        },
    };
    let elems = words16(data.as_slice());
    let absmax: u64 = bf16_absmax(elems.as_slice());
    if absmax == 0 {
        return Ok(
            PlanEntry {
                kind: Kind::CastF16 { scale: DOUBLE_ONE, hadamard_d: 0 },
                out_dtype: T_F16,
                band: Band::A,
                absmax: 0,
                note: "zero-tensor".to_owned(),
            },
        );
    }
    let n: usize = elems.len();
    proof {
        nothing_is_zero();
        if elems@.len() == 0 {
            assert(elems@ =~= Seq::empty());
        }
        bf16_count(t@);
        assert(n == product(t.dims@));
        if t.dims@.len() == 2 {
            matrix_has_rows(t.dims@);
        }
    }
    Ok(plan_measured(t.dims.as_slice(), elems.as_slice(), absmax, tier, force_rescale))
}

/// What becomes of a tensor of a file.
pub fn recast_tensor(
    reader: &Reader,
    b: &[u8],
    t: &ReaderTensor,
    policy: &Policy,
    tier: Tier,
    force_rescale: bool,
) -> (r: Result<PlanEntry, GgufError>)
    requires
        policy.wf(),
        sized(t@),
    ensures
        match planned(b@, reader@, t@, policy@, tier, force_rescale) {
            Ok(e) => r is Ok && r->Ok_0@ == e && rotates_well(e.kind),
            Err(e) => r is Err && r->Err_0@ == e,
        },
{
    let preserve = policy.matches_preserve(t.name.as_str());
    plan_tensor(reader, b, t, preserve, tier, force_rescale)
}

} // verus!
