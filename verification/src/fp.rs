//! BF16 values: as singles, as halves, and plus one.

use crate::ieee::convert::{half_of_single, single_to_half, SINGLE_ONE};
use crate::ieee::sum::{add_single, single_sum};
use vstd::prelude::*;

verus! {

/// A BF16 value as a single: the upper half of its bits.
pub open spec fn bf16_single(b: u16) -> u32 {
    (b * 0x1_0000) as u32
}

/// A BF16 value as a half.
pub open spec fn bf16_half(b: u16) -> u16 {
    half_of_single(bf16_single(b))
}

/// A BF16 value as a single.
pub fn bf16_to_f32(b: u16) -> (r: u32)
    ensures
        r == bf16_single(b),
{
    b as u32 * 0x1_0000
}

/// The half nearest to a single.
pub fn f32_to_f16_bits(x: u32) -> (r: u16)
    ensures
        r == half_of_single(x),
{
    single_to_half(x)
}

/// Whether a table holds every BF16 value as a half.
pub open spec fn is_half_table(table: Seq<u16>) -> bool {
    &&& table.len() == 0x1_0000
    &&& forall|i: int| 0 <= i < 0x1_0000 ==> #[trigger] table[i] == bf16_half(i as u16)
}

/// Every BF16 value as a half.
pub fn bf16_to_f16_table() -> (r: Vec<u16>)
    ensures
        is_half_table(r@),
{
    let mut table: Vec<u16> = Vec::new();
    let mut i: u32 = 0;
    while i < 0x1_0000
        invariant
            i <= 0x1_0000,
            table@.len() == i,
            forall|k: int| 0 <= k < i ==> #[trigger] table@[k] == bf16_half(k as u16),
        decreases 0x1_0000 - i,
    {
        table.push(f32_to_f16_bits(bf16_to_f32(i as u16)));
        i += 1;
    }
    table
}

/// The single nearest to a single plus one.
pub open spec fn single_plus_one(x: u32) -> u32 {
    single_sum(x, SINGLE_ONE)
}

/// A single plus one.
pub fn plus_one(x: u32) -> (r: u32)
    ensures
        r == single_plus_one(x),
{
    add_single(x, SINGLE_ONE)
}

} // verus!
