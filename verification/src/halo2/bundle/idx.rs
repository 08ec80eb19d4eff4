//! Fixed positions in the evaluation buffer.
use vstd::prelude::*;

verus! {

/// Left wire `a(ξ)`.
pub const A: usize = 0;
/// Right wire `b(ξ)`.
pub const B: usize = 1;
/// Output wire `c(ξ)`.
pub const C: usize = 2;
/// Multiplication selector.
pub const Q_M: usize = 3;
/// Left selector.
pub const Q_L: usize = 4;
/// Right selector.
pub const Q_R: usize = 5;
/// Output selector.
pub const Q_O: usize = 6;
/// Constant selector.
pub const Q_C: usize = 7;
/// Grand product `z(ξ)`.
pub const Z: usize = 8;
/// Grand product `z(ξω)`.
pub const Z_NEXT: usize = 9;
/// `σ1(ξ)`.
pub const SIGMA_1: usize = 10;
/// `σ2(ξ)`.
pub const SIGMA_2: usize = 11;
/// `σ3(ξ)`.
pub const SIGMA_3: usize = 12;
/// Lookup input (arity 1).
pub const LOOKUP_INPUT: usize = 13;
/// Lookup table (arity 1).
pub const LOOKUP_TABLE: usize = 14;
/// Lookup multiplicity (arity 1).
pub const LOOKUP_M: usize = 15;
/// First lookup input slot; input `i` is at `LOOKUP_INPUT_BASE + i`.
pub const LOOKUP_INPUT_BASE: usize = 13;
/// Fixed slots before the quotient chunks at arity 1.
pub const FIXED_SLOTS: usize = 16;

/// Fixed slots before the quotient chunks for lookup arity `arity`:
/// 13 wire, selector and permutation slots, `2·arity` lookup columns and
/// the multiplicity.
pub fn fixed_slots_for_arity(arity: u32) -> (n: usize)
    requires
        14 + 2 * arity <= usize::MAX,
    ensures
        n == 14 + 2 * arity,
{
    13 + 2 * (arity as usize) + 1
}

} // verus!
