//! Identifiers of the proof systems this crate verifies.
use vstd::prelude::*;

verus! {

/// A proof system.
#[derive(Clone, Copy, Debug, PartialEq, Eq, Structural)]
pub enum ProofSystemId {
    /// KZG-PLONK over BN254.
    PlonkKzgBn254,
    /// HyperPlonk with multilinear KZG over BN254.
    HyperPlonkKzgBn254,
    /// Halo2 with KZG over BN254.
    Halo2KzgBn254,
    /// Nova-style folding (Nova, HyperNova, ProtoStar).
    NovaFolding,
}

/// `x` capped at `u32::MAX`.
pub open spec fn sat_u32(x: int) -> int {
    if x > u32::MAX {
        u32::MAX as int
    } else {
        x
    }
}

/// `x · y`, saturating at `u32::MAX`.
pub fn saturating_mul_u32(x: u32, y: u32) -> (r: u32)
    ensures
        r == sat_u32(x * y),
{
    match x.checked_mul(y) {
        Some(v) => v,
        None => u32::MAX,
    }
}

/// `x + y`, saturating at `u32::MAX`.
pub fn saturating_add_u32(x: u32, y: u32) -> (r: u32)
    ensures
        r == sat_u32(x + y),
{
    x.saturating_add(y)
}

/// `x` clamped to `[lo, hi]`.
pub open spec fn clamp_spec(x: int, lo: int, hi: int) -> int {
    if x < lo {
        lo
    } else if x > hi {
        hi
    } else {
        x
    }
}

} // verus!
