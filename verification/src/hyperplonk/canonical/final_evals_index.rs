//! Positions of the twelve final evaluations in a proof's `final_evals`
//! (each a 32-byte scalar). The order is part of the wire format.
use vstd::prelude::*;

verus! {

/// Witness `a`.
pub const A: usize = 0;
/// Witness `b`.
pub const B: usize = 1;
/// Witness `c`.
pub const C: usize = 2;
/// Grand product `z`.
pub const Z: usize = 3;
/// Multiplication selector.
pub const Q_M: usize = 4;
/// Left selector.
pub const Q_L: usize = 5;
/// Right selector.
pub const Q_R: usize = 6;
/// Output selector.
pub const Q_O: usize = 7;
/// Constant selector.
pub const Q_C: usize = 8;
/// Permutation σ1.
pub const SIGMA_1: usize = 9;
/// Permutation σ2.
pub const SIGMA_2: usize = 10;
/// Permutation σ3.
pub const SIGMA_3: usize = 11;

} // verus!
