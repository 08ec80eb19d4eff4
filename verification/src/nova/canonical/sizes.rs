//! Sizes and caps of the folded-instance layout.
use vstd::prelude::*;

verus! {

/// Uncompressed G1 point.
pub const G1_LEN: usize = 64;
/// Scalar.
pub const FR_LEN: usize = 32;
/// Uncompressed G2 point.
pub const G2_LEN: usize = 128;
/// Fixed header.
pub const FIXED_HEADER_LEN: usize = 16;
/// The commitments `E`, `W`, `T`.
pub const FIXED_COMMITS_LEN: usize = 192;
/// The folding scalar `u`.
pub const SCALAR_LEN: usize = 32;
/// The four Hadamard evaluations.
pub const HADAMARD_EVALS_LEN: usize = 128;
/// The two openings.
pub const OPENING_LEN: usize = 128;
/// Cap on auxiliary commitments.
pub const MAX_AUX_COMMITS: u8 = 16;
/// Cap on public inputs.
pub const MAX_PUBLIC_INPUTS: u16 = 256;

} // verus!
