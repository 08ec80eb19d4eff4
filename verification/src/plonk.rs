//! BN254 KZG-PLONK: wire formats, Fiat-Shamir challenges, linearization
//! and the final pairing check.

pub mod canonical;
pub mod challenges;
pub mod transcript;
pub mod linearization;
pub mod pipeline;
