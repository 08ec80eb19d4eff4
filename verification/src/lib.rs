//! Proof-system-agnostic verification primitives for BN254 proof systems:
//! KZG-PLONK, HyperPlonk, Halo2-KZG and Nova-style folding.

pub mod bytes;
pub mod compression;
pub mod curve;
pub mod error;
pub mod field;
pub mod halo2;
pub mod hyperplonk;
pub mod nova;
pub mod fr;
pub mod plonk;
pub mod proof_system;
pub mod slots;
pub mod syscall;
pub mod transcript;
