//! Halo2-KZG over BN254: wire formats, evaluation bundle, circuit
//! identities, vanishing argument, multi-point KZG opening and verifier.

pub mod bundle;
pub mod canonical;
pub mod challenges;
pub mod circuit;
pub mod kzg;
pub mod vanishing;
pub mod pipeline;
