//! HyperPlonk over BN254 with a multilinear-KZG opening: wire formats,
//! sumcheck, multilinear helpers, gate identity and verifier.

pub mod canonical;
pub mod challenges;
pub mod gate;
pub mod kzg;
pub mod mle;
pub mod pipeline;
pub mod sumcheck;
