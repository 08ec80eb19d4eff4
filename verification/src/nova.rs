//! Nova-style folding (Nova, HyperNova, ProtoStar) over BN254: wire
//! formats, Hadamard residual, folding-commitment checks and verifier.

pub mod canonical;
pub mod challenges;
pub mod folding;
pub mod kzg;
pub mod pipeline;
