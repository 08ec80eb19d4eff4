//! The KZG-PLONK verifier: parse the key and proof, check the public
//! inputs and derive the Fiat–Shamir challenges. The pairing stage is not
//! wired into this entry point yet, so a proof that gets through the
//! challenges is answered as not implemented; [`finalize_verify`] holds
//! that stage.
//!
//! [`finalize_verify`]: crate::plonk::linearization::finalize_verify
use vstd::prelude::*;
use crate::bytes::le_u32;
use crate::error::OnChainError;
use crate::halo2::challenges::instances_ok;
use crate::plonk::canonical::{proof_layout, vk_layout, PlonkProof, PlonkVerifyingKey};
use crate::plonk::challenges::{plonk_rounds, RoundChallenges};
use crate::proof_system::ProofSystemId;
use crate::syscall::SyscallBackend;

verus! {

/// The KZG-PLONK verifier over a backend.
pub struct PlonkKzgBn254<'a, B: SyscallBackend + ?Sized> {
    backend: &'a B,
}

impl<'a, B: SyscallBackend + ?Sized> PlonkKzgBn254<'a, B> {
    /// A verifier over `backend`.
    pub fn new(backend: &'a B) -> (v: Self)
        ensures
            v.backend() == backend,
    {
        PlonkKzgBn254 { backend }
    }

    /// The backend.
    pub closed spec fn backend(&self) -> &'a B {
        self.backend
    }

    /// This verifier's proof system.
    pub fn proof_system_id(&self) -> (id: ProofSystemId)
        ensures
            id == ProofSystemId::PlonkKzgBn254,
    {
        ProofSystemId::PlonkKzgBn254
    }

    /// Compute-unit budget: the 600 000 cap, whatever the inputs.
    pub fn estimated_compute_units(&self, vk: &[u8], proof: &[u8]) -> (res: Option<u32>)
        ensures
            res == Some(600_000u32),
    {
        Some(600_000)
    }

    /// Parse, check the public inputs and derive the challenges.
    ///
    /// A key that is not 744 bytes or a proof that is not 768 bytes is a
    /// length error of that buffer; public inputs that are not exactly
    /// `n_public` scalars are a count error, a scalar at or above `r` a
    /// range error; hash failures are passed on. Never succeeds: past the
    /// challenges the answer is "not implemented".
    pub fn verify(&self, vk_bytes: &[u8], proof_bytes: &[u8], public_inputs_bytes: &[u8]) -> (res:
        Result<(), OnChainError>)
        ensures
            res is Err,
            vk_bytes@.len() != 744 ==> res == Err::<(), OnChainError>(
                OnChainError::VerifyingKeyLengthMismatch,
            ),
            vk_bytes@.len() == 744 && proof_bytes@.len() != 768 ==> res == Err::<(), OnChainError>(
                OnChainError::ProofLengthMismatch,
            ),
            vk_bytes@.len() == 744 && proof_bytes@.len() == 768 ==> {
                let n = le_u32(vk_bytes@.subrange(740, 744));
                let pi = public_inputs_bytes@;
                &&& pi.len() != 32 * n ==> res == Err::<(), OnChainError>(
                    OnChainError::PublicInputCountMismatch,
                )
                &&& pi.len() == 32 * n && !instances_ok(pi, n) ==> res == Err::<(), OnChainError>(
                    OnChainError::PublicInputOutOfRange,
                )
                &&& pi.len() == 32 * n && instances_ok(pi, n) ==> exists|
                    vk: PlonkVerifyingKey,
                    p: PlonkProof,
                |
                    #![trigger vk_layout(vk, vk_bytes@), proof_layout(p, proof_bytes@)]
                    vk_layout(vk, vk_bytes@) && proof_layout(p, proof_bytes@) && res == match plonk_rounds(
                        self.backend(),
                        vk,
                        pi,
                        p,
                    ) {
                        Ok(_) => Err::<(), OnChainError>(OnChainError::UnimplementedProofSystem),
                        Err(e) => Err::<(), OnChainError>(e),
                    }
            },
    {
        let vk = PlonkVerifyingKey::from_bytes(vk_bytes)?;
        let proof = PlonkProof::from_bytes(proof_bytes)?;
        let _challenges = RoundChallenges::derive(self.backend, &vk, &proof, public_inputs_bytes)?;
        Err(OnChainError::UnimplementedProofSystem)
    }
}

} // verus!
