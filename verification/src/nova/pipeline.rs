//! The folding verifier: parse, check that key and proof agree, derive
//! the challenges, check the Hadamard residual at ξ, then run the batched
//! Spartan opening.
use vstd::prelude::*;
use crate::bytes::{be_nat, chunk_at, le_u16, window};
use crate::error::OnChainError;
use crate::fr::fr_modulus;
use crate::halo2::challenges::instances_ok;
use crate::nova::canonical::{
    proof_accepts, proof_aux, proof_layout, proof_public, vk_accepts, vk_layout, NovaFoldingProof,
    NovaFoldingVerifyingKey,
};
use crate::nova::challenges::{derive_challenges, nova_rounds};
use crate::nova::folding::{hadamard_residual, residual_value};
use crate::nova::kzg::{spartan_opening_spec, spartan_values, verify_spartan_batched_opening};
use crate::field::Fr;
use crate::proof_system::ProofSystemId;
use crate::syscall::SyscallBackend;
use crate::transcript::{fr_bytes, hash_on, Kind, Transcript};

verus! {

/// Domain separator of the opening batch challenge `v`.
pub const V_LABEL: [u8; 13] = [
    0x6d, 0x6f, 0x73, 0x61, 0x69, 0x63, 0x2d, 0x6e, 0x6f, 0x76, 0x61, 0x2f, 0x76,
];

/// The four Hadamard evaluations and `u` of an encoded proof are canonical
/// scalars and satisfy `A(ξ)·B(ξ) − u·C(ξ) − E(ξ) = 0`.
pub open spec fn residual_holds(proof: Seq<u8>) -> bool {
    let h = proof.subrange(240, 368);
    let u = be_nat(proof.subrange(208, 240));
    &&& forall|i: int| 0 <= i < 4 ==> be_nat(#[trigger] chunk_at(h, 32, i)) < fr_modulus()
    &&& u < fr_modulus()
    &&& residual_value(
        be_nat(chunk_at(h, 32, 0)),
        be_nat(chunk_at(h, 32, 1)),
        be_nat(chunk_at(h, 32, 2)),
        be_nat(chunk_at(h, 32, 3)),
        u,
    ) == 0
}

/// The claimed `W(ξ)` of a proof's opening: its first public input, or
/// zero when it has none.
pub open spec fn opening_claim(pi: Seq<u8>) -> Seq<u8> {
    if pi.len() >= 32 {
        pi.subrange(0, 32)
    } else {
        Seq::new(32, |i: int| 0u8)
    }
}

/// What the checks after the parse answer for the key `vk` and proof `p`:
/// the three challenge rounds, then the Hadamard residual, then the batching
/// challenge `v` from `V_LABEL ‖ ξ ‖ evaluations ‖ W ‖ E`, then the batched
/// Spartan opening at the ξ of the second round with that `v` (a claimed
/// `W(ξ)` at or above `r` is a range error).
pub open spec fn nova_verdict<B: SyscallBackend + ?Sized>(
    b: &B,
    vk: NovaFoldingVerifyingKey,
    p: NovaFoldingProof,
    pi: Seq<u8>,
    proof_bytes: Seq<u8>,
) -> Result<(), OnChainError> {
    let m = fr_modulus();
    match nova_rounds(b, vk, pi, p) {
        Err(e) => Err(e),
        Ok(r) => if !residual_holds(proof_bytes) {
            Err(OnChainError::SumcheckFailed)
        } else {
            let xi = be_nat(r[1]) % m;
            match hash_on(
                b,
                Kind::Keccak256,
                V_LABEL@ + fr_bytes(xi) + p.hadamard_evals@ + p.w_comm@ + p.e_comm@,
            ) {
                Err(e) => Err(e),
                Ok(h) => if be_nat(opening_claim(p.public_inputs@)) >= m {
                    Err(OnChainError::PublicInputOutOfRange)
                } else {
                    spartan_opening_spec(
                        b,
                        vk,
                        p.e_comm@,
                        p.w_comm@,
                        p.w_xi@,
                        spartan_values(p.hadamard_evals@, opening_claim(p.public_inputs@)),
                        xi,
                        be_nat(h) % m,
                    )
                },
            }
        },
    }
}

/// The backend accepted the batched Spartan opening of the proof encoded
/// in `proof` against the key encoded in `vk_bytes`, with public inputs
/// `pi`, at the challenges the transcript gives: ξ is the second round's
/// reply and `v` the reply to `V_LABEL ‖ ξ ‖ evaluations ‖ W ‖ E`.
pub open spec fn opening_accepted<B: SyscallBackend + ?Sized>(
    b: &B,
    vk_bytes: Seq<u8>,
    proof: Seq<u8>,
    pi: Seq<u8>,
) -> bool {
    exists|vk: NovaFoldingVerifyingKey, p: NovaFoldingProof, r: Seq<Seq<u8>>, h: Seq<u8>|
        {
            &&& vk_layout(vk, vk_bytes)
            &&& proof_layout(p, proof)
            &&& nova_rounds(b, vk, pi, p) == Ok::<Seq<Seq<u8>>, OnChainError>(r)
            &&& hash_on(
                b,
                Kind::Keccak256,
                V_LABEL@ + fr_bytes(be_nat(r[1]) % fr_modulus()) + p.hadamard_evals@ + p.w_comm@
                    + p.e_comm@,
            ) == Ok::<Seq<u8>, OnChainError>(h)
            &&& #[trigger] spartan_opening_spec(
                b,
                vk,
                p.e_comm@,
                p.w_comm@,
                p.w_xi@,
                spartan_values(p.hadamard_evals@, opening_claim(p.public_inputs@)),
                be_nat(r[1]) % fr_modulus(),
                be_nat(h) % fr_modulus(),
            ) == Ok::<(), OnChainError>(())
        }
}

/// A folding proof is accepted exactly when the batched Spartan opening at
/// the transcript's ξ is: once the challenge rounds, the residual and the
/// batching round succeed, the verdict is the backend's verdict on the
/// opening at the ξ of the second round, and a failing opening at that ξ
/// fails the proof whatever other point would pass.
pub proof fn lemma_nova_verdict_is_opening_at_xi<B: SyscallBackend + ?Sized>(
    b: &B,
    vk: NovaFoldingVerifyingKey,
    p: NovaFoldingProof,
    pi: Seq<u8>,
    proof_bytes: Seq<u8>,
    r: Seq<Seq<u8>>,
    h: Seq<u8>,
)
    requires
        nova_rounds(b, vk, pi, p) == Ok::<Seq<Seq<u8>>, OnChainError>(r),
        residual_holds(proof_bytes),
        hash_on(
            b,
            Kind::Keccak256,
            V_LABEL@ + fr_bytes(be_nat(r[1]) % fr_modulus()) + p.hadamard_evals@ + p.w_comm@
                + p.e_comm@,
        ) == Ok::<Seq<u8>, OnChainError>(h),
        be_nat(opening_claim(p.public_inputs@)) < fr_modulus(),
    ensures
        nova_verdict(b, vk, p, pi, proof_bytes) == spartan_opening_spec(
            b,
            vk,
            p.e_comm@,
            p.w_comm@,
            p.w_xi@,
            spartan_values(p.hadamard_evals@, opening_claim(p.public_inputs@)),
            be_nat(r[1]) % fr_modulus(),
            be_nat(h) % fr_modulus(),
        ),
{
}

/// The Nova-family folding verifier over a backend.
pub struct NovaFolding<'a, B: SyscallBackend + ?Sized> {
    backend: &'a B,
}

impl<'a, B: SyscallBackend + ?Sized> NovaFolding<'a, B> {
    /// A verifier over `backend`.
    pub fn new(backend: &'a B) -> (v: Self)
        ensures
            v.backend() == backend,
    {
        NovaFolding { backend }
    }

    /// The backend.
    pub closed spec fn backend(&self) -> &'a B {
        self.backend
    }

    /// This verifier's proof system.
    pub fn proof_system_id(&self) -> (id: ProofSystemId)
        ensures
            id == ProofSystemId::NovaFolding,
    {
        ProofSystemId::NovaFolding
    }

    /// Compute-unit budget: the 900 000 cap, whatever the inputs.
    pub fn estimated_compute_units(&self, vk: &[u8], proof: &[u8]) -> (res: Option<u32>)
        ensures
            res == Some(900_000u32),
    {
        Some(900_000)
    }

    /// Verify a folding proof against a key and public inputs.
    ///
    /// A key or proof that does not parse is reported as its decoder does;
    /// a key and proof that disagree on the variant or the public-input
    /// count are a mismatch; the public inputs must be `n_public`
    /// canonical scalars; a non-zero Hadamard residual, or a `u` or
    /// evaluation at or above `r`, fails the check; then the batched
    /// opening of `A, B, C, E, W` at ξ decides, with the first public
    /// input of the proof (zero when there is none) as the claimed `W(ξ)`.
    pub fn verify(&self, vk_bytes: &[u8], proof_bytes: &[u8], public_inputs_bytes: &[u8]) -> (res:
        Result<(), OnChainError>)
        ensures
            vk_bytes@.len() != 359 ==> res == Err::<(), OnChainError>(
                OnChainError::VerifyingKeyLengthMismatch,
            ),
            vk_bytes@.len() == 359 && vk_bytes@[0] > 2 ==> res == Err::<(), OnChainError>(
                OnChainError::UnknownProofSystem,
            ),
            vk_accepts(vk_bytes@) && proof_bytes@.len() >= 496 && proof_bytes@[0] > 2 ==> res
                == Err::<(), OnChainError>(OnChainError::UnknownProofSystem),
            vk_accepts(vk_bytes@) && !proof_accepts(proof_bytes@) && !(proof_bytes@.len() >= 496
                && proof_bytes@[0] > 2) ==> res == Err::<(), OnChainError>(
                OnChainError::ProofLengthMismatch,
            ),
            vk_accepts(vk_bytes@) && proof_accepts(proof_bytes@) && (vk_bytes@[0]
                != proof_bytes@[0] || le_u16(vk_bytes@.subrange(1, 3)) != proof_public(
                proof_bytes@,
            )) ==> res == Err::<(), OnChainError>(OnChainError::VerifyingKeyProofMismatch),
            vk_accepts(vk_bytes@) && proof_accepts(proof_bytes@) && vk_bytes@[0] == proof_bytes@[0]
                && le_u16(vk_bytes@.subrange(1, 3)) == proof_public(proof_bytes@) ==> {
                let n = le_u16(vk_bytes@.subrange(1, 3));
                let pi = public_inputs_bytes@;
                &&& pi.len() % 32 != 0 ==> res == Err::<(), OnChainError>(
                    OnChainError::ProofLengthMismatch,
                )
                &&& pi.len() % 32 == 0 && pi.len() / 32 != n ==> res == Err::<(), OnChainError>(
                    OnChainError::PublicInputCountMismatch,
                )
                &&& pi.len() % 32 == 0 && pi.len() / 32 == n && !instances_ok(pi, n) ==> res
                    == Err::<(), OnChainError>(OnChainError::PublicInputOutOfRange)
            },
            res is Ok ==> {
                &&& vk_accepts(vk_bytes@)
                &&& proof_accepts(proof_bytes@)
                &&& vk_bytes@[0] == proof_bytes@[0]
                &&& le_u16(vk_bytes@.subrange(1, 3)) == proof_public(proof_bytes@)
                &&& instances_ok(public_inputs_bytes@, le_u16(vk_bytes@.subrange(1, 3)))
                &&& residual_holds(proof_bytes@)
                &&& opening_accepted(
                    self.backend(),
                    vk_bytes@,
                    proof_bytes@,
                    public_inputs_bytes@,
                )
            },
            vk_accepts(vk_bytes@) && proof_accepts(proof_bytes@) && vk_bytes@[0] == proof_bytes@[0]
                && le_u16(vk_bytes@.subrange(1, 3)) == proof_public(proof_bytes@) && instances_ok(
                public_inputs_bytes@,
                le_u16(vk_bytes@.subrange(1, 3)),
            ) ==> exists|vk: NovaFoldingVerifyingKey, p: NovaFoldingProof|
                #![trigger vk_layout(vk, vk_bytes@), proof_layout(p, proof_bytes@)]
                vk_layout(vk, vk_bytes@) && proof_layout(p, proof_bytes@) && res == nova_verdict(
                    self.backend(),
                    vk,
                    p,
                    public_inputs_bytes@,
                    proof_bytes@,
                ),
    {
        let vk = NovaFoldingVerifyingKey::from_bytes(vk_bytes)?;
        let proof = NovaFoldingProof::from_bytes(proof_bytes)?;
        if vk.variant != proof.variant || vk.n_public != proof.n_public {
            proof {
                if vk_bytes@[0] == proof_bytes@[0] {
                    assert(vk.variant == proof.variant);
                }
            }
            return Err(OnChainError::VerifyingKeyProofMismatch);
        }
        let (ch, t0) = derive_challenges(self.backend, &vk, public_inputs_bytes, &proof)?;
        let ghost r = t0.replies();
        proof {
            assert(nova_rounds(self.backend, vk, public_inputs_bytes@, proof) == Ok::<
                Seq<Seq<u8>>,
                OnChainError,
            >(r));
            assert(proof.hadamard_evals@ == proof_bytes@.subrange(240, 368));
            assert(proof.u@ == proof_bytes@.subrange(208, 240));
        }
        let (a_eval, b_eval, c_eval, e_eval) = match proof.parse_hadamard_evals() {
            Ok(t) => t,
            Err(_) => {
                proof {
                    assert(!residual_holds(proof_bytes@));
                }
                return Err(OnChainError::SumcheckFailed);
            },
        };
        let u = match Fr::from_canonical_bytes(proof.u) {
            Ok(u) => u,
            Err(_) => {
                proof {
                    assert(!residual_holds(proof_bytes@));
                }
                return Err(OnChainError::SumcheckFailed);
            },
        };
        let residual = hadamard_residual(&a_eval, &b_eval, &c_eval, &e_eval, &u);
        if !residual.is_zero() {
            proof {
                assert(!residual_holds(proof_bytes@));
            }
            return Err(OnChainError::SumcheckFailed);
        }
        proof {
            assert(residual_holds(proof_bytes@));
        }
        let xi_bytes = ch.xi.to_bytes();
        proof {
            crate::field::lemma_fr_encoding(ch.xi);
        }
        let mut tv = Transcript::new(Kind::Keccak256, self.backend);
        tv.absorb(&V_LABEL);
        tv.absorb(&xi_bytes);
        tv.absorb(proof.hadamard_evals);
        tv.absorb(proof.w_comm);
        tv.absorb(proof.e_comm);
        proof {
            assert(tv.buffer() =~= V_LABEL@ + fr_bytes(be_nat(r[1]) % fr_modulus())
                + proof.hadamard_evals@ + proof.w_comm@ + proof.e_comm@);
        }
        let (_, v) = tv.challenge_fr()?;
        let ghost h = tv.replies().last();
        let zero = [0u8; 32];
        let w_eval: &[u8] = if proof.public_inputs.len() >= 32 {
            window(proof.public_inputs, 0, 32)
        } else {
            &zero
        };
        proof {
            assert(zero@ =~= Seq::new(32, |i: int| 0u8));
            assert(w_eval@ == opening_claim(proof.public_inputs@));
            if proof.public_inputs@.len() < 32 {
                crate::bytes::lemma_be_nat_zeros(w_eval@);
            }
            assert(forall|i: int|
                0 <= i < 4 ==> be_nat(#[trigger] chunk_at(proof.hadamard_evals@, 32, i))
                    < fr_modulus());
        }
        verify_spartan_batched_opening(self.backend, &vk, &proof, w_eval, &ch.xi, &v)?;
        proof {
            assert(hash_on(
                self.backend,
                Kind::Keccak256,
                V_LABEL@ + fr_bytes(be_nat(r[1]) % fr_modulus()) + proof.hadamard_evals@
                    + proof.w_comm@ + proof.e_comm@,
            ) == Ok::<Seq<u8>, OnChainError>(h));
            assert(spartan_opening_spec(
                self.backend,
                vk,
                proof.e_comm@,
                proof.w_comm@,
                proof.w_xi@,
                spartan_values(proof.hadamard_evals@, w_eval@),
                ch.xi@,
                v@,
            ) == Ok::<(), OnChainError>(()));
        }
        Ok(())
    }
}

} // verus!
