//! KZG openings of a folding proof at the Spartan point ξ.
//!
//! Single commitment: `e(W − y·G1 + ξ·W_ξ, [1]₂) · e(−W_ξ, [x]₂) = 1`
//! with the first public input as `y`. Batched: the matrix commitments
//! `A, B, C` of the key and `E, W` of the proof, with claimed values
//! `A(ξ), B(ξ), C(ξ), E(ξ), W(ξ)`, combined with powers of `v`.
use vstd::prelude::*;
use crate::bytes::{be_nat, chunk_at, copy64, window};
use crate::curve::{
    compute_kzg_opening_lhs, g2_generator_bytes, kzg_lhs_spec, msm_g1, msm_spec, neg_point,
    negate_g1, pairing_spec, slice_views, verify_two_pair_pairing, G2_GENERATOR,
};
use crate::error::OnChainError;
use crate::field::{fpow, fr_values, lemma_fr_encoding, Fr};
use crate::fr::fr_modulus;
use crate::halo2::circuit::combine;
use crate::halo2::kzg::{batch_evaluations, lemma_power_bytes, power_scalars};
use crate::nova::canonical::{NovaFoldingProof, NovaFoldingVerifyingKey};
use crate::syscall::SyscallBackend;
use crate::transcript::fr_bytes;

verus! {

/// The claimed value of the single opening: the first public input, or the
/// encoding of zero when there is none.
pub open spec fn first_input_claim(pi: Seq<u8>) -> Seq<u8> {
    if pi.len() >= 32 {
        pi.subrange(0, 32)
    } else {
        fr_bytes(0)
    }
}

/// One opening of `c` at ξ with claimed value `y` and opening `w`, as the
/// backend decides it: `e(C − y·G1 + ξ·W, [1]₂) · e(−W, [x]₂) = 1`.
pub open spec fn single_opening_spec<B: SyscallBackend + ?Sized>(
    b: &B,
    x2: Seq<u8>,
    c: Seq<u8>,
    y: Seq<u8>,
    xi: nat,
    w: Seq<u8>,
) -> Result<(), OnChainError> {
    match kzg_lhs_spec(b, c, y, fr_bytes(xi), w) {
        Ok(a1) => pairing_spec(b, a1 + G2_GENERATOR@ + neg_point(w) + x2),
        Err(e) => Err(e),
    }
}

/// The batched Spartan opening as the backend decides it: the commitments
/// `A, B, C` of the key and `E, W` of the proof are combined with
/// `[1, v, v², v³, v⁴]`, their claimed values `vals` likewise, and the
/// result is opened at ξ with `W_ξ`.
pub open spec fn spartan_opening_spec<B: SyscallBackend + ?Sized>(
    b: &B,
    vk: NovaFoldingVerifyingKey,
    e_comm: Seq<u8>,
    w_comm: Seq<u8>,
    w_xi: Seq<u8>,
    vals: Seq<nat>,
    xi: nat,
    v: nat,
) -> Result<(), OnChainError> {
    let cs = seq![vk.a_comm@, vk.b_comm@, vk.c_comm@, e_comm, w_comm];
    let ps = Seq::new(5, |i: int| fr_bytes(fpow(v, i as nat)));
    match msm_spec(b, cs, ps, 5) {
        Ok(c) => single_opening_spec(b, vk.x2_g2@, c, fr_bytes(combine(vals, v)), xi, w_xi),
        Err(e) => Err(e),
    }
}

/// The five claimed values of the Spartan opening: the four Hadamard
/// evaluations and `W(ξ)`.
pub open spec fn spartan_values(h: Seq<u8>, w_eval: Seq<u8>) -> Seq<nat> {
    seq![
        be_nat(chunk_at(h, 32, 0)),
        be_nat(chunk_at(h, 32, 1)),
        be_nat(chunk_at(h, 32, 2)),
        be_nat(chunk_at(h, 32, 3)),
        be_nat(w_eval),
    ]
}

/// Single-commitment opening of `W` with the first public input (zero when
/// there is none) as the claimed value.
///
/// `W` or `W_ξ` not 64 bytes is a point-encoding error; a claimed value at
/// or above `r` a range error. Otherwise the result is the backend's
/// verdict on [`single_opening_spec`].
pub fn verify_opening_scaffold<B: SyscallBackend + ?Sized>(
    backend: &B,
    vk: &NovaFoldingVerifyingKey,
    proof: &NovaFoldingProof,
    xi: &Fr,
) -> (res: Result<(), OnChainError>)
    ensures
        (proof.w_comm@.len() != 64 || proof.w_xi@.len() != 64) ==> res == Err::<(), OnChainError>(
            OnChainError::InvalidPointEncoding,
        ),
        proof.w_comm@.len() == 64 && proof.w_xi@.len() == 64 && proof.public_inputs@.len() >= 32
            && be_nat(proof.public_inputs@.subrange(0, 32)) >= fr_modulus() ==> res == Err::<
            (),
            OnChainError,
        >(OnChainError::PublicInputOutOfRange),
        proof.w_comm@.len() == 64 && proof.w_xi@.len() == 64 && (proof.public_inputs@.len() < 32
            || be_nat(proof.public_inputs@.subrange(0, 32)) < fr_modulus()) ==> res
            == single_opening_spec(
            backend,
            vk.x2_g2@,
            proof.w_comm@,
            first_input_claim(proof.public_inputs@),
            xi@,
            proof.w_xi@,
        ),
{
    if proof.w_comm.len() != 64 {
        return Err(OnChainError::InvalidPointEncoding);
    }
    if proof.w_xi.len() != 64 {
        return Err(OnChainError::InvalidPointEncoding);
    }
    let y = if proof.public_inputs.len() >= 32 {
        Fr::from_canonical_bytes(window(proof.public_inputs, 0, 32))?
    } else {
        Fr::zero()
    };
    proof {
        lemma_fr_encoding(y);
        lemma_fr_encoding(*xi);
        assert(y.bytes() == first_input_claim(proof.public_inputs@));
    }
    let w = copy64(proof.w_comm, 0);
    let wxi = copy64(proof.w_xi, 0);
    proof {
        assert(w@ =~= proof.w_comm@);
        assert(wxi@ =~= proof.w_xi@);
    }
    let a1 = compute_kzg_opening_lhs(backend, &w, &y.to_bytes(), &xi.to_bytes(), &wxi)?;
    verify_two_pair_pairing(backend, &a1, &g2_generator_bytes(), &negate_g1(&wxi), &vk.x2_g2)
}

/// Batched opening of `A, B, C` (key) and `E, W` (proof) at ξ, combined
/// with `[1, v, v², v³, v⁴]`; the claimed values are the four Hadamard
/// evaluations and `w_eval`.
///
/// `W`, `E` or `W_ξ` not 64 bytes is a point-encoding error; fewer than
/// four Hadamard evaluations or a `w_eval` that is not 32 bytes a length
/// error; a value at or above `r` a range error. Otherwise the result is
/// the backend's verdict on [`spartan_opening_spec`].
pub fn verify_spartan_batched_opening<B: SyscallBackend + ?Sized>(
    backend: &B,
    vk: &NovaFoldingVerifyingKey,
    proof: &NovaFoldingProof,
    w_eval: &[u8],
    xi: &Fr,
    v: &Fr,
) -> (res: Result<(), OnChainError>)
    ensures
        (proof.w_comm@.len() != 64 || proof.e_comm@.len() != 64 || proof.w_xi@.len() != 64)
            ==> res == Err::<(), OnChainError>(OnChainError::InvalidPointEncoding),
        proof.w_comm@.len() == 64 && proof.e_comm@.len() == 64 && proof.w_xi@.len() == 64
            && proof.hadamard_evals@.len() < 128 ==> res == Err::<(), OnChainError>(
            OnChainError::ProofLengthMismatch,
        ),
        proof.w_comm@.len() == 64 && proof.e_comm@.len() == 64 && proof.w_xi@.len() == 64
            && proof.hadamard_evals@.len() >= 128 && (exists|i: int|
            0 <= i < 4 && be_nat(#[trigger] chunk_at(proof.hadamard_evals@, 32, i))
                >= fr_modulus()) ==> res == Err::<(), OnChainError>(
            OnChainError::PublicInputOutOfRange,
        ),
        proof.w_comm@.len() == 64 && proof.e_comm@.len() == 64 && proof.w_xi@.len() == 64
            && proof.hadamard_evals@.len() >= 128 && (forall|i: int|
            0 <= i < 4 ==> be_nat(#[trigger] chunk_at(proof.hadamard_evals@, 32, i))
                < fr_modulus()) ==> {
            &&& w_eval@.len() != 32 ==> res == Err::<(), OnChainError>(
                OnChainError::ProofLengthMismatch,
            )
            &&& w_eval@.len() == 32 && be_nat(w_eval@) >= fr_modulus() ==> res == Err::<
                (),
                OnChainError,
            >(OnChainError::PublicInputOutOfRange)
            &&& w_eval@.len() == 32 && be_nat(w_eval@) < fr_modulus() ==> res
                == spartan_opening_spec(
                backend,
                *vk,
                proof.e_comm@,
                proof.w_comm@,
                proof.w_xi@,
                spartan_values(proof.hadamard_evals@, w_eval@),
                xi@,
                v@,
            )
        },
{
    if proof.w_comm.len() != 64 || proof.e_comm.len() != 64 || proof.w_xi.len() != 64 {
        return Err(OnChainError::InvalidPointEncoding);
    }
    if proof.hadamard_evals.len() < 128 {
        return Err(OnChainError::ProofLengthMismatch);
    }
    let h = proof.hadamard_evals;
    proof {
        assert(chunk_at(h@, 32, 0) == h@.subrange(0, 32));
        assert(chunk_at(h@, 32, 1) == h@.subrange(32, 64));
        assert(chunk_at(h@, 32, 2) == h@.subrange(64, 96));
        assert(chunk_at(h@, 32, 3) == h@.subrange(96, 128));
    }
    let a_eval = Fr::from_canonical_bytes(window(h, 0, 32))?;
    let b_eval = Fr::from_canonical_bytes(window(h, 32, 64))?;
    let c_eval = Fr::from_canonical_bytes(window(h, 64, 96))?;
    let e_eval = Fr::from_canonical_bytes(window(h, 96, 128))?;
    if w_eval.len() != 32 {
        return Err(OnChainError::ProofLengthMismatch);
    }
    let w_val = Fr::from_canonical_bytes(w_eval)?;
    let scalars = power_scalars(v, 5);
    let commits: [&[u8]; 5] = [&vk.a_comm, &vk.b_comm, &vk.c_comm, proof.e_comm, proof.w_comm];
    proof {
        lemma_power_bytes(scalars@, v@);
        assert(slice_views(commits@) =~= seq![
            vk.a_comm@,
            vk.b_comm@,
            vk.c_comm@,
            proof.e_comm@,
            proof.w_comm@,
        ]);
    }
    let c_batched = msm_g1(backend, &commits, scalars.as_slice())?;
    let evals: [Fr; 5] = [a_eval, b_eval, c_eval, e_eval, w_val];
    let y = batch_evaluations(&evals, v);
    proof {
        assert(fr_values(evals@) =~= spartan_values(h@, w_eval@));
        lemma_fr_encoding(y);
        lemma_fr_encoding(*xi);
    }
    let wxi = copy64(proof.w_xi, 0);
    proof {
        assert(wxi@ =~= proof.w_xi@);
    }
    let a1 = compute_kzg_opening_lhs(backend, &c_batched, &y.to_bytes(), &xi.to_bytes(), &wxi)?;
    verify_two_pair_pairing(backend, &a1, &g2_generator_bytes(), &negate_g1(&wxi), &vk.x2_g2)
}

} // verus!
