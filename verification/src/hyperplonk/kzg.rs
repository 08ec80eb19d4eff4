//! Batched KZG opening of the twelve final evaluations at a univariate
//! point ξ:
//!
//! ```text
//! C = Σ ν^i · C_i,   y = Σ ν^i · e_i
//! e(C − y·G1 + ξ·W, [1]₂) · e(−W, [x]₂) = 1
//! ```
//!
//! over the commitments `A, B, C, Z` of the proof and the eight key
//! commitments, in the order of the final evaluations. ν is squeezed from
//! the transcript after absorbing the evaluations.
use vstd::prelude::*;
use crate::bytes::{chunk_at, copy64, window};
use crate::slots::{decode_slots, slots_ok};
use crate::curve::{
    add_g1, add_spec, cms_spec, commitment_minus_scalar_g1, g2_generator_bytes, msm_g1, msm_spec,
    mul_spec, neg_point, negate_g1, pairing_spec, points_ok, scalar_mul_g1, slice_views,
    verify_two_pair_pairing, G2_GENERATOR,
};
use crate::bytes::be_nat;
use crate::field::{fpow, fr_values, lemma_fr_encoding};
use crate::fr::fr_modulus;
use crate::halo2::circuit::combine;
use crate::slots::slot_values;
use crate::transcript::{fr_bytes, hash_on};
use crate::error::OnChainError;
use crate::field::Fr;
use crate::halo2::kzg::{batch_evaluations, power_scalars};
use crate::hyperplonk::canonical::{HyperPlonkProof, HyperPlonkVerifyingKey};
use crate::syscall::SyscallBackend;
use crate::transcript::Transcript;

verus! {

/// The twelve commitments opened, in the order of the final evaluations.
pub open spec fn opened_commits(vk: HyperPlonkVerifyingKey, p: HyperPlonkProof) -> Seq<Seq<u8>> {
    seq![
        p.a@,
        p.b@,
        p.c@,
        p.z@,
        vk.q_m_g1@,
        vk.q_l_g1@,
        vk.q_r_g1@,
        vk.q_o_g1@,
        vk.q_c_g1@,
        vk.sigma_1_g1@,
        vk.sigma_2_g1@,
        vk.sigma_3_g1@,
    ]
}

/// The batched opening as the backend decides it: the commitments and
/// values combined with powers of ν, then
/// `e(C − y·G1 + ξ·W, [1]₂) · e(−W, [x]₂) = 1`.
pub open spec fn batched_opening_spec<B: SyscallBackend + ?Sized>(
    b: &B,
    commits: Seq<Seq<u8>>,
    values: Seq<nat>,
    nu: nat,
    point: nat,
    opening: Seq<u8>,
    x2: Seq<u8>,
) -> Result<(), OnChainError> {
    let powers = Seq::new(commits.len(), |i: int| fr_bytes(fpow(nu, i as nat)));
    match msm_spec(b, commits, powers, commits.len()) {
        Ok(c) => match cms_spec(b, c, fr_bytes(combine(values, nu))) {
            Ok(cy) => match mul_spec(b, opening, fr_bytes(point)) {
                Ok(xw) => match add_spec(b, cy, xw) {
                    Ok(a1) => pairing_spec(b, a1 + G2_GENERATOR@ + neg_point(opening) + x2),
                    Err(e) => Err(e),
                },
                Err(e) => Err(e),
            },
            Err(e) => Err(e),
        },
        Err(e) => Err(e),
    }
}

/// What the batched opening answers for the challenge ν, as the backend
/// decides it: a commitment `A, B, C, Z` that is not 64 bytes is a
/// point-encoding error before any group operation; once the combination of
/// the commitments succeeds, an evaluation at or above `r` is a range error;
/// otherwise the result is [`batched_opening_spec`].
pub open spec fn batched_opening_outcome<B: SyscallBackend + ?Sized>(
    b: &B,
    vk: HyperPlonkVerifyingKey,
    p: HyperPlonkProof,
    nu: nat,
    point: nat,
) -> Result<(), OnChainError> {
    let commits = opened_commits(vk, p);
    let powers = Seq::new(12, |i: int| fr_bytes(fpow(nu, i as nat)));
    if !(p.a@.len() == 64 && p.b@.len() == 64 && p.c@.len() == 64 && p.z@.len() == 64) {
        Err(OnChainError::InvalidPointEncoding)
    } else if msm_spec(b, commits, powers, 12) is Ok && !slots_ok(p.final_evals@, 12) {
        Err(OnChainError::PublicInputOutOfRange)
    } else {
        batched_opening_spec(
            b,
            commits,
            slot_values(p.final_evals@, 12),
            nu,
            point,
            p.kzg_opening@,
            vk.x2_g2@,
        )
    }
}

/// Check the batched opening, continuing the transcript after the
/// sumcheck.
///
/// Final evaluations of another length than 384 bytes are a length error,
/// an opening that is not 64 bytes a point-encoding error (both before the
/// transcript is touched), an evaluation
/// at or above `r` a range error; curve, pairing and hash errors are the
/// backend's.
pub fn verify_batched_opening<B: SyscallBackend + ?Sized>(
    backend: &B,
    transcript: &mut Transcript<'_, B>,
    vk: &HyperPlonkVerifyingKey,
    proof: &HyperPlonkProof,
    univ_eval_point: &Fr,
) -> (res: Result<(), OnChainError>)
    ensures
        proof.final_evals@.len() != 384 ==> res == Err::<(), OnChainError>(
            OnChainError::ProofLengthMismatch,
        ),
        proof.final_evals@.len() == 384 && proof.kzg_opening@.len() != 64 ==> res == Err::<
            (),
            OnChainError,
        >(OnChainError::InvalidPointEncoding),
        final(transcript).kind() == old(transcript).kind(),
        proof.final_evals@.len() == 384 && proof.kzg_opening@.len() == 64 ==> match hash_on(
            old(transcript).backend(),
            old(transcript).kind(),
            old(transcript).buffer() + proof.final_evals@,
        ) {
            Err(e) => res == Err::<(), OnChainError>(e),
            Ok(h) => res == batched_opening_outcome(
                backend,
                *vk,
                *proof,
                be_nat(h) % fr_modulus(),
                univ_eval_point@,
            ),
        },
        (proof.final_evals@.len() != 384 || proof.kzg_opening@.len() != 64) ==> {
            &&& final(transcript).buffer() == old(transcript).buffer()
            &&& final(transcript).queries() == old(transcript).queries()
            &&& final(transcript).replies() == old(transcript).replies()
        },
        res is Ok ==> {
            &&& proof.final_evals@.len() == 384
            &&& proof.kzg_opening@.len() == 64
            &&& slots_ok(proof.final_evals@, 12)
            &&& final(transcript).queries() == old(transcript).queries().push(
                old(transcript).buffer() + proof.final_evals@,
            )
            &&& final(transcript).replies().len() == old(transcript).replies().len() + 1
            &&& final(transcript).replies() == old(transcript).replies().push(
                final(transcript).replies().last(),
            )
            &&& final(transcript).buffer() == old(transcript).buffer() + proof.final_evals@
            &&& hash_on(
                old(transcript).backend(),
                old(transcript).kind(),
                old(transcript).buffer() + proof.final_evals@,
            ) == Ok::<Seq<u8>, OnChainError>(final(transcript).replies().last())
            &&& points_ok(seq![
                proof.a,
                proof.b,
                proof.c,
                proof.z,
            ])
            &&& batched_opening_spec(
                backend,
                opened_commits(*vk, *proof),
                slot_values(proof.final_evals@, 12),
                be_nat(final(transcript).replies().last()) % fr_modulus(),
                univ_eval_point@,
                proof.kzg_opening@,
                vk.x2_g2@,
            ) == Ok::<(), OnChainError>(())
        },
{
    let final_evals = proof.final_evals;
    if final_evals.len() != 384 {
        return Err(OnChainError::ProofLengthMismatch);
    }
    if proof.kzg_opening.len() != 64 {
        return Err(OnChainError::InvalidPointEncoding);
    }
    transcript.absorb(final_evals);
    let (_, nu) = transcript.challenge_fr()?;
    let scalars = power_scalars(&nu, 12);
    proof {
        crate::halo2::kzg::lemma_power_bytes(scalars@, nu@);
        lemma_fr_encoding(*univ_eval_point);
    }
    let commits: [&[u8]; 12] = [
        proof.a,
        proof.b,
        proof.c,
        proof.z,
        &vk.q_m_g1,
        &vk.q_l_g1,
        &vk.q_r_g1,
        &vk.q_o_g1,
        &vk.q_c_g1,
        &vk.sigma_1_g1,
        &vk.sigma_2_g1,
        &vk.sigma_3_g1,
    ];
    proof {
        assert(slice_views(commits@) =~= opened_commits(*vk, *proof));
    }
    let c_batched = msm_g1(backend, &commits, scalars.as_slice())?;
    proof {
        assert(points_ok(seq![proof.a, proof.b, proof.c, proof.z])) by {
            assert(commits@[0] == proof.a && commits@[1] == proof.b);
            assert(commits@[2] == proof.c && commits@[3] == proof.z);
        }
    }
    let evals = decode_slots(final_evals, 12)?;
    let y = batch_evaluations(evals.as_slice(), &nu);
    proof {
        lemma_fr_encoding(y);
    }
    let c_minus_y = commitment_minus_scalar_g1(backend, &c_batched, &y.to_bytes())?;
    let opening = copy64(proof.kzg_opening, 0);
    proof {
        assert(opening@ =~= proof.kzg_opening@);
    }
    let xi_opening = scalar_mul_g1(backend, &opening, &univ_eval_point.to_bytes())?;
    let a1 = add_g1(backend, &c_minus_y, &xi_opening)?;
    verify_two_pair_pairing(backend, &a1, &g2_generator_bytes(), &negate_g1(&opening), &vk.x2_g2)
}

} // verus!
