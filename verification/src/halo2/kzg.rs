//! KZG opening checks for Halo2 proofs.
//!
//! Single point: `e(C − y·G1 + ξ·W_ξ, [1]₂) · e(−W_ξ, [x]₂) = 1`.
//! Two points, batched with `u`:
//!
//! ```text
//! A1 = C_ξ − y_ξ·G1 + ξ·W_ξ
//! A2 = C_ξω − y_ξω·G1 + ξω·W_ξω
//! e(A1 + u·A2, [1]₂) · e(−(W_ξ + u·W_ξω), [x]₂) = 1
//! ```
//!
//! In the multi-polynomial form `C` and `y` at each point are the
//! `v`-power combinations of the committed polynomials and their claimed
//! evaluations. Curve arithmetic and the pairing are the backend's; the
//! scalar side is computed here.
use vstd::prelude::*;
use crate::bytes::{be_nat, chunk_at, copy64, window};
use crate::curve::{
    add_g1, add_spec, g1_generator_bytes, g2_generator_bytes, kzg_lhs_spec, msm_g1, msm_spec,
    mul_spec, neg_point, negate_g1, pairing_spec, point_is, points_ok, scalar_mul_g1,
    scalar_views, slice_views, verify_two_pair_pairing, G2_GENERATOR,
};
use crate::field::lemma_fr_encoding;
use crate::fr::FR_LEN;
use crate::transcript::fr_bytes;
use crate::error::OnChainError;
use crate::field::{fr_values, inner_product, powers_of, Fr};
use crate::fr::fr_modulus;
use crate::halo2::canonical::{Halo2KzgProof, Halo2KzgVerifyingKey};
use crate::halo2::circuit::combine;
use crate::syscall::SyscallBackend;

verus! {

/// The batched pairing check as the backend decides it: `A = A1 + u·A2`,
/// `W = W_ξ + u·W_ξω`, then `e(A, [1]₂) · e(−W, [x]₂) = 1`.
pub open spec fn batched_pairing_spec<B: SyscallBackend + ?Sized>(
    b: &B,
    x2: Seq<u8>,
    a1: Seq<u8>,
    a2: Seq<u8>,
    w_xi: Seq<u8>,
    w_xiw: Seq<u8>,
    u: nat,
) -> Result<(), OnChainError> {
    match mul_spec(b, a2, fr_bytes(u)) {
        Ok(ua2) => match add_spec(b, a1, ua2) {
            Ok(a) => match mul_spec(b, w_xiw, fr_bytes(u)) {
                Ok(uw) => match add_spec(b, w_xi, uw) {
                    Ok(w) => pairing_spec(b, a + G2_GENERATOR@ + neg_point(w) + x2),
                    Err(e) => Err(e),
                },
                Err(e) => Err(e),
            },
            Err(e) => Err(e),
        },
        Err(e) => Err(e),
    }
}

/// The two-point check as the backend decides it, for the commitment
/// lists `cx` (at ξ) and `cw` (at ξω), their claimed values `ex`, `ew`, the
/// openings, the points and the challenges: each side's commitments and
/// values are combined with powers of `v`, opened, and batched with `u`.
pub open spec fn two_point_spec<B: SyscallBackend + ?Sized>(
    b: &B,
    x2: Seq<u8>,
    cx: Seq<Seq<u8>>,
    ex: Seq<nat>,
    cw: Seq<Seq<u8>>,
    ew: Seq<nat>,
    w_xi: Seq<u8>,
    w_xiw: Seq<u8>,
    xi: nat,
    xiw: nat,
    v: nat,
    u: nat,
) -> Result<(), OnChainError> {
    let px = Seq::new(cx.len(), |i: int| fr_bytes(crate::field::fpow(v, i as nat)));
    let pw = Seq::new(cw.len(), |i: int| fr_bytes(crate::field::fpow(v, i as nat)));
    match msm_spec(b, cx, px, cx.len()) {
        Ok(c1) => match msm_spec(b, cw, pw, cw.len()) {
            Ok(c2) => match kzg_lhs_spec(b, c1, fr_bytes(combine(ex, v)), fr_bytes(xi), w_xi) {
                Ok(a1) => match kzg_lhs_spec(b, c2, fr_bytes(combine(ew, v)), fr_bytes(xiw), w_xiw) {
                    Ok(a2) => batched_pairing_spec(b, x2, a1, a2, w_xi, w_xiw, u),
                    Err(e) => Err(e),
                },
                Err(e) => Err(e),
            },
            Err(e) => Err(e),
        },
        Err(e) => Err(e),
    }
}

/// `C − y·G1 + s·W`, the left point of one opening.
fn opening_point<B: SyscallBackend + ?Sized>(
    backend: &B,
    c: &[u8; 64],
    y: &Fr,
    s: &Fr,
    w: &[u8; 64],
) -> (res: Result<[u8; 64], OnChainError>)
    ensures
        point_is(res, kzg_lhs_spec(backend, c@, fr_bytes(y@), fr_bytes(s@), w@)),
{
    proof {
        lemma_fr_encoding(*y);
        lemma_fr_encoding(*s);
    }
    crate::curve::compute_kzg_opening_lhs(backend, c, &y.to_bytes(), &s.to_bytes(), w)
}

/// Batch two openings with `u` and run the pairing check against `[x]₂`.
fn batched_pairing<B: SyscallBackend + ?Sized>(
    backend: &B,
    x2_g2: &[u8; 128],
    a1: &[u8; 64],
    a2: &[u8; 64],
    w_xi: &[u8; 64],
    w_xiw: &[u8; 64],
    u: &Fr,
) -> (res: Result<(), OnChainError>)
    ensures
        res == batched_pairing_spec(backend, x2_g2@, a1@, a2@, w_xi@, w_xiw@, u@),
{
    proof {
        lemma_fr_encoding(*u);
    }
    let u_bytes = u.to_bytes();
    let u_a2 = scalar_mul_g1(backend, a2, &u_bytes)?;
    let a = add_g1(backend, a1, &u_a2)?;
    let u_w = scalar_mul_g1(backend, w_xiw, &u_bytes)?;
    let w = add_g1(backend, w_xi, &u_w)?;
    verify_two_pair_pairing(backend, &a, &g2_generator_bytes(), &negate_g1(&w), x2_g2)
}

/// Single-point opening of the permutation commitment at ξ, with the first
/// evaluation as the claimed value.
///
/// No evaluation is a length error; a permutation commitment or `W_ξ` that
/// is not 64 bytes is a point-encoding error; a claimed value at or above
/// `r` is a range error. Curve and pairing errors are the backend's.
pub fn verify_opening_scaffold<B: SyscallBackend + ?Sized>(
    backend: &B,
    vk: &Halo2KzgVerifyingKey,
    proof: &Halo2KzgProof,
    xi: &Fr,
) -> (res: Result<(), OnChainError>)
    ensures
        proof.evaluations@.len() < 32 ==> res == Err::<(), OnChainError>(
            OnChainError::ProofLengthMismatch,
        ),
        proof.evaluations@.len() >= 32 && (proof.permutation_z@.len() != 64 || proof.w_xi@.len()
            != 64) ==> res == Err::<(), OnChainError>(OnChainError::InvalidPointEncoding),
        proof.evaluations@.len() >= 32 && proof.permutation_z@.len() == 64 && proof.w_xi@.len()
            == 64 && be_nat(proof.evaluations@.subrange(0, 32)) >= fr_modulus() ==> res == Err::<
            (),
            OnChainError,
        >(OnChainError::PublicInputOutOfRange),
        proof.evaluations@.len() >= 32 && proof.permutation_z@.len() == 64 && proof.w_xi@.len()
            == 64 && be_nat(proof.evaluations@.subrange(0, 32)) < fr_modulus() ==> res == match kzg_lhs_spec(
            backend,
            proof.permutation_z@,
            proof.evaluations@.subrange(0, 32),
            fr_bytes(xi@),
            proof.w_xi@,
        ) {
            Ok(a1) => pairing_spec(backend, a1 + G2_GENERATOR@ + neg_point(proof.w_xi@) + vk.x2_g2@),
            Err(e) => Err(e),
        },
{
    if proof.evaluations.len() < 32 {
        return Err(OnChainError::ProofLengthMismatch);
    }
    if proof.permutation_z.len() != 64 {
        return Err(OnChainError::InvalidPointEncoding);
    }
    if proof.w_xi.len() != 64 {
        return Err(OnChainError::InvalidPointEncoding);
    }
    let y = Fr::from_canonical_bytes(window(proof.evaluations, 0, 32))?;
    let c = copy64(proof.permutation_z, 0);
    let w = copy64(proof.w_xi, 0);
    proof {
        crate::transcript::lemma_fr_bytes(proof.evaluations@.subrange(0, 32));
        assert(c@ =~= proof.permutation_z@);
        assert(w@ =~= proof.w_xi@);
    }
    let a1 = opening_point(backend, &c, &y, xi, &w)?;
    verify_two_pair_pairing(backend, &a1, &g2_generator_bytes(), &negate_g1(&w), &vk.x2_g2)
}

/// Two-point opening of the permutation commitment: at ξ with `z(ξ)` and at
/// ξω with `z(ξω)` (evaluation slots 8 and 9), batched with `u`.
///
/// Fewer than ten evaluations is a length error; a permutation
/// commitment, `W_ξ` or `W_ξω` that is not 64 bytes is a point-encoding
/// error; either claimed value at or above `r` is a range error.
pub fn verify_two_point_opening_scaffold<B: SyscallBackend + ?Sized>(
    backend: &B,
    vk: &Halo2KzgVerifyingKey,
    proof: &Halo2KzgProof,
    xi: &Fr,
    xi_omega: &Fr,
    u: &Fr,
) -> (res: Result<(), OnChainError>)
    ensures
        proof.evaluations@.len() < 320 ==> res == Err::<(), OnChainError>(
            OnChainError::ProofLengthMismatch,
        ),
        proof.evaluations@.len() >= 320 && (proof.permutation_z@.len() != 64 || proof.w_xi@.len()
            != 64 || proof.w_xiw@.len() != 64) ==> res == Err::<(), OnChainError>(
            OnChainError::InvalidPointEncoding,
        ),
        proof.evaluations@.len() >= 320 && proof.permutation_z@.len() == 64 && proof.w_xi@.len()
            == 64 && proof.w_xiw@.len() == 64 && (be_nat(chunk_at(proof.evaluations@, 32, 8))
            >= fr_modulus() || be_nat(chunk_at(proof.evaluations@, 32, 9)) >= fr_modulus())
            ==> res == Err::<(), OnChainError>(OnChainError::PublicInputOutOfRange),
        proof.evaluations@.len() >= 320 && proof.permutation_z@.len() == 64 && proof.w_xi@.len()
            == 64 && proof.w_xiw@.len() == 64 && be_nat(chunk_at(proof.evaluations@, 32, 8))
            < fr_modulus() && be_nat(chunk_at(proof.evaluations@, 32, 9)) < fr_modulus() ==> res
            == match kzg_lhs_spec(
            backend,
            proof.permutation_z@,
            chunk_at(proof.evaluations@, 32, 8),
            fr_bytes(xi@),
            proof.w_xi@,
        ) {
            Ok(a1) => match kzg_lhs_spec(
                backend,
                proof.permutation_z@,
                chunk_at(proof.evaluations@, 32, 9),
                fr_bytes(xi_omega@),
                proof.w_xiw@,
            ) {
                Ok(a2) => batched_pairing_spec(
                    backend,
                    vk.x2_g2@,
                    a1,
                    a2,
                    proof.w_xi@,
                    proof.w_xiw@,
                    u@,
                ),
                Err(e) => Err(e),
            },
            Err(e) => Err(e),
        },
{
    if proof.evaluations.len() < 320 {
        return Err(OnChainError::ProofLengthMismatch);
    }
    if proof.permutation_z.len() != 64 || proof.w_xi.len() != 64 || proof.w_xiw.len() != 64 {
        return Err(OnChainError::InvalidPointEncoding);
    }
    let y_xi = Fr::from_canonical_bytes(window(proof.evaluations, 256, 288))?;
    let y_xiw = Fr::from_canonical_bytes(window(proof.evaluations, 288, 320))?;
    let c = copy64(proof.permutation_z, 0);
    let w_xi = copy64(proof.w_xi, 0);
    let w_xiw = copy64(proof.w_xiw, 0);
    proof {
        assert(chunk_at(proof.evaluations@, 32, 8) == proof.evaluations@.subrange(256, 288));
        assert(chunk_at(proof.evaluations@, 32, 9) == proof.evaluations@.subrange(288, 320));
        crate::transcript::lemma_fr_bytes(proof.evaluations@.subrange(256, 288));
        crate::transcript::lemma_fr_bytes(proof.evaluations@.subrange(288, 320));
        assert(c@ =~= proof.permutation_z@);
        assert(w_xi@ =~= proof.w_xi@);
        assert(w_xiw@ =~= proof.w_xiw@);
    }
    let a1 = opening_point(backend, &c, &y_xi, xi, &w_xi)?;
    let a2 = opening_point(backend, &c, &y_xiw, xi_omega, &w_xiw)?;
    batched_pairing(backend, &vk.x2_g2, &a1, &a2, &w_xi, &w_xiw, u)
}

/// `Σ v^i · evals_i` over the field.
pub fn batch_evaluations(evals: &[Fr], v: &Fr) -> (res: Fr)
    ensures
        res@ == combine(fr_values(evals@), v@),
{
    let powers = powers_of(v, evals.len());
    let r = inner_product(powers.as_slice(), evals);
    proof {
        assert(fr_values(powers@) =~= crate::halo2::circuit::theta_powers(v@, evals@.len()));
    }
    match r {
        Ok(y) => y,
        Err(_) => {
            proof {
                assert(false);
            }
            Fr::zero()
        },
    }
}

/// Scalars whose values are the powers of `v` are their encodings.
pub proof fn lemma_power_bytes(s: Seq<[u8; 32]>, v: nat)
    requires
        forall|i: int| 0 <= i < s.len() ==> be_nat((#[trigger] s[i])@) == crate::field::fpow(v, i as nat),
    ensures
        scalar_views(s) == Seq::new(s.len(), |i: int| fr_bytes(crate::field::fpow(v, i as nat))),
{
    assert forall|i: int| 0 <= i < s.len() implies #[trigger] scalar_views(s)[i] == fr_bytes(
        crate::field::fpow(v, i as nat),
    ) by {
        crate::transcript::lemma_fr_bytes(s[i]@);
    }
    assert(scalar_views(s) =~= Seq::new(s.len(), |i: int| fr_bytes(crate::field::fpow(v, i as nat))));
}

/// The big-endian encodings of `[1, v, …, v^(n−1)]`.
pub fn power_scalars(v: &Fr, n: usize) -> (res: Vec<[u8; 32]>)
    ensures
        res@.len() == n,
        forall|i: int|
            0 <= i < n ==> be_nat((#[trigger] res@[i])@) == crate::field::fpow(v@, i as nat),
{
    let powers = powers_of(v, n);
    let mut out: Vec<[u8; 32]> = Vec::new();
    let mut i: usize = 0;
    while i < n
        invariant
            0 <= i <= n,
            powers@.len() == n,
            forall|j: int| 0 <= j < n ==> (#[trigger] powers@[j])@ == crate::field::fpow(v@, j as nat),
            out@.len() == i,
            forall|j: int| 0 <= j < i ==> be_nat((#[trigger] out@[j])@) == crate::field::fpow(v@, j as nat),
        decreases n - i,
    {
        let b = powers[i].to_bytes();
        out.push(b);
        i = i + 1;
    }
    out
}

/// Multi-polynomial two-point opening: the commitments and claimed
/// evaluations at ξ and at ξω are each combined with powers of `v`, then
/// batched with `u`.
///
/// Empty or unpaired commitment/evaluation lists are a count error; an
/// opening or a commitment that is not 64 bytes is a point-encoding error.
#[allow(clippy::too_many_arguments)]
pub fn verify_two_point_opening_multipoly<B: SyscallBackend + ?Sized>(
    backend: &B,
    vk: &Halo2KzgVerifyingKey,
    commits_xi: &[&[u8]],
    evals_xi: &[Fr],
    commits_xi_omega: &[&[u8]],
    evals_xi_omega: &[Fr],
    w_xi: &[u8],
    w_xi_omega: &[u8],
    xi: &Fr,
    xi_omega: &Fr,
    v: &Fr,
    u: &Fr,
) -> (res: Result<(), OnChainError>)
    ensures
        (commits_xi@.len() != evals_xi@.len() || commits_xi@.len() == 0 || commits_xi_omega@.len()
            != evals_xi_omega@.len() || commits_xi_omega@.len() == 0) ==> res == Err::<
            (),
            OnChainError,
        >(OnChainError::PublicInputCountMismatch),
        (commits_xi@.len() == evals_xi@.len() && commits_xi@.len() > 0 && commits_xi_omega@.len()
            == evals_xi_omega@.len() && commits_xi_omega@.len() > 0) && (w_xi@.len() != 64
            || w_xi_omega@.len() != 64 || !points_ok(commits_xi@) || !points_ok(
            commits_xi_omega@,
        )) ==> res == Err::<(), OnChainError>(OnChainError::InvalidPointEncoding),
        (commits_xi@.len() == evals_xi@.len() && commits_xi@.len() > 0 && commits_xi_omega@.len()
            == evals_xi_omega@.len() && commits_xi_omega@.len() > 0 && w_xi@.len() == 64
            && w_xi_omega@.len() == 64 && points_ok(commits_xi@) && points_ok(commits_xi_omega@))
            ==> res == two_point_spec(
            backend,
            vk.x2_g2@,
            slice_views(commits_xi@),
            fr_values(evals_xi@),
            slice_views(commits_xi_omega@),
            fr_values(evals_xi_omega@),
            w_xi@,
            w_xi_omega@,
            xi@,
            xi_omega@,
            v@,
            u@,
        ),
{
    if commits_xi.len() != evals_xi.len() || commits_xi.len() == 0 {
        return Err(OnChainError::PublicInputCountMismatch);
    }
    if commits_xi_omega.len() != evals_xi_omega.len() || commits_xi_omega.len() == 0 {
        return Err(OnChainError::PublicInputCountMismatch);
    }
    if w_xi.len() != 64 || w_xi_omega.len() != 64 {
        return Err(OnChainError::InvalidPointEncoding);
    }
    let mut k: usize = 0;
    while k < commits_xi.len()
        invariant
            0 <= k <= commits_xi@.len(),
            commits_xi@.len() == evals_xi@.len() && commits_xi@.len() > 0,
            commits_xi_omega@.len() == evals_xi_omega@.len() && commits_xi_omega@.len() > 0,
            w_xi@.len() == 64 && w_xi_omega@.len() == 64,
            forall|j: int| 0 <= j < k ==> (#[trigger] commits_xi@[j])@.len() == 64,
        decreases commits_xi@.len() - k,
    {
        if commits_xi[k].len() != 64 {
            return Err(OnChainError::InvalidPointEncoding);
        }
        k = k + 1;
    }
    let mut k: usize = 0;
    while k < commits_xi_omega.len()
        invariant
            0 <= k <= commits_xi_omega@.len(),
            commits_xi@.len() == evals_xi@.len() && commits_xi@.len() > 0,
            commits_xi_omega@.len() == evals_xi_omega@.len() && commits_xi_omega@.len() > 0,
            w_xi@.len() == 64 && w_xi_omega@.len() == 64,
            points_ok(commits_xi@),
            forall|j: int| 0 <= j < k ==> (#[trigger] commits_xi_omega@[j])@.len() == 64,
        decreases commits_xi_omega@.len() - k,
    {
        if commits_xi_omega[k].len() != 64 {
            return Err(OnChainError::InvalidPointEncoding);
        }
        k = k + 1;
    }
    // Batched commitments and evaluations at each point.
    let scalars_xi = power_scalars(v, commits_xi.len());
    proof {
        lemma_power_bytes(scalars_xi@, v@);
    }
    let c_xi = msm_g1(backend, commits_xi, scalars_xi.as_slice())?;
    let y_xi = batch_evaluations(evals_xi, v);
    let scalars_xiw = power_scalars(v, commits_xi_omega.len());
    proof {
        lemma_power_bytes(scalars_xiw@, v@);
    }
    let c_xiw = msm_g1(backend, commits_xi_omega, scalars_xiw.as_slice())?;
    let y_xiw = batch_evaluations(evals_xi_omega, v);
    // Openings.
    let w1 = copy64(w_xi, 0);
    let w2 = copy64(w_xi_omega, 0);
    proof {
        assert(w1@ =~= w_xi@);
        assert(w2@ =~= w_xi_omega@);
    }
    let a1 = opening_point(backend, &c_xi, &y_xi, xi, &w1)?;
    let a2 = opening_point(backend, &c_xiw, &y_xiw, xi_omega, &w2)?;
    batched_pairing(backend, &vk.x2_g2, &a1, &a2, &w1, &w2, u)
}

} // verus!
