//! Halo2 Fiat–Shamir challenges before the opening: θ (lookup combining),
//! β, γ (permutation), y (term combining) and ξ (evaluation point), each
//! from a fresh Keccak-256 transcript round:
//!
//! ```text
//! θ: vk digest ‖ instances ‖ advice commitments
//! β: θ ‖ lookup commitments
//! γ: β
//! y: β ‖ γ ‖ permutation commitment
//! ξ: y ‖ quotient chunk commitments
//! ```
//!
//! The transcript is handed back holding ξ for the evaluation phase.
use vstd::prelude::*;
use crate::bytes::{be_nat, chunk_at, lemma_u32_le_roundtrip, push_all, u32_le_bytes, u32_to_le_bytes};
use crate::error::OnChainError;
use crate::field::Fr;
use crate::fr::fr_modulus;
use crate::halo2::canonical::{Halo2KzgProof, Halo2KzgVerifyingKey};
use crate::syscall::SyscallBackend;
use crate::transcript::{hash_on, challenge_bytes, Kind, Transcript};

verus! {

/// The five pre-opening challenges.
#[derive(Clone, Copy, Debug, PartialEq, Eq)]
pub struct Halo2Challenges {
    /// Lookup-combining challenge θ.
    pub theta: Fr,
    /// Permutation challenge β.
    pub beta: Fr,
    /// Permutation challenge γ.
    pub gamma: Fr,
    /// Term-combining challenge y.
    pub y: Fr,
    /// Evaluation point ξ.
    pub xi: Fr,
}

/// Transcript seed of a key: all its structural fields in order, the
/// counters (little-endian `u32`), the SRS element, the root of unity and
/// both commitment buffers.
pub open spec fn vk_digest_bytes(vk: Halo2KzgVerifyingKey) -> Seq<u8> {
    u32_le_bytes(vk.k) + u32_le_bytes(vk.n_instances) + u32_le_bytes(vk.n_advice) + u32_le_bytes(
        vk.n_fixed,
    ) + vk.x2_g2@ + vk.omega_fr@ + vk.fixed_commits@ + vk.permutation_commits@
}

/// The whole `size`-byte windows of `s`, concatenated.
pub open spec fn whole_windows(s: Seq<u8>, size: nat) -> Seq<u8> {
    s.subrange(0, (size * (s.len() / size)) as int)
}

/// The instance buffer holds `n` canonical scalars.
pub open spec fn instances_ok(inst: Seq<u8>, n: nat) -> bool {
    &&& inst.len() % 32 == 0
    &&& inst.len() / 32 == n
    &&& forall|i: int| 0 <= i < n ==> be_nat(#[trigger] chunk_at(inst, 32, i)) < fr_modulus()
}

/// The five transcript rounds, given the hash replies `r`.
pub open spec fn halo2_queries(
    vk: Halo2KzgVerifyingKey,
    inst: Seq<u8>,
    p: Halo2KzgProof,
    r: Seq<Seq<u8>>,
) -> Seq<Seq<u8>> {
    seq![
        vk_digest_bytes(vk) + inst + whole_windows(p.advice_commits@, 64),
        challenge_bytes(r[0]) + p.lookup_commits@,
        challenge_bytes(r[1]),
        challenge_bytes(r[1]) + challenge_bytes(r[2]) + p.permutation_z@,
        challenge_bytes(r[3]) + whole_windows(p.quotient_chunks@, 64),
    ]
}

/// The five rounds as the backend answers them: each round's Keccak-256
/// query is built from the replies before it; a failing hash passes its
/// error on, otherwise the result is the five replies.
pub open spec fn halo2_rounds<B: SyscallBackend + ?Sized>(
    b: &B,
    vk: Halo2KzgVerifyingKey,
    inst: Seq<u8>,
    p: Halo2KzgProof,
) -> Result<Seq<Seq<u8>>, OnChainError> {
    let k = Kind::Keccak256;
    match hash_on(b, k, vk_digest_bytes(vk) + inst + whole_windows(p.advice_commits@, 64)) {
        Err(e) => Err(e),
        Ok(r0) => match hash_on(b, k, challenge_bytes(r0) + p.lookup_commits@) {
            Err(e) => Err(e),
            Ok(r1) => match hash_on(b, k, challenge_bytes(r1)) {
                Err(e) => Err(e),
                Ok(r2) => match hash_on(
                    b,
                    k,
                    challenge_bytes(r1) + challenge_bytes(r2) + p.permutation_z@,
                ) {
                    Err(e) => Err(e),
                    Ok(r3) => match hash_on(
                        b,
                        k,
                        challenge_bytes(r3) + whole_windows(p.quotient_chunks@, 64),
                    ) {
                        Err(e) => Err(e),
                        Ok(r4) => Ok(seq![r0, r1, r2, r3, r4]),
                    },
                },
            },
        },
    }
}

/// `r` are the backend's Keccak-256 replies to the five rounds they make.
pub open spec fn halo2_replies<B: SyscallBackend + ?Sized>(
    b: &B,
    vk: Halo2KzgVerifyingKey,
    inst: Seq<u8>,
    p: Halo2KzgProof,
    r: Seq<Seq<u8>>,
) -> bool {
    &&& r.len() == 5
    &&& forall|k: int|
        0 <= k < 5 ==> hash_on(b, Kind::Keccak256, #[trigger] halo2_queries(vk, inst, p, r)[k])
            == Ok::<Seq<u8>, OnChainError>(r[k])
}

/// The transcript seed of a key.
pub fn vk_digest(vk: &Halo2KzgVerifyingKey) -> (out: Vec<u8>)
    ensures
        out@ == vk_digest_bytes(*vk),
{
    let mut out: Vec<u8> = Vec::new();
    push_all(&mut out, &u32_to_le_bytes(vk.k));
    push_all(&mut out, &u32_to_le_bytes(vk.n_instances));
    push_all(&mut out, &u32_to_le_bytes(vk.n_advice));
    push_all(&mut out, &u32_to_le_bytes(vk.n_fixed));
    push_all(&mut out, &vk.x2_g2);
    push_all(&mut out, &vk.omega_fr);
    push_all(&mut out, vk.fixed_commits.as_slice());
    push_all(&mut out, vk.permutation_commits.as_slice());
    proof {
        assert(out@ =~= vk_digest_bytes(*vk));
    }
    out
}

/// Check that `inst` holds exactly `n` canonical scalars.
pub fn check_instances(inst: &[u8], n: u32) -> (res: Result<(), OnChainError>)
    ensures
        res is Ok <==> instances_ok(inst@, n as nat),
        inst@.len() % 32 != 0 ==> res == Err::<(), OnChainError>(
            OnChainError::ProofLengthMismatch,
        ),
        inst@.len() % 32 == 0 && inst@.len() / 32 != n ==> res == Err::<(), OnChainError>(
            OnChainError::PublicInputCountMismatch,
        ),
        inst@.len() % 32 == 0 && inst@.len() / 32 == n && !instances_ok(inst@, n as nat) ==> res
            == Err::<(), OnChainError>(OnChainError::PublicInputOutOfRange),
{
    if inst.len() % 32 != 0 {
        return Err(OnChainError::ProofLengthMismatch);
    }
    if inst.len() / 32 != n as usize {
        return Err(OnChainError::PublicInputCountMismatch);
    }
    let chunks = crate::bytes::chunks_exact(inst, 32);
    proof {
        vstd::arithmetic::div_mod::lemma_fundamental_div_mod(inst@.len() as int, 32);
    }
    let mut i: usize = 0;
    while i < chunks.len()
        invariant
            0 <= i <= chunks@.len(),
            chunks@.len() == n,
            inst@.len() == 32 * n,
            forall|j: int| 0 <= j < chunks@.len() ==> (#[trigger] chunks@[j])@ == chunk_at(inst@, 32, j),
            forall|j: int| 0 <= j < i ==> be_nat(#[trigger] chunk_at(inst@, 32, j)) < fr_modulus(),
        decreases chunks@.len() - i,
    {
        match Fr::from_canonical_bytes(chunks[i]) {
            Ok(_) => {},
            Err(_) => {
                proof {
                    assert(chunk_at(inst@, 32, i as int).len() == 32) by {
                        assert((i + 1) * 32 <= n * 32) by (nonlinear_arith)
                            requires
                                i < n,
                        ;
                    }
                    assert(inst@.len() % 32 == 0);
                }
                return Err(OnChainError::PublicInputOutOfRange);
            },
        }
        i = i + 1;
    }
    Ok(())
}

/// Derive `(θ, β, γ, y, ξ)` and return the transcript holding ξ.
///
/// The instance buffer must hold `vk.n_instances` canonical scalars: a
/// length that is not a multiple of 32 is a length error, a wrong count a
/// count error, a scalar at or above `r` a range error. Hash failures are
/// passed on.
pub fn derive_challenges<'b, B: SyscallBackend + ?Sized>(
    backend: &'b B,
    vk: &Halo2KzgVerifyingKey,
    instances_bytes: &[u8],
    proof: &Halo2KzgProof,
) -> (res: Result<(Halo2Challenges, Transcript<'b, B>), OnChainError>)
    ensures
        instances_bytes@.len() % 32 != 0 ==> res is Err && res->Err_0
            == OnChainError::ProofLengthMismatch,
        instances_bytes@.len() % 32 == 0 && instances_bytes@.len() / 32 != vk.n_instances ==> res is Err
            && res->Err_0 == OnChainError::PublicInputCountMismatch,
        instances_bytes@.len() % 32 == 0 && instances_bytes@.len() / 32 == vk.n_instances
            && !instances_ok(instances_bytes@, vk.n_instances as nat) ==> res is Err && res->Err_0
            == OnChainError::PublicInputOutOfRange,
        instances_ok(instances_bytes@, vk.n_instances as nat) ==> match halo2_rounds(
            backend,
            *vk,
            instances_bytes@,
            *proof,
        ) {
            Ok(r) => res matches Ok((c, t)) && t.replies() == r,
            Err(e) => res is Err && res->Err_0 == e,
        },
        res matches Ok((c, t)) ==> {
            let r = t.replies();
            &&& instances_ok(instances_bytes@, vk.n_instances as nat)
            &&& t.kind() == Kind::Keccak256
            &&& r.len() == 5
            &&& t.queries() == halo2_queries(*vk, instances_bytes@, *proof, r)
            &&& t.backend() == backend
            &&& halo2_replies(backend, *vk, instances_bytes@, *proof, r)
            &&& c.theta@ == be_nat(r[0]) % fr_modulus()
            &&& c.beta@ == be_nat(r[1]) % fr_modulus()
            &&& c.gamma@ == be_nat(r[2]) % fr_modulus()
            &&& c.y@ == be_nat(r[3]) % fr_modulus()
            &&& c.xi@ == be_nat(r[4]) % fr_modulus()
            &&& t.buffer() == challenge_bytes(r[4])
        },
{
    check_instances(instances_bytes, vk.n_instances)?;
    let mut t = Transcript::new(Kind::Keccak256, backend);
    proof {
        vstd::arithmetic::div_mod::lemma_fundamental_div_mod(proof.advice_commits@.len() as int, 64);
        vstd::arithmetic::div_mod::lemma_fundamental_div_mod(proof.quotient_chunks@.len() as int, 64);
    }
    // θ
    t.absorb(vk_digest(vk).as_slice());
    t.absorb(instances_bytes);
    let advice = proof.advice_iter();
    t.absorb_chunks(&advice, Ghost(proof.advice_commits@), Ghost(64));
    let ghost q0 = t.buffer();
    proof {
        assert(q0 =~= vk_digest_bytes(*vk) + instances_bytes@ + whole_windows(proof.advice_commits@, 64));
    }
    let (theta_bytes, theta) = t.challenge_fr()?;
    let ghost a0 = t.replies().last();
    // β
    t.reset();
    t.absorb(&theta_bytes);
    if proof.lookup_commits.len() != 0 {
        t.absorb(proof.lookup_commits);
    }
    let ghost q1 = t.buffer();
    proof {
        assert(q1 =~= challenge_bytes(a0) + proof.lookup_commits@);
    }
    let (beta_bytes, beta) = t.challenge_fr()?;
    let ghost a1 = t.replies().last();
    // γ
    t.reset();
    t.absorb(&beta_bytes);
    let ghost q2 = t.buffer();
    proof {
        assert(q2 =~= challenge_bytes(a1));
    }
    let (gamma_bytes, gamma) = t.challenge_fr()?;
    let ghost a2 = t.replies().last();
    // y
    t.reset();
    t.absorb(&beta_bytes);
    t.absorb(&gamma_bytes);
    t.absorb(proof.permutation_z);
    let ghost q3 = t.buffer();
    proof {
        assert(q3 =~= challenge_bytes(a1) + challenge_bytes(a2) + proof.permutation_z@);
    }
    let (y_bytes, y) = t.challenge_fr()?;
    let ghost a3 = t.replies().last();
    // ξ
    t.reset();
    t.absorb(&y_bytes);
    let quotient = proof.quotient_iter();
    t.absorb_chunks(&quotient, Ghost(proof.quotient_chunks@), Ghost(64));
    let ghost q4 = t.buffer();
    proof {
        assert(q4 =~= challenge_bytes(a3) + whole_windows(proof.quotient_chunks@, 64));
    }
    let (xi_bytes, xi) = t.challenge_fr()?;
    let ghost a4 = t.replies().last();
    t.reset();
    t.absorb(&xi_bytes);
    proof {
        let r = seq![a0, a1, a2, a3, a4];
        assert(t.replies() =~= r);
        assert(t.queries() =~= seq![q0, q1, q2, q3, q4]);
        assert(q0 =~= vk_digest_bytes(*vk) + instances_bytes@ + whole_windows(proof.advice_commits@, 64));
        assert(q1 =~= challenge_bytes(a0) + proof.lookup_commits@);
        assert(q3 =~= challenge_bytes(a1) + challenge_bytes(a2) + proof.permutation_z@);
        assert(q4 =~= challenge_bytes(a3) + whole_windows(proof.quotient_chunks@, 64));
        assert(t.buffer() =~= challenge_bytes(a4));
        let qs = halo2_queries(*vk, instances_bytes@, *proof, t.replies());
        assert(qs == seq![q0, q1, q2, q3, q4]);
        assert forall|k: int| 0 <= k < 5 implies hash_on(
            backend,
            Kind::Keccak256,
            #[trigger] qs[k],
        ) == Ok::<Seq<u8>, OnChainError>(t.replies()[k]) by {
            if k == 0 {} else if k == 1 {} else if k == 2 {} else if k == 3 {} else {}
        }
    }
    Ok((Halo2Challenges { theta, beta, gamma, y, xi }, t))
}

} // verus!

verus! {

/// The fields of a key sit at fixed windows of its transcript seed.
proof fn lemma_vk_digest_windows(vk: Halo2KzgVerifyingKey)
    ensures
        ({
            let d = vk_digest_bytes(vk);
            let f = vk.fixed_commits@.len() as int;
            let q = vk.permutation_commits@.len() as int;
            &&& d.len() == 176 + f + q
            &&& d.subrange(0, 4) == u32_le_bytes(vk.k)
            &&& d.subrange(4, 8) == u32_le_bytes(vk.n_instances)
            &&& d.subrange(8, 12) == u32_le_bytes(vk.n_advice)
            &&& d.subrange(12, 16) == u32_le_bytes(vk.n_fixed)
            &&& d.subrange(16, 144) == vk.x2_g2@
            &&& d.subrange(144, 176) == vk.omega_fr@
            &&& d.subrange(176, 176 + f) == vk.fixed_commits@
            &&& d.subrange(176 + f, 176 + f + q) == vk.permutation_commits@
        }),
{
    let h0 = u32_le_bytes(vk.k);
    let h1 = h0 + u32_le_bytes(vk.n_instances);
    let h2 = h1 + u32_le_bytes(vk.n_advice);
    let h3 = h2 + u32_le_bytes(vk.n_fixed);
    let h4 = h3 + vk.x2_g2@;
    let h5 = h4 + vk.omega_fr@;
    let h6 = h5 + vk.fixed_commits@;
    let d = h6 + vk.permutation_commits@;
    lemma_u32_le_roundtrip(vk.k);
    lemma_u32_le_roundtrip(vk.n_instances);
    lemma_u32_le_roundtrip(vk.n_advice);
    lemma_u32_le_roundtrip(vk.n_fixed);
    let f = vk.fixed_commits@.len() as int;
    let q = vk.permutation_commits@.len() as int;
    assert(d.subrange(0, 176 + f) =~= h6);
    assert(h6.subrange(0, 176) =~= h5);
    assert(h5.subrange(0, 144) =~= h4);
    assert(h4.subrange(0, 16) =~= h3);
    assert(h3.subrange(0, 12) =~= h2);
    assert(h2.subrange(0, 8) =~= h1);
    assert(h1.subrange(0, 4) =~= h0);
    assert(d.subrange(0, 4) =~= h0);
    assert(d.subrange(4, 8) =~= u32_le_bytes(vk.n_instances));
    assert(d.subrange(8, 12) =~= u32_le_bytes(vk.n_advice));
    assert(d.subrange(12, 16) =~= u32_le_bytes(vk.n_fixed));
    assert(d.subrange(16, 144) =~= vk.x2_g2@);
    assert(d.subrange(144, 176) =~= vk.omega_fr@);
    assert(d.subrange(176, 176 + f) =~= vk.fixed_commits@);
    assert(d.subrange(176 + f, 176 + f + q) =~= vk.permutation_commits@);
    assert(d == vk_digest_bytes(vk));
}

/// The transcript seed tells keys apart: two keys whose commitment buffers
/// have the same lengths and whose seeds are equal agree in every field.
pub proof fn lemma_vk_digest_injective(vk1: Halo2KzgVerifyingKey, vk2: Halo2KzgVerifyingKey)
    requires
        vk1.fixed_commits@.len() == vk2.fixed_commits@.len(),
        vk1.permutation_commits@.len() == vk2.permutation_commits@.len(),
        vk_digest_bytes(vk1) == vk_digest_bytes(vk2),
    ensures
        vk1.k == vk2.k,
        vk1.n_instances == vk2.n_instances,
        vk1.n_advice == vk2.n_advice,
        vk1.n_fixed == vk2.n_fixed,
        vk1.x2_g2@ == vk2.x2_g2@,
        vk1.omega_fr@ == vk2.omega_fr@,
        vk1.fixed_commits@ == vk2.fixed_commits@,
        vk1.permutation_commits@ == vk2.permutation_commits@,
{
    lemma_vk_digest_windows(vk1);
    lemma_vk_digest_windows(vk2);
    lemma_u32_le_roundtrip(vk1.k);
    lemma_u32_le_roundtrip(vk2.k);
    lemma_u32_le_roundtrip(vk1.n_instances);
    lemma_u32_le_roundtrip(vk2.n_instances);
    lemma_u32_le_roundtrip(vk1.n_advice);
    lemma_u32_le_roundtrip(vk2.n_advice);
    lemma_u32_le_roundtrip(vk1.n_fixed);
    lemma_u32_le_roundtrip(vk2.n_fixed);
}

/// The permutation commitment enters the transcript only from the `y`
/// round on: two proofs that share their advice and lookup commitments
/// give the same θ, β and γ rounds (for the same earlier replies).
pub proof fn lemma_permutation_z_enters_at_y(
    vk: Halo2KzgVerifyingKey,
    inst: Seq<u8>,
    p1: Halo2KzgProof,
    p2: Halo2KzgProof,
    r: Seq<Seq<u8>>,
)
    requires
        p1.advice_commits@ == p2.advice_commits@,
        p1.lookup_commits@ == p2.lookup_commits@,
    ensures
        halo2_queries(vk, inst, p1, r)[0] == halo2_queries(vk, inst, p2, r)[0],
        halo2_queries(vk, inst, p1, r)[1] == halo2_queries(vk, inst, p2, r)[1],
        halo2_queries(vk, inst, p1, r)[2] == halo2_queries(vk, inst, p2, r)[2],
{
}

} // verus!
