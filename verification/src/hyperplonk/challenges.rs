//! HyperPlonk Fiat–Shamir challenges before the sumcheck, each from a
//! fresh Keccak-256 round:
//!
//! ```text
//! β: [x]₂ ‖ n_public ‖ num_variables ‖ 8 key commitments ‖ public inputs ‖ A ‖ B ‖ C
//! γ: β
//! α: β ‖ γ ‖ Z
//! ```
//!
//! The transcript is handed back holding α for the sumcheck.
use vstd::prelude::*;
use crate::bytes::{be_nat, u32_le_bytes, u32_to_le_bytes};
use crate::error::OnChainError;
use crate::field::Fr;
use crate::fr::fr_modulus;
use crate::halo2::challenges::{check_instances, instances_ok};
use crate::hyperplonk::canonical::{vk_commits, HyperPlonkProof, HyperPlonkVerifyingKey};
use crate::syscall::SyscallBackend;
use crate::transcript::{challenge_bytes, hash_on, Kind, Transcript};

verus! {

/// The three pre-sumcheck challenges.
#[derive(Clone, Copy, Debug, PartialEq, Eq)]
pub struct PreSumcheckChallenges {
    /// Permutation challenge β.
    pub beta: Fr,
    /// Permutation challenge γ.
    pub gamma: Fr,
    /// Combining challenge α of the zero-check.
    pub alpha: Fr,
}

/// The key's contribution to the first round.
pub open spec fn vk_round_bytes(vk: HyperPlonkVerifyingKey) -> Seq<u8> {
    let c = vk_commits(vk);
    vk.x2_g2@ + u32_le_bytes(vk.n_public) + u32_le_bytes(vk.num_variables) + c[0] + c[1] + c[2]
        + c[3] + c[4] + c[5] + c[6] + c[7]
}

/// The three transcript rounds, given the hash replies `r`.
pub open spec fn hyperplonk_queries(
    vk: HyperPlonkVerifyingKey,
    pi: Seq<u8>,
    p: HyperPlonkProof,
    r: Seq<Seq<u8>>,
) -> Seq<Seq<u8>> {
    seq![
        vk_round_bytes(vk) + pi + p.a@ + p.b@ + p.c@,
        challenge_bytes(r[0]),
        challenge_bytes(r[0]) + challenge_bytes(r[1]) + p.z@,
    ]
}

/// The three rounds as the backend answers them: each round's Keccak-256
/// query is built from the replies before it; a failing hash passes its
/// error on, otherwise the result is the three replies.
pub open spec fn hyperplonk_rounds<B: SyscallBackend + ?Sized>(
    b: &B,
    vk: HyperPlonkVerifyingKey,
    pi: Seq<u8>,
    p: HyperPlonkProof,
) -> Result<Seq<Seq<u8>>, OnChainError> {
    let k = Kind::Keccak256;
    match hash_on(b, k, vk_round_bytes(vk) + pi + p.a@ + p.b@ + p.c@) {
        Err(e) => Err(e),
        Ok(r0) => match hash_on(b, k, challenge_bytes(r0)) {
            Err(e) => Err(e),
            Ok(r1) => match hash_on(b, k, challenge_bytes(r0) + challenge_bytes(r1) + p.z@) {
                Err(e) => Err(e),
                Ok(r2) => Ok(seq![r0, r1, r2]),
            },
        },
    }
}

/// Replies that answer the three rounds are the rounds' outcome.
pub proof fn lemma_replies_are_rounds<B: SyscallBackend + ?Sized>(
    b: &B,
    vk: HyperPlonkVerifyingKey,
    pi: Seq<u8>,
    p: HyperPlonkProof,
    r: Seq<Seq<u8>>,
)
    requires
        hyperplonk_replies(b, vk, pi, p, r),
    ensures
        hyperplonk_rounds(b, vk, pi, p) == Ok::<Seq<Seq<u8>>, OnChainError>(r),
{
    let q = hyperplonk_queries(vk, pi, p, r);
    assert(hash_on(b, Kind::Keccak256, q[0]) == Ok::<Seq<u8>, OnChainError>(r[0]));
    assert(hash_on(b, Kind::Keccak256, q[1]) == Ok::<Seq<u8>, OnChainError>(r[1]));
    assert(hash_on(b, Kind::Keccak256, q[2]) == Ok::<Seq<u8>, OnChainError>(r[2]));
    assert(seq![r[0], r[1], r[2]] =~= r);
}

/// Derive `(β, γ, α)` and return the transcript holding α.
///
/// The public inputs must be `vk.n_public` canonical scalars: a length
/// that is not a multiple of 32 is a length error, a wrong count a count
/// error, a scalar at or above `r` a range error. Hash failures are passed
/// `r` are the backend's Keccak-256 replies to the three rounds they make.
pub open spec fn hyperplonk_replies<B: SyscallBackend + ?Sized>(
    b: &B,
    vk: HyperPlonkVerifyingKey,
    pi: Seq<u8>,
    p: HyperPlonkProof,
    r: Seq<Seq<u8>>,
) -> bool {
    &&& r.len() == 3
    &&& forall|k: int|
        0 <= k < 3 ==> hash_on(b, Kind::Keccak256, #[trigger] hyperplonk_queries(vk, pi, p, r)[k])
            == Ok::<Seq<u8>, OnChainError>(r[k])
}

/// on.
pub fn derive_challenges<'b, B: SyscallBackend + ?Sized>(
    backend: &'b B,
    vk: &HyperPlonkVerifyingKey,
    public_inputs_bytes: &[u8],
    proof: &HyperPlonkProof,
) -> (res: Result<(PreSumcheckChallenges, Transcript<'b, B>), OnChainError>)
    ensures
        public_inputs_bytes@.len() % 32 != 0 ==> res is Err && res->Err_0
            == OnChainError::ProofLengthMismatch,
        public_inputs_bytes@.len() % 32 == 0 && public_inputs_bytes@.len() / 32 != vk.n_public
            ==> res is Err && res->Err_0 == OnChainError::PublicInputCountMismatch,
        public_inputs_bytes@.len() % 32 == 0 && public_inputs_bytes@.len() / 32 == vk.n_public
            && !instances_ok(public_inputs_bytes@, vk.n_public as nat) ==> res is Err
            && res->Err_0 == OnChainError::PublicInputOutOfRange,
        public_inputs_bytes@.len() % 32 == 0 && public_inputs_bytes@.len() / 32 == vk.n_public
            && instances_ok(public_inputs_bytes@, vk.n_public as nat) ==> match hyperplonk_rounds(
            backend,
            *vk,
            public_inputs_bytes@,
            *proof,
        ) {
            Ok(r) => res matches Ok((c, t)) && t.replies() == r,
            Err(e) => res is Err && res->Err_0 == e,
        },
        res matches Ok((c, t)) ==> {
            let r = t.replies();
            &&& instances_ok(public_inputs_bytes@, vk.n_public as nat)
            &&& t.kind() == Kind::Keccak256
            &&& r.len() == 3
            &&& t.queries() == hyperplonk_queries(*vk, public_inputs_bytes@, *proof, r)
            &&& t.backend() == backend
            &&& hyperplonk_replies(backend, *vk, public_inputs_bytes@, *proof, r)
            &&& c.beta@ == be_nat(r[0]) % fr_modulus()
            &&& c.gamma@ == be_nat(r[1]) % fr_modulus()
            &&& c.alpha@ == be_nat(r[2]) % fr_modulus()
            &&& t.buffer() == challenge_bytes(r[2])
        },
{
    check_instances(public_inputs_bytes, vk.n_public)?;
    let mut t = Transcript::new(Kind::Keccak256, backend);
    // β
    t.absorb(&vk.x2_g2);
    t.absorb(&u32_to_le_bytes(vk.n_public));
    t.absorb(&u32_to_le_bytes(vk.num_variables));
    let commits = vk.commits_iter();
    let mut i: usize = 0;
    let ghost start = t.buffer();
    while i < commits.len()
        invariant
            0 <= i <= commits@.len(),
            commits@.len() == 8,
            forall|j: int| 0 <= j < 8 ==> (#[trigger] commits@[j])@ == vk_commits(*vk)[j],
            t.buffer() == start + vk_commits(*vk).take(i as int).fold_left(
                Seq::<u8>::empty(),
                |acc: Seq<u8>, x: Seq<u8>| acc + x,
            ),
            t.queries() == Seq::<Seq<u8>>::empty(),
            t.replies() == Seq::<Seq<u8>>::empty(),
            t.backend() == backend,
            t.kind() == Kind::Keccak256,
        decreases commits@.len() - i,
    {
        let ghost before = t.buffer();
        t.absorb(commits[i]);
        proof {
            let c = vk_commits(*vk);
            assert(c.take(i + 1).drop_last() =~= c.take(i as int));
            assert(c.take(i + 1).last() == c[i as int]);
        }
        i = i + 1;
    }
    t.absorb(public_inputs_bytes);
    t.absorb(proof.a);
    t.absorb(proof.b);
    t.absorb(proof.c);
    let ghost q0 = t.buffer();
    proof {
        let c = vk_commits(*vk);
        reveal_with_fuel(vstd::seq::Seq::fold_left, 9);
        assert(c.take(8) =~= c);
        assert(q0 =~= vk_round_bytes(*vk) + public_inputs_bytes@ + proof.a@ + proof.b@ + proof.c@);
    }
    let (beta_bytes, beta) = t.challenge_fr()?;
    let ghost a0 = t.replies().last();
    // γ
    t.reset();
    t.absorb(&beta_bytes);
    let ghost q1 = t.buffer();
    proof {
        assert(q1 =~= challenge_bytes(a0));
    }
    let (gamma_bytes, gamma) = t.challenge_fr()?;
    let ghost a1 = t.replies().last();
    // α
    t.reset();
    t.absorb(&beta_bytes);
    t.absorb(&gamma_bytes);
    t.absorb(proof.z);
    let ghost q2 = t.buffer();
    proof {
        assert(q2 =~= challenge_bytes(a0) + challenge_bytes(a1) + proof.z@);
    }
    let (alpha_bytes, alpha) = t.challenge_fr()?;
    let ghost a2 = t.replies().last();
    t.reset();
    t.absorb(&alpha_bytes);
    proof {
        let c = vk_commits(*vk);
        reveal_with_fuel(vstd::seq::Seq::fold_left, 9);
        assert(c.take(8) =~= c);
        assert(t.replies() =~= seq![a0, a1, a2]);
        assert(t.queries() =~= seq![q0, q1, q2]);
        assert(q0 =~= vk_round_bytes(*vk) + public_inputs_bytes@ + proof.a@ + proof.b@ + proof.c@);
        assert(q2 =~= challenge_bytes(a0) + challenge_bytes(a1) + proof.z@);
        assert(t.buffer() =~= challenge_bytes(a2));
        let qs = hyperplonk_queries(*vk, public_inputs_bytes@, *proof, t.replies());
        assert(qs == seq![q0, q1, q2]);
        assert forall|k: int| 0 <= k < 3 implies hash_on(
            backend,
            Kind::Keccak256,
            #[trigger] qs[k],
        ) == Ok::<Seq<u8>, OnChainError>(t.replies()[k]) by {
            if k == 0 {} else if k == 1 {} else {}
        }
    }
    Ok((PreSumcheckChallenges { beta, gamma, alpha }, t))
}

} // verus!

verus! {

/// The grand-product commitment `Z` enters the transcript only in the α
/// round: proofs that share their wire commitments share the β and γ
/// rounds (for the same earlier replies).
pub proof fn lemma_z_enters_at_alpha(
    vk: HyperPlonkVerifyingKey,
    pi: Seq<u8>,
    p1: HyperPlonkProof,
    p2: HyperPlonkProof,
    r: Seq<Seq<u8>>,
)
    requires
        p1.a@ == p2.a@,
        p1.b@ == p2.b@,
        p1.c@ == p2.c@,
    ensures
        hyperplonk_queries(vk, pi, p1, r)[0] == hyperplonk_queries(vk, pi, p2, r)[0],
        hyperplonk_queries(vk, pi, p1, r)[1] == hyperplonk_queries(vk, pi, p2, r)[1],
{
}

} // verus!
