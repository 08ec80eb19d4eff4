//! The HyperPlonk verifier: parse, derive `(β, γ, α)`, run the zero-check
//! sumcheck from claim 0, compare its final claim with the combined gate
//! and permutation value of the final evaluations, then check the batched
//! KZG opening at the last sumcheck challenge.
use vstd::prelude::*;
use crate::bytes::le_u32;
use crate::error::OnChainError;
use crate::field::{add_fe, fe, mul_fe, sub_fe, val, Fr};
use crate::halo2::challenges::instances_ok;
use crate::halo2::circuit::{gate_value, grand_factor, SelectorEvals, WireEvals};
use crate::hyperplonk::canonical::{
    proof_accepts, proof_layout, proof_rounds, vk_layout, HyperPlonkProof, HyperPlonkVerifyingKey,
};
use crate::hyperplonk::challenges::{
    derive_challenges, hyperplonk_replies, hyperplonk_rounds, lemma_replies_are_rounds,
    PreSumcheckChallenges,
};
use crate::hyperplonk::kzg::{
    batched_opening_outcome, batched_opening_spec, opened_commits, verify_batched_opening,
};
use crate::hyperplonk::sumcheck::{
    challenges_from, claim_before, round_ok, round_queries, rounds_answered, sumcheck_passes,
    verify_sumcheck,
};
use crate::transcript::{challenge_bytes, hash_on, Kind};
use crate::bytes::be_nat;
use crate::fr::fr_modulus;
use crate::proof_system::ProofSystemId;
use crate::slots::{decode_slots, slot, slot_values, slots_ok};
use crate::syscall::SyscallBackend;

verus! {

/// Permutation term with identity cosets 1, 2, 3:
/// `z·[(a + β + γ)(b + 2β + γ)(c + 3β + γ) − (a + β·σ1 + γ)(b + β·σ2 + γ)(c + β·σ3 + γ)]`.
pub open spec fn hp_perm_value(v: Seq<nat>, beta: int, gamma: int) -> int {
    let (a, b, c, z) = (v[0] as int, v[1] as int, v[2] as int, v[3] as int);
    let (s1, s2, s3) = (v[9] as int, v[10] as int, v[11] as int);
    z * ((a + beta * 1 + gamma) * (b + beta * 2 + gamma) * (c + beta * 3 + gamma) - (a + beta
        * s1 + gamma) * (b + beta * s2 + gamma) * (c + beta * s3 + gamma))
}

/// Selector polynomial `q_M·a·b + q_L·a + q_R·b + q_O·c + q_C` at the final evaluations `v` (order of
/// `final_evals_index`).
pub open spec fn hp_gate_value(v: Seq<nat>) -> int {
    (v[4] * v[0] * v[1] + v[5] * v[0] + v[6] * v[1] + v[7] * v[2] + v[8]) as int
}

/// `α·gate + perm` over the field.
pub open spec fn expected_claim(v: Seq<nat>, ch: PreSumcheckChallenges) -> nat {
    fe(val(ch.alpha) * fe(hp_gate_value(v)) + fe(hp_perm_value(v, val(ch.beta), val(ch.gamma))))
}

/// The univariate opening point: the last of the `n` sumcheck challenges
/// `xs`, or zero when there is no round.
pub open spec fn last_point(xs: Seq<nat>, n: nat) -> nat {
    if n > 0 {
        xs[n - 1]
    } else {
        0
    }
}

/// What an accepted proof satisfies: `vk` and `p` are the parsed key and
/// proof, `r` the backend's replies to the three challenge rounds, then to
/// the sumcheck rounds, then to the opening round; `ch` the challenges the
/// first three give; every round polynomial sums to its claim, the claim
/// the sumcheck ends on is the one the final evaluations give, and the
/// backend accepts the batched opening of the twelve commitments at the
/// last sumcheck challenge, batched with ν from the opening round.
pub open spec fn hyperplonk_accepted<B: SyscallBackend + ?Sized>(
    b: &B,
    vk_bytes: Seq<u8>,
    proof_bytes: Seq<u8>,
    pi: Seq<u8>,
    vk: HyperPlonkVerifyingKey,
    p: HyperPlonkProof,
    r: Seq<Seq<u8>>,
    ch: PreSumcheckChallenges,
) -> bool {
    let n = p.sumcheck_rounds as nat;
    let polys = p.sumcheck_polys@;
    let xs = challenges_from(r, 3, n);
    let m = fr_modulus();
    &&& vk_layout(vk, vk_bytes)
    &&& proof_layout(p, proof_bytes)
    &&& r.len() == 3 + n + 1
    &&& hyperplonk_replies(b, vk, pi, p, r.take(3))
    &&& rounds_answered(b, Kind::Keccak256, round_queries(challenge_bytes(r[2]), polys, n), r, 3)
    &&& ch.beta@ == be_nat(r[0]) % m
    &&& ch.gamma@ == be_nat(r[1]) % m
    &&& ch.alpha@ == be_nat(r[2]) % m
    &&& forall|j: int| 0 <= j < n ==> #[trigger] round_ok(0, polys, xs, j)
    &&& claim_before(0, polys, xs, n as int) == expected_claim(final_values(p.final_evals@), ch)
    &&& hash_on(b, Kind::Keccak256, challenge_bytes(r[2]) + polys + p.final_evals@) == Ok::<
        Seq<u8>,
        OnChainError,
    >(r[(3 + n) as int])
    &&& batched_opening_spec(
        b,
        opened_commits(vk, p),
        slot_values(p.final_evals@, 12),
        be_nat(r[(3 + n) as int]) % m,
        last_point(xs, n),
        p.kzg_opening@,
        vk.x2_g2@,
    ) == Ok::<(), OnChainError>(())
}

/// Two keys agree on the fields the transcript and the opening read.
pub open spec fn vk_commits_views_equal(a: HyperPlonkVerifyingKey, b: HyperPlonkVerifyingKey) -> bool {
    &&& a.x2_g2@ == b.x2_g2@
    &&& a.n_public == b.n_public
    &&& a.num_variables == b.num_variables
    &&& a.q_m_g1@ == b.q_m_g1@
    &&& a.q_l_g1@ == b.q_l_g1@
    &&& a.q_r_g1@ == b.q_r_g1@
    &&& a.q_o_g1@ == b.q_o_g1@
    &&& a.q_c_g1@ == b.q_c_g1@
    &&& a.sigma_1_g1@ == b.sigma_1_g1@
    &&& a.sigma_2_g1@ == b.sigma_2_g1@
    &&& a.sigma_3_g1@ == b.sigma_3_g1@
}

/// An accepted proof's witnesses read as the parsed key and proof: the
/// challenge rounds come out as the witness replies.
proof fn lemma_accepted_rounds<B: SyscallBackend + ?Sized>(
    b: &B,
    vk_bytes: Seq<u8>,
    proof_bytes: Seq<u8>,
    pi: Seq<u8>,
    vk: HyperPlonkVerifyingKey,
    p: HyperPlonkProof,
    wvk: HyperPlonkVerifyingKey,
    wp: HyperPlonkProof,
    wr: Seq<Seq<u8>>,
    wch: PreSumcheckChallenges,
)
    requires
        vk_layout(vk, vk_bytes),
        proof_layout(p, proof_bytes),
        hyperplonk_accepted(b, vk_bytes, proof_bytes, pi, wvk, wp, wr, wch),
    ensures
        hyperplonk_rounds(b, vk, pi, p) == Ok::<Seq<Seq<u8>>, OnChainError>(wr.take(3)),
        vk_commits_views_equal(wvk, vk),
        wvk.x2_g2@ == vk.x2_g2@,
        wp.a@ == p.a@ && wp.b@ == p.b@ && wp.c@ == p.c@ && wp.z@ == p.z@,
        wp.sumcheck_rounds == p.sumcheck_rounds,
        wp.sumcheck_polys@ == p.sumcheck_polys@,
        wp.final_evals@ == p.final_evals@,
        wp.kzg_opening@ == p.kzg_opening@,
{
    lemma_replies_are_rounds(b, wvk, pi, wp, wr.take(3));
    assert(crate::hyperplonk::canonical::vk_commits(wvk) =~= crate::hyperplonk::canonical::vk_commits(vk));
}

/// An accepted proof's sumcheck passes from claim 0 on the buffer the
/// challenge rounds leave.
proof fn lemma_accepted_sumcheck_passes<B: SyscallBackend + ?Sized>(
    b: &B,
    vk_bytes: Seq<u8>,
    proof_bytes: Seq<u8>,
    pi: Seq<u8>,
    wvk: HyperPlonkVerifyingKey,
    wp: HyperPlonkProof,
    wr: Seq<Seq<u8>>,
    wch: PreSumcheckChallenges,
)
    requires
        hyperplonk_accepted(b, vk_bytes, proof_bytes, pi, wvk, wp, wr, wch),
    ensures
        sumcheck_passes(
            b,
            Kind::Keccak256,
            challenge_bytes(wr[2]),
            wp.sumcheck_polys@,
            wp.sumcheck_rounds as nat,
            0,
        ),
{
    let n = wp.sumcheck_rounds as nat;
    let polys = wp.sumcheck_polys@;
    let rs = wr.subrange(3, 3 + n as int);
    let qs = round_queries(challenge_bytes(wr[2]), polys, n);
    assert forall|j: int| 0 <= j < qs.len() implies hash_on(
        b,
        Kind::Keccak256,
        #[trigger] qs[j],
    ) == Ok::<Seq<u8>, OnChainError>(rs[j]) by {
        assert(rs[j] == wr[3 + j]);
    }
    assert(challenges_from(rs, 0, n) =~= challenges_from(wr, 3, n));
    assert(rounds_answered(b, Kind::Keccak256, qs, rs, 0));
    assert(forall|j: int|
        0 <= j < n ==> #[trigger] round_ok(0, polys, challenges_from(rs, 0, n), j));
}

/// Two reply sequences that answer the same sumcheck rounds give the same
/// challenges.
proof fn lemma_same_sumcheck_challenges<B: SyscallBackend + ?Sized>(
    b: &B,
    base: Seq<u8>,
    polys: Seq<u8>,
    n: nat,
    r1: Seq<Seq<u8>>,
    r2: Seq<Seq<u8>>,
)
    requires
        rounds_answered(b, Kind::Keccak256, round_queries(base, polys, n), r1, 3),
        rounds_answered(b, Kind::Keccak256, round_queries(base, polys, n), r2, 3),
    ensures
        challenges_from(r1, 3, n) == challenges_from(r2, 3, n),
{
    let qs = round_queries(base, polys, n);
    assert forall|j: int| 0 <= j < n implies #[trigger] r1[3 + j] == r2[3 + j] by {
        assert(hash_on(b, Kind::Keccak256, qs[j]) == Ok::<Seq<u8>, OnChainError>(r1[3 + j]));
        assert(hash_on(b, Kind::Keccak256, qs[j]) == Ok::<Seq<u8>, OnChainError>(r2[3 + j]));
    }
    assert(challenges_from(r1, 3, n) =~= challenges_from(r2, 3, n));
}

/// For an accepted proof whose final evaluations are canonical, the opening
/// round is answered and the opening at the last sumcheck challenge passes.
proof fn lemma_accepted_opening<B: SyscallBackend + ?Sized>(
    b: &B,
    vk_bytes: Seq<u8>,
    proof_bytes: Seq<u8>,
    pi: Seq<u8>,
    vk: HyperPlonkVerifyingKey,
    p: HyperPlonkProof,
    wvk: HyperPlonkVerifyingKey,
    wp: HyperPlonkProof,
    wr: Seq<Seq<u8>>,
    wch: PreSumcheckChallenges,
    point: nat,
)
    requires
        vk_layout(vk, vk_bytes),
        proof_layout(p, proof_bytes),
        proof_accepts(proof_bytes),
        hyperplonk_accepted(b, vk_bytes, proof_bytes, pi, wvk, wp, wr, wch),
        slots_ok(p.final_evals@, 12),
        point == last_point(challenges_from(wr, 3, p.sumcheck_rounds as nat), p.sumcheck_rounds as nat),
    ensures
        hash_on(b, Kind::Keccak256, challenge_bytes(wr[2]) + p.sumcheck_polys@ + p.final_evals@)
            == Ok::<Seq<u8>, OnChainError>(wr[(3 + p.sumcheck_rounds) as int]),
        batched_opening_outcome(
            b,
            vk,
            p,
            be_nat(wr[(3 + p.sumcheck_rounds) as int]) % fr_modulus(),
            point,
        ) == Ok::<(), OnChainError>(()),
{
    assert(crate::hyperplonk::canonical::vk_commits(wvk) =~= crate::hyperplonk::canonical::vk_commits(vk));
    assert(opened_commits(wvk, wp) =~= opened_commits(vk, p));
    assert(p.a@.len() == 64 && p.b@.len() == 64 && p.c@.len() == 64 && p.z@.len() == 64);
}

/// An accepted proof is opened at the challenge the whole sumcheck
/// transcript gives: with at least one round, the opening point is the
/// reduction of the backend's reply to the α challenge followed by every
/// round polynomial, and the batched opening at that point passes.
pub proof fn lemma_accepted_opening_point<B: SyscallBackend + ?Sized>(
    b: &B,
    vk_bytes: Seq<u8>,
    proof_bytes: Seq<u8>,
    pi: Seq<u8>,
    vk: HyperPlonkVerifyingKey,
    p: HyperPlonkProof,
    r: Seq<Seq<u8>>,
    ch: PreSumcheckChallenges,
)
    requires
        proof_accepts(proof_bytes),
        hyperplonk_accepted(b, vk_bytes, proof_bytes, pi, vk, p, r, ch),
        p.sumcheck_rounds > 0,
    ensures
        ({
            let n = p.sumcheck_rounds as int;
            let polys = p.sumcheck_polys@;
            &&& hash_on(b, Kind::Keccak256, challenge_bytes(r[2]) + polys) == Ok::<
                Seq<u8>,
                OnChainError,
            >(r[2 + n])
            &&& batched_opening_spec(
                b,
                opened_commits(vk, p),
                slot_values(p.final_evals@, 12),
                be_nat(r[3 + n]) % fr_modulus(),
                be_nat(r[2 + n]) % fr_modulus(),
                p.kzg_opening@,
                vk.x2_g2@,
            ) == Ok::<(), OnChainError>(())
        }),
{
    let n = p.sumcheck_rounds as int;
    let polys = p.sumcheck_polys@;
    let qs = round_queries(challenge_bytes(r[2]), polys, n as nat);
    assert(polys.len() == 96 * n);
    assert(qs[n - 1] == challenge_bytes(r[2]) + polys.subrange(0, 96 * n));
    assert(polys.subrange(0, 96 * n) =~= polys);
    assert(hash_on(b, Kind::Keccak256, qs[n - 1]) == Ok::<Seq<u8>, OnChainError>(r[3 + (n - 1)]));
    assert(challenges_from(r, 3, n as nat)[n - 1] == be_nat(r[3 + (n - 1)]) % fr_modulus());
}

/// The values of the first twelve evaluations.
pub open spec fn final_values(b: Seq<u8>) -> Seq<nat> {
    Seq::new(12, |i: int| slot(b, i))
}

/// The claim the sumcheck must end on, from the twelve final evaluations.
///
/// The evaluations are read in order; the first that is missing (the
/// buffer is shorter than 384 bytes) is a length error, the first at or
/// above `r` a range error.
pub fn compute_expected_final_claim(final_evals_bytes: &[u8], challenges: &PreSumcheckChallenges)
    -> (res: Result<Fr, OnChainError>)
    ensures
        res is Ok <==> (final_evals_bytes@.len() >= 384 && slots_ok(final_evals_bytes@, 12)),
        res matches Ok(v) ==> v@ == expected_claim(final_values(final_evals_bytes@), *challenges),
        res is Err && (exists|i: int|
            0 <= i < 12 && 32 * (i + 1) <= final_evals_bytes@.len() && #[trigger] slot(
                final_evals_bytes@,
                i,
            ) >= crate::fr::fr_modulus()) ==> res == Err::<Fr, OnChainError>(
            OnChainError::PublicInputOutOfRange,
        ),
        res is Err && !(exists|i: int|
            0 <= i < 12 && 32 * (i + 1) <= final_evals_bytes@.len() && #[trigger] slot(
                final_evals_bytes@,
                i,
            ) >= crate::fr::fr_modulus()) ==> res == Err::<Fr, OnChainError>(
            OnChainError::ProofLengthMismatch,
        ),
{
    let mut vals: Vec<Fr> = Vec::new();
    let mut i: usize = 0;
    let _n = final_evals_bytes.len();
    while i < 12
        invariant
            0 <= i <= 12,
            final_evals_bytes@.len() <= usize::MAX,
            32 * i <= final_evals_bytes@.len(),
            vals@.len() == i,
            forall|j: int| 0 <= j < i ==> (#[trigger] vals@[j])@ == slot(final_evals_bytes@, j),
            forall|j: int| 0 <= j < i ==> #[trigger] slot(final_evals_bytes@, j) < crate::fr::fr_modulus(),
        decreases 12 - i,
    {
        if final_evals_bytes.len() < 32 * i + 32 {
            proof {
                assert forall|j: int|
                    0 <= j < 12 && 32 * (j + 1) <= final_evals_bytes@.len() implies #[trigger] slot(
                    final_evals_bytes@,
                    j,
                ) < crate::fr::fr_modulus() by {
                    assert(j < i);
                }
            }
            return Err(OnChainError::ProofLengthMismatch);
        }
        let w = crate::bytes::window(final_evals_bytes, 32 * i, 32 * i + 32);
        match Fr::from_canonical_bytes(w) {
            Ok(f) => {
                vals.push(f);
            },
            Err(_) => {
                proof {
                    assert(!(slot(final_evals_bytes@, i as int) < crate::fr::fr_modulus()));
                }
                return Err(OnChainError::PublicInputOutOfRange);
            },
        }
        i = i + 1;
    }
    let ghost v = final_values(final_evals_bytes@);
    proof {
        assert forall|j: int| 0 <= j < 12 implies (#[trigger] vals@[j])@ == v[j] by {}
    }
    let wires = WireEvals { a: vals[0], b: vals[1], c: vals[2] };
    let z = vals[3];
    let selectors = SelectorEvals { q_m: vals[4], q_l: vals[5], q_r: vals[6], q_o: vals[7], q_c: vals[8] };
    let gate = crate::halo2::circuit::gate_expr(&wires, &selectors);
    let perm = permutation_term(&wires, &z, &vals[9], &vals[10], &vals[11], &challenges.beta, &challenges.gamma);
    let ghost (g, p) = (val(gate), val(perm));
    proof {
        crate::field::lemma_fe_idem(hp_gate_value(v));
        crate::field::lemma_fe_idem(hp_perm_value(v, val(challenges.beta), val(challenges.gamma)));
    }
    let t = mul_fe(&challenges.alpha, &gate, Ghost(val(challenges.alpha)), Ghost(g));
    let r = add_fe(&t, &perm, Ghost(val(challenges.alpha) * g), Ghost(p));
    proof {
        assert(gate@ == fe(hp_gate_value(v)));
    }
    Ok(r)
}

/// `z·[(a + β + γ)(b + 2β + γ)(c + 3β + γ) − (a + β·σ1 + γ)(b + β·σ2 + γ)(c + β·σ3 + γ)]`.
fn permutation_term(
    wires: &WireEvals,
    z: &Fr,
    sigma_1: &Fr,
    sigma_2: &Fr,
    sigma_3: &Fr,
    beta: &Fr,
    gamma: &Fr,
) -> (res: Fr)
    ensures
        res@ == fe(hp_perm_value(
            seq![wires.a@, wires.b@, wires.c@, z@, 0, 0, 0, 0, 0, sigma_1@, sigma_2@, sigma_3@],
            val(*beta),
            val(*gamma),
        )),
{
    let ghost (a, b, c) = (val(wires.a), val(wires.b), val(wires.c));
    let ghost (bi, gi) = (val(*beta), val(*gamma));
    let one = Fr::one();
    let two = Fr::from_u64(2);
    let three = Fr::from_u64(3);
    proof {
        crate::field::lemma_fe_small(1);
        crate::field::lemma_fe_small(2);
        crate::field::lemma_fe_small(3);
    }
    let i1 = grand_factor(&wires.a, beta, &one, gamma, Ghost(a), Ghost(bi), Ghost(1), Ghost(gi));
    let i2 = grand_factor(&wires.b, beta, &two, gamma, Ghost(b), Ghost(bi), Ghost(2), Ghost(gi));
    let i3 = grand_factor(&wires.c, beta, &three, gamma, Ghost(c), Ghost(bi), Ghost(3), Ghost(gi));
    let ghost (f1, f2, f3) = (a + bi * 1 + gi, b + bi * 2 + gi, c + bi * 3 + gi);
    let id = mul_fe(&i1, &i2, Ghost(f1), Ghost(f2));
    let id = mul_fe(&id, &i3, Ghost(f1 * f2), Ghost(f3));
    let s1 = grand_factor(&wires.a, beta, sigma_1, gamma, Ghost(a), Ghost(bi), Ghost(val(*sigma_1)), Ghost(gi));
    let s2 = grand_factor(&wires.b, beta, sigma_2, gamma, Ghost(b), Ghost(bi), Ghost(val(*sigma_2)), Ghost(gi));
    let s3 = grand_factor(&wires.c, beta, sigma_3, gamma, Ghost(c), Ghost(bi), Ghost(val(*sigma_3)), Ghost(gi));
    let ghost (e1, e2, e3) = (
        a + bi * val(*sigma_1) + gi,
        b + bi * val(*sigma_2) + gi,
        c + bi * val(*sigma_3) + gi,
    );
    let sg = mul_fe(&s1, &s2, Ghost(e1), Ghost(e2));
    let sg = mul_fe(&sg, &s3, Ghost(e1 * e2), Ghost(e3));
    let d = sub_fe(&id, &sg, Ghost(f1 * f2 * f3), Ghost(e1 * e2 * e3));
    mul_fe(z, &d, Ghost(val(*z)), Ghost(f1 * f2 * f3 - e1 * e2 * e3))
}

/// The HyperPlonk verifier over a backend.
pub struct HyperPlonkKzgBn254<'a, B: SyscallBackend + ?Sized> {
    backend: &'a B,
}

impl<'a, B: SyscallBackend + ?Sized> HyperPlonkKzgBn254<'a, B> {
    /// A verifier over `backend`.
    pub fn new(backend: &'a B) -> (v: Self)
        ensures
            v.backend() == backend,
    {
        HyperPlonkKzgBn254 { backend }
    }

    /// The backend.
    pub closed spec fn backend(&self) -> &'a B {
        self.backend
    }

    /// This verifier's proof system.
    pub fn proof_system_id(&self) -> (id: ProofSystemId)
        ensures
            id == ProofSystemId::HyperPlonkKzgBn254,
    {
        ProofSystemId::HyperPlonkKzgBn254
    }

    /// Compute-unit estimate: the budget upper bound.
    pub fn estimated_compute_units(&self, vk: &[u8], proof: &[u8]) -> (res: Option<u32>)
        ensures
            res == Some(900_000u32),
    {
        Some(900_000)
    }

    /// Verify a HyperPlonk proof against a key and public inputs.
    ///
    /// A key or proof that does not parse is a length error of that
    /// buffer; a key whose `num_variables` differs from the proof's round
    /// count is a mismatch; the challenge, sumcheck, claim and opening steps
    /// report theirs.
    #[verifier::rlimit(40)]
    pub fn verify(&self, vk_bytes: &[u8], proof_bytes: &[u8], public_inputs_bytes: &[u8]) -> (res:
        Result<(), OnChainError>)
        ensures
            vk_bytes@.len() != 744 ==> res == Err::<(), OnChainError>(
                OnChainError::VerifyingKeyLengthMismatch,
            ),
            vk_bytes@.len() == 744 && !proof_accepts(proof_bytes@) ==> res == Err::<
                (),
                OnChainError,
            >(OnChainError::ProofLengthMismatch),
            vk_bytes@.len() == 744 && proof_accepts(proof_bytes@) && le_u32(
                vk_bytes@.subrange(4, 8),
            ) != proof_rounds(proof_bytes@) ==> res == Err::<(), OnChainError>(
                OnChainError::VerifyingKeyProofMismatch,
            ),
            vk_bytes@.len() == 744 && proof_accepts(proof_bytes@) && le_u32(
                vk_bytes@.subrange(4, 8),
            ) == proof_rounds(proof_bytes@) ==> {
                let n = le_u32(vk_bytes@.subrange(0, 4));
                let pi = public_inputs_bytes@;
                &&& pi.len() % 32 != 0 ==> res == Err::<(), OnChainError>(
                    OnChainError::ProofLengthMismatch,
                )
                &&& pi.len() % 32 == 0 && pi.len() / 32 != n ==> res == Err::<(), OnChainError>(
                    OnChainError::PublicInputCountMismatch,
                )
                &&& pi.len() % 32 == 0 && pi.len() / 32 == n && !instances_ok(pi, n) ==> res
                    == Err::<(), OnChainError>(OnChainError::PublicInputOutOfRange)
            },
            res is Ok ==> {
                &&& vk_bytes@.len() == 744
                &&& proof_accepts(proof_bytes@)
                &&& le_u32(vk_bytes@.subrange(4, 8)) == proof_rounds(proof_bytes@)
                &&& instances_ok(public_inputs_bytes@, le_u32(vk_bytes@.subrange(0, 4)))
                &&& slots_ok(
                    proof_bytes@.subrange(
                        (260 + 96 * proof_rounds(proof_bytes@)) as int,
                        (644 + 96 * proof_rounds(proof_bytes@)) as int,
                    ),
                    12,
                )
            },
            (vk_bytes@.len() == 744 && proof_accepts(proof_bytes@) && le_u32(
                vk_bytes@.subrange(4, 8),
            ) == proof_rounds(proof_bytes@) && instances_ok(
                public_inputs_bytes@,
                le_u32(vk_bytes@.subrange(0, 4)),
            ) && slots_ok(
                proof_bytes@.subrange(
                    (260 + 96 * proof_rounds(proof_bytes@)) as int,
                    (644 + 96 * proof_rounds(proof_bytes@)) as int,
                ),
                12,
            ) && exists|
                vk: HyperPlonkVerifyingKey,
                p: HyperPlonkProof,
                r: Seq<Seq<u8>>,
                ch: PreSumcheckChallenges,
            |
                #[trigger] hyperplonk_accepted(
                    self.backend(),
                    vk_bytes@,
                    proof_bytes@,
                    public_inputs_bytes@,
                    vk,
                    p,
                    r,
                    ch,
                )) ==> res is Ok,
            res is Ok ==> exists|
                vk: HyperPlonkVerifyingKey,
                p: HyperPlonkProof,
                r: Seq<Seq<u8>>,
                ch: PreSumcheckChallenges,
            |
                #[trigger] hyperplonk_accepted(
                    self.backend(),
                    vk_bytes@,
                    proof_bytes@,
                    public_inputs_bytes@,
                    vk,
                    p,
                    r,
                    ch,
                ),
    {
        let vk = HyperPlonkVerifyingKey::from_bytes(vk_bytes)?;
        let proof = HyperPlonkProof::from_bytes(proof_bytes)?;
        if vk.num_variables != proof.sumcheck_rounds {
            return Err(OnChainError::VerifyingKeyProofMismatch);
        }
        let ghost good = instances_ok(public_inputs_bytes@, vk.n_public as nat) && slots_ok(
            proof.final_evals@,
            12,
        ) && exists|
            wvk: HyperPlonkVerifyingKey,
            wp: HyperPlonkProof,
            wr: Seq<Seq<u8>>,
            wch: PreSumcheckChallenges,
        |
            #[trigger] hyperplonk_accepted(
                self.backend(),
                vk_bytes@,
                proof_bytes@,
                public_inputs_bytes@,
                wvk,
                wp,
                wr,
                wch,
            );
        let ghost (wvk, wp, wr, wch) = choose|
            wvk: HyperPlonkVerifyingKey,
            wp: HyperPlonkProof,
            wr: Seq<Seq<u8>>,
            wch: PreSumcheckChallenges,
        |
            #[trigger] hyperplonk_accepted(
                self.backend(),
                vk_bytes@,
                proof_bytes@,
                public_inputs_bytes@,
                wvk,
                wp,
                wr,
                wch,
            );
        let ghost n = proof.sumcheck_rounds as nat;
        proof {
            if good {
                lemma_accepted_rounds(
                    self.backend,
                    vk_bytes@,
                    proof_bytes@,
                    public_inputs_bytes@,
                    vk,
                    proof,
                    wvk,
                    wp,
                    wr,
                    wch,
                );
            }
        }
        let (challenges, mut transcript) = derive_challenges(self.backend, &vk, public_inputs_bytes, &proof)?;
        let zero = Fr::zero();
        let ghost r3 = transcript.replies();
        proof {
            if good {
                lemma_accepted_sumcheck_passes(
                    self.backend,
                    vk_bytes@,
                    proof_bytes@,
                    public_inputs_bytes@,
                    wvk,
                    wp,
                    wr,
                    wch,
                );
            }
        }
        let out = verify_sumcheck(&mut transcript, &zero, proof.sumcheck_polys, proof.sumcheck_rounds)?;
        let ghost r_all = transcript.replies();
        proof {
            if good {
                lemma_same_sumcheck_challenges(
                    self.backend,
                    challenge_bytes(wr[2]),
                    proof.sumcheck_polys@,
                    n,
                    r_all,
                    wr,
                );
            }
        }
        let expected = compute_expected_final_claim(proof.final_evals, &challenges)?;
        proof {
            crate::field::lemma_fr_eq(expected, out.final_claim);
            if good {
                assert(r3 == wr.take(3));
                assert(challenges.beta@ == wch.beta@ && challenges.gamma@ == wch.gamma@
                    && challenges.alpha@ == wch.alpha@);
                assert(expected@ == out.final_claim@);
            }
        }
        if expected != out.final_claim {
            return Err(OnChainError::SumcheckFailed);
        }
        let univ_point = if out.challenges.len() > 0 {
            out.challenges[out.challenges.len() - 1]
        } else {
            Fr::zero()
        };
        proof {
            let xs = challenges_from(r_all, 3, proof.sumcheck_rounds as nat);
            assert(univ_point@ == last_point(xs, proof.sumcheck_rounds as nat));
            assert(transcript.buffer() == challenge_bytes(r3[2]) + proof.sumcheck_polys@);
        }
        proof {
            if good {
                lemma_accepted_opening(
                    self.backend,
                    vk_bytes@,
                    proof_bytes@,
                    public_inputs_bytes@,
                    vk,
                    proof,
                    wvk,
                    wp,
                    wr,
                    wch,
                    univ_point@,
                );
            }
        }
        verify_batched_opening(self.backend, &mut transcript, &vk, &proof, &univ_point)?;
        proof {
            let r_fin = transcript.replies();
            let n = proof.sumcheck_rounds as nat;
            assert(r_fin.take(3) =~= r3);
            assert(r_fin.take((3 + n) as int) =~= r_all);
            assert(challenges_from(r_fin, 3, n) =~= challenges_from(r_all, 3, n));
            assert(hyperplonk_accepted(
                self.backend(),
                vk_bytes@,
                proof_bytes@,
                public_inputs_bytes@,
                vk,
                proof,
                r_fin,
                challenges,
            ));
        }
        Ok(())
    }
}

} // verus!
