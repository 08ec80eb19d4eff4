//! PLONK Fiat–Shamir challenges, each from a fresh Keccak-256 round in
//! the snarkjs order:
//!
//! ```text
//! β: Qm ‖ Ql ‖ Qr ‖ Qo ‖ Qc ‖ S1 ‖ S2 ‖ S3 ‖ public inputs ‖ A ‖ B ‖ C
//! γ: β
//! α: β ‖ γ ‖ Z
//! ξ: α ‖ T1 ‖ T2 ‖ T3
//! v: ξ ‖ a(ξ) ‖ b(ξ) ‖ c(ξ) ‖ s1(ξ) ‖ s2(ξ) ‖ z(ξω)
//! u: W_ξ ‖ W_ξω
//! ```
//!
//! The last round does not absorb `v`.
use vstd::prelude::*;
use crate::error::OnChainError;
use crate::halo2::challenges::{check_instances, instances_ok};
use crate::plonk::canonical::{PlonkProof, PlonkVerifyingKey};
use crate::syscall::SyscallBackend;
use crate::transcript::{challenge_bytes, hash_on, Kind, Transcript};

verus! {

/// The six challenges of a PLONK proof, as canonical big-endian scalars.
#[derive(Clone, Copy, Debug, PartialEq, Eq)]
pub struct RoundChallenges {
    /// Permutation challenge β.
    pub beta: [u8; 32],
    /// Permutation challenge γ.
    pub gamma: [u8; 32],
    /// Quotient separation α.
    pub alpha: [u8; 32],
    /// Evaluation point ξ.
    pub xi: [u8; 32],
    /// Linearization batching `v`.
    pub v: [u8; 32],
    /// Opening batching `u`.
    pub u: [u8; 32],
}

/// The key's contribution to the first round.
pub open spec fn vk_round_bytes(vk: PlonkVerifyingKey) -> Seq<u8> {
    vk.qm_g1@ + vk.ql_g1@ + vk.qr_g1@ + vk.qo_g1@ + vk.qc_g1@ + vk.s1_g1@ + vk.s2_g1@ + vk.s3_g1@
}

/// The six transcript rounds, given the hash replies `r`.
pub open spec fn plonk_queries(
    vk: PlonkVerifyingKey,
    pi: Seq<u8>,
    p: PlonkProof,
    r: Seq<Seq<u8>>,
) -> Seq<Seq<u8>> {
    seq![
        vk_round_bytes(vk) + pi + p.a@ + p.b@ + p.c@,
        challenge_bytes(r[0]),
        challenge_bytes(r[0]) + challenge_bytes(r[1]) + p.z@,
        challenge_bytes(r[2]) + p.t1@ + p.t2@ + p.t3@,
        challenge_bytes(r[3]) + p.eval_a@ + p.eval_b@ + p.eval_c@ + p.eval_s1@ + p.eval_s2@
            + p.eval_zw@,
        p.w_xi@ + p.w_xiw@,
    ]
}

/// The six rounds as the backend answers them, once the public inputs are
/// accepted. In round order, a commitment of the wrong length fails as a
/// point-encoding error and an evaluation of the wrong length as a
/// field-encoding error where its round absorbs it, and a failing hash
/// passes its error on; otherwise the result is the six replies.
pub open spec fn plonk_rounds<B: SyscallBackend + ?Sized>(
    b: &B,
    vk: PlonkVerifyingKey,
    pi: Seq<u8>,
    p: PlonkProof,
) -> Result<Seq<Seq<u8>>, OnChainError> {
    let k = Kind::Keccak256;
    if p.a@.len() != 64 || p.b@.len() != 64 || p.c@.len() != 64 {
        Err(OnChainError::InvalidPointEncoding)
    } else {
        match hash_on(b, k, vk_round_bytes(vk) + pi + p.a@ + p.b@ + p.c@) {
            Err(e) => Err(e),
            Ok(r0) => match hash_on(b, k, challenge_bytes(r0)) {
                Err(e) => Err(e),
                Ok(r1) => if p.z@.len() != 64 {
                    Err(OnChainError::InvalidPointEncoding)
                } else {
                    match hash_on(b, k, challenge_bytes(r0) + challenge_bytes(r1) + p.z@) {
                        Err(e) => Err(e),
                        Ok(r2) => if p.t1@.len() != 64 || p.t2@.len() != 64 || p.t3@.len() != 64 {
                            Err(OnChainError::InvalidPointEncoding)
                        } else {
                            match hash_on(b, k, challenge_bytes(r2) + p.t1@ + p.t2@ + p.t3@) {
                                Err(e) => Err(e),
                                Ok(r3) => if p.eval_a@.len() != 32 || p.eval_b@.len() != 32
                                    || p.eval_c@.len() != 32 || p.eval_s1@.len() != 32
                                    || p.eval_s2@.len() != 32 || p.eval_zw@.len() != 32 {
                                    Err(OnChainError::InvalidFieldEncoding)
                                } else {
                                    match hash_on(
                                        b,
                                        k,
                                        challenge_bytes(r3) + p.eval_a@ + p.eval_b@ + p.eval_c@
                                            + p.eval_s1@ + p.eval_s2@ + p.eval_zw@,
                                    ) {
                                        Err(e) => Err(e),
                                        Ok(r4) => if p.w_xi@.len() != 64 || p.w_xiw@.len() != 64 {
                                            Err(OnChainError::InvalidPointEncoding)
                                        } else {
                                            match hash_on(b, k, p.w_xi@ + p.w_xiw@) {
                                                Err(e) => Err(e),
                                                Ok(r5) => Ok(seq![r0, r1, r2, r3, r4, r5]),
                                            }
                                        },
                                    }
                                },
                            }
                        },
                    }
                },
            },
        }
    }
}

/// `r` are the backend's Keccak-256 replies to the six rounds they make.
pub open spec fn plonk_replies<B: SyscallBackend + ?Sized>(
    b: &B,
    vk: PlonkVerifyingKey,
    pi: Seq<u8>,
    p: PlonkProof,
    r: Seq<Seq<u8>>,
) -> bool {
    &&& r.len() == 6
    &&& forall|k: int|
        0 <= k < 6 ==> hash_on(b, Kind::Keccak256, #[trigger] plonk_queries(vk, pi, p, r)[k])
            == Ok::<Seq<u8>, OnChainError>(r[k])
}

/// The backend answers the rounds in one way only: two reply sequences that
/// both answer the rounds they make are the same.
pub proof fn lemma_plonk_replies_unique<B: SyscallBackend + ?Sized>(
    b: &B,
    vk: PlonkVerifyingKey,
    pi: Seq<u8>,
    p: PlonkProof,
    r1: Seq<Seq<u8>>,
    r2: Seq<Seq<u8>>,
)
    requires
        plonk_replies(b, vk, pi, p, r1),
        plonk_replies(b, vk, pi, p, r2),
    ensures
        r1 == r2,
{
    let q1 = plonk_queries(vk, pi, p, r1);
    let q2 = plonk_queries(vk, pi, p, r2);
    // A round asked the same way gets the same reply.
    assert forall|k: int| 0 <= k < 6 && #[trigger] q1[k] == q2[k] implies r1[k] == r2[k] by {
        assert(hash_on(b, Kind::Keccak256, q1[k]) == Ok::<Seq<u8>, OnChainError>(r1[k]));
        assert(hash_on(b, Kind::Keccak256, q2[k]) == Ok::<Seq<u8>, OnChainError>(r2[k]));
    }
    // Each round's query depends only on the replies before it.
    assert(q1[0] == q2[0]);
    assert(q1[1] == q2[1]);
    assert(q1[2] == q2[2]);
    assert(q1[3] == q2[3]);
    assert(q1[4] == q2[4]);
    assert(q1[5] == q2[5]);
    assert(r1 =~= r2);
}

/// Every commitment of the proof is 64 bytes and every evaluation 32.
pub open spec fn proof_shape_ok(p: PlonkProof) -> bool {
    &&& p.a@.len() == 64
    &&& p.b@.len() == 64
    &&& p.c@.len() == 64
    &&& p.z@.len() == 64
    &&& p.t1@.len() == 64
    &&& p.t2@.len() == 64
    &&& p.t3@.len() == 64
    &&& p.w_xi@.len() == 64
    &&& p.w_xiw@.len() == 64
    &&& p.eval_a@.len() == 32
    &&& p.eval_b@.len() == 32
    &&& p.eval_c@.len() == 32
    &&& p.eval_s1@.len() == 32
    &&& p.eval_s2@.len() == 32
    &&& p.eval_zw@.len() == 32
}

/// A big-endian encoding of an element of the scalar field.
pub open spec fn canonical_fr(s: Seq<u8>) -> bool {
    s.len() == 32 && crate::bytes::be_nat(s) < crate::fr::fr_modulus()
}

impl RoundChallenges {
    /// All six challenges are canonical scalars.
    pub open spec fn canonical(&self) -> bool {
        &&& canonical_fr(self.beta@)
        &&& canonical_fr(self.gamma@)
        &&& canonical_fr(self.alpha@)
        &&& canonical_fr(self.xi@)
        &&& canonical_fr(self.v@)
        &&& canonical_fr(self.u@)
    }

    /// Derive the six challenges.
    ///
    /// The public inputs must be exactly `vk.n_public` scalars: another
    /// length is a count error, a scalar at or above `r` a range error.
    /// A commitment of the wrong length is a point-encoding error and an
    /// evaluation of the wrong length a field-encoding error; hash failures
    /// are passed on.
    pub fn derive<B: SyscallBackend + ?Sized>(
        backend: &B,
        vk: &PlonkVerifyingKey,
        proof: &PlonkProof,
        public_inputs_bytes: &[u8],
    ) -> (res: Result<Self, OnChainError>)
        ensures
            public_inputs_bytes@.len() != 32 * vk.n_public ==> res == Err::<Self, OnChainError>(
                OnChainError::PublicInputCountMismatch,
            ),
            public_inputs_bytes@.len() == 32 * vk.n_public && !instances_ok(
                public_inputs_bytes@,
                vk.n_public as nat,
            ) ==> res == Err::<Self, OnChainError>(OnChainError::PublicInputOutOfRange),
            instances_ok(public_inputs_bytes@, vk.n_public as nat) && (proof.a@.len() != 64
                || proof.b@.len() != 64 || proof.c@.len() != 64) ==> res == Err::<
                Self,
                OnChainError,
            >(OnChainError::InvalidPointEncoding),
            res matches Ok(c) ==> c.canonical(),
            res is Ok ==> instances_ok(public_inputs_bytes@, vk.n_public as nat) && proof_shape_ok(
                *proof,
            ),
            public_inputs_bytes@.len() == 32 * vk.n_public && instances_ok(
                public_inputs_bytes@,
                vk.n_public as nat,
            ) ==> match plonk_rounds(backend, *vk, public_inputs_bytes@, *proof) {
                Ok(r) => res matches Ok(c) && {
                    &&& c.beta@ == challenge_bytes(r[0])
                    &&& c.gamma@ == challenge_bytes(r[1])
                    &&& c.alpha@ == challenge_bytes(r[2])
                    &&& c.xi@ == challenge_bytes(r[3])
                    &&& c.v@ == challenge_bytes(r[4])
                    &&& c.u@ == challenge_bytes(r[5])
                },
                Err(e) => res == Err::<Self, OnChainError>(e),
            },
            res matches Ok(c) ==> exists|r: Seq<Seq<u8>>|
                #[trigger] plonk_replies(backend, *vk, public_inputs_bytes@, *proof, r) && {
                    &&& c.beta@ == challenge_bytes(r[0])
                    &&& c.gamma@ == challenge_bytes(r[1])
                    &&& c.alpha@ == challenge_bytes(r[2])
                    &&& c.xi@ == challenge_bytes(r[3])
                    &&& c.v@ == challenge_bytes(r[4])
                    &&& c.u@ == challenge_bytes(r[5])
                },
    {
        let (c, t) = Self::derive_logged(backend, vk, proof, public_inputs_bytes)?;
        proof {
            assert(plonk_replies(backend, *vk, public_inputs_bytes@, *proof, t.replies()));
        }
        Ok(c)
    }

    /// [`Self::derive`], also handing back the transcript, whose log
    /// records the six rounds and the hash replies.
    pub fn derive_logged<'b, B: SyscallBackend + ?Sized>(
        backend: &'b B,
        vk: &PlonkVerifyingKey,
        proof: &PlonkProof,
        public_inputs_bytes: &[u8],
    ) -> (res: Result<(Self, Transcript<'b, B>), OnChainError>)
        ensures
            public_inputs_bytes@.len() != 32 * vk.n_public ==> res is Err && res->Err_0
                == OnChainError::PublicInputCountMismatch,
            public_inputs_bytes@.len() == 32 * vk.n_public && !instances_ok(
                public_inputs_bytes@,
                vk.n_public as nat,
            ) ==> res is Err && res->Err_0 == OnChainError::PublicInputOutOfRange,
            instances_ok(public_inputs_bytes@, vk.n_public as nat) && (proof.a@.len() != 64
                || proof.b@.len() != 64 || proof.c@.len() != 64) ==> res is Err && res->Err_0
                == OnChainError::InvalidPointEncoding,
            public_inputs_bytes@.len() == 32 * vk.n_public && instances_ok(
                public_inputs_bytes@,
                vk.n_public as nat,
            ) ==> match plonk_rounds(backend, *vk, public_inputs_bytes@, *proof) {
                Ok(r) => res matches Ok((c, t)) && t.replies() == r,
                Err(e) => res is Err && res->Err_0 == e,
            },
            res matches Ok((c, t)) ==> {
                let r = t.replies();
                &&& instances_ok(public_inputs_bytes@, vk.n_public as nat)
                &&& proof_shape_ok(*proof)
                &&& t.kind() == Kind::Keccak256
                &&& r.len() == 6
                &&& t.queries() == plonk_queries(*vk, public_inputs_bytes@, *proof, r)
                &&& t.backend() == backend
                &&& plonk_replies(backend, *vk, public_inputs_bytes@, *proof, r)
                &&& c.beta@ == challenge_bytes(r[0])
                &&& c.gamma@ == challenge_bytes(r[1])
                &&& c.alpha@ == challenge_bytes(r[2])
                &&& c.xi@ == challenge_bytes(r[3])
                &&& c.v@ == challenge_bytes(r[4])
                &&& c.u@ == challenge_bytes(r[5])
                &&& c.canonical()
            },
    {
        let len = public_inputs_bytes.len();
        let expected = match (vk.n_public as usize).checked_mul(32) {
            Some(e) => e,
            None => {
                return Err(OnChainError::PublicInputCountMismatch);
            },
        };
        if len != expected {
            return Err(OnChainError::PublicInputCountMismatch);
        }
        match check_instances(public_inputs_bytes, vk.n_public) {
            Ok(()) => {},
            Err(_) => {
                return Err(OnChainError::PublicInputOutOfRange);
            },
        }
        let mut t = Transcript::new(Kind::Keccak256, backend);
        // β
        t.absorb_g1(&vk.qm_g1)?;
        t.absorb_g1(&vk.ql_g1)?;
        t.absorb_g1(&vk.qr_g1)?;
        t.absorb_g1(&vk.qo_g1)?;
        t.absorb_g1(&vk.qc_g1)?;
        t.absorb_g1(&vk.s1_g1)?;
        t.absorb_g1(&vk.s2_g1)?;
        t.absorb_g1(&vk.s3_g1)?;
        t.absorb(public_inputs_bytes);
        t.absorb_g1(proof.a)?;
        t.absorb_g1(proof.b)?;
        t.absorb_g1(proof.c)?;
        let ghost q0 = t.buffer();
        proof {
            assert(q0 =~= vk_round_bytes(*vk) + public_inputs_bytes@ + proof.a@ + proof.b@
                + proof.c@);
        }
        let beta = t.get_challenge()?;
        let ghost a0 = t.replies().last();
        // γ
        t.reset();
        t.absorb_fr(&beta)?;
        let ghost q1 = t.buffer();
        proof {
            assert(q1 =~= challenge_bytes(a0));
        }
        let gamma = t.get_challenge()?;
        let ghost a1 = t.replies().last();
        // α
        t.reset();
        t.absorb_fr(&beta)?;
        t.absorb_fr(&gamma)?;
        t.absorb_g1(proof.z)?;
        let ghost q2 = t.buffer();
        proof {
            assert(q2 =~= challenge_bytes(a0) + challenge_bytes(a1) + proof.z@);
        }
        let alpha = t.get_challenge()?;
        let ghost a2 = t.replies().last();
        // ξ
        t.reset();
        t.absorb_fr(&alpha)?;
        t.absorb_g1(proof.t1)?;
        t.absorb_g1(proof.t2)?;
        t.absorb_g1(proof.t3)?;
        let ghost q3 = t.buffer();
        proof {
            assert(q3 =~= challenge_bytes(a2) + proof.t1@ + proof.t2@ + proof.t3@);
        }
        let xi = t.get_challenge()?;
        let ghost a3 = t.replies().last();
        // v
        t.reset();
        t.absorb_fr(&xi)?;
        t.absorb_fr(proof.eval_a)?;
        t.absorb_fr(proof.eval_b)?;
        t.absorb_fr(proof.eval_c)?;
        t.absorb_fr(proof.eval_s1)?;
        t.absorb_fr(proof.eval_s2)?;
        t.absorb_fr(proof.eval_zw)?;
        let ghost q4 = t.buffer();
        proof {
            assert(q4 =~= challenge_bytes(a3) + proof.eval_a@ + proof.eval_b@ + proof.eval_c@
                + proof.eval_s1@ + proof.eval_s2@ + proof.eval_zw@);
        }
        let v = t.get_challenge()?;
        let ghost a4 = t.replies().last();
        // u
        t.reset();
        t.absorb_g1(proof.w_xi)?;
        t.absorb_g1(proof.w_xiw)?;
        let ghost q5 = t.buffer();
        proof {
            assert(q5 =~= proof.w_xi@ + proof.w_xiw@);
        }
        let u = t.get_challenge()?;
        let ghost a5 = t.replies().last();
        proof {
            assert(t.replies() =~= seq![a0, a1, a2, a3, a4, a5]);
            assert(t.queries() =~= seq![q0, q1, q2, q3, q4, q5]);
            assert(q0 =~= vk_round_bytes(*vk) + public_inputs_bytes@ + proof.a@ + proof.b@
                + proof.c@);
            assert(q1 =~= challenge_bytes(a0));
            assert(q2 =~= challenge_bytes(a0) + challenge_bytes(a1) + proof.z@);
            assert(q3 =~= challenge_bytes(a2) + proof.t1@ + proof.t2@ + proof.t3@);
            assert(q4 =~= challenge_bytes(a3) + proof.eval_a@ + proof.eval_b@ + proof.eval_c@
                + proof.eval_s1@ + proof.eval_s2@ + proof.eval_zw@);
            assert(q5 =~= proof.w_xi@ + proof.w_xiw@);
            let qs = plonk_queries(*vk, public_inputs_bytes@, *proof, t.replies());
            assert(qs == seq![q0, q1, q2, q3, q4, q5]);
            assert forall|k: int| 0 <= k < 6 implies hash_on(
                backend,
                Kind::Keccak256,
                #[trigger] qs[k],
            ) == Ok::<Seq<u8>, OnChainError>(t.replies()[k]) by {
                if k == 0 {} else if k == 1 {} else if k == 2 {} else if k == 3 {} else if k == 4 {
                } else {}
            }
        }
        Ok((RoundChallenges { beta, gamma, alpha, xi, v, u }, t))
    }
}

} // verus!

verus! {

/// The opening-batch round absorbs only the two opening commitments: two
/// proofs that share `W_ξ` and `W_ξω` give the same last round, whatever
/// their other fields, keys, public inputs or earlier replies.
pub proof fn lemma_u_round_depends_only_on_openings(
    vk1: PlonkVerifyingKey,
    vk2: PlonkVerifyingKey,
    pi1: Seq<u8>,
    pi2: Seq<u8>,
    p1: PlonkProof,
    p2: PlonkProof,
    r1: Seq<Seq<u8>>,
    r2: Seq<Seq<u8>>,
)
    requires
        p1.w_xi@ == p2.w_xi@,
        p1.w_xiw@ == p2.w_xiw@,
    ensures
        plonk_queries(vk1, pi1, p1, r1)[5] == plonk_queries(vk2, pi2, p2, r2)[5],
{
}

/// The first round absorbs only the key's commitments, the public inputs
/// and `A, B, C`: changing `Z`, the quotient parts, the evaluations or the
/// openings leaves β's round unchanged.
pub proof fn lemma_beta_round_inputs(
    vk: PlonkVerifyingKey,
    pi: Seq<u8>,
    p1: PlonkProof,
    p2: PlonkProof,
    r1: Seq<Seq<u8>>,
    r2: Seq<Seq<u8>>,
)
    requires
        p1.a@ == p2.a@,
        p1.b@ == p2.b@,
        p1.c@ == p2.c@,
    ensures
        plonk_queries(vk, pi, p1, r1)[0] == plonk_queries(vk, pi, p2, r2)[0],
{
}

/// The evaluation round depends on ξ's reply and the six evaluations only.
pub proof fn lemma_v_round_inputs(
    vk1: PlonkVerifyingKey,
    vk2: PlonkVerifyingKey,
    pi1: Seq<u8>,
    pi2: Seq<u8>,
    p1: PlonkProof,
    p2: PlonkProof,
    r1: Seq<Seq<u8>>,
    r2: Seq<Seq<u8>>,
)
    requires
        r1.len() == 6,
        r2.len() == 6,
        r1[3] == r2[3],
        p1.eval_a@ == p2.eval_a@,
        p1.eval_b@ == p2.eval_b@,
        p1.eval_c@ == p2.eval_c@,
        p1.eval_s1@ == p2.eval_s1@,
        p1.eval_s2@ == p2.eval_s2@,
        p1.eval_zw@ == p2.eval_zw@,
    ensures
        plonk_queries(vk1, pi1, p1, r1)[4] == plonk_queries(vk2, pi2, p2, r2)[4],
{
}

} // verus!
