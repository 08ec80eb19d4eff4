//! Fiat–Shamir challenges of a folding proof, each from a fresh
//! Keccak-256 round:
//!
//! ```text
//! r: cs_digest ‖ variant ‖ n_public ‖ n_constraints ‖ [x]₂ ‖ A ‖ B ‖ C ‖ public inputs ‖ E ‖ W ‖ T
//! ξ: r ‖ u ‖ auxiliary commitments
//! ν: ξ ‖ W_ξ ‖ W_ξω
//! ```
//!
//! The transcript is handed back holding ν.
use vstd::prelude::*;
use crate::bytes::{be_nat, u16_le_bytes, u16_to_le_bytes, u32_le_bytes, u32_to_le_bytes};
use crate::error::OnChainError;
use crate::field::Fr;
use crate::fr::fr_modulus;
use crate::halo2::challenges::{check_instances, instances_ok, whole_windows};
use crate::nova::canonical::{variant_tag, NovaFoldingProof, NovaFoldingVerifyingKey};
use crate::syscall::SyscallBackend;
use crate::transcript::{challenge_bytes, hash_on, Kind, Transcript};

verus! {

/// The three challenges of a folding proof.
#[derive(Clone, Copy, Debug, PartialEq, Eq)]
pub struct NovaChallenges {
    /// Folding challenge `r`.
    pub r: Fr,
    /// Spartan evaluation point ξ.
    pub xi: Fr,
    /// Opening batch challenge ν.
    pub nu: Fr,
}

/// The key's contribution to the first round.
pub open spec fn vk_round_bytes(vk: NovaFoldingVerifyingKey) -> Seq<u8> {
    vk.cs_digest@ + seq![variant_tag(vk.variant)] + u16_le_bytes(vk.n_public) + u32_le_bytes(
        vk.n_constraints,
    ) + vk.x2_g2@ + vk.a_comm@ + vk.b_comm@ + vk.c_comm@
}

/// The three transcript rounds, given the hash replies `r`.
pub open spec fn nova_queries(
    vk: NovaFoldingVerifyingKey,
    pi: Seq<u8>,
    p: NovaFoldingProof,
    r: Seq<Seq<u8>>,
) -> Seq<Seq<u8>> {
    seq![
        vk_round_bytes(vk) + pi + p.e_comm@ + p.w_comm@ + p.t_comm@,
        challenge_bytes(r[0]) + p.u@ + whole_windows(p.aux_commits@, 64),
        challenge_bytes(r[1]) + p.w_xi@ + p.w_xiw@,
    ]
}

/// The three rounds as the backend answers them: each round's Keccak-256
/// query is built from the reply before it; a failing hash passes its error
/// on, otherwise the result is the three replies.
pub open spec fn nova_rounds<B: SyscallBackend + ?Sized>(
    b: &B,
    vk: NovaFoldingVerifyingKey,
    pi: Seq<u8>,
    p: NovaFoldingProof,
) -> Result<Seq<Seq<u8>>, OnChainError> {
    let k = Kind::Keccak256;
    match hash_on(b, k, vk_round_bytes(vk) + pi + p.e_comm@ + p.w_comm@ + p.t_comm@) {
        Err(e) => Err(e),
        Ok(r0) => match hash_on(b, k, challenge_bytes(r0) + p.u@ + whole_windows(p.aux_commits@, 64)) {
            Err(e) => Err(e),
            Ok(r1) => match hash_on(b, k, challenge_bytes(r1) + p.w_xi@ + p.w_xiw@) {
                Err(e) => Err(e),
                Ok(r2) => Ok(seq![r0, r1, r2]),
            },
        },
    }
}

/// Derive `(r, ξ, ν)` and return the transcript holding ν.
///
/// The public inputs must be `vk.n_public` canonical scalars: a length
/// that is not a multiple of 32 is a length error, a wrong count a count
/// error, a scalar at or above `r` a range error. Hash failures are passed
/// on.
pub fn derive_challenges<'b, B: SyscallBackend + ?Sized>(
    backend: &'b B,
    vk: &NovaFoldingVerifyingKey,
    public_inputs_bytes: &[u8],
    proof: &NovaFoldingProof,
) -> (res: Result<(NovaChallenges, Transcript<'b, B>), OnChainError>)
    ensures
        public_inputs_bytes@.len() % 32 != 0 ==> res is Err && res->Err_0
            == OnChainError::ProofLengthMismatch,
        public_inputs_bytes@.len() % 32 == 0 && public_inputs_bytes@.len() / 32 != vk.n_public
            ==> res is Err && res->Err_0 == OnChainError::PublicInputCountMismatch,
        public_inputs_bytes@.len() % 32 == 0 && public_inputs_bytes@.len() / 32 == vk.n_public
            && !instances_ok(public_inputs_bytes@, vk.n_public as nat) ==> res is Err
            && res->Err_0 == OnChainError::PublicInputOutOfRange,
        public_inputs_bytes@.len() % 32 == 0 && public_inputs_bytes@.len() / 32 == vk.n_public
            && instances_ok(public_inputs_bytes@, vk.n_public as nat) ==> match nova_rounds(
            backend,
            *vk,
            public_inputs_bytes@,
            *proof,
        ) {
            Ok(r) => res matches Ok((c, t)) && t.replies() == r,
            Err(e) => res is Err && res->Err_0 == e,
        },
        res matches Ok((c, t)) ==> {
            let r = t.replies();
            &&& instances_ok(public_inputs_bytes@, vk.n_public as nat)
            &&& t.kind() == Kind::Keccak256
            &&& t.backend() == backend
            &&& r.len() == 3
            &&& t.queries() == nova_queries(*vk, public_inputs_bytes@, *proof, r)
            &&& c.r@ == be_nat(r[0]) % fr_modulus()
            &&& c.xi@ == be_nat(r[1]) % fr_modulus()
            &&& c.nu@ == be_nat(r[2]) % fr_modulus()
            &&& t.buffer() == challenge_bytes(r[2])
        },
{
    check_instances(public_inputs_bytes, vk.n_public as u32)?;
    let mut t = Transcript::new(Kind::Keccak256, backend);
    proof {
        vstd::arithmetic::div_mod::lemma_fundamental_div_mod(proof.aux_commits@.len() as int, 64);
    }
    // r
    t.absorb(&vk.cs_digest);
    let tag = [vk.variant.to_byte()];
    t.absorb(&tag);
    t.absorb(&u16_to_le_bytes(vk.n_public));
    t.absorb(&u32_to_le_bytes(vk.n_constraints));
    t.absorb(&vk.x2_g2);
    t.absorb(&vk.a_comm);
    t.absorb(&vk.b_comm);
    t.absorb(&vk.c_comm);
    t.absorb(public_inputs_bytes);
    t.absorb(proof.e_comm);
    t.absorb(proof.w_comm);
    t.absorb(proof.t_comm);
    let ghost q0 = t.buffer();
    proof {
        assert(tag@ =~= seq![variant_tag(vk.variant)]);
        assert(q0 =~= vk_round_bytes(*vk) + public_inputs_bytes@ + proof.e_comm@ + proof.w_comm@
            + proof.t_comm@);
    }
    let (r_bytes, r) = t.challenge_fr()?;
    let ghost a0 = t.replies().last();
    // ξ
    t.reset();
    t.absorb(&r_bytes);
    t.absorb(proof.u);
    let aux = proof.aux_iter();
    t.absorb_chunks(&aux, Ghost(proof.aux_commits@), Ghost(64));
    let ghost q1 = t.buffer();
    proof {
        assert(q1 =~= challenge_bytes(a0) + proof.u@ + whole_windows(proof.aux_commits@, 64));
    }
    let (xi_bytes, xi) = t.challenge_fr()?;
    let ghost a1 = t.replies().last();
    // ν
    t.reset();
    t.absorb(&xi_bytes);
    t.absorb(proof.w_xi);
    t.absorb(proof.w_xiw);
    let ghost q2 = t.buffer();
    proof {
        assert(q2 =~= challenge_bytes(a1) + proof.w_xi@ + proof.w_xiw@);
    }
    let (nu_bytes, nu) = t.challenge_fr()?;
    let ghost a2 = t.replies().last();
    t.reset();
    t.absorb(&nu_bytes);
    proof {
        assert(tag@ =~= seq![variant_tag(vk.variant)]);
        assert(t.replies() =~= seq![a0, a1, a2]);
        assert(t.queries() =~= seq![q0, q1, q2]);
        assert(q0 =~= vk_round_bytes(*vk) + public_inputs_bytes@ + proof.e_comm@ + proof.w_comm@
            + proof.t_comm@);
        assert(q1 =~= challenge_bytes(a0) + proof.u@ + whole_windows(proof.aux_commits@, 64));
        assert(q2 =~= challenge_bytes(a1) + proof.w_xi@ + proof.w_xiw@);
        assert(t.buffer() =~= challenge_bytes(a2));
    }
    Ok((NovaChallenges { r, xi, nu }, t))
}

} // verus!

verus! {

/// The auxiliary commitments enter the transcript only from the ξ round
/// on: proofs that differ only there share the folding round.
pub proof fn lemma_aux_commits_enter_at_xi(
    vk: NovaFoldingVerifyingKey,
    pi: Seq<u8>,
    p1: NovaFoldingProof,
    p2: NovaFoldingProof,
    r: Seq<Seq<u8>>,
)
    requires
        p1.e_comm@ == p2.e_comm@,
        p1.w_comm@ == p2.w_comm@,
        p1.t_comm@ == p2.t_comm@,
    ensures
        nova_queries(vk, pi, p1, r)[0] == nova_queries(vk, pi, p2, r)[0],
{
}

} // verus!
