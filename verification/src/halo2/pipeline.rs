//! The Halo2-KZG verifier: parse, derive the challenges, decode the
//! evaluation bundle, check the vanishing identity at ξ, then run the
//! multi-polynomial two-point KZG opening.
use vstd::prelude::*;
use crate::bytes::{be_nat, chunk_at, chunks_exact};
use crate::error::OnChainError;
use crate::field::{fe, fr_values, mul_fe, val, Fr};
use crate::fr::fr_modulus;
use crate::halo2::bundle::{bundle_layout, expected_evals, layout_arity, EvaluationBundle};
use crate::slots::{slot, slot_values, slots_ok};
use crate::halo2::canonical::{
    hdr_arity, hdr_evaluations, hdr_n_advice, hdr_n_evals, hdr_n_quotient, proof_accepts,
    proof_layout, vk_accepts, vk_layout, Halo2KzgProof, Halo2KzgVerifyingKey,
};
use crate::halo2::challenges::{
    derive_challenges, halo2_replies, halo2_rounds, instances_ok, Halo2Challenges,
};
use crate::halo2::circuit::{
    combined_expr, combined_value, gate_value, lookup_defined, lookup_value, perm_value,
};
use crate::halo2::kzg::{two_point_spec, verify_two_point_opening_multipoly};
use crate::halo2::vanishing::{compute_t_from_chunks, compute_z_h, t_value, z_h_value};
use crate::proof_system::{clamp_spec, sat_u32, saturating_add_u32, saturating_mul_u32, ProofSystemId};
use crate::syscall::SyscallBackend;
use crate::transcript::{fr_bytes, hash_on, Kind, Transcript};

verus! {

/// The vanishing identity at ξ holds for the bundle `e` under the
/// challenges `θ, β, γ, y, ξ`, for a domain of `2^k` rows.
pub open spec fn vanishing_holds(
    k: nat,
    e: EvaluationBundle,
    theta: nat,
    beta: nat,
    gamma: nat,
    y: nat,
    xi: nat,
) -> bool {
    &&& k <= 28
    &&& e.quotient_chunks@.len() > 0
    &&& lookup_defined(e.lookup, theta)
    &&& fe(t_value(fr_values(e.quotient_chunks@), xi, k) * z_h_value(xi, k) as int)
        == combined_value(
        gate_value(e.wires, e.selectors),
        perm_value(e.wires, e.permutation, beta, gamma, xi),
        lookup_value(e.lookup, theta),
        y,
    )
}

/// The error of a failed vanishing check: a domain above `2^28` rows or
/// no quotient chunk is a length error, an undefined lookup term an
/// internal invariant violation, and otherwise the identity failed.
pub open spec fn vanishing_error(k: nat, e: EvaluationBundle, theta: nat) -> OnChainError {
    if k > 28 || e.quotient_chunks@.len() == 0 {
        OnChainError::ProofLengthMismatch
    } else if !lookup_defined(e.lookup, theta) {
        OnChainError::InternalInvariantViolation
    } else {
        OnChainError::SumcheckFailed
    }
}

/// What an accepted proof satisfies: `vk` and `p` are the parsed key and
/// proof, `r` the backend's replies to the challenge rounds, `e` the decoded
/// evaluation bundle, the vanishing identity holds under the challenges the
/// replies give, and the backend accepts the two-point opening at the ξ of
/// the last round.
pub open spec fn halo2_accepted<B: SyscallBackend + ?Sized>(
    b: &B,
    vk_bytes: Seq<u8>,
    proof_bytes: Seq<u8>,
    inst: Seq<u8>,
    vk: Halo2KzgVerifyingKey,
    p: Halo2KzgProof,
    r: Seq<Seq<u8>>,
    e: EvaluationBundle,
) -> bool {
    let m = fr_modulus();
    &&& vk_layout(vk, vk_bytes)
    &&& proof_layout(p, proof_bytes)
    &&& halo2_replies(b, vk, inst, p, r)
    &&& bundle_layout(
        e,
        slot_values(p.evaluations@, p.n_evals as nat),
        layout_arity(p.lookup_arity) as int,
    )
    &&& vanishing_holds(
        vk.k as nat,
        e,
        be_nat(r[0]) % m,
        be_nat(r[1]) % m,
        be_nat(r[2]) % m,
        be_nat(r[3]) % m,
        be_nat(r[4]) % m,
    )
    &&& halo2_opening_verdict(b, vk, p, e, be_nat(r[4]) % m) == Ok::<(), OnChainError>(())
}

/// Domain separator of the multi-polynomial batching challenge `v`.
pub const V_LABEL: [u8; 14] = [
    0x6d, 0x6f, 0x73, 0x61, 0x69, 0x63, 0x2d, 0x68, 0x61, 0x6c, 0x6f, 0x32, 0x2f, 0x76,
];

/// Domain separator of the two-point batching challenge `u`.
pub const U_LABEL: [u8; 14] = [
    0x6d, 0x6f, 0x73, 0x61, 0x69, 0x63, 0x2d, 0x68, 0x61, 0x6c, 0x6f, 0x32, 0x2f, 0x75,
];

/// The 64-byte windows of `s`.
pub open spec fn windows64(s: Seq<u8>) -> Seq<Seq<u8>> {
    Seq::new(s.len() / 64, |i: int| chunk_at(s, 64, i))
}

/// Commitments opened at ξ: advice, lookup, permutation and quotient
/// commitments of the proof, then the key's fixed and permutation
/// commitments.
pub open spec fn commits_at_xi(p: Halo2KzgProof, vk: Halo2KzgVerifyingKey) -> Seq<Seq<u8>> {
    windows64(p.advice_commits@) + windows64(p.lookup_commits@) + seq![p.permutation_z@]
        + windows64(p.quotient_chunks@) + windows64(vk.fixed_commits@) + windows64(
        vk.permutation_commits@,
    )
}

/// Claimed values at ξ paired with [`commits_at_xi`]: wire `min(i, 2)` per
/// advice column, the multiplicity per lookup, `z(ξ)`, the quotient chunk
/// values, selector `min(i, 4)` per fixed column and `σ_min(i, 2)` per
/// permutation column.
pub open spec fn evals_at_xi(
    e: EvaluationBundle,
    n_advice: nat,
    n_lookups: nat,
    n_fixed: nat,
    n_permutation: nat,
) -> Seq<Fr> {
    let wires = seq![e.wires.a, e.wires.b, e.wires.c];
    let sels = seq![
        e.selectors.q_m,
        e.selectors.q_l,
        e.selectors.q_r,
        e.selectors.q_o,
        e.selectors.q_c,
    ];
    let sigmas = seq![e.permutation.sigma_1, e.permutation.sigma_2, e.permutation.sigma_3];
    Seq::new(n_advice, |i: int| wires[if i < 2 { i } else { 2 }]) + Seq::new(
        n_lookups,
        |i: int| e.lookup.m,
    ) + seq![e.permutation.z] + e.quotient_chunks@ + Seq::new(
        n_fixed,
        |i: int| sels[if i < 4 { i } else { 4 }],
    ) + Seq::new(n_permutation, |i: int| sigmas[if i < 2 { i } else { 2 }])
}

/// The opening stage of a proof whose vanishing identity held, as the
/// backend decides it, at the evaluation point ξ: `ω` must be a canonical
/// scalar; `v` is the reply to `V_LABEL ‖ ξ ‖ evaluations` and `u` the reply
/// to `U_LABEL ‖ ξ ‖ ω ‖ W_ξ ‖ W_ξω`; the commitments of [`commits_at_xi`]
/// are opened at ξ against [`evals_at_xi`], and the permutation commitment
/// at `ξ·ω` against the bundle's `z(ξω)`.
pub open spec fn halo2_opening_verdict<B: SyscallBackend + ?Sized>(
    b: &B,
    vk: Halo2KzgVerifyingKey,
    p: Halo2KzgProof,
    e: EvaluationBundle,
    xi: nat,
) -> Result<(), OnChainError> {
    let m = fr_modulus();
    let omega = be_nat(vk.omega_fr@);
    let cx = commits_at_xi(p, vk);
    let ex = fr_values(
        evals_at_xi(
            e,
            p.n_advice as nat,
            p.n_lookups as nat,
            vk.fixed_commits@.len() / 64,
            vk.permutation_commits@.len() / 64,
        ),
    );
    if omega >= m {
        Err(OnChainError::PublicInputOutOfRange)
    } else {
        match hash_on(b, Kind::Keccak256, V_LABEL@ + fr_bytes(xi) + p.evaluations@) {
            Err(err) => Err(err),
            Ok(hv) => match hash_on(
                b,
                Kind::Keccak256,
                U_LABEL@ + fr_bytes(xi) + vk.omega_fr@ + p.w_xi@ + p.w_xiw@,
            ) {
                Err(err) => Err(err),
                Ok(hu) => if cx.len() != ex.len() {
                    Err(OnChainError::PublicInputCountMismatch)
                } else if p.w_xi@.len() != 64 || p.w_xiw@.len() != 64 || p.permutation_z@.len() != 64
                    || exists|i: int|
                    0 <= i < cx.len() && (#[trigger] cx[i]).len() != 64 {
                    Err(OnChainError::InvalidPointEncoding)
                } else {
                    two_point_spec(
                        b,
                        vk.x2_g2@,
                        cx,
                        ex,
                        seq![p.permutation_z@],
                        seq![e.permutation.z_next@],
                        p.w_xi@,
                        p.w_xiw@,
                        xi,
                        fe((xi * omega) as int),
                        be_nat(hv) % m,
                        be_nat(hu) % m,
                    )
                },
            },
        }
    }
}

/// The shifted opening checks the permutation commitment against the
/// proof's own `z(ξω)`: for a bundle decoded from the evaluations, once `ω`
/// is canonical, both batching rounds are answered and the commitments are
/// well formed, the verdict is the two-point check whose only value at
/// `ξ·ω` is evaluation slot 9 of the proof.
pub proof fn lemma_shifted_value_is_slot_nine<B: SyscallBackend + ?Sized>(
    b: &B,
    vk: Halo2KzgVerifyingKey,
    p: Halo2KzgProof,
    e: EvaluationBundle,
    n: nat,
    xi: nat,
    hv: Seq<u8>,
    hu: Seq<u8>,
)
    requires
        n >= 16,
        bundle_layout(e, slot_values(p.evaluations@, n), layout_arity(p.lookup_arity) as int),
        be_nat(vk.omega_fr@) < fr_modulus(),
        hash_on(b, Kind::Keccak256, V_LABEL@ + fr_bytes(xi) + p.evaluations@) == Ok::<
            Seq<u8>,
            OnChainError,
        >(hv),
        hash_on(
            b,
            Kind::Keccak256,
            U_LABEL@ + fr_bytes(xi) + vk.omega_fr@ + p.w_xi@ + p.w_xiw@,
        ) == Ok::<Seq<u8>, OnChainError>(hu),
        commits_at_xi(p, vk).len() == fr_values(
            evals_at_xi(
                e,
                p.n_advice as nat,
                p.n_lookups as nat,
                vk.fixed_commits@.len() / 64,
                vk.permutation_commits@.len() / 64,
            ),
        ).len(),
        p.w_xi@.len() == 64 && p.w_xiw@.len() == 64 && p.permutation_z@.len() == 64,
        forall|i: int|
            0 <= i < commits_at_xi(p, vk).len() ==> (#[trigger] commits_at_xi(p, vk)[i]).len() == 64,
    ensures
        halo2_opening_verdict(b, vk, p, e, xi) == two_point_spec(
            b,
            vk.x2_g2@,
            commits_at_xi(p, vk),
            fr_values(
                evals_at_xi(
                    e,
                    p.n_advice as nat,
                    p.n_lookups as nat,
                    vk.fixed_commits@.len() / 64,
                    vk.permutation_commits@.len() / 64,
                ),
            ),
            seq![p.permutation_z@],
            seq![slot(p.evaluations@, 9)],
            p.w_xi@,
            p.w_xiw@,
            xi,
            fe((xi * be_nat(vk.omega_fr@)) as int),
            be_nat(hv) % fr_modulus(),
            be_nat(hu) % fr_modulus(),
        ),
{
    assert(slot_values(p.evaluations@, n)[9] == slot(p.evaluations@, 9));
}

/// Append every item of `items` to `out`.
fn append_windows<'a>(out: &mut Vec<&'a [u8]>, items: Vec<&'a [u8]>)
    ensures
        final(out)@ == old(out)@ + items@,
{
    let mut i: usize = 0;
    while i < items.len()
        invariant
            0 <= i <= items@.len(),
            out@ == old(out)@ + items@.take(i as int),
        decreases items@.len() - i,
    {
        out.push(items[i]);
        assert(items@.take(i + 1) =~= items@.take(i as int).push(items@[i as int]));
        i = i + 1;
    }
    assert(items@.take(items@.len() as int) =~= items@);
}

/// The views of a list of byte slices.
pub open spec fn views(v: Seq<&[u8]>) -> Seq<Seq<u8>> {
    v.map_values(|s: &[u8]| s@)
}

/// Views of the 64-byte windows of `s`.
fn windows_of<'a>(s: &'a [u8]) -> (res: Vec<&'a [u8]>)
    ensures
        views(res@) == windows64(s@),
{
    let w = chunks_exact(s, 64);
    assert(views(w@) =~= windows64(s@));
    w
}

/// The commitments opened at ξ, in pairing order.
pub fn collect_commits_at_xi<'a>(
    proof: &Halo2KzgProof<'a>,
    vk: &'a Halo2KzgVerifyingKey,
) -> (res: Result<Vec<&'a [u8]>, OnChainError>)
    ensures
        res matches Ok(v) && views(v@) == commits_at_xi(*proof, *vk),
{
    let mut out: Vec<&'a [u8]> = Vec::new();
    append_windows(&mut out, windows_of(proof.advice_commits));
    append_windows(&mut out, windows_of(proof.lookup_commits));
    out.push(proof.permutation_z);
    append_windows(&mut out, windows_of(proof.quotient_chunks));
    append_windows(&mut out, windows_of(vk.fixed_commits.as_slice()));
    append_windows(&mut out, windows_of(vk.permutation_commits.as_slice()));
    proof {
        assert(views(out@) =~= commits_at_xi(*proof, *vk));
    }
    Ok(out)
}

/// The claimed values at ξ, paired with [`collect_commits_at_xi`].
pub fn collect_evals_at_xi(
    bundle: &EvaluationBundle,
    n_advice: usize,
    n_lookups: usize,
    n_fixed: usize,
    n_permutation: usize,
) -> (res: Vec<Fr>)
    ensures
        res@ == evals_at_xi(
            *bundle,
            n_advice as nat,
            n_lookups as nat,
            n_fixed as nat,
            n_permutation as nat,
        ),
{
    let wires = [bundle.wires.a, bundle.wires.b, bundle.wires.c];
    let sels = [
        bundle.selectors.q_m,
        bundle.selectors.q_l,
        bundle.selectors.q_r,
        bundle.selectors.q_o,
        bundle.selectors.q_c,
    ];
    let sigmas = [bundle.permutation.sigma_1, bundle.permutation.sigma_2, bundle.permutation.sigma_3];
    let ghost ws = seq![bundle.wires.a, bundle.wires.b, bundle.wires.c];
    let ghost ss = seq![
        bundle.selectors.q_m,
        bundle.selectors.q_l,
        bundle.selectors.q_r,
        bundle.selectors.q_o,
        bundle.selectors.q_c,
    ];
    let ghost gs = seq![bundle.permutation.sigma_1, bundle.permutation.sigma_2, bundle.permutation.sigma_3];
    assert(wires@ =~= ws);
    assert(sels@ =~= ss);
    assert(sigmas@ =~= gs);
    let mut out: Vec<Fr> = Vec::new();
    let mut i: usize = 0;
    while i < n_advice
        invariant
            0 <= i <= n_advice,
            wires@ == ws,
            out@ == Seq::new(i as nat, |j: int| ws[if j < 2 { j } else { 2 }]),
        decreases n_advice - i,
    {
        let k = if i < 2 { i } else { 2 };
        out.push(wires[k]);
        assert(out@ =~= Seq::new((i + 1) as nat, |j: int| ws[if j < 2 { j } else { 2 }]));
        i = i + 1;
    }
    let ghost a = out@;
    let mut i: usize = 0;
    while i < n_lookups
        invariant
            0 <= i <= n_lookups,
            out@ == a + Seq::new(i as nat, |j: int| bundle.lookup.m),
        decreases n_lookups - i,
    {
        out.push(bundle.lookup.m);
        assert(out@ =~= a + Seq::new((i + 1) as nat, |j: int| bundle.lookup.m));
        i = i + 1;
    }
    out.push(bundle.permutation.z);
    let mut i: usize = 0;
    let ghost b = out@;
    while i < bundle.quotient_chunks.len()
        invariant
            0 <= i <= bundle.quotient_chunks@.len(),
            out@ == b + bundle.quotient_chunks@.take(i as int),
        decreases bundle.quotient_chunks@.len() - i,
    {
        out.push(bundle.quotient_chunks[i]);
        assert(bundle.quotient_chunks@.take(i + 1) =~= bundle.quotient_chunks@.take(i as int).push(
            bundle.quotient_chunks@[i as int],
        ));
        i = i + 1;
    }
    assert(bundle.quotient_chunks@.take(bundle.quotient_chunks@.len() as int) =~= bundle.quotient_chunks@);
    let ghost c = out@;
    let mut i: usize = 0;
    while i < n_fixed
        invariant
            0 <= i <= n_fixed,
            sels@ == ss,
            out@ == c + Seq::new(i as nat, |j: int| ss[if j < 4 { j } else { 4 }]),
        decreases n_fixed - i,
    {
        let k = if i < 4 { i } else { 4 };
        out.push(sels[k]);
        assert(out@ =~= c + Seq::new((i + 1) as nat, |j: int| ss[if j < 4 { j } else { 4 }]));
        i = i + 1;
    }
    let ghost d = out@;
    let mut i: usize = 0;
    while i < n_permutation
        invariant
            0 <= i <= n_permutation,
            sigmas@ == gs,
            out@ == d + Seq::new(i as nat, |j: int| gs[if j < 2 { j } else { 2 }]),
        decreases n_permutation - i,
    {
        let k = if i < 2 { i } else { 2 };
        out.push(sigmas[k]);
        assert(out@ =~= d + Seq::new((i + 1) as nat, |j: int| gs[if j < 2 { j } else { 2 }]));
        i = i + 1;
    }
    assert(out@ =~= evals_at_xi(
        *bundle,
        n_advice as nat,
        n_lookups as nat,
        n_fixed as nat,
        n_permutation as nat,
    ));
    out
}

/// The vanishing identity at ξ: `t(ξ)·Z_H(ξ) = gate + y·perm + y²·lookup`.
///
/// No quotient chunk, or `k` above 28, is a length error; a zero lookup
/// denominator an internal invariant violation; a failed identity a
/// failed check.
pub fn check_vanishing(k: u32, bundle: &EvaluationBundle, ch: &Halo2Challenges) -> (res: Result<
    (),
    OnChainError,
>)
    ensures
        (k > 28 || bundle.quotient_chunks@.len() == 0) ==> res == Err::<(), OnChainError>(
            OnChainError::ProofLengthMismatch,
        ),
        (k <= 28 && bundle.quotient_chunks@.len() > 0 && !lookup_defined(bundle.lookup, ch.theta@))
            ==> res == Err::<(), OnChainError>(OnChainError::InternalInvariantViolation),
        (k <= 28 && bundle.quotient_chunks@.len() > 0 && lookup_defined(bundle.lookup, ch.theta@))
            ==> (res is Ok <==> fe(
            t_value(fr_values(bundle.quotient_chunks@), ch.xi@, k as nat) * z_h_value(
                ch.xi@,
                k as nat,
            ) as int,
        ) == combined_value(
            gate_value(bundle.wires, bundle.selectors),
            perm_value(bundle.wires, bundle.permutation, ch.beta@, ch.gamma@, ch.xi@),
            lookup_value(bundle.lookup, ch.theta@),
            ch.y@,
        )),
        res is Err && !(k > 28 || bundle.quotient_chunks@.len() == 0) && lookup_defined(
            bundle.lookup,
            ch.theta@,
        ) ==> res == Err::<(), OnChainError>(OnChainError::SumcheckFailed),
{
    let t_xi = compute_t_from_chunks(bundle.quotient_chunks.as_slice(), &ch.xi, k)?;
    let z_h_xi = compute_z_h(&ch.xi, k)?;
    let combined = combined_expr(
        &bundle.wires,
        &bundle.selectors,
        &bundle.permutation,
        &bundle.lookup,
        &ch.theta,
        &ch.beta,
        &ch.gamma,
        &ch.y,
        &ch.xi,
    )?;
    let lhs = mul_fe(&t_xi, &z_h_xi, Ghost(val(t_xi)), Ghost(val(z_h_xi)));
    proof {
        crate::field::lemma_fr_eq(lhs, combined);
    }
    if lhs != combined {
        return Err(OnChainError::SumcheckFailed);
    }
    Ok(())
}

/// The Halo2-KZG verifier over a backend.
pub struct Halo2KzgBn254<'a, B: SyscallBackend + ?Sized> {
    backend: &'a B,
}

/// Compute-unit estimate for the given proof shape: 90 000 base, 4 000
/// per commitment opened at ξ, 250 per evaluation (each step saturating
/// at `u32::MAX`), clamped to `[120 000, 700 000]`.
pub open spec fn estimate_cu(
    n_advice: int,
    n_lookups: int,
    n_quotient: int,
    n_evals: int,
    n_fixed: int,
    n_perm: int,
) -> int {
    let commits = sat_u32(
        sat_u32(sat_u32(sat_u32(sat_u32(n_advice + n_lookups) + 1) + n_quotient) + n_fixed) + n_perm,
    );
    let est = sat_u32(sat_u32(90_000 + sat_u32(4_000 * commits)) + sat_u32(250 * n_evals));
    clamp_spec(est, 120_000, 700_000)
}

impl<'a, B: SyscallBackend + ?Sized> Halo2KzgBn254<'a, B> {
    /// A verifier over `backend`.
    pub fn new(backend: &'a B) -> (v: Self)
        ensures
            v.backend() == backend,
    {
        Halo2KzgBn254 { backend }
    }

    /// The backend.
    pub closed spec fn backend(&self) -> &'a B {
        self.backend
    }

    /// This verifier's proof system.
    pub fn proof_system_id(&self) -> (id: ProofSystemId)
        ensures
            id == ProofSystemId::Halo2KzgBn254,
    {
        ProofSystemId::Halo2KzgBn254
    }

    /// Compute-unit estimate for a key and proof; `None` when either does
    /// not parse.
    pub fn estimated_compute_units(&self, vk: &[u8], proof: &[u8]) -> (res: Option<u32>)
        ensures
            res is Some <==> (vk_accepts(vk@) && proof_accepts(proof@)),
            res matches Some(n) ==> (n as int) == estimate_cu(
                hdr_n_advice(proof@) as int,
                crate::halo2::canonical::hdr_n_lookups(proof@) as int,
                crate::halo2::canonical::hdr_n_quotient(proof@) as int,
                hdr_n_evals(proof@) as int,
                (crate::halo2::canonical::vk_fixed_len(vk@) / 64) as int,
                (crate::halo2::canonical::vk_perm_len(vk@) / 64) as int,
            ),
    {
        let vk_parsed = match Halo2KzgVerifyingKey::from_bytes(vk) {
            Ok(v) => v,
            Err(_) => {
                return None;
            },
        };
        let p = match Halo2KzgProof::from_bytes(proof) {
            Ok(p) => p,
            Err(_) => {
                return None;
            },
        };
        let n_fixed = (vk_parsed.fixed_commits.len() / 64) as u32;
        let n_perm = (vk_parsed.permutation_commits.len() / 64) as u32;
        let c = saturating_add_u32(p.n_advice, p.n_lookups);
        let c = saturating_add_u32(c, 1);
        let c = saturating_add_u32(c, p.n_quotient);
        let c = saturating_add_u32(c, n_fixed);
        let c = saturating_add_u32(c, n_perm);
        let est = saturating_add_u32(90_000, saturating_mul_u32(4_000, c));
        let est = saturating_add_u32(est, saturating_mul_u32(250, p.n_evals));
        let clamped = if est < 120_000 {
            120_000
        } else if est > 700_000 {
            700_000
        } else {
            est
        };
        Some(clamped)
    }

    /// The opening stage at ξ, for a proof whose vanishing identity held:
    /// the result is [`halo2_opening_verdict`].
    fn open_at_xi(
        &self,
        vk: &Halo2KzgVerifyingKey,
        proof: &Halo2KzgProof,
        bundle: &EvaluationBundle,
        xi: &Fr,
    ) -> (res: Result<(), OnChainError>)
        ensures
            res == halo2_opening_verdict(self.backend(), *vk, *proof, *bundle, xi@),
    {
        let ghost m = fr_modulus();
        proof {
            crate::field::lemma_fr_encoding(*xi);
        }
        let omega = Fr::from_canonical_bytes(&vk.omega_fr)?;
        let xi_omega = mul_fe(xi, &omega, Ghost(val(*xi)), Ghost(val(omega)));
        let n_fixed = vk.fixed_commits.len() / 64;
        let n_permutation = vk.permutation_commits.len() / 64;
        let commits_xi = collect_commits_at_xi(proof, vk)?;
        let evals_xi = collect_evals_at_xi(
            bundle,
            proof.n_advice as usize,
            proof.n_lookups as usize,
            n_fixed,
            n_permutation,
        );
        let commits_xiw: [&[u8]; 1] = [proof.permutation_z];
        let evals_xiw: [Fr; 1] = [bundle.permutation.z_next];
        let xi_bytes = xi.to_bytes();
        let mut tv = Transcript::new(Kind::Keccak256, self.backend);
        tv.absorb(&V_LABEL);
        tv.absorb(&xi_bytes);
        tv.absorb(proof.evaluations);
        proof {
            assert(tv.buffer() =~= V_LABEL@ + fr_bytes(xi@) + proof.evaluations@);
        }
        let (_, v) = tv.challenge_fr()?;
        let mut tu = Transcript::new(Kind::Keccak256, self.backend);
        tu.absorb(&U_LABEL);
        tu.absorb(&xi_bytes);
        tu.absorb(&vk.omega_fr);
        tu.absorb(proof.w_xi);
        tu.absorb(proof.w_xiw);
        proof {
            assert(tu.buffer() =~= U_LABEL@ + fr_bytes(xi@) + vk.omega_fr@ + proof.w_xi@
                + proof.w_xiw@);
        }
        let (_, u) = tu.challenge_fr()?;
        proof {
            assert(crate::curve::slice_views(commits_xi@) =~= commits_at_xi(*proof, *vk));
            assert(crate::curve::slice_views(commits_xiw@) =~= seq![proof.permutation_z@]);
            assert(fr_values(evals_xiw@) =~= seq![bundle.permutation.z_next@]);
            let cx = commits_at_xi(*proof, *vk);
            assert(commits_xi@.len() == cx.len());
            assert(crate::curve::points_ok(commits_xi@) <==> !(exists|i: int|
                0 <= i < cx.len() && (#[trigger] cx[i]).len() != 64)) by {
                assert forall|i: int| 0 <= i < cx.len() implies cx[i] == (
                #[trigger] commits_xi@[i])@ by {
                    assert(crate::curve::slice_views(commits_xi@)[i] == commits_xi@[i]@);
                }
            }
            assert(crate::curve::points_ok(commits_xiw@) <==> proof.permutation_z@.len() == 64) by {
                assert(commits_xiw@[0] == proof.permutation_z);
            }
            assert(xi_omega@ == fe((xi@ * be_nat(vk.omega_fr@)) as int));
            assert(v@ == be_nat(tv.replies().last()) % m);
            assert(u@ == be_nat(tu.replies().last()) % m);
        }
        verify_two_point_opening_multipoly(
            self.backend,
            vk,
            commits_xi.as_slice(),
            evals_xi.as_slice(),
            &commits_xiw,
            &evals_xiw,
            proof.w_xi,
            proof.w_xiw,
            xi,
            &xi_omega,
            &v,
            &u,
        )
    }

    /// Verify a Halo2-KZG proof against a key and instance values.
    ///
    /// A key or proof that does not parse is a length error of that
    /// buffer; a key and proof with different advice counts are a
    /// mismatch; instance errors are those of [`derive_challenges`]; the
    /// bundle, vanishing and opening steps report theirs.
    pub fn verify(&self, vk_bytes: &[u8], proof_bytes: &[u8], public_inputs_bytes: &[u8]) -> (res:
        Result<(), OnChainError>)
        ensures
            !vk_accepts(vk_bytes@) ==> res == Err::<(), OnChainError>(
                OnChainError::VerifyingKeyLengthMismatch,
            ),
            vk_accepts(vk_bytes@) && !proof_accepts(proof_bytes@) ==> res == Err::<(), OnChainError>(
                OnChainError::ProofLengthMismatch,
            ),
            vk_accepts(vk_bytes@) && proof_accepts(proof_bytes@) && le_u32_at(vk_bytes@, 8)
                != hdr_n_advice(proof_bytes@) ==> res == Err::<(), OnChainError>(
                OnChainError::VerifyingKeyProofMismatch,
            ),
            vk_accepts(vk_bytes@) && proof_accepts(proof_bytes@) && le_u32_at(vk_bytes@, 8)
                == hdr_n_advice(proof_bytes@) ==> {
                let n = le_u32_at(vk_bytes@, 4);
                let pi = public_inputs_bytes@;
                &&& pi.len() % 32 != 0 ==> res == Err::<(), OnChainError>(
                    OnChainError::ProofLengthMismatch,
                )
                &&& pi.len() % 32 == 0 && pi.len() / 32 != n ==> res == Err::<(), OnChainError>(
                    OnChainError::PublicInputCountMismatch,
                )
                &&& pi.len() % 32 == 0 && pi.len() / 32 == n && !instances_ok(pi, n) ==> res
                    == Err::<(), OnChainError>(OnChainError::PublicInputOutOfRange)
            },
            res is Ok ==> {
                &&& vk_accepts(vk_bytes@)
                &&& proof_accepts(proof_bytes@)
                &&& le_u32_at(vk_bytes@, 8) == hdr_n_advice(proof_bytes@)
                &&& instances_ok(public_inputs_bytes@, le_u32_at(vk_bytes@, 4))
                &&& hdr_n_evals(proof_bytes@) == expected_evals(
                    hdr_arity(proof_bytes@),
                    hdr_n_quotient(proof_bytes@),
                )
                &&& slots_ok(hdr_evaluations(proof_bytes@), hdr_n_evals(proof_bytes@))
                &&& be_nat(vk_bytes@.subrange(144, 176)) < fr_modulus()
            },
            vk_accepts(vk_bytes@) && proof_accepts(proof_bytes@) && le_u32_at(vk_bytes@, 8)
                == hdr_n_advice(proof_bytes@) && instances_ok(
                public_inputs_bytes@,
                le_u32_at(vk_bytes@, 4),
            ) ==> exists|vk: Halo2KzgVerifyingKey, p: Halo2KzgProof|
                #![trigger vk_layout(vk, vk_bytes@), proof_layout(p, proof_bytes@)]
                vk_layout(vk, vk_bytes@) && proof_layout(p, proof_bytes@) && match halo2_rounds(
                    self.backend(),
                    vk,
                    public_inputs_bytes@,
                    p,
                ) {
                    Err(err) => res == Err::<(), OnChainError>(err),
                    Ok(r) => {
                        let m = fr_modulus();
                        let n = expected_evals(layout_arity(p.lookup_arity), p.n_quotient as nat);
                        &&& !(p.n_evals == n && p.evaluations@.len() == 32 * n) ==> res == Err::<
                            (),
                            OnChainError,
                        >(OnChainError::ProofLengthMismatch)
                        &&& p.n_evals == n && p.evaluations@.len() == 32 * n && !slots_ok(
                            p.evaluations@,
                            n,
                        ) ==> res == Err::<(), OnChainError>(OnChainError::PublicInputOutOfRange)
                        &&& (p.n_evals == n && p.evaluations@.len() == 32 * n && slots_ok(
                            p.evaluations@,
                            n,
                        )) ==> exists|e: EvaluationBundle|
                            #[trigger] bundle_layout(
                                e,
                                slot_values(p.evaluations@, n),
                                layout_arity(p.lookup_arity) as int,
                            ) && (vanishing_holds(
                                vk.k as nat,
                                e,
                                be_nat(r[0]) % m,
                                be_nat(r[1]) % m,
                                be_nat(r[2]) % m,
                                be_nat(r[3]) % m,
                                be_nat(r[4]) % m,
                            ) ==> res == halo2_opening_verdict(
                                self.backend(),
                                vk,
                                p,
                                e,
                                be_nat(r[4]) % m,
                            )) && (!vanishing_holds(
                                vk.k as nat,
                                e,
                                be_nat(r[0]) % m,
                                be_nat(r[1]) % m,
                                be_nat(r[2]) % m,
                                be_nat(r[3]) % m,
                                be_nat(r[4]) % m,
                            ) ==> res == Err::<(), OnChainError>(
                                vanishing_error(vk.k as nat, e, be_nat(r[0]) % m),
                            ))
                    },
                },
            res is Ok ==> exists|
                vk: Halo2KzgVerifyingKey,
                p: Halo2KzgProof,
                r: Seq<Seq<u8>>,
                e: EvaluationBundle,
            |
                #[trigger] halo2_accepted(
                    self.backend(),
                    vk_bytes@,
                    proof_bytes@,
                    public_inputs_bytes@,
                    vk,
                    p,
                    r,
                    e,
                ),
    {
        let vk = Halo2KzgVerifyingKey::from_bytes(vk_bytes)?;
        let proof = Halo2KzgProof::from_bytes(proof_bytes)?;
        if vk.n_advice != proof.n_advice {
            return Err(OnChainError::VerifyingKeyProofMismatch);
        }
        let (ch, t) = derive_challenges(self.backend, &vk, public_inputs_bytes, &proof)?;
        let ghost r = t.replies();
        proof {
            assert(halo2_rounds(self.backend, vk, public_inputs_bytes@, proof) == Ok::<
                Seq<Seq<u8>>,
                OnChainError,
            >(r));
        }
        let bundle = EvaluationBundle::from_proof(&proof)?;
        proof {
            assert(proof.evaluations@ == hdr_evaluations(proof_bytes@));
            assert(slots_ok(hdr_evaluations(proof_bytes@), hdr_n_evals(proof_bytes@)));
        }
        check_vanishing(vk.k, &bundle, &ch)?;
        let ghost m = fr_modulus();
        proof {
            assert(vanishing_holds(
                vk.k as nat,
                bundle,
                be_nat(r[0]) % m,
                be_nat(r[1]) % m,
                be_nat(r[2]) % m,
                be_nat(r[3]) % m,
                be_nat(r[4]) % m,
            ));
            crate::field::lemma_fr_encoding(ch.xi);
        }
        proof {
            assert(ch.xi@ == be_nat(r[4]) % m);
        }
        self.open_at_xi(&vk, &proof, &bundle, &ch.xi)?;
        proof {
            assert(halo2_accepted(
                self.backend(),
                vk_bytes@,
                proof_bytes@,
                public_inputs_bytes@,
                vk,
                proof,
                r,
                bundle,
            ));
        }
        Ok(())
    }
}

/// The little-endian `u32` at byte `off` of `b`.
pub open spec fn le_u32_at(b: Seq<u8>, off: int) -> nat {
    crate::bytes::le_u32(b.subrange(off, off + 4))
}

} // verus!
