//! PLONK linearization and the KZG batched-opening pairing check, in the
//! snarkjs order:
//!
//! ```text
//! D  = Qm·(a·b) + Ql·a + Qr·b + Qo·c + Qc
//!      + Z·(α·(a + βξ + γ)(b + βk₁ξ + γ)(c + βk₂ξ + γ) + α²·L₁(ξ) + u)
//!      − S3·((a + β·s1 + γ)(b + β·s2 + γ)·α·β·z_ω)
//!      − Z_H(ξ)·(T1 + ξⁿ·T2 + ξ²ⁿ·T3)
//! F  = D + v·A + v²·B + v³·C + v⁴·S1 + v⁵·S2
//! E  = (−r₀ + v·a + v²·b + v³·c + v⁴·s1 + v⁵·s2 + u·z_ω)·[1]₁
//! A1 = W_ξ + u·W_ξω
//! B1 = ξ·W_ξ + u·ξ·ω·W_ξω + F − E
//! e(−A1, [x]₂) · e(B1, [1]₂) = 1
//! ```
//!
//! Scalars are computed here and proved against their formulas; group
//! operations and the pairing are the backend's.
use vstd::prelude::*;
use vstd::arithmetic::power2::pow2;
use crate::bytes::{be_nat, chunk_at, chunks_exact};
use crate::error::OnChainError;
use crate::field::{
    add_fe, ark_pow, fe, finv, fpow, fr_values, lemma_fe_idem, mul_fe, neg_fe, sub_fe, val, Fr,
};
use crate::fr::fr_modulus;
use crate::curve::{
    add_g1, add_spec, g1_generator_bytes, g2_generator_bytes, msm_g1, msm_spec, mul_spec,
    neg_point, negate_g1, pairing_spec, point_is, scalar_mul_g1, scalar_views, slice_views,
    verify_two_pair_pairing, G1_GENERATOR, G2_GENERATOR,
};
use crate::field::lemma_fr_encoding;
use crate::transcript::fr_bytes;
use crate::halo2::challenges::instances_ok;
use crate::plonk::canonical::{PlonkProof, PlonkVerifyingKey};
use crate::plonk::challenges::{canonical_fr, RoundChallenges};
use crate::syscall::SyscallBackend;

verus! {

/// Denominator of `L_i(ξ)`: `n·(ξ − ωⁱ)`.
pub open spec fn lagrange_den(xi: nat, i: nat, n: nat, omega: nat) -> nat {
    fe(n * (xi - fpow(omega, i)))
}

/// `L_i(ξ) = ωⁱ·(ξⁿ − 1) / (n·(ξ − ωⁱ))` over the field.
pub open spec fn lagrange_value(xi: nat, i: nat, n: nat, omega: nat) -> nat {
    fe(fpow(omega, i) * (fpow(xi, n) - 1) * finv(lagrange_den(xi, i, n, omega)))
}

/// `L_0 … L_(len−1)` all have a non-zero denominator.
pub open spec fn lagranges_defined(len: nat, xi: nat, n: nat, omega: nat) -> bool {
    forall|i: nat| i < len ==> #[trigger] lagrange_den(xi, i, n, omega) != 0
}

/// `Σ_i p_i · L_i(ξ)` over the integers.
pub open spec fn pi_sum(p: Seq<nat>, xi: nat, n: nat, omega: nat) -> int
    decreases p.len(),
{
    if p.len() == 0 {
        0
    } else {
        pi_sum(p.drop_last(), xi, n, omega) + p.last() * lagrange_value(
            xi,
            (p.len() - 1) as nat,
            n,
            omega,
        )
    }
}

/// The public-input polynomial at ξ: `PI(ξ) = −Σ_i p_i · L_i(ξ)`.
pub open spec fn pi_value(p: Seq<nat>, xi: nat, n: nat, omega: nat) -> nat {
    fe(-pi_sum(p, xi, n, omega))
}

/// The scalars encoded by a public-input buffer.
pub open spec fn pi_values(b: Seq<u8>) -> Seq<nat> {
    Seq::new(b.len() / 32, |i: int| be_nat(chunk_at(b, 32, i)))
}

/// `L_i(ξ)`; a zero denominator is an internal invariant violation.
pub fn lagrange_basis_at(xi: &Fr, i: u64, n: u64, omega: &Fr) -> (res: Result<Fr, OnChainError>)
    ensures
        res is Ok <==> lagrange_den(xi@, i as nat, n as nat, omega@) != 0,
        res matches Ok(l) ==> l@ == lagrange_value(xi@, i as nat, n as nat, omega@),
        res is Err ==> res == Err::<Fr, OnChainError>(OnChainError::InternalInvariantViolation),
{
    let wi = ark_pow(omega, i);
    let xin = ark_pow(xi, n);
    let one = Fr::one();
    let ghost (w, x, xn) = (val(wi), val(*xi), val(xin));
    let zh = sub_fe(&xin, &one, Ghost(xn), Ghost(1));
    let num = mul_fe(&wi, &zh, Ghost(w), Ghost(xn - 1));
    let n_fr = Fr::from_u64(n);
    let d = sub_fe(xi, &wi, Ghost(x), Ghost(w));
    proof {
        lemma_fe_idem(n as int);
    }
    let den = mul_fe(&n_fr, &d, Ghost(n as int), Ghost(x - w));
    proof {
        lemma_fe_idem(n * (x - w));
    }
    match den.inverse() {
        None => Err(OnChainError::InternalInvariantViolation),
        Some(inv) => {
            proof {
                lemma_fe_idem(finv(den@) as int);
                crate::field::lemma_fe_small(inv@ as int);
            }
            Ok(mul_fe(&num, &inv, Ghost(w * (xn - 1)), Ghost(finv(den@) as int)))
        },
    }
}

/// `PI(ξ) = −Σ_i p_i · L_i(ξ)` over the public inputs; a zero Lagrange
/// denominator is an internal invariant violation.
pub fn evaluate_public_input_poly(xi: &Fr, omega: &Fr, n: u64, pis: &[Fr]) -> (res: Result<
    Fr,
    OnChainError,
>)
    ensures
        res is Ok <==> lagranges_defined(pis@.len(), xi@, n as nat, omega@),
        res matches Ok(p) ==> p@ == pi_value(fr_values(pis@), xi@, n as nat, omega@),
        res is Err ==> res == Err::<Fr, OnChainError>(OnChainError::InternalInvariantViolation),
{
    let mut acc = Fr::zero();
    let len = pis.len();
    let mut i: usize = 0;
    proof {
        assert(fr_values(pis@.take(0)) =~= Seq::<nat>::empty());
        crate::field::lemma_fe_small(0);
    }
    while i < len
        invariant
            0 <= i <= len,
            len == pis@.len(),
            len <= usize::MAX,
            acc@ == pi_value(fr_values(pis@.take(i as int)), xi@, n as nat, omega@),
            lagranges_defined(i as nat, xi@, n as nat, omega@),
        decreases len - i,
    {
        let l = match lagrange_basis_at(xi, i as u64, n, omega) {
            Ok(l) => l,
            Err(e) => {
                proof {
                    assert(lagrange_den(xi@, i as nat, n as nat, omega@) == 0);
                }
                return Err(e);
            },
        };
        let ghost s = pi_sum(fr_values(pis@.take(i as int)), xi@, n as nat, omega@);
        let ghost p = val(pis[i as int]);
        let t = mul_fe(&pis[i], &l, Ghost(p), Ghost(val(l)));
        proof {
            lemma_fe_idem(-s);
        }
        acc = sub_fe(&acc, &t, Ghost(-s), Ghost(p * val(l)));
        proof {
            let v = fr_values(pis@.take(i + 1));
            assert(v.drop_last() =~= fr_values(pis@.take(i as int)));
            assert(v.last() == pis@[i as int]@);
            assert(-s - p * val(l) == -(s + p * val(l)));
            assert forall|j: nat| j < i + 1 implies #[trigger] lagrange_den(
                xi@,
                j,
                n as nat,
                omega@,
            ) != 0 by {
                if j < i {
                    assert(lagrange_den(xi@, j, n as nat, omega@) != 0);
                }
            }
        }
        i = i + 1;
    }
    proof {
        assert(pis@.take(len as int) =~= pis@);
    }
    Ok(acc)
}

/// Decode a buffer of canonical 32-byte scalars. A length that is not a
/// multiple of 32 is a count error, a scalar at or above `r` a range
/// error.
pub fn decode_public_inputs(bytes: &[u8]) -> (res: Result<Vec<Fr>, OnChainError>)
    ensures
        res is Ok <==> instances_ok(bytes@, bytes@.len() / 32),
        res matches Ok(v) ==> fr_values(v@) == pi_values(bytes@),
        bytes@.len() % 32 != 0 ==> res == Err::<Vec<Fr>, OnChainError>(
            OnChainError::PublicInputCountMismatch,
        ),
        bytes@.len() % 32 == 0 && res is Err ==> res == Err::<Vec<Fr>, OnChainError>(
            OnChainError::PublicInputOutOfRange,
        ),
{
    if bytes.len() % 32 != 0 {
        return Err(OnChainError::PublicInputCountMismatch);
    }
    let chunks = chunks_exact(bytes, 32);
    let mut out: Vec<Fr> = Vec::new();
    let mut i: usize = 0;
    while i < chunks.len()
        invariant
            0 <= i <= chunks@.len(),
            chunks@.len() == bytes@.len() / 32,
            bytes@.len() % 32 == 0,
            forall|j: int| 0 <= j < chunks@.len() ==> (#[trigger] chunks@[j])@ == chunk_at(bytes@, 32, j),
            out@.len() == i,
            forall|j: int| 0 <= j < i ==> (#[trigger] out@[j])@ == be_nat(chunk_at(bytes@, 32, j))
                && be_nat(chunk_at(bytes@, 32, j)) < fr_modulus(),
        decreases chunks@.len() - i,
    {
        let f = match Fr::from_canonical_bytes(chunks[i]) {
            Ok(f) => f,
            Err(_) => {
                proof {
                    assert(chunk_at(bytes@, 32, i as int).len() == 32) by {
                        vstd::arithmetic::div_mod::lemma_fundamental_div_mod(bytes@.len() as int, 32);
                    }
                    assert(!(be_nat(chunk_at(bytes@, 32, i as int)) < fr_modulus()));
                }
                return Err(OnChainError::PublicInputOutOfRange);
            },
        };
        let ghost before = out@;
        out.push(f);
        proof {
            assert forall|j: int| 0 <= j < i + 1 implies (#[trigger] out@[j])@ == be_nat(
                chunk_at(bytes@, 32, j),
            ) && be_nat(chunk_at(bytes@, 32, j)) < fr_modulus() by {
                if j < i {
                    assert(out@[j] == before[j]);
                }
            }
        }
        i = i + 1;
    }
    proof {
        assert(fr_values(out@) =~= pi_values(bytes@));
        assert forall|j: int| 0 <= j < bytes@.len() / 32 implies be_nat(
            #[trigger] chunk_at(bytes@, 32, j),
        ) < fr_modulus() by {
            assert(out@[j]@ == be_nat(chunk_at(bytes@, 32, j)));
        }
    }
    Ok(out)
}

/// `2^power` as a `u64`.
fn domain_size(power: u32) -> (n: u64)
    requires
        power < 64,
    ensures
        n == pow2(power as nat),
{
    proof {
        vstd::bits::lemma_u64_pow2_no_overflow(power as nat);
        vstd::bits::lemma_u64_shl_is_mul(1, power as u64);
    }
    1u64 << (power as u64)
}

/// The six evaluations of the proof are canonical scalars.
pub open spec fn evals_canonical(p: PlonkProof) -> bool {
    &&& canonical_fr(p.eval_a@)
    &&& canonical_fr(p.eval_b@)
    &&& canonical_fr(p.eval_c@)
    &&& canonical_fr(p.eval_s1@)
    &&& canonical_fr(p.eval_s2@)
    &&& canonical_fr(p.eval_zw@)
}

/// The error a non-canonical scalar encoding decodes to: a wrong length is
/// an encoding error, a value at or above `r` a range error.
pub open spec fn decode_error(b: Seq<u8>) -> OnChainError {
    if b.len() != 32 {
        OnChainError::InvalidFieldEncoding
    } else {
        OnChainError::PublicInputOutOfRange
    }
}

/// The wire evaluations `a, b, c` are canonical scalars.
pub open spec fn wires_canonical(p: PlonkProof) -> bool {
    &&& canonical_fr(p.eval_a@)
    &&& canonical_fr(p.eval_b@)
    &&& canonical_fr(p.eval_c@)
}

/// The error of the first non-canonical wire evaluation.
pub open spec fn wires_error(p: PlonkProof) -> OnChainError {
    if !canonical_fr(p.eval_a@) {
        decode_error(p.eval_a@)
    } else if !canonical_fr(p.eval_b@) {
        decode_error(p.eval_b@)
    } else {
        decode_error(p.eval_c@)
    }
}

/// The error of the first non-canonical evaluation, in the order
/// `a, b, c, s1, s2, z_ω`.
pub open spec fn evals_error(p: PlonkProof) -> OnChainError {
    if !wires_canonical(p) {
        wires_error(p)
    } else if !canonical_fr(p.eval_s1@) {
        decode_error(p.eval_s1@)
    } else if !canonical_fr(p.eval_s2@) {
        decode_error(p.eval_s2@)
    } else {
        decode_error(p.eval_zw@)
    }
}

/// `α·(a + β·s1 + γ)·(b + β·s2 + γ)·(c + γ)·z_ω` over the field.
pub open spec fn e3_value(
    ea: nat,
    eb: nat,
    ec: nat,
    es1: nat,
    es2: nat,
    ezw: nat,
    beta: nat,
    gamma: nat,
    alpha: nat,
) -> nat {
    fe(((ea + beta * es1 + gamma) * (eb + beta * es2 + gamma) * (ec + gamma) * ezw * alpha) as int)
}

/// The inputs from which every scalar can be derived.
pub open spec fn derive_ok(
    c: RoundChallenges,
    vk: PlonkVerifyingKey,
    p: PlonkProof,
    pi: Seq<u8>,
) -> bool {
    let n = pow2(vk.power as nat);
    let xi = be_nat(c.xi@);
    let omega = be_nat(vk.omega@);
    &&& c.canonical()
    &&& canonical_fr(vk.k1@)
    &&& canonical_fr(vk.k2@)
    &&& canonical_fr(vk.omega@)
    &&& vk.power < 64
    &&& lagrange_den(xi, 0, n, omega) != 0
    &&& instances_ok(pi, pi.len() / 32)
    &&& lagranges_defined(pi.len() / 32, xi, n, omega)
    &&& evals_canonical(p)
}

/// The scalars the linearization consumes.
#[derive(Clone, Copy, Debug)]
pub struct ComputedScalars {
    /// β.
    pub beta: Fr,
    /// γ.
    pub gamma: Fr,
    /// α.
    pub alpha: Fr,
    /// ξ.
    pub xi: Fr,
    /// `vⁱ` for `i < 6`.
    pub v_powers: [Fr; 6],
    /// u.
    pub u: Fr,
    /// `ξⁿ`.
    pub xi_n: Fr,
    /// `Z_H(ξ) = ξⁿ − 1`.
    pub zh: Fr,
    /// `L₁(ξ)`, the Lagrange basis at `ω⁰`.
    pub l1: Fr,
    /// `PI(ξ)`.
    pub pi: Fr,
    /// Constant term `r₀ = PI(ξ) − α²·L₁(ξ) − α·(a + β·s1 + γ)(b + β·s2 + γ)(c + γ)·z_ω`.
    pub r0: Fr,
    /// First coset shift.
    pub k1: Fr,
    /// Second coset shift.
    pub k2: Fr,
    /// Domain generator ω.
    pub omega: Fr,
    /// Domain size `n = 2^power`.
    pub n: u64,
}

impl ComputedScalars {
    /// Every field holds the value its formula gives for these inputs.
    pub open spec fn matches(
        &self,
        c: RoundChallenges,
        vk: PlonkVerifyingKey,
        p: PlonkProof,
        pi: Seq<u8>,
    ) -> bool {
        let n = pow2(vk.power as nat);
        let xi = be_nat(c.xi@);
        let omega = be_nat(vk.omega@);
        let alpha = be_nat(c.alpha@);
        &&& self.beta@ == be_nat(c.beta@)
        &&& self.gamma@ == be_nat(c.gamma@)
        &&& self.alpha@ == alpha
        &&& self.xi@ == xi
        &&& self.u@ == be_nat(c.u@)
        &&& forall|i: int| 0 <= i < 6 ==> (#[trigger] self.v_powers@[i])@ == fpow(
            be_nat(c.v@),
            i as nat,
        )
        &&& self.k1@ == be_nat(vk.k1@)
        &&& self.k2@ == be_nat(vk.k2@)
        &&& self.omega@ == omega
        &&& self.n == n
        &&& self.xi_n@ == fpow(xi, n)
        &&& self.zh@ == fe(fpow(xi, n) - 1)
        &&& self.l1@ == lagrange_value(xi, 0, n, omega)
        &&& self.pi@ == pi_value(pi_values(pi), xi, n, omega)
        &&& self.r0@ == fe(
            self.pi@ - self.l1@ * alpha * alpha - e3_value(
                be_nat(p.eval_a@),
                be_nat(p.eval_b@),
                be_nat(p.eval_c@),
                be_nat(p.eval_s1@),
                be_nat(p.eval_s2@),
                be_nat(p.eval_zw@),
                be_nat(c.beta@),
                be_nat(c.gamma@),
                alpha,
            ),
        )
    }

    /// Derive the scalars from the challenges, the key, the proof's
    /// evaluations and the public inputs. Fails exactly when one of them
    /// is not a canonical scalar, the domain power is 64 or more, or a
    /// Lagrange denominator vanishes.
    pub fn derive(
        challenges: &RoundChallenges,
        vk: &PlonkVerifyingKey,
        proof: &PlonkProof,
        public_inputs_bytes: &[u8],
    ) -> (res: Result<Self, OnChainError>)
        ensures
            res is Ok <==> derive_ok(*challenges, *vk, *proof, public_inputs_bytes@),
            res matches Ok(s) ==> s.matches(*challenges, *vk, *proof, public_inputs_bytes@),
    {
        let beta = Fr::from_canonical_bytes(&challenges.beta)?;
        let gamma = Fr::from_canonical_bytes(&challenges.gamma)?;
        let alpha = Fr::from_canonical_bytes(&challenges.alpha)?;
        let xi = Fr::from_canonical_bytes(&challenges.xi)?;
        let v = Fr::from_canonical_bytes(&challenges.v)?;
        let u = Fr::from_canonical_bytes(&challenges.u)?;
        let v_powers = compute_v_powers(&v);
        let k1 = Fr::from_canonical_bytes(&vk.k1)?;
        let k2 = Fr::from_canonical_bytes(&vk.k2)?;
        let omega = Fr::from_canonical_bytes(&vk.omega)?;
        if vk.power >= 64 {
            return Err(OnChainError::InternalInvariantViolation);
        }
        let n = domain_size(vk.power);
        let xi_n = ark_pow(&xi, n);
        let one = Fr::one();
        let zh = sub_fe(&xi_n, &one, Ghost(val(xi_n)), Ghost(1));
        let l1 = lagrange_basis_at(&xi, 0, n, &omega)?;
        let pis = match decode_public_inputs(public_inputs_bytes) {
            Ok(p) => p,
            Err(e) => {
                return Err(e);
            },
        };
        proof {
            assert(fr_values(pis@).len() == pis@.len());
            assert(pi_values(public_inputs_bytes@).len() == public_inputs_bytes@.len() / 32);
        }
        let pi = evaluate_public_input_poly(&xi, &omega, n, pis.as_slice())?;
        let e3 = compute_e3(proof, &beta, &gamma, &alpha)?;
        let ghost (a, l, p, t3) = (val(alpha), val(l1), val(pi), val(e3));
        let alpha_sq = mul_fe(&alpha, &alpha, Ghost(a), Ghost(a));
        let t = mul_fe(&l1, &alpha_sq, Ghost(l), Ghost(a * a));
        let d = sub_fe(&pi, &t, Ghost(p), Ghost(l * (a * a)));
        let r0 = sub_fe(&d, &e3, Ghost(p - l * (a * a)), Ghost(t3));
        proof {
            assert(l * (a * a) == l * a * a) by (nonlinear_arith);
            assert(pis@.len() == public_inputs_bytes@.len() / 32);
        }
        Ok(ComputedScalars {
            beta,
            gamma,
            alpha,
            xi,
            v_powers,
            u,
            xi_n,
            zh,
            l1,
            pi,
            r0,
            k1,
            k2,
            omega,
            n,
        })
    }
}

/// `[1, v, v², v³, v⁴, v⁵]`.
fn compute_v_powers(v: &Fr) -> (res: [Fr; 6])
    ensures
        forall|i: int| 0 <= i < 6 ==> (#[trigger] res@[i])@ == fpow(v@, i as nat),
{
    let p = crate::field::powers_of(v, 6);
    let res = [p[0], p[1], p[2], p[3], p[4], p[5]];
    proof {
        assert forall|i: int| 0 <= i < 6 implies (#[trigger] res@[i])@ == fpow(v@, i as nat) by {
            assert(res@[i] == p@[i]);
        }
    }
    res
}

/// Decode the six evaluations of a proof.
fn decode_evals(proof: &PlonkProof) -> (res: Result<[Fr; 6], OnChainError>)
    ensures
        res is Ok <==> evals_canonical(*proof),
        res is Err ==> res == Err::<[Fr; 6], OnChainError>(evals_error(*proof)),
        res matches Ok(e) ==> {
            &&& e[0]@ == be_nat(proof.eval_a@)
            &&& e[1]@ == be_nat(proof.eval_b@)
            &&& e[2]@ == be_nat(proof.eval_c@)
            &&& e[3]@ == be_nat(proof.eval_s1@)
            &&& e[4]@ == be_nat(proof.eval_s2@)
            &&& e[5]@ == be_nat(proof.eval_zw@)
        },
{
    let a = Fr::from_canonical_bytes(proof.eval_a)?;
    let b = Fr::from_canonical_bytes(proof.eval_b)?;
    let c = Fr::from_canonical_bytes(proof.eval_c)?;
    let s1 = Fr::from_canonical_bytes(proof.eval_s1)?;
    let s2 = Fr::from_canonical_bytes(proof.eval_s2)?;
    let zw = Fr::from_canonical_bytes(proof.eval_zw)?;
    Ok([a, b, c, s1, s2, zw])
}

/// `α·(a + β·s1 + γ)·(b + β·s2 + γ)·(c + γ)·z_ω`.
fn compute_e3(proof: &PlonkProof, beta: &Fr, gamma: &Fr, alpha: &Fr) -> (res: Result<
    Fr,
    OnChainError,
>)
    ensures
        res is Ok <==> evals_canonical(*proof),
        res matches Ok(v) ==> v@ == e3_value(
            be_nat(proof.eval_a@),
            be_nat(proof.eval_b@),
            be_nat(proof.eval_c@),
            be_nat(proof.eval_s1@),
            be_nat(proof.eval_s2@),
            be_nat(proof.eval_zw@),
            beta@,
            gamma@,
            alpha@,
        ),
{
    let e = decode_evals(proof)?;
    let ghost (ea, eb, ec, s1, s2, zw) = (val(e[0]), val(e[1]), val(e[2]), val(e[3]), val(e[4]), val(e[5]));
    let ghost (b, g, a) = (val(*beta), val(*gamma), val(*alpha));
    let bs1 = mul_fe(beta, &e[3], Ghost(b), Ghost(s1));
    let x = add_fe(&e[0], &bs1, Ghost(ea), Ghost(b * s1));
    let e3a = add_fe(&x, gamma, Ghost(ea + b * s1), Ghost(g));
    let bs2 = mul_fe(beta, &e[4], Ghost(b), Ghost(s2));
    let y = add_fe(&e[1], &bs2, Ghost(eb), Ghost(b * s2));
    let e3b = add_fe(&y, gamma, Ghost(eb + b * s2), Ghost(g));
    let e3c = add_fe(&e[2], gamma, Ghost(ec), Ghost(g));
    let p1 = mul_fe(&e3a, &e3b, Ghost(ea + b * s1 + g), Ghost(eb + b * s2 + g));
    let p2 = mul_fe(&p1, &e3c, Ghost((ea + b * s1 + g) * (eb + b * s2 + g)), Ghost(ec + g));
    let p3 = mul_fe(
        &p2,
        &e[5],
        Ghost((ea + b * s1 + g) * (eb + b * s2 + g) * (ec + g)),
        Ghost(zw),
    );
    Ok(mul_fe(&p3, alpha, Ghost((ea + b * s1 + g) * (eb + b * s2 + g) * (ec + g) * zw), Ghost(a)))
}

/// Coefficients of `Qm, Ql, Qr, Qo, Qc` in `D`: `[a·b, a, b, c, 1]`.
pub open spec fn gate_coeffs(ea: nat, eb: nat, ec: nat) -> Seq<nat> {
    seq![fe((ea * eb) as int), ea, eb, ec, 1]
}

/// Coefficient of `Z` in `D`:
/// `α·(a + βξ + γ)(b + βξk₁ + γ)(c + βξk₂ + γ) + α²·L₁(ξ) + u`.
pub open spec fn d2_value(ea: nat, eb: nat, ec: nat, s: ComputedScalars) -> nat {
    let (b, g, a, x) = (s.beta@, s.gamma@, s.alpha@, s.xi@);
    fe(
        ((ea + b * x + g) * (eb + b * x * s.k1@ + g) * (ec + b * x * s.k2@ + g) * a + s.l1@ * a
            * a + s.u@) as int,
    )
}

/// Coefficient of `S3` in `D`: `(a + β·s1 + γ)(b + β·s2 + γ)·α·β·z_ω`.
pub open spec fn d3_value(ea: nat, eb: nat, es1: nat, es2: nat, ezw: nat, s: ComputedScalars) -> nat {
    let (b, g, a) = (s.beta@, s.gamma@, s.alpha@);
    fe(((ea + b * es1 + g) * (eb + b * es2 + g) * (a * b * ezw)) as int)
}

/// Coefficients of `T1, T2, T3` in `D`: `[Z_H, Z_H·ξⁿ, Z_H·ξ²ⁿ]`.
pub open spec fn quotient_coeffs(s: ComputedScalars) -> Seq<nat> {
    seq![s.zh@, fe((s.zh@ * s.xi_n@) as int), fe((s.zh@ * (s.xi_n@ * s.xi_n@)) as int)]
}

/// The scalar of `E`:
/// `−r₀ + v·a + v²·b + v³·c + v⁴·s1 + v⁵·s2 + u·z_ω`.
pub open spec fn e_value(
    ea: nat,
    eb: nat,
    ec: nat,
    es1: nat,
    es2: nat,
    ezw: nat,
    s: ComputedScalars,
) -> nat {
    let v = s.v_powers@;
    fe(
        -s.r0@ + v[1]@ * ea + v[2]@ * eb + v[3]@ * ec + v[4]@ * es1 + v[5]@ * es2 + s.u@ * ezw,
    )
}

/// Coefficient of `W_ξω` in `B1`: `u·ξ·ω`.
pub open spec fn opening_coeff(s: ComputedScalars) -> nat {
    fe((s.u@ * s.xi@ * s.omega@) as int)
}

/// `[a·b, a, b, c, 1]`.
pub fn gate_scalars(ea: &Fr, eb: &Fr, ec: &Fr) -> (res: [Fr; 5])
    ensures
        forall|i: int| 0 <= i < 5 ==> (#[trigger] res@[i])@ == gate_coeffs(ea@, eb@, ec@)[i],
{
    let ab = mul_fe(ea, eb, Ghost(val(*ea)), Ghost(val(*eb)));
    let res = [ab, *ea, *eb, *ec, Fr::one()];
    proof {
        assert forall|i: int| 0 <= i < 5 implies (#[trigger] res@[i])@ == gate_coeffs(
            ea@,
            eb@,
            ec@,
        )[i] by {
            if i == 0 {
                assert(res@[0] == ab);
            }
        }
    }
    res
}

/// The coefficient of `Z` in `D`.
pub fn d2_coefficient(ea: &Fr, eb: &Fr, ec: &Fr, s: &ComputedScalars) -> (res: Fr)
    ensures
        res@ == d2_value(ea@, eb@, ec@, *s),
{
    let ghost (a_, b_, c_) = (val(*ea), val(*eb), val(*ec));
    let ghost (b, g, a, x, k1, k2, l, u) = (
        val(s.beta),
        val(s.gamma),
        val(s.alpha),
        val(s.xi),
        val(s.k1),
        val(s.k2),
        val(s.l1),
        val(s.u),
    );
    let bx = mul_fe(&s.beta, &s.xi, Ghost(b), Ghost(x));
    let t = add_fe(ea, &bx, Ghost(a_), Ghost(b * x));
    let f1 = add_fe(&t, &s.gamma, Ghost(a_ + b * x), Ghost(g));
    let bxk1 = mul_fe(&bx, &s.k1, Ghost(b * x), Ghost(k1));
    let t = add_fe(eb, &bxk1, Ghost(b_), Ghost(b * x * k1));
    let f2 = add_fe(&t, &s.gamma, Ghost(b_ + b * x * k1), Ghost(g));
    let bxk2 = mul_fe(&bx, &s.k2, Ghost(b * x), Ghost(k2));
    let t = add_fe(ec, &bxk2, Ghost(c_), Ghost(b * x * k2));
    let f3 = add_fe(&t, &s.gamma, Ghost(c_ + b * x * k2), Ghost(g));
    let ghost (g1, g2, g3) = (a_ + b * x + g, b_ + b * x * k1 + g, c_ + b * x * k2 + g);
    let p = mul_fe(&f1, &f2, Ghost(g1), Ghost(g2));
    let p = mul_fe(&p, &f3, Ghost(g1 * g2), Ghost(g3));
    let d2a = mul_fe(&p, &s.alpha, Ghost(g1 * g2 * g3), Ghost(a));
    let la = mul_fe(&s.l1, &s.alpha, Ghost(l), Ghost(a));
    let d2b = mul_fe(&la, &s.alpha, Ghost(l * a), Ghost(a));
    let t = add_fe(&d2a, &d2b, Ghost(g1 * g2 * g3 * a), Ghost(l * a * a));
    add_fe(&t, &s.u, Ghost(g1 * g2 * g3 * a + l * a * a), Ghost(u))
}

/// The coefficient of `S3` in `D`.
pub fn d3_coefficient(ea: &Fr, eb: &Fr, es1: &Fr, es2: &Fr, ezw: &Fr, s: &ComputedScalars) -> (res:
    Fr)
    ensures
        res@ == d3_value(ea@, eb@, es1@, es2@, ezw@, *s),
{
    let ghost (a_, b_, s1, s2, zw) = (val(*ea), val(*eb), val(*es1), val(*es2), val(*ezw));
    let ghost (b, g, a) = (val(s.beta), val(s.gamma), val(s.alpha));
    let bs1 = mul_fe(&s.beta, es1, Ghost(b), Ghost(s1));
    let t = add_fe(ea, &bs1, Ghost(a_), Ghost(b * s1));
    let d3a = add_fe(&t, &s.gamma, Ghost(a_ + b * s1), Ghost(g));
    let bs2 = mul_fe(&s.beta, es2, Ghost(b), Ghost(s2));
    let t = add_fe(eb, &bs2, Ghost(b_), Ghost(b * s2));
    let d3b = add_fe(&t, &s.gamma, Ghost(b_ + b * s2), Ghost(g));
    let ab = mul_fe(&s.alpha, &s.beta, Ghost(a), Ghost(b));
    let d3c = mul_fe(&ab, ezw, Ghost(a * b), Ghost(zw));
    let p = mul_fe(&d3a, &d3b, Ghost(a_ + b * s1 + g), Ghost(b_ + b * s2 + g));
    mul_fe(&p, &d3c, Ghost((a_ + b * s1 + g) * (b_ + b * s2 + g)), Ghost(a * b * zw))
}

/// `[Z_H, Z_H·ξⁿ, Z_H·ξ²ⁿ]`.
pub fn quotient_scalars(s: &ComputedScalars) -> (res: [Fr; 3])
    ensures
        forall|i: int| 0 <= i < 3 ==> (#[trigger] res@[i])@ == quotient_coeffs(*s)[i],
{
    let ghost (z, x) = (val(s.zh), val(s.xi_n));
    let x2 = mul_fe(&s.xi_n, &s.xi_n, Ghost(x), Ghost(x));
    let q1 = mul_fe(&s.zh, &s.xi_n, Ghost(z), Ghost(x));
    let q2 = mul_fe(&s.zh, &x2, Ghost(z), Ghost(x * x));
    let res = [s.zh, q1, q2];
    proof {
        assert forall|i: int| 0 <= i < 3 implies (#[trigger] res@[i])@ == quotient_coeffs(*s)[i] by {
            if i == 1 {
                assert(res@[1] == q1);
            }
            if i == 2 {
                assert(res@[2] == q2);
            }
        }
    }
    res
}

/// The scalar of `E`.
pub fn e_scalar(e: &[Fr; 6], s: &ComputedScalars) -> (res: Fr)
    ensures
        res@ == e_value(e@[0]@, e@[1]@, e@[2]@, e@[3]@, e@[4]@, e@[5]@, *s),
{
    let ghost (a_, b_, c_, s1, s2, zw) = (val(e[0]), val(e[1]), val(e[2]), val(e[3]), val(e[4]), val(e[5]));
    let v = &s.v_powers;
    let ghost (v1, v2, v3, v4, v5) = (val(v[1]), val(v[2]), val(v[3]), val(v[4]), val(v[5]));
    let ghost (r, u) = (val(s.r0), val(s.u));
    let acc = neg_fe(&s.r0, Ghost(r));
    let t = mul_fe(&v[1], &e[0], Ghost(v1), Ghost(a_));
    let acc = add_fe(&acc, &t, Ghost(-r), Ghost(v1 * a_));
    let t = mul_fe(&v[2], &e[1], Ghost(v2), Ghost(b_));
    let acc = add_fe(&acc, &t, Ghost(-r + v1 * a_), Ghost(v2 * b_));
    let t = mul_fe(&v[3], &e[2], Ghost(v3), Ghost(c_));
    let acc = add_fe(&acc, &t, Ghost(-r + v1 * a_ + v2 * b_), Ghost(v3 * c_));
    let t = mul_fe(&v[4], &e[3], Ghost(v4), Ghost(s1));
    let acc = add_fe(&acc, &t, Ghost(-r + v1 * a_ + v2 * b_ + v3 * c_), Ghost(v4 * s1));
    let t = mul_fe(&v[5], &e[4], Ghost(v5), Ghost(s2));
    let acc = add_fe(&acc, &t, Ghost(-r + v1 * a_ + v2 * b_ + v3 * c_ + v4 * s1), Ghost(v5 * s2));
    let t = mul_fe(&s.u, &e[5], Ghost(u), Ghost(zw));
    add_fe(
        &acc,
        &t,
        Ghost(-r + v1 * a_ + v2 * b_ + v3 * c_ + v4 * s1 + v5 * s2),
        Ghost(u * zw),
    )
}

/// `u·ξ·ω`.
pub fn opening_coefficient(s: &ComputedScalars) -> (res: Fr)
    ensures
        res@ == opening_coeff(*s),
{
    let ux = mul_fe(&s.u, &s.xi, Ghost(val(s.u)), Ghost(val(s.xi)));
    mul_fe(&ux, &s.omega, Ghost(val(s.u) * val(s.xi)), Ghost(val(s.omega)))
}

/// `D = d1 + d2 − d3 − d4` as the backend computes it for the scalars `s`:
/// first the five selector terms, then `Z` and `S3` times their coefficients,
/// then the three quotient terms, and last the three additions.
pub open spec fn d_spec<B: SyscallBackend + ?Sized>(
    b: &B,
    vk: PlonkVerifyingKey,
    p: PlonkProof,
    s: ComputedScalars,
) -> Result<Seq<u8>, OnChainError> {
    let (ea, eb, ec) = (be_nat(p.eval_a@), be_nat(p.eval_b@), be_nat(p.eval_c@));
    let g = gate_coeffs(ea, eb, ec);
    let gpts = seq![vk.qm_g1@, vk.ql_g1@, vk.qr_g1@, vk.qo_g1@, vk.qc_g1@];
    let gsc = Seq::new(5, |i: int| fr_bytes(g[i]));
    let c3 = d3_value(ea, eb, be_nat(p.eval_s1@), be_nat(p.eval_s2@), be_nat(p.eval_zw@), s);
    let q = quotient_coeffs(s);
    let qsc = Seq::new(3, |i: int| fr_bytes(q[i]));
    match msm_spec(b, gpts, gsc, 5) {
        Ok(d1) => match mul_spec(b, p.z@, fr_bytes(d2_value(ea, eb, ec, s))) {
            Ok(d2) => match mul_spec(b, vk.s3_g1@, fr_bytes(c3)) {
                Ok(d3) => match msm_spec(b, seq![p.t1@, p.t2@, p.t3@], qsc, 3) {
                    Ok(d4) => match add_spec(b, d1, d2) {
                        Ok(d12) => match add_spec(b, d12, neg_point(d3)) {
                            Ok(d123) => add_spec(b, d123, neg_point(d4)),
                            Err(e) => Err(e),
                        },
                        Err(e) => Err(e),
                    },
                    Err(e) => Err(e),
                },
                Err(e) => Err(e),
            },
            Err(e) => Err(e),
        },
        Err(e) => Err(e),
    }
}

/// `F = D + v·A + v²·B + v³·C + v⁴·S1 + v⁵·S2` as the backend computes it.
pub open spec fn f_spec<B: SyscallBackend + ?Sized>(
    b: &B,
    vk: PlonkVerifyingKey,
    p: PlonkProof,
    s: ComputedScalars,
    d: Seq<u8>,
) -> Result<Seq<u8>, OnChainError> {
    let pts = seq![p.a@, p.b@, p.c@, vk.s1_g1@, vk.s2_g1@];
    let sc = Seq::new(5, |i: int| fr_bytes(s.v_powers@[i + 1]@));
    match msm_spec(b, pts, sc, 5) {
        Ok(c) => add_spec(b, d, c),
        Err(e) => Err(e),
    }
}

/// `E = e·[1]₁` as the backend computes it.
pub open spec fn e_spec<B: SyscallBackend + ?Sized>(b: &B, p: PlonkProof, s: ComputedScalars) -> Result<
    Seq<u8>,
    OnChainError,
> {
    let e = e_value(
        be_nat(p.eval_a@),
        be_nat(p.eval_b@),
        be_nat(p.eval_c@),
        be_nat(p.eval_s1@),
        be_nat(p.eval_s2@),
        be_nat(p.eval_zw@),
        s,
    );
    mul_spec(b, G1_GENERATOR@, fr_bytes(e))
}

/// `A1 = W_ξ + u·W_ξω` as the backend computes it.
pub open spec fn a1_spec<B: SyscallBackend + ?Sized>(b: &B, p: PlonkProof, s: ComputedScalars) -> Result<
    Seq<u8>,
    OnChainError,
> {
    match mul_spec(b, p.w_xiw@, fr_bytes(s.u@)) {
        Ok(t) => add_spec(b, p.w_xi@, t),
        Err(e) => Err(e),
    }
}

/// `B1 = ξ·W_ξ + u·ξ·ω·W_ξω + F − E` as the backend computes it.
pub open spec fn b1_spec<B: SyscallBackend + ?Sized>(
    b: &B,
    p: PlonkProof,
    s: ComputedScalars,
    f: Seq<u8>,
    e: Seq<u8>,
) -> Result<Seq<u8>, OnChainError> {
    match mul_spec(b, p.w_xi@, fr_bytes(s.xi@)) {
        Ok(x) => match mul_spec(b, p.w_xiw@, fr_bytes(opening_coeff(s))) {
            Ok(y) => match add_spec(b, x, y) {
                Ok(o) => match add_spec(b, o, f) {
                    Ok(of) => add_spec(b, of, neg_point(e)),
                    Err(err) => Err(err),
                },
                Err(err) => Err(err),
            },
            Err(err) => Err(err),
        },
        Err(err) => Err(err),
    }
}

/// The whole PLONK check as the backend decides it for the scalars `s`:
/// `D, F, E, A1, B1` in that order, then `e(−A1, [x]₂) · e(B1, [1]₂) = 1`.
pub open spec fn plonk_check_spec<B: SyscallBackend + ?Sized>(
    b: &B,
    vk: PlonkVerifyingKey,
    p: PlonkProof,
    s: ComputedScalars,
) -> Result<(), OnChainError> {
    match d_spec(b, vk, p, s) {
        Ok(d) => match f_spec(b, vk, p, s, d) {
            Ok(f) => match e_spec(b, p, s) {
                Ok(e) => match a1_spec(b, p, s) {
                    Ok(a1) => match b1_spec(b, p, s, f, e) {
                        Ok(b1) => pairing_spec(b, neg_point(a1) + vk.x2_g2@ + b1 + G2_GENERATOR@),
                        Err(err) => Err(err),
                    },
                    Err(err) => Err(err),
                },
                Err(err) => Err(err),
            },
            Err(err) => Err(err),
        },
        Err(err) => Err(err),
    }
}

/// The points of the proof are 64-byte encodings.
pub open spec fn proof_points_ok(p: PlonkProof) -> bool {
    &&& p.a@.len() == 64
    &&& p.b@.len() == 64
    &&& p.c@.len() == 64
    &&& p.z@.len() == 64
    &&& p.t1@.len() == 64
    &&& p.t2@.len() == 64
    &&& p.t3@.len() == 64
    &&& p.w_xi@.len() == 64
    &&& p.w_xiw@.len() == 64
}

/// `D = d1 + d2 − d3 − d4` through the backend. The wire evaluations are
/// decoded before `d1`, the permutation evaluations before `d3`; a
/// non-canonical one fails there.
pub fn compute_d<B: SyscallBackend + ?Sized>(
    backend: &B,
    vk: &PlonkVerifyingKey,
    proof: &PlonkProof,
    scalars: &ComputedScalars,
) -> (res: Result<[u8; 64], OnChainError>)
    ensures
        !wires_canonical(*proof) ==> res == Err::<[u8; 64], OnChainError>(wires_error(*proof)),
        !evals_canonical(*proof) ==> res is Err,
        res is Ok ==> evals_canonical(*proof) && proof.z@.len() == 64 && proof.t1@.len() == 64
            && proof.t2@.len() == 64 && proof.t3@.len() == 64,
        evals_canonical(*proof) && proof.z@.len() == 64 && proof.t1@.len() == 64
            && proof.t2@.len() == 64 && proof.t3@.len() == 64 ==> point_is(
            res,
            d_spec(backend, *vk, *proof, *scalars),
        ),
{
    let ea = Fr::from_canonical_bytes(proof.eval_a)?;
    let eb = Fr::from_canonical_bytes(proof.eval_b)?;
    let ec = Fr::from_canonical_bytes(proof.eval_c)?;
    let g = gate_scalars(&ea, &eb, &ec);
    let gate_bytes = [g[0].to_bytes(), g[1].to_bytes(), g[2].to_bytes(), g[3].to_bytes(), g[4].to_bytes()];
    let gate_points: [&[u8]; 5] = [&vk.qm_g1, &vk.ql_g1, &vk.qr_g1, &vk.qo_g1, &vk.qc_g1];
    proof {
        lemma_fr_encoding(g[0]);
        lemma_fr_encoding(g[1]);
        lemma_fr_encoding(g[2]);
        lemma_fr_encoding(g[3]);
        lemma_fr_encoding(g[4]);
        let gc = gate_coeffs(ea@, eb@, ec@);
        assert(g@[0]@ == gc[0] && g@[1]@ == gc[1] && g@[2]@ == gc[2] && g@[3]@ == gc[3] && g@[4]@ == gc[4]);
        assert(scalar_views(gate_bytes@) =~= Seq::new(5, |i: int| fr_bytes(gc[i])));
        assert(slice_views(gate_points@) =~= seq![
            vk.qm_g1@,
            vk.ql_g1@,
            vk.qr_g1@,
            vk.qo_g1@,
            vk.qc_g1@,
        ]);
    }
    let d1 = msm_g1(backend, &gate_points, &gate_bytes)?;
    let c2 = d2_coefficient(&ea, &eb, &ec, scalars);
    proof {
        lemma_fr_encoding(c2);
    }
    let d2 = scalar_mul_g1(backend, proof.z, &c2.to_bytes())?;
    let es1 = Fr::from_canonical_bytes(proof.eval_s1)?;
    let es2 = Fr::from_canonical_bytes(proof.eval_s2)?;
    let ezw = Fr::from_canonical_bytes(proof.eval_zw)?;
    let c3 = d3_coefficient(&ea, &eb, &es1, &es2, &ezw, scalars);
    proof {
        lemma_fr_encoding(c3);
    }
    let d3 = scalar_mul_g1(backend, &vk.s3_g1, &c3.to_bytes())?;
    let q = quotient_scalars(scalars);
    let q_bytes = [q[0].to_bytes(), q[1].to_bytes(), q[2].to_bytes()];
    let q_points: [&[u8]; 3] = [proof.t1, proof.t2, proof.t3];
    proof {
        lemma_fr_encoding(q[0]);
        lemma_fr_encoding(q[1]);
        lemma_fr_encoding(q[2]);
        let qc = quotient_coeffs(*scalars);
        assert(q@[0]@ == qc[0] && q@[1]@ == qc[1] && q@[2]@ == qc[2]);
        assert(scalar_views(q_bytes@) =~= Seq::new(3, |i: int| fr_bytes(qc[i])));
        assert(slice_views(q_points@) =~= seq![proof.t1@, proof.t2@, proof.t3@]);
    }
    let d4 = msm_g1(backend, &q_points, &q_bytes)?;
    let d12 = add_g1(backend, &d1, &d2)?;
    let d123 = add_g1(backend, &d12, &negate_g1(&d3))?;
    add_g1(backend, &d123, &negate_g1(&d4))
}

/// `F = D + v·A + v²·B + v³·C + v⁴·S1 + v⁵·S2` through the backend.
pub fn compute_f<B: SyscallBackend + ?Sized>(
    backend: &B,
    vk: &PlonkVerifyingKey,
    proof: &PlonkProof,
    scalars: &ComputedScalars,
    d: &[u8; 64],
) -> (res: Result<[u8; 64], OnChainError>)
    ensures
        (proof.a@.len() != 64 || proof.b@.len() != 64 || proof.c@.len() != 64) ==> res == Err::<
            [u8; 64],
            OnChainError,
        >(OnChainError::InvalidPointEncoding),
        (proof.a@.len() == 64 && proof.b@.len() == 64 && proof.c@.len() == 64) ==> point_is(
            res,
            f_spec(backend, *vk, *proof, *scalars, d@),
        ),
{
    let v = &scalars.v_powers;
    let s = [v[1].to_bytes(), v[2].to_bytes(), v[3].to_bytes(), v[4].to_bytes(), v[5].to_bytes()];
    let points: [&[u8]; 5] = [proof.a, proof.b, proof.c, &vk.s1_g1, &vk.s2_g1];
    proof {
        lemma_fr_encoding(v[1]);
        lemma_fr_encoding(v[2]);
        lemma_fr_encoding(v[3]);
        lemma_fr_encoding(v[4]);
        lemma_fr_encoding(v[5]);
        assert(scalar_views(s@) =~= Seq::new(5, |i: int| fr_bytes(scalars.v_powers@[i + 1]@)));
        assert(slice_views(points@) =~= seq![proof.a@, proof.b@, proof.c@, vk.s1_g1@, vk.s2_g1@]);
        if proof.a@.len() != 64 {
            assert(points@[0]@.len() != 64);
        }
        if proof.b@.len() != 64 {
            assert(points@[1]@.len() != 64);
        }
        if proof.c@.len() != 64 {
            assert(points@[2]@.len() != 64);
        }
    }
    let combo = msm_g1(backend, &points, &s)?;
    add_g1(backend, d, &combo)
}

/// `E = e·[1]₁` through the backend, with `e` from [`e_scalar`]. The
/// evaluations are decoded first: the first non-canonical one is reported
/// as [`evals_error`] says, before any group operation.
pub fn compute_e<B: SyscallBackend + ?Sized>(
    backend: &B,
    proof: &PlonkProof,
    scalars: &ComputedScalars,
) -> (res: Result<[u8; 64], OnChainError>)
    ensures
        !evals_canonical(*proof) ==> res == Err::<[u8; 64], OnChainError>(evals_error(*proof)),
        evals_canonical(*proof) ==> point_is(res, e_spec(backend, *proof, *scalars)),
{
    let e = decode_evals(proof)?;
    let sc = e_scalar(&e, scalars);
    proof {
        lemma_fr_encoding(sc);
    }
    scalar_mul_g1(backend, &g1_generator_bytes(), &sc.to_bytes())
}

/// `A1 = W_ξ + u·W_ξω` through the backend.
pub fn compute_a1<B: SyscallBackend + ?Sized>(
    backend: &B,
    proof: &PlonkProof,
    scalars: &ComputedScalars,
) -> (res: Result<[u8; 64], OnChainError>)
    ensures
        proof.w_xiw@.len() != 64 ==> res == Err::<[u8; 64], OnChainError>(
            OnChainError::InvalidPointEncoding,
        ),
        res is Ok ==> proof.w_xi@.len() == 64 && proof.w_xiw@.len() == 64,
        proof.w_xi@.len() == 64 && proof.w_xiw@.len() == 64 ==> point_is(
            res,
            a1_spec(backend, *proof, *scalars),
        ),
{
    proof {
        lemma_fr_encoding(scalars.u);
    }
    let u_wxiw = scalar_mul_g1(backend, proof.w_xiw, &scalars.u.to_bytes())?;
    if proof.w_xi.len() != 64 {
        return Err(OnChainError::InvalidPointEncoding);
    }
    add_g1(backend, proof.w_xi, &u_wxiw)
}

/// `B1 = ξ·W_ξ + u·ξ·ω·W_ξω + F − E` through the backend.
pub fn compute_b1<B: SyscallBackend + ?Sized>(
    backend: &B,
    proof: &PlonkProof,
    scalars: &ComputedScalars,
    f: &[u8; 64],
    e: &[u8; 64],
) -> (res: Result<[u8; 64], OnChainError>)
    ensures
        proof.w_xi@.len() != 64 ==> res == Err::<[u8; 64], OnChainError>(
            OnChainError::InvalidPointEncoding,
        ),
        res is Ok ==> proof.w_xi@.len() == 64 && proof.w_xiw@.len() == 64,
        proof.w_xi@.len() == 64 && proof.w_xiw@.len() == 64 ==> point_is(
            res,
            b1_spec(backend, *proof, *scalars, f@, e@),
        ),
{
    proof {
        lemma_fr_encoding(scalars.xi);
    }
    let xi_wxi = scalar_mul_g1(backend, proof.w_xi, &scalars.xi.to_bytes())?;
    let c = opening_coefficient(scalars);
    proof {
        lemma_fr_encoding(c);
    }
    let c_wxiw = scalar_mul_g1(backend, proof.w_xiw, &c.to_bytes())?;
    let openings = add_g1(backend, &xi_wxi, &c_wxiw)?;
    let with_f = add_g1(backend, &openings, f)?;
    add_g1(backend, &with_f, &negate_g1(e))
}

/// The pairing check `e(−A1, [x]₂) · e(B1, [1]₂) = 1` through the backend:
/// the reply is judged by `pairing_verdict`, backend errors are passed on.
pub fn verify_pairing<B: SyscallBackend + ?Sized>(
    backend: &B,
    vk: &PlonkVerifyingKey,
    a1: &[u8; 64],
    b1: &[u8; 64],
) -> (res: Result<(), OnChainError>)
    ensures
        res == pairing_spec(backend, neg_point(a1@) + vk.x2_g2@ + b1@ + G2_GENERATOR@),
{
    verify_two_pair_pairing(backend, &negate_g1(a1), &vk.x2_g2, b1, &g2_generator_bytes())
}

/// The PLONK opening identity `e(−A1, [x]₂) · e(B1, [1]₂) = 1`; the same
/// check as [`verify_pairing`].
pub fn verify_plonk_pairing_identity<B: SyscallBackend + ?Sized>(
    backend: &B,
    vk: &PlonkVerifyingKey,
    a1: &[u8; 64],
    b1: &[u8; 64],
) -> (res: Result<(), OnChainError>)
    ensures
        res == pairing_spec(backend, neg_point(a1@) + vk.x2_g2@ + b1@ + G2_GENERATOR@),
{
    verify_pairing(backend, vk, a1, b1)
}

/// Derive the scalars, build `D, F, E, A1, B1` and run the pairing check.
/// Inputs from which the scalars cannot be derived fail before any backend
/// call.
pub fn finalize_verify<B: SyscallBackend + ?Sized>(
    backend: &B,
    vk: &PlonkVerifyingKey,
    proof: &PlonkProof,
    challenges: &RoundChallenges,
    public_inputs_bytes: &[u8],
) -> (res: Result<(), OnChainError>)
    ensures
        !derive_ok(*challenges, *vk, *proof, public_inputs_bytes@) ==> res is Err,
        res is Ok ==> derive_ok(*challenges, *vk, *proof, public_inputs_bytes@) && proof.z@.len()
            == 64 && proof.w_xi@.len() == 64 && proof.w_xiw@.len() == 64,
        derive_ok(*challenges, *vk, *proof, public_inputs_bytes@) && proof_points_ok(*proof)
            ==> exists|s: ComputedScalars|
            #![trigger s.matches(*challenges, *vk, *proof, public_inputs_bytes@)]
            s.matches(*challenges, *vk, *proof, public_inputs_bytes@) && res == plonk_check_spec(
                backend,
                *vk,
                *proof,
                s,
            ),
{
    let scalars = ComputedScalars::derive(challenges, vk, proof, public_inputs_bytes)?;
    let d = compute_d(backend, vk, proof, &scalars)?;
    let f = compute_f(backend, vk, proof, &scalars, &d)?;
    let e = compute_e(backend, proof, &scalars)?;
    let a1 = compute_a1(backend, proof, &scalars)?;
    let b1 = compute_b1(backend, proof, &scalars, &f, &e)?;
    verify_pairing(backend, vk, &a1, &b1)
}

} // verus!
