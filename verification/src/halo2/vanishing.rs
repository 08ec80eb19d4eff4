//! Domain-level pieces of the Halo2 vanishing argument at ξ:
//!
//! ```text
//! t(ξ) · Z_H(ξ) = gate(ξ) + y · perm(ξ) + y² · lookup(ξ)
//! ```
//!
//! with `Z_H(ξ) = ξ^(2^k) − 1` and `t(ξ) = Σ_i (ξ^(2^k))^i · h_i(ξ)`.
use vstd::prelude::*;
use vstd::arithmetic::power::pow;
use vstd::arithmetic::power2::pow2;
use crate::error::OnChainError;
use crate::field::{
    ark_pow, fe, fmul, fpow, fr_values, horner, horner_eval, lemma_fe_sub, lemma_field_ops,
    lemma_fr_eq, mul_fe, val, Fr, ark_sub,
};
use crate::halo2::circuit::{combined_value, weigh_terms};

verus! {

/// Largest supported domain parameter (2^28 rows).
pub const MAX_DOMAIN_K: u32 = 28;

/// `Z_H(ξ) = ξ^(2^k) − 1` over the field.
pub open spec fn z_h_value(xi: nat, k: nat) -> nat {
    fe(pow(xi as int, pow2(k)) - 1)
}

/// `t(ξ) = Σ_i (ξ^(2^k))^i · h_i` over the field.
pub open spec fn t_value(chunks: Seq<nat>, xi: nat, k: nat) -> nat {
    horner(chunks, fpow(xi, pow2(k)))
}

/// `2^k` as a `u64`.
fn domain_size(k: u32) -> (n: u64)
    requires
        k <= 28,
    ensures
        n == pow2(k as nat),
{
    proof {
        vstd::bits::lemma_u64_pow2_no_overflow(k as nat);
        vstd::bits::lemma_u64_shl_is_mul(1, k as u64);
    }
    1u64 << (k as u64)
}

/// `Z_H(ξ) = ξ^(2^k) − 1`; `k` above 28 is a length error.
pub fn compute_z_h(xi: &Fr, k: u32) -> (res: Result<Fr, OnChainError>)
    ensures
        k > 28 ==> res == Err::<Fr, OnChainError>(OnChainError::ProofLengthMismatch),
        k <= 28 ==> (res matches Ok(v) && v@ == z_h_value(xi@, k as nat)),
{
    if k > MAX_DOMAIN_K {
        return Err(OnChainError::ProofLengthMismatch);
    }
    let n = domain_size(k);
    let xi_n = ark_pow(xi, n);
    let one = Fr::one();
    let r = ark_sub(&xi_n, &one);
    proof {
        lemma_field_ops(xi_n@, one@);
        lemma_fe_sub(pow(xi@ as int, n as nat), 1);
    }
    Ok(r)
}

/// `t(ξ)` from the quotient chunk evaluations `h_0(ξ), h_1(ξ), …`. No
/// chunks, or `k` above 28, is a length error.
pub fn compute_t_from_chunks(chunk_evals: &[Fr], xi: &Fr, k: u32) -> (res: Result<
    Fr,
    OnChainError,
>)
    ensures
        (k > 28 || chunk_evals@.len() == 0) ==> res == Err::<Fr, OnChainError>(
            OnChainError::ProofLengthMismatch,
        ),
        (k <= 28 && chunk_evals@.len() > 0) ==> (res matches Ok(v) && v@ == t_value(
            fr_values(chunk_evals@),
            xi@,
            k as nat,
        )),
{
    if k > MAX_DOMAIN_K {
        return Err(OnChainError::ProofLengthMismatch);
    }
    if chunk_evals.len() == 0 {
        return Err(OnChainError::ProofLengthMismatch);
    }
    let n = domain_size(k);
    let xi_n = ark_pow(xi, n);
    Ok(horner_eval(chunk_evals, &xi_n))
}

/// `t(ξ)·Z_H(ξ) == gate + y·perm + y²·lookup` over the field.
pub fn vanishing_identity_holds(
    t_xi: &Fr,
    z_h_xi: &Fr,
    y: &Fr,
    gate_value: &Fr,
    perm_value: &Fr,
    lookup_value: &Fr,
) -> (res: bool)
    ensures
        res == (fe(t_xi@ * z_h_xi@ as int) == combined_value(
            gate_value@,
            perm_value@,
            lookup_value@,
            y@,
        )),
{
    let lhs = mul_fe(t_xi, z_h_xi, Ghost(val(*t_xi)), Ghost(val(*z_h_xi)));
    let rhs = weigh_terms(gate_value, perm_value, lookup_value, y);
    proof {
        lemma_fr_eq(lhs, rhs);
    }
    lhs == rhs
}

} // verus!

verus! {

/// `Σ_i c_i · x^i` over the integers.
pub open spec fn power_sum(c: Seq<nat>, x: int) -> int
    decreases c.len(),
{
    if c.len() == 0 {
        0
    } else {
        power_sum(c.drop_last(), x) + c.last() * pow(x, (c.len() - 1) as nat)
    }
}

/// The power sum, split at its constant coefficient.
proof fn lemma_power_sum_first(c: Seq<nat>, x: int)
    requires
        c.len() > 0,
    ensures
        power_sum(c, x) == c[0] + x * power_sum(c.drop_first(), x),
    decreases c.len(),
{
    vstd::arithmetic::power::lemma_pow0(x);
    if c.len() == 1 {
        assert(c.drop_last().len() == 0);
        assert(c.drop_first().len() == 0);
        assert(power_sum(c.drop_last(), x) == 0);
        assert(c.last() == c[0]);
        assert(power_sum(c, x) == c[0] * pow(x, 0));
        assert(power_sum(c, x) == c[0] * 1);
        assert(x * 0 == 0);
    } else {
        let c1 = c.drop_last();
        lemma_power_sum_first(c1, x);
        let l = (c.len() - 2) as nat;
        assert(c.drop_first().drop_last() =~= c1.drop_first());
        assert(c.drop_first().last() == c.last());
        assert(c1[0] == c[0]);
        let p1 = power_sum(c1.drop_first(), x);
        let t = c.last() as int;
        assert(power_sum(c.drop_first(), x) == p1 + t * pow(x, l));
        vstd::arithmetic::power::lemma_pow1(x);
        vstd::arithmetic::power::lemma_pow_adds(x, 1, l);
        assert(pow(x, (c.len() - 1) as nat) == x * pow(x, l));
        assert(x * (p1 + t * pow(x, l)) == x * p1 + t * (x * pow(x, l))) by (nonlinear_arith);
    }
}

/// Horner evaluation at the residue of `x` is the residue of the power sum.
pub proof fn lemma_horner_is_power_sum(c: Seq<nat>, x: int)
    ensures
        horner(c, fe(x)) == fe(power_sum(c, x)),
    decreases c.len(),
{
    if c.len() == 0 {
        crate::field::lemma_fe_small(0);
    } else {
        let c1 = c.drop_first();
        lemma_horner_is_power_sum(c1, x);
        lemma_power_sum_first(c, x);
        let p1 = power_sum(c1, x);
        let h1 = horner(c1, fe(x));
        lemma_field_ops(fe(x), h1);
        lemma_field_ops(c[0], fmul(fe(x), h1));
        crate::field::lemma_fe_idem(x);
        crate::field::lemma_fe_idem(p1);
        crate::field::lemma_fe_congruent(fe(x) as int, h1 as int, x, p1);
        crate::field::lemma_fe_add(c[0] as int, x * p1);
    }
}

/// The vanishing polynomial of the one-point domain (`k = 0`) is `ξ − 1`.
pub proof fn lemma_z_h_single_point(xi: nat)
    ensures
        z_h_value(xi, 0) == fe(xi - 1),
{
    vstd::arithmetic::power2::lemma2_to64();
    vstd::arithmetic::power::lemma_pow1(xi as int);
}

/// The recombined quotient is the explicit sum `Σ_i h_i · ξ^(i·2^k)`.
pub proof fn lemma_t_is_chunk_sum(chunks: Seq<nat>, xi: nat, k: nat)
    ensures
        t_value(chunks, xi, k) == fe(power_sum(chunks, pow(xi as int, pow2(k)))),
        forall|i: nat| #[trigger] pow(pow(xi as int, pow2(k)), i) == pow(xi as int, pow2(k) * i),
{
    let n = pow2(k);
    let xn = pow(xi as int, n);
    assert(fpow(xi, n) == fe(xn));
    lemma_horner_is_power_sum(chunks, xn);
    assert forall|i: nat| #[trigger] pow(pow(xi as int, n), i) == pow(xi as int, n * i) by {
        vstd::arithmetic::power::lemma_pow_multiplies(xi as int, n, i);
    }
}

} // verus!
