//! Folding-scheme algebra: the relaxed-R1CS Hadamard residual at the
//! Spartan point, `A(ξ)·B(ξ) − u·C(ξ) − E(ξ)`, and the folded-commitment
//! reconstructions `C_1 + r·C_2 + r²·T`, `E_1 + r·T`, `C_1 + r·C_2`
//! through the backend's group operations.
use vstd::prelude::*;
use crate::curve::{add_g1, add_spec, mul_spec, point_is, scalar_mul_g1};
use crate::transcript::fr_bytes;
use crate::error::OnChainError;
use crate::field::{fe, lemma_fe_idem, lemma_fr_encoding, mul_fe, sub_fe, val, Fr};
use crate::syscall::SyscallBackend;

verus! {

/// `a·b − u·c − e` over the field.
pub open spec fn residual_value(a: nat, b: nat, c: nat, e: nat, u: nat) -> nat {
    fe(a * b - u * c - e)
}

/// The Hadamard residual `A(ξ)·B(ξ) − u·C(ξ) − E(ξ)`.
pub fn hadamard_residual(a_eval: &Fr, b_eval: &Fr, c_eval: &Fr, e_eval: &Fr, u: &Fr) -> (res: Fr)
    ensures
        res@ == residual_value(a_eval@, b_eval@, c_eval@, e_eval@, u@),
{
    let ghost (a, b, c, e, ui) = (val(*a_eval), val(*b_eval), val(*c_eval), val(*e_eval), val(*u));
    let ab = mul_fe(a_eval, b_eval, Ghost(a), Ghost(b));
    let uc = mul_fe(u, c_eval, Ghost(ui), Ghost(c));
    let d = sub_fe(&ab, &uc, Ghost(a * b), Ghost(ui * c));
    sub_fe(&d, e_eval, Ghost(a * b - ui * c), Ghost(e))
}

/// The residual is zero exactly when `E(ξ) ≡ A(ξ)·B(ξ) − u·C(ξ)`.
pub proof fn lemma_residual_zero_iff(a: nat, b: nat, c: nat, e: nat, u: nat)
    ensures
        (residual_value(a, b, c, e, u) == 0) == (fe(e as int) == fe(a * b - u * c)),
{
    let x = a * b - u * c;
    crate::field::lemma_fe_sub(x, e as int);
    crate::field::lemma_fe_sub(fe(x) as int, e as int);
    crate::field::lemma_fe_sub(fe(x) as int, fe(e as int) as int);
    lemma_fe_idem(x);
    lemma_fe_idem(e as int);
    let m = crate::fr::fr_modulus() as int;
    let p = fe(x) as int;
    let q = fe(e as int) as int;
    assert(0 <= p < m && 0 <= q < m);
    assert(-m < p - q < m);
    if p == q {
        crate::field::lemma_fe_small(0);
    } else {
        assert(fe(p - q) != 0) by {
            if p > q {
                crate::field::lemma_fe_small(p - q);
            } else {
                vstd::arithmetic::div_mod::lemma_mod_add_multiples_vanish(p - q, m);
                crate::field::lemma_fe_small(p - q + m);
            }
        }
    }
}

/// `C + r·D` as the backend computes it.
pub open spec fn plus_scaled_spec<B: SyscallBackend + ?Sized>(
    b: &B,
    c: Seq<u8>,
    d: Seq<u8>,
    r: nat,
) -> Result<Seq<u8>, OnChainError> {
    match mul_spec(b, d, fr_bytes(r)) {
        Ok(rd) => add_spec(b, c, rd),
        Err(e) => Err(e),
    }
}

/// `C_1 + r·C_2 + r²·T` as the backend computes it: both products first,
/// then the two sums from the left.
pub open spec fn fold_spec<B: SyscallBackend + ?Sized>(
    b: &B,
    c1: Seq<u8>,
    c2: Seq<u8>,
    t: Seq<u8>,
    r: nat,
) -> Result<Seq<u8>, OnChainError> {
    match mul_spec(b, c2, fr_bytes(r)) {
        Ok(rc2) => match mul_spec(b, t, fr_bytes(fe((r * r) as int))) {
            Ok(rt) => match add_spec(b, c1, rc2) {
                Ok(s) => add_spec(b, s, rt),
                Err(e) => Err(e),
            },
            Err(e) => Err(e),
        },
        Err(e) => Err(e),
    }
}

/// `r²` for the folding challenge.
fn square(r: &Fr) -> (res: Fr)
    ensures
        res@ == fe(val(*r) * val(*r)),
{
    mul_fe(r, r, Ghost(val(*r)), Ghost(val(*r)))
}

/// `C_1 + r·C_2 + r²·T` through the backend. A point that is not 64 bytes
/// is a point-encoding error; backend errors are passed on.
pub fn folded_commitment_from_fold<B: SyscallBackend + ?Sized>(
    backend: &B,
    c1: &[u8],
    c2: &[u8],
    t: &[u8],
    r: &Fr,
) -> (res: Result<[u8; 64], OnChainError>)
    ensures
        (c1@.len() != 64 || c2@.len() != 64 || t@.len() != 64) ==> res == Err::<
            [u8; 64],
            OnChainError,
        >(OnChainError::InvalidPointEncoding),
        (c1@.len() == 64 && c2@.len() == 64 && t@.len() == 64) ==> point_is(
            res,
            fold_spec(backend, c1@, c2@, t@, r@),
        ),
{
    if c1.len() != 64 || c2.len() != 64 || t.len() != 64 {
        return Err(OnChainError::InvalidPointEncoding);
    }
    proof {
        lemma_fr_encoding(*r);
    }
    let r_c2 = scalar_mul_g1(backend, c2, &r.to_bytes())?;
    let r_sq = square(r);
    proof {
        lemma_fr_encoding(r_sq);
    }
    let r_sq_t = scalar_mul_g1(backend, t, &r_sq.to_bytes())?;
    let tmp = add_g1(backend, c1, &r_c2)?;
    add_g1(backend, &tmp, &r_sq_t)
}

/// `E_1 + r·T` through the backend.
pub fn folded_error_commitment<B: SyscallBackend + ?Sized>(
    backend: &B,
    e1: &[u8],
    t: &[u8],
    r: &Fr,
) -> (res: Result<[u8; 64], OnChainError>)
    ensures
        (e1@.len() != 64 || t@.len() != 64) ==> res == Err::<[u8; 64], OnChainError>(
            OnChainError::InvalidPointEncoding,
        ),
        (e1@.len() == 64 && t@.len() == 64) ==> point_is(res, plus_scaled_spec(backend, e1@, t@, r@)),
{
    if e1.len() != 64 || t.len() != 64 {
        return Err(OnChainError::InvalidPointEncoding);
    }
    proof {
        lemma_fr_encoding(*r);
    }
    let r_t = scalar_mul_g1(backend, t, &r.to_bytes())?;
    add_g1(backend, e1, &r_t)
}

/// `C_1 + r·C_2` through the backend.
pub fn folded_commitment_two_term<B: SyscallBackend + ?Sized>(
    backend: &B,
    c1: &[u8],
    c2: &[u8],
    r: &Fr,
) -> (res: Result<[u8; 64], OnChainError>)
    ensures
        (c1@.len() != 64 || c2@.len() != 64) ==> res == Err::<[u8; 64], OnChainError>(
            OnChainError::InvalidPointEncoding,
        ),
        (c1@.len() == 64 && c2@.len() == 64) ==> point_is(res, plus_scaled_spec(backend, c1@, c2@, r@)),
{
    if c1.len() != 64 || c2.len() != 64 {
        return Err(OnChainError::InvalidPointEncoding);
    }
    proof {
        lemma_fr_encoding(*r);
    }
    let r_c2 = scalar_mul_g1(backend, c2, &r.to_bytes())?;
    add_g1(backend, c1, &r_c2)
}

/// The folding check's outcome for the backend's reconstructions `e` and
/// `w`: a backend error is passed on (for `E` first); a reconstruction that
/// differs from its declared point fails; otherwise the check passes.
pub open spec fn folding_verdict(
    e: Result<Seq<u8>, OnChainError>,
    w: Result<Seq<u8>, OnChainError>,
    declared_e: Seq<u8>,
    declared_w: Seq<u8>,
) -> Result<(), OnChainError> {
    match e {
        Err(err) => Err(err),
        Ok(ce) => if ce != declared_e {
            Err(OnChainError::VerificationFailed)
        } else {
            match w {
                Err(err) => Err(err),
                Ok(cw) => if cw != declared_w {
                    Err(OnChainError::VerificationFailed)
                } else {
                    Ok(())
                },
            }
        },
    }
}

/// Byte equality of a computed point and a declared encoding.
fn same_point(computed: &[u8; 64], declared: &[u8]) -> (res: bool)
    ensures
        res == (computed@ == declared@),
{
    if declared.len() != 64 {
        return false;
    }
    let mut i: usize = 0;
    while i < 64
        invariant
            0 <= i <= 64,
            declared@.len() == 64,
            forall|j: int| 0 <= j < i ==> computed@[j] == declared@[j],
        decreases 64 - i,
    {
        if computed[i] != declared[i] {
            return false;
        }
        i = i + 1;
    }
    assert(computed@ =~= declared@);
    true
}

/// Check that the declared `E` and `W` are the folds of their base
/// commitments: `E = E_1 + r·E_2 + r²·T` and `W = W_1 + r·W_2`.
///
/// Any of the seven points not 64 bytes is a point-encoding error (before
/// any backend call); a reconstruction that differs from the declared
/// point is a failed verification.
#[allow(clippy::too_many_arguments)]
pub fn verify_folding_consistency<B: SyscallBackend + ?Sized>(
    backend: &B,
    base_e_1: &[u8],
    base_e_2: &[u8],
    base_w_1: &[u8],
    base_w_2: &[u8],
    t_comm: &[u8],
    declared_e_comm: &[u8],
    declared_w_comm: &[u8],
    r: &Fr,
) -> (res: Result<(), OnChainError>)
    ensures
        (base_e_1@.len() != 64 || base_e_2@.len() != 64 || base_w_1@.len() != 64
            || base_w_2@.len() != 64 || t_comm@.len() != 64 || declared_e_comm@.len() != 64
            || declared_w_comm@.len() != 64) ==> res == Err::<(), OnChainError>(
            OnChainError::InvalidPointEncoding,
        ),
        (base_e_1@.len() == 64 && base_e_2@.len() == 64 && base_w_1@.len() == 64
            && base_w_2@.len() == 64 && t_comm@.len() == 64 && declared_e_comm@.len() == 64
            && declared_w_comm@.len() == 64) ==> res == folding_verdict(
            fold_spec(backend, base_e_1@, base_e_2@, t_comm@, r@),
            plus_scaled_spec(backend, base_w_1@, base_w_2@, r@),
            declared_e_comm@,
            declared_w_comm@,
        ),
{
    if base_e_1.len() != 64 || base_e_2.len() != 64 || base_w_1.len() != 64 || base_w_2.len() != 64
        || t_comm.len() != 64 || declared_e_comm.len() != 64 || declared_w_comm.len() != 64 {
        return Err(OnChainError::InvalidPointEncoding);
    }
    let computed_e = folded_commitment_from_fold(backend, base_e_1, base_e_2, t_comm, r)?;
    if !same_point(&computed_e, declared_e_comm) {
        return Err(OnChainError::VerificationFailed);
    }
    let computed_w = folded_commitment_two_term(backend, base_w_1, base_w_2, r)?;
    if !same_point(&computed_w, declared_w_comm) {
        return Err(OnChainError::VerificationFailed);
    }
    Ok(())
}

} // verus!
