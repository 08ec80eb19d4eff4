//! The circuit terms of the Halo2 vanishing identity at ξ:
//!
//! ```text
//! gate(ξ) + y · perm(ξ) + y² · lookup(ξ)
//! ```
//!
//! for one PLONK-style gate, one three-wire permutation argument (identity
//! cosets 1, 2, 3) and one log-derivative lookup, single- or multi-column.
use vstd::prelude::*;
use crate::error::OnChainError;
use crate::field::{
    add_fe, fadd, fdot, fe, finv, fpow, fr_values, lemma_fe_idem, lemma_fe_small, lemma_fe_sub,
    lemma_field_ops, mul_fe, powers_of, inner_product, sub_fe, val, Fr, ark_add, ark_mul,
    ark_pow, ark_sub,
};
use crate::fr::fr_modulus;

verus! {

/// Wire evaluations `a(ξ), b(ξ), c(ξ)`.
#[derive(Clone, Copy, Debug, PartialEq, Eq)]
pub struct WireEvals {
    /// Left wire.
    pub a: Fr,
    /// Right wire.
    pub b: Fr,
    /// Output wire.
    pub c: Fr,
}

/// Selector evaluations at ξ.
#[derive(Clone, Copy, Debug, PartialEq, Eq)]
pub struct SelectorEvals {
    /// Multiplication selector.
    pub q_m: Fr,
    /// Left selector.
    pub q_l: Fr,
    /// Right selector.
    pub q_r: Fr,
    /// Output selector.
    pub q_o: Fr,
    /// Constant selector.
    pub q_c: Fr,
}

/// Permutation-argument evaluations at ξ.
#[derive(Clone, Copy, Debug, PartialEq, Eq)]
pub struct PermutationEvals {
    /// Grand product `z(ξ)`.
    pub z: Fr,
    /// Grand product at the shifted point, `z(ξω)`.
    pub z_next: Fr,
    /// `σ1(ξ)`.
    pub sigma_1: Fr,
    /// `σ2(ξ)`.
    pub sigma_2: Fr,
    /// `σ3(ξ)`.
    pub sigma_3: Fr,
}

/// Single-column lookup evaluations at ξ.
#[derive(Clone, Copy, Debug, PartialEq, Eq)]
pub struct LookupEvals {
    /// Input expression `input(ξ)`.
    pub input: Fr,
    /// Table column `table(ξ)`.
    pub table: Fr,
    /// Multiplicity `m(ξ)`.
    pub m: Fr,
}

/// Multi-column lookup evaluations at ξ: `k` input and `k` table columns
/// and one multiplicity.
#[derive(Clone, Debug, PartialEq, Eq)]
pub struct MultiColumnLookupEvals {
    /// Input column evaluations.
    pub input_cols: Vec<Fr>,
    /// Table column evaluations; as many as input columns.
    pub table_cols: Vec<Fr>,
    /// Multiplicity `m(ξ)`.
    pub m: Fr,
}

// ---------------------------------------------------------------------
// Values of the terms.

/// `q_M·a·b + q_L·a + q_R·b + q_O·c + q_C` over the field.
pub open spec fn gate_value(w: WireEvals, s: SelectorEvals) -> nat {
    fe(val(s.q_m) * val(w.a) * val(w.b) + val(s.q_l) * val(w.a) + val(s.q_r) * val(w.b) + val(
        s.q_o,
    ) * val(w.c) + val(s.q_c))
}

/// Grand-product numerator `z · Π (w_i + β·k_i·ξ + γ)` with `k = 1, 2, 3`.
pub open spec fn perm_numerator(w: WireEvals, p: PermutationEvals, beta: int, gamma: int, xi: int) -> int {
    val(p.z) * (val(w.a) + beta * xi + gamma) * (val(w.b) + beta * 2 * xi + gamma) * (val(w.c)
        + beta * 3 * xi + gamma)
}

/// Grand-product denominator `z(ξω) · Π (w_i + β·σ_i + γ)`.
pub open spec fn perm_denominator(w: WireEvals, p: PermutationEvals, beta: int, gamma: int) -> int {
    val(p.z_next) * (val(w.a) + beta * val(p.sigma_1) + gamma) * (val(w.b) + beta * val(p.sigma_2)
        + gamma) * (val(w.c) + beta * val(p.sigma_3) + gamma)
}

/// `den − num` over the field.
pub open spec fn perm_value(w: WireEvals, p: PermutationEvals, beta: nat, gamma: nat, xi: nat) -> nat {
    fe(perm_denominator(w, p, beta as int, gamma as int) - perm_numerator(
        w,
        p,
        beta as int,
        gamma as int,
        xi as int,
    ))
}

/// `m · t⁻¹ − i⁻¹` over the field, for blinded denominators `t` and `i`.
pub open spec fn log_derivative(m: nat, t: nat, i: nat) -> nat {
    fe(m * finv(t) - finv(i) as int)
}

/// The single-column lookup term is defined: neither `table + θ` nor
/// `input + θ` is zero.
pub open spec fn lookup_defined(l: LookupEvals, theta: nat) -> bool {
    fadd(l.table@, theta) != 0 && fadd(l.input@, theta) != 0
}

/// `m · (table + θ)⁻¹ − (input + θ)⁻¹`.
pub open spec fn lookup_value(l: LookupEvals, theta: nat) -> nat {
    log_derivative(l.m@, fadd(l.table@, theta), fadd(l.input@, theta))
}

/// `[1, θ, …, θ^(k−1)]`.
pub open spec fn theta_powers(theta: nat, k: nat) -> Seq<nat> {
    Seq::new(k, |i: int| fpow(theta, i as nat))
}

/// `Σ θ^i · cols_i` over the field.
pub open spec fn combine(cols: Seq<nat>, theta: nat) -> nat {
    fdot(theta_powers(theta, cols.len()), cols)
}

/// The columns are non-empty and paired.
pub open spec fn multi_shape_ok(l: MultiColumnLookupEvals) -> bool {
    l.input_cols@.len() > 0 && l.input_cols@.len() == l.table_cols@.len()
}

/// Blinded combined table denominator `Σ θ^i·table_i + θ^k`.
pub open spec fn multi_table_den(l: MultiColumnLookupEvals, theta: nat) -> nat {
    fadd(combine(fr_values(l.table_cols@), theta), fpow(theta, l.input_cols@.len()))
}

/// Blinded combined input denominator `Σ θ^i·input_i + θ^k`.
pub open spec fn multi_input_den(l: MultiColumnLookupEvals, theta: nat) -> nat {
    fadd(combine(fr_values(l.input_cols@), theta), fpow(theta, l.input_cols@.len()))
}

/// The multi-column lookup term is defined: θ is not zero and neither
/// blinded denominator is zero.
pub open spec fn multi_defined(l: MultiColumnLookupEvals, theta: nat) -> bool {
    &&& theta != 0
    &&& multi_table_den(l, theta) != 0
    &&& multi_input_den(l, theta) != 0
}

/// `m · (Σ θ^i·table_i + θ^k)⁻¹ − (Σ θ^i·input_i + θ^k)⁻¹`.
pub open spec fn multi_value(l: MultiColumnLookupEvals, theta: nat) -> nat {
    log_derivative(l.m@, multi_table_den(l, theta), multi_input_den(l, theta))
}

/// `gate + y·perm + y²·lookup` over the field.
pub open spec fn combined_value(gate: nat, perm: nat, lookup: nat, y: nat) -> nat {
    fe((gate + y * perm + y * y * lookup) as int)
}

// ---------------------------------------------------------------------
// Evaluators.

/// Evaluate `q_M·a·b + q_L·a + q_R·b + q_O·c + q_C` at the wires.
pub fn gate_expr(wires: &WireEvals, selectors: &SelectorEvals) -> (res: Fr)
    ensures
        res@ == gate_value(*wires, *selectors),
{
    let ghost (a, b, c) = (val(wires.a), val(wires.b), val(wires.c));
    let ghost (qm, ql, qr, qo, qc) = (
        val(selectors.q_m),
        val(selectors.q_l),
        val(selectors.q_r),
        val(selectors.q_o),
        val(selectors.q_c),
    );
    let t = mul_fe(&selectors.q_m, &wires.a, Ghost(qm), Ghost(a));
    let t = mul_fe(&t, &wires.b, Ghost(qm * a), Ghost(b));
    let u = mul_fe(&selectors.q_l, &wires.a, Ghost(ql), Ghost(a));
    let acc = add_fe(&t, &u, Ghost(qm * a * b), Ghost(ql * a));
    let u = mul_fe(&selectors.q_r, &wires.b, Ghost(qr), Ghost(b));
    let acc = add_fe(&acc, &u, Ghost(qm * a * b + ql * a), Ghost(qr * b));
    let u = mul_fe(&selectors.q_o, &wires.c, Ghost(qo), Ghost(c));
    let acc = add_fe(&acc, &u, Ghost(qm * a * b + ql * a + qr * b), Ghost(qo * c));
    add_fe(&acc, &selectors.q_c, Ghost(qm * a * b + ql * a + qr * b + qo * c), Ghost(qc))
}

/// `w + β·s + γ` for elements congruent to the given integers.
pub(crate) fn grand_factor(w: &Fr, beta: &Fr, s: &Fr, gamma: &Fr, Ghost(wi): Ghost<int>, Ghost(bi): Ghost<int>, Ghost(si): Ghost<int>, Ghost(gi): Ghost<int>) -> (res: Fr)
    requires
        fe(val(*w)) == fe(wi),
        fe(val(*beta)) == fe(bi),
        fe(val(*s)) == fe(si),
        fe(val(*gamma)) == fe(gi),
    ensures
        fe(val(res)) == fe(wi + bi * si + gi),
{
    let bs = mul_fe(beta, s, Ghost(bi), Ghost(si));
    let t = add_fe(w, &bs, Ghost(wi), Ghost(bi * si));
    add_fe(&t, gamma, Ghost(wi + bi * si), Ghost(gi))
}

/// The permutation term `z(ξω)·Π(w_i + β·σ_i + γ) − z(ξ)·Π(w_i + β·k_i·ξ + γ)`
/// with identity cosets `k = 1, 2, 3`.
pub fn permutation_expr(
    wires: &WireEvals,
    perm: &PermutationEvals,
    beta: &Fr,
    gamma: &Fr,
    xi: &Fr,
) -> (res: Fr)
    ensures
        res@ == perm_value(*wires, *perm, beta@, gamma@, xi@),
{
    let ghost (a, b, c) = (val(wires.a), val(wires.b), val(wires.c));
    let ghost (bi, gi, xii) = (val(*beta), val(*gamma), val(*xi));
    let k1 = Fr::from_u64(2);
    let k2 = Fr::from_u64(3);
    proof {
        lemma_fe_small(2);
        lemma_fe_small(3);
        lemma_fe_idem(2);
        lemma_fe_idem(3);
    }
    // Numerator.
    let bk1 = mul_fe(beta, &k1, Ghost(bi), Ghost(2));
    let bk2 = mul_fe(beta, &k2, Ghost(bi), Ghost(3));
    let n1 = grand_factor(&wires.a, beta, xi, gamma, Ghost(a), Ghost(bi), Ghost(xii), Ghost(gi));
    let n2 = grand_factor(&wires.b, &bk1, xi, gamma, Ghost(b), Ghost(bi * 2), Ghost(xii), Ghost(gi));
    let n3 = grand_factor(&wires.c, &bk2, xi, gamma, Ghost(c), Ghost(bi * 3), Ghost(xii), Ghost(gi));
    let ghost (f1, f2, f3) = (a + bi * xii + gi, b + bi * 2 * xii + gi, c + bi * 3 * xii + gi);
    let num = mul_fe(&perm.z, &n1, Ghost(val(perm.z)), Ghost(f1));
    let num = mul_fe(&num, &n2, Ghost(val(perm.z) * f1), Ghost(f2));
    let num = mul_fe(&num, &n3, Ghost(val(perm.z) * f1 * f2), Ghost(f3));
    // Denominator.
    let d1 = grand_factor(&wires.a, beta, &perm.sigma_1, gamma, Ghost(a), Ghost(bi), Ghost(val(perm.sigma_1)), Ghost(gi));
    let d2 = grand_factor(&wires.b, beta, &perm.sigma_2, gamma, Ghost(b), Ghost(bi), Ghost(val(perm.sigma_2)), Ghost(gi));
    let d3 = grand_factor(&wires.c, beta, &perm.sigma_3, gamma, Ghost(c), Ghost(bi), Ghost(val(perm.sigma_3)), Ghost(gi));
    let ghost (e1, e2, e3) = (
        a + bi * val(perm.sigma_1) + gi,
        b + bi * val(perm.sigma_2) + gi,
        c + bi * val(perm.sigma_3) + gi,
    );
    let den = mul_fe(&perm.z_next, &d1, Ghost(val(perm.z_next)), Ghost(e1));
    let den = mul_fe(&den, &d2, Ghost(val(perm.z_next) * e1), Ghost(e2));
    let den = mul_fe(&den, &d3, Ghost(val(perm.z_next) * e1 * e2), Ghost(e3));
    sub_fe(&den, &num, Ghost(val(perm.z_next) * e1 * e2 * e3), Ghost(val(perm.z) * f1 * f2 * f3))
}

/// `m · t⁻¹ − i⁻¹` for non-zero blinded denominators `t`, `i`.
fn log_derivative_term(m: &Fr, t: &Fr, i: &Fr) -> (res: Result<Fr, OnChainError>)
    ensures
        res is Ok <==> (fe(val(*t)) != 0 && fe(val(*i)) != 0),
        res matches Ok(v) ==> v@ == log_derivative(m@, t@, i@),
        res is Err ==> res == Err::<Fr, OnChainError>(OnChainError::InternalInvariantViolation),
{
    let t_inv = match t.inverse() {
        Some(v) => v,
        None => {
            return Err(OnChainError::InternalInvariantViolation);
        },
    };
    let i_inv = match i.inverse() {
        Some(v) => v,
        None => {
            return Err(OnChainError::InternalInvariantViolation);
        },
    };
    let mt = ark_mul(m, &t_inv);
    let r = ark_sub(&mt, &i_inv);
    proof {
        lemma_field_ops(m@, t_inv@);
        lemma_field_ops(mt@, i_inv@);
        lemma_fe_sub((m@ * t_inv@) as int, i_inv@ as int);
    }
    Ok(r)
}

/// The single-column lookup term `m · (table + θ)⁻¹ − (input + θ)⁻¹`.
/// A zero denominator is an internal invariant violation.
pub fn lookup_expr(lookup: &LookupEvals, theta: &Fr) -> (res: Result<Fr, OnChainError>)
    ensures
        res is Ok <==> lookup_defined(*lookup, theta@),
        res matches Ok(v) ==> v@ == lookup_value(*lookup, theta@),
        res is Err ==> res == Err::<Fr, OnChainError>(OnChainError::InternalInvariantViolation),
{
    let t = ark_add(&lookup.table, theta);
    let i = ark_add(&lookup.input, theta);
    proof {
        lemma_field_ops(lookup.table@, theta@);
        lemma_field_ops(lookup.input@, theta@);
        lemma_fe_small(t@ as int);
        lemma_fe_small(i@ as int);
    }
    log_derivative_term(&lookup.m, &t, &i)
}

impl MultiColumnLookupEvals {
    /// Build from paired columns; empty or unpaired columns are a length
    /// error.
    pub fn try_new(input_cols: Vec<Fr>, table_cols: Vec<Fr>, m: Fr) -> (res: Result<
        Self,
        OnChainError,
    >)
        ensures
            res is Ok <==> (input_cols@.len() > 0 && input_cols@.len() == table_cols@.len()),
            res matches Ok(l) ==> l.input_cols@ == input_cols@ && l.table_cols@ == table_cols@
                && l.m == m,
            res is Err ==> res == Err::<Self, OnChainError>(OnChainError::ProofLengthMismatch),
    {
        if input_cols.len() == 0 || input_cols.len() != table_cols.len() {
            return Err(OnChainError::ProofLengthMismatch);
        }
        Ok(MultiColumnLookupEvals { input_cols, table_cols, m })
    }

    /// Number of column pairs.
    pub fn arity(&self) -> (k: usize)
        ensures
            k == self.input_cols@.len(),
    {
        self.input_cols.len()
    }

    /// The arity-1 form of a single-column lookup.
    pub fn from_basic(basic: LookupEvals) -> (res: Self)
        ensures
            res.input_cols@ == seq![basic.input],
            res.table_cols@ == seq![basic.table],
            res.m == basic.m,
    {
        let mut input_cols: Vec<Fr> = Vec::new();
        input_cols.push(basic.input);
        let mut table_cols: Vec<Fr> = Vec::new();
        table_cols.push(basic.table);
        MultiColumnLookupEvals { input_cols, table_cols, m: basic.m }
    }
}

/// `Σ θ^i · cols_i` for the given powers of θ.
fn combine_cols(powers: &Vec<Fr>, cols: &Vec<Fr>, Ghost(theta): Ghost<nat>) -> (res: Fr)
    requires
        powers@.len() == cols@.len(),
        forall|i: int| 0 <= i < powers@.len() ==> (#[trigger] powers@[i])@ == fpow(theta, i as nat),
    ensures
        res@ == combine(fr_values(cols@), theta),
{
    let r = inner_product(powers.as_slice(), cols.as_slice());
    proof {
        assert(fr_values(powers@) =~= theta_powers(theta, cols@.len()));
    }
    match r {
        Ok(v) => v,
        Err(_) => {
            proof {
                assert(false);
            }
            Fr::zero()
        },
    }
}

/// The multi-column lookup term
/// `m · (Σ θ^i·table_i + θ^k)⁻¹ − (Σ θ^i·input_i + θ^k)⁻¹`.
///
/// Empty or unpaired columns are a length error; θ = 0 or a zero
/// denominator is an internal invariant violation.
pub fn multi_column_lookup_expr(lookup: &MultiColumnLookupEvals, theta: &Fr) -> (res: Result<
    Fr,
    OnChainError,
>)
    ensures
        !multi_shape_ok(*lookup) ==> res == Err::<Fr, OnChainError>(
            OnChainError::ProofLengthMismatch,
        ),
        multi_shape_ok(*lookup) && !multi_defined(*lookup, theta@) ==> res == Err::<
            Fr,
            OnChainError,
        >(OnChainError::InternalInvariantViolation),
        multi_shape_ok(*lookup) && multi_defined(*lookup, theta@) ==> res == Ok::<
            Fr,
            OnChainError,
        >(res->Ok_0) && res->Ok_0@ == multi_value(*lookup, theta@),
{
    if lookup.input_cols.len() == 0 || lookup.input_cols.len() != lookup.table_cols.len() {
        return Err(OnChainError::ProofLengthMismatch);
    }
    if theta.is_zero() {
        return Err(OnChainError::InternalInvariantViolation);
    }
    let k = lookup.input_cols.len();
    let powers = powers_of(theta, k);
    let input_combined = combine_cols(&powers, &lookup.input_cols, Ghost(theta@));
    let table_combined = combine_cols(&powers, &lookup.table_cols, Ghost(theta@));
    let blinder = ark_pow(theta, k as u64);
    let t = ark_add(&table_combined, &blinder);
    let i = ark_add(&input_combined, &blinder);
    proof {
        lemma_field_ops(table_combined@, blinder@);
        lemma_field_ops(input_combined@, blinder@);
        lemma_fe_small(t@ as int);
        lemma_fe_small(i@ as int);
    }
    log_derivative_term(&lookup.m, &t, &i)
}

/// The lookup identity at ξ holds: the multi-column term is zero. A non-zero
/// term is reported as a failed check; errors of the term are passed on.
pub fn verify_multi_column_lookup_identity(lookup: &MultiColumnLookupEvals, theta: &Fr) -> (res:
    Result<(), OnChainError>)
    ensures
        !multi_shape_ok(*lookup) ==> res == Err::<(), OnChainError>(
            OnChainError::ProofLengthMismatch,
        ),
        multi_shape_ok(*lookup) && !multi_defined(*lookup, theta@) ==> res == Err::<
            (),
            OnChainError,
        >(OnChainError::InternalInvariantViolation),
        multi_shape_ok(*lookup) && multi_defined(*lookup, theta@) ==> (res is Ok <==> multi_value(
            *lookup,
            theta@,
        ) == 0),
        multi_shape_ok(*lookup) && multi_defined(*lookup, theta@) && multi_value(*lookup, theta@)
            != 0 ==> res == Err::<(), OnChainError>(OnChainError::SumcheckFailed),
{
    let value = multi_column_lookup_expr(lookup, theta)?;
    if !value.is_zero() {
        return Err(OnChainError::SumcheckFailed);
    }
    Ok(())
}

/// `gate + y·perm + y²·lookup` for evaluated terms.
pub(crate) fn weigh_terms(gate: &Fr, perm: &Fr, lookup: &Fr, y: &Fr) -> (res: Fr)
    ensures
        res@ == combined_value(gate@, perm@, lookup@, y@),
{
    let ghost (g, p, l, yi) = (val(*gate), val(*perm), val(*lookup), val(*y));
    let y_sq = mul_fe(y, y, Ghost(yi), Ghost(yi));
    let t = mul_fe(y, perm, Ghost(yi), Ghost(p));
    let acc = add_fe(gate, &t, Ghost(g), Ghost(yi * p));
    let u = mul_fe(&y_sq, lookup, Ghost(yi * yi), Ghost(l));
    add_fe(&acc, &u, Ghost(g + yi * p), Ghost(yi * yi * l))
}

/// The vanishing-identity right-hand side
/// `gate(ξ) + y·perm(ξ) + y²·lookup(ξ)` with the single-column lookup.
pub fn combined_expr(
    wires: &WireEvals,
    selectors: &SelectorEvals,
    perm: &PermutationEvals,
    lookup: &LookupEvals,
    theta: &Fr,
    beta: &Fr,
    gamma: &Fr,
    y: &Fr,
    xi: &Fr,
) -> (res: Result<Fr, OnChainError>)
    ensures
        res is Ok <==> lookup_defined(*lookup, theta@),
        res matches Ok(v) ==> v@ == combined_value(
            gate_value(*wires, *selectors),
            perm_value(*wires, *perm, beta@, gamma@, xi@),
            lookup_value(*lookup, theta@),
            y@,
        ),
        res is Err ==> res == Err::<Fr, OnChainError>(OnChainError::InternalInvariantViolation),
{
    let gate = gate_expr(wires, selectors);
    let perm_value = permutation_expr(wires, perm, beta, gamma, xi);
    let lookup_value = lookup_expr(lookup, theta)?;
    Ok(weigh_terms(&gate, &perm_value, &lookup_value, y))
}

/// [`combined_expr`] with the multi-column lookup term.
pub fn combined_expr_multi_column(
    wires: &WireEvals,
    selectors: &SelectorEvals,
    perm: &PermutationEvals,
    lookup: &MultiColumnLookupEvals,
    theta: &Fr,
    beta: &Fr,
    gamma: &Fr,
    y: &Fr,
    xi: &Fr,
) -> (res: Result<Fr, OnChainError>)
    ensures
        !multi_shape_ok(*lookup) ==> res == Err::<Fr, OnChainError>(
            OnChainError::ProofLengthMismatch,
        ),
        multi_shape_ok(*lookup) && !multi_defined(*lookup, theta@) ==> res == Err::<
            Fr,
            OnChainError,
        >(OnChainError::InternalInvariantViolation),
        multi_shape_ok(*lookup) && multi_defined(*lookup, theta@) ==> res == Ok::<
            Fr,
            OnChainError,
        >(res->Ok_0) && res->Ok_0@ == combined_value(
            gate_value(*wires, *selectors),
            perm_value(*wires, *perm, beta@, gamma@, xi@),
            multi_value(*lookup, theta@),
            y@,
        ),
{
    let gate = gate_expr(wires, selectors);
    let perm_value = permutation_expr(wires, perm, beta, gamma, xi);
    let lookup_value = multi_column_lookup_expr(lookup, theta)?;
    Ok(weigh_terms(&gate, &perm_value, &lookup_value, y))
}

} // verus!

verus! {

/// The arity-1 multi-column lookup term agrees with the single-column term,
/// and is defined exactly when it is (θ ≠ 0).
pub proof fn lemma_multi_column_arity_one_matches_basic(
    basic: LookupEvals,
    lifted: MultiColumnLookupEvals,
    theta: nat,
)
    requires
        lifted.input_cols@ == seq![basic.input],
        lifted.table_cols@ == seq![basic.table],
        lifted.m == basic.m,
        theta != 0,
    ensures
        multi_shape_ok(lifted),
        multi_defined(lifted, theta) <==> lookup_defined(basic, theta),
        multi_value(lifted, theta) == lookup_value(basic, theta),
{
    crate::field::lemma_fpow_step(theta, 0);
    lemma_field_ops(1, theta);
    assert(fpow(theta, 1) == fe(theta as int));
    assert forall|cols: Seq<Fr>| cols.len() == 1 implies combine(fr_values(cols), theta) == fe(
        val(cols[0]),
    ) by {
        let v = fr_values(cols);
        let p = theta_powers(theta, 1);
        assert(p.drop_last().len() == 0);
        assert(v.drop_last().len() == 0);
        assert(fdot(p.drop_last(), v.drop_last()) == 0);
        assert(p.last() == 1);
        lemma_field_ops(1, v.last());
        lemma_field_ops(0, fe(val(cols[0])));
        lemma_fe_idem(val(cols[0]));
    }
    let t = val(basic.table);
    let i = val(basic.input);
    let th = theta as int;
    crate::field::lemma_fe_add(t, th);
    crate::field::lemma_fe_add(fe(t) as int, th);
    crate::field::lemma_fe_add(i, th);
    crate::field::lemma_fe_add(fe(i) as int, th);
    lemma_field_ops(fe(t), fe(th));
    lemma_field_ops(fe(i), fe(th));
    lemma_field_ops(basic.table@, theta);
    lemma_field_ops(basic.input@, theta);
    assert(fr_values(lifted.table_cols@).len() == 1);
    assert(multi_table_den(lifted, theta) == fadd(basic.table@, theta));
    assert(multi_input_den(lifted, theta) == fadd(basic.input@, theta));
}

/// With equal input and table columns and unit multiplicity the
/// multi-column lookup term is zero.
pub proof fn lemma_multi_column_matching_columns_zero(l: MultiColumnLookupEvals, theta: nat)
    requires
        l.input_cols@ == l.table_cols@,
        l.m@ == 1,
    ensures
        multi_value(l, theta) == 0,
{
    assert(multi_table_den(l, theta) == multi_input_den(l, theta));
}

/// With equal input and table and unit multiplicity the single-column
/// lookup term is zero.
pub proof fn lemma_lookup_matching_zero(l: LookupEvals, theta: nat)
    requires
        l.input == l.table,
        l.m@ == 1,
    ensures
        lookup_value(l, theta) == 0,
{
}

/// For the identity permutation (σ_i ≡ k_i·ξ) and `z(ξ) ≡ z(ξω)` the
/// permutation term is zero.
pub proof fn lemma_identity_permutation_zero(
    w: WireEvals,
    p: PermutationEvals,
    beta: nat,
    gamma: nat,
    xi: nat,
)
    requires
        fe(val(p.sigma_1)) == fe(xi as int),
        fe(val(p.sigma_2)) == fe(2 * xi as int),
        fe(val(p.sigma_3)) == fe(3 * xi as int),
        fe(val(p.z)) == fe(val(p.z_next)),
    ensures
        perm_value(w, p, beta, gamma, xi) == 0,
{
    let (b, g, x) = (beta as int, gamma as int, xi as int);
    let (wa, wb, wc) = (val(w.a), val(w.b), val(w.c));
    assert(b * 2 * x == b * (2 * x)) by (nonlinear_arith);
    assert(b * 3 * x == b * (3 * x)) by (nonlinear_arith);
    crate::field::lemma_fe_congruent(b, val(p.sigma_1), b, x);
    crate::field::lemma_fe_congruent(b, val(p.sigma_2), b, 2 * x);
    crate::field::lemma_fe_congruent(b, val(p.sigma_3), b, 3 * x);
    let (e1, e2, e3) = (wa + b * val(p.sigma_1), wb + b * val(p.sigma_2), wc + b * val(p.sigma_3));
    let (f1, f2, f3) = (wa + b * x, wb + b * 2 * x, wc + b * 3 * x);
    crate::field::lemma_fe_congruent(wa, b * val(p.sigma_1), wa, b * x);
    crate::field::lemma_fe_congruent(wb, b * val(p.sigma_2), wb, b * 2 * x);
    crate::field::lemma_fe_congruent(wc, b * val(p.sigma_3), wc, b * 3 * x);
    crate::field::lemma_fe_congruent(e1, g, f1, g);
    crate::field::lemma_fe_congruent(e2, g, f2, g);
    crate::field::lemma_fe_congruent(e3, g, f3, g);
    let zn = val(p.z_next);
    let z = val(p.z);
    crate::field::lemma_fe_congruent(zn, e1 + g, z, f1 + g);
    crate::field::lemma_fe_congruent(zn * (e1 + g), e2 + g, z * (f1 + g), f2 + g);
    crate::field::lemma_fe_congruent(
        zn * (e1 + g) * (e2 + g),
        e3 + g,
        z * (f1 + g) * (f2 + g),
        f3 + g,
    );
    let d = perm_denominator(w, p, b, g);
    let n = perm_numerator(w, p, b, g, x);
    crate::field::lemma_fe_congruent(d, n, n, n);
    lemma_fe_small(0);
}

/// `x − y` is zero in the field exactly when `x` and `y` are congruent.
proof fn lemma_fe_diff_zero(x: int, y: int)
    ensures
        fe(x - y) == 0 <==> fe(x) == fe(y),
{
    let m = fr_modulus() as int;
    let (xr, yr) = (fe(x) as int, fe(y) as int);
    lemma_fe_idem(x);
    lemma_fe_idem(y);
    crate::field::lemma_fe_congruent(x, y, xr, yr);
    lemma_fe_idem(xr);
    lemma_fe_idem(yr);
    if xr >= yr {
        lemma_fe_small(xr - yr);
    } else {
        vstd::arithmetic::div_mod::lemma_mod_add_multiples_vanish(xr - yr, m);
        lemma_fe_small(xr - yr + m);
    }
}

/// The selector polynomial depends only on the residues of the selectors:
/// with `q_M, q_L, q_R, q_O, q_C` congruent to `m, l, r, o, k` it is
/// `m·a·b + l·a + r·b + o·c + k`.
proof fn lemma_gate_with_selectors(w: WireEvals, s: SelectorEvals, m: int, l: int, r: int, o: int, k: int)
    requires
        fe(val(s.q_m)) == fe(m),
        fe(val(s.q_l)) == fe(l),
        fe(val(s.q_r)) == fe(r),
        fe(val(s.q_o)) == fe(o),
        fe(val(s.q_c)) == fe(k),
    ensures
        gate_value(w, s) == fe(m * (val(w.a) * val(w.b)) + l * val(w.a) + r * val(w.b) + o * val(w.c) + k),
{
    let (a, b, c) = (val(w.a), val(w.b), val(w.c));
    let (qm, ql, qr, qo, qc) = (val(s.q_m), val(s.q_l), val(s.q_r), val(s.q_o), val(s.q_c));
    assert(qm * a * b == qm * (a * b)) by (nonlinear_arith);
    crate::field::lemma_fe_congruent(qm, a * b, m, a * b);
    crate::field::lemma_fe_congruent(ql, a, l, a);
    crate::field::lemma_fe_congruent(qr, b, r, b);
    crate::field::lemma_fe_congruent(qo, c, o, c);
    crate::field::lemma_fe_congruent(qm * (a * b), ql * a, m * (a * b), l * a);
    crate::field::lemma_fe_congruent(qm * (a * b) + ql * a, qr * b, m * (a * b) + l * a, r * b);
    crate::field::lemma_fe_congruent(
        qm * (a * b) + ql * a + qr * b,
        qo * c,
        m * (a * b) + l * a + r * b,
        o * c,
    );
    crate::field::lemma_fe_congruent(
        qm * (a * b) + ql * a + qr * b + qo * c,
        qc,
        m * (a * b) + l * a + r * b + o * c,
        k,
    );
}

/// With every selector zero the selector polynomial is zero, whatever the
/// wires.
pub proof fn lemma_gate_zero_selectors(w: WireEvals, s: SelectorEvals)
    requires
        fe(val(s.q_m)) == 0,
        fe(val(s.q_l)) == 0,
        fe(val(s.q_r)) == 0,
        fe(val(s.q_o)) == 0,
        fe(val(s.q_c)) == 0,
    ensures
        gate_value(w, s) == 0,
{
    lemma_fe_small(0);
    lemma_gate_with_selectors(w, s, 0, 0, 0, 0, 0);
    let (a, b, c) = (val(w.a), val(w.b), val(w.c));
    assert(0 * (a * b) + 0 * a + 0 * b + 0 * c + 0 == 0) by (nonlinear_arith);
}

/// The multiplication gate (`q_M = 1, q_O = −1`, other selectors zero) is
/// satisfied exactly when `c = a·b`.
pub proof fn lemma_multiplication_gate(w: WireEvals, s: SelectorEvals)
    requires
        fe(val(s.q_m)) == 1,
        fe(val(s.q_l)) == 0,
        fe(val(s.q_r)) == 0,
        fe(val(s.q_o)) == fe(-1),
        fe(val(s.q_c)) == 0,
    ensures
        gate_value(w, s) == 0 <==> fe(val(w.a) * val(w.b)) == fe(val(w.c)),
{
    lemma_fe_small(0);
    lemma_fe_small(1);
    lemma_gate_with_selectors(w, s, 1, 0, 0, -1, 0);
    let (a, b, c) = (val(w.a), val(w.b), val(w.c));
    assert(1 * (a * b) + 0 * a + 0 * b + (-1) * c + 0 == a * b - c) by (nonlinear_arith);
    lemma_fe_diff_zero(a * b, c);
}

/// The addition gate (`q_L = q_R = 1, q_O = −1`, other selectors zero) is
/// satisfied exactly when `c = a + b`.
pub proof fn lemma_addition_gate(w: WireEvals, s: SelectorEvals)
    requires
        fe(val(s.q_m)) == 0,
        fe(val(s.q_l)) == 1,
        fe(val(s.q_r)) == 1,
        fe(val(s.q_o)) == fe(-1),
        fe(val(s.q_c)) == 0,
    ensures
        gate_value(w, s) == 0 <==> fe(val(w.a) + val(w.b)) == fe(val(w.c)),
{
    lemma_fe_small(0);
    lemma_fe_small(1);
    lemma_gate_with_selectors(w, s, 0, 1, 1, -1, 0);
    let (a, b, c) = (val(w.a), val(w.b), val(w.c));
    assert(0 * (a * b) + 1 * a + 1 * b + (-1) * c + 0 == (a + b) - c) by (nonlinear_arith);
    lemma_fe_diff_zero(a + b, c);
}

/// The constant gate (`q_O = 1, q_C = −k`, other selectors zero) is
/// satisfied exactly when `c = k`.
pub proof fn lemma_constant_gate(w: WireEvals, s: SelectorEvals, k: int)
    requires
        fe(val(s.q_m)) == 0,
        fe(val(s.q_l)) == 0,
        fe(val(s.q_r)) == 0,
        fe(val(s.q_o)) == 1,
        fe(val(s.q_c)) == fe(-k),
    ensures
        gate_value(w, s) == 0 <==> fe(val(w.c)) == fe(k),
{
    lemma_fe_small(0);
    lemma_fe_small(1);
    lemma_gate_with_selectors(w, s, 0, 0, 0, 1, -k);
    let (a, b, c) = (val(w.a), val(w.b), val(w.c));
    assert(0 * (a * b) + 0 * a + 0 * b + 1 * c + (-k) == c - k) by (nonlinear_arith);
    lemma_fe_diff_zero(c, k);
}

/// With `y = 0` the vanishing right-hand side reduces to the selector polynomial alone.
pub proof fn lemma_combined_y_zero_is_gate(w: WireEvals, s: SelectorEvals, perm: nat, lookup: nat)
    ensures
        combined_value(gate_value(w, s), perm, lookup, 0) == gate_value(w, s),
{
    let g = gate_value(w, s);
    lemma_fe_idem(
        val(s.q_m) * val(w.a) * val(w.b) + val(s.q_l) * val(w.a) + val(s.q_r) * val(w.b) + val(
            s.q_o,
        ) * val(w.c) + val(s.q_c),
    );
    lemma_fe_small(g as int);
    assert((g + 0 * perm + 0 * 0 * lookup) as int == g as int) by (nonlinear_arith);
}

} // verus!
