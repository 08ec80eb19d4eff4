#![allow(dead_code, unused_imports)]
use ark_ff::{BigInteger, Field, PrimeField, Zero};
use mosaic::error::OnChainError;
use mosaic::field::Fr;
use mosaic::halo2::circuit::{
    combined_expr, gate_expr, lookup_expr, multi_column_lookup_expr, permutation_expr,
    verify_multi_column_lookup_identity, LookupEvals, MultiColumnLookupEvals, PermutationEvals,
    SelectorEvals, WireEvals,
};

type A = ark_bn254::Fr;

/// A field element of the library from one of ark_bn254.
fn fr_of(x: &ark_bn254::Fr) -> Fr {
    let b = x.into_bigint().to_bytes_be();
    Fr::from_canonical_bytes(&b).unwrap()
}

/// A small field element.
fn fr(n: u64) -> Fr {
    Fr::from_u64(n)
}

/// Canonical big-endian bytes of an ark_bn254 element.
fn ark_bytes(x: &ark_bn254::Fr) -> [u8; 32] {
    let v = x.into_bigint().to_bytes_be();
    let mut out = [0u8; 32];
    out.copy_from_slice(&v);
    out
}

/// Deterministic pseudo-random field elements (splitmix64 over four limbs).
struct Rng(u64);

impl Rng {
    fn next_u64(&mut self) -> u64 {
        self.0 = self.0.wrapping_add(0x9E3779B97F4A7C15);
        let mut z = self.0;
        z = (z ^ (z >> 30)).wrapping_mul(0xBF58476D1CE4E5B9);
        z = (z ^ (z >> 27)).wrapping_mul(0x94D049BB133111EB);
        z ^ (z >> 31)
    }

    fn ark(&mut self) -> ark_bn254::Fr {
        let mut b = [0u8; 32];
        for i in 0..4 {
            b[i * 8..(i + 1) * 8].copy_from_slice(&self.next_u64().to_be_bytes());
        }
        ark_bn254::Fr::from_be_bytes_mod_order(&b)
    }

    fn fr(&mut self) -> Fr {
        fr_of(&self.ark())
    }
}

fn a(n: u64) -> A {
    A::from(n)
}

fn wires_of(r: &mut Rng) -> (WireEvals, [A; 3]) {
    let v = [r.ark(), r.ark(), r.ark()];
    (WireEvals { a: fr_of(&v[0]), b: fr_of(&v[1]), c: fr_of(&v[2]) }, v)
}

fn selectors_of(r: &mut Rng) -> (SelectorEvals, [A; 5]) {
    let v = [r.ark(), r.ark(), r.ark(), r.ark(), r.ark()];
    (
        SelectorEvals { q_m: fr_of(&v[0]), q_l: fr_of(&v[1]), q_r: fr_of(&v[2]), q_o: fr_of(&v[3]), q_c: fr_of(&v[4]) },
        v,
    )
}

fn perm_of(r: &mut Rng) -> PermutationEvals {
    PermutationEvals { z: r.fr(), z_next: r.fr(), sigma_1: r.fr(), sigma_2: r.fr(), sigma_3: r.fr() }
}

#[test]
fn gate_expr_mul_gate_zero_on_valid() {
    let wires = WireEvals { a: fr(7), b: fr(11), c: fr(77) };
    let selectors = SelectorEvals { q_m: fr(1), q_l: fr(0), q_r: fr(0), q_o: fr_of(&-a(1)), q_c: fr(0) };
    assert_eq!(gate_expr(&wires, &selectors), fr(0));
}

#[test]
fn circuit_gate_expr_matches_manual_formula() {
    let mut r = Rng(1);
    for _ in 0..5 {
        let (wires, w) = wires_of(&mut r);
        let (s, q) = selectors_of(&mut r);
        let expected = q[0] * w[0] * w[1] + q[1] * w[0] + q[2] * w[1] + q[3] * w[2] + q[4];
        assert_eq!(gate_expr(&wires, &s), fr_of(&expected));
    }
}

#[test]
fn permutation_identity_permutation_trivially_zero_when_z_equals_z_next() {
    let mut r = Rng(10);
    let xi = r.ark();
    let (wires, _) = wires_of(&mut r);
    let z = r.fr();
    let perm = PermutationEvals { z, z_next: z, sigma_1: fr_of(&xi), sigma_2: fr_of(&(a(2) * xi)), sigma_3: fr_of(&(a(3) * xi)) };
    let beta = r.fr();
    let gamma = r.fr();
    assert_eq!(permutation_expr(&wires, &perm, &beta, &gamma, &fr_of(&xi)), fr(0));
}

#[test]
fn permutation_generally_nonzero_for_nontrivial_permutation() {
    let mut r = Rng(11);
    let xi = r.fr();
    let (wires, _) = wires_of(&mut r);
    let perm = perm_of(&mut r);
    let beta = r.fr();
    let gamma = r.fr();
    assert_ne!(permutation_expr(&wires, &perm, &beta, &gamma, &xi), fr(0));
}

#[test]
fn lookup_expr_zero_when_multiplicity_makes_equation_hold() {
    let mut r = Rng(20);
    let theta = r.ark();
    let table = r.ark();
    let input = r.ark();
    let m = (table + theta) * (input + theta).inverse().unwrap();
    let got = lookup_expr(&LookupEvals { input: fr_of(&input), table: fr_of(&table), m: fr_of(&m) }, &fr_of(&theta)).unwrap();
    assert_eq!(got, fr(0));
}

#[test]
fn lookup_expr_nonzero_for_unrelated_m() {
    let mut r = Rng(21);
    let theta = r.fr();
    let lookup = LookupEvals { input: r.fr(), table: r.fr(), m: r.fr() };
    let got = lookup_expr(&lookup, &theta).unwrap();
    assert_ne!(got, fr(0));
}

#[test]
fn lookup_expr_rejects_zero_denominator() {
    let theta = a(5);
    let lookup = LookupEvals { input: fr(1), table: fr_of(&-theta), m: fr(1) };
    assert!(matches!(lookup_expr(&lookup, &fr_of(&theta)), Err(OnChainError::InternalInvariantViolation)));
}

#[test]
fn combined_expr_is_gate_when_y_is_zero() {
    let mut r = Rng(30);
    let (wires, _) = wires_of(&mut r);
    let (s, _) = selectors_of(&mut r);
    let perm = perm_of(&mut r);
    let lookup = LookupEvals { input: r.fr(), table: r.fr(), m: r.fr() };
    let theta = r.fr();
    let beta = r.fr();
    let gamma = r.fr();
    let xi = r.fr();
    let combined = combined_expr(&wires, &s, &perm, &lookup, &theta, &beta, &gamma, &fr(0), &xi).unwrap();
    assert_eq!(combined, gate_expr(&wires, &s));
}

#[test]
fn combined_expr_y_scales_contributions() {
    let mut r = Rng(31);
    let (wires, _) = wires_of(&mut r);
    let (s, _) = selectors_of(&mut r);
    let perm = perm_of(&mut r);
    let lookup = LookupEvals { input: r.fr(), table: r.fr(), m: r.fr() };
    let theta = r.fr();
    let beta = r.fr();
    let gamma = r.fr();
    let xi = r.fr();
    let x = combined_expr(&wires, &s, &perm, &lookup, &theta, &beta, &gamma, &fr(1), &xi).unwrap();
    let y = combined_expr(&wires, &s, &perm, &lookup, &theta, &beta, &gamma, &fr(2), &xi).unwrap();
    assert_ne!(x, y, "combined expression should depend on y");
}

#[test]
fn multi_column_lookup_rejects_empty() {
    let theta = fr(7);
    let lookup = MultiColumnLookupEvals { input_cols: Vec::new(), table_cols: Vec::new(), m: fr(1) };
    assert!(matches!(multi_column_lookup_expr(&lookup, &theta), Err(OnChainError::ProofLengthMismatch)));
}

#[test]
fn multi_column_lookup_rejects_arity_mismatch() {
    let theta = fr(7);
    let lookup = MultiColumnLookupEvals { input_cols: vec![fr(1), fr(2)], table_cols: vec![fr(3)], m: fr(1) };
    assert!(matches!(multi_column_lookup_expr(&lookup, &theta), Err(OnChainError::ProofLengthMismatch)));
}

#[test]
fn try_new_accepts_arity_1() {
    let evals = MultiColumnLookupEvals::try_new(vec![fr(1)], vec![fr(1)], fr(1)).unwrap();
    assert_eq!(evals.arity(), 1);
}

#[test]
fn try_new_accepts_arity_5() {
    let evals = MultiColumnLookupEvals::try_new(vec![fr(1); 5], vec![fr(2); 5], fr(3)).unwrap();
    assert_eq!(evals.arity(), 5);
}

#[test]
fn try_new_rejects_empty() {
    let r = MultiColumnLookupEvals::try_new(Vec::new(), Vec::new(), fr(1));
    assert!(matches!(r, Err(OnChainError::ProofLengthMismatch)));
}

#[test]
fn try_new_rejects_arity_mismatch() {
    let r = MultiColumnLookupEvals::try_new(vec![fr(1); 3], vec![fr(2); 2], fr(3));
    assert!(matches!(r, Err(OnChainError::ProofLengthMismatch)));
}

#[test]
fn multi_column_lookup_rejects_theta_zero() {
    let lookup = MultiColumnLookupEvals::try_new(vec![fr(1), fr(2)], vec![fr(1), fr(2)], fr(1)).unwrap();
    let r = multi_column_lookup_expr(&lookup, &fr(0));
    assert!(matches!(r, Err(OnChainError::InternalInvariantViolation)), "θ=0 should be rejected at the input-validation boundary");
}

#[test]
fn multi_column_lookup_rejects_theta_zero_even_for_satisfying_tuple() {
    let lookup = MultiColumnLookupEvals::try_new(vec![fr(7)], vec![fr(7)], fr(1)).unwrap();
    assert!(matches!(multi_column_lookup_expr(&lookup, &fr(0)), Err(OnChainError::InternalInvariantViolation)));
}

#[test]
fn verify_lookup_identity_accepts_satisfying_tuple() {
    let lookup = MultiColumnLookupEvals::try_new(vec![fr(3), fr(5)], vec![fr(3), fr(5)], fr(1)).unwrap();
    let theta = fr(11);
    verify_multi_column_lookup_identity(&lookup, &theta).expect("satisfying tuple must accept");
}

#[test]
fn verify_lookup_identity_rejects_non_satisfying_tuple() {
    let lookup = MultiColumnLookupEvals::try_new(vec![fr(3), fr(5)], vec![fr(3), fr(99)], fr(1)).unwrap();
    let theta = fr(11);
    let r = verify_multi_column_lookup_identity(&lookup, &theta);
    assert!(matches!(r, Err(OnChainError::SumcheckFailed)), "non-zero lookup expression must surface as SumcheckFailed, got {r:?}");
}

#[test]
fn verify_lookup_identity_propagates_input_validation_errors() {
    let lookup = MultiColumnLookupEvals { input_cols: Vec::new(), table_cols: Vec::new(), m: fr(1) };
    let theta = fr(7);
    assert!(matches!(verify_multi_column_lookup_identity(&lookup, &theta), Err(OnChainError::ProofLengthMismatch)));
    let lookup = MultiColumnLookupEvals { input_cols: vec![fr(1), fr(2)], table_cols: vec![fr(1)], m: fr(1) };
    assert!(matches!(verify_multi_column_lookup_identity(&lookup, &theta), Err(OnChainError::ProofLengthMismatch)));
}

#[test]
fn verify_lookup_identity_propagates_theta_zero() {
    let lookup = MultiColumnLookupEvals::try_new(vec![fr(3)], vec![fr(3)], fr(1)).unwrap();
    assert!(matches!(verify_multi_column_lookup_identity(&lookup, &fr(0)), Err(OnChainError::InternalInvariantViolation)));
}

#[test]
fn from_basic_preserves_fields() {
    let basic = LookupEvals { input: fr(7), table: fr(13), m: fr(2) };
    let lifted = MultiColumnLookupEvals::from_basic(basic);
    assert_eq!(lifted.arity(), 1);
    assert_eq!(lifted.input_cols, vec![fr(7)]);
    assert_eq!(lifted.table_cols, vec![fr(13)]);
    assert_eq!(lifted.m, fr(2));
}

#[test]
fn arity_one_multi_column_equals_basic_lookup() {
    for (input, table, m, theta) in [(3u64, 9u64, 4u64, 5u64), (100, 200, 300, 7), (1, 1, 1, 2)] {
        let basic = LookupEvals { input: fr(input), table: fr(table), m: fr(m) };
        let b = lookup_expr(&basic, &fr(theta)).unwrap();
        let lifted = MultiColumnLookupEvals::from_basic(basic);
        let mc = multi_column_lookup_expr(&lifted, &fr(theta)).unwrap();
        assert_eq!(b, mc);
    }
}

#[test]
fn matching_columns_with_unit_multiplicity_vanish() {
    let mut r = Rng(5);
    for arity in 1..=6 {
        let cols: Vec<Fr> = (0..arity).map(|_| r.fr()).collect();
        let lookup = MultiColumnLookupEvals::try_new(cols.clone(), cols, fr(1)).unwrap();
        assert_eq!(multi_column_lookup_expr(&lookup, &fr(9)).unwrap(), fr(0));
        assert!(verify_multi_column_lookup_identity(&lookup, &fr(9)).is_ok());
    }
}

#[test]
fn lookup_expr_exact_value() {
    // m·(t + θ)⁻¹ − (i + θ)⁻¹ with i = 1, t = 2, m = 3, θ = 1: 3/3 − 1/2 = 1/2.
    let got = lookup_expr(&LookupEvals { input: fr(1), table: fr(2), m: fr(3) }, &fr(1)).unwrap();
    assert_eq!(got, fr_of(&a(2).inverse().unwrap()));
}

#[test]
fn permutation_expr_exact_value() {
    // z·(a+βξ+γ)(b+βk₁ξ+γ)(c+βk₂ξ+γ) − z_ω·(a+βσ₁+γ)(b+βσ₂+γ)(c+βσ₃+γ)
    // with k₁ = 2, k₂ = 3.
    let (wa, wb, wc) = (a(2), a(3), a(5));
    let (s1, s2, s3) = (a(7), a(11), a(13));
    let (z, zn, beta, gamma, xi) = (a(17), a(19), a(23), a(29), a(31));
    let lhs = z * (wa + beta * xi + gamma) * (wb + beta * a(2) * xi + gamma) * (wc + beta * a(3) * xi + gamma);
    let rhs = zn * (wa + beta * s1 + gamma) * (wb + beta * s2 + gamma) * (wc + beta * s3 + gamma);
    let wires = WireEvals { a: fr_of(&wa), b: fr_of(&wb), c: fr_of(&wc) };
    let perm = PermutationEvals { z: fr_of(&z), z_next: fr_of(&zn), sigma_1: fr_of(&s1), sigma_2: fr_of(&s2), sigma_3: fr_of(&s3) };
    assert_eq!(permutation_expr(&wires, &perm, &fr_of(&beta), &fr_of(&gamma), &fr_of(&xi)), fr_of(&(rhs - lhs)));
}
