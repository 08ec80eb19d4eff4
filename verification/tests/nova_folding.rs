#![allow(dead_code, unused_imports)]
use ark_ff::{BigInteger, Field, PrimeField, Zero};
use mosaic::curve::g1_generator_bytes;
use mosaic::error::OnChainError;
use mosaic::field::Fr;
use mosaic::nova::folding::{
    folded_commitment_from_fold, folded_commitment_two_term, folded_error_commitment,
    hadamard_residual, verify_folding_consistency,
};

type A = ark_bn254::Fr;

use ark_bn254::{Bn254, Fq, Fq2, G1Affine, G2Affine};
use ark_ec::{pairing::Pairing, AffineRepr, CurveGroup};
use ark_serialize::{CanonicalDeserialize, CanonicalSerialize};
use tiny_keccak::{Hasher, Keccak};
use mosaic::syscall::{AltBn128Compress, AltBn128Op, InputEndianness, PoseidonParameters, SyscallBackend};

/// Host-side implementation of the backend over arkworks and tiny-keccak.
struct HostBackend;

impl HostBackend {
    fn new() -> Self {
        HostBackend
    }
}

fn fq_be(b: &[u8]) -> Option<Fq> {
    let mut le = b.to_vec();
    le.reverse();
    Fq::deserialize_uncompressed(&le[..]).ok()
}

fn fq_to_be(x: &Fq) -> Vec<u8> {
    x.into_bigint().to_bytes_be()
}

fn g1_from(b: &[u8]) -> Option<G1Affine> {
    if b.len() != 64 {
        return None;
    }
    if b.iter().all(|x| *x == 0) {
        return Some(G1Affine::zero());
    }
    let p = G1Affine::new_unchecked(fq_be(&b[0..32])?, fq_be(&b[32..64])?);
    if p.is_on_curve() {
        Some(p)
    } else {
        None
    }
}

fn g1_bytes(p: &G1Affine) -> Vec<u8> {
    if p.is_zero() {
        return vec![0u8; 64];
    }
    let mut out = fq_to_be(&p.x);
    out.extend(fq_to_be(&p.y));
    out
}

fn g2_from(b: &[u8]) -> Option<G2Affine> {
    if b.len() != 128 {
        return None;
    }
    if b.iter().all(|x| *x == 0) {
        return Some(G2Affine::zero());
    }
    let x = Fq2::new(fq_be(&b[32..64])?, fq_be(&b[0..32])?);
    let y = Fq2::new(fq_be(&b[96..128])?, fq_be(&b[64..96])?);
    let p = G2Affine::new_unchecked(x, y);
    if p.is_on_curve() && p.is_in_correct_subgroup_assuming_on_curve() {
        Some(p)
    } else {
        None
    }
}

fn g2_bytes(p: &G2Affine) -> Vec<u8> {
    if p.is_zero() {
        return vec![0u8; 128];
    }
    let mut out = fq_to_be(&p.x.c1);
    out.extend(fq_to_be(&p.x.c0));
    out.extend(fq_to_be(&p.y.c1));
    out.extend(fq_to_be(&p.y.c0));
    out
}

impl SyscallBackend for HostBackend {
    fn group_op_reply(
        &self,
        op: mosaic::syscall::AltBn128Op,
        endianness: mosaic::syscall::InputEndianness,
        input: &[u8],
    ) -> Result<Vec<u8>, OnChainError> {
        self.alt_bn128_group_op(op, endianness, input)
    }
    fn compression_reply(&self, op: mosaic::syscall::AltBn128Compress, input: &[u8]) -> Result<Vec<u8>, OnChainError> {
        self.alt_bn128_compression(op, input)
    }
    fn poseidon_reply(
        &self,
        params: mosaic::syscall::PoseidonParameters,
        endianness: mosaic::syscall::InputEndianness,
        inputs: &[&[u8]],
    ) -> Result<[u8; 32], OnChainError> {
        self.poseidon(params, endianness, inputs)
    }
    fn sha256_reply(&self, inputs: &[&[u8]]) -> Result<[u8; 32], OnChainError> {
        self.sha256(inputs)
    }
    fn keccak256_reply(&self, inputs: &[&[u8]]) -> Result<[u8; 32], OnChainError> {
        self.keccak256(inputs)
    }
    fn alt_bn128_group_op(
        &self,
        op: AltBn128Op,
        _endianness: InputEndianness,
        input: &[u8],
    ) -> Result<Vec<u8>, OnChainError> {
        match op {
            AltBn128Op::G1Add => {
                if input.len() != 128 {
                    return Err(OnChainError::AltBn128SyscallFailed);
                }
                let p = g1_from(&input[0..64]).ok_or(OnChainError::AltBn128SyscallFailed)?;
                let q = g1_from(&input[64..128]).ok_or(OnChainError::AltBn128SyscallFailed)?;
                Ok(g1_bytes(&(p + q).into_affine()))
            }
            AltBn128Op::G1Mul => {
                if input.len() != 96 {
                    return Err(OnChainError::AltBn128SyscallFailed);
                }
                let p = g1_from(&input[0..64]).ok_or(OnChainError::AltBn128SyscallFailed)?;
                let s = ark_bn254::Fr::from_be_bytes_mod_order(&input[64..96]);
                Ok(g1_bytes(&(p * s).into_affine()))
            }
            AltBn128Op::Pairing => {
                if input.len() % 192 != 0 {
                    return Err(OnChainError::AltBn128SyscallFailed);
                }
                let mut g1s = Vec::new();
                let mut g2s = Vec::new();
                for chunk in input.chunks(192) {
                    g1s.push(g1_from(&chunk[0..64]).ok_or(OnChainError::AltBn128SyscallFailed)?);
                    g2s.push(g2_from(&chunk[64..192]).ok_or(OnChainError::AltBn128SyscallFailed)?);
                }
                let r = Bn254::multi_pairing(g1s, g2s);
                let mut out = vec![0u8; 32];
                if r.is_zero() {
                    out[31] = 1;
                }
                Ok(out)
            }
        }
    }

    fn alt_bn128_compression(&self, op: AltBn128Compress, input: &[u8]) -> Result<Vec<u8>, OnChainError> {
        let fail = OnChainError::AltBn128CompressionSyscallFailed;
        match op {
            AltBn128Compress::G1Compress => {
                if input.len() != 64 {
                    return Err(fail);
                }
                if input.iter().all(|x| *x == 0) {
                    return Ok(vec![0u8; 32]);
                }
                let p = g1_from(input).ok_or(fail)?;
                let mut out = Vec::new();
                p.serialize_compressed(&mut out).map_err(|_| fail)?;
                out.reverse();
                Ok(out)
            }
            AltBn128Compress::G1Decompress => {
                if input.len() != 32 {
                    return Err(fail);
                }
                if input.iter().all(|x| *x == 0) {
                    return Ok(vec![0u8; 64]);
                }
                let mut le = input.to_vec();
                le.reverse();
                let p = G1Affine::deserialize_compressed(&le[..]).map_err(|_| fail)?;
                Ok(g1_bytes(&p))
            }
            AltBn128Compress::G2Compress => {
                if input.len() != 128 {
                    return Err(fail);
                }
                if input.iter().all(|x| *x == 0) {
                    return Ok(vec![0u8; 64]);
                }
                let p = g2_from(input).ok_or(fail)?;
                let mut out = Vec::new();
                p.serialize_compressed(&mut out).map_err(|_| fail)?;
                out.reverse();
                Ok(out)
            }
            AltBn128Compress::G2Decompress => {
                if input.len() != 64 {
                    return Err(fail);
                }
                if input.iter().all(|x| *x == 0) {
                    return Ok(vec![0u8; 128]);
                }
                let mut le = input.to_vec();
                le.reverse();
                let p = G2Affine::deserialize_compressed(&le[..]).map_err(|_| fail)?;
                Ok(g2_bytes(&p))
            }
        }
    }

    fn poseidon(
        &self,
        _params: PoseidonParameters,
        _endianness: InputEndianness,
        _inputs: &[&[u8]],
    ) -> Result<[u8; 32], OnChainError> {
        Err(OnChainError::PoseidonSyscallFailed)
    }

    fn sha256(&self, _inputs: &[&[u8]]) -> Result<[u8; 32], OnChainError> {
        Err(OnChainError::Sha256SyscallFailed)
    }

    fn keccak256(&self, inputs: &[&[u8]]) -> Result<[u8; 32], OnChainError> {
        Ok(keccak(inputs))
    }
}

fn keccak(inputs: &[&[u8]]) -> [u8; 32] {
    let mut h = Keccak::v256();
    for i in inputs {
        h.update(i);
    }
    let mut out = [0u8; 32];
    h.finalize(&mut out);
    out
}
/// A field element of the library from one of ark_bn254.
fn fr_of(x: &ark_bn254::Fr) -> Fr {
    let b = x.into_bigint().to_bytes_be();
    Fr::from_canonical_bytes(&b).unwrap()
}

/// A small field element.
fn fr(n: u64) -> Fr {
    Fr::from_u64(n)
}

/// Canonical big-endian bytes of an ark_bn254 element.
fn ark_bytes(x: &ark_bn254::Fr) -> [u8; 32] {
    let v = x.into_bigint().to_bytes_be();
    let mut out = [0u8; 32];
    out.copy_from_slice(&v);
    out
}

/// Deterministic pseudo-random field elements (splitmix64 over four limbs).
struct Rng(u64);

impl Rng {
    fn next_u64(&mut self) -> u64 {
        self.0 = self.0.wrapping_add(0x9E3779B97F4A7C15);
        let mut z = self.0;
        z = (z ^ (z >> 30)).wrapping_mul(0xBF58476D1CE4E5B9);
        z = (z ^ (z >> 27)).wrapping_mul(0x94D049BB133111EB);
        z ^ (z >> 31)
    }

    fn ark(&mut self) -> ark_bn254::Fr {
        let mut b = [0u8; 32];
        for i in 0..4 {
            b[i * 8..(i + 1) * 8].copy_from_slice(&self.next_u64().to_be_bytes());
        }
        ark_bn254::Fr::from_be_bytes_mod_order(&b)
    }

    fn fr(&mut self) -> Fr {
        fr_of(&self.ark())
    }
}

#[test]
fn hadamard_residual_zero_on_valid_relation() {
    let mut r = Rng(1);
    for _ in 0..5 {
        let (a, b, c, u) = (r.ark(), r.ark(), r.ark(), r.ark());
        let e = a * b - u * c;
        assert_eq!(hadamard_residual(&fr_of(&a), &fr_of(&b), &fr_of(&c), &fr_of(&e), &fr_of(&u)), fr(0));
    }
}

#[test]
fn hadamard_residual_nonzero_on_tampered_eval() {
    let mut r = Rng(2);
    let (a, b, c, u) = (r.ark(), r.ark(), r.ark(), r.ark());
    let e = a * b - u * c;
    let bad_a = a + A::from(1u64);
    assert_ne!(hadamard_residual(&fr_of(&bad_a), &fr_of(&b), &fr_of(&c), &fr_of(&e), &fr_of(&u)), fr(0));
}

#[test]
fn hadamard_residual_fresh_instance_u_equals_one() {
    let mut r = Rng(3);
    let (a, b, c) = (r.ark(), r.ark(), r.ark());
    let e = a * b - c;
    assert_eq!(hadamard_residual(&fr_of(&a), &fr_of(&b), &fr_of(&c), &fr_of(&e), &fr(1)), fr(0));
}

#[test]
fn hadamard_residual_exact_value() {
    // 3·4 − 2·5 − 1 = 1.
    assert_eq!(hadamard_residual(&fr(3), &fr(4), &fr(5), &fr(1), &fr(2)), fr(1));
}

#[test]
fn folded_commitment_zero_r_is_just_c1() {
    let backend = HostBackend::new();
    let g1 = g1_generator_bytes();
    let zero_commit = [0u8; 64];
    let got = folded_commitment_from_fold(&backend, &g1, &zero_commit, &zero_commit, &fr(0)).unwrap();
    assert_eq!(got, g1);
}

#[test]
fn folded_commitment_identity_inputs_is_identity() {
    let backend = HostBackend::new();
    let zero = [0u8; 64];
    let got = folded_commitment_from_fold(&backend, &zero, &zero, &zero, &fr(5)).unwrap();
    assert_eq!(got, zero);
}

#[test]
fn folded_commitment_rejects_wrong_length() {
    let backend = HostBackend::new();
    let short = [0u8; 63];
    let g1 = g1_generator_bytes();
    let r = folded_commitment_from_fold(&backend, &short, &g1, &g1, &fr(1));
    assert!(matches!(r, Err(OnChainError::InvalidPointEncoding)));
}

#[test]
fn folded_commitment_exact_multiple_of_generator() {
    // G + 2·G + 4·G = 7·G at r = 2.
    let backend = HostBackend::new();
    let g1 = g1_generator_bytes();
    let got = folded_commitment_from_fold(&backend, &g1, &g1, &g1, &fr(2)).unwrap();
    let seven = (G1Affine::generator() * A::from(7u64)).into_affine();
    assert_eq!(got.to_vec(), g1_bytes(&seven));
}

#[test]
fn folded_error_zero_r_is_just_e1() {
    let backend = HostBackend::new();
    let g1 = g1_generator_bytes();
    let zero = [0u8; 64];
    let got = folded_error_commitment(&backend, &g1, &zero, &fr(0)).unwrap();
    assert_eq!(got, g1);
}

#[test]
fn folded_error_identity_inputs_is_identity() {
    let backend = HostBackend::new();
    let zero = [0u8; 64];
    let got = folded_error_commitment(&backend, &zero, &zero, &fr(7)).unwrap();
    assert_eq!(got, zero);
}

#[test]
fn folded_error_rejects_wrong_length() {
    let backend = HostBackend::new();
    let short = [0u8; 63];
    let g1 = g1_generator_bytes();
    let r = folded_error_commitment(&backend, &short, &g1, &fr(1));
    assert!(matches!(r, Err(OnChainError::InvalidPointEncoding)));
}

#[test]
fn folded_two_term_zero_r_is_just_c1() {
    let backend = HostBackend::new();
    let g1 = g1_generator_bytes();
    let zero = [0u8; 64];
    let got = folded_commitment_two_term(&backend, &g1, &zero, &fr(0)).unwrap();
    assert_eq!(got, g1);
}

#[test]
fn folded_two_term_identity_inputs_is_identity() {
    let backend = HostBackend::new();
    let zero = [0u8; 64];
    let got = folded_commitment_two_term(&backend, &zero, &zero, &fr(11)).unwrap();
    assert_eq!(got, zero);
}

#[test]
fn folded_two_term_rejects_wrong_length() {
    let backend = HostBackend::new();
    let short = [0u8; 63];
    let g1 = g1_generator_bytes();
    let r = folded_commitment_two_term(&backend, &short, &g1, &fr(1));
    assert!(matches!(r, Err(OnChainError::InvalidPointEncoding)));
    let r = folded_commitment_two_term(&backend, &g1, &short, &fr(1));
    assert!(matches!(r, Err(OnChainError::InvalidPointEncoding)));
}

#[test]
fn folded_two_term_matches_three_term_with_zero_t() {
    let backend = HostBackend::new();
    let g1 = g1_generator_bytes();
    let zero_t = [0u8; 64];
    for r_val in [1u64, 7, 42, 1234, u64::MAX / 2] {
        let r = fr(r_val);
        let two_term = folded_commitment_two_term(&backend, &g1, &g1, &r).expect("two-term ok");
        let three_term = folded_commitment_from_fold(&backend, &g1, &g1, &zero_t, &r).expect("three-term ok");
        assert_eq!(two_term, three_term, "two-term should match three-term with T=0 at r={r_val}");
    }
}

#[test]
fn folding_consistency_identity_baseline_accepts() {
    let backend = HostBackend::new();
    let zero = [0u8; 64];
    for r_val in [0u64, 1, 7, 999] {
        let res = verify_folding_consistency(&backend, &zero, &zero, &zero, &zero, &zero, &zero, &zero, &fr(r_val));
        assert!(res.is_ok(), "identity baseline should accept at r={r_val}");
    }
}

#[test]
fn folding_consistency_generator_baseline_accepts() {
    let backend = HostBackend::new();
    let g1 = g1_generator_bytes();
    let zero = [0u8; 64];
    let res = verify_folding_consistency(&backend, &g1, &zero, &g1, &zero, &zero, &g1, &g1, &fr(42));
    assert!(res.is_ok(), "generator baseline should accept");
}

#[test]
fn folding_consistency_rejects_tampered_e_comm() {
    let backend = HostBackend::new();
    let g1 = g1_generator_bytes();
    let zero = [0u8; 64];
    let res = verify_folding_consistency(&backend, &zero, &zero, &zero, &zero, &zero, &g1, &zero, &fr(5));
    assert!(matches!(res, Err(OnChainError::VerificationFailed)));
}

#[test]
fn folding_consistency_rejects_tampered_w_comm() {
    let backend = HostBackend::new();
    let g1 = g1_generator_bytes();
    let zero = [0u8; 64];
    let res = verify_folding_consistency(&backend, &zero, &zero, &zero, &zero, &zero, &zero, &g1, &fr(5));
    assert!(matches!(res, Err(OnChainError::VerificationFailed)));
}

#[test]
fn folding_consistency_rejects_short_inputs() {
    let backend = HostBackend::new();
    let zero = [0u8; 64];
    let short = [0u8; 63];
    for which in 0..7 {
        let mut args: [&[u8]; 7] = [&zero; 7];
        args[which] = &short;
        let res = verify_folding_consistency(&backend, args[0], args[1], args[2], args[3], args[4], args[5], args[6], &fr(1));
        assert!(matches!(res, Err(OnChainError::InvalidPointEncoding)), "slot {which} short input should reject as InvalidPointEncoding");
    }
}
