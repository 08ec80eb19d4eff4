#![allow(dead_code, unused_imports)]
use ark_ff::{BigInteger, Field, PrimeField, Zero};
use mosaic::curve::{g1_generator_bytes, g2_generator_bytes};
use mosaic::error::OnChainError;
use mosaic::halo2::canonical::{
    Halo2KzgProof, Halo2KzgVerifyingKey, FIXED_HEADER_LEN, MAX_ADVICE_COLUMNS, MAX_EVALUATIONS,
};

const G1_LEN: usize = 64;
const G2_LEN: usize = 128;
const FR_LEN: usize = 32;

use ark_bn254::{Bn254, Fq, Fq2, G1Affine, G2Affine};
use ark_ec::{pairing::Pairing, AffineRepr, CurveGroup};
use ark_serialize::{CanonicalDeserialize, CanonicalSerialize};
use tiny_keccak::{Hasher, Keccak};
use mosaic::syscall::{AltBn128Compress, AltBn128Op, InputEndianness, PoseidonParameters, SyscallBackend};

/// Host-side implementation of the backend over arkworks and tiny-keccak.
struct HostBackend;

impl HostBackend {
    fn new() -> Self {
        HostBackend
    }
}

fn fq_be(b: &[u8]) -> Option<Fq> {
    let mut le = b.to_vec();
    le.reverse();
    Fq::deserialize_uncompressed(&le[..]).ok()
}

fn fq_to_be(x: &Fq) -> Vec<u8> {
    x.into_bigint().to_bytes_be()
}

fn g1_from(b: &[u8]) -> Option<G1Affine> {
    if b.len() != 64 {
        return None;
    }
    if b.iter().all(|x| *x == 0) {
        return Some(G1Affine::zero());
    }
    let p = G1Affine::new_unchecked(fq_be(&b[0..32])?, fq_be(&b[32..64])?);
    if p.is_on_curve() {
        Some(p)
    } else {
        None
    }
}

fn g1_bytes(p: &G1Affine) -> Vec<u8> {
    if p.is_zero() {
        return vec![0u8; 64];
    }
    let mut out = fq_to_be(&p.x);
    out.extend(fq_to_be(&p.y));
    out
}

fn g2_from(b: &[u8]) -> Option<G2Affine> {
    if b.len() != 128 {
        return None;
    }
    if b.iter().all(|x| *x == 0) {
        return Some(G2Affine::zero());
    }
    let x = Fq2::new(fq_be(&b[32..64])?, fq_be(&b[0..32])?);
    let y = Fq2::new(fq_be(&b[96..128])?, fq_be(&b[64..96])?);
    let p = G2Affine::new_unchecked(x, y);
    if p.is_on_curve() && p.is_in_correct_subgroup_assuming_on_curve() {
        Some(p)
    } else {
        None
    }
}

fn g2_bytes(p: &G2Affine) -> Vec<u8> {
    if p.is_zero() {
        return vec![0u8; 128];
    }
    let mut out = fq_to_be(&p.x.c1);
    out.extend(fq_to_be(&p.x.c0));
    out.extend(fq_to_be(&p.y.c1));
    out.extend(fq_to_be(&p.y.c0));
    out
}

impl SyscallBackend for HostBackend {
    fn group_op_reply(
        &self,
        op: mosaic::syscall::AltBn128Op,
        endianness: mosaic::syscall::InputEndianness,
        input: &[u8],
    ) -> Result<Vec<u8>, OnChainError> {
        self.alt_bn128_group_op(op, endianness, input)
    }
    fn compression_reply(&self, op: mosaic::syscall::AltBn128Compress, input: &[u8]) -> Result<Vec<u8>, OnChainError> {
        self.alt_bn128_compression(op, input)
    }
    fn poseidon_reply(
        &self,
        params: mosaic::syscall::PoseidonParameters,
        endianness: mosaic::syscall::InputEndianness,
        inputs: &[&[u8]],
    ) -> Result<[u8; 32], OnChainError> {
        self.poseidon(params, endianness, inputs)
    }
    fn sha256_reply(&self, inputs: &[&[u8]]) -> Result<[u8; 32], OnChainError> {
        self.sha256(inputs)
    }
    fn keccak256_reply(&self, inputs: &[&[u8]]) -> Result<[u8; 32], OnChainError> {
        self.keccak256(inputs)
    }
    fn alt_bn128_group_op(
        &self,
        op: AltBn128Op,
        _endianness: InputEndianness,
        input: &[u8],
    ) -> Result<Vec<u8>, OnChainError> {
        match op {
            AltBn128Op::G1Add => {
                if input.len() != 128 {
                    return Err(OnChainError::AltBn128SyscallFailed);
                }
                let p = g1_from(&input[0..64]).ok_or(OnChainError::AltBn128SyscallFailed)?;
                let q = g1_from(&input[64..128]).ok_or(OnChainError::AltBn128SyscallFailed)?;
                Ok(g1_bytes(&(p + q).into_affine()))
            }
            AltBn128Op::G1Mul => {
                if input.len() != 96 {
                    return Err(OnChainError::AltBn128SyscallFailed);
                }
                let p = g1_from(&input[0..64]).ok_or(OnChainError::AltBn128SyscallFailed)?;
                let s = ark_bn254::Fr::from_be_bytes_mod_order(&input[64..96]);
                Ok(g1_bytes(&(p * s).into_affine()))
            }
            AltBn128Op::Pairing => {
                if input.len() % 192 != 0 {
                    return Err(OnChainError::AltBn128SyscallFailed);
                }
                let mut g1s = Vec::new();
                let mut g2s = Vec::new();
                for chunk in input.chunks(192) {
                    g1s.push(g1_from(&chunk[0..64]).ok_or(OnChainError::AltBn128SyscallFailed)?);
                    g2s.push(g2_from(&chunk[64..192]).ok_or(OnChainError::AltBn128SyscallFailed)?);
                }
                let r = Bn254::multi_pairing(g1s, g2s);
                let mut out = vec![0u8; 32];
                if r.is_zero() {
                    out[31] = 1;
                }
                Ok(out)
            }
        }
    }

    fn alt_bn128_compression(&self, op: AltBn128Compress, input: &[u8]) -> Result<Vec<u8>, OnChainError> {
        let fail = OnChainError::AltBn128CompressionSyscallFailed;
        match op {
            AltBn128Compress::G1Compress => {
                if input.len() != 64 {
                    return Err(fail);
                }
                if input.iter().all(|x| *x == 0) {
                    return Ok(vec![0u8; 32]);
                }
                let p = g1_from(input).ok_or(fail)?;
                let mut out = Vec::new();
                p.serialize_compressed(&mut out).map_err(|_| fail)?;
                out.reverse();
                Ok(out)
            }
            AltBn128Compress::G1Decompress => {
                if input.len() != 32 {
                    return Err(fail);
                }
                if input.iter().all(|x| *x == 0) {
                    return Ok(vec![0u8; 64]);
                }
                let mut le = input.to_vec();
                le.reverse();
                let p = G1Affine::deserialize_compressed(&le[..]).map_err(|_| fail)?;
                Ok(g1_bytes(&p))
            }
            AltBn128Compress::G2Compress => {
                if input.len() != 128 {
                    return Err(fail);
                }
                if input.iter().all(|x| *x == 0) {
                    return Ok(vec![0u8; 64]);
                }
                let p = g2_from(input).ok_or(fail)?;
                let mut out = Vec::new();
                p.serialize_compressed(&mut out).map_err(|_| fail)?;
                out.reverse();
                Ok(out)
            }
            AltBn128Compress::G2Decompress => {
                if input.len() != 64 {
                    return Err(fail);
                }
                if input.iter().all(|x| *x == 0) {
                    return Ok(vec![0u8; 128]);
                }
                let mut le = input.to_vec();
                le.reverse();
                let p = G2Affine::deserialize_compressed(&le[..]).map_err(|_| fail)?;
                Ok(g2_bytes(&p))
            }
        }
    }

    fn poseidon(
        &self,
        _params: PoseidonParameters,
        _endianness: InputEndianness,
        _inputs: &[&[u8]],
    ) -> Result<[u8; 32], OnChainError> {
        Err(OnChainError::PoseidonSyscallFailed)
    }

    fn sha256(&self, _inputs: &[&[u8]]) -> Result<[u8; 32], OnChainError> {
        Err(OnChainError::Sha256SyscallFailed)
    }

    fn keccak256(&self, inputs: &[&[u8]]) -> Result<[u8; 32], OnChainError> {
        Ok(keccak(inputs))
    }
}

fn keccak(inputs: &[&[u8]]) -> [u8; 32] {
    let mut h = Keccak::v256();
    for i in inputs {
        h.update(i);
    }
    let mut out = [0u8; 32];
    h.finalize(&mut out);
    out
}

fn proof_bytes(n_advice: u32, n_lookups: u32, n_quotient: u32, n_evals: u32) -> Vec<u8> {
    proof_bytes_with_arity(n_advice, n_lookups, n_quotient, n_evals, 1)
}

fn proof_bytes_with_arity(n_advice: u32, n_lookups: u32, n_quotient: u32, n_evals: u32, lookup_arity: u32) -> Vec<u8> {
    let total = FIXED_HEADER_LEN
        + (n_advice as usize) * G1_LEN
        + (n_lookups as usize) * G1_LEN
        + G1_LEN
        + (n_quotient as usize) * G1_LEN
        + (n_evals as usize) * FR_LEN
        + 2 * G1_LEN;
    let mut buf = vec![0xAA; total];
    buf[0..4].copy_from_slice(&n_advice.to_le_bytes());
    buf[4..8].copy_from_slice(&n_lookups.to_le_bytes());
    buf[8..12].copy_from_slice(&n_quotient.to_le_bytes());
    buf[12..16].copy_from_slice(&n_evals.to_le_bytes());
    buf[16..20].copy_from_slice(&lookup_arity.to_le_bytes());
    buf
}

#[test]
fn proof_parses_typical_shape() {
    let buf = proof_bytes(5, 1, 3, 15);
    let p = Halo2KzgProof::from_bytes(&buf).unwrap();
    assert_eq!(p.n_advice, 5);
    assert_eq!(p.n_lookups, 1);
    assert_eq!(p.n_quotient, 3);
    assert_eq!(p.n_evals, 15);
    assert_eq!(p.advice_iter().len(), 5);
    assert_eq!(p.quotient_iter().len(), 3);
    assert_eq!(p.evaluations_iter().len(), 15);
}

#[test]
fn proof_parses_minimal_shape() {
    let buf = proof_bytes(0, 0, 0, 0);
    let p = Halo2KzgProof::from_bytes(&buf).unwrap();
    assert_eq!(p.n_advice, 0);
    assert_eq!(p.advice_iter().len(), 0);
}

#[test]
fn proof_rejects_advice_over_max() {
    let buf = proof_bytes(MAX_ADVICE_COLUMNS + 1, 1, 1, 1);
    assert!(matches!(Halo2KzgProof::from_bytes(&buf), Err(OnChainError::ProofLengthMismatch)));
}

#[test]
fn proof_rejects_evals_over_max() {
    let buf = proof_bytes(1, 1, 1, MAX_EVALUATIONS + 1);
    assert!(matches!(Halo2KzgProof::from_bytes(&buf), Err(OnChainError::ProofLengthMismatch)));
}

#[test]
fn vk_roundtrip_no_commits() {
    let vk = Halo2KzgVerifyingKey {
        k: 10,
        n_instances: 1,
        n_advice: 5,
        n_fixed: 0,
        x2_g2: [0xCD; G2_LEN],
        omega_fr: [0u8; FR_LEN],
        fixed_commits: vec![],
        permutation_commits: vec![],
    };
    let bytes = vk.to_bytes();
    let decoded = Halo2KzgVerifyingKey::from_bytes(&bytes).unwrap();
    assert_eq!(vk, decoded);
}

#[test]
fn vk_rejects_n_fixed_inconsistent_with_commits_len() {
    let vk = Halo2KzgVerifyingKey {
        k: 10,
        n_instances: 1,
        n_advice: 5,
        n_fixed: 2,
        x2_g2: [0xCD; G2_LEN],
        omega_fr: [0u8; FR_LEN],
        fixed_commits: vec![],
        permutation_commits: vec![],
    };
    let bytes = vk.to_bytes();
    let r = Halo2KzgVerifyingKey::from_bytes(&bytes);
    assert!(matches!(r, Err(OnChainError::VerifyingKeyLengthMismatch)), "n_fixed=2 with empty commits must reject; got {r:?}");
}

#[test]
fn vk_rejects_non_multiple_g1_payload_lengths() {
    let payload_start = 16 + G2_LEN + FR_LEN + 8;
    let bad_fixed_len: u32 = 65;
    let mut buf = vec![0u8; payload_start + bad_fixed_len as usize];
    buf[0..4].copy_from_slice(&10u32.to_le_bytes());
    buf[4..8].copy_from_slice(&1u32.to_le_bytes());
    buf[8..12].copy_from_slice(&5u32.to_le_bytes());
    buf[12..16].copy_from_slice(&0u32.to_le_bytes());
    let after_omega = 16 + G2_LEN + FR_LEN;
    buf[after_omega..after_omega + 4].copy_from_slice(&bad_fixed_len.to_le_bytes());
    buf[after_omega + 4..after_omega + 8].copy_from_slice(&0u32.to_le_bytes());
    let r = Halo2KzgVerifyingKey::from_bytes(&buf);
    assert!(matches!(r, Err(OnChainError::VerifyingKeyLengthMismatch)), "fixed_len=65 (non-multiple of G1_LEN) must reject; got {r:?}");
}

#[test]
fn vk_roundtrip_with_commits() {
    let vk = Halo2KzgVerifyingKey {
        k: 10,
        n_instances: 1,
        n_advice: 5,
        n_fixed: 2,
        x2_g2: [0xCD; G2_LEN],
        omega_fr: [0u8; FR_LEN],
        fixed_commits: vec![0x11; 2 * G1_LEN],
        permutation_commits: vec![0x22; 5 * G1_LEN],
    };
    let bytes = vk.to_bytes();
    let decoded = Halo2KzgVerifyingKey::from_bytes(&bytes).unwrap();
    assert_eq!(vk, decoded);
    assert_eq!(decoded.fixed_commits.len(), 2 * G1_LEN);
    assert_eq!(decoded.permutation_commits.len(), 5 * G1_LEN);
}

fn realistic_vk() -> Halo2KzgVerifyingKey {
    let g1_gen = g1_generator_bytes();
    let g2_gen = g2_generator_bytes();
    let mut fixed_commits = Vec::with_capacity(2 * G1_LEN);
    fixed_commits.extend_from_slice(&g1_gen);
    fixed_commits.extend_from_slice(&g1_gen);
    let mut permutation_commits = Vec::with_capacity(5 * G1_LEN);
    for _ in 0..5 {
        permutation_commits.extend_from_slice(&g1_gen);
    }
    Halo2KzgVerifyingKey {
        k: 10,
        n_instances: 1,
        n_advice: 5,
        n_fixed: 2,
        x2_g2: g2_gen,
        omega_fr: [0u8; FR_LEN],
        fixed_commits,
        permutation_commits,
    }
}

#[test]
fn vk_compressed_round_trip_with_real_generators() {
    let backend = HostBackend::new();
    let vk = realistic_vk();
    let compressed = vk.to_compressed_bytes(&backend).expect("compress should succeed for on-curve generators");
    let decoded = Halo2KzgVerifyingKey::from_compressed_bytes(&backend, &compressed).expect("decompress should succeed for compressed buffer");
    assert_eq!(vk, decoded, "compressed round-trip must yield the input VK byte-for-byte");
}

#[test]
fn vk_compressed_form_is_smaller_than_uncompressed() {
    let backend = HostBackend::new();
    let vk = realistic_vk();
    let uncompressed = vk.to_bytes();
    let compressed = vk.to_compressed_bytes(&backend).expect("compress");
    let saved = uncompressed.len() - compressed.len();
    let expected_saved = 7 * 32 + 64;
    assert_eq!(saved, expected_saved, "compressed VK must save exactly {expected_saved} bytes (7·32 G1 + 64 G2); got {saved}");
    assert!(
        compressed.len() * 100 / uncompressed.len() <= 60,
        "compressed VK must be ≤ 60% of uncompressed size; got compressed={} uncompressed={}",
        compressed.len(),
        uncompressed.len()
    );
}

#[test]
fn vk_compressed_zero_only_short_circuits_to_zero_uncompressed() {
    let backend = HostBackend::new();
    let vk = Halo2KzgVerifyingKey {
        k: 10,
        n_instances: 1,
        n_advice: 5,
        n_fixed: 2,
        x2_g2: [0u8; G2_LEN],
        omega_fr: [0u8; FR_LEN],
        fixed_commits: vec![0u8; 2 * G1_LEN],
        permutation_commits: vec![0u8; 5 * G1_LEN],
    };
    let compressed = vk.to_compressed_bytes(&backend).unwrap();
    let decoded = Halo2KzgVerifyingKey::from_compressed_bytes(&backend, &compressed).unwrap();
    assert_eq!(vk, decoded);
}

#[test]
fn vk_compressed_rejects_short_buffer() {
    let backend = HostBackend::new();
    let too_short = vec![0u8; Halo2KzgVerifyingKey::COMPRESSED_FIXED_LEN - 1];
    let r = Halo2KzgVerifyingKey::from_compressed_bytes(&backend, &too_short);
    assert!(matches!(r, Err(OnChainError::VerifyingKeyLengthMismatch)));
}

#[test]
fn vk_compressed_rejects_n_fixed_inconsistent_with_payload() {
    let backend = HostBackend::new();
    let vk = realistic_vk();
    let mut bad = vk.to_compressed_bytes(&backend).unwrap();
    bad[12..16].copy_from_slice(&3u32.to_le_bytes());
    let r = Halo2KzgVerifyingKey::from_compressed_bytes(&backend, &bad);
    assert!(matches!(r, Err(OnChainError::VerifyingKeyLengthMismatch)), "n_fixed=3 with arity-2 payload must reject; got {r:?}");
}

fn realistic_canonical_proof() -> Vec<u8> {
    let g1_gen = g1_generator_bytes();
    let n_advice: u32 = 5;
    let n_lookups: u32 = 0;
    let n_quotient: u32 = 3;
    let n_evals: u32 = 19;
    let arity: u32 = 1;
    let total = FIXED_HEADER_LEN
        + (n_advice as usize) * G1_LEN
        + (n_lookups as usize) * G1_LEN
        + G1_LEN
        + (n_quotient as usize) * G1_LEN
        + (n_evals as usize) * FR_LEN
        + 2 * G1_LEN;
    let mut buf = vec![0u8; total];
    buf[0..4].copy_from_slice(&n_advice.to_le_bytes());
    buf[4..8].copy_from_slice(&n_lookups.to_le_bytes());
    buf[8..12].copy_from_slice(&n_quotient.to_le_bytes());
    buf[12..16].copy_from_slice(&n_evals.to_le_bytes());
    buf[16..20].copy_from_slice(&arity.to_le_bytes());
    let mut o = FIXED_HEADER_LEN;
    for _ in 0..n_advice {
        buf[o..o + G1_LEN].copy_from_slice(&g1_gen);
        o += G1_LEN;
    }
    buf[o..o + G1_LEN].copy_from_slice(&g1_gen);
    o += G1_LEN;
    for _ in 0..n_quotient {
        buf[o..o + G1_LEN].copy_from_slice(&g1_gen);
        o += G1_LEN;
    }
    o += (n_evals as usize) * FR_LEN;
    buf[o..o + G1_LEN].copy_from_slice(&g1_gen);
    o += G1_LEN;
    buf[o..o + G1_LEN].copy_from_slice(&g1_gen);
    buf
}

#[test]
fn proof_compressed_round_trip_with_real_generators() {
    let backend = HostBackend::new();
    let canonical = realistic_canonical_proof();
    let compressed = Halo2KzgProof::compress_from_canonical_bytes(&backend, &canonical).expect("compress proof");
    let decoded = Halo2KzgProof::decompress_to_canonical_bytes(&backend, &compressed).expect("decompress proof");
    assert_eq!(decoded, canonical, "compressed proof round-trip must yield the input canonical bytes");
}

#[test]
fn proof_compressed_form_is_smaller_than_uncompressed() {
    let backend = HostBackend::new();
    let canonical = realistic_canonical_proof();
    let compressed = Halo2KzgProof::compress_from_canonical_bytes(&backend, &canonical).expect("compress");
    let expected_saving = 11 * 32;
    let actual_saving = canonical.len() - compressed.len();
    assert_eq!(actual_saving, expected_saving, "compressed proof must save exactly {expected_saving} B; got {actual_saving}");
}

#[test]
fn proof_compressed_zero_only_round_trips() {
    let backend = HostBackend::new();
    let canonical = {
        let n_advice: u32 = 5;
        let n_lookups: u32 = 0;
        let n_quotient: u32 = 3;
        let n_evals: u32 = 19;
        let arity: u32 = 1;
        let total = FIXED_HEADER_LEN
            + (n_advice as usize) * G1_LEN
            + (n_lookups as usize) * G1_LEN
            + G1_LEN
            + (n_quotient as usize) * G1_LEN
            + (n_evals as usize) * FR_LEN
            + 2 * G1_LEN;
        let mut buf = vec![0u8; total];
        buf[0..4].copy_from_slice(&n_advice.to_le_bytes());
        buf[4..8].copy_from_slice(&n_lookups.to_le_bytes());
        buf[8..12].copy_from_slice(&n_quotient.to_le_bytes());
        buf[12..16].copy_from_slice(&n_evals.to_le_bytes());
        buf[16..20].copy_from_slice(&arity.to_le_bytes());
        buf
    };
    let compressed = Halo2KzgProof::compress_from_canonical_bytes(&backend, &canonical).unwrap();
    let decoded = Halo2KzgProof::decompress_to_canonical_bytes(&backend, &compressed).unwrap();
    assert_eq!(decoded, canonical);
}

#[test]
fn proof_compressed_rejects_short_buffer() {
    let backend = HostBackend::new();
    let too_short = vec![0u8; 115];
    let r = Halo2KzgProof::decompress_to_canonical_bytes(&backend, &too_short);
    assert!(matches!(r, Err(OnChainError::ProofLengthMismatch)));
}

#[test]
fn proof_compressed_rejects_wrong_total_length() {
    let backend = HostBackend::new();
    let canonical = realistic_canonical_proof();
    let mut compressed = Halo2KzgProof::compress_from_canonical_bytes(&backend, &canonical).unwrap();
    compressed.push(0xFF);
    let r = Halo2KzgProof::decompress_to_canonical_bytes(&backend, &compressed);
    assert!(matches!(r, Err(OnChainError::ProofLengthMismatch)), "trailing-garbage compressed proof must reject; got {r:?}");
}

#[test]
fn proof_decompressed_parses_as_canonical_via_from_bytes() {
    let backend = HostBackend::new();
    let canonical = realistic_canonical_proof();
    let compressed = Halo2KzgProof::compress_from_canonical_bytes(&backend, &canonical).unwrap();
    let decoded = Halo2KzgProof::decompress_to_canonical_bytes(&backend, &compressed).unwrap();
    let parsed = Halo2KzgProof::from_bytes(&decoded).expect("from_bytes parse");
    assert_eq!(parsed.n_advice, 5);
    assert_eq!(parsed.n_lookups, 0);
    assert_eq!(parsed.n_quotient, 3);
    assert_eq!(parsed.n_evals, 19);
    assert_eq!(parsed.lookup_arity, 1);
    assert_eq!(parsed.advice_commits.len(), 5 * 64);
    assert_eq!(parsed.permutation_z.len(), 64);
    assert_eq!(parsed.quotient_chunks.len(), 3 * 64);
    assert_eq!(parsed.w_xi.len(), 64);
    assert_eq!(parsed.w_xiw.len(), 64);
}

#[test]
fn vk_rejects_short_buffer() {
    let short = vec![0u8; Halo2KzgVerifyingKey::FIXED_LEN - 1];
    assert!(matches!(Halo2KzgVerifyingKey::from_bytes(&short), Err(OnChainError::VerifyingKeyLengthMismatch)));
}

#[test]
fn vk_rejects_mismatched_tail_length() {
    let vk = Halo2KzgVerifyingKey {
        k: 10,
        n_instances: 1,
        n_advice: 5,
        n_fixed: 2,
        x2_g2: [0; G2_LEN],
        omega_fr: [0u8; FR_LEN],
        fixed_commits: vec![0x11; G1_LEN],
        permutation_commits: vec![],
    };
    let mut bytes = vk.to_bytes();
    bytes.push(0xFF);
    assert!(matches!(Halo2KzgVerifyingKey::from_bytes(&bytes), Err(OnChainError::VerifyingKeyLengthMismatch)));
}

#[test]
fn proof_decompress_zero_points_copies_header_and_evaluation() {
    let backend = HostBackend::new();
    let mut compressed: Vec<u8> = Vec::new();
    for v in [0u32, 0, 0, 1, 0] {
        compressed.extend_from_slice(&v.to_le_bytes());
    }
    compressed.extend_from_slice(&[0u8; 32]);
    let mut eval = [0u8; 32];
    eval[31] = 7;
    compressed.extend_from_slice(&eval);
    compressed.extend_from_slice(&[0u8; 64]);
    assert_eq!(compressed.len(), 148);
    let out = Halo2KzgProof::decompress_to_canonical_bytes(&backend, &compressed).unwrap();
    let mut expected: Vec<u8> = compressed[0..20].to_vec();
    expected.extend_from_slice(&[0u8; 64]);
    expected.extend_from_slice(&eval);
    expected.extend_from_slice(&[0u8; 128]);
    assert_eq!(out.len(), 244);
    assert_eq!(out, expected);
    assert_eq!(&out[16..20], &[0u8, 0, 0, 0]);
    assert_eq!(out[115], 7);
}
