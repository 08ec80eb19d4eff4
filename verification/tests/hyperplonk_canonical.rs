#![allow(dead_code, unused_imports)]
use ark_ff::{BigInteger, Field, PrimeField, Zero};
use mosaic::curve::{g1_generator_bytes, g2_generator_bytes};
use mosaic::error::OnChainError;
use mosaic::hyperplonk::canonical::{
    final_evals_index, HyperPlonkProof, HyperPlonkVerifyingKey, FINAL_EVALS, FIXED_HEADER_LEN,
    MAX_SUMCHECK_ROUNDS, MIN_PROOF_LEN, SUMCHECK_POLY_LEN,
};

const G1_LEN: usize = 64;
const FR_LEN: usize = 32;

use ark_bn254::{Bn254, Fq, Fq2, G1Affine, G2Affine};
use ark_ec::{pairing::Pairing, AffineRepr, CurveGroup};
use ark_serialize::{CanonicalDeserialize, CanonicalSerialize};
use tiny_keccak::{Hasher, Keccak};
use mosaic::syscall::{AltBn128Compress, AltBn128Op, InputEndianness, PoseidonParameters, SyscallBackend};

/// Host-side implementation of the backend over arkworks and tiny-keccak.
struct HostBackend;

impl HostBackend {
    fn new() -> Self {
        HostBackend
    }
}

fn fq_be(b: &[u8]) -> Option<Fq> {
    let mut le = b.to_vec();
    le.reverse();
    Fq::deserialize_uncompressed(&le[..]).ok()
}

fn fq_to_be(x: &Fq) -> Vec<u8> {
    x.into_bigint().to_bytes_be()
}

fn g1_from(b: &[u8]) -> Option<G1Affine> {
    if b.len() != 64 {
        return None;
    }
    if b.iter().all(|x| *x == 0) {
        return Some(G1Affine::zero());
    }
    let p = G1Affine::new_unchecked(fq_be(&b[0..32])?, fq_be(&b[32..64])?);
    if p.is_on_curve() {
        Some(p)
    } else {
        None
    }
}

fn g1_bytes(p: &G1Affine) -> Vec<u8> {
    if p.is_zero() {
        return vec![0u8; 64];
    }
    let mut out = fq_to_be(&p.x);
    out.extend(fq_to_be(&p.y));
    out
}

fn g2_from(b: &[u8]) -> Option<G2Affine> {
    if b.len() != 128 {
        return None;
    }
    if b.iter().all(|x| *x == 0) {
        return Some(G2Affine::zero());
    }
    let x = Fq2::new(fq_be(&b[32..64])?, fq_be(&b[0..32])?);
    let y = Fq2::new(fq_be(&b[96..128])?, fq_be(&b[64..96])?);
    let p = G2Affine::new_unchecked(x, y);
    if p.is_on_curve() && p.is_in_correct_subgroup_assuming_on_curve() {
        Some(p)
    } else {
        None
    }
}

fn g2_bytes(p: &G2Affine) -> Vec<u8> {
    if p.is_zero() {
        return vec![0u8; 128];
    }
    let mut out = fq_to_be(&p.x.c1);
    out.extend(fq_to_be(&p.x.c0));
    out.extend(fq_to_be(&p.y.c1));
    out.extend(fq_to_be(&p.y.c0));
    out
}

impl SyscallBackend for HostBackend {
    fn group_op_reply(
        &self,
        op: mosaic::syscall::AltBn128Op,
        endianness: mosaic::syscall::InputEndianness,
        input: &[u8],
    ) -> Result<Vec<u8>, OnChainError> {
        self.alt_bn128_group_op(op, endianness, input)
    }
    fn compression_reply(&self, op: mosaic::syscall::AltBn128Compress, input: &[u8]) -> Result<Vec<u8>, OnChainError> {
        self.alt_bn128_compression(op, input)
    }
    fn poseidon_reply(
        &self,
        params: mosaic::syscall::PoseidonParameters,
        endianness: mosaic::syscall::InputEndianness,
        inputs: &[&[u8]],
    ) -> Result<[u8; 32], OnChainError> {
        self.poseidon(params, endianness, inputs)
    }
    fn sha256_reply(&self, inputs: &[&[u8]]) -> Result<[u8; 32], OnChainError> {
        self.sha256(inputs)
    }
    fn keccak256_reply(&self, inputs: &[&[u8]]) -> Result<[u8; 32], OnChainError> {
        self.keccak256(inputs)
    }
    fn alt_bn128_group_op(
        &self,
        op: AltBn128Op,
        _endianness: InputEndianness,
        input: &[u8],
    ) -> Result<Vec<u8>, OnChainError> {
        match op {
            AltBn128Op::G1Add => {
                if input.len() != 128 {
                    return Err(OnChainError::AltBn128SyscallFailed);
                }
                let p = g1_from(&input[0..64]).ok_or(OnChainError::AltBn128SyscallFailed)?;
                let q = g1_from(&input[64..128]).ok_or(OnChainError::AltBn128SyscallFailed)?;
                Ok(g1_bytes(&(p + q).into_affine()))
            }
            AltBn128Op::G1Mul => {
                if input.len() != 96 {
                    return Err(OnChainError::AltBn128SyscallFailed);
                }
                let p = g1_from(&input[0..64]).ok_or(OnChainError::AltBn128SyscallFailed)?;
                let s = ark_bn254::Fr::from_be_bytes_mod_order(&input[64..96]);
                Ok(g1_bytes(&(p * s).into_affine()))
            }
            AltBn128Op::Pairing => {
                if input.len() % 192 != 0 {
                    return Err(OnChainError::AltBn128SyscallFailed);
                }
                let mut g1s = Vec::new();
                let mut g2s = Vec::new();
                for chunk in input.chunks(192) {
                    g1s.push(g1_from(&chunk[0..64]).ok_or(OnChainError::AltBn128SyscallFailed)?);
                    g2s.push(g2_from(&chunk[64..192]).ok_or(OnChainError::AltBn128SyscallFailed)?);
                }
                let r = Bn254::multi_pairing(g1s, g2s);
                let mut out = vec![0u8; 32];
                if r.is_zero() {
                    out[31] = 1;
                }
                Ok(out)
            }
        }
    }

    fn alt_bn128_compression(&self, op: AltBn128Compress, input: &[u8]) -> Result<Vec<u8>, OnChainError> {
        let fail = OnChainError::AltBn128CompressionSyscallFailed;
        match op {
            AltBn128Compress::G1Compress => {
                if input.len() != 64 {
                    return Err(fail);
                }
                if input.iter().all(|x| *x == 0) {
                    return Ok(vec![0u8; 32]);
                }
                let p = g1_from(input).ok_or(fail)?;
                let mut out = Vec::new();
                p.serialize_compressed(&mut out).map_err(|_| fail)?;
                out.reverse();
                Ok(out)
            }
            AltBn128Compress::G1Decompress => {
                if input.len() != 32 {
                    return Err(fail);
                }
                if input.iter().all(|x| *x == 0) {
                    return Ok(vec![0u8; 64]);
                }
                let mut le = input.to_vec();
                le.reverse();
                let p = G1Affine::deserialize_compressed(&le[..]).map_err(|_| fail)?;
                Ok(g1_bytes(&p))
            }
            AltBn128Compress::G2Compress => {
                if input.len() != 128 {
                    return Err(fail);
                }
                if input.iter().all(|x| *x == 0) {
                    return Ok(vec![0u8; 64]);
                }
                let p = g2_from(input).ok_or(fail)?;
                let mut out = Vec::new();
                p.serialize_compressed(&mut out).map_err(|_| fail)?;
                out.reverse();
                Ok(out)
            }
            AltBn128Compress::G2Decompress => {
                if input.len() != 64 {
                    return Err(fail);
                }
                if input.iter().all(|x| *x == 0) {
                    return Ok(vec![0u8; 128]);
                }
                let mut le = input.to_vec();
                le.reverse();
                let p = G2Affine::deserialize_compressed(&le[..]).map_err(|_| fail)?;
                Ok(g2_bytes(&p))
            }
        }
    }

    fn poseidon(
        &self,
        _params: PoseidonParameters,
        _endianness: InputEndianness,
        _inputs: &[&[u8]],
    ) -> Result<[u8; 32], OnChainError> {
        Err(OnChainError::PoseidonSyscallFailed)
    }

    fn sha256(&self, _inputs: &[&[u8]]) -> Result<[u8; 32], OnChainError> {
        Err(OnChainError::Sha256SyscallFailed)
    }

    fn keccak256(&self, inputs: &[&[u8]]) -> Result<[u8; 32], OnChainError> {
        Ok(keccak(inputs))
    }
}

fn keccak(inputs: &[&[u8]]) -> [u8; 32] {
    let mut h = Keccak::v256();
    for i in inputs {
        h.update(i);
    }
    let mut out = [0u8; 32];
    h.finalize(&mut out);
    out
}

fn proof_bytes_for_rounds(rounds: u32) -> Vec<u8> {
    let polys_len = (rounds as usize) * SUMCHECK_POLY_LEN;
    let total = FIXED_HEADER_LEN + polys_len + FINAL_EVALS * FR_LEN + G1_LEN;
    let mut buf = vec![0xAB; total];
    buf[256..260].copy_from_slice(&rounds.to_le_bytes());
    buf
}

#[test]
fn proof_layout_constants_consistent() {
    assert_eq!(MIN_PROOF_LEN, 4 * G1_LEN + 4 + FINAL_EVALS * FR_LEN + G1_LEN);
    assert_eq!(MIN_PROOF_LEN, 708);
}

#[test]
fn proof_parses_zero_rounds_edge_case() {
    let buf = proof_bytes_for_rounds(0);
    let p = HyperPlonkProof::from_bytes(&buf).unwrap();
    assert_eq!(p.sumcheck_rounds, 0);
    assert_eq!(p.sumcheck_polys.len(), 0);
    assert_eq!(p.round_polys().len(), 0);
}

#[test]
fn proof_parses_10_rounds_circuit_size_1024() {
    let buf = proof_bytes_for_rounds(10);
    let p = HyperPlonkProof::from_bytes(&buf).unwrap();
    assert_eq!(p.sumcheck_rounds, 10);
    assert_eq!(p.sumcheck_polys.len(), 10 * SUMCHECK_POLY_LEN);
    assert_eq!(p.round_polys().len(), 10);
    for rp in p.round_polys() {
        assert_eq!(rp.len(), SUMCHECK_POLY_LEN);
    }
}

#[test]
fn proof_rejects_rounds_over_max() {
    let bad_rounds = MAX_SUMCHECK_ROUNDS + 1;
    let polys_len = (bad_rounds as usize) * SUMCHECK_POLY_LEN;
    let total = FIXED_HEADER_LEN + polys_len + FINAL_EVALS * FR_LEN + G1_LEN;
    let mut buf = vec![0xAB; total];
    buf[256..260].copy_from_slice(&bad_rounds.to_le_bytes());
    assert!(matches!(HyperPlonkProof::from_bytes(&buf), Err(OnChainError::ProofLengthMismatch)));
}

#[test]
fn proof_rejects_wrong_length() {
    let buf = vec![0u8; MIN_PROOF_LEN - 1];
    assert!(matches!(HyperPlonkProof::from_bytes(&buf), Err(OnChainError::ProofLengthMismatch)));
}

fn sample_vk() -> HyperPlonkVerifyingKey {
    HyperPlonkVerifyingKey {
        n_public: 3,
        num_variables: 10,
        x2_g2: [0xCD; 128],
        q_m_g1: [0x11; G1_LEN],
        q_l_g1: [0x22; G1_LEN],
        q_r_g1: [0x33; G1_LEN],
        q_o_g1: [0x44; G1_LEN],
        q_c_g1: [0x55; G1_LEN],
        sigma_1_g1: [0x66; G1_LEN],
        sigma_2_g1: [0x77; G1_LEN],
        sigma_3_g1: [0x88; G1_LEN],
        k_1: HyperPlonkVerifyingKey::fr_be_from_u64(1),
        k_2: HyperPlonkVerifyingKey::fr_be_from_u64(2),
        k_3: HyperPlonkVerifyingKey::fr_be_from_u64(3),
    }
}

#[test]
fn vk_commits_iter_yields_all_eight() {
    let vk = sample_vk();
    let commits = vk.commits_iter();
    assert_eq!(commits.len(), HyperPlonkVerifyingKey::NUM_COMMITS);
    assert_eq!(commits[0], &vk.q_m_g1);
    assert_eq!(commits[1], &vk.q_l_g1);
    assert_eq!(commits[2], &vk.q_r_g1);
    assert_eq!(commits[3], &vk.q_o_g1);
    assert_eq!(commits[4], &vk.q_c_g1);
    assert_eq!(commits[5], &vk.sigma_1_g1);
    assert_eq!(commits[6], &vk.sigma_2_g1);
    assert_eq!(commits[7], &vk.sigma_3_g1);
}

#[test]
fn final_evals_indices_distinct_and_complete() {
    use_indices();
}

fn use_indices() {
    let all = [
        final_evals_index::A,
        final_evals_index::B,
        final_evals_index::C,
        final_evals_index::Z,
        final_evals_index::Q_M,
        final_evals_index::Q_L,
        final_evals_index::Q_R,
        final_evals_index::Q_O,
        final_evals_index::Q_C,
        final_evals_index::SIGMA_1,
        final_evals_index::SIGMA_2,
        final_evals_index::SIGMA_3,
    ];
    assert_eq!(all.len(), FINAL_EVALS);
    let mut seen = [false; 12];
    for i in all {
        assert!(i < 12, "index {i} out of range");
        assert!(!seen[i], "duplicate index {i}");
        seen[i] = true;
    }
}

#[test]
fn fr_be_from_u64_is_big_endian() {
    let b = HyperPlonkVerifyingKey::fr_be_from_u64(0x0102);
    assert_eq!(b[30], 0x01);
    assert_eq!(b[31], 0x02);
    assert!(b[..30].iter().all(|x| *x == 0));
}

fn realistic_proof(rounds: u32) -> Vec<u8> {
    let g1_gen = g1_generator_bytes();
    let polys_len = (rounds as usize) * SUMCHECK_POLY_LEN;
    let canonical_len = 4 * G1_LEN + 4 + polys_len + FINAL_EVALS * FR_LEN + G1_LEN;
    let mut buf = Vec::with_capacity(canonical_len);
    for _ in 0..4 {
        buf.extend_from_slice(&g1_gen);
    }
    buf.extend_from_slice(&rounds.to_le_bytes());
    buf.extend(core::iter::repeat(0u8).take(polys_len + FINAL_EVALS * FR_LEN));
    buf.extend_from_slice(&g1_gen);
    assert_eq!(buf.len(), canonical_len);
    buf
}

fn realistic_vk_bytes() -> Vec<u8> {
    let g1_gen = g1_generator_bytes();
    let g2_gen = g2_generator_bytes();
    HyperPlonkVerifyingKey {
        n_public: 3,
        num_variables: 10,
        x2_g2: g2_gen,
        q_m_g1: g1_gen,
        q_l_g1: g1_gen,
        q_r_g1: g1_gen,
        q_o_g1: g1_gen,
        q_c_g1: g1_gen,
        sigma_1_g1: g1_gen,
        sigma_2_g1: g1_gen,
        sigma_3_g1: g1_gen,
        k_1: HyperPlonkVerifyingKey::fr_be_from_u64(1),
        k_2: HyperPlonkVerifyingKey::fr_be_from_u64(2),
        k_3: HyperPlonkVerifyingKey::fr_be_from_u64(3),
    }
    .to_bytes()
}

#[test]
fn proof_round_trip_at_r10() {
    let backend = HostBackend::new();
    let canonical = realistic_proof(10);
    let compressed = HyperPlonkProof::compress_from_canonical_bytes(&backend, &canonical).expect("compress");
    assert_eq!(compressed.len(), HyperPlonkProof::compressed_len_for_rounds(10).unwrap());
    let decoded = HyperPlonkProof::decompress_to_canonical_bytes(&backend, &compressed).expect("decompress");
    assert_eq!(decoded, canonical);
}

#[test]
fn proof_round_trip_at_r0_edge_case() {
    let backend = HostBackend::new();
    let canonical = realistic_proof(0);
    let compressed = HyperPlonkProof::compress_from_canonical_bytes(&backend, &canonical).expect("compress R=0");
    assert_eq!(compressed.len(), HyperPlonkProof::MIN_COMPRESSED_LEN);
    let decoded = HyperPlonkProof::decompress_to_canonical_bytes(&backend, &compressed).unwrap();
    assert_eq!(decoded, canonical);
}

#[test]
fn proof_compressed_saves_160_bytes_per_proof() {
    let backend = HostBackend::new();
    for rounds in [0u32, 1, 10, MAX_SUMCHECK_ROUNDS] {
        let canonical = realistic_proof(rounds);
        let compressed = HyperPlonkProof::compress_from_canonical_bytes(&backend, &canonical).unwrap();
        assert_eq!(canonical.len() - compressed.len(), 5 * (G1_LEN - 32), "expected 5·(G1_LEN - G1_C) = 160 bytes saved at rounds={rounds}");
    }
}

#[test]
fn proof_decompress_rejects_wrong_length() {
    let backend = HostBackend::new();
    let too_short = vec![0u8; HyperPlonkProof::MIN_COMPRESSED_LEN - 1];
    let r = HyperPlonkProof::decompress_to_canonical_bytes(&backend, &too_short);
    assert!(matches!(r, Err(OnChainError::ProofLengthMismatch)));
}

#[test]
fn proof_decompress_rejects_oversized_rounds_counter() {
    let backend = HostBackend::new();
    let mut buf = vec![0u8; HyperPlonkProof::MIN_COMPRESSED_LEN];
    let bad = MAX_SUMCHECK_ROUNDS + 1;
    buf[128..132].copy_from_slice(&bad.to_le_bytes());
    let r = HyperPlonkProof::decompress_to_canonical_bytes(&backend, &buf);
    assert!(matches!(r, Err(OnChainError::ProofLengthMismatch)));
}

#[test]
fn proof_compress_rejects_canonical_with_wrong_length() {
    let backend = HostBackend::new();
    let too_short = vec![0u8; MIN_PROOF_LEN - 1];
    let r = HyperPlonkProof::compress_from_canonical_bytes(&backend, &too_short);
    assert!(matches!(r, Err(OnChainError::ProofLengthMismatch)));
}

#[test]
fn proof_decompress_rejects_off_curve_g1() {
    let backend = HostBackend::new();
    let mut buf = vec![0u8; HyperPlonkProof::MIN_COMPRESSED_LEN];
    buf[0] = 0xAB;
    buf[1] = 0xCD;
    let r = HyperPlonkProof::decompress_to_canonical_bytes(&backend, &buf);
    assert!(r.is_err());
}

#[test]
fn vk_compressed_saves_320_bytes() {
    let backend = HostBackend::new();
    let canonical = realistic_vk_bytes();
    let compressed = HyperPlonkVerifyingKey::to_compressed_bytes(&backend, &canonical).unwrap();
    assert_eq!(canonical.len(), 744);
    assert_eq!(compressed.len(), 424);
    assert_eq!(canonical.len() - compressed.len(), 320);
}

#[test]
fn vk_compress_rejects_wrong_length() {
    let backend = HostBackend::new();
    let too_short = vec![0u8; HyperPlonkVerifyingKey::SERIALIZED_LEN - 1];
    let r = HyperPlonkVerifyingKey::to_compressed_bytes(&backend, &too_short);
    assert!(matches!(r, Err(OnChainError::VerifyingKeyLengthMismatch)));
}

#[test]
fn vk_decompress_rejects_off_curve_g2() {
    let backend = HostBackend::new();
    let mut buf = vec![0u8; HyperPlonkVerifyingKey::COMPRESSED_LEN];
    buf[8] = 0xAB;
    let r = HyperPlonkVerifyingKey::from_compressed_bytes(&backend, &buf);
    assert!(r.is_err());
}
