#![allow(dead_code, unused_imports)]
use ark_ff::{BigInteger, Field, PrimeField, Zero};
use mosaic::curve::{g1_generator_bytes, g2_generator_bytes};
use mosaic::error::OnChainError;
use mosaic::plonk::canonical::{PlonkProof, PlonkVerifyingKey, PROOF_LEN, VK_HEADER_LEN};

const G1_LEN: usize = 64;
const G2_LEN: usize = 128;
const FR_LEN: usize = 32;

use ark_bn254::{Bn254, Fq, Fq2, G1Affine, G2Affine};
use ark_ec::{pairing::Pairing, AffineRepr, CurveGroup};
use ark_serialize::{CanonicalDeserialize, CanonicalSerialize};
use tiny_keccak::{Hasher, Keccak};
use mosaic::syscall::{AltBn128Compress, AltBn128Op, InputEndianness, PoseidonParameters, SyscallBackend};

/// Host-side implementation of the backend over arkworks and tiny-keccak.
struct HostBackend;

impl HostBackend {
    fn new() -> Self {
        HostBackend
    }
}

fn fq_be(b: &[u8]) -> Option<Fq> {
    let mut le = b.to_vec();
    le.reverse();
    Fq::deserialize_uncompressed(&le[..]).ok()
}

fn fq_to_be(x: &Fq) -> Vec<u8> {
    x.into_bigint().to_bytes_be()
}

fn g1_from(b: &[u8]) -> Option<G1Affine> {
    if b.len() != 64 {
        return None;
    }
    if b.iter().all(|x| *x == 0) {
        return Some(G1Affine::zero());
    }
    let p = G1Affine::new_unchecked(fq_be(&b[0..32])?, fq_be(&b[32..64])?);
    if p.is_on_curve() {
        Some(p)
    } else {
        None
    }
}

fn g1_bytes(p: &G1Affine) -> Vec<u8> {
    if p.is_zero() {
        return vec![0u8; 64];
    }
    let mut out = fq_to_be(&p.x);
    out.extend(fq_to_be(&p.y));
    out
}

fn g2_from(b: &[u8]) -> Option<G2Affine> {
    if b.len() != 128 {
        return None;
    }
    if b.iter().all(|x| *x == 0) {
        return Some(G2Affine::zero());
    }
    let x = Fq2::new(fq_be(&b[32..64])?, fq_be(&b[0..32])?);
    let y = Fq2::new(fq_be(&b[96..128])?, fq_be(&b[64..96])?);
    let p = G2Affine::new_unchecked(x, y);
    if p.is_on_curve() && p.is_in_correct_subgroup_assuming_on_curve() {
        Some(p)
    } else {
        None
    }
}

fn g2_bytes(p: &G2Affine) -> Vec<u8> {
    if p.is_zero() {
        return vec![0u8; 128];
    }
    let mut out = fq_to_be(&p.x.c1);
    out.extend(fq_to_be(&p.x.c0));
    out.extend(fq_to_be(&p.y.c1));
    out.extend(fq_to_be(&p.y.c0));
    out
}

impl SyscallBackend for HostBackend {
    fn group_op_reply(
        &self,
        op: mosaic::syscall::AltBn128Op,
        endianness: mosaic::syscall::InputEndianness,
        input: &[u8],
    ) -> Result<Vec<u8>, OnChainError> {
        self.alt_bn128_group_op(op, endianness, input)
    }
    fn compression_reply(&self, op: mosaic::syscall::AltBn128Compress, input: &[u8]) -> Result<Vec<u8>, OnChainError> {
        self.alt_bn128_compression(op, input)
    }
    fn poseidon_reply(
        &self,
        params: mosaic::syscall::PoseidonParameters,
        endianness: mosaic::syscall::InputEndianness,
        inputs: &[&[u8]],
    ) -> Result<[u8; 32], OnChainError> {
        self.poseidon(params, endianness, inputs)
    }
    fn sha256_reply(&self, inputs: &[&[u8]]) -> Result<[u8; 32], OnChainError> {
        self.sha256(inputs)
    }
    fn keccak256_reply(&self, inputs: &[&[u8]]) -> Result<[u8; 32], OnChainError> {
        self.keccak256(inputs)
    }
    fn alt_bn128_group_op(
        &self,
        op: AltBn128Op,
        _endianness: InputEndianness,
        input: &[u8],
    ) -> Result<Vec<u8>, OnChainError> {
        match op {
            AltBn128Op::G1Add => {
                if input.len() != 128 {
                    return Err(OnChainError::AltBn128SyscallFailed);
                }
                let p = g1_from(&input[0..64]).ok_or(OnChainError::AltBn128SyscallFailed)?;
                let q = g1_from(&input[64..128]).ok_or(OnChainError::AltBn128SyscallFailed)?;
                Ok(g1_bytes(&(p + q).into_affine()))
            }
            AltBn128Op::G1Mul => {
                if input.len() != 96 {
                    return Err(OnChainError::AltBn128SyscallFailed);
                }
                let p = g1_from(&input[0..64]).ok_or(OnChainError::AltBn128SyscallFailed)?;
                let s = ark_bn254::Fr::from_be_bytes_mod_order(&input[64..96]);
                Ok(g1_bytes(&(p * s).into_affine()))
            }
            AltBn128Op::Pairing => {
                if input.len() % 192 != 0 {
                    return Err(OnChainError::AltBn128SyscallFailed);
                }
                let mut g1s = Vec::new();
                let mut g2s = Vec::new();
                for chunk in input.chunks(192) {
                    g1s.push(g1_from(&chunk[0..64]).ok_or(OnChainError::AltBn128SyscallFailed)?);
                    g2s.push(g2_from(&chunk[64..192]).ok_or(OnChainError::AltBn128SyscallFailed)?);
                }
                let r = Bn254::multi_pairing(g1s, g2s);
                let mut out = vec![0u8; 32];
                if r.is_zero() {
                    out[31] = 1;
                }
                Ok(out)
            }
        }
    }

    fn alt_bn128_compression(&self, op: AltBn128Compress, input: &[u8]) -> Result<Vec<u8>, OnChainError> {
        let fail = OnChainError::AltBn128CompressionSyscallFailed;
        match op {
            AltBn128Compress::G1Compress => {
                if input.len() != 64 {
                    return Err(fail);
                }
                if input.iter().all(|x| *x == 0) {
                    return Ok(vec![0u8; 32]);
                }
                let p = g1_from(input).ok_or(fail)?;
                let mut out = Vec::new();
                p.serialize_compressed(&mut out).map_err(|_| fail)?;
                out.reverse();
                Ok(out)
            }
            AltBn128Compress::G1Decompress => {
                if input.len() != 32 {
                    return Err(fail);
                }
                if input.iter().all(|x| *x == 0) {
                    return Ok(vec![0u8; 64]);
                }
                let mut le = input.to_vec();
                le.reverse();
                let p = G1Affine::deserialize_compressed(&le[..]).map_err(|_| fail)?;
                Ok(g1_bytes(&p))
            }
            AltBn128Compress::G2Compress => {
                if input.len() != 128 {
                    return Err(fail);
                }
                if input.iter().all(|x| *x == 0) {
                    return Ok(vec![0u8; 64]);
                }
                let p = g2_from(input).ok_or(fail)?;
                let mut out = Vec::new();
                p.serialize_compressed(&mut out).map_err(|_| fail)?;
                out.reverse();
                Ok(out)
            }
            AltBn128Compress::G2Decompress => {
                if input.len() != 64 {
                    return Err(fail);
                }
                if input.iter().all(|x| *x == 0) {
                    return Ok(vec![0u8; 128]);
                }
                let mut le = input.to_vec();
                le.reverse();
                let p = G2Affine::deserialize_compressed(&le[..]).map_err(|_| fail)?;
                Ok(g2_bytes(&p))
            }
        }
    }

    fn poseidon(
        &self,
        _params: PoseidonParameters,
        _endianness: InputEndianness,
        _inputs: &[&[u8]],
    ) -> Result<[u8; 32], OnChainError> {
        Err(OnChainError::PoseidonSyscallFailed)
    }

    fn sha256(&self, _inputs: &[&[u8]]) -> Result<[u8; 32], OnChainError> {
        Err(OnChainError::Sha256SyscallFailed)
    }

    fn keccak256(&self, inputs: &[&[u8]]) -> Result<[u8; 32], OnChainError> {
        Ok(keccak(inputs))
    }
}

fn keccak(inputs: &[&[u8]]) -> [u8; 32] {
    let mut h = Keccak::v256();
    for i in inputs {
        h.update(i);
    }
    let mut out = [0u8; 32];
    h.finalize(&mut out);
    out
}

#[test]
fn proof_layout_constants_are_consistent() {
    assert_eq!(PROOF_LEN, 9 * G1_LEN + 6 * FR_LEN);
    assert_eq!(PROOF_LEN, 768);
}

#[test]
fn vk_header_layout_constants_are_consistent() {
    assert_eq!(VK_HEADER_LEN, 8 * G1_LEN + G2_LEN + 4 + 3 * FR_LEN + 4);
    assert_eq!(VK_HEADER_LEN, 744);
}

#[test]
fn proof_view_parses_correct_slices() {
    let buf = vec![0xAB; PROOF_LEN];
    let p = PlonkProof::from_bytes(&buf).unwrap();
    assert_eq!(p.a.len(), G1_LEN);
    assert_eq!(p.b.len(), G1_LEN);
    assert_eq!(p.c.len(), G1_LEN);
    assert_eq!(p.z.len(), G1_LEN);
    assert_eq!(p.t1.len(), G1_LEN);
    assert_eq!(p.t2.len(), G1_LEN);
    assert_eq!(p.t3.len(), G1_LEN);
    assert_eq!(p.w_xi.len(), G1_LEN);
    assert_eq!(p.w_xiw.len(), G1_LEN);
    for eval in [p.eval_a, p.eval_b, p.eval_c, p.eval_s1, p.eval_s2, p.eval_zw] {
        assert_eq!(eval.len(), FR_LEN);
    }
}

#[test]
fn proof_fields_reassemble_the_buffer() {
    let buf: Vec<u8> = (0..PROOF_LEN).map(|i| (i % 253) as u8).collect();
    let p = PlonkProof::from_bytes(&buf).unwrap();
    let mut re = Vec::new();
    for s in [p.a, p.b, p.c, p.z, p.t1, p.t2, p.t3, p.w_xi, p.w_xiw, p.eval_a, p.eval_b, p.eval_c, p.eval_s1, p.eval_s2, p.eval_zw] {
        re.extend_from_slice(s);
    }
    assert_eq!(re, buf);
}

#[test]
fn proof_length_mismatch_rejected() {
    let short = vec![0u8; PROOF_LEN - 1];
    assert!(matches!(PlonkProof::from_bytes(&short), Err(OnChainError::ProofLengthMismatch)));
}

#[test]
fn vk_length_mismatch_rejected() {
    let short = vec![0u8; VK_HEADER_LEN - 1];
    assert!(matches!(PlonkVerifyingKey::from_bytes(&short), Err(OnChainError::VerifyingKeyLengthMismatch)));
}

fn realistic_proof() -> Vec<u8> {
    let g1_gen = g1_generator_bytes();
    let mut buf = Vec::with_capacity(PROOF_LEN);
    for _ in 0..9 {
        buf.extend_from_slice(&g1_gen);
    }
    buf.extend_from_slice(&[0u8; 6 * FR_LEN]);
    assert_eq!(buf.len(), PROOF_LEN);
    buf
}

fn realistic_vk() -> PlonkVerifyingKey {
    let g1_gen = g1_generator_bytes();
    let g2_gen = g2_generator_bytes();
    PlonkVerifyingKey {
        qm_g1: g1_gen,
        ql_g1: g1_gen,
        qr_g1: g1_gen,
        qo_g1: g1_gen,
        qc_g1: g1_gen,
        s1_g1: g1_gen,
        s2_g1: g1_gen,
        s3_g1: g1_gen,
        x2_g2: g2_gen,
        power: 10,
        k1: [0u8; FR_LEN],
        k2: [0u8; FR_LEN],
        omega: [0u8; FR_LEN],
        n_public: 3,
    }
}

#[test]
fn proof_round_trip_with_real_generators() {
    let backend = HostBackend::new();
    let canonical = realistic_proof();
    let compressed = PlonkProof::compress_from_canonical_bytes(&backend, &canonical).expect("compress");
    assert_eq!(compressed.len(), PlonkProof::COMPRESSED_LEN);
    let decoded = PlonkProof::decompress_to_canonical_bytes(&backend, &compressed).expect("decompress");
    assert_eq!(decoded, canonical);
}

#[test]
fn proof_compressed_size_saves_288_bytes() {
    let backend = HostBackend::new();
    let canonical = realistic_proof();
    let compressed = PlonkProof::compress_from_canonical_bytes(&backend, &canonical).unwrap();
    let saving = canonical.len() - compressed.len();
    assert_eq!(saving, 288, "expected exactly 288 B saving");
    assert_eq!(canonical.len(), 768);
    assert_eq!(compressed.len(), 480);
}

#[test]
fn proof_zero_only_round_trips() {
    let backend = HostBackend::new();
    let canonical = vec![0u8; PROOF_LEN];
    let compressed = PlonkProof::compress_from_canonical_bytes(&backend, &canonical).unwrap();
    let decoded = PlonkProof::decompress_to_canonical_bytes(&backend, &compressed).unwrap();
    assert_eq!(decoded, canonical);
}

#[test]
fn proof_compress_rejects_wrong_canonical_length() {
    let backend = HostBackend::new();
    let too_short = vec![0u8; PROOF_LEN - 1];
    let r = PlonkProof::compress_from_canonical_bytes(&backend, &too_short);
    assert!(matches!(r, Err(OnChainError::ProofLengthMismatch)));
}

#[test]
fn proof_decompress_rejects_wrong_compressed_length() {
    let backend = HostBackend::new();
    let too_short = vec![0u8; PlonkProof::COMPRESSED_LEN - 1];
    let r = PlonkProof::decompress_to_canonical_bytes(&backend, &too_short);
    assert!(matches!(r, Err(OnChainError::ProofLengthMismatch)));
}

#[test]
fn proof_decompressed_parses_via_from_bytes() {
    let backend = HostBackend::new();
    let canonical = realistic_proof();
    let compressed = PlonkProof::compress_from_canonical_bytes(&backend, &canonical).unwrap();
    let decoded = PlonkProof::decompress_to_canonical_bytes(&backend, &compressed).unwrap();
    let proof = PlonkProof::from_bytes(&decoded).expect("from_bytes parse");
    assert_eq!(proof.a.len(), G1_LEN);
    assert_eq!(proof.eval_zw.len(), FR_LEN);
}

#[test]
fn vk_compressed_size_saves_320_bytes() {
    let backend = HostBackend::new();
    let vk = realistic_vk();
    let uncompressed = vk.to_bytes();
    let compressed = vk.to_compressed_bytes(&backend).unwrap();
    let saving = uncompressed.len() - compressed.len();
    assert_eq!(saving, 320, "expected exactly 320 B saving");
    assert_eq!(uncompressed.len(), 744);
    assert_eq!(compressed.len(), 424);
}

#[test]
fn vk_zero_only_round_trips() {
    let backend = HostBackend::new();
    let vk = PlonkVerifyingKey {
        qm_g1: [0u8; G1_LEN],
        ql_g1: [0u8; G1_LEN],
        qr_g1: [0u8; G1_LEN],
        qo_g1: [0u8; G1_LEN],
        qc_g1: [0u8; G1_LEN],
        s1_g1: [0u8; G1_LEN],
        s2_g1: [0u8; G1_LEN],
        s3_g1: [0u8; G1_LEN],
        x2_g2: [0u8; G2_LEN],
        power: 0,
        k1: [0u8; FR_LEN],
        k2: [0u8; FR_LEN],
        omega: [0u8; FR_LEN],
        n_public: 0,
    };
    let compressed = vk.to_compressed_bytes(&backend).unwrap();
    let decoded = PlonkVerifyingKey::from_compressed_bytes(&backend, &compressed).unwrap();
    assert_eq!(vk, decoded);
}

#[test]
fn vk_serialized_len_is_header_len() {
    assert_eq!(realistic_vk().serialized_len(), VK_HEADER_LEN);
}
