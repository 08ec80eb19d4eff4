#![allow(dead_code, unused_imports)]
use ark_ff::{BigInteger, Field, PrimeField, Zero};
use mosaic::curve::g2_generator_bytes;
use mosaic::error::OnChainError;
use mosaic::field::Fr;
use mosaic::hyperplonk::canonical::{final_evals_index as idx, HyperPlonkVerifyingKey, FINAL_EVALS, FIXED_HEADER_LEN, SUMCHECK_POLY_LEN};
use mosaic::hyperplonk::pipeline::HyperPlonkKzgBn254;
use mosaic::proof_system::ProofSystemId;

const G1_LEN: usize = 64;
const FR_LEN: usize = 32;

use ark_bn254::{Bn254, Fq, Fq2, G1Affine, G2Affine};
use ark_ec::{pairing::Pairing, AffineRepr, CurveGroup};
use ark_serialize::{CanonicalDeserialize, CanonicalSerialize};
use tiny_keccak::{Hasher, Keccak};
use mosaic::syscall::{AltBn128Compress, AltBn128Op, InputEndianness, PoseidonParameters, SyscallBackend};

/// Host-side implementation of the backend over arkworks and tiny-keccak.
struct HostBackend;

impl HostBackend {
    fn new() -> Self {
        HostBackend
    }
}

fn fq_be(b: &[u8]) -> Option<Fq> {
    let mut le = b.to_vec();
    le.reverse();
    Fq::deserialize_uncompressed(&le[..]).ok()
}

fn fq_to_be(x: &Fq) -> Vec<u8> {
    x.into_bigint().to_bytes_be()
}

fn g1_from(b: &[u8]) -> Option<G1Affine> {
    if b.len() != 64 {
        return None;
    }
    if b.iter().all(|x| *x == 0) {
        return Some(G1Affine::zero());
    }
    let p = G1Affine::new_unchecked(fq_be(&b[0..32])?, fq_be(&b[32..64])?);
    if p.is_on_curve() {
        Some(p)
    } else {
        None
    }
}

fn g1_bytes(p: &G1Affine) -> Vec<u8> {
    if p.is_zero() {
        return vec![0u8; 64];
    }
    let mut out = fq_to_be(&p.x);
    out.extend(fq_to_be(&p.y));
    out
}

fn g2_from(b: &[u8]) -> Option<G2Affine> {
    if b.len() != 128 {
        return None;
    }
    if b.iter().all(|x| *x == 0) {
        return Some(G2Affine::zero());
    }
    let x = Fq2::new(fq_be(&b[32..64])?, fq_be(&b[0..32])?);
    let y = Fq2::new(fq_be(&b[96..128])?, fq_be(&b[64..96])?);
    let p = G2Affine::new_unchecked(x, y);
    if p.is_on_curve() && p.is_in_correct_subgroup_assuming_on_curve() {
        Some(p)
    } else {
        None
    }
}

fn g2_bytes(p: &G2Affine) -> Vec<u8> {
    if p.is_zero() {
        return vec![0u8; 128];
    }
    let mut out = fq_to_be(&p.x.c1);
    out.extend(fq_to_be(&p.x.c0));
    out.extend(fq_to_be(&p.y.c1));
    out.extend(fq_to_be(&p.y.c0));
    out
}

impl SyscallBackend for HostBackend {
    fn group_op_reply(
        &self,
        op: mosaic::syscall::AltBn128Op,
        endianness: mosaic::syscall::InputEndianness,
        input: &[u8],
    ) -> Result<Vec<u8>, OnChainError> {
        self.alt_bn128_group_op(op, endianness, input)
    }
    fn compression_reply(&self, op: mosaic::syscall::AltBn128Compress, input: &[u8]) -> Result<Vec<u8>, OnChainError> {
        self.alt_bn128_compression(op, input)
    }
    fn poseidon_reply(
        &self,
        params: mosaic::syscall::PoseidonParameters,
        endianness: mosaic::syscall::InputEndianness,
        inputs: &[&[u8]],
    ) -> Result<[u8; 32], OnChainError> {
        self.poseidon(params, endianness, inputs)
    }
    fn sha256_reply(&self, inputs: &[&[u8]]) -> Result<[u8; 32], OnChainError> {
        self.sha256(inputs)
    }
    fn keccak256_reply(&self, inputs: &[&[u8]]) -> Result<[u8; 32], OnChainError> {
        self.keccak256(inputs)
    }
    fn alt_bn128_group_op(
        &self,
        op: AltBn128Op,
        _endianness: InputEndianness,
        input: &[u8],
    ) -> Result<Vec<u8>, OnChainError> {
        match op {
            AltBn128Op::G1Add => {
                if input.len() != 128 {
                    return Err(OnChainError::AltBn128SyscallFailed);
                }
                let p = g1_from(&input[0..64]).ok_or(OnChainError::AltBn128SyscallFailed)?;
                let q = g1_from(&input[64..128]).ok_or(OnChainError::AltBn128SyscallFailed)?;
                Ok(g1_bytes(&(p + q).into_affine()))
            }
            AltBn128Op::G1Mul => {
                if input.len() != 96 {
                    return Err(OnChainError::AltBn128SyscallFailed);
                }
                let p = g1_from(&input[0..64]).ok_or(OnChainError::AltBn128SyscallFailed)?;
                let s = ark_bn254::Fr::from_be_bytes_mod_order(&input[64..96]);
                Ok(g1_bytes(&(p * s).into_affine()))
            }
            AltBn128Op::Pairing => {
                if input.len() % 192 != 0 {
                    return Err(OnChainError::AltBn128SyscallFailed);
                }
                let mut g1s = Vec::new();
                let mut g2s = Vec::new();
                for chunk in input.chunks(192) {
                    g1s.push(g1_from(&chunk[0..64]).ok_or(OnChainError::AltBn128SyscallFailed)?);
                    g2s.push(g2_from(&chunk[64..192]).ok_or(OnChainError::AltBn128SyscallFailed)?);
                }
                let r = Bn254::multi_pairing(g1s, g2s);
                let mut out = vec![0u8; 32];
                if r.is_zero() {
                    out[31] = 1;
                }
                Ok(out)
            }
        }
    }

    fn alt_bn128_compression(&self, op: AltBn128Compress, input: &[u8]) -> Result<Vec<u8>, OnChainError> {
        let fail = OnChainError::AltBn128CompressionSyscallFailed;
        match op {
            AltBn128Compress::G1Compress => {
                if input.len() != 64 {
                    return Err(fail);
                }
                if input.iter().all(|x| *x == 0) {
                    return Ok(vec![0u8; 32]);
                }
                let p = g1_from(input).ok_or(fail)?;
                let mut out = Vec::new();
                p.serialize_compressed(&mut out).map_err(|_| fail)?;
                out.reverse();
                Ok(out)
            }
            AltBn128Compress::G1Decompress => {
                if input.len() != 32 {
                    return Err(fail);
                }
                if input.iter().all(|x| *x == 0) {
                    return Ok(vec![0u8; 64]);
                }
                let mut le = input.to_vec();
                le.reverse();
                let p = G1Affine::deserialize_compressed(&le[..]).map_err(|_| fail)?;
                Ok(g1_bytes(&p))
            }
            AltBn128Compress::G2Compress => {
                if input.len() != 128 {
                    return Err(fail);
                }
                if input.iter().all(|x| *x == 0) {
                    return Ok(vec![0u8; 64]);
                }
                let p = g2_from(input).ok_or(fail)?;
                let mut out = Vec::new();
                p.serialize_compressed(&mut out).map_err(|_| fail)?;
                out.reverse();
                Ok(out)
            }
            AltBn128Compress::G2Decompress => {
                if input.len() != 64 {
                    return Err(fail);
                }
                if input.iter().all(|x| *x == 0) {
                    return Ok(vec![0u8; 128]);
                }
                let mut le = input.to_vec();
                le.reverse();
                let p = G2Affine::deserialize_compressed(&le[..]).map_err(|_| fail)?;
                Ok(g2_bytes(&p))
            }
        }
    }

    fn poseidon(
        &self,
        _params: PoseidonParameters,
        _endianness: InputEndianness,
        _inputs: &[&[u8]],
    ) -> Result<[u8; 32], OnChainError> {
        Err(OnChainError::PoseidonSyscallFailed)
    }

    fn sha256(&self, _inputs: &[&[u8]]) -> Result<[u8; 32], OnChainError> {
        Err(OnChainError::Sha256SyscallFailed)
    }

    fn keccak256(&self, inputs: &[&[u8]]) -> Result<[u8; 32], OnChainError> {
        Ok(keccak(inputs))
    }
}

fn keccak(inputs: &[&[u8]]) -> [u8; 32] {
    let mut h = Keccak::v256();
    for i in inputs {
        h.update(i);
    }
    let mut out = [0u8; 32];
    h.finalize(&mut out);
    out
}
/// Backend whose curve operations are unsupported and whose Keccak is real.
struct MockBackend;

impl SyscallBackend for MockBackend {
    fn group_op_reply(
        &self,
        op: mosaic::syscall::AltBn128Op,
        endianness: mosaic::syscall::InputEndianness,
        input: &[u8],
    ) -> Result<Vec<u8>, OnChainError> {
        self.alt_bn128_group_op(op, endianness, input)
    }
    fn compression_reply(&self, op: mosaic::syscall::AltBn128Compress, input: &[u8]) -> Result<Vec<u8>, OnChainError> {
        self.alt_bn128_compression(op, input)
    }
    fn poseidon_reply(
        &self,
        params: mosaic::syscall::PoseidonParameters,
        endianness: mosaic::syscall::InputEndianness,
        inputs: &[&[u8]],
    ) -> Result<[u8; 32], OnChainError> {
        self.poseidon(params, endianness, inputs)
    }
    fn sha256_reply(&self, inputs: &[&[u8]]) -> Result<[u8; 32], OnChainError> {
        self.sha256(inputs)
    }
    fn keccak256_reply(&self, inputs: &[&[u8]]) -> Result<[u8; 32], OnChainError> {
        self.keccak256(inputs)
    }
    fn alt_bn128_group_op(&self, _op: AltBn128Op, _e: InputEndianness, _input: &[u8]) -> Result<Vec<u8>, OnChainError> {
        Err(OnChainError::UnsupportedOperation)
    }
    fn alt_bn128_compression(&self, _op: AltBn128Compress, _input: &[u8]) -> Result<Vec<u8>, OnChainError> {
        Err(OnChainError::UnsupportedOperation)
    }
    fn poseidon(&self, _p: PoseidonParameters, _e: InputEndianness, _inputs: &[&[u8]]) -> Result<[u8; 32], OnChainError> {
        Err(OnChainError::UnimplementedProofSystem)
    }
    fn sha256(&self, _inputs: &[&[u8]]) -> Result<[u8; 32], OnChainError> {
        Err(OnChainError::Sha256SyscallFailed)
    }
    fn keccak256(&self, inputs: &[&[u8]]) -> Result<[u8; 32], OnChainError> {
        Ok(keccak(inputs))
    }
}

fn dummy_vk_bytes() -> Vec<u8> {
    HyperPlonkVerifyingKey {
        n_public: 1,
        num_variables: 10,
        x2_g2: g2_generator_bytes(),
        q_m_g1: [0; G1_LEN],
        q_l_g1: [0; G1_LEN],
        q_r_g1: [0; G1_LEN],
        q_o_g1: [0; G1_LEN],
        q_c_g1: [0; G1_LEN],
        sigma_1_g1: [0; G1_LEN],
        sigma_2_g1: [0; G1_LEN],
        sigma_3_g1: [0; G1_LEN],
        k_1: HyperPlonkVerifyingKey::fr_be_from_u64(1),
        k_2: HyperPlonkVerifyingKey::fr_be_from_u64(2),
        k_3: HyperPlonkVerifyingKey::fr_be_from_u64(3),
    }
    .to_bytes()
}

fn dummy_proof_bytes_10_rounds() -> Vec<u8> {
    let polys_len = 10 * SUMCHECK_POLY_LEN;
    let total = FIXED_HEADER_LEN + polys_len + FINAL_EVALS * FR_LEN + G1_LEN;
    let mut buf = vec![0u8; total];
    buf[256..260].copy_from_slice(&10u32.to_le_bytes());
    buf
}

#[test]
fn rejects_vk_proof_num_variables_mismatch() {
    let backend = MockBackend;
    let v = HyperPlonkKzgBn254::new(&backend);
    let vk = dummy_vk_bytes();
    let polys_len = 8 * SUMCHECK_POLY_LEN;
    let total = FIXED_HEADER_LEN + polys_len + FINAL_EVALS * FR_LEN + G1_LEN;
    let mut proof = vec![0u8; total];
    proof[256..260].copy_from_slice(&8u32.to_le_bytes());
    let pi = [0u8; FR_LEN];
    let r = v.verify(&vk, &proof, &pi);
    assert!(matches!(r, Err(OnChainError::VerifyingKeyProofMismatch)));
}

#[test]
fn rejects_tampered_sumcheck_round() {
    let backend = HostBackend::new();
    let v = HyperPlonkKzgBn254::new(&backend);
    let vk = dummy_vk_bytes();
    let mut proof = dummy_proof_bytes_10_rounds();
    proof[260 + 31] = 1;
    let pi = [0u8; FR_LEN];
    let r = v.verify(&vk, &proof, &pi);
    assert!(matches!(r, Err(OnChainError::SumcheckFailed)), "expected SumcheckFailed, got {r:?}");
}

#[test]
fn rejects_claim_reduction_mismatch() {
    let backend = HostBackend::new();
    let v = HyperPlonkKzgBn254::new(&backend);
    let vk = dummy_vk_bytes();
    let mut proof = dummy_proof_bytes_10_rounds();
    let q_c_offset = FIXED_HEADER_LEN + 10 * SUMCHECK_POLY_LEN + idx::Q_C * FR_LEN;
    proof[q_c_offset + 31] = 1;
    let pi = [0u8; FR_LEN];
    let r = v.verify(&vk, &proof, &pi);
    assert!(matches!(r, Err(OnChainError::SumcheckFailed)), "expected SumcheckFailed at claim reduction, got {r:?}");
}

#[test]
fn rejects_tampered_sigma_commitment() {
    let backend = HostBackend::new();
    let v = HyperPlonkKzgBn254::new(&backend);
    let vk = dummy_vk_bytes();
    let mut proof = dummy_proof_bytes_10_rounds();
    let z_offset = FIXED_HEADER_LEN + 10 * SUMCHECK_POLY_LEN + idx::Z * FR_LEN;
    proof[z_offset + 31] = 1;
    let sigma_1_offset = FIXED_HEADER_LEN + 10 * SUMCHECK_POLY_LEN + idx::SIGMA_1 * FR_LEN;
    proof[sigma_1_offset + 31] = 7;
    let pi = [0u8; FR_LEN];
    let r = v.verify(&vk, &proof, &pi);
    assert!(matches!(r, Err(OnChainError::SumcheckFailed)), "expected SumcheckFailed at permutation term, got {r:?}");
}

#[test]
fn proof_system_id_is_hyperplonk() {
    let backend = MockBackend;
    let v = HyperPlonkKzgBn254::new(&backend);
    assert_eq!(v.proof_system_id(), ProofSystemId::HyperPlonkKzgBn254);
}
