#![allow(dead_code, unused_imports)]
use ark_ff::{BigInteger, Field, PrimeField, Zero};
use mosaic::curve::{g1_generator_bytes, g2_generator_bytes};
use mosaic::error::OnChainError;
use mosaic::field::Fr;
use mosaic::hyperplonk::canonical::{HyperPlonkProof, HyperPlonkVerifyingKey, FIXED_HEADER_LEN, SUMCHECK_POLY_LEN};
use mosaic::hyperplonk::kzg::verify_batched_opening;
use mosaic::transcript::{Kind, Transcript};

const G1_LEN: usize = 64;
const FR_LEN: usize = 32;

use ark_bn254::{Bn254, Fq, Fq2, G1Affine, G2Affine};
use ark_ec::{pairing::Pairing, AffineRepr, CurveGroup};
use ark_serialize::{CanonicalDeserialize, CanonicalSerialize};
use tiny_keccak::{Hasher, Keccak};
use mosaic::syscall::{AltBn128Compress, AltBn128Op, InputEndianness, PoseidonParameters, SyscallBackend};

/// Host-side implementation of the backend over arkworks and tiny-keccak.
struct HostBackend;

impl HostBackend {
    fn new() -> Self {
        HostBackend
    }
}

fn fq_be(b: &[u8]) -> Option<Fq> {
    let mut le = b.to_vec();
    le.reverse();
    Fq::deserialize_uncompressed(&le[..]).ok()
}

fn fq_to_be(x: &Fq) -> Vec<u8> {
    x.into_bigint().to_bytes_be()
}

fn g1_from(b: &[u8]) -> Option<G1Affine> {
    if b.len() != 64 {
        return None;
    }
    if b.iter().all(|x| *x == 0) {
        return Some(G1Affine::zero());
    }
    let p = G1Affine::new_unchecked(fq_be(&b[0..32])?, fq_be(&b[32..64])?);
    if p.is_on_curve() {
        Some(p)
    } else {
        None
    }
}

fn g1_bytes(p: &G1Affine) -> Vec<u8> {
    if p.is_zero() {
        return vec![0u8; 64];
    }
    let mut out = fq_to_be(&p.x);
    out.extend(fq_to_be(&p.y));
    out
}

fn g2_from(b: &[u8]) -> Option<G2Affine> {
    if b.len() != 128 {
        return None;
    }
    if b.iter().all(|x| *x == 0) {
        return Some(G2Affine::zero());
    }
    let x = Fq2::new(fq_be(&b[32..64])?, fq_be(&b[0..32])?);
    let y = Fq2::new(fq_be(&b[96..128])?, fq_be(&b[64..96])?);
    let p = G2Affine::new_unchecked(x, y);
    if p.is_on_curve() && p.is_in_correct_subgroup_assuming_on_curve() {
        Some(p)
    } else {
        None
    }
}

fn g2_bytes(p: &G2Affine) -> Vec<u8> {
    if p.is_zero() {
        return vec![0u8; 128];
    }
    let mut out = fq_to_be(&p.x.c1);
    out.extend(fq_to_be(&p.x.c0));
    out.extend(fq_to_be(&p.y.c1));
    out.extend(fq_to_be(&p.y.c0));
    out
}

impl SyscallBackend for HostBackend {
    fn group_op_reply(
        &self,
        op: mosaic::syscall::AltBn128Op,
        endianness: mosaic::syscall::InputEndianness,
        input: &[u8],
    ) -> Result<Vec<u8>, OnChainError> {
        self.alt_bn128_group_op(op, endianness, input)
    }
    fn compression_reply(&self, op: mosaic::syscall::AltBn128Compress, input: &[u8]) -> Result<Vec<u8>, OnChainError> {
        self.alt_bn128_compression(op, input)
    }
    fn poseidon_reply(
        &self,
        params: mosaic::syscall::PoseidonParameters,
        endianness: mosaic::syscall::InputEndianness,
        inputs: &[&[u8]],
    ) -> Result<[u8; 32], OnChainError> {
        self.poseidon(params, endianness, inputs)
    }
    fn sha256_reply(&self, inputs: &[&[u8]]) -> Result<[u8; 32], OnChainError> {
        self.sha256(inputs)
    }
    fn keccak256_reply(&self, inputs: &[&[u8]]) -> Result<[u8; 32], OnChainError> {
        self.keccak256(inputs)
    }
    fn alt_bn128_group_op(
        &self,
        op: AltBn128Op,
        _endianness: InputEndianness,
        input: &[u8],
    ) -> Result<Vec<u8>, OnChainError> {
        match op {
            AltBn128Op::G1Add => {
                if input.len() != 128 {
                    return Err(OnChainError::AltBn128SyscallFailed);
                }
                let p = g1_from(&input[0..64]).ok_or(OnChainError::AltBn128SyscallFailed)?;
                let q = g1_from(&input[64..128]).ok_or(OnChainError::AltBn128SyscallFailed)?;
                Ok(g1_bytes(&(p + q).into_affine()))
            }
            AltBn128Op::G1Mul => {
                if input.len() != 96 {
                    return Err(OnChainError::AltBn128SyscallFailed);
                }
                let p = g1_from(&input[0..64]).ok_or(OnChainError::AltBn128SyscallFailed)?;
                let s = ark_bn254::Fr::from_be_bytes_mod_order(&input[64..96]);
                Ok(g1_bytes(&(p * s).into_affine()))
            }
            AltBn128Op::Pairing => {
                if input.len() % 192 != 0 {
                    return Err(OnChainError::AltBn128SyscallFailed);
                }
                let mut g1s = Vec::new();
                let mut g2s = Vec::new();
                for chunk in input.chunks(192) {
                    g1s.push(g1_from(&chunk[0..64]).ok_or(OnChainError::AltBn128SyscallFailed)?);
                    g2s.push(g2_from(&chunk[64..192]).ok_or(OnChainError::AltBn128SyscallFailed)?);
                }
                let r = Bn254::multi_pairing(g1s, g2s);
                let mut out = vec![0u8; 32];
                if r.is_zero() {
                    out[31] = 1;
                }
                Ok(out)
            }
        }
    }

    fn alt_bn128_compression(&self, op: AltBn128Compress, input: &[u8]) -> Result<Vec<u8>, OnChainError> {
        let fail = OnChainError::AltBn128CompressionSyscallFailed;
        match op {
            AltBn128Compress::G1Compress => {
                if input.len() != 64 {
                    return Err(fail);
                }
                if input.iter().all(|x| *x == 0) {
                    return Ok(vec![0u8; 32]);
                }
                let p = g1_from(input).ok_or(fail)?;
                let mut out = Vec::new();
                p.serialize_compressed(&mut out).map_err(|_| fail)?;
                out.reverse();
                Ok(out)
            }
            AltBn128Compress::G1Decompress => {
                if input.len() != 32 {
                    return Err(fail);
                }
                if input.iter().all(|x| *x == 0) {
                    return Ok(vec![0u8; 64]);
                }
                let mut le = input.to_vec();
                le.reverse();
                let p = G1Affine::deserialize_compressed(&le[..]).map_err(|_| fail)?;
                Ok(g1_bytes(&p))
            }
            AltBn128Compress::G2Compress => {
                if input.len() != 128 {
                    return Err(fail);
                }
                if input.iter().all(|x| *x == 0) {
                    return Ok(vec![0u8; 64]);
                }
                let p = g2_from(input).ok_or(fail)?;
                let mut out = Vec::new();
                p.serialize_compressed(&mut out).map_err(|_| fail)?;
                out.reverse();
                Ok(out)
            }
            AltBn128Compress::G2Decompress => {
                if input.len() != 64 {
                    return Err(fail);
                }
                if input.iter().all(|x| *x == 0) {
                    return Ok(vec![0u8; 128]);
                }
                let mut le = input.to_vec();
                le.reverse();
                let p = G2Affine::deserialize_compressed(&le[..]).map_err(|_| fail)?;
                Ok(g2_bytes(&p))
            }
        }
    }

    fn poseidon(
        &self,
        _params: PoseidonParameters,
        _endianness: InputEndianness,
        _inputs: &[&[u8]],
    ) -> Result<[u8; 32], OnChainError> {
        Err(OnChainError::PoseidonSyscallFailed)
    }

    fn sha256(&self, _inputs: &[&[u8]]) -> Result<[u8; 32], OnChainError> {
        Err(OnChainError::Sha256SyscallFailed)
    }

    fn keccak256(&self, inputs: &[&[u8]]) -> Result<[u8; 32], OnChainError> {
        Ok(keccak(inputs))
    }
}

fn keccak(inputs: &[&[u8]]) -> [u8; 32] {
    let mut h = Keccak::v256();
    for i in inputs {
        h.update(i);
    }
    let mut out = [0u8; 32];
    h.finalize(&mut out);
    out
}
/// A field element of the library from one of ark_bn254.
fn fr_of(x: &ark_bn254::Fr) -> Fr {
    let b = x.into_bigint().to_bytes_be();
    Fr::from_canonical_bytes(&b).unwrap()
}

/// A small field element.
fn fr(n: u64) -> Fr {
    Fr::from_u64(n)
}

/// Canonical big-endian bytes of an ark_bn254 element.
fn ark_bytes(x: &ark_bn254::Fr) -> [u8; 32] {
    let v = x.into_bigint().to_bytes_be();
    let mut out = [0u8; 32];
    out.copy_from_slice(&v);
    out
}

/// Deterministic pseudo-random field elements (splitmix64 over four limbs).
struct Rng(u64);

impl Rng {
    fn next_u64(&mut self) -> u64 {
        self.0 = self.0.wrapping_add(0x9E3779B97F4A7C15);
        let mut z = self.0;
        z = (z ^ (z >> 30)).wrapping_mul(0xBF58476D1CE4E5B9);
        z = (z ^ (z >> 27)).wrapping_mul(0x94D049BB133111EB);
        z ^ (z >> 31)
    }

    fn ark(&mut self) -> ark_bn254::Fr {
        let mut b = [0u8; 32];
        for i in 0..4 {
            b[i * 8..(i + 1) * 8].copy_from_slice(&self.next_u64().to_be_bytes());
        }
        ark_bn254::Fr::from_be_bytes_mod_order(&b)
    }

    fn fr(&mut self) -> Fr {
        fr_of(&self.ark())
    }
}

fn zero_vk() -> HyperPlonkVerifyingKey {
    HyperPlonkVerifyingKey {
        n_public: 0,
        num_variables: 2,
        x2_g2: g2_generator_bytes(),
        q_m_g1: [0; G1_LEN],
        q_l_g1: [0; G1_LEN],
        q_r_g1: [0; G1_LEN],
        q_o_g1: [0; G1_LEN],
        q_c_g1: [0; G1_LEN],
        sigma_1_g1: [0; G1_LEN],
        sigma_2_g1: [0; G1_LEN],
        sigma_3_g1: [0; G1_LEN],
        k_1: HyperPlonkVerifyingKey::fr_be_from_u64(1),
        k_2: HyperPlonkVerifyingKey::fr_be_from_u64(2),
        k_3: HyperPlonkVerifyingKey::fr_be_from_u64(3),
    }
}

fn zero_proof_bytes(rounds: u32) -> Vec<u8> {
    let polys_len = (rounds as usize) * SUMCHECK_POLY_LEN;
    let total = FIXED_HEADER_LEN + polys_len + 12 * FR_LEN + G1_LEN;
    let mut buf = vec![0u8; total];
    buf[256..260].copy_from_slice(&rounds.to_le_bytes());
    buf
}

#[test]
fn rejects_wrong_final_evals_length() {
    let backend = HostBackend::new();
    let proof_buf = zero_proof_bytes(2);
    let proof_parsed = HyperPlonkProof::from_bytes(&proof_buf).unwrap();
    let vk = zero_vk();
    let mut t = Transcript::new(Kind::Keccak256, &backend);
    assert_eq!(proof_parsed.final_evals.len(), 12 * FR_LEN);
    let bad = HyperPlonkProof { final_evals: &proof_parsed.final_evals[..11 * FR_LEN], ..proof_parsed };
    let r = verify_batched_opening(&backend, &mut t, &vk, &bad, &fr(0));
    assert!(matches!(r, Err(OnChainError::ProofLengthMismatch)));
}

#[test]
fn rejects_wrong_opening_length() {
    let backend = HostBackend::new();
    let proof_buf = zero_proof_bytes(2);
    let proof_parsed = HyperPlonkProof::from_bytes(&proof_buf).unwrap();
    let vk = zero_vk();
    let mut t = Transcript::new(Kind::Keccak256, &backend);
    let bad = HyperPlonkProof { kzg_opening: &proof_parsed.kzg_opening[..63], ..proof_parsed };
    let r = verify_batched_opening(&backend, &mut t, &vk, &bad, &fr(0));
    assert!(matches!(r, Err(OnChainError::InvalidPointEncoding)));
}

#[test]
fn nonzero_commit_with_wrong_opening_fails_pairing() {
    let backend = HostBackend::new();
    let mut proof_buf = zero_proof_bytes(2);
    let g1_gen = g1_generator_bytes();
    proof_buf[0..G1_LEN].copy_from_slice(&g1_gen);
    let a_eval_offset = FIXED_HEADER_LEN + 2 * SUMCHECK_POLY_LEN;
    proof_buf[a_eval_offset + 31] = 1;
    let opening_offset = proof_buf.len() - G1_LEN;
    proof_buf[opening_offset..opening_offset + G1_LEN].copy_from_slice(&g1_gen);
    let proof = HyperPlonkProof::from_bytes(&proof_buf).unwrap();
    let vk = zero_vk();
    let mut t = Transcript::new(Kind::Keccak256, &backend);
    let r = verify_batched_opening(&backend, &mut t, &vk, &proof, &fr(2));
    assert!(matches!(r, Err(OnChainError::PairingCheckFailed)), "expected PairingCheckFailed for non-trivial proof with wrong opening, got {r:?}");
}
