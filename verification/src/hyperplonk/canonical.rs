//! HyperPlonk canonical byte layout.
//!
//! Proof: witness commitments `a`, `b`, `c`, `z` (G1), a `u32` sumcheck
//! round count `r` (at most 28), `r` round polynomials of three scalars
//! each, twelve final evaluations, and the KZG opening (G1).
use vstd::prelude::*;
use crate::bytes::{
    be_nat, chunk_at, chunks_exact, copy128, copy32, copy64, le_u32, lemma_le_u32_roundtrip,
    lemma_u32_le_roundtrip, push_all, read_u32_le, u32_le_bytes, u32_to_le_bytes, window,
};
use crate::compression::{
    compress_g1_run, compress_g2, compress_g2_spec, compress_run, decompress_g1_run, decompress_g2,
    decompress_g2_spec, decompress_run, inverts_on, lemma_compress_run_err, lemma_compress_run_len,
    lemma_decompress_run_err, lemma_run_roundtrip, G1_LEN, G2_LEN,
};
use crate::error::OnChainError;
use crate::field::Fr;
use crate::fr::FR_LEN;
use crate::syscall::SyscallBackend;

pub mod final_evals_index;

verus! {

/// Coefficients per round polynomial.
pub const SUMCHECK_POLY_COEFFS: usize = 3;
/// Bytes per round polynomial.
pub const SUMCHECK_POLY_LEN: usize = 96;
/// Number of final evaluations.
pub const FINAL_EVALS: usize = 12;
/// Four commitments and the round counter.
pub const FIXED_HEADER_LEN: usize = 260;
/// Final evaluations and the opening.
pub const FIXED_TAIL_LEN: usize = 448;
/// Proof length with zero rounds.
pub const MIN_PROOF_LEN: usize = 708;
/// Cap on sumcheck rounds (circuits up to 2^28 rows).
pub const MAX_SUMCHECK_ROUNDS: u32 = 28;

/// Round count declared by a canonical proof.
pub open spec fn proof_rounds(b: Seq<u8>) -> nat {
    le_u32(b.subrange(256, 260))
}

/// `b` is a well-formed canonical proof.
pub open spec fn proof_accepts(b: Seq<u8>) -> bool {
    &&& b.len() >= 708
    &&& proof_rounds(b) <= 28
    &&& b.len() == 708 + 96 * proof_rounds(b)
}

/// Borrowed view of a HyperPlonk proof.
#[derive(Clone, Copy, Debug, PartialEq, Eq)]
pub struct HyperPlonkProof<'a> {
    /// Commitment to witness column A.
    pub a: &'a [u8],
    /// Commitment to witness column B.
    pub b: &'a [u8],
    /// Commitment to witness column C.
    pub c: &'a [u8],
    /// Commitment to the permutation grand product.
    pub z: &'a [u8],
    /// Number of sumcheck rounds.
    pub sumcheck_rounds: u32,
    /// Round polynomials, `96 · sumcheck_rounds` bytes.
    pub sumcheck_polys: &'a [u8],
    /// Twelve final evaluations.
    pub final_evals: &'a [u8],
    /// KZG opening.
    pub kzg_opening: &'a [u8],
}

/// The fields of `p` are the windows of `b`.
pub open spec fn proof_layout(p: HyperPlonkProof, b: Seq<u8>) -> bool {
    let r = proof_rounds(b);
    &&& p.a@ == b.subrange(0, 64)
    &&& p.b@ == b.subrange(64, 128)
    &&& p.c@ == b.subrange(128, 192)
    &&& p.z@ == b.subrange(192, 256)
    &&& p.sumcheck_rounds == r
    &&& p.sumcheck_polys@ == b.subrange(260, (260 + 96 * r) as int)
    &&& p.final_evals@ == b.subrange((260 + 96 * r) as int, (644 + 96 * r) as int)
    &&& p.kzg_opening@ == b.subrange((644 + 96 * r) as int, (708 + 96 * r) as int)
}

impl<'a> HyperPlonkProof<'a> {
    /// Parse a canonical proof.
    pub fn from_bytes(bytes: &'a [u8]) -> (res: Result<Self, OnChainError>)
        ensures
            res is Ok <==> proof_accepts(bytes@),
            res is Err ==> res == Err::<Self, OnChainError>(OnChainError::ProofLengthMismatch),
            res matches Ok(p) ==> proof_layout(p, bytes@),
    {
        if bytes.len() < MIN_PROOF_LEN {
            return Err(OnChainError::ProofLengthMismatch);
        }
        let sumcheck_rounds = read_u32_le(bytes, 256);
        if sumcheck_rounds > MAX_SUMCHECK_ROUNDS {
            return Err(OnChainError::ProofLengthMismatch);
        }
        let polys_len = (sumcheck_rounds as usize) * SUMCHECK_POLY_LEN;
        if bytes.len() != FIXED_HEADER_LEN + polys_len + FIXED_TAIL_LEN {
            return Err(OnChainError::ProofLengthMismatch);
        }
        let e = FIXED_HEADER_LEN + polys_len;
        Ok(HyperPlonkProof {
            a: window(bytes, 0, 64),
            b: window(bytes, 64, 128),
            c: window(bytes, 128, 192),
            z: window(bytes, 192, 256),
            sumcheck_rounds,
            sumcheck_polys: window(bytes, FIXED_HEADER_LEN, e),
            final_evals: window(bytes, e, e + 384),
            kzg_opening: window(bytes, e + 384, e + 448),
        })
    }

    /// Round polynomials as 96-byte windows.
    pub fn round_polys(&self) -> (res: Vec<&'a [u8]>)
        ensures
            res@.len() == self.sumcheck_polys@.len() / 96,
            forall|i: int|
                0 <= i < res@.len() ==> (#[trigger] res@[i])@ == chunk_at(
                    self.sumcheck_polys@,
                    96,
                    i,
                ),
    {
        chunks_exact(self.sumcheck_polys, SUMCHECK_POLY_LEN)
    }

    /// Compressed proof length with zero rounds.
    pub const MIN_COMPRESSED_LEN: usize = 548;

    /// Compressed proof length for `rounds` sumcheck rounds, or `None` over
    /// the round cap.
    pub fn compressed_len_for_rounds(rounds: u32) -> (res: Option<usize>)
        ensures
            rounds > 28 ==> res is None,
            rounds <= 28 ==> res == Some((548 + 96 * rounds) as usize),
    {
        if rounds > MAX_SUMCHECK_ROUNDS {
            return None;
        }
        Some(548 + (rounds as usize) * SUMCHECK_POLY_LEN)
    }
}

/// Round count declared by a compressed proof.
pub open spec fn compressed_rounds(b: Seq<u8>) -> nat {
    le_u32(b.subrange(128, 132))
}

/// `b` is a well-formed compressed proof.
pub open spec fn compressed_accepts(b: Seq<u8>) -> bool {
    &&& b.len() >= 548
    &&& compressed_rounds(b) <= 28
    &&& b.len() == 548 + 96 * compressed_rounds(b)
}

/// The contents of a byte-vector result.
pub open spec fn vec_view(r: Result<Vec<u8>, OnChainError>) -> Result<Seq<u8>, OnChainError> {
    match r {
        Ok(v) => Ok(v@),
        Err(e) => Err(e),
    }
}

/// The canonical proof the backend's decompression makes of the compressed
/// proof `c`: the four decompressed witness commitments, the copied round
/// counter, round polynomials and final evaluations, and the decompressed
/// opening.
pub open spec fn decompress_proof_spec<B: SyscallBackend + ?Sized>(b: &B, c: Seq<u8>) -> Result<
    Seq<u8>,
    OnChainError,
> {
    let pass = (4 + 96 * compressed_rounds(c) + 384) as int;
    match decompress_run(b, c, 0, 4) {
        Ok(p1) => match decompress_run(b, c, 128 + pass, 1) {
            Ok(p2) => Ok(p1 + c.subrange(128, 128 + pass) + p2),
            Err(e) => Err(e),
        },
        Err(e) => Err(e),
    }
}

/// The compressed proof the backend's compression makes of the canonical
/// proof `c`.
pub open spec fn compress_proof_spec<B: SyscallBackend + ?Sized>(b: &B, c: Seq<u8>) -> Result<
    Seq<u8>,
    OnChainError,
> {
    let pass = (4 + 96 * proof_rounds(c) + 384) as int;
    match compress_run(b, c, 0, 4) {
        Ok(p1) => match compress_run(b, c, 256 + pass, 1) {
            Ok(p2) => Ok(p1 + c.subrange(256, 256 + pass) + p2),
            Err(e) => Err(e),
        },
        Err(e) => Err(e),
    }
}

/// Decompressing a compressed canonical proof gives the proof back, byte
/// for byte, for a backend that inverts its own compression on the proof's
/// five commitments; the compressed form is 160 bytes shorter.
pub proof fn lemma_proof_compress_roundtrip<B: SyscallBackend + ?Sized>(b: &B, c: Seq<u8>)
    requires
        proof_accepts(c),
        compress_proof_spec(b, c) is Ok,
        inverts_on(b, c, 0, 4),
        inverts_on(b, c, (644 + 96 * proof_rounds(c)) as int, 1),
    ensures
        compressed_accepts(compress_proof_spec(b, c)->Ok_0),
        c.len() - compress_proof_spec(b, c)->Ok_0.len() == 160,
        decompress_proof_spec(b, compress_proof_spec(b, c)->Ok_0) == Ok::<Seq<u8>, OnChainError>(
            c,
        ),
{
    let r = proof_rounds(c);
    let pass = (4 + 96 * r + 384) as int;
    let p1 = compress_run(b, c, 0, 4)->Ok_0;
    let p2 = compress_run(b, c, 256 + pass, 1)->Ok_0;
    let mid = c.subrange(256, 256 + pass);
    let z = p1 + mid + p2;
    assert(compress_proof_spec(b, c)->Ok_0 == z);
    lemma_compress_run_len(b, c, 0, 4);
    lemma_compress_run_len(b, c, 256 + pass, 1);
    assert(z.subrange(128, 132) =~= c.subrange(256, 260));
    assert(compressed_rounds(z) == r);
    assert(compressed_accepts(z));
    assert(z.subrange(0, 128) =~= p1);
    lemma_run_roundtrip(b, c, 0, 4, z, 0);
    assert(z.subrange(128 + pass, 128 + pass + 32) =~= p2);
    lemma_run_roundtrip(b, c, 256 + pass, 1, z, 128 + pass);
    assert(z.subrange(128, 128 + pass) =~= mid);
    assert(c.subrange(0, 256) + mid + c.subrange(256 + pass, 256 + pass + 64) =~= c);
}

impl<'a> HyperPlonkProof<'a> {
    /// Decompress: four witness commitments and the opening are decompressed
    /// by the backend; the round counter, round polynomials and final
    /// evaluations are copied.
    pub fn decompress_to_canonical_bytes<B: SyscallBackend + ?Sized>(
        backend: &B,
        compressed: &[u8],
    ) -> (res: Result<Vec<u8>, OnChainError>)
        ensures
            !compressed_accepts(compressed@) ==> res == Err::<Vec<u8>, OnChainError>(
                OnChainError::ProofLengthMismatch,
            ),
            compressed_accepts(compressed@) && res is Err ==> res == Err::<Vec<u8>, OnChainError>(
                OnChainError::AltBn128CompressionSyscallFailed,
            ),
            res matches Ok(out) ==> {
                let r = compressed_rounds(compressed@);
                &&& out@.len() == 708 + 96 * r
                &&& out@.subrange(256, (644 + 96 * r) as int) == compressed@.subrange(128, (516 + 96 * r) as int)
            },
            compressed_accepts(compressed@) ==> vec_view(res) == decompress_proof_spec(
                backend,
                compressed@,
            ),
    {
        if compressed.len() < 548 {
            return Err(OnChainError::ProofLengthMismatch);
        }
        let rounds = read_u32_le(compressed, 128);
        if rounds > MAX_SUMCHECK_ROUNDS {
            return Err(OnChainError::ProofLengthMismatch);
        }
        let polys_len = (rounds as usize) * SUMCHECK_POLY_LEN;
        if compressed.len() != 548 + polys_len {
            return Err(OnChainError::ProofLengthMismatch);
        }
        let mut out: Vec<u8> = Vec::new();
        let pass = 4 + polys_len + 384;
        proof {
            lemma_decompress_run_err(backend, compressed@, 0, 4);
            lemma_decompress_run_err(backend, compressed@, 128 + pass, 1);
        }
        decompress_g1_run(backend, compressed, 0, 4, &mut out)?;
        let ghost p1 = out@;
        push_all(&mut out, window(compressed, 128, 128 + pass));
        let ghost mid = out@;
        decompress_g1_run(backend, compressed, 128 + pass, 1, &mut out)?;
        proof {
            assert(out@ =~= p1 + compressed@.subrange(128, 128 + pass) + decompress_run(
                backend,
                compressed@,
                128 + pass,
                1,
            )->Ok_0);
            assert(out@.subrange(256, 256 + pass) =~= mid.subrange(256, 256 + pass));
        }
        Ok(out)
    }

    /// Compress a canonical proof (parsed with [`Self::from_bytes`] first).
    pub fn compress_from_canonical_bytes<B: SyscallBackend + ?Sized>(
        backend: &B,
        canonical: &[u8],
    ) -> (res: Result<Vec<u8>, OnChainError>)
        ensures
            !proof_accepts(canonical@) ==> res == Err::<Vec<u8>, OnChainError>(
                OnChainError::ProofLengthMismatch,
            ),
            proof_accepts(canonical@) && res is Err ==> res == Err::<Vec<u8>, OnChainError>(
                OnChainError::AltBn128CompressionSyscallFailed,
            ),
            res matches Ok(out) ==> {
                let r = proof_rounds(canonical@);
                &&& out@.len() == 548 + 96 * r
                &&& out@.subrange(128, (516 + 96 * r) as int) == canonical@.subrange(256, (644 + 96 * r) as int)
            },
            proof_accepts(canonical@) ==> vec_view(res) == compress_proof_spec(backend, canonical@),
    {
        let view = HyperPlonkProof::from_bytes(canonical)?;
        let polys_len = (view.sumcheck_rounds as usize) * SUMCHECK_POLY_LEN;
        let mut out: Vec<u8> = Vec::new();
        let pass = 4 + polys_len + 384;
        proof {
            lemma_compress_run_err(backend, canonical@, 0, 4);
            lemma_compress_run_err(backend, canonical@, 256 + pass, 1);
        }
        compress_g1_run(backend, canonical, 0, 4, &mut out)?;
        let ghost p1 = out@;
        push_all(&mut out, window(canonical, 256, 256 + pass));
        let ghost mid = out@;
        compress_g1_run(backend, canonical, 256 + pass, 1, &mut out)?;
        proof {
            assert(out@ =~= p1 + canonical@.subrange(256, 256 + pass) + compress_run(
                backend,
                canonical@,
                256 + pass,
                1,
            )->Ok_0);
            assert(out@.subrange(128, 128 + pass) =~= mid.subrange(128, 128 + pass));
        }
        Ok(out)
    }
}

} // verus!

verus! {

/// HyperPlonk verifying key: five selector and three permutation
/// commitments, the G2 SRS element and the three coset constants.
#[derive(Clone, Debug, PartialEq, Eq)]
pub struct HyperPlonkVerifyingKey {
    /// Number of public inputs.
    pub n_public: u32,
    /// Hypercube dimension (`log2` of the circuit size).
    pub num_variables: u32,
    /// SRS element `[x]_2`.
    pub x2_g2: [u8; G2_LEN],
    /// Multiplication selector commitment.
    pub q_m_g1: [u8; G1_LEN],
    /// Left selector commitment.
    pub q_l_g1: [u8; G1_LEN],
    /// Right selector commitment.
    pub q_r_g1: [u8; G1_LEN],
    /// Output selector commitment.
    pub q_o_g1: [u8; G1_LEN],
    /// Constant selector commitment.
    pub q_c_g1: [u8; G1_LEN],
    /// Permutation σ1 commitment.
    pub sigma_1_g1: [u8; G1_LEN],
    /// Permutation σ2 commitment.
    pub sigma_2_g1: [u8; G1_LEN],
    /// Permutation σ3 commitment.
    pub sigma_3_g1: [u8; G1_LEN],
    /// Coset constant of the left wire (canonical big-endian scalar).
    pub k_1: [u8; FR_LEN],
    /// Coset constant of the right wire.
    pub k_2: [u8; FR_LEN],
    /// Coset constant of the output wire.
    pub k_3: [u8; FR_LEN],
}

/// The eight commitments in transcript order.
pub open spec fn vk_commits(vk: HyperPlonkVerifyingKey) -> Seq<Seq<u8>> {
    seq![
        vk.q_m_g1@,
        vk.q_l_g1@,
        vk.q_r_g1@,
        vk.q_o_g1@,
        vk.q_c_g1@,
        vk.sigma_1_g1@,
        vk.sigma_2_g1@,
        vk.sigma_3_g1@,
    ]
}

/// Canonical encoding of a HyperPlonk verifying key.
pub open spec fn vk_serialize(vk: HyperPlonkVerifyingKey) -> Seq<u8> {
    u32_le_bytes(vk.n_public) + u32_le_bytes(vk.num_variables) + vk.x2_g2@ + vk.q_m_g1@
        + vk.q_l_g1@ + vk.q_r_g1@ + vk.q_o_g1@ + vk.q_c_g1@ + vk.sigma_1_g1@ + vk.sigma_2_g1@
        + vk.sigma_3_g1@ + vk.k_1@ + vk.k_2@ + vk.k_3@
}

/// The fields of `vk` are read from the consecutive windows of `bytes`.
pub open spec fn vk_layout(vk: HyperPlonkVerifyingKey, bytes: Seq<u8>) -> bool {
    &&& bytes.len() == 744
    &&& vk.n_public == le_u32(bytes.subrange(0, 4))
    &&& vk.num_variables == le_u32(bytes.subrange(4, 8))
    &&& vk.x2_g2@ == bytes.subrange(8, 136)
    &&& vk.q_m_g1@ == bytes.subrange(136, 200)
    &&& vk.q_l_g1@ == bytes.subrange(200, 264)
    &&& vk.q_r_g1@ == bytes.subrange(264, 328)
    &&& vk.q_o_g1@ == bytes.subrange(328, 392)
    &&& vk.q_c_g1@ == bytes.subrange(392, 456)
    &&& vk.sigma_1_g1@ == bytes.subrange(456, 520)
    &&& vk.sigma_2_g1@ == bytes.subrange(520, 584)
    &&& vk.sigma_3_g1@ == bytes.subrange(584, 648)
    &&& vk.k_1@ == bytes.subrange(648, 680)
    &&& vk.k_2@ == bytes.subrange(680, 712)
    &&& vk.k_3@ == bytes.subrange(712, 744)
}

/// Two keys agree on every field.
pub open spec fn vk_same(a: HyperPlonkVerifyingKey, b: HyperPlonkVerifyingKey) -> bool {
    &&& a.n_public == b.n_public
    &&& a.num_variables == b.num_variables
    &&& a.x2_g2@ == b.x2_g2@
    &&& vk_commits(a) == vk_commits(b)
    &&& a.k_1@ == b.k_1@
    &&& a.k_2@ == b.k_2@
    &&& a.k_3@ == b.k_3@
}

/// Decoding the encoding of a key gives back the same key.
pub proof fn lemma_vk_decode_encode(vk: HyperPlonkVerifyingKey, decoded: HyperPlonkVerifyingKey)
    requires
        vk_layout(decoded, vk_serialize(vk)),
    ensures
        vk_same(decoded, vk),
{
    let s = vk_serialize(vk);
    lemma_u32_le_roundtrip(vk.n_public);
    lemma_u32_le_roundtrip(vk.num_variables);
    assert(s.subrange(0, 4) =~= u32_le_bytes(vk.n_public));
    assert(s.subrange(4, 8) =~= u32_le_bytes(vk.num_variables));
    assert(s.subrange(8, 136) =~= vk.x2_g2@);
    assert(s.subrange(136, 200) =~= vk.q_m_g1@);
    assert(s.subrange(200, 264) =~= vk.q_l_g1@);
    assert(s.subrange(264, 328) =~= vk.q_r_g1@);
    assert(s.subrange(328, 392) =~= vk.q_o_g1@);
    assert(s.subrange(392, 456) =~= vk.q_c_g1@);
    assert(s.subrange(456, 520) =~= vk.sigma_1_g1@);
    assert(s.subrange(520, 584) =~= vk.sigma_2_g1@);
    assert(s.subrange(584, 648) =~= vk.sigma_3_g1@);
    assert(s.subrange(648, 680) =~= vk.k_1@);
    assert(s.subrange(680, 712) =~= vk.k_2@);
    assert(s.subrange(712, 744) =~= vk.k_3@);
    assert(vk_commits(decoded) =~= vk_commits(vk));
}

/// Encoding a decoded key gives back the decoded bytes.
pub proof fn lemma_vk_encode_decode(vk: HyperPlonkVerifyingKey, bytes: Seq<u8>)
    requires
        vk_layout(vk, bytes),
    ensures
        vk_serialize(vk) == bytes,
{
    lemma_le_u32_roundtrip(bytes.subrange(0, 4));
    lemma_le_u32_roundtrip(bytes.subrange(4, 8));
    assert(vk_serialize(vk) =~= bytes);
}

/// The canonical key the backend's decompression makes of a 424-byte
/// compressed key: the counters, the decompressed SRS element and eight
/// commitments, and the coset constants.
pub open spec fn decompress_vk_spec<B: SyscallBackend + ?Sized>(b: &B, c: Seq<u8>) -> Result<
    Seq<u8>,
    OnChainError,
> {
    match decompress_g2_spec(b, c.subrange(8, 72)) {
        Ok(x2) => match decompress_run(b, c, 72, 8) {
            Ok(pts) => Ok(c.subrange(0, 8) + x2 + pts + c.subrange(328, 424)),
            Err(e) => Err(e),
        },
        Err(e) => Err(e),
    }
}

/// The compressed key the backend's compression makes of a 744-byte key.
pub open spec fn compress_vk_spec<B: SyscallBackend + ?Sized>(b: &B, c: Seq<u8>) -> Result<
    Seq<u8>,
    OnChainError,
> {
    match compress_g2_spec(b, c.subrange(8, 136)) {
        Ok(x2) => match compress_run(b, c, 136, 8) {
            Ok(pts) => Ok(c.subrange(0, 8) + x2 + pts + c.subrange(648, 744)),
            Err(e) => Err(e),
        },
        Err(e) => Err(e),
    }
}

/// Decompressing a compressed key gives the key back, byte for byte, for a
/// backend that inverts its own compression on the key's `[x]₂` and eight
/// commitments; the compressed form is 424 bytes.
pub proof fn lemma_vk_compress_roundtrip<B: SyscallBackend + ?Sized>(b: &B, c: Seq<u8>)
    requires
        c.len() == 744,
        compress_vk_spec(b, c) is Ok,
        decompress_g2_spec(b, compress_g2_spec(b, c.subrange(8, 136))->Ok_0) == Ok::<
            Seq<u8>,
            OnChainError,
        >(c.subrange(8, 136)),
        inverts_on(b, c, 136, 8),
    ensures
        compress_vk_spec(b, c)->Ok_0.len() == 424,
        decompress_vk_spec(b, compress_vk_spec(b, c)->Ok_0) == Ok::<Seq<u8>, OnChainError>(c),
{
    let x2 = compress_g2_spec(b, c.subrange(8, 136))->Ok_0;
    let cr = compress_run(b, c, 136, 8)->Ok_0;
    lemma_compress_run_len(b, c, 136, 8);
    let z = c.subrange(0, 8) + x2 + cr + c.subrange(648, 744);
    assert(compress_vk_spec(b, c)->Ok_0 == z);
    assert(x2.len() == 64);
    assert(z.subrange(0, 8) =~= c.subrange(0, 8));
    assert(z.subrange(8, 72) =~= x2);
    assert(z.subrange(72, 328) =~= cr);
    lemma_run_roundtrip(b, c, 136, 8, z, 72);
    assert(z.subrange(328, 424) =~= c.subrange(648, 744));
    assert(c.subrange(0, 8) + c.subrange(8, 136) + c.subrange(136, 648) + c.subrange(648, 744)
        =~= c);
}

impl HyperPlonkVerifyingKey {
    /// Number of preprocessed commitments.
    pub const NUM_COMMITS: usize = 8;

    /// Canonical encoding length.
    pub const SERIALIZED_LEN: usize = 744;

    /// Compressed encoding length.
    pub const COMPRESSED_LEN: usize = 424;

    /// Canonical big-endian scalar encoding of a small integer.
    pub fn fr_be_from_u64(n: u64) -> (res: [u8; FR_LEN])
        ensures
            res@.len() == FR_LEN,
            be_nat(res@) == n,
    {
        proof {
            assert(n < crate::fr::fr_modulus());
        }
        let f = Fr::from_u64(n);
        f.to_bytes()
    }

    /// Decode the canonical 744-byte encoding. Only the length is checked.
    pub fn from_bytes(bytes: &[u8]) -> (res: Result<Self, OnChainError>)
        ensures
            res is Ok <==> bytes@.len() == 744,
            res is Err ==> res == Err::<Self, OnChainError>(
                OnChainError::VerifyingKeyLengthMismatch,
            ),
            res matches Ok(vk) ==> vk_layout(vk, bytes@),
    {
        if bytes.len() != Self::SERIALIZED_LEN {
            return Err(OnChainError::VerifyingKeyLengthMismatch);
        }
        Ok(HyperPlonkVerifyingKey {
            n_public: read_u32_le(bytes, 0),
            num_variables: read_u32_le(bytes, 4),
            x2_g2: copy128(bytes, 8),
            q_m_g1: copy64(bytes, 136),
            q_l_g1: copy64(bytes, 200),
            q_r_g1: copy64(bytes, 264),
            q_o_g1: copy64(bytes, 328),
            q_c_g1: copy64(bytes, 392),
            sigma_1_g1: copy64(bytes, 456),
            sigma_2_g1: copy64(bytes, 520),
            sigma_3_g1: copy64(bytes, 584),
            k_1: copy32(bytes, 648),
            k_2: copy32(bytes, 680),
            k_3: copy32(bytes, 712),
        })
    }

    /// Encode to the canonical 744-byte form.
    pub fn to_bytes(&self) -> (out: Vec<u8>)
        ensures
            out@ == vk_serialize(*self),
            out@.len() == 744,
    {
        let mut out: Vec<u8> = Vec::new();
        push_all(&mut out, &u32_to_le_bytes(self.n_public));
        push_all(&mut out, &u32_to_le_bytes(self.num_variables));
        push_all(&mut out, &self.x2_g2);
        push_all(&mut out, &self.q_m_g1);
        push_all(&mut out, &self.q_l_g1);
        push_all(&mut out, &self.q_r_g1);
        push_all(&mut out, &self.q_o_g1);
        push_all(&mut out, &self.q_c_g1);
        push_all(&mut out, &self.sigma_1_g1);
        push_all(&mut out, &self.sigma_2_g1);
        push_all(&mut out, &self.sigma_3_g1);
        push_all(&mut out, &self.k_1);
        push_all(&mut out, &self.k_2);
        push_all(&mut out, &self.k_3);
        proof {
            lemma_u32_le_roundtrip(self.n_public);
            lemma_u32_le_roundtrip(self.num_variables);
            assert(out@ =~= vk_serialize(*self));
        }
        out
    }

    /// The eight commitments in transcript order.
    pub fn commits_iter(&self) -> (res: Vec<&[u8; G1_LEN]>)
        ensures
            res@.len() == 8,
            forall|i: int| 0 <= i < 8 ==> (#[trigger] res@[i])@ == vk_commits(*self)[i],
    {
        let mut v: Vec<&[u8; G1_LEN]> = Vec::new();
        v.push(&self.q_m_g1);
        v.push(&self.q_l_g1);
        v.push(&self.q_r_g1);
        v.push(&self.q_o_g1);
        v.push(&self.q_c_g1);
        v.push(&self.sigma_1_g1);
        v.push(&self.sigma_2_g1);
        v.push(&self.sigma_3_g1);
        v
    }

    /// Decompress a 424-byte key into the canonical 744-byte encoding: the
    /// two counters and the coset constants are copied, the G2 element and
    /// the eight commitments are decompressed by the backend.
    pub fn from_compressed_bytes<B: SyscallBackend + ?Sized>(
        backend: &B,
        compressed: &[u8],
    ) -> (res: Result<Vec<u8>, OnChainError>)
        ensures
            compressed@.len() != 424 ==> res == Err::<Vec<u8>, OnChainError>(
                OnChainError::VerifyingKeyLengthMismatch,
            ),
            compressed@.len() == 424 && res is Err ==> res == Err::<Vec<u8>, OnChainError>(
                OnChainError::AltBn128CompressionSyscallFailed,
            ),
            res matches Ok(out) ==> {
                &&& out@.len() == 744
                &&& out@.subrange(0, 8) == compressed@.subrange(0, 8)
                &&& out@.subrange(648, 744) == compressed@.subrange(328, 424)
            },
            compressed@.len() == 424 ==> vec_view(res) == decompress_vk_spec(backend, compressed@),
    {
        if compressed.len() != Self::COMPRESSED_LEN {
            return Err(OnChainError::VerifyingKeyLengthMismatch);
        }
        let mut out: Vec<u8> = Vec::new();
        push_all(&mut out, window(compressed, 0, 8));
        proof {
            lemma_decompress_run_err(backend, compressed@, 72, 8);
        }
        let x2 = decompress_g2(backend, &copy64(compressed, 8))?;
        push_all(&mut out, &x2);
        let ghost head = out@;
        decompress_g1_run(backend, compressed, 72, 8, &mut out)?;
        let ghost mid = out@;
        push_all(&mut out, window(compressed, 328, 424));
        proof {
            assert(out@ =~= compressed@.subrange(0, 8) + x2@ + decompress_run(
                backend,
                compressed@,
                72,
                8,
            )->Ok_0 + compressed@.subrange(328, 424));
            assert(out@.subrange(0, 8) =~= mid.subrange(0, 8));
            assert(mid.subrange(0, 8) =~= head.subrange(0, 8));
            assert(out@.subrange(648, 744) =~= compressed@.subrange(328, 424));
        }
        Ok(out)
    }

    /// Compress a canonical 744-byte key to 424 bytes.
    pub fn to_compressed_bytes<B: SyscallBackend + ?Sized>(
        backend: &B,
        canonical: &[u8],
    ) -> (res: Result<Vec<u8>, OnChainError>)
        ensures
            canonical@.len() != 744 ==> res == Err::<Vec<u8>, OnChainError>(
                OnChainError::VerifyingKeyLengthMismatch,
            ),
            canonical@.len() == 744 && res is Err ==> res == Err::<Vec<u8>, OnChainError>(
                OnChainError::AltBn128CompressionSyscallFailed,
            ),
            res matches Ok(out) ==> {
                &&& out@.len() == 424
                &&& out@.subrange(0, 8) == canonical@.subrange(0, 8)
                &&& out@.subrange(328, 424) == canonical@.subrange(648, 744)
            },
            canonical@.len() == 744 ==> vec_view(res) == compress_vk_spec(backend, canonical@),
    {
        if canonical.len() != Self::SERIALIZED_LEN {
            return Err(OnChainError::VerifyingKeyLengthMismatch);
        }
        let mut out: Vec<u8> = Vec::new();
        push_all(&mut out, window(canonical, 0, 8));
        proof {
            lemma_compress_run_err(backend, canonical@, 136, 8);
        }
        let x2 = compress_g2(backend, &copy128(canonical, 8))?;
        push_all(&mut out, &x2);
        let ghost head = out@;
        compress_g1_run(backend, canonical, 136, 8, &mut out)?;
        let ghost mid = out@;
        push_all(&mut out, window(canonical, 648, 744));
        proof {
            assert(out@ =~= canonical@.subrange(0, 8) + x2@ + compress_run(
                backend,
                canonical@,
                136,
                8,
            )->Ok_0 + canonical@.subrange(648, 744));
            assert(out@.subrange(0, 8) =~= mid.subrange(0, 8));
            assert(mid.subrange(0, 8) =~= head.subrange(0, 8));
            assert(out@.subrange(328, 424) =~= canonical@.subrange(648, 744));
        }
        Ok(out)
    }
}

} // verus!
