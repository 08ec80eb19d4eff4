//! Canonical byte layout of KZG-PLONK proofs (768 bytes: 9 G1 + 6 Fr)
//! and verifying keys (744-byte header: 8 G1, 1 G2, `power`, `k1`, `k2`,
//! `omega`, `n_public`).
use vstd::prelude::*;
use crate::bytes::{lemma_le_u32_roundtrip, lemma_u32_le_roundtrip, copy128, copy32, copy64, le_u32, push_all, read_u32_le, u32_le_bytes, u32_to_le_bytes, window};
use crate::compression::{
    bytes_result, compress_g1, compress_g1_run, compress_g1_spec, compress_g2, compress_g2_spec, compress_run,
    decompress_g1, decompress_g1_run, decompress_g1_spec, decompress_g2, decompress_g2_spec, decompress_run,
    inverts_on, lemma_compress_run_err, lemma_compress_run_len, lemma_decompress_run_err,
    lemma_run_roundtrip, G1_LEN, G2_LEN,
};
use crate::error::OnChainError;
use crate::fr::FR_LEN;
use crate::syscall::SyscallBackend;

verus! {

/// Total proof length: 9 G1 commitments and 6 scalar evaluations.
pub const PROOF_LEN: usize = 768;
/// Verifying-key header length.
pub const VK_HEADER_LEN: usize = 744;

/// Borrowed view of a 768-byte PLONK proof.
#[derive(Clone, Copy, Debug, PartialEq, Eq)]
pub struct PlonkProof<'a> {
    /// Commitment to witness column A.
    pub a: &'a [u8],
    /// Commitment to witness column B.
    pub b: &'a [u8],
    /// Commitment to witness column C.
    pub c: &'a [u8],
    /// Commitment to the grand-product polynomial Z.
    pub z: &'a [u8],
    /// Quotient part 1.
    pub t1: &'a [u8],
    /// Quotient part 2.
    pub t2: &'a [u8],
    /// Quotient part 3.
    pub t3: &'a [u8],
    /// Opening proof at `xi`.
    pub w_xi: &'a [u8],
    /// Opening proof at `xi · omega`.
    pub w_xiw: &'a [u8],
    /// A(xi).
    pub eval_a: &'a [u8],
    /// B(xi).
    pub eval_b: &'a [u8],
    /// C(xi).
    pub eval_c: &'a [u8],
    /// σ1(xi).
    pub eval_s1: &'a [u8],
    /// σ2(xi).
    pub eval_s2: &'a [u8],
    /// Z(xi · omega).
    pub eval_zw: &'a [u8],
}

/// The proof fields of `p` are the consecutive windows of `bytes`.
pub open spec fn proof_layout(p: PlonkProof, bytes: Seq<u8>) -> bool {
    &&& bytes.len() == 768
    &&& p.a@ == bytes.subrange(0, 64)
    &&& p.b@ == bytes.subrange(64, 128)
    &&& p.c@ == bytes.subrange(128, 192)
    &&& p.z@ == bytes.subrange(192, 256)
    &&& p.t1@ == bytes.subrange(256, 320)
    &&& p.t2@ == bytes.subrange(320, 384)
    &&& p.t3@ == bytes.subrange(384, 448)
    &&& p.w_xi@ == bytes.subrange(448, 512)
    &&& p.w_xiw@ == bytes.subrange(512, 576)
    &&& p.eval_a@ == bytes.subrange(576, 608)
    &&& p.eval_b@ == bytes.subrange(608, 640)
    &&& p.eval_c@ == bytes.subrange(640, 672)
    &&& p.eval_s1@ == bytes.subrange(672, 704)
    &&& p.eval_s2@ == bytes.subrange(704, 736)
    &&& p.eval_zw@ == bytes.subrange(736, 768)
}

/// The fields of `p` concatenated in wire order.
pub open spec fn proof_concat(p: PlonkProof) -> Seq<u8> {
    p.a@ + p.b@ + p.c@ + p.z@ + p.t1@ + p.t2@ + p.t3@ + p.w_xi@ + p.w_xiw@ + p.eval_a@ + p.eval_b@
        + p.eval_c@ + p.eval_s1@ + p.eval_s2@ + p.eval_zw@
}

/// Concatenating the parsed fields gives back the parsed bytes.
pub proof fn lemma_proof_reassembles(p: PlonkProof, bytes: Seq<u8>)
    requires
        proof_layout(p, bytes),
    ensures
        proof_concat(p) == bytes,
{
    assert(proof_concat(p) =~= bytes);
}

/// The contents of a byte-vector result.
pub open spec fn vec_view(r: Result<Vec<u8>, OnChainError>) -> Result<Seq<u8>, OnChainError> {
    match r {
        Ok(v) => Ok(v@),
        Err(e) => Err(e),
    }
}

/// The canonical proof the backend's decompression makes of a 480-byte
/// compressed proof: the nine decompressed commitments, then the scalars.
pub open spec fn decompress_proof_spec<B: SyscallBackend + ?Sized>(b: &B, c: Seq<u8>) -> Result<
    Seq<u8>,
    OnChainError,
> {
    match decompress_run(b, c, 0, 9) {
        Ok(pts) => Ok(pts + c.subrange(288, 480)),
        Err(e) => Err(e),
    }
}

/// The compressed proof the backend's compression makes of a 768-byte
/// canonical proof.
pub open spec fn compress_proof_spec<B: SyscallBackend + ?Sized>(b: &B, c: Seq<u8>) -> Result<
    Seq<u8>,
    OnChainError,
> {
    match compress_run(b, c, 0, 9) {
        Ok(pts) => Ok(pts + c.subrange(576, 768)),
        Err(e) => Err(e),
    }
}

/// Decompressing a compressed canonical proof gives the proof back, byte
/// for byte, for a backend that inverts its own compression on the proof's
/// nine points; the compressed form is 480 bytes.
pub proof fn lemma_proof_compress_roundtrip<B: SyscallBackend + ?Sized>(b: &B, c: Seq<u8>)
    requires
        c.len() == 768,
        compress_proof_spec(b, c) is Ok,
        inverts_on(b, c, 0, 9),
    ensures
        compress_proof_spec(b, c)->Ok_0.len() == 480,
        decompress_proof_spec(b, compress_proof_spec(b, c)->Ok_0) == Ok::<Seq<u8>, OnChainError>(c),
{
    let cr = compress_run(b, c, 0, 9)->Ok_0;
    lemma_compress_run_len(b, c, 0, 9);
    let z = cr + c.subrange(576, 768);
    assert(compress_proof_spec(b, c)->Ok_0 == z);
    assert(z.subrange(0, 288) =~= cr);
    lemma_run_roundtrip(b, c, 0, 9, z, 0);
    assert(z.subrange(288, 480) =~= c.subrange(576, 768));
    assert(c.subrange(0, 576) + c.subrange(576, 768) =~= c);
}

impl<'a> PlonkProof<'a> {
    /// Parse a canonical proof. Only the length is validated.
    pub fn from_bytes(bytes: &'a [u8]) -> (res: Result<Self, OnChainError>)
        ensures
            res is Ok <==> bytes@.len() == PROOF_LEN,
            res is Err ==> res == Err::<Self, OnChainError>(OnChainError::ProofLengthMismatch),
            res matches Ok(p) ==> proof_layout(p, bytes@),
    {
        if bytes.len() != PROOF_LEN {
            return Err(OnChainError::ProofLengthMismatch);
        }
        Ok(PlonkProof {
            a: window(bytes, 0, 64),
            b: window(bytes, 64, 128),
            c: window(bytes, 128, 192),
            z: window(bytes, 192, 256),
            t1: window(bytes, 256, 320),
            t2: window(bytes, 320, 384),
            t3: window(bytes, 384, 448),
            w_xi: window(bytes, 448, 512),
            w_xiw: window(bytes, 512, 576),
            eval_a: window(bytes, 576, 608),
            eval_b: window(bytes, 608, 640),
            eval_c: window(bytes, 640, 672),
            eval_s1: window(bytes, 672, 704),
            eval_s2: window(bytes, 704, 736),
            eval_zw: window(bytes, 736, 768),
        })
    }

    /// Compressed proof length: 9 compressed G1 and 6 scalars.
    pub const COMPRESSED_LEN: usize = 480;

    /// Decompress a 480-byte compressed proof into the 768-byte canonical
    /// layout. The nine G1 commitments are decompressed by the backend in
    /// order; the six scalars are copied unchanged.
    pub fn decompress_to_canonical_bytes<B: SyscallBackend + ?Sized>(
        backend: &B,
        compressed: &[u8],
    ) -> (res: Result<Vec<u8>, OnChainError>)
        ensures
            compressed@.len() != 480 ==> res == Err::<Vec<u8>, OnChainError>(
                OnChainError::ProofLengthMismatch,
            ),
            compressed@.len() == 480 && res is Err ==> res == Err::<Vec<u8>, OnChainError>(
                OnChainError::AltBn128CompressionSyscallFailed,
            ),
            res matches Ok(out) ==> out@.len() == PROOF_LEN && out@.subrange(576, 768)
                == compressed@.subrange(288, 480),
            compressed@.len() == 480 ==> vec_view(res) == decompress_proof_spec(backend, compressed@),
    {
        if compressed.len() != 480 {
            return Err(OnChainError::ProofLengthMismatch);
        }
        let mut out: Vec<u8> = Vec::new();
        proof {
            lemma_decompress_run_err(backend, compressed@, 0, 9);
        }
        decompress_g1_run(backend, compressed, 0, 9, &mut out)?;
        let ghost pts = out@;
        let evals = window(compressed, 288, 480);
        push_all(&mut out, evals);
        assert(out@.subrange(576, 768) =~= compressed@.subrange(288, 480));
        assert(out@ =~= pts + compressed@.subrange(288, 480));
        Ok(out)
    }

    /// Compress a canonical 768-byte proof: the nine G1 commitments are
    /// compressed by the backend, the six scalars copied unchanged.
    pub fn compress_from_canonical_bytes<B: SyscallBackend + ?Sized>(
        backend: &B,
        canonical: &[u8],
    ) -> (res: Result<Vec<u8>, OnChainError>)
        ensures
            canonical@.len() != PROOF_LEN ==> res == Err::<Vec<u8>, OnChainError>(
                OnChainError::ProofLengthMismatch,
            ),
            canonical@.len() == PROOF_LEN && res is Err ==> res == Err::<Vec<u8>, OnChainError>(
                OnChainError::AltBn128CompressionSyscallFailed,
            ),
            res matches Ok(out) ==> out@.len() == 480 && out@.subrange(288, 480)
                == canonical@.subrange(576, 768),
            canonical@.len() == PROOF_LEN ==> vec_view(res) == compress_proof_spec(
                backend,
                canonical@,
            ),
    {
        if canonical.len() != PROOF_LEN {
            return Err(OnChainError::ProofLengthMismatch);
        }
        let mut out: Vec<u8> = Vec::new();
        proof {
            lemma_compress_run_err(backend, canonical@, 0, 9);
        }
        compress_g1_run(backend, canonical, 0, 9, &mut out)?;
        let ghost pts = out@;
        let evals = window(canonical, 576, 768);
        push_all(&mut out, evals);
        assert(out@.subrange(288, 480) =~= canonical@.subrange(576, 768));
        assert(out@ =~= pts + canonical@.subrange(576, 768));
        Ok(out)
    }
}

} // verus!

verus! {

/// PLONK verifying key (owned).
#[derive(Clone, Debug, PartialEq, Eq)]
pub struct PlonkVerifyingKey {
    /// Multiplication selector commitment.
    pub qm_g1: [u8; G1_LEN],
    /// Left selector commitment.
    pub ql_g1: [u8; G1_LEN],
    /// Right selector commitment.
    pub qr_g1: [u8; G1_LEN],
    /// Output selector commitment.
    pub qo_g1: [u8; G1_LEN],
    /// Constant selector commitment.
    pub qc_g1: [u8; G1_LEN],
    /// Permutation σ1 commitment.
    pub s1_g1: [u8; G1_LEN],
    /// Permutation σ2 commitment.
    pub s2_g1: [u8; G1_LEN],
    /// Permutation σ3 commitment.
    pub s3_g1: [u8; G1_LEN],
    /// SRS element `[x]_2` for the pairing check.
    pub x2_g2: [u8; G2_LEN],
    /// Domain power: the circuit has `2^power` rows.
    pub power: u32,
    /// First coset non-residue.
    pub k1: [u8; FR_LEN],
    /// Second coset non-residue.
    pub k2: [u8; FR_LEN],
    /// Primitive domain generator.
    pub omega: [u8; FR_LEN],
    /// Number of public inputs.
    pub n_public: u32,
}

/// Canonical encoding of a PLONK verifying key.
pub open spec fn vk_serialize(vk: PlonkVerifyingKey) -> Seq<u8> {
    vk.qm_g1@ + vk.ql_g1@ + vk.qr_g1@ + vk.qo_g1@ + vk.qc_g1@ + vk.s1_g1@ + vk.s2_g1@ + vk.s3_g1@
        + vk.x2_g2@ + u32_le_bytes(vk.power) + vk.k1@ + vk.k2@ + vk.omega@ + u32_le_bytes(
        vk.n_public,
    )
}

/// The fields of `vk` are read from the consecutive windows of `bytes`.
pub open spec fn vk_layout(vk: PlonkVerifyingKey, bytes: Seq<u8>) -> bool {
    &&& bytes.len() == 744
    &&& vk.qm_g1@ == bytes.subrange(0, 64)
    &&& vk.ql_g1@ == bytes.subrange(64, 128)
    &&& vk.qr_g1@ == bytes.subrange(128, 192)
    &&& vk.qo_g1@ == bytes.subrange(192, 256)
    &&& vk.qc_g1@ == bytes.subrange(256, 320)
    &&& vk.s1_g1@ == bytes.subrange(320, 384)
    &&& vk.s2_g1@ == bytes.subrange(384, 448)
    &&& vk.s3_g1@ == bytes.subrange(448, 512)
    &&& vk.x2_g2@ == bytes.subrange(512, 640)
    &&& vk.power == le_u32(bytes.subrange(640, 644))
    &&& vk.k1@ == bytes.subrange(644, 676)
    &&& vk.k2@ == bytes.subrange(676, 708)
    &&& vk.omega@ == bytes.subrange(708, 740)
    &&& vk.n_public == le_u32(bytes.subrange(740, 744))
}

/// Two keys agree on every field.
pub open spec fn vk_same(a: PlonkVerifyingKey, b: PlonkVerifyingKey) -> bool {
    &&& a.qm_g1@ == b.qm_g1@
    &&& a.ql_g1@ == b.ql_g1@
    &&& a.qr_g1@ == b.qr_g1@
    &&& a.qo_g1@ == b.qo_g1@
    &&& a.qc_g1@ == b.qc_g1@
    &&& a.s1_g1@ == b.s1_g1@
    &&& a.s2_g1@ == b.s2_g1@
    &&& a.s3_g1@ == b.s3_g1@
    &&& a.x2_g2@ == b.x2_g2@
    &&& a.power == b.power
    &&& a.k1@ == b.k1@
    &&& a.k2@ == b.k2@
    &&& a.omega@ == b.omega@
    &&& a.n_public == b.n_public
}

/// Decoding the encoding of a key gives back the same key.
pub proof fn lemma_vk_decode_encode(vk: PlonkVerifyingKey, decoded: PlonkVerifyingKey)
    requires
        vk_layout(decoded, vk_serialize(vk)),
    ensures
        vk_same(decoded, vk),
{
    let s = vk_serialize(vk);
    lemma_u32_le_roundtrip(vk.power);
    lemma_u32_le_roundtrip(vk.n_public);
    assert(s.subrange(0, 64) =~= vk.qm_g1@);
    assert(s.subrange(64, 128) =~= vk.ql_g1@);
    assert(s.subrange(128, 192) =~= vk.qr_g1@);
    assert(s.subrange(192, 256) =~= vk.qo_g1@);
    assert(s.subrange(256, 320) =~= vk.qc_g1@);
    assert(s.subrange(320, 384) =~= vk.s1_g1@);
    assert(s.subrange(384, 448) =~= vk.s2_g1@);
    assert(s.subrange(448, 512) =~= vk.s3_g1@);
    assert(s.subrange(512, 640) =~= vk.x2_g2@);
    assert(s.subrange(640, 644) =~= u32_le_bytes(vk.power));
    assert(s.subrange(644, 676) =~= vk.k1@);
    assert(s.subrange(676, 708) =~= vk.k2@);
    assert(s.subrange(708, 740) =~= vk.omega@);
    assert(s.subrange(740, 744) =~= u32_le_bytes(vk.n_public));
}

/// Encoding a decoded key gives back the decoded bytes.
pub proof fn lemma_vk_encode_decode(vk: PlonkVerifyingKey, bytes: Seq<u8>)
    requires
        vk_layout(vk, bytes),
    ensures
        vk_serialize(vk) == bytes,
{
    lemma_le_u32_roundtrip(bytes.subrange(640, 644));
    lemma_le_u32_roundtrip(bytes.subrange(740, 744));
    assert(vk_serialize(vk) =~= bytes);
}

/// The eight G1 commitments of a key, in wire order.
pub open spec fn vk_g1_points(vk: PlonkVerifyingKey) -> Seq<Seq<u8>> {
    seq![vk.qm_g1@, vk.ql_g1@, vk.qr_g1@, vk.qo_g1@, vk.qc_g1@, vk.s1_g1@, vk.s2_g1@, vk.s3_g1@]
}

/// The backend decompresses all nine points of a 424-byte compressed key.
pub open spec fn cvk_points_ok<B: SyscallBackend + ?Sized>(b: &B, c: Seq<u8>) -> bool {
    &&& forall|i: int| 0 <= i < 8 ==> #[trigger] decompress_g1_spec(b, c.subrange(32 * i, 32 * i + 32)) is Ok
    &&& decompress_g2_spec(b, c.subrange(256, 320)) is Ok
}

/// `c` is a compressed encoding of `vk` by the backend: the eight G1
/// commitments and `[x]₂` compressed, then the scalars and counters as-is.
pub open spec fn vk_compressed_as<B: SyscallBackend + ?Sized>(
    b: &B,
    vk: PlonkVerifyingKey,
    c: Seq<u8>,
) -> bool {
    &&& c.len() == 424
    &&& c.subrange(320, 424) == u32_le_bytes(vk.power) + vk.k1@ + vk.k2@ + vk.omega@
        + u32_le_bytes(vk.n_public)
    &&& forall|i: int|
        0 <= i < 8 ==> #[trigger] compress_g1_spec(b, vk_g1_points(vk)[i]) == Ok::<
            Seq<u8>,
            OnChainError,
        >(c.subrange(32 * i, 32 * i + 32))
    &&& compress_g2_spec(b, vk.x2_g2@) == Ok::<Seq<u8>, OnChainError>(c.subrange(256, 320))
}

/// `vk` is decoded from the compressed key `c` by the backend: each point
/// is the decompression of its window, the scalars and counters are read
/// as-is.
pub open spec fn vk_decompressed_as<B: SyscallBackend + ?Sized>(
    b: &B,
    c: Seq<u8>,
    vk: PlonkVerifyingKey,
) -> bool {
    &&& forall|i: int|
        0 <= i < 8 ==> #[trigger] decompress_g1_spec(b, c.subrange(32 * i, 32 * i + 32)) == Ok::<
            Seq<u8>,
            OnChainError,
        >(vk_g1_points(vk)[i])
    &&& decompress_g2_spec(b, c.subrange(256, 320)) == Ok::<Seq<u8>, OnChainError>(vk.x2_g2@)
    &&& vk.power == le_u32(c.subrange(320, 324))
    &&& vk.k1@ == c.subrange(324, 356)
    &&& vk.k2@ == c.subrange(356, 388)
    &&& vk.omega@ == c.subrange(388, 420)
    &&& vk.n_public == le_u32(c.subrange(420, 424))
}

/// The backend decompresses its own compression of every point of `vk`
/// back to that point.
pub open spec fn vk_points_invert<B: SyscallBackend + ?Sized>(b: &B, vk: PlonkVerifyingKey) -> bool {
    &&& forall|i: int|
        0 <= i < 8 ==> #[trigger] compress_g1_spec(b, vk_g1_points(vk)[i]) is Ok
            ==> decompress_g1_spec(b, compress_g1_spec(b, vk_g1_points(vk)[i])->Ok_0) == Ok::<
            Seq<u8>,
            OnChainError,
        >(vk_g1_points(vk)[i])
    &&& compress_g2_spec(b, vk.x2_g2@) is Ok ==> decompress_g2_spec(
        b,
        compress_g2_spec(b, vk.x2_g2@)->Ok_0,
    ) == Ok::<Seq<u8>, OnChainError>(vk.x2_g2@)
}

/// Decompressing a compressed key gives the key back, for a backend that
/// inverts its own compression on the key's points: decoding succeeds, and
/// every decoded field equals the original's.
pub proof fn lemma_vk_compress_roundtrip<B: SyscallBackend + ?Sized>(
    b: &B,
    vk: PlonkVerifyingKey,
    c: Seq<u8>,
    decoded: PlonkVerifyingKey,
)
    requires
        vk_compressed_as(b, vk, c),
        vk_points_invert(b, vk),
        vk_decompressed_as(b, c, decoded),
    ensures
        cvk_points_ok(b, c),
        vk_g1_points(decoded) == vk_g1_points(vk),
        decoded.x2_g2@ == vk.x2_g2@,
        decoded.power == vk.power,
        decoded.k1@ == vk.k1@,
        decoded.k2@ == vk.k2@,
        decoded.omega@ == vk.omega@,
        decoded.n_public == vk.n_public,
        vk_serialize(decoded) == vk_serialize(vk),
{
    assert forall|i: int|
        #![trigger decompress_g1_spec(b, c.subrange(32 * i, 32 * i + 32))]
        #![trigger vk_g1_points(decoded)[i]]
        0 <= i < 8 implies decompress_g1_spec(b, c.subrange(32 * i, 32 * i + 32)) is Ok
        && vk_g1_points(decoded)[i] == vk_g1_points(vk)[i] by {
        assert(compress_g1_spec(b, vk_g1_points(vk)[i]) == Ok::<Seq<u8>, OnChainError>(
            c.subrange(32 * i, 32 * i + 32),
        ));
    }
    assert(vk_g1_points(decoded) =~= vk_g1_points(vk));
    lemma_u32_le_roundtrip(vk.power);
    lemma_u32_le_roundtrip(vk.n_public);
    let tail = c.subrange(320, 424);
    assert(c.subrange(320, 324) =~= tail.subrange(0, 4));
    assert(c.subrange(324, 356) =~= tail.subrange(4, 36));
    assert(c.subrange(356, 388) =~= tail.subrange(36, 68));
    assert(c.subrange(388, 420) =~= tail.subrange(68, 100));
    assert(c.subrange(420, 424) =~= tail.subrange(100, 104));
    assert(tail.subrange(0, 4) =~= u32_le_bytes(vk.power));
    assert(tail.subrange(4, 36) =~= vk.k1@);
    assert(tail.subrange(36, 68) =~= vk.k2@);
    assert(tail.subrange(68, 100) =~= vk.omega@);
    assert(tail.subrange(100, 104) =~= u32_le_bytes(vk.n_public));
    let g = vk_g1_points(vk);
    let h = vk_g1_points(decoded);
    assert(h[0] == g[0] && h[1] == g[1] && h[2] == g[2] && h[3] == g[3]);
    assert(h[4] == g[4] && h[5] == g[5] && h[6] == g[6] && h[7] == g[7]);
    assert(vk_serialize(decoded) =~= vk_serialize(vk));
}

impl PlonkVerifyingKey {
    /// Serialized header length.
    pub fn serialized_len(&self) -> (n: usize)
        ensures
            n == VK_HEADER_LEN,
            n == vk_serialize(*self).len(),
    {
        proof {
            lemma_u32_le_roundtrip(self.power);
            lemma_u32_le_roundtrip(self.n_public);
        }
        VK_HEADER_LEN
    }

    /// Decode from the canonical 744-byte header. Only the length is
    /// validated; curve membership is checked by the backend when used.
    pub fn from_bytes(bytes: &[u8]) -> (res: Result<Self, OnChainError>)
        ensures
            res is Ok <==> bytes@.len() == VK_HEADER_LEN,
            res is Err ==> res == Err::<Self, OnChainError>(
                OnChainError::VerifyingKeyLengthMismatch,
            ),
            res matches Ok(vk) ==> vk_layout(vk, bytes@),
    {
        if bytes.len() != VK_HEADER_LEN {
            return Err(OnChainError::VerifyingKeyLengthMismatch);
        }
        Ok(PlonkVerifyingKey {
            qm_g1: copy64(bytes, 0),
            ql_g1: copy64(bytes, 64),
            qr_g1: copy64(bytes, 128),
            qo_g1: copy64(bytes, 192),
            qc_g1: copy64(bytes, 256),
            s1_g1: copy64(bytes, 320),
            s2_g1: copy64(bytes, 384),
            s3_g1: copy64(bytes, 448),
            x2_g2: copy128(bytes, 512),
            power: read_u32_le(bytes, 640),
            k1: copy32(bytes, 644),
            k2: copy32(bytes, 676),
            omega: copy32(bytes, 708),
            n_public: read_u32_le(bytes, 740),
        })
    }

    /// Encode to the canonical 744-byte header.
    pub fn to_bytes(&self) -> (out: Vec<u8>)
        ensures
            out@ == vk_serialize(*self),
            out@.len() == VK_HEADER_LEN,
    {
        let mut out: Vec<u8> = Vec::new();
        push_all(&mut out, &self.qm_g1);
        push_all(&mut out, &self.ql_g1);
        push_all(&mut out, &self.qr_g1);
        push_all(&mut out, &self.qo_g1);
        push_all(&mut out, &self.qc_g1);
        push_all(&mut out, &self.s1_g1);
        push_all(&mut out, &self.s2_g1);
        push_all(&mut out, &self.s3_g1);
        push_all(&mut out, &self.x2_g2);
        push_all(&mut out, &u32_to_le_bytes(self.power));
        push_all(&mut out, &self.k1);
        push_all(&mut out, &self.k2);
        push_all(&mut out, &self.omega);
        push_all(&mut out, &u32_to_le_bytes(self.n_public));
        proof {
            lemma_u32_le_roundtrip(self.power);
            lemma_u32_le_roundtrip(self.n_public);
            assert(out@ =~= vk_serialize(*self));
        }
        out
    }

    /// Compressed key length: 8 compressed G1, 1 compressed G2, the three
    /// scalars and the two counters.
    pub const COMPRESSED_LEN: usize = 424;

    /// Decode a compressed key. G1 and G2 points are decompressed by the
    /// backend; `power`, `k1`, `k2`, `omega` and `n_public` are read as-is.
    pub fn from_compressed_bytes<B: SyscallBackend + ?Sized>(backend: &B, bytes: &[u8]) -> (res:
        Result<Self, OnChainError>)
        ensures
            bytes@.len() != 424 ==> res == Err::<Self, OnChainError>(
                OnChainError::VerifyingKeyLengthMismatch,
            ),
            bytes@.len() == 424 && res is Err ==> res == Err::<Self, OnChainError>(
                OnChainError::AltBn128CompressionSyscallFailed,
            ),
            bytes@.len() == 424 ==> (res is Ok <==> cvk_points_ok(backend, bytes@)),
            res matches Ok(vk) ==> vk_decompressed_as(backend, bytes@, vk),
    {
        if bytes.len() != 424 {
            return Err(OnChainError::VerifyingKeyLengthMismatch);
        }
        let qm_g1 = match decompress_g1(backend, &copy32(bytes, 0)) {
            Ok(p) => p,
            Err(e) => {
                proof {
                    let w = 0int;
                    assert(decompress_g1_spec(backend, bytes@.subrange(32 * w, 32 * w + 32)) is Err);
                }
                return Err(e);
            },
        };
        let ql_g1 = match decompress_g1(backend, &copy32(bytes, 32)) {
            Ok(p) => p,
            Err(e) => {
                proof {
                    let w = 1int;
                    assert(decompress_g1_spec(backend, bytes@.subrange(32 * w, 32 * w + 32)) is Err);
                }
                return Err(e);
            },
        };
        let qr_g1 = match decompress_g1(backend, &copy32(bytes, 64)) {
            Ok(p) => p,
            Err(e) => {
                proof {
                    let w = 2int;
                    assert(decompress_g1_spec(backend, bytes@.subrange(32 * w, 32 * w + 32)) is Err);
                }
                return Err(e);
            },
        };
        let qo_g1 = match decompress_g1(backend, &copy32(bytes, 96)) {
            Ok(p) => p,
            Err(e) => {
                proof {
                    let w = 3int;
                    assert(decompress_g1_spec(backend, bytes@.subrange(32 * w, 32 * w + 32)) is Err);
                }
                return Err(e);
            },
        };
        let qc_g1 = match decompress_g1(backend, &copy32(bytes, 128)) {
            Ok(p) => p,
            Err(e) => {
                proof {
                    let w = 4int;
                    assert(decompress_g1_spec(backend, bytes@.subrange(32 * w, 32 * w + 32)) is Err);
                }
                return Err(e);
            },
        };
        let s1_g1 = match decompress_g1(backend, &copy32(bytes, 160)) {
            Ok(p) => p,
            Err(e) => {
                proof {
                    let w = 5int;
                    assert(decompress_g1_spec(backend, bytes@.subrange(32 * w, 32 * w + 32)) is Err);
                }
                return Err(e);
            },
        };
        let s2_g1 = match decompress_g1(backend, &copy32(bytes, 192)) {
            Ok(p) => p,
            Err(e) => {
                proof {
                    let w = 6int;
                    assert(decompress_g1_spec(backend, bytes@.subrange(32 * w, 32 * w + 32)) is Err);
                }
                return Err(e);
            },
        };
        let s3_g1 = match decompress_g1(backend, &copy32(bytes, 224)) {
            Ok(p) => p,
            Err(e) => {
                proof {
                    let w = 7int;
                    assert(decompress_g1_spec(backend, bytes@.subrange(32 * w, 32 * w + 32)) is Err);
                }
                return Err(e);
            },
        };
        let x2_g2 = decompress_g2(backend, &copy64(bytes, 256))?;
        proof {
            let pts = seq![qm_g1@, ql_g1@, qr_g1@, qo_g1@, qc_g1@, s1_g1@, s2_g1@, s3_g1@];
            assert forall|i: int| 0 <= i < 8 implies #[trigger] decompress_g1_spec(
                backend,
                bytes@.subrange(32 * i, 32 * i + 32),
            ) == Ok::<Seq<u8>, OnChainError>(pts[i]) by {
                if i == 0 {} else if i == 1 {} else if i == 2 {} else if i == 3 {} else if i == 4 {
                } else if i == 5 {} else if i == 6 {} else {}
            }
        }
        Ok(PlonkVerifyingKey {
            qm_g1,
            ql_g1,
            qr_g1,
            qo_g1,
            qc_g1,
            s1_g1,
            s2_g1,
            s3_g1,
            x2_g2,
            power: read_u32_le(bytes, 320),
            k1: copy32(bytes, 324),
            k2: copy32(bytes, 356),
            omega: copy32(bytes, 388),
            n_public: read_u32_le(bytes, 420),
        })
    }

    /// Encode in compressed form (424 bytes).
    pub fn to_compressed_bytes<B: SyscallBackend + ?Sized>(&self, backend: &B) -> (res: Result<
        Vec<u8>,
        OnChainError,
    >)
        ensures
            res is Err ==> res == Err::<Vec<u8>, OnChainError>(
                OnChainError::AltBn128CompressionSyscallFailed,
            ),
            res matches Ok(out) ==> vk_compressed_as(backend, *self, out@),
            ((forall|i: int|
                0 <= i < 8 ==> #[trigger] compress_g1_spec(backend, vk_g1_points(*self)[i]) is Ok)
                && compress_g2_spec(backend, self.x2_g2@) is Ok) ==> res is Ok,
    {
        proof {
            let _ = vk_g1_points(*self)[0];
            assert(compress_g1_spec(backend, vk_g1_points(*self)[0]) == compress_g1_spec(backend, self.qm_g1@));
            assert(compress_g1_spec(backend, vk_g1_points(*self)[1]) == compress_g1_spec(backend, self.ql_g1@));
            assert(compress_g1_spec(backend, vk_g1_points(*self)[2]) == compress_g1_spec(backend, self.qr_g1@));
            assert(compress_g1_spec(backend, vk_g1_points(*self)[3]) == compress_g1_spec(backend, self.qo_g1@));
            assert(compress_g1_spec(backend, vk_g1_points(*self)[4]) == compress_g1_spec(backend, self.qc_g1@));
            assert(compress_g1_spec(backend, vk_g1_points(*self)[5]) == compress_g1_spec(backend, self.s1_g1@));
            assert(compress_g1_spec(backend, vk_g1_points(*self)[6]) == compress_g1_spec(backend, self.s2_g1@));
            assert(compress_g1_spec(backend, vk_g1_points(*self)[7]) == compress_g1_spec(backend, self.s3_g1@));
        }
        let c0 = compress_g1(backend, &self.qm_g1)?;
        let c1 = compress_g1(backend, &self.ql_g1)?;
        let c2 = compress_g1(backend, &self.qr_g1)?;
        let c3 = compress_g1(backend, &self.qo_g1)?;
        let c4 = compress_g1(backend, &self.qc_g1)?;
        let c5 = compress_g1(backend, &self.s1_g1)?;
        let c6 = compress_g1(backend, &self.s2_g1)?;
        let c7 = compress_g1(backend, &self.s3_g1)?;
        let cg = compress_g2(backend, &self.x2_g2)?;
        let mut out: Vec<u8> = Vec::new();
        push_all(&mut out, &c0);
        push_all(&mut out, &c1);
        push_all(&mut out, &c2);
        push_all(&mut out, &c3);
        push_all(&mut out, &c4);
        push_all(&mut out, &c5);
        push_all(&mut out, &c6);
        push_all(&mut out, &c7);
        push_all(&mut out, &cg);
        let ghost head = out@;
        proof {
            let cs = seq![c0@, c1@, c2@, c3@, c4@, c5@, c6@, c7@];
            assert(head =~= c0@ + c1@ + c2@ + c3@ + c4@ + c5@ + c6@ + c7@ + cg@);
            assert forall|i: int| 0 <= i < 8 implies #[trigger] head.subrange(32 * i, 32 * i + 32) == cs[i] by {
                if i == 0 {
                    assert(head.subrange(0, 32) =~= c0@);
                } else if i == 1 {
                    assert(head.subrange(32, 64) =~= c1@);
                } else if i == 2 {
                    assert(head.subrange(64, 96) =~= c2@);
                } else if i == 3 {
                    assert(head.subrange(96, 128) =~= c3@);
                } else if i == 4 {
                    assert(head.subrange(128, 160) =~= c4@);
                } else if i == 5 {
                    assert(head.subrange(160, 192) =~= c5@);
                } else if i == 6 {
                    assert(head.subrange(192, 224) =~= c6@);
                } else {
                    assert(head.subrange(224, 256) =~= c7@);
                }
            }
            assert(head.subrange(256, 320) =~= cg@);
        }
        push_all(&mut out, &u32_to_le_bytes(self.power));
        push_all(&mut out, &self.k1);
        push_all(&mut out, &self.k2);
        push_all(&mut out, &self.omega);
        push_all(&mut out, &u32_to_le_bytes(self.n_public));
        proof {
            lemma_u32_le_roundtrip(self.power);
            lemma_u32_le_roundtrip(self.n_public);
            assert(out@.subrange(320, 424) =~= u32_le_bytes(self.power) + self.k1@ + self.k2@
                + self.omega@ + u32_le_bytes(self.n_public));
            assert(out@.subrange(0, 320) =~= head);
            assert forall|i: int| 0 <= i < 8 implies #[trigger] out@.subrange(32 * i, 32 * i + 32)
                == head.subrange(32 * i, 32 * i + 32) by {
                assert(out@.subrange(32 * i, 32 * i + 32) =~= head.subrange(32 * i, 32 * i + 32));
            }
            assert(out@.subrange(256, 320) =~= head.subrange(256, 320));
        }
        Ok(out)
    }
}

} // verus!
