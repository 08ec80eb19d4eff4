//! Halo2-KZG canonical byte layout.
//!
//! Proof: a 20-byte header of five little-endian `u32` counters
//! (`n_advice`, `n_lookups`, `n_quotient`, `n_evals`, `lookup_arity`),
//! then `n_advice` advice commitments, `n_lookups` lookup commitments,
//! the permutation commitment, `n_quotient` quotient chunks (all G1),
//! `n_evals` scalar evaluations, and the openings `W_ξ`, `W_ξω`.
use vstd::prelude::*;
use crate::bytes::{
    chunk_at, chunks_exact, copy128, copy32, copy64, le_u32, lemma_le_u32_roundtrip,
    lemma_u32_le_roundtrip, push_all, read_u32_le, u32_le_bytes, u32_to_le_bytes, window,
};
use crate::compression::{
    bytes_result, compress_g1, compress_g1_run, compress_g2, compress_g2_spec, compress_run, decompress_g2_spec, decompress_g1, decompress_g1_run,
    decompress_g2, decompress_run, inverts_on, lemma_compress_run_len, lemma_decompress_run_len,
    lemma_run_roundtrip, lemma_compress_run_err, lemma_decompress_run_err, G1_COMPRESSED_LEN, G1_LEN, G2_LEN,
};
use crate::error::OnChainError;
use crate::fr::FR_LEN;
use crate::syscall::SyscallBackend;

verus! {

/// Length of the proof header (five `u32` counters).
pub const FIXED_HEADER_LEN: usize = 20;
/// Cap on advice columns.
pub const MAX_ADVICE_COLUMNS: u32 = 64;
/// Cap on lookup arguments.
pub const MAX_LOOKUPS: u32 = 32;
/// Cap on quotient chunks.
pub const MAX_QUOTIENT_CHUNKS: u32 = 32;
/// Cap on evaluations at ξ.
pub const MAX_EVALUATIONS: u32 = 256;
/// Cap on lookup arity.
pub const MAX_LOOKUP_ARITY: u32 = 16;
/// Arity used when the header declares 0.
pub const DEFAULT_LOOKUP_ARITY: u32 = 1;

// ---------------------------------------------------------------------
// Header fields of a byte string.

pub open spec fn hdr_n_advice(b: Seq<u8>) -> nat {
    le_u32(b.subrange(0, 4))
}

pub open spec fn hdr_n_lookups(b: Seq<u8>) -> nat {
    le_u32(b.subrange(4, 8))
}

pub open spec fn hdr_n_quotient(b: Seq<u8>) -> nat {
    le_u32(b.subrange(8, 12))
}

pub open spec fn hdr_n_evals(b: Seq<u8>) -> nat {
    le_u32(b.subrange(12, 16))
}

/// Declared lookup arity, with 0 read as the default arity 1.
pub open spec fn hdr_arity(b: Seq<u8>) -> nat {
    if le_u32(b.subrange(16, 20)) == 0 {
        1
    } else {
        le_u32(b.subrange(16, 20))
    }
}

/// Every counter is within its cap.
pub open spec fn hdr_within_caps(b: Seq<u8>) -> bool {
    &&& hdr_n_advice(b) <= 64
    &&& hdr_n_lookups(b) <= 32
    &&& hdr_n_quotient(b) <= 32
    &&& hdr_n_evals(b) <= 256
    &&& hdr_arity(b) <= 16
}

/// For arity ≥ 2 every lookup reserves `2·arity` advice columns (at least
/// one lookup is assumed).
pub open spec fn hdr_advice_reserve_ok(b: Seq<u8>) -> bool {
    hdr_arity(b) >= 2 ==> hdr_n_advice(b) >= 2 * hdr_arity(b) * (if hdr_n_lookups(b) == 0 {
        1
    } else {
        hdr_n_lookups(b)
    })
}

/// Canonical proof length for the given counters.
pub open spec fn proof_len_for(na: nat, nl: nat, nq: nat, ne: nat) -> nat {
    20 + 64 * na + 64 * nl + 64 + 64 * nq + 32 * ne + 128
}

/// Compressed proof length for the given counters.
pub open spec fn compressed_len_for(na: nat, nl: nat, nq: nat, ne: nat) -> nat {
    20 + 32 * na + 32 * nl + 32 + 32 * nq + 32 * ne + 64
}

/// Canonical length declared by the header of `b`.
pub open spec fn hdr_proof_len(b: Seq<u8>) -> nat {
    proof_len_for(hdr_n_advice(b), hdr_n_lookups(b), hdr_n_quotient(b), hdr_n_evals(b))
}

/// Compressed length declared by the header of `b`.
pub open spec fn hdr_compressed_len(b: Seq<u8>) -> nat {
    compressed_len_for(hdr_n_advice(b), hdr_n_lookups(b), hdr_n_quotient(b), hdr_n_evals(b))
}

/// `b` is a well-formed canonical proof.
pub open spec fn proof_accepts(b: Seq<u8>) -> bool {
    &&& b.len() >= 212
    &&& hdr_within_caps(b)
    &&& hdr_advice_reserve_ok(b)
    &&& b.len() == hdr_proof_len(b)
}

/// Borrowed view of a Halo2-KZG proof.
#[derive(Clone, Copy, Debug, PartialEq, Eq)]
pub struct Halo2KzgProof<'a> {
    /// Advice column commitment count.
    pub n_advice: u32,
    /// Lookup argument count.
    pub n_lookups: u32,
    /// Quotient chunk count.
    pub n_quotient: u32,
    /// Evaluation count at ξ.
    pub n_evals: u32,
    /// Lookup arity (a declared 0 reads as 1).
    pub lookup_arity: u32,
    /// Advice commitments, `64 · n_advice` bytes.
    pub advice_commits: &'a [u8],
    /// Lookup `m` commitments, `64 · n_lookups` bytes.
    pub lookup_commits: &'a [u8],
    /// Permutation grand-product commitment.
    pub permutation_z: &'a [u8],
    /// Quotient chunk commitments, `64 · n_quotient` bytes.
    pub quotient_chunks: &'a [u8],
    /// Evaluations at ξ, `32 · n_evals` bytes.
    pub evaluations: &'a [u8],
    /// Opening at ξ.
    pub w_xi: &'a [u8],
    /// Opening at ξω.
    pub w_xiw: &'a [u8],
}

/// The fields of `p` are those the header of `b` declares, read from the
/// consecutive windows of `b`.
pub open spec fn proof_layout(p: Halo2KzgProof, b: Seq<u8>) -> bool {
    let na = hdr_n_advice(b);
    let nl = hdr_n_lookups(b);
    let nq = hdr_n_quotient(b);
    let ne = hdr_n_evals(b);
    let o1 = 20 + 64 * na;
    let o2 = o1 + 64 * nl;
    let o3 = o2 + 64;
    let o4 = o3 + 64 * nq;
    let o5 = o4 + 32 * ne;
    &&& p.n_advice == na
    &&& p.n_lookups == nl
    &&& p.n_quotient == nq
    &&& p.n_evals == ne
    &&& p.lookup_arity == hdr_arity(b)
    &&& p.advice_commits@ == b.subrange(20, o1 as int)
    &&& p.lookup_commits@ == b.subrange(o1 as int, o2 as int)
    &&& p.permutation_z@ == b.subrange(o2 as int, o3 as int)
    &&& p.quotient_chunks@ == b.subrange(o3 as int, o4 as int)
    &&& p.evaluations@ == b.subrange(o4 as int, o5 as int)
    &&& p.w_xi@ == b.subrange(o5 as int, o5 + 64int)
    &&& p.w_xiw@ == b.subrange(o5 + 64int, o5 + 128int)
}

/// The evaluation window of the canonical proof `b`, as its header places it.
pub open spec fn hdr_evaluations(b: Seq<u8>) -> Seq<u8> {
    let o4 = 20 + 64 * hdr_n_advice(b) + 64 * hdr_n_lookups(b) + 64 + 64 * hdr_n_quotient(b);
    b.subrange(o4 as int, (o4 + 32 * hdr_n_evals(b)) as int)
}

/// Header counters read from `b`, with the arity default applied.
fn read_header(b: &[u8]) -> (res: (u32, u32, u32, u32, u32))
    requires
        b@.len() >= 20,
    ensures
        res.0 == hdr_n_advice(b@),
        res.1 == hdr_n_lookups(b@),
        res.2 == hdr_n_quotient(b@),
        res.3 == hdr_n_evals(b@),
        res.4 == hdr_arity(b@),
{
    let n_advice = read_u32_le(b, 0);
    let n_lookups = read_u32_le(b, 4);
    let n_quotient = read_u32_le(b, 8);
    let n_evals = read_u32_le(b, 12);
    let arity_raw = read_u32_le(b, 16);
    let lookup_arity = if arity_raw == 0 {
        DEFAULT_LOOKUP_ARITY
    } else {
        arity_raw
    };
    (n_advice, n_lookups, n_quotient, n_evals, lookup_arity)
}

impl<'a> Halo2KzgProof<'a> {
    /// Parse a canonical proof, validating the counters against their caps,
    /// the advice reservation for multi-column lookups, and the exact
    /// length the header implies.
    pub fn from_bytes(bytes: &'a [u8]) -> (res: Result<Self, OnChainError>)
        ensures
            res is Ok <==> proof_accepts(bytes@),
            res is Err ==> res == Err::<Self, OnChainError>(OnChainError::ProofLengthMismatch),
            res matches Ok(p) ==> proof_layout(p, bytes@),
    {
        if bytes.len() < FIXED_HEADER_LEN + G1_LEN + 2 * G1_LEN {
            return Err(OnChainError::ProofLengthMismatch);
        }
        let (n_advice, n_lookups, n_quotient, n_evals, lookup_arity) = read_header(bytes);
        if n_advice > MAX_ADVICE_COLUMNS || n_lookups > MAX_LOOKUPS || n_quotient
            > MAX_QUOTIENT_CHUNKS || n_evals > MAX_EVALUATIONS || lookup_arity > MAX_LOOKUP_ARITY {
            return Err(OnChainError::ProofLengthMismatch);
        }
        if lookup_arity >= 2 {
            let lookups = if n_lookups == 0 {
                1u64
            } else {
                n_lookups as u64
            };
            assert((lookup_arity as u64) * 2 * lookups <= 16 * 2 * 32) by (nonlinear_arith)
                requires
                    lookup_arity <= 16,
                    lookups <= 32,
            ;
            let reserved = (lookup_arity as u64) * 2 * lookups;
            if (n_advice as u64) < reserved {
                return Err(OnChainError::ProofLengthMismatch);
            }
        }
        let advice_len = (n_advice as usize) * G1_LEN;
        let lookup_len = (n_lookups as usize) * G1_LEN;
        let quotient_len = (n_quotient as usize) * G1_LEN;
        let evals_len = (n_evals as usize) * FR_LEN;
        let expected_len = FIXED_HEADER_LEN + advice_len + lookup_len + G1_LEN + quotient_len
            + evals_len + 2 * G1_LEN;
        if bytes.len() != expected_len {
            return Err(OnChainError::ProofLengthMismatch);
        }
        let o1 = FIXED_HEADER_LEN + advice_len;
        let o2 = o1 + lookup_len;
        let o3 = o2 + G1_LEN;
        let o4 = o3 + quotient_len;
        let o5 = o4 + evals_len;
        Ok(Halo2KzgProof {
            n_advice,
            n_lookups,
            n_quotient,
            n_evals,
            lookup_arity,
            advice_commits: window(bytes, FIXED_HEADER_LEN, o1),
            lookup_commits: window(bytes, o1, o2),
            permutation_z: window(bytes, o2, o3),
            quotient_chunks: window(bytes, o3, o4),
            evaluations: window(bytes, o4, o5),
            w_xi: window(bytes, o5, o5 + G1_LEN),
            w_xiw: window(bytes, o5 + G1_LEN, o5 + 2 * G1_LEN),
        })
    }

    /// Advice commitments as 64-byte windows.
    pub fn advice_iter(&self) -> (res: Vec<&'a [u8]>)
        ensures
            res@.len() == self.advice_commits@.len() / 64,
            forall|i: int|
                0 <= i < res@.len() ==> (#[trigger] res@[i])@ == chunk_at(
                    self.advice_commits@,
                    64,
                    i,
                ),
    {
        chunks_exact(self.advice_commits, G1_LEN)
    }

    /// Quotient chunk commitments as 64-byte windows.
    pub fn quotient_iter(&self) -> (res: Vec<&'a [u8]>)
        ensures
            res@.len() == self.quotient_chunks@.len() / 64,
            forall|i: int|
                0 <= i < res@.len() ==> (#[trigger] res@[i])@ == chunk_at(
                    self.quotient_chunks@,
                    64,
                    i,
                ),
    {
        chunks_exact(self.quotient_chunks, G1_LEN)
    }

    /// Evaluations as 32-byte windows.
    pub fn evaluations_iter(&self) -> (res: Vec<&'a [u8]>)
        ensures
            res@.len() == self.evaluations@.len() / 32,
            forall|i: int|
                0 <= i < res@.len() ==> (#[trigger] res@[i])@ == chunk_at(
                    self.evaluations@,
                    32,
                    i,
                ),
    {
        chunks_exact(self.evaluations, FR_LEN)
    }
}

} // verus!

verus! {

/// `b` is a well-formed compressed proof.
pub open spec fn compressed_accepts(b: Seq<u8>) -> bool {
    &&& b.len() >= 116
    &&& hdr_within_caps(b)
    &&& b.len() == hdr_compressed_len(b)
}

/// The contents of a byte-vector result.
pub open spec fn vec_result(r: Result<Vec<u8>, OnChainError>) -> Result<Seq<u8>, OnChainError> {
    match r {
        Ok(v) => Ok(v@),
        Err(e) => Err(e),
    }
}

/// Number of G1 commitments before the evaluations of a proof.
pub open spec fn hdr_n_points(b: Seq<u8>) -> nat {
    hdr_n_advice(b) + hdr_n_lookups(b) + 1 + hdr_n_quotient(b)
}

/// The canonical proof the backend's decompression makes of the compressed
/// proof `cb`: its header, the decompressed commitments, its evaluations and
/// the two decompressed openings.
pub open spec fn decompress_proof_spec<B: SyscallBackend + ?Sized>(b: &B, cb: Seq<u8>) -> Result<
    Seq<u8>,
    OnChainError,
> {
    let np = hdr_n_points(cb);
    let e_in = (20 + 32 * np) as int;
    let ne = (32 * hdr_n_evals(cb)) as int;
    match decompress_run(b, cb, 20, np) {
        Ok(pts) => match decompress_run(b, cb, e_in + ne, 2) {
            Ok(ws) => Ok(cb.subrange(0, 20) + pts + cb.subrange(e_in, e_in + ne) + ws),
            Err(e) => Err(e),
        },
        Err(e) => Err(e),
    }
}

/// The compressed proof the backend's compression makes of the canonical
/// proof `cb`.
pub open spec fn compress_proof_spec<B: SyscallBackend + ?Sized>(b: &B, cb: Seq<u8>) -> Result<
    Seq<u8>,
    OnChainError,
> {
    let np = hdr_n_points(cb);
    let e_in = (20 + 64 * np) as int;
    let ne = (32 * hdr_n_evals(cb)) as int;
    match compress_run(b, cb, 20, np) {
        Ok(pts) => match compress_run(b, cb, e_in + ne, 2) {
            Ok(ws) => Ok(cb.subrange(0, 20) + pts + cb.subrange(e_in, e_in + ne) + ws),
            Err(e) => Err(e),
        },
        Err(e) => Err(e),
    }
}

/// Decompressing a compressed canonical proof gives the proof back, byte
/// for byte, for a backend that inverts its own compression on the proof's
/// commitments and openings.
pub proof fn lemma_proof_compress_roundtrip<B: SyscallBackend + ?Sized>(b: &B, c: Seq<u8>)
    requires
        proof_accepts(c),
        compress_proof_spec(b, c) is Ok,
        inverts_on(b, c, 20, hdr_n_points(c)),
        inverts_on(b, c, (20 + 64 * hdr_n_points(c) + 32 * hdr_n_evals(c)) as int, 2),
    ensures
        compressed_accepts(compress_proof_spec(b, c)->Ok_0),
        decompress_proof_spec(b, compress_proof_spec(b, c)->Ok_0) == Ok::<Seq<u8>, OnChainError>(
            c,
        ),
{
    let np = hdr_n_points(c);
    let ne = (32 * hdr_n_evals(c)) as int;
    let e_c = (20 + 64 * np) as int;
    let e_z = (20 + 32 * np) as int;
    let cr1 = compress_run(b, c, 20, np)->Ok_0;
    let cr2 = compress_run(b, c, e_c + ne, 2)->Ok_0;
    let ev = c.subrange(e_c, e_c + ne);
    let z = c.subrange(0, 20) + cr1 + ev + cr2;
    assert(compress_proof_spec(b, c)->Ok_0 == z);
    lemma_compress_run_len(b, c, 20, np);
    lemma_compress_run_len(b, c, e_c + ne, 2);
    assert(z.len() == e_z + ne + 64);
    assert(z.subrange(0, 20) =~= c.subrange(0, 20));
    assert(z.subrange(0, 4) =~= c.subrange(0, 4));
    assert(z.subrange(4, 8) =~= c.subrange(4, 8));
    assert(z.subrange(8, 12) =~= c.subrange(8, 12));
    assert(z.subrange(12, 16) =~= c.subrange(12, 16));
    assert(z.subrange(16, 20) =~= c.subrange(16, 20));
    assert(hdr_n_points(z) == np);
    assert(hdr_n_evals(z) == hdr_n_evals(c));
    assert(compressed_accepts(z));
    assert(z.subrange(20, e_z) =~= cr1);
    lemma_run_roundtrip(b, c, 20, np, z, 20);
    assert(z.subrange(e_z + ne, e_z + ne + 64) =~= cr2);
    lemma_run_roundtrip(b, c, e_c + ne, 2, z, e_z + ne);
    assert(z.subrange(e_z, e_z + ne) =~= ev);
    assert(z.subrange(0, 20) + c.subrange(20, e_c) + ev + c.subrange(e_c + ne, e_c + ne + 128)
        =~= c);
}

impl<'a> Halo2KzgProof<'a> {
    /// Decompress a compressed proof into the canonical layout: the header
    /// and the evaluations are copied, every G1 commitment is decompressed
    /// by the backend.
    pub fn decompress_to_canonical_bytes<B: SyscallBackend + ?Sized>(
        backend: &B,
        compressed: &[u8],
    ) -> (res: Result<Vec<u8>, OnChainError>)
        ensures
            !compressed_accepts(compressed@) ==> res == Err::<Vec<u8>, OnChainError>(
                OnChainError::ProofLengthMismatch,
            ),
            compressed_accepts(compressed@) && res is Err ==> res == Err::<Vec<u8>, OnChainError>(
                OnChainError::AltBn128CompressionSyscallFailed,
            ),
            compressed_accepts(compressed@) ==> vec_result(res) == decompress_proof_spec(
                backend,
                compressed@,
            ),
            res matches Ok(out) ==> {
                let cb = compressed@;
                let e_out = 20 + 64 * (hdr_n_advice(cb) + hdr_n_lookups(cb) + 1 + hdr_n_quotient(
                    cb,
                ));
                let e_in = 20 + 32 * (hdr_n_advice(cb) + hdr_n_lookups(cb) + 1 + hdr_n_quotient(
                    cb,
                ));
                let ne = 32 * hdr_n_evals(cb);
                &&& out@.len() == hdr_proof_len(cb)
                &&& out@.subrange(0, 20) == cb.subrange(0, 20)
                &&& out@.subrange(e_out as int, (e_out + ne) as int) == cb.subrange(e_in as int, (e_in + ne) as int)
            },
    {
        if compressed.len() < FIXED_HEADER_LEN + G1_COMPRESSED_LEN + 2 * G1_COMPRESSED_LEN {
            return Err(OnChainError::ProofLengthMismatch);
        }
        let (n_advice, n_lookups, n_quotient, n_evals, lookup_arity) = read_header(compressed);
        if n_advice > MAX_ADVICE_COLUMNS || n_lookups > MAX_LOOKUPS || n_quotient
            > MAX_QUOTIENT_CHUNKS || n_evals > MAX_EVALUATIONS || lookup_arity > MAX_LOOKUP_ARITY {
            return Err(OnChainError::ProofLengthMismatch);
        }
        let na = n_advice as usize;
        let nl = n_lookups as usize;
        let nq = n_quotient as usize;
        let evals_len = (n_evals as usize) * FR_LEN;
        let expected_clen = FIXED_HEADER_LEN + na * 32 + nl * 32 + 32 + nq * 32 + evals_len + 64;
        if compressed.len() != expected_clen {
            return Err(OnChainError::ProofLengthMismatch);
        }
        let mut out: Vec<u8> = Vec::new();
        push_all(&mut out, window(compressed, 0, FIXED_HEADER_LEN));
        let ghost hdr = out@;
        // advice, lookup, permutation and quotient commitments are contiguous
        let n_points = na + nl + 1 + nq;
        let r1 = decompress_g1_run(backend, compressed, FIXED_HEADER_LEN, n_points, &mut out);
        proof {
            assert(n_points == hdr_n_points(compressed@));
            assert(evals_len == 32 * hdr_n_evals(compressed@));
            lemma_decompress_run_err(backend, compressed@, 20, n_points as nat);
        }
        if r1.is_err() {
            return Err(OnChainError::AltBn128CompressionSyscallFailed);
        }
        let e_in = FIXED_HEADER_LEN + 32 * n_points;
        let ghost before_evals = out@;
        push_all(&mut out, window(compressed, e_in, e_in + evals_len));
        let ghost after_evals = out@;
        let r2 = decompress_g1_run(backend, compressed, e_in + evals_len, 2, &mut out);
        proof {
            lemma_decompress_run_err(backend, compressed@, e_in + evals_len, 2);
        }
        if r2.is_err() {
            return Err(OnChainError::AltBn128CompressionSyscallFailed);
        }
        proof {
            assert(out@ =~= compressed@.subrange(0, 20) + decompress_run(
                backend,
                compressed@,
                20,
                n_points as nat,
            )->Ok_0 + compressed@.subrange(e_in as int, e_in + evals_len) + decompress_run(
                backend,
                compressed@,
                e_in + evals_len,
                2,
            )->Ok_0);
            assert(out@.subrange(0, 20) =~= after_evals.subrange(0, 20));
            assert(after_evals.subrange(0, 20) =~= before_evals.subrange(0, 20));
            assert(before_evals.subrange(0, 20) =~= hdr);
            let e_out = 20 + 64 * n_points;
            assert(out@.subrange(e_out as int, e_out + evals_len) =~= after_evals.subrange(
                e_out as int,
                e_out + evals_len,
            ));
        }
        Ok(out)
    }

    /// Compress a canonical proof: parsed with [`Self::from_bytes`] first,
    /// then header and evaluations copied and every G1 commitment
    /// compressed by the backend.
    pub fn compress_from_canonical_bytes<B: SyscallBackend + ?Sized>(
        backend: &B,
        canonical: &[u8],
    ) -> (res: Result<Vec<u8>, OnChainError>)
        ensures
            !proof_accepts(canonical@) ==> res == Err::<Vec<u8>, OnChainError>(
                OnChainError::ProofLengthMismatch,
            ),
            proof_accepts(canonical@) && res is Err ==> res == Err::<Vec<u8>, OnChainError>(
                OnChainError::AltBn128CompressionSyscallFailed,
            ),
            proof_accepts(canonical@) ==> vec_result(res) == compress_proof_spec(
                backend,
                canonical@,
            ),
            res matches Ok(out) ==> {
                let cb = canonical@;
                let e_out = 20 + 32 * (hdr_n_advice(cb) + hdr_n_lookups(cb) + 1 + hdr_n_quotient(
                    cb,
                ));
                let e_in = 20 + 64 * (hdr_n_advice(cb) + hdr_n_lookups(cb) + 1 + hdr_n_quotient(
                    cb,
                ));
                let ne = 32 * hdr_n_evals(cb);
                &&& out@.len() == hdr_compressed_len(cb)
                &&& out@.subrange(0, 20) == cb.subrange(0, 20)
                &&& out@.subrange(e_out as int, (e_out + ne) as int) == cb.subrange(e_in as int, (e_in + ne) as int)
            },
    {
        let proof = Halo2KzgProof::from_bytes(canonical)?;
        let na = proof.n_advice as usize;
        let nl = proof.n_lookups as usize;
        let nq = proof.n_quotient as usize;
        let evals_len = (proof.n_evals as usize) * FR_LEN;
        let mut out: Vec<u8> = Vec::new();
        push_all(&mut out, window(canonical, 0, FIXED_HEADER_LEN));
        let ghost hdr = out@;
        let n_points = na + nl + 1 + nq;
        let r1 = compress_g1_run(backend, canonical, FIXED_HEADER_LEN, n_points, &mut out);
        proof {
            assert(n_points == hdr_n_points(canonical@));
            assert(evals_len == 32 * hdr_n_evals(canonical@));
            lemma_compress_run_err(backend, canonical@, 20, n_points as nat);
        }
        if r1.is_err() {
            return Err(OnChainError::AltBn128CompressionSyscallFailed);
        }
        let e_in = FIXED_HEADER_LEN + 64 * n_points;
        let ghost before_evals = out@;
        push_all(&mut out, window(canonical, e_in, e_in + evals_len));
        let ghost after_evals = out@;
        let r2 = compress_g1_run(backend, canonical, e_in + evals_len, 2, &mut out);
        proof {
            lemma_compress_run_err(backend, canonical@, e_in + evals_len, 2);
        }
        if r2.is_err() {
            return Err(OnChainError::AltBn128CompressionSyscallFailed);
        }
        proof {
            assert(out@ =~= canonical@.subrange(0, 20) + compress_run(
                backend,
                canonical@,
                20,
                n_points as nat,
            )->Ok_0 + canonical@.subrange(e_in as int, e_in + evals_len) + compress_run(
                backend,
                canonical@,
                e_in + evals_len,
                2,
            )->Ok_0);
            assert(out@.subrange(0, 20) =~= after_evals.subrange(0, 20));
            assert(after_evals.subrange(0, 20) =~= before_evals.subrange(0, 20));
            assert(before_evals.subrange(0, 20) =~= hdr);
            let e_out = 20 + 32 * n_points;
            assert(out@.subrange(e_out as int, e_out + evals_len) =~= after_evals.subrange(
                e_out as int,
                e_out + evals_len,
            ));
        }
        Ok(out)
    }
}

} // verus!

verus! {

/// Halo2-KZG verifying key.
#[derive(Clone, Debug, PartialEq, Eq)]
pub struct Halo2KzgVerifyingKey {
    /// Circuit parameter: the domain has `2^k` rows.
    pub k: u32,
    /// Number of instance (public) values.
    pub n_instances: u32,
    /// Number of advice columns.
    pub n_advice: u32,
    /// Number of fixed columns.
    pub n_fixed: u32,
    /// SRS element `[x]_2`.
    pub x2_g2: [u8; G2_LEN],
    /// Domain generator ω (canonical big-endian scalar).
    pub omega_fr: [u8; FR_LEN],
    /// Fixed column commitments, `64 · n_fixed` bytes.
    pub fixed_commits: Vec<u8>,
    /// Permutation commitments, a multiple of 64 bytes.
    pub permutation_commits: Vec<u8>,
}

/// The 184-byte fixed portion of a key encoding.
pub open spec fn vk_head(vk: Halo2KzgVerifyingKey) -> Seq<u8> {
    u32_le_bytes(vk.k) + u32_le_bytes(vk.n_instances) + u32_le_bytes(vk.n_advice) + u32_le_bytes(
        vk.n_fixed,
    ) + vk.x2_g2@ + vk.omega_fr@ + u32_le_bytes(vk.fixed_commits@.len() as u32) + u32_le_bytes(
        vk.permutation_commits@.len() as u32,
    )
}

/// Canonical encoding of a Halo2 verifying key.
pub open spec fn vk_serialize(vk: Halo2KzgVerifyingKey) -> Seq<u8> {
    vk_head(vk) + vk.fixed_commits@ + vk.permutation_commits@
}

/// Declared fixed-commitment byte length in a key encoding.
pub open spec fn vk_fixed_len(b: Seq<u8>) -> nat {
    le_u32(b.subrange(176, 180))
}

/// Declared permutation-commitment byte length in a key encoding.
pub open spec fn vk_perm_len(b: Seq<u8>) -> nat {
    le_u32(b.subrange(180, 184))
}

/// `b` is a well-formed key encoding.
pub open spec fn vk_accepts(b: Seq<u8>) -> bool {
    &&& b.len() >= 184
    &&& b.len() == 184 + vk_fixed_len(b) + vk_perm_len(b)
    &&& vk_fixed_len(b) % 64 == 0
    &&& vk_perm_len(b) % 64 == 0
    &&& vk_fixed_len(b) == le_u32(b.subrange(12, 16)) * 64
}

/// The fields of `vk` are read from the windows of `b`.
pub open spec fn vk_layout(vk: Halo2KzgVerifyingKey, b: Seq<u8>) -> bool {
    let fl = vk_fixed_len(b) as int;
    let pl = vk_perm_len(b) as int;
    &&& vk.k == le_u32(b.subrange(0, 4))
    &&& vk.n_instances == le_u32(b.subrange(4, 8))
    &&& vk.n_advice == le_u32(b.subrange(8, 12))
    &&& vk.n_fixed == le_u32(b.subrange(12, 16))
    &&& vk.x2_g2@ == b.subrange(16, 144)
    &&& vk.omega_fr@ == b.subrange(144, 176)
    &&& vk.fixed_commits@ == b.subrange(184, 184 + fl)
    &&& vk.permutation_commits@ == b.subrange(184 + fl, 184 + fl + pl)
}

/// The key's declared fixed count matches its commitments, and both
/// commitment buffers are whole G1 sequences whose lengths fit a `u32`.
pub open spec fn vk_consistent(vk: Halo2KzgVerifyingKey) -> bool {
    &&& vk.fixed_commits@.len() == vk.n_fixed * 64
    &&& vk.permutation_commits@.len() % 64 == 0
    &&& vk.fixed_commits@.len() < 0x1_0000_0000
    &&& vk.permutation_commits@.len() < 0x1_0000_0000
}

/// Two keys agree on every field.
pub open spec fn vk_same(a: Halo2KzgVerifyingKey, b: Halo2KzgVerifyingKey) -> bool {
    &&& a.k == b.k
    &&& a.n_instances == b.n_instances
    &&& a.n_advice == b.n_advice
    &&& a.n_fixed == b.n_fixed
    &&& a.x2_g2@ == b.x2_g2@
    &&& a.omega_fr@ == b.omega_fr@
    &&& a.fixed_commits@ == b.fixed_commits@
    &&& a.permutation_commits@ == b.permutation_commits@
}

/// The encoding of a consistent key is accepted, and decoding it gives
/// back the same key.
#[verifier::rlimit(40)]
pub proof fn lemma_vk_decode_encode(vk: Halo2KzgVerifyingKey, decoded: Halo2KzgVerifyingKey)
    requires
        vk_consistent(vk),
    ensures
        vk_accepts(vk_serialize(vk)),
        vk_layout(decoded, vk_serialize(vk)) ==> vk_same(decoded, vk),
{
    let s = vk_serialize(vk);
    let h = vk_head(vk);
    let fl = vk.fixed_commits@.len() as int;
    let pl = vk.permutation_commits@.len() as int;
    lemma_vk_head(vk);
    crate::bytes::lemma_concat3_windows(h, vk.fixed_commits@, vk.permutation_commits@);
    assert(h.subrange(0, 4) == s.subrange(0, 4));
    assert(h.subrange(4, 8) == s.subrange(4, 8));
    assert(h.subrange(8, 12) == s.subrange(8, 12));
    assert(h.subrange(12, 16) == s.subrange(12, 16));
    assert(h.subrange(16, 144) == s.subrange(16, 144));
    assert(h.subrange(144, 176) == s.subrange(144, 176));
    assert(h.subrange(176, 180) == s.subrange(176, 180));
    assert(h.subrange(180, 184) == s.subrange(180, 184));
    vstd::arithmetic::div_mod::lemma_mod_multiples_basic(vk.n_fixed as int, 64);
}

/// The fixed portion of a key encoding, field by field.
proof fn lemma_vk_head(vk: Halo2KzgVerifyingKey)
    requires
        vk_consistent(vk),
    ensures
        vk_head(vk).len() == 184,
        le_u32(vk_head(vk).subrange(0, 4)) == vk.k,
        le_u32(vk_head(vk).subrange(4, 8)) == vk.n_instances,
        le_u32(vk_head(vk).subrange(8, 12)) == vk.n_advice,
        le_u32(vk_head(vk).subrange(12, 16)) == vk.n_fixed,
        vk_head(vk).subrange(16, 144) == vk.x2_g2@,
        vk_head(vk).subrange(144, 176) == vk.omega_fr@,
        le_u32(vk_head(vk).subrange(176, 180)) == vk.fixed_commits@.len(),
        le_u32(vk_head(vk).subrange(180, 184)) == vk.permutation_commits@.len(),
{
    let h = vk_head(vk);
    let fl = vk.fixed_commits@.len();
    let pl = vk.permutation_commits@.len();
    lemma_u32_le_roundtrip(vk.k);
    lemma_u32_le_roundtrip(vk.n_instances);
    lemma_u32_le_roundtrip(vk.n_advice);
    lemma_u32_le_roundtrip(vk.n_fixed);
    lemma_u32_le_roundtrip(fl as u32);
    lemma_u32_le_roundtrip(pl as u32);
    assert(h.subrange(0, 4) =~= u32_le_bytes(vk.k));
    assert(h.subrange(4, 8) =~= u32_le_bytes(vk.n_instances));
    assert(h.subrange(8, 12) =~= u32_le_bytes(vk.n_advice));
    assert(h.subrange(12, 16) =~= u32_le_bytes(vk.n_fixed));
    assert(h.subrange(16, 144) =~= vk.x2_g2@);
    assert(h.subrange(144, 176) =~= vk.omega_fr@);
    assert(h.subrange(176, 180) =~= u32_le_bytes(fl as u32));
    assert(h.subrange(180, 184) =~= u32_le_bytes(pl as u32));
}

/// Encoding a decoded key gives back the decoded bytes.
pub proof fn lemma_vk_encode_decode(vk: Halo2KzgVerifyingKey, b: Seq<u8>)
    requires
        vk_accepts(b),
        vk_layout(vk, b),
    ensures
        vk_serialize(vk) == b,
{
    lemma_le_u32_roundtrip(b.subrange(0, 4));
    lemma_le_u32_roundtrip(b.subrange(4, 8));
    lemma_le_u32_roundtrip(b.subrange(8, 12));
    lemma_le_u32_roundtrip(b.subrange(12, 16));
    lemma_le_u32_roundtrip(b.subrange(176, 180));
    lemma_le_u32_roundtrip(b.subrange(180, 184));
    assert(vk_serialize(vk) =~= b);
}

impl Halo2KzgVerifyingKey {
    /// Length of the fixed portion before the two commitment buffers.
    pub const FIXED_LEN: usize = 184;

    /// Decode from the canonical encoding, checking the total length, that
    /// both commitment buffers are whole G1 sequences, and that the fixed
    /// buffer matches `n_fixed`.
    pub fn from_bytes(bytes: &[u8]) -> (res: Result<Self, OnChainError>)
        ensures
            res is Ok <==> vk_accepts(bytes@),
            res is Err ==> res == Err::<Self, OnChainError>(
                OnChainError::VerifyingKeyLengthMismatch,
            ),
            res matches Ok(vk) ==> vk_layout(vk, bytes@),
    {
        if bytes.len() < 184 {
            return Err(OnChainError::VerifyingKeyLengthMismatch);
        }
        let k = read_u32_le(bytes, 0);
        let n_instances = read_u32_le(bytes, 4);
        let n_advice = read_u32_le(bytes, 8);
        let n_fixed = read_u32_le(bytes, 12);
        let x2_g2 = copy128(bytes, 16);
        let omega_fr = copy32(bytes, 144);
        let fixed_len = read_u32_le(bytes, 176);
        let perm_len = read_u32_le(bytes, 180);
        let expected: u64 = 184 + fixed_len as u64 + perm_len as u64;
        if bytes.len() as u64 != expected {
            return Err(OnChainError::VerifyingKeyLengthMismatch);
        }
        if fixed_len % 64 != 0 || perm_len % 64 != 0 {
            return Err(OnChainError::VerifyingKeyLengthMismatch);
        }
        if fixed_len as u64 != (n_fixed as u64) * 64 {
            return Err(OnChainError::VerifyingKeyLengthMismatch);
        }
        let fl = fixed_len as usize;
        let pl = perm_len as usize;
        let fixed_commits = vstd::slice::slice_to_vec(window(bytes, 184, 184 + fl));
        let permutation_commits = vstd::slice::slice_to_vec(window(bytes, 184 + fl, 184 + fl + pl));
        Ok(Halo2KzgVerifyingKey {
            k,
            n_instances,
            n_advice,
            n_fixed,
            x2_g2,
            omega_fr,
            fixed_commits,
            permutation_commits,
        })
    }

    /// Encode to the canonical layout. The two buffer lengths are written
    /// as `u32` values.
    pub fn to_bytes(&self) -> (out: Vec<u8>)
        ensures
            out@ == vk_serialize(*self),
    {
        let mut out: Vec<u8> = Vec::new();
        push_all(&mut out, &u32_to_le_bytes(self.k));
        push_all(&mut out, &u32_to_le_bytes(self.n_instances));
        push_all(&mut out, &u32_to_le_bytes(self.n_advice));
        push_all(&mut out, &u32_to_le_bytes(self.n_fixed));
        push_all(&mut out, &self.x2_g2);
        push_all(&mut out, &self.omega_fr);
        push_all(&mut out, &u32_to_le_bytes(self.fixed_commits.len() as u32));
        push_all(&mut out, &u32_to_le_bytes(self.permutation_commits.len() as u32));
        push_all(&mut out, self.fixed_commits.as_slice());
        push_all(&mut out, self.permutation_commits.as_slice());
        assert(out@ =~= vk_serialize(*self));
        out
    }
}

} // verus!

verus! {

/// Declared compressed fixed-commitment byte length.
pub open spec fn cvk_fixed_len(b: Seq<u8>) -> nat {
    le_u32(b.subrange(112, 116))
}

/// Declared compressed permutation-commitment byte length.
pub open spec fn cvk_perm_len(b: Seq<u8>) -> nat {
    le_u32(b.subrange(116, 120))
}

/// `b` is a well-formed compressed key encoding.
pub open spec fn cvk_accepts(b: Seq<u8>) -> bool {
    &&& b.len() >= 120
    &&& b.len() == 120 + cvk_fixed_len(b) + cvk_perm_len(b)
    &&& cvk_fixed_len(b) % 32 == 0
    &&& cvk_perm_len(b) % 32 == 0
    &&& cvk_fixed_len(b) == le_u32(b.subrange(12, 16)) * 32
}

/// `c` is the backend's compressed encoding of `vk`: the counters and ω
/// as-is, `[x]₂` compressed, each whole 64-byte commitment compressed to
/// 32 bytes, and the compressed buffer lengths.
pub open spec fn cvk_encodes<B: SyscallBackend + ?Sized>(
    b: &B,
    vk: Halo2KzgVerifyingKey,
    c: Seq<u8>,
) -> bool {
    let nf = vk.fixed_commits@.len() / 64;
    let np = vk.permutation_commits@.len() / 64;
    &&& c.len() == 120 + 32 * nf + 32 * np
    &&& c.subrange(0, 16) == u32_le_bytes(vk.k) + u32_le_bytes(vk.n_instances) + u32_le_bytes(
        vk.n_advice,
    ) + u32_le_bytes(vk.n_fixed)
    &&& c.subrange(80, 112) == vk.omega_fr@
    &&& compress_g2_spec(b, vk.x2_g2@) == Ok::<Seq<u8>, OnChainError>(c.subrange(16, 80))
    &&& c.subrange(112, 116) == u32_le_bytes((32 * nf) as u32)
    &&& c.subrange(116, 120) == u32_le_bytes((32 * np) as u32)
    &&& compress_run(b, vk.fixed_commits@, 0, nf) == Ok::<Seq<u8>, OnChainError>(
        c.subrange(120, (120 + 32 * nf) as int),
    )
    &&& compress_run(b, vk.permutation_commits@, 0, np) == Ok::<Seq<u8>, OnChainError>(
        c.subrange((120 + 32 * nf) as int, c.len() as int),
    )
}

/// `vk` is decoded from the compressed key `c` by the backend: counters and
/// ω read as-is, `[x]₂` and every commitment decompressed.
#[verifier::opaque]
pub open spec fn cvk_decodes<B: SyscallBackend + ?Sized>(
    b: &B,
    c: Seq<u8>,
    vk: Halo2KzgVerifyingKey,
) -> bool {
    &&& vk.k == le_u32(c.subrange(0, 4))
    &&& vk.n_instances == le_u32(c.subrange(4, 8))
    &&& vk.n_advice == le_u32(c.subrange(8, 12))
    &&& vk.n_fixed == le_u32(c.subrange(12, 16))
    &&& vk.omega_fr@ == c.subrange(80, 112)
    &&& vk.fixed_commits@.len() == 2 * cvk_fixed_len(c)
    &&& vk.permutation_commits@.len() == 2 * cvk_perm_len(c)
    &&& decompress_g2_spec(b, c.subrange(16, 80)) == Ok::<Seq<u8>, OnChainError>(vk.x2_g2@)
    &&& decompress_run(b, c, 120, cvk_fixed_len(c) / 32) == Ok::<Seq<u8>, OnChainError>(
        vk.fixed_commits@,
    )
    &&& decompress_run(b, c, (120 + cvk_fixed_len(c)) as int, cvk_perm_len(c) / 32) == Ok::<
        Seq<u8>,
        OnChainError,
    >(vk.permutation_commits@)
}

/// A whole buffer of `n` points, compressed into `c` at `doff`, decompresses
/// back to the buffer.
proof fn lemma_whole_run_roundtrip<B: SyscallBackend + ?Sized>(
    b: &B,
    src: Seq<u8>,
    n: nat,
    c: Seq<u8>,
    doff: int,
)
    requires
        src.len() == 64 * n,
        0 <= doff,
        doff + 32 * n <= c.len(),
        inverts_on(b, src, 0, n),
        compress_run(b, src, 0, n) == Ok::<Seq<u8>, OnChainError>(c.subrange(doff, doff + 32 * n)),
    ensures
        decompress_run(b, c, doff, n) == Ok::<Seq<u8>, OnChainError>(src),
{
    lemma_run_roundtrip(b, src, 0, n, c, doff);
    assert(src.subrange(0, (64 * n) as int) =~= src);
}

/// The counters of a compressed key read back as written.
proof fn lemma_cvk_counters(vk: Halo2KzgVerifyingKey, c: Seq<u8>, fl: u32, pl: u32)
    requires
        c.len() >= 120,
        c.subrange(0, 16) == u32_le_bytes(vk.k) + u32_le_bytes(vk.n_instances) + u32_le_bytes(
            vk.n_advice,
        ) + u32_le_bytes(vk.n_fixed),
        c.subrange(112, 116) == u32_le_bytes(fl),
        c.subrange(116, 120) == u32_le_bytes(pl),
    ensures
        le_u32(c.subrange(0, 4)) == vk.k,
        le_u32(c.subrange(4, 8)) == vk.n_instances,
        le_u32(c.subrange(8, 12)) == vk.n_advice,
        le_u32(c.subrange(12, 16)) == vk.n_fixed,
        cvk_fixed_len(c) == fl,
        cvk_perm_len(c) == pl,
{
    lemma_u32_le_roundtrip(fl);
    lemma_u32_le_roundtrip(pl);
    lemma_u32_le_roundtrip(vk.k);
    lemma_u32_le_roundtrip(vk.n_instances);
    lemma_u32_le_roundtrip(vk.n_advice);
    lemma_u32_le_roundtrip(vk.n_fixed);
    let head = c.subrange(0, 16);
    assert(c.subrange(0, 4) =~= head.subrange(0, 4));
    assert(c.subrange(4, 8) =~= head.subrange(4, 8));
    assert(c.subrange(8, 12) =~= head.subrange(8, 12));
    assert(c.subrange(12, 16) =~= head.subrange(12, 16));
    assert(head.subrange(0, 4) =~= u32_le_bytes(vk.k));
    assert(head.subrange(4, 8) =~= u32_le_bytes(vk.n_instances));
    assert(head.subrange(8, 12) =~= u32_le_bytes(vk.n_advice));
    assert(head.subrange(12, 16) =~= u32_le_bytes(vk.n_fixed));
}

/// Decompressing a compressed key gives the key back, for a consistent key
/// and a backend that inverts its own compression on the key's points: the
/// compressed encoding is accepted, every decompression succeeds (so
/// decoding succeeds), each decompression gives the original's point, and
/// any key decoded from it agrees with the original on every field.
pub proof fn lemma_vk_compress_roundtrip<B: SyscallBackend + ?Sized>(
    b: &B,
    vk: Halo2KzgVerifyingKey,
    c: Seq<u8>,
)
    requires
        vk_consistent(vk),
        cvk_encodes(b, vk, c),
        decompress_g2_spec(b, compress_g2_spec(b, vk.x2_g2@)->Ok_0) == Ok::<Seq<u8>, OnChainError>(
            vk.x2_g2@,
        ),
        inverts_on(b, vk.fixed_commits@, 0, vk.fixed_commits@.len() / 64),
        inverts_on(b, vk.permutation_commits@, 0, vk.permutation_commits@.len() / 64),
    ensures
        cvk_accepts(c),
        decompress_g2_spec(b, c.subrange(16, 80)) == Ok::<Seq<u8>, OnChainError>(vk.x2_g2@),
        decompress_run(b, c, 120, cvk_fixed_len(c) / 32) == Ok::<Seq<u8>, OnChainError>(
            vk.fixed_commits@,
        ),
        decompress_run(b, c, (120 + cvk_fixed_len(c)) as int, cvk_perm_len(c) / 32) == Ok::<
            Seq<u8>,
            OnChainError,
        >(vk.permutation_commits@),
        forall|decoded: Halo2KzgVerifyingKey| #[trigger]
            cvk_decodes(b, c, decoded) ==> vk_same(decoded, vk),
{
    let fl = vk.fixed_commits@.len();
    let pl = vk.permutation_commits@.len();
    let nf = fl / 64;
    let np = pl / 64;
    assert(fl == 64 * nf && nf == vk.n_fixed && pl == 64 * np && 32 * nf < 0x1_0000_0000 && 32
        * np < 0x1_0000_0000) by (nonlinear_arith)
        requires
            fl == vk.n_fixed * 64,
            pl % 64 == 0,
            fl < 0x1_0000_0000,
            pl < 0x1_0000_0000,
            nf == fl / 64,
            np == pl / 64,
    ;
    lemma_cvk_counters(vk, c, (32 * nf) as u32, (32 * np) as u32);
    assert(decompress_g2_spec(b, c.subrange(16, 80)) == Ok::<Seq<u8>, OnChainError>(vk.x2_g2@));
    assert((32 * nf) as u32 == 32 * nf);
    assert((32 * np) as u32 == 32 * np);
    assert(cvk_accepts(c));
    assert(cvk_fixed_len(c) / 32 == nf);
    assert(cvk_perm_len(c) / 32 == np);
    lemma_whole_run_roundtrip(b, vk.fixed_commits@, nf, c, 120);
    lemma_whole_run_roundtrip(b, vk.permutation_commits@, np, c, (120 + 32 * nf) as int);
    assert forall|decoded: Halo2KzgVerifyingKey| #[trigger] cvk_decodes(b, c, decoded) implies vk_same(
        decoded,
        vk,
    ) by {
        lemma_cvk_decoded_same(b, c, decoded, vk);
    }
}

/// A key decoded from `c` agrees with `vk` when every decompression of `c`
/// gives `vk`'s point and the counters and ω read as `vk`'s.
proof fn lemma_cvk_decoded_same<B: SyscallBackend + ?Sized>(
    b: &B,
    c: Seq<u8>,
    decoded: Halo2KzgVerifyingKey,
    vk: Halo2KzgVerifyingKey,
)
    requires
        cvk_decodes(b, c, decoded),
        le_u32(c.subrange(0, 4)) == vk.k,
        le_u32(c.subrange(4, 8)) == vk.n_instances,
        le_u32(c.subrange(8, 12)) == vk.n_advice,
        le_u32(c.subrange(12, 16)) == vk.n_fixed,
        c.subrange(80, 112) == vk.omega_fr@,
        decompress_g2_spec(b, c.subrange(16, 80)) == Ok::<Seq<u8>, OnChainError>(vk.x2_g2@),
        decompress_run(b, c, 120, cvk_fixed_len(c) / 32) == Ok::<Seq<u8>, OnChainError>(
            vk.fixed_commits@,
        ),
        decompress_run(b, c, (120 + cvk_fixed_len(c)) as int, cvk_perm_len(c) / 32) == Ok::<
            Seq<u8>,
            OnChainError,
        >(vk.permutation_commits@),
    ensures
        vk_same(decoded, vk),
{
    reveal(cvk_decodes);
}

impl Halo2KzgVerifyingKey {
    /// Length of the compressed fixed portion.
    pub const COMPRESSED_FIXED_LEN: usize = 120;

    /// Decode a compressed key: same checks as [`Self::from_bytes`] at the
    /// compressed sizes, then `x2_g2` and every commitment decompressed by
    /// the backend.
    pub fn from_compressed_bytes<B: SyscallBackend + ?Sized>(backend: &B, bytes: &[u8]) -> (res:
        Result<Self, OnChainError>)
        ensures
            !cvk_accepts(bytes@) ==> res == Err::<Self, OnChainError>(
                OnChainError::VerifyingKeyLengthMismatch,
            ),
            cvk_accepts(bytes@) && res is Err ==> res == Err::<Self, OnChainError>(
                OnChainError::AltBn128CompressionSyscallFailed,
            ),
            cvk_accepts(bytes@) ==> (res is Ok <==> (decompress_g2_spec(
                backend,
                bytes@.subrange(16, 80),
            ) is Ok && decompress_run(backend, bytes@, 120, cvk_fixed_len(bytes@) / 32) is Ok
                && decompress_run(
                backend,
                bytes@,
                (120 + cvk_fixed_len(bytes@)) as int,
                cvk_perm_len(bytes@) / 32,
            ) is Ok)),
            res matches Ok(vk) ==> cvk_decodes(backend, bytes@, vk),
    {
        if bytes.len() < 120 {
            return Err(OnChainError::VerifyingKeyLengthMismatch);
        }
        let k = read_u32_le(bytes, 0);
        let n_instances = read_u32_le(bytes, 4);
        let n_advice = read_u32_le(bytes, 8);
        let n_fixed = read_u32_le(bytes, 12);
        let omega_fr = copy32(bytes, 80);
        let fixed_clen = read_u32_le(bytes, 112);
        let perm_clen = read_u32_le(bytes, 116);
        let expected: u64 = 120 + fixed_clen as u64 + perm_clen as u64;
        if bytes.len() as u64 != expected {
            return Err(OnChainError::VerifyingKeyLengthMismatch);
        }
        if fixed_clen % 32 != 0 || perm_clen % 32 != 0 {
            return Err(OnChainError::VerifyingKeyLengthMismatch);
        }
        if fixed_clen as u64 != (n_fixed as u64) * 32 {
            return Err(OnChainError::VerifyingKeyLengthMismatch);
        }
        let x2_g2 = decompress_g2(backend, &copy64(bytes, 16))?;
        let fl = fixed_clen as usize;
        let pl = perm_clen as usize;
        let mut fixed_commits: Vec<u8> = Vec::new();
        proof {
            vstd::arithmetic::div_mod::lemma_fundamental_div_mod(fl as int, 32);
            vstd::arithmetic::div_mod::lemma_fundamental_div_mod(pl as int, 32);
            lemma_decompress_run_err(backend, bytes@, 120, (fl / 32) as nat);
            lemma_decompress_run_err(backend, bytes@, 120 + fl, (pl / 32) as nat);
        }
        decompress_g1_run(backend, bytes, 120, fl / 32, &mut fixed_commits)?;
        let mut permutation_commits: Vec<u8> = Vec::new();
        decompress_g1_run(backend, bytes, 120 + fl, pl / 32, &mut permutation_commits)?;
        proof {
            reveal(cvk_decodes);
            assert(fixed_commits@ =~= decompress_run(backend, bytes@, 120, (fl / 32) as nat)->Ok_0);
            assert(permutation_commits@ =~= decompress_run(
                backend,
                bytes@,
                120 + fl,
                (pl / 32) as nat,
            )->Ok_0);
        }
        Ok(Halo2KzgVerifyingKey {
            k,
            n_instances,
            n_advice,
            n_fixed,
            x2_g2,
            omega_fr,
            fixed_commits,
            permutation_commits,
        })
    }

    /// Encode in compressed form: `x2_g2` and every whole 64-byte
    /// commitment compressed by the backend, the compressed buffer lengths
    /// written as `u32` values.
    pub fn to_compressed_bytes<B: SyscallBackend + ?Sized>(&self, backend: &B) -> (res: Result<
        Vec<u8>,
        OnChainError,
    >)
        ensures
            res is Err ==> res == Err::<Vec<u8>, OnChainError>(
                OnChainError::AltBn128CompressionSyscallFailed,
            ),
            res matches Ok(out) ==> cvk_encodes(backend, *self, out@),
            (compress_g2_spec(backend, self.x2_g2@) is Ok && compress_run(
                backend,
                self.fixed_commits@,
                0,
                self.fixed_commits@.len() / 64,
            ) is Ok && compress_run(
                backend,
                self.permutation_commits@,
                0,
                self.permutation_commits@.len() / 64,
            ) is Ok) ==> res is Ok,
    {
        let g2_c = compress_g2(backend, &self.x2_g2)?;
        let nf = self.fixed_commits.len() / 64;
        let np = self.permutation_commits.len() / 64;
        proof {
            vstd::arithmetic::div_mod::lemma_fundamental_div_mod(self.fixed_commits@.len() as int, 64);
            vstd::arithmetic::div_mod::lemma_mod_pos_bound(self.fixed_commits@.len() as int, 64);
            vstd::arithmetic::div_mod::lemma_fundamental_div_mod(
                self.permutation_commits@.len() as int,
                64,
            );
            vstd::arithmetic::div_mod::lemma_mod_pos_bound(self.permutation_commits@.len() as int, 64);
        }
        let mut fixed_payload: Vec<u8> = Vec::new();
        compress_g1_run(backend, self.fixed_commits.as_slice(), 0, nf, &mut fixed_payload)?;
        let mut perm_payload: Vec<u8> = Vec::new();
        compress_g1_run(backend, self.permutation_commits.as_slice(), 0, np, &mut perm_payload)?;
        proof {
            assert(fixed_payload@ =~= compress_run(backend, self.fixed_commits@, 0, nf as nat)->Ok_0);
            assert(perm_payload@ =~= compress_run(backend, self.permutation_commits@, 0, np as nat)->Ok_0);
        }
        let mut out: Vec<u8> = Vec::new();
        push_all(&mut out, &u32_to_le_bytes(self.k));
        push_all(&mut out, &u32_to_le_bytes(self.n_instances));
        push_all(&mut out, &u32_to_le_bytes(self.n_advice));
        push_all(&mut out, &u32_to_le_bytes(self.n_fixed));
        let ghost head16 = out@;
        push_all(&mut out, &g2_c);
        push_all(&mut out, &self.omega_fr);
        let ghost head112 = out@;
        push_all(&mut out, &u32_to_le_bytes(fixed_payload.len() as u32));
        push_all(&mut out, &u32_to_le_bytes(perm_payload.len() as u32));
        push_all(&mut out, fixed_payload.as_slice());
        push_all(&mut out, perm_payload.as_slice());
        proof {
            assert(head112.subrange(0, 16) =~= head16);
            assert(out@.subrange(0, 16) =~= head112.subrange(0, 16));
            assert(out@.subrange(80, 112) =~= self.omega_fr@);
            assert(out@.subrange(16, 80) =~= g2_c@);
            assert(out@.subrange(112, 116) =~= u32_le_bytes(fixed_payload.len() as u32));
            assert(out@.subrange(116, 120) =~= u32_le_bytes(perm_payload.len() as u32));
            assert(out@.subrange(120, 120 + 32 * nf) =~= fixed_payload@);
            assert(out@.subrange(120 + 32 * nf, out@.len() as int) =~= perm_payload@);
            assert(head16 =~= u32_le_bytes(self.k) + u32_le_bytes(self.n_instances) + u32_le_bytes(
                self.n_advice,
            ) + u32_le_bytes(self.n_fixed));
        }
        Ok(out)
    }
}

} // verus!
