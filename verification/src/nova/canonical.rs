//! Canonical byte layout of folded-instance proofs and verifying keys.
//!
//! Proof: a 16-byte header (`variant` u8, `num_aux_commits` u8, `n_public`
//! u16 LE, 12 reserved bytes), the commitments `E`, `W`, `T`, the folding
//! scalar `u`, four Hadamard evaluations, `64 · num_aux_commits` bytes of
//! auxiliary commitments, `32 · n_public` bytes of public inputs and the two
//! openings `W_xi`, `W_xiw`.
use vstd::prelude::*;
use crate::bytes::{
    be_nat, chunk_at, chunks_exact, copy128, copy32, copy64, le_u16, le_u32,
    lemma_le_u16_roundtrip, lemma_le_u32_roundtrip, lemma_u16_le_roundtrip,
    lemma_u32_le_roundtrip, push_all, read_u16_le, read_u32_le, u16_le_bytes, u16_to_le_bytes,
    u32_le_bytes, u32_to_le_bytes, window,
};
use crate::compression::{G1_LEN, G2_LEN};
use crate::error::OnChainError;
use crate::field::Fr;
use crate::fr::{fr_modulus, FR_LEN};

pub mod sizes;

verus! {

/// Folding scheme of a proof or key.
#[derive(Clone, Copy, Debug, PartialEq, Eq, Structural)]
pub enum FoldingVariant {
    /// Nova: relaxed R1CS folding.
    Nova,
    /// HyperNova: customizable constraint systems.
    HyperNova,
    /// ProtoStar: multi-folding of special-sound protocols.
    ProtoStar,
}

/// Wire tag of a variant.
pub open spec fn variant_tag(v: FoldingVariant) -> u8 {
    match v {
        FoldingVariant::Nova => 0,
        FoldingVariant::HyperNova => 1,
        FoldingVariant::ProtoStar => 2,
    }
}

impl FoldingVariant {
    /// Decode a wire tag; tags above 2 are unknown.
    pub fn from_byte(b: u8) -> (res: Result<Self, OnChainError>)
        ensures
            res is Ok <==> b <= 2,
            res matches Ok(v) ==> variant_tag(v) == b,
            res is Err ==> res == Err::<Self, OnChainError>(OnChainError::UnknownProofSystem),
    {
        match b {
            0 => Ok(FoldingVariant::Nova),
            1 => Ok(FoldingVariant::HyperNova),
            2 => Ok(FoldingVariant::ProtoStar),
            _ => Err(OnChainError::UnknownProofSystem),
        }
    }

    /// Wire tag of this variant.
    pub fn to_byte(&self) -> (b: u8)
        ensures
            b == variant_tag(*self),
    {
        match self {
            FoldingVariant::Nova => 0,
            FoldingVariant::HyperNova => 1,
            FoldingVariant::ProtoStar => 2,
        }
    }
}

/// Declared auxiliary-commitment count.
pub open spec fn proof_aux(b: Seq<u8>) -> nat {
    b[1] as nat
}

/// Declared public-input count.
pub open spec fn proof_public(b: Seq<u8>) -> nat {
    le_u16(b.subrange(2, 4))
}

/// Proof length for the declared counts.
pub open spec fn proof_len_for(aux: nat, n_public: nat) -> nat {
    496 + 64 * aux + 32 * n_public
}

/// `b` is a well-formed canonical proof.
pub open spec fn proof_accepts(b: Seq<u8>) -> bool {
    &&& b.len() >= 496
    &&& b[0] <= 2
    &&& proof_aux(b) <= 16
    &&& proof_public(b) <= 256
    &&& b.len() == proof_len_for(proof_aux(b), proof_public(b))
}

/// Borrowed view of a folded-instance proof.
#[derive(Clone, Copy, Debug, PartialEq, Eq)]
pub struct NovaFoldingProof<'a> {
    /// Folding scheme.
    pub variant: FoldingVariant,
    /// Number of auxiliary commitments.
    pub num_aux_commits: u8,
    /// Declared number of public inputs.
    pub n_public: u16,
    /// Error-vector commitment `E`.
    pub e_comm: &'a [u8],
    /// Witness commitment `W`.
    pub w_comm: &'a [u8],
    /// Cross-term commitment `T`.
    pub t_comm: &'a [u8],
    /// Folding scalar `u`.
    pub u: &'a [u8],
    /// `A(ξ) ‖ B(ξ) ‖ C(ξ) ‖ E(ξ)`, four scalars.
    pub hadamard_evals: &'a [u8],
    /// Auxiliary commitments, `64 · num_aux_commits` bytes.
    pub aux_commits: &'a [u8],
    /// Public inputs, `32 · n_public` bytes.
    pub public_inputs: &'a [u8],
    /// Opening at `ξ`.
    pub w_xi: &'a [u8],
    /// Opening at `ξω`.
    pub w_xiw: &'a [u8],
}

/// The fields of `p` are the windows of `b`.
pub open spec fn proof_layout(p: NovaFoldingProof, b: Seq<u8>) -> bool {
    let a = (64 * proof_aux(b)) as int;
    let n = (32 * proof_public(b)) as int;
    &&& variant_tag(p.variant) == b[0]
    &&& p.num_aux_commits == proof_aux(b)
    &&& p.n_public == proof_public(b)
    &&& p.e_comm@ == b.subrange(16, 80)
    &&& p.w_comm@ == b.subrange(80, 144)
    &&& p.t_comm@ == b.subrange(144, 208)
    &&& p.u@ == b.subrange(208, 240)
    &&& p.hadamard_evals@ == b.subrange(240, 368)
    &&& p.aux_commits@ == b.subrange(368, 368 + a)
    &&& p.public_inputs@ == b.subrange(368 + a, 368 + a + n)
    &&& p.w_xi@ == b.subrange(368 + a + n, 432 + a + n)
    &&& p.w_xiw@ == b.subrange(432 + a + n, 496 + a + n)
}

impl<'a> NovaFoldingProof<'a> {
    /// Parse a canonical proof. A buffer shorter than the fixed part, a
    /// count over its cap or a length that disagrees with the counts is a
    /// length error; an unknown variant tag is reported as such.
    pub fn from_bytes(bytes: &'a [u8]) -> (res: Result<Self, OnChainError>)
        ensures
            res is Ok <==> proof_accepts(bytes@),
            bytes@.len() >= 496 && bytes@[0] > 2 ==> res == Err::<Self, OnChainError>(
                OnChainError::UnknownProofSystem,
            ),
            !(bytes@.len() >= 496 && bytes@[0] > 2) && res is Err ==> res == Err::<
                Self,
                OnChainError,
            >(OnChainError::ProofLengthMismatch),
            res matches Ok(p) ==> proof_layout(p, bytes@),
    {
        if bytes.len() < 496 {
            return Err(OnChainError::ProofLengthMismatch);
        }
        let variant = FoldingVariant::from_byte(bytes[0])?;
        let num_aux_commits = bytes[1];
        let n_public = read_u16_le(bytes, 2);
        if num_aux_commits > sizes::MAX_AUX_COMMITS || n_public > sizes::MAX_PUBLIC_INPUTS {
            return Err(OnChainError::ProofLengthMismatch);
        }
        let aux_len = (num_aux_commits as usize) * G1_LEN;
        let pi_len = (n_public as usize) * FR_LEN;
        if bytes.len() != 496 + aux_len + pi_len {
            return Err(OnChainError::ProofLengthMismatch);
        }
        let p = 368 + aux_len;
        let q = p + pi_len;
        Ok(NovaFoldingProof {
            variant,
            num_aux_commits,
            n_public,
            e_comm: window(bytes, 16, 80),
            w_comm: window(bytes, 80, 144),
            t_comm: window(bytes, 144, 208),
            u: window(bytes, 208, 240),
            hadamard_evals: window(bytes, 240, 368),
            aux_commits: window(bytes, 368, p),
            public_inputs: window(bytes, p, q),
            w_xi: window(bytes, q, q + 64),
            w_xiw: window(bytes, q + 64, q + 128),
        })
    }

    /// Decode the four Hadamard evaluations `(A(ξ), B(ξ), C(ξ), E(ξ))` from
    /// the first 128 bytes of the evaluation window.
    pub fn parse_hadamard_evals(&self) -> (res: Result<(Fr, Fr, Fr, Fr), OnChainError>)
        requires
            self.hadamard_evals@.len() >= 128,
        ensures
            res is Ok <==> forall|i: int|
                0 <= i < 4 ==> be_nat(#[trigger] chunk_at(self.hadamard_evals@, 32, i))
                    < fr_modulus(),
            res matches Ok(t) ==> {
                &&& t.0@ == be_nat(chunk_at(self.hadamard_evals@, 32, 0))
                &&& t.1@ == be_nat(chunk_at(self.hadamard_evals@, 32, 1))
                &&& t.2@ == be_nat(chunk_at(self.hadamard_evals@, 32, 2))
                &&& t.3@ == be_nat(chunk_at(self.hadamard_evals@, 32, 3))
            },
            res is Err ==> res == Err::<(Fr, Fr, Fr, Fr), OnChainError>(
                OnChainError::PublicInputOutOfRange,
            ),
    {
        let h = self.hadamard_evals;
        let a = Fr::from_canonical_bytes(window(h, 0, 32));
        let b = Fr::from_canonical_bytes(window(h, 32, 64));
        let c = Fr::from_canonical_bytes(window(h, 64, 96));
        let e = Fr::from_canonical_bytes(window(h, 96, 128));
        proof {
            assert(chunk_at(h@, 32, 0) == h@.subrange(0, 32));
            assert(chunk_at(h@, 32, 1) == h@.subrange(32, 64));
            assert(chunk_at(h@, 32, 2) == h@.subrange(64, 96));
            assert(chunk_at(h@, 32, 3) == h@.subrange(96, 128));
        }
        match (a, b, c, e) {
            (Ok(a), Ok(b), Ok(c), Ok(e)) => Ok((a, b, c, e)),
            _ => Err(OnChainError::PublicInputOutOfRange),
        }
    }

    /// Auxiliary commitments as 64-byte windows.
    pub fn aux_iter(&self) -> (res: Vec<&'a [u8]>)
        ensures
            res@.len() == self.aux_commits@.len() / 64,
            forall|i: int|
                0 <= i < res@.len() ==> (#[trigger] res@[i])@ == chunk_at(self.aux_commits@, 64, i),
    {
        chunks_exact(self.aux_commits, G1_LEN)
    }

    /// Public inputs as 32-byte windows.
    pub fn public_inputs_iter(&self) -> (res: Vec<&'a [u8]>)
        ensures
            res@.len() == self.public_inputs@.len() / 32,
            forall|i: int|
                0 <= i < res@.len() ==> (#[trigger] res@[i])@ == chunk_at(
                    self.public_inputs@,
                    32,
                    i,
                ),
    {
        chunks_exact(self.public_inputs, FR_LEN)
    }
}

} // verus!

verus! {

/// Verifying key of a folding scheme.
#[derive(Clone, Debug, PartialEq, Eq)]
pub struct NovaFoldingVerifyingKey {
    /// Folding scheme.
    pub variant: FoldingVariant,
    /// Declared number of public inputs.
    pub n_public: u16,
    /// Number of R1CS constraints (CCS rows for HyperNova).
    pub n_constraints: u32,
    /// SRS element `[x]_2`.
    pub x2_g2: [u8; G2_LEN],
    /// A-matrix commitment.
    pub a_comm: [u8; G1_LEN],
    /// B-matrix commitment.
    pub b_comm: [u8; G1_LEN],
    /// C-matrix commitment.
    pub c_comm: [u8; G1_LEN],
    /// Digest identifying the constraint system.
    pub cs_digest: [u8; 32],
}

/// Canonical encoding of a folding verifying key.
pub open spec fn vk_serialize(vk: NovaFoldingVerifyingKey) -> Seq<u8> {
    seq![variant_tag(vk.variant)] + u16_le_bytes(vk.n_public) + u32_le_bytes(vk.n_constraints)
        + vk.x2_g2@ + vk.a_comm@ + vk.b_comm@ + vk.c_comm@ + vk.cs_digest@
}

/// `bytes` is a well-formed key encoding.
pub open spec fn vk_accepts(bytes: Seq<u8>) -> bool {
    bytes.len() == 359 && bytes[0] <= 2
}

/// The fields of `vk` are read from the consecutive windows of `bytes`.
pub open spec fn vk_layout(vk: NovaFoldingVerifyingKey, bytes: Seq<u8>) -> bool {
    &&& bytes.len() == 359
    &&& variant_tag(vk.variant) == bytes[0]
    &&& vk.n_public == le_u16(bytes.subrange(1, 3))
    &&& vk.n_constraints == le_u32(bytes.subrange(3, 7))
    &&& vk.x2_g2@ == bytes.subrange(7, 135)
    &&& vk.a_comm@ == bytes.subrange(135, 199)
    &&& vk.b_comm@ == bytes.subrange(199, 263)
    &&& vk.c_comm@ == bytes.subrange(263, 327)
    &&& vk.cs_digest@ == bytes.subrange(327, 359)
}

/// Two keys agree on every field.
pub open spec fn vk_same(a: NovaFoldingVerifyingKey, b: NovaFoldingVerifyingKey) -> bool {
    &&& a.variant == b.variant
    &&& a.n_public == b.n_public
    &&& a.n_constraints == b.n_constraints
    &&& a.x2_g2@ == b.x2_g2@
    &&& a.a_comm@ == b.a_comm@
    &&& a.b_comm@ == b.b_comm@
    &&& a.c_comm@ == b.c_comm@
    &&& a.cs_digest@ == b.cs_digest@
}

/// Decoding the encoding of a key gives back the same key.
pub proof fn lemma_vk_decode_encode(vk: NovaFoldingVerifyingKey, decoded: NovaFoldingVerifyingKey)
    requires
        vk_layout(decoded, vk_serialize(vk)),
    ensures
        vk_same(decoded, vk),
{
    let s = vk_serialize(vk);
    lemma_u16_le_roundtrip(vk.n_public);
    lemma_u32_le_roundtrip(vk.n_constraints);
    assert(s[0] == variant_tag(vk.variant));
    assert(s.subrange(1, 3) =~= u16_le_bytes(vk.n_public));
    assert(s.subrange(3, 7) =~= u32_le_bytes(vk.n_constraints));
    assert(s.subrange(7, 135) =~= vk.x2_g2@);
    assert(s.subrange(135, 199) =~= vk.a_comm@);
    assert(s.subrange(199, 263) =~= vk.b_comm@);
    assert(s.subrange(263, 327) =~= vk.c_comm@);
    assert(s.subrange(327, 359) =~= vk.cs_digest@);
}

/// Encoding a decoded key gives back the decoded bytes.
pub proof fn lemma_vk_encode_decode(vk: NovaFoldingVerifyingKey, bytes: Seq<u8>)
    requires
        vk_layout(vk, bytes),
    ensures
        vk_serialize(vk) == bytes,
{
    lemma_le_u16_roundtrip(bytes.subrange(1, 3));
    lemma_le_u32_roundtrip(bytes.subrange(3, 7));
    assert(vk_serialize(vk) =~= bytes);
}

impl NovaFoldingVerifyingKey {
    /// Canonical encoding length.
    pub const SERIALIZED_LEN: usize = 359;

    /// Decode the canonical encoding. A wrong length is a length error, an
    /// unknown variant tag is reported as such.
    pub fn from_bytes(bytes: &[u8]) -> (res: Result<Self, OnChainError>)
        ensures
            res is Ok <==> vk_accepts(bytes@),
            bytes@.len() != 359 ==> res == Err::<Self, OnChainError>(
                OnChainError::VerifyingKeyLengthMismatch,
            ),
            bytes@.len() == 359 && bytes@[0] > 2 ==> res == Err::<Self, OnChainError>(
                OnChainError::UnknownProofSystem,
            ),
            res matches Ok(vk) ==> vk_layout(vk, bytes@),
    {
        if bytes.len() != Self::SERIALIZED_LEN {
            return Err(OnChainError::VerifyingKeyLengthMismatch);
        }
        let variant = FoldingVariant::from_byte(bytes[0])?;
        Ok(NovaFoldingVerifyingKey {
            variant,
            n_public: read_u16_le(bytes, 1),
            n_constraints: read_u32_le(bytes, 3),
            x2_g2: copy128(bytes, 7),
            a_comm: copy64(bytes, 135),
            b_comm: copy64(bytes, 199),
            c_comm: copy64(bytes, 263),
            cs_digest: copy32(bytes, 327),
        })
    }

    /// Encode to the canonical 359-byte form.
    pub fn to_bytes(&self) -> (out: Vec<u8>)
        ensures
            out@ == vk_serialize(*self),
            out@.len() == 359,
    {
        let mut out: Vec<u8> = Vec::new();
        out.push(self.variant.to_byte());
        push_all(&mut out, &u16_to_le_bytes(self.n_public));
        push_all(&mut out, &u32_to_le_bytes(self.n_constraints));
        push_all(&mut out, &self.x2_g2);
        push_all(&mut out, &self.a_comm);
        push_all(&mut out, &self.b_comm);
        push_all(&mut out, &self.c_comm);
        push_all(&mut out, &self.cs_digest);
        proof {
            lemma_u16_le_roundtrip(self.n_public);
            lemma_u32_le_roundtrip(self.n_constraints);
            assert(out@ =~= vk_serialize(*self));
        }
        out
    }
}

} // verus!
