//! The host interface through which verifiers reach curve arithmetic and
//! hashing: implemented by the on-chain syscall layer and by host test
//! harnesses.
use vstd::prelude::*;
use crate::error::OnChainError;

verus! {

/// A BN254 group operation.
#[derive(Clone, Copy, Debug, PartialEq, Eq, Structural)]
pub enum AltBn128Op {
    /// G1 point addition: input `P || Q` (128 bytes), output 64 bytes.
    G1Add,
    /// G1 scalar multiplication: input `P || s` (96 bytes), output 64 bytes.
    G1Mul,
    /// Pairing product check over `(G1, G2)` pairs (192 bytes each); output
    /// is 32 bytes ending in `0x01` when the product is the identity.
    Pairing,
}

/// A BN254 point compression operation.
#[derive(Clone, Copy, Debug, PartialEq, Eq, Structural)]
pub enum AltBn128Compress {
    /// 64-byte G1 point to 32 bytes.
    G1Compress,
    /// 32-byte compressed G1 point to 64 bytes.
    G1Decompress,
    /// 128-byte G2 point to 64 bytes.
    G2Compress,
    /// 64-byte compressed G2 point to 128 bytes.
    G2Decompress,
}

/// Byte order of curve-operation inputs.
#[derive(Clone, Copy, Debug, PartialEq, Eq, Structural)]
pub enum InputEndianness {
    /// Big-endian coordinates (the canonical layout of this crate).
    BigEndian,
    /// Little-endian coordinates.
    LittleEndian,
}

/// Poseidon parameter set.
#[derive(Clone, Copy, Debug, PartialEq, Eq, Structural)]
pub enum PoseidonParameters {
    /// Poseidon over the BN254 scalar field with the x^5 S-box.
    Bn254X5,
}

/// Host services a verifier needs. Implementations route each call to the
/// chain's syscalls or to a host-side library. Each implementation names
/// its replies by the spec functions below, so the verifiers' contracts can
/// say exactly which bytes they hand over and what they make of each reply;
/// nothing else is assumed of the replies.
pub trait SyscallBackend {
    /// The reply this backend gives to a group operation on `input`.
    /// Implementations answer deterministically: the same operation on the
    /// same bytes gets the same reply.
    spec fn group_op_reply(&self, op: AltBn128Op, endianness: InputEndianness, input: &[u8]) -> Result<
        Vec<u8>,
        OnChainError,
    >;

    /// The reply this backend gives to a compression operation on `input`,
    /// deterministically as for group operations.
    spec fn compression_reply(&self, op: AltBn128Compress, input: &[u8]) -> Result<
        Vec<u8>,
        OnChainError,
    >;

    /// Run a BN254 group operation on `input`.
    fn alt_bn128_group_op(
        &self,
        op: AltBn128Op,
        endianness: InputEndianness,
        input: &[u8],
    ) -> (res: Result<Vec<u8>, OnChainError>)
        ensures
            res == self.group_op_reply(op, endianness, input),
    ;

    /// Compress or decompress a BN254 point.
    fn alt_bn128_compression(&self, op: AltBn128Compress, input: &[u8]) -> (res: Result<
        Vec<u8>,
        OnChainError,
    >)
        ensures
            res == self.compression_reply(op, input),
    ;

    /// The reply this backend gives to a Poseidon hash of `inputs`,
    /// deterministically as for group operations.
    spec fn poseidon_reply(
        &self,
        params: PoseidonParameters,
        endianness: InputEndianness,
        inputs: &[&[u8]],
    ) -> Result<[u8; 32], OnChainError>;

    /// The reply this backend gives to a SHA-256 of `inputs`.
    spec fn sha256_reply(&self, inputs: &[&[u8]]) -> Result<[u8; 32], OnChainError>;

    /// The reply this backend gives to a Keccak-256 of `inputs`.
    spec fn keccak256_reply(&self, inputs: &[&[u8]]) -> Result<[u8; 32], OnChainError>;

    /// Poseidon hash of the given field-element encodings.
    fn poseidon(
        &self,
        params: PoseidonParameters,
        endianness: InputEndianness,
        inputs: &[&[u8]],
    ) -> (res: Result<[u8; 32], OnChainError>)
        ensures
            res == self.poseidon_reply(params, endianness, inputs),
    ;

    /// SHA-256 of the concatenation of `inputs`.
    fn sha256(&self, inputs: &[&[u8]]) -> (res: Result<[u8; 32], OnChainError>)
        ensures
            res == self.sha256_reply(inputs),
    ;

    /// Keccak-256 of the concatenation of `inputs`.
    fn keccak256(&self, inputs: &[&[u8]]) -> (res: Result<[u8; 32], OnChainError>)
        ensures
            res == self.keccak256_reply(inputs),
    ;
}


/// The view of a reply.
pub open spec fn reply_view(r: Result<Vec<u8>, OnChainError>) -> Result<Seq<u8>, OnChainError> {
    match r {
        Ok(v) => Ok(v@),
        Err(e) => Err(e),
    }
}

/// The backend's reply to a big-endian group operation on `bytes`.
pub open spec fn group_op_on<B: SyscallBackend + ?Sized>(b: &B, op: AltBn128Op, bytes: Seq<u8>) -> Result<
    Seq<u8>,
    OnChainError,
> {
    reply_view(b.group_op_reply(op, InputEndianness::BigEndian, choose|s: &[u8]| s@ == bytes))
}

/// The backend's reply to a compression operation on `bytes`.
pub open spec fn compression_on<B: SyscallBackend + ?Sized>(
    b: &B,
    op: AltBn128Compress,
    bytes: Seq<u8>,
) -> Result<Seq<u8>, OnChainError> {
    reply_view(b.compression_reply(op, choose|s: &[u8]| s@ == bytes))
}

/// A slice is the one the specification picks for its contents.
pub proof fn lemma_slice_chosen(s: &[u8])
    ensures
        (choose|t: &[u8]| t@ == s@) == s,
{
    let t = choose|t: &[u8]| t@ == s@;
    assert(t@ == s@);
    assert(t =~= s);
}

} // verus!
