//! Errors reported by the verifiers and their parsers.
use vstd::prelude::*;

verus! {

/// Failure reasons shared by every verifier in this crate.
#[derive(Clone, Copy, Debug, PartialEq, Eq, Structural)]
pub enum OnChainError {
    /// A proof buffer does not have the length its layout requires.
    ProofLengthMismatch,
    /// A verifying-key buffer does not have the length its layout requires.
    VerifyingKeyLengthMismatch,
    /// A scalar-field encoding is not a canonical element.
    InvalidFieldEncoding,
    /// A public input is not below the scalar-field order.
    PublicInputOutOfRange,
    /// The public-input buffer does not hold the declared number of inputs.
    PublicInputCountMismatch,
    /// The requested step is not available for this proof system.
    UnimplementedProofSystem,
    /// A curve-point encoding has the wrong length or shape.
    InvalidPointEncoding,
    /// The final pairing product is not the identity.
    PairingCheckFailed,
    /// A curve-point compression or decompression failed.
    AltBn128CompressionSyscallFailed,
    /// A curve group operation failed.
    AltBn128SyscallFailed,
    /// An internal arithmetic precondition (such as a zero denominator) failed.
    InternalInvariantViolation,
    /// A polynomial identity or sumcheck round does not hold.
    SumcheckFailed,
    /// A recomputed commitment differs from the declared one.
    VerificationFailed,
    /// The verifying key and the proof disagree on their shape.
    VerifyingKeyProofMismatch,
    /// An unknown variant tag.
    UnknownProofSystem,
    /// The backend does not support the operation.
    UnsupportedOperation,
    /// The SHA-256 hash failed.
    Sha256SyscallFailed,
    /// The Keccak-256 hash failed.
    Keccak256SyscallFailed,
    /// The Poseidon hash failed.
    PoseidonSyscallFailed,
}

} // verus!
