//! The PLONK transcript surface: a hash-agnostic handle over the backend
//! and a transcript whose absorb and squeeze steps are not available yet.
//! PLONK's challenges are derived with the shared transcript of
//! [`crate::transcript`].
use vstd::prelude::*;
use crate::error::OnChainError;
pub use crate::transcript::Kind;

verus! {

/// A backend seen through one hash: the scheme the transcript picked.
pub trait BackendHandle {
    /// Hash a sequence of byte slices to a 32-byte field-element encoding.
    fn hash(&self, inputs: &[&[u8]]) -> Result<[u8; 32], OnChainError>;
}

/// Fiat–Shamir transcript for the PLONK rounds over a [`BackendHandle`].
pub struct Transcript<'b> {
    kind: Kind,
    #[allow(dead_code)]
    backend: &'b dyn BackendHandle,
    accumulated: Vec<u8>,
}

impl<'b> Transcript<'b> {
    /// The hash the transcript was built for.
    pub closed spec fn kind(&self) -> Kind {
        self.kind
    }

    /// The bytes absorbed so far.
    pub closed spec fn buffer(&self) -> Seq<u8> {
        self.accumulated@
    }

    /// A fresh transcript with an empty buffer.
    pub fn new(kind: Kind, backend: &'b dyn BackendHandle) -> (t: Self)
        ensures
            t.kind() == kind,
            t.buffer() == Seq::<u8>::empty(),
    {
        Transcript { kind, backend, accumulated: Vec::new() }
    }

    /// Absorb labelled bytes: not available yet, so the transcript is left
    /// as it is and the call reports an unimplemented proof system.
    pub fn absorb(&mut self, label: &'static [u8], data: &[u8]) -> (res: Result<(), OnChainError>)
        ensures
            res == Err::<(), OnChainError>(OnChainError::UnimplementedProofSystem),
            final(self).kind() == old(self).kind(),
            final(self).buffer() == old(self).buffer(),
    {
        Err(OnChainError::UnimplementedProofSystem)
    }

    /// Squeeze a challenge: not available yet, so the transcript is left as
    /// it is and the call reports an unimplemented proof system.
    pub fn squeeze_challenge_fr(&mut self) -> (res: Result<[u8; 32], OnChainError>)
        ensures
            res == Err::<[u8; 32], OnChainError>(OnChainError::UnimplementedProofSystem),
            final(self).kind() == old(self).kind(),
            final(self).buffer() == old(self).buffer(),
    {
        Err(OnChainError::UnimplementedProofSystem)
    }
}

} // verus!
