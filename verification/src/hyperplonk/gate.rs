//! The PLONK-style gate at the sumcheck point:
//! `q_M·a·b + q_L·a + q_R·b + q_O·c + q_C`.
use vstd::prelude::*;
use crate::bytes::{be_nat, window};
use crate::error::OnChainError;
use crate::field::Fr;
use crate::fr::fr_modulus;
pub use crate::halo2::circuit::{gate_value, SelectorEvals, WireEvals};

verus! {

/// Selector polynomial `q_M·a·b + q_L·a + q_R·b + q_O·c + q_C` at the wires.
pub fn gate_expr(wires: &WireEvals, selectors: &SelectorEvals) -> (res: Fr)
    ensures
        res@ == gate_value(*wires, *selectors),
{
    crate::halo2::circuit::gate_expr(wires, selectors)
}

/// Decode `a, b, c` from the first three scalars of `bytes`. Fewer than
/// 96 bytes is a length error; a scalar at or above `r` a range error.
pub fn decode_wire_evals(bytes: &[u8]) -> (res: Result<WireEvals, OnChainError>)
    ensures
        bytes@.len() < 96 ==> res == Err::<WireEvals, OnChainError>(
            OnChainError::ProofLengthMismatch,
        ),
        bytes@.len() >= 96 ==> (res is Ok <==> (be_nat(bytes@.subrange(0, 32)) < fr_modulus()
            && be_nat(bytes@.subrange(32, 64)) < fr_modulus() && be_nat(bytes@.subrange(64, 96))
            < fr_modulus())),
        bytes@.len() >= 96 && res is Err ==> res == Err::<WireEvals, OnChainError>(
            OnChainError::PublicInputOutOfRange,
        ),
        res matches Ok(w) ==> w.a@ == be_nat(bytes@.subrange(0, 32)) && w.b@ == be_nat(
            bytes@.subrange(32, 64),
        ) && w.c@ == be_nat(bytes@.subrange(64, 96)),
{
    if bytes.len() < 96 {
        return Err(OnChainError::ProofLengthMismatch);
    }
    let a = Fr::from_canonical_bytes(window(bytes, 0, 32))?;
    let b = Fr::from_canonical_bytes(window(bytes, 32, 64))?;
    let c = Fr::from_canonical_bytes(window(bytes, 64, 96))?;
    Ok(WireEvals { a, b, c })
}

} // verus!
