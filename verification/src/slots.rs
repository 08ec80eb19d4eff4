//! Sequences of 32-byte big-endian scalar slots.
use vstd::prelude::*;
use crate::bytes::{be_nat, chunk_at, window};
use crate::error::OnChainError;
use crate::field::{fr_values, Fr};
use crate::fr::fr_modulus;

verus! {

/// Value of the `i`-th 32-byte slot of `b`.
pub open spec fn slot(b: Seq<u8>, i: int) -> nat {
    be_nat(chunk_at(b, 32, i))
}

/// The values of the first `n` slots of `b`.
pub open spec fn slot_values(b: Seq<u8>, n: nat) -> Seq<nat> {
    Seq::new(n, |i: int| slot(b, i))
}

/// The first `n` slots of `b` are canonical scalars.
pub open spec fn slots_ok(b: Seq<u8>, n: nat) -> bool {
    forall|i: int| 0 <= i < n ==> #[trigger] slot(b, i) < fr_modulus()
}

/// Decode `n` consecutive canonical scalars.
pub fn decode_slots(bytes: &[u8], n: usize) -> (res: Result<Vec<Fr>, OnChainError>)
    requires
        bytes@.len() == 32 * n,
    ensures
        res is Ok <==> slots_ok(bytes@, n as nat),
        res matches Ok(v) ==> fr_values(v@) == slot_values(bytes@, n as nat),
        res is Err ==> res == Err::<Vec<Fr>, OnChainError>(OnChainError::PublicInputOutOfRange),
{
    let mut out: Vec<Fr> = Vec::new();
    let mut i: usize = 0;
    let _len = bytes.len();
    while i < n
        invariant
            0 <= i <= n,
            bytes@.len() == 32 * n <= usize::MAX,
            out@.len() == i,
            forall|j: int| 0 <= j < i ==> (#[trigger] out@[j])@ == slot(bytes@, j),
            forall|j: int| 0 <= j < i ==> #[trigger] slot(bytes@, j) < fr_modulus(),
        decreases n - i,
    {
        proof {
            assert(32 * i + 32 <= 32 * n) by (nonlinear_arith)
                requires
                    i < n,
            ;
        }
        let w = window(bytes, 32 * i, 32 * i + 32);
        proof {
            assert(w@ == chunk_at(bytes@, 32, i as int));
        }
        match Fr::from_canonical_bytes(w) {
            Ok(f) => {
                out.push(f);
            },
            Err(_) => {
                proof {
                    assert(!(slot(bytes@, i as int) < fr_modulus()));
                }
                return Err(OnChainError::PublicInputOutOfRange);
            },
        }
        i = i + 1;
    }
    proof {
        assert(fr_values(out@) =~= slot_values(bytes@, n as nat));
    }
    Ok(out)
}

} // verus!
