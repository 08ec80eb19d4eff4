//! Typed slots of a Halo2 proof's flat evaluation buffer.
//!
//! For lookup arity `k` the buffer holds, in order: the wires `a, b, c`
//! (slots 0–2), the selectors `q_M, q_L, q_R, q_O, q_C` (3–7), the
//! permutation evaluations `z, z(ξω), σ1, σ2, σ3` (8–12), `k` lookup inputs,
//! `k` lookup tables, the multiplicity `m`, and then the quotient chunks.
//! The fixed part is `13 + 2k + 1` slots.
use vstd::prelude::*;
use crate::slots::{decode_slots, slot, slot_values};
use crate::error::OnChainError;
use crate::field::{fr_values, Fr};
use crate::fr::{fr_modulus, FR_LEN};
use crate::halo2::canonical::Halo2KzgProof;
use crate::halo2::circuit::{
    LookupEvals, MultiColumnLookupEvals, PermutationEvals, SelectorEvals, WireEvals,
};

pub mod idx;

verus! {

/// Number of evaluations a proof with this arity and quotient count
/// carries.
pub open spec fn expected_evals(arity: nat, n_quotient: nat) -> nat {
    14 + 2 * arity + n_quotient
}

/// The arity whose layout a declared lookup arity uses: arity 0 uses the
/// single-column layout of arity 1.
pub open spec fn layout_arity(arity: u32) -> nat {
    if arity == 0 {
        1
    } else {
        arity as nat
    }
}

/// Decoded evaluation bundle.
#[derive(Clone, Debug)]
pub struct EvaluationBundle {
    /// Wire evaluations.
    pub wires: WireEvals,
    /// Selector evaluations.
    pub selectors: SelectorEvals,
    /// Permutation evaluations.
    pub permutation: PermutationEvals,
    /// First input/table column pair and the multiplicity.
    pub lookup: LookupEvals,
    /// All column pairs, present for arity 2 and above.
    pub multi_lookup: Option<MultiColumnLookupEvals>,
    /// Quotient chunk evaluations `h_i(ξ)`.
    pub quotient_chunks: Vec<Fr>,
}

/// The bundle holds the slot values `v` of a buffer with lookup arity `k`.
pub open spec fn bundle_layout(e: EvaluationBundle, v: Seq<nat>, k: int) -> bool {
    &&& e.wires.a@ == v[0] && e.wires.b@ == v[1] && e.wires.c@ == v[2]
    &&& e.selectors.q_m@ == v[3] && e.selectors.q_l@ == v[4] && e.selectors.q_r@ == v[5]
    &&& e.selectors.q_o@ == v[6] && e.selectors.q_c@ == v[7]
    &&& e.permutation.z@ == v[8] && e.permutation.z_next@ == v[9]
    &&& e.permutation.sigma_1@ == v[10] && e.permutation.sigma_2@ == v[11]
    &&& e.permutation.sigma_3@ == v[12]
    &&& e.lookup.input@ == v[13]
    &&& e.lookup.table@ == v[13 + k]
    &&& e.lookup.m@ == v[13 + 2 * k]
    &&& (k >= 2 ==> (e.multi_lookup matches Some(l) && fr_values(l.input_cols@) == v.subrange(
        13,
        13 + k,
    ) && fr_values(l.table_cols@) == v.subrange(13 + k, 13 + 2 * k) && l.m@ == v[13 + 2 * k]))
    &&& (k < 2 ==> e.multi_lookup is None)
    &&& fr_values(e.quotient_chunks@) == v.subrange(14 + 2 * k, v.len() as int)
}

/// A copy of `v[lo..hi]`.
fn copy_range(v: &Vec<Fr>, lo: usize, hi: usize) -> (res: Vec<Fr>)
    requires
        lo <= hi <= v@.len(),
    ensures
        res@ == v@.subrange(lo as int, hi as int),
{
    let mut out: Vec<Fr> = Vec::new();
    let mut i: usize = lo;
    while i < hi
        invariant
            lo <= i <= hi <= v@.len(),
            out@ == v@.subrange(lo as int, i as int),
        decreases hi - i,
    {
        out.push(v[i]);
        assert(out@ =~= v@.subrange(lo as int, i + 1));
        i = i + 1;
    }
    out
}

impl EvaluationBundle {
    /// Decode the evaluation buffer of `proof`.
    ///
    /// The declared evaluation count must be `13 + 2k + 1 + n_quotient`
    /// for lookup arity `k` (arity 0 and 1 both use the arity-1 layout of
    /// `16 + n_quotient` slots), and the buffer must hold exactly that many
    /// scalars (length errors); every slot must be below `r` (range error).
    pub fn from_proof(proof: &Halo2KzgProof) -> (res: Result<Self, OnChainError>)
        ensures
            ({
                let n = expected_evals(layout_arity(proof.lookup_arity), proof.n_quotient as nat);
                &&& (proof.n_evals != n || proof.evaluations@.len() != 32 * n)
                    ==> res == Err::<Self, OnChainError>(OnChainError::ProofLengthMismatch)
                &&& (proof.n_evals == n && proof.evaluations@.len() == 32 * n) ==> (res is Ok
                    <==> forall|i: int| 0 <= i < n ==> #[trigger] slot(proof.evaluations@, i)
                    < fr_modulus())
                &&& (proof.n_evals == n && proof.evaluations@.len() == 32 * n && res is Err)
                    ==> res == Err::<Self, OnChainError>(OnChainError::PublicInputOutOfRange)
                &&& res matches Ok(e) ==> bundle_layout(
                    e,
                    slot_values(proof.evaluations@, n),
                    layout_arity(proof.lookup_arity) as int,
                )
            }),
    {
        let arity = if proof.lookup_arity == 0 {
            1
        } else {
            proof.lookup_arity
        };
        let k64 = arity as u64;
        let expected64 = 14 + 2 * k64 + proof.n_quotient as u64;
        if proof.n_evals as u64 != expected64 {
            return Err(OnChainError::ProofLengthMismatch);
        }
        let n = proof.n_evals as usize;
        let k = arity as usize;
        let bytes = proof.evaluations;
        if bytes.len() as u64 != (n as u64) * 32 {
            return Err(OnChainError::ProofLengthMismatch);
        }
        let v = decode_slots(bytes, n);
        let v = match v {
            Ok(v) => v,
            Err(e) => {
                return Err(e);
            },
        };
        let ghost vals = slot_values(bytes@, n as nat);
        proof {
            assert(fr_values(v@) == vals);
            assert(fr_values(v@).len() == v@.len());
            assert forall|i: int| 0 <= i < n implies (#[trigger] v@[i])@ == vals[i] by {
                assert(fr_values(v@)[i] == vals[i]);
            }
        }
        let wires = WireEvals { a: v[0], b: v[1], c: v[2] };
        let selectors = SelectorEvals { q_m: v[3], q_l: v[4], q_r: v[5], q_o: v[6], q_c: v[7] };
        let permutation = PermutationEvals {
            z: v[8],
            z_next: v[9],
            sigma_1: v[10],
            sigma_2: v[11],
            sigma_3: v[12],
        };
        let input_cols = copy_range(&v, 13, 13 + k);
        let table_cols = copy_range(&v, 13 + k, 13 + 2 * k);
        let m = v[13 + 2 * k];
        let lookup = LookupEvals { input: v[13], table: v[13 + k], m };
        let multi_lookup = if k >= 2 {
            match MultiColumnLookupEvals::try_new(input_cols, table_cols, m) {
                Ok(l) => Some(l),
                Err(e) => {
                    return Err(e);
                },
            }
        } else {
            None
        };
        let quotient_chunks = copy_range(&v, 14 + 2 * k, n);
        proof {
            assert(fr_values(quotient_chunks@) =~= vals.subrange(14 + 2 * k, n as int));
            if k >= 2 {
                assert(fr_values(input_cols@) =~= vals.subrange(13, 13 + k));
                assert(fr_values(table_cols@) =~= vals.subrange(13 + k, 13 + 2 * k));
            }
        }
        Ok(EvaluationBundle {
            wires,
            selectors,
            permutation,
            lookup,
            multi_lookup,
            quotient_chunks,
        })
    }
}

} // verus!
