//! Sumcheck verifier for degree-2 round polynomials.
//!
//! Round `r` sends `p_r(X) = c_0 + c_1·X + c_2·X²` (three 32-byte
//! big-endian scalars). The verifier checks `p_r(0) + p_r(1) = C_r`,
//! absorbs the round bytes, squeezes `ξ_r` and moves on with
//! `C_{r+1} = p_r(ξ_r)`, starting from the claim `C_0`.
use vstd::prelude::*;
use crate::bytes::{be_nat, window};
use crate::error::OnChainError;
use crate::field::{add_fe, fe, mul_fe, val, Fr};
use crate::fr::fr_modulus;
use crate::syscall::SyscallBackend;
use crate::transcript::{hash_on, Transcript};

verus! {

/// Degree-2 round polynomial `c_0 + c_1·X + c_2·X²`.
#[derive(Clone, Copy, Debug, PartialEq, Eq)]
pub struct RoundPolynomial {
    /// Coefficients `[c_0, c_1, c_2]`.
    pub coeffs: [Fr; 3],
}

/// `c_0 + c_1·x + c_2·x²` over the field.
pub open spec fn poly_at(c0: nat, c1: nat, c2: nat, x: nat) -> nat {
    fe((c0 + c1 * x + c2 * x * x) as int)
}

/// Value of coefficient `j` of round `r` in a concatenation of rounds.
pub open spec fn coeff(b: Seq<u8>, r: int, j: int) -> nat {
    be_nat(b.subrange(96 * r + 32 * j, 96 * r + 32 * j + 32))
}

/// The three coefficients of round `r` are canonical scalars.
pub open spec fn coeffs_ok(b: Seq<u8>, r: int) -> bool {
    &&& coeff(b, r, 0) < fr_modulus()
    &&& coeff(b, r, 1) < fr_modulus()
    &&& coeff(b, r, 2) < fr_modulus()
}

/// `p_r(0) + p_r(1) = 2c_0 + c_1 + c_2` over the field.
pub open spec fn round_sum(b: Seq<u8>, r: int) -> nat {
    fe((2 * coeff(b, r, 0) + coeff(b, r, 1) + coeff(b, r, 2)) as int)
}

/// The running claim before round `r`, given the challenges `xs`.
pub open spec fn claim_before(init: nat, b: Seq<u8>, xs: Seq<nat>, r: int) -> nat {
    if r <= 0 {
        init
    } else {
        poly_at(coeff(b, r - 1, 0), coeff(b, r - 1, 1), coeff(b, r - 1, 2), xs[r - 1])
    }
}

/// Round `r` decodes and meets its identity.
pub open spec fn round_ok(init: nat, b: Seq<u8>, xs: Seq<nat>, r: int) -> bool {
    coeffs_ok(b, r) && round_sum(b, r) == claim_before(init, b, xs, r)
}

/// The challenges drawn from replies `k0, k0 + 1, …`.
pub open spec fn challenges_from(replies: Seq<Seq<u8>>, k0: int, n: nat) -> Seq<nat> {
    Seq::new(n, |j: int| be_nat(replies[k0 + j]) % fr_modulus())
}

/// The buffers hashed by the rounds: the starting buffer followed by the
/// bytes of rounds `0..=j`.
pub open spec fn round_queries(base: Seq<u8>, b: Seq<u8>, n: nat) -> Seq<Seq<u8>> {
    Seq::new(n, |j: int| base + b.subrange(0, 96 * (j + 1)))
}

/// Outcome of a successful sumcheck.
#[derive(Clone, Debug)]
pub struct SumcheckOutput {
    /// The claim after the last round, `p_{n−1}(ξ_{n−1})`.
    pub final_claim: Fr,
    /// The challenges `ξ_0, …, ξ_{n−1}`.
    pub challenges: Vec<Fr>,
}

impl RoundPolynomial {
    /// Decode 96 bytes as three canonical scalars. Another length is a
    /// length error; a scalar at or above `r` a range error.
    pub fn from_bytes(bytes: &[u8]) -> (res: Result<Self, OnChainError>)
        ensures
            bytes@.len() != 96 ==> res == Err::<Self, OnChainError>(
                OnChainError::ProofLengthMismatch,
            ),
            bytes@.len() == 96 ==> (res is Ok <==> coeffs_ok(bytes@, 0)),
            bytes@.len() == 96 && res is Err ==> res == Err::<Self, OnChainError>(
                OnChainError::PublicInputOutOfRange,
            ),
            res matches Ok(p) ==> p.coeffs[0]@ == coeff(bytes@, 0, 0) && p.coeffs[1]@ == coeff(
                bytes@,
                0,
                1,
            ) && p.coeffs[2]@ == coeff(bytes@, 0, 2),
    {
        if bytes.len() != 96 {
            return Err(OnChainError::ProofLengthMismatch);
        }
        let c0 = Fr::from_canonical_bytes(window(bytes, 0, 32))?;
        let c1 = Fr::from_canonical_bytes(window(bytes, 32, 64))?;
        let c2 = Fr::from_canonical_bytes(window(bytes, 64, 96))?;
        Ok(RoundPolynomial { coeffs: [c0, c1, c2] })
    }

    /// `p(0) = c_0`.
    pub fn eval_at_zero(&self) -> (res: Fr)
        ensures
            res == self.coeffs[0],
    {
        self.coeffs[0]
    }

    /// `p(1) = c_0 + c_1 + c_2`.
    pub fn eval_at_one(&self) -> (res: Fr)
        ensures
            res@ == fe(val(self.coeffs[0]) + val(self.coeffs[1]) + val(self.coeffs[2])),
    {
        let ghost (a, b, c) = (val(self.coeffs[0]), val(self.coeffs[1]), val(self.coeffs[2]));
        let t = add_fe(&self.coeffs[0], &self.coeffs[1], Ghost(a), Ghost(b));
        add_fe(&t, &self.coeffs[2], Ghost(a + b), Ghost(c))
    }

    /// `p(0) + p(1) = 2c_0 + c_1 + c_2`.
    pub fn evals_sum_on_boolean_cube(&self) -> (res: Fr)
        ensures
            res@ == fe(2 * val(self.coeffs[0]) + val(self.coeffs[1]) + val(self.coeffs[2])),
    {
        let ghost (a, b, c) = (val(self.coeffs[0]), val(self.coeffs[1]), val(self.coeffs[2]));
        let one = self.eval_at_one();
        proof {
            crate::field::lemma_fe_idem(a + b + c);
        }
        let r = add_fe(&self.coeffs[0], &one, Ghost(a), Ghost(a + b + c));
        r
    }

    /// `p(x)` by Horner's rule, `(c_2·x + c_1)·x + c_0`.
    pub fn eval_at(&self, x: &Fr) -> (res: Fr)
        ensures
            res@ == poly_at(self.coeffs[0]@, self.coeffs[1]@, self.coeffs[2]@, x@),
    {
        let ghost (a, b, c, xi) = (
            val(self.coeffs[0]),
            val(self.coeffs[1]),
            val(self.coeffs[2]),
            val(*x),
        );
        let acc = mul_fe(&self.coeffs[2], x, Ghost(c), Ghost(xi));
        let acc = add_fe(&acc, &self.coeffs[1], Ghost(c * xi), Ghost(b));
        let acc = mul_fe(&acc, x, Ghost(c * xi + b), Ghost(xi));
        let acc = add_fe(&acc, &self.coeffs[0], Ghost((c * xi + b) * xi), Ghost(a));
        proof {
            assert((c * xi + b) * xi + a == a + b * xi + c * xi * xi) by (nonlinear_arith);
        }
        acc
    }
}

/// Check a sumcheck over `num_rounds` round polynomials, continuing the
/// given transcript (its buffer is not reset: each challenge hashes
/// everything absorbed so far).
///
/// A buffer of another length than `96 · num_rounds` is a length error; a
/// coefficient at or above `r` a range error; a failed round identity a
/// Each of the queries `qs` got, at `k0` and after, the backend's `kind`
/// hash as its reply.
pub open spec fn rounds_answered<B: SyscallBackend + ?Sized>(
    b: &B,
    kind: crate::transcript::Kind,
    qs: Seq<Seq<u8>>,
    replies: Seq<Seq<u8>>,
    k0: int,
) -> bool {
    forall|j: int|
        0 <= j < qs.len() ==> hash_on(b, kind, #[trigger] qs[j]) == Ok::<Seq<u8>, OnChainError>(
            replies[k0 + j],
        )
}

/// The `n` rounds over `polys` from the claim `init` pass for the
/// backend: it answers every round's query, and every round polynomial
/// decodes and sums to its claim under the challenges the answers give.
pub open spec fn sumcheck_passes<B: SyscallBackend + ?Sized>(
    b: &B,
    kind: crate::transcript::Kind,
    base: Seq<u8>,
    polys: Seq<u8>,
    n: nat,
    init: nat,
) -> bool {
    exists|rs: Seq<Seq<u8>>|
        #[trigger] rounds_answered(b, kind, round_queries(base, polys, n), rs, 0) && forall|j: int|
            0 <= j < n ==> #[trigger] round_ok(init, polys, challenges_from(rs, 0, n), j)
}

/// In a passing run, round `r` decodes, sums to the claim the transcript's
/// own earlier answers give, and gets an answer.
proof fn lemma_passing_round<B: SyscallBackend + ?Sized>(
    bk: &B,
    kind: crate::transcript::Kind,
    base: Seq<u8>,
    b: Seq<u8>,
    n: nat,
    init: nat,
    replies: Seq<Seq<u8>>,
    k0: int,
    r: int,
)
    requires
        sumcheck_passes(bk, kind, base, b, n, init),
        0 <= r < n,
        0 <= k0,
        replies.len() >= k0 + r,
        rounds_answered(bk, kind, round_queries(base, b, r as nat), replies, k0),
    ensures
        coeffs_ok(b, r),
        round_sum(b, r) == claim_before(init, b, challenges_from(replies, k0, r as nat), r),
        hash_on(bk, kind, base + b.subrange(0, 96 * (r + 1))) is Ok,
{
    let rs = choose|rs: Seq<Seq<u8>>|
        #[trigger] rounds_answered(bk, kind, round_queries(base, b, n), rs, 0) && forall|j: int|
            0 <= j < n ==> #[trigger] round_ok(init, b, challenges_from(rs, 0, n), j);
    let xs = challenges_from(rs, 0, n);
    assert(round_ok(init, b, xs, r));
    assert(round_queries(base, b, n)[r] == base + b.subrange(0, 96 * (r + 1)));
    if r > 0 {
        let q = round_queries(base, b, n)[r - 1];
        assert(round_queries(base, b, r as nat)[r - 1] == q);
        assert(hash_on(bk, kind, q) == Ok::<Seq<u8>, OnChainError>(rs[r - 1]));
        assert(hash_on(bk, kind, q) == Ok::<Seq<u8>, OnChainError>(replies[k0 + r - 1]));
        assert(challenges_from(replies, k0, r as nat)[r - 1] == xs[r - 1]);
    }
}

/// failed check; hash errors are passed on.
pub fn verify_sumcheck<B: SyscallBackend + ?Sized>(
    transcript: &mut Transcript<'_, B>,
    initial_claim: &Fr,
    round_polys_bytes: &[u8],
    num_rounds: u32,
) -> (res: Result<SumcheckOutput, OnChainError>)
    ensures
        round_polys_bytes@.len() != 96 * num_rounds ==> res == Err::<SumcheckOutput, OnChainError>(
            OnChainError::ProofLengthMismatch,
        ),
        final(transcript).kind() == old(transcript).kind(),
        final(transcript).backend() == old(transcript).backend(),
        res matches Ok(out) ==> {
            let k0 = old(transcript).replies().len() as int;
            let xs = challenges_from(final(transcript).replies(), k0, num_rounds as nat);
            let b = round_polys_bytes@;
            &&& rounds_answered(
                old(transcript).backend(),
                old(transcript).kind(),
                round_queries(old(transcript).buffer(), b, num_rounds as nat),
                final(transcript).replies(),
                k0,
            )
            &&& b.len() == 96 * num_rounds
            &&& final(transcript).replies().len() == k0 + num_rounds
            &&& final(transcript).replies().take(k0) == old(transcript).replies()
            &&& final(transcript).queries() == old(transcript).queries() + round_queries(
                old(transcript).buffer(),
                b,
                num_rounds as nat,
            )
            &&& final(transcript).buffer() == old(transcript).buffer() + b
            &&& forall|r: int| 0 <= r < num_rounds ==> #[trigger] round_ok(initial_claim@, b, xs, r)
            &&& out.challenges@.len() == num_rounds
            &&& forall|r: int| 0 <= r < num_rounds ==> (#[trigger] out.challenges@[r])@ == xs[r]
            &&& out.final_claim@ == claim_before(initial_claim@, b, xs, num_rounds as int)
        },
        round_polys_bytes@.len() == 96 * num_rounds && sumcheck_passes(
            old(transcript).backend(),
            old(transcript).kind(),
            old(transcript).buffer(),
            round_polys_bytes@,
            num_rounds as nat,
            initial_claim@,
        ) ==> res is Ok,
        res is Err && round_polys_bytes@.len() == 96 * num_rounds ==> {
            let k0 = old(transcript).replies().len() as int;
            let m = final(transcript).replies().len() - k0;
            let xs = challenges_from(final(transcript).replies(), k0, m as nat);
            let b = round_polys_bytes@;
            &&& 0 <= m < num_rounds
            &&& forall|q: int| 0 <= q < m ==> #[trigger] round_ok(initial_claim@, b, xs, q)
            &&& !coeffs_ok(b, m) ==> res == Err::<SumcheckOutput, OnChainError>(
                OnChainError::PublicInputOutOfRange,
            )
            &&& coeffs_ok(b, m) && round_sum(b, m) != claim_before(initial_claim@, b, xs, m)
                ==> res == Err::<SumcheckOutput, OnChainError>(OnChainError::SumcheckFailed)
        },
{
    let n = num_rounds as u64;
    if round_polys_bytes.len() as u64 != n * 96 {
        return Err(OnChainError::ProofLengthMismatch);
    }
    let ghost k0 = transcript.replies().len() as int;
    let ghost q0 = transcript.queries();
    let ghost base = transcript.buffer();
    let ghost b = round_polys_bytes@;
    let ghost init = initial_claim@;
    let nr = num_rounds as usize;
    let mut claim = *initial_claim;
    let mut challenges: Vec<Fr> = Vec::new();
    let mut r: usize = 0;
    let _len = round_polys_bytes.len();
    while r < nr
        invariant
            0 <= r <= nr,
            nr == num_rounds,
            b == round_polys_bytes@,
            b.len() == 96 * nr,
            b.len() <= usize::MAX,
            init == initial_claim@,
            transcript.kind() == old(transcript).kind(),
            transcript.backend() == old(transcript).backend(),
            rounds_answered(
                old(transcript).backend(),
                old(transcript).kind(),
                round_queries(base, b, r as nat),
                transcript.replies(),
                k0,
            ),
            transcript.replies().len() == k0 + r,
            transcript.replies().take(k0) == old(transcript).replies(),
            k0 == old(transcript).replies().len(),
            q0 == old(transcript).queries(),
            base == old(transcript).buffer(),
            transcript.queries() == q0 + round_queries(base, b, r as nat),
            transcript.buffer() == base + b.subrange(0, 96 * r),
            challenges@.len() == r,
            forall|j: int| 0 <= j < r ==> #[trigger] round_ok(
                init,
                b,
                challenges_from(transcript.replies(), k0, r as nat),
                j,
            ),
            forall|j: int| 0 <= j < r ==> (#[trigger] challenges@[j])@ == challenges_from(
                transcript.replies(),
                k0,
                r as nat,
            )[j],
            claim@ == claim_before(init, b, challenges_from(transcript.replies(), k0, r as nat), r as int),
        decreases nr - r,
    {
        let ghost xs_prev = challenges_from(transcript.replies(), k0, r as nat);
        proof {
            assert(96 * r + 96 <= 96 * nr) by (nonlinear_arith)
                requires
                    r < nr,
            ;
        }
        let bytes = window(round_polys_bytes, 96 * r, 96 * r + 96);
        proof {
            assert(bytes@.subrange(0, 32) =~= b.subrange(96 * r, 96 * r + 32));
            assert(bytes@.subrange(32, 64) =~= b.subrange(96 * r + 32, 96 * r + 64));
            assert(bytes@.subrange(64, 96) =~= b.subrange(96 * r + 64, 96 * r + 96));
        }
        let p = match RoundPolynomial::from_bytes(bytes) {
            Ok(p) => p,
            Err(e) => {
                proof {
                    assert(challenges_from(transcript.replies(), k0, (transcript.replies().len() - k0) as nat)
                        =~= xs_prev);
                    if sumcheck_passes(old(transcript).backend(), old(transcript).kind(), base, b, nr as nat, init) {
                        lemma_passing_round(old(transcript).backend(), old(transcript).kind(), base, b,
                            nr as nat, init, transcript.replies(), k0, r as int);
                        assert(coeffs_ok(bytes@, 0));
                    }
                }
                return Err(e);
            },
        };
        let s = p.evals_sum_on_boolean_cube();
        proof {
            crate::field::lemma_fr_eq(s, claim);
        }
        if s != claim {
            proof {
                assert(challenges_from(transcript.replies(), k0, (transcript.replies().len() - k0) as nat)
                    =~= xs_prev);
                assert(coeffs_ok(b, r as int));
                assert(round_sum(b, r as int) != claim_before(init, b, xs_prev, r as int));
                if sumcheck_passes(old(transcript).backend(), old(transcript).kind(), base, b, nr as nat, init) {
                    lemma_passing_round(old(transcript).backend(), old(transcript).kind(), base, b,
                        nr as nat, init, transcript.replies(), k0, r as int);
                }
            }
            return Err(OnChainError::SumcheckFailed);
        }
        transcript.absorb(bytes);
        let ghost before_replies = transcript.replies();
        let ghost before_queries = transcript.queries();
        let ghost before_buffer = transcript.buffer();
        let (_, xi) = match transcript.challenge_fr() {
            Ok(v) => v,
            Err(e) => {
                proof {
                    assert(challenges_from(transcript.replies(), k0, (transcript.replies().len() - k0) as nat)
                        =~= xs_prev);
                    assert(before_buffer =~= base + b.subrange(0, 96 * (r + 1)));
                    if sumcheck_passes(old(transcript).backend(), old(transcript).kind(), base, b, nr as nat, init) {
                        lemma_passing_round(old(transcript).backend(), old(transcript).kind(), base, b,
                            nr as nat, init, transcript.replies(), k0, r as int);
                    }
                }
                return Err(e);
            },
        };
        let next = p.eval_at(&xi);
        proof {
            let xs_new = challenges_from(transcript.replies(), k0, (r + 1) as nat);
            assert(transcript.replies().take(k0) =~= before_replies.take(k0));
            assert forall|j: int| 0 <= j < r implies xs_new[j] == xs_prev[j] by {
                assert(transcript.replies()[k0 + j] == before_replies[k0 + j]);
            }
            assert(xs_new[r as int] == xi@);
            assert forall|j: int| 0 <= j <= r implies #[trigger] round_ok(init, b, xs_new, j) by {
                if j < r {
                    assert(round_ok(init, b, xs_prev, j));
                    assert(claim_before(init, b, xs_new, j) == claim_before(init, b, xs_prev, j));
                } else {
                    assert(claim_before(init, b, xs_new, j) == claim_before(init, b, xs_prev, j));
                }
            }
            assert(b.subrange(0, 96 * (r + 1)) =~= b.subrange(0, 96 * r) + bytes@);
            assert(before_buffer =~= base + b.subrange(0, 96 * (r + 1)));
            assert(round_queries(base, b, (r + 1) as nat) =~= round_queries(base, b, r as nat).push(
                base + b.subrange(0, 96 * (r + 1)),
            ));
            assert(transcript.queries() =~= q0 + round_queries(base, b, (r + 1) as nat));
            let qn = round_queries(base, b, (r + 1) as nat);
            let qp = round_queries(base, b, r as nat);
            assert forall|j: int| 0 <= j < qn.len() implies hash_on(
                old(transcript).backend(),
                old(transcript).kind(),
                #[trigger] qn[j],
            ) == Ok::<Seq<u8>, OnChainError>(transcript.replies()[k0 + j]) by {
                if j < r {
                    assert(qn[j] == qp[j]);
                    assert(transcript.replies()[k0 + j] == before_replies[k0 + j]);
                }
            }
        }
        claim = next;
        challenges.push(xi);
        proof {
            let xs_new = challenges_from(transcript.replies(), k0, (r + 1) as nat);
            assert forall|j: int| 0 <= j < r + 1 implies (#[trigger] challenges@[j])@ == xs_new[j] by {
                if j < r {
                    assert(transcript.replies()[k0 + j] == before_replies[k0 + j]);
                }
            }
        }
        r = r + 1;
    }
    proof {
        assert(b.subrange(0, 96 * nr) =~= b);
    }
    Ok(SumcheckOutput { final_claim: claim, challenges })
}

/// The canonical encoding of a round polynomial: three big-endian
/// scalars.
pub fn encode_round_polynomial(p: &RoundPolynomial) -> (out: [u8; 96])
    ensures
        out@ == p.coeffs[0].bytes() + p.coeffs[1].bytes() + p.coeffs[2].bytes(),
{
    let c0 = p.coeffs[0].to_bytes();
    let c1 = p.coeffs[1].to_bytes();
    let c2 = p.coeffs[2].to_bytes();
    let mut out = [0u8; 96];
    let mut i: usize = 0;
    while i < 32
        invariant
            0 <= i <= 32,
            out@.len() == 96,
            forall|j: int| 0 <= j < i ==> out@[j] == c0@[j],
            forall|j: int| 0 <= j < i ==> out@[32 + j] == c1@[j],
            forall|j: int| 0 <= j < i ==> out@[64 + j] == c2@[j],
        decreases 32 - i,
    {
        out[i] = c0[i];
        out[32 + i] = c1[i];
        out[64 + i] = c2[i];
        i = i + 1;
    }
    assert(out@ =~= c0@ + c1@ + c2@);
    out
}

/// The zero polynomial's encoding: 96 zero bytes.
pub fn zero_round_polynomial_bytes() -> (out: [u8; 96])
    ensures
        out@ == Seq::new(96, |i: int| 0u8),
{
    let out = [0u8; 96];
    assert(out@ =~= Seq::new(96, |i: int| 0u8));
    out
}

/// The zero claim.
pub fn zero_claim() -> (res: Fr)
    ensures
        res@ == 0,
{
    Fr::zero()
}

/// The unit claim.
pub fn one_claim() -> (res: Fr)
    ensures
        res@ == 1,
{
    Fr::one()
}

/// Decoding the encoding of a round polynomial whose coefficients are
/// canonical gives back its coefficients.
pub proof fn lemma_round_polynomial_roundtrip(p: RoundPolynomial)
    requires
        forall|j: int| 0 <= j < 3 ==> (#[trigger] p.coeffs[j]).bytes().len() == 32,
        forall|j: int| 0 <= j < 3 ==> (#[trigger] p.coeffs[j])@ < fr_modulus(),
    ensures
        ({
            let b = p.coeffs[0].bytes() + p.coeffs[1].bytes() + p.coeffs[2].bytes();
            &&& b.len() == 96
            &&& coeffs_ok(b, 0)
            &&& coeff(b, 0, 0) == p.coeffs[0]@
            &&& coeff(b, 0, 1) == p.coeffs[1]@
            &&& coeff(b, 0, 2) == p.coeffs[2]@
        }),
{
    let (b0, b1, b2) = (p.coeffs[0].bytes(), p.coeffs[1].bytes(), p.coeffs[2].bytes());
    let b = b0 + b1 + b2;
    assert(b.subrange(0, 32) =~= b0);
    assert(b.subrange(32, 64) =~= b1);
    assert(b.subrange(64, 96) =~= b2);
}

/// `p(0)` is `c_0` and `p(1)` is `c_0 + c_1 + c_2`.
pub proof fn lemma_poly_at_endpoints(c0: nat, c1: nat, c2: nat)
    ensures
        poly_at(c0, c1, c2, 0) == fe(c0 as int),
        poly_at(c0, c1, c2, 1) == fe((c0 + c1 + c2) as int),
{
    assert(c1 * 0 == 0 && c2 * 0 * 0 == 0) by (nonlinear_arith);
    assert(c1 * 1 == c1 && c2 * 1 * 1 == c2) by (nonlinear_arith);
}

} // verus!
