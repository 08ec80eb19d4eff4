//! BN254 curve helpers over the backend's group operations: point
//! addition, scalar multiplication, multi-scalar multiplication, negation
//! and the two-pair pairing check, with the generator encodings.
//!
//! Points are 64-byte big-endian `x ‖ y` (G1) and 128-byte EIP-197
//! encodings (G2); the identity is all zeros.
use vstd::prelude::*;
use crate::bytes::{
    be_nat, copy64, lemma_be_nat_bound, lemma_be_nat_first, pow256, push_all,
};
use crate::error::OnChainError;
use crate::syscall::{group_op_on, lemma_slice_chosen, AltBn128Op, InputEndianness, SyscallBackend};

verus! {

/// The BN254 base field modulus `q`.
pub open spec fn fq_modulus() -> nat {
    21888242871839275222246405745257275088696311157297823662689037894645226208583nat
}

/// `q`, big-endian.
pub const BN254_FQ_MODULUS_BE: [u8; 32] = [
    0x30, 0x64, 0x4e, 0x72, 0xe1, 0x31, 0xa0, 0x29, 0xb8, 0x50, 0x45, 0xb6, 0x81, 0x81, 0x58, 0x5d,
    0x97, 0x81, 0x6a, 0x91, 0x68, 0x71, 0xca, 0x8d, 0x3c, 0x20, 0x8c, 0x16, 0xd8, 0x7c, 0xfd, 0x47,
];

/// The constant holds `q`.
pub proof fn lemma_fq_modulus_const()
    ensures
        be_nat(BN254_FQ_MODULUS_BE@) == fq_modulus(),
{
    reveal_with_fuel(be_nat, 33);
}

/// G1 generator `(1, 2)`.
pub const G1_GENERATOR: [u8; 64] = [
    0, 0, 0, 0, 0, 0, 0, 0, 0, 0, 0, 0, 0, 0, 0, 0, 0, 0, 0, 0, 0, 0, 0, 0, 0, 0, 0, 0, 0, 0, 0, 1,
    0, 0, 0, 0, 0, 0, 0, 0, 0, 0, 0, 0, 0, 0, 0, 0, 0, 0, 0, 0, 0, 0, 0, 0, 0, 0, 0, 0, 0, 0, 0, 2,
];

/// G2 generator in EIP-197 order `x_im ‖ x_re ‖ y_im ‖ y_re`.
pub const G2_GENERATOR: [u8; 128] = [
    0x19, 0x8e, 0x93, 0x93, 0x92, 0x0d, 0x48, 0x3a, 0x72, 0x60, 0xbf, 0xb7, 0x31, 0xfb, 0x5d, 0x25,
    0xf1, 0xaa, 0x49, 0x33, 0x35, 0xa9, 0xe7, 0x12, 0x97, 0xe4, 0x85, 0xb7, 0xae, 0xf3, 0x12, 0xc2,
    0x18, 0x00, 0xde, 0xef, 0x12, 0x1f, 0x1e, 0x76, 0x42, 0x6a, 0x00, 0x66, 0x5e, 0x5c, 0x44, 0x79,
    0x67, 0x43, 0x22, 0xd4, 0xf7, 0x5e, 0xda, 0xdd, 0x46, 0xde, 0xbd, 0x5c, 0xd9, 0x92, 0xf6, 0xed,
    0x09, 0x06, 0x89, 0xd0, 0x58, 0x5f, 0xf0, 0x75, 0xec, 0x9e, 0x99, 0xad, 0x69, 0x0c, 0x33, 0x95,
    0xbc, 0x4b, 0x31, 0x33, 0x70, 0xb3, 0x8e, 0xf3, 0x55, 0xac, 0xda, 0xdc, 0xd1, 0x22, 0x97, 0x5b,
    0x12, 0xc8, 0x5e, 0xa5, 0xdb, 0x8c, 0x6d, 0xeb, 0x4a, 0xab, 0x71, 0x80, 0x8d, 0xcb, 0x40, 0x8f,
    0xe3, 0xd1, 0xe7, 0x69, 0x0c, 0x43, 0xd3, 0x7b, 0x4c, 0xe6, 0xcc, 0x01, 0x66, 0xfa, 0x7d, 0xaa,
];

/// The G1 generator encoding.
pub fn g1_generator_bytes() -> (g: [u8; 64])
    ensures
        g@ == G1_GENERATOR@,
{
    G1_GENERATOR
}

/// The G2 generator encoding.
pub fn g2_generator_bytes() -> (g: [u8; 128])
    ensures
        g@ == G2_GENERATOR@,
{
    G2_GENERATOR
}

/// Every byte is zero.
pub open spec fn all_zero(s: Seq<u8>) -> bool {
    forall|i: int| 0 <= i < s.len() ==> s[i] == 0
}

/// The negation of a G1 encoding: the identity stays, otherwise `y`
/// becomes `q − y` (modulo `2^256`).
pub open spec fn negated(p: Seq<u8>, n: Seq<u8>) -> bool {
    &&& n.len() == 64
    &&& all_zero(p) ==> n == p
    &&& !all_zero(p) ==> {
        &&& n.subrange(0, 32) == p.subrange(0, 32)
        &&& be_nat(n.subrange(32, 64)) == (fq_modulus() + pow256(32) - be_nat(p.subrange(32, 64)))
            % (pow256(32) as int)
    }
}

/// The negation of a G1 encoding, as a function.
pub open spec fn neg_point(p: Seq<u8>) -> Seq<u8> {
    choose|n: Seq<u8>| negated(p, n)
}

/// A G1 encoding has one negation.
proof fn lemma_negated_unique(p: Seq<u8>, n1: Seq<u8>, n2: Seq<u8>)
    requires
        negated(p, n1),
        negated(p, n2),
    ensures
        n1 == n2,
{
    if !all_zero(p) {
        crate::bytes::lemma_be_nat_injective(n1.subrange(32, 64), n2.subrange(32, 64));
        assert(n1 =~= n1.subrange(0, 32) + n1.subrange(32, 64));
        assert(n2 =~= n2.subrange(0, 32) + n2.subrange(32, 64));
    }
}

/// Big-endian `a − b` on 32 bytes, with the final borrow.
fn sub_be32(a: &[u8; 32], b: &[u8; 32]) -> (res: ([u8; 32], u8))
    ensures
        res.1 <= 1,
        be_nat(res.0@) + be_nat(b@) == be_nat(a@) + (res.1 as nat) * pow256(32),
{
    let mut x = *a;
    let ghost x0 = a@;
    let mut borrow: i16 = 0;
    let mut i: usize = 32;
    proof {
        assert(x@.skip(32) =~= Seq::<u8>::empty());
        assert(b@.skip(32) =~= Seq::<u8>::empty());
        assert(be_nat(Seq::<u8>::empty()) == 0);
    }
    while i > 0
        invariant
            0 <= i <= 32,
            x@.len() == 32,
            x0.len() == 32,
            x@.take(i as int) == x0.take(i as int),
            0 <= borrow <= 1,
            be_nat(x@.skip(i as int)) + be_nat(b@.skip(i as int)) == be_nat(x0.skip(i as int))
                + borrow * pow256((32 - i) as nat),
        decreases i,
    {
        let j = i - 1;
        let diff: i16 = (x[j] as i16) - (b[j] as i16) - borrow;
        let ghost old_borrow = borrow as int;
        let ghost xs = x@;
        if diff < 0 {
            x[j] = (diff + 256) as u8;
            borrow = 1;
        } else {
            x[j] = diff as u8;
            borrow = 0;
        }
        proof {
            let p = pow256((32 - i) as nat);
            lemma_be_nat_first(x@.skip(j as int));
            lemma_be_nat_first(b@.skip(j as int));
            lemma_be_nat_first(x0.skip(j as int));
            assert(x@.skip(j as int).drop_first() =~= xs.skip(i as int));
            assert(b@.skip(j as int).drop_first() =~= b@.skip(i as int));
            assert(x0.skip(j as int).drop_first() =~= x0.skip(i as int));
            assert(xs.take(i as int)[j as int] == x0[j as int]);
            assert(x@.take(j as int) =~= x0.take(j as int)) by {
                assert(x@.take(j as int) =~= xs.take(i as int).take(j as int));
                assert(x0.take(j as int) =~= x0.take(i as int).take(j as int));
            }
            let nx = x@[j as int] as int;
            let ox = x0[j as int] as int;
            let rr = b@[j as int] as int;
            assert(nx - 256 * (borrow as int) == ox - rr - old_borrow);
            assert(pow256((32 - j) as nat) == 256 * p);
            assert(nx * p + rr * p == ox * p + (borrow as int) * (256 * p) - old_borrow * p)
                by (nonlinear_arith)
                requires
                    nx - 256 * (borrow as int) == ox - rr - old_borrow,
            ;
        }
        i = j;
    }
    proof {
        assert(x@.skip(0) =~= x@);
        assert(b@.skip(0) =~= b@);
        assert(x0.skip(0) =~= x0);
    }
    (x, borrow as u8)
}

/// A 32-byte difference with its borrow is the difference modulo `2^256`.
proof fn lemma_borrow_difference(nv: nat, yv: nat, b: nat, q: nat, t: nat)
    requires
        nv + yv == q + b * t,
        b <= 1,
        nv < t,
        yv < t,
        q < t,
    ensures
        nv == (q + t - yv) % (t as int),
{
    if b == 0 {
        assert(q + t - yv == nv + t);
        vstd::arithmetic::div_mod::lemma_mod_add_multiples_vanish(nv as int, t as int);
        vstd::arithmetic::div_mod::lemma_small_mod(nv, t);
    } else {
        assert(q + t - yv == nv);
        vstd::arithmetic::div_mod::lemma_small_mod(nv, t);
    }
}

/// Negate a G1 point: `(x, y) ↦ (x, q − y)`, the identity to itself.
pub fn negate_g1(p: &[u8; 64]) -> (n: [u8; 64])
    ensures
        negated(p@, n@),
        n@ == neg_point(p@),
{
    let mut zero = true;
    let mut i: usize = 0;
    while i < 64
        invariant
            0 <= i <= 64,
            zero == (forall|j: int| 0 <= j < i ==> p@[j] == 0),
        decreases 64 - i,
    {
        if p[i] != 0 {
            zero = false;
        }
        i = i + 1;
    }
    if zero {
        proof {
            lemma_negated_unique(p@, p@, neg_point(p@));
        }
        return *p;
    }
    let y = crate::bytes::copy32(p, 32);
    let (ny, borrow) = sub_be32(&BN254_FQ_MODULUS_BE, &y);
    let mut out = *p;
    let mut k: usize = 0;
    while k < 32
        invariant
            0 <= k <= 32,
            out@.len() == 64,
            out@.subrange(0, 32) == p@.subrange(0, 32),
            forall|j: int| 32 <= j < 32 + k ==> out@[j] == ny@[j - 32],
        decreases 32 - k,
    {
        out[32 + k] = ny[k];
        k = k + 1;
    }
    proof {
        lemma_fq_modulus_const();
        lemma_be_nat_bound(BN254_FQ_MODULUS_BE@);
        lemma_be_nat_bound(ny@);
        lemma_be_nat_bound(y@);
        assert(out@.subrange(32, 64) =~= ny@);
        let t = pow256(32);
        let yv = be_nat(y@);
        let nv = be_nat(ny@);
        assert(nv + yv == fq_modulus() + (borrow as nat) * t);
        lemma_borrow_difference(nv, yv, borrow as nat, fq_modulus(), t);
        lemma_negated_unique(p@, out@, neg_point(p@));
    }
    out
}

/// A backend reply judged as [`g1_result`] judges it.
pub open spec fn g1_reply(r: Result<Seq<u8>, OnChainError>) -> Result<Seq<u8>, OnChainError> {
    match r {
        Ok(v) => if v.len() == 64 {
            Ok(v)
        } else {
            Err(OnChainError::AltBn128SyscallFailed)
        },
        Err(e) => Err(e),
    }
}

/// The point result `res` is the one `s` describes.
pub open spec fn point_is(res: Result<[u8; 64], OnChainError>, s: Result<Seq<u8>, OnChainError>) -> bool {
    match res {
        Ok(p) => s == Ok::<Seq<u8>, OnChainError>(p@),
        Err(e) => s == Err::<Seq<u8>, OnChainError>(e),
    }
}

/// `P + Q` as the backend computes it.
pub open spec fn add_spec<B: SyscallBackend + ?Sized>(b: &B, p: Seq<u8>, q: Seq<u8>) -> Result<
    Seq<u8>,
    OnChainError,
> {
    g1_reply(group_op_on(b, AltBn128Op::G1Add, p + q))
}

/// `s · P` as the backend computes it.
pub open spec fn mul_spec<B: SyscallBackend + ?Sized>(b: &B, p: Seq<u8>, s: Seq<u8>) -> Result<
    Seq<u8>,
    OnChainError,
> {
    g1_reply(group_op_on(b, AltBn128Op::G1Mul, p + s))
}

/// `Σ_{i<n} s_i · P_i` as the backend computes it, from the identity,
/// multiplying and then adding term by term.
pub open spec fn msm_spec<B: SyscallBackend + ?Sized>(
    b: &B,
    points: Seq<Seq<u8>>,
    scalars: Seq<Seq<u8>>,
    n: nat,
) -> Result<Seq<u8>, OnChainError>
    decreases n,
{
    if n == 0 {
        Ok(Seq::new(64, |i: int| 0u8))
    } else {
        match msm_spec(b, points, scalars, (n - 1) as nat) {
            Ok(acc) => match mul_spec(b, points[n - 1], scalars[n - 1]) {
                Ok(t) => add_spec(b, acc, t),
                Err(e) => Err(e),
            },
            Err(e) => Err(e),
        }
    }
}

/// The backend's verdict on the pairing check of `input`.
pub open spec fn pairing_spec<B: SyscallBackend + ?Sized>(b: &B, input: Seq<u8>) -> Result<
    (),
    OnChainError,
> {
    match group_op_on(b, AltBn128Op::Pairing, input) {
        Ok(v) => if v.len() == 32 && v[31] == 1 {
            Ok(())
        } else {
            Err(OnChainError::PairingCheckFailed)
        },
        Err(e) => Err(e),
    }
}

/// `C − s·G1` as the backend computes it.
pub open spec fn cms_spec<B: SyscallBackend + ?Sized>(b: &B, c: Seq<u8>, s: Seq<u8>) -> Result<
    Seq<u8>,
    OnChainError,
> {
    match mul_spec(b, G1_GENERATOR@, s) {
        Ok(t) => add_spec(b, c, neg_point(t)),
        Err(e) => Err(e),
    }
}

/// `C − y·G1 + ξ·W` as the backend computes it.
pub open spec fn kzg_lhs_spec<B: SyscallBackend + ?Sized>(
    b: &B,
    c: Seq<u8>,
    y: Seq<u8>,
    xi: Seq<u8>,
    w: Seq<u8>,
) -> Result<Seq<u8>, OnChainError> {
    match cms_spec(b, c, y) {
        Ok(cy) => match mul_spec(b, w, xi) {
            Ok(xw) => add_spec(b, cy, xw),
            Err(e) => Err(e),
        },
        Err(e) => Err(e),
    }
}

/// Accept a backend G1 result only when it is 64 bytes.
pub fn g1_result(out: &[u8]) -> (res: Result<[u8; 64], OnChainError>)
    ensures
        res is Ok <==> out@.len() == 64,
        res matches Ok(p) ==> p@ == out@,
        res is Err ==> res == Err::<[u8; 64], OnChainError>(OnChainError::AltBn128SyscallFailed),
{
    if out.len() != 64 {
        return Err(OnChainError::AltBn128SyscallFailed);
    }
    let p = copy64(out, 0);
    assert(out@.subrange(0, 64) =~= out@);
    Ok(p)
}

/// The bytes handed to the backend for a G1 addition `P + Q` (`a = P`,
/// `b = Q`) or a scalar multiplication `s·P` (`a = P`, `b = s`): the two
/// operands, concatenated.
pub fn group_op_input(a: &[u8], b: &[u8]) -> (v: Vec<u8>)
    ensures
        v@ == a@ + b@,
{
    let mut v: Vec<u8> = Vec::new();
    push_all(&mut v, a);
    push_all(&mut v, b);
    assert(Seq::<u8>::empty() + a@ =~= a@);
    v
}

/// The bytes handed to the backend for the pairing check of
/// `e(a, g2a) · e(b, g2b)`: the two `(G1, G2)` pairs in order, 384 bytes.
pub fn two_pair_pairing_input(a: &[u8; 64], g2a: &[u8; 128], b: &[u8; 64], g2b: &[u8; 128]) -> (v:
    Vec<u8>)
    ensures
        v@ == a@ + g2a@ + b@ + g2b@,
        v@.len() == 384,
{
    let mut v: Vec<u8> = Vec::new();
    push_all(&mut v, a);
    push_all(&mut v, g2a);
    push_all(&mut v, b);
    push_all(&mut v, g2b);
    assert(Seq::<u8>::empty() + a@ =~= a@);
    v
}

/// `P + Q` through the backend, which receives [`group_op_input`]`(P, Q)`.
/// Inputs must be 64-byte encodings; backend errors are passed on; the
/// reply is judged by [`g1_result`].
pub fn add_g1<B: SyscallBackend + ?Sized>(backend: &B, p: &[u8], q: &[u8]) -> (res: Result<
    [u8; 64],
    OnChainError,
>)
    ensures
        (p@.len() != 64 || q@.len() != 64) ==> res == Err::<[u8; 64], OnChainError>(
            OnChainError::InvalidPointEncoding,
        ),
        (p@.len() == 64 && q@.len() == 64) ==> point_is(res, add_spec(backend, p@, q@)),
{
    if p.len() != 64 || q.len() != 64 {
        return Err(OnChainError::InvalidPointEncoding);
    }
    let input = group_op_input(p, q);
    let sl = input.as_slice();
    proof {
        lemma_slice_chosen(sl);
    }
    let out = backend.alt_bn128_group_op(AltBn128Op::G1Add, InputEndianness::BigEndian, sl)?;
    g1_result(out.as_slice())
}

/// `s · P` through the backend, for a 64-byte `P` and a 32-byte big-endian
/// scalar `s`; the backend receives [`group_op_input`]`(P, s)` and the reply
/// is judged by [`g1_result`].
pub fn scalar_mul_g1<B: SyscallBackend + ?Sized>(backend: &B, p: &[u8], s: &[u8; 32]) -> (res:
    Result<[u8; 64], OnChainError>)
    ensures
        p@.len() != 64 ==> res == Err::<[u8; 64], OnChainError>(
            OnChainError::InvalidPointEncoding,
        ),
        p@.len() == 64 ==> point_is(res, mul_spec(backend, p@, s@)),
{
    if p.len() != 64 {
        return Err(OnChainError::InvalidPointEncoding);
    }
    let input = group_op_input(p, s);
    let sl = input.as_slice();
    proof {
        lemma_slice_chosen(sl);
    }
    let out = backend.alt_bn128_group_op(AltBn128Op::G1Mul, InputEndianness::BigEndian, sl)?;
    g1_result(out.as_slice())
}

/// The contents of a list of byte slices.
pub open spec fn slice_views(s: Seq<&[u8]>) -> Seq<Seq<u8>> {
    s.map_values(|x: &[u8]| x@)
}

/// The contents of a list of 32-byte scalars.
pub open spec fn scalar_views(s: Seq<[u8; 32]>) -> Seq<Seq<u8>> {
    s.map_values(|x: [u8; 32]| x@)
}

/// Once a prefix of the multi-scalar multiplication fails, every longer
/// prefix fails the same way.
proof fn lemma_msm_err_sticks<B: SyscallBackend + ?Sized>(
    b: &B,
    points: Seq<Seq<u8>>,
    scalars: Seq<Seq<u8>>,
    k: nat,
    m: nat,
)
    requires
        k <= m,
        msm_spec(b, points, scalars, k) is Err,
    ensures
        msm_spec(b, points, scalars, m) == msm_spec(b, points, scalars, k),
    decreases m - k,
{
    if k < m {
        lemma_msm_err_sticks(b, points, scalars, k, (m - 1) as nat);
    }
}

/// Every point is a 64-byte encoding.
pub open spec fn points_ok(points: Seq<&[u8]>) -> bool {
    forall|i: int| 0 <= i < points.len() ==> (#[trigger] points[i])@.len() == 64
}

/// `Σ s_i · P_i` through the backend, starting from the identity. The two
/// lists must have equal length and every point must be 64 bytes.
pub fn msm_g1<B: SyscallBackend + ?Sized>(
    backend: &B,
    points: &[&[u8]],
    scalars: &[[u8; 32]],
) -> (res: Result<[u8; 64], OnChainError>)
    ensures
        points@.len() != scalars@.len() ==> res == Err::<[u8; 64], OnChainError>(
            OnChainError::InternalInvariantViolation,
        ),
        points@.len() == scalars@.len() && !points_ok(points@) ==> res == Err::<
            [u8; 64],
            OnChainError,
        >(OnChainError::InvalidPointEncoding),
        points@.len() == scalars@.len() && points_ok(points@) ==> point_is(
            res,
            msm_spec(backend, slice_views(points@), scalar_views(scalars@), points@.len()),
        ),
{
    if points.len() != scalars.len() {
        return Err(OnChainError::InternalInvariantViolation);
    }
    let mut k: usize = 0;
    while k < points.len()
        invariant
            0 <= k <= points@.len(),
            points@.len() == scalars@.len(),
            forall|j: int| 0 <= j < k ==> (#[trigger] points@[j])@.len() == 64,
        decreases points@.len() - k,
    {
        if points[k].len() != 64 {
            return Err(OnChainError::InvalidPointEncoding);
        }
        k = k + 1;
    }
    let ghost pts = slice_views(points@);
    let ghost scs = scalar_views(scalars@);
    let mut acc: [u8; 64] = [0u8; 64];
    let mut i: usize = 0;
    proof {
        assert(acc@ =~= Seq::new(64, |j: int| 0u8));
    }
    while i < points.len()
        invariant
            0 <= i <= points@.len(),
            points@.len() == scalars@.len(),
            points_ok(points@),
            pts == slice_views(points@),
            scs == scalar_views(scalars@),
            msm_spec(backend, pts, scs, i as nat) == Ok::<Seq<u8>, OnChainError>(acc@),
        decreases points@.len() - i,
    {
        assert(pts[i as int] == points@[i as int]@);
        assert(scs[i as int] == scalars@[i as int]@);
        let t = match scalar_mul_g1(backend, points[i], &scalars[i]) {
            Ok(t) => t,
            Err(e) => {
                proof {
                    lemma_msm_err_sticks(backend, pts, scs, (i + 1) as nat, points@.len() as nat);
                }
                return Err(e);
            },
        };
        acc = match add_g1(backend, &acc, &t) {
            Ok(a) => a,
            Err(e) => {
                proof {
                    lemma_msm_err_sticks(backend, pts, scs, (i + 1) as nat, points@.len() as nat);
                }
                return Err(e);
            },
        };
        i = i + 1;
    }
    Ok(acc)
}

/// The verdict of a pairing call: success is a 32-byte reply whose last
/// byte is 1; any other reply is a failed check.
pub fn pairing_verdict(out: &[u8]) -> (res: Result<(), OnChainError>)
    ensures
        res is Ok <==> (out@.len() == 32 && out@[31] == 1),
        res is Err ==> res == Err::<(), OnChainError>(OnChainError::PairingCheckFailed),
{
    if out.len() != 32 || out[31] != 1 {
        return Err(OnChainError::PairingCheckFailed);
    }
    Ok(())
}

/// Check `e(a, g2a) · e(b, g2b) = 1` through the backend, which receives
/// [`two_pair_pairing_input`]. Backend errors are passed on; the reply is
/// judged by [`pairing_verdict`].
pub fn verify_two_pair_pairing<B: SyscallBackend + ?Sized>(
    backend: &B,
    a: &[u8; 64],
    g2a: &[u8; 128],
    b: &[u8; 64],
    g2b: &[u8; 128],
) -> (res: Result<(), OnChainError>)
    ensures
        res == pairing_spec(backend, a@ + g2a@ + b@ + g2b@),
{
    let input = two_pair_pairing_input(a, g2a, b, g2b);
    let sl = input.as_slice();
    proof {
        lemma_slice_chosen(sl);
    }
    let reply = backend.alt_bn128_group_op(AltBn128Op::Pairing, InputEndianness::BigEndian, sl);
    match reply {
        Ok(out) => {
            proof {
                assert(sl@ == input@);
                assert(group_op_on(backend, AltBn128Op::Pairing, input@) == Ok::<Seq<u8>, OnChainError>(out@));
            }
            match pairing_verdict(out.as_slice()) {
                Ok(_) => Ok(()),
                Err(e) => Err(e),
            }
        },
        Err(e) => Err(e),
    }
}

/// `C − s·G1` through the backend, for a 64-byte `C` and a 32-byte
/// big-endian scalar `s`.
pub fn commitment_minus_scalar_g1<B: SyscallBackend + ?Sized>(
    backend: &B,
    c: &[u8],
    s: &[u8; 32],
) -> (res: Result<[u8; 64], OnChainError>)
    ensures
        c@.len() != 64 ==> res == Err::<[u8; 64], OnChainError>(
            OnChainError::InvalidPointEncoding,
        ),
        c@.len() == 64 ==> point_is(res, cms_spec(backend, c@, s@)),
{
    if c.len() != 64 {
        return Err(OnChainError::InvalidPointEncoding);
    }
    let g1 = g1_generator_bytes();
    let s_g1 = scalar_mul_g1(backend, &g1, s)?;
    add_g1(backend, c, &negate_g1(&s_g1))
}

/// The left point of a KZG opening check, `C − y·G1 + ξ·W`, through the
/// backend.
pub fn compute_kzg_opening_lhs<B: SyscallBackend + ?Sized>(
    backend: &B,
    c: &[u8; 64],
    y: &[u8; 32],
    xi: &[u8; 32],
    w: &[u8; 64],
) -> (res: Result<[u8; 64], OnChainError>)
    ensures
        point_is(res, kzg_lhs_spec(backend, c@, y@, xi@, w@)),
{
    let c_minus_y = commitment_minus_scalar_g1(backend, c, y)?;
    let xi_w = scalar_mul_g1(backend, w, xi)?;
    add_g1(backend, &c_minus_y, &xi_w)
}

} // verus!
