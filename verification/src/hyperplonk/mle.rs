//! Multilinear helpers: the equality polynomial
//! `eq(a, b) = Π_i ((1 − a_i)(1 − b_i) + a_i·b_i)` and evaluation of a
//! multilinear polynomial from its boolean-cube values.
use vstd::prelude::*;
use crate::error::OnChainError;
use crate::field::{add_fe, fe, fr_values, lemma_fe_idem, mul_fe, sub_fe, val, Fr};
use crate::fr::fr_modulus;
use vstd::arithmetic::power2::pow2;

verus! {

/// One factor of the equality polynomial.
pub open spec fn eq_term(x: nat, y: nat) -> nat {
    fe((1 - x) * (1 - y) + x * y)
}

/// `Π_i ((1 − a_i)(1 − b_i) + a_i·b_i)` over the field, for equal lengths.
pub open spec fn eq_value(a: Seq<nat>, b: Seq<nat>) -> nat
    decreases a.len(),
{
    if a.len() == 0 || b.len() == 0 {
        1
    } else {
        fe((eq_value(a.drop_last(), b.drop_last()) * eq_term(a.last(), b.last())) as int)
    }
}

/// Fix the first variable of a multilinear polynomial to `y`: pairs of
/// cube values `(v_2i, v_2i+1)` become `v_2i·(1 − y) + v_2i+1·y`.
pub open spec fn fold_first(v: Seq<nat>, y: nat) -> Seq<nat> {
    Seq::new(v.len() / 2, |i: int| fe(v[2 * i] * (1 - y) + v[2 * i + 1] * y))
}

/// The multilinear polynomial with cube values `v` (little-endian index
/// bits), evaluated at `point`.
pub open spec fn mle_value(v: Seq<nat>, point: Seq<nat>) -> nat
    decreases point.len(),
{
    if point.len() == 0 {
        v[0]
    } else {
        mle_value(fold_first(v, point[0]), point.drop_first())
    }
}

/// `eq(a, b)`; vectors of different lengths are an internal invariant
/// violation.
pub fn eq_poly_eval(a: &[Fr], b: &[Fr]) -> (res: Result<Fr, OnChainError>)
    ensures
        res is Ok <==> a@.len() == b@.len(),
        res matches Ok(v) ==> v@ == eq_value(fr_values(a@), fr_values(b@)),
        res is Err ==> res == Err::<Fr, OnChainError>(OnChainError::InternalInvariantViolation),
{
    if a.len() != b.len() {
        return Err(OnChainError::InternalInvariantViolation);
    }
    let one = Fr::one();
    let mut acc = Fr::one();
    let mut i: usize = 0;
    proof {
        assert(fr_values(a@.take(0)).len() == 0);
        crate::field::lemma_fe_small(1);
    }
    while i < a.len()
        invariant
            0 <= i <= a@.len(),
            a@.len() == b@.len(),
            one@ == 1,
            acc@ == eq_value(fr_values(a@.take(i as int)), fr_values(b@.take(i as int))),
            fe(val(acc)) == acc@,
        decreases a@.len() - i,
    {
        let ghost (x, y) = (val(a[i as int]), val(b[i as int]));
        let ab = mul_fe(&a[i], &b[i], Ghost(x), Ghost(y));
        let t = sub_fe(&one, &a[i], Ghost(1), Ghost(x));
        let t = sub_fe(&t, &b[i], Ghost(1 - x), Ghost(y));
        let t = add_fe(&t, &ab, Ghost(1 - x - y), Ghost(x * y));
        let t = add_fe(&t, &ab, Ghost(1 - x - y + x * y), Ghost(x * y));
        let ghost prev = acc@;
        acc = mul_fe(&acc, &t, Ghost(prev as int), Ghost(1 - x - y + x * y + x * y));
        proof {
            assert((1 - x) * (1 - y) + x * y == 1 - x - y + x * y + x * y) by (nonlinear_arith);
            let fa = fr_values(a@.take(i + 1));
            let fb = fr_values(b@.take(i + 1));
            assert(fa.drop_last() =~= fr_values(a@.take(i as int)));
            assert(fb.drop_last() =~= fr_values(b@.take(i as int)));
            assert(fa.last() == a@[i as int]@);
            assert(fb.last() == b@[i as int]@);
            crate::field::lemma_fe_mul(prev as int, 1 - x - y + x * y + x * y);
            lemma_fe_idem(prev as int * (1 - x - y + x * y + x * y));
        }
        i = i + 1;
    }
    proof {
        assert(a@.take(a@.len() as int) =~= a@);
        assert(b@.take(b@.len() as int) =~= b@);
    }
    Ok(acc)
}

/// `2^n` when it fits a `usize`.
fn cube_size(n: usize) -> (res: Option<usize>)
    ensures
        res matches Some(s) ==> s == vstd::arithmetic::power2::pow2(n as nat),
        res is Some <==> n < usize::BITS,
{
    if n >= usize::BITS as usize {
        return None;
    }
    proof {
        vstd::bits::lemma_usize_pow2_no_overflow(n as nat);
        vstd::bits::lemma_usize_shl_is_mul(1, n as usize);
    }
    Some(1usize << n)
}

/// Evaluate at `point` the multilinear polynomial whose boolean-cube values
/// are `values` (index bit `k` is coordinate `k`). The number of values
/// must be `2^point.len()`, else an internal invariant violation.
pub fn mle_eval_from_cube(values: &[Fr], point: &[Fr]) -> (res: Result<Fr, OnChainError>)
    ensures
        res is Ok <==> (point@.len() < usize::BITS && values@.len()
            == vstd::arithmetic::power2::pow2(point@.len())),
        res matches Ok(v) ==> v@ == mle_value(fr_values(values@), fr_values(point@)),
        res is Err ==> res == Err::<Fr, OnChainError>(OnChainError::InternalInvariantViolation),
{
    let n = point.len();
    let expected = match cube_size(n) {
        Some(s) => s,
        None => {
            return Err(OnChainError::InternalInvariantViolation);
        },
    };
    if values.len() != expected {
        return Err(OnChainError::InternalInvariantViolation);
    }
    proof {
        vstd::arithmetic::power2::lemma_pow2_pos(n as nat);
    }
    if n == 0 {
        return Ok(values[0]);
    }
    let mut buf: Vec<Fr> = Vec::new();
    let mut i: usize = 0;
    while i < values.len()
        invariant
            0 <= i <= values@.len(),
            buf@ == values@.take(i as int),
        decreases values@.len() - i,
    {
        buf.push(values[i]);
        assert(values@.take(i + 1) =~= values@.take(i as int).push(values@[i as int]));
        i = i + 1;
    }
    assert(values@.take(values@.len() as int) =~= values@);
    let ghost vals = fr_values(values@);
    let ghost pts = fr_values(point@);
    let one = Fr::one();
    proof {
        crate::field::lemma_fe_small(1);
        assert(fr_values(buf@) =~= vals);
        assert(pts.skip(0) =~= pts);
    }
    let mut k: usize = 0;
    // The buffer holds the cube values of the polynomial with the first
    // `k` variables fixed.
    while k < n
        invariant
            0 <= k <= n,
            n == point@.len(),
            pts == fr_values(point@),
            one@ == 1,
            buf@.len() == vstd::arithmetic::power2::pow2((n - k) as nat),
            mle_value(fr_values(buf@), pts.skip(k as int)) == mle_value(vals, pts),
        decreases n - k,
    {
        let ghost before = fr_values(buf@);
        let ghost y = val(point[k as int]);
        let omy = sub_fe(&one, &point[k], Ghost(1), Ghost(y));
        let half = buf.len() / 2;
        proof {
            vstd::arithmetic::power2::lemma_pow2_unfold((n - k) as nat);
        }
        let mut i: usize = 0;
        while i < half
            invariant
                0 <= i <= half,
                half == before.len() / 2,
                buf@.len() == before.len(),
                before.len() == 2 * half,
                fe(val(omy)) == fe(1 - y),
                forall|j: int| 0 <= j < i ==> (#[trigger] buf@[j])@ == fold_first(before, y as nat)[j],
                forall|j: int| i <= j < buf@.len() ==> (#[trigger] buf@[j])@ == before[j],
                before.len() <= usize::MAX,
                k < point@.len(),
                y == val(point@[k as int]),
            decreases half - i,
        {
            let v0 = buf[2 * i];
            let v1 = buf[2 * i + 1];
            let ghost (x0, x1) = (val(v0), val(v1));
            let t0 = mul_fe(&v0, &omy, Ghost(x0), Ghost(1 - y));
            let t1 = mul_fe(&v1, &point[k], Ghost(x1), Ghost(y));
            let nv = add_fe(&t0, &t1, Ghost(x0 * (1 - y)), Ghost(x1 * y));
            buf.set(i, nv);
            i = i + 1;
        }
        buf.truncate(half);
        proof {
            assert(fr_values(buf@) =~= fold_first(before, y as nat));
            assert(pts.skip(k as int)[0] == y);
            assert(pts.skip(k as int).drop_first() =~= pts.skip(k + 1));
            assert((n - (k + 1)) as nat + 1 == (n - k) as nat);
        }
        k = k + 1;
    }
    proof {
        assert(pts.skip(0) =~= pts);
        assert(buf@.len() == 1) by {
            vstd::arithmetic::power2::lemma2_to64();
        }
    }
    Ok(buf[0])
}

/// The boolean point of index `i` in `n` variables: coordinate `k` is bit
/// `k` of `i`.
pub open spec fn cube_point(i: nat, n: nat) -> Seq<nat> {
    Seq::new(n, |k: int| (i / pow2(k as nat)) % 2)
}

/// The first coordinate of a cube point is the low bit of its index; the
/// rest is the point of the index halved.
proof fn lemma_cube_point_first(i: nat, n: nat)
    requires
        n > 0,
    ensures
        cube_point(i, n)[0] == i % 2,
        cube_point(i, n).drop_first() == cube_point(i / 2, (n - 1) as nat),
{
    let p = cube_point(i, n);
    let q = cube_point(i / 2, (n - 1) as nat);
    assert(pow2(0) == 1) by {
        vstd::arithmetic::power2::lemma2_to64();
    }
    assert(p[0] == (i / pow2(0)) % 2);
    assert(i / 1 == i);
    assert forall|k: int| 0 <= k < q.len() implies #[trigger] p.drop_first()[k] == q[k] by {
        vstd::arithmetic::power2::lemma_pow2_unfold((k + 1) as nat);
        vstd::arithmetic::power2::lemma_pow2_pos(k as nat);
        vstd::arithmetic::div_mod::lemma_div_denominator(i as int, 2, pow2(k as nat) as int);
    }
    assert(p.drop_first() =~= q);
}

/// On the boolean cube the multilinear polynomial takes its cube values:
/// at the point of index `i` it is `v[i]`, for any `2^n` field elements.
pub proof fn lemma_mle_on_cube(v: Seq<nat>, n: nat, i: nat)
    requires
        v.len() == pow2(n),
        i < pow2(n),
        forall|k: int| 0 <= k < v.len() ==> #[trigger] v[k] < fr_modulus(),
    ensures
        mle_value(v, cube_point(i, n)) == v[i as int],
    decreases n,
{
    let p = cube_point(i, n);
    if n == 0 {
        assert(pow2(0) == 1) by {
            vstd::arithmetic::power2::lemma2_to64();
        }
    } else {
        vstd::arithmetic::power2::lemma_pow2_unfold(n);
        vstd::arithmetic::power2::lemma_pow2_pos((n - 1) as nat);
        let half = pow2((n - 1) as nat);
        let b = i % 2;
        lemma_cube_point_first(i, n);
        let w = fold_first(v, b);
        assert(w.len() == half);
        assert forall|j: int| 0 <= j < w.len() implies #[trigger] w[j] == v[2 * j + b] by {
            let (x, y) = (v[2 * j] as int, v[2 * j + 1] as int);
            if b == 0 {
                assert(x * (1 - 0) + y * 0 == x) by (nonlinear_arith);
                crate::field::lemma_fe_small(x);
            } else {
                assert(x * (1 - 1) + y * 1 == y) by (nonlinear_arith);
                crate::field::lemma_fe_small(y);
            }
        }
        assert forall|k: int| 0 <= k < w.len() implies #[trigger] w[k] < fr_modulus() by {
            assert(w[k] == v[2 * k + b]);
        }
        lemma_cube_point_first(i, n);
        lemma_mle_on_cube(w, (n - 1) as nat, i / 2);
        assert(2 * (i / 2) + b == i);
    }
}

/// `Σ_{i<m} v[i] · eq(cube_point(i, n), y)` over the integers.
pub open spec fn cube_sum(v: Seq<nat>, y: Seq<nat>, n: nat, m: nat) -> int
    decreases m,
{
    if m == 0 {
        0
    } else {
        cube_sum(v, y, n, (m - 1) as nat) + v[m - 1] * eq_value(cube_point((m - 1) as nat, n), y)
    }
}

/// The equality polynomial factors at its first coordinate.
proof fn lemma_eq_first(a: Seq<nat>, b: Seq<nat>)
    requires
        a.len() == b.len(),
        a.len() > 0,
    ensures
        eq_value(a, b) == fe((eq_term(a[0], b[0]) * eq_value(a.drop_first(), b.drop_first())) as int),
    decreases a.len(),
{
    let t0 = eq_term(a[0], b[0]) as int;
    lemma_fe_idem((1 - a[0]) * (1 - b[0]) + a[0] * b[0]);
    if a.len() == 1 {
        assert(a.drop_last().len() == 0);
        assert(a.drop_first().len() == 0);
        assert(a.last() == a[0] && b.last() == b[0]);
        assert(eq_value(a.drop_last(), b.drop_last()) == 1);
        assert(eq_value(a.drop_first(), b.drop_first()) == 1);
        assert(eq_value(a, b) == fe(1 * t0));
        assert(1 * t0 == t0 && t0 * 1 == t0);
        crate::field::lemma_fe_small(t0);
    } else {
        let (a1, b1) = (a.drop_last(), b.drop_last());
        lemma_eq_first(a1, b1);
        assert(a.drop_first().drop_last() =~= a1.drop_first());
        assert(b.drop_first().drop_last() =~= b1.drop_first());
        assert(a1[0] == a[0] && b1[0] == b[0]);
        let e = eq_value(a1.drop_first(), b1.drop_first()) as int;
        let tl = eq_term(a.last(), b.last()) as int;
        assert(eq_value(a.drop_first(), b.drop_first()) == fe(e * tl));
        assert(eq_value(a, b) == fe(fe(t0 * e) * tl));
        crate::field::lemma_fe_mul(t0 * e, tl);
        crate::field::lemma_fe_mul(t0, e * tl);
        assert((t0 * e) * tl == t0 * (e * tl)) by (nonlinear_arith);
    }
}

/// The equality polynomial at a cube point, factored at the first
/// coordinate.
proof fn lemma_eq_cube_point_first(i: nat, y: Seq<nat>)
    requires
        y.len() > 0,
    ensures
        eq_value(cube_point(i, y.len()), y) == fe(
            (if i % 2 == 0 { 1 - y[0] } else { y[0] as int }) * eq_value(
                cube_point(i / 2, (y.len() - 1) as nat),
                y.drop_first(),
            ),
        ),
{
    let n = y.len();
    lemma_cube_point_first(i, n);
    lemma_eq_first(cube_point(i, n), y);
    let e = eq_value(cube_point(i / 2, (n - 1) as nat), y.drop_first()) as int;
    let y0 = y[0] as int;
    let c = if i % 2 == 0 { 1 - y0 } else { y0 };
    let bit = (i % 2) as int;
    assert((1 - bit) * (1 - y0) + bit * y0 == c) by (nonlinear_arith)
        requires
            bit == 0 || bit == 1,
            c == if bit == 0 { 1 - y0 } else { y0 },
    ;
    crate::field::lemma_fe_mul(c, e);
}

/// Summing cube values in adjacent pairs is summing the polynomial with its
/// first variable fixed to `y[0]`.
proof fn lemma_cube_sum_pairs(v: Seq<nat>, y: Seq<nat>, m: nat)
    requires
        y.len() > 0,
        v.len() >= 2 * m,
    ensures
        fe(cube_sum(v, y, y.len(), 2 * m)) == fe(
            cube_sum(fold_first(v, y[0]), y.drop_first(), (y.len() - 1) as nat, m),
        ),
    decreases m,
{
    let n = y.len();
    let w = fold_first(v, y[0]);
    let y1 = y.drop_first();
    if m > 0 {
        let j = (m - 1) as nat;
        lemma_cube_sum_pairs(v, y, j);
        let (i0, i1) = (2 * j, 2 * j + 1);
        assert(cube_sum(v, y, n, i1 + 1) == cube_sum(v, y, n, i1) + v[i1 as int] * eq_value(
            cube_point(i1, n),
            y,
        ));
        assert(cube_sum(v, y, n, i1) == cube_sum(v, y, n, i0) + v[i0 as int] * eq_value(
            cube_point(i0, n),
            y,
        ));
        assert(i1 + 1 == 2 * m);
        assert(cube_sum(v, y, n, 2 * m) == cube_sum(v, y, n, 2 * j) + v[i0 as int] * eq_value(
            cube_point(i0, n),
            y,
        ) + v[i1 as int] * eq_value(cube_point(i1, n), y));
        assert(i0 % 2 == 0 && i0 / 2 == j && i1 % 2 == 1 && i1 / 2 == j);
        lemma_eq_cube_point_first(i0, y);
        lemma_eq_cube_point_first(i1, y);
        let e = eq_value(cube_point(j, (n - 1) as nat), y1) as int;
        let (v0, v1, y0) = (v[i0 as int] as int, v[i1 as int] as int, y[0] as int);
        let (a, b) = (1 - y0, y0);
        // v0 · eq(i0) + v1 · eq(i1) ≡ (v0·a + v1·b) · e ≡ w[j] · e
        crate::field::lemma_fe_mul(v0, a * e);
        crate::field::lemma_fe_mul(v1, b * e);
        let x0 = v0 * eq_value(cube_point(i0, n), y);
        let x1 = v1 * eq_value(cube_point(i1, n), y);
        crate::field::lemma_fe_congruent(x0, x1, v0 * (a * e), v1 * (b * e));
        assert(w[j as int] == fe(v0 * a + v1 * b));
        crate::field::lemma_fe_mul(v0 * a + v1 * b, e);
        assert((v0 * a + v1 * b) * e == v0 * (a * e) + v1 * (b * e)) by (nonlinear_arith);
        let sw = cube_sum(w, y1, (n - 1) as nat, j);
        assert(cube_sum(w, y1, (n - 1) as nat, m) == sw + w[j as int] * e);
        crate::field::lemma_fe_congruent(
            cube_sum(v, y, n, 2 * j),
            x0 + x1,
            sw,
            w[j as int] * e,
        );
    }
}

/// A multilinear polynomial is the sum of its cube values weighted by the
/// equality polynomial: `f(y) = Σ_i f(i) · eq(i, y)`, for any `2^n` field
/// elements and any point of `n` coordinates.
pub proof fn lemma_mle_cube_expansion(v: Seq<nat>, y: Seq<nat>)
    requires
        v.len() == pow2(y.len()),
        forall|k: int| 0 <= k < v.len() ==> #[trigger] v[k] < fr_modulus(),
    ensures
        mle_value(v, y) == fe(cube_sum(v, y, y.len(), pow2(y.len()))),
    decreases y.len(),
{
    let n = y.len();
    if n == 0 {
        assert(pow2(0) == 1) by {
            vstd::arithmetic::power2::lemma2_to64();
        }
        assert(cube_point(0, 0).len() == 0);
        assert(eq_value(cube_point(0, 0), y) == 1);
        assert(cube_sum(v, y, 0, 0) == 0);
        assert(cube_sum(v, y, 0, 1) == cube_sum(v, y, 0, 0) + v[0] * eq_value(cube_point(0, 0), y));
        assert(cube_sum(v, y, 0, 1) == v[0] * 1);
        crate::field::lemma_fe_small(v[0] as int);
    } else {
        vstd::arithmetic::power2::lemma_pow2_unfold(n);
        let half = pow2((n - 1) as nat);
        let w = fold_first(v, y[0]);
        assert(w.len() == half);
        assert forall|k: int| 0 <= k < w.len() implies #[trigger] w[k] < fr_modulus() by {
            lemma_fe_idem(v[2 * k] * (1 - y[0]) + v[2 * k + 1] * y[0]);
        }
        assert(y.drop_first().len() == n - 1);
        lemma_mle_cube_expansion(w, y.drop_first());
        lemma_cube_sum_pairs(v, y, half);
    }
}

/// The equality polynomial is symmetric.
pub proof fn lemma_eq_symmetric(a: Seq<nat>, b: Seq<nat>)
    requires
        a.len() == b.len(),
    ensures
        eq_value(a, b) == eq_value(b, a),
    decreases a.len(),
{
    if a.len() > 0 {
        lemma_eq_symmetric(a.drop_last(), b.drop_last());
        let (x, y) = (a.last() as int, b.last() as int);
        assert((1 - x) * (1 - y) + x * y == (1 - y) * (1 - x) + y * x) by (nonlinear_arith);
    }
}

/// On boolean points the equality polynomial is the indicator of equality.
pub proof fn lemma_eq_boolean(a: Seq<nat>, b: Seq<nat>)
    requires
        a.len() == b.len(),
        forall|i: int| 0 <= i < a.len() ==> a[i] <= 1,
        forall|i: int| 0 <= i < b.len() ==> b[i] <= 1,
    ensures
        eq_value(a, b) == if a == b { 1nat } else { 0nat },
    decreases a.len(),
{
    crate::field::lemma_fe_small(0);
    crate::field::lemma_fe_small(1);
    if a.len() > 0 {
        lemma_eq_boolean(a.drop_last(), b.drop_last());
        let (x, y) = (a.last() as int, b.last() as int);
        assert(eq_term(a.last(), b.last()) == if x == y { 1nat } else { 0nat }) by {
            assert((1 - x) * (1 - y) + x * y == if x == y { 1int } else { 0int }) by (nonlinear_arith)
                requires
                    0 <= x <= 1,
                    0 <= y <= 1,
            ;
        }
        assert(a =~= a.drop_last().push(a.last()));
        assert(b =~= b.drop_last().push(b.last()));
        if a == b {
            assert(a.drop_last() == b.drop_last());
        }
        let p = eq_value(a.drop_last(), b.drop_last()) as int;
        let t = eq_term(a.last(), b.last()) as int;
        assert(p * t == if p == 1 && t == 1 { 1int } else { 0int }) by (nonlinear_arith)
            requires
                0 <= p <= 1,
                0 <= t <= 1,
        ;
        assert((a == b) == (a.drop_last() == b.drop_last() && a.last() == b.last()));
        assert(eq_value(a, b) == fe(p * t));
    } else {
        assert(a =~= b);
    }
}

} // verus!
