//! Elements of the BN254 scalar field and the arithmetic the verifiers use.
//!
//! An [`Fr`] holds the canonical big-endian encoding of its value; the
//! arithmetic itself is computed by `ark_bn254`.
use vstd::prelude::*;
use vstd::arithmetic::power::pow;
use ark_ff::{BigInteger, Field, PrimeField};
use crate::bytes::be_nat;
use crate::error::OnChainError;
use crate::fr::{fr_modulus, FR_LEN};

verus! {

/// An element of the BN254 scalar field, stored as its canonical
/// 32-byte big-endian encoding.
#[derive(Clone, Copy, Debug)]
pub struct Fr {
    bytes: [u8; FR_LEN],
}

impl View for Fr {
    type V = nat;

    open spec fn view(&self) -> nat {
        be_nat(self.bytes())
    }
}

impl Fr {
    /// The encoding as a sequence.
    pub closed spec fn bytes(&self) -> Seq<u8> {
        self.bytes@
    }

    /// The canonical big-endian encoding.
    pub fn to_bytes(&self) -> (b: [u8; FR_LEN])
        ensures
            b@ == self.bytes(),
    {
        self.bytes
    }
}

impl PartialEq for Fr {
    fn eq(&self, other: &Self) -> (res: bool) {
        crate::bytes::eq32(&self.bytes, &other.bytes)
    }
}

impl vstd::std_specs::cmp::PartialEqSpecImpl for Fr {
    open spec fn obeys_eq_spec() -> bool {
        true
    }

    open spec fn eq_spec(&self, other: &Self) -> bool {
        self.bytes() == other.bytes()
    }
}

impl Eq for Fr {}

// ---------------------------------------------------------------------
// Field operations on values.

pub open spec fn fadd(a: nat, b: nat) -> nat {
    (a + b) % fr_modulus()
}

pub open spec fn fsub(a: nat, b: nat) -> nat {
    ((a as int - b as int) % (fr_modulus() as int)) as nat
}

pub open spec fn fneg(a: nat) -> nat {
    ((-(a as int)) % (fr_modulus() as int)) as nat
}

pub open spec fn fmul(a: nat, b: nat) -> nat {
    (a * b) % fr_modulus()
}

pub open spec fn fpow(a: nat, e: nat) -> nat {
    (pow(a as int, e) % (fr_modulus() as int)) as nat
}

// ---------------------------------------------------------------------
// Arithmetic computed by ark_bn254.

/// `+` on `ark_bn254::Fr`: sum modulo `r`.
#[verifier::external_body]
pub(crate) fn ark_add(a: &Fr, b: &Fr) -> (res: Fr)
    ensures
        res@ == fadd(a@, b@),
        res.bytes().len() == FR_LEN,
{
    let x = ark_bn254::Fr::from_be_bytes_mod_order(&a.bytes);
    let y = ark_bn254::Fr::from_be_bytes_mod_order(&b.bytes);
    let v = (x + y).into_bigint().to_bytes_be();
    let mut bytes = [0u8; FR_LEN];
    bytes.copy_from_slice(&v);
    Fr { bytes }
}

/// `-` on `ark_bn254::Fr`: difference modulo `r`.
#[verifier::external_body]
pub(crate) fn ark_sub(a: &Fr, b: &Fr) -> (res: Fr)
    ensures
        res@ == fsub(a@, b@),
        res.bytes().len() == FR_LEN,
{
    let x = ark_bn254::Fr::from_be_bytes_mod_order(&a.bytes);
    let y = ark_bn254::Fr::from_be_bytes_mod_order(&b.bytes);
    let v = (x - y).into_bigint().to_bytes_be();
    let mut bytes = [0u8; FR_LEN];
    bytes.copy_from_slice(&v);
    Fr { bytes }
}

/// Unary `-` on `ark_bn254::Fr`: additive inverse modulo `r`.
#[verifier::external_body]
pub(crate) fn ark_neg(a: &Fr) -> (res: Fr)
    ensures
        res@ == fneg(a@),
        res.bytes().len() == FR_LEN,
{
    let x = ark_bn254::Fr::from_be_bytes_mod_order(&a.bytes);
    let v = (-x).into_bigint().to_bytes_be();
    let mut bytes = [0u8; FR_LEN];
    bytes.copy_from_slice(&v);
    Fr { bytes }
}

/// `*` on `ark_bn254::Fr`: product modulo `r`.
#[verifier::external_body]
pub(crate) fn ark_mul(a: &Fr, b: &Fr) -> (res: Fr)
    ensures
        res@ == fmul(a@, b@),
        res.bytes().len() == FR_LEN,
{
    let x = ark_bn254::Fr::from_be_bytes_mod_order(&a.bytes);
    let y = ark_bn254::Fr::from_be_bytes_mod_order(&b.bytes);
    let v = (x * y).into_bigint().to_bytes_be();
    let mut bytes = [0u8; FR_LEN];
    bytes.copy_from_slice(&v);
    Fr { bytes }
}

/// `Field::pow` on `ark_bn254::Fr` with a single-limb exponent.
#[verifier::external_body]
pub(crate) fn ark_pow(a: &Fr, e: u64) -> (res: Fr)
    ensures
        res@ == fpow(a@, e as nat),
        res.bytes().len() == FR_LEN,
{
    let x = ark_bn254::Fr::from_be_bytes_mod_order(&a.bytes);
    let v = x.pow([e]).into_bigint().to_bytes_be();
    let mut bytes = [0u8; FR_LEN];
    bytes.copy_from_slice(&v);
    Fr { bytes }
}

/// `Field::inverse` on `ark_bn254::Fr`: `None` exactly for zero, otherwise
/// the multiplicative inverse modulo `r`.
#[verifier::external_body]
pub(crate) fn ark_inverse(a: &Fr) -> (res: Option<Fr>)
    ensures
        res is None <==> a@ % fr_modulus() == 0,
        res matches Some(y) ==> y@ < fr_modulus() && fmul(a@, y@) == 1 && y.bytes().len()
            == FR_LEN,
{
    let x = ark_bn254::Fr::from_be_bytes_mod_order(&a.bytes);
    match x.inverse() {
        None => None,
        Some(y) => {
            let v = y.into_bigint().to_bytes_be();
            let mut bytes = [0u8; FR_LEN];
            bytes.copy_from_slice(&v);
            Some(Fr { bytes })
        },
    }
}

} // verus!

verus! {

/// Two elements are `==` exactly when their values are equal.
pub proof fn lemma_fr_eq(a: Fr, b: Fr)
    ensures
        (a.bytes() == b.bytes()) == (a@ == b@),
{
    if a@ == b@ {
        crate::bytes::lemma_be_nat_injective(a.bytes(), b.bytes());
    }
}

/// Every element is stored as the 32-byte encoding of its value.
pub proof fn lemma_fr_encoding(f: Fr)
    ensures
        f.bytes().len() == FR_LEN,
        f.bytes() == crate::transcript::fr_bytes(f@),
{
    crate::transcript::lemma_fr_bytes(f.bytes());
}

pub proof fn lemma_view_eq(a: Fr, b: Fr)
    requires
        a.bytes().len() == FR_LEN,
        b.bytes().len() == FR_LEN,
        a@ == b@,
    ensures
        a.bytes() == b.bytes(),
{
    crate::bytes::lemma_be_nat_injective(a.bytes(), b.bytes());
}

impl Fr {
    /// Decode a canonical 32-byte big-endian encoding: a wrong length is
    /// an encoding error, a value at or above `r` is out of range.
    pub fn from_canonical_bytes(bytes: &[u8]) -> (res: Result<Fr, OnChainError>)
        ensures
            res is Ok <==> (bytes@.len() == FR_LEN && be_nat(bytes@) < fr_modulus()),
            res matches Ok(f) ==> f.bytes() == bytes@ && f@ == be_nat(bytes@),
            bytes@.len() != FR_LEN ==> res == Err::<Fr, OnChainError>(
                OnChainError::InvalidFieldEncoding,
            ),
            bytes@.len() == FR_LEN && be_nat(bytes@) >= fr_modulus() ==> res == Err::<
                Fr,
                OnChainError,
            >(OnChainError::PublicInputOutOfRange),
    {
        let arr = crate::fr::parse_fr_be(bytes)?;
        Ok(Fr { bytes: arr })
    }

    /// The residue of `n`: as `n < 2⁶⁴ < r`, the 32-byte big-endian
    /// encoding of `n` itself.
    pub fn from_u64(n: u64) -> (res: Fr)
        ensures
            res@ == n as nat % fr_modulus(),
            res@ < fr_modulus(),
            res.bytes().len() == FR_LEN,
    {
        let mut bytes = [0u8; FR_LEN];
        bytes[24] = (n >> 56u64) as u8;
        bytes[25] = (n >> 48u64) as u8;
        bytes[26] = (n >> 40u64) as u8;
        bytes[27] = (n >> 32u64) as u8;
        bytes[28] = (n >> 24u64) as u8;
        bytes[29] = (n >> 16u64) as u8;
        bytes[30] = (n >> 8u64) as u8;
        bytes[31] = n as u8;
        proof {
            let s = bytes@;
            let tail = s.subrange(24, 32);
            crate::bytes::lemma_be_nat_split(s, 24);
            assert(s.take(24) =~= s.subrange(0, 24));
            assert(s.skip(24) =~= tail);
            crate::bytes::lemma_be_nat_zeros(s.take(24));
            reveal_with_fuel(be_nat, 9);
            assert(tail.drop_last().drop_last().drop_last().drop_last().drop_last().drop_last()
                .drop_last().drop_last() =~= Seq::<u8>::empty());
            let (b0, b1, b2, b3) = (s[24], s[25], s[26], s[27]);
            let (b4, b5, b6, b7) = (s[28], s[29], s[30], s[31]);
            assert(b0 == (n >> 56u64) as u8 && b1 == (n >> 48u64) as u8 && b2 == (n >> 40u64) as u8
                && b3 == (n >> 32u64) as u8);
            assert(b4 == (n >> 24u64) as u8 && b5 == (n >> 16u64) as u8 && b6 == (n >> 8u64) as u8
                && b7 == n as u8);
            assert(n as int == (((((((b0 as int * 256 + b1 as int) * 256 + b2 as int) * 256
                + b3 as int) * 256 + b4 as int) * 256 + b5 as int) * 256 + b6 as int) * 256
                + b7 as int)) by (bit_vector)
                requires
                    b0 == (n >> 56u64) as u8,
                    b1 == (n >> 48u64) as u8,
                    b2 == (n >> 40u64) as u8,
                    b3 == (n >> 32u64) as u8,
                    b4 == (n >> 24u64) as u8,
                    b5 == (n >> 16u64) as u8,
                    b6 == (n >> 8u64) as u8,
                    b7 == n as u8,
            ;
            assert(be_nat(tail) == n);
            crate::bytes::lemma_pow256_pos(8);
            assert(be_nat(s) == n);
        }
        Fr { bytes }
    }

    /// The additive identity.
    pub fn zero() -> (res: Fr)
        ensures
            res@ == 0,
            res.bytes().len() == FR_LEN,
    {
        Self::from_u64(0)
    }

    /// The multiplicative identity.
    pub fn one() -> (res: Fr)
        ensures
            res@ == 1,
            res.bytes().len() == FR_LEN,
    {
        Self::from_u64(1)
    }

    /// True iff this is the zero element.
    pub fn is_zero(&self) -> (res: bool)
        ensures
            res == (self@ == 0),
    {
        let mut i: usize = 0;
        while i < FR_LEN
            invariant
                0 <= i <= FR_LEN,
                forall|j: int| 0 <= j < i ==> self.bytes[j] == 0,
            decreases FR_LEN - i,
        {
            if self.bytes[i] != 0 {
                proof {
                    crate::bytes::lemma_be_nat_split(self.bytes@, i as int + 1);
                    crate::bytes::lemma_pow256_pos((32 - i - 1) as nat);
                    assert(self.bytes@.take(i + 1).drop_last() =~= self.bytes@.take(i as int));
                    assert(self.bytes@.take(i + 1).last() == self.bytes@[i as int]);
                    let a = be_nat(self.bytes@.take(i + 1));
                    let p = crate::bytes::pow256((32 - i - 1) as nat);
                    assert(a >= 1);
                    assert(a * p >= 1) by (nonlinear_arith)
                        requires
                            a >= 1,
                            p > 0,
                    ;
                }
                return false;
            }
            i = i + 1;
        }
        proof {
            crate::bytes::lemma_be_nat_zeros(self.bytes@);
        }
        true
    }
}

} // verus!

verus! {

/// Values of a sequence of field elements.
pub open spec fn fr_values(v: Seq<Fr>) -> Seq<nat> {
    v.map_values(|f: Fr| f@)
}

/// `Σ a_i · b_i` over the field, for equal-length value sequences.
pub open spec fn fdot(a: Seq<nat>, b: Seq<nat>) -> nat
    decreases a.len(),
{
    if a.len() == 0 || b.len() == 0 {
        0
    } else {
        fadd(fdot(a.drop_last(), b.drop_last()), fmul(a.last(), b.last()))
    }
}

/// `Σ c_i · x^i` over the field, in Horner form.
pub open spec fn horner(c: Seq<nat>, x: nat) -> nat
    decreases c.len(),
{
    if c.len() == 0 {
        0
    } else {
        fadd(c[0], fmul(x, horner(c.drop_first(), x)))
    }
}

pub proof fn lemma_fpow_step(a: nat, i: nat)
    ensures
        fpow(a, i + 1) == fmul(fpow(a, i), a),
        fpow(a, 0) == 1,
{
    let m = fr_modulus() as int;
    vstd::arithmetic::power::lemma_pow_positive(a as int + 1, i);
    vstd::arithmetic::power::lemma_pow0(a as int);
    assert(pow(a as int, i + 1) == a * pow(a as int, i)) by {
        vstd::arithmetic::power::lemma_pow_adds(a as int, i, 1);
        vstd::arithmetic::power::lemma_pow1(a as int);
        vstd::arithmetic::mul::lemma_mul_is_commutative(a as int, pow(a as int, i));
    }
    vstd::arithmetic::div_mod::lemma_mul_mod_noop_left(pow(a as int, i), a as int, m);
    vstd::arithmetic::mul::lemma_mul_is_commutative(a as int, pow(a as int, i));
    vstd::arithmetic::div_mod::lemma_small_mod(1, fr_modulus());
}

/// `[1, θ, θ², …, θ^(k-1)]`.
pub fn powers_of(theta: &Fr, k: usize) -> (res: Vec<Fr>)
    ensures
        res@.len() == k,
        forall|i: int| 0 <= i < k ==> (#[trigger] res@[i])@ == fpow(theta@, i as nat),
{
    let mut out: Vec<Fr> = Vec::new();
    let mut acc = Fr::one();
    let mut i: usize = 0;
    proof {
        lemma_fpow_step(theta@, 0);
    }
    while i < k
        invariant
            0 <= i <= k,
            out@.len() == i,
            acc@ == fpow(theta@, i as nat),
            forall|j: int| 0 <= j < i ==> (#[trigger] out@[j])@ == fpow(theta@, j as nat),
        decreases k - i,
    {
        out.push(acc);
        proof {
            lemma_fpow_step(theta@, i as nat);
        }
        acc = ark_mul(&acc, theta);
        i = i + 1;
    }
    out
}

/// `Σ a_i · b_i`; the two slices must have equal length.
pub fn inner_product(a: &[Fr], b: &[Fr]) -> (res: Result<Fr, OnChainError>)
    ensures
        res is Ok <==> a@.len() == b@.len(),
        res matches Ok(v) ==> v@ == fdot(fr_values(a@), fr_values(b@)),
        res is Err ==> res == Err::<Fr, OnChainError>(OnChainError::InternalInvariantViolation),
{
    if a.len() != b.len() {
        return Err(OnChainError::InternalInvariantViolation);
    }
    let mut acc = Fr::zero();
    let mut i: usize = 0;
    while i < a.len()
        invariant
            0 <= i <= a@.len(),
            a@.len() == b@.len(),
            acc@ == fdot(fr_values(a@.take(i as int)), fr_values(b@.take(i as int))),
        decreases a@.len() - i,
    {
        let t = ark_mul(&a[i], &b[i]);
        proof {
            let fa = fr_values(a@.take(i + 1));
            let fb = fr_values(b@.take(i + 1));
            assert(fa.drop_last() =~= fr_values(a@.take(i as int)));
            assert(fb.drop_last() =~= fr_values(b@.take(i as int)));
            assert(fa.last() == a@[i as int]@);
            assert(fb.last() == b@[i as int]@);
        }
        acc = ark_add(&acc, &t);
        i = i + 1;
    }
    proof {
        assert(a@.take(a@.len() as int) =~= a@);
        assert(b@.take(b@.len() as int) =~= b@);
    }
    Ok(acc)
}

/// `Σ c_i · x^i`, evaluated by Horner's rule from the highest coefficient.
pub fn horner_eval(coeffs: &[Fr], x: &Fr) -> (res: Fr)
    ensures
        res@ == horner(fr_values(coeffs@), x@),
{
    let mut acc = Fr::zero();
    let mut i: usize = coeffs.len();
    proof {
        assert(fr_values(coeffs@.skip(i as int)) =~= Seq::<nat>::empty());
    }
    while i > 0
        invariant
            0 <= i <= coeffs@.len(),
            acc@ == horner(fr_values(coeffs@.skip(i as int)), x@),
        decreases i,
    {
        let j = i - 1;
        let m = ark_mul(&acc, x);
        proof {
            let c = fr_values(coeffs@.skip(j as int));
            assert(c.drop_first() =~= fr_values(coeffs@.skip(i as int)));
            assert(c[0] == coeffs@[j as int]@);
            vstd::arithmetic::mul::lemma_mul_is_commutative(acc@ as int, x@ as int);
        }
        acc = ark_add(&coeffs[j], &m);
        i = j;
    }
    proof {
        assert(coeffs@.skip(0) =~= coeffs@);
    }
    acc
}

} // verus!

verus! {

/// The residue of an integer modulo `r`.
pub open spec fn fe(x: int) -> nat {
    (x % (fr_modulus() as int)) as nat
}

/// The field operations are residues of the integer operations.
pub proof fn lemma_field_ops(a: nat, b: nat)
    ensures
        fadd(a, b) == fe(a + b as int),
        fmul(a, b) == fe(a * b as int),
        fsub(a, b) == fe(a - b),
        fneg(a) == fe(-a),
        fadd(a, b) < fr_modulus(),
        fmul(a, b) < fr_modulus(),
{
    let m = fr_modulus() as int;
    vstd::arithmetic::div_mod::lemma_mod_pos_bound((a + b) as int, m);
    vstd::arithmetic::div_mod::lemma_mod_pos_bound((a * b) as int, m);
}

/// Reducing an operand does not change the residue of a sum.
pub proof fn lemma_fe_add(x: int, y: int)
    ensures
        fe(fe(x) + y) == fe(x + y),
        fe(x + fe(y)) == fe(x + y),
{
    let m = fr_modulus() as int;
    vstd::arithmetic::div_mod::lemma_add_mod_noop(x % m, y, m);
    vstd::arithmetic::div_mod::lemma_add_mod_noop(x, y, m);
    vstd::arithmetic::div_mod::lemma_add_mod_noop(x, y % m, m);
    vstd::arithmetic::div_mod::lemma_mod_twice(x, m);
    vstd::arithmetic::div_mod::lemma_mod_twice(y, m);
}

/// Reducing an operand does not change the residue of a difference.
pub proof fn lemma_fe_sub(x: int, y: int)
    ensures
        fe(fe(x) - y) == fe(x - y),
        fe(x - fe(y)) == fe(x - y),
{
    let m = fr_modulus() as int;
    vstd::arithmetic::div_mod::lemma_sub_mod_noop(x % m, y, m);
    vstd::arithmetic::div_mod::lemma_sub_mod_noop(x, y, m);
    vstd::arithmetic::div_mod::lemma_sub_mod_noop(x, y % m, m);
    vstd::arithmetic::div_mod::lemma_mod_twice(x, m);
    vstd::arithmetic::div_mod::lemma_mod_twice(y, m);
}

/// Reducing an operand does not change the residue of a product.
pub proof fn lemma_fe_mul(x: int, y: int)
    ensures
        fe(fe(x) * y) == fe(x * y),
        fe(x * fe(y)) == fe(x * y),
{
    let m = fr_modulus() as int;
    vstd::arithmetic::div_mod::lemma_mul_mod_noop_left(x, y, m);
    vstd::arithmetic::div_mod::lemma_mul_mod_noop_right(x, y, m);
}

/// Residues of values below `r` are the values themselves.
pub proof fn lemma_fe_small(x: int)
    requires
        0 <= x < fr_modulus(),
    ensures
        fe(x) == x,
{
    vstd::arithmetic::div_mod::lemma_small_mod(x as nat, fr_modulus());
}

} // verus!

verus! {

/// `y` is the canonical inverse of `x`.
pub open spec fn is_inverse(x: nat, y: nat) -> bool {
    y < fr_modulus() && fmul(x, y) == 1
}

/// The inverse of `x` modulo `r` (0 where there is none).
pub open spec fn finv(x: nat) -> nat {
    if exists|y: nat| is_inverse(x, y) {
        choose|y: nat| is_inverse(x, y)
    } else {
        0
    }
}

/// An element has at most one canonical inverse.
pub proof fn lemma_inverse_unique(x: nat, y1: nat, y2: nat)
    requires
        is_inverse(x, y1),
        is_inverse(x, y2),
    ensures
        y1 == y2,
{
    lemma_field_ops(x, y1);
    lemma_field_ops(x, y2);
    lemma_fe_small(y1 as int);
    lemma_fe_small(y2 as int);
    // y1 = y1·(x·y2) = (x·y1)·y2 = y2
    let (a, b1, b2) = (x as int, y1 as int, y2 as int);
    lemma_fe_mul(b1, a * b2);
    lemma_fe_mul(a * b1, b2);
    assert(b1 * (a * b2) == (a * b1) * b2) by (nonlinear_arith);
    assert(fe(b1 * 1) == y1);
    assert(fe(1 * b2) == y2);
}

/// The witness of an inverse is `finv`.
pub proof fn lemma_finv(x: nat, y: nat)
    requires
        is_inverse(x, y),
    ensures
        finv(x) == y,
{
    let c = choose|z: nat| is_inverse(x, z);
    lemma_inverse_unique(x, c, y);
}

impl Fr {
    /// Multiplicative inverse; `None` for zero.
    pub fn inverse(&self) -> (res: Option<Fr>)
        ensures
            res is None <==> fe(self@ as int) == 0,
            res matches Some(y) ==> y@ == finv(self@) && is_inverse(self@, y@),
    {
        let r = ark_inverse(self);
        proof {
            if let Some(y) = r {
                lemma_finv(self@, y@);
            }
        }
        r
    }
}

} // verus!

verus! {

/// The value of a field element as an integer.
pub open spec fn val(f: Fr) -> int {
    f@ as int
}

/// Residues of sums, differences and products depend only on the
/// residues of the operands.
pub proof fn lemma_fe_congruent(x: int, y: int, xi: int, yi: int)
    requires
        fe(x) == fe(xi),
        fe(y) == fe(yi),
    ensures
        fe(x + y) == fe(xi + yi),
        fe(x - y) == fe(xi - yi),
        fe(x * y) == fe(xi * yi),
{
    lemma_fe_add(x, y);
    lemma_fe_add(fe(x) as int, y);
    lemma_fe_add(xi, yi);
    lemma_fe_add(fe(xi) as int, yi);
    lemma_fe_sub(x, y);
    lemma_fe_sub(fe(x) as int, y);
    lemma_fe_sub(xi, yi);
    lemma_fe_sub(fe(xi) as int, yi);
    lemma_fe_mul(x, y);
    lemma_fe_mul(fe(x) as int, y);
    lemma_fe_mul(xi, yi);
    lemma_fe_mul(fe(xi) as int, yi);
}

/// Residues are below `r` and reducing twice changes nothing.
pub proof fn lemma_fe_idem(x: int)
    ensures
        fe(x) < fr_modulus(),
        fe(fe(x) as int) == fe(x),
{
    vstd::arithmetic::div_mod::lemma_mod_twice(x, fr_modulus() as int);
}

/// `x · y` for elements congruent to `xi`, `yi`.
pub(crate) fn mul_fe(x: &Fr, y: &Fr, Ghost(xi): Ghost<int>, Ghost(yi): Ghost<int>) -> (res: Fr)
    requires
        fe(val(*x)) == fe(xi),
        fe(val(*y)) == fe(yi),
    ensures
        res@ == fe(xi * yi),
        fe(val(res)) == fe(xi * yi),
{
    let r = ark_mul(x, y);
    proof {
        lemma_field_ops(x@, y@);
        lemma_fe_congruent(val(*x), val(*y), xi, yi);
        lemma_fe_idem(xi * yi);
    }
    r
}

/// `x + y` for elements congruent to `xi`, `yi`.
pub(crate) fn add_fe(x: &Fr, y: &Fr, Ghost(xi): Ghost<int>, Ghost(yi): Ghost<int>) -> (res: Fr)
    requires
        fe(val(*x)) == fe(xi),
        fe(val(*y)) == fe(yi),
    ensures
        res@ == fe(xi + yi),
        fe(val(res)) == fe(xi + yi),
{
    let r = ark_add(x, y);
    proof {
        lemma_field_ops(x@, y@);
        lemma_fe_congruent(val(*x), val(*y), xi, yi);
        lemma_fe_idem(xi + yi);
    }
    r
}

/// `−x` for an element congruent to `xi`.
pub(crate) fn neg_fe(x: &Fr, Ghost(xi): Ghost<int>) -> (res: Fr)
    requires
        fe(val(*x)) == fe(xi),
    ensures
        res@ == fe(-xi),
        fe(val(res)) == fe(-xi),
{
    let r = ark_neg(x);
    proof {
        lemma_field_ops(x@, 0);
        lemma_fe_small(0);
        lemma_fe_congruent(0, val(*x), 0, xi);
        lemma_fe_idem(-xi);
    }
    r
}

/// `x − y` for elements congruent to `xi`, `yi`.
pub(crate) fn sub_fe(x: &Fr, y: &Fr, Ghost(xi): Ghost<int>, Ghost(yi): Ghost<int>) -> (res: Fr)
    requires
        fe(val(*x)) == fe(xi),
        fe(val(*y)) == fe(yi),
    ensures
        res@ == fe(xi - yi),
        fe(val(res)) == fe(xi - yi),
{
    let r = ark_sub(x, y);
    proof {
        lemma_field_ops(x@, y@);
        lemma_fe_congruent(val(*x), val(*y), xi, yi);
        lemma_fe_idem(xi - yi);
    }
    r
}

} // verus!
