//! Big-endian range helpers for the BN254 scalar field order `r`.
use vstd::prelude::*;
use crate::bytes::{be_nat, lemma_be_nat_bound, lemma_be_nat_first, lemma_be_nat_lt_at, pow256};

verus! {

/// Length of a scalar-field element encoding.
pub const FR_LEN: usize = 32;

/// The BN254 scalar field order `r`.
pub open spec fn fr_modulus() -> nat {
    21888242871839275222246405745257275088548364400416034343698204186575808495617nat
}

/// The big-endian bytes of `r`.
pub open spec fn fr_modulus_bytes() -> Seq<u8> {
    seq![
        0x30u8, 0x64, 0x4e, 0x72, 0xe1, 0x31, 0xa0, 0x29, 0xb8, 0x50, 0x45, 0xb6, 0x81, 0x81, 0x58, 0x5d,
        0x28, 0x33, 0xe8, 0x48, 0x79, 0xb9, 0x70, 0x91, 0x43, 0xe1, 0xf5, 0x93, 0xf0, 0x00, 0x00, 0x01,
    ]
}

pub proof fn lemma_fr_modulus_bytes()
    ensures
        be_nat(fr_modulus_bytes()) == fr_modulus(),
        fr_modulus_bytes().len() == 32,
{
    reveal_with_fuel(be_nat, 33);
    assert(be_nat(fr_modulus_bytes()) == fr_modulus());
}

/// Big-endian unsigned comparison: true iff `a < b`.
pub fn lt_be(a: &[u8; FR_LEN], b: &[u8; FR_LEN]) -> (res: bool)
    ensures
        res == (be_nat(a@) < be_nat(b@)),
{
    let mut i: usize = 0;
    while i < FR_LEN
        invariant
            0 <= i <= FR_LEN,
            a@.take(i as int) == b@.take(i as int),
        decreases FR_LEN - i,
    {
        if a[i] != b[i] {
            proof {
                if a[i as int] < b[i as int] {
                    lemma_be_nat_lt_at(a@, b@, i as int);
                } else {
                    lemma_be_nat_lt_at(b@, a@, i as int);
                }
            }
            return a[i] < b[i];
        }
        assert(a@.take(i + 1) =~= a@.take(i as int).push(a@[i as int]));
        assert(b@.take(i + 1) =~= b@.take(i as int).push(b@[i as int]));
        i = i + 1;
    }
    assert(a@ =~= a@.take(32));
    assert(b@ =~= b@.take(32));
    false
}

} // verus!

verus! {

/// BN254 scalar field order `r`, big-endian.
pub const BN254_FR_MODULUS_BE: [u8; FR_LEN] = [
    0x30, 0x64, 0x4e, 0x72, 0xe1, 0x31, 0xa0, 0x29, 0xb8, 0x50, 0x45, 0xb6, 0x81, 0x81, 0x58, 0x5d,
    0x28, 0x33, 0xe8, 0x48, 0x79, 0xb9, 0x70, 0x91, 0x43, 0xe1, 0xf5, 0x93, 0xf0, 0x00, 0x00, 0x01,
];

pub proof fn lemma_modulus_const()
    ensures
        BN254_FR_MODULUS_BE@ == fr_modulus_bytes(),
        be_nat(BN254_FR_MODULUS_BE@) == fr_modulus(),
{
    assert(BN254_FR_MODULUS_BE@ =~= fr_modulus_bytes());
    lemma_fr_modulus_bytes();
}

/// True iff `a` encodes an element of the scalar field (`a < r`).
pub fn lt_r(a: &[u8; FR_LEN]) -> (res: bool)
    ensures
        res == (be_nat(a@) < fr_modulus()),
{
    proof {
        lemma_modulus_const();
    }
    lt_be(a, &BN254_FR_MODULUS_BE)
}

} // verus!

verus! {

/// In-place big-endian subtraction `x ← x - r`; the caller guarantees `x ≥ r`.
pub fn sub_r(x: &mut [u8; FR_LEN])
    requires
        be_nat(old(x)@) >= fr_modulus(),
    ensures
        be_nat(final(x)@) == be_nat(old(x)@) - fr_modulus(),
{
    proof {
        lemma_modulus_const();
    }
    let r = BN254_FR_MODULUS_BE;
    let ghost x0 = x@;
    let mut borrow: i16 = 0;
    let mut i: usize = FR_LEN;
    proof {
        assert(x@.skip(32) =~= Seq::<u8>::empty());
        assert(r@.skip(32) =~= Seq::<u8>::empty());
        assert(be_nat(Seq::<u8>::empty()) == 0);
    }
    while i > 0
        invariant
            0 <= i <= FR_LEN,
            r@ == fr_modulus_bytes(),
            x@.len() == 32,
            x0.len() == 32,
            x@.take(i as int) == x0.take(i as int),
            0 <= borrow <= 1,
            be_nat(x@.skip(i as int)) + be_nat(r@.skip(i as int)) == be_nat(x0.skip(i as int))
                + borrow * pow256((FR_LEN - i) as nat),
        decreases i,
    {
        let j = i - 1;
        let diff: i16 = (x[j] as i16) - (r[j] as i16) - borrow;
        let ghost old_borrow = borrow as int;
        let ghost xs = x@;
        if diff < 0 {
            x[j] = (diff + 256) as u8;
            borrow = 1;
        } else {
            x[j] = diff as u8;
            borrow = 0;
        }
        proof {
            let p = pow256((FR_LEN - i) as nat);
            lemma_be_nat_first(x@.skip(j as int));
            lemma_be_nat_first(r@.skip(j as int));
            lemma_be_nat_first(x0.skip(j as int));
            assert(x@.skip(j as int).drop_first() =~= xs.skip(i as int));
            assert(r@.skip(j as int).drop_first() =~= r@.skip(i as int));
            assert(x0.skip(j as int).drop_first() =~= x0.skip(i as int));
            assert(xs.take(i as int)[j as int] == x0[j as int]);
            assert(x@.take(j as int) =~= x0.take(j as int)) by {
                assert(x@.take(j as int) =~= xs.take(i as int).take(j as int));
                assert(x0.take(j as int) =~= x0.take(i as int).take(j as int));
            }
            let nx = x@[j as int] as int;
            let ox = x0[j as int] as int;
            let rr = r@[j as int] as int;
            assert(nx - 256 * (borrow as int) == ox - rr - old_borrow);
            assert(pow256((FR_LEN - j) as nat) == 256 * p);
            assert(nx * p + rr * p == ox * p + (borrow as int) * (256 * p) - old_borrow * p)
                by (nonlinear_arith)
                requires
                    nx - 256 * (borrow as int) == ox - rr - old_borrow,
            ;
        }
        i = j;
    }
    proof {
        assert(x@.skip(0) =~= x@);
        assert(r@.skip(0) =~= r@);
        assert(x0.skip(0) =~= x0);
        lemma_be_nat_bound(x@);
        lemma_fr_modulus_bytes();
        if borrow == 1 {
            assert(be_nat(x@) + fr_modulus() == be_nat(x0) + pow256(32));
            assert(false);
        }
    }
}

/// Reduce a 32-byte big-endian integer modulo `r`, in place.
pub fn reduce_mod_r(x: &mut [u8; FR_LEN])
    ensures
        be_nat(final(x)@) == be_nat(old(x)@) % fr_modulus(),
{
    let ghost x0 = x@;
    proof {
        lemma_be_nat_bound(x0);
        assert(pow256(32) == 115792089237316195423570985008687907853269984665640564039457584007913129639936nat) by {
            reveal_with_fuel(pow256, 33);
        }
    }
    let mut k: usize = 0;
    while k < 6
        invariant
            0 <= k <= 6,
            x@.len() == 32,
            x0.len() == 32,
            x0 == old(x)@,
            be_nat(x0) < pow256(32),
            pow256(32) == 115792089237316195423570985008687907853269984665640564039457584007913129639936nat,
            be_nat(x@) + k * fr_modulus() == be_nat(x0),
        decreases 6 - k,
    {
        if lt_r(x) {
            proof {
                vstd::arithmetic::div_mod::lemma_fundamental_div_mod_converse(
                    be_nat(x0) as int,
                    fr_modulus() as int,
                    k as int,
                    be_nat(x@) as int,
                );
                assert(be_nat(x@) == be_nat(x0) % fr_modulus());
                assert(x0 == old(x)@);
            }
            return;
        }
        sub_r(x);
        k = k + 1;
    }
    proof {
        assert(false);
    }
}

} // verus!

verus! {

/// Parse a big-endian 32-byte encoding that must already be below `r`.
pub fn parse_fr_be(bytes: &[u8]) -> (res: Result<[u8; FR_LEN], crate::error::OnChainError>)
    ensures
        bytes@.len() != FR_LEN ==> res == Err::<[u8; FR_LEN], _>(
            crate::error::OnChainError::InvalidFieldEncoding,
        ),
        bytes@.len() == FR_LEN && be_nat(bytes@) >= fr_modulus() ==> res == Err::<[u8; FR_LEN], _>(
            crate::error::OnChainError::PublicInputOutOfRange,
        ),
        bytes@.len() == FR_LEN && be_nat(bytes@) < fr_modulus() ==> (res matches Ok(a) && a@
            == bytes@),
{
    if bytes.len() != FR_LEN {
        return Err(crate::error::OnChainError::InvalidFieldEncoding);
    }
    let out = crate::bytes::copy32(bytes, 0);
    assert(bytes@.subrange(0, 32) =~= bytes@);
    if !lt_r(&out) {
        return Err(crate::error::OnChainError::PublicInputOutOfRange);
    }
    Ok(out)
}

/// Reducing twice gives the same bytes as reducing once.
pub proof fn lemma_reduce_idempotent(x: nat)
    ensures
        (x % fr_modulus()) % fr_modulus() == x % fr_modulus(),
{
    vstd::arithmetic::div_mod::lemma_mod_twice(x as int, fr_modulus() as int);
}

} // verus!
