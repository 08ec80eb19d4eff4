//! Big-endian byte-string arithmetic used by the field-range and
//! point-encoding helpers.
use vstd::prelude::*;

verus! {

/// `256^n`.
pub open spec fn pow256(n: nat) -> nat
    decreases n,
{
    if n == 0 {
        1
    } else {
        256 * pow256((n - 1) as nat)
    }
}

/// Unsigned integer denoted by a big-endian byte string.
pub open spec fn be_nat(s: Seq<u8>) -> nat
    decreases s.len(),
{
    if s.len() == 0 {
        0
    } else {
        be_nat(s.drop_last()) * 256 + s.last() as nat
    }
}

pub proof fn lemma_pow256_pos(n: nat)
    ensures
        pow256(n) > 0,
    decreases n,
{
    if n > 0 {
        lemma_pow256_pos((n - 1) as nat);
    }
}

pub proof fn lemma_pow256_adds(a: nat, b: nat)
    ensures
        pow256(a + b) == pow256(a) * pow256(b),
    decreases b,
{
    if b > 0 {
        lemma_pow256_adds(a, (b - 1) as nat);
        assert((a + b - 1) as nat == a + (b - 1) as nat);
        assert(pow256(a + b) == 256 * pow256((a + b - 1) as nat));
        assert(pow256(b) == 256 * pow256((b - 1) as nat));
        assert(256 * (pow256(a) * pow256((b - 1) as nat)) == pow256(a) * (256 * pow256(
            (b - 1) as nat,
        ))) by (nonlinear_arith);
    } else {
        assert(pow256(b) == 1);
        assert(a + b == a);
        assert(pow256(a) * 1 == pow256(a));
    }
}

/// A big-endian string of `n` bytes denotes a value below `256^n`.
pub proof fn lemma_be_nat_bound(s: Seq<u8>)
    ensures
        be_nat(s) < pow256(s.len()),
    decreases s.len(),
{
    if s.len() > 0 {
        lemma_be_nat_bound(s.drop_last());
        let p = pow256((s.len() - 1) as nat);
        let v = be_nat(s.drop_last());
        assert(v * 256 + (s.last() as nat) < p * 256) by (nonlinear_arith)
            requires
                v < p,
                s.last() < 256,
        ;
    }
}

/// Value of a concatenation: the prefix shifted past the suffix.
pub proof fn lemma_be_nat_concat(s: Seq<u8>, t: Seq<u8>)
    ensures
        be_nat(s + t) == be_nat(s) * pow256(t.len()) + be_nat(t),
    decreases t.len(),
{
    if t.len() == 0 {
        assert(s + t =~= s);
        assert(pow256(0) == 1);
        assert(be_nat(t) == 0);
        assert(be_nat(s) * 1 == be_nat(s));
    } else {
        let t0 = t.drop_last();
        assert((s + t).drop_last() =~= s + t0);
        assert((s + t).last() == t.last());
        lemma_be_nat_concat(s, t0);
        assert(be_nat(s + t) == be_nat((s + t).drop_last()) * 256 + (s + t).last() as nat);
        assert(be_nat(t) == be_nat(t.drop_last()) * 256 + t.last() as nat);
        assert(pow256(t.len()) == 256 * pow256(t0.len()));
        let a = be_nat(s);
        let p = pow256(t0.len());
        let b = be_nat(t0);
        assert((a * p + b) * 256 + t.last() as nat == a * (256 * p) + (b * 256 + t.last() as nat))
            by (nonlinear_arith);
    }
}

/// Splitting a string at `i` splits its value accordingly.
pub proof fn lemma_be_nat_split(s: Seq<u8>, i: int)
    requires
        0 <= i <= s.len(),
    ensures
        be_nat(s) == be_nat(s.take(i)) * pow256((s.len() - i) as nat) + be_nat(s.skip(i)),
{
    assert(s =~= s.take(i) + s.skip(i));
    lemma_be_nat_concat(s.take(i), s.skip(i));
}

/// Value of a string given its first byte and the rest.
pub proof fn lemma_be_nat_first(s: Seq<u8>)
    requires
        s.len() > 0,
    ensures
        be_nat(s) == (s[0] as nat) * pow256((s.len() - 1) as nat) + be_nat(s.drop_first()),
{
    lemma_be_nat_split(s, 1);
    assert(s.take(1) =~= seq![s[0]]);
    assert(s.skip(1) =~= s.drop_first());
    assert(be_nat(seq![s[0]]) == s[0] as nat) by {
        assert(seq![s[0]].drop_last() =~= Seq::<u8>::empty());
        assert(be_nat(Seq::<u8>::empty()) == 0);
    }
}

/// Equal-length strings compare by their first differing byte.
pub proof fn lemma_be_nat_lt_at(s: Seq<u8>, t: Seq<u8>, i: int)
    requires
        s.len() == t.len(),
        0 <= i < s.len(),
        s.take(i) == t.take(i),
        s[i] < t[i],
    ensures
        be_nat(s) < be_nat(t),
{
    let n = s.len();
    lemma_be_nat_split(s, i + 1);
    lemma_be_nat_split(t, i + 1);
    let p = pow256((n - i - 1) as nat);
    lemma_be_nat_bound(s.skip(i + 1));
    assert(s.take(i + 1).drop_last() =~= s.take(i));
    assert(t.take(i + 1).drop_last() =~= t.take(i));
    let ps = be_nat(s.take(i + 1));
    let pt = be_nat(t.take(i + 1));
    assert(ps == be_nat(s.take(i)) * 256 + s[i] as nat);
    assert(pt == be_nat(t.take(i)) * 256 + t[i] as nat);
    assert(ps + 1 <= pt);
    let ss = be_nat(s.skip(i + 1));
    let ts = be_nat(t.skip(i + 1));
    assert(ps * p + ss < pt * p + ts) by (nonlinear_arith)
        requires
            ps + 1 <= pt,
            ss < p,
    ;
}

} // verus!

verus! {

/// Little-endian value of a 4-byte string.
pub open spec fn le_u32(s: Seq<u8>) -> nat {
    s[0] as nat + (s[1] as nat) * 256 + (s[2] as nat) * 65536 + (s[3] as nat) * 16777216
}

/// Little-endian value of a 2-byte string.
pub open spec fn le_u16(s: Seq<u8>) -> nat {
    s[0] as nat + (s[1] as nat) * 256
}

/// Little-endian encoding of a `u32`.
pub open spec fn u32_le_bytes(x: u32) -> Seq<u8> {
    seq![
        (x % 256) as u8,
        ((x / 256) % 256) as u8,
        ((x / 65536) % 256) as u8,
        (x / 16777216) as u8,
    ]
}

/// Little-endian encoding of a `u16`.
pub open spec fn u16_le_bytes(x: u16) -> Seq<u8> {
    seq![(x % 256) as u8, (x / 256) as u8]
}

pub proof fn lemma_u32_le_roundtrip(x: u32)
    ensures
        u32_le_bytes(x).len() == 4,
        le_u32(u32_le_bytes(x)) == x,
{
    let b = u32_le_bytes(x);
    assert(b[0] as nat + (b[1] as nat) * 256 + (b[2] as nat) * 65536 + (b[3] as nat) * 16777216
        == x) by (nonlinear_arith)
        requires
            b[0] == x % 256,
            b[1] == (x / 256) % 256,
            b[2] == (x / 65536) % 256,
            b[3] == x / 16777216,
            x < 0x1_0000_0000,
    ;
}

pub proof fn lemma_le_u32_roundtrip(s: Seq<u8>)
    requires
        s.len() == 4,
    ensures
        le_u32(s) < 0x1_0000_0000,
        u32_le_bytes(le_u32(s) as u32) =~= s,
{
    let x = le_u32(s);
    let (b0, b1, b2, b3) = (s[0] as nat, s[1] as nat, s[2] as nat, s[3] as nat);
    assert(x < 0x1_0000_0000 && x % 256 == b0 && (x / 256) % 256 == b1 && (x / 65536) % 256 == b2
        && x / 16777216 == b3) by (nonlinear_arith)
        requires
            x == b0 + b1 * 256 + b2 * 65536 + b3 * 16777216,
            b0 < 256,
            b1 < 256,
            b2 < 256,
            b3 < 256,
    ;
}

pub proof fn lemma_u16_le_roundtrip(x: u16)
    ensures
        u16_le_bytes(x).len() == 2,
        le_u16(u16_le_bytes(x)) == x,
{
}

pub proof fn lemma_le_u16_roundtrip(s: Seq<u8>)
    requires
        s.len() == 2,
    ensures
        le_u16(s) < 0x1_0000,
        u16_le_bytes(le_u16(s) as u16) =~= s,
{
}

/// Read a little-endian `u32` at `off`.
pub fn read_u32_le(s: &[u8], off: usize) -> (v: u32)
    requires
        off + 4 <= s@.len(),
    ensures
        v == le_u32(s@.subrange(off as int, off + 4)),
{
    (s[off] as u32) + (s[off + 1] as u32) * 256 + (s[off + 2] as u32) * 65536 + (s[off + 3] as u32)
        * 16777216
}

/// Read a little-endian `u16` at `off`.
pub fn read_u16_le(s: &[u8], off: usize) -> (v: u16)
    requires
        off + 2 <= s@.len(),
    ensures
        v == le_u16(s@.subrange(off as int, off + 2)),
{
    (s[off] as u16) + (s[off + 1] as u16) * 256
}

/// Little-endian encoding of `x`.
pub fn u32_to_le_bytes(x: u32) -> (b: [u8; 4])
    ensures
        b@ == u32_le_bytes(x),
{
    let b = [(x % 256) as u8, ((x / 256) % 256) as u8, ((x / 65536) % 256) as u8, (x / 16777216) as u8];
    assert(b@ =~= u32_le_bytes(x));
    b
}

/// Little-endian encoding of `x`.
pub fn u16_to_le_bytes(x: u16) -> (b: [u8; 2])
    ensures
        b@ == u16_le_bytes(x),
{
    let b = [(x % 256) as u8, (x / 256) as u8];
    assert(b@ =~= u16_le_bytes(x));
    b
}

/// Append every byte of `s` to `out`.
pub fn push_all(out: &mut Vec<u8>, s: &[u8])
    ensures
        final(out)@ == old(out)@ + s@,
{
    let mut i: usize = 0;
    while i < s.len()
        invariant
            0 <= i <= s@.len(),
            out@ == old(out)@ + s@.take(i as int),
        decreases s@.len() - i,
    {
        out.push(s[i]);
        assert(s@.take(i + 1) =~= s@.take(i as int).push(s@[i as int]));
        i = i + 1;
    }
    assert(s@.take(s@.len() as int) =~= s@);
}

/// Copy a 32-byte window starting at `off`.
pub fn copy32(s: &[u8], off: usize) -> (a: [u8; 32])
    requires
        off + 32 <= s@.len(),
    ensures
        a@ == s@.subrange(off as int, off + 32),
{
    let mut a = [0u8; 32];
    let mut i: usize = 0;
    let _n = s.len();
    while i < 32
        invariant
            0 <= i <= 32,
            off + 32 <= s@.len() <= usize::MAX,
            a@.len() == 32,
            a@.take(i as int) == s@.subrange(off as int, off + i),
        decreases 32 - i,
    {
        a[i] = s[off + i];
        assert(a@.take(i + 1) =~= s@.subrange(off as int, off + i + 1));
        i = i + 1;
    }
    assert(a@ =~= a@.take(32));
    a
}

/// Copy a 64-byte window starting at `off`.
pub fn copy64(s: &[u8], off: usize) -> (a: [u8; 64])
    requires
        off + 64 <= s@.len(),
    ensures
        a@ == s@.subrange(off as int, off + 64),
{
    let mut a = [0u8; 64];
    let mut i: usize = 0;
    let _n = s.len();
    while i < 64
        invariant
            0 <= i <= 64,
            off + 64 <= s@.len() <= usize::MAX,
            a@.len() == 64,
            a@.take(i as int) == s@.subrange(off as int, off + i),
        decreases 64 - i,
    {
        a[i] = s[off + i];
        assert(a@.take(i + 1) =~= s@.subrange(off as int, off + i + 1));
        i = i + 1;
    }
    assert(a@ =~= a@.take(64));
    a
}

/// Copy a 128-byte window starting at `off`.
pub fn copy128(s: &[u8], off: usize) -> (a: [u8; 128])
    requires
        off + 128 <= s@.len(),
    ensures
        a@ == s@.subrange(off as int, off + 128),
{
    let mut a = [0u8; 128];
    let mut i: usize = 0;
    let _n = s.len();
    while i < 128
        invariant
            0 <= i <= 128,
            off + 128 <= s@.len() <= usize::MAX,
            a@.len() == 128,
            a@.take(i as int) == s@.subrange(off as int, off + i),
        decreases 128 - i,
    {
        a[i] = s[off + i];
        assert(a@.take(i + 1) =~= s@.subrange(off as int, off + i + 1));
        i = i + 1;
    }
    assert(a@ =~= a@.take(128));
    a
}

/// Bytes `[lo, hi)` of `s`, borrowed.
pub fn window<'a>(s: &'a [u8], lo: usize, hi: usize) -> (w: &'a [u8])
    requires
        lo <= hi <= s@.len(),
    ensures
        w@ == s@.subrange(lo as int, hi as int),
{
    &s[lo..hi]
}

} // verus!

verus! {

/// Byte-wise equality of two 32-byte arrays.
pub fn eq32(a: &[u8; 32], b: &[u8; 32]) -> (res: bool)
    ensures
        res == (a@ == b@),
{
    let mut i: usize = 0;
    while i < 32
        invariant
            0 <= i <= 32,
            a@.take(i as int) == b@.take(i as int),
        decreases 32 - i,
    {
        if a[i] != b[i] {
            assert(a@[i as int] != b@[i as int]);
            return false;
        }
        assert(a@.take(i + 1) =~= a@.take(i as int).push(a@[i as int]));
        assert(b@.take(i + 1) =~= b@.take(i as int).push(b@[i as int]));
        i = i + 1;
    }
    assert(a@ =~= a@.take(32));
    assert(b@ =~= b@.take(32));
    true
}

} // verus!

verus! {

/// Equal-length strings with equal values are equal.
pub proof fn lemma_be_nat_injective(s: Seq<u8>, t: Seq<u8>)
    requires
        s.len() == t.len(),
        be_nat(s) == be_nat(t),
    ensures
        s == t,
{
    if s != t {
        let i = choose|i: int| 0 <= i < s.len() && s[i] != t[i];
        assert(exists|i: int| 0 <= i < s.len() && s[i] != t[i]) by {
            if forall|i: int| 0 <= i < s.len() ==> s[i] == t[i] {
                assert(s =~= t);
            }
        }
        lemma_first_difference(s, t);
        let j = choose|j: int| 0 <= j < s.len() && s.take(j) == t.take(j) && s[j] != t[j];
        if s[j] < t[j] {
            lemma_be_nat_lt_at(s, t, j);
        } else {
            lemma_be_nat_lt_at(t, s, j);
        }
    }
}

/// Two different equal-length strings have a first differing position.
pub proof fn lemma_first_difference(s: Seq<u8>, t: Seq<u8>)
    requires
        s.len() == t.len(),
        exists|i: int| 0 <= i < s.len() && s[i] != t[i],
    ensures
        exists|j: int| 0 <= j < s.len() && s.take(j) == t.take(j) && s[j] != t[j],
    decreases s.len(),
{
    if s[0] != t[0] {
        assert(s.take(0) =~= t.take(0));
    } else {
        let s1 = s.drop_first();
        let t1 = t.drop_first();
        let i = choose|i: int| 0 <= i < s.len() && s[i] != t[i];
        assert(s1[i - 1] != t1[i - 1]);
        lemma_first_difference(s1, t1);
        let j = choose|j: int| 0 <= j < s1.len() && s1.take(j) == t1.take(j) && s1[j] != t1[j];
        assert(s.take(j + 1) =~= seq![s[0]] + s1.take(j));
        assert(t.take(j + 1) =~= seq![t[0]] + t1.take(j));
        assert(s[j + 1] != t[j + 1]);
    }
}

/// A string of zero bytes denotes zero.
pub proof fn lemma_be_nat_zeros(s: Seq<u8>)
    requires
        forall|i: int| 0 <= i < s.len() ==> s[i] == 0,
    ensures
        be_nat(s) == 0,
    decreases s.len(),
{
    if s.len() > 0 {
        lemma_be_nat_zeros(s.drop_last());
    }
}

} // verus!

verus! {

/// The `i`-th window of width `size` in `s`.
pub open spec fn chunk_at(s: Seq<u8>, size: nat, i: int) -> Seq<u8> {
    s.subrange(i * size, (i + 1) * size)
}

/// Split `s` into consecutive windows of width `size`, dropping any
/// incomplete trailing window.
pub fn chunks_exact<'a>(s: &'a [u8], size: usize) -> (res: Vec<&'a [u8]>)
    requires
        size > 0,
    ensures
        res@.len() == s@.len() / (size as nat),
        forall|i: int| 0 <= i < res@.len() ==> (#[trigger] res@[i])@ == chunk_at(s@, size as nat, i),
{
    let n = s.len() / size;
    let mut out: Vec<&'a [u8]> = Vec::new();
    let mut i: usize = 0;
    proof {
        vstd::arithmetic::div_mod::lemma_fundamental_div_mod(s@.len() as int, size as int);
        vstd::arithmetic::div_mod::lemma_mod_pos_bound(s@.len() as int, size as int);
        vstd::arithmetic::mul::lemma_mul_is_commutative(size as int, n as int);
    }
    while i < n
        invariant
            0 <= i <= n,
            size > 0,
            s@.len() <= usize::MAX,
            n == s@.len() / (size as nat),
            n * size <= s@.len(),
            out@.len() == i,
            forall|j: int| 0 <= j < i ==> (#[trigger] out@[j])@ == chunk_at(s@, size as nat, j),
        decreases n - i,
    {
        proof {
            assert((i + 1) * size <= n * size) by (nonlinear_arith)
                requires
                    i + 1 <= n,
            ;
            assert((i + 1) * size == i * size + size) by (nonlinear_arith);
        }
        let lo = i * size;
        let w = window(s, lo, lo + size);
        out.push(w);
        i = i + 1;
    }
    out
}

} // verus!

verus! {

/// Windows of a three-part concatenation.
pub proof fn lemma_concat3_windows(h: Seq<u8>, f: Seq<u8>, p: Seq<u8>)
    ensures
        (h + f + p).subrange(h.len() as int, (h.len() + f.len()) as int) == f,
        (h + f + p).subrange((h.len() + f.len()) as int, (h.len() + f.len() + p.len()) as int) == p,
        forall|i: int, j: int|
            0 <= i <= j <= h.len() ==> (h + f + p).subrange(i, j) == #[trigger] h.subrange(i, j),
{
    let s = h + f + p;
    assert(s.subrange(h.len() as int, (h.len() + f.len()) as int) =~= f);
    assert(s.subrange((h.len() + f.len()) as int, (h.len() + f.len() + p.len()) as int) =~= p);
    assert forall|i: int, j: int| 0 <= i <= j <= h.len() implies s.subrange(i, j)
        == #[trigger] h.subrange(i, j) by {
        assert(s.subrange(i, j) =~= h.subrange(i, j));
    }
}

} // verus!
