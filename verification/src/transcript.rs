//! Fiat–Shamir transcript over the backend's hash.
//!
//! Bytes are absorbed into a running buffer; a challenge is the hash of the
//! buffer reduced modulo `r`, as a canonical 32-byte big-endian scalar.
//! Callers start each round from an empty buffer with [`Transcript::reset`].
//!
//! The hash is computed by the backend: a reply is the backend's answer to
//! the buffer ([`hash_on`]). A transcript keeps, as ghost state, every
//! buffer it handed to the backend and every reply it got, so that callers
//! can state exactly what they asked for and what they derived from each
//! answer.
use vstd::prelude::*;
use crate::bytes::be_nat;
use crate::error::OnChainError;
use crate::field::Fr;
use crate::fr::{fr_modulus, reduce_mod_r, FR_LEN};
use crate::syscall::{InputEndianness, PoseidonParameters, SyscallBackend};

verus! {

/// Hash a transcript is built on.
#[derive(Clone, Copy, Debug, PartialEq, Eq, Structural)]
pub enum Kind {
    /// Keccak-256.
    Keccak256,
    /// Poseidon over the BN254 scalar field with the x^5 S-box.
    PoseidonBn254X5,
}

/// The backend's `kind` hash of the single input `bytes`.
pub open spec fn hash_on<B: SyscallBackend + ?Sized>(b: &B, kind: Kind, bytes: Seq<u8>) -> Result<
    Seq<u8>,
    OnChainError,
> {
    let inputs = choose|s: &[&[u8]]| s@.len() == 1 && s@[0]@ == bytes;
    let r = match kind {
        Kind::Keccak256 => b.keccak256_reply(inputs),
        Kind::PoseidonBn254X5 => b.poseidon_reply(
            PoseidonParameters::Bn254X5,
            InputEndianness::BigEndian,
            inputs,
        ),
    };
    match r {
        Ok(h) => Ok(h@),
        Err(e) => Err(e),
    }
}

/// A one-slice input list is the one the specification picks for its
/// contents.
proof fn lemma_single_input(inputs: &[&[u8]])
    requires
        inputs@.len() == 1,
    ensures
        (choose|s: &[&[u8]]| s@.len() == 1 && s@[0]@ == inputs@[0]@) == inputs,
{
    let t = choose|s: &[&[u8]]| s@.len() == 1 && s@[0]@ == inputs@[0]@;
    assert(t@.len() == 1 && t@[0]@ == inputs@[0]@);
    assert(t@[0] =~= inputs@[0]);
    assert(t =~= inputs);
}

/// The 32-byte big-endian encoding of `v` (for `v < 2^256`).
pub open spec fn fr_bytes(v: nat) -> Seq<u8> {
    choose|s: Seq<u8>| s.len() == FR_LEN && be_nat(s) == v
}

/// A 32-byte string is the encoding of its value.
pub proof fn lemma_fr_bytes(s: Seq<u8>)
    requires
        s.len() == FR_LEN,
    ensures
        fr_bytes(be_nat(s)) == s,
{
    let t = fr_bytes(be_nat(s));
    assert(s.len() == FR_LEN && be_nat(s) == be_nat(s));
    crate::bytes::lemma_be_nat_injective(t, s);
}

/// The challenge derived from a hash reply: the reply reduced modulo `r`.
pub open spec fn challenge_bytes(reply: Seq<u8>) -> Seq<u8> {
    fr_bytes(be_nat(reply) % fr_modulus())
}

/// A Fiat–Shamir transcript.
pub struct Transcript<'b, B: SyscallBackend + ?Sized> {
    kind: Kind,
    backend: &'b B,
    accumulated: Vec<u8>,
    queries: Ghost<Seq<Seq<u8>>>,
    replies: Ghost<Seq<Seq<u8>>>,
}

impl<'b, B: SyscallBackend + ?Sized> Transcript<'b, B> {
    /// Bytes absorbed since the last reset.
    pub closed spec fn buffer(&self) -> Seq<u8> {
        self.accumulated@
    }

    /// Buffers handed to the hash, in order.
    pub closed spec fn queries(&self) -> Seq<Seq<u8>> {
        self.queries@
    }

    /// The hash replies, in order; each answers the query at its index.
    pub closed spec fn replies(&self) -> Seq<Seq<u8>> {
        self.replies@
    }

    /// The hash in use.
    pub closed spec fn kind(&self) -> Kind {
        self.kind
    }

    /// The backend that answers the queries.
    pub closed spec fn backend(&self) -> &'b B {
        self.backend
    }

    /// An empty transcript over `backend`.
    pub fn new(kind: Kind, backend: &'b B) -> (t: Self)
        ensures
            t.buffer() == Seq::<u8>::empty(),
            t.queries() == Seq::<Seq<u8>>::empty(),
            t.replies() == Seq::<Seq<u8>>::empty(),
            t.kind() == kind,
            t.backend() == backend,
    {
        Transcript {
            kind,
            backend,
            accumulated: Vec::new(),
            queries: Ghost(Seq::empty()),
            replies: Ghost(Seq::empty()),
        }
    }

    /// Append `data` to the buffer.
    pub fn absorb(&mut self, data: &[u8])
        ensures
            final(self).buffer() == old(self).buffer() + data@,
            final(self).queries() == old(self).queries(),
            final(self).replies() == old(self).replies(),
            final(self).kind() == old(self).kind(),
            final(self).backend() == old(self).backend(),
    {
        crate::bytes::push_all(&mut self.accumulated, data);
    }

    /// Append, in order, consecutive windows of width `size` of `whole`:
    /// the first `items.len()` of them.
    pub fn absorb_chunks(&mut self, items: &Vec<&[u8]>, Ghost(whole): Ghost<Seq<u8>>, Ghost(size): Ghost<nat>)
        requires
            items@.len() * size <= whole.len(),
            forall|i: int| 0 <= i < items@.len() ==> (#[trigger] items@[i])@ == crate::bytes::chunk_at(whole, size, i),
        ensures
            final(self).buffer() == old(self).buffer() + whole.subrange(0, (items@.len() * size) as int),
            final(self).queries() == old(self).queries(),
            final(self).replies() == old(self).replies(),
            final(self).kind() == old(self).kind(),
            final(self).backend() == old(self).backend(),
    {
        let mut i: usize = 0;
        while i < items.len()
            invariant
                0 <= i <= items@.len(),
                items@.len() * size <= whole.len(),
                forall|j: int| 0 <= j < items@.len() ==> (#[trigger] items@[j])@ == crate::bytes::chunk_at(whole, size, j),
                self.buffer() == old(self).buffer() + whole.subrange(0, i * size),
                self.queries() == old(self).queries(),
                self.replies() == old(self).replies(),
                self.kind() == old(self).kind(),
                self.backend() == old(self).backend(),
            decreases items@.len() - i,
        {
            let ghost before = self.buffer();
            self.absorb(items[i]);
            proof {
                assert((i + 1) * size == i * size + size) by (nonlinear_arith);
                assert((i + 1) * size <= items@.len() * size) by (nonlinear_arith)
                    requires
                        i + 1 <= items@.len(),
                ;
                assert(whole.subrange(0, (i + 1) * size) =~= whole.subrange(0, i * size)
                    + crate::bytes::chunk_at(whole, size, i as int));
                assert(self.buffer() =~= old(self).buffer() + whole.subrange(0, (i + 1) * size));
            }
            i = i + 1;
        }
    }

    /// Append a 64-byte G1 encoding; any other length is a point-encoding
    /// error and leaves the transcript unchanged.
    pub fn absorb_g1(&mut self, p: &[u8]) -> (res: Result<(), OnChainError>)
        ensures
            res is Ok <==> p@.len() == 64,
            res is Err ==> res == Err::<(), OnChainError>(OnChainError::InvalidPointEncoding)
                && final(self).buffer() == old(self).buffer(),
            res is Ok ==> final(self).buffer() == old(self).buffer() + p@,
            final(self).queries() == old(self).queries(),
            final(self).replies() == old(self).replies(),
            final(self).kind() == old(self).kind(),
            final(self).backend() == old(self).backend(),
    {
        if p.len() != 64 {
            return Err(OnChainError::InvalidPointEncoding);
        }
        self.absorb(p);
        Ok(())
    }

    /// Append a 32-byte scalar encoding; any other length is a
    /// field-encoding error and leaves the transcript unchanged.
    pub fn absorb_fr(&mut self, f: &[u8]) -> (res: Result<(), OnChainError>)
        ensures
            res is Ok <==> f@.len() == FR_LEN,
            res is Err ==> res == Err::<(), OnChainError>(OnChainError::InvalidFieldEncoding)
                && final(self).buffer() == old(self).buffer(),
            res is Ok ==> final(self).buffer() == old(self).buffer() + f@,
            final(self).queries() == old(self).queries(),
            final(self).replies() == old(self).replies(),
            final(self).kind() == old(self).kind(),
            final(self).backend() == old(self).backend(),
    {
        if f.len() != FR_LEN {
            return Err(OnChainError::InvalidFieldEncoding);
        }
        self.absorb(f);
        Ok(())
    }

    /// Empty the buffer.
    pub fn reset(&mut self)
        ensures
            final(self).buffer() == Seq::<u8>::empty(),
            final(self).queries() == old(self).queries(),
            final(self).replies() == old(self).replies(),
            final(self).kind() == old(self).kind(),
            final(self).backend() == old(self).backend(),
    {
        self.accumulated = Vec::new();
    }

    /// Hash the buffer and reduce the reply modulo `r`. The buffer is kept.
    /// A failing hash passes its error on.
    pub fn get_challenge(&mut self) -> (res: Result<[u8; FR_LEN], OnChainError>)
        ensures
            final(self).buffer() == old(self).buffer(),
            final(self).kind() == old(self).kind(),
            final(self).backend() == old(self).backend(),
            res matches Ok(c) ==> {
                &&& final(self).queries() == old(self).queries().push(old(self).buffer())
                &&& final(self).replies().len() == old(self).replies().len() + 1
                &&& final(self).replies().drop_last() == old(self).replies()
                &&& final(self).replies().last().len() == FR_LEN
                &&& hash_on(old(self).backend(), old(self).kind(), old(self).buffer()) == Ok::<
                    Seq<u8>,
                    OnChainError,
                >(final(self).replies().last())
                &&& c@ == challenge_bytes(final(self).replies().last())
                &&& be_nat(c@) == be_nat(final(self).replies().last()) % fr_modulus()
                &&& be_nat(c@) < fr_modulus()
            },
            res is Err ==> final(self).queries() == old(self).queries() && final(self).replies()
                == old(self).replies() && hash_on(old(self).backend(), old(self).kind(), old(self).buffer())
                == Err::<Seq<u8>, OnChainError>(res->Err_0),
    {
        let inputs: [&[u8]; 1] = [self.accumulated.as_slice()];
        let ins: &[&[u8]] = &inputs;
        proof {
            lemma_single_input(ins);
        }
        let reply = match self.kind {
            Kind::Keccak256 => self.backend.keccak256(ins),
            Kind::PoseidonBn254X5 => self.backend.poseidon(
                PoseidonParameters::Bn254X5,
                InputEndianness::BigEndian,
                ins,
            ),
        };
        let h = match reply {
            Ok(h) => h,
            Err(e) => {
                return Err(e);
            },
        };
        let mut c = h;
        reduce_mod_r(&mut c);
        proof {
            self.queries@ = self.queries@.push(self.accumulated@);
            self.replies@ = self.replies@.push(h@);
            assert(self.replies@.drop_last() =~= old(self).replies@);
            lemma_fr_bytes(c@);
            vstd::arithmetic::div_mod::lemma_mod_pos_bound(be_nat(h@) as int, fr_modulus() as int);
        }
        Ok(c)
    }

    /// [`Self::get_challenge`], also decoded as a field element.
    pub fn challenge_fr(&mut self) -> (res: Result<([u8; FR_LEN], Fr), OnChainError>)
        ensures
            final(self).buffer() == old(self).buffer(),
            final(self).kind() == old(self).kind(),
            final(self).backend() == old(self).backend(),
            res matches Ok((c, f)) ==> {
                &&& final(self).queries() == old(self).queries().push(old(self).buffer())
                &&& final(self).replies() == old(self).replies().push(final(self).replies().last())
                &&& hash_on(old(self).backend(), old(self).kind(), old(self).buffer()) == Ok::<
                    Seq<u8>,
                    OnChainError,
                >(final(self).replies().last())
                &&& c@ == challenge_bytes(final(self).replies().last())
                &&& f@ == be_nat(final(self).replies().last()) % fr_modulus()
            },
            res is Err ==> final(self).queries() == old(self).queries() && final(self).replies()
                == old(self).replies() && hash_on(old(self).backend(), old(self).kind(), old(self).buffer())
                == Err::<Seq<u8>, OnChainError>(res->Err_0),
    {
        let c = self.get_challenge()?;
        proof {
            assert(self.replies() =~= old(self).replies().push(self.replies().last()));
            lemma_fr_bytes(c@);
        }
        let f = match Fr::from_canonical_bytes(&c) {
            Ok(f) => f,
            Err(e) => {
                proof {
                    assert(false);
                }
                return Err(e);
            },
        };
        Ok((c, f))
    }
}

} // verus!
