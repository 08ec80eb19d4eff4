//! Point compression through the host backend, and the G1/G2 encoding
//! sizes shared by every wire format in this crate.
use vstd::prelude::*;
use crate::bytes::{copy128, copy32, copy64, push_all};
use crate::error::OnChainError;
use crate::syscall::{compression_on, lemma_slice_chosen, AltBn128Compress, SyscallBackend};

verus! {

/// Uncompressed G1 point: 32-byte big-endian `x || y`.
pub const G1_LEN: usize = 64;
/// Uncompressed G2 point.
pub const G2_LEN: usize = 128;
/// Compressed G1 point.
pub const G1_COMPRESSED_LEN: usize = 32;
/// Compressed G2 point.
pub const G2_COMPRESSED_LEN: usize = 64;

/// Accept a backend's point output only when it has the expected length.
pub fn expect_len64(out: &[u8]) -> (res: Result<[u8; G1_LEN], OnChainError>)
    ensures
        res is Ok <==> out@.len() == G1_LEN,
        res matches Ok(p) ==> p@ == out@,
        res is Err ==> res == Err::<[u8; G1_LEN], OnChainError>(
            OnChainError::AltBn128CompressionSyscallFailed,
        ),
{
    if out.len() != G1_LEN {
        return Err(OnChainError::AltBn128CompressionSyscallFailed);
    }
    let p = copy64(out, 0);
    assert(out@.subrange(0, 64) =~= out@);
    Ok(p)
}

/// Accept a backend's compressed G1 output only when it is 32 bytes.
pub fn expect_len32(out: &[u8]) -> (res: Result<[u8; G1_COMPRESSED_LEN], OnChainError>)
    ensures
        res is Ok <==> out@.len() == G1_COMPRESSED_LEN,
        res matches Ok(p) ==> p@ == out@,
        res is Err ==> res == Err::<[u8; G1_COMPRESSED_LEN], OnChainError>(
            OnChainError::AltBn128CompressionSyscallFailed,
        ),
{
    if out.len() != G1_COMPRESSED_LEN {
        return Err(OnChainError::AltBn128CompressionSyscallFailed);
    }
    let p = copy32(out, 0);
    assert(out@.subrange(0, 32) =~= out@);
    Ok(p)
}

/// Accept a backend's G2 output only when it is 128 bytes.
pub fn expect_len128(out: &[u8]) -> (res: Result<[u8; G2_LEN], OnChainError>)
    ensures
        res is Ok <==> out@.len() == G2_LEN,
        res matches Ok(p) ==> p@ == out@,
        res is Err ==> res == Err::<[u8; G2_LEN], OnChainError>(
            OnChainError::AltBn128CompressionSyscallFailed,
        ),
{
    if out.len() != G2_LEN {
        return Err(OnChainError::AltBn128CompressionSyscallFailed);
    }
    let p = copy128(out, 0);
    assert(out@.subrange(0, 128) =~= out@);
    Ok(p)
}

/// A compression reply judged as the `expect_len` functions judge it:
/// any backend failure, or a reply of another length than `len`, is a
/// compression failure.
pub open spec fn compressed_reply(r: Result<Seq<u8>, OnChainError>, len: nat) -> Result<
    Seq<u8>,
    OnChainError,
> {
    match r {
        Ok(v) => if v.len() == len {
            Ok(v)
        } else {
            Err(OnChainError::AltBn128CompressionSyscallFailed)
        },
        Err(_) => Err(OnChainError::AltBn128CompressionSyscallFailed),
    }
}

/// The 64-byte decompression of the 32-byte G1 encoding `c`.
pub open spec fn decompress_g1_spec<B: SyscallBackend + ?Sized>(b: &B, c: Seq<u8>) -> Result<
    Seq<u8>,
    OnChainError,
> {
    compressed_reply(compression_on(b, AltBn128Compress::G1Decompress, c), 64)
}

/// The 32-byte compression of the G1 point `p`.
pub open spec fn compress_g1_spec<B: SyscallBackend + ?Sized>(b: &B, p: Seq<u8>) -> Result<
    Seq<u8>,
    OnChainError,
> {
    compressed_reply(compression_on(b, AltBn128Compress::G1Compress, p), 32)
}

/// The 128-byte decompression of the 64-byte G2 encoding `c`.
pub open spec fn decompress_g2_spec<B: SyscallBackend + ?Sized>(b: &B, c: Seq<u8>) -> Result<
    Seq<u8>,
    OnChainError,
> {
    compressed_reply(compression_on(b, AltBn128Compress::G2Decompress, c), 128)
}

/// The 64-byte compression of the G2 point `p`.
pub open spec fn compress_g2_spec<B: SyscallBackend + ?Sized>(b: &B, p: Seq<u8>) -> Result<
    Seq<u8>,
    OnChainError,
> {
    compressed_reply(compression_on(b, AltBn128Compress::G2Compress, p), 64)
}

/// The contents of an array result.
pub open spec fn bytes_result<const N: usize>(r: Result<[u8; N], OnChainError>) -> Result<
    Seq<u8>,
    OnChainError,
> {
    match r {
        Ok(a) => Ok(a@),
        Err(e) => Err(e),
    }
}

/// Decompress a 32-byte G1 encoding to 64 bytes through the backend.
/// Any backend failure or wrongly sized output is reported as a
/// compression failure.
pub fn decompress_g1<B: SyscallBackend + ?Sized>(backend: &B, c: &[u8; G1_COMPRESSED_LEN]) -> (res:
    Result<[u8; G1_LEN], OnChainError>)
    ensures
        res is Err ==> res == Err::<[u8; G1_LEN], OnChainError>(
            OnChainError::AltBn128CompressionSyscallFailed,
        ),
        bytes_result(res) == decompress_g1_spec(backend, c@),
{
    let sl: &[u8] = c;
    proof {
        lemma_slice_chosen(sl);
    }
    match backend.alt_bn128_compression(AltBn128Compress::G1Decompress, sl) {
        Ok(out) => expect_len64(&out),
        Err(_) => Err(OnChainError::AltBn128CompressionSyscallFailed),
    }
}

/// Compress a 64-byte G1 point to 32 bytes through the backend; the reply
/// is judged by [`expect_len32`], a backend failure is a compression failure.
pub fn compress_g1<B: SyscallBackend + ?Sized>(backend: &B, p: &[u8; G1_LEN]) -> (res: Result<
    [u8; G1_COMPRESSED_LEN],
    OnChainError,
>)
    ensures
        res is Err ==> res == Err::<[u8; G1_COMPRESSED_LEN], OnChainError>(
            OnChainError::AltBn128CompressionSyscallFailed,
        ),
        bytes_result(res) == compress_g1_spec(backend, p@),
{
    let sl: &[u8] = p;
    proof {
        lemma_slice_chosen(sl);
    }
    match backend.alt_bn128_compression(AltBn128Compress::G1Compress, sl) {
        Ok(out) => expect_len32(&out),
        Err(_) => Err(OnChainError::AltBn128CompressionSyscallFailed),
    }
}

/// Decompress a 64-byte G2 encoding to 128 bytes through the backend; the
/// reply is judged by [`expect_len128`], a backend failure is a compression
/// failure.
pub fn decompress_g2<B: SyscallBackend + ?Sized>(backend: &B, c: &[u8; G2_COMPRESSED_LEN]) -> (res:
    Result<[u8; G2_LEN], OnChainError>)
    ensures
        res is Err ==> res == Err::<[u8; G2_LEN], OnChainError>(
            OnChainError::AltBn128CompressionSyscallFailed,
        ),
        bytes_result(res) == decompress_g2_spec(backend, c@),
{
    let sl: &[u8] = c;
    proof {
        lemma_slice_chosen(sl);
    }
    match backend.alt_bn128_compression(AltBn128Compress::G2Decompress, sl) {
        Ok(out) => expect_len128(&out),
        Err(_) => Err(OnChainError::AltBn128CompressionSyscallFailed),
    }
}

/// Compress a 128-byte G2 point to 64 bytes through the backend; the reply
/// is judged by [`expect_len64`], a backend failure is a compression failure.
pub fn compress_g2<B: SyscallBackend + ?Sized>(backend: &B, p: &[u8; G2_LEN]) -> (res: Result<
    [u8; G2_COMPRESSED_LEN],
    OnChainError,
>)
    ensures
        res is Err ==> res == Err::<[u8; G2_COMPRESSED_LEN], OnChainError>(
            OnChainError::AltBn128CompressionSyscallFailed,
        ),
        bytes_result(res) == compress_g2_spec(backend, p@),
{
    let sl: &[u8] = p;
    proof {
        lemma_slice_chosen(sl);
    }
    match backend.alt_bn128_compression(AltBn128Compress::G2Compress, sl) {
        Ok(out) => expect_len64(&out),
        Err(_) => Err(OnChainError::AltBn128CompressionSyscallFailed),
    }
}

} // verus!

verus! {

/// The decompression of `count` consecutive 32-byte G1 encodings of `src`
/// from `off`, concatenated; the first failure is the result.
pub open spec fn decompress_run<B: SyscallBackend + ?Sized>(
    b: &B,
    src: Seq<u8>,
    off: int,
    count: nat,
) -> Result<Seq<u8>, OnChainError>
    decreases count,
{
    if count == 0 {
        Ok(Seq::empty())
    } else {
        match decompress_run(b, src, off, (count - 1) as nat) {
            Ok(acc) => match decompress_g1_spec(
                b,
                src.subrange(off + 32 * (count - 1), off + 32 * count),
            ) {
                Ok(p) => Ok(acc + p),
                Err(e) => Err(e),
            },
            Err(e) => Err(e),
        }
    }
}

/// The compression of `count` consecutive 64-byte G1 points of `src` from
/// `off`, concatenated; the first failure is the result.
pub open spec fn compress_run<B: SyscallBackend + ?Sized>(
    b: &B,
    src: Seq<u8>,
    off: int,
    count: nat,
) -> Result<Seq<u8>, OnChainError>
    decreases count,
{
    if count == 0 {
        Ok(Seq::empty())
    } else {
        match compress_run(b, src, off, (count - 1) as nat) {
            Ok(acc) => match compress_g1_spec(b, src.subrange(off + 64 * (count - 1), off + 64 * count)) {
                Ok(c) => Ok(acc + c),
                Err(e) => Err(e),
            },
            Err(e) => Err(e),
        }
    }
}

/// A failed prefix of a decompression run fails every longer run alike.
proof fn lemma_decompress_err_sticks<B: SyscallBackend + ?Sized>(
    b: &B,
    src: Seq<u8>,
    off: int,
    k: nat,
    m: nat,
)
    requires
        k <= m,
        decompress_run(b, src, off, k) is Err,
    ensures
        decompress_run(b, src, off, m) == decompress_run(b, src, off, k),
    decreases m - k,
{
    if k < m {
        lemma_decompress_err_sticks(b, src, off, k, (m - 1) as nat);
    }
}

/// A failed prefix of a compression run fails every longer run alike.
proof fn lemma_compress_err_sticks<B: SyscallBackend + ?Sized>(
    b: &B,
    src: Seq<u8>,
    off: int,
    k: nat,
    m: nat,
)
    requires
        k <= m,
        compress_run(b, src, off, k) is Err,
    ensures
        compress_run(b, src, off, m) == compress_run(b, src, off, k),
    decreases m - k,
{
    if k < m {
        lemma_compress_err_sticks(b, src, off, k, (m - 1) as nat);
    }
}

/// A successful decompression run holds 64 bytes per point.
pub proof fn lemma_decompress_run_len<B: SyscallBackend + ?Sized>(
    b: &B,
    src: Seq<u8>,
    off: int,
    count: nat,
)
    requires
        decompress_run(b, src, off, count) is Ok,
    ensures
        decompress_run(b, src, off, count)->Ok_0.len() == 64 * count,
    decreases count,
{
    if count > 0 {
        lemma_decompress_run_len(b, src, off, (count - 1) as nat);
    }
}

/// A successful compression run holds 32 bytes per point.
pub proof fn lemma_compress_run_len<B: SyscallBackend + ?Sized>(
    b: &B,
    src: Seq<u8>,
    off: int,
    count: nat,
)
    requires
        compress_run(b, src, off, count) is Ok,
    ensures
        compress_run(b, src, off, count)->Ok_0.len() == 32 * count,
    decreases count,
{
    if count > 0 {
        lemma_compress_run_len(b, src, off, (count - 1) as nat);
    }
}

/// Decompress `count` consecutive 32-byte G1 encodings of `src`, starting
/// at `off`, appending the 64-byte points to `out`; the backend is asked
/// for each window in turn, and the first failure stops the run.
pub fn decompress_g1_run<B: SyscallBackend + ?Sized>(
    backend: &B,
    src: &[u8],
    off: usize,
    count: usize,
    out: &mut Vec<u8>,
) -> (res: Result<(), OnChainError>)
    requires
        off + 32 * count <= src@.len(),
    ensures
        res is Ok <==> decompress_run(backend, src@, off as int, count as nat) is Ok,
        res is Ok ==> final(out)@ == old(out)@ + decompress_run(
            backend,
            src@,
            off as int,
            count as nat,
        )->Ok_0,
        res is Ok ==> final(out)@.len() == old(out)@.len() + 64 * count && final(out)@.subrange(
            0,
            old(out)@.len() as int,
        ) == old(out)@,
        res is Err ==> res == Err::<(), OnChainError>(OnChainError::AltBn128CompressionSyscallFailed),
{
    let ghost start = out@;
    let mut k: usize = 0;
    let _n = src.len();
    while k < count
        invariant
            0 <= k <= count,
            off + 32 * count <= src@.len() <= usize::MAX,
            decompress_run(backend, src@, off as int, k as nat) is Ok,
            out@ == start + decompress_run(backend, src@, off as int, k as nat)->Ok_0,
        decreases count - k,
    {
        let c = copy32(src, off + 32 * k);
        let full = match decompress_g1(backend, &c) {
            Ok(f) => f,
            Err(e) => {
                proof {
                    lemma_decompress_err_sticks(backend, src@, off as int, (k + 1) as nat, count as nat);
                }
                return Err(e);
            },
        };
        let ghost before = out@;
        push_all(out, &full);
        proof {
            assert(out@ =~= start + decompress_run(backend, src@, off as int, (k + 1) as nat)->Ok_0);
        }
        k = k + 1;
    }
    proof {
        lemma_decompress_run_len(backend, src@, off as int, count as nat);
        assert(out@.subrange(0, start.len() as int) =~= start);
    }
    Ok(())
}

/// Compress `count` consecutive 64-byte G1 points of `src`, starting at
/// `off`, appending the 32-byte encodings to `out`; the backend is asked for
/// each point in turn, and the first failure stops the run.
pub fn compress_g1_run<B: SyscallBackend + ?Sized>(
    backend: &B,
    src: &[u8],
    off: usize,
    count: usize,
    out: &mut Vec<u8>,
) -> (res: Result<(), OnChainError>)
    requires
        off + 64 * count <= src@.len(),
    ensures
        res is Ok <==> compress_run(backend, src@, off as int, count as nat) is Ok,
        res is Ok ==> final(out)@ == old(out)@ + compress_run(
            backend,
            src@,
            off as int,
            count as nat,
        )->Ok_0,
        res is Ok ==> final(out)@.len() == old(out)@.len() + 32 * count && final(out)@.subrange(
            0,
            old(out)@.len() as int,
        ) == old(out)@,
        res is Err ==> res == Err::<(), OnChainError>(OnChainError::AltBn128CompressionSyscallFailed),
{
    let ghost start = out@;
    let mut k: usize = 0;
    let _n = src.len();
    while k < count
        invariant
            0 <= k <= count,
            off + 64 * count <= src@.len() <= usize::MAX,
            compress_run(backend, src@, off as int, k as nat) is Ok,
            out@ == start + compress_run(backend, src@, off as int, k as nat)->Ok_0,
        decreases count - k,
    {
        let p = copy64(src, off + 64 * k);
        let c = match compress_g1(backend, &p) {
            Ok(c) => c,
            Err(e) => {
                proof {
                    lemma_compress_err_sticks(backend, src@, off as int, (k + 1) as nat, count as nat);
                }
                return Err(e);
            },
        };
        push_all(out, &c);
        proof {
            assert(out@ =~= start + compress_run(backend, src@, off as int, (k + 1) as nat)->Ok_0);
        }
        k = k + 1;
    }
    proof {
        lemma_compress_run_len(backend, src@, off as int, count as nat);
        assert(out@.subrange(0, start.len() as int) =~= start);
    }
    Ok(())
}


/// On the `count` G1 points of `src` from `off`, decompressing what the
/// backend compressed gives the point back.
pub open spec fn inverts_on<B: SyscallBackend + ?Sized>(b: &B, src: Seq<u8>, off: int, count: nat) -> bool {
    forall|k: int|
        0 <= k < count ==> #[trigger] compress_g1_spec(b, src.subrange(off + 64 * k, off + 64 * k + 64))
            is Ok ==> decompress_g1_spec(
            b,
            compress_g1_spec(b, src.subrange(off + 64 * k, off + 64 * k + 64))->Ok_0,
        ) == Ok::<Seq<u8>, OnChainError>(src.subrange(off + 64 * k, off + 64 * k + 64))
}

/// Decompressing a compressed run gives the points back, for a backend that
/// inverts its own compression on them.
pub proof fn lemma_run_roundtrip<B: SyscallBackend + ?Sized>(
    b: &B,
    src: Seq<u8>,
    off: int,
    count: nat,
    dst: Seq<u8>,
    doff: int,
)
    requires
        0 <= off,
        off + 64 * count <= src.len(),
        0 <= doff,
        doff + 32 * count <= dst.len(),
        inverts_on(b, src, off, count),
        compress_run(b, src, off, count) is Ok,
        dst.subrange(doff, doff + 32 * count) == compress_run(b, src, off, count)->Ok_0,
    ensures
        decompress_run(b, dst, doff, count) == Ok::<Seq<u8>, OnChainError>(
            src.subrange(off, off + 64 * count),
        ),
    decreases count,
{
    if count == 0 {
        assert(src.subrange(off, off) =~= Seq::<u8>::empty());
    } else {
        let j = (count - 1) as nat;
        let w = src.subrange(off + 64 * j, off + 64 * j + 64);
        let cr1 = compress_run(b, src, off, j)->Ok_0;
        let c = compress_g1_spec(b, w)->Ok_0;
        assert(compress_run(b, src, off, j) is Ok);
        lemma_compress_run_len(b, src, off, j);
        assert(compress_g1_spec(b, w) is Ok);
        assert(compress_run(b, src, off, count)->Ok_0 == cr1 + c);
        assert(c.len() == 32);
        assert(dst.subrange(doff, doff + 32 * j) =~= (cr1 + c).subrange(0, (32 * j) as int));
        assert((cr1 + c).subrange(0, (32 * j) as int) =~= cr1);
        assert forall|k: int| 0 <= k < j implies #[trigger] compress_g1_spec(
            b,
            src.subrange(off + 64 * k, off + 64 * k + 64),
        ) is Ok ==> decompress_g1_spec(
            b,
            compress_g1_spec(b, src.subrange(off + 64 * k, off + 64 * k + 64))->Ok_0,
        ) == Ok::<Seq<u8>, OnChainError>(src.subrange(off + 64 * k, off + 64 * k + 64)) by {
        }
        lemma_run_roundtrip(b, src, off, j, dst, doff);
        assert(dst.subrange(doff + 32 * j, doff + 32 * count) =~= (cr1 + c).subrange(
            (32 * j) as int,
            (32 * j + 32) as int,
        ));
        assert((cr1 + c).subrange((32 * j) as int, (32 * j + 32) as int) =~= c);
        assert(decompress_g1_spec(b, c) == Ok::<Seq<u8>, OnChainError>(w));
        assert(src.subrange(off, off + 64 * j) + w =~= src.subrange(off, off + 64 * count));
    }
}


/// A decompression run fails only as a compression failure.
pub proof fn lemma_decompress_run_err<B: SyscallBackend + ?Sized>(
    b: &B,
    src: Seq<u8>,
    off: int,
    count: nat,
)
    ensures
        decompress_run(b, src, off, count) is Err ==> decompress_run(b, src, off, count) == Err::<
            Seq<u8>,
            OnChainError,
        >(OnChainError::AltBn128CompressionSyscallFailed),
    decreases count,
{
    if count > 0 {
        lemma_decompress_run_err(b, src, off, (count - 1) as nat);
    }
}

/// A compression run fails only as a compression failure.
pub proof fn lemma_compress_run_err<B: SyscallBackend + ?Sized>(
    b: &B,
    src: Seq<u8>,
    off: int,
    count: nat,
)
    ensures
        compress_run(b, src, off, count) is Err ==> compress_run(b, src, off, count) == Err::<
            Seq<u8>,
            OnChainError,
        >(OnChainError::AltBn128CompressionSyscallFailed),
    decreases count,
{
    if count > 0 {
        lemma_compress_run_err(b, src, off, (count - 1) as nat);
    }
}

} // verus!
