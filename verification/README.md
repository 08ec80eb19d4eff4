# mosaic

Verified verification primitives for BN254 proof systems, written in Verus:
KZG-PLONK, HyperPlonk, Halo2-KZG and Nova-style folding.

Every wire-format parser, Fiat–Shamir transcript, field computation,
sumcheck, Hadamard-residual, linearization and vanishing-identity check is
proved against a specification over big-endian scalars and the BN254 scalar
field. Curve arithmetic, pairings, point compression and hashing are reached
through the `SyscallBackend` trait, which the host implements (on chain: the
`alt_bn128` and hash syscalls); field arithmetic is computed by `ark_bn254`.
The trait names each reply by a spec function of the implementation, so a
verifier's contract states the exact request it sends and the outcome for
every reply: for instance, a proof or key that is compressed and then
decompressed by a backend that inverts its own compression comes back
unchanged, and a verifier accepts only when the final pairing request it
builds from the backend's own group-operation replies is answered with
success.

## Layout

- `src/bytes.rs`, `src/fr.rs`, `src/field.rs` — byte encodings, the scalar
  modulus, and field elements with their arithmetic.
- `src/transcript.rs` — the backend-hashed Fiat–Shamir transcript, which
  records every query and reply as ghost state.
- `src/curve.rs`, `src/compression.rs`, `src/syscall.rs` — group operations,
  pairing and compression through the backend.
- `src/plonk/`, `src/hyperplonk/`, `src/halo2/`, `src/nova/` — per proof
  system: canonical layouts, challenges, algebraic checks, openings and the
  verifier entry point (`pipeline`).
- `tests/` — scenarios run against a host backend built on arkworks and
  tiny-keccak.
