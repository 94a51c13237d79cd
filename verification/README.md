# zeropool_substrate

Groth16 proof verification on the alt_bn128 (BN254) curve for the Zeropool Substrate
pallet, as a Verus-verified library.

- `src/types.rs` — 256-bit integers, G1/G2 points, verification keys and proofs.
- `src/curve.rs` — G1 as mathematics: the curve over Fq, the chord-and-tangent law,
  scalar multiples and multi-exponentiation, with lemmas on negation.
- `src/codec.rs` — the byte format as spec functions, with round-trip proofs.
- `src/decode.rs`, `src/encode.rs` — verified readers and writers for that format.
- `src/alt_bn128.rs` — G1 sums, multi-exponentiation and the pairing check on bytes,
  computed by `zeropool-bn`.
- `src/groth16.rs` — the typed curve operations and `groth16verify`.
- `src/pallet.rs` — key storage with deposits and proof verification for signers.
- `src/curve_calls.rs` — the curve pallet's calls on raw bytes.
- `app/` — JSON submissions (serde) and the runtime's currency.
