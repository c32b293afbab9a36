# lanes (verified integer kernels)

The integer and bitmap kernels and the backend-selection logic of a
numerical-kernel library with runtime SIMD dispatch, written in Verus.

- `src/bits.rs` — byte popcount and the identities between the counts of
  `a & b`, `a | b` and `a ^ b`.
- `src/scalar.rs` — the portable reference kernels: Hamming distance and
  Jaccard counts of packed bitmaps; `i8` dot product, sum, L1 norm,
  squared distance (all exact, `i64`), min, max, greatest magnitude and
  zero count. Each is specified by exact integer arithmetic.
- `src/neon.rs` — the NEON backend's versions of those kernels, with
  arrays standing for the vector lanes and the periodic widening of the
  narrow lane sums; each is proved equal to its scalar reference.
- `src/wasm.rs` — the wasm32 backend's bare-value `min`/`max`/`max_abs`.
- `src/platform.rs` — which backends exist on an architecture, which the
  CPU supports, the automatic choice of the most capable one, and the
  `LANES_BACKEND` override parsed by name.
- `app/` — CPU probing, the environment variable, the cached choice, and
  the floating-point kernels (`exp`, `ln`, float reductions, Jaccard
  similarity), which stay outside the verified crate.
