//! Integer and bitmap kernels of a numerical-kernel library with runtime
//! backend selection, verified with Verus.
//!
//! * [`bits`] — byte popcount and its algebra.
//! * [`scalar`] — the portable reference kernels over `i8` slices and
//!   packed `u8` bitmaps, each specified by exact integer arithmetic.
//! * [`platform`] — which backends exist, which the CPU supports, the
//!   automatic choice of the best one and the override by name.
//! * [`wasm`] — the wasm32 backend's bare-value kernels.
//! * [`kernels`] — helpers of the dispatch layer.
//! * [`laws`] — characterizations of the kernel specifications by
//!   additivity, single-element values, zip truncation and bounds.
pub mod bits;
pub mod kernels;
pub mod laws;
pub mod neon;
pub mod platform;
pub mod scalar;
pub mod wasm;
