//! Kernels of the wasm32 backend that return a bare value where the
//! scalar reference returns an `Option`: the dispatch layer only calls
//! them on non-empty slices, so the value always exists. Each delegates
//! to the scalar reference.
use crate::scalar;
use crate::scalar::{is_max, is_max_abs, is_min};
use vstd::prelude::*;

verus! {

/// The least element of a non-empty slice.
pub fn min_i8(values: &[i8]) -> (r: i8)
    requires
        values@.len() > 0,
    ensures
        is_min(values@, r),
{
    match scalar::min_i8(values) {
        Some(m) => m,
        None => values[0],
    }
}

/// The greatest element of a non-empty slice.
pub fn max_i8(values: &[i8]) -> (r: i8)
    requires
        values@.len() > 0,
    ensures
        is_max(values@, r),
{
    match scalar::max_i8(values) {
        Some(m) => m,
        None => values[0],
    }
}

/// The greatest element magnitude of a non-empty slice.
pub fn max_abs_i8(values: &[i8]) -> (r: u8)
    requires
        values@.len() > 0,
    ensures
        is_max_abs(values@, r),
{
    match scalar::max_abs_i8(values) {
        Some(m) => m,
        None => 0,
    }
}

} // verus!
