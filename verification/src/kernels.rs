//! Helpers shared by the kernel dispatch layer.
use vstd::prelude::*;

verus! {

/// Identity pass-through: the wrapper that dispatch applies to a backend
/// kernel whose result already has the public shape.
pub fn id<T>(v: T) -> (r: T)
    ensures
        r == v,
{
    v
}

} // verus!
