//! Portable reference kernels over `i8` slices and packed `u8` bitmaps.
//!
//! Every kernel is specified by exact integer arithmetic over the
//! sequence views of its inputs. Two-input kernels pair elements
//! position by position and stop at the shorter input, as a zip does.
use crate::bits::{
    lemma_popcount_or_and_xor, lemma_popcount_xor_symmetric, popcount, popcount_u8,
};
use vstd::prelude::*;

verus! {

/// The number of positions a zip of two slices visits.
pub open spec fn min_len(m: nat, n: nat) -> nat {
    if m <= n {
        m
    } else {
        n
    }
}

/// Differing bits over the first `n` byte pairs.
pub open spec fn hamming_upto(a: Seq<u8>, b: Seq<u8>, n: int) -> nat
    decreases n,
{
    if n <= 0 {
        0
    } else {
        hamming_upto(a, b, n - 1) + popcount(a[n - 1] ^ b[n - 1])
    }
}

/// Bits set in both bitmaps over the first `n` byte pairs.
pub open spec fn intersection_upto(a: Seq<u8>, b: Seq<u8>, n: int) -> nat
    decreases n,
{
    if n <= 0 {
        0
    } else {
        intersection_upto(a, b, n - 1) + popcount(a[n - 1] & b[n - 1])
    }
}

/// Bits set in either bitmap over the first `n` byte pairs.
pub open spec fn union_upto(a: Seq<u8>, b: Seq<u8>, n: int) -> nat
    decreases n,
{
    if n <= 0 {
        0
    } else {
        union_upto(a, b, n - 1) + popcount(a[n - 1] | b[n - 1])
    }
}

/// Hamming distance of two packed bitmaps: the number of differing bits.
pub open spec fn hamming(a: Seq<u8>, b: Seq<u8>) -> nat {
    hamming_upto(a, b, min_len(a.len(), b.len()) as int)
}

/// Bits set in both bitmaps.
pub open spec fn intersection(a: Seq<u8>, b: Seq<u8>) -> nat {
    intersection_upto(a, b, min_len(a.len(), b.len()) as int)
}

/// Bits set in at least one of the bitmaps.
pub open spec fn union(a: Seq<u8>, b: Seq<u8>) -> nat {
    union_upto(a, b, min_len(a.len(), b.len()) as int)
}

/// Sum of the products of the first `n` element pairs.
pub open spec fn dot_upto(a: Seq<i8>, b: Seq<i8>, n: int) -> int
    decreases n,
{
    if n <= 0 {
        0
    } else {
        dot_upto(a, b, n - 1) + (a[n - 1] as int) * (b[n - 1] as int)
    }
}

/// Exact dot product of two `i8` sequences.
pub open spec fn dot(a: Seq<i8>, b: Seq<i8>) -> int {
    dot_upto(a, b, min_len(a.len(), b.len()) as int)
}

/// Sum of the first `n` elements.
pub open spec fn sum_upto(s: Seq<i8>, n: int) -> int
    decreases n,
{
    if n <= 0 {
        0
    } else {
        sum_upto(s, n - 1) + s[n - 1] as int
    }
}

/// Exact sum of an `i8` sequence.
pub open spec fn sum(s: Seq<i8>) -> int {
    sum_upto(s, s.len() as int)
}

/// Magnitude of an `i8` (128 for `-128`).
pub open spec fn abs_i8(x: i8) -> int {
    if x < 0 {
        -(x as int)
    } else {
        x as int
    }
}

/// Sum of the magnitudes of the first `n` elements.
pub open spec fn l1_upto(s: Seq<i8>, n: int) -> int
    decreases n,
{
    if n <= 0 {
        0
    } else {
        l1_upto(s, n - 1) + abs_i8(s[n - 1])
    }
}

/// Exact L1 norm of an `i8` sequence.
pub open spec fn l1_norm(s: Seq<i8>) -> int {
    l1_upto(s, s.len() as int)
}

/// Sum of the squared differences of the first `n` element pairs.
pub open spec fn squared_distance_upto(a: Seq<i8>, b: Seq<i8>, n: int) -> int
    decreases n,
{
    if n <= 0 {
        0
    } else {
        squared_distance_upto(a, b, n - 1) + (a[n - 1] as int - b[n - 1] as int) * (
        a[n - 1] as int - b[n - 1] as int)
    }
}

/// Exact squared Euclidean distance of two `i8` sequences.
pub open spec fn squared_distance(a: Seq<i8>, b: Seq<i8>) -> int {
    squared_distance_upto(a, b, min_len(a.len(), b.len()) as int)
}

/// Number of zeros among the first `n` elements.
pub open spec fn count_zero_upto(s: Seq<i8>, n: int) -> nat
    decreases n,
{
    if n <= 0 {
        0
    } else {
        count_zero_upto(s, n - 1) + (if s[n - 1] == 0 {
            1nat
        } else {
            0nat
        })
    }
}

/// Number of zero elements of an `i8` sequence.
pub open spec fn count_zero(s: Seq<i8>) -> nat {
    count_zero_upto(s, s.len() as int)
}

/// `m` is the least element of `s`.
pub open spec fn is_min(s: Seq<i8>, m: i8) -> bool {
    &&& exists|i: int| 0 <= i < s.len() && s[i] == m
    &&& forall|i: int| 0 <= i < s.len() ==> m <= s[i]
}

/// `m` is the greatest element of `s`.
pub open spec fn is_max(s: Seq<i8>, m: i8) -> bool {
    &&& exists|i: int| 0 <= i < s.len() && s[i] == m
    &&& forall|i: int| 0 <= i < s.len() ==> s[i] <= m
}

/// `m` is the greatest magnitude among the elements of `s`.
pub open spec fn is_max_abs(s: Seq<i8>, m: u8) -> bool {
    &&& exists|i: int| 0 <= i < s.len() && abs_i8(s[i]) == m
    &&& forall|i: int| 0 <= i < s.len() ==> abs_i8(s[i]) <= m
}

proof fn lemma_union_upto(a: Seq<u8>, b: Seq<u8>, n: int)
    requires
        0 <= n <= a.len(),
        n <= b.len(),
    ensures
        union_upto(a, b, n) == hamming_upto(a, b, n) + intersection_upto(a, b, n),
    decreases n,
{
    if n > 0 {
        lemma_union_upto(a, b, n - 1);
        lemma_popcount_or_and_xor(a[n - 1], b[n - 1]);
    }
}

/// The union of two bitmaps splits into the bits where they differ and
/// the bits they share: `union == hamming + intersection`. In particular
/// the intersection count never exceeds the union count, so a Jaccard
/// ratio built from the two counts lies in `[0, 1]`.
pub proof fn lemma_union_is_hamming_plus_intersection(a: Seq<u8>, b: Seq<u8>)
    ensures
        union(a, b) == hamming(a, b) + intersection(a, b),
        intersection(a, b) <= union(a, b),
{
    lemma_union_upto(a, b, min_len(a.len(), b.len()) as int);
}

proof fn lemma_hamming_upto_symmetric(a: Seq<u8>, b: Seq<u8>, n: int)
    requires
        0 <= n <= a.len(),
        n <= b.len(),
    ensures
        hamming_upto(a, b, n) == hamming_upto(b, a, n),
        hamming_upto(a, a, n) == 0,
    decreases n,
{
    if n > 0 {
        lemma_hamming_upto_symmetric(a, b, n - 1);
        lemma_popcount_xor_symmetric(a[n - 1], b[n - 1]);
    }
}

/// Hamming distance is symmetric, and zero from a bitmap to itself.
pub proof fn lemma_hamming_symmetric(a: Seq<u8>, b: Seq<u8>)
    ensures
        hamming(a, b) == hamming(b, a),
        hamming(a, a) == 0,
{
    lemma_hamming_upto_symmetric(a, b, min_len(a.len(), b.len()) as int);
    lemma_hamming_upto_symmetric(a, a, a.len() as int);
}

proof fn lemma_dot_upto_symmetric(a: Seq<i8>, b: Seq<i8>, n: int)
    ensures
        dot_upto(a, b, n) == dot_upto(b, a, n),
    decreases n,
{
    if n > 0 {
        lemma_dot_upto_symmetric(a, b, n - 1);
        assert((a[n - 1] as int) * (b[n - 1] as int) == (b[n - 1] as int) * (a[n - 1] as int))
            by (nonlinear_arith);
    }
}

/// The `i8` dot product is symmetric in its two operands.
pub proof fn lemma_dot_symmetric(a: Seq<i8>, b: Seq<i8>)
    ensures
        dot(a, b) == dot(b, a),
{
    lemma_dot_upto_symmetric(a, b, min_len(a.len(), b.len()) as int);
}

proof fn lemma_squared_distance_upto_symmetric(a: Seq<i8>, b: Seq<i8>, n: int)
    ensures
        squared_distance_upto(a, b, n) == squared_distance_upto(b, a, n),
        squared_distance_upto(a, a, n) == 0,
    decreases n,
{
    if n > 0 {
        lemma_squared_distance_upto_symmetric(a, b, n - 1);
        let d = a[n - 1] as int - b[n - 1] as int;
        assert(d * d == (-d) * (-d)) by (nonlinear_arith);
    }
}

/// The squared distance is symmetric, and zero from a sequence to itself.
pub proof fn lemma_squared_distance_symmetric(a: Seq<i8>, b: Seq<i8>)
    ensures
        squared_distance(a, b) == squared_distance(b, a),
        squared_distance(a, a) == 0,
{
    lemma_squared_distance_upto_symmetric(a, b, min_len(a.len(), b.len()) as int);
    lemma_squared_distance_upto_symmetric(a, a, a.len() as int);
}

/// On the same sequence the minimum never exceeds the maximum, and the
/// greatest magnitude bounds both.
pub proof fn lemma_min_le_max(s: Seq<i8>, lo: i8, hi: i8, mag: u8)
    requires
        is_min(s, lo),
        is_max(s, hi),
        is_max_abs(s, mag),
    ensures
        lo <= hi,
        abs_i8(lo) <= mag,
        abs_i8(hi) <= mag,
{
    let i = choose|i: int| 0 <= i < s.len() && s[i] == lo;
    let j = choose|j: int| 0 <= j < s.len() && s[j] == hi;
    assert(lo <= s[j]);
    assert(abs_i8(s[i]) <= mag);
    assert(abs_i8(s[j]) <= mag);
}

/// Hamming distance kernel for packed bitmaps: the number of differing
/// bits, `sum(popcount(a[i] ^ b[i]))`. Returns `0` for empty inputs; the
/// pairing stops at the shorter input.
pub fn hamming_popcount(a: &[u8], b: &[u8]) -> (r: usize)
    requires
        8 * min_len(a@.len(), b@.len()) <= usize::MAX,
    ensures
        r == hamming(a@, b@),
{
    let n: usize = if a.len() <= b.len() {
        a.len()
    } else {
        b.len()
    };
    let mut r: usize = 0;
    let mut i: usize = 0;
    while i < n
        invariant
            n == min_len(a@.len(), b@.len()),
            8 * n <= usize::MAX,
            i <= n,
            r == hamming_upto(a@, b@, i as int),
            r <= 8 * i,
        decreases n - i,
    {
        let c = popcount_u8(a[i] ^ b[i]);
        r = r + c as usize;
        i = i + 1;
    }
    r
}

/// Jaccard counts kernel for packed bitmaps: `(popcount(a & b),
/// popcount(a | b))`, the intersection and union bit counts. Returns
/// `(0, 0)` for empty inputs; the pairing stops at the shorter input.
pub fn jaccard_counts(a: &[u8], b: &[u8]) -> (r: (usize, usize))
    requires
        8 * min_len(a@.len(), b@.len()) <= usize::MAX,
    ensures
        r.0 == intersection(a@, b@),
        r.1 == union(a@, b@),
{
    let n: usize = if a.len() <= b.len() {
        a.len()
    } else {
        b.len()
    };
    let mut inter: usize = 0;
    let mut uni: usize = 0;
    let mut i: usize = 0;
    while i < n
        invariant
            n == min_len(a@.len(), b@.len()),
            8 * n <= usize::MAX,
            i <= n,
            inter == intersection_upto(a@, b@, i as int),
            uni == union_upto(a@, b@, i as int),
            inter <= 8 * i,
            uni <= 8 * i,
        decreases n - i,
    {
        let x = a[i];
        let y = b[i];
        let ci = popcount_u8(x & y);
        let cu = popcount_u8(x | y);
        inter = inter + ci as usize;
        uni = uni + cu as usize;
        i = i + 1;
    }
    (inter, uni)
}

/// `i8` dot product with `i64` accumulation, `sum(a[i] * b[i])`. Returns
/// `0` for empty inputs; the pairing stops at the shorter input. Exact:
/// each product is at most 16384 in magnitude.
pub fn dot_i8(a: &[i8], b: &[i8]) -> (r: i64)
    requires
        16384 * min_len(a@.len(), b@.len()) <= i64::MAX,
    ensures
        r == dot(a@, b@),
{
    let n: usize = if a.len() <= b.len() {
        a.len()
    } else {
        b.len()
    };
    let mut r: i64 = 0;
    let mut i: usize = 0;
    while i < n
        invariant
            n == min_len(a@.len(), b@.len()),
            16384 * n <= i64::MAX,
            i <= n,
            r == dot_upto(a@, b@, i as int),
            -(16384 * i) <= r <= 16384 * i,
        decreases n - i,
    {
        let x = a[i] as i64;
        let y = b[i] as i64;
        assert(-16384 <= x * y <= 16384) by (nonlinear_arith)
            requires
                -128 <= x <= 127,
                -128 <= y <= 127,
        ;
        r = r + x * y;
        i = i + 1;
    }
    r
}

/// `i8` sum with `i64` accumulation. Returns `0` for an empty slice. Exact.
pub fn sum_i8(values: &[i8]) -> (r: i64)
    requires
        128 * values@.len() <= i64::MAX,
    ensures
        r == sum(values@),
{
    let n = values.len();
    let mut r: i64 = 0;
    let mut i: usize = 0;
    while i < n
        invariant
            n == values@.len(),
            128 * n <= i64::MAX,
            i <= n,
            r == sum_upto(values@, i as int),
            -(128 * i) <= r <= 128 * i,
        decreases n - i,
    {
        r = r + values[i] as i64;
        i = i + 1;
    }
    r
}

/// The least `i8` element, or `None` for an empty slice.
pub fn min_i8(values: &[i8]) -> (r: Option<i8>)
    ensures
        r is None <==> values@.len() == 0,
        r matches Some(m) ==> is_min(values@, m),
{
    if values.len() == 0 {
        return None;
    }
    let mut m: i8 = values[0];
    let mut k: usize = 0;
    let mut i: usize = 1;
    while i < values.len()
        invariant
            1 <= i <= values@.len(),
            k < i,
            values@[k as int] == m,
            forall|j: int| 0 <= j < i ==> m <= values@[j],
        decreases values@.len() - i,
    {
        if values[i] < m {
            m = values[i];
            k = i;
        }
        i = i + 1;
    }
    Some(m)
}

/// The greatest `i8` element, or `None` for an empty slice.
pub fn max_i8(values: &[i8]) -> (r: Option<i8>)
    ensures
        r is None <==> values@.len() == 0,
        r matches Some(m) ==> is_max(values@, m),
{
    if values.len() == 0 {
        return None;
    }
    let mut m: i8 = values[0];
    let mut k: usize = 0;
    let mut i: usize = 1;
    while i < values.len()
        invariant
            1 <= i <= values@.len(),
            k < i,
            values@[k as int] == m,
            forall|j: int| 0 <= j < i ==> values@[j] <= m,
        decreases values@.len() - i,
    {
        if values[i] > m {
            m = values[i];
            k = i;
        }
        i = i + 1;
    }
    Some(m)
}

/// Magnitude of an `i8` as a `u8` (the same value as `i8::unsigned_abs`).
pub fn unsigned_abs_i8(x: i8) -> (r: u8)
    ensures
        r == abs_i8(x),
{
    if x < 0 {
        (-(x as i16)) as u8
    } else {
        x as u8
    }
}

/// The greatest element magnitude (`|-128|` is 128), or `None` for an
/// empty slice.
pub fn max_abs_i8(values: &[i8]) -> (r: Option<u8>)
    ensures
        r is None <==> values@.len() == 0,
        r matches Some(m) ==> is_max_abs(values@, m),
{
    if values.len() == 0 {
        return None;
    }
    let mut m: u8 = unsigned_abs_i8(values[0]);
    let mut k: usize = 0;
    let mut i: usize = 1;
    while i < values.len()
        invariant
            1 <= i <= values@.len(),
            k < i,
            abs_i8(values@[k as int]) == m,
            forall|j: int| 0 <= j < i ==> abs_i8(values@[j]) <= m,
        decreases values@.len() - i,
    {
        let v = unsigned_abs_i8(values[i]);
        if v > m {
            m = v;
            k = i;
        }
        i = i + 1;
    }
    Some(m)
}

/// Number of `i8` elements equal to zero.
pub fn count_zero_i8(values: &[i8]) -> (r: usize)
    ensures
        r == count_zero(values@),
{
    let n = values.len();
    let mut r: usize = 0;
    let mut i: usize = 0;
    while i < n
        invariant
            n == values@.len(),
            i <= n,
            r == count_zero_upto(values@, i as int),
            r <= i,
        decreases n - i,
    {
        if values[i] == 0 {
            r = r + 1;
        }
        i = i + 1;
    }
    r
}

/// `i8` L1 norm with `i64` accumulation, `sum(|values[i]|)`. Returns `0`
/// for an empty slice. Exact.
pub fn l1_norm_i8(values: &[i8]) -> (r: i64)
    requires
        128 * values@.len() <= i64::MAX,
    ensures
        r == l1_norm(values@),
{
    let n = values.len();
    let mut r: i64 = 0;
    let mut i: usize = 0;
    while i < n
        invariant
            n == values@.len(),
            128 * n <= i64::MAX,
            i <= n,
            r == l1_upto(values@, i as int),
            0 <= r <= 128 * i,
        decreases n - i,
    {
        r = r + unsigned_abs_i8(values[i]) as i64;
        i = i + 1;
    }
    r
}

/// `i8` squared Euclidean distance with `i64` accumulation,
/// `sum((a[i] - b[i])^2)`. Returns `0` for empty inputs; the pairing stops
/// at the shorter input. Exact: each term is at most `255^2 = 65025`.
pub fn squared_distance_i8(a: &[i8], b: &[i8]) -> (r: i64)
    requires
        65025 * min_len(a@.len(), b@.len()) <= i64::MAX,
    ensures
        r == squared_distance(a@, b@),
{
    let n: usize = if a.len() <= b.len() {
        a.len()
    } else {
        b.len()
    };
    let mut r: i64 = 0;
    let mut i: usize = 0;
    while i < n
        invariant
            n == min_len(a@.len(), b@.len()),
            65025 * n <= i64::MAX,
            i <= n,
            r == squared_distance_upto(a@, b@, i as int),
            0 <= r <= 65025 * i,
        decreases n - i,
    {
        let d = a[i] as i64 - b[i] as i64;
        assert(0 <= d * d <= 65025) by (nonlinear_arith)
            requires
                -255 <= d <= 255,
        ;
        r = r + d * d;
        i = i + 1;
    }
    r
}

} // verus!
