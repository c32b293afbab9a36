//! Laws of the kernel specifications that do not go through their
//! definitions: each accumulating kernel is additive over concatenation,
//! takes a stated value on a single element (or pair), and pairs its two
//! inputs only up to the shorter one. Together these fix every value.
use crate::bits::popcount;
use crate::scalar::{
    abs_i8, count_zero, count_zero_upto, dot, dot_upto, hamming, hamming_upto, intersection,
    intersection_upto, is_max, is_max_abs, is_min, l1_norm, l1_upto, min_len, squared_distance,
    squared_distance_upto, sum, sum_upto, union, union_upto,
};
use vstd::prelude::*;

verus! {

proof fn lemma_hamming_upto_agree(a: Seq<u8>, b: Seq<u8>, c: Seq<u8>, d: Seq<u8>, n: int)
    requires
        0 <= n <= a.len(),
        n <= b.len(),
        n <= c.len(),
        n <= d.len(),
        forall|i: int| 0 <= i < n ==> a[i] == c[i] && b[i] == d[i],
    ensures
        hamming_upto(a, b, n) == hamming_upto(c, d, n),
    decreases n,
{
    if n > 0 {
        lemma_hamming_upto_agree(a, b, c, d, n - 1);
    }
}

proof fn lemma_hamming_upto_split(a1: Seq<u8>, a2: Seq<u8>, b1: Seq<u8>, b2: Seq<u8>, k: int)
    requires
        a1.len() == b1.len(),
        0 <= k <= a2.len(),
        k <= b2.len(),
    ensures
        hamming_upto(a1 + a2, b1 + b2, a1.len() + k) == hamming_upto(a1, b1, a1.len() as int) + hamming_upto(
            a2,
            b2,
            k,
        ),
    decreases k,
{
    if k == 0 {
        lemma_hamming_upto_agree(a1 + a2, b1 + b2, a1, b1, a1.len() as int);
    } else {
        lemma_hamming_upto_split(a1, a2, b1, b2, k - 1);
        assert((a1 + a2)[a1.len() + k - 1] == a2[k - 1]);
        assert((b1 + b2)[a1.len() + k - 1] == b2[k - 1]);
    }
}

/// The hamming of two concatenations whose first parts have equal length
/// is the sum of the hammings of the parts.
pub proof fn lemma_hamming_additive(a1: Seq<u8>, a2: Seq<u8>, b1: Seq<u8>, b2: Seq<u8>)
    requires
        a1.len() == b1.len(),
    ensures
        hamming(a1 + a2, b1 + b2) == hamming(a1, b1) + hamming(a2, b2),
{
    lemma_hamming_upto_split(a1, a2, b1, b2, min_len(a2.len(), b2.len()) as int);
}

/// On one pair of elements the hamming is the number of bits in which the two bytes differ; on empty inputs it is 0.
pub proof fn lemma_hamming_single(x: u8, y: u8, b: Seq<u8>)
    ensures
        hamming(seq![x], seq![y]) == popcount(x ^ y),
        hamming(Seq::<u8>::empty(), b) == 0,
        hamming(b, Seq::<u8>::empty()) == 0,
{
    reveal_with_fuel(hamming_upto, 2);
    assert(seq![x][0] == x);
    assert(seq![y][0] == y);
}

/// The pairing stops at the shorter input: only the first `min_len`
/// elements of each input matter.
pub proof fn lemma_hamming_zips(a: Seq<u8>, b: Seq<u8>)
    ensures
        hamming(a, b) == hamming(
            a.subrange(0, min_len(a.len(), b.len()) as int),
            b.subrange(0, min_len(a.len(), b.len()) as int),
        ),
{
    let m = min_len(a.len(), b.len()) as int;
    lemma_hamming_upto_agree(a, b, a.subrange(0, m), b.subrange(0, m), m);
}

proof fn lemma_intersection_upto_agree(a: Seq<u8>, b: Seq<u8>, c: Seq<u8>, d: Seq<u8>, n: int)
    requires
        0 <= n <= a.len(),
        n <= b.len(),
        n <= c.len(),
        n <= d.len(),
        forall|i: int| 0 <= i < n ==> a[i] == c[i] && b[i] == d[i],
    ensures
        intersection_upto(a, b, n) == intersection_upto(c, d, n),
    decreases n,
{
    if n > 0 {
        lemma_intersection_upto_agree(a, b, c, d, n - 1);
    }
}

proof fn lemma_intersection_upto_split(a1: Seq<u8>, a2: Seq<u8>, b1: Seq<u8>, b2: Seq<u8>, k: int)
    requires
        a1.len() == b1.len(),
        0 <= k <= a2.len(),
        k <= b2.len(),
    ensures
        intersection_upto(a1 + a2, b1 + b2, a1.len() + k) == intersection_upto(a1, b1, a1.len() as int) + intersection_upto(
            a2,
            b2,
            k,
        ),
    decreases k,
{
    if k == 0 {
        lemma_intersection_upto_agree(a1 + a2, b1 + b2, a1, b1, a1.len() as int);
    } else {
        lemma_intersection_upto_split(a1, a2, b1, b2, k - 1);
        assert((a1 + a2)[a1.len() + k - 1] == a2[k - 1]);
        assert((b1 + b2)[a1.len() + k - 1] == b2[k - 1]);
    }
}

/// The intersection of two concatenations whose first parts have equal length
/// is the sum of the intersections of the parts.
pub proof fn lemma_intersection_additive(a1: Seq<u8>, a2: Seq<u8>, b1: Seq<u8>, b2: Seq<u8>)
    requires
        a1.len() == b1.len(),
    ensures
        intersection(a1 + a2, b1 + b2) == intersection(a1, b1) + intersection(a2, b2),
{
    lemma_intersection_upto_split(a1, a2, b1, b2, min_len(a2.len(), b2.len()) as int);
}

/// On one pair of elements the intersection is the number of bits set in both bytes; on empty inputs it is 0.
pub proof fn lemma_intersection_single(x: u8, y: u8, b: Seq<u8>)
    ensures
        intersection(seq![x], seq![y]) == popcount(x & y),
        intersection(Seq::<u8>::empty(), b) == 0,
        intersection(b, Seq::<u8>::empty()) == 0,
{
    reveal_with_fuel(intersection_upto, 2);
    assert(seq![x][0] == x);
    assert(seq![y][0] == y);
}

/// The pairing stops at the shorter input: only the first `min_len`
/// elements of each input matter.
pub proof fn lemma_intersection_zips(a: Seq<u8>, b: Seq<u8>)
    ensures
        intersection(a, b) == intersection(
            a.subrange(0, min_len(a.len(), b.len()) as int),
            b.subrange(0, min_len(a.len(), b.len()) as int),
        ),
{
    let m = min_len(a.len(), b.len()) as int;
    lemma_intersection_upto_agree(a, b, a.subrange(0, m), b.subrange(0, m), m);
}

proof fn lemma_union_upto_agree(a: Seq<u8>, b: Seq<u8>, c: Seq<u8>, d: Seq<u8>, n: int)
    requires
        0 <= n <= a.len(),
        n <= b.len(),
        n <= c.len(),
        n <= d.len(),
        forall|i: int| 0 <= i < n ==> a[i] == c[i] && b[i] == d[i],
    ensures
        union_upto(a, b, n) == union_upto(c, d, n),
    decreases n,
{
    if n > 0 {
        lemma_union_upto_agree(a, b, c, d, n - 1);
    }
}

proof fn lemma_union_upto_split(a1: Seq<u8>, a2: Seq<u8>, b1: Seq<u8>, b2: Seq<u8>, k: int)
    requires
        a1.len() == b1.len(),
        0 <= k <= a2.len(),
        k <= b2.len(),
    ensures
        union_upto(a1 + a2, b1 + b2, a1.len() + k) == union_upto(a1, b1, a1.len() as int) + union_upto(
            a2,
            b2,
            k,
        ),
    decreases k,
{
    if k == 0 {
        lemma_union_upto_agree(a1 + a2, b1 + b2, a1, b1, a1.len() as int);
    } else {
        lemma_union_upto_split(a1, a2, b1, b2, k - 1);
        assert((a1 + a2)[a1.len() + k - 1] == a2[k - 1]);
        assert((b1 + b2)[a1.len() + k - 1] == b2[k - 1]);
    }
}

/// The union of two concatenations whose first parts have equal length
/// is the sum of the unions of the parts.
pub proof fn lemma_union_additive(a1: Seq<u8>, a2: Seq<u8>, b1: Seq<u8>, b2: Seq<u8>)
    requires
        a1.len() == b1.len(),
    ensures
        union(a1 + a2, b1 + b2) == union(a1, b1) + union(a2, b2),
{
    lemma_union_upto_split(a1, a2, b1, b2, min_len(a2.len(), b2.len()) as int);
}

/// On one pair of elements the union is the number of bits set in either byte; on empty inputs it is 0.
pub proof fn lemma_union_single(x: u8, y: u8, b: Seq<u8>)
    ensures
        union(seq![x], seq![y]) == popcount(x | y),
        union(Seq::<u8>::empty(), b) == 0,
        union(b, Seq::<u8>::empty()) == 0,
{
    reveal_with_fuel(union_upto, 2);
    assert(seq![x][0] == x);
    assert(seq![y][0] == y);
}

/// The pairing stops at the shorter input: only the first `min_len`
/// elements of each input matter.
pub proof fn lemma_union_zips(a: Seq<u8>, b: Seq<u8>)
    ensures
        union(a, b) == union(
            a.subrange(0, min_len(a.len(), b.len()) as int),
            b.subrange(0, min_len(a.len(), b.len()) as int),
        ),
{
    let m = min_len(a.len(), b.len()) as int;
    lemma_union_upto_agree(a, b, a.subrange(0, m), b.subrange(0, m), m);
}

proof fn lemma_dot_upto_agree(a: Seq<i8>, b: Seq<i8>, c: Seq<i8>, d: Seq<i8>, n: int)
    requires
        0 <= n <= a.len(),
        n <= b.len(),
        n <= c.len(),
        n <= d.len(),
        forall|i: int| 0 <= i < n ==> a[i] == c[i] && b[i] == d[i],
    ensures
        dot_upto(a, b, n) == dot_upto(c, d, n),
    decreases n,
{
    if n > 0 {
        lemma_dot_upto_agree(a, b, c, d, n - 1);
    }
}

proof fn lemma_dot_upto_split(a1: Seq<i8>, a2: Seq<i8>, b1: Seq<i8>, b2: Seq<i8>, k: int)
    requires
        a1.len() == b1.len(),
        0 <= k <= a2.len(),
        k <= b2.len(),
    ensures
        dot_upto(a1 + a2, b1 + b2, a1.len() + k) == dot_upto(a1, b1, a1.len() as int) + dot_upto(
            a2,
            b2,
            k,
        ),
    decreases k,
{
    if k == 0 {
        lemma_dot_upto_agree(a1 + a2, b1 + b2, a1, b1, a1.len() as int);
    } else {
        lemma_dot_upto_split(a1, a2, b1, b2, k - 1);
        assert((a1 + a2)[a1.len() + k - 1] == a2[k - 1]);
        assert((b1 + b2)[a1.len() + k - 1] == b2[k - 1]);
    }
}

/// The dot of two concatenations whose first parts have equal length
/// is the sum of the dots of the parts.
pub proof fn lemma_dot_additive(a1: Seq<i8>, a2: Seq<i8>, b1: Seq<i8>, b2: Seq<i8>)
    requires
        a1.len() == b1.len(),
    ensures
        dot(a1 + a2, b1 + b2) == dot(a1, b1) + dot(a2, b2),
{
    lemma_dot_upto_split(a1, a2, b1, b2, min_len(a2.len(), b2.len()) as int);
}

/// On one pair of elements the dot is their product; on empty inputs it is 0.
pub proof fn lemma_dot_single(x: i8, y: i8, b: Seq<i8>)
    ensures
        dot(seq![x], seq![y]) == (x as int) * (y as int),
        dot(Seq::<i8>::empty(), b) == 0,
        dot(b, Seq::<i8>::empty()) == 0,
{
    reveal_with_fuel(dot_upto, 2);
    assert(seq![x][0] == x);
    assert(seq![y][0] == y);
}

/// The pairing stops at the shorter input: only the first `min_len`
/// elements of each input matter.
pub proof fn lemma_dot_zips(a: Seq<i8>, b: Seq<i8>)
    ensures
        dot(a, b) == dot(
            a.subrange(0, min_len(a.len(), b.len()) as int),
            b.subrange(0, min_len(a.len(), b.len()) as int),
        ),
{
    let m = min_len(a.len(), b.len()) as int;
    lemma_dot_upto_agree(a, b, a.subrange(0, m), b.subrange(0, m), m);
}

proof fn lemma_squared_distance_upto_agree(a: Seq<i8>, b: Seq<i8>, c: Seq<i8>, d: Seq<i8>, n: int)
    requires
        0 <= n <= a.len(),
        n <= b.len(),
        n <= c.len(),
        n <= d.len(),
        forall|i: int| 0 <= i < n ==> a[i] == c[i] && b[i] == d[i],
    ensures
        squared_distance_upto(a, b, n) == squared_distance_upto(c, d, n),
    decreases n,
{
    if n > 0 {
        lemma_squared_distance_upto_agree(a, b, c, d, n - 1);
    }
}

proof fn lemma_squared_distance_upto_split(a1: Seq<i8>, a2: Seq<i8>, b1: Seq<i8>, b2: Seq<i8>, k: int)
    requires
        a1.len() == b1.len(),
        0 <= k <= a2.len(),
        k <= b2.len(),
    ensures
        squared_distance_upto(a1 + a2, b1 + b2, a1.len() + k) == squared_distance_upto(a1, b1, a1.len() as int) + squared_distance_upto(
            a2,
            b2,
            k,
        ),
    decreases k,
{
    if k == 0 {
        lemma_squared_distance_upto_agree(a1 + a2, b1 + b2, a1, b1, a1.len() as int);
    } else {
        lemma_squared_distance_upto_split(a1, a2, b1, b2, k - 1);
        assert((a1 + a2)[a1.len() + k - 1] == a2[k - 1]);
        assert((b1 + b2)[a1.len() + k - 1] == b2[k - 1]);
    }
}

/// The squared_distance of two concatenations whose first parts have equal length
/// is the sum of the squared_distances of the parts.
pub proof fn lemma_squared_distance_additive(a1: Seq<i8>, a2: Seq<i8>, b1: Seq<i8>, b2: Seq<i8>)
    requires
        a1.len() == b1.len(),
    ensures
        squared_distance(a1 + a2, b1 + b2) == squared_distance(a1, b1) + squared_distance(a2, b2),
{
    lemma_squared_distance_upto_split(a1, a2, b1, b2, min_len(a2.len(), b2.len()) as int);
}

/// On one pair of elements the squared_distance is the square of their difference; on empty inputs it is 0.
pub proof fn lemma_squared_distance_single(x: i8, y: i8, b: Seq<i8>)
    ensures
        squared_distance(seq![x], seq![y]) == (x as int - y as int) * (x as int - y as int),
        squared_distance(Seq::<i8>::empty(), b) == 0,
        squared_distance(b, Seq::<i8>::empty()) == 0,
{
    reveal_with_fuel(squared_distance_upto, 2);
    assert(seq![x][0] == x);
    assert(seq![y][0] == y);
}

/// The pairing stops at the shorter input: only the first `min_len`
/// elements of each input matter.
pub proof fn lemma_squared_distance_zips(a: Seq<i8>, b: Seq<i8>)
    ensures
        squared_distance(a, b) == squared_distance(
            a.subrange(0, min_len(a.len(), b.len()) as int),
            b.subrange(0, min_len(a.len(), b.len()) as int),
        ),
{
    let m = min_len(a.len(), b.len()) as int;
    lemma_squared_distance_upto_agree(a, b, a.subrange(0, m), b.subrange(0, m), m);
}

proof fn lemma_sum_upto_agree(a: Seq<i8>, c: Seq<i8>, n: int)
    requires
        0 <= n <= a.len(),
        n <= c.len(),
        forall|i: int| 0 <= i < n ==> a[i] == c[i],
    ensures
        sum_upto(a, n) == sum_upto(c, n),
    decreases n,
{
    if n > 0 {
        lemma_sum_upto_agree(a, c, n - 1);
    }
}

proof fn lemma_sum_upto_split(s: Seq<i8>, t: Seq<i8>, k: int)
    requires
        0 <= k <= t.len(),
    ensures
        sum_upto(s + t, s.len() + k) == sum_upto(s, s.len() as int) + sum_upto(t, k),
    decreases k,
{
    if k == 0 {
        lemma_sum_upto_agree(s + t, s, s.len() as int);
    } else {
        lemma_sum_upto_split(s, t, k - 1);
        assert((s + t)[s.len() + k - 1] == t[k - 1]);
    }
}

/// The sum of a concatenation is the sum of the sums of its parts;
/// in particular appending one element adds that element's share.
pub proof fn lemma_sum_additive(s: Seq<i8>, t: Seq<i8>)
    ensures
        sum(s + t) == sum(s) + sum(t),
{
    lemma_sum_upto_split(s, t, t.len() as int);
}

proof fn lemma_l1_upto_agree(a: Seq<i8>, c: Seq<i8>, n: int)
    requires
        0 <= n <= a.len(),
        n <= c.len(),
        forall|i: int| 0 <= i < n ==> a[i] == c[i],
    ensures
        l1_upto(a, n) == l1_upto(c, n),
    decreases n,
{
    if n > 0 {
        lemma_l1_upto_agree(a, c, n - 1);
    }
}

proof fn lemma_l1_upto_split(s: Seq<i8>, t: Seq<i8>, k: int)
    requires
        0 <= k <= t.len(),
    ensures
        l1_upto(s + t, s.len() + k) == l1_upto(s, s.len() as int) + l1_upto(t, k),
    decreases k,
{
    if k == 0 {
        lemma_l1_upto_agree(s + t, s, s.len() as int);
    } else {
        lemma_l1_upto_split(s, t, k - 1);
        assert((s + t)[s.len() + k - 1] == t[k - 1]);
    }
}

/// The l1_norm of a concatenation is the sum of the l1_norms of its parts;
/// in particular appending one element adds that element's share.
pub proof fn lemma_l1_additive(s: Seq<i8>, t: Seq<i8>)
    ensures
        l1_norm(s + t) == l1_norm(s) + l1_norm(t),
{
    lemma_l1_upto_split(s, t, t.len() as int);
}

proof fn lemma_count_zero_upto_agree(a: Seq<i8>, c: Seq<i8>, n: int)
    requires
        0 <= n <= a.len(),
        n <= c.len(),
        forall|i: int| 0 <= i < n ==> a[i] == c[i],
    ensures
        count_zero_upto(a, n) == count_zero_upto(c, n),
    decreases n,
{
    if n > 0 {
        lemma_count_zero_upto_agree(a, c, n - 1);
    }
}

proof fn lemma_count_zero_upto_split(s: Seq<i8>, t: Seq<i8>, k: int)
    requires
        0 <= k <= t.len(),
    ensures
        count_zero_upto(s + t, s.len() + k) == count_zero_upto(s, s.len() as int) + count_zero_upto(t, k),
    decreases k,
{
    if k == 0 {
        lemma_count_zero_upto_agree(s + t, s, s.len() as int);
    } else {
        lemma_count_zero_upto_split(s, t, k - 1);
        assert((s + t)[s.len() + k - 1] == t[k - 1]);
    }
}

/// The count_zero of a concatenation is the sum of the count_zeros of its parts;
/// in particular appending one element adds that element's share.
pub proof fn lemma_count_zero_additive(s: Seq<i8>, t: Seq<i8>)
    ensures
        count_zero(s + t) == count_zero(s) + count_zero(t),
{
    lemma_count_zero_upto_split(s, t, t.len() as int);
}

/// The sum of one element is that element; the sum of nothing is 0.
pub proof fn lemma_sum_single(x: i8)
    ensures
        sum(seq![x]) == x as int,
        sum(Seq::<i8>::empty()) == 0,
{
    reveal_with_fuel(sum_upto, 2);
    assert(seq![x][0] == x);
}

/// The magnitude of an `i8` is the non-negative number whose square is
/// the square of the element.
pub proof fn lemma_abs_i8_is_magnitude(x: i8)
    ensures
        abs_i8(x) >= 0,
        abs_i8(x) == x || abs_i8(x) == -x,
        abs_i8(x) * abs_i8(x) == (x as int) * (x as int),
{
    assert((-(x as int)) * (-(x as int)) == (x as int) * (x as int)) by (nonlinear_arith);
}

/// The L1 norm of one element is its magnitude: non-negative, with the
/// element's square as its square. The L1 norm of nothing is 0.
pub proof fn lemma_l1_single(x: i8)
    ensures
        l1_norm(seq![x]) >= 0,
        l1_norm(seq![x]) * l1_norm(seq![x]) == (x as int) * (x as int),
        l1_norm(Seq::<i8>::empty()) == 0,
{
    reveal_with_fuel(l1_upto, 2);
    assert(seq![x][0] == x);
    lemma_abs_i8_is_magnitude(x);
}

/// One element counts as a zero exactly when it equals 0; nothing has no
/// zeros.
pub proof fn lemma_count_zero_single(x: i8)
    ensures
        count_zero(seq![x]) == (if x == 0 {
            1nat
        } else {
            0nat
        }),
        count_zero(Seq::<i8>::empty()) == 0,
{
    reveal_with_fuel(count_zero_upto, 2);
    assert(seq![x][0] == x);
}

proof fn lemma_count_zero_upto_bounds(s: Seq<i8>, n: int)
    requires
        0 <= n <= s.len(),
    ensures
        count_zero_upto(s, n) <= n,
        count_zero_upto(s, n) == 0 <==> forall|i: int| 0 <= i < n ==> s[i] != 0,
        count_zero_upto(s, n) == n <==> forall|i: int| 0 <= i < n ==> s[i] == 0,
    decreases n,
{
    if n > 0 {
        lemma_count_zero_upto_bounds(s, n - 1);
    }
}

/// The zero count never exceeds the length; it is 0 exactly when no
/// element is 0, and the full length exactly when every element is 0.
pub proof fn lemma_count_zero_bounds(s: Seq<i8>)
    ensures
        count_zero(s) <= s.len(),
        count_zero(s) == 0 <==> forall|i: int| 0 <= i < s.len() ==> s[i] != 0,
        count_zero(s) == s.len() <==> forall|i: int| 0 <= i < s.len() ==> s[i] == 0,
{
    lemma_count_zero_upto_bounds(s, s.len() as int);
}

proof fn lemma_squared_distance_upto_bounds(a: Seq<i8>, b: Seq<i8>, n: int)
    requires
        0 <= n <= a.len(),
        n <= b.len(),
    ensures
        0 <= squared_distance_upto(a, b, n) <= 65025 * n,
        squared_distance_upto(a, b, n) == 0 <==> forall|i: int| 0 <= i < n ==> a[i] == b[i],
    decreases n,
{
    if n > 0 {
        lemma_squared_distance_upto_bounds(a, b, n - 1);
        let d = a[n - 1] as int - b[n - 1] as int;
        assert(0 <= d * d <= 65025) by (nonlinear_arith)
            requires
                -255 <= d <= 255,
        ;
        assert(d * d == 0 ==> d == 0) by (nonlinear_arith);
        assert(d == 0 ==> d * d == 0) by (nonlinear_arith);
        assert(d == 0 <==> a[n - 1] == b[n - 1]);
        assert(d * d == 0 <==> a[n - 1] == b[n - 1]);
        if squared_distance_upto(a, b, n) == 0 {
            assert(forall|i: int| 0 <= i < n ==> a[i] == b[i]);
        }
        if forall|i: int| 0 <= i < n ==> a[i] == b[i] {
            assert(a[n - 1] == b[n - 1]);
            assert(forall|i: int| 0 <= i < n - 1 ==> a[i] == b[i]);
        }
    }
}

/// The squared distance is never negative and at most `255^2` per pair;
/// it is 0 exactly when the paired elements are all equal.
pub proof fn lemma_squared_distance_bounds(a: Seq<i8>, b: Seq<i8>)
    ensures
        0 <= squared_distance(a, b) <= 65025 * min_len(a.len(), b.len()),
        squared_distance(a, b) == 0 <==> forall|i: int|
            0 <= i < min_len(a.len(), b.len()) ==> a[i] == b[i],
{
    lemma_squared_distance_upto_bounds(a, b, min_len(a.len(), b.len()) as int);
}

/// The minimum is determined by the sequence, and the minimum of a
/// concatenation is the smaller of the parts' minima; a single element is
/// its own minimum.
pub proof fn lemma_min_laws(s: Seq<i8>, t: Seq<i8>, m1: i8, m2: i8, x: i8, m: i8)
    requires
        is_min(s, m1),
        is_min(t, m2),
    ensures
        is_min(s + t, if m1 <= m2 {
            m1
        } else {
            m2
        }),
        is_min(seq![x], x),
        is_min(s, m) ==> m == m1,
{
    let st = s + t;
    let i = choose|i: int| 0 <= i < s.len() && s[i] == m1;
    let j = choose|j: int| 0 <= j < t.len() && t[j] == m2;
    assert(st[i] == m1);
    assert(st[s.len() + j] == m2);
    assert forall|k: int| 0 <= k < st.len() implies (if m1 <= m2 {
        m1
    } else {
        m2
    }) <= st[k] by {
        if k < s.len() {
            assert(st[k] == s[k]);
        } else {
            assert(st[k] == t[k - s.len()]);
        }
    }
    assert(seq![x][0] == x);
    if is_min(s, m) {
        let w = choose|w: int| 0 <= w < s.len() && s[w] == m;
        assert(m1 <= s[w]);
        assert(m <= s[i]);
    }
}

/// The maximum is determined by the sequence, and the maximum of a
/// concatenation is the larger of the parts' maxima; a single element is
/// its own maximum.
pub proof fn lemma_max_laws(s: Seq<i8>, t: Seq<i8>, m1: i8, m2: i8, x: i8, m: i8)
    requires
        is_max(s, m1),
        is_max(t, m2),
    ensures
        is_max(s + t, if m1 >= m2 {
            m1
        } else {
            m2
        }),
        is_max(seq![x], x),
        is_max(s, m) ==> m == m1,
{
    let st = s + t;
    let i = choose|i: int| 0 <= i < s.len() && s[i] == m1;
    let j = choose|j: int| 0 <= j < t.len() && t[j] == m2;
    assert(st[i] == m1);
    assert(st[s.len() + j] == m2);
    assert forall|k: int| 0 <= k < st.len() implies st[k] <= (if m1 >= m2 {
        m1
    } else {
        m2
    }) by {
        if k < s.len() {
            assert(st[k] == s[k]);
        } else {
            assert(st[k] == t[k - s.len()]);
        }
    }
    assert(seq![x][0] == x);
    if is_max(s, m) {
        let w = choose|w: int| 0 <= w < s.len() && s[w] == m;
        assert(s[w] <= m1);
        assert(s[i] <= m);
    }
}

/// The greatest magnitude is determined by the sequence; for one element
/// it is that element's magnitude; for a concatenation it is the larger of
/// the parts' greatest magnitudes.
pub proof fn lemma_max_abs_laws(s: Seq<i8>, t: Seq<i8>, m1: u8, m2: u8, x: i8, m: u8)
    requires
        is_max_abs(s, m1),
        is_max_abs(t, m2),
    ensures
        is_max_abs(s + t, if m1 >= m2 {
            m1
        } else {
            m2
        }),
        is_max_abs(seq![x], m) <==> m as int * m as int == (x as int) * (x as int),
        is_max_abs(s, m) ==> m == m1,
{
    let st = s + t;
    let i = choose|i: int| 0 <= i < s.len() && abs_i8(s[i]) == m1;
    let j = choose|j: int| 0 <= j < t.len() && abs_i8(t[j]) == m2;
    assert(st[i] == s[i]);
    assert(st[s.len() + j] == t[j]);
    assert forall|k: int| 0 <= k < st.len() implies abs_i8(st[k]) <= (if m1 >= m2 {
        m1
    } else {
        m2
    }) by {
        if k < s.len() {
            assert(st[k] == s[k]);
        } else {
            assert(st[k] == t[k - s.len()]);
        }
    }
    assert(seq![x][0] == x);
    lemma_abs_i8_is_magnitude(x);
    let a = abs_i8(x);
    assert(m as int * m as int == a * a ==> m as int == a) by (nonlinear_arith)
        requires
            m >= 0,
            a >= 0,
    ;
    assert(m as int == a ==> m as int * m as int == a * a);
    if is_max_abs(s, m) {
        let w = choose|w: int| 0 <= w < s.len() && abs_i8(s[w]) == m;
        assert(abs_i8(s[w]) <= m1);
        assert(abs_i8(s[i]) <= m);
    }
}

} // verus!
