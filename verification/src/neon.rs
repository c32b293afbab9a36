//! The NEON backend's integer and bitmap kernels, written with plain
//! arrays standing for the vector registers.
//!
//! Each kernel walks its input in 16-byte chunks the way the vector code
//! does — per-lane partial results in narrow lanes, widened into 64-bit
//! counters often enough that no narrow lane can overflow — then folds the
//! lanes together and finishes the remaining elements one at a time. Every
//! kernel is proved to give exactly the result of its scalar reference.
use crate::bits::popcount_u8;
use crate::scalar::{
    count_zero, count_zero_upto, dot, dot_upto, hamming, hamming_upto, intersection,
    intersection_upto, is_max, is_min, min_len, sum, sum_upto, union, union_upto,
};
use vstd::prelude::*;

verus! {

/// Bytes per vector register.
pub const LANES_U8: usize = 16;

/// Chunks that the `i16` partial sums of [`sum_i8`] take before they are
/// widened: each lane gains at most 256 in magnitude per chunk, so 64
/// chunks stay within 16384, half the `i16` range.
pub const SUM_I8_WIDEN_EVERY: usize = 64;

/// Chunks that the `i32` partial sums of [`dot_i8`] take before they are
/// widened: each lane gains four products of at most 16384 in magnitude
/// per chunk, so 1024 chunks stay within `2^26`, far inside the `i32`
/// range.
pub const DOT_I8_WIDEN_EVERY: usize = 1024;

/// Sum of four `i32` lanes.
pub open spec fn lanes4_sum(v: [i32; 4]) -> int {
    v[0] as int + v[1] as int + v[2] as int + v[3] as int
}

/// Sum of eight `i16` lanes.
pub open spec fn lanes8_sum(v: [i16; 8]) -> int {
    v[0] as int + v[1] as int + v[2] as int + v[3] as int + v[4] as int + v[5] as int
        + v[6] as int + v[7] as int
}

/// `i8` sum with `i64` accumulation, lane by lane: each chunk is added
/// pairwise into eight `i16` lanes, which are widened into two `i64`
/// counters every [`SUM_I8_WIDEN_EVERY`] chunks. Exact.
pub fn sum_i8(values: &[i8]) -> (r: i64)
    requires
        128 * values@.len() <= i64::MAX,
    ensures
        r == sum(values@),
{
    let n = values.len();
    let chunks = n / LANES_U8;
    let mut wide: [i64; 2] = [0, 0];
    let mut c: usize = 0;
    while c < chunks
        invariant
            n == values@.len(),
            128 * n <= i64::MAX,
            chunks == n / 16,
            c <= chunks,
            wide[0] as int + wide[1] as int == sum_upto(values@, 16 * c),
            -(128 * 16 * c) <= wide[0] as int + wide[1] as int <= 128 * 16 * c,
            -(128 * 16 * c) <= wide[0] <= 128 * 16 * c,
            -(128 * 16 * c) <= wide[1] <= 128 * 16 * c,
        decreases chunks - c,
    {
        let block_start = c;
        let block_end = if chunks - c > SUM_I8_WIDEN_EVERY {
            c + SUM_I8_WIDEN_EVERY
        } else {
            chunks
        };
        let mut narrow: [i16; 8] = [0, 0, 0, 0, 0, 0, 0, 0];
        while c < block_end
            invariant
                n == values@.len(),
                chunks == n / 16,
                block_start <= c <= block_end <= chunks,
                block_end - block_start <= 64,
                128 * n <= i64::MAX,
                -(128 * 16 * block_start) <= wide[0] <= 128 * 16 * block_start,
                -(128 * 16 * block_start) <= wide[1] <= 128 * 16 * block_start,
                wide[0] as int + wide[1] as int + lanes8_sum(narrow) == sum_upto(
                    values@,
                    16 * c,
                ),
                forall|k: int|
                    0 <= k < 8 ==> -(256 * (c - block_start)) <= #[trigger] narrow[k] <= 256 * (c
                        - block_start),
            decreases block_end - c,
        {
            let base = c * LANES_U8;
            let mut j: usize = 0;
            while j < LANES_U8
                invariant
                    n == values@.len(),
                    chunks == n / 16,
                    block_start <= c < block_end <= chunks,
                    block_end - block_start <= 64,
                    128 * n <= i64::MAX,
                    -(128 * 16 * block_start) <= wide[0] <= 128 * 16 * block_start,
                    -(128 * 16 * block_start) <= wide[1] <= 128 * 16 * block_start,
                    base == 16 * c,
                    j <= 16,
                    j % 2 == 0,
                    wide[0] as int + wide[1] as int + lanes8_sum(narrow) == sum_upto(
                        values@,
                        base + j,
                    ),
                    forall|k: int|
                        0 <= k < 8 ==> -(256 * (c - block_start)) - (if 2 * k < j {
                            256int
                        } else {
                            0int
                        }) <= #[trigger] narrow[k] <= 256 * (c - block_start) + (if 2 * k < j {
                            256int
                        } else {
                            0int
                        }),
                decreases 16 - j,
            {
                let k = j / 2;
                proof {
                    assert(16 * c + 16 <= n);
                    let m = base + j;
                    assert(sum_upto(values@, m + 1) == sum_upto(values@, m) + values@[m] as int);
                    assert(sum_upto(values@, m + 2) == sum_upto(values@, m + 1) + values@[m
                        + 1] as int);
                }
                let pair = values[base + j] as i16 + values[base + j + 1] as i16;
                narrow[k] = narrow[k] + pair;
                j = j + 2;
            }
            c = c + 1;
        }
        proof {
            assert(16 * c <= n);
            let d = c - block_start;
            assert(-(256 * d) <= narrow[0] <= 256 * d);
            assert(-(256 * d) <= narrow[1] <= 256 * d);
            assert(-(256 * d) <= narrow[2] <= 256 * d);
            assert(-(256 * d) <= narrow[3] <= 256 * d);
            assert(-(256 * d) <= narrow[4] <= 256 * d);
            assert(-(256 * d) <= narrow[5] <= 256 * d);
            assert(-(256 * d) <= narrow[6] <= 256 * d);
            assert(-(256 * d) <= narrow[7] <= 256 * d);
            assert(d <= 64);
            assert(-(2048 * block_start) <= wide[0] <= 2048 * block_start);
            assert(2048 * c <= 128 * n);
        }
        let lo = narrow[0] as i64 + narrow[1] as i64 + narrow[2] as i64 + narrow[3] as i64;
        let hi = narrow[4] as i64 + narrow[5] as i64 + narrow[6] as i64 + narrow[7] as i64;
        wide[0] = wide[0] + lo;
        wide[1] = wide[1] + hi;
    }
    proof {
        assert(c == chunks);
        assert(16 * chunks <= n);
        assert(-(2048 * chunks) <= wide[0] as int + wide[1] as int <= 2048 * chunks);
    }
    let mut r = wide[0] + wide[1];
    let mut i = chunks * LANES_U8;
    while i < n
        invariant
            n == values@.len(),
            128 * n <= i64::MAX,
            i <= n,
            r == sum_upto(values@, i as int),
            -(128 * i) <= r <= 128 * i,
        decreases n - i,
    {
        r = r + values[i] as i64;
        i = i + 1;
    }
    r
}

/// Product of two `i8` in an `i16`, as the widening multiply computes it.
fn mul_widen(x: i8, y: i8) -> (r: i16)
    ensures
        r == (x as int) * (y as int),
        -16384 <= r <= 16384,
{
    let a = x as i16;
    let b = y as i16;
    assert(-16384 <= a * b <= 16384) by (nonlinear_arith)
        requires
            -128 <= a <= 127,
            -128 <= b <= 127,
    ;
    a * b
}

/// `i8` dot product with `i64` accumulation, lane by lane: each chunk's
/// byte products are formed in `i16` and added pairwise into four `i32`
/// lanes, which are widened into two `i64` counters every
/// [`DOT_I8_WIDEN_EVERY`] chunks. Exact; the pairing stops at the shorter
/// input.
pub fn dot_i8(a: &[i8], b: &[i8]) -> (r: i64)
    requires
        16384 * min_len(a@.len(), b@.len()) <= i64::MAX,
    ensures
        r == dot(a@, b@),
{
    let n: usize = if a.len() <= b.len() {
        a.len()
    } else {
        b.len()
    };
    let chunks = n / LANES_U8;
    let mut wide: [i64; 2] = [0, 0];
    let mut c: usize = 0;
    while c < chunks
        invariant
            n == min_len(a@.len(), b@.len()),
            16384 * n <= i64::MAX,
            chunks == n / 16,
            c <= chunks,
            wide[0] as int + wide[1] as int == dot_upto(a@, b@, 16 * c),
            -(16384 * 16 * c) <= wide[0] as int + wide[1] as int <= 16384 * 16 * c,
            -(16384 * 16 * c) <= wide[0] <= 16384 * 16 * c,
            -(16384 * 16 * c) <= wide[1] <= 16384 * 16 * c,
        decreases chunks - c,
    {
        let block_start = c;
        let block_end = if chunks - c > DOT_I8_WIDEN_EVERY {
            c + DOT_I8_WIDEN_EVERY
        } else {
            chunks
        };
        let mut narrow: [i32; 4] = [0, 0, 0, 0];
        while c < block_end
            invariant
                n == min_len(a@.len(), b@.len()),
                chunks == n / 16,
                block_start <= c <= block_end <= chunks,
                block_end - block_start <= 1024,
                16384 * n <= i64::MAX,
                -(16384 * 16 * block_start) <= wide[0] <= 16384 * 16 * block_start,
                -(16384 * 16 * block_start) <= wide[1] <= 16384 * 16 * block_start,
                wide[0] as int + wide[1] as int + lanes4_sum(narrow) == dot_upto(a@, b@, 16 * c),
                forall|k: int|
                    0 <= k < 4 ==> -(65536 * (c - block_start)) <= #[trigger] narrow[k] <= 65536 * (
                    c - block_start),
            decreases block_end - c,
        {
            let base = c * LANES_U8;
            let mut j: usize = 0;
            while j < LANES_U8
                invariant
                    n == min_len(a@.len(), b@.len()),
                    chunks == n / 16,
                    block_start <= c < block_end <= chunks,
                    block_end - block_start <= 1024,
                    16384 * n <= i64::MAX,
                    -(16384 * 16 * block_start) <= wide[0] <= 16384 * 16 * block_start,
                    -(16384 * 16 * block_start) <= wide[1] <= 16384 * 16 * block_start,
                    base == 16 * c,
                    j <= 16,
                    j % 2 == 0,
                    wide[0] as int + wide[1] as int + lanes4_sum(narrow) == dot_upto(
                        a@,
                        b@,
                        base + j,
                    ),
                    forall|k: int|
                        0 <= k < 4 ==> -(65536 * (c - block_start)) - 16384 * ((if 2 * k < j {
                            2int
                        } else {
                            0int
                        }) + (if 8 + 2 * k < j {
                            2int
                        } else {
                            0int
                        })) <= #[trigger] narrow[k] <= 65536 * (c - block_start) + 16384 * ((
                        if 2 * k < j {
                            2int
                        } else {
                            0int
                        }) + (if 8 + 2 * k < j {
                            2int
                        } else {
                            0int
                        })),
                decreases 16 - j,
            {
                let k = (j % 8) / 2;
                proof {
                    assert(16 * c + 16 <= n);
                    let m = base + j;
                    assert(dot_upto(a@, b@, m + 1) == dot_upto(a@, b@, m) + (a@[m] as int) * (
                    b@[m] as int));
                    assert(dot_upto(a@, b@, m + 2) == dot_upto(a@, b@, m + 1) + (a@[m
                        + 1] as int) * (b@[m + 1] as int));
                }
                let p0 = mul_widen(a[base + j], b[base + j]);
                let p1 = mul_widen(a[base + j + 1], b[base + j + 1]);
                narrow[k] = narrow[k] + (p0 as i32 + p1 as i32);
                j = j + 2;
            }
            c = c + 1;
        }
        proof {
            assert(16 * c <= n);
            let d = c - block_start;
            assert(-(65536 * d) <= narrow[0] <= 65536 * d);
            assert(-(65536 * d) <= narrow[1] <= 65536 * d);
            assert(-(65536 * d) <= narrow[2] <= 65536 * d);
            assert(-(65536 * d) <= narrow[3] <= 65536 * d);
            assert(16384 * 16 * c <= 16384 * n);
            assert(block_start <= c);
            assert(-(262144 * block_start) <= wide[0] <= 262144 * block_start);
            assert(-(262144 * block_start) <= wide[1] <= 262144 * block_start);
            assert(-(131072 * d) <= narrow[0] as int + narrow[1] as int <= 131072 * d);
            assert(-(131072 * d) <= narrow[2] as int + narrow[3] as int <= 131072 * d);
            assert(262144 * block_start + 131072 * d <= 262144 * c);
        }
        let lo = narrow[0] as i64 + narrow[1] as i64;
        let hi = narrow[2] as i64 + narrow[3] as i64;
        wide[0] = wide[0] + lo;
        wide[1] = wide[1] + hi;
    }
    proof {
        assert(c == chunks);
        assert(16 * chunks <= n);
        assert(-(16384 * 16 * chunks) <= wide[0] as int + wide[1] as int <= 16384 * 16 * chunks);
        assert(16384 * 16 * chunks <= 16384 * n);
    }
    let mut r = wide[0] + wide[1];
    let mut i = chunks * LANES_U8;
    while i < n
        invariant
            n == min_len(a@.len(), b@.len()),
            16384 * n <= i64::MAX,
            i <= n,
            r == dot_upto(a@, b@, i as int),
            -(16384 * i) <= r <= 16384 * i,
        decreases n - i,
    {
        let p = mul_widen(a[i], b[i]);
        r = r + p as i64;
        i = i + 1;
    }
    r
}

/// Hamming distance of packed bitmaps, lane by lane: the popcounts of
/// each chunk's XORed bytes are summed into two 64-bit counters (bytes
/// 0–7 into the first, 8–15 into the second), then the counters are
/// added and the remaining bytes counted one at a time. The pairing stops
/// at the shorter input.
pub fn hamming_popcount(a: &[u8], b: &[u8]) -> (r: usize)
    requires
        8 * min_len(a@.len(), b@.len()) <= usize::MAX,
    ensures
        r == hamming(a@, b@),
{
    let n: usize = if a.len() <= b.len() {
        a.len()
    } else {
        b.len()
    };
    let chunks = n / LANES_U8;
    let mut acc: [u64; 2] = [0, 0];
    let mut c: usize = 0;
    while c < chunks
        invariant
            n == min_len(a@.len(), b@.len()),
            8 * n <= usize::MAX,
            chunks == n / 16,
            c <= chunks,
            acc[0] as int + acc[1] as int == hamming_upto(a@, b@, 16 * c),
            acc[0] <= 64 * c,
            acc[1] <= 64 * c,
        decreases chunks - c,
    {
        let base = c * LANES_U8;
        let mut j: usize = 0;
        while j < LANES_U8
            invariant
                n == min_len(a@.len(), b@.len()),
                8 * n <= usize::MAX,
                chunks == n / 16,
                c < chunks,
                base == 16 * c,
                j <= 16,
                acc[0] as int + acc[1] as int == hamming_upto(a@, b@, base + j),
                acc[0] <= 64 * c + 8 * (if j < 8 {
                    j as int
                } else {
                    8int
                }),
                acc[1] <= 64 * c + 8 * (if j < 8 {
                    0int
                } else {
                    j - 8
                }),
            decreases 16 - j,
        {
            proof {
                assert(16 * c + 16 <= n);
            }
            let bits = popcount_u8(a[base + j] ^ b[base + j]) as u64;
            let lane = j / 8;
            acc[lane] = acc[lane] + bits;
            j = j + 1;
        }
        c = c + 1;
    }
    proof {
        assert(16 * chunks <= n);
    }
    let mut r: usize = (acc[0] + acc[1]) as usize;
    let mut i = chunks * LANES_U8;
    while i < n
        invariant
            n == min_len(a@.len(), b@.len()),
            8 * n <= usize::MAX,
            i <= n,
            r == hamming_upto(a@, b@, i as int),
            r <= 8 * i,
        decreases n - i,
    {
        let bits = popcount_u8(a[i] ^ b[i]);
        r = r + bits as usize;
        i = i + 1;
    }
    r
}

/// Jaccard counts of packed bitmaps, lane by lane: the popcounts of each
/// chunk's ANDed and ORed bytes are summed into two pairs of 64-bit
/// counters, then each pair is added and the remaining bytes counted one
/// at a time. The pairing stops at the shorter input.
pub fn jaccard_counts(a: &[u8], b: &[u8]) -> (r: (usize, usize))
    requires
        8 * min_len(a@.len(), b@.len()) <= usize::MAX,
    ensures
        r.0 == intersection(a@, b@),
        r.1 == union(a@, b@),
{
    let n: usize = if a.len() <= b.len() {
        a.len()
    } else {
        b.len()
    };
    let chunks = n / LANES_U8;
    let mut and_acc: [u64; 2] = [0, 0];
    let mut or_acc: [u64; 2] = [0, 0];
    let mut c: usize = 0;
    while c < chunks
        invariant
            n == min_len(a@.len(), b@.len()),
            8 * n <= usize::MAX,
            chunks == n / 16,
            c <= chunks,
            and_acc[0] as int + and_acc[1] as int == intersection_upto(a@, b@, 16 * c),
            or_acc[0] as int + or_acc[1] as int == union_upto(a@, b@, 16 * c),
            and_acc[0] <= 64 * c,
            and_acc[1] <= 64 * c,
            or_acc[0] <= 64 * c,
            or_acc[1] <= 64 * c,
        decreases chunks - c,
    {
        let base = c * LANES_U8;
        let mut j: usize = 0;
        while j < LANES_U8
            invariant
                n == min_len(a@.len(), b@.len()),
                8 * n <= usize::MAX,
                chunks == n / 16,
                c < chunks,
                base == 16 * c,
                j <= 16,
                and_acc[0] as int + and_acc[1] as int == intersection_upto(a@, b@, base + j),
                or_acc[0] as int + or_acc[1] as int == union_upto(a@, b@, base + j),
                and_acc[0] <= 64 * c + 8 * (if j < 8 {
                    j as int
                } else {
                    8int
                }),
                and_acc[1] <= 64 * c + 8 * (if j < 8 {
                    0int
                } else {
                    j - 8
                }),
                or_acc[0] <= 64 * c + 8 * (if j < 8 {
                    j as int
                } else {
                    8int
                }),
                or_acc[1] <= 64 * c + 8 * (if j < 8 {
                    0int
                } else {
                    j - 8
                }),
            decreases 16 - j,
        {
            proof {
                assert(16 * c + 16 <= n);
            }
            let x = a[base + j];
            let y = b[base + j];
            let both = popcount_u8(x & y) as u64;
            let either = popcount_u8(x | y) as u64;
            let lane = j / 8;
            and_acc[lane] = and_acc[lane] + both;
            or_acc[lane] = or_acc[lane] + either;
            j = j + 1;
        }
        c = c + 1;
    }
    proof {
        assert(16 * chunks <= n);
    }
    let mut inter: usize = (and_acc[0] + and_acc[1]) as usize;
    let mut uni: usize = (or_acc[0] + or_acc[1]) as usize;
    let mut i = chunks * LANES_U8;
    while i < n
        invariant
            n == min_len(a@.len(), b@.len()),
            8 * n <= usize::MAX,
            i <= n,
            inter == intersection_upto(a@, b@, i as int),
            uni == union_upto(a@, b@, i as int),
            inter <= 8 * i,
            uni <= 8 * i,
        decreases n - i,
    {
        let x = a[i];
        let y = b[i];
        let both = popcount_u8(x & y);
        let either = popcount_u8(x | y);
        inter = inter + both as usize;
        uni = uni + either as usize;
        i = i + 1;
    }
    (inter, uni)
}

/// One byte folded into the running lane minimum keeps the lane invariant.
proof fn lemma_lanes_min_step(values: Seq<i8>, old_lanes: [i8; 16], lanes: [i8; 16], base: int, j: int)
    requires
        0 <= j < 16,
        0 <= base,
        base % 16 == 0,
        base + 16 <= values.len(),
        lanes@ == old_lanes@.update(j, if values[base + j] < old_lanes[j] {
            values[base + j]
        } else {
            old_lanes[j]
        }),
        forall|i: int| 0 <= i < base + j ==> old_lanes[i % 16] <= #[trigger] values[i],
        forall|k: int|
            0 <= k < 16 ==> #[trigger] old_lanes[k] == 127 || exists|i: int|
                0 <= i < base + j && values[i] == old_lanes[k],
    ensures
        forall|i: int| 0 <= i < base + j + 1 ==> lanes[i % 16] <= #[trigger] values[i],
        forall|k: int|
            0 <= k < 16 ==> #[trigger] lanes[k] == 127 || exists|i: int|
                0 <= i < base + j + 1 && values[i] == lanes[k],
{
    assert forall|i: int| 0 <= i < base + j + 1 implies lanes[i % 16] <= #[trigger] values[i] by {
        if i < base + j {
            assert(lanes[i % 16] <= old_lanes[i % 16]);
        } else {
            assert(i % 16 == j);
        }
    }
    assert forall|k: int| 0 <= k < 16 implies #[trigger] lanes[k] == 127 || exists|i: int|
        0 <= i < base + j + 1 && values[i] == lanes[k] by {
        if k == j && lanes[k] != old_lanes[k] {
            assert(values[base + j] == lanes[k]);
        } else if lanes[k] != 127 {
            let w = choose|i: int| 0 <= i < base + j && values[i] == old_lanes[k];
            assert(values[w] == lanes[k]);
        }
    }
}

/// The least element of a non-empty slice, lane by lane: sixteen lanes
/// start at `i8::MAX` and keep the minimum of the bytes that fall into
/// them, the lanes are folded together, and the remaining elements are
/// taken one at a time.
pub fn min_i8(values: &[i8]) -> (r: i8)
    requires
        values@.len() > 0,
    ensures
        is_min(values@, r),
{
    let n = values.len();
    let chunks = n / LANES_U8;
    let mut lanes: [i8; 16] = [127; 16];
    let mut c: usize = 0;
    while c < chunks
        invariant
            n == values@.len(),
            chunks == n / 16,
            c <= chunks,
            forall|i: int| 0 <= i < 16 * c ==> lanes[i % 16] <= #[trigger] values@[i],
            forall|k: int|
                0 <= k < 16 ==> #[trigger] lanes[k] == 127 || exists|i: int|
                    0 <= i < 16 * c && values@[i] == lanes[k],
        decreases chunks - c,
    {
        let base = c * LANES_U8;
        let mut j: usize = 0;
        while j < LANES_U8
            invariant
                n == values@.len(),
                chunks == n / 16,
                c < chunks,
                base == 16 * c,
                j <= 16,
                forall|i: int| 0 <= i < 16 * c + j ==> lanes[i % 16] <= #[trigger] values@[i],
                forall|k: int|
                    0 <= k < 16 ==> #[trigger] lanes[k] == 127 || exists|i: int|
                        0 <= i < 16 * c + j && values@[i] == lanes[k],
            decreases 16 - j,
        {
            proof {
                assert(16 * c + 16 <= n);
            }
            let v = values[base + j];
            let ghost old_lanes = lanes;
            if v < lanes[j] {
                lanes[j] = v;
            }
            proof {
                assert(lanes@ =~= old_lanes@.update(
                    j as int,
                    if values@[base + j] < old_lanes[j as int] {
                        values@[base + j]
                    } else {
                        old_lanes[j as int]
                    },
                ));
                assert((16 * c) % 16 == 0) by (nonlinear_arith);
                lemma_lanes_min_step(values@, old_lanes, lanes, 16 * c, j as int);
            }
            j = j + 1;
        }
        c = c + 1;
    }
    let mut m: i8 = 127;
    let mut k: usize = 0;
    while k < LANES_U8
        invariant
            n == values@.len(),
            chunks == n / 16,
            k <= 16,
            forall|i: int| 0 <= i < 16 * chunks ==> lanes[i % 16] <= #[trigger] values@[i],
            forall|q: int|
                0 <= q < 16 ==> #[trigger] lanes[q] == 127 || exists|i: int|
                    0 <= i < 16 * chunks && values@[i] == lanes[q],
            forall|q: int| 0 <= q < k ==> m <= #[trigger] lanes[q],
            m == 127 || exists|i: int| 0 <= i < 16 * chunks && values@[i] == m,
        decreases 16 - k,
    {
        if lanes[k] < m {
            m = lanes[k];
        }
        k = k + 1;
    }
    let mut i = chunks * LANES_U8;
    proof {
        assert(16 * chunks <= n);
        assert forall|t: int| 0 <= t < i implies m <= #[trigger] values@[t] by {
            assert(m <= lanes[t % 16]);
        }
    }
    while i < n
        invariant
            n == values@.len(),
            i <= n,
            forall|t: int| 0 <= t < i ==> m <= #[trigger] values@[t],
            m == 127 || exists|t: int| 0 <= t < i && values@[t] == m,
        decreases n - i,
    {
        if values[i] < m {
            m = values[i];
        }
        i = i + 1;
    }
    proof {
        if m == 127 {
            assert(m <= values@[0]);
            assert(values@[0] == m);
        }
    }
    m
}

/// One byte folded into the running lane maximum keeps the lane invariant.
proof fn lemma_lanes_max_step(values: Seq<i8>, old_lanes: [i8; 16], lanes: [i8; 16], base: int, j: int)
    requires
        0 <= j < 16,
        0 <= base,
        base % 16 == 0,
        base + 16 <= values.len(),
        lanes@ == old_lanes@.update(j, if values[base + j] > old_lanes[j] {
            values[base + j]
        } else {
            old_lanes[j]
        }),
        forall|i: int| 0 <= i < base + j ==> #[trigger] values[i] <= old_lanes[i % 16],
        forall|k: int|
            0 <= k < 16 ==> #[trigger] old_lanes[k] == -128 || exists|i: int|
                0 <= i < base + j && values[i] == old_lanes[k],
    ensures
        forall|i: int| 0 <= i < base + j + 1 ==> #[trigger] values[i] <= lanes[i % 16],
        forall|k: int|
            0 <= k < 16 ==> #[trigger] lanes[k] == -128 || exists|i: int|
                0 <= i < base + j + 1 && values[i] == lanes[k],
{
    assert forall|i: int| 0 <= i < base + j + 1 implies #[trigger] values[i] <= lanes[i % 16] by {
        if i < base + j {
            assert(old_lanes[i % 16] <= lanes[i % 16]);
        } else {
            assert(i % 16 == j);
        }
    }
    assert forall|k: int| 0 <= k < 16 implies #[trigger] lanes[k] == -128 || exists|i: int|
        0 <= i < base + j + 1 && values[i] == lanes[k] by {
        if k == j && lanes[k] != old_lanes[k] {
            assert(values[base + j] == lanes[k]);
        } else if lanes[k] != -128 {
            let w = choose|i: int| 0 <= i < base + j && values[i] == old_lanes[k];
            assert(values[w] == lanes[k]);
        }
    }
}

/// The greatest element of a non-empty slice, lane by lane: sixteen lanes
/// start at `i8::MIN` and keep the maximum of the bytes that fall into
/// them, the lanes are folded together, and the remaining elements are
/// taken one at a time.
pub fn max_i8(values: &[i8]) -> (r: i8)
    requires
        values@.len() > 0,
    ensures
        is_max(values@, r),
{
    let n = values.len();
    let chunks = n / LANES_U8;
    let mut lanes: [i8; 16] = [-128; 16];
    let mut c: usize = 0;
    while c < chunks
        invariant
            n == values@.len(),
            chunks == n / 16,
            c <= chunks,
            forall|i: int| 0 <= i < 16 * c ==> #[trigger] values@[i] <= lanes[i % 16],
            forall|k: int|
                0 <= k < 16 ==> #[trigger] lanes[k] == -128 || exists|i: int|
                    0 <= i < 16 * c && values@[i] == lanes[k],
        decreases chunks - c,
    {
        let base = c * LANES_U8;
        let mut j: usize = 0;
        while j < LANES_U8
            invariant
                n == values@.len(),
                chunks == n / 16,
                c < chunks,
                base == 16 * c,
                j <= 16,
                forall|i: int| 0 <= i < 16 * c + j ==> #[trigger] values@[i] <= lanes[i % 16],
                forall|k: int|
                    0 <= k < 16 ==> #[trigger] lanes[k] == -128 || exists|i: int|
                        0 <= i < 16 * c + j && values@[i] == lanes[k],
            decreases 16 - j,
        {
            proof {
                assert(16 * c + 16 <= n);
            }
            let v = values[base + j];
            let ghost old_lanes = lanes;
            if v > lanes[j] {
                lanes[j] = v;
            }
            proof {
                assert(lanes@ =~= old_lanes@.update(
                    j as int,
                    if values@[base + j] > old_lanes[j as int] {
                        values@[base + j]
                    } else {
                        old_lanes[j as int]
                    },
                ));
                assert((16 * c) % 16 == 0) by (nonlinear_arith);
                lemma_lanes_max_step(values@, old_lanes, lanes, 16 * c, j as int);
            }
            j = j + 1;
        }
        c = c + 1;
    }
    let mut m: i8 = -128;
    let mut k: usize = 0;
    while k < LANES_U8
        invariant
            n == values@.len(),
            chunks == n / 16,
            k <= 16,
            forall|i: int| 0 <= i < 16 * chunks ==> #[trigger] values@[i] <= lanes[i % 16],
            forall|q: int|
                0 <= q < 16 ==> #[trigger] lanes[q] == -128 || exists|i: int|
                    0 <= i < 16 * chunks && values@[i] == lanes[q],
            forall|q: int| 0 <= q < k ==> #[trigger] lanes[q] <= m,
            m == -128 || exists|i: int| 0 <= i < 16 * chunks && values@[i] == m,
        decreases 16 - k,
    {
        if lanes[k] > m {
            m = lanes[k];
        }
        k = k + 1;
    }
    let mut i = chunks * LANES_U8;
    proof {
        assert(16 * chunks <= n);
        assert forall|t: int| 0 <= t < i implies #[trigger] values@[t] <= m by {
            assert(lanes[t % 16] <= m);
        }
    }
    while i < n
        invariant
            n == values@.len(),
            i <= n,
            forall|t: int| 0 <= t < i ==> #[trigger] values@[t] <= m,
            m == -128 || exists|t: int| 0 <= t < i && values@[t] == m,
        decreases n - i,
    {
        if values[i] > m {
            m = values[i];
        }
        i = i + 1;
    }
    proof {
        if m == -128 {
            assert(values@[0] <= m);
            assert(values@[0] == m);
        }
    }
    m
}

/// Number of zero elements, lane by lane: each chunk's zero bytes are
/// counted as a sixteen-lane mask and the count added, then the remaining
/// elements are counted one at a time.
pub fn count_zero_i8(values: &[i8]) -> (r: usize)
    ensures
        r == count_zero(values@),
{
    let n = values.len();
    let chunks = n / LANES_U8;
    let mut r: usize = 0;
    let mut c: usize = 0;
    while c < chunks
        invariant
            n == values@.len(),
            chunks == n / 16,
            c <= chunks,
            r == count_zero_upto(values@, 16 * c),
            r <= 16 * c,
        decreases chunks - c,
    {
        let base = c * LANES_U8;
        let mut in_chunk: u8 = 0;
        let mut j: usize = 0;
        while j < LANES_U8
            invariant
                n == values@.len(),
                chunks == n / 16,
                c < chunks,
                base == 16 * c,
                j <= 16,
                in_chunk <= j,
                r + in_chunk == count_zero_upto(values@, base + j),
                r <= 16 * c,
            decreases 16 - j,
        {
            proof {
                assert(16 * c + 16 <= n);
            }
            if values[base + j] == 0 {
                in_chunk = in_chunk + 1;
            }
            j = j + 1;
        }
        r = r + in_chunk as usize;
        c = c + 1;
    }
    let mut i = chunks * LANES_U8;
    proof {
        assert(16 * chunks <= n);
    }
    while i < n
        invariant
            n == values@.len(),
            i <= n,
            r == count_zero_upto(values@, i as int),
            r <= i,
        decreases n - i,
    {
        if values[i] == 0 {
            r = r + 1;
        }
        i = i + 1;
    }
    r
}

} // verus!
