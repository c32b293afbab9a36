//! Population count of a byte, written as a verified loop, with the
//! identities that relate the counts of `&`, `|` and `^`.
use vstd::arithmetic::power2::*;
use vstd::prelude::*;

verus! {

/// Number of set bits of `x`.
pub open spec fn popcount(x: u8) -> nat
    decreases x,
{
    if x == 0 {
        0
    } else {
        ((x % 2) as nat) + popcount(x / 2)
    }
}

/// A byte below `2^k` has at most `k` set bits.
proof fn lemma_popcount_below(x: u8, k: nat)
    requires
        x < pow2(k),
    ensures
        popcount(x) <= k,
    decreases x,
{
    if x != 0 {
        if k == 0 {
            lemma2_to64();
        } else {
            lemma_pow2_unfold(k);
            lemma_popcount_below(x / 2, (k - 1) as nat);
        }
    }
}

/// Every byte has at most eight set bits.
pub proof fn lemma_popcount_le_8(x: u8)
    ensures
        popcount(x) <= 8,
{
    lemma2_to64();
    lemma_popcount_below(x, 8);
}

/// Counts the set bits of a byte (the same value as `u8::count_ones`).
pub fn popcount_u8(x: u8) -> (r: u32)
    ensures
        r == popcount(x),
        r <= 8,
{
    proof {
        lemma_popcount_le_8(x);
    }
    let mut v: u8 = x;
    let mut r: u32 = 0;
    while v > 0
        invariant
            r + popcount(v) == popcount(x),
            popcount(x) <= 8,
        decreases v,
    {
        r = r + (v % 2) as u32;
        v = v / 2;
    }
    r
}

proof fn lemma_popcount_shift_step(x: u8, k: u8)
    requires
        k < 8,
    ensures
        popcount(x >> k) == (((x >> k) & 1) as nat) + popcount(x >> (k + 1) as u8),
{
    let y = x >> k;
    assert(y / 2 == x >> (k + 1) as u8) by (bit_vector)
        requires
            y == x >> k,
            k < 8,
    ;
    assert(y % 2 == y & 1) by (bit_vector);
    if y == 0 {
        assert(y / 2 == 0);
    }
}

/// The popcount of a byte is the number of its eight bit positions that
/// hold a 1.
pub proof fn lemma_popcount_counts_bits(x: u8)
    ensures
        popcount(x) == ((x & 1) + ((x >> 1) & 1) + ((x >> 2) & 1) + ((x >> 3) & 1) + ((x >> 4)
            & 1) + ((x >> 5) & 1) + ((x >> 6) & 1) + ((x >> 7) & 1)) as nat,
{
    assert(x >> 0u8 == x) by (bit_vector);
    assert(x >> 8u8 == 0) by (bit_vector);
    lemma_popcount_shift_step(x, 0);
    lemma_popcount_shift_step(x, 1);
    lemma_popcount_shift_step(x, 2);
    lemma_popcount_shift_step(x, 3);
    lemma_popcount_shift_step(x, 4);
    lemma_popcount_shift_step(x, 5);
    lemma_popcount_shift_step(x, 6);
    lemma_popcount_shift_step(x, 7);
}

/// The bitwise facts about halving and parity that the popcount
/// identities below rest on.
proof fn lemma_byte_ops_halve(a: u8, b: u8)
    ensures
        (a | b) / 2 == (a / 2) | (b / 2),
        (a & b) / 2 == (a / 2) & (b / 2),
        (a ^ b) / 2 == (a / 2) ^ (b / 2),
        (a | b) % 2 == (if a % 2 == 1 || b % 2 == 1 { 1u8 } else { 0u8 }),
        (a & b) % 2 == (if a % 2 == 1 && b % 2 == 1 { 1u8 } else { 0u8 }),
        (a ^ b) % 2 == (if a % 2 != b % 2 { 1u8 } else { 0u8 }),
        a == 0 && b == 0 ==> (a | b) == 0 && (a & b) == 0 && (a ^ b) == 0,
{
    assert((a | b) / 2 == (a / 2) | (b / 2)) by (bit_vector);
    assert((a & b) / 2 == (a / 2) & (b / 2)) by (bit_vector);
    assert((a ^ b) / 2 == (a / 2) ^ (b / 2)) by (bit_vector);
    assert((a | b) % 2 == (if a % 2 == 1 || b % 2 == 1 { 1u8 } else { 0u8 })) by (bit_vector);
    assert((a & b) % 2 == (if a % 2 == 1 && b % 2 == 1 { 1u8 } else { 0u8 })) by (bit_vector);
    assert((a ^ b) % 2 == (if a % 2 != b % 2 { 1u8 } else { 0u8 })) by (bit_vector);
    assert(a == 0 && b == 0 ==> (a | b) == 0 && (a & b) == 0 && (a ^ b) == 0) by (bit_vector);
}

/// Inclusion–exclusion for bit counts: the bits set in `a | b` plus those
/// set in `a & b` are the bits of `a` plus the bits of `b`; the bits of
/// `a ^ b` are those of `a | b` that are not in `a & b`.
pub proof fn lemma_popcount_or_and_xor(a: u8, b: u8)
    ensures
        popcount(a | b) + popcount(a & b) == popcount(a) + popcount(b),
        popcount(a | b) == popcount(a ^ b) + popcount(a & b),
    decreases a as int + b as int,
{
    lemma_byte_ops_halve(a, b);
    if a == 0 && b == 0 {
    } else {
        lemma_popcount_or_and_xor(a / 2, b / 2);
        assert(popcount(a | b) == ((a | b) % 2) as nat + popcount((a | b) / 2)) by {
            if (a | b) == 0 {
                assert((a | b) % 2 == 0 && (a | b) / 2 == 0);
            }
        }
        assert(popcount(a & b) == ((a & b) % 2) as nat + popcount((a & b) / 2)) by {
            if (a & b) == 0 {
                assert((a & b) % 2 == 0 && (a & b) / 2 == 0);
            }
        }
        assert(popcount(a ^ b) == ((a ^ b) % 2) as nat + popcount((a ^ b) / 2)) by {
            if (a ^ b) == 0 {
                assert((a ^ b) % 2 == 0 && (a ^ b) / 2 == 0);
            }
        }
        assert(popcount(a) == (a % 2) as nat + popcount(a / 2));
        assert(popcount(b) == (b % 2) as nat + popcount(b / 2));
    }
}

/// `x ^ y` is symmetric and vanishes on equal bytes, so the bit distance
/// between two bytes is symmetric and zero from a byte to itself.
pub proof fn lemma_popcount_xor_symmetric(a: u8, b: u8)
    ensures
        popcount(a ^ b) == popcount(b ^ a),
        popcount(a ^ a) == 0,
{
    assert(a ^ b == b ^ a) by (bit_vector);
    assert(a ^ a == 0) by (bit_vector);
}

} // verus!
