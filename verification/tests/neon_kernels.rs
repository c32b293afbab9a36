use lanes::neon;
use lanes::scalar;

/// Deterministic pseudo-random bytes covering the whole `i8` range.
fn data_i8(len: usize, seed: u64) -> Vec<i8> {
    let mut state = seed.wrapping_mul(6364136223846793005).wrapping_add(1442695040888963407);
    (0..len)
        .map(|_| {
            state = state
                .wrapping_mul(6364136223846793005)
                .wrapping_add(1442695040888963407);
            (state >> 56) as u8 as i8
        })
        .collect()
}

fn data_u8(len: usize, seed: u64) -> Vec<u8> {
    data_i8(len, seed).into_iter().map(|x| x as u8).collect()
}

const LENGTHS: [usize; 14] = [0, 1, 15, 16, 17, 31, 32, 33, 63, 64, 65, 1024, 1041, 20000];

#[test]
fn neon_sum_i8_matches_scalar() {
    for (i, &len) in LENGTHS.iter().enumerate() {
        let v = data_i8(len, i as u64);
        assert_eq!(neon::sum_i8(&v), scalar::sum_i8(&v), "len {len}");
    }
    // 2000 chunks of -128 cross several widening points.
    let v = vec![-128i8; 16 * 2000 + 5];
    assert_eq!(neon::sum_i8(&v), -128 * (16 * 2000 + 5));
    let v = vec![127i8; 16 * 2000 + 5];
    assert_eq!(neon::sum_i8(&v), 127 * (16 * 2000 + 5));
}

#[test]
fn neon_dot_i8_matches_scalar() {
    for (i, &len) in LENGTHS.iter().enumerate() {
        let a = data_i8(len, 2 * i as u64);
        let b = data_i8(len, 2 * i as u64 + 1);
        assert_eq!(neon::dot_i8(&a, &b), scalar::dot_i8(&a, &b), "len {len}");
    }
    // 3000 chunks of the largest products cross the widening point twice.
    let a = vec![-128i8; 16 * 3000 + 3];
    assert_eq!(neon::dot_i8(&a, &a), 16384 * (16 * 3000 + 3));
    let b = vec![127i8; 16 * 3000 + 3];
    assert_eq!(neon::dot_i8(&a, &b), -16256 * (16 * 3000 + 3));
    assert_eq!(neon::dot_i8(&a, &b[..7]), -16256 * 7);
}

#[test]
fn neon_hamming_and_jaccard_match_scalar() {
    for (i, &len) in LENGTHS.iter().enumerate() {
        let a = data_u8(len, 3 * i as u64);
        let b = data_u8(len + i, 3 * i as u64 + 1);
        assert_eq!(neon::hamming_popcount(&a, &b), scalar::hamming_popcount(&a, &b), "len {len}");
        assert_eq!(neon::jaccard_counts(&a, &b), scalar::jaccard_counts(&a, &b), "len {len}");
    }
    assert_eq!(neon::hamming_popcount(&[0xFF; 40], &[0x00; 40]), 320);
    assert_eq!(neon::jaccard_counts(&[0xF0; 33], &[0x3C; 33]), (66, 198));
}

#[test]
fn neon_min_max_i8_match_scalar() {
    for (i, &len) in LENGTHS.iter().enumerate().skip(1) {
        let v = data_i8(len, 5 * i as u64);
        assert_eq!(Some(neon::min_i8(&v)), scalar::min_i8(&v), "len {len}");
        assert_eq!(Some(neon::max_i8(&v)), scalar::max_i8(&v), "len {len}");
    }
    // Extremes only in the tail, only in a lane, and all equal to the identity.
    let mut v = vec![0i8; 37];
    v[36] = -128;
    v[3] = 127;
    assert_eq!(neon::min_i8(&v), -128);
    assert_eq!(neon::max_i8(&v), 127);
    assert_eq!(neon::min_i8(&[127; 20]), 127);
    assert_eq!(neon::max_i8(&[-128; 20]), -128);
}

#[test]
fn neon_count_zero_i8_matches_scalar() {
    for (i, &len) in LENGTHS.iter().enumerate() {
        let v: Vec<i8> = data_i8(len, 7 * i as u64).into_iter().map(|x| x % 3).collect();
        assert_eq!(neon::count_zero_i8(&v), scalar::count_zero_i8(&v), "len {len}");
    }
    assert_eq!(neon::count_zero_i8(&[0; 33]), 33);
}
