use lanes::bits::popcount_u8;
use lanes::kernels::id;
use lanes::scalar::{
    count_zero_i8, dot_i8, hamming_popcount, jaccard_counts, l1_norm_i8, max_abs_i8, max_i8,
    min_i8, squared_distance_i8, sum_i8, unsigned_abs_i8,
};
use lanes::wasm;

#[test]
fn scalar_hamming_popcount() {
    assert_eq!(hamming_popcount(&[], &[]), 0);
    assert_eq!(hamming_popcount(&[0b01], &[0b11]), 1);
    assert_eq!(hamming_popcount(&[0xFF; 4], &[0x00; 4]), 32);
    assert_eq!(hamming_popcount(&[0xAA, 0x55], &[0x55, 0xAA]), 16);
}

#[test]
fn scalar_jaccard_counts() {
    assert_eq!(jaccard_counts(&[], &[]), (0, 0));
    assert_eq!(jaccard_counts(&[0x00], &[0x00]), (0, 0));
    assert_eq!(jaccard_counts(&[0xFF], &[0xFF]), (8, 8));
    assert_eq!(jaccard_counts(&[0xF0], &[0x0F]), (0, 8));
    // AND = 0b0010_0010 (2), OR = 0b1110_1110 (6).
    assert_eq!(jaccard_counts(&[0b1010_1010], &[0b0110_0110]), (2, 6));
}

#[test]
fn scalar_dot_i8() {
    assert_eq!(dot_i8(&[], &[]), 0);
    assert_eq!(dot_i8(&[1, -2, 3, -4], &[5, 3, -1, -2]), 4);
    // Extremes need the i64 accumulator.
    assert_eq!(dot_i8(&[-128, 127], &[-128, 127]), 16384 + 16129);
    assert_eq!(dot_i8(&[7; 8], &[3; 8]), 168);
}

#[test]
fn scalar_sum_i8() {
    assert_eq!(sum_i8(&[]), 0);
    assert_eq!(sum_i8(&[1, -2, 3, -4]), -2);
    assert_eq!(sum_i8(&[127; 100]), 12700);
    assert_eq!(sum_i8(&[-128; 3]), -384);
}

#[test]
fn scalar_min_max_i8() {
    assert_eq!(min_i8(&[]), None);
    assert_eq!(max_i8(&[]), None);
    assert_eq!(min_i8(&[3, 1, 4]), Some(1));
    assert_eq!(max_i8(&[3, 1, 4]), Some(4));
    assert_eq!(min_i8(&[-128, 127]), Some(-128));
    assert_eq!(max_i8(&[-128, 127]), Some(127));
}

#[test]
fn scalar_count_zero_i8() {
    assert_eq!(count_zero_i8(&[]), 0);
    assert_eq!(count_zero_i8(&[0, 1, 0, -1, 0]), 3);
    assert_eq!(count_zero_i8(&[1, 2, 3]), 0);
}

#[test]
fn popcount_of_every_byte_matches_count_ones() {
    for x in 0..=255u8 {
        assert_eq!(popcount_u8(x), x.count_ones());
    }
}

#[test]
fn two_input_kernels_stop_at_the_shorter_input() {
    assert_eq!(hamming_popcount(&[0xFF, 0xFF, 0xFF], &[0x00]), 8);
    assert_eq!(jaccard_counts(&[0xFF], &[0x0F, 0xFF]), (4, 8));
    assert_eq!(dot_i8(&[2, 3, 4], &[5]), 10);
    assert_eq!(squared_distance_i8(&[1], &[4, 9, 9]), 9);
}

#[test]
fn union_is_hamming_plus_intersection_on_samples() {
    let a = [0b1010_1010u8, 0xFF, 0x00, 0x3C, 0x81];
    let b = [0b0110_0110u8, 0x0F, 0x00, 0xC3, 0x81];
    let (inter, uni) = jaccard_counts(&a, &b);
    assert_eq!(uni, hamming_popcount(&a, &b) + inter);
    assert!(inter <= uni);
    assert_eq!((inter, uni), (8, 24));
}

#[test]
fn hamming_is_symmetric_and_zero_on_self() {
    let a = [0x12u8, 0x34, 0x56, 0x78];
    let b = [0x9Au8, 0xBC, 0xDE, 0xF0];
    assert_eq!(hamming_popcount(&a, &b), hamming_popcount(&b, &a));
    assert_eq!(hamming_popcount(&a, &a), 0);
}

#[test]
fn dot_i8_is_symmetric() {
    let a = [1i8, -128, 127, 0, -7];
    let b = [-3i8, 127, -128, 9, 7];
    assert_eq!(dot_i8(&a, &b), dot_i8(&b, &a));
    assert_eq!(dot_i8(&a, &b), -3 - 16256 - 16256 + 0 - 49);
}

#[test]
fn max_abs_i8_counts_minus_128_as_128() {
    assert_eq!(max_abs_i8(&[]), None);
    assert_eq!(max_abs_i8(&[3, -7, 5]), Some(7));
    assert_eq!(max_abs_i8(&[127, -128]), Some(128));
    assert_eq!(max_abs_i8(&[0]), Some(0));
    assert_eq!(unsigned_abs_i8(-128), 128);
    assert_eq!(unsigned_abs_i8(-1), 1);
    assert_eq!(unsigned_abs_i8(127), 127);
}

#[test]
fn l1_norm_and_squared_distance_i8_exact_values() {
    assert_eq!(l1_norm_i8(&[]), 0);
    assert_eq!(l1_norm_i8(&[1, -2, 3, -128]), 134);
    assert_eq!(l1_norm_i8(&[-128; 1000]), 128_000);
    assert_eq!(squared_distance_i8(&[], &[]), 0);
    assert_eq!(squared_distance_i8(&[1, 2, 3], &[4, 6, 3]), 25);
    assert_eq!(squared_distance_i8(&[-128], &[127]), 65025);
    assert_eq!(squared_distance_i8(&[5, -5], &[5, -5]), 0);
}

#[test]
fn wasm_bare_value_kernels_match_scalar() {
    let v = [4i8, -9, 17, 0, -128, 100];
    assert_eq!(wasm::min_i8(&v), -128);
    assert_eq!(wasm::max_i8(&v), 100);
    assert_eq!(wasm::max_abs_i8(&v), 128);
    assert_eq!(wasm::min_i8(&[5]), 5);
    assert_eq!(wasm::max_abs_i8(&[-3, 2]), 3);
}

#[test]
fn id_returns_its_argument() {
    assert_eq!(id(42usize), 42);
    assert_eq!(id(Some(-3i8)), Some(-3));
}

#[test]
fn squared_distance_i8_is_symmetric_and_zero_on_self() {
    let a = [3i8, -128, 127, 0];
    let b = [-3i8, 127, -128, 5];
    assert_eq!(squared_distance_i8(&a, &b), squared_distance_i8(&b, &a));
    assert_eq!(squared_distance_i8(&a, &b), 36 + 65025 + 65025 + 25);
    assert_eq!(squared_distance_i8(&a, &a), 0);
}

#[test]
fn min_never_exceeds_max_and_both_within_max_abs() {
    let v = [12i8, -5, 99, -100, 0];
    let lo = min_i8(&v).unwrap();
    let hi = max_i8(&v).unwrap();
    let mag = max_abs_i8(&v).unwrap();
    assert!(lo <= hi);
    assert!(lo.unsigned_abs() <= mag && hi.unsigned_abs() <= mag);
    assert_eq!((lo, hi, mag), (-100, 99, 100));
}
