use boids::fixed::{ceil_sqrt_u128, div_toward_zero, product_exceeds, ONE};

#[test]
fn one_is_a_thousand() {
    assert_eq!(ONE, 1000);
}

#[test]
fn division_rounds_toward_zero() {
    assert_eq!(div_toward_zero(7, 2), 3);
    assert_eq!(div_toward_zero(-7, 2), -3);
    assert_eq!(div_toward_zero(-1, 1000), 0);
    assert_eq!(div_toward_zero(999, 1000), 0);
    assert_eq!(div_toward_zero(-3000, 1000), -3);
    assert_eq!(div_toward_zero(0, 5), 0);
}

#[test]
fn square_root_rounds_up() {
    assert_eq!(ceil_sqrt_u128(0), 0);
    assert_eq!(ceil_sqrt_u128(1), 1);
    assert_eq!(ceil_sqrt_u128(2), 2);
    assert_eq!(ceil_sqrt_u128(4), 2);
    assert_eq!(ceil_sqrt_u128(5), 3);
    assert_eq!(ceil_sqrt_u128(25), 5);
    assert_eq!(ceil_sqrt_u128(26), 6);
    assert_eq!(ceil_sqrt_u128(1_000_000), 1000);
    assert_eq!(ceil_sqrt_u128(1_000_001), 1001);
}

#[test]
fn square_root_of_the_largest_values() {
    let top: u128 = u64::MAX as u128;
    assert_eq!(ceil_sqrt_u128(top * top), top);
    assert_eq!(ceil_sqrt_u128(top * top + 1), top + 1);
    assert_eq!(ceil_sqrt_u128(u128::MAX), top + 1);
    assert_eq!(ceil_sqrt_u128(top * top - 1), top);
    assert_eq!(ceil_sqrt_u128((top - 1) * (top - 1) + 1), top);
}

#[test]
fn products_are_compared_beyond_128_bits() {
    assert!(product_exceeds(3, 4, 5, 2));
    assert!(!product_exceeds(3, 4, 6, 2));
    assert!(!product_exceeds(3, 4, 7, 2));
    assert!(product_exceeds(u128::MAX, u64::MAX, u128::MAX, u64::MAX - 1));
    assert!(!product_exceeds(u128::MAX, u64::MAX - 1, u128::MAX, u64::MAX));
    assert!(!product_exceeds(u128::MAX, u64::MAX, u128::MAX, u64::MAX));
    assert!(product_exceeds(1 << 100, 1 << 40, (1 << 100) - 1, 1 << 40));
    assert!(!product_exceeds(0, u64::MAX, 0, 0));
    assert!(product_exceeds(1, 1, u128::MAX, 0));
    // 2^127 * 6 against (2^128 - 1) * 3: the first is larger by 3
    assert!(product_exceeds(1 << 127, 6, u128::MAX, 3));
    assert!(!product_exceeds(u128::MAX, 3, 1 << 127, 6));
}
