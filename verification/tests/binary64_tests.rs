use cargo_health::binary64::{nearest_u128, scaled_tenths};
use cargo_health::decimal::decimal_string;

fn float_parts(f: f64) -> (u128, i32) {
    let bits = f.to_bits();
    let biased = ((bits >> 52) & 0x7ff) as i32;
    let mantissa = (bits & ((1u64 << 52) - 1)) | (1u64 << 52);
    (mantissa as u128, biased - 1075)
}

fn normalized(r: (u128, i32)) -> (u128, i32) {
    if r.0 == 1u128 << 53 {
        (r.0 / 2, r.1 + 1)
    } else {
        r
    }
}

#[test]
fn nearest_agrees_with_float_division() {
    let mut x: u64 = 0x2545_F491_4F6C_DD1D;
    for _ in 0..100_000 {
        x ^= x << 13;
        x ^= x >> 7;
        x ^= x << 17;
        let b = (x >> 44) | 1;
        let a = b + ((x >> 11) & ((1u64 << 53) - 1)) % (1u64 << 40);
        let expected = float_parts(a as f64 / b as f64);
        assert_eq!(normalized(nearest_u128(a as u128, b as u128)), expected, "a = {}, b = {}", a, b);
    }
}

#[test]
fn nearest_of_an_integer_is_the_integer_conversion() {
    for a in [1u64, 2, 3, 1000, (1 << 53) - 1, 1 << 53, (1 << 53) + 1, (1 << 53) + 3, u64::MAX] {
        assert_eq!(normalized(nearest_u128(a as u128, 1)), float_parts(a as f64), "a = {}", a);
    }
}

#[test]
fn nearest_exact_values() {
    assert_eq!(nearest_u128(1, 1), (1u128 << 52, -52));
    assert_eq!(nearest_u128(3, 1), (3u128 << 51, -51));
    // 4/3 has no exact binary64 value: its mantissa is rounded.
    assert_eq!(nearest_u128(4, 3), (6004799503160661, -52));
}

#[test]
fn scaled_tenths_values() {
    assert_eq!(scaled_tenths(1_000, 1_000), 10);
    assert_eq!(scaled_tenths(15_500, 1_000), 155);
    assert_eq!(scaled_tenths(1_050, 1_000), 11);
    assert_eq!(scaled_tenths(1_150, 1_000), 11);
    assert_eq!(scaled_tenths(2_500_000, 1_000_000), 25);
    assert_eq!(scaled_tenths(u64::MAX, 1_000_000), 184_467_440_737_096);
}

#[test]
fn decimal_text() {
    assert_eq!(decimal_string(0), "0");
    assert_eq!(decimal_string(7), "7");
    assert_eq!(decimal_string(10), "10");
    assert_eq!(decimal_string(1_234_567_890), "1234567890");
    assert_eq!(decimal_string(u64::MAX), u64::MAX.to_string());
}
