use avl_interval_tree::coordinate::{bits_from_key, key_from_bits, SIGN_BIT};

fn key(x: f64) -> i64 {
    key_from_bits(x.to_bits())
}

fn number(key: i64) -> f64 {
    f64::from_bits(bits_from_key(key).unwrap())
}

#[test]
fn key_of_patterns_without_sign_is_the_pattern() {
    assert_eq!(key_from_bits(0), 0);
    assert_eq!(key_from_bits(1), 1);
    assert_eq!(key_from_bits(0x7fff_ffff_ffff_ffff), i64::MAX);
}

#[test]
fn key_of_patterns_with_sign_is_minus_the_magnitude() {
    assert_eq!(key_from_bits(SIGN_BIT), 0);
    assert_eq!(key_from_bits(SIGN_BIT + 1), -1);
    assert_eq!(key_from_bits(SIGN_BIT + 25), -25);
    assert_eq!(key_from_bits(u64::MAX), -i64::MAX);
}

#[test]
fn bits_of_keys() {
    assert_eq!(bits_from_key(0), Some(0));
    assert_eq!(bits_from_key(1), Some(1));
    assert_eq!(bits_from_key(i64::MAX), Some(0x7fff_ffff_ffff_ffff));
    assert_eq!(bits_from_key(-1), Some(SIGN_BIT + 1));
    assert_eq!(bits_from_key(-25), Some(SIGN_BIT + 25));
    assert_eq!(bits_from_key(-i64::MAX), Some(u64::MAX));
}

#[test]
fn the_least_integer_has_no_bits() {
    assert_eq!(bits_from_key(i64::MIN), None);
}

#[test]
fn both_zeros_have_key_zero() {
    assert_eq!(key(0.0), 0);
    assert_eq!(key(-0.0), 0);
    assert_eq!(number(0).to_bits(), 0.0f64.to_bits());
}

#[test]
fn keys_come_back_as_the_same_number() {
    let samples = [
        1.5,
        -1.5,
        3.2,
        1e300,
        -1e300,
        1e-300,
        -1e-300,
        f64::MAX,
        f64::MIN,
        f64::MIN_POSITIVE,
        f64::INFINITY,
        f64::NEG_INFINITY,
        5e-324,
        -5e-324,
    ];
    for x in samples {
        assert_eq!(number(key(x)), x);
        assert_eq!(number(key(x)).to_bits(), x.to_bits());
    }
}

#[test]
fn keys_order_as_the_numbers_do() {
    let samples = [
        f64::NEG_INFINITY,
        f64::MIN,
        -1e300,
        -12.75,
        -1.5,
        -1.0,
        -1e-300,
        -5e-324,
        -0.0,
        0.0,
        5e-324,
        f64::MIN_POSITIVE,
        1e-300,
        0.5,
        1.0,
        1.5,
        2.1,
        3.2,
        10.4,
        1e300,
        f64::MAX,
        f64::INFINITY,
    ];
    for a in samples {
        for b in samples {
            assert_eq!(key(a) < key(b), a < b, "{} < {}", a, b);
            assert_eq!(key(a) <= key(b), a <= b, "{} <= {}", a, b);
            assert_eq!(key(a) == key(b), a == b, "{} == {}", a, b);
        }
    }
}
