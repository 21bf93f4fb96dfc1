use ccbenchmark::binary64::{is_missing, HUNDRED, NAN, ONE};

#[test]
fn named_patterns_are_the_numbers() {
    assert!(f64::from_bits(NAN).is_nan());
    assert_eq!(NAN, f64::NAN.to_bits());
    assert_eq!(ONE, 1.0f64.to_bits());
    assert_eq!(HUNDRED, 100.0f64.to_bits());
}

#[test]
fn every_nan_is_missing() {
    assert!(is_missing(f64::NAN.to_bits()));
    assert!(is_missing((-f64::NAN).to_bits()));
    assert!(is_missing(0x7ff0_0000_0000_0001));
    assert!(is_missing(0xfff0_0000_0000_0001));
    assert!(is_missing(0x7fff_ffff_ffff_ffff));
    assert!(is_missing(0xffff_ffff_ffff_ffff));
}

#[test]
fn numbers_and_infinities_are_not_missing() {
    for value in [
        0.0,
        -0.0,
        1.0,
        -1.0,
        f64::MIN_POSITIVE,
        f64::MAX,
        f64::MIN,
        f64::EPSILON,
        5e-324,
        f64::INFINITY,
        f64::NEG_INFINITY,
    ] {
        assert!(!is_missing(value.to_bits()), "{}", value);
        assert_eq!(is_missing(value.to_bits()), value.is_nan());
    }
}
