use jlox::number::{Number, Operation};

fn n(x: f64) -> Number {
    Number::from_bits(x.to_bits())
}

fn samples() -> Vec<f64> {
    vec![
        0.0,
        -0.0,
        1.0,
        -1.0,
        0.5,
        -0.5,
        2.0,
        7.0,
        1e300,
        -1e300,
        5e-324,
        -5e-324,
        f64::MIN_POSITIVE,
        f64::MAX,
        f64::MIN,
        f64::INFINITY,
        f64::NEG_INFINITY,
        f64::NAN,
        -f64::NAN,
        f64::from_bits(0x7ff0_0000_0000_0001),
        f64::from_bits(0xffff_ffff_ffff_ffff),
    ]
}

#[test]
fn bits_round_trip() {
    assert_eq!(n(1.0).to_bits(), 0x3ff0_0000_0000_0000);
    assert_eq!(Number::from_bits(5).bits, 5);
}

#[test]
fn order_is_that_of_the_host_doubles() {
    for a in samples() {
        for b in samples() {
            assert_eq!(n(a).less(n(b)), a < b, "{} < {}", a, b);
            assert_eq!(n(a).less_equal(n(b)), a <= b, "{} <= {}", a, b);
            assert_eq!(n(a).greater(n(b)), a > b, "{} > {}", a, b);
            assert_eq!(n(a).greater_equal(n(b)), a >= b, "{} >= {}", a, b);
            assert_eq!(n(a).equals(n(b)), a == b, "{} == {}", a, b);
        }
    }
}

#[test]
fn negation_is_that_of_the_host_doubles() {
    for a in samples() {
        assert_eq!(n(a).negate().to_bits(), (-a).to_bits());
    }
}

#[test]
fn classification_is_that_of_the_host_doubles() {
    for a in samples() {
        assert_eq!(n(a).is_nan(), a.is_nan());
        assert_eq!(n(a).is_negative(), a.is_sign_negative());
    }
}

#[test]
fn zeros_are_equal_and_a_nan_equals_nothing() {
    assert!(n(0.0).equals(n(-0.0)));
    assert!(!n(0.0).less(n(-0.0)));
    assert!(n(0.0).less_equal(n(-0.0)));
    assert!(!n(f64::NAN).equals(n(f64::NAN)));
    assert!(!n(f64::NAN).less_equal(n(f64::NAN)));
}

#[test]
fn operations_are_distinct() {
    assert_ne!(Operation::Add, Operation::Subtract);
    assert_ne!(Operation::Multiply, Operation::Divide);
}
