use ts_enum::number::Number;

fn number(value: f64) -> Number {
    Number { bits: value.to_bits() }
}

fn assert_adds_one(value: f64) {
    let sum = number(value).add_one();
    assert_eq!(sum.bits, (value + 1.0).to_bits(), "{value:e}");
}

#[test]
fn minus_one_plus_one_is_positive_zero() {
    assert_eq!(Number::minus_one().add_one(), Number::zero());
    assert_eq!(Number::zero().bits, 0.0f64.to_bits());
    assert_eq!(Number::minus_one().bits, (-1.0f64).to_bits());
    assert_eq!(Number::one().bits, 1.0f64.to_bits());
}

#[test]
fn integers_count_up() {
    for value in -1000i32..1000 {
        assert_eq!(number(f64::from(value)).add_one(), number(f64::from(value + 1)));
    }
    assert_eq!(number(9007199254740991.0).add_one(), number(9007199254740992.0));
    assert_eq!(number(-9007199254740992.0).add_one(), number(-9007199254740991.0));
}

#[test]
fn large_numbers_round_to_even() {
    // 2^53 + 1 lies between two numbers.
    assert_eq!(number(9007199254740992.0).add_one(), number(9007199254740992.0));
    assert_eq!(number(9007199254740994.0).add_one(), number(9007199254740996.0));
    assert_adds_one(1.8014398509481984e16);
    assert_adds_one(1.8014398509481988e16);
    assert_adds_one(-1.8014398509481984e16);
    assert_adds_one(f64::MAX);
    assert_adds_one(f64::MIN);
}

#[test]
fn fractions_are_added_exactly_or_rounded() {
    for value in [
        0.1,
        -0.1,
        0.5,
        -0.5,
        1.5,
        -1.5,
        -0.9999999999999999,
        -1.0000000000000002,
        1e-16,
        1.1102230246251565e-16,
        1.1102230246251568e-16,
        -1.1102230246251565e-16,
        -5.551115123125783e-17,
        5e-324,
        -5e-324,
        2.2250738585072014e-308,
        123456789.987654321,
        -4503599627370495.5,
        4503599627370495.5,
    ] {
        assert_adds_one(value);
    }
    assert_adds_one(0.0);
    assert_adds_one(-0.0);
}

#[test]
fn sums_agree_with_the_hardware() {
    // A fixed sequence of patterns of all sizes.
    let mut bits: u64 = 0x9e37_79b9_7f4a_7c15;
    for _ in 0..100_000 {
        bits ^= bits << 13;
        bits ^= bits >> 7;
        bits ^= bits << 17;
        if !f64::from_bits(bits).is_nan() {
            assert_adds_one(f64::from_bits(bits));
        }
        // The same fraction with an exponent near that of one.
        let near = (bits & 0x800f_ffff_ffff_ffff) | ((960 + bits % 130) << 52);
        assert_adds_one(f64::from_bits(near));
    }
}

#[test]
fn infinities_and_nan_stay() {
    assert_eq!(number(f64::INFINITY).add_one(), number(f64::INFINITY));
    assert_eq!(number(f64::NEG_INFINITY).add_one(), number(f64::NEG_INFINITY));
    let nan = number(f64::NAN).add_one();
    assert!(f64::from_bits(nan.bits).is_nan());
    // A signalling NaN becomes quiet.
    assert_eq!(Number { bits: 0x7ff0_0000_0000_0001 }.add_one().bits, 0x7ff8_0000_0000_0001);
}

#[test]
fn signs_and_infinities_are_told_apart() {
    assert!(number(-1.0).is_negative());
    assert!(number(f64::NEG_INFINITY).is_negative());
    assert!(!number(-0.0).is_negative());
    assert!(!number(0.0).is_negative());
    assert!(!number(-f64::NAN).is_negative());
    assert!(number(f64::INFINITY).is_infinite());
    assert!(number(f64::NEG_INFINITY).is_infinite());
    assert!(!number(f64::MAX).is_infinite());
    assert!(!number(f64::NAN).is_infinite());
    assert_eq!(number(-2.5).negate(), number(2.5));
    assert_eq!(number(2.5).negate(), number(-2.5));
}
