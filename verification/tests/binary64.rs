use python_calamine::binary64::Binary64;

fn number(x: f64) -> Binary64 {
    Binary64::from_bits(x.to_bits())
}

#[test]
fn whole_number_converts_exactly() {
    assert_eq!(number(42.0).to_integer(), Some(42));
    assert_eq!(number(-3.0).to_integer(), Some(-3));
    assert_eq!(number(1.0).to_integer(), Some(1));
    assert_eq!(number(9007199254740992.0).to_integer(), Some(9007199254740992));
    assert_eq!(number(9007199254740994.0).to_integer(), Some(9007199254740994));
}

#[test]
fn fraction_does_not_convert() {
    assert_eq!(number(1.5).to_integer(), None);
    assert_eq!(number(0.1).to_integer(), None);
    assert_eq!(number(-2.25).to_integer(), None);
    assert_eq!(number(4503599627370496.5).to_integer(), Some(4503599627370496));
    assert_eq!(number(4503599627370495.5).to_integer(), None);
}

#[test]
fn both_zeros_are_zero() {
    assert_eq!(number(0.0).to_integer(), Some(0));
    assert_eq!(number(-0.0).to_integer(), Some(0));
}

#[test]
fn infinities_and_nan_do_not_convert() {
    assert_eq!(number(f64::INFINITY).to_integer(), None);
    assert_eq!(number(f64::NEG_INFINITY).to_integer(), None);
    assert_eq!(number(f64::NAN).to_integer(), None);
    assert!(!number(f64::NAN).is_finite());
    assert!(!number(f64::INFINITY).is_finite());
    assert!(number(f64::MAX).is_finite());
    assert!(number(0.0).is_finite());
}

#[test]
fn subnormal_does_not_convert() {
    assert_eq!(Binary64::from_bits(1).to_integer(), None);
    assert_eq!(number(f64::MIN_POSITIVE).to_integer(), None);
}

#[test]
fn range_of_i64_is_kept() {
    assert_eq!(number(9223372036854775808.0).to_integer(), None);
    assert_eq!(number(-9223372036854775808.0).to_integer(), Some(i64::MIN));
    assert_eq!(number(9223372036854774784.0).to_integer(), Some(9223372036854774784));
    assert_eq!(number(-9223372036854777856.0).to_integer(), None);
    assert_eq!(number(1e300).to_integer(), None);
    assert_eq!(number(f64::MAX).to_integer(), None);
}

#[test]
fn bits_are_kept() {
    assert_eq!(Binary64::from_bits(0x3ff8000000000000).to_bits(), 0x3ff8000000000000);
    assert_eq!(number(1.5).to_bits(), 0x3ff8000000000000);
    assert_ne!(number(0.0), number(-0.0));
}

#[test]
fn integer_becomes_the_number_of_its_value() {
    assert_eq!(Binary64::from_integer(0), Some(Binary64 { bits: 0 }));
    assert_eq!(Binary64::from_integer(1), Some(number(1.0)));
    assert_eq!(Binary64::from_integer(-3), Some(number(-3.0)));
    assert_eq!(Binary64::from_integer(42), Some(number(42.0)));
    assert_eq!(Binary64::from_integer(9007199254740992), Some(number(9007199254740992.0)));
    assert_eq!(Binary64::from_integer(9007199254740994), Some(number(9007199254740994.0)));
    assert_eq!(Binary64::from_integer(i64::MIN), Some(number(-9223372036854775808.0)));
    assert_eq!(Binary64::from_integer(4611686018427387904), Some(number(4611686018427387904.0)));
}

#[test]
fn integer_with_too_many_bits_has_no_number() {
    assert_eq!(Binary64::from_integer(9007199254740993), None);
    assert_eq!(Binary64::from_integer(-9007199254740993), None);
    assert_eq!(Binary64::from_integer(i64::MAX), None);
    assert_eq!(Binary64::from_integer(i64::MIN + 1), None);
}

#[test]
fn integer_and_number_round_trip() {
    let mut i: i64 = -5000;
    while i <= 5000 {
        let x = Binary64::from_integer(i).unwrap();
        assert_eq!(x, number(i as f64));
        assert_eq!(x.to_integer(), Some(i));
        i += 1;
    }
    let mut shift = 0;
    while shift < 63 {
        let i = 1i64 << shift;
        assert_eq!(Binary64::from_integer(i).unwrap().to_integer(), Some(i));
        assert_eq!(Binary64::from_integer(-i).unwrap().to_integer(), Some(-i));
        shift += 1;
    }
}

#[test]
fn product_is_rounded_to_the_nearest() {
    assert_eq!(number(0.5).times_rounded(86_400_000), Some(43_200_000));
    assert_eq!(number(0.1).times_rounded(86_400_000), Some(8_640_000));
    assert_eq!(number(45306.5).times_rounded(86_400_000), Some(3_914_481_600_000));
    assert_eq!(number(-1.5).times_rounded(86_400_000), Some(-129_600_000));
    assert_eq!(number(1.0 / 3.0).times_rounded(86_400_000), Some(28_800_000));
    assert_eq!(number(3.0).times_rounded(7), Some(21));
    assert_eq!(number(0.0).times_rounded(86_400_000), Some(0));
    assert_eq!(number(-0.0).times_rounded(86_400_000), Some(0));
    assert_eq!(number(123.0).times_rounded(0), Some(0));
    assert_eq!(Binary64::from_bits(1).times_rounded(86_400_000), Some(0));
}

#[test]
fn half_is_rounded_away_from_zero() {
    assert_eq!(number(0.5).times_rounded(1), Some(1));
    assert_eq!(number(-0.5).times_rounded(1), Some(-1));
    assert_eq!(number(1.5).times_rounded(1), Some(2));
    assert_eq!(number(2.5).times_rounded(1), Some(3));
    assert_eq!(number(-2.5).times_rounded(1), Some(-3));
    assert_eq!(number(0.25).times_rounded(2), Some(1));
    assert_eq!(number(0.49999999999999994).times_rounded(1), Some(0));
    assert_eq!(number(0.4).times_rounded(1), Some(0));
    assert_eq!(number(0.6).times_rounded(1), Some(1));
}

#[test]
fn product_out_of_range_is_none() {
    assert_eq!(number(1e300).times_rounded(86_400_000), None);
    assert_eq!(number(f64::NAN).times_rounded(86_400_000), None);
    assert_eq!(number(f64::INFINITY).times_rounded(1), None);
    assert_eq!(number(9223372036854775808.0).times_rounded(1), None);
    assert_eq!(number(-9223372036854775808.0).times_rounded(1), Some(i64::MIN));
    assert_eq!(number(4611686018427387904.0).times_rounded(2), None);
    assert_eq!(number(-4611686018427387904.0).times_rounded(2), Some(i64::MIN));
    assert_eq!(number(4611686018427387904.0).times_rounded(1), Some(4611686018427387904));
    assert_eq!(number(106751991167.0).times_rounded(86_400_000), Some(9223372036828800000));
    assert_eq!(number(106751991168.0).times_rounded(86_400_000), None);
}

#[test]
fn product_agrees_with_float_arithmetic() {
    let days = [0.0, 1.0, 59.0, 60.0, 61.0, 44927.25, 44927.75, 2958465.999, -17.125, 0.000011574];
    for d in days {
        let expected = (d * 86_400_000.0f64).round() as i64;
        assert_eq!(number(d).times_rounded(86_400_000), Some(expected));
    }
}
