use beepee::codec::{decode_fraction_exact, encode_fraction_exact, format_fraction_display, DecodeError};
use beepee::fraction::Fraction;
use beepee::numerism::IntParseError;

#[test]
fn encode_shows_numerator_and_denominator() {
    assert_eq!(encode_fraction_exact(&Fraction::new(6, 5)), "6/5");
    assert_eq!(encode_fraction_exact(&Fraction::new(-21, 50)), "-21/50");
    assert_eq!(encode_fraction_exact(&Fraction::new(120, 1)), "120/1");
    assert_eq!(encode_fraction_exact(&Fraction::new(0, 7)), "0/1");
}

#[test]
fn decode_reads_both_forms() {
    assert_eq!(decode_fraction_exact("6/5"), Ok(Fraction::new(6, 5)));
    assert_eq!(decode_fraction_exact("120"), Ok(Fraction::new(120, 1)));
    assert_eq!(decode_fraction_exact("-21/50"), Ok(Fraction::new(-21, 50)));
}

#[test]
fn decode_normalizes() {
    // a negative denominator moves the sign, and terms reduce
    let f = decode_fraction_exact("1/-2").unwrap();
    assert_eq!(f.numer(), -1);
    assert_eq!(f.denom(), 2);
    let g = decode_fraction_exact("120/1000").unwrap();
    assert_eq!(g.numer(), 3);
    assert_eq!(g.denom(), 25);
}

#[test]
fn decode_rejects_zero_denominator() {
    assert_eq!(decode_fraction_exact("1/0"), Err(DecodeError::ZeroDenominator));
}

#[test]
fn decode_rejects_malformed_parts() {
    assert_eq!(
        decode_fraction_exact("a/2"),
        Err(DecodeError::InvalidNumerator(IntParseError::InvalidCharacter))
    );
    assert_eq!(
        decode_fraction_exact("1/b"),
        Err(DecodeError::InvalidDenominator(IntParseError::InvalidCharacter))
    );
    assert_eq!(
        decode_fraction_exact("x"),
        Err(DecodeError::InvalidLoneNumerator(IntParseError::InvalidCharacter))
    );
    assert_eq!(
        decode_fraction_exact(""),
        Err(DecodeError::InvalidLoneNumerator(IntParseError::Empty))
    );
}

#[test]
fn decode_rejects_unreducible_extreme() {
    // the canonical form of -2147483648/-1 would be 2147483648/1
    assert_eq!(
        decode_fraction_exact("-2147483648/-1"),
        Err(DecodeError::OutOfRange)
    );
}

#[test]
fn round_trip_exact_values() {
    let cases = [
        Fraction::new(6, 5),
        Fraction::new(-21, 50),
        Fraction::new(0, 3),
        Fraction::new(120, 1),
        Fraction::new(1120, 49),
        Fraction::new(i32::MIN, 1),
        Fraction::new(i32::MAX, 7),
    ];
    for f in cases {
        assert_eq!(decode_fraction_exact(&encode_fraction_exact(&f)), Ok(f));
    }
}

#[test]
fn display_fixed_digits() {
    // 1120/49 = 22.857142857...
    let bmi = Fraction::new(1120, 49);
    assert_eq!(format_fraction_display(&bmi, Some(2)), "22.86");
    assert_eq!(format_fraction_display(&bmi, Some(0)), "23");
    assert_eq!(format_fraction_display(&Fraction::new(180, 1), Some(2)), "180.00");
    assert_eq!(format_fraction_display(&Fraction::new(-21, 50), Some(1)), "-0.4");
    assert_eq!(format_fraction_display(&Fraction::new(0, 1), Some(2)), "0.00");
}

#[test]
fn display_rounds_half_away_from_zero() {
    assert_eq!(format_fraction_display(&Fraction::new(1, 8), Some(2)), "0.13");
    assert_eq!(format_fraction_display(&Fraction::new(-1, 8), Some(2)), "-0.13");
    assert_eq!(format_fraction_display(&Fraction::new(5, 100), Some(1)), "0.1");
}

#[test]
fn display_without_digit_count_trims() {
    assert_eq!(format_fraction_display(&Fraction::new(180, 1), None), "180");
    assert_eq!(format_fraction_display(&Fraction::new(1, 4), None), "0.25");
    assert_eq!(format_fraction_display(&Fraction::new(-21, 50), None), "-0.42");
    // a repeating expansion is cut and rounded at nine digits
    assert_eq!(format_fraction_display(&Fraction::new(1, 3), None), "0.333333333");
    assert_eq!(format_fraction_display(&Fraction::new(2, 3), None), "0.666666667");
}
