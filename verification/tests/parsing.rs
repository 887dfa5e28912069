use beepee::fraction::Fraction;
use beepee::numerism::{parse_decimal, parse_i32, parse_i64, IntParseError, ParseRationalError};

fn test(num: i32, den: i32, strung: &str) {
    assert_eq!(Fraction::new(num, den), parse_decimal(strung).unwrap())
}

#[test]
fn r32_from_integer() {
    test(120, 1, "120");
    test(0, 1, "0");
    test(-42, 1, "-42");
}

#[test]
fn r32_from_trailing_dot() {
    test(120, 1, "120.");
    test(0, 1, "0.");
    test(-42, 1, "-42.");
}

#[test]
fn r32_from_initial_dot() {
    test(3, 25, ".120");
    test(0, 1, ".0");
    test(-21, 50, "-.42");
}

#[test]
fn r32_from_mid_dot() {
    test(6, 5, "1.20");
    test(0, 1, "0.0");
    test(-21, 5, "-4.2");
}

#[test]
fn parse_decimal_is_canonical() {
    let f = parse_decimal(".120").unwrap();
    assert_eq!(f.numer(), 3);
    assert_eq!(f.denom(), 25);
    let g = parse_decimal("-4.2").unwrap();
    assert_eq!(g.numer(), -21);
    assert_eq!(g.denom(), 5);
}

#[test]
fn parse_decimal_rejects_two_dots() {
    assert_eq!(
        parse_decimal("1.2.3"),
        Err(ParseRationalError::MoreThanOneDot(1, 3))
    );
}

#[test]
fn parse_decimal_rejects_foreign_character() {
    assert_eq!(
        parse_decimal("12a"),
        Err(ParseRationalError::UnexpectedCharacter(2, 'a'))
    );
}

#[test]
fn parse_decimal_rejects_empty() {
    assert_eq!(
        parse_decimal(""),
        Err(ParseRationalError::ErrorParsingMantissa(IntParseError::Empty))
    );
}

#[test]
fn parse_decimal_rejects_lone_minus() {
    assert_eq!(
        parse_decimal("-"),
        Err(ParseRationalError::ErrorParsingMantissa(
            IntParseError::InvalidCharacter
        ))
    );
    assert_eq!(
        parse_decimal("-."),
        Err(ParseRationalError::ErrorParsingMantissa(
            IntParseError::InvalidCharacter
        ))
    );
}

#[test]
fn parse_decimal_rejects_mantissa_overflow() {
    assert_eq!(
        parse_decimal("99999999999"),
        Err(ParseRationalError::ErrorParsingMantissa(
            IntParseError::OutOfRange
        ))
    );
}

#[test]
fn parse_decimal_rejects_denominator_overflow() {
    // ten fractional digits would need a denominator of ten billion
    assert_eq!(
        parse_decimal("0.0000000001"),
        Err(ParseRationalError::DenominatorTooLarge)
    );
    // nine fractional digits still fit
    let f = parse_decimal("0.000000001").unwrap();
    assert_eq!(f.numer(), 1);
    assert_eq!(f.denom(), 1_000_000_000);
}

#[test]
fn parse_i32_boundaries() {
    assert_eq!(parse_i32("2147483647"), Ok(2147483647));
    assert_eq!(parse_i32("-2147483648"), Ok(-2147483648));
    assert_eq!(parse_i32("2147483648"), Err(IntParseError::OutOfRange));
    assert_eq!(parse_i32("-2147483649"), Err(IntParseError::OutOfRange));
    assert_eq!(parse_i32(""), Err(IntParseError::Empty));
    assert_eq!(parse_i32("1x"), Err(IntParseError::InvalidCharacter));
}

#[test]
fn parse_i64_boundaries() {
    assert_eq!(parse_i64("9223372036854775807"), Ok(9223372036854775807));
    assert_eq!(parse_i64("-9223372036854775808"), Ok(-9223372036854775808));
    assert_eq!(
        parse_i64("9223372036854775808"),
        Err(IntParseError::OutOfRange)
    );
    assert_eq!(
        parse_i64("-9223372036854775809"),
        Err(IntParseError::OutOfRange)
    );
    assert_eq!(parse_i64("17"), Ok(17));
}
