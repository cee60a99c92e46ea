use job_matching::decimal::{parse_decimal_micro, ParseNumberError};

#[test]
fn parses_plain_integer() {
    assert_eq!(parse_decimal_micro("15"), Ok(15_000_000));
}

#[test]
fn parses_fraction() {
    assert_eq!(parse_decimal_micro("16.50"), Ok(16_500_000));
}

#[test]
fn parses_negative() {
    assert_eq!(parse_decimal_micro("-2.5"), Ok(-2_500_000));
}

#[test]
fn parses_trailing_point() {
    assert_eq!(parse_decimal_micro("5."), Ok(5_000_000));
}

#[test]
fn truncates_beyond_six_fraction_digits() {
    assert_eq!(parse_decimal_micro("1.2345678"), Ok(1_234_567));
}

#[test]
fn rejects_words() {
    assert_eq!(
        parse_decimal_micro("abc"),
        Err(ParseNumberError::NotANumber)
    );
}

#[test]
fn rejects_empty_and_lone_signs() {
    assert_eq!(parse_decimal_micro(""), Err(ParseNumberError::NotANumber));
    assert_eq!(parse_decimal_micro("-"), Err(ParseNumberError::NotANumber));
    assert_eq!(parse_decimal_micro(".5"), Err(ParseNumberError::NotANumber));
}

#[test]
fn rejects_second_decimal_point() {
    assert_eq!(
        parse_decimal_micro("1.2.3"),
        Err(ParseNumberError::NotANumber)
    );
}

#[test]
fn rejects_out_of_range() {
    assert_eq!(
        parse_decimal_micro("99999999999999999999"),
        Err(ParseNumberError::OutOfRange)
    );
}
