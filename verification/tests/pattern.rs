use pattern_fit::error::FitError;
use pattern_fit::fmt::formatters::{Unicode, ASCII};
use pattern_fit::fmt::FmtAble;
use pattern_fit::pattern::{find_pattern, Pattern};
use pattern_fit::rational::RationalNumber;
use pattern_fit::user_input::{parse_pattern, FromStrErr};
use pattern_fit::util::as_ratios;

#[test]
fn a_sequence_has_its_polynomial() {
    let found = find_pattern(&as_ratios(vec![0, 1, 4, 9])).unwrap();
    assert!(matches!(found, Pattern::Polynomial(_)));
    assert_eq!(found.format(&ASCII), "x^2");
}

#[test]
fn powers_of_two_are_found_as_a_polynomial_first() {
    let found = find_pattern(&as_ratios(vec![1, 2, 4])).unwrap();
    assert!(matches!(found, Pattern::Polynomial(_)));
    assert_eq!(found.format(&ASCII), "(1/2)x^2+(1/2)x+1");
}

#[test]
fn too_few_samples_have_no_pattern() {
    assert_eq!(find_pattern(&as_ratios(vec![])).unwrap_err(), FitError::NoPatternFound);
    assert_eq!(find_pattern(&as_ratios(vec![3])).unwrap_err(), FitError::NoPatternFound);
}

#[test]
fn a_line_of_numbers_is_read_in_order() {
    let numbers = parse_pattern("1, 2.5 ,-3/4, 1 1/2").unwrap();
    assert_eq!(
        numbers,
        vec![
            RationalNumber::from_integer(1),
            RationalNumber::new(5, 2).unwrap(),
            RationalNumber::new(-3, 4).unwrap(),
            RationalNumber::new(3, 2).unwrap(),
        ]
    );
}

#[test]
fn a_line_without_comma_is_one_number() {
    assert_eq!(parse_pattern(" 7 ").unwrap(), vec![RationalNumber::from_integer(7)]);
}

#[test]
fn the_first_piece_that_is_no_number_is_reported() {
    assert_eq!(parse_pattern("1, two, 3, four"), Err(FromStrErr::ParseError(" two".to_string())));
    assert_eq!(parse_pattern("1,,3"), Err(FromStrErr::ParseError("".to_string())));
    assert_eq!(parse_pattern(""), Err(FromStrErr::ParseError("".to_string())));
    assert_eq!(parse_pattern("1,2,"), Err(FromStrErr::ParseError("".to_string())));
    assert_eq!(parse_pattern("1/0, x"), Err(FromStrErr::InvalidNumber));
}

#[test]
fn from_text_to_formula() {
    let numbers = parse_pattern("0, 0, 0, 6, 24").unwrap();
    let found = find_pattern(&numbers).unwrap();
    assert_eq!(found.format(&ASCII), "x^3-3x^2+2x");
    assert_eq!(
        found.format(&Unicode),
        "\u{1d465}\u{b3}-3\u{1d465}\u{b2}+2\u{1d465}"
    );
}
