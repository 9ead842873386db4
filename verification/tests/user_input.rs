use pattern_fit::rational::RationalNumber;
use pattern_fit::user_input::{parse, FromStrErr};

#[test]
fn whole_number() {
    assert_eq!(parse("2").unwrap(), RationalNumber::from_integer(2));
}

#[test]
fn decimal() {
    assert_eq!(parse("1.3").unwrap(), RationalNumber::new(13, 10).unwrap());
}

#[test]
fn fraction() {
    assert_eq!(parse("1 / 2").unwrap(), RationalNumber::new(1, 2).unwrap());
}

#[test]
fn mixed_number() {
    assert_eq!(parse("1 1/2").unwrap(), RationalNumber::new(3, 2).unwrap());
}

#[test]
fn negative() {
    assert_eq!(parse("-2").unwrap(), RationalNumber::from_integer(-2));
}

#[test]
fn negative_decimal() {
    assert_eq!(parse("-1.3").unwrap(), RationalNumber::new(-13, 10).unwrap());
}

#[test]
fn negative_fraction() {
    assert_eq!(parse("-1 / 2").unwrap(), RationalNumber::new(-1, 2).unwrap());
}

#[test]
fn negative_mixed_number() {
    assert_eq!(parse("-1 1/2").unwrap(), RationalNumber::new(-3, 2).unwrap());
}

#[test]
fn surrounding_white_space_is_ignored() {
    assert_eq!(parse("  42\t\n").unwrap(), RationalNumber::from_integer(42));
    assert_eq!(parse(" 3/4 ").unwrap(), RationalNumber::new(3, 4).unwrap());
}

#[test]
fn decimal_without_integer_part() {
    assert_eq!(parse(".5").unwrap(), RationalNumber::new(1, 2).unwrap());
    assert_eq!(parse("-.25").unwrap(), RationalNumber::new(-1, 4).unwrap());
}

#[test]
fn decimal_digits_go_over_a_power_of_ten() {
    assert_eq!(parse("0.3").unwrap(), RationalNumber::new(3, 10).unwrap());
    assert_eq!(parse("1.50").unwrap(), RationalNumber::new(3, 2).unwrap());
    assert_eq!(parse("0.001").unwrap(), RationalNumber::new(1, 1000).unwrap());
    assert_eq!(parse("12.0625").unwrap(), RationalNumber::new(193, 16).unwrap());
}

#[test]
fn leading_zeros_are_digits() {
    assert_eq!(parse("007").unwrap(), RationalNumber::from_integer(7));
}

#[test]
fn long_numbers_are_read_exactly() {
    let read = parse("123456789012345678901234567890").unwrap();
    assert_eq!(read.to_text(), "123456789012345678901234567890");
}

#[test]
fn fractions_are_reduced() {
    assert_eq!(parse("2/4").unwrap(), RationalNumber::new(1, 2).unwrap());
    assert_eq!(parse("10/5").unwrap(), RationalNumber::from_integer(2));
}

#[test]
fn denominator_may_carry_a_sign() {
    assert_eq!(parse("1/-2").unwrap(), RationalNumber::new(-1, 2).unwrap());
    assert_eq!(parse("-1/-2").unwrap(), RationalNumber::new(1, 2).unwrap());
    assert_eq!(parse("2 1/-4").unwrap(), RationalNumber::new(7, 4).unwrap());
}

#[test]
fn mixed_number_with_spaces_round_the_slash() {
    assert_eq!(parse("3   1 /  4").unwrap(), RationalNumber::new(13, 4).unwrap());
}

#[test]
fn text_without_form_is_a_parse_error() {
    for text in ["", " ", "-", ".", "5.", "abc", "1.2.3", "1/", "/2", "1 2", "1 2 3/4", "--1", "1/2/3", "1e5", "+1", "1 /", "1.5/2"] {
        assert_eq!(parse(text), Err(FromStrErr::ParseError(text.to_string())), "text {:?}", text);
    }
}

#[test]
fn digits_of_other_scripts_are_no_digits() {
    assert_eq!(
        parse("\u{0663}"),
        Err(FromStrErr::ParseError("\u{0663}".to_string()))
    );
}

#[test]
fn fraction_over_zero_is_an_invalid_number() {
    assert_eq!(parse("1/0"), Err(FromStrErr::InvalidNumber));
    assert_eq!(parse("2 1/0"), Err(FromStrErr::InvalidNumber));
    assert_eq!(parse("0/-0"), Err(FromStrErr::InvalidNumber));
}

#[test]
fn radix_ten_reads_as_parse_does() {
    assert_eq!(
        RationalNumber::from_str_radix("-1 1/2", 10),
        Ok(RationalNumber::new(-3, 2).unwrap())
    );
    assert_eq!(
        RationalNumber::from_str_radix("x", 10),
        Err(FromStrErr::ParseError("x".to_string()))
    );
}

#[test]
fn other_radixes_are_unsupported() {
    assert_eq!(RationalNumber::from_str_radix("10", 2), Err(FromStrErr::UnsupportedRadix));
    assert_eq!(RationalNumber::from_str_radix("ff", 16), Err(FromStrErr::UnsupportedRadix));
}
