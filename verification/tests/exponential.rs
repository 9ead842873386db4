use pattern_fit::error::FitError;
use pattern_fit::exponential::Exponential;
use pattern_fit::fmt::formatters;
use pattern_fit::fmt::FmtAble;
use pattern_fit::rational::{ArithmeticError, RationalNumber};
use pattern_fit::util::as_ratios;

const ASCII: formatters::ASCII = formatters::ASCII;

fn ratio(n: i64, d: i64) -> RationalNumber {
    RationalNumber::new(n, d).unwrap()
}

#[test]
fn parent_base2() {
    assert_eq!(Exponential::from_values(&as_ratios(vec![1, 2, 4])).unwrap().format(&ASCII), "2^x");
}

#[test]
fn parent_base3() {
    assert_eq!(Exponential::from_values(&as_ratios(vec![1, 3, 9])).unwrap().format(&ASCII), "3^x");
}

#[test]
fn decay() {
    assert_eq!(
        Exponential::from_values(&vec![RationalNumber::one(), ratio(1, 2), ratio(1, 4)])
            .unwrap()
            .format(&ASCII),
        "(1/2)^x"
    );
}

#[test]
fn translate() {
    assert_eq!(
        Exponential::from_values(&as_ratios(vec![2, 3, 5])).unwrap().format(&ASCII),
        "2^x+1"
    );
}

#[test]
fn stretch() {
    assert_eq!(
        Exponential::from_values(&as_ratios(vec![2, 4, 8])).unwrap().format(&ASCII),
        "2*2^x"
    );
}

#[test]
fn exponential_all() {
    assert_eq!(
        Exponential::from_values(&as_ratios(vec![5, 9, 17])).unwrap().format(&ASCII),
        "4*2^x+1"
    );
}

#[test]
fn ratios() {
    assert!(Exponential::from_values(&as_ratios(vec![1, 2, 4, 8, 16])).is_ok());
}

#[test]
fn unicode_parent_base2() {
    assert_eq!(
        Exponential::from_values(&as_ratios(vec![1, 2, 4])).unwrap().format(&formatters::Unicode),
        "2\u{2e3}"
    );
}

#[test]
fn unicode_with_stretch() {
    assert_eq!(
        Exponential::from_values(&as_ratios(vec![2, 4, 8])).unwrap().format(&formatters::Unicode),
        "2\u{b7}2\u{2e3}"
    );
}

#[test]
fn call_notation() {
    assert_eq!(
        Exponential::from_values(&as_ratios(vec![5, 9, 17])).unwrap().format(&formatters::Java_JS),
        "4*Math.pow(2, x)+1"
    );
}

#[test]
fn the_model_is_fixed_by_the_first_three_samples() {
    let m = Exponential::from_values(&as_ratios(vec![5, 9, 17, 33])).unwrap();
    assert_eq!(m.stretch(), &RationalNumber::from_integer(4));
    assert_eq!(m.ratio(), &RationalNumber::from_integer(2));
    assert_eq!(m.asymptote(), &RationalNumber::one());
}

#[test]
fn the_model_reproduces_every_sample() {
    let values = vec![ratio(7, 2), ratio(5, 2), ratio(13, 6), ratio(37, 18), ratio(109, 54)];
    let m = Exponential::from_values(&values).unwrap();
    assert_eq!(m.ratio(), &ratio(1, 3));
    for (i, value) in values.iter().enumerate() {
        assert_eq!(&m.apply(i as i32).unwrap(), value);
    }
    assert_eq!(m.format(&ASCII), "3/2*(1/3)^x+2");
}

#[test]
fn fewer_than_three_samples_are_insufficient() {
    assert_eq!(
        Exponential::from_values(&as_ratios(vec![])).unwrap_err(),
        FitError::InsufficientData
    );
    assert_eq!(
        Exponential::from_values(&as_ratios(vec![1, 2])).unwrap_err(),
        FitError::InsufficientData
    );
}

#[test]
fn equal_leading_samples_divide_by_zero() {
    assert_eq!(
        Exponential::from_values(&as_ratios(vec![3, 3, 5])).unwrap_err(),
        FitError::DivisionByZero
    );
    assert_eq!(
        Exponential::from_values(&as_ratios(vec![3, 3, 3, 3])).unwrap_err(),
        FitError::DivisionByZero
    );
}

#[test]
fn samples_on_a_line_divide_by_zero() {
    assert_eq!(
        Exponential::from_values(&as_ratios(vec![1, 3, 5])).unwrap_err(),
        FitError::DivisionByZero
    );
}

#[test]
fn a_later_sample_off_the_curve_is_no_pattern() {
    assert_eq!(
        Exponential::from_values(&as_ratios(vec![1, 2, 4, 9])).unwrap_err(),
        FitError::NoPatternFound
    );
    assert_eq!(
        Exponential::from_values(&as_ratios(vec![1, 2, 4, 8, 16, 31])).unwrap_err(),
        FitError::NoPatternFound
    );
}

#[test]
fn a_ratio_of_zero_is_a_jump_to_the_asymptote() {
    let m = Exponential::from_values(&as_ratios(vec![5, 2, 2, 2])).unwrap();
    assert!(m.ratio().is_zero());
    assert_eq!(m.apply(0), Ok(RationalNumber::from_integer(5)));
    assert_eq!(m.apply(3), Ok(RationalNumber::from_integer(2)));
    assert_eq!(m.apply(-1), Err(ArithmeticError::DivisionByZero));
}

#[test]
fn negative_places_take_reciprocal_powers() {
    let m = Exponential::from_values(&as_ratios(vec![2, 3, 5])).unwrap();
    assert_eq!(m.apply(-1), Ok(ratio(3, 2)));
    assert_eq!(m.apply(-2), Ok(ratio(5, 4)));
}

#[test]
fn negative_ratio_alternates() {
    let m = Exponential::from_values(&as_ratios(vec![1, -2, 4, -8])).unwrap();
    assert_eq!(m.ratio(), &RationalNumber::from_integer(-2));
    assert_eq!(m.format(&ASCII), "-2^x");
}
