use pattern_fit::rational::{ArithmeticError, RationalNumber};

fn ratio(n: i64, d: i64) -> RationalNumber {
    RationalNumber::new(n, d).unwrap()
}

#[test]
fn new_reduces_to_lowest_terms() {
    let q = ratio(2, 4);
    assert_eq!(q.numer_text(), "1");
    assert_eq!(q.denom_text(), "2");
    assert_eq!(q.to_text(), "1/2");
}

#[test]
fn new_moves_the_sign_to_the_numerator() {
    let q = ratio(3, -6);
    assert_eq!(q.numer_text(), "-1");
    assert_eq!(q.denom_text(), "2");
    assert_eq!(ratio(-3, -6), ratio(1, 2));
}

#[test]
fn new_rejects_a_zero_denominator() {
    assert_eq!(RationalNumber::new(1, 0), Err(ArithmeticError::DivisionByZero));
    assert_eq!(RationalNumber::new(0, 0), Err(ArithmeticError::DivisionByZero));
}

#[test]
fn zero_has_denominator_one() {
    let q = ratio(0, -7);
    assert_eq!(q.numer_text(), "0");
    assert_eq!(q.denom_text(), "1");
    assert!(q.is_zero());
}

#[test]
fn sum_of_fractions() {
    assert_eq!(ratio(1, 2).add(&ratio(1, 3)), ratio(5, 6));
    assert_eq!(ratio(1, 2).add(&ratio(1, 2)), RationalNumber::one());
}

#[test]
fn difference_of_fractions() {
    assert_eq!(ratio(1, 2).sub(&ratio(1, 3)), ratio(1, 6));
    assert_eq!(ratio(1, 3).sub(&ratio(1, 2)), ratio(-1, 6));
}

#[test]
fn product_of_fractions() {
    assert_eq!(ratio(2, 3).mul(&ratio(3, 4)), ratio(1, 2));
    assert_eq!(ratio(-2, 3).mul(&ratio(3, 4)), ratio(-1, 2));
}

#[test]
fn quotient_of_fractions() {
    assert_eq!(ratio(1, 2).div(&ratio(3, 4)), Ok(ratio(2, 3)));
    assert_eq!(ratio(1, 2).div(&ratio(-1, 4)), Ok(RationalNumber::from_integer(-2)));
}

#[test]
fn division_by_zero_is_an_error() {
    assert_eq!(ratio(1, 2).div(&RationalNumber::zero()), Err(ArithmeticError::DivisionByZero));
    assert_eq!(RationalNumber::zero().recip(), Err(ArithmeticError::DivisionByZero));
}

#[test]
fn reciprocal_swaps_numerator_and_denominator() {
    assert_eq!(ratio(-2, 3).recip(), Ok(ratio(-3, 2)));
}

#[test]
fn powers() {
    assert_eq!(ratio(2, 3).pow(3), Ok(ratio(8, 27)));
    assert_eq!(ratio(2, 3).pow(0), Ok(RationalNumber::one()));
    assert_eq!(ratio(2, 3).pow(-2), Ok(ratio(9, 4)));
    assert_eq!(ratio(-1, 2).pow(3), Ok(ratio(-1, 8)));
    assert_eq!(RationalNumber::zero().pow(0), Ok(RationalNumber::one()));
    assert_eq!(RationalNumber::zero().pow(5), Ok(RationalNumber::zero()));
}

#[test]
fn negative_power_of_zero_is_an_error() {
    assert_eq!(RationalNumber::zero().pow(-1), Err(ArithmeticError::DivisionByZero));
}

#[test]
fn ordering() {
    assert!(ratio(1, 3).lt(&ratio(1, 2)));
    assert!(!ratio(1, 2).lt(&ratio(1, 3)));
    assert!(!ratio(1, 2).lt(&ratio(2, 4)));
    assert!(ratio(-1, 2).lt(&ratio(-1, 3)));
}

#[test]
fn equality_is_by_value() {
    assert!(ratio(1, 2).equals(&ratio(2, 4)));
    assert!(!ratio(1, 2).equals(&ratio(2, 3)));
    assert_eq!(ratio(10, 20), ratio(1, 2));
    assert_ne!(ratio(10, 20), ratio(1, 3));
}

#[test]
fn predicates() {
    assert!(RationalNumber::zero().is_zero());
    assert!(!ratio(1, 5).is_zero());
    assert!(RationalNumber::one().is_one());
    assert!(ratio(3, 3).is_one());
    assert!(!ratio(2, 3).is_one());
    assert!(ratio(-1, 5).is_negative());
    assert!(!ratio(1, 5).is_negative());
    assert!(!RationalNumber::zero().is_negative());
    assert!(ratio(4, 2).is_integer());
    assert!(!ratio(1, 2).is_integer());
}

#[test]
fn negation_and_absolute_value() {
    assert_eq!(ratio(1, 2).neg(), ratio(-1, 2));
    assert_eq!(ratio(-1, 2).neg(), ratio(1, 2));
    assert_eq!(ratio(-1, 2).abs(), ratio(1, 2));
    assert_eq!(ratio(1, 2).abs(), ratio(1, 2));
}

#[test]
fn copies_are_equal() {
    let q = ratio(-7, 9);
    assert_eq!(q.duplicate(), q);
    assert_eq!(q.clone(), q);
    assert_eq!(q.denom(), RationalNumber::from_integer(9));
}

#[test]
fn text_of_numbers() {
    assert_eq!(RationalNumber::from_integer(-12).to_text(), "-12");
    assert_eq!(ratio(-5, 10).to_text(), "-1/2");
    assert_eq!(RationalNumber::zero().to_text(), "0");
}

#[test]
fn arithmetic_is_exact_beyond_machine_integers() {
    let big = RationalNumber::from_integer(i64::MAX);
    let square = big.mul(&big);
    assert_eq!(square.numer_text(), "85070591730234615847396907784232501249");
    assert_eq!(square.div(&big), Ok(RationalNumber::from_integer(i64::MAX)));
    let tenth = ratio(1, 10);
    let mut sum = RationalNumber::zero();
    for _ in 0..10 {
        sum = sum.add(&tenth);
    }
    assert_eq!(sum, RationalNumber::one());
}

#[test]
fn comparison_operators_follow_the_value() {
    assert!(ratio(1, 3) < ratio(1, 2));
    assert!(ratio(1, 2) <= ratio(2, 4));
    assert!(ratio(-1, 2) > ratio(-2, 3));
    assert!(ratio(7, 1) >= ratio(7, 1));
    assert!(!(ratio(1, 2) < ratio(1, 2)));
}

#[test]
fn the_field_is_the_rational_numbers() {
    let half: pattern_fit::ratio_field::RatioField = ratio(1, 2);
    assert_eq!(half.add(&half), RationalNumber::one());
}
