use pattern_fit::error::FitError;
use pattern_fit::fmt::formatters;
use pattern_fit::fmt::FmtAble;
use pattern_fit::linear_algebra::Vector;
use pattern_fit::polynomial::{Polynomial, Term};
use pattern_fit::rational::RationalNumber;
use pattern_fit::util::as_ratios;

const ASCII: formatters::ASCII = formatters::ASCII;

fn ratio(n: i64, d: i64) -> RationalNumber {
    RationalNumber::new(n, d).unwrap()
}

fn fitted(values: Vec<i32>) -> String {
    Polynomial::from_values(&as_ratios(values), 0).unwrap().format(&ASCII)
}

#[test]
fn polynomial_zero() {
    let zero = RationalNumber::zero();
    assert_eq!(
        Polynomial::from_values(&vec![zero.clone(), zero.clone(), zero], 0).unwrap().format(&ASCII),
        "0"
    );
}

#[test]
fn polynomial_one() {
    let one = RationalNumber::one();
    assert_eq!(
        Polynomial::from_values(&vec![one.clone(), one.clone(), one], 0).unwrap().format(&ASCII),
        "1"
    );
}

#[test]
fn polynomial_parent() {
    assert_eq!(Polynomial::from_values(&as_ratios(vec![0, 1, 2]), 0).unwrap().format(&ASCII), "x");
    assert_eq!(
        Polynomial::from_values(&as_ratios(vec![0, 1, 4, 9]), 0).unwrap().format(&ASCII),
        "x^2"
    );
}

#[test]
fn polynomial_translated() {
    assert_eq!(
        Polynomial::from_values(&as_ratios(vec![1, 2, 3]), 0).unwrap().format(&ASCII),
        "x+1"
    );
}

#[test]
fn polynomial_stretched() {
    assert_eq!(Polynomial::from_values(&as_ratios(vec![0, 2, 4]), 0).unwrap().format(&ASCII), "2x");
    assert_eq!(
        Polynomial::from_values(&as_ratios(vec![0, 2, 8, 18]), 0).unwrap().format(&ASCII),
        "2x^2"
    );
}

#[test]
fn polynomial_compressed() {
    assert_eq!(
        Polynomial::from_values(&vec![RationalNumber::zero(), ratio(1, 2), RationalNumber::one()], 0)
            .unwrap()
            .format(&ASCII),
        "(1/2)x"
    );
    assert_eq!(
        Polynomial::from_values(
            &vec![RationalNumber::zero(), ratio(1, 2), RationalNumber::from_integer(2), ratio(9, 2)],
            0
        )
        .unwrap()
        .format(&ASCII),
        "(1/2)x^2"
    );
}

#[test]
fn polynomial_reflected() {
    assert_eq!(
        Polynomial::from_values(&as_ratios(vec![0, -1, -2]), 0).unwrap().format(&ASCII),
        "-x"
    );
    assert_eq!(
        Polynomial::from_values(&as_ratios(vec![0, -1, -4, -9]), 0).unwrap().format(&ASCII),
        "-x^2"
    );
}

#[test]
fn polynomial_all() {
    assert_eq!(
        Polynomial::from_values(&as_ratios(vec![1, -1, -3]), 0).unwrap().format(&ASCII),
        "-2x+1"
    );
    assert_eq!(
        Polynomial::from_values(
            &vec![
                ratio(-1, 2),
                RationalNumber::from_integer(-2),
                ratio(-9, 2),
                RationalNumber::from_integer(-8)
            ],
            0
        )
        .unwrap()
        .format(&ASCII),
        "-(1/2)x^2-x-(1/2)"
    );
}

#[test]
fn polynomial_vertical_translated() {
    assert_eq!(
        Polynomial::from_values(&as_ratios(vec![1, 2, 5, 10]), 0).unwrap().format(&ASCII),
        "x^2+1"
    );
}

#[test]
fn polynomial_horizontal_translated() {
    assert_eq!(
        Polynomial::from_values(&as_ratios(vec![1, 4, 9, 16]), 0).unwrap().format(&ASCII),
        "x^2+2x+1"
    );
}

#[test]
fn polynomial_many_intercepts() {
    assert_eq!(
        Polynomial::from_values(&as_ratios(vec![0, 0, 0, 6, 24]), 0).unwrap().format(&ASCII),
        "x^3-3x^2+2x"
    );
}

#[test]
fn fewer_than_two_samples_are_insufficient() {
    assert_eq!(
        Polynomial::from_values(&as_ratios(vec![]), 0).unwrap_err(),
        FitError::InsufficientData
    );
    assert_eq!(
        Polynomial::from_values(&as_ratios(vec![5]), 0).unwrap_err(),
        FitError::InsufficientData
    );
    assert_eq!(Polynomial::from_points(&vec![]).unwrap_err(), FitError::InsufficientData);
    assert_eq!(
        Polynomial::from_points(&vec![(ratio(1, 1), ratio(2, 1))]).unwrap_err(),
        FitError::InsufficientData
    );
}

#[test]
fn two_samples_give_a_line() {
    assert_eq!(fitted(vec![3, 5]), "2x+3");
    let line = Polynomial::from_values(&as_ratios(vec![3, 5]), 0).unwrap();
    assert!(line.terms[0].exponent <= 1);
}

#[test]
fn two_equal_samples_give_a_constant() {
    assert_eq!(fitted(vec![4, 4]), "4");
}

#[test]
fn constant_samples_give_the_constant_polynomial() {
    let value = ratio(-7, 3);
    let p = Polynomial::from_values(&vec![value.clone(), value.clone(), value.clone(), value.clone()], 0)
        .unwrap();
    assert_eq!(p.terms.len(), 1);
    assert_eq!(p.terms[0].exponent, 0);
    assert_eq!(p.terms[0].coefficient, value);
    assert_eq!(p.format(&ASCII), "-(7/3)");
}

#[test]
fn two_points_over_one_place_are_singular() {
    let points = vec![
        (ratio(1, 1), ratio(2, 1)),
        (ratio(2, 1), ratio(3, 1)),
        (ratio(1, 1), ratio(5, 1)),
    ];
    assert_eq!(Polynomial::from_points(&points).unwrap_err(), FitError::SingularSystem);
    let twice = vec![(ratio(1, 2), ratio(2, 1)), (ratio(2, 4), ratio(2, 1))];
    assert_eq!(Polynomial::from_points(&twice).unwrap_err(), FitError::SingularSystem);
}

#[test]
fn points_need_not_be_in_order_nor_whole() {
    let points = vec![
        (ratio(3, 1), ratio(9, 1)),
        (ratio(-1, 2), ratio(1, 4)),
        (ratio(1, 3), ratio(1, 9)),
    ];
    let p = Polynomial::from_points(&points).unwrap();
    assert_eq!(p.format(&ASCII), "x^2");
}

#[test]
fn the_result_passes_through_every_sample() {
    let values = vec![ratio(1, 3), ratio(-5, 7), ratio(11, 2), ratio(0, 1), ratio(9, 4), ratio(-2, 1)];
    let start = -3;
    let p = Polynomial::from_values(&values, start).unwrap();
    for (i, value) in values.iter().enumerate() {
        let at = RationalNumber::from_integer(start as i64 + i as i64);
        assert_eq!(&p.apply_ratio(&at), value);
    }
}

#[test]
fn the_degree_stays_below_the_number_of_samples() {
    let values = as_ratios(vec![1, 7, -2, 9, 4, 4, 0]);
    let p = Polynomial::from_values(&values, 0).unwrap();
    assert!(p.terms[0].exponent <= values.len() - 1);
    for pair in p.terms.windows(2) {
        assert!(pair[0].exponent > pair[1].exponent);
    }
    for term in p.terms.iter() {
        assert!(!term.coefficient.is_zero());
    }
}

#[test]
fn the_starting_place_shifts_the_polynomial() {
    let p = Polynomial::from_values(&as_ratios(vec![1, 4, 9]), 1).unwrap();
    assert_eq!(p.format(&ASCII), "x^2");
    let q = Polynomial::from_values(&as_ratios(vec![0, 1, 2]), -1).unwrap();
    assert_eq!(q.format(&ASCII), "x+1");
}

#[test]
fn cubic_with_fractions() {
    let values = vec![ratio(0, 1), ratio(1, 6), ratio(4, 3), ratio(9, 2)];
    assert_eq!(Polynomial::from_values(&values, 0).unwrap().format(&ASCII), "(1/6)x^3");
}

#[test]
fn terms_are_applied_exactly() {
    let term = Term { coefficient: ratio(3, 2), exponent: 3 };
    assert_eq!(term.apply(2), RationalNumber::from_integer(12));
    assert_eq!(term.apply(-1), ratio(-3, 2));
    assert_eq!(term.apply_ratio(&ratio(1, 3)), ratio(1, 18));
    let constant = Term { coefficient: ratio(5, 1), exponent: 0 };
    assert_eq!(constant.apply(0), RationalNumber::from_integer(5));
}

#[test]
fn coefficients_that_are_zero_give_no_term() {
    let c = Vector::new(vec![ratio(2, 1), ratio(0, 1), ratio(-1, 1)]);
    let p = Polynomial::from_coefficients(&c);
    assert_eq!(p.terms.len(), 2);
    assert_eq!(p.format(&ASCII), "2x^2-1");
    let none = Vector::new(vec![ratio(0, 1), ratio(0, 1)]);
    let zero = Polynomial::from_coefficients(&none);
    assert_eq!(zero.terms.len(), 1);
    assert_eq!(zero.terms[0].exponent, 0);
    assert!(zero.terms[0].coefficient.is_zero());
    assert_eq!(zero.format(&ASCII), "0");
}
