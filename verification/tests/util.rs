use pattern_fit::rational::RationalNumber;
use pattern_fit::util::{all_equal as entries_equal, as_ratios};

#[test]
fn all_equal() {
    assert!(entries_equal(&vec![1, 1, 1]));
}

#[test]
fn not_all_equal() {
    assert!(!entries_equal(&vec![1, 2, 3]));
}

#[test]
fn all_equal_single_entry() {
    assert!(entries_equal(&vec![7]));
}

#[test]
fn all_equal_differs_at_the_end() {
    assert!(!entries_equal(&vec![4, 4, 4, 5]));
}

#[test]
fn all_equal_compares_rationals_by_value() {
    let halves = vec![
        RationalNumber::new(1, 2).unwrap(),
        RationalNumber::new(2, 4).unwrap(),
        RationalNumber::new(-3, -6).unwrap(),
    ];
    assert!(entries_equal(&halves));
    let mixed = vec![RationalNumber::new(1, 2).unwrap(), RationalNumber::new(1, 3).unwrap()];
    assert!(!entries_equal(&mixed));
}

#[test]
fn as_ratios_keeps_order_and_values() {
    let ratios = as_ratios(vec![3, -1, 0]);
    assert_eq!(ratios.len(), 3);
    assert_eq!(ratios[0], RationalNumber::from_integer(3));
    assert_eq!(ratios[1], RationalNumber::from_integer(-1));
    assert_eq!(ratios[2], RationalNumber::zero());
}
