use pattern_fit::fmt::formatters::{Java_JS, LaTeX, Unicode, ASCII};
use pattern_fit::fmt::{superscript, FmtAble, FmtEnum, FmtEr};
use pattern_fit::polynomial::{Polynomial, Term};
use pattern_fit::rational::RationalNumber;
use pattern_fit::util::as_ratios;

fn ratio(n: i64, d: i64) -> RationalNumber {
    RationalNumber::new(n, d).unwrap()
}

#[test]
fn superscript_digits() {
    assert_eq!(superscript(0), "\u{2070}");
    assert_eq!(superscript(123), "\u{b9}\u{b2}\u{b3}");
    assert_eq!(superscript(4567890), "\u{2074}\u{2075}\u{2076}\u{2077}\u{2078}\u{2079}\u{2070}");
    assert_eq!(superscript(10), "\u{b9}\u{2070}");
    assert_eq!(superscript(100), "\u{b9}\u{2070}\u{2070}");
}

#[test]
fn superscript_of_negative_numbers() {
    assert_eq!(superscript(-2), "\u{207b}\u{b2}");
    assert_eq!(superscript(i32::MIN), "\u{207b}\u{b2}\u{b9}\u{2074}\u{2077}\u{2074}\u{2078}\u{b3}\u{2076}\u{2074}\u{2078}");
    assert_eq!(superscript(i32::MAX), "\u{b2}\u{b9}\u{2074}\u{2077}\u{2074}\u{2078}\u{b3}\u{2076}\u{2074}\u{2077}");
}

#[test]
fn add_joins_with_a_plus_sign() {
    assert_eq!(ASCII.add("a", "b"), "a+b");
    assert_eq!(ASCII.add("", "b"), "+b");
    assert_eq!(ASCII.add("a", ""), "a+");
}

#[test]
fn add_of_a_negative_is_a_difference() {
    assert_eq!(ASCII.add("a", "-b"), "a-b");
    assert_eq!(ASCII.add("a", "--b"), "a-b");
    assert_eq!(Unicode.add("x", "-1"), "x-1");
}

#[test]
fn subtract_drops_leading_minus_signs() {
    assert_eq!(ASCII.subtract("a", "b"), "a-b");
    assert_eq!(ASCII.subtract("a", "-b"), "a-b");
    assert_eq!(ASCII.subtract("a", "---b"), "a-b");
    assert_eq!(ASCII.subtract("a", "-"), "a-");
}

#[test]
fn multiply_writes_an_asterisk() {
    assert_eq!(ASCII.multiply("2", "3"), "2*3");
    assert_eq!(ASCII.multiply("a", "(b)"), "a*(b)");
    assert_eq!(ASCII.multiply("(a)", "b"), "(a)*b");
    assert_eq!(LaTeX.multiply("2", "3"), "2*3");
    assert_eq!(Java_JS.multiply("2", "Math.pow(x, 2)"), "2*Math.pow(x, 2)");
}

#[test]
fn multiply_puts_side_by_side_where_that_reads_as_a_product() {
    assert_eq!(ASCII.multiply("2", "x"), "2x");
    assert_eq!(ASCII.multiply("2", "x^2"), "2x^2");
    assert_eq!(ASCII.multiply("x", "2"), "x2");
    assert_eq!(ASCII.multiply("(a)", "(b)"), "(a)(b)");
    assert_eq!(ASCII.multiply("", ""), "*");
}

#[test]
fn unicode_multiplies_with_a_centred_dot() {
    assert_eq!(Unicode.multiply("2", "3"), "2\u{b7}3");
    assert_eq!(Unicode.multiply("2", "\u{1d465}"), "2\u{1d465}");
    assert_eq!(Unicode.multiply("\u{1d465}", "2"), "\u{1d465}2");
    assert_eq!(Unicode.multiply("(a)", "(b)"), "(a)(b)");
    assert_eq!(Unicode.multiply("2", "x"), "2\u{b7}x");
}

#[test]
fn divide_simplifies() {
    assert_eq!(ASCII.divide("3", "4"), "3/4");
    assert_eq!(ASCII.divide("0", "4"), "0");
    assert_eq!(ASCII.divide("3", "1"), "3");
    assert_eq!(ASCII.divide("3", "-1"), "-3");
    assert_eq!(ASCII.divide("-3", "-1"), "3");
}

#[test]
fn pow_in_each_notation() {
    assert_eq!(ASCII.pow("x", "2"), "x^2");
    assert_eq!(LaTeX.pow("x", "12"), "x^12");
    assert_eq!(Java_JS.pow("x", "2"), "Math.pow(x, 2)");
    assert_eq!(Unicode.pow("\u{1d465}", "2"), "\u{1d465}\u{b2}");
    assert_eq!(Unicode.pow("\u{1d465}", "-10"), "\u{1d465}\u{207b}\u{b9}\u{2070}");
    assert_eq!(Unicode.pow("2", "\u{1d465}"), "2\u{2e3}");
}

#[test]
fn neg_toggles_the_minus_sign() {
    assert_eq!(ASCII.neg("a"), "-a");
    assert_eq!(ASCII.neg("-a"), "a");
    assert_eq!(ASCII.neg(""), "-");
    assert_eq!(ASCII.neg(&ASCII.neg("a")), "a");
}

#[test]
fn the_variable() {
    assert_eq!(ASCII.x(), 'x');
    assert_eq!(LaTeX.x(), 'x');
    assert_eq!(Java_JS.x(), 'x');
    assert_eq!(Unicode.x(), '\u{1d465}');
}

#[test]
fn terms_in_plain_text() {
    let text = |n: i64, d: i64, exponent: usize| {
        Term { coefficient: ratio(n, d), exponent }.format(&ASCII)
    };
    assert_eq!(text(0, 1, 3), "");
    assert_eq!(text(1, 1, 0), "1");
    assert_eq!(text(-1, 1, 0), "-1");
    assert_eq!(text(1, 1, 1), "x");
    assert_eq!(text(-1, 1, 1), "-x");
    assert_eq!(text(1, 1, 5), "x^5");
    assert_eq!(text(7, 1, 0), "7");
    assert_eq!(text(7, 1, 1), "7x");
    assert_eq!(text(-7, 1, 12), "-7x^12");
    assert_eq!(text(2, 3, 0), "(2/3)");
    assert_eq!(text(-2, 3, 1), "-(2/3)x");
    assert_eq!(text(1, 3, 2), "(1/3)x^2");
}

#[test]
fn polynomial_in_each_notation() {
    let p = Polynomial::from_values(&as_ratios(vec![1, 0, 3, 10]), 0).unwrap();
    assert_eq!(p.format(&ASCII), "2x^2-3x+1");
    assert_eq!(p.format(&LaTeX), "2x^2-3x+1");
    assert_eq!(p.format(&Java_JS), "2*Math.pow(x, 2)-3x+1");
    assert_eq!(p.format(&Unicode), "2\u{1d465}\u{b2}-3\u{1d465}+1");
}

#[test]
fn rendering_twice_gives_the_same_text() {
    let p = Polynomial::from_values(&as_ratios(vec![0, 0, 0, 6, 24]), 0).unwrap();
    assert_eq!(p.format(&ASCII), p.format(&ASCII));
    assert_eq!(p.format(&Unicode), p.format(&Unicode));
    assert_eq!(p.format(&Java_JS), p.format(&Java_JS));
    assert_eq!(p.format(&LaTeX), p.format(&LaTeX));
}

#[test]
fn the_enum_names_a_notation() {
    let p = Polynomial::from_values(&as_ratios(vec![0, 1, 4, 9]), 0).unwrap();
    assert_eq!(FmtEnum::ASCII(ASCII).format(&p), "x^2");
    assert_eq!(FmtEnum::LaTeX(LaTeX).format(&p), "x^2");
    assert_eq!(FmtEnum::Java_JS(Java_JS).format(&p), "Math.pow(x, 2)");
    assert_eq!(FmtEnum::Unicode(Unicode).format(&p), "\u{1d465}\u{b2}");
}
