//! The text of numbers, terms, polynomials and exponentials.

use crate::exponential::Exponential;
use crate::fmt::{added, divided, negated, FmtAble, FmtEr};
use crate::polynomial::{Polynomial, Term};
use crate::rational::{decimal_digits, decimal_text, digit_char, RationalNumber};
use crate::text::{bracketed, joined_by, natural_text, push_char, same_text, starts_with,
    starts_with_char, without_first};
use vstd::prelude::*;

verus! {

/// The decimal digits of the magnitude of `v`.
pub open spec fn magnitude_text(v: int) -> Seq<char> {
    decimal_digits((if v < 0 {
        -v
    } else {
        v
    }) as nat)
}

/// The text of the fraction `numer / denom`: the numerator alone where the
/// denominator is one.
pub open spec fn fraction_text(numer: int, denom: int) -> Seq<char> {
    if denom == 1 {
        decimal_text(numer)
    } else {
        decimal_text(numer).push('/') + decimal_text(denom)
    }
}

/// The digits of a number begin with a digit; they are the digit zero for
/// zero alone and the digit one for one alone.
pub proof fn lemma_decimal_digits(n: nat)
    ensures
        decimal_digits(n).len() >= 1,
        '0' <= decimal_digits(n)[0] <= '9',
        decimal_digits(n) == seq!['0'] <==> n == 0,
        decimal_digits(n) == seq!['1'] <==> n == 1,
    decreases n,
{
    let table = seq!['0', '1', '2', '3', '4', '5', '6', '7', '8', '9'];
    if n < 10 {
        assert(decimal_digits(n) == seq![table[n as int]]);
        assert(decimal_digits(n)[0] == table[n as int]);
        assert(seq!['0'][0] == '0');
        assert(seq!['1'][0] == '1');
        if n == 0 {
            assert(decimal_digits(n) =~= seq!['0']);
        }
        if n == 1 {
            assert(decimal_digits(n) =~= seq!['1']);
        }
    } else {
        lemma_decimal_digits(n / 10);
        let head = decimal_digits(n / 10);
        assert(decimal_digits(n) == head.push(digit_char((n % 10) as int)));
        assert(decimal_digits(n)[0] == head[0]);
        assert(decimal_digits(n).len() >= 2);
        assert(seq!['0'].len() == 1);
        assert(seq!['1'].len() == 1);
    }
}

/// The text of an integer is its magnitude behind a minus sign where it is
/// negative, and the magnitude alone where it is not.
pub proof fn lemma_decimal_text(v: int)
    ensures
        starts_with(decimal_text(v), '-') <==> v < 0,
        v < 0 ==> decimal_text(v).drop_first() == magnitude_text(v),
        v >= 0 ==> decimal_text(v) == magnitude_text(v),
        decimal_text(v) == seq!['0'] <==> v == 0,
        decimal_text(v) == seq!['1'] <==> v == 1,
{
    if v < 0 {
        lemma_decimal_digits((-v) as nat);
        let digits = decimal_digits((-v) as nat);
        assert(decimal_text(v) == seq!['-'] + digits);
        assert(decimal_text(v)[0] == '-');
        assert(decimal_text(v).drop_first() =~= digits);
        assert(seq!['0'][0] == '0');
        assert(seq!['1'][0] == '1');
    } else {
        lemma_decimal_digits(v as nat);
    }
}

impl RationalNumber {
    /// The text of the number: `n` for a whole number, else `n/d`.
    pub open spec fn text(&self) -> Seq<char> {
        fraction_text(self.numer_value(), self.denom_value())
    }

    /// The text of the number: `n` for a whole number, else `n/d`.
    pub fn to_text(&self) -> (r: String)
        ensures
            r@ == self.text(),
    {
        let numer = self.numer_text();
        let denom = self.denom_text();
        proof {
            lemma_decimal_text(self.denom_value());
            reveal_strlit("1");
            assert("1"@ =~= seq!['1']);
        }
        if same_text(denom.as_str(), "1") {
            numer
        } else {
            joined_by(numer.as_str(), '/', denom.as_str())
        }
    }
}

/// The text of the magnitude of the coefficient `numer / denom` in front of
/// the power `exponent`: nothing for a magnitude of one in front of a power of
/// the variable, round brackets round a fraction.
pub open spec fn coefficient_text(numer: int, denom: int, exponent: nat) -> Seq<char> {
    if magnitude_text(numer) == seq!['1'] && denom == 1 && exponent != 0 {
        Seq::empty()
    } else {
        let quotient = divided(magnitude_text(numer), decimal_text(denom));
        if denom != 1 {
            seq!['('] + quotient + seq![')']
        } else {
            quotient
        }
    }
}

/// The text of the power `x^exponent`: nothing for the power zero, the
/// variable alone for the power one.
pub open spec fn power_text<F: FmtEr>(f: &F, exponent: nat) -> Seq<char> {
    if exponent == 0 {
        Seq::empty()
    } else if exponent == 1 {
        seq![f.glyph()]
    } else {
        f.raised(seq![f.glyph()], decimal_digits(exponent))
    }
}

/// The text of the term `numer / denom * x^exponent`: nothing for a zero
/// coefficient; else coefficient and power, as a product where there are
/// both, negated where the coefficient is negative.
pub open spec fn term_text<F: FmtEr>(f: &F, numer: int, denom: int, exponent: nat) -> Seq<char> {
    if numer == 0 {
        Seq::empty()
    } else {
        let coefficient = coefficient_text(numer, denom, exponent);
        let power = power_text(f, exponent);
        let body = if coefficient.len() == 0 {
            power
        } else if power.len() != 0 {
            f.multiplied(coefficient, power)
        } else {
            coefficient
        };
        if numer < 0 {
            negated(body)
        } else {
            body
        }
    }
}

/// The texts of the terms `terms`, joined as a sum. There is at least one
/// term.
pub open spec fn sum_text<F: FmtEr>(f: &F, terms: Seq<Term>) -> Seq<char>
    decreases terms.len(),
{
    if terms.len() <= 1 {
        terms[0].formatted(f)
    } else {
        added(sum_text(f, terms.drop_last()), terms.last().formatted(f))
    }
}

/// The text of the polynomial with the terms `terms`: their sum, or `0` where
/// that is empty.
pub open spec fn polynomial_text<F: FmtEr>(f: &F, terms: Seq<Term>) -> Seq<char> {
    let sum = sum_text(f, terms);
    if sum.len() == 0 {
        seq!['0']
    } else {
        sum
    }
}

impl<F: FmtEr> FmtAble<F> for Term {
    open spec fn formatted(&self, f: &F) -> Seq<char> {
        term_text(
            f,
            self.coefficient.numer_value(),
            self.coefficient.denom_value(),
            self.exponent as nat,
        )
    }

    open spec fn renderable(&self) -> bool {
        true
    }

    fn format(&self, f: &F) -> (r: String) {
        let numer = self.coefficient.numer_text();
        let denom = self.coefficient.denom_text();
        proof {
            lemma_decimal_text(self.coefficient.numer_value());
            lemma_decimal_text(self.coefficient.denom_value());
            lemma_decimal_digits(
                (if self.coefficient.numer_value() < 0 {
                    -self.coefficient.numer_value()
                } else {
                    self.coefficient.numer_value()
                }) as nat,
            );
            reveal_strlit("0");
            reveal_strlit("1");
            assert("0"@ =~= seq!['0']);
            assert("1"@ =~= seq!['1']);
        }
        if same_text(numer.as_str(), "0") {
            return String::new();
        }
        let negative = starts_with_char(numer.as_str(), '-');
        let magnitude = if negative {
            without_first(numer.as_str())
        } else {
            numer.as_str()
        };
        let whole = same_text(denom.as_str(), "1");
        let mut s = String::new();
        if !(same_text(magnitude, "1") && whole) || self.exponent == 0 {
            let quotient = f.divide(magnitude, denom.as_str());
            if whole {
                s = quotient;
            } else {
                s = bracketed(quotient.as_str());
            }
        }
        let power = if self.exponent == 0 {
            String::new()
        } else {
            let mut glyph = String::new();
            push_char(&mut glyph, f.x());
            assert(glyph@ =~= seq![f.glyph()]);
            if self.exponent == 1 {
                glyph
            } else {
                let digits = natural_text(self.exponent);
                f.pow(glyph.as_str(), digits.as_str())
            }
        };
        if s.as_str().unicode_len() == 0 {
            s = power;
        } else if power.as_str().unicode_len() != 0 {
            s = f.multiply(s.as_str(), power.as_str());
        }
        if negative {
            s = f.neg(s.as_str());
        }
        s
    }
}

impl<F: FmtEr> FmtAble<F> for Polynomial {
    open spec fn formatted(&self, f: &F) -> Seq<char> {
        polynomial_text(f, self.terms@)
    }

    open spec fn renderable(&self) -> bool {
        self.terms@.len() >= 1
    }

    fn format(&self, f: &F) -> (r: String) {
        let mut s = self.terms[0].format(f);
        let mut i: usize = 1;
        assert(self.terms@.take(1)[0] == self.terms@[0]);
        while i < self.terms.len()
            invariant
                1 <= i <= self.terms.len(),
                s@ == sum_text(f, self.terms@.take(i as int)),
            decreases self.terms.len() - i,
        {
            let next = self.terms[i].format(f);
            proof {
                let upto = self.terms@.take(i + 1);
                assert(upto.drop_last() =~= self.terms@.take(i as int));
                assert(upto.last() == self.terms@[i as int]);
            }
            s = f.add(s.as_str(), next.as_str());
            i += 1;
        }
        assert(self.terms@.take(self.terms.len() as int) =~= self.terms@);
        if s.as_str().unicode_len() == 0 {
            let mut zero = String::new();
            push_char(&mut zero, '0');
            assert(zero@ =~= seq!['0']);
            zero
        } else {
            s
        }
    }
}

/// The text of the exponential with the given stretch, ratio and asymptote:
/// the ratio, in round brackets where it is a fraction or where the notation
/// writes a product with a bracket side by side, to the power of the
/// variable; the stretch in front as a factor unless it is one; the asymptote
/// behind as a summand unless it is zero.
pub open spec fn exponential_text<F: FmtEr>(
    f: &F,
    stretch: RationalNumber,
    ratio: RationalNumber,
    asymptote: RationalNumber,
) -> Seq<char> {
    let base = if ratio.denom_value() != 1 || f.multiplied(seq!['a'], seq!['(', 'b', ')']) == seq![
        'a',
        '(',
        'b',
        ')',
    ] {
        seq!['('] + ratio.text() + seq![')']
    } else {
        ratio.text()
    };
    let power = f.raised(base, seq![f.glyph()]);
    let scaled = if stretch.numer_value() == 1 && stretch.denom_value() == 1 {
        power
    } else {
        f.multiplied(stretch.text(), power)
    };
    if asymptote.numer_value() == 0 {
        scaled
    } else {
        added(scaled, asymptote.text())
    }
}

impl<F: FmtEr> FmtAble<F> for Exponential {
    open spec fn formatted(&self, f: &F) -> Seq<char> {
        exponential_text(f, self.stretch_of(), self.ratio_of(), self.asymptote_of())
    }

    open spec fn renderable(&self) -> bool {
        true
    }

    fn format(&self, f: &F) -> (r: String) {
        let ratio = self.ratio();
        let stretch = self.stretch();
        let asymptote = self.asymptote();
        proof {
            lemma_decimal_text(ratio.denom_value());
            lemma_decimal_text(stretch.numer_value());
            lemma_decimal_text(stretch.denom_value());
            lemma_decimal_text(asymptote.numer_value());
            reveal_strlit("0");
            reveal_strlit("1");
            reveal_strlit("a");
            reveal_strlit("(b)");
            reveal_strlit("a(b)");
            assert("0"@ =~= seq!['0']);
            assert("1"@ =~= seq!['1']);
            assert("a"@ =~= seq!['a']);
            assert("(b)"@ =~= seq!['(', 'b', ')']);
            assert("a(b)"@ =~= seq!['a', '(', 'b', ')']);
        }
        let probe = f.multiply("a", "(b)");
        let ratio_text = ratio.to_text();
        let base = if !same_text(ratio.denom_text().as_str(), "1") || same_text(
            probe.as_str(),
            "a(b)",
        ) {
            bracketed(ratio_text.as_str())
        } else {
            ratio_text
        };
        let mut glyph = String::new();
        push_char(&mut glyph, f.x());
        assert(glyph@ =~= seq![f.glyph()]);
        let mut s = f.pow(base.as_str(), glyph.as_str());
        if !(same_text(stretch.numer_text().as_str(), "1") && same_text(
            stretch.denom_text().as_str(),
            "1",
        )) {
            s = f.multiply(stretch.to_text().as_str(), s.as_str());
        }
        if !same_text(asymptote.numer_text().as_str(), "0") {
            s = f.add(s.as_str(), asymptote.to_text().as_str());
        }
        s
    }
}

} // verus!
