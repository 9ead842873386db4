//! Polynomials as lists of terms.

use crate::linear_algebra::Vector;
use crate::rational::{real_pow_nat, RationalNumber};
use vstd::prelude::*;

verus! {

/// One term `coefficient * x^exponent` of a polynomial.
#[derive(Debug)]
pub struct Term {
    pub coefficient: RationalNumber,
    pub exponent: usize,
}

impl View for Term {
    type V = (real, nat);

    /// The coefficient and the exponent.
    open spec fn view(&self) -> (real, nat) {
        (self.coefficient@, self.exponent as nat)
    }
}

/// The terms of `s` as pairs of coefficient and exponent.
pub open spec fn terms_of(s: Seq<Term>) -> Seq<(real, nat)> {
    s.map_values(|t: Term| t@)
}

/// The value at `x` of the sum of the terms `p`.
pub open spec fn poly_value(p: Seq<(real, nat)>, x: real) -> real
    decreases p.len(),
{
    if p.len() == 0 {
        0real
    } else {
        poly_value(p.drop_last(), x) + p.last().0 * real_pow_nat(x, p.last().1)
    }
}

/// Whether `p` is in canonical form: exponents fall strictly from term to
/// term, and no coefficient is zero, but for the zero polynomial, which is the
/// one term `0 * x^0`.
pub open spec fn canonical(p: Seq<(real, nat)>) -> bool {
    &&& p.len() >= 1
    &&& forall|a: int, b: int| 0 <= a < b < p.len() ==> (#[trigger] p[a]).1 > (#[trigger] p[b]).1
    &&& (p == seq![(0real, 0nat)] || forall|a: int| 0 <= a < p.len() ==> (#[trigger] p[a]).0 != 0real)
}

impl Term {
    /// The value of the term at the integer `x`.
    pub fn apply(&self, x: i32) -> (r: RationalNumber)
        ensures
            r@ == self@.0 * real_pow_nat(x as real, self@.1),
    {
        let at = RationalNumber::from_integer(x as i64);
        self.apply_ratio(&at)
    }

    /// The value of the term at `x`.
    pub fn apply_ratio(&self, x: &RationalNumber) -> (r: RationalNumber)
        ensures
            r@ == self@.0 * real_pow_nat(x@, self@.1),
    {
        let mut power = RationalNumber::one();
        let mut e: usize = 0;
        while e < self.exponent
            invariant
                e <= self.exponent,
                power@ == real_pow_nat(x@, e as nat),
            decreases self.exponent - e,
        {
            power = power.mul(x);
            e += 1;
        }
        self.coefficient.mul(&power)
    }
}

/// A polynomial with rational coefficients.
#[derive(Debug)]
pub struct Polynomial {
    pub terms: Vec<Term>,
}

impl View for Polynomial {
    type V = Seq<(real, nat)>;

    /// The terms, each as coefficient and exponent, highest exponent first.
    open spec fn view(&self) -> Seq<(real, nat)> {
        terms_of(self.terms@)
    }
}

impl Polynomial {
    /// Whether the terms are in canonical form.
    pub open spec fn wf(&self) -> bool {
        canonical(self@)
    }

    /// The degree: the highest exponent.
    pub open spec fn degree(&self) -> nat {
        self@[0].1
    }

    /// The value of the polynomial at `x`.
    pub open spec fn eval(&self, x: real) -> real {
        poly_value(self@, x)
    }

    /// The value of the polynomial at `x`.
    pub fn apply_ratio(&self, x: &RationalNumber) -> (r: RationalNumber)
        ensures
            r@ == self.eval(x@),
    {
        let mut sum = RationalNumber::zero();
        let mut i: usize = 0;
        while i < self.terms.len()
            invariant
                i <= self.terms.len(),
                sum@ == poly_value(self@.take(i as int), x@),
            decreases self.terms.len() - i,
        {
            proof {
                assert(self@.take(i + 1).drop_last() =~= self@.take(i as int));
                assert(self@.take(i + 1).last() == self.terms@[i as int]@);
            }
            sum = sum.add(&self.terms[i].apply_ratio(x));
            i += 1;
        }
        assert(self@.take(self.terms.len() as int) =~= self@);
        sum
    }

    /// The constant polynomial `value`.
    pub fn constant(value: &RationalNumber) -> (r: Polynomial)
        ensures
            r@ == seq![(value@, 0nat)],
            r.wf(),
    {
        let mut terms: Vec<Term> = Vec::new();
        terms.push(Term { coefficient: value.duplicate(), exponent: 0 });
        let r = Polynomial { terms };
        assert(r@ =~= seq![(value@, 0nat)]);
        r
    }
}

/// The value at `x` of the polynomial with the coefficients `c`, highest
/// power first.
pub open spec fn horner(c: Seq<real>, x: real) -> real
    decreases c.len(),
{
    if c.len() == 0 {
        0real
    } else {
        horner(c.drop_last(), x) * x + c.last()
    }
}

/// The terms that the first `j` of the coefficients `c` give: coefficient `t`
/// goes with the power `c.len() - 1 - t`, and a zero gives no term.
pub open spec fn dense_terms(c: Seq<real>, j: int) -> Seq<(real, nat)>
    decreases j,
{
    if j <= 0 {
        Seq::empty()
    } else {
        let before = dense_terms(c, j - 1);
        if c[j - 1] != 0real {
            before.push((c[j - 1], (c.len() - j) as nat))
        } else {
            before
        }
    }
}

/// The polynomial with the coefficients `c`, highest power first, in
/// canonical form.
pub open spec fn polynomial_of(c: Seq<real>) -> Seq<(real, nat)> {
    let terms = dense_terms(c, c.len() as int);
    if terms.len() == 0 {
        seq![(0real, 0nat)]
    } else {
        terms
    }
}

/// The terms of `dense_terms(c, j)` have coefficients other than zero and
/// exponents that fall strictly, none below `c.len() - j`.
pub proof fn lemma_dense_terms_shape(c: Seq<real>, j: int)
    requires
        0 <= j <= c.len(),
    ensures
        forall|a: int|
            0 <= a < dense_terms(c, j).len() ==> (#[trigger] dense_terms(c, j)[a]).0 != 0real,
        forall|a: int|
            0 <= a < dense_terms(c, j).len() ==> c.len() - j <= (#[trigger] dense_terms(
                c,
                j,
            )[a]).1 < c.len(),
        forall|a: int, b: int|
            0 <= a < b < dense_terms(c, j).len() ==> (#[trigger] dense_terms(c, j)[a]).1 > (
            #[trigger] dense_terms(c, j)[b]).1,
    decreases j,
{
    if j > 0 {
        lemma_dense_terms_shape(c, j - 1);
        let before = dense_terms(c, j - 1);
        let now = dense_terms(c, j);
        if c[j - 1] != 0real {
            assert(now == before.push((c[j - 1], (c.len() - j) as nat)));
            assert forall|a: int| 0 <= a < now.len() implies (#[trigger] now[a]).0 != 0real
                && c.len() - j <= now[a].1 < c.len() by {
                if a < before.len() {
                    assert(now[a] == before[a]);
                }
            }
            assert forall|a: int, b: int| 0 <= a < b < now.len() implies (#[trigger] now[a]).1 > (
            #[trigger] now[b]).1 by {
                assert(now[a] == before[a]);
                if b < before.len() {
                    assert(now[b] == before[b]);
                }
            }
        } else {
            assert(now == before);
        }
    }
}

/// `polynomial_of(c)` is canonical, of degree below the number of
/// coefficients.
pub proof fn lemma_polynomial_of_canonical(c: Seq<real>)
    requires
        c.len() >= 1,
    ensures
        canonical(polynomial_of(c)),
        polynomial_of(c)[0].1 < c.len(),
{
    lemma_dense_terms_shape(c, c.len() as int);
}

/// The value of a constant polynomial.
pub proof fn lemma_constant_value(v: real, x: real)
    ensures
        poly_value(seq![(v, 0nat)], x) == v,
{
    let p = seq![(v, 0nat)];
    assert(p.drop_last() =~= Seq::<(real, nat)>::empty());
    assert(poly_value(p.drop_last(), x) == 0real);
    assert(p.last() == (v, 0nat));
    assert(v * 1real == v) by (nonlinear_arith);
}

/// The value of the first terms is that of the first coefficients, times the
/// power of `x` that the coefficients still to come shift them by.
pub proof fn lemma_dense_terms_value(c: Seq<real>, j: int, x: real)
    requires
        0 <= j <= c.len(),
    ensures
        poly_value(dense_terms(c, j), x) == horner(c.take(j), x) * real_pow_nat(
            x,
            (c.len() - j) as nat,
        ),
    decreases j,
{
    let shift = real_pow_nat(x, (c.len() - j) as nat);
    if j == 0 {
        assert(c.take(0) =~= Seq::<real>::empty());
        assert(0real * shift == 0real) by (nonlinear_arith);
    } else {
        lemma_dense_terms_value(c, j - 1, x);
        let before = dense_terms(c, j - 1);
        let h = horner(c.take(j - 1), x);
        let entry = c[j - 1];
        assert(c.take(j).drop_last() =~= c.take(j - 1));
        assert(c.take(j).last() == entry);
        assert(real_pow_nat(x, (c.len() - j + 1) as nat) == shift * x);
        assert(poly_value(before, x) == h * (shift * x));
        if entry != 0real {
            let after = before.push((entry, (c.len() - j) as nat));
            assert(after.drop_last() =~= before);
            assert(poly_value(after, x) == poly_value(before, x) + entry * shift);
            assert(h * (shift * x) + entry * shift == (h * x + entry) * shift)
                by (nonlinear_arith);
        } else {
            assert(h * (shift * x) == (h * x + 0real) * shift) by (nonlinear_arith);
        }
    }
}

/// The value of `polynomial_of(c)` is the value of the polynomial with the
/// coefficients `c`.
pub proof fn lemma_polynomial_of_value(c: Seq<real>, x: real)
    ensures
        poly_value(polynomial_of(c), x) == horner(c, x),
{
    let n = c.len() as int;
    lemma_dense_terms_value(c, n, x);
    assert(c.take(n) =~= c);
    let h = horner(c, x);
    assert(h * 1real == h) by (nonlinear_arith);
    if dense_terms(c, n).len() == 0 {
        lemma_constant_value(0real, x);
    }
}

/// The coefficients of the constant polynomial `v` among polynomials with
/// `n` coefficients: zeros, then `v`.
pub open spec fn constant_coefficients(v: real, n: nat) -> Seq<real> {
    Seq::new(
        n,
        |j: int|
            if j == n - 1 {
                v
            } else {
                0real
            },
    )
}

/// The polynomial with the coefficients of a constant is that constant, and
/// has its value everywhere.
pub proof fn lemma_constant_coefficients(v: real, n: nat, x: real)
    requires
        n >= 1,
    ensures
        polynomial_of(constant_coefficients(v, n)) == seq![(v, 0nat)],
        horner(constant_coefficients(v, n), x) == v,
{
    let c = constant_coefficients(v, n);
    lemma_zero_prefix(c, n - 1, x);
    assert(c.take(n as int) =~= c);
    assert(c.drop_last() =~= c.take(n - 1));
    assert(0real * x == 0real) by (nonlinear_arith);
    let terms = dense_terms(c, n as int);
    if v != 0real {
        assert(terms =~= seq![(v, 0nat)]);
    } else {
        assert(terms.len() == 0);
    }
}

/// Coefficients that are zero up to `j` give no terms and the value zero.
pub proof fn lemma_zero_prefix(c: Seq<real>, j: int, x: real)
    requires
        0 <= j <= c.len(),
        forall|t: int| 0 <= t < j ==> c[t] == 0real,
    ensures
        dense_terms(c, j).len() == 0,
        horner(c.take(j), x) == 0real,
    decreases j,
{
    if j > 0 {
        lemma_zero_prefix(c, j - 1, x);
        assert(c.take(j).drop_last() =~= c.take(j - 1));
        assert(c.take(j).last() == 0real);
        assert(0real * x == 0real) by (nonlinear_arith);
    } else {
        assert(c.take(0) =~= Seq::<real>::empty());
    }
}

impl Polynomial {
    /// The polynomial with the coefficients `c`, highest power first: its
    /// terms are the coefficients that are not zero.
    pub fn from_coefficients(c: &Vector) -> (r: Polynomial)
        ensures
            r@ == polynomial_of(c@),
    {
        let n = c.len();
        let mut terms: Vec<Term> = Vec::new();
        let mut j: usize = 0;
        while j < n
            invariant
                j <= n,
                n == c@.len(),
                terms_of(terms@) == dense_terms(c@, j as int),
            decreases n - j,
        {
            let ghost before = terms_of(terms@);
            let entry = c.index(j);
            if !entry.is_zero() {
                terms.push(Term { coefficient: entry.duplicate(), exponent: n - 1 - j });
                assert(terms_of(terms@) =~= before.push((c@[j as int], (n - 1 - j) as nat)));
            }
            j += 1;
        }
        if terms.len() == 0 {
            let zero = RationalNumber::zero();
            Polynomial::constant(&zero)
        } else {
            Polynomial { terms }
        }
    }
}

} // verus!
