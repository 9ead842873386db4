//! The polynomial through points over distinct places is the only one of its
//! degree.

use crate::linear_algebra::difference_of;
use crate::polynomial::horner;
use crate::vandermonde::{has_repeat, lemma_roots};
use vstd::prelude::*;

verus! {

/// Whether the polynomial with the coefficients `c`, one for each of `xs`,
/// takes the value `ys[i]` at every `xs[i]`.
pub open spec fn is_interpolant(c: Seq<real>, xs: Seq<real>, ys: Seq<real>) -> bool {
    &&& c.len() == xs.len()
    &&& forall|i: int| 0 <= i < xs.len() ==> horner(c, #[trigger] xs[i]) == ys[i]
}

/// A difference times a number is the difference of the products.
proof fn lemma_difference_times(a: real, b: real, x: real)
    by (nonlinear_arith)
    ensures
        (a - b) * x == a * x - b * x,
{
}

/// The value of a difference of polynomials is the difference of their
/// values.
pub proof fn lemma_horner_difference(c: Seq<real>, d: Seq<real>, x: real)
    requires
        c.len() == d.len(),
    ensures
        horner(difference_of(c, d), x) == horner(c, x) - horner(d, x),
    decreases c.len(),
{
    if c.len() > 0 {
        lemma_horner_difference(c.drop_last(), d.drop_last(), x);
        assert(difference_of(c, d).drop_last() =~= difference_of(c.drop_last(), d.drop_last()));
        lemma_difference_times(horner(c.drop_last(), x), horner(d.drop_last(), x), x);
    }
}

/// Through points over distinct places there is one polynomial of degree
/// below their number: two lists of coefficients that both interpolate are
/// the same list.
pub proof fn lemma_interpolant_unique(c: Seq<real>, d: Seq<real>, xs: Seq<real>, ys: Seq<real>)
    requires
        !has_repeat(xs),
        is_interpolant(c, xs, ys),
        is_interpolant(d, xs, ys),
    ensures
        c == d,
{
    let gap = difference_of(c, d);
    assert forall|i: int| 0 <= i < xs.len() implies horner(gap, #[trigger] xs[i]) == 0real by {
        lemma_horner_difference(c, d, xs[i]);
    }
    lemma_roots(gap, xs);
    assert forall|j: int| 0 <= j < c.len() implies c[j] == d[j] by {
        assert(gap[j] == 0real);
    }
    assert(c =~= d);
}

} // verus!
