//! The polynomial through given points: the solution of the system of
//! equations that its coefficients satisfy.

use crate::error::FitError;
use crate::linear_algebra::{coefficients, singular, solve, values_of, Matrix, Vector};
use crate::polynomial::{
    constant_coefficients, horner, lemma_constant_coefficients, lemma_constant_value,
    lemma_polynomial_of_canonical, lemma_polynomial_of_value, poly_value, polynomial_of,
    Polynomial,
};
use crate::rational::{real_pow_nat, RationalNumber};
use crate::util::all_equal;
use crate::uniqueness::is_interpolant;
use crate::vandermonde::{
    has_repeat, lemma_singular_iff_repeat, lemma_vandermonde_dot, vandermonde, vandermonde_row,
};
use vstd::prelude::*;
use vstd::std_specs::cmp::PartialEqSpec;

verus! {

/// The x-coordinates of `points`.
pub open spec fn abscissas(points: Seq<(RationalNumber, RationalNumber)>) -> Seq<real> {
    points.map_values(|p: (RationalNumber, RationalNumber)| p.0@)
}

/// The y-coordinates of `points`.
pub open spec fn ordinates(points: Seq<(RationalNumber, RationalNumber)>) -> Seq<real> {
    points.map_values(|p: (RationalNumber, RationalNumber)| p.1@)
}

/// Whether `p` takes the value `ys[i]` at every `xs[i]`.
pub open spec fn interpolates(p: Seq<(real, nat)>, xs: Seq<real>, ys: Seq<real>) -> bool {
    forall|i: int| 0 <= i < xs.len() ==> poly_value(p, #[trigger] xs[i]) == ys[i]
}

/// Whether `p` is the polynomial, in canonical form, whose coefficients
/// interpolate the points: there is one such list of coefficients where no
/// two places are the same.
pub open spec fn fits(p: Seq<(real, nat)>, xs: Seq<real>, ys: Seq<real>) -> bool {
    exists|c: Seq<real>| #[trigger] is_interpolant(c, xs, ys) && p == polynomial_of(c)
}

/// The powers `1, x, ..., x^(n-1)`.
fn powers(x: &RationalNumber, n: usize) -> (r: Vec<RationalNumber>)
    ensures
        r.len() == n,
        forall|e: int| 0 <= e < n ==> (#[trigger] r@[e])@ == real_pow_nat(x@, e as nat),
{
    let mut out: Vec<RationalNumber> = Vec::new();
    let mut power = RationalNumber::one();
    let mut e: usize = 0;
    while e < n
        invariant
            e <= n,
            out.len() == e,
            power@ == real_pow_nat(x@, e as nat),
            forall|t: int| 0 <= t < e ==> (#[trigger] out@[t])@ == real_pow_nat(x@, t as nat),
        decreases n - e,
    {
        let next = power.mul(x);
        out.push(power);
        power = next;
        e += 1;
    }
    out
}

/// The row of the interpolation system for the point `(x, y)`: the powers of
/// `x` from `n - 1` down to zero, then `y`.
fn system_row(x: &RationalNumber, y: &RationalNumber, n: usize) -> (r: Vector)
    requires
        n < usize::MAX,
    ensures
        r@ == vandermonde_row(x@, n as nat).push(y@),
{
    let pows = powers(x, n);
    let mut out: Vec<RationalNumber> = Vec::new();
    let mut j: usize = 0;
    while j < n
        invariant
            j <= n,
            pows.len() == n,
            out.len() == j,
            forall|e: int| 0 <= e < n ==> (#[trigger] pows@[e])@ == real_pow_nat(x@, e as nat),
            forall|t: int| 0 <= t < j ==> (#[trigger] out@[t])@ == real_pow_nat(x@, (n - 1 - t) as nat),
        decreases n - j,
    {
        out.push(pows[n - 1 - j].duplicate());
        j += 1;
    }
    out.push(y.duplicate());
    assert(values_of(out@) =~= vandermonde_row(x@, n as nat).push(y@));
    Vector { v: out }
}

/// The interpolation system of `points`.
fn interpolation_system(points: &Vec<(RationalNumber, RationalNumber)>) -> (r: Matrix)
    requires
        points.len() < usize::MAX,
    ensures
        r.wf(),
        r.rows == points.len(),
        r.columns == points.len() + 1,
        forall|i: int|
            0 <= i < points.len() ==> #[trigger] r@[i] == vandermonde_row(
                abscissas(points@)[i],
                points.len() as nat,
            ).push(ordinates(points@)[i]),
{
    let n = points.len();
    let mut rows: Vec<Vector> = Vec::new();
    let mut i: usize = 0;
    while i < n
        invariant
            i <= n,
            n == points.len(),
            n < usize::MAX,
            rows.len() == i,
            forall|t: int|
                0 <= t < i ==> (#[trigger] rows@[t])@ == vandermonde_row(
                    abscissas(points@)[t],
                    n as nat,
                ).push(ordinates(points@)[t]),
        decreases n - i,
    {
        rows.push(system_row(&points[i].0, &points[i].1, n));
        i += 1;
    }
    let r = Matrix { m: rows, rows: n, columns: n + 1 };
    assert forall|t: int| 0 <= t < n implies #[trigger] r@[t] == vandermonde_row(
        abscissas(points@)[t],
        n as nat,
    ).push(ordinates(points@)[t]) by {
        assert(r@[t] == rows@[t]@);
    }
    r
}

/// The coefficients of the interpolation system are the Vandermonde matrix.
proof fn lemma_system_coefficients(a: Seq<Seq<real>>, xs: Seq<real>, ys: Seq<real>)
    requires
        a.len() == xs.len(),
        xs.len() == ys.len(),
        forall|i: int|
            0 <= i < xs.len() ==> #[trigger] a[i] == vandermonde_row(xs[i], xs.len()).push(ys[i]),
    ensures
        coefficients(a) == vandermonde(xs),
{
    assert forall|i: int| 0 <= i < xs.len() implies #[trigger] coefficients(a)[i] == vandermonde(
        xs,
    )[i] by {
        assert(a[i].take(xs.len() as int) =~= vandermonde_row(xs[i], xs.len()));
    }
    assert(coefficients(a) =~= vandermonde(xs));
}

/// The places of `n` samples, the first of them at `starting`: consecutive
/// integers.
pub open spec fn sample_abscissas(starting: int, n: nat) -> Seq<real> {
    Seq::new(n, |i: int| (starting + i) as real)
}

/// The points of the samples `values`, the first of them at `starting`.
fn sample_points(values: &Vec<RationalNumber>, starting: i32) -> (r: Vec<
    (RationalNumber, RationalNumber),
>)
    ensures
        r.len() == values.len(),
        abscissas(r@) == sample_abscissas(starting as int, values.len() as nat),
        ordinates(r@) == values_of(values@),
{
    let one = RationalNumber::one();
    let mut at = RationalNumber::from_integer(starting as i64);
    let mut out: Vec<(RationalNumber, RationalNumber)> = Vec::new();
    let mut i: usize = 0;
    while i < values.len()
        invariant
            i <= values.len(),
            one@ == 1real,
            at@ == (starting + i) as real,
            out.len() == i,
            forall|t: int| 0 <= t < i ==> (#[trigger] out@[t]).0@ == (starting + t) as real,
            forall|t: int| 0 <= t < i ==> (#[trigger] out@[t]).1@ == values@[t]@,
        decreases values.len() - i,
    {
        let next = at.add(&one);
        out.push((at, values[i].duplicate()));
        at = next;
        i += 1;
    }
    assert(abscissas(out@) =~= sample_abscissas(starting as int, values.len() as nat));
    assert(ordinates(out@) =~= values_of(values@));
    out
}

/// Consecutive integers are distinct.
pub proof fn lemma_samples_distinct(starting: int, n: nat)
    ensures
        !has_repeat(sample_abscissas(starting, n)),
{
    let xs = sample_abscissas(starting, n);
    if has_repeat(xs) {
        let (a, b) = choose|a: int, b: int|
            0 <= a < b < xs.len() && #[trigger] xs[a] == #[trigger] xs[b];
        assert(xs[a] == (starting + a) as real);
        assert(xs[b] == (starting + b) as real);
    }
}

/// The polynomial through `points`, with its failure stated of the system of
/// equations: there is none exactly where the Vandermonde matrix is singular.
pub(crate) fn fit_points(points: &Vec<(RationalNumber, RationalNumber)>) -> (r: Option<Polynomial>)
    requires
        2 <= points.len() < usize::MAX,
    ensures
        r is None <==> singular(vandermonde(abscissas(points@))),
        r matches Some(p) ==> {
            &&& p.wf()
            &&& p.degree() < points.len()
            &&& interpolates(p@, abscissas(points@), ordinates(points@))
            &&& fits(p@, abscissas(points@), ordinates(points@))
        },
{
    let n = points.len();
    let ghost xs = abscissas(points@);
    let ghost ys = ordinates(points@);
    let system = interpolation_system(points);
    proof {
        lemma_system_coefficients(system@, xs, ys);
    }
    match solve(&system) {
        None => None,
        Some(c) => {
            let p = Polynomial::from_coefficients(&c);
            proof {
                lemma_polynomial_of_canonical(c@);
                assert forall|i: int| 0 <= i < xs.len() implies poly_value(p@, #[trigger] xs[i])
                    == ys[i] by {
                    let row = vandermonde_row(xs[i], n as nat);
                    lemma_polynomial_of_value(c@, xs[i]);
                    lemma_vandermonde_dot(xs[i], c@);
                    assert(system@[i] == row.push(ys[i]));
                    assert(system@[i].take(n as int) =~= row);
                    assert(system@[i][n as int] == ys[i]);
                }
                assert(is_interpolant(c@, xs, ys)) by {
                    assert forall|i: int| 0 <= i < xs.len() implies horner(c@, #[trigger] xs[i])
                        == ys[i] by {
                        lemma_polynomial_of_value(c@, xs[i]);
                    }
                }
            }
            Some(p)
        },
    }
}

impl Polynomial {
    /// The polynomial of degree below the number of points that passes
    /// through every one of `points`.
    ///
    /// Fewer than two points are `InsufficientData`. Two points with the same
    /// x-coordinate make the system of equations singular: `SingularSystem`.
    /// For any other input the result is the polynomial, in canonical form.
    pub fn from_points(points: &Vec<(RationalNumber, RationalNumber)>) -> (r: Result<
        Polynomial,
        FitError,
    >)
        requires
            points.len() < usize::MAX,
        ensures
            match r {
                Ok(p) => {
                    &&& points.len() >= 2
                    &&& !has_repeat(abscissas(points@))
                    &&& p.wf()
                    &&& p.degree() < points.len()
                    &&& interpolates(p@, abscissas(points@), ordinates(points@))
                    &&& fits(p@, abscissas(points@), ordinates(points@))
                },
                Err(FitError::InsufficientData) => points.len() < 2,
                Err(FitError::SingularSystem) => points.len() >= 2 && has_repeat(
                    abscissas(points@),
                ),
                Err(_) => false,
            },
    {
        if points.len() < 2 {
            return Err(FitError::InsufficientData);
        }
        proof {
            lemma_singular_iff_repeat(abscissas(points@));
        }
        match fit_points(points) {
            None => Err(FitError::SingularSystem),
            Some(p) => Ok(p),
        }
    }

    /// The polynomial of degree below the number of samples that takes the
    /// value `values[i]` at `starting + i`, for every `i`.
    ///
    /// Fewer than two samples are `InsufficientData`; any other input has a
    /// result. Samples that are all equal give the constant polynomial.
    pub fn from_values(values: &Vec<RationalNumber>, starting: i32) -> (r: Result<
        Polynomial,
        FitError,
    >)
        requires
            values.len() < usize::MAX,
        ensures
            match r {
                Ok(p) => {
                    &&& values.len() >= 2
                    &&& p.wf()
                    &&& p.degree() < values.len()
                    &&& interpolates(
                        p@,
                        sample_abscissas(starting as int, values.len() as nat),
                        values_of(values@),
                    )
                    &&& fits(
                        p@,
                        sample_abscissas(starting as int, values.len() as nat),
                        values_of(values@),
                    )
                    &&& (forall|i: int| 0 <= i < values.len() ==> (#[trigger] values[i])@
                        == values[0]@) ==> p@ == seq![(values[0]@, 0nat)]
                },
                Err(FitError::InsufficientData) => values.len() < 2,
                Err(_) => false,
            },
    {
        if values.len() < 2 {
            return Err(FitError::InsufficientData);
        }
        let ghost xs = sample_abscissas(starting as int, values.len() as nat);
        if all_same(values) {
            let p = Polynomial::constant(&values[0]);
            proof {
                assert forall|i: int| 0 <= i < xs.len() implies poly_value(p@, #[trigger] xs[i])
                    == values_of(values@)[i] by {
                    lemma_constant_value(values[0]@, xs[i]);
                }
                let c = constant_coefficients(values[0]@, values.len() as nat);
                assert(is_interpolant(c, xs, values_of(values@))) by {
                    assert forall|i: int| 0 <= i < xs.len() implies horner(c, #[trigger] xs[i])
                        == values_of(values@)[i] by {
                        lemma_constant_coefficients(values[0]@, values.len() as nat, xs[i]);
                    }
                }
                lemma_constant_coefficients(values[0]@, values.len() as nat, 0real);
            }
            return Ok(p);
        }
        let points = sample_points(values, starting);
        proof {
            lemma_samples_distinct(starting as int, values.len() as nat);
        }
        match Self::from_points(&points) {
            Ok(p) => Ok(p),
            Err(e) => {
                proof {
                    assert(false);
                }
                Err(e)
            },
        }
    }
}

/// Whether all of `values` are the same number.
fn all_same(values: &Vec<RationalNumber>) -> (r: bool)
    requires
        values.len() > 0,
    ensures
        r <==> forall|i: int| 0 <= i < values.len() ==> (#[trigger] values[i])@ == values[0]@,
{
    let r = all_equal(values);
    proof {
        if r {
            assert forall|i: int| 0 <= i < values.len() implies (#[trigger] values[i])@
                == values[0]@ by {
                assert(values[i].eq_spec(&values[0]));
            }
        } else {
            if forall|i: int| 0 <= i < values.len() ==> (#[trigger] values[i])@ == values[0]@ {
                assert forall|i: int| 0 <= i < values.len() implies (#[trigger] values[i]).eq_spec(
                    &values[0],
                ) by {
                    assert(values[i]@ == values[0]@);
                }
            }
        }
    }
    r
}

} // verus!
