//! The Vandermonde matrix of a list of numbers, and when it is singular.

use crate::linear_algebra::{annihilates, dot, lemma_dot_scaled, nonzero, scaled, singular};
use crate::polynomial::horner;
use crate::rational::real_pow_nat;
use vstd::prelude::*;

verus! {

/// The row of powers `x^(n-1), ..., x, 1`.
pub open spec fn vandermonde_row(x: real, n: nat) -> Seq<real> {
    Seq::new(n, |j: int| real_pow_nat(x, (n - 1 - j) as nat))
}

/// The matrix whose row `i` holds the powers of `xs[i]`, highest first.
pub open spec fn vandermonde(xs: Seq<real>) -> Seq<Seq<real>> {
    Seq::new(xs.len(), |i: int| vandermonde_row(xs[i], xs.len()))
}

/// Whether two entries of `xs` are equal.
pub open spec fn has_repeat(xs: Seq<real>) -> bool {
    exists|a: int, b: int| 0 <= a < b < xs.len() && #[trigger] xs[a] == #[trigger] xs[b]
}

/// A row of powers times a list of coefficients is the value of the
/// polynomial with those coefficients.
pub proof fn lemma_vandermonde_dot(x: real, c: Seq<real>)
    ensures
        dot(vandermonde_row(x, c.len()), c) == horner(c, x),
    decreases c.len(),
{
    if c.len() > 0 {
        let n = c.len();
        let row = vandermonde_row(x, n);
        let shorter = vandermonde_row(x, (n - 1) as nat);
        lemma_vandermonde_dot(x, c.drop_last());
        assert(row.drop_last() =~= scaled(shorter, x));
        lemma_dot_scaled(shorter, c.drop_last(), x);
        assert(row.last() == 1real);
        let z = c.last();
        assert(1real * z == z) by (nonlinear_arith);
    }
}

/// The quotient of the polynomial `c` by `x - r`: its coefficient `j` is the
/// value at `r` of the first `j + 1` coefficients of `c`.
pub open spec fn quotient(c: Seq<real>, r: real) -> Seq<real> {
    Seq::new((c.len() - 1) as nat, |j: int| horner(c.take(j + 1), r))
}

/// Division with remainder by `x - r`: the remainder is the value at `r`.
pub proof fn lemma_factor(c: Seq<real>, r: real, x: real)
    requires
        c.len() >= 1,
    ensures
        horner(c, x) == (x - r) * horner(quotient(c, r), x) + horner(c, r),
    decreases c.len(),
{
    let shorter = c.drop_last();
    let q = quotient(c, r);
    if c.len() == 1 {
        assert(q =~= Seq::<real>::empty());
        assert(horner(shorter, x) == 0real);
        assert(horner(shorter, r) == 0real);
        assert((x - r) * 0real == 0real && 0real * x == 0real && 0real * r == 0real)
            by (nonlinear_arith);
    } else {
        lemma_factor(shorter, r, x);
        let q1 = quotient(shorter, r);
        assert(q.drop_last() =~= q1) by {
            assert forall|j: int| 0 <= j < q1.len() implies q.drop_last()[j] == q1[j] by {
                assert(c.take(j + 1) =~= shorter.take(j + 1));
            }
        }
        assert(q.last() == horner(shorter, r)) by {
            assert(c.take(c.len() - 1) =~= shorter);
        }
        let hq = horner(q1, x);
        let hr = horner(shorter, r);
        let hx = horner(shorter, x);
        let last = c.last();
        assert(horner(q, x) == hq * x + hr);
        assert(hx == (x - r) * hq + hr);
        assert(hx * x + last == (x - r) * (hq * x + hr) + (hr * r + last)) by (nonlinear_arith)
            requires
                hx == (x - r) * hq + hr,
        ;
    }
}

/// A polynomial with as many coefficients as it has distinct roots is zero.
pub proof fn lemma_roots(c: Seq<real>, xs: Seq<real>)
    requires
        c.len() == xs.len(),
        !has_repeat(xs),
        forall|i: int| 0 <= i < xs.len() ==> horner(c, #[trigger] xs[i]) == 0real,
    ensures
        forall|j: int| 0 <= j < c.len() ==> #[trigger] c[j] == 0real,
    decreases c.len(),
{
    if c.len() > 0 {
        let n = c.len() as int;
        let r = xs.last();
        let q = quotient(c, r);
        let rest = xs.drop_last();
        assert(xs[n - 1] == r);
        assert(horner(c, r) == 0real);
        assert forall|i: int| 0 <= i < rest.len() implies horner(q, #[trigger] rest[i])
            == 0real by {
            let x = xs[i];
            lemma_factor(c, r, x);
            assert(x != r) by {
                if x == r {
                    assert(xs[i] == xs[n - 1]);
                    assert(has_repeat(xs));
                }
            }
            let h = horner(q, x);
            assert(h == 0real) by (nonlinear_arith)
                requires
                    (x - r) * h == 0real,
                    x != r,
            ;
        }
        assert(!has_repeat(rest)) by {
            if has_repeat(rest) {
                let (a, b) = choose|a: int, b: int|
                    0 <= a < b < rest.len() && #[trigger] rest[a] == #[trigger] rest[b];
                assert(xs[a] == xs[b]);
                assert(has_repeat(xs));
            }
        }
        lemma_roots(q, rest);
        assert forall|j: int| 0 <= j < c.len() implies #[trigger] c[j] == 0real by {
            let upto = c.take(j + 1);
            assert(upto.drop_last() =~= c.take(j));
            assert(upto.last() == c[j]);
            let before = horner(c.take(j), r);
            assert(horner(upto, r) == before * r + c[j]);
            if j < n - 1 {
                assert(q[j] == horner(upto, r));
            } else {
                assert(upto =~= c);
            }
            if j == 0 {
                assert(before == 0real);
            } else {
                assert(q[j - 1] == before);
            }
            assert(0real * r == 0real) by (nonlinear_arith);
        }
    }
}

/// The coefficients of `c(x) * (x - r)`.
pub open spec fn times_linear(c: Seq<real>, r: real) -> Seq<real> {
    Seq::new(
        c.len() + 1,
        |j: int|
            (if j < c.len() {
                c[j]
            } else {
                0real
            }) - (if j >= 1 {
                c[j - 1] * r
            } else {
                0real
            }),
    )
}

/// `times_linear` multiplies the value by `x - r`.
pub proof fn lemma_times_linear(c: Seq<real>, r: real, x: real)
    ensures
        horner(times_linear(c, r), x) == horner(c, x) * (x - r),
    decreases c.len(),
{
    let t = times_linear(c, r);
    if c.len() == 0 {
        assert(t.drop_last() =~= Seq::<real>::empty());
        assert(horner(t.drop_last(), x) == 0real);
        assert(t.last() == 0real);
        assert(0real * x == 0real && 0real * (x - r) == 0real) by (nonlinear_arith);
    } else {
        let shorter = c.drop_last();
        let t1 = times_linear(shorter, r);
        lemma_times_linear(shorter, r, x);
        let head = t.drop_last();
        assert(head.drop_last() =~= t1.drop_last());
        assert(head.last() == t1.last() + c.last());
        assert(t.last() == -(c.last() * r));
        let inner = horner(t1.drop_last(), x);
        let hs = horner(shorter, x);
        let last = c.last();
        let tl = t1.last();
        assert(horner(t1, x) == inner * x + tl);
        assert(horner(head, x) == inner * x + (tl + last));
        assert((inner * x + (tl + last)) * x + (-(last * r)) == (hs * x + last) * (x - r))
            by (nonlinear_arith)
            requires
                inner * x + tl == hs * (x - r),
        ;
    }
}

/// The monic polynomial whose roots are `rs`.
pub open spec fn root_product(rs: Seq<real>) -> Seq<real>
    decreases rs.len(),
{
    if rs.len() == 0 {
        seq![1real]
    } else {
        times_linear(root_product(rs.drop_last()), rs.last())
    }
}

/// `root_product(rs)` has one coefficient more than roots, leads with one,
/// and vanishes at every entry of `rs`.
pub proof fn lemma_root_product(rs: Seq<real>, x: real)
    ensures
        root_product(rs).len() == rs.len() + 1,
        root_product(rs)[0] == 1real,
        rs.contains(x) ==> horner(root_product(rs), x) == 0real,
    decreases rs.len(),
{
    if rs.len() > 0 {
        let before = root_product(rs.drop_last());
        lemma_root_product(rs.drop_last(), x);
        lemma_times_linear(before, rs.last(), x);
        if rs.contains(x) {
            let h = horner(before, x);
            if x == rs.last() {
                assert(h * (x - rs.last()) == 0real) by (nonlinear_arith)
                    requires
                        x == rs.last(),
                ;
            } else {
                let i = choose|i: int| 0 <= i < rs.len() && rs[i] == x;
                assert(rs.drop_last()[i] == x);
                assert(rs.drop_last().contains(x));
                assert(0real * (x - rs.last()) == 0real) by (nonlinear_arith);
            }
        }
    }
}

/// The Vandermonde matrix of distinct numbers is not singular.
pub proof fn lemma_distinct_not_singular(xs: Seq<real>)
    requires
        !has_repeat(xs),
    ensures
        !singular(vandermonde(xs)),
{
    let m = vandermonde(xs);
    assert forall|v: Seq<real>| #[trigger] annihilates(m, v) && v.len() == m.len() implies !nonzero(
        v,
    ) by {
        assert forall|i: int| 0 <= i < xs.len() implies horner(v, #[trigger] xs[i]) == 0real by {
            lemma_vandermonde_dot(xs[i], v);
            assert(dot(m[i], v) == 0real);
        }
        lemma_roots(v, xs);
    }
}

/// The Vandermonde matrix of numbers two of which are equal is singular.
pub proof fn lemma_repeat_singular(xs: Seq<real>)
    requires
        has_repeat(xs),
    ensures
        singular(vandermonde(xs)),
{
    let (a, b) = choose|a: int, b: int|
        0 <= a < b < xs.len() && #[trigger] xs[a] == #[trigger] xs[b];
    let rs = xs.remove(b);
    let v = root_product(rs);
    let m = vandermonde(xs);
    lemma_root_product(rs, xs[a]);
    assert forall|i: int| 0 <= i < m.len() implies dot(#[trigger] m[i], v) == 0real by {
        let x = xs[i];
        if i < b {
            assert(rs[i] == x);
        } else if i > b {
            assert(rs[i - 1] == x);
        } else {
            assert(rs[a] == x);
        }
        assert(rs.contains(x));
        lemma_root_product(rs, x);
        lemma_vandermonde_dot(x, v);
    }
    assert(v[0] != 0real);
    assert(nonzero(v));
    assert(annihilates(m, v));
}

/// A Vandermonde matrix is singular exactly where two of its numbers are
/// equal.
pub proof fn lemma_singular_iff_repeat(xs: Seq<real>)
    ensures
        singular(vandermonde(xs)) <==> has_repeat(xs),
{
    if has_repeat(xs) {
        lemma_repeat_singular(xs);
    } else {
        lemma_distinct_not_singular(xs);
    }
}

} // verus!
