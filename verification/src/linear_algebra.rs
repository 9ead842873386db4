//! Points, vectors and matrices of rational numbers, and the exact solution of
//! square linear systems by elimination.

use crate::rational::RationalNumber;
use vstd::prelude::*;

verus! {

/// The values of a sequence of rational numbers.
pub open spec fn values_of(s: Seq<RationalNumber>) -> Seq<real> {
    s.map_values(|q: RationalNumber| q@)
}

/// The inner product of `a` and `b`, which have the same length.
pub open spec fn dot(a: Seq<real>, b: Seq<real>) -> real
    decreases a.len(),
{
    if a.len() == 0 {
        0real
    } else {
        dot(a.drop_last(), b.drop_last()) + a.last() * b.last()
    }
}

/// Every entry of `a` times `s`.
pub open spec fn scaled(a: Seq<real>, s: real) -> Seq<real> {
    Seq::new(a.len(), |j: int| a[j] * s)
}

/// The entrywise sum of `a` and `b`.
pub open spec fn sum_of(a: Seq<real>, b: Seq<real>) -> Seq<real> {
    Seq::new(a.len(), |j: int| a[j] + b[j])
}

/// The entrywise difference of `a` and `b`.
pub open spec fn difference_of(a: Seq<real>, b: Seq<real>) -> Seq<real> {
    Seq::new(a.len(), |j: int| a[j] - b[j])
}

/// Every entry of `a` negated.
pub open spec fn negated(a: Seq<real>) -> Seq<real> {
    Seq::new(a.len(), |j: int| -a[j])
}

/// A point of the plane.
#[derive(Debug)]
pub struct Point {
    pub x: RationalNumber,
    pub y: RationalNumber,
}

impl Point {
    /// The sum of the two points, coordinate by coordinate.
    pub fn add(&self, other: &Point) -> (r: Point)
        ensures
            r.x@ == self.x@ + other.x@,
            r.y@ == self.y@ + other.y@,
    {
        Point { x: self.x.add(&other.x), y: self.y.add(&other.y) }
    }

    /// The difference of the two points, coordinate by coordinate.
    pub fn sub(&self, other: &Point) -> (r: Point)
        ensures
            r.x@ == self.x@ - other.x@,
            r.y@ == self.y@ - other.y@,
    {
        Point { x: self.x.sub(&other.x), y: self.y.sub(&other.y) }
    }

    /// The point with both coordinates multiplied by `factor`.
    pub fn mul(&self, factor: &RationalNumber) -> (r: Point)
        ensures
            r.x@ == self.x@ * factor@,
            r.y@ == self.y@ * factor@,
    {
        Point { x: self.x.mul(factor), y: self.y.mul(factor) }
    }
}

/// A vector of rational numbers.
#[derive(Debug)]
pub struct Vector {
    pub v: Vec<RationalNumber>,
}

impl View for Vector {
    type V = Seq<real>;

    open spec fn view(&self) -> Seq<real> {
        values_of(self.v@)
    }
}

impl Vector {
    /// The vector with the entries `v`.
    pub fn new(v: Vec<RationalNumber>) -> (r: Vector)
        ensures
            r.v == v,
            r@ == values_of(v@),
    {
        Vector { v }
    }

    /// The number of entries.
    pub fn len(&self) -> (r: usize)
        ensures
            r == self@.len(),
    {
        self.v.len()
    }

    /// The entry at `i`.
    pub fn index(&self, i: usize) -> (r: &RationalNumber)
        requires
            i < self@.len(),
        ensures
            r@ == self@[i as int],
    {
        &self.v[i]
    }

    /// A copy of `self`.
    pub fn duplicate(&self) -> (r: Vector)
        ensures
            r@ == self@,
    {
        let mut out: Vec<RationalNumber> = Vec::new();
        let mut j: usize = 0;
        while j < self.v.len()
            invariant
                j <= self.v.len(),
                out.len() == j,
                forall|t: int| 0 <= t < j ==> (#[trigger] out@[t])@ == self@[t],
            decreases self.v.len() - j,
        {
            out.push(self.v[j].duplicate());
            j += 1;
        }
        assert(values_of(out@) =~= self@);
        Vector { v: out }
    }

    /// The entrywise sum, for vectors of one length.
    pub fn add(&self, o: &Vector) -> (r: Option<Vector>)
        ensures
            r is Some <==> self@.len() == o@.len(),
            r matches Some(w) ==> w@ == sum_of(self@, o@),
    {
        if self.len() != o.len() {
            return None;
        }
        let mut out: Vec<RationalNumber> = Vec::new();
        let mut j: usize = 0;
        while j < self.v.len()
            invariant
                j <= self.v.len(),
                self@.len() == o@.len(),
                out.len() == j,
                forall|t: int| 0 <= t < j ==> (#[trigger] out@[t])@ == self@[t] + o@[t],
            decreases self.v.len() - j,
        {
            out.push(self.v[j].add(&o.v[j]));
            j += 1;
        }
        assert(values_of(out@) =~= sum_of(self@, o@));
        Some(Vector { v: out })
    }

    /// The entrywise difference, for vectors of one length.
    pub fn sub(&self, o: &Vector) -> (r: Option<Vector>)
        ensures
            r is Some <==> self@.len() == o@.len(),
            r matches Some(w) ==> w@ == difference_of(self@, o@),
    {
        if self.len() != o.len() {
            return None;
        }
        let mut out: Vec<RationalNumber> = Vec::new();
        let mut j: usize = 0;
        while j < self.v.len()
            invariant
                j <= self.v.len(),
                self@.len() == o@.len(),
                out.len() == j,
                forall|t: int| 0 <= t < j ==> (#[trigger] out@[t])@ == self@[t] - o@[t],
            decreases self.v.len() - j,
        {
            out.push(self.v[j].sub(&o.v[j]));
            j += 1;
        }
        assert(values_of(out@) =~= difference_of(self@, o@));
        Some(Vector { v: out })
    }

    /// The vector with every entry negated.
    pub fn neg(&self) -> (r: Vector)
        ensures
            r@ == negated(self@),
    {
        let mut out: Vec<RationalNumber> = Vec::new();
        let mut j: usize = 0;
        while j < self.v.len()
            invariant
                j <= self.v.len(),
                out.len() == j,
                forall|t: int| 0 <= t < j ==> (#[trigger] out@[t])@ == -self@[t],
            decreases self.v.len() - j,
        {
            out.push(self.v[j].neg());
            j += 1;
        }
        assert(values_of(out@) =~= negated(self@));
        Vector { v: out }
    }

    /// The vector with every entry multiplied by `o`.
    pub fn mul(&self, o: &RationalNumber) -> (r: Vector)
        ensures
            r@ == scaled(self@, o@),
    {
        let mut out: Vec<RationalNumber> = Vec::new();
        let mut j: usize = 0;
        while j < self.v.len()
            invariant
                j <= self.v.len(),
                out.len() == j,
                forall|t: int| 0 <= t < j ==> (#[trigger] out@[t])@ == self@[t] * o@,
            decreases self.v.len() - j,
        {
            out.push(self.v[j].mul(o));
            j += 1;
        }
        assert(values_of(out@) =~= scaled(self@, o@));
        Vector { v: out }
    }
}

/// The rows of a list of vectors.
pub open spec fn rows_of(m: Seq<Vector>) -> Seq<Seq<real>> {
    m.map_values(|r: Vector| r@)
}

/// Whether every row of `a` has `columns` entries.
pub open spec fn rectangular(a: Seq<Seq<real>>, columns: int) -> bool {
    forall|i: int| 0 <= i < a.len() ==> (#[trigger] a[i]).len() == columns
}

/// A matrix of rational numbers, held row by row.
#[derive(Debug)]
pub struct Matrix {
    pub m: Vec<Vector>,
    pub rows: usize,
    pub columns: usize,
}

impl View for Matrix {
    type V = Seq<Seq<real>>;

    open spec fn view(&self) -> Seq<Seq<real>> {
        rows_of(self.m@)
    }
}

impl Matrix {
    /// The invariant of the type: `rows` rows of `columns` entries each.
    pub open spec fn wf(&self) -> bool {
        &&& self.m@.len() == self.rows
        &&& rectangular(self@, self.columns as int)
    }

    /// The matrix with the rows `m`, where all of them have `columns` entries.
    pub fn new(m: Vec<Vector>, columns: usize) -> (r: Option<Matrix>)
        ensures
            r is Some <==> rectangular(rows_of(m@), columns as int),
            r matches Some(a) ==> a.wf() && a.m == m && a.columns == columns,
    {
        let mut i: usize = 0;
        while i < m.len()
            invariant
                i <= m.len(),
                forall|t: int| 0 <= t < i ==> (#[trigger] rows_of(m@)[t]).len() == columns,
            decreases m.len() - i,
        {
            if m[i].len() != columns {
                assert(rows_of(m@)[i as int].len() != columns);
                return None;
            }
            i += 1;
        }
        let rows = m.len();
        Some(Matrix { m, rows, columns })
    }

    /// The entry in row `i` and column `j`.
    pub fn index(&self, i: usize, j: usize) -> (r: &RationalNumber)
        requires
            self.wf(),
            i < self.rows,
            j < self.columns,
        ensures
            r@ == self@[i as int][j as int],
    {
        assert(self@[i as int].len() == self.columns);
        self.m[i].index(j)
    }
}

/// Whether every row of `a` is orthogonal to `v`.
pub open spec fn annihilates(a: Seq<Seq<real>>, v: Seq<real>) -> bool {
    forall|i: int| 0 <= i < a.len() ==> dot(#[trigger] a[i], v) == 0real
}

/// Whether `v` is not the zero vector.
pub open spec fn nonzero(v: Seq<real>) -> bool {
    exists|j: int| 0 <= j < v.len() && #[trigger] v[j] != 0real
}

/// The first `n` entries of every row: the coefficients of a system whose
/// rows hold `n` coefficients and then a right-hand side.
pub open spec fn coefficients(a: Seq<Seq<real>>) -> Seq<Seq<real>> {
    Seq::new(a.len(), |i: int| a[i].take(a.len() as int))
}

/// Whether the square matrix `m` sends some vector other than zero to zero.
pub open spec fn singular(m: Seq<Seq<real>>) -> bool {
    exists|v: Seq<real>| #[trigger] annihilates(m, v) && v.len() == m.len() && nonzero(v)
}

/// Whether `c` solves the system `a` of `n` rows, each `n` coefficients
/// followed by a right-hand side.
pub open spec fn solves(a: Seq<Seq<real>>, c: Seq<real>) -> bool {
    &&& c.len() == a.len()
    &&& forall|i: int|
        0 <= i < a.len() ==> dot((#[trigger] a[i]).take(a.len() as int), c) == a[i][a.len() as int]
}

/// Whether the first `k` columns of `a` are those of the identity matrix.
pub open spec fn unit_columns(a: Seq<Seq<real>>, k: int) -> bool {
    forall|i: int, j: int|
        0 <= i < a.len() && 0 <= j < k ==> #[trigger] a[i][j] == (if i == j {
            1real
        } else {
            0real
        })
}

/// Row `i` of the system after column `k` was eliminated with the pivot in row
/// `p`: row `k` is row `p` divided by its entry in column `k`; any other row
/// loses its multiple of that, with row `p` taking what row `k` held.
pub open spec fn eliminated_row(a: Seq<Seq<real>>, k: int, p: int, i: int) -> Seq<real> {
    let pivot = scaled(a[p], 1real / a[p][k]);
    if i == k {
        pivot
    } else {
        let source = if i == p {
            a[k]
        } else {
            a[i]
        };
        difference_of(source, scaled(pivot, source[k]))
    }
}

/// The system after column `k` was eliminated with the pivot in row `p`.
pub open spec fn eliminated(a: Seq<Seq<real>>, k: int, p: int) -> Seq<Seq<real>> {
    Seq::new(a.len(), |i: int| eliminated_row(a, k, p, i))
}

/// The inner product is linear in a scaled left argument.
pub proof fn lemma_dot_scaled(a: Seq<real>, v: Seq<real>, s: real)
    requires
        a.len() == v.len(),
    ensures
        dot(scaled(a, s), v) == dot(a, v) * s,
    decreases a.len(),
{
    if a.len() > 0 {
        lemma_dot_scaled(a.drop_last(), v.drop_last(), s);
        assert(scaled(a, s).drop_last() =~= scaled(a.drop_last(), s));
        let x = dot(a.drop_last(), v.drop_last());
        let y = a.last();
        let z = v.last();
        assert(x * s + (y * s) * z == (x + y * z) * s) by (nonlinear_arith);
    }
}

/// The inner product is linear in a difference on the left.
pub proof fn lemma_dot_difference(a: Seq<real>, b: Seq<real>, v: Seq<real>)
    requires
        a.len() == v.len(),
        b.len() == v.len(),
    ensures
        dot(difference_of(a, b), v) == dot(a, v) - dot(b, v),
    decreases a.len(),
{
    if a.len() > 0 {
        lemma_dot_difference(a.drop_last(), b.drop_last(), v.drop_last());
        assert(difference_of(a, b).drop_last() =~= difference_of(a.drop_last(), b.drop_last()));
        let y = a.last();
        let w = b.last();
        let z = v.last();
        assert((y - w) * z == y * z - w * z) by (nonlinear_arith);
    }
}

/// The inner product of the first `m` entries of a row whose first `m` entries
/// are those of the unit vector `i` picks entry `i` of the other argument.
pub proof fn lemma_dot_unit_prefix(row: Seq<real>, v: Seq<real>, i: int, m: int)
    requires
        0 <= m <= row.len(),
        row.len() == v.len(),
        0 <= i,
        forall|j: int|
            0 <= j < m ==> #[trigger] row[j] == (if i == j {
                1real
            } else {
                0real
            }),
    ensures
        dot(row.take(m), v.take(m)) == (if i < m {
            v[i]
        } else {
            0real
        }),
    decreases m,
{
    if m > 0 {
        lemma_dot_unit_prefix(row, v, i, m - 1);
        assert(row.take(m).drop_last() =~= row.take(m - 1));
        assert(v.take(m).drop_last() =~= v.take(m - 1));
        assert(row.take(m).last() == row[m - 1]);
        assert(v.take(m).last() == v[m - 1]);
        let z = v[m - 1];
        assert(1real * z == z && 0real * z == 0real) by (nonlinear_arith);
    }
}

/// Entries of the right argument that are zero from `m` on add nothing to the
/// inner product.
pub proof fn lemma_dot_zero_tail(row: Seq<real>, v: Seq<real>, m: int, t: int)
    requires
        0 <= m <= t <= row.len(),
        row.len() == v.len(),
        forall|j: int| m <= j < v.len() ==> #[trigger] v[j] == 0real,
    ensures
        dot(row.take(t), v.take(t)) == dot(row.take(m), v.take(m)),
    decreases t - m,
{
    if t > m {
        lemma_dot_zero_tail(row, v, m, t - 1);
        assert(row.take(t).drop_last() =~= row.take(t - 1));
        assert(v.take(t).drop_last() =~= v.take(t - 1));
        assert(v.take(t).last() == v[t - 1]);
        let y = row.take(t).last();
        assert(y * 0real == 0real) by (nonlinear_arith);
    }
}

/// One step of the inner product, at the last entry.
pub proof fn lemma_dot_step(row: Seq<real>, v: Seq<real>, m: int)
    requires
        0 <= m < row.len(),
        row.len() == v.len(),
    ensures
        dot(row.take(m + 1), v.take(m + 1)) == dot(row.take(m), v.take(m)) + row[m] * v[m],
{
    assert(row.take(m + 1).drop_last() =~= row.take(m));
    assert(v.take(m + 1).drop_last() =~= v.take(m));
    assert(row.take(m + 1).last() == row[m]);
    assert(v.take(m + 1).last() == v[m]);
}

/// Eliminating a column changes no inner product with `v` from zero to
/// another value or back: the system keeps the vectors it annihilates.
pub proof fn lemma_eliminated_annihilates(a: Seq<Seq<real>>, k: int, p: int, v: Seq<real>)
    requires
        rectangular(a, v.len() as int),
        0 <= k <= p < a.len(),
        k < v.len(),
        a[p][k] != 0real,
    ensures
        annihilates(a, v) <==> annihilates(eliminated(a, k, p), v),
{
    let b = eliminated(a, k, p);
    let s = 1real / a[p][k];
    let pivot = scaled(a[p], s);
    lemma_dot_scaled(a[p], v, s);
    assert(dot(pivot, v) == dot(a[p], v) * s);
    assert(s != 0real) by (nonlinear_arith)
        requires
            s == 1real / a[p][k],
            a[p][k] != 0real,
    ;
    assert forall|i: int| 0 <= i < a.len() && i != k implies #[trigger] dot(b[i], v) == dot(
        if i == p {
            a[k]
        } else {
            a[i]
        },
        v,
    ) - dot(pivot, v) * (if i == p {
        a[k]
    } else {
        a[i]
    })[k] by {
        let source = if i == p {
            a[k]
        } else {
            a[i]
        };
        lemma_dot_scaled(pivot, v, source[k]);
        lemma_dot_difference(source, scaled(pivot, source[k]), v);
    }
    if annihilates(a, v) {
        assert(dot(a[p], v) == 0real);
        assert(dot(pivot, v) == 0real) by (nonlinear_arith)
            requires
                dot(pivot, v) == dot(a[p], v) * s,
                dot(a[p], v) == 0real,
        ;
        assert forall|i: int| 0 <= i < b.len() implies dot(#[trigger] b[i], v) == 0real by {
            if i != k {
                let source = if i == p {
                    a[k]
                } else {
                    a[i]
                };
                assert(dot(source, v) == 0real);
                assert(dot(pivot, v) * source[k] == 0real) by (nonlinear_arith)
                    requires
                        dot(pivot, v) == 0real,
                ;
            }
        }
    }
    if annihilates(b, v) {
        assert(b[k] == pivot);
        assert(dot(b[k], v) == 0real);
        assert(dot(a[p], v) == 0real) by (nonlinear_arith)
            requires
                dot(a[p], v) * s == 0real,
                s != 0real,
        ;
        assert forall|i: int| 0 <= i < a.len() implies dot(#[trigger] a[i], v) == 0real by {
            if i == p {
            } else {
                let t = if i == k {
                    p
                } else {
                    i
                };
                assert(dot(b[t], v) == 0real);
                assert(dot(b[t], v) == dot(a[i], v) - dot(pivot, v) * a[i][k]);
                assert(dot(pivot, v) * a[i][k] == 0real) by (nonlinear_arith)
                    requires
                        dot(pivot, v) == 0real,
                ;
            }
        }
    }
}

/// Eliminating column `k` of a system whose first `k` columns are unit
/// columns makes the first `k + 1` columns unit columns.
pub proof fn lemma_eliminated_unit_columns(a: Seq<Seq<real>>, k: int, p: int, columns: int)
    requires
        rectangular(a, columns),
        0 <= k <= p < a.len(),
        k < columns,
        unit_columns(a, k),
        a[p][k] != 0real,
    ensures
        unit_columns(eliminated(a, k, p), k + 1),
{
    let b = eliminated(a, k, p);
    let s = 1real / a[p][k];
    let pivot = scaled(a[p], s);
    assert(pivot[k] == 1real) by (nonlinear_arith)
        requires
            pivot[k] == a[p][k] * s,
            s == 1real / a[p][k],
            a[p][k] != 0real,
    ;
    assert forall|j: int| 0 <= j < k implies #[trigger] pivot[j] == 0real by {
        assert(a[p][j] == 0real);
        assert(pivot[j] == a[p][j] * s);
        assert(0real * s == 0real) by (nonlinear_arith);
    }
    assert forall|i: int, j: int| 0 <= i < b.len() && 0 <= j < k + 1 implies #[trigger] b[i][j]
        == (if i == j {
        1real
    } else {
        0real
    }) by {
        if i == k {
        } else {
            let source = if i == p {
                a[k]
            } else {
                a[i]
            };
            assert(b[i][j] == source[j] - pivot[j] * source[k]);
            if j == k {
                assert(1real * source[k] == source[k]) by (nonlinear_arith);
            } else {
                assert(0real * source[k] == 0real) by (nonlinear_arith);
                assert(source[j] == (if i == j {
                    1real
                } else {
                    0real
                }));
            }
        }
    }
}

/// Row `i` of a system whose first `n` columns are unit columns has, with
/// any vector, the inner product of that vector's entry `i` plus the row's
/// right-hand side times the vector's last entry.
pub proof fn lemma_unit_system(a: Seq<Seq<real>>, v: Seq<real>)
    requires
        rectangular(a, a.len() as int + 1),
        unit_columns(a, a.len() as int),
        v.len() == a.len() + 1,
    ensures
        forall|i: int| 0 <= i < a.len() ==> dot(#[trigger] a[i], v) == v[i] + a[i][a.len() as int] * v[a.len() as int],
{
    let n = a.len() as int;
    assert forall|i: int| 0 <= i < a.len() implies dot(#[trigger] a[i], v) == v[i] + a[i][n] * v[n] by {
        let row = a[i];
        lemma_dot_unit_prefix(row, v, i, n);
        lemma_dot_step(row, v, n);
        assert(row.take(n + 1) =~= row);
        assert(v.take(n + 1) =~= v);
    }
}

/// The kernel vector that a column without pivot gives: minus the column's
/// entries above row `k`, one at `k`, zero behind.
pub open spec fn kernel_witness(a: Seq<Seq<real>>, k: int, len: int) -> Seq<real> {
    Seq::new(
        len as nat,
        |j: int|
            if j < k {
                -a[j][k]
            } else if j == k {
                1real
            } else {
                0real
            },
    )
}

/// Where the first `k` columns are unit columns and column `k` is zero from
/// row `k` on, the system annihilates the kernel witness.
pub proof fn lemma_no_pivot(a: Seq<Seq<real>>, k: int, columns: int)
    requires
        rectangular(a, columns),
        0 <= k < a.len(),
        a.len() < columns,
        unit_columns(a, k),
        forall|i: int| k <= i < a.len() ==> (#[trigger] a[i])[k] == 0real,
    ensures
        annihilates(a, kernel_witness(a, k, columns)),
{
    let w = kernel_witness(a, k, columns);
    assert forall|i: int| 0 <= i < a.len() implies dot(#[trigger] a[i], w) == 0real by {
        let row = a[i];
        lemma_dot_unit_prefix(row, w, i, k);
        lemma_dot_step(row, w, k);
        lemma_dot_zero_tail(row, w, k + 1, columns);
        assert(row.take(columns) =~= row);
        assert(w.take(columns) =~= w);
        assert(row[k] * 1real == row[k]) by (nonlinear_arith);
        if i >= k {
            assert(a[i][k] == 0real);
        }
    }
}

/// The vector `c` with `-1` behind it: the system `a` annihilates it exactly
/// where `c` solves `a`.
pub open spec fn extended(c: Seq<real>) -> Seq<real> {
    c.push(-1real)
}

/// The inner product is that of all entries but the last, plus the product
/// of the last entries.
pub proof fn lemma_dot_split(row: Seq<real>, v: Seq<real>)
    requires
        row.len() == v.len(),
        row.len() > 0,
    ensures
        dot(row, v) == dot(row.take(row.len() - 1), v.take(v.len() - 1)) + row.last() * v.last(),
{
    assert(row.drop_last() =~= row.take(row.len() - 1));
    assert(v.drop_last() =~= v.take(v.len() - 1));
}

/// Whether `a` and `b` annihilate the same vectors of `len` entries.
pub open spec fn same_annihilators(a: Seq<Seq<real>>, b: Seq<Seq<real>>, len: int) -> bool {
    forall|v: Seq<real>| v.len() == len ==> (#[trigger] annihilates(a, v) <==> annihilates(b, v))
}

/// A vector of the kernel of the whole system whose last entry is zero gives
/// one of the kernel of its coefficients, and back.
pub proof fn lemma_kernel_of_coefficients(a: Seq<Seq<real>>, v: Seq<real>)
    requires
        rectangular(a, a.len() as int + 1),
        v.len() == a.len() + 1,
        v[a.len() as int] == 0real,
    ensures
        annihilates(a, v) <==> annihilates(coefficients(a), v.take(a.len() as int)),
{
    let n = a.len() as int;
    let m = coefficients(a);
    let u = v.take(n);
    assert forall|i: int| 0 <= i < n implies dot(#[trigger] a[i], v) == dot(m[i], u) by {
        lemma_dot_split(a[i], v);
        assert(a[i].last() * 0real == 0real) by (nonlinear_arith);
    }
    if annihilates(a, v) {
        assert forall|i: int| 0 <= i < m.len() implies dot(#[trigger] m[i], u) == 0real by {
            assert(dot(a[i], v) == 0real);
        }
    }
    if annihilates(m, u) {
        assert forall|i: int| 0 <= i < a.len() implies dot(#[trigger] a[i], v) == 0real by {
            assert(dot(m[i], u) == 0real);
        }
    }
}

/// Where elimination finds no pivot in column `k`, the coefficients of the
/// system it started from are singular.
pub proof fn lemma_singular(system: Seq<Seq<real>>, a: Seq<Seq<real>>, k: int)
    requires
        rectangular(system, system.len() as int + 1),
        rectangular(a, system.len() as int + 1),
        a.len() == system.len(),
        same_annihilators(system, a, system.len() as int + 1),
        0 <= k < a.len(),
        unit_columns(a, k),
        forall|i: int| k <= i < a.len() ==> (#[trigger] a[i])[k] == 0real,
    ensures
        singular(coefficients(system)),
{
    let n = system.len() as int;
    let w = kernel_witness(a, k, n + 1);
    lemma_no_pivot(a, k, n + 1);
    assert(annihilates(system, w));
    lemma_kernel_of_coefficients(system, w);
    let u = w.take(n);
    assert(u[k] == 1real);
    assert(nonzero(u));
    assert(annihilates(coefficients(system), u));
}

/// Where elimination has made all `n` coefficient columns unit columns, the
/// last column solves the system it started from, whose coefficients are not
/// singular.
pub proof fn lemma_solution(system: Seq<Seq<real>>, a: Seq<Seq<real>>, c: Seq<real>)
    requires
        rectangular(system, system.len() as int + 1),
        rectangular(a, system.len() as int + 1),
        a.len() == system.len(),
        same_annihilators(system, a, system.len() as int + 1),
        unit_columns(a, a.len() as int),
        c.len() == a.len(),
        forall|i: int| 0 <= i < a.len() ==> c[i] == (#[trigger] a[i])[a.len() as int],
    ensures
        solves(system, c),
        !singular(coefficients(system)),
{
    let n = system.len() as int;
    let v = extended(c);
    lemma_unit_system(a, v);
    assert forall|i: int| 0 <= i < a.len() implies dot(#[trigger] a[i], v) == 0real by {
        assert(a[i][n] * (-1real) == -a[i][n]) by (nonlinear_arith);
    }
    assert(annihilates(a, v));
    assert(annihilates(system, v));
    assert forall|i: int| 0 <= i < n implies dot((#[trigger] system[i]).take(n), c)
        == system[i][n] by {
        lemma_dot_split(system[i], v);
        assert(v.take(n) =~= c);
        assert(dot(system[i], v) == 0real);
        let y = system[i][n];
        assert(system[i].last() == y);
        assert(y * (-1real) == -y) by (nonlinear_arith);
    }
    assert forall|u: Seq<real>| #[trigger]
        annihilates(coefficients(system), u) && u.len() == n implies !nonzero(u) by {
        let z = u.push(0real);
        assert(z.take(n) =~= u);
        lemma_kernel_of_coefficients(system, z);
        assert(annihilates(system, z));
        assert(annihilates(a, z));
        lemma_unit_system(a, z);
        assert forall|j: int| 0 <= j < u.len() implies #[trigger] u[j] == 0real by {
            assert(dot(a[j], z) == 0real);
            assert(a[j][n] * 0real == 0real) by (nonlinear_arith);
            assert(z[j] == u[j]);
        }
    }
}

impl Vector {
    /// `self` minus `f` times `o`, for vectors of one length.
    fn sub_scaled(&self, o: &Vector, f: &RationalNumber) -> (r: Vector)
        requires
            self@.len() == o@.len(),
        ensures
            r@ == difference_of(self@, scaled(o@, f@)),
    {
        let mut out: Vec<RationalNumber> = Vec::new();
        let mut j: usize = 0;
        while j < self.v.len()
            invariant
                j <= self.v.len(),
                self@.len() == o@.len(),
                out.len() == j,
                forall|t: int| 0 <= t < j ==> (#[trigger] out@[t])@ == self@[t] - o@[t] * f@,
            decreases self.v.len() - j,
        {
            out.push(self.v[j].sub(&o.v[j].mul(f)));
            j += 1;
        }
        assert(values_of(out@) =~= difference_of(self@, scaled(o@, f@)));
        Vector { v: out }
    }
}

/// The first row from `k` on with an entry other than zero in column `k`,
/// together with the reciprocal of that entry.
fn find_pivot(cur: &Vec<Vector>, k: usize) -> (r: Option<(usize, RationalNumber)>)
    requires
        rectangular(rows_of(cur@), cur.len() as int + 1),
        k < cur.len(),
    ensures
        match r {
            Some((p, inverse)) => {
                &&& k <= p < cur.len()
                &&& rows_of(cur@)[p as int][k as int] != 0real
                &&& inverse@ == 1real / rows_of(cur@)[p as int][k as int]
            },
            None => forall|i: int| k <= i < cur.len() ==> (#[trigger] rows_of(cur@)[i])[k as int] == 0real,
        },
{
    let mut p = k;
    while p < cur.len()
        invariant
            k <= p <= cur.len(),
            rectangular(rows_of(cur@), cur.len() as int + 1),
            forall|i: int| k <= i < p ==> (#[trigger] rows_of(cur@)[i])[k as int] == 0real,
        decreases cur.len() - p,
    {
        assert(rows_of(cur@)[p as int].len() == cur.len() + 1);
        match cur[p].index(k).recip() {
            Ok(inverse) => {
                return Some((p, inverse));
            },
            Err(_) => {},
        }
        p += 1;
    }
    None
}

/// The system after column `k` was eliminated with the pivot in row `p`.
fn eliminate(cur: &Vec<Vector>, k: usize, p: usize, inverse: &RationalNumber) -> (next: Vec<Vector>)
    requires
        rectangular(rows_of(cur@), cur.len() as int + 1),
        k <= p < cur.len(),
        inverse@ == 1real / rows_of(cur@)[p as int][k as int],
    ensures
        rows_of(next@) == eliminated(rows_of(cur@), k as int, p as int),
{
    let ghost a = rows_of(cur@);
    assert(a[p as int].len() == cur.len() + 1);
    assert(a[k as int].len() == cur.len() + 1);
    let pivot = cur[p].mul(inverse);
    let mut next: Vec<Vector> = Vec::new();
    let mut i: usize = 0;
    while i < cur.len()
        invariant
            i <= cur.len(),
            k <= p < cur.len(),
            a == rows_of(cur@),
            rectangular(a, cur.len() as int + 1),
            pivot@ == scaled(a[p as int], 1real / a[p as int][k as int]),
            next.len() == i,
            forall|t: int| 0 <= t < i ==> (#[trigger] next@[t])@ == eliminated_row(a, k as int, p as int, t),
        decreases cur.len() - i,
    {
        assert(a[i as int].len() == cur.len() + 1);
        assert(a[k as int].len() == cur.len() + 1);
        let row = if i == k {
            pivot.duplicate()
        } else if i == p {
            cur[k].sub_scaled(&pivot, cur[k].index(k))
        } else {
            cur[i].sub_scaled(&pivot, cur[i].index(k))
        };
        next.push(row);
        i += 1;
    }
    assert(rows_of(next@) =~= eliminated(a, k as int, p as int));
    next
}

/// A copy of the rows `m`.
fn copy_rows(m: &Vec<Vector>) -> (r: Vec<Vector>)
    ensures
        r.len() == m.len(),
        rows_of(r@) == rows_of(m@),
{
    let mut out: Vec<Vector> = Vec::new();
    let mut i: usize = 0;
    while i < m.len()
        invariant
            i <= m.len(),
            out.len() == i,
            forall|t: int| 0 <= t < i ==> (#[trigger] out@[t])@ == m@[t]@,
        decreases m.len() - i,
    {
        out.push(m[i].duplicate());
        i += 1;
    }
    assert(rows_of(out@) =~= rows_of(m@));
    out
}

/// Solves the linear system whose `n` rows each hold `n` coefficients and
/// then the right-hand side, by exact elimination.
///
/// The result is the one solution; there is none exactly where the
/// coefficients are singular.
pub fn solve(system: &Matrix) -> (r: Option<Vector>)
    requires
        system.wf(),
        system.columns == system.rows + 1,
    ensures
        r is None <==> singular(coefficients(system@)),
        r matches Some(c) ==> solves(system@, c@),
{
    let n = system.rows;
    let mut cur = copy_rows(&system.m);
    let mut k: usize = 0;
    while k < n
        invariant
            k <= n,
            n == system.rows,
            n + 1 == system.columns,
            system.wf(),
            cur.len() == n,
            rectangular(rows_of(cur@), n as int + 1),
            unit_columns(rows_of(cur@), k as int),
            same_annihilators(system@, rows_of(cur@), n as int + 1),
        decreases n - k,
    {
        let ghost a = rows_of(cur@);
        match find_pivot(&cur, k) {
            None => {
                proof {
                    lemma_singular(system@, a, k as int);
                }
                return None;
            },
            Some((p, inverse)) => {
                let next = eliminate(&cur, k, p, &inverse);
                proof {
                    let b = rows_of(next@);
                    lemma_eliminated_unit_columns(a, k as int, p as int, n as int + 1);
                    assert forall|v: Seq<real>| v.len() == n + 1 implies (#[trigger] annihilates(
                        system@,
                        v,
                    ) <==> annihilates(b, v)) by {
                        lemma_eliminated_annihilates(a, k as int, p as int, v);
                        assert(annihilates(system@, v) <==> annihilates(a, v));
                    }
                    assert forall|i: int| 0 <= i < b.len() implies (#[trigger] b[i]).len() == n
                        + 1 by {
                        assert(b[i] == eliminated_row(a, k as int, p as int, i));
                        assert(a[p as int].len() == n + 1);
                        assert(a[k as int].len() == n + 1);
                        assert(a[i].len() == n + 1);
                    }
                }
                cur = next;
                k += 1;
            },
        }
    }
    let mut out: Vec<RationalNumber> = Vec::new();
    let mut i: usize = 0;
    while i < n
        invariant
            i <= n,
            cur.len() == n,
            rectangular(rows_of(cur@), n as int + 1),
            out.len() == i,
            forall|t: int| 0 <= t < i ==> (#[trigger] out@[t])@ == rows_of(cur@)[t][n as int],
        decreases n - i,
    {
        assert(rows_of(cur@)[i as int].len() == n + 1);
        out.push(cur[i].index(n).duplicate());
        i += 1;
    }
    let c = Vector { v: out };
    proof {
        lemma_solution(system@, rows_of(cur@), c@);
    }
    Some(c)
}


} // verus!
