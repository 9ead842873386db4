//! Entrywise arithmetic on matrices, and the text of vectors.

use crate::linear_algebra::{difference_of, negated, rows_of, scaled, sum_of, Matrix, Vector};
use crate::rational::RationalNumber;
use crate::text::push_char;
use vstd::prelude::*;

verus! {

/// The entrywise sum of the rows of `a` and `b`.
pub open spec fn rows_sum(a: Seq<Seq<real>>, b: Seq<Seq<real>>) -> Seq<Seq<real>> {
    Seq::new(a.len(), |i: int| sum_of(a[i], b[i]))
}

/// The entrywise difference of the rows of `a` and `b`.
pub open spec fn rows_difference(a: Seq<Seq<real>>, b: Seq<Seq<real>>) -> Seq<Seq<real>> {
    Seq::new(a.len(), |i: int| difference_of(a[i], b[i]))
}

/// Every row of `a` negated.
pub open spec fn rows_negated(a: Seq<Seq<real>>) -> Seq<Seq<real>> {
    Seq::new(a.len(), |i: int| negated(a[i]))
}

/// Every row of `a` times `s`.
pub open spec fn rows_scaled(a: Seq<Seq<real>>, s: real) -> Seq<Seq<real>> {
    Seq::new(a.len(), |i: int| scaled(a[i], s))
}

impl Matrix {
    /// The entrywise sum, for matrices of one shape.
    pub fn add(&self, o: &Matrix) -> (r: Option<Matrix>)
        requires
            self.wf(),
            o.wf(),
        ensures
            r is Some <==> self.rows == o.rows && self.columns == o.columns,
            r matches Some(m) ==> m.wf() && m.rows == self.rows && m.columns == self.columns && m@
                == rows_sum(self@, o@),
    {
        if self.rows != o.rows || self.columns != o.columns {
            return None;
        }
        let mut out: Vec<Vector> = Vec::new();
        let mut i: usize = 0;
        while i < self.rows
            invariant
                i <= self.rows,
                self.wf(),
                o.wf(),
                self.rows == o.rows,
                self.columns == o.columns,
                out.len() == i,
                forall|t: int| 0 <= t < i ==> (#[trigger] out@[t])@ == sum_of(self@[t], o@[t]),
            decreases self.rows - i,
        {
            assert(self@[i as int].len() == self.columns);
            assert(o@[i as int].len() == o.columns);
            match self.m[i].add(&o.m[i]) {
                Some(row) => out.push(row),
                None => {
                    return None;
                },
            }
            i += 1;
        }
        assert(rows_of(out@) =~= rows_sum(self@, o@));
        assert forall|t: int| 0 <= t < out.len() implies (#[trigger] rows_of(out@)[t]).len()
            == self.columns by {
            assert(self@[t].len() == self.columns);
        }
        Some(Matrix { m: out, rows: self.rows, columns: self.columns })
    }

    /// The entrywise difference, for matrices of one shape.
    pub fn sub(&self, o: &Matrix) -> (r: Option<Matrix>)
        requires
            self.wf(),
            o.wf(),
        ensures
            r is Some <==> self.rows == o.rows && self.columns == o.columns,
            r matches Some(m) ==> m.wf() && m.rows == self.rows && m.columns == self.columns && m@
                == rows_difference(self@, o@),
    {
        if self.rows != o.rows || self.columns != o.columns {
            return None;
        }
        let mut out: Vec<Vector> = Vec::new();
        let mut i: usize = 0;
        while i < self.rows
            invariant
                i <= self.rows,
                self.wf(),
                o.wf(),
                self.rows == o.rows,
                self.columns == o.columns,
                out.len() == i,
                forall|t: int|
                    0 <= t < i ==> (#[trigger] out@[t])@ == difference_of(self@[t], o@[t]),
            decreases self.rows - i,
        {
            assert(self@[i as int].len() == self.columns);
            assert(o@[i as int].len() == o.columns);
            match self.m[i].sub(&o.m[i]) {
                Some(row) => out.push(row),
                None => {
                    return None;
                },
            }
            i += 1;
        }
        assert(rows_of(out@) =~= rows_difference(self@, o@));
        assert forall|t: int| 0 <= t < out.len() implies (#[trigger] rows_of(out@)[t]).len()
            == self.columns by {
            assert(self@[t].len() == self.columns);
        }
        Some(Matrix { m: out, rows: self.rows, columns: self.columns })
    }

    /// The matrix with every entry negated.
    pub fn neg(&self) -> (r: Matrix)
        requires
            self.wf(),
        ensures
            r.wf(),
            r.rows == self.rows,
            r.columns == self.columns,
            r@ == rows_negated(self@),
    {
        let mut out: Vec<Vector> = Vec::new();
        let mut i: usize = 0;
        while i < self.rows
            invariant
                i <= self.rows,
                self.wf(),
                out.len() == i,
                forall|t: int| 0 <= t < i ==> (#[trigger] out@[t])@ == negated(self@[t]),
            decreases self.rows - i,
        {
            out.push(self.m[i].neg());
            i += 1;
        }
        assert(rows_of(out@) =~= rows_negated(self@));
        assert forall|t: int| 0 <= t < out.len() implies (#[trigger] rows_of(out@)[t]).len()
            == self.columns by {
            assert(self@[t].len() == self.columns);
        }
        Matrix { m: out, rows: self.rows, columns: self.columns }
    }

    /// The matrix with every entry multiplied by `o`.
    pub fn mul(&self, o: &RationalNumber) -> (r: Matrix)
        requires
            self.wf(),
        ensures
            r.wf(),
            r.rows == self.rows,
            r.columns == self.columns,
            r@ == rows_scaled(self@, o@),
    {
        let mut out: Vec<Vector> = Vec::new();
        let mut i: usize = 0;
        while i < self.rows
            invariant
                i <= self.rows,
                self.wf(),
                out.len() == i,
                forall|t: int| 0 <= t < i ==> (#[trigger] out@[t])@ == scaled(self@[t], o@),
            decreases self.rows - i,
        {
            out.push(self.m[i].mul(o));
            i += 1;
        }
        assert(rows_of(out@) =~= rows_scaled(self@, o@));
        assert forall|t: int| 0 <= t < out.len() implies (#[trigger] rows_of(out@)[t]).len()
            == self.columns by {
            assert(self@[t].len() == self.columns);
        }
        Matrix { m: out, rows: self.rows, columns: self.columns }
    }
}

/// The texts of `entries`, with a comma and a blank between neighbours.
pub open spec fn list_text(entries: Seq<RationalNumber>) -> Seq<char>
    decreases entries.len(),
{
    if entries.len() == 0 {
        Seq::empty()
    } else if entries.len() == 1 {
        entries[0].text()
    } else {
        list_text(entries.drop_last()) + seq![',', ' '] + entries.last().text()
    }
}

impl Vector {
    /// The text of the vector: its entries between angle brackets.
    pub open spec fn text(&self) -> Seq<char> {
        seq!['<'] + list_text(self.v@) + seq!['>']
    }

    /// The text of the vector: its entries between angle brackets, with a
    /// comma and a blank between neighbours.
    pub fn to_text(&self) -> (r: String)
        ensures
            r@ == self.text(),
    {
        let mut out = String::new();
        push_char(&mut out, '<');
        let mut i: usize = 0;
        while i < self.v.len()
            invariant
                i <= self.v.len(),
                out@ == seq!['<'] + list_text(self.v@.take(i as int)),
            decreases self.v.len() - i,
        {
            let ghost before = out@;
            if i != 0 {
                out.append(", ");
            }
            let entry = self.v[i].to_text();
            out.append(entry.as_str());
            proof {
                reveal_strlit(", ");
                assert(", "@ =~= seq![',', ' ']);
                let upto = self.v@.take(i + 1);
                assert(upto.drop_last() =~= self.v@.take(i as int));
                assert(upto.last() == self.v@[i as int]);
                if i == 0 {
                    assert(list_text(self.v@.take(0)) =~= Seq::<char>::empty());
                    assert(out@ =~= seq!['<'] + list_text(upto));
                } else {
                    assert(out@ =~= seq!['<'] + list_text(upto));
                }
            }
            i += 1;
        }
        assert(self.v@.take(self.v.len() as int) =~= self.v@);
        push_char(&mut out, '>');
        out
    }
}

} // verus!
