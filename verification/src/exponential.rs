//! The exponential `stretch * ratio^x + asymptote` through given samples.

use crate::error::FitError;
use crate::linear_algebra::values_of;
use crate::rational::{real_pow, real_pow_nat, ArithmeticError, RationalNumber};
use vstd::prelude::*;

verus! {

/// The value at `x` of the exponential `m`, given as stretch, ratio and
/// asymptote.
pub open spec fn exp_value(m: (real, real, real), x: int) -> real {
    m.0 * real_pow(m.1, x) + m.2
}

/// The ratio that the first three samples give: `(v2 - v1) / (v1 - v0)`.
pub open spec fn fitted_ratio(v: Seq<real>) -> real {
    (v[2] - v[1]) / (v[1] - v[0])
}

/// The stretch that the first three samples give: `(v1 - v0) / (ratio - 1)`.
pub open spec fn fitted_stretch(v: Seq<real>) -> real {
    (v[1] - v[0]) / (fitted_ratio(v) - 1real)
}

/// The exponential that the first three samples give: its asymptote is
/// `v0 - stretch`.
pub open spec fn fitted_model(v: Seq<real>) -> (real, real, real) {
    (fitted_stretch(v), fitted_ratio(v), v[0] - fitted_stretch(v))
}

/// Whether `m` takes the value `v[i]` at every index `i` of `v`.
pub open spec fn reproduces(m: (real, real, real), v: Seq<real>) -> bool {
    forall|i: int| 0 <= i < v.len() ==> exp_value(m, i) == #[trigger] v[i]
}

/// An exponential model `stretch * ratio^x + asymptote`.
#[derive(Debug)]
pub struct Exponential {
    stretch: RationalNumber,
    ratio: RationalNumber,
    asymptote: RationalNumber,
}

impl View for Exponential {
    type V = (real, real, real);

    /// Stretch, ratio and asymptote.
    closed spec fn view(&self) -> (real, real, real) {
        (self.stretch@, self.ratio@, self.asymptote@)
    }
}

/// A product of three numbers may be bracketed either way.
proof fn lemma_product_of_three(a: real, b: real, c: real)
    by (nonlinear_arith)
    ensures
        (a * b) * c == a * (b * c),
{
}

impl Exponential {
    /// The invariant of a model: its ratio is not one.
    pub open spec fn wf(&self) -> bool {
        self@.1 != 1real
    }

    /// The factor in front of the power.
    pub closed spec fn stretch_of(&self) -> RationalNumber {
        self.stretch
    }

    /// The base of the power.
    pub closed spec fn ratio_of(&self) -> RationalNumber {
        self.ratio
    }

    /// The constant that the values approach where the power vanishes.
    pub closed spec fn asymptote_of(&self) -> RationalNumber {
        self.asymptote
    }

    /// The factor in front of the power.
    pub fn stretch(&self) -> (r: &RationalNumber)
        ensures
            *r == self.stretch_of(),
            r@ == self@.0,
    {
        &self.stretch
    }

    /// The base of the power.
    pub fn ratio(&self) -> (r: &RationalNumber)
        ensures
            *r == self.ratio_of(),
            r@ == self@.1,
    {
        &self.ratio
    }

    /// The constant that the values approach where the power vanishes.
    pub fn asymptote(&self) -> (r: &RationalNumber)
        ensures
            *r == self.asymptote_of(),
            r@ == self@.2,
    {
        &self.asymptote
    }

    /// The value of the model at `x`. A negative `x` asks for the reciprocal
    /// of a power: it is `DivisionByZero` where the ratio is zero.
    pub fn apply(&self, x: i32) -> (r: Result<RationalNumber, ArithmeticError>)
        ensures
            (self@.1 == 0real && x < 0) <==> r is Err,
            r matches Ok(q) ==> q@ == exp_value(self@, x as int),
    {
        match self.ratio.pow(x) {
            Ok(power) => Ok(self.stretch.mul(&power).add(&self.asymptote)),
            Err(e) => Err(e),
        }
    }

    /// The exponential that reproduces every one of `values`, the first of
    /// them at zero.
    ///
    /// Fewer than three samples are `InsufficientData`. The first three
    /// samples fix the model; where the first two are equal, or the three lie
    /// on a line, fixing it would divide by zero: `DivisionByZero`. A model
    /// that misses any sample is `NoPatternFound`.
    pub fn from_values(values: &Vec<RationalNumber>) -> (r: Result<Exponential, FitError>)
        ensures
            match r {
                Ok(m) => {
                    &&& m.wf()
                    &&& values.len() >= 3
                    &&& values[1]@ != values[0]@
                    &&& fitted_ratio(values_of(values@)) != 1real
                    &&& m@ == fitted_model(values_of(values@))
                    &&& reproduces(m@, values_of(values@))
                },
                Err(FitError::InsufficientData) => values.len() < 3,
                Err(FitError::DivisionByZero) => values.len() >= 3 && (values[1]@ == values[0]@
                    || fitted_ratio(values_of(values@)) == 1real),
                Err(FitError::NoPatternFound) => {
                    &&& values.len() >= 3
                    &&& values[1]@ != values[0]@
                    &&& fitted_ratio(values_of(values@)) != 1real
                    &&& !reproduces(fitted_model(values_of(values@)), values_of(values@))
                },
                Err(FitError::SingularSystem) => false,
            },
    {
        if values.len() < 3 {
            return Err(FitError::InsufficientData);
        }
        let ghost v = values_of(values@);
        let rise = values[1].sub(&values[0]);
        let ratio = match values[2].sub(&values[1]).div(&rise) {
            Ok(q) => q,
            Err(_) => {
                return Err(FitError::DivisionByZero);
            },
        };
        let one = RationalNumber::one();
        let stretch = match rise.div(&ratio.sub(&one)) {
            Ok(q) => q,
            Err(_) => {
                return Err(FitError::DivisionByZero);
            },
        };
        let asymptote = values[0].sub(&stretch);
        let model = Exponential { stretch, ratio, asymptote };
        assert(model@ == fitted_model(v));
        let mut term = model.stretch.duplicate();
        let mut i: usize = 0;
        while i < values.len()
            invariant
                i <= values.len(),
                v == values_of(values@),
                values.len() >= 3,
                values[1]@ != values[0]@,
                fitted_ratio(v) != 1real,
                model@ == fitted_model(v),
                term@ == model@.0 * real_pow_nat(model@.1, i as nat),
                forall|t: int| 0 <= t < i ==> exp_value(model@, t) == #[trigger] v[t],
            decreases values.len() - i,
        {
            let value = term.add(&model.asymptote);
            if !value.equals(&values[i]) {
                assert(exp_value(model@, i as int) != v[i as int]);
                return Err(FitError::NoPatternFound);
            }
            let next = term.mul(&model.ratio);
            proof {
                lemma_product_of_three(model@.0, real_pow_nat(model@.1, i as nat), model@.1);
            }
            term = next;
            i += 1;
        }
        Ok(model)
    }
}

} // verus!
