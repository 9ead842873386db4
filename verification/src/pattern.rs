//! Finding the formula of a sequence: a polynomial first, then an
//! exponential.

use crate::error::FitError;
use crate::exponential::Exponential;
use crate::fmt::{FmtAble, FmtEr};
use crate::interpolation::{interpolates, sample_abscissas};
use crate::linear_algebra::values_of;
use crate::polynomial::Polynomial;
use crate::rational::RationalNumber;
use vstd::prelude::*;

verus! {

/// A formula that reproduces a sequence.
#[derive(Debug)]
pub enum Pattern {
    Polynomial(Polynomial),
    Exponential(Exponential),
}

/// The formula that reproduces `values`, the first of them at zero.
///
/// The polynomial through the samples is tried first, then the exponential;
/// where neither fits, the result is `NoPatternFound`. Two samples or more
/// always have their polynomial, so that is the result for them.
pub fn find_pattern(values: &Vec<RationalNumber>) -> (r: Result<Pattern, FitError>)
    requires
        values.len() < usize::MAX,
    ensures
        match r {
            Ok(Pattern::Polynomial(p)) => {
                &&& values.len() >= 2
                &&& p.wf()
                &&& p.degree() < values.len()
                &&& interpolates(p@, sample_abscissas(0, values.len() as nat), values_of(values@))
            },
            Ok(Pattern::Exponential(m)) => false,
            Err(FitError::NoPatternFound) => values.len() < 2,
            Err(_) => false,
        },
{
    match Polynomial::from_values(values, 0) {
        Ok(p) => Ok(Pattern::Polynomial(p)),
        Err(_) => match Exponential::from_values(values) {
            Ok(m) => Ok(Pattern::Exponential(m)),
            Err(_) => Err(FitError::NoPatternFound),
        },
    }
}

impl<F: FmtEr> FmtAble<F> for Pattern {
    open spec fn formatted(&self, f: &F) -> Seq<char> {
        match self {
            Pattern::Polynomial(p) => p.formatted(f),
            Pattern::Exponential(m) => m.formatted(f),
        }
    }

    open spec fn renderable(&self) -> bool {
        match self {
            Pattern::Polynomial(p) => FmtAble::<F>::renderable(p),
            Pattern::Exponential(m) => FmtAble::<F>::renderable(m),
        }
    }

    fn format(&self, f: &F) -> (r: String) {
        match self {
            Pattern::Polynomial(p) => p.format(f),
            Pattern::Exponential(m) => m.format(f),
        }
    }
}

} // verus!
