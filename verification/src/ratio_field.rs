//! The rational numbers as a field.

use crate::rational::RationalNumber;
use vstd::prelude::*;

verus! {

/// The rational numbers, under the name of the field that they form: the
/// entries of vectors and matrices, and the coefficients of linear systems.
pub type RatioField = RationalNumber;

} // verus!
