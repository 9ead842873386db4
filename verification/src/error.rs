//! Why a fit has no result.

use vstd::prelude::*;

verus! {

/// Why a fitter returns no model.
#[derive(Debug, Clone, Copy, PartialEq, Eq, Structural)]
pub enum FitError {
    /// There are fewer samples than the fitter needs.
    InsufficientData,
    /// The samples would have the fitter divide by zero.
    DivisionByZero,
    /// The samples do not determine one polynomial: two of them share their
    /// place on the x-axis.
    SingularSystem,
    /// No model of the family reproduces every sample.
    NoPatternFound,
}

} // verus!
