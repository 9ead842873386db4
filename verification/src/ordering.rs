//! The order of the rational numbers, for the comparison operators.

use crate::rational::RationalNumber;
use core::cmp::Ordering;
use vstd::prelude::*;
use vstd::std_specs::cmp::PartialOrdSpecImpl;

verus! {

impl PartialOrd for RationalNumber {
    /// How `self` compares with `other`: the order of the numbers.
    fn partial_cmp(&self, other: &RationalNumber) -> (r: Option<Ordering>) {
        if self.lt(other) {
            Some(Ordering::Less)
        } else if other.lt(self) {
            Some(Ordering::Greater)
        } else {
            Some(Ordering::Equal)
        }
    }
}

impl PartialOrdSpecImpl for RationalNumber {
    open spec fn obeys_partial_cmp_spec() -> bool {
        true
    }

    open spec fn partial_cmp_spec(&self, other: &RationalNumber) -> Option<Ordering> {
        if self@ < other@ {
            Some(Ordering::Less)
        } else if other@ < self@ {
            Some(Ordering::Greater)
        } else {
            Some(Ordering::Equal)
        }
    }
}

} // verus!
