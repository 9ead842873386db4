//! Small helpers on sequences of values.

use crate::rational::RationalNumber;
use vstd::prelude::*;
use vstd::std_specs::cmp::PartialEqSpec;

verus! {

/// Whether every entry of `vec` equals the first one.
pub fn all_equal<T: PartialEq>(vec: &Vec<T>) -> (r: bool)
    requires
        vec.len() > 0,
    ensures
        T::obeys_eq_spec() ==> (r <==> forall|i: int|
            0 <= i < vec.len() ==> (#[trigger] vec[i]).eq_spec(&vec[0])),
{
    let mut i: usize = 0;
    while i < vec.len()
        invariant
            i <= vec.len(),
            vec.len() > 0,
            T::obeys_eq_spec() ==> forall|t: int|
                0 <= t < i ==> (#[trigger] vec[t]).eq_spec(&vec[0]),
        decreases vec.len() - i,
    {
        if vec[i] != vec[0] {
            return false;
        }
        i += 1;
    }
    true
}

/// The integers of `vec` as rational numbers.
pub fn as_ratios(vec: Vec<i32>) -> (r: Vec<RationalNumber>)
    ensures
        r.len() == vec.len(),
        forall|i: int| 0 <= i < vec.len() ==> (#[trigger] r[i])@ == vec[i] as real,
{
    let mut out: Vec<RationalNumber> = Vec::new();
    let mut i: usize = 0;
    while i < vec.len()
        invariant
            i <= vec.len(),
            out.len() == i,
            forall|t: int| 0 <= t < i ==> (#[trigger] out[t])@ == vec[t] as real,
        decreases vec.len() - i,
    {
        out.push(RationalNumber::from_integer(vec[i] as i64));
        i += 1;
    }
    out
}

} // verus!
