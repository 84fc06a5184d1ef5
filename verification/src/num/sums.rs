//! Sums of numbers, taken from the left.

use crate::num::constants::MINUS_ZERO;
use crate::num::Double;
use vstd::prelude::*;

verus! {

/// The sum of numbers, taken from the left; that of none is minus zero.
pub open spec fn total(values: Seq<Double>) -> Double
    decreases values.len(),
{
    if values.len() == 0 {
        Double { bits: MINUS_ZERO }
    } else {
        total(values.drop_last()).add_spec(values.last())
    }
}

/// The sum of numbers, taken from the left.
pub fn sum(values: &Vec<Double>) -> (r: Double)
    ensures
        r == total(values@),
{
    let mut r = Double { bits: MINUS_ZERO };
    let mut i: usize = 0;
    proof {
        assert(values@.take(0) =~= Seq::<Double>::empty());
    }
    while i < values.len()
        invariant
            i <= values@.len(),
            r == total(values@.take(i as int)),
        decreases values@.len() - i,
    {
        proof {
            assert(values@.take(i as int + 1).drop_last() =~= values@.take(i as int));
        }
        r = r.add(values[i]);
        i = i + 1;
    }
    proof {
        assert(values@.take(values@.len() as int) =~= values@);
    }
    r
}

} // verus!
