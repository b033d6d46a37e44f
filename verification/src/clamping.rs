//! Clamping a value between two bounds.

use vstd::prelude::*;
use vstd::std_specs::cmp::{PartialOrdIs, PartialOrdSpec};

verus! {

/// The value that `clamp` returns: `low` for a value below `low`, else
/// `high` for a value above `high`, else the value itself.
pub open spec fn clamped<T: PartialOrd>(low: T, value: T, high: T) -> T {
    if value.is_lt(&low) {
        low
    } else if value.is_gt(&high) {
        high
    } else {
        value
    }
}

/// Returns `value` clamped between `low` and `high`, where `low` is below
/// `high` and the order of `T` is the one that its specification gives.
pub fn clamp<T: PartialOrd>(low: T, value: T, high: T) -> (r: T)
    requires
        T::obeys_partial_cmp_spec(),
        low.is_lt(&high),
    ensures
        r == clamped(low, value, high),
{
    if value < low {
        low
    } else if value > high {
        high
    } else {
        value
    }
}

} // verus!
