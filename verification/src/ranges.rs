//! Intersection tests on half-open `usize` ranges.
//!
//! The sparse map walks its blocks with these two predicates: a requested
//! region either starts inside an existing block (`gte_intersecting`) or
//! strictly before one it still touches (`lt_intersecting`).

use vstd::prelude::*;

verus! {

/// Returns (`ab` intersects `cd` && `ab` starts before `cd`).
pub fn lt_intersecting(ab: &core::ops::Range<usize>, cd: &core::ops::Range<usize>) -> (r: bool)
    ensures
        r == (ab.start < cd.start && cd.start < ab.end),
{
    ab.start < cd.start && cd.start < ab.end
}

/// Returns (`ab` intersects `cd` && `ab` starts at or after `cd`).
pub fn gte_intersecting(ab: &core::ops::Range<usize>, cd: &core::ops::Range<usize>) -> (r: bool)
    ensures
        r == (ab.start < cd.end && cd.start <= ab.start),
{
    ab.start < cd.end && cd.start <= ab.start
}

} // verus!
