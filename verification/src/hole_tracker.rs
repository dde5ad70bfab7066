//! Folding a sequence of holes into one outer range.
//!
//! While the sparse map walks a requested region it reports each unmapped
//! sub-interval in ascending order. The tracker remembers the earliest start
//! and the latest end it has seen, so that the walk ends with the smallest
//! interval containing every hole, or nothing when no hole was reported.

use vstd::prelude::*;

verus! {

/// Accumulates `(start, end)` hole reports into one outer `(start, end)` pair.
pub struct HoleTracker(Option<(usize, usize)>);

impl HoleTracker {
    /// The pair accumulated so far, or `None` when nothing was reported.
    pub closed spec fn inner(&self) -> Option<(usize, usize)> {
        self.0
    }

    /// Widens the tracked interval: the first report sets both bounds, every
    /// later one keeps the original start and replaces the end.
    pub fn update(&mut self, start: usize, end: usize)
        ensures
            final(self).inner() == match old(self).inner() {
                Option::None => Option::Some((start, end)),
                Option::Some((prev_start, _)) => Option::Some((prev_start, end)),
            },
    {
        self.0 = Some(match self.0 {
            None => (start, end),
            Some((prev_start, _)) => (prev_start, end),
        });
    }
}

impl Default for HoleTracker {
    /// A tracker that has seen no hole yet.
    fn default() -> (r: Self)
        ensures
            r.inner() is None,
    {
        HoleTracker(None)
    }
}

impl From<HoleTracker> for Option<core::ops::Range<usize>> {
    /// The accumulated outer range, or `None` when no hole was reported.
    fn from(value: HoleTracker) -> (r: Self)
        ensures
            r == match value.inner() {
                Option::None => Option::<core::ops::Range<usize>>::None,
                Option::Some((start, end)) => Option::Some(core::ops::Range {
                    start,
                    end,
                }),
            },
    {
        match value.0 {
            None => None,
            Some((start, end)) => Some(start..end),
        }
    }
}

impl vstd::std_specs::convert::FromSpecImpl<HoleTracker> for Option<core::ops::Range<usize>> {
    open spec fn obeys_from_spec() -> bool {
        true
    }

    open spec fn from_spec(value: HoleTracker) -> Self {
        match value.inner() {
            Option::None => Option::None,
            Option::Some((start, end)) => Option::Some(core::ops::Range { start, end }),
        }
    }
}

} // verus!
