//! A closed-interval byte range with optional bounds, as an HTTP `range`
//! header carries it: `(Some(s), Some(e))` means the bytes `s..=e`,
//! `(Some(s), None)` everything from `s`, `(None, Some(n))` the last `n`
//! bytes, and `(None, None)` no constraint at all.

use vstd::prelude::*;

verus! {

/// A closed byte interval; either bound may be absent.
#[derive(Clone, Copy, PartialEq, Eq, Structural, Debug, Default)]
pub struct Range(pub Option<usize>, pub Option<usize>);

impl Range {
    /// Clips the interval to a resource of `len` bytes, as a half-open range.
    /// An unconstrained interval yields nothing; a missing lower bound starts
    /// at zero; a missing upper bound ends at `len`.
    pub fn as_range(&self, len: usize) -> (r: Option<core::ops::Range<usize>>)
        requires
            self.1 matches Option::Some(u) ==> u < usize::MAX,
        ensures
            match (self.0, self.1) {
                (Option::None, Option::None) => r is None,
                (lo, hi) => ({
                    &&& r matches Option::Some(out)
                    &&& out.start == vstd::math::min(
                        match lo {
                            Option::Some(l) => l as int,
                            Option::None => 0,
                        },
                        len as int,
                    )
                    &&& out.end == vstd::math::min(
                        match hi {
                            Option::Some(u) => u + 1,
                            Option::None => len as int,
                        },
                        len as int,
                    )
                }),
            },
    {
        if self.0.is_none() && self.1.is_none() {
            return None;
        }
        let lower_raw = match self.0 {
            Some(l) => l,
            None => 0,
        };
        let lower = if lower_raw < len {
            lower_raw
        } else {
            len
        };
        let upper_raw = match self.1 {
            Some(u) => u + 1,
            None => len,
        };
        let upper = if upper_raw < len {
            upper_raw
        } else {
            len
        };
        Some(core::ops::Range { start: lower, end: upper })
    }

    /// Whether both bounds are present and cross, leaving no byte.
    pub fn is_empty(&self) -> (r: bool)
        ensures
            r == match (self.0, self.1) {
                (Option::Some(x), Option::Some(y)) => x > y,
                _ => false,
            },
    {
        match (self.0, self.1) {
            (Some(x), Some(y)) => x > y,
            _ => false,
        }
    }

    /// Moves the start of the interval forward by `len` bytes; a missing
    /// start counts as zero.
    pub fn add_start(&mut self, len: usize)
        requires
            (match old(self).0 {
                Option::Some(s) => s as int,
                Option::None => 0,
            }) + len <= usize::MAX,
        ensures
            final(self).0 == Option::Some(
                ((match old(self).0 {
                    Option::Some(s) => s as int,
                    Option::None => 0,
                }) + len) as usize,
            ),
            final(self).1 == old(self).1,
    {
        let base = match self.0 {
            Some(s) => s,
            None => 0,
        };
        self.0 = Some(base + len);
    }
}

} // verus!
