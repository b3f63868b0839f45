//! Half-open ranges of sequence coordinates.

use vstd::prelude::*;
use crate::error::FeatureError;

verus! {

/// A half-open range `[start, end)` of coordinates with `start <= end`.
#[derive(Clone, Copy, Debug, PartialEq, Eq, Structural)]
pub struct Interval {
    start: u64,
    end: u64,
}

/// Calls `bio::utils::Interval::new` on the range `start..end`. That
/// function accepts a range exactly when its end is not below its start and
/// keeps the range as it is; the bounds of the accepted range are handed back.
#[verifier::external_body]
fn checked_bounds(start: u64, end: u64) -> (r: Option<(u64, u64)>)
    ensures
        r == if start <= end { Some((start, end)) } else { None::<(u64, u64)> },
{
    bio::utils::Interval::new(start..end).ok().map(|range| (range.start, range.end))
}

impl Interval {
    #[verifier::type_invariant]
    spec fn ordered(self) -> bool {
        self.start <= self.end
    }

    /// The first coordinate of the range.
    pub closed spec fn spec_start(&self) -> u64 {
        self.start
    }

    /// The coordinate behind the last one of the range.
    pub closed spec fn spec_end(&self) -> u64 {
        self.end
    }

    /// Two ranges share a coordinate.
    pub open spec fn spec_overlaps(&self, other: &Interval) -> bool {
        self.spec_start() < other.spec_end() && other.spec_start() < self.spec_end()
    }

    /// This range holds every coordinate of the other.
    pub open spec fn spec_envelops(&self, other: &Interval) -> bool {
        self.spec_start() <= other.spec_start() && self.spec_end() >= other.spec_end()
    }

    /// One range ends where the other starts.
    pub open spec fn spec_is_adjacent(&self, other: &Interval) -> bool {
        self.spec_end() == other.spec_start() || self.spec_start() == other.spec_end()
    }

    /// The range `[start, end)`, refused with `IntervalError` when `start > end`.
    pub fn new(start: u64, end: u64) -> (r: Result<Interval, FeatureError>)
        ensures
            match r {
                Ok(iv) => start <= end && iv.start() == start && iv.end() == end,
                Err(e) => start > end && e == FeatureError::IntervalError,
            },
    {
        match checked_bounds(start, end) {
            Some((lo, hi)) => Ok(Interval { start: lo, end: hi }),
            None => Err(FeatureError::IntervalError),
        }
    }

    /// The range `[start, end)` for bounds that are known to be in order.
    pub(crate) fn ordered_pair(start: u64, end: u64) -> (iv: Interval)
        requires
            start <= end,
        ensures
            iv.start() == start,
            iv.end() == end,
    {
        Interval { start, end }
    }

    /// The first coordinate of the range.
    #[verifier::when_used_as_spec(spec_start)]
    pub fn start(&self) -> (r: u64)
        ensures
            r == self.spec_start(),
            r <= self.spec_end(),
    {
        proof {
            use_type_invariant(self);
        }
        self.start
    }

    /// The coordinate behind the last one of the range.
    #[verifier::when_used_as_spec(spec_end)]
    pub fn end(&self) -> (r: u64)
        ensures
            r == self.spec_end(),
            self.spec_start() <= r,
    {
        proof {
            use_type_invariant(self);
        }
        self.end
    }

    /// The number of coordinates in the range.
    pub fn span(&self) -> (r: u64)
        ensures
            r == self.end() - self.start(),
    {
        proof {
            use_type_invariant(self);
        }
        self.end - self.start
    }

    /// Whether the two ranges share a coordinate.
    #[verifier::when_used_as_spec(spec_overlaps)]
    pub fn overlaps(&self, other: &Interval) -> (r: bool)
        ensures
            r == self.spec_overlaps(other),
    {
        self.start < other.end && other.start < self.end
    }

    /// Whether this range holds every coordinate of the other.
    #[verifier::when_used_as_spec(spec_envelops)]
    pub fn envelops(&self, other: &Interval) -> (r: bool)
        ensures
            r == self.spec_envelops(other),
    {
        self.start <= other.start && self.end >= other.end
    }

    /// Whether one range ends where the other starts.
    #[verifier::when_used_as_spec(spec_is_adjacent)]
    pub fn is_adjacent(&self, other: &Interval) -> (r: bool)
        ensures
            r == self.spec_is_adjacent(other),
    {
        self.end == other.start || self.start == other.end
    }
}

impl Default for Interval {
    /// The empty range at coordinate zero.
    fn default() -> (iv: Interval)
        ensures
            iv.start() == 0,
            iv.end() == 0,
    {
        Interval { start: 0, end: 0 }
    }
}

} // verus!
