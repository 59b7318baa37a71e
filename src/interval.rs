use vstd::prelude::*;

verus! {

/// A half-open time interval `[start, end)`, in nanoseconds since the epoch.
#[derive(Clone, Copy, Debug, PartialEq, Eq, Structural)]
pub struct TimeInterval {
    pub start: i64,
    pub end: i64,
}

impl TimeInterval {
    /// The interval is ordered.
    pub open spec fn wf(&self) -> bool {
        self.start <= self.end
    }

    pub open spec fn spec_duration(&self) -> int {
        self.end - self.start
    }

    /// The separation between two intervals that neither overlap nor touch.
    pub open spec fn spec_gap(&self, other: TimeInterval) -> Option<int> {
        if self.end < other.start {
            Some(other.start - self.end)
        } else if other.end < self.start {
            Some(self.start - other.end)
        } else {
            None
        }
    }

    pub fn new(start: i64, end: i64) -> (r: TimeInterval)
        requires
            start <= end,
        ensures
            r.start == start,
            r.end == end,
            r.wf(),
    {
        TimeInterval { start, end }
    }

    pub fn start(&self) -> (r: i64)
        ensures
            r == self.start,
    {
        self.start
    }

    pub fn end(&self) -> (r: i64)
        ensures
            r == self.end,
    {
        self.end
    }

    /// The length of the interval.
    pub fn duration(&self) -> (r: i64)
        requires
            self.wf(),
            self.spec_duration() <= i64::MAX,
        ensures
            r == self.spec_duration(),
    {
        self.end - self.start
    }

    /// The separation between the two intervals when there is a real gap
    /// between them; `None` when they overlap or touch.
    pub fn gap(&self, other: &TimeInterval) -> (r: Option<u64>)
        ensures
            r is Some <==> self.spec_gap(*other) is Some,
            r is Some ==> r->0 == self.spec_gap(*other)->0,
    {
        if self.end < other.start {
            Some((other.start as i128 - self.end as i128) as u64)
        } else if other.end < self.start {
            Some((self.start as i128 - other.end as i128) as u64)
        } else {
            None
        }
    }
}

} // verus!
