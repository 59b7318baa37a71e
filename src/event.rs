use vstd::prelude::*;
use crate::interval::TimeInterval;

verus! {

/// A timestamped occurrence with a duration and a payload.
///
/// Times are nanoseconds since the epoch; `data` is the payload as JSON
/// object text.
#[derive(Clone, Debug, PartialEq, Eq)]
pub struct Event {
    pub id: Option<i64>,
    pub timestamp: i64,
    pub duration: i64,
    pub data: String,
}

impl Event {
    /// The duration is non-negative and the end is representable.
    pub open spec fn wf(&self) -> bool {
        0 <= self.duration && self.timestamp + self.duration <= i64::MAX
    }

    pub open spec fn spec_end(&self) -> int {
        self.timestamp + self.duration
    }

    pub open spec fn spec_interval(&self) -> TimeInterval {
        TimeInterval { start: self.timestamp, end: self.spec_end() as i64 }
    }

    /// The same event moved to cover `[start, end)`.
    pub open spec fn spec_with_bounds(&self, start: int, end: int) -> Event {
        Event { id: self.id, timestamp: start as i64, duration: (end - start) as i64, data: self.data }
    }

    /// Whether time point `t` lies inside the event's interval.
    pub open spec fn covers(&self, t: int) -> bool {
        self.timestamp <= t < self.spec_end()
    }

    pub fn calculate_endtime(&self) -> (r: i64)
        requires
            self.wf(),
        ensures
            r == self.spec_end(),
    {
        self.timestamp + self.duration
    }

    pub fn interval(&self) -> (r: TimeInterval)
        requires
            self.wf(),
        ensures
            r == self.spec_interval(),
            r.wf(),
    {
        TimeInterval::new(self.timestamp, self.timestamp + self.duration)
    }

    /// A field-by-field copy.
    pub fn copied(&self) -> (r: Event)
        ensures
            r == *self,
    {
        Event { id: self.id, timestamp: self.timestamp, duration: self.duration, data: self.data.clone() }
    }

    /// The same event moved to cover `[start, end)`, payload and id kept.
    pub fn with_bounds(&self, start: i64, end: i64) -> (r: Event)
        requires
            start <= end,
            end - start <= i64::MAX,
        ensures
            r.id == self.id,
            r.data == self.data,
            r.timestamp == start,
            r.spec_end() == end,
            r.wf(),
            r == self.spec_with_bounds(start as int, end as int),
    {
        Event { id: self.id, timestamp: start, duration: end - start, data: self.data.clone() }
    }
}

/// An event's interval is exactly as long as the event's duration.
pub proof fn lemma_interval_duration(e: Event)
    requires
        e.wf(),
    ensures
        e.spec_interval().wf(),
        e.spec_interval().spec_duration() == e.duration,
        e.spec_interval().end - e.spec_interval().start == e.duration,
{
}

/// Copies a sequence of events element by element.
pub fn copy_events(v: &[Event]) -> (r: Vec<Event>)
    ensures
        r@ == v@,
{
    let mut out: Vec<Event> = Vec::new();
    let mut i: usize = 0;
    while i < v.len()
        invariant
            i <= v@.len(),
            out@ == v@.take(i as int),
        decreases v@.len() - i,
    {
        out.push(v[i].copied());
        i = i + 1;
        assert(out@ =~= v@.take(i as int));
    }
    assert(v@.take(v@.len() as int) =~= v@);
    out
}

} // verus!
