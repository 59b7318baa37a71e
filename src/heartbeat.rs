use vstd::prelude::*;
use crate::event::Event;

verus! {

/// Whether `heartbeat` extends `last`: equal payloads, and the heartbeat
/// starts no earlier than `last` ends and at most `pulsetime` after it, and
/// the span of the two fits a duration.
pub open spec fn merges(last: Event, heartbeat: Event, pulsetime: i64) -> bool {
    &&& last.data@ == heartbeat.data@
    &&& last.spec_end() <= heartbeat.timestamp
    &&& heartbeat.timestamp - last.spec_end() <= pulsetime
    &&& heartbeat.spec_end() - last.timestamp <= i64::MAX
}

/// The event that covers `last` and `heartbeat` together.
pub open spec fn merged(last: Event, heartbeat: Event) -> Event {
    Event {
        id: last.id,
        timestamp: last.timestamp,
        duration: (heartbeat.spec_end() - last.timestamp) as i64,
        data: last.data,
    }
}

/// The event that ends up stored for `heartbeat` when `last` is the most
/// recent event.
pub open spec fn merge_outcome(last: Event, heartbeat: Event, pulsetime: i64) -> Event {
    if merges(last, heartbeat, pulsetime) {
        merged(last, heartbeat)
    } else {
        heartbeat
    }
}

/// Merges `pulse` into `last_event` when it continues it within
/// `pulsetime` nanoseconds; `None` when it must be stored on its own.
pub fn heartbeat(last_event: &Event, pulse: &Event, pulsetime: i64) -> (r: Option<Event>)
    requires
        last_event.wf(),
        pulse.wf(),
    ensures
        r is Some <==> merges(*last_event, *pulse, pulsetime),
        r is Some ==> r->0 == merged(*last_event, *pulse),
        r is Some ==> r->0.wf(),
        r is Some ==> r->0.spec_end() == pulse.spec_end(),
{
    if last_event.data != pulse.data {
        return None;
    }
    let last_end = last_event.calculate_endtime();
    if pulse.timestamp < last_end {
        return None;
    }
    let gap: i128 = pulse.timestamp as i128 - last_end as i128;
    if gap > pulsetime as i128 {
        return None;
    }
    let end = pulse.calculate_endtime();
    if end as i128 - last_event.timestamp as i128 > i64::MAX as i128 {
        return None;
    }
    Some(Event {
        id: last_event.id,
        timestamp: last_event.timestamp,
        duration: end - last_event.timestamp,
        data: last_event.data.clone(),
    })
}

} // verus!
