use aw_datastore::event::Event;
use aw_datastore::heartbeat::heartbeat;
use aw_datastore::interval::TimeInterval;
use aw_datastore::union_no_overlap::union_no_overlap;

fn ev(start: i64, duration: i64, data: &str) -> Event {
    Event { id: None, timestamp: start, duration, data: data.to_string() }
}

fn spans(events: &[Event]) -> Vec<(i64, i64, String)> {
    events.iter().map(|e| (e.timestamp, e.timestamp + e.duration, e.data.clone())).collect()
}

#[test]
fn interval_duration_matches_event() {
    let e = ev(100, 250, "{}");
    let i = e.interval();
    assert_eq!(i.duration(), e.duration);
    assert_eq!(i.end() - i.start(), 250);
    assert_eq!(e.calculate_endtime(), 350);
}

#[test]
fn interval_gap() {
    let a = TimeInterval::new(10, 20);
    let b = TimeInterval::new(30, 40);
    assert_eq!(a.gap(&b), Some(10));
    assert_eq!(b.gap(&a), Some(10));
    let touching = TimeInterval::new(20, 30);
    assert_eq!(a.gap(&touching), None);
    let overlapping = TimeInterval::new(15, 25);
    assert_eq!(a.gap(&overlapping), None);
}

#[test]
fn union_no_overlap_disjoint() {
    let a = vec![ev(10, 10, "{\"a\":1}")];
    let b = vec![ev(30, 10, "{\"b\":1}")];
    let r = union_no_overlap(&a, &b);
    assert_eq!(
        spans(&r),
        vec![(10, 20, "{\"a\":1}".to_string()), (30, 40, "{\"b\":1}".to_string())]
    );
}

#[test]
fn union_no_overlap_full_containment() {
    let a = vec![ev(10, 20, "{\"a\":1}")];
    let b = vec![ev(15, 5, "{\"b\":1}")];
    let r = union_no_overlap(&a, &b);
    assert_eq!(spans(&r), vec![(10, 30, "{\"a\":1}".to_string())]);
}

#[test]
fn union_no_overlap_partial_overlap_a_wins() {
    let a = vec![ev(20, 10, "{\"a\":1}")];
    let b = vec![ev(10, 15, "{\"b\":1}")];
    let r = union_no_overlap(&a, &b);
    assert_eq!(
        spans(&r),
        vec![(10, 20, "{\"b\":1}".to_string()), (20, 30, "{\"a\":1}".to_string())]
    );
}

#[test]
fn union_no_overlap_b_extends_past_a() {
    let a = vec![ev(10, 10, "{\"a\":1}")];
    let b = vec![ev(15, 15, "{\"b\":1}")];
    let r = union_no_overlap(&a, &b);
    assert_eq!(
        spans(&r),
        vec![(10, 20, "{\"a\":1}".to_string()), (20, 30, "{\"b\":1}".to_string())]
    );
}

#[test]
fn union_no_overlap_sorts_inputs_and_covers_span() {
    let a = vec![ev(50, 10, "{\"a\":2}"), ev(0, 10, "{\"a\":1}")];
    let b = vec![ev(5, 50, "{\"b\":1}")];
    let r = union_no_overlap(&a, &b);
    assert_eq!(
        spans(&r),
        vec![
            (0, 10, "{\"a\":1}".to_string()),
            (10, 50, "{\"b\":1}".to_string()),
            (50, 60, "{\"a\":2}".to_string()),
        ]
    );
    let total: i64 = r.iter().map(|e| e.duration).sum();
    assert_eq!(total, 60);
}

#[test]
fn union_no_overlap_empty_side() {
    let a: Vec<Event> = vec![];
    let b = vec![ev(30, 10, "{}"), ev(10, 5, "{}")];
    let r = union_no_overlap(&a, &b);
    assert_eq!(spans(&r), vec![(10, 15, "{}".to_string()), (30, 40, "{}".to_string())]);
    let r2 = union_no_overlap(&b, &a);
    assert_eq!(spans(&r2), vec![(10, 15, "{}".to_string()), (30, 40, "{}".to_string())]);
}

#[test]
fn heartbeat_merges_within_pulsetime() {
    let last = Event { id: Some(7), timestamp: 0, duration: 10, data: "{\"app\":\"x\"}".to_string() };
    let hb = ev(15, 3, "{\"app\":\"x\"}");
    let merged = heartbeat(&last, &hb, 5).unwrap();
    assert_eq!(merged.timestamp, 0);
    assert_eq!(merged.duration, 18);
    assert_eq!(merged.id, Some(7));
    assert_eq!(merged.data, "{\"app\":\"x\"}");
}

#[test]
fn heartbeat_gap_boundaries() {
    let last = ev(0, 10, "{}");
    assert!(heartbeat(&last, &ev(10, 0, "{}"), 0).is_some());
    assert!(heartbeat(&last, &ev(20, 0, "{}"), 10).is_some());
    assert!(heartbeat(&last, &ev(21, 0, "{}"), 10).is_none());
    assert!(heartbeat(&last, &ev(9, 5, "{}"), 10).is_none());
}

#[test]
fn heartbeat_differing_payload_does_not_merge() {
    let last = ev(0, 10, "{\"app\":\"x\"}");
    let hb = ev(10, 1, "{\"app\":\"y\"}");
    assert!(heartbeat(&last, &hb, 100).is_none());
}

#[test]
fn union_no_overlap_keeps_every_first_event_whole() {
    let a = vec![ev(0, 10, "{\"a\":1}"), ev(30, 10, "{\"a\":2}")];
    let b = vec![ev(2, 1, "{\"b\":1}"), ev(5, 15, "{\"b\":2}")];
    let r = union_no_overlap(&a, &b);
    assert_eq!(
        spans(&r),
        vec![
            (0, 10, "{\"a\":1}".to_string()),
            (5, 20, "{\"b\":2}".to_string()),
            (30, 40, "{\"a\":2}".to_string()),
        ]
    );
    for e in &a {
        assert!(r.contains(e));
    }
}
