use wakectl::schedule::{add_to_schedule, get_unused_id, Event, EventKind, Schedule, Weekday};
use wakectl::time::{TimeOfDay, UtcTime};

fn once(id: u64, ts: i64) -> Event {
    Event { id, kind: EventKind::Once(UtcTime { timestamp: ts, nanos: 0 }) }
}

fn ids(s: &Schedule) -> Vec<u64> {
    s.events.iter().map(|e| e.id).collect()
}

#[test]
fn unused_id_of_empty_schedule_is_one() {
    assert_eq!(get_unused_id(&Schedule::default()), 1);
}

#[test]
fn unused_id_fills_first_gap() {
    let s = Schedule { events: vec![once(1, 0), once(2, 0), once(4, 0)] };
    assert_eq!(get_unused_id(&s), 3);
    let s = Schedule { events: vec![once(3, 0), once(2, 0)] };
    assert_eq!(get_unused_id(&s), 1);
    let s = Schedule { events: vec![once(2, 0), once(1, 0), once(3, 0)] };
    assert_eq!(get_unused_id(&s), 4);
}

#[test]
fn add_replaces_event_with_same_id() {
    let mut s = Schedule { events: vec![once(1, 10), once(2, 20), once(3, 30)] };
    add_to_schedule(&mut s, once(2, 99));
    assert_eq!(ids(&s), vec![1, 3, 2]);
    match s.events[2].kind {
        EventKind::Once(t) => assert_eq!(t.timestamp, 99),
        _ => panic!("Expected a one-time event"),
    }
}

#[test]
fn add_with_fresh_id_appends() {
    let mut s = Schedule { events: vec![once(1, 10), once(2, 20)] };
    let id = get_unused_id(&s);
    add_to_schedule(&mut s, once(id, 30));
    assert_eq!(ids(&s), vec![1, 2, 3]);
}

#[test]
fn add_removes_every_duplicate() {
    let mut s = Schedule { events: vec![once(5, 1), once(5, 2), once(6, 3)] };
    let weekly = Event {
        id: 5,
        kind: EventKind::Weekly {
            days: vec![Weekday::Mon, Weekday::Fri],
            time: TimeOfDay::from_hms_opt(7, 0, 0).unwrap(),
        },
    };
    add_to_schedule(&mut s, weekly);
    assert_eq!(ids(&s), vec![6, 5]);
}

#[test]
fn unused_id_then_add_appends() {
    let mut s = Schedule { events: vec![once(2, 20), once(1, 10), once(5, 50)] };
    let first = get_unused_id(&s);
    let second = get_unused_id(&s);
    assert_eq!(first, second);
    assert_eq!(first, 3);
    let before = ids(&s);
    add_to_schedule(&mut s, once(first, 30));
    let mut expected = before.clone();
    expected.push(3);
    assert_eq!(ids(&s), expected);
    assert_eq!(s.events.len(), before.len() + 1);
}
