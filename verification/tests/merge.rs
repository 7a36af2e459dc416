use aw_server::event::Event;
use aw_server::merge::{checked_merge_events_by_keys, merge_events_by_keys};

const NANOS_PER_SEC: i128 = 1_000_000_000;
/// 2000-01-01T00:00:00Z in seconds since the Unix epoch.
const Y2K: i128 = 946_684_800;

fn event(at_secs: i128, duration_secs: i128, data: &[(&str, &str)]) -> Event {
    Event {
        id: None,
        timestamp: (Y2K + at_secs) * NANOS_PER_SEC,
        duration: duration_secs * NANOS_PER_SEC,
        data: data.iter().map(|(k, v)| (k.to_string(), v.to_string())).collect(),
        team_id: 1,
    }
}

fn keys(names: &[&str]) -> Vec<String> {
    names.iter().map(|k| k.to_string()).collect()
}

fn sort_by_timestamp(mut events: Vec<Event>) -> Vec<Event> {
    events.sort_by_key(|e| e.timestamp);
    events
}

#[test]
fn test_merge_events_by_key() {
    let e1 = event(0, 1, &[("test", "1")]);
    let e2 = event(1, 3, &[("test2", "3")]);
    let e3 = event(2, 7, &[("test", "6")]);
    let e4 = event(3, 9, &[("test", "1")]);
    let in_events = vec![e1, e2, e3, e4];
    let res1 = merge_events_by_keys(in_events, vec!["test".to_string()]);
    let res2 = sort_by_timestamp(res1);
    let expected = vec![event(0, 10, &[("test", "1")]), event(2, 7, &[("test", "6")])];
    assert_eq!(&res2, &expected);
}

#[test]
fn merge_with_no_keys_is_empty() {
    let events = vec![event(0, 1, &[("a", "1")]), event(1, 2, &[("a", "1")])];
    assert!(merge_events_by_keys(events, vec![]).is_empty());
}

#[test]
fn merge_of_no_events_is_empty() {
    assert!(merge_events_by_keys(vec![], keys(&["a"])).is_empty());
}

#[test]
fn merge_follows_first_occurrence_order() {
    let events = vec![
        event(5, 1, &[("a", "\"x\"")]),
        event(1, 2, &[("a", "\"y\"")]),
        event(9, 4, &[("a", "\"x\"")]),
    ];
    let res = merge_events_by_keys(events, keys(&["a"]));
    assert_eq!(res, vec![event(5, 5, &[("a", "\"x\"")]), event(1, 2, &[("a", "\"y\"")])]);
}

#[test]
fn merge_drops_events_missing_a_key() {
    // Two keys, and one event without "b".
    let events = vec![
        event(0, 1, &[("a", "1"), ("b", "1")]),
        event(1, 1, &[("a", "2"), ("b", "2")]),
        event(2, 1, &[("a", "1"), ("b", "1")]),
        event(3, 1, &[("a", "1"), ("b", "2")]),
        event(4, 1, &[("a", "1")]),
    ];
    let res = merge_events_by_keys(events, keys(&["a", "b"]));
    assert_eq!(
        res,
        vec![
            event(0, 2, &[("a", "1"), ("b", "1")]),
            event(1, 1, &[("a", "2"), ("b", "2")]),
            event(3, 1, &[("a", "1"), ("b", "2")]),
        ]
    );
}

/// Events without "a" are left out of the result.
#[test]
fn merge_single_key_drops_keyless_event() {
    let events = vec![
        event(0, 1, &[("a", "1")]),
        event(1, 1, &[("a", "1")]),
        event(2, 1, &[("a", "2")]),
        event(3, 1, &[("b", "1")]),
        event(4, 1, &[("a", "1")]),
    ];
    let res = merge_events_by_keys(events, keys(&["a"]));
    assert_eq!(res, vec![event(0, 3, &[("a", "1")]), event(2, 1, &[("a", "2")])]);
}

#[test]
fn merged_event_has_no_id_and_team_one() {
    let mut e = event(0, 1, &[("a", "1")]);
    e.id = Some(42);
    e.team_id = 7;
    let res = merge_events_by_keys(vec![e], keys(&["a"]));
    assert_eq!(res.len(), 1);
    assert_eq!(res[0].id, None);
    assert_eq!(res[0].team_id, 1);
    assert_eq!(res[0].data, vec![("a".to_string(), "1".to_string())]);
}

#[test]
fn merge_keeps_all_data_of_the_first_event() {
    let events = vec![
        event(0, 1, &[("a", "1"), ("extra", "true")]),
        event(1, 1, &[("a", "1"), ("other", "null")]),
    ];
    let res = merge_events_by_keys(events, keys(&["a"]));
    assert_eq!(res, vec![event(0, 2, &[("a", "1"), ("extra", "true")])]);
}

#[test]
fn merge_keeps_apart_events_with_different_values() {
    // Values that would read alike once joined with "." still differ.
    let events = vec![
        event(0, 1, &[("a", "1.5"), ("b", "2")]),
        event(1, 1, &[("a", "1"), ("b", "5.2")]),
    ];
    let res = merge_events_by_keys(events.clone(), keys(&["a", "b"]));
    assert_eq!(res, events);
}

#[test]
fn merge_reads_the_first_field_of_a_name() {
    let events = vec![
        event(0, 1, &[("a", "1"), ("a", "2")]),
        event(1, 1, &[("a", "1")]),
        event(2, 1, &[("a", "2")]),
    ];
    let res = merge_events_by_keys(events, keys(&["a"]));
    assert_eq!(res, vec![event(0, 2, &[("a", "1"), ("a", "2")]), event(2, 1, &[("a", "2")])]);
}

#[test]
fn merge_keeps_total_duration() {
    let events = vec![
        event(0, 3, &[("a", "1")]),
        event(1, 4, &[("a", "2")]),
        event(2, 5, &[("b", "1")]),
        event(3, 6, &[("a", "1")]),
    ];
    let keyed: i128 = 3 + 4 + 6;
    let res = merge_events_by_keys(events, keys(&["a"]));
    let total: i128 = res.iter().map(|e| e.duration).sum();
    assert_eq!(total, keyed * NANOS_PER_SEC);
}

#[test]
fn merge_is_idempotent_on_example() {
    let events = vec![
        event(0, 3, &[("a", "1")]),
        event(1, 4, &[("a", "2")]),
        event(3, 6, &[("a", "1")]),
    ];
    let once = merge_events_by_keys(events, keys(&["a"]));
    let twice = merge_events_by_keys(once.clone(), keys(&["a"]));
    assert_eq!(once, twice);
}

#[test]
fn merge_sums_negative_and_large_durations() {
    let limit: i128 = 9_223_372_036_854_775_807_000_000;
    let mut a = event(0, 0, &[("a", "1")]);
    a.duration = limit;
    let mut b = event(1, 0, &[("a", "1")]);
    b.duration = -limit;
    let res = merge_events_by_keys(vec![a, b], keys(&["a"]));
    assert_eq!(res[0].duration, 0);
}

#[test]
fn checked_merge_refuses_a_total_out_of_range() {
    let limit: i128 = 9_223_372_036_854_775_807_000_000;
    let mut a = event(0, 0, &[("a", "1")]);
    a.duration = limit;
    let b = event(1, 1, &[("a", "1")]);
    assert!(checked_merge_events_by_keys(vec![a.clone(), b.clone()], keys(&["a"])).is_none());
    // Without keys nothing is added up.
    assert_eq!(checked_merge_events_by_keys(vec![a.clone(), b.clone()], vec![]), Some(vec![]));
    // In separate groups the totals stay in range.
    let c = event(1, 1, &[("a", "2")]);
    let merged = checked_merge_events_by_keys(vec![a, c], keys(&["a"])).unwrap();
    assert_eq!(merged.len(), 2);
    assert_eq!(merged[0].duration, limit);
}

#[test]
fn merge_is_unchanged_by_leaving_out_keyless_events() {
    let events = vec![
        event(0, 1, &[("a", "1")]),
        event(1, 2, &[("b", "1")]),
        event(2, 3, &[("a", "2")]),
        event(3, 4, &[]),
        event(4, 5, &[("a", "1")]),
    ];
    let keyed: Vec<Event> =
        events.iter().filter(|e| e.data.iter().any(|(k, _)| k == "a")).cloned().collect();
    assert_eq!(
        merge_events_by_keys(events, keys(&["a"])),
        merge_events_by_keys(keyed, keys(&["a"]))
    );
}

#[test]
fn merge_is_unchanged_by_reordering_within_groups() {
    let a1 = event(0, 1, &[("a", "1")]);
    let a2 = event(1, 2, &[("a", "2")]);
    let a1_late = event(2, 3, &[("a", "1")]);
    let a2_late = event(3, 4, &[("a", "2")]);
    let first = merge_events_by_keys(
        vec![a1.clone(), a2.clone(), a1_late.clone(), a2_late.clone()],
        keys(&["a"]),
    );
    // Each group keeps its first event; the groups change places.
    let second = merge_events_by_keys(vec![a2, a2_late, a1, a1_late], keys(&["a"]));
    assert_eq!(sort_by_timestamp(first), sort_by_timestamp(second));
}
