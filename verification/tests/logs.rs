use a3s_dev::logs::{Delivery, LogEntry, LogHistory, LogHub};

fn texts(entries: &[LogEntry]) -> Vec<(String, String)> {
    entries.iter().map(|e| (e.service.clone(), e.line.clone())).collect()
}

fn pair(service: &str, line: &str) -> (String, String) {
    (service.to_string(), line.to_string())
}

fn entry_of(d: Delivery) -> (String, String) {
    match d {
        Delivery::Entry(e) => (e.service, e.line),
        _ => panic!("an entry was expected"),
    }
}

#[test]
fn history_keeps_the_latest_lines_in_arrival_order() {
    let mut h = LogHistory::new(3);
    for i in 0..10 {
        h.push(LogEntry::new("web", &format!("line {i}")));
    }
    assert_eq!(h.len(), 3);
    let got = h.recent(None, 5);
    assert_eq!(
        texts(&got),
        vec![pair("web", "line 7"), pair("web", "line 8"), pair("web", "line 9")]
    );
}

#[test]
fn history_returns_no_more_than_the_limit() {
    let mut h = LogHistory::new(100);
    for i in 0..10 {
        h.push(LogEntry::new("web", &format!("line {i}")));
    }
    let got = h.recent(None, 4);
    assert_eq!(
        texts(&got),
        vec![
            pair("web", "line 6"),
            pair("web", "line 7"),
            pair("web", "line 8"),
            pair("web", "line 9")
        ]
    );
    assert!(h.recent(None, 0).is_empty());
    assert_eq!(h.recent(None, 1000).len(), 10);
}

#[test]
fn history_filters_by_service() {
    let mut h = LogHistory::new(10);
    h.push(LogEntry::new("web", "w1"));
    h.push(LogEntry::new("db", "d1"));
    h.push(LogEntry::new("web", "w2"));
    h.push(LogEntry::new("db", "d2"));
    h.push(LogEntry::new("web", "w3"));
    assert_eq!(texts(&h.recent(Some("web"), 2)), vec![pair("web", "w2"), pair("web", "w3")]);
    assert_eq!(texts(&h.recent(Some("db"), 5)), vec![pair("db", "d1"), pair("db", "d2")]);
    assert!(h.recent(Some("mail"), 5).is_empty());
}

#[test]
fn history_without_capacity_keeps_nothing() {
    let mut h = LogHistory::new(0);
    h.push(LogEntry::new("web", "w1"));
    assert_eq!(h.len(), 0);
    assert!(h.recent(None, 5).is_empty());
}

#[test]
fn both_subscribers_get_every_line_at_their_own_pace() {
    let mut hub = LogHub::new(10, 16);
    let a = hub.subscribe();
    let b = hub.subscribe();
    assert_ne!(a, b);
    hub.publish(LogEntry::new("web", "one"));
    hub.publish(LogEntry::new("db", "two"));
    assert_eq!(entry_of(hub.receive(a)), pair("web", "one"));
    assert_eq!(entry_of(hub.receive(a)), pair("db", "two"));
    assert!(matches!(hub.receive(a), Delivery::Empty));
    hub.publish(LogEntry::new("web", "three"));
    assert_eq!(entry_of(hub.receive(b)), pair("web", "one"));
    assert_eq!(entry_of(hub.receive(a)), pair("web", "three"));
    assert_eq!(entry_of(hub.receive(b)), pair("db", "two"));
    assert_eq!(entry_of(hub.receive(b)), pair("web", "three"));
    assert!(matches!(hub.receive(b), Delivery::Empty));
}

#[test]
fn subscriber_gets_only_what_is_published_after_it_subscribed() {
    let mut hub = LogHub::new(10, 16);
    hub.publish(LogEntry::new("web", "early"));
    let a = hub.subscribe();
    assert!(matches!(hub.receive(a), Delivery::Empty));
    hub.publish(LogEntry::new("web", "late"));
    assert_eq!(entry_of(hub.receive(a)), pair("web", "late"));
    assert_eq!(texts(&hub.log_history(None, 10)), vec![pair("web", "early"), pair("web", "late")]);
}

#[test]
fn slow_subscriber_is_told_what_it_lost_and_goes_on() {
    let mut hub = LogHub::new(10, 2);
    let slow = hub.subscribe();
    let fast = hub.subscribe();
    for i in 1..=5 {
        hub.publish(LogEntry::new("web", &format!("l{i}")));
        assert_eq!(entry_of(hub.receive(fast)), pair("web", &format!("l{i}")));
    }
    match hub.receive(slow) {
        Delivery::Lagged(n) => assert_eq!(n, 3),
        _ => panic!("a loss was expected"),
    }
    assert_eq!(entry_of(hub.receive(slow)), pair("web", "l4"));
    assert_eq!(entry_of(hub.receive(slow)), pair("web", "l5"));
    assert!(matches!(hub.receive(slow), Delivery::Empty));
}

#[test]
fn closed_subscription_delivers_nothing_and_its_slot_is_used_again() {
    let mut hub = LogHub::new(10, 4);
    let a = hub.subscribe();
    let b = hub.subscribe();
    assert_eq!((a, b), (0, 1));
    hub.unsubscribe(a);
    hub.publish(LogEntry::new("web", "x"));
    assert!(matches!(hub.receive(a), Delivery::Closed));
    assert!(matches!(hub.receive(7), Delivery::Closed));
    assert_eq!(entry_of(hub.receive(b)), pair("web", "x"));
    let c = hub.subscribe();
    assert_eq!(c, 0);
    assert!(matches!(hub.receive(c), Delivery::Empty));
    assert_eq!(hub.subscribe(), 2);
}

#[test]
fn history_does_not_depend_on_subscribers() {
    let mut hub = LogHub::new(2, 1);
    for i in 0..4 {
        hub.publish(LogEntry::new("web", &format!("h{i}")));
    }
    assert_eq!(texts(&hub.log_history(None, 10)), vec![pair("web", "h2"), pair("web", "h3")]);
}

#[test]
fn entry_copy_is_equal() {
    let e = LogEntry::new("svc", "text");
    let c = e.copy();
    assert_eq!((c.service, c.line), pair("svc", "text"));
}
