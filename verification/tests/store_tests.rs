use event_aggregate::AggregationStore;
use event_aggregate::DecodedRecord;
use event_aggregate::process_line;
use event_aggregate::process_lines;

fn b(s: &str) -> Vec<u8> {
    s.as_bytes().to_vec()
}

fn opened(id: u64, name: &str, action: &str) -> DecodedRecord {
    DecodedRecord::Opened { id, name: b(name), action: b(action) }
}

fn pushed(id: u64, name: &str, units: u64) -> DecodedRecord {
    DecodedRecord::Pushed { id, name: b(name), units }
}

fn counters(store: &AggregationStore, id: u64) -> (Vec<u8>, u64, u64, u64) {
    let e = store.get(id).expect("entity should be present");
    (e.name.clone(), e.prs_opened, e.pushes, e.commits)
}

#[test]
fn scenario_four_lines() {
    let lines = vec![
        b(r#"{"type":"PullRequestEvent","repo":{"id":1,"name":"a/b"},"payload":{"action":"opened"}}"#),
        b(r#"{"type":"PushEvent","repo":{"id":1,"name":"a/b"},"payload":{"distinct_size":3}}"#),
        b(r#"{"type":"PushEvent","repo":{"id":2,"name":"c/d"},"payload":{"distinct_size":0}}"#),
        b(r#"{"type":"WatchEvent","repo":{"id":3,"name":"e/f"}}"#),
    ];
    let mut store = AggregationStore::new();
    let skipped = process_lines(&mut store, &lines);
    assert_eq!(store.len(), 1);
    assert_eq!(counters(&store, 1), (b("a/b"), 1, 1, 3));
    assert!(store.get(2).is_none());
    assert!(store.get(3).is_none());
    assert_eq!(skipped, 1);
}

#[test]
fn push_with_zero_units_creates_nothing() {
    let mut store = AggregationStore::new();
    store.apply(pushed(5, "x/y", 0));
    assert_eq!(store.len(), 0);
    assert!(store.get(5).is_none());
}

#[test]
fn push_with_zero_units_changes_nothing() {
    let mut store = AggregationStore::new();
    store.apply(pushed(5, "x/y", 2));
    store.apply(pushed(5, "x/y", 0));
    assert_eq!(counters(&store, 5), (b("x/y"), 0, 1, 2));
}

#[test]
fn other_action_changes_no_counter() {
    let mut store = AggregationStore::new();
    store.apply(opened(4, "p/q", "closed"));
    assert_eq!(store.len(), 0);
    store.apply(opened(4, "p/q", "opened"));
    store.apply(opened(4, "p/q", "reopened"));
    assert_eq!(counters(&store, 4), (b("p/q"), 1, 0, 0));
}

#[test]
fn counters_accumulate_per_entity() {
    let mut store = AggregationStore::new();
    store.apply(pushed(1, "a/b", 3));
    store.apply(pushed(1, "a/b", 4));
    store.apply(opened(1, "a/b", "opened"));
    store.apply(pushed(2, "c/d", 1));
    assert_eq!(store.len(), 2);
    assert_eq!(counters(&store, 1), (b("a/b"), 1, 2, 7));
    assert_eq!(counters(&store, 2), (b("c/d"), 0, 1, 1));
}

#[test]
fn first_seen_name_wins() {
    let mut store = AggregationStore::new();
    store.apply(pushed(1, "old/name", 1));
    store.apply(pushed(1, "new/name", 1));
    assert_eq!(counters(&store, 1), (b("old/name"), 0, 2, 2));
}

#[test]
fn merge_sums_shared_and_copies_disjoint() {
    let mut a = AggregationStore::new();
    a.apply(pushed(1, "a/b", 3));
    a.apply(opened(2, "c/d", "opened"));
    let mut c = AggregationStore::new();
    c.apply(pushed(2, "c/d", 5));
    c.apply(pushed(3, "e/f", 1));
    let m = a.merge(&c);
    assert_eq!(m.len(), 3);
    assert_eq!(counters(&m, 1), (b("a/b"), 0, 1, 3));
    assert_eq!(counters(&m, 2), (b("c/d"), 1, 1, 5));
    assert_eq!(counters(&m, 3), (b("e/f"), 0, 1, 1));
}

#[test]
fn merge_is_commutative_on_these_stores() {
    let mut a = AggregationStore::new();
    a.apply(pushed(1, "a/b", 3));
    a.apply(opened(2, "c/d", "opened"));
    let mut c = AggregationStore::new();
    c.apply(pushed(2, "c/d", 5));
    let ab = a.merge(&c);
    let ba = c.merge(&a);
    assert_eq!(ab.len(), ba.len());
    assert_eq!(counters(&ab, 1), counters(&ba, 1));
    assert_eq!(counters(&ab, 2), counters(&ba, 2));
}

#[test]
fn merge_is_associative_on_these_stores() {
    let mut a = AggregationStore::new();
    a.apply(pushed(1, "a/b", 3));
    let mut b2 = AggregationStore::new();
    b2.apply(pushed(1, "a/b", 4));
    b2.apply(opened(2, "c/d", "opened"));
    let mut c = AggregationStore::new();
    c.apply(pushed(2, "c/d", 9));
    let left = a.merge(&b2).merge(&c);
    let right = a.merge(&b2.merge(&c));
    assert_eq!(left.len(), right.len());
    assert_eq!(counters(&left, 1), counters(&right, 1));
    assert_eq!(counters(&left, 2), counters(&right, 2));
}

#[test]
fn double_pass_doubles_every_counter() {
    let lines = vec![
        b(r#"{"type":"PullRequestEvent","repo":{"id":1,"name":"a/b"},"payload":{"action":"opened"}}"#),
        b(r#"{"type":"PushEvent","repo":{"id":1,"name":"a/b"},"payload":{"distinct_size":3}}"#),
        b(r#"{"type":"PushEvent","repo":{"id":2,"name":"c/d"},"payload":{"distinct_size":2}}"#),
    ];
    let mut once = AggregationStore::new();
    process_lines(&mut once, &lines);
    let mut first = AggregationStore::new();
    process_lines(&mut first, &lines);
    let mut second = AggregationStore::new();
    process_lines(&mut second, &lines);
    let doubled = first.merge(&second);
    assert_eq!(doubled.len(), once.len());
    let (name1, o1, p1, c1) = counters(&once, 1);
    assert_eq!(counters(&doubled, 1), (name1, 2 * o1, 2 * p1, 2 * c1));
    let (name2, o2, p2, c2) = counters(&once, 2);
    assert_eq!(counters(&doubled, 2), (name2, 2 * o2, 2 * p2, 2 * c2));
}

#[test]
fn saturating_counters_never_wrap() {
    let mut store = AggregationStore::new();
    store.apply(pushed(1, "a/b", u64::MAX));
    store.apply(pushed(1, "a/b", 5));
    assert_eq!(counters(&store, 1), (b("a/b"), 0, 2, u64::MAX));
}

#[test]
fn process_line_reports_whether_the_line_counted() {
    let mut store = AggregationStore::new();
    let good = b(r#"{"type":"PushEvent","repo":{"id":1,"name":"a/b"},"payload":{"distinct_size":1}}"#);
    let bad = b(r#"{"type":"PushEvent","repo":{"id":},"payload":{"distinct_size":1}}"#);
    assert!(process_line(&mut store, &good));
    assert!(!process_line(&mut store, &bad));
    assert_eq!(store.len(), 1);
}

#[test]
fn to_entries_lists_every_entity() {
    let mut store = AggregationStore::new();
    store.apply(pushed(1, "a/b", 3));
    store.apply(opened(2, "c/d", "opened"));
    let mut entries = store.to_entries();
    entries.sort_by_key(|e| e.id);
    assert_eq!(entries.len(), 2);
    assert_eq!(entries[0].id, 1);
    assert_eq!(entries[0].commits, 3);
    assert_eq!(entries[1].id, 2);
    assert_eq!(entries[1].prs_opened, 1);
}

#[test]
fn top_entities_filters_ranks_and_caps() {
    let mut store = AggregationStore::new();
    store.apply(pushed(1, "low/act", 1));
    store.apply(pushed(2, "mid/act", 7));
    store.apply(pushed(3, "high/act", 20));
    store.apply(pushed(4, "also/mid", 5));
    let top = store.top_entities(5, 10);
    assert_eq!(top.len(), 3);
    assert_eq!(top[0].id, 3);
    assert!(top.iter().all(|e| e.prs_opened + e.pushes + e.commits >= 5));
    assert!(top.iter().all(|e| e.id != 1));
    let capped = store.top_entities(5, 2);
    assert_eq!(capped.len(), 2);
    assert_eq!(capped[0].id, 3);
}

#[test]
fn top_entities_orders_by_activity() {
    let mut store = AggregationStore::new();
    store.apply(pushed(1, "a/a", 9));
    store.apply(pushed(2, "b/b", 29));
    store.apply(pushed(3, "c/c", 19));
    let top = store.top_entities(1, 10);
    assert_eq!(top.len(), 3);
    assert_eq!(top[0].id, 2);
    assert_eq!(top[1].id, 3);
    assert_eq!(top[2].id, 1);
}

#[test]
fn fresh_score_starts_at_zero() {
    let e = event_aggregate::EntityScore::new(9, b("x/y"));
    assert_eq!(e.id, 9);
    assert_eq!(e.name, b("x/y"));
    assert_eq!(e.prs_opened, 0);
    assert_eq!(e.pushes, 0);
    assert_eq!(e.commits, 0);
    assert_eq!(e.activity(), 0);
}

#[test]
fn empty_stores_merge_to_empty() {
    let a = AggregationStore::new();
    let c = AggregationStore::new();
    assert_eq!(a.merge(&c).len(), 0);
}
