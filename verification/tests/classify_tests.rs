use event_aggregate::EventKind;
use event_aggregate::classify;

fn b(s: &str) -> Vec<u8> {
    s.as_bytes().to_vec()
}

#[test]
fn classifies_push_event() {
    let line = b(r#"{"id":"1","type":"PushEvent","payload":{"distinct_size":2}}"#);
    assert_eq!(classify(&line), Some(EventKind::Push));
}

#[test]
fn classifies_pull_request_event() {
    let line = b(r#"{"type":"PullRequestEvent","repo":{"id":1,"name":"a/b"}}"#);
    assert_eq!(classify(&line), Some(EventKind::PullRequest));
}

#[test]
fn uninteresting_tag_is_other() {
    let line = b(r#"{"type":"WatchEvent","repo":{"id":3,"name":"e/f"}}"#);
    assert_eq!(classify(&line), Some(EventKind::Other));
}

#[test]
fn missing_type_field_is_no_classification() {
    let line = b(r#"{"id":"1","kind":"PushEvent"}"#);
    assert_eq!(classify(&line), None);
}

#[test]
fn empty_line_is_no_classification() {
    let line: Vec<u8> = Vec::new();
    assert_eq!(classify(&line), None);
}

#[test]
fn tag_must_be_letters_closed_by_quote() {
    let line = b(r#"{"type":"Push1"}"#);
    assert_eq!(classify(&line), None);
}

#[test]
fn later_well_formed_tag_field_counts() {
    let line = b(r#"{"note":"\"type\":\"x1\" inside","type":"PushEvent"}"#);
    assert_eq!(classify(&line), Some(EventKind::Push));
}

#[test]
fn unterminated_tag_is_no_classification() {
    let line = b(r#"{"type":"PushEvent"#);
    assert_eq!(classify(&line), None);
}
