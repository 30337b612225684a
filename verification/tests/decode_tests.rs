use event_aggregate::DecodedRecord;
use event_aggregate::decode;

fn b(s: &str) -> Vec<u8> {
    s.as_bytes().to_vec()
}

#[test]
fn decodes_push_record() {
    let line = b(r#"{"type":"PushEvent","repo":{"id":1,"name":"a/b"},"payload":{"distinct_size":3}}"#);
    match decode(&line) {
        Some(DecodedRecord::Pushed { id, name, units }) => {
            assert_eq!(id, 1);
            assert_eq!(name, b("a/b"));
            assert_eq!(units, 3);
        }
        _ => panic!("expected a push record"),
    }
}

#[test]
fn decodes_opened_record() {
    let line =
        b(r#"{"type":"PullRequestEvent","repo":{"id":7,"name":"c/d"},"payload":{"action":"opened"}}"#);
    match decode(&line) {
        Some(DecodedRecord::Opened { id, name, action }) => {
            assert_eq!(id, 7);
            assert_eq!(name, b("c/d"));
            assert_eq!(action, b("opened"));
        }
        _ => panic!("expected an opened record"),
    }
}

#[test]
fn decodes_other_action_verbatim() {
    let line =
        b(r#"{"type":"PullRequestEvent","repo":{"id":7,"name":"c/d"},"payload":{"action":"closed"}}"#);
    match decode(&line) {
        Some(DecodedRecord::Opened { action, .. }) => {
            assert_eq!(action, b("closed"));
        }
        _ => panic!("expected an opened-candidate record"),
    }
}

#[test]
fn unrecognized_kind_is_not_decoded() {
    let line = b(r#"{"type":"WatchEvent","repo":{"id":3,"name":"e/f"}}"#);
    assert!(decode(&line).is_none());
}

#[test]
fn classified_but_malformed_is_skipped() {
    let line = b(r#"{"type":"PushEvent","repo":{"id":,"name":"a/b"}}"#);
    assert!(decode(&line).is_none());
}

#[test]
fn missing_payload_field_is_skipped() {
    let line = b(r#"{"type":"PushEvent","repo":{"id":1,"name":"a/b"},"payload":{}}"#);
    assert!(decode(&line).is_none());
}

#[test]
fn oversized_unit_count_is_skipped() {
    let line = b(
        r#"{"type":"PushEvent","repo":{"id":1,"name":"a/b"},"payload":{"distinct_size":99999999999999999999}}"#,
    );
    assert!(decode(&line).is_none());
}

#[test]
fn unit_count_at_limit_is_decoded() {
    let line = b(
        r#"{"type":"PushEvent","repo":{"id":1,"name":"a/b"},"payload":{"distinct_size":18446744073709551615}}"#,
    );
    match decode(&line) {
        Some(DecodedRecord::Pushed { units, .. }) => assert_eq!(units, u64::MAX),
        _ => panic!("expected a push record"),
    }
}

#[test]
fn spaced_layout_is_skipped() {
    let line = b(
        r#"{"type":"PushEvent","repo": {"id": 1, "name": "a/b"},"payload": {"distinct_size": 3}}"#,
    );
    assert!(decode(&line).is_none());
}

#[test]
fn escaped_name_is_skipped() {
    let line =
        b(r#"{"type":"PushEvent","repo":{"id":1,"name":"a\"b"},"payload":{"distinct_size":3}}"#);
    assert!(decode(&line).is_none());
}

#[test]
fn name_is_read_from_the_entity_object() {
    let line = b(
        r#"{"type":"PushEvent","actor":{"login":"u"},"repo":{"id":9,"name":"x/y"},"payload":{"distinct_size":1,"commits":[{"author":{"name":"z"}}]}}"#,
    );
    match decode(&line) {
        Some(DecodedRecord::Pushed { id, name, units }) => {
            assert_eq!(id, 9);
            assert_eq!(name, b("x/y"));
            assert_eq!(units, 1);
        }
        _ => panic!("expected a push record"),
    }
}
