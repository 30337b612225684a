use std::io::Read;
use std::io::Write;

use flate2::Compression;
use flate2::read::GzDecoder;
use flate2::write::GzEncoder;

use event_aggregate::AggregationStore;
use event_aggregate::LineSplitter;
use event_aggregate::process_line;

fn b(s: &str) -> Vec<u8> {
    s.as_bytes().to_vec()
}

/// One worker's whole path: a compressed archive of newline-delimited
/// records is decompressed in small chunks, split into lines, and folded
/// into a store.
#[test]
fn worker_aggregates_a_compressed_archive() {
    let lines = [
        r#"{"type":"PullRequestEvent","repo":{"id":1,"name":"a/b"},"payload":{"action":"opened"}}"#,
        r#"{"type":"PushEvent","repo":{"id":1,"name":"a/b"},"payload":{"distinct_size":3}}"#,
        r#"{"type":"PushEvent","repo":{"id":2,"name":"c/d"},"payload":{"distinct_size":0}}"#,
        r#"{"type":"WatchEvent","repo":{"id":3,"name":"e/f"}}"#,
    ];
    let mut text = String::new();
    for line in lines {
        text.push_str(line);
        text.push('\n');
    }
    let mut enc = GzEncoder::new(Vec::new(), Compression::default());
    enc.write_all(text.as_bytes()).unwrap();
    let archive = enc.finish().unwrap();

    let mut dec = GzDecoder::new(archive.as_slice());
    let mut store = AggregationStore::new();
    let mut splitter = LineSplitter::new();
    let mut skipped: u64 = 0;
    let mut chunk = [0u8; 7];
    loop {
        let n = dec.read(&mut chunk).unwrap();
        if n == 0 {
            break;
        }
        splitter.feed(&chunk[..n]);
        while let Some(line) = splitter.next_line() {
            if !process_line(&mut store, &line) {
                skipped += 1;
            }
        }
    }
    let rest = splitter.take_rest();
    assert!(rest.is_empty());

    assert_eq!(store.len(), 1);
    let e = store.get(1).expect("entity 1 should be present");
    assert_eq!(e.name, b("a/b"));
    assert_eq!(e.prs_opened, 1);
    assert_eq!(e.pushes, 1);
    assert_eq!(e.commits, 3);
    assert!(store.get(2).is_none());
    assert!(store.get(3).is_none());
    assert_eq!(skipped, 1);
}

/// Two workers over the same archive merge to exactly twice one pass.
#[test]
fn two_workers_merge_to_double() {
    let lines = vec![
        b(r#"{"type":"PushEvent","repo":{"id":1,"name":"a/b"},"payload":{"distinct_size":2}}"#),
        b(r#"{"type":"PullRequestEvent","repo":{"id":1,"name":"a/b"},"payload":{"action":"opened"}}"#),
    ];
    let mut w1 = AggregationStore::new();
    let mut w2 = AggregationStore::new();
    for line in &lines {
        process_line(&mut w1, line);
        process_line(&mut w2, line);
    }
    let merged = w1.merge(&w2);
    let e = merged.get(1).expect("entity 1 should be present");
    assert_eq!(e.prs_opened, 2);
    assert_eq!(e.pushes, 2);
    assert_eq!(e.commits, 4);
}
