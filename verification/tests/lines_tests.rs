use event_aggregate::LineSplitter;

fn b(s: &str) -> Vec<u8> {
    s.as_bytes().to_vec()
}

#[test]
fn splits_lines_across_chunk_boundaries() {
    let mut sp = LineSplitter::new();
    sp.feed(b"ab");
    assert_eq!(sp.next_line(), None);
    sp.feed(b"c\nde\nf");
    assert_eq!(sp.next_line(), Some(b("abc")));
    assert_eq!(sp.next_line(), Some(b("de")));
    assert_eq!(sp.next_line(), None);
    assert_eq!(sp.take_rest(), b("f"));
}

#[test]
fn empty_stream_yields_no_records() {
    let mut sp = LineSplitter::new();
    assert_eq!(sp.next_line(), None);
    assert_eq!(sp.take_rest(), b(""));
}

#[test]
fn trailing_newline_leaves_nothing() {
    let mut sp = LineSplitter::new();
    sp.feed(b"one\ntwo\n");
    assert_eq!(sp.next_line(), Some(b("one")));
    assert_eq!(sp.next_line(), Some(b("two")));
    assert_eq!(sp.next_line(), None);
    assert_eq!(sp.take_rest(), b(""));
}

#[test]
fn empty_lines_are_records() {
    let mut sp = LineSplitter::new();
    sp.feed(b"\n\nx\n");
    assert_eq!(sp.next_line(), Some(b("")));
    assert_eq!(sp.next_line(), Some(b("")));
    assert_eq!(sp.next_line(), Some(b("x")));
    assert_eq!(sp.next_line(), None);
}
