use aimd_semaphore::codec::{append_frame, find_newline, split_frame, JsonLinesCodec, PrTitle};

#[test]
fn append_frame_terminates_with_line_feed() {
    let mut buf: Vec<u8> = Vec::new();
    append_frame(&mut buf, b"{\"id\":1}");
    assert_eq!(buf, b"{\"id\":1}\n");
    append_frame(&mut buf, b"{\"id\":2}");
    assert_eq!(buf, b"{\"id\":1}\n{\"id\":2}\n");
}

#[test]
fn append_frame_of_empty_payload_is_a_bare_line_feed() {
    let mut buf: Vec<u8> = Vec::new();
    append_frame(&mut buf, b"");
    assert_eq!(buf, b"\n");
}

#[test]
fn find_newline_reports_first_occurrence() {
    assert_eq!(find_newline(b"ab\ncd\n"), Some(2));
    assert_eq!(find_newline(b"\nrest"), Some(0));
    assert_eq!(find_newline(b"abcd"), None);
    assert_eq!(find_newline(b""), None);
}

#[test]
fn split_frame_needs_a_complete_line() {
    let mut buf: Vec<u8> = b"{\"partial\":tru".to_vec();
    assert!(split_frame(&mut buf).is_none());
    assert_eq!(buf, b"{\"partial\":tru");
}

#[test]
fn split_frame_takes_one_line_and_keeps_the_rest() {
    let mut buf: Vec<u8> = b"first\nsecond\nthird".to_vec();
    let line = split_frame(&mut buf).expect("a full line is buffered");
    assert_eq!(line, b"first\n");
    assert_eq!(buf, b"second\nthird");
    let line = split_frame(&mut buf).expect("a second full line is buffered");
    assert_eq!(line, b"second\n");
    assert_eq!(buf, b"third");
    assert!(split_frame(&mut buf).is_none());
}

#[test]
fn split_frame_of_a_bare_line_feed_is_an_empty_line() {
    let mut buf: Vec<u8> = b"\nmore".to_vec();
    let line = split_frame(&mut buf).expect("the empty line is complete");
    assert_eq!(line, b"\n");
    assert_eq!(buf, b"more");
}

#[test]
fn frames_round_trip_through_a_buffer() {
    let items: [&[u8]; 3] = [b"{\"id\":136927}", b"{}", b"plain text"];
    let mut buf: Vec<u8> = Vec::new();
    for item in items {
        append_frame(&mut buf, item);
    }
    for item in items {
        let line = split_frame(&mut buf).expect("every framed item comes back");
        assert_eq!(&line[..line.len() - 1], item);
        assert_eq!(line[line.len() - 1], b'\n');
    }
    assert!(buf.is_empty());
}

#[test]
fn codec_and_item_types_construct() {
    let _codec = JsonLinesCodec::<PrTitle>::new();
    let _strings = JsonLinesCodec::<String>::new();
    let entry = PrTitle { id: 136927, title: "Rollup of 8 pull requests".to_string() };
    let copy = entry.clone();
    assert_eq!(copy.id, 136927);
    assert_eq!(copy.title, "Rollup of 8 pull requests");
}
