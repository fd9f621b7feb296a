use mcpg_cloud::sse::{data_payloads, feed};

#[test]
fn complete_events_yield_their_data_lines() {
    let mut buf = Vec::new();
    let out = feed(&mut buf, b"event: log\ndata: {\"a\":1}\n\ndata: tail");
    assert_eq!(out, vec!["{\"a\":1}".to_string()]);
    assert_eq!(buf, b"data: tail".to_vec());
    let out = feed(&mut buf, b"\n\n");
    assert_eq!(out, vec!["tail".to_string()]);
    assert!(buf.is_empty());
}

#[test]
fn a_separator_split_across_chunks_is_found() {
    let mut buf = Vec::new();
    assert!(feed(&mut buf, b"data: x\n").is_empty());
    assert_eq!(feed(&mut buf, b"\ndata: y\n\n"), vec!["x".to_string(), "y".to_string()]);
}

#[test]
fn chunking_does_not_change_the_payloads() {
    let stream: &[u8] = b"data: 1\n\ndata: 2\ndata: 3\n\n: note\n\ndata: 4\n\n";
    let mut whole = Vec::new();
    let all = feed(&mut whole, stream);
    for cut in 0..stream.len() {
        let mut buf = Vec::new();
        let mut got = feed(&mut buf, &stream[..cut]);
        got.extend(feed(&mut buf, &stream[cut..]));
        assert_eq!(got, all, "cut at {cut}");
        assert_eq!(buf, whole);
    }
    assert_eq!(all, vec!["1", "2", "3", "4"]);
}

#[test]
fn invalid_utf8_events_are_skipped() {
    let mut buf = Vec::new();
    let out = feed(&mut buf, b"data: \xff\n\ndata: ok\n\n");
    assert_eq!(out, vec!["ok".to_string()]);
}

#[test]
fn only_data_lines_count() {
    assert_eq!(data_payloads("data: a\r\nid: 7\ndata:b\ndata: \n"), vec!["a".to_string(), "".to_string()]);
}
