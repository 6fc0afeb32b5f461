use meta_mcp::sse::{classify_event, response_data, SseAction, SseDecoder, SseEvent};

fn events(chunks: &[&str]) -> (Vec<(String, String)>, String) {
    let mut d = SseDecoder::new();
    let mut out = Vec::new();
    for c in chunks {
        for e in d.feed(c) {
            out.push((e.event, e.data));
        }
    }
    (out, d.pending_data())
}

#[test]
fn events_end_at_blank_lines() {
    let (ev, pending) = events(&["event: endpoint\ndata: /message?sessionId=1\n\n: keep-alive\n\ndata: {\"id\":1}\n\n"]);
    assert_eq!(ev, vec![("endpoint".to_string(), "/message?sessionId=1".to_string()), (String::new(), "{\"id\":1}".to_string())]);
    assert_eq!(pending, "");
}

#[test]
fn data_lines_are_joined() {
    let (ev, _) = events(&["data:a\r\ndata:  b\r\ndata:\r\n\r\n"]);
    assert_eq!(ev, vec![(String::new(), "a\n b\n".to_string())]);
    let (ev, _) = events(&["data:\ndata: x\n\n"]);
    assert_eq!(ev, vec![(String::new(), "x".to_string())]);
}

#[test]
fn chunk_boundaries_do_not_matter() {
    let whole = "event:  message \ndata: {\"a\":1}\r\n\r\nid: 4\ndata: tail";
    let (a, pa) = events(&[whole]);
    for cut in 0..whole.len() {
        if !whole.is_char_boundary(cut) {
            continue;
        }
        let (b, pb) = events(&[&whole[..cut], &whole[cut..]]);
        assert_eq!(a, b, "cut at {cut}");
        assert_eq!(pa, pb);
    }
    assert_eq!(a, vec![("message".to_string(), "{\"a\":1}".to_string())]);
    // The last event is unfinished; its data so far is available at the end.
    assert_eq!(pa, "");
    let (_, p) = events(&["data: tail\n"]);
    assert_eq!(p, "tail");
}

#[test]
fn streamable_events_need_data() {
    let e = SseEvent { event: "message".to_string(), data: String::new() };
    assert!(response_data(&e).is_none());
    let e = SseEvent { event: String::new(), data: "{}".to_string() };
    assert_eq!(response_data(&e).as_deref(), Some("{}"));
}

#[test]
fn legacy_events_are_classified() {
    let ep = SseEvent { event: "endpoint".to_string(), data: "/m".to_string() };
    assert!(matches!(classify_event(&ep, true), SseAction::Endpoint(d) if d == "/m"));
    assert!(matches!(classify_event(&ep, false), SseAction::Ignore));
    let msg = SseEvent { event: "message".to_string(), data: "{}".to_string() };
    assert!(matches!(classify_event(&msg, true), SseAction::Message(d) if d == "{}"));
    let empty = SseEvent { event: String::new(), data: String::new() };
    assert!(matches!(classify_event(&empty, true), SseAction::Ignore));
}

#[test]
fn bytes_are_decoded_per_chunk() {
    let mut d = SseDecoder::new();
    let ev = d.feed_bytes(b"data: caf\xc3\xa9\n\n");
    assert_eq!(ev.len(), 1);
    assert_eq!(ev[0].data, "café");
    let ev = d.feed_bytes(b"data: x\xff\n\n");
    assert_eq!(ev[0].data, "x\u{fffd}");
}
