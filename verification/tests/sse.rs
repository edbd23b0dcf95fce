//! Tests of server-sent events.

use ai_proxy::json::parse_json;
use ai_proxy::sse::{named_sse, sse_bytes, SseDecoder};

fn pairs(bytes: &[u8]) -> Vec<(String, String)> {
    let mut decoder = SseDecoder::default();
    let mut found = Vec::new();
    for event in decoder.push(bytes) {
        found.push((event.event, event.data));
    }
    if let Some(event) = decoder.finish() {
        found.push((event.event, event.data));
    }
    found
}

fn pair(event: &str, data: &str) -> (String, String) {
    (event.to_owned(), data.to_owned())
}

#[test]
fn sse_handles_crlf_and_split_chunks() {
    let mut d = SseDecoder::default();
    assert!(d.push(b"event: ping\r\nda").is_empty());
    let e = d.push(b"ta: one\r\ndata: two\r\n\r\n");
    assert_eq!(e[0].event, "ping");
    assert_eq!(e[0].data, "one\ntwo");
}

#[test]
fn sse_preserves_utf8_split_across_chunks() {
    let source = "data: café\n\n".as_bytes();
    let split = source.iter().position(|byte| *byte == 0xc3).unwrap() + 1;
    let mut decoder = SseDecoder::default();
    assert!(decoder.push(&source[..split]).is_empty());
    assert_eq!(decoder.push(&source[split..])[0].data, "café");
}

#[test]
fn every_cut_gives_the_same_events() {
    let source = "event: a\ndata: 1\n\n: note\n\ndata: zwölf\r\ndata:\r\n\r\ndata: last".as_bytes();
    let whole = pairs(source);
    assert_eq!(whole, vec![pair("a", "1"), pair("message", "zwölf\n"), pair("message", "last")]);
    let mut cut = 0;
    while cut <= source.len() {
        let mut decoder = SseDecoder::default();
        let mut found = Vec::new();
        for event in decoder.push(&source[..cut]) {
            found.push((event.event, event.data));
        }
        for event in decoder.push(&source[cut..]) {
            found.push((event.event, event.data));
        }
        if let Some(event) = decoder.finish() {
            found.push((event.event, event.data));
        }
        assert_eq!(found, whole);
        cut += 1;
    }
}

#[test]
fn the_earlier_end_of_an_event_counts() {
    assert_eq!(pairs(b"data: 1\n\ndata: 2\r\n\r\n"), vec![pair("message", "1"), pair("message", "2")]);
    assert_eq!(pairs(b"data: 1\r\n\r\ndata: 2\n\n"), vec![pair("message", "1"), pair("message", "2")]);
}

#[test]
fn fields_are_read_line_by_line() {
    // One space after the colon is left out, other fields and comments are passed over, and a line
    // without a colon is a field without a value.
    assert_eq!(pairs(b"data:  two\nid: 4\n: data: no\n\n"), vec![pair("message", " two")]);
    assert_eq!(pairs(b"data\n\n"), vec![pair("message", "")]);
    assert_eq!(pairs(b"event: only\n\n"), vec![]);
    assert_eq!(pairs(b"event\ndata: x:y\n\n"), vec![pair("", "x:y")]);
    assert_eq!(pairs(b"data: a\r\r\n\r\n"), vec![pair("message", "a")]);
}

#[test]
fn an_unfinished_event_is_given_at_the_end() {
    assert_eq!(pairs(b"data: tail"), vec![pair("message", "tail")]);
    assert_eq!(pairs(b" \t\r\n"), vec![]);
    let mut decoder = SseDecoder::default();
    decoder.push(b"data: once");
    assert!(decoder.finish().is_some());
    assert!(decoder.finish().is_none());
}

#[test]
fn to_end_a_stream_is_to_send_an_empty_line() {
    let tails: [&[u8]; 14] = [
        b"", b" \t", b"data: a", b"data: a\n", b"data: a\r\n", b"data: a\r", b"data: a\r\n\r",
        b"data: a\n\r", b"event: e\ndata:\ndata: b\r\r", b": note\n", b"event: e", b"data",
        b"data: a\xff", b"data: a\xff\r\n",
    ];
    for tail in tails {
        let mut ended = SseDecoder::default();
        assert!(ended.push(tail).is_empty());
        let mut continued = SseDecoder::default();
        assert!(continued.push(tail).is_empty());
        let at_end: Vec<_> = ended.finish().into_iter().map(|e| (e.event, e.data)).collect();
        let after: Vec<_> =
            continued.push(b"\n\n").into_iter().map(|e| (e.event, e.data)).collect();
        assert_eq!(at_end, after, "{tail:?}");
    }
}

#[test]
fn bytes_that_are_no_text_are_replaced() {
    assert_eq!(pairs(b"data: a\xffb\n\n"), vec![pair("message", "a\u{fffd}b")]);
}

#[test]
fn frames_are_read_back() {
    let document = parse_json("{\"text\":\"a\\n\\nb\",\"n\":1}").unwrap();
    let frame = sse_bytes(&document);
    assert_eq!(frame, "data: {\"n\":1,\"text\":\"a\\n\\nb\"}\n\n");
    assert_eq!(pairs(frame.as_bytes()), vec![pair("message", "{\"n\":1,\"text\":\"a\\n\\nb\"}")]);

    let named = named_sse("usage", &document);
    assert_eq!(named, "event: usage\ndata: {\"n\":1,\"text\":\"a\\n\\nb\"}\n\n");
    assert_eq!(pairs(named.as_bytes()), vec![pair("usage", "{\"n\":1,\"text\":\"a\\n\\nb\"}")]);
}
