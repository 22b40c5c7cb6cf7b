use backend_rove::json::Json;
use backend_rove::sse::{sse_error, sse_event, sse_ping, MAX_PENDING};
use backend_rove::SseDecoder;

#[test]
fn decodes_split_unicode_crlf_and_multiline() {
    let input =
        ": keepalive\r\nevent: message\r\ndata: hé🙂\r\ndata: world\r\n\r\ndata: next\n\n";
    let mut parser = SseDecoder::default();
    let mut events = Vec::new();
    for byte in input.as_bytes() {
        events.extend(parser.push(&[*byte]).unwrap());
    }
    assert_eq!(events, vec!["hé🙂\nworld", "next"]);
}

#[test]
fn a_line_feed_alone_or_after_returns_ends_a_line() {
    let mut parser = SseDecoder::default();
    assert_eq!(parser.push(b"data: a\r\r\n\r\n").unwrap(), vec!["a"]);
    assert_eq!(parser.push(b"data:b\n\n").unwrap(), vec!["b"]);
    assert_eq!(parser.push(b"data:  c\n\n").unwrap(), vec![" c"]);
    assert_eq!(parser.push(b"data\n\nid: 1\n\n\n\n").unwrap(), Vec::<String>::new());
    assert_eq!(parser.push(b"data:\n\n").unwrap(), vec![""]);
    assert_eq!(parser.push(b"data: open").unwrap(), Vec::<String>::new());
    assert_eq!(parser.push(b" end\n\n").unwrap(), vec!["open end"]);
}

#[test]
fn an_oversized_chunk_is_refused() {
    let mut parser = SseDecoder::default();
    let long = vec![b'x'; MAX_PENDING];
    assert_eq!(parser.push(&long).unwrap(), Vec::<String>::new());
    assert_eq!(parser.push(b"x").unwrap_err(), "SSE line exceeded 2 MB");
}

#[test]
fn text_that_is_not_utf8_is_refused() {
    let mut parser = SseDecoder::default();
    assert_eq!(parser.push(b"data: ok\n\n").unwrap(), vec!["ok"]);
    assert_eq!(
        parser.push(b"data: \xff\n\n").unwrap_err(),
        "Invalid UTF-8 in SSE stream"
    );
    // The offending line is gone; what follows it is still there.
    assert_eq!(parser.push(b"data: next\n\n").unwrap(), vec!["next"]);
}

#[test]
fn chunks_do_not_matter() {
    let input = "data: é🙂\ndata: b\n\n: note\n\ndata: c\r\n\r\ndata: open";
    let mut whole = SseDecoder::default();
    let expected = whole.push(input.as_bytes()).unwrap();
    assert_eq!(expected, vec!["é🙂\nb", "c"]);
    for cut in 0..=input.len() {
        let mut parser = SseDecoder::default();
        let mut events = parser.push(&input.as_bytes()[..cut]).unwrap();
        events.extend(parser.push(&input.as_bytes()[cut..]).unwrap());
        assert_eq!(events, expected);
    }
}

#[test]
fn frames_are_read_back() {
    let event = Json::object()
        .with("type", Json::string("exec.call"))
        .with("command", Json::string("printf 'a\\n'\n"));
    let frame = sse_event(&event);
    assert!(frame.starts_with("data: {"));
    assert!(frame.ends_with("}\n\n"));
    let mut parser = SseDecoder::default();
    let events = parser.push(frame.as_bytes()).unwrap();
    assert_eq!(events.len(), 1);
    let read = Json::parse(&events[0]).unwrap();
    assert_eq!(read.get_str("type"), Some("exec.call"));
    assert_eq!(read.get_str("command"), Some("printf 'a\\n'\n"));
}

#[test]
fn errors_are_framed() {
    assert_eq!(
        sse_error("Stop."),
        "event: error\ndata: {\"message\":\"Stop.\",\"type\":\"error\"}\n\n"
    );
    let mut parser = SseDecoder::default();
    let events = parser.push(sse_error("a \"b\"").as_bytes()).unwrap();
    assert_eq!(Json::parse(&events[0]).unwrap().get_str("message"), Some("a \"b\""));
}

#[test]
fn long_errors_come_in_one_piece() {
    for message in ["\"".repeat(100_000), "\u{1}".repeat(100_000), "é\r\n".repeat(25_000)] {
        let frame = sse_error(&message);
        assert!(frame.len() <= 6 * message.len() + 256);
        let events = SseDecoder::default().push(frame.as_bytes()).unwrap();
        assert_eq!(events.len(), 1);
        let value = Json::parse(&events[0]).unwrap();
        assert_eq!(value.get_str("type"), Some("error"));
        assert_eq!(value.get_str("message"), Some(message.as_str()));
    }
}

#[test]
fn a_line_that_waits_is_read_with_the_next_chunk() {
    let waiting = || {
        let mut parser = SseDecoder::default();
        assert!(parser.push(b"\xff\ndata: a\n\n").is_err());
        parser
    };
    assert_eq!(waiting().push(b"data: b\n\n").unwrap(), vec!["a", "b"]);
    let mut parser = waiting();
    let mut events = parser.push(b"data").unwrap();
    events.extend(parser.push(b": b\n\n").unwrap());
    assert_eq!(events, vec!["a", "b"]);
}

#[test]
fn pings_are_silent() {
    assert_eq!(sse_ping(), ": ping\n\n");
    let mut parser = SseDecoder::default();
    assert_eq!(parser.push(sse_ping().as_bytes()).unwrap(), Vec::<String>::new());
}
