use flysoar::search::{handle_event, EventAction};
use flysoar::sse::{SseEvent, SseParser};
use flysoar::stream::StreamDecoder;

#[test]
fn test_parse_offer_event() {
    let mut parser = SseParser::new();
    assert!(parser.push_line("event: offer").is_none());
    assert!(parser
        .push_line(r#"data: {"id":"off_123","total_amount":"100.00"}"#)
        .is_none());
    let event = parser.push_line("");
    assert!(event.is_some());
    let event = event.unwrap();
    assert_eq!(event.event, "offer");
    assert!(event.data.contains("off_123"));
}

#[test]
fn test_parse_done_event() {
    let mut parser = SseParser::new();
    parser.push_line("event: done");
    parser.push_line(r#"data: {"offer_count":5}"#);
    let event = parser.push_line("").unwrap();
    assert_eq!(event.event, "done");
}

#[test]
fn test_parse_error_event() {
    let mut parser = SseParser::new();
    parser.push_line("event: error");
    parser.push_line(r#"data: {"error":"Invalid IATA code","status":422}"#);
    let event = parser.push_line("").unwrap();
    assert_eq!(event.event, "error");
    assert!(event.data.contains("Invalid IATA code"));
}

#[test]
fn test_flush_remaining() {
    let mut parser = SseParser::new();
    parser.push_line("event: offer");
    parser.push_line(r#"data: {"id":"off_456"}"#);
    // No empty line: the stream ends here.
    let event = parser.flush();
    assert!(event.is_some());
    assert_eq!(event.unwrap().event, "offer");
}

#[test]
fn test_ignores_comments() {
    let mut parser = SseParser::new();
    assert!(parser.push_line(": this is a comment").is_none());
    assert!(parser.push_line("").is_none());
}

#[test]
fn data_lines_are_joined_with_newlines() {
    let mut parser = SseParser::new();
    assert!(parser.push_line("  event:  batch  ").is_none());
    assert!(parser.push_line("data: first").is_none());
    assert!(parser.push_line("data:second  ").is_none());
    let event = parser.push_line("   ").unwrap();
    assert_eq!(event.event, "batch");
    assert_eq!(event.data, "first\nsecond");
}

#[test]
fn block_without_event_line_is_a_message() {
    let mut parser = SseParser::new();
    parser.push_line("data: hello");
    let event = parser.push_line("").unwrap();
    assert_eq!(event.event, "message");
    assert_eq!(event.data, "hello");
}

#[test]
fn event_line_alone_gives_empty_data() {
    let mut parser = SseParser::new();
    parser.push_line("event: created");
    let event = parser.flush().unwrap();
    assert_eq!(event.event, "created");
    assert_eq!(event.data, "");
}

#[test]
fn flush_twice_gives_nothing_the_second_time() {
    let mut parser = SseParser::new();
    parser.push_line("event: done");
    assert!(parser.flush().is_some());
    assert!(parser.flush().is_none());
}

#[test]
fn unknown_fields_are_ignored() {
    let mut parser = SseParser::new();
    assert!(parser.push_line("id: 7").is_none());
    assert!(parser.push_line("retry: 100").is_none());
    assert!(parser.push_line("").is_none());
}

#[test]
fn later_event_line_replaces_earlier() {
    let mut parser = SseParser::new();
    parser.push_line("event: batch");
    parser.push_line("event: offer");
    parser.push_line("data: x");
    let event = parser.push_line("").unwrap();
    assert_eq!(event.event, "offer");
}

fn names(events: &[SseEvent]) -> Vec<(String, String)> {
    events.iter().map(|e| (e.event.clone(), e.data.clone())).collect()
}

const STREAM: &str = "event: created\r\ndata: {\"id\":1}\r\n\r\nevent: offer\ndata: {\"id\":\"off_1\"}\n\nevent: done\ndata: {}";

#[test]
fn decoder_splits_lines_and_strips_carriage_returns() {
    let mut d = StreamDecoder::new();
    let mut events = d.push_chunk(STREAM.as_bytes());
    events.extend(d.finish());
    assert_eq!(
        names(&events),
        vec![
            ("created".to_string(), "{\"id\":1}".to_string()),
            ("offer".to_string(), "{\"id\":\"off_1\"}".to_string()),
            ("done".to_string(), "{}".to_string()),
        ]
    );
}

#[test]
fn decoder_does_not_depend_on_chunking() {
    let whole = {
        let mut d = StreamDecoder::new();
        let mut e = d.push_chunk(STREAM.as_bytes());
        e.extend(d.finish());
        names(&e)
    };
    let bytes = STREAM.as_bytes();
    for cut in 0..bytes.len() {
        let mut d = StreamDecoder::new();
        let mut e = d.push_chunk(&bytes[..cut]);
        e.extend(d.push_chunk(&bytes[cut..]));
        e.extend(d.finish());
        assert_eq!(names(&e), whole, "cut at {}", cut);
    }
}

#[test]
fn decoder_replaces_invalid_utf8() {
    let mut d = StreamDecoder::new();
    let events = d.push_chunk(b"data: a\xffb\n\n");
    assert_eq!(events.len(), 1);
    assert_eq!(events[0].data, "a\u{fffd}b");
}

#[test]
fn events_call_for_actions_by_type() {
    let ev = |t: &str| SseEvent { event: t.to_string(), data: String::new() };
    assert_eq!(handle_event(&ev("offer")), EventAction::CollectOffer);
    assert_eq!(handle_event(&ev("error")), EventAction::RaiseError);
    assert_eq!(handle_event(&ev("done")), EventAction::Finish);
    assert_eq!(handle_event(&ev("batch")), EventAction::Ignore);
    assert_eq!(handle_event(&ev("created")), EventAction::Ignore);
}

#[test]
fn invalid_utf8_lines_read_alike_with_crlf_or_lf() {
    let run = |bytes: &[u8], cut: usize| {
        let mut d = StreamDecoder::new();
        let mut e = d.push_chunk(&bytes[..cut]);
        e.extend(d.push_chunk(&bytes[cut..]));
        e.extend(d.finish());
        names(&e)
    };
    let crlf: &[u8] = b"event: offer\r\ndata: a\xe2\x82\r\n\r\ndata: \xff\r\r\n\r\n";
    let lf: &[u8] = b"event: offer\ndata: a\xe2\x82\n\ndata: \xff\r\n\n";
    let expected = vec![
        ("offer".to_string(), "a\u{fffd}".to_string()),
        ("message".to_string(), "\u{fffd}".to_string()),
    ];
    for cut in 0..=crlf.len() {
        assert_eq!(run(crlf, cut), expected, "cut at {}", cut);
    }
    for cut in 0..=lf.len() {
        assert_eq!(run(lf, cut), expected, "cut at {}", cut);
    }
}
