use localcoder::framing::{next_ndjson_line, next_sse_event};

#[test]
fn next_sse_event_extracts_event_blocks() {
    let mut buffer = "data: {\"a\":1}\n\ndata: {\"b\":2}\n\n".to_string();
    assert_eq!(next_sse_event(&mut buffer).unwrap(), "data: {\"a\":1}");
    assert_eq!(next_sse_event(&mut buffer).unwrap(), "data: {\"b\":2}");
    assert!(next_sse_event(&mut buffer).is_none());
}

#[test]
fn next_ndjson_line_extracts_lines() {
    let mut buffer = "{\"a\":1}\n{\"b\":2}\n".to_string();
    assert_eq!(next_ndjson_line(&mut buffer).unwrap(), "{\"a\":1}");
    assert_eq!(next_ndjson_line(&mut buffer).unwrap(), "{\"b\":2}");
    assert!(next_ndjson_line(&mut buffer).is_none());
}

#[test]
fn events_end_at_either_kind_of_empty_line() {
    let mut buffer = "data: 1\r\n\r\ndata: 2\n\nrest".to_string();
    assert_eq!(next_sse_event(&mut buffer).unwrap(), "data: 1");
    assert_eq!(next_sse_event(&mut buffer).unwrap(), "data: 2");
    assert!(next_sse_event(&mut buffer).is_none());
    assert_eq!(buffer, "rest");

    let mut buffer = "a\n\nb\r\n\r\nc".to_string();
    assert_eq!(next_sse_event(&mut buffer).unwrap(), "a");
    assert_eq!(next_sse_event(&mut buffer).unwrap(), "b");
    assert_eq!(buffer, "c");
}

#[test]
fn an_event_can_be_empty() {
    let mut buffer = "\n\nx".to_string();
    assert_eq!(next_sse_event(&mut buffer).unwrap(), "");
    assert_eq!(buffer, "x");
}

#[test]
fn lines_lose_one_carriage_return() {
    let mut buffer = "a\r\nb\r\r\n\n".to_string();
    assert_eq!(next_ndjson_line(&mut buffer).unwrap(), "a");
    assert_eq!(next_ndjson_line(&mut buffer).unwrap(), "b\r");
    assert_eq!(next_ndjson_line(&mut buffer).unwrap(), "");
    assert_eq!(buffer, "");
}

#[test]
fn a_complete_event_stays_when_more_arrives() {
    let mut short = "data: é\n\nta".to_string();
    let mut long = "data: é\n\nta".to_string();
    long.push_str("il\n\n");
    assert_eq!(next_sse_event(&mut short), next_sse_event(&mut long));
    assert_eq!(short, "ta");
    assert_eq!(long, "tail\n\n");
}

#[test]
fn a_complete_line_stays_when_more_arrives() {
    let mut short = "é\r\nta".to_string();
    let mut long = "é\r\ntail\n".to_string();
    assert_eq!(next_ndjson_line(&mut short), next_ndjson_line(&mut long));
    assert_eq!(short, "ta");
    assert_eq!(long, "tail\n");
}

#[test]
fn pieces_hold_no_end() {
    let mut buffer = "a\r\nb\nc\r\n\r\n\n\nd\n\n".to_string();
    while let Some(event) = next_sse_event(&mut buffer) {
        assert!(!event.contains("\n\n") && !event.contains("\r\n\r\n"));
    }
    assert_eq!(buffer, "");
    let mut buffer = "a\rb\n\r\nc\n".to_string();
    let mut lines = Vec::new();
    while let Some(line) = next_ndjson_line(&mut buffer) {
        lines.push(line);
    }
    assert_eq!(lines, vec!["a\rb", "", "c"]);
}
