use localcoder::json::{json_string, parse_json};
use localcoder::reader::{
    ollama_stream_payload, openai_stream_payload, OllamaStream, OpenAIStream, StreamPayload,
};
use localcoder::stream::{
    apply_ollama_stream_response, apply_openai_stream_response, build_agent_response,
    finalize_partial_tool_calls, finish_tool_call, OllamaChatResponse, OllamaFunctionCall,
    OllamaMessage, OllamaToolCall, OpenAIStreamChoice, OpenAIStreamDelta,
    OpenAIStreamFunctionCall, OpenAIStreamResponse, OpenAIStreamToolCall, PartialToolCall,
    ToolUseCall,
};
use serde_json::Value;

fn text_at(value: &Value, key: &str) -> Option<String> {
    value[key].as_str().map(|text| text.to_string())
}

fn decode_openai(document: &str) -> OpenAIStreamResponse {
    let value: Value = serde_json::from_str(document).unwrap();
    let choices = value["choices"].as_array().unwrap();
    OpenAIStreamResponse {
        choices: choices
            .iter()
            .map(|choice| OpenAIStreamChoice {
                delta: OpenAIStreamDelta {
                    content: text_at(&choice["delta"], "content"),
                    tool_calls: choice["delta"]["tool_calls"].as_array().map(|calls| {
                        calls
                            .iter()
                            .map(|call| OpenAIStreamToolCall {
                                index: call["index"].as_u64().map(|index| index as usize),
                                id: text_at(call, "id"),
                                function: call.get("function").map(|function| {
                                    OpenAIStreamFunctionCall {
                                        name: text_at(function, "name"),
                                        arguments: text_at(function, "arguments"),
                                    }
                                }),
                            })
                            .collect()
                    }),
                },
            })
            .collect(),
    }
}

fn decode_ollama(document: &str) -> OllamaChatResponse {
    let value: Value = serde_json::from_str(document).unwrap();
    let message = &value["message"];
    OllamaChatResponse {
        message: OllamaMessage {
            content: text_at(message, "content"),
            tool_calls: message["tool_calls"].as_array().map(|calls| {
                calls
                    .iter()
                    .map(|call| OllamaToolCall {
                        function: OllamaFunctionCall {
                            name: text_at(&call["function"], "name").unwrap(),
                            arguments: parse_json(&call["function"]["arguments"].to_string())
                                .unwrap(),
                        },
                    })
                    .collect()
            }),
        },
        done: value["done"].as_bool(),
    }
}

/// Whether the event ends the stream.
fn handle_openai_event(
    event: &str,
    text: &mut String,
    partial_tool_calls: &mut Vec<PartialToolCall>,
) -> bool {
    match openai_stream_payload(event) {
        StreamPayload::Nothing => false,
        StreamPayload::Done => true,
        StreamPayload::Document(document) => {
            apply_openai_stream_response(decode_openai(&document), text, partial_tool_calls);
            false
        }
    }
}

/// Whether the line ends the stream.
fn handle_ollama_line(line: &str, text: &mut String, tool_uses: &mut Vec<ToolUseCall>) -> bool {
    match ollama_stream_payload(line) {
        StreamPayload::Document(document) => {
            apply_ollama_stream_response(decode_ollama(&document), text, tool_uses).1
        }
        _ => false,
    }
}

#[test]
fn handle_openai_stream_event_appends_content() {
    let event = r#"data: {"choices":[{"delta":{"content":"hello"}}]}"#;
    let mut text = String::new();
    let mut partial_tool_calls = Vec::new();

    let done = handle_openai_event(event, &mut text, &mut partial_tool_calls);
    assert!(!done);
    assert_eq!(text, "hello");
    assert!(partial_tool_calls.is_empty());
}

#[test]
fn handle_openai_stream_event_recognizes_done() {
    let mut text = String::new();
    let mut partial_tool_calls = Vec::new();

    let done = handle_openai_event("data: [DONE]", &mut text, &mut partial_tool_calls);
    assert!(done);
}

#[test]
fn handle_openai_stream_event_accumulates_tool_calls() {
    let mut text = String::new();
    let mut partial_tool_calls = Vec::new();

    handle_openai_event(
        r#"data: {"choices":[{"delta":{"tool_calls":[{"index":0,"id":"call_1","function":{"name":"Read","arguments":"{\"file_path\":\"src/"}}]}}]}"#,
        &mut text,
        &mut partial_tool_calls,
    );
    handle_openai_event(
        r#"data: {"choices":[{"delta":{"tool_calls":[{"index":0,"function":{"arguments":"main.rs\"}"}}]}}]}"#,
        &mut text,
        &mut partial_tool_calls,
    );

    let tool_calls = finalize_partial_tool_calls(partial_tool_calls);
    assert_eq!(tool_calls.len(), 1);
    assert_eq!(tool_calls[0].id.as_deref(), Some("call_1"));
    assert_eq!(tool_calls[0].name, "Read");
    assert_eq!(tool_calls[0].arguments.get_text("file_path").unwrap(), "src/main.rs");
}

#[test]
fn handle_ollama_stream_line_appends_content() {
    let line = r#"{"message":{"role":"assistant","content":"hello"}}"#;
    let mut text = String::new();
    let mut tool_uses = Vec::new();

    let done = handle_ollama_line(line, &mut text, &mut tool_uses);
    assert!(!done);
    assert_eq!(text, "hello");
    assert!(tool_uses.is_empty());
}

#[test]
fn handle_ollama_stream_line_collects_tool_calls() {
    let line = r#"{"message":{"role":"assistant","content":"","tool_calls":[{"function":{"name":"Read","arguments":{"file_path":"src/main.rs"}}}]}}"#;
    let mut text = String::new();
    let mut tool_uses = Vec::new();

    let done = handle_ollama_line(line, &mut text, &mut tool_uses);
    assert!(!done);
    assert_eq!(tool_uses.len(), 1);
    assert_eq!(tool_uses[0].name, "Read");
    assert_eq!(tool_uses[0].arguments.get_text("file_path").unwrap(), "src/main.rs");
    assert_eq!(tool_uses[0].id, None);
}

#[test]
fn handle_ollama_stream_line_recognizes_done() {
    let line = r#"{"done":true,"message":{"role":"assistant","content":""}}"#;
    let mut text = String::new();
    let mut tool_uses = Vec::new();

    let done = handle_ollama_line(line, &mut text, &mut tool_uses);
    assert!(done);
}

fn payload(event: &str) -> String {
    match openai_stream_payload(event) {
        StreamPayload::Nothing => "nothing".to_string(),
        StreamPayload::Done => "done".to_string(),
        StreamPayload::Document(document) => format!("document {:?}", document),
    }
}

#[test]
fn only_data_lines_count() {
    assert_eq!(payload(""), "nothing");
    assert_eq!(payload(": comment\nevent: x"), "nothing");
    assert_eq!(payload("data:"), "nothing");
    assert_eq!(payload("data:   \u{3000}"), "nothing");
    assert_eq!(payload("data:{}"), "document \"{}\"");
    assert_eq!(payload("id: 1\r\ndata:  a \r\ndata: b"), "document \"a \\nb\"");
    assert_eq!(payload(" data: x"), "nothing");
    assert_eq!(payload("data:  [DONE] "), "done");
    assert_eq!(payload("data: [DONE]\ndata:"), "done");
    assert_eq!(payload("data:\ndata:"), "document \"\\n\"");
}

#[test]
fn blank_lines_hold_nothing() {
    assert!(matches!(ollama_stream_payload(" \t\r"), StreamPayload::Nothing));
    match ollama_stream_payload("  {\"a\":1} \r") {
        StreamPayload::Document(document) => assert_eq!(document, "{\"a\":1}"),
        _ => panic!("a document"),
    }
}

fn call_part(index: Option<usize>, id: Option<&str>, name: &str, arguments: &str) -> OpenAIStreamResponse {
    OpenAIStreamResponse {
        choices: vec![OpenAIStreamChoice {
            delta: OpenAIStreamDelta {
                content: None,
                tool_calls: Some(vec![OpenAIStreamToolCall {
                    index,
                    id: id.map(|id| id.to_string()),
                    function: Some(OpenAIStreamFunctionCall {
                        name: Some(name.to_string()),
                        arguments: Some(arguments.to_string()),
                    }),
                }]),
            },
        }],
    }
}

#[test]
fn parts_of_calls_find_their_place() {
    let mut text = String::new();
    let mut calls = Vec::new();
    for part in [
        call_part(Some(2), Some("c"), "Ed", "1"),
        call_part(None, None, "Write", "[]"),
        call_part(Some(2), None, "it", "2"),
        call_part(Some(0), Some("a"), "Read", "{}"),
        call_part(Some(0), Some("b"), "", ""),
    ] {
        assert_eq!(apply_openai_stream_response(part, &mut text, &mut calls), "");
    }
    assert_eq!(calls.len(), 4);
    let finished = finalize_partial_tool_calls(calls);
    let summary: Vec<String> = finished
        .iter()
        .map(|call| format!("{:?} {} {}", call.id, call.name, json_string(&call.arguments)))
        .collect();
    assert_eq!(
        summary,
        vec![
            "Some(\"b\") Read {}".to_string(),
            "Some(\"c\") Edit 12".to_string(),
            "None Write []".to_string(),
        ]
    );
}

#[test]
fn arguments_that_are_no_json_are_kept_as_they_are() {
    let partial = |arguments: &str| PartialToolCall {
        id: None,
        name: " Read ".to_string(),
        arguments: arguments.to_string(),
    };
    let calls = finalize_partial_tool_calls(vec![partial("{oops"), partial("")]);
    assert_eq!(json_string(&calls[0].arguments), r#"{"_raw":"{oops"}"#);
    assert_eq!(json_string(&calls[1].arguments), r#"{"_raw":""}"#);
    assert_eq!(calls[0].name, " Read ");
    let call = finish_tool_call(partial("ignored"), parse_json("[1]"));
    assert_eq!(json_string(&call.arguments), "[1]");
    let call = finish_tool_call(partial("kept"), None);
    assert_eq!(json_string(&call.arguments), r#"{"_raw":"kept"}"#);
}

#[test]
fn calls_without_a_name_are_dropped() {
    let call = PartialToolCall {
        id: Some("x".to_string()),
        name: " \n".to_string(),
        arguments: "{}".to_string(),
    };
    assert!(finalize_partial_tool_calls(vec![call]).is_empty());
}

#[test]
fn the_added_text_is_given_back() {
    let document = r#"{"choices":[{"delta":{"content":"a"}},{"delta":{"content":""}},{"delta":{}},{"delta":{"content":"é"}}]}"#;
    let mut text = "x".to_string();
    let mut calls = Vec::new();
    let added = apply_openai_stream_response(decode_openai(document), &mut text, &mut calls);
    assert_eq!(added, "aé");
    assert_eq!(text, "xaé");
}

#[test]
fn answers_stop_for_tools_or_at_their_end() {
    let response = build_agent_response("text".to_string(), vec![]);
    assert_eq!(response.text, "text");
    assert_eq!(response.stop_reason, "end_turn");
    let call = ToolUseCall {
        id: None,
        name: "Read".to_string(),
        arguments: parse_json("{}").unwrap(),
    };
    let response = build_agent_response(String::new(), vec![call]);
    assert_eq!(response.stop_reason, "tool_use");
    assert_eq!(response.tool_uses.len(), 1);
}

fn read_openai(chunks: &[&[u8]]) -> (String, Vec<String>) {
    let mut stream = OpenAIStream::new();
    for chunk in chunks {
        if stream.is_finished() {
            break;
        }
        stream.push_chunk(chunk);
        while let Some(document) = stream.next_document() {
            stream.accept(decode_openai(&document));
        }
    }
    if let Some(document) = stream.last_document() {
        stream.accept(decode_openai(&document));
    }
    let (text, calls) = stream.into_answer();
    (text, calls.into_iter().map(|call| call.name).collect())
}

fn read_ollama(chunks: &[&[u8]]) -> (String, Vec<String>) {
    let mut stream = OllamaStream::new();
    for chunk in chunks {
        if stream.is_finished() {
            break;
        }
        stream.push_chunk(chunk);
        while let Some(document) = stream.next_document() {
            stream.accept(decode_ollama(&document));
        }
    }
    if let Some(document) = stream.last_document() {
        stream.accept(decode_ollama(&document));
    }
    let (text, calls) = stream.into_answer();
    (text, calls.into_iter().map(|call| call.name).collect())
}

const EVENTS: &str = "data: {\"choices\":[{\"delta\":{\"content\":\"he\"}}]}\n\n: ping\n\n\
    data: {\"choices\":[{\"delta\":{\"content\":\"llo\"}}]}\r\n\r\n\
    data: {\"choices\":[{\"delta\":{\"tool_calls\":[{\"function\":{\"name\":\"Read\"}}]}}]}\n\n\
    data: [DONE]\n\ndata: {\"choices\":[{\"delta\":{\"content\":\"late\"}}]}\n\n";

#[test]
fn an_event_stream_can_be_cut_anywhere() {
    let expected = ("hello".to_string(), vec!["Read".to_string()]);
    assert_eq!(read_openai(&[EVENTS.as_bytes()]), expected);
    for at in 0..EVENTS.len() {
        let (a, b) = EVENTS.as_bytes().split_at(at);
        assert_eq!(read_openai(&[a, b]), expected, "{}", at);
    }
    let single: Vec<&[u8]> = EVENTS.as_bytes().chunks(1).collect();
    assert_eq!(read_openai(&single), expected);
}

const LINES: &str = "{\"message\":{\"content\":\"he\"}}\r\n\n\
    {\"message\":{\"content\":\"llo\",\"tool_calls\":[{\"function\":{\"name\":\"Read\",\"arguments\":{}}}]}}\n\
    {\"message\":{\"content\":\"!\"},\"done\":true}\n{\"message\":{\"content\":\"late\"}}\n";

#[test]
fn a_stream_of_lines_can_be_cut_anywhere() {
    let expected = ("hello!".to_string(), vec!["Read".to_string()]);
    assert_eq!(read_ollama(&[LINES.as_bytes()]), expected);
    for at in 0..LINES.len() {
        let (a, b) = LINES.as_bytes().split_at(at);
        assert_eq!(read_ollama(&[a, b]), expected, "{}", at);
    }
}

#[test]
fn what_is_left_is_read_when_the_stream_breaks_off() {
    let event = "data: {\"choices\":[{\"delta\":{\"content\":\"end\"}}]}";
    assert_eq!(read_openai(&[event.as_bytes()]).0, "end");
    assert_eq!(read_openai(&[b"data: [DONE]"]).0, "");
    assert_eq!(read_openai(&[b"  \n"]).0, "");
    let line = "  {\"message\":{\"content\":\"end\"}} ";
    assert_eq!(read_ollama(&[line.as_bytes()]).0, "end");
    assert_eq!(read_ollama(&[b" \r"]).0, "");
}

#[test]
fn nothing_comes_after_the_end() {
    let mut stream = OpenAIStream::new();
    stream.push_chunk(b"data: [DONE]\n\ndata: {}\n\n");
    assert!(stream.next_document().is_none());
    assert!(stream.is_finished());
    assert!(stream.next_document().is_none());
    assert!(stream.last_document().is_none());
}

#[test]
fn bytes_that_are_no_text_are_marked() {
    let mut stream = OllamaStream::new();
    stream.push_chunk(&[b'"', 0xff, b'"', b'\n']);
    assert_eq!(stream.next_document().unwrap(), "\"\u{fffd}\"");
    stream.push_chunk("\"é\"\n".as_bytes());
    assert_eq!(stream.next_document().unwrap(), "\"é\"");
}

#[test]
fn the_grouping_of_parts_does_not_matter() {
    let one = r#"{"choices":[{"delta":{"content":"a","tool_calls":[{"index":0,"function":{"name":"Re","arguments":"{"}}]}},{"delta":{"content":"b","tool_calls":[{"index":0,"id":"x","function":{"name":"ad","arguments":"}"}}]}}]}"#;
    let two = [
        r#"{"choices":[{"delta":{"content":"a","tool_calls":[{"index":0,"function":{"name":"Re","arguments":"{"}}]}}]}"#,
        r#"{"choices":[{"delta":{"content":"b","tool_calls":[{"index":0,"id":"x","function":{"name":"ad","arguments":"}"}}]}}]}"#,
    ];
    let gather = |documents: &[&str]| {
        let mut text = String::new();
        let mut calls = Vec::new();
        for document in documents {
            apply_openai_stream_response(decode_openai(document), &mut text, &mut calls);
        }
        let calls = finalize_partial_tool_calls(calls);
        assert_eq!(calls.len(), 1);
        (
            text,
            calls[0].id.clone(),
            calls[0].name.clone(),
            json_string(&calls[0].arguments),
        )
    };
    assert_eq!(gather(&[one]), gather(&two));
    assert_eq!(
        gather(&two),
        (
            "ab".to_string(),
            Some("x".to_string()),
            "Read".to_string(),
            "{}".to_string()
        )
    );
}

#[test]
fn cuts_between_characters_do_not_matter() {
    let line = "{\"message\":{\"content\":\"é€😀\"}}\n";
    for (at, _) in line.char_indices() {
        let (a, b) = line.as_bytes().split_at(at);
        assert_eq!(read_ollama(&[a, b]).0, "é€😀");
    }
    let at = line.find('é').unwrap() + 1;
    let (a, b) = line.as_bytes().split_at(at);
    assert_eq!(read_ollama(&[a, b]).0, "\u{fffd}\u{fffd}€😀");
}
