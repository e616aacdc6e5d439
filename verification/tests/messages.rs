use localcoder::json::{json_string, parse_json, Json};
use localcoder::messages::{
    assistant_content_for_openai, map_message_for_openai, map_messages_for_openai,
    stringify_tool_arguments,
};

fn parsed(raw: &str) -> Json {
    parse_json(raw).unwrap()
}

fn mapped(index: usize, raw: &str) -> String {
    json_string(&map_message_for_openai(index, &parsed(raw)))
}

#[test]
fn map_message_for_openai_preserves_tool_call_id() {
    let message = Json::object()
        .with("role", Json::text("tool"))
        .with("tool_call_id", Json::text("call_123"))
        .with("tool_name", Json::text("read"))
        .with("content", Json::text("ok"));

    let mapped = map_message_for_openai(0, &message);
    assert_eq!(mapped.get_text("role").unwrap(), "tool");
    assert_eq!(mapped.get_text("tool_call_id").unwrap(), "call_123");
    assert_eq!(mapped.get_text("content").unwrap(), "ok");
}

#[test]
fn tool_answers_without_a_call_are_told_by_the_user() {
    assert_eq!(
        mapped(0, r#"{"role":"tool","tool_name":"Read","content":"text"}"#),
        r#"{"content":"Tool Read returned:\ntext","role":"user"}"#
    );
    assert_eq!(
        mapped(0, r#"{"role":"tool"}"#),
        r#"{"content":"Tool unknown returned:\n","role":"user"}"#
    );
}

#[test]
fn tool_calls_are_numbered_where_they_have_no_name() {
    assert_eq!(
        mapped(
            3,
            r#"{"role":"assistant","content":"","tool_calls":[
                {"function":{"name":"Read","arguments":{"file_path":"a"}}},
                {"id":"x","function":{"name":"Edit","arguments":"raw"}}]}"#
        ),
        "{\"content\":null,\"role\":\"assistant\",\"tool_calls\":[\
         {\"function\":{\"arguments\":\"{\\\"file_path\\\":\\\"a\\\"}\",\"name\":\"Read\"},\
         \"id\":\"call_3_0\",\"type\":\"function\"},\
         {\"function\":{\"arguments\":\"raw\",\"name\":\"Edit\"},\
         \"id\":\"x\",\"type\":\"function\"}]}"
    );
}

#[test]
fn missing_parts_of_a_tool_call_are_null() {
    assert_eq!(
        mapped(0, r#"{"role":"assistant","content":"hi","tool_calls":[{}]}"#),
        "{\"content\":\"hi\",\"role\":\"assistant\",\"tool_calls\":[\
         {\"function\":{\"arguments\":\"null\",\"name\":null},\
         \"id\":\"call_0_0\",\"type\":\"function\"}]}"
    );
}

#[test]
fn other_messages_keep_role_and_content() {
    assert_eq!(
        mapped(0, r#"{"role":"system","content":"be brief","extra":1}"#),
        r#"{"content":"be brief","role":"system"}"#
    );
    assert_eq!(mapped(0, "{}"), r#"{"content":"","role":"user"}"#);
    assert_eq!(mapped(0, "[]"), r#"{"content":"","role":"user"}"#);
}

#[test]
fn an_assistant_without_words_says_null_only_with_tool_calls() {
    let content = |raw: &str| json_string(&assistant_content_for_openai(&parsed(raw)));
    assert_eq!(content(r#"{"content":""}"#), "\"\"");
    assert_eq!(content(r#"{"tool_calls":[]}"#), "null");
    assert_eq!(content(r#"{"content":"x","tool_calls":[]}"#), "\"x\"");
}

#[test]
fn arguments_are_text() {
    assert_eq!(stringify_tool_arguments(&Json::text("as it is")), "as it is");
    assert_eq!(stringify_tool_arguments(&parsed(r#"{"b":1,"a":2}"#)), r#"{"a":2,"b":1}"#);
    assert_eq!(stringify_tool_arguments(&Json::Null), "null");
}

#[test]
fn messages_are_numbered_in_order() {
    let messages = vec![
        parsed(r#"{"role":"user","content":"q"}"#),
        parsed(r#"{"role":"assistant","tool_calls":[{"function":{"name":"n"}}]}"#),
    ];
    let mapped = map_messages_for_openai(&messages);
    assert_eq!(mapped.len(), 2);
    assert_eq!(json_string(&mapped[0]), r#"{"content":"q","role":"user"}"#);
    assert!(json_string(&mapped[1]).contains("\"call_1_0\""));
}

#[test]
fn numbers_tell_calls_apart() {
    let raw = r#"{"role":"assistant","tool_calls":[{},{},{},{},{},{},{},{},{},{},{},{}]}"#;
    let mut names: Vec<String> = Vec::new();
    for index in [1, 11, 111] {
        let mapped = map_message_for_openai(index, &parsed(raw));
        if let Some(Json::List(calls)) = mapped.get("tool_calls") {
            names.extend(calls.iter().map(|call| call.get_text("id").unwrap().clone()));
        }
    }
    assert_eq!(names.len(), 36);
    assert_eq!(names[11], "call_1_11");
    names.sort();
    names.dedup();
    assert_eq!(names.len(), 36);
}

#[test]
fn arguments_read_back() {
    let arguments = parsed(r#"{"a":[1,{"b":"c"}],"d":null}"#);
    let text = stringify_tool_arguments(&arguments);
    assert_eq!(json_string(&parsed(&text)), json_string(&arguments));
}
