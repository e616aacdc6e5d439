use localcoder::client::LLMClient;
use localcoder::json::{json_string, parse_json};
use localcoder::migration::{build_llm_from_legacy, legacy_section_exists, migrate_settings_text};
use localcoder::json::Json;
use localcoder::settings::Provider;
use serde_json::Value;

fn migrated(raw: &str) -> Value {
    serde_json::from_str(&migrate_settings_text(raw).unwrap()).unwrap()
}

fn members(raw: &str) -> Vec<(String, Json)> {
    match parse_json(raw).unwrap() {
        Json::Object(members) => members,
        _ => panic!("not an object"),
    }
}

#[test]
fn ensure_settings_file_with_migrates_legacy_ollama_settings() {
    let root = migrated(
        r#"{
                "ollama":{"url":"http://localhost:11434","model":"qwen2.5-coder:7b"},
                "ui":{"theme":"dark"}
            }"#,
    );
    assert!(root.get("ollama").is_none());
    assert_eq!(root["llm"]["type"], "ollama");
    assert_eq!(root["llm"]["base_url"], "http://localhost:11434");
    assert_eq!(root["llm"]["model"], "qwen2.5-coder:7b");
    assert_eq!(root["ui"]["theme"], "dark");
}

#[test]
fn ensure_settings_file_with_migrates_legacy_openai_settings() {
    let root = migrated(
        r#"{
                "openai":{"base_url":"https://api.openai.com/v1","api_key":"sk-test","model":"gpt-4o-mini"},
                "lsp":{"enabled":false}
            }"#,
    );
    assert!(root.get("openai").is_none());
    assert_eq!(root["llm"]["type"], "openai");
    assert_eq!(root["llm"]["base_url"], "https://api.openai.com/v1");
    assert_eq!(root["llm"]["api_key"], "sk-test");
    assert_eq!(root["llm"]["model"], "gpt-4o-mini");
    assert_eq!(root["lsp"]["enabled"], false);
}

#[test]
fn ensure_settings_file_with_adds_type_to_llm_when_missing() {
    let root = migrated(
        r#"{
                "llm":{"base_url":"http://localhost:1234","model":"deepseek-r1"},
                "type":"lmstudio"
            }"#,
    );
    assert_eq!(root["llm"]["type"], "lmstudio");
    assert!(root.get("type").is_none());
}

#[test]
fn the_provider_of_a_file_without_a_type_is_known_by_its_url() {
    for (url, expected) in [
        ("http://localhost:1234/v1", "lmstudio"),
        ("http://localhost:11434", "ollama"),
        ("https://api.openai.com/v1", "openai"),
    ] {
        let raw = format!(r#"{{"llm":{{"base_url":"{}","model":"m"}}}}"#, url);
        assert_eq!(migrated(&raw)["llm"]["type"], expected);
    }
    assert_eq!(migrated(r#"{"llm":{"model":"m"}}"#)["llm"]["type"], "ollama");
    assert_eq!(
        migrated(r#"{"llm":{"type":"unknown","base_url":"http://h:1234"}}"#)["llm"]["type"],
        "lmstudio"
    );
}

#[test]
fn ollama_keeps_no_key() {
    let root = migrated(
        r#"{"llm":{"type":"ollama","base_url":"http://h","api_key":"k","model":"m"}}"#,
    );
    assert!(root["llm"].get("api_key").is_none());
    let raw = r#"{"llm":{"type":"openai","base_url":"http://h","api_key":"k","model":"m"}}"#;
    assert!(migrate_settings_text(raw).is_none());
}

#[test]
fn legacy_sections_are_tried_in_order() {
    let raw = r#"{"ollama":{"url":"http://o","model":"o"},"openai":{"url":"http://a","model":"a"},"lmstudio":{"url":"http://l","model":"l"}}"#;
    assert_eq!(migrated(raw)["llm"]["type"], "openai");
    let raw = r#"{"ollama":{"url":"http://o","model":"o"},"lmstudio":{"url":"http://l","model":"l"}}"#;
    assert_eq!(migrated(raw)["llm"]["type"], "lmstudio");
    let raw = r#"{"type":"ollama","ollama":{"url":"http://o","model":"o"},"openai":{"url":"http://a","model":"a"}}"#;
    assert_eq!(migrated(raw)["llm"]["type"], "ollama");
    let raw = r#"{"type":"lmstudio","openai":{"url":"http://a","model":"a"}}"#;
    assert_eq!(migrated(raw)["llm"]["type"], "openai");
}

#[test]
fn a_section_that_says_too_little_is_left_alone() {
    for raw in [
        r#"{"openai":{"base_url":"https://api.openai.com/v1"}}"#,
        r#"{"openai":{"base_url":" ","model":"m"}}"#,
        r#"{"openai":{"base_url":1,"url":"http://h","model":"m"}}"#,
        r#"{"openai":"text"}"#,
        r#"{"ui":1}"#,
        r#"[]"#,
        "not json",
    ] {
        assert!(migrate_settings_text(raw).is_none(), "{}", raw);
    }
}

#[test]
fn texts_of_a_section_are_trimmed() {
    let root = migrated(
        r#"{"lmstudio":{"url":" http://h ","model":" m ","api_key":"  "},"type":"lmstudio"}"#,
    );
    assert_eq!(root["llm"]["base_url"], "http://h");
    assert_eq!(root["llm"]["model"], "m");
    assert!(root["llm"]["api_key"].is_null());
    let root = migrated(r#"{"lmstudio":{"url":"http://h","model":"m","api_key":" k "}}"#);
    assert_eq!(root["llm"]["api_key"], "k");
}

#[test]
fn sections_are_read_for_their_provider() {
    let root = members(r#"{"openai":{"base_url":"http://h","model":"m","api_key":"k"},"ollama":1}"#);
    assert!(legacy_section_exists(&root, Provider::OpenAI));
    assert!(!legacy_section_exists(&root, Provider::Ollama));
    assert!(!legacy_section_exists(&root, Provider::LMStudio));
    let config = build_llm_from_legacy(&root, Provider::OpenAI).unwrap();
    assert_eq!(config.provider, Provider::OpenAI);
    assert_eq!(config.api_key.as_deref(), Some("k"));
    assert!(build_llm_from_legacy(&root, Provider::Ollama).is_none());
}

#[test]
fn migrating_twice_changes_nothing_more() {
    for raw in [
        r#"{"openai":{"base_url":"http://h","model":"m","api_key":"k"},"ui":1}"#,
        r#"{"llm":{"base_url":"http://localhost:1234","model":"m"},"type":"openai","ollama":{}}"#,
        r#"{"llm":{"type":"ollama","api_key":null,"base_url":"x"}}"#,
    ] {
        let once = migrate_settings_text(raw).unwrap();
        assert!(migrate_settings_text(&once).is_none(), "{}", once);
    }
}

#[test]
fn a_section_of_ollama_settles_with_the_second_migration() {
    let raw = r#"{"ollama":{"url":"http://localhost:11434","model":"m"}}"#;
    let once = migrate_settings_text(raw).unwrap();
    let twice = migrate_settings_text(&once).unwrap();
    assert!(migrate_settings_text(&twice).is_none());
    let root: Value = serde_json::from_str(&twice).unwrap();
    assert!(root["llm"].get("api_key").is_none());
}

#[test]
fn migration_keeps_what_it_does_not_know() {
    let root = migrated(r#"{"openai":{"url":"http://h","model":"m"},"x":[1,2],"y":null}"#);
    assert_eq!(root["x"][1], 2);
    assert!(root["y"].is_null());
    assert!(root.get("y").is_some());
}

#[test]
fn new_settings_need_no_migration() {
    let raw = LLMClient::default_settings_json();
    assert!(migrate_settings_text(&raw).is_none());
    assert_eq!(
        raw,
        "{\n  \"llm\": {\n    \"base_url\": \"http://localhost:11434\",\n    \"model\": \"qwen3.5:4b\",\n    \"type\": \"ollama\"\n  }\n}"
    );
}

#[test]
fn migrating_a_document_says_whether_it_changed() {
    let mut root = parse_json(r#"{"llm":{"type":"openai"},"type":"ollama"}"#).unwrap();
    assert!(LLMClient::migrate_settings_value(&mut root));
    assert_eq!(json_string(&root), r#"{"llm":{"type":"openai"}}"#);
    assert!(!LLMClient::migrate_settings_value(&mut root));
    let mut list = Json::List(vec![Json::Null]);
    assert!(!LLMClient::migrate_settings_value(&mut list));
    assert_eq!(json_string(&list), "[null]");
}
