use localcoder::client::{
    insert_openai_compatible_token_limit, ollama_completion, summary_prompt, ClientError,
    LLMClient, OpenAIChatResponse, OpenAIChoice, OpenAIMessage, DEFAULT_MAX_TOKENS,
};
use localcoder::json::{json_string, parse_json, Json};
use localcoder::settings::{LLMConfig, LLMSettings, Provider};
use localcoder::stream::{OllamaChatResponse, OllamaMessage};

fn settings(
    provider: Provider,
    base_url: &str,
    api_key: Option<&str>,
    model: &str,
) -> LLMSettings {
    LLMSettings {
        llm: LLMConfig {
            provider,
            base_url: base_url.to_string(),
            api_key: api_key.map(|key| key.to_string()),
            model: model.to_string(),
        },
    }
}

fn client(provider: Provider, base_url: &str, api_key: Option<&str>, model: &str) -> LLMClient {
    LLMClient::from_settings(settings(provider, base_url, api_key, model), None)
}

#[test]
fn from_settings_sets_ollama_defaults() {
    let client = client(
        Provider::Ollama,
        "http://localhost:11434/",
        Some("ignored"),
        "qwen2.5-coder:7b",
    );

    assert_eq!(client.provider, Provider::Ollama);
    assert_eq!(client.base_url(), "http://localhost:11434");
    assert_eq!(client.model(), "qwen2.5-coder:7b");
    assert_eq!(client.max_tokens(), 4096);
    assert_eq!(client.max_tokens(), DEFAULT_MAX_TOKENS);
}

#[test]
fn from_settings_detects_lmstudio() {
    let client = client(
        Provider::LMStudio,
        "http://localhost:1234/",
        None,
        "deepseek-r1",
    );

    assert_eq!(client.provider, Provider::LMStudio);
    assert_eq!(client.base_url(), "http://localhost:1234");
    assert_eq!(client.model(), "deepseek-r1");
    assert_eq!(
        client.chat_completions_url(),
        "http://localhost:1234/v1/chat/completions"
    );
}

#[test]
fn from_settings_detects_openai() {
    let client = client(
        Provider::OpenAI,
        "https://api.openai.com/v1/",
        Some("sk-test"),
        "gpt-4o-mini",
    );

    assert_eq!(client.provider, Provider::OpenAI);
    assert_eq!(client.base_url(), "https://api.openai.com/v1");
    assert_eq!(client.model(), "gpt-4o-mini");
}

#[test]
fn from_settings_uses_openai_api_key_env_when_config_omits_key() {
    let client = LLMClient::from_settings(
        settings(
            Provider::OpenAI,
            "https://api.openai.com/v1/",
            None,
            "gpt-5.4-mini",
        ),
        Some(" sk-env-test ".to_string()),
    );

    assert_eq!(client.api_key.as_deref(), Some("sk-env-test"));
}

#[test]
fn from_settings_normalizes_lmstudio_v1_base_url() {
    let client = client(
        Provider::LMStudio,
        "http://localhost:1234/v1/",
        None,
        "deepseek-r1",
    );

    assert_eq!(client.base_url(), "http://localhost:1234");
    assert_eq!(
        client.chat_completions_url(),
        "http://localhost:1234/v1/chat/completions"
    );
}

#[test]
fn openai_compatible_token_limit_uses_provider_specific_parameter() {
    let mut openai_body = Json::object().with("model", Json::text("gpt-5.4-mini"));
    insert_openai_compatible_token_limit(&mut openai_body, Provider::OpenAI, 2048);
    assert_eq!(openai_body.get_u64("max_completion_tokens"), Some(2048));
    assert!(openai_body.get("max_tokens").is_none());

    let mut lmstudio_body = Json::object().with("model", Json::text("deepseek-r1"));
    insert_openai_compatible_token_limit(&mut lmstudio_body, Provider::LMStudio, 1024);
    assert_eq!(lmstudio_body.get_u64("max_tokens"), Some(1024));
    assert!(lmstudio_body.get("max_completion_tokens").is_none());
}

#[test]
fn set_model_updates_model() {
    let mut client = client(
        Provider::Ollama,
        "http://localhost:11434",
        None,
        "qwen2.5-coder:7b",
    );

    client.set_model("llama3.2".to_string());
    assert_eq!(client.model(), "llama3.2");
}

#[test]
fn set_max_tokens_updates_value() {
    let mut client = client(
        Provider::Ollama,
        "http://localhost:11434",
        None,
        "qwen2.5-coder:7b",
    );

    client.set_max_tokens(2048);
    assert_eq!(client.max_tokens(), 2048);
}

#[test]
fn the_token_limit_leaves_what_is_no_object() {
    let mut body = Json::List(vec![]);
    insert_openai_compatible_token_limit(&mut body, Provider::OpenAI, 1);
    assert_eq!(json_string(&body), "[]");
    let mut body = parse_json(r#"{"a":1,"max_tokens":5}"#).unwrap();
    insert_openai_compatible_token_limit(&mut body, Provider::Ollama, u32::MAX);
    assert_eq!(json_string(&body), r#"{"a":1,"max_tokens":4294967295}"#);
}

#[test]
fn providers_are_named_for_people() {
    assert_eq!(client(Provider::Ollama, "u", None, "m").provider_name(), "Ollama");
    assert_eq!(client(Provider::LMStudio, "u", None, "m").provider_name(), "LM Studio");
    assert_eq!(client(Provider::OpenAI, "u", None, "m").provider_name(), "OpenAI");
}

#[test]
fn addresses_are_put_together() {
    let ollama = client(Provider::Ollama, "http://h//", None, "m");
    assert_eq!(ollama.chat_url(), "http://h/api/chat");
    assert_eq!(ollama.models_url(), "http://h/api/tags");
    assert_eq!(ollama.chat_completions_url(), "http://h/chat/completions");
    let lmstudio = client(Provider::LMStudio, "http://h/v1", None, "m");
    assert_eq!(lmstudio.chat_url(), "http://h/v1/chat/completions");
    assert_eq!(lmstudio.models_url(), "http://h/api/v1/models");
    let openai = client(Provider::OpenAI, "http://h/v1/", None, "m");
    assert_eq!(openai.chat_url(), "http://h/v1/chat/completions");
    assert_eq!(openai.models_url(), "http://h/v1/models");
}

#[test]
fn requests_carry_the_key_of_their_provider() {
    let ollama = client(Provider::Ollama, "u", Some("k"), "m");
    assert_eq!(ollama.authorization().unwrap(), None);
    let lmstudio = client(Provider::LMStudio, "u", Some(" k "), "m");
    assert_eq!(lmstudio.authorization().unwrap().as_deref(), Some(" k "));
    let lmstudio = client(Provider::LMStudio, "u", Some("  "), "m");
    assert_eq!(lmstudio.authorization().unwrap(), None);
    let openai = client(Provider::OpenAI, "u", Some(" k "), "m");
    assert_eq!(openai.authorization().unwrap().as_deref(), Some("k"));
    let openai = client(Provider::OpenAI, "u", Some("  "), "m");
    let error = openai.authorization().unwrap_err();
    assert!(matches!(error, ClientError::MissingKey));
    assert_eq!(error.message(), "missing OpenAI API key");
}

#[test]
fn ollama_is_asked_in_its_own_way() {
    let client = client(Provider::Ollama, "u", None, "m");
    let messages = vec![parse_json(r#"{"role":"user","content":"q","extra":1}"#).unwrap()];
    assert_eq!(
        json_string(&client.chat_body(&messages, &vec![])),
        r#"{"messages":[{"content":"q","extra":1,"role":"user"}],"model":"m","options":{"num_predict":4096},"stream":true}"#
    );
    let tools = vec![parse_json(r#"{"type":"function"}"#).unwrap()];
    assert_eq!(
        json_string(&client.chat_body(&messages, &tools)),
        r#"{"messages":[{"content":"q","extra":1,"role":"user"}],"model":"m","options":{"num_predict":4096},"stream":true,"tools":[{"type":"function"}]}"#
    );
    assert_eq!(
        json_string(&client.prompt_body("p", 10)),
        r#"{"messages":[{"content":"p","role":"user"}],"model":"m","options":{"num_predict":10},"stream":false}"#
    );
}

#[test]
fn openai_compatible_servers_are_asked_alike() {
    let openai = client(Provider::OpenAI, "u", Some("k"), "m");
    let messages = vec![parse_json(r#"{"role":"user","content":"q","extra":1}"#).unwrap()];
    assert_eq!(
        json_string(&openai.chat_body(&messages, &vec![])),
        r#"{"max_completion_tokens":4096,"messages":[{"content":"q","role":"user"}],"model":"m","stream":true}"#
    );
    let lmstudio = client(Provider::LMStudio, "u", None, "m");
    let tools = vec![Json::text("t")];
    assert_eq!(
        json_string(&lmstudio.chat_body(&messages, &tools)),
        r#"{"max_tokens":4096,"messages":[{"content":"q","role":"user"}],"model":"m","stream":true,"tool_choice":"auto","tools":["t"]}"#
    );
    assert_eq!(
        json_string(&openai.prompt_body("p", 1024)),
        r#"{"max_completion_tokens":1024,"messages":[{"content":"p","role":"user"}],"model":"m","stream":false}"#
    );
}

#[test]
fn refusals_are_reported_with_status_and_body() {
    let client = client(Provider::LMStudio, "u", None, "m");
    let error = client.refused("404 Not Found".to_string(), "no model".to_string());
    assert_eq!(
        error.message(),
        "LM Studio returned error 404 Not Found: no model"
    );
}

#[test]
fn the_first_choice_is_the_completion() {
    let client = client(Provider::OpenAI, "u", Some("k"), "m");
    let choice = |content: Option<&str>| OpenAIChoice {
        message: OpenAIMessage {
            content: content.map(|content| content.to_string()),
        },
    };
    let response = OpenAIChatResponse {
        choices: vec![choice(Some("first")), choice(Some("second"))],
    };
    assert_eq!(client.first_choice(response).unwrap(), "first");
    let response = OpenAIChatResponse {
        choices: vec![choice(None)],
    };
    assert_eq!(client.first_choice(response).unwrap(), "");
    let error = client
        .first_choice(OpenAIChatResponse { choices: vec![] })
        .unwrap_err();
    assert_eq!(error.message(), "OpenAI returned no choices");
}

#[test]
fn the_completion_of_ollama_is_its_message() {
    let response = |content: Option<&str>| OllamaChatResponse {
        message: OllamaMessage {
            content: content.map(|content| content.to_string()),
            tool_calls: None,
        },
        done: Some(true),
    };
    assert_eq!(ollama_completion(response(Some("text"))), "text");
    assert_eq!(ollama_completion(response(None)), "");
}

#[test]
fn summaries_are_asked_for_with_the_history() {
    let prompt = summary_prompt("user: hello");
    assert!(prompt.starts_with("以下是一段对话历史，请生成简洁摘要，保留：\n1. "));
    assert!(prompt.ends_with("\n\n对话历史：\nuser: hello"));
}

#[test]
fn copies_of_a_client_are_alike() {
    let mut client = client(Provider::OpenAI, "http://h", Some("k"), "m");
    client.set_max_tokens(7);
    let copy = client.clone();
    assert_eq!(copy.provider, client.provider);
    assert_eq!(copy.base_url(), "http://h");
    assert_eq!(copy.api_key.as_deref(), Some("k"));
    assert_eq!(copy.model(), "m");
    assert_eq!(copy.max_tokens(), 7);
}
