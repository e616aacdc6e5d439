use localcoder::client::LLMClient;
use localcoder::settings::{
    infer_provider_from_base_url, model_to_persist, normalize_lmstudio_base_url,
    normalize_optional_string, parse_provider, provider_for_port, provider_name_in_settings,
    resolve_openai_api_key, settings_with_model, validate_non_empty, validate_settings, LLMConfig,
    LLMSettings, Provider, SettingsError, SettingsPlan, DEFAULT_OLLAMA_MODEL, DEFAULT_OLLAMA_URL,
};

fn settings(
    provider: Provider,
    base_url: &str,
    api_key: Option<&str>,
    model: &str,
) -> LLMSettings {
    LLMSettings {
        llm: LLMConfig {
            provider,
            base_url: base_url.to_string(),
            api_key: api_key.map(|key| key.to_string()),
            model: model.to_string(),
        },
    }
}

#[test]
fn resolve_settings_path_with_requires_home_settings() {
    let err = LLMClient::resolve_settings_path_with(None, false).unwrap_err();
    assert!(err.message().contains("$HOME/.localcoder/settings.json"));
    let err = LLMClient::resolve_settings_path_with(Some("/home/me"), false).unwrap_err();
    assert!(matches!(err, SettingsError::Missing));
    assert_eq!(err.message(), "missing $HOME/.localcoder/settings.json");
}

#[test]
fn ensure_settings_file_with_creates_default_settings_in_home() {
    match LLMClient::ensure_settings_file_with(Some("/home/me"), false).unwrap() {
        SettingsPlan::Create { file, directory } => {
            assert_eq!(file, "/home/me/.localcoder/settings.json");
            assert_eq!(directory.as_deref(), Some("/home/me/.localcoder"));
        }
        SettingsPlan::Migrate(_) => panic!("there is no file"),
    }

    let raw = LLMClient::default_settings_json();
    let root: serde_json::Value = serde_json::from_str(&raw).unwrap();
    assert_eq!(root["llm"]["type"], "ollama");
    assert_eq!(root["llm"]["base_url"], DEFAULT_OLLAMA_URL);
    assert_eq!(root["llm"]["model"], DEFAULT_OLLAMA_MODEL);
    assert!(root["llm"].get("api_key").is_none());
}

#[test]
fn ensure_settings_file_with_prefers_existing_home_settings() {
    match LLMClient::ensure_settings_file_with(Some("/home/me"), true).unwrap() {
        SettingsPlan::Migrate(file) => assert_eq!(file, "/home/me/.localcoder/settings.json"),
        SettingsPlan::Create { .. } => panic!("there is a file"),
    }
}

#[test]
fn settings_need_a_home() {
    let err = match LLMClient::ensure_settings_file_with(None, false) {
        Err(err) => err,
        Ok(_) => panic!("there is no home"),
    };
    assert_eq!(err.message(), "$HOME is not set");
    assert!(matches!(
        LLMClient::home_settings_path(None),
        Err(SettingsError::NoHome)
    ));
    assert_eq!(
        LLMClient::home_settings_path(Some("/home/me/")).unwrap(),
        "/home/me/.localcoder/settings.json"
    );
}

#[test]
fn settings_must_say_something() {
    assert!(validate_settings(&settings(Provider::Ollama, "http://h", None, "m")).is_ok());
    let err = validate_settings(&settings(Provider::Ollama, " \n", None, "m")).unwrap_err();
    assert_eq!(err.message(), "settings.llm.base_url must not be empty");
    let err = validate_settings(&settings(Provider::Ollama, "http://h", None, "")).unwrap_err();
    assert_eq!(err.message(), "settings.llm.model must not be empty");
    let err = validate_settings(&settings(Provider::Ollama, "", None, "")).unwrap_err();
    assert_eq!(err.message(), "settings.llm.base_url must not be empty");
    assert!(validate_non_empty("x", " a ").is_ok());
    assert_eq!(
        validate_non_empty("x", "\t").unwrap_err().message(),
        "x must not be empty"
    );
}

#[test]
fn optional_texts_are_normalized() {
    assert_eq!(normalize_optional_string(None), None);
    assert_eq!(normalize_optional_string(Some("  ".to_string())), None);
    assert_eq!(
        normalize_optional_string(Some(" a b ".to_string())).as_deref(),
        Some("a b")
    );
}

#[test]
fn a_configured_key_comes_before_that_of_the_environment() {
    let key = |configured: Option<&str>, environment: Option<&str>| {
        resolve_openai_api_key(
            configured.map(|key| key.to_string()),
            environment.map(|key| key.to_string()),
        )
    };
    assert_eq!(key(Some(" mine "), Some("theirs")).as_deref(), Some("mine"));
    assert_eq!(key(Some("  "), Some(" theirs\n")).as_deref(), Some("theirs"));
    assert_eq!(key(None, Some(" ")), None);
    assert_eq!(key(None, None), None);
}

#[test]
fn providers_are_named_in_small_letters() {
    for provider in [Provider::Ollama, Provider::LMStudio, Provider::OpenAI] {
        assert_eq!(
            parse_provider(provider_name_in_settings(provider)),
            Some(provider)
        );
    }
    assert_eq!(provider_name_in_settings(Provider::LMStudio), "lmstudio");
    assert_eq!(parse_provider("OpenAI"), None);
    assert_eq!(parse_provider(""), None);
    assert_eq!(parse_provider("ollama "), None);
}

#[test]
fn lmstudio_is_addressed_without_a_version() {
    for (given, expected) in [
        (" http://localhost:1234/ ", "http://localhost:1234"),
        ("http://localhost:1234/v1", "http://localhost:1234"),
        ("http://localhost:1234/v1//", "http://localhost:1234"),
        ("http://localhost:1234/api/v0/", "http://localhost:1234"),
        ("http://localhost:1234/api/v1", "http://localhost:1234/api"),
        ("http://localhost:1234/v1/v1", "http://localhost:1234/v1"),
        ("/v1", ""),
        ("", ""),
    ] {
        assert_eq!(normalize_lmstudio_base_url(given), expected);
    }
}

#[test]
fn providers_are_known_by_their_address() {
    for (url, expected) in [
        ("http://localhost:11434", Provider::Ollama),
        ("http://localhost:11434/v1", Provider::Ollama),
        ("http://localhost:1234/v1/", Provider::LMStudio),
        ("https://api.openai.com/v1", Provider::OpenAI),
        ("https://ollama.example.com", Provider::Ollama),
        ("https://lmstudio.example.com", Provider::LMStudio),
        ("https://example.com/11434", Provider::Ollama),
        ("https://example.com/x1234", Provider::LMStudio),
        ("http://[::1]:1234", Provider::LMStudio),
        ("http://ollama:1234", Provider::LMStudio),
        ("no url with 11434", Provider::Ollama),
        ("", Provider::OpenAI),
    ] {
        assert_eq!(infer_provider_from_base_url(url), expected, "{}", url);
    }
}

#[test]
fn the_port_comes_before_the_name() {
    assert_eq!(provider_for_port(Some(1234), "ollama"), Provider::LMStudio);
    assert_eq!(provider_for_port(Some(11434), "lmstudio"), Provider::Ollama);
    assert_eq!(provider_for_port(Some(443), "lmstudio"), Provider::LMStudio);
    assert_eq!(provider_for_port(None, "1234 11434"), Provider::Ollama);
    assert_eq!(provider_for_port(None, "x"), Provider::OpenAI);
}

#[test]
fn persist_model_to_path_creates_llm_settings() {
    let model = model_to_persist("llama3.2").unwrap();
    let chosen = settings_with_model(None, Provider::Ollama, "http://localhost:11434", model);
    assert_eq!(chosen.llm.provider, Provider::Ollama);
    assert_eq!(chosen.llm.base_url, "http://localhost:11434");
    assert_eq!(chosen.llm.model, "llama3.2");
    assert_eq!(chosen.llm.api_key, None);
}

#[test]
fn persist_model_to_path_updates_existing_llm_model() {
    let existing = settings(
        Provider::LMStudio,
        "http://localhost:1234",
        Some("token"),
        "deepseek-r1",
    );
    let model = model_to_persist("qwen3-coder").unwrap();
    let chosen = settings_with_model(
        Some(existing),
        Provider::LMStudio,
        "http://localhost:1234",
        model,
    );
    assert_eq!(chosen.llm.provider, Provider::LMStudio);
    assert_eq!(chosen.llm.base_url, "http://localhost:1234");
    assert_eq!(chosen.llm.api_key.as_deref(), Some("token"));
    assert_eq!(chosen.llm.model, "qwen3-coder");
}

#[test]
fn choosing_a_model_fills_a_blank_url_and_drops_the_key_of_ollama() {
    let existing = settings(Provider::OpenAI, "  ", Some("token"), "old");
    let chosen = settings_with_model(Some(existing), Provider::Ollama, "http://h:11434", "new".to_string());
    assert_eq!(chosen.llm.provider, Provider::Ollama);
    assert_eq!(chosen.llm.base_url, "http://h:11434");
    assert_eq!(chosen.llm.api_key, None);
    assert_eq!(chosen.llm.model, "new");
}

#[test]
fn the_name_of_a_model_is_trimmed() {
    let model = model_to_persist(" qwen3-coder\n").unwrap();
    assert_eq!(model, "qwen3-coder");
}

#[test]
fn a_model_without_a_name_is_refused() {
    assert_eq!(
        model_to_persist(" \t").unwrap_err().message(),
        "model must not be empty"
    );
}

#[test]
fn choosing_the_same_model_again_changes_nothing() {
    let existing = settings(Provider::OpenAI, "https://h/v1", Some("key"), "old");
    let once = settings_with_model(Some(existing), Provider::OpenAI, "https://other", "new".to_string());
    let url = once.llm.base_url.clone();
    let twice = settings_with_model(Some(once), Provider::OpenAI, "https://third", "new".to_string());
    assert_eq!(twice.llm.base_url, url);
    assert_eq!(twice.llm.api_key.as_deref(), Some("key"));
    assert_eq!(twice.llm.model, "new");
    assert!(validate_settings(&twice).is_ok());
}
