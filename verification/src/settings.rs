//! Settings: which provider to talk to, where it is, and which model to ask for.
//!
//! Settings live in `$HOME/.localcoder/settings.json` under the member `llm`. Older
//! files keep them in a section named after the provider; such files are migrated.
use crate::client::LLMClient;
use crate::json;
use crate::path;
use crate::text;
use vstd::prelude::*;
use vstd::string::*;

verus! {

/// Where Ollama listens by default.
pub const DEFAULT_OLLAMA_URL: &'static str = "http://localhost:11434";

/// The model that a new settings file asks for.
pub const DEFAULT_OLLAMA_MODEL: &'static str = "qwen3.5:4b";

/// The environment variable that holds the OpenAI key where the settings hold none.
pub const OPENAI_API_KEY_ENV: &'static str = "OPENAI_API_KEY";

/// The settings file, seen from the home directory.
pub const SETTINGS_FILE: &'static str = ".localcoder/settings.json";

/// Who serves the model.
#[derive(Debug, Clone, Copy, PartialEq, Eq, Structural)]
pub enum Provider {
    Ollama,
    LMStudio,
    OpenAI,
}

/// How to reach a model.
#[derive(Debug)]
pub struct LLMConfig {
    pub provider: Provider,
    pub base_url: String,
    pub api_key: Option<String>,
    pub model: String,
}

/// The part of the settings that this library reads.
#[derive(Debug)]
pub struct LLMSettings {
    pub llm: LLMConfig,
}

/// What a configuration says.
pub struct ConfigView {
    pub provider: Provider,
    pub base_url: Seq<char>,
    pub api_key: Option<Seq<char>>,
    pub model: Seq<char>,
}

impl View for LLMConfig {
    type V = ConfigView;

    open spec fn view(&self) -> ConfigView {
        ConfigView {
            provider: self.provider,
            base_url: self.base_url@,
            api_key: json::opt_text(self.api_key),
            model: self.model@,
        }
    }
}

impl View for LLMSettings {
    type V = ConfigView;

    open spec fn view(&self) -> ConfigView {
        self.llm@
    }
}

/// Why settings cannot be used.
#[derive(Debug)]
pub enum SettingsError {
    /// There is no settings file.
    Missing,
    /// The home directory is not known.
    NoHome,
    /// A value that must say something is blank.
    Blank(String),
}

impl SettingsError {
    /// What the error says.
    pub open spec fn says(self) -> Seq<char> {
        match self {
            SettingsError::Missing => "missing $HOME/.localcoder/settings.json"@,
            SettingsError::NoHome => "$HOME is not set"@,
            SettingsError::Blank(label) => label@ + " must not be empty"@,
        }
    }

    /// What the error says.
    pub fn message(&self) -> (r: String)
        ensures
            r@ == self.says(),
    {
        match self {
            SettingsError::Missing => "missing $HOME/.localcoder/settings.json".to_owned(),
            SettingsError::NoHome => "$HOME is not set".to_owned(),
            SettingsError::Blank(label) => {
                let mut out: String = label.clone();
                out.append(" must not be empty");
                out
            },
        }
    }
}

// ---------------------------------------------------------------------------
// Providers
// ---------------------------------------------------------------------------

/// The name of a provider in a settings file.
pub open spec fn provider_key(provider: Provider) -> Seq<char> {
    match provider {
        Provider::Ollama => "ollama"@,
        Provider::LMStudio => "lmstudio"@,
        Provider::OpenAI => "openai"@,
    }
}

/// The provider that a settings file names.
pub open spec fn named_provider(value: Seq<char>) -> Option<Provider> {
    if value == "ollama"@ {
        Some(Provider::Ollama)
    } else if value == "lmstudio"@ {
        Some(Provider::LMStudio)
    } else if value == "openai"@ {
        Some(Provider::OpenAI)
    } else {
        None
    }
}

/// The name of a provider in a settings file.
pub fn provider_name_in_settings(provider: Provider) -> (r: &'static str)
    ensures
        r@ == provider_key(provider),
{
    match provider {
        Provider::Ollama => "ollama",
        Provider::LMStudio => "lmstudio",
        Provider::OpenAI => "openai",
    }
}

/// The provider that a settings file names.
pub fn parse_provider(value: &str) -> (r: Option<Provider>)
    ensures
        r == named_provider(value@),
{
    if text::same_text(value, "ollama") {
        Some(Provider::Ollama)
    } else if text::same_text(value, "lmstudio") {
        Some(Provider::LMStudio)
    } else if text::same_text(value, "openai") {
        Some(Provider::OpenAI)
    } else {
        None
    }
}

/// The names of the members are told apart.
pub(crate) proof fn lemma_names_differ()
    ensures
        "llm"@ != "type"@,
        "llm"@ != "ollama"@,
        "llm"@ != "lmstudio"@,
        "llm"@ != "openai"@,
        "type"@ != "api_key"@,
        "type"@ != "base_url"@,
        "type"@ != "model"@,
        "base_url"@ != "api_key"@,
        "base_url"@ != "model"@,
        "api_key"@ != "model"@,
        "ollama"@ != "lmstudio"@,
        "ollama"@ != "openai"@,
        "lmstudio"@ != "openai"@,
{
    reveal_strlit("llm");
    reveal_strlit("type");
    reveal_strlit("ollama");
    reveal_strlit("lmstudio");
    reveal_strlit("openai");
    reveal_strlit("api_key");
    reveal_strlit("base_url");
    reveal_strlit("model");
    assert("llm"@.len() == 3);
    assert("type"@.len() == 4);
    assert("model"@.len() == 5);
    assert("ollama"@.len() == 6);
    assert("openai"@.len() == 6);
    assert("api_key"@.len() == 7);
    assert("lmstudio"@.len() == 8);
    assert("base_url"@.len() == 8);
    assert("ollama"@[1] != "openai"@[1]);
}

/// A provider's name in a settings file is read back as that provider.
pub proof fn provider_name_reads_back(provider: Provider)
    ensures
        named_provider(provider_key(provider)) == Some(provider),
{
    lemma_names_differ();
}

/// A base URL as LM Studio is addressed: without surrounding white space, trailing
/// slashes and one version suffix, `/v1` or `/api/v0`.
pub open spec fn lmstudio_base(base_url: Seq<char>) -> Seq<char> {
    let url = text::without_trailing(text::trimmed(base_url), '/');
    if text::ends_with(url, "/v1"@) {
        url.take(url.len() - "/v1"@.len())
    } else if text::ends_with(url, "/api/v0"@) {
        url.take(url.len() - "/api/v0"@.len())
    } else {
        url
    }
}

/// The text without a suffix that it ends with.
fn drop_suffix(s: &str, suffix: &str) -> (r: String)
    requires
        text::ends_with(s@, suffix@),
    ensures
        r@ == s@.take(s@.len() - suffix@.len()),
{
    let chars: Vec<char> = text::chars_of(s);
    let tail: Vec<char> = text::chars_of(suffix);
    let end: usize = chars.len() - tail.len();
    assert(s@.take(end as int) =~= chars@.subrange(0, end as int));
    text::text_of(&chars, 0, end)
}

/// A base URL as LM Studio is addressed: without surrounding white space, trailing
/// slashes and one version suffix, `/v1` or `/api/v0`.
pub fn normalize_lmstudio_base_url(base_url: &str) -> (r: String)
    ensures
        r@ == lmstudio_base(base_url@),
{
    let trimmed: String = text::trim(base_url);
    let url: String = text::trim_end_matches(trimmed.as_str(), '/');
    if text::ends_with_text(url.as_str(), "/v1") {
        drop_suffix(url.as_str(), "/v1")
    } else if text::ends_with_text(url.as_str(), "/api/v0") {
        drop_suffix(url.as_str(), "/api/v0")
    } else {
        url
    }
}

/// LM Studio is addressed the same way, whether a URL is given plainly, with a slash, or
/// with the version of its interface. A URL that ends in `/api/v1` keeps `/api`.
pub proof fn lmstudio_addresses_meet(url: Seq<char>)
    requires
        url.len() > 0,
        text::trimmed(url) == url,
        url.last() != '/',
        !text::ends_with(url, "/v1"@),
        !text::ends_with(url, "/api/v0"@),
    ensures
        lmstudio_base(url) == url,
        lmstudio_base(url.push('/')) == url,
        lmstudio_base(url + "/v1"@) == url,
        lmstudio_base(url + "/v1/"@) == url,
        lmstudio_base(url + "/api/v0"@) == url,
        lmstudio_base(url + "/api/v1"@) == url + "/api"@,
{
    reveal_strlit("/v1");
    reveal_strlit("/v1/");
    reveal_strlit("/api/v0");
    reveal_strlit("/api/v1");
    reveal_strlit("/api");
    text::trimming_settles(url);
    let slashed = url.push('/');
    text::lemma_trimmed_is(slashed);
    assert(slashed.drop_last() =~= url);
    assert(text::without_trailing(url, '/') == url);
    assert(text::without_trailing(slashed, '/') == url);
    let versioned = url + "/v1"@;
    text::lemma_trimmed_is(versioned);
    assert(versioned.subrange(url.len() as int, versioned.len() as int) =~= "/v1"@);
    assert(versioned.take(versioned.len() - 3) =~= url);
    let both = url + "/v1/"@;
    text::lemma_trimmed_is(both);
    assert(both.drop_last() =~= versioned);
    assert(text::without_trailing(versioned, '/') == versioned);
    assert(text::without_trailing(both, '/') == versioned);
    let older = url + "/api/v0"@;
    text::lemma_trimmed_is(older);
    assert(older.subrange(url.len() as int, older.len() as int) =~= "/api/v0"@);
    assert(older.take(older.len() - 7) =~= url);
    assert(older.subrange(older.len() - 3, older.len() as int)[2] == '0');
    let newer = url + "/api/v1"@;
    text::lemma_trimmed_is(newer);
    assert(newer.subrange(newer.len() - 3, newer.len() as int) =~= "/v1"@);
    assert(newer.take(newer.len() - 3) =~= url + "/api"@);
}

/// The port that `reqwest::Url` finds in a text: the one written in it, else the
/// usual one of its scheme. Nothing where the text is no URL or no port is known.
pub uninterp spec fn url_port(url: Seq<char>) -> Option<u16>;

/// `reqwest::Url::port_or_known_default` of the URL that a text is: a function of the
/// text alone.
#[verifier::external_body]
fn port_or_known_default(url: &str) -> (r: Option<u16>)
    ensures
        r == url_port(url@),
{
    reqwest::Url::parse(url).ok()?.port_or_known_default()
}

/// The provider that listens at a normalized URL with the given port.
pub open spec fn provider_at(port: Option<u16>, url: Seq<char>) -> Provider {
    if port == Some(11434u16) {
        Provider::Ollama
    } else if port == Some(1234u16) {
        Provider::LMStudio
    } else if text::contains(url, "11434"@) || text::contains(url, "ollama"@) {
        Provider::Ollama
    } else if text::contains(url, "1234"@) || text::contains(url, "lmstudio"@) {
        Provider::LMStudio
    } else {
        Provider::OpenAI
    }
}

/// The provider that listens at a base URL.
pub open spec fn inferred_provider(base_url: Seq<char>) -> Provider {
    provider_at(url_port(lmstudio_base(base_url)), lmstudio_base(base_url))
}

/// The provider that listens at a normalized URL with the given port.
pub fn provider_for_port(port: Option<u16>, url: &str) -> (r: Provider)
    ensures
        r == provider_at(port, url@),
{
    match port {
        Some(number) => {
            if number == 11434 {
                return Provider::Ollama;
            }
            if number == 1234 {
                return Provider::LMStudio;
            }
        },
        None => {},
    }
    if text::contains_text(url, "11434") || text::contains_text(url, "ollama") {
        Provider::Ollama
    } else if text::contains_text(url, "1234") || text::contains_text(url, "lmstudio") {
        Provider::LMStudio
    } else {
        Provider::OpenAI
    }
}

/// The provider that listens at a base URL.
pub fn infer_provider_from_base_url(base_url: &str) -> (r: Provider)
    ensures
        r == inferred_provider(base_url@),
{
    let normalized: String = normalize_lmstudio_base_url(base_url);
    let port: Option<u16> = port_or_known_default(normalized.as_str());
    provider_for_port(port, normalized.as_str())
}

// ---------------------------------------------------------------------------
// Values
// ---------------------------------------------------------------------------

/// Refuses a blank value.
pub fn validate_non_empty(label: &str, value: &str) -> (r: Result<(), SettingsError>)
    ensures
        match r {
            Ok(_) => text::trimmed(value@).len() > 0,
            Err(SettingsError::Blank(what)) => text::trimmed(value@).len() == 0 && what@ == label@,
            Err(_) => false,
        },
{
    if text::is_blank(value) {
        return Err(SettingsError::Blank(label.to_owned()));
    }
    Ok(())
}

/// An optional text without surrounding white space, where something is left.
pub open spec fn normalized_text(value: Option<Seq<char>>) -> Option<Seq<char>> {
    match value {
        Some(s) => if text::trimmed(s).len() > 0 {
            Some(text::trimmed(s))
        } else {
            None
        },
        None => None,
    }
}

/// An optional text without surrounding white space, where something is left.
pub fn normalize_optional_string(value: Option<String>) -> (r: Option<String>)
    ensures
        json::opt_text(r) == normalized_text(json::opt_text(value)),
{
    match value {
        Some(value) => {
            let trimmed: String = text::trim(value.as_str());
            if trimmed.as_str().is_empty() {
                None
            } else {
                Some(trimmed)
            }
        },
        None => None,
    }
}

/// The OpenAI key: the one in the settings, else the one in the environment.
pub open spec fn openai_key(
    configured: Option<Seq<char>>,
    environment: Option<Seq<char>>,
) -> Option<Seq<char>> {
    match normalized_text(configured) {
        Some(key) => Some(key),
        None => normalized_text(environment),
    }
}

/// The OpenAI key: the one in the settings, else the one in the environment.
pub fn resolve_openai_api_key(configured: Option<String>, environment: Option<String>) -> (r:
    Option<String>)
    ensures
        json::opt_text(r) == openai_key(json::opt_text(configured), json::opt_text(environment)),
{
    match normalize_optional_string(configured) {
        Some(key) => Some(key),
        None => normalize_optional_string(environment),
    }
}

/// Whether settings that were read say where the provider is and which model to use.
pub fn validate_settings(settings: &LLMSettings) -> (r: Result<(), SettingsError>)
    ensures
        match r {
            Ok(_) => text::trimmed(settings@.base_url).len() > 0 && text::trimmed(
                settings@.model,
            ).len() > 0,
            Err(SettingsError::Blank(what)) => if text::trimmed(settings@.base_url).len() == 0 {
                what@ == "settings.llm.base_url"@
            } else {
                text::trimmed(settings@.model).len() == 0 && what@ == "settings.llm.model"@
            },
            Err(_) => false,
        },
{
    match validate_non_empty("settings.llm.base_url", settings.llm.base_url.as_str()) {
        Ok(_) => validate_non_empty("settings.llm.model", settings.llm.model.as_str()),
        Err(error) => Err(error),
    }
}

// ---------------------------------------------------------------------------
// The settings file
// ---------------------------------------------------------------------------

/// The settings file of a home directory.
pub open spec fn settings_path_in(home: Seq<char>) -> Seq<char> {
    path::path_join(home, SETTINGS_FILE@)
}

impl LLMClient {
    /// The settings file of the home directory, where that is known.
    pub fn home_settings_path(home: Option<&str>) -> (r: Result<String, SettingsError>)
        ensures
            match r {
                Ok(file) => home is Some && file@ == settings_path_in(home->0@),
                Err(error) => home is None && error is NoHome,
            },
    {
        match home {
            Some(home) => Ok(path::join_path(home, SETTINGS_FILE)),
            None => Err(SettingsError::NoHome),
        }
    }

    /// The settings file to read. `exists` tells whether the home directory has one.
    pub fn resolve_settings_path_with(home: Option<&str>, exists: bool) -> (r: Result<
        String,
        SettingsError,
    >)
        ensures
            match r {
                Ok(file) => home is Some && exists && file@ == settings_path_in(home->0@),
                Err(error) => !(home is Some && exists) && error is Missing,
            },
    {
        match home {
            Some(home) => {
                if exists {
                    return Ok(path::join_path(home, SETTINGS_FILE));
                }
            },
            None => {},
        }
        Err(SettingsError::Missing)
    }
}

/// What to do so that there is a settings file in today's form.
pub enum SettingsPlan {
    /// Migrate the file.
    Migrate(String),
    /// Write a new file. Its directory is made first, where it has one.
    Create { file: String, directory: Option<String> },
}

impl LLMClient {
    /// What to do so that there is a settings file in today's form. `exists` tells whether
    /// the home directory has one.
    pub fn ensure_settings_file_with(home: Option<&str>, exists: bool) -> (r: Result<
        SettingsPlan,
        SettingsError,
    >)
        ensures
            match r {
                Ok(SettingsPlan::Migrate(file)) => home is Some && exists && file@ == settings_path_in(
                    home->0@,
                ),
                Ok(SettingsPlan::Create { file, directory }) => home is Some && !exists && file@
                    == settings_path_in(home->0@) && json::opt_text(directory) == path::path_parent(
                    file@,
                ),
                Err(error) => home is None && error is NoHome,
            },
    {
        match LLMClient::resolve_settings_path_with(home, exists) {
            Ok(file) => Ok(SettingsPlan::Migrate(file)),
            Err(_) => match LLMClient::home_settings_path(home) {
                Ok(file) => {
                    let directory: Option<String> = path::parent(file.as_str());
                    Ok(SettingsPlan::Create { file, directory })
                },
                Err(error) => Err(error),
            },
        }
    }
}

/// The model that is asked for from now on. It must say something.
pub fn model_to_persist(model: &str) -> (r: Result<String, SettingsError>)
    ensures
        match r {
            Ok(name) => text::trimmed(model@).len() > 0 && name@ == text::trimmed(model@),
            Err(SettingsError::Blank(what)) => text::trimmed(model@).len() == 0 && what@
                == "model"@,
            Err(_) => false,
        },
{
    match validate_non_empty("model", model) {
        Ok(_) => Ok(text::trim(model)),
        Err(error) => Err(error),
    }
}

/// Settings with a model chosen. What a file said stays, but for the provider, the
/// model, a blank URL, and the key of Ollama, which takes none.
pub open spec fn settings_choosing(
    existing: Option<ConfigView>,
    provider: Provider,
    base_url: Seq<char>,
    model: Seq<char>,
) -> ConfigView {
    match existing {
        Some(config) => ConfigView {
            provider,
            base_url: if text::trimmed(config.base_url).len() == 0 {
                base_url
            } else {
                config.base_url
            },
            api_key: if provider == Provider::Ollama {
                None
            } else {
                config.api_key
            },
            model,
        },
        None => ConfigView { provider, base_url, api_key: None, model },
    }
}

/// The view of optional settings.
pub open spec fn opt_config(settings: Option<LLMSettings>) -> Option<ConfigView> {
    match settings {
        Some(settings) => Some(settings@),
        None => None,
    }
}

/// Settings with a model chosen. `existing` is what the settings file said.
pub fn settings_with_model(
    existing: Option<LLMSettings>,
    provider: Provider,
    base_url: &str,
    model: String,
) -> (r: LLMSettings)
    ensures
        r@ == settings_choosing(opt_config(existing), provider, base_url@, model@),
{
    match existing {
        Some(settings) => {
            let url: String = if text::is_blank(settings.llm.base_url.as_str()) {
                base_url.to_owned()
            } else {
                settings.llm.base_url
            };
            let api_key: Option<String> = match provider {
                Provider::Ollama => None,
                _ => settings.llm.api_key,
            };
            LLMSettings { llm: LLMConfig { provider, base_url: url, api_key, model } }
        },
        None => LLMSettings {
            llm: LLMConfig { provider, base_url: base_url.to_owned(), api_key: None, model },
        },
    }
}

/// Settings that were written with a model chosen are accepted when they are read,
/// wherever the client has a URL.
pub proof fn chosen_settings_are_valid(
    existing: Option<ConfigView>,
    provider: Provider,
    base_url: Seq<char>,
    model: Seq<char>,
)
    requires
        text::trimmed(base_url).len() > 0,
        text::trimmed(model).len() > 0,
    ensures
        text::trimmed(
            settings_choosing(existing, provider, base_url, text::trimmed(model)).base_url,
        ).len() > 0,
        text::trimmed(
            settings_choosing(existing, provider, base_url, text::trimmed(model)).model,
        ).len() > 0,
{
    text::trimming_settles(model);
}

/// Choosing a model a second time is the same as choosing it once.
pub proof fn choosing_again_changes_nothing(
    existing: Option<ConfigView>,
    provider: Provider,
    base_url: Seq<char>,
    model: Seq<char>,
)
    ensures
        settings_choosing(
            Some(settings_choosing(existing, provider, base_url, model)),
            provider,
            base_url,
            model,
        ) == settings_choosing(existing, provider, base_url, model),
{
}

// ---------------------------------------------------------------------------
// Laws
// ---------------------------------------------------------------------------

/// What the settings are made of, unless a file says otherwise.
pub proof fn defaults_are_as_documented()
    ensures
        DEFAULT_OLLAMA_URL@ == "http://localhost:11434"@,
        DEFAULT_OLLAMA_MODEL@ == "qwen3.5:4b"@,
        OPENAI_API_KEY_ENV@ == "OPENAI_API_KEY"@,
        SETTINGS_FILE@ == ".localcoder/settings.json"@,
{
}

/// A configuration says what it holds, and settings say what their configuration does.
pub proof fn configurations_say_what_they_hold(settings: LLMSettings)
    ensures
        settings@.provider == settings.llm.provider,
        settings@.base_url == settings.llm.base_url@,
        settings@.model == settings.llm.model@,
        settings.llm.api_key matches Some(key) ==> settings@.api_key == Some(key@),
        settings.llm.api_key is None ==> settings@.api_key is None,
        settings.llm@ == settings@,
        opt_config(Some(settings)) == Some(settings@),
        opt_config(None) is None,
{
}

/// An error says what is missing.
pub proof fn errors_say_what_is_missing(label: String)
    ensures
        SettingsError::Missing.says() == "missing $HOME/.localcoder/settings.json"@,
        SettingsError::NoHome.says() == "$HOME is not set"@,
        SettingsError::Blank(label).says() == label@ + " must not be empty"@,
{
}

/// Each provider has its own name, and no other text names one.
pub proof fn providers_have_their_own_names(value: Seq<char>)
    ensures
        provider_key(Provider::Ollama) == "ollama"@,
        provider_key(Provider::LMStudio) == "lmstudio"@,
        provider_key(Provider::OpenAI) == "openai"@,
        named_provider(value) == Some(Provider::Ollama) <==> value == "ollama"@,
        named_provider(value) == Some(Provider::LMStudio) <==> value == "lmstudio"@,
        named_provider(value) == Some(Provider::OpenAI) <==> value == "openai"@,
{
    lemma_names_differ();
}

/// White space around a URL for LM Studio, slashes at its end and the version of the
/// interface are left out, and nothing else is: what stands before them stays as it is.
pub proof fn lmstudio_addresses_lose_nothing_else(
    front: Seq<char>,
    url: Seq<char>,
    count: nat,
    end: Seq<char>,
)
    requires
        forall|i: int| 0 <= i < front.len() ==> text::is_space(#[trigger] front[i]),
        forall|i: int| 0 <= i < end.len() ==> text::is_space(#[trigger] end[i]),
        url.len() > 0,
        !text::is_space(url[0]),
        !text::is_space(url.last()),
    ensures
        ({
            let slashes = Seq::new(count, |i: int| '/');
            &&& lmstudio_base(front + (url + "/v1"@ + slashes) + end) == url
            &&& lmstudio_base(front + (url + "/api/v0"@ + slashes) + end) == url
            &&& url.last() != '/' && !text::ends_with(url, "/v1"@) && !text::ends_with(
                url,
                "/api/v0"@,
            ) ==> lmstudio_base(front + (url + slashes) + end) == url
        }),
{
    reveal_strlit("/v1");
    reveal_strlit("/api/v0");
    let slashes = Seq::new(count, |i: int| '/');
    let a = url + "/v1"@;
    let b = url + "/api/v0"@;
    lemma_address_read(front, a, count, end);
    lemma_address_read(front, b, count, end);
    assert(a.subrange(url.len() as int, a.len() as int) =~= "/v1"@);
    assert(a.take(a.len() - 3) =~= url);
    assert(b.subrange(url.len() as int, b.len() as int) =~= "/api/v0"@);
    assert(b.take(b.len() - 7) =~= url);
    assert(b.subrange(b.len() - 3, b.len() as int)[2] == '0');
    if url.last() != '/' {
        lemma_address_read(front, url, count, end);
    }
}

proof fn lemma_address_read(front: Seq<char>, url: Seq<char>, count: nat, end: Seq<char>)
    requires
        forall|i: int| 0 <= i < front.len() ==> text::is_space(#[trigger] front[i]),
        forall|i: int| 0 <= i < end.len() ==> text::is_space(#[trigger] end[i]),
        url.len() > 0,
        !text::is_space(url[0]),
        !text::is_space(url.last()),
        url.last() != '/',
    ensures
        text::without_trailing(
            text::trimmed(front + (url + Seq::new(count, |i: int| '/')) + end),
            '/',
        ) == url,
{
    let slashes = Seq::new(count, |i: int| '/');
    let whole = url + slashes;
    assert(whole[0] == url[0]);
    if count > 0 {
        assert(whole.last() == '/');
    } else {
        assert(whole =~= url);
    }
    text::trimming_takes_white_space_alone(front, whole, end);
    text::trailing_runs_are_dropped(url, '/', count);
}

/// The port decides who listens. Where it is none of the usual ones, the name or the port
/// in the URL does, and otherwise it is OpenAI.
pub proof fn ports_and_names_tell_who_listens(port: Option<u16>, url: Seq<char>, base_url: Seq<char>)
    ensures
        provider_at(Some(11434), url) == Provider::Ollama,
        provider_at(Some(1234), url) == Provider::LMStudio,
        port != Some(11434u16) && port != Some(1234u16) ==> {
            let ollama = text::contains(url, "11434"@) || text::contains(url, "ollama"@);
            let lmstudio = text::contains(url, "1234"@) || text::contains(url, "lmstudio"@);
            &&& provider_at(port, url) == Provider::Ollama <==> ollama
            &&& provider_at(port, url) == Provider::LMStudio <==> !ollama && lmstudio
            &&& provider_at(port, url) == Provider::OpenAI <==> !ollama && !lmstudio
        },
        inferred_provider(base_url) == provider_at(
            url_port(lmstudio_base(base_url)),
            lmstudio_base(base_url),
        ),
{
}

/// A value loses the white space around it and nothing else; a blank one says nothing.
pub proof fn values_lose_white_space_alone(front: Seq<char>, s: Seq<char>, end: Seq<char>)
    requires
        forall|i: int| 0 <= i < front.len() ==> text::is_space(#[trigger] front[i]),
        forall|i: int| 0 <= i < end.len() ==> text::is_space(#[trigger] end[i]),
        s.len() > 0 ==> !text::is_space(s[0]) && !text::is_space(s.last()),
    ensures
        normalized_text(Some(front + s + end)) == (if s.len() > 0 {
            Some(s)
        } else {
            None
        }),
        normalized_text(None) is None,
{
    text::trimming_takes_white_space_alone(front, s, end);
}

/// The key of the settings comes first; that of the environment is taken only where the
/// settings hold none. Either is taken without the white space around it.
pub proof fn keys_of_the_settings_come_first(
    configured: Option<Seq<char>>,
    environment: Option<Seq<char>>,
)
    ensures
        configured matches Some(key) ==> (text::trimmed(key).len() > 0 ==> openai_key(
            configured,
            environment,
        ) == Some(text::trimmed(key))),
        configured is None || text::trimmed(configured->0).len() == 0 ==> openai_key(
            configured,
            environment,
        ) == (match environment {
            Some(key) => if text::trimmed(key).len() > 0 {
                Some(text::trimmed(key))
            } else {
                None
            },
            None => None,
        }),
{
}

/// The settings file stands in its directory below the home directory.
pub proof fn settings_stand_below_home(home: Seq<char>)
    ensures
        home.len() > 0 && home.last() != '/' ==> settings_path_in(home) == home
            + "/.localcoder/settings.json"@,
        settings_path_in(home.push('/')) == home + "/.localcoder/settings.json"@,
{
    reveal_strlit(".localcoder/settings.json");
    reveal_strlit("/.localcoder/settings.json");
    let file = ".localcoder/settings.json"@;
    assert(file[0] == '.');
    path::joined_paths_stand_behind_their_base(home, file);
    assert(seq!['/'] + file =~= "/.localcoder/settings.json"@);
    assert(home + seq!['/'] + file =~= home + (seq!['/'] + file));
}

/// A chosen model is written as it is given, with the provider. What the file said of the
/// URL and the key stays, but a blank URL gives way and Ollama gets no key.
pub proof fn chosen_settings_keep_the_rest(
    existing: Option<ConfigView>,
    provider: Provider,
    base_url: Seq<char>,
    model: Seq<char>,
)
    ensures
        ({
            let chosen = settings_choosing(existing, provider, base_url, model);
            &&& chosen.provider == provider
            &&& chosen.model == model
            &&& existing is None ==> chosen.base_url == base_url && chosen.api_key is None
            &&& existing matches Some(config) ==> {
                &&& text::trimmed(config.base_url).len() > 0 ==> chosen.base_url == config.base_url
                &&& text::trimmed(config.base_url).len() == 0 ==> chosen.base_url == base_url
                &&& provider == Provider::Ollama ==> chosen.api_key is None
                &&& provider != Provider::Ollama ==> chosen.api_key == config.api_key
            }
        }),
{
}

/// The URL at which LM Studio is addressed is the given one without white space around it
/// and slashes at its end, and without one version of the interface.
pub proof fn lmstudio_addresses_lose_one_version(base_url: Seq<char>)
    ensures
        ({
            let url = text::without_trailing(text::trimmed(base_url), '/');
            &&& text::ends_with(url, "/v1"@) ==> url == lmstudio_base(base_url) + "/v1"@
            &&& !text::ends_with(url, "/v1"@) && text::ends_with(url, "/api/v0"@) ==> url
                == lmstudio_base(base_url) + "/api/v0"@
            &&& !text::ends_with(url, "/v1"@) && !text::ends_with(url, "/api/v0"@) ==> url
                == lmstudio_base(base_url)
        }),
{
    let url = text::without_trailing(text::trimmed(base_url), '/');
    if text::ends_with(url, "/v1"@) {
        let n = "/v1"@.len();
        assert(url =~= url.take(url.len() - n) + url.subrange(url.len() - n, url.len() as int));
    } else if text::ends_with(url, "/api/v0"@) {
        let n = "/api/v0"@.len();
        assert(url =~= url.take(url.len() - n) + url.subrange(url.len() - n, url.len() as int));
    }
}

}
