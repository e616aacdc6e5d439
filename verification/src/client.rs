//! The client of a model: what it asks, whom and how.
use crate::json;
use crate::json::{Json, JsonView};
use crate::messages;
use crate::settings;
use crate::settings::{ConfigView, LLMSettings, Provider};
use crate::stream;
use crate::stream::OllamaChatResponse;
use crate::text;
use vstd::prelude::*;
use vstd::string::*;

verus! {

/// How many tokens an answer may have, unless set otherwise.
pub const DEFAULT_MAX_TOKENS: u32 = 4096;

/// How many tokens a summary may have.
pub const SUMMARY_MAX_TOKENS: u32 = 1024;

/// The client of a model.
#[derive(Debug)]
pub struct LLMClient {
    pub provider: Provider,
    pub base_url: String,
    pub api_key: Option<String>,
    pub model: String,
    pub max_tokens: u32,
}

/// What a client is set to.
pub struct ClientView {
    pub provider: Provider,
    pub base_url: Seq<char>,
    pub api_key: Option<Seq<char>>,
    pub model: Seq<char>,
    pub max_tokens: u32,
}

impl View for LLMClient {
    type V = ClientView;

    open spec fn view(&self) -> ClientView {
        ClientView {
            provider: self.provider,
            base_url: self.base_url@,
            api_key: json::opt_text(self.api_key),
            model: self.model@,
            max_tokens: self.max_tokens,
        }
    }
}

impl Clone for LLMClient {
    fn clone(&self) -> (r: Self)
        ensures
            r@ == self@,
    {
        LLMClient {
            provider: self.provider,
            base_url: self.base_url.clone(),
            api_key: match &self.api_key {
                Some(key) => Some(key.clone()),
                None => None,
            },
            model: self.model.clone(),
            max_tokens: self.max_tokens,
        }
    }
}

/// Why a provider was not asked, or did not answer as it should.
#[derive(Debug)]
pub enum ClientError {
    /// OpenAI is not asked without a key.
    MissingKey,
    /// The provider answered with an error status.
    Refused { provider: Provider, status: String, body: String },
    /// The provider answered without a choice.
    NoChoices(Provider),
}

impl ClientError {
    /// What the error says.
    pub open spec fn says(self) -> Seq<char> {
        match self {
            ClientError::MissingKey => "missing OpenAI API key"@,
            ClientError::Refused { provider, status, body } => provider_title(provider)
                + " returned error "@ + status@ + ": "@ + body@,
            ClientError::NoChoices(provider) => provider_title(provider) + " returned no choices"@,
        }
    }

    /// What the error says.
    pub fn message(&self) -> (r: String)
        ensures
            r@ == self.says(),
    {
        match self {
            ClientError::MissingKey => "missing OpenAI API key".to_owned(),
            ClientError::Refused { provider, status, body } => {
                let mut out: String = title_of(*provider).to_owned();
                out.append(" returned error ");
                out.append(status.as_str());
                out.append(": ");
                out.append(body.as_str());
                out
            },
            ClientError::NoChoices(provider) => {
                let mut out: String = title_of(*provider).to_owned();
                out.append(" returned no choices");
                out
            },
        }
    }
}

/// The name of a provider for people.
pub open spec fn provider_title(provider: Provider) -> Seq<char> {
    match provider {
        Provider::Ollama => "Ollama"@,
        Provider::LMStudio => "LM Studio"@,
        Provider::OpenAI => "OpenAI"@,
    }
}

/// The name of a provider for people.
fn title_of(provider: Provider) -> (r: &'static str)
    ensures
        r@ == provider_title(provider),
{
    match provider {
        Provider::Ollama => "Ollama",
        Provider::LMStudio => "LM Studio",
        Provider::OpenAI => "OpenAI",
    }
}

/// The client that settings ask for. `environment` is the OpenAI key of the
/// environment.
pub open spec fn client_for(config: ConfigView, environment: Option<Seq<char>>) -> ClientView {
    ClientView {
        provider: config.provider,
        base_url: match config.provider {
            Provider::LMStudio => settings::lmstudio_base(config.base_url),
            _ => text::without_trailing(config.base_url, '/'),
        },
        api_key: match config.provider {
            Provider::OpenAI => settings::openai_key(config.api_key, environment),
            Provider::LMStudio => match config.api_key {
                Some(key) => if text::trimmed(key).len() > 0 {
                    Some(key)
                } else {
                    None
                },
                None => None,
            },
            Provider::Ollama => None,
        },
        model: config.model,
        max_tokens: DEFAULT_MAX_TOKENS,
    }
}

/// Where chat completions are asked for.
pub open spec fn completions_url(client: ClientView) -> Seq<char> {
    match client.provider {
        Provider::LMStudio => client.base_url + "/v1/chat/completions"@,
        _ => client.base_url + "/chat/completions"@,
    }
}

/// Where the models are listed.
pub open spec fn models_url(client: ClientView) -> Seq<char> {
    match client.provider {
        Provider::Ollama => client.base_url + "/api/tags"@,
        Provider::LMStudio => client.base_url + "/api/v1/models"@,
        Provider::OpenAI => client.base_url + "/models"@,
    }
}

/// The key that a request carries: nothing, or the reason why it is not made.
pub open spec fn bearer_key(client: ClientView) -> Result<Option<Seq<char>>, ()> {
    match client.provider {
        Provider::Ollama => Ok(None),
        Provider::LMStudio => Ok(client.api_key),
        Provider::OpenAI => match client.api_key {
            Some(key) => Ok(Some(key)),
            None => Err(()),
        },
    }
}

/// The name under which a provider takes the limit of tokens.
pub open spec fn token_limit_key(provider: Provider) -> Seq<char> {
    match provider {
        Provider::OpenAI => "max_completion_tokens"@,
        _ => "max_tokens"@,
    }
}

/// A request with the limit of tokens.
pub open spec fn with_token_limit(body: JsonView, provider: Provider, max_tokens: u32) -> JsonView {
    json::with_member(
        body,
        token_limit_key(provider),
        JsonView::Number(json::json_integer(max_tokens as i64)),
    )
}

/// A request with the limit of tokens, for Ollama.
pub open spec fn with_predict_limit(body: JsonView, max_tokens: u32) -> JsonView {
    json::with_member(
        body,
        "options"@,
        json::with_member(
            json::empty_object(),
            "num_predict"@,
            JsonView::Number(json::json_integer(max_tokens as i64)),
        ),
    )
}

/// A request to a model about messages.
pub open spec fn request(model: Seq<char>, messages: Seq<JsonView>, stream: bool) -> JsonView {
    json::with_member(
        json::with_member(
            json::with_member(json::empty_object(), "model"@, JsonView::Text(model)),
            "messages"@,
            JsonView::List(messages),
        ),
        "stream"@,
        JsonView::Bool(stream),
    )
}

/// A prompt as messages.
pub open spec fn prompt_messages(prompt: Seq<char>) -> Seq<JsonView> {
    seq![messages::spoken("user"@, JsonView::Text(prompt))]
}

/// The chat request to Ollama.
pub open spec fn ollama_chat_request(
    client: ClientView,
    messages: Seq<JsonView>,
    tools: Seq<JsonView>,
) -> JsonView {
    let asked = request(client.model, messages, true);
    with_predict_limit(
        if tools.len() == 0 {
            asked
        } else {
            json::with_member(asked, "tools"@, JsonView::List(tools))
        },
        client.max_tokens,
    )
}

/// The chat request to an OpenAI-compatible server.
pub open spec fn openai_chat_request(
    client: ClientView,
    messages: Seq<JsonView>,
    tools: Seq<JsonView>,
) -> JsonView {
    let asked = request(client.model, messages::openai_messages(messages), true);
    with_token_limit(
        if tools.len() == 0 {
            asked
        } else {
            json::with_member(
                json::with_member(asked, "tools"@, JsonView::List(tools)),
                "tool_choice"@,
                JsonView::Text("auto"@),
            )
        },
        client.provider,
        client.max_tokens,
    )
}

/// The chat request to the provider of a client.
pub open spec fn chat_request(
    client: ClientView,
    messages: Seq<JsonView>,
    tools: Seq<JsonView>,
) -> JsonView {
    match client.provider {
        Provider::Ollama => ollama_chat_request(client, messages, tools),
        _ => openai_chat_request(client, messages, tools),
    }
}

/// The request that has a prompt completed.
pub open spec fn prompt_request(
    client: ClientView,
    prompt: Seq<char>,
    max_tokens: u32,
) -> JsonView {
    let asked = request(client.model, prompt_messages(prompt), false);
    match client.provider {
        Provider::Ollama => with_predict_limit(asked, max_tokens),
        _ => with_token_limit(asked, client.provider, max_tokens),
    }
}

/// Where a client asks for chats and completions.
pub open spec fn chat_url(client: ClientView) -> Seq<char> {
    match client.provider {
        Provider::Ollama => client.base_url + "/api/chat"@,
        _ => completions_url(client),
    }
}

/// Puts the limit of tokens into a request. What is no object stays as it is.
pub fn insert_openai_compatible_token_limit(body: &mut Json, provider: Provider, max_tokens: u32)
    ensures
        final(body)@ == with_token_limit(old(body)@, provider, max_tokens),
{
    let key: &'static str = match provider {
        Provider::OpenAI => "max_completion_tokens",
        Provider::LMStudio | Provider::Ollama => "max_tokens",
    };
    let mut document: Json = Json::Null;
    core::mem::swap(body, &mut document);
    *body = document.with(key, Json::integer(max_tokens as i64));
}

/// The documents of a list, copied.
fn copy_list(items: &Vec<Json>) -> (r: Vec<Json>)
    ensures
        json::list_view(r@) == json::list_view(items@),
{
    let mut copies: Vec<Json> = Vec::new();
    let mut i: usize = 0;
    assert(items@.take(0) =~= Seq::<Json>::empty());
    while i < items.len()
        invariant
            i <= items@.len(),
            json::list_view(copies@) == json::list_view(items@.take(i as int)),
        decreases items@.len() - i,
    {
        let copy: Json = items[i].clone();
        proof {
            json::lemma_list_view_push(copies@, copy);
            json::lemma_list_view_push(items@.take(i as int), items@[i as int]);
            assert(items@.take(i + 1) =~= items@.take(i as int).push(items@[i as int]));
        }
        copies.push(copy);
        i += 1;
    }
    assert(items@.take(items@.len() as int) =~= items@);
    copies
}

/// A text with another one behind it.
fn followed_by(s: &String, tail: &str) -> (r: String)
    ensures
        r@ == s@ + tail@,
{
    let mut out: String = s.clone();
    out.append(tail);
    out
}

impl LLMClient {
    /// The client that settings ask for. `environment` is the OpenAI key of the
    /// environment.
    pub fn from_settings(settings: LLMSettings, environment: Option<String>) -> (r: LLMClient)
        ensures
            r@ == client_for(settings@, json::opt_text(environment)),
    {
        let config: settings::LLMConfig = settings.llm;
        match config.provider {
            Provider::OpenAI => LLMClient {
                provider: Provider::OpenAI,
                base_url: text::trim_end_matches(config.base_url.as_str(), '/'),
                api_key: settings::resolve_openai_api_key(config.api_key, environment),
                model: config.model,
                max_tokens: DEFAULT_MAX_TOKENS,
            },
            Provider::LMStudio => LLMClient {
                provider: Provider::LMStudio,
                base_url: settings::normalize_lmstudio_base_url(config.base_url.as_str()),
                api_key: match config.api_key {
                    Some(key) => if text::is_blank(key.as_str()) {
                        None
                    } else {
                        Some(key)
                    },
                    None => None,
                },
                model: config.model,
                max_tokens: DEFAULT_MAX_TOKENS,
            },
            Provider::Ollama => LLMClient {
                provider: Provider::Ollama,
                base_url: text::trim_end_matches(config.base_url.as_str(), '/'),
                api_key: None,
                model: config.model,
                max_tokens: DEFAULT_MAX_TOKENS,
            },
        }
    }

    /// The name of the provider for people.
    pub fn provider_name(&self) -> (r: &'static str)
        ensures
            r@ == provider_title(self@.provider),
    {
        title_of(self.provider)
    }

    /// Chooses the model.
    pub fn set_model(&mut self, model: String)
        ensures
            final(self)@ == (ClientView { model: model@, ..old(self)@ }),
    {
        self.model = model;
    }

    /// Sets how many tokens an answer may have.
    pub fn set_max_tokens(&mut self, max_tokens: u32)
        ensures
            final(self)@ == (ClientView { max_tokens, ..old(self)@ }),
    {
        self.max_tokens = max_tokens;
    }

    /// The model that is asked.
    pub fn model(&self) -> (r: &str)
        ensures
            r@ == self@.model,
    {
        self.model.as_str()
    }

    /// Where the provider is.
    pub fn base_url(&self) -> (r: &str)
        ensures
            r@ == self@.base_url,
    {
        self.base_url.as_str()
    }

    /// How many tokens an answer may have.
    pub fn max_tokens(&self) -> (r: u32)
        ensures
            r == self@.max_tokens,
    {
        self.max_tokens
    }

    /// Where chat completions are asked for.
    pub fn chat_completions_url(&self) -> (r: String)
        ensures
            r@ == completions_url(self@),
    {
        match self.provider {
            Provider::LMStudio => followed_by(&self.base_url, "/v1/chat/completions"),
            Provider::Ollama | Provider::OpenAI => followed_by(&self.base_url, "/chat/completions"),
        }
    }

    /// Where the client asks for chats and completions.
    pub fn chat_url(&self) -> (r: String)
        ensures
            r@ == chat_url(self@),
    {
        match self.provider {
            Provider::Ollama => followed_by(&self.base_url, "/api/chat"),
            Provider::LMStudio | Provider::OpenAI => self.chat_completions_url(),
        }
    }

    /// Where the models are listed.
    pub fn models_url(&self) -> (r: String)
        ensures
            r@ == models_url(self@),
    {
        match self.provider {
            Provider::Ollama => followed_by(&self.base_url, "/api/tags"),
            Provider::LMStudio => followed_by(&self.base_url, "/api/v1/models"),
            Provider::OpenAI => followed_by(&self.base_url, "/models"),
        }
    }

    /// The key that a request carries, if any. OpenAI is not asked without one.
    pub fn authorization(&self) -> (r: Result<Option<String>, ClientError>)
        ensures
            match r {
                Ok(key) => bearer_key(self@) == Ok::<Option<Seq<char>>, ()>(json::opt_text(key)),
                Err(error) => bearer_key(self@) is Err && error is MissingKey,
            },
    {
        let key: Option<String> = match &self.api_key {
            Some(key) => Some(key.clone()),
            None => None,
        };
        match self.provider {
            Provider::Ollama => Ok(None),
            Provider::LMStudio => Ok(key),
            Provider::OpenAI => match key {
                Some(key) => Ok(Some(key)),
                None => Err(ClientError::MissingKey),
            },
        }
    }

    /// The start of a request about messages.
    fn request_body(&self, messages: Vec<Json>, stream: bool) -> (r: Json)
        ensures
            r@ == request(self@.model, json::list_view(messages@), stream),
    {
        Json::object().with("model", Json::Text(self.model.clone())).with(
            "messages",
            Json::List(messages),
        ).with("stream", Json::Bool(stream))
    }

    /// The chat request to the provider.
    pub fn chat_body(&self, messages: &Vec<Json>, tools: &Vec<Json>) -> (r: Json)
        ensures
            r@ == chat_request(self@, json::list_view(messages@), json::list_view(tools@)),
    {
        proof {
            json::lemma_list_view(tools@);
        }
        match self.provider {
            Provider::Ollama => {
                let asked: Json = self.request_body(copy_list(messages), true);
                let body: Json = if tools.len() == 0 {
                    asked
                } else {
                    asked.with("tools", Json::List(copy_list(tools)))
                };
                body.with(
                    "options",
                    Json::object().with("num_predict", Json::integer(self.max_tokens as i64)),
                )
            },
            Provider::LMStudio | Provider::OpenAI => {
                let mapped: Vec<Json> = messages::map_messages_for_openai(messages);
                let asked: Json = self.request_body(mapped, true);
                let mut body: Json = if tools.len() == 0 {
                    asked
                } else {
                    asked.with("tools", Json::List(copy_list(tools))).with(
                        "tool_choice",
                        Json::text("auto"),
                    )
                };
                insert_openai_compatible_token_limit(&mut body, self.provider, self.max_tokens);
                body
            },
        }
    }

    /// The request that has a prompt completed.
    pub fn prompt_body(&self, prompt: &str, max_tokens: u32) -> (r: Json)
        ensures
            r@ == prompt_request(self@, prompt@, max_tokens),
    {
        let message: Json = Json::object().with("role", Json::text("user")).with(
            "content",
            Json::text(prompt),
        );
        let mut said: Vec<Json> = Vec::new();
        proof {
            json::lemma_list_view_push(said@, message);
            assert(json::list_view(said@.push(message)) =~= prompt_messages(prompt@));
        }
        said.push(message);
        let mut body: Json = self.request_body(said, false);
        match self.provider {
            Provider::Ollama => body.with(
                "options",
                Json::object().with("num_predict", Json::integer(max_tokens as i64)),
            ),
            Provider::LMStudio | Provider::OpenAI => {
                insert_openai_compatible_token_limit(&mut body, self.provider, max_tokens);
                body
            },
        }
    }

    /// What an error answer of the provider is reported as.
    pub fn refused(&self, status: String, body: String) -> (r: ClientError)
        ensures
            r == (ClientError::Refused { provider: self.provider, status, body }),
    {
        ClientError::Refused { provider: self.provider, status, body }
    }

    /// The completion in the answer of an OpenAI-compatible server: its first choice.
    pub fn first_choice(&self, response: OpenAIChatResponse) -> (r: Result<String, ClientError>)
        ensures
            match r {
                Ok(content) => response.choices@.len() > 0 && content@ == stream::or_empty(
                    response.choices@[0].message.content,
                ),
                Err(error) => response.choices@.len() == 0 && error == ClientError::NoChoices(
                    self.provider,
                ),
            },
    {
        if response.choices.len() == 0 {
            return Err(ClientError::NoChoices(self.provider));
        }
        match &response.choices[0].message.content {
            Some(content) => Ok(content.clone()),
            None => {
                let nothing: String = String::new();
                assert(nothing@ =~= Seq::<char>::empty());
                Ok(nothing)
            },
        }
    }
}

/// The message of a choice.
pub struct OpenAIMessage {
    pub content: Option<String>,
}

/// One of the answers of an OpenAI-compatible server.
pub struct OpenAIChoice {
    pub message: OpenAIMessage,
}

/// The answer of an OpenAI-compatible server.
pub struct OpenAIChatResponse {
    pub choices: Vec<OpenAIChoice>,
}

/// The completion in the answer of Ollama.
pub fn ollama_completion(response: OllamaChatResponse) -> (r: String)
    ensures
        r@ == stream::or_empty(response.message.content),
{
    match response.message.content {
        Some(content) => content,
        None => {
            let nothing: String = String::new();
            assert(nothing@ =~= Seq::<char>::empty());
            nothing
        },
    }
}

/// The prompt that has a conversation summed up.
pub open spec fn summary_request(history: Seq<char>) -> Seq<char> {
    "以下是一段对话历史，请生成简洁摘要，保留：\n1. 已完成的任务和结果\n2. 重要文件修改\n3. 用户的关键偏好和决定\n4. 未完成的任务\n\n对话历史：\n"@
        + history
}

/// The prompt that has a conversation summed up.
pub fn summary_prompt(history: &str) -> (r: String)
    ensures
        r@ == summary_request(history@),
{
    let mut out: String =
        "以下是一段对话历史，请生成简洁摘要，保留：\n1. 已完成的任务和结果\n2. 重要文件修改\n3. 用户的关键偏好和决定\n4. 未完成的任务\n\n对话历史：\n".to_owned();
    out.append(history);
    out
}

// ---------------------------------------------------------------------------
// Laws
// ---------------------------------------------------------------------------

/// Nothing that the settings or the environment hold makes a request to Ollama carry a
/// key.
pub proof fn ollama_is_asked_without_a_key(config: ConfigView, environment: Option<Seq<char>>)
    requires
        config.provider == Provider::Ollama,
    ensures
        bearer_key(client_for(config, environment)) == Ok::<Option<Seq<char>>, ()>(None),
{
}

/// OpenAI is asked with a key that is not blank and has no white space around it, or
/// not at all: there is no such key exactly where both the settings and the environment
/// hold none.
pub proof fn openai_is_asked_with_a_key(config: ConfigView, environment: Option<Seq<char>>)
    requires
        config.provider == Provider::OpenAI,
    ensures
        match bearer_key(client_for(config, environment)) {
            Ok(Some(key)) => key.len() > 0 && text::trimmed(key) == key,
            Ok(None) => false,
            Err(_) => settings::normalized_text(config.api_key) is None && settings::normalized_text(
                environment,
            ) is None,
        },
{
    if let Some(key) = config.api_key {
        text::trimming_settles(key);
    }
    if let Some(key) = environment {
        text::trimming_settles(key);
    }
}

proof fn lemma_without_trailing(s: Seq<char>, c: char)
    ensures
        text::without_trailing(s, c).len() > 0 ==> text::without_trailing(s, c).last() != c,
    decreases s.len(),
{
    if s.len() > 0 && s.last() == c {
        lemma_without_trailing(s.drop_last(), c);
    }
}

/// The base URL of Ollama and OpenAI does not end with a slash, so that a path can be
/// put behind it.
pub proof fn base_urls_end_without_a_slash(config: ConfigView, environment: Option<Seq<char>>)
    requires
        config.provider != Provider::LMStudio,
    ensures
        ({
            let url = client_for(config, environment).base_url;
            url.len() > 0 ==> url.last() != '/'
        }),
{
    lemma_without_trailing(config.base_url, '/');
}

/// The limit of tokens is the only member that changes in a request, and it is set under
/// the name that the provider knows.
pub proof fn token_limit_changes_one_member(
    body: JsonView,
    provider: Provider,
    max_tokens: u32,
    key: Seq<char>,
)
    requires
        body is Object,
    ensures
        json::member(with_token_limit(body, provider, max_tokens), token_limit_key(provider))
            == Some(JsonView::Number(json::json_integer(max_tokens as i64))),
        key != token_limit_key(provider) ==> json::member(
            with_token_limit(body, provider, max_tokens),
            key,
        ) == json::member(body, key),
{
}

proof fn lemma_request_names_differ()
    ensures
        "model"@ != "messages"@,
        "model"@ != "stream"@,
        "model"@ != "tools"@,
        "model"@ != "tool_choice"@,
        "model"@ != "options"@,
        "model"@ != "max_tokens"@,
        "model"@ != "max_completion_tokens"@,
        "messages"@ != "stream"@,
        "messages"@ != "tools"@,
        "messages"@ != "tool_choice"@,
        "messages"@ != "options"@,
        "messages"@ != "max_tokens"@,
        "messages"@ != "max_completion_tokens"@,
        "stream"@ != "tools"@,
        "stream"@ != "tool_choice"@,
        "stream"@ != "options"@,
        "stream"@ != "max_tokens"@,
        "stream"@ != "max_completion_tokens"@,
        "tools"@ != "tool_choice"@,
        "tools"@ != "options"@,
        "tools"@ != "max_tokens"@,
        "tools"@ != "max_completion_tokens"@,
{
    reveal_strlit("model");
    reveal_strlit("messages");
    reveal_strlit("stream");
    reveal_strlit("tools");
    reveal_strlit("tool_choice");
    reveal_strlit("options");
    reveal_strlit("max_tokens");
    reveal_strlit("max_completion_tokens");
    assert("model"@.len() == 5);
    assert("tools"@.len() == 5);
    assert("stream"@.len() == 6);
    assert("options"@.len() == 7);
    assert("messages"@.len() == 8);
    assert("max_tokens"@.len() == 10);
    assert("tool_choice"@.len() == 11);
    assert("max_completion_tokens"@.len() == 21);
    assert("model"@[0] != "tools"@[0]);
}

/// A chat request names the model, asks for a stream, holds one message for each message
/// of the conversation, and holds the tools exactly where there are some.
pub proof fn chat_requests_hold_the_conversation(
    client: ClientView,
    messages: Seq<JsonView>,
    tools: Seq<JsonView>,
)
    ensures
        ({
            let body = chat_request(client, messages, tools);
            &&& json::text_member(body, "model"@) == Some(client.model)
            &&& json::member(body, "stream"@) == Some(JsonView::Bool(true))
            &&& json::member(body, "messages"@) matches Some(JsonView::List(sent))
            &&& sent.len() == messages.len()
            &&& json::member(body, "tools"@) == (if tools.len() == 0 {
                None
            } else {
                Some(JsonView::List(tools))
            })
        }),
{
    lemma_request_names_differ();
}

/// How many tokens answers and summaries may have.
pub proof fn token_limits_are_as_documented()
    ensures
        DEFAULT_MAX_TOKENS == 4096,
        SUMMARY_MAX_TOKENS == 1024,
{
}

/// A client says what it holds.
pub proof fn clients_say_what_they_hold(client: LLMClient)
    ensures
        client@.provider == client.provider,
        client@.base_url == client.base_url@,
        client@.model == client.model@,
        client@.max_tokens == client.max_tokens,
        client.api_key matches Some(key) ==> client@.api_key == Some(key@),
        client.api_key is None ==> client@.api_key is None,
{
}

/// Providers are named to people.
pub proof fn providers_are_named_to_people()
    ensures
        provider_title(Provider::Ollama) == "Ollama"@,
        provider_title(Provider::LMStudio) == "LM Studio"@,
        provider_title(Provider::OpenAI) == "OpenAI"@,
{
}

/// An error says who refused, with the status and the body of the answer as they are.
pub proof fn errors_say_who_refused(provider: Provider, status: String, body: String)
    ensures
        ClientError::MissingKey.says() == "missing OpenAI API key"@,
        (ClientError::Refused { provider, status, body }).says() == provider_title(provider)
            + " returned error "@ + status@ + ": "@ + body@,
        ClientError::NoChoices(provider).says() == provider_title(provider)
            + " returned no choices"@,
{
}

/// A client has the provider and the model of the settings, as they are, and the default
/// limit of tokens. From its URL nothing but slashes at the end is taken; that of LM Studio
/// is brought to the form in which it is addressed.
pub proof fn clients_follow_the_settings(
    config: ConfigView,
    environment: Option<Seq<char>>,
    url: Seq<char>,
    count: nat,
)
    requires
        config.base_url == url + Seq::new(count, |i: int| '/'),
        url.len() > 0 ==> url.last() != '/',
    ensures
        ({
            let client = client_for(config, environment);
            &&& client.provider == config.provider
            &&& client.model == config.model
            &&& client.max_tokens == 4096
            &&& config.provider != Provider::LMStudio ==> client.base_url == url
            &&& config.provider == Provider::LMStudio ==> client.base_url
                == settings::lmstudio_base(config.base_url)
        }),
{
    text::trailing_runs_are_dropped(url, '/', count);
}

/// A client of LM Studio has the key of the settings as it is, unless it is blank. One of
/// OpenAI has the key of the settings or, where they hold none, that of the environment.
pub proof fn clients_hold_the_key(config: ConfigView, environment: Option<Seq<char>>)
    ensures
        ({
            let key = client_for(config, environment).api_key;
            &&& config.provider == Provider::Ollama ==> key is None
            &&& config.provider == Provider::LMStudio ==> key == (match config.api_key {
                Some(own) => if text::trimmed(own).len() > 0 {
                    Some(own)
                } else {
                    None
                },
                None => None,
            })
            &&& config.provider == Provider::OpenAI ==> key == settings::openai_key(
                config.api_key,
                environment,
            )
        }),
{
}

/// A request carries the key of the client as it is; one to Ollama carries none.
pub proof fn requests_carry_the_key(client: ClientView)
    ensures
        client.provider == Provider::Ollama ==> bearer_key(client) == Ok::<Option<Seq<char>>, ()>(
            None,
        ),
        client.provider == Provider::LMStudio ==> bearer_key(client) == Ok::<
            Option<Seq<char>>,
            (),
        >(client.api_key),
        client.provider == Provider::OpenAI && client.api_key is Some ==> bearer_key(client) == Ok::<
            Option<Seq<char>>,
            (),
        >(client.api_key),
        client.provider == Provider::OpenAI && client.api_key is None ==> bearer_key(client) is Err,
{
}

/// Where a provider is asked: its path stands behind the URL of the client.
pub proof fn providers_are_asked_at_their_path(client: ClientView)
    ensures
        client.provider == Provider::Ollama ==> chat_url(client) == client.base_url + "/api/chat"@
            && models_url(client) == client.base_url + "/api/tags"@,
        client.provider == Provider::LMStudio ==> chat_url(client) == client.base_url
            + "/v1/chat/completions"@ && completions_url(client) == client.base_url
            + "/v1/chat/completions"@ && models_url(client) == client.base_url
            + "/api/v1/models"@,
        client.provider == Provider::OpenAI ==> chat_url(client) == client.base_url
            + "/chat/completions"@ && models_url(client) == client.base_url + "/models"@,
        client.provider != Provider::LMStudio ==> completions_url(client) == client.base_url
            + "/chat/completions"@,
{
}

/// Whether a request holds the limit of tokens in the form that a provider takes.
pub open spec fn limits_tokens(body: JsonView, provider: Provider, max_tokens: u32) -> bool {
    let limit = Some(JsonView::Number(json::json_integer(max_tokens as i64)));
    match provider {
        Provider::Ollama => json::member(body, "options"@) matches Some(options) && json::member(
            options,
            "num_predict"@,
        ) == limit,
        Provider::LMStudio => json::member(body, "max_tokens"@) == limit,
        Provider::OpenAI => json::member(body, "max_completion_tokens"@) == limit,
    }
}

/// Each message of a conversation stands in the chat request in its place: for Ollama as
/// it is, for others in the form that they take.
pub proof fn chat_requests_hold_each_message(
    client: ClientView,
    messages: Seq<JsonView>,
    tools: Seq<JsonView>,
    i: int,
)
    requires
        0 <= i < messages.len(),
    ensures
        ({
            let body = chat_request(client, messages, tools);
            &&& json::member(body, "messages"@) matches Some(JsonView::List(sent))
            &&& sent.len() == messages.len()
            &&& sent[i] == (if client.provider == Provider::Ollama {
                messages[i]
            } else {
                messages::openai_message(i as nat, messages[i])
            })
        }),
{
    lemma_request_names_differ();
}

/// A chat request holds the limit of tokens of the client, and leaves the choice of a tool
/// to the model where there are tools.
pub proof fn chat_requests_limit_tokens(
    client: ClientView,
    messages: Seq<JsonView>,
    tools: Seq<JsonView>,
)
    ensures
        ({
            let body = chat_request(client, messages, tools);
            &&& limits_tokens(body, client.provider, client.max_tokens)
            &&& json::member(body, "tool_choice"@) == (if client.provider == Provider::Ollama
                || tools.len() == 0 {
                None
            } else {
                Some(JsonView::Text("auto"@))
            })
        }),
{
    lemma_request_names_differ();
    lemma_limit_names_differ();
}

proof fn lemma_limit_names_differ()
    ensures
        "tool_choice"@ != "options"@,
        "tool_choice"@ != "max_tokens"@,
        "tool_choice"@ != "max_completion_tokens"@,
{
    reveal_strlit("tool_choice");
    reveal_strlit("options");
    reveal_strlit("max_tokens");
    reveal_strlit("max_completion_tokens");
    assert("tool_choice"@.len() == 11);
    assert("options"@.len() == 7);
    assert("max_tokens"@.len() == 10);
    assert("max_completion_tokens"@.len() == 21);
}

/// A prompt is sent as it is, as the only message and one of the user, to the model of the
/// client, with the limit of tokens that is asked for and without a stream.
pub proof fn prompts_are_sent_as_they_are(client: ClientView, prompt: Seq<char>, max_tokens: u32)
    ensures
        ({
            let body = prompt_request(client, prompt, max_tokens);
            &&& json::member(body, "model"@) == Some(JsonView::Text(client.model))
            &&& json::member(body, "stream"@) == Some(JsonView::Bool(false))
            &&& limits_tokens(body, client.provider, max_tokens)
            &&& json::member(body, "messages"@) matches Some(JsonView::List(sent))
            &&& sent.len() == 1
            &&& json::member(sent[0], "role"@) == Some(JsonView::Text("user"@))
            &&& json::member(sent[0], "content"@) == Some(JsonView::Text(prompt))
        }),
{
    lemma_request_names_differ();
    reveal_strlit("role");
    reveal_strlit("content");
    assert("role"@.len() == 4);
    assert("content"@.len() == 7);
}

/// The prompt for a summary says what to keep, and then the conversation as it is.
pub proof fn summaries_are_asked_of_the_whole_conversation(history: Seq<char>)
    ensures
        summary_request(history)
            == "以下是一段对话历史，请生成简洁摘要，保留：\n1. 已完成的任务和结果\n2. 重要文件修改\n3. 用户的关键偏好和决定\n4. 未完成的任务\n\n对话历史：\n"@
            + history,
{
}

/// OpenAI takes the limit of tokens under a name of its own.
pub proof fn token_limits_have_their_names()
    ensures
        token_limit_key(Provider::OpenAI) == "max_completion_tokens"@,
        token_limit_key(Provider::LMStudio) == "max_tokens"@,
        token_limit_key(Provider::Ollama) == "max_tokens"@,
{
}

/// A request says nothing but the model, the messages, whether a stream is asked for, the
/// tools and how they are chosen, and the limit of tokens.
pub proof fn requests_say_nothing_else(
    client: ClientView,
    messages: Seq<JsonView>,
    tools: Seq<JsonView>,
    prompt: Seq<char>,
    max_tokens: u32,
    key: Seq<char>,
)
    requires
        key != "model"@,
        key != "messages"@,
        key != "stream"@,
    ensures
        ({
            let limit = match client.provider {
                Provider::Ollama => "options"@,
                Provider::LMStudio => "max_tokens"@,
                Provider::OpenAI => "max_completion_tokens"@,
            };
            &&& key != limit ==> json::member(prompt_request(client, prompt, max_tokens), key) is None
            &&& key != limit && key != "tools"@ && key != "tool_choice"@ ==> json::member(
                chat_request(client, messages, tools),
                key,
            ) is None
        }),
{
}

/// The options for Ollama and the message of a prompt say nothing else, either.
pub proof fn prompts_say_nothing_else(
    client: ClientView,
    messages: Seq<JsonView>,
    tools: Seq<JsonView>,
    prompt: Seq<char>,
    max_tokens: u32,
    key: Seq<char>,
)
    ensures
        client.provider == Provider::Ollama && key != "num_predict"@ ==> json::member(
            json::member(prompt_request(client, prompt, max_tokens), "options"@)->0,
            key,
        ) is None && json::member(
            json::member(chat_request(client, messages, tools), "options"@)->0,
            key,
        ) is None,
        json::member(prompt_request(client, prompt, max_tokens), "messages"@) matches Some(
            JsonView::List(sent),
        ) && sent.len() == 1 && (key != "role"@ && key != "content"@ ==> json::member(
            sent[0],
            key,
        ) is None),
{
    lemma_request_names_differ();
}

}
