//! Migration of settings files.
//!
//! A settings file of today has an object `llm` that names its provider under `type`.
//! Older files name the provider beside that object, or keep the settings in a
//! section named after the provider. Migration brings a file to today's form and
//! leaves every other member alone.
use crate::client::LLMClient;
use crate::json;
use crate::json::{Json, JsonView};
use crate::settings;
use crate::settings::{ConfigView, LLMConfig, Provider};
use crate::text;
use vstd::prelude::*;
use vstd::string::*;

verus! {

/// The provider that a value names.
pub open spec fn provider_in(value: Option<JsonView>) -> Option<Provider> {
    match json::text_in(value) {
        Some(s) => settings::named_provider(s),
        None => None,
    }
}

/// The members of a value that is an object.
pub open spec fn object_in(value: Option<JsonView>) -> Option<Map<Seq<char>, JsonView>> {
    match value {
        Some(JsonView::Object(m)) => Some(m),
        _ => None,
    }
}

/// The members without those that older files kept beside `llm`.
pub open spec fn without_legacy(m: Map<Seq<char>, JsonView>) -> Map<Seq<char>, JsonView> {
    m.remove("type"@).remove("ollama"@).remove("lmstudio"@).remove("openai"@)
}

/// The provider of a file that has `llm`: the one that `llm` names, else the one named
/// beside it, else the one that listens at its URL, else Ollama.
pub open spec fn provider_of_llm(
    root: Map<Seq<char>, JsonView>,
    llm: Map<Seq<char>, JsonView>,
) -> Provider {
    let own = provider_in(json::member(JsonView::Object(llm), "type"@));
    let beside = provider_in(json::member(JsonView::Object(root), "type"@));
    let url = json::text_member(JsonView::Object(llm), "base_url"@);
    if own is Some {
        own->0
    } else if beside is Some {
        beside->0
    } else if url is Some {
        settings::inferred_provider(url->0)
    } else {
        Provider::Ollama
    }
}

/// `llm` with its provider named. Ollama takes no key.
pub open spec fn settled_llm(llm: Map<Seq<char>, JsonView>, provider: Provider) -> Map<
    Seq<char>,
    JsonView,
> {
    let typed = llm.insert("type"@, JsonView::Text(settings::provider_key(provider)));
    if provider == Provider::Ollama {
        typed.remove("api_key"@)
    } else {
        typed
    }
}

/// The section that an older file keeps for a provider.
pub open spec fn legacy_section(root: Map<Seq<char>, JsonView>, provider: Provider) -> Option<
    Map<Seq<char>, JsonView>,
> {
    object_in(json::member(JsonView::Object(root), settings::provider_key(provider)))
}

/// The provider of an older file: the one that it names, where it has a section for
/// it, else the first of OpenAI, LM Studio and Ollama that has one.
pub open spec fn legacy_provider(root: Map<Seq<char>, JsonView>) -> Option<Provider> {
    let named = provider_in(json::member(JsonView::Object(root), "type"@));
    if named is Some && legacy_section(root, named->0) is Some {
        named
    } else if legacy_section(root, Provider::OpenAI) is Some {
        Some(Provider::OpenAI)
    } else if legacy_section(root, Provider::LMStudio) is Some {
        Some(Provider::LMStudio)
    } else if legacy_section(root, Provider::Ollama) is Some {
        Some(Provider::Ollama)
    } else {
        None
    }
}

/// The URL in a section: `base_url`, or `url` where there is no `base_url`.
pub open spec fn section_url(section: Map<Seq<char>, JsonView>) -> Option<Seq<char>> {
    if section.contains_key("base_url"@) {
        json::text_in(Some(section["base_url"@]))
    } else {
        json::text_member(JsonView::Object(section), "url"@)
    }
}

/// The configuration in the section of a provider, where it has a URL and a model.
pub open spec fn legacy_config(root: Map<Seq<char>, JsonView>, provider: Provider) -> Option<
    ConfigView,
> {
    match legacy_section(root, provider) {
        Some(section) => {
            let url = section_url(section);
            let model = json::text_member(JsonView::Object(section), "model"@);
            let key = json::text_member(JsonView::Object(section), "api_key"@);
            if url is Some && model is Some && text::trimmed(url->0).len() > 0 && text::trimmed(
                model->0,
            ).len() > 0 {
                Some(
                    ConfigView {
                        provider,
                        base_url: text::trimmed(url->0),
                        api_key: if provider == Provider::Ollama {
                            None
                        } else {
                            settings::normalized_text(key)
                        },
                        model: text::trimmed(model->0),
                    },
                )
            } else {
                None
            }
        },
        None => None,
    }
}

/// A configuration as a settings file holds it.
pub open spec fn config_json(config: ConfigView) -> JsonView {
    JsonView::Object(
        Map::<Seq<char>, JsonView>::empty().insert(
            "type"@,
            JsonView::Text(settings::provider_key(config.provider)),
        ).insert("base_url"@, JsonView::Text(config.base_url)).insert(
            "api_key"@,
            match config.api_key {
                Some(key) => JsonView::Text(key),
                None => JsonView::Null,
            },
        ).insert("model"@, JsonView::Text(config.model)),
    )
}

/// The members of a settings file, migrated.
pub open spec fn migrated_members(root: Map<Seq<char>, JsonView>) -> Map<Seq<char>, JsonView> {
    match object_in(json::member(JsonView::Object(root), "llm"@)) {
        Some(llm) => without_legacy(
            root.insert("llm"@, JsonView::Object(settled_llm(llm, provider_of_llm(root, llm)))),
        ),
        None => match legacy_provider(root) {
            Some(provider) => match legacy_config(root, provider) {
                Some(config) => without_legacy(root.insert("llm"@, config_json(config))),
                None => root,
            },
            None => root,
        },
    }
}

/// A settings file, migrated.
pub open spec fn migrated(root: JsonView) -> JsonView {
    match root {
        JsonView::Object(m) => JsonView::Object(migrated_members(m)),
        _ => root,
    }
}

/// The provider that a value names.
fn read_provider(value: Option<&Json>) -> (r: Option<Provider>)
    ensures
        r == provider_in(json::opt_view(value)),
{
    match value {
        Some(value) => match value.as_text() {
            Some(name) => settings::parse_provider(name.as_str()),
            None => None,
        },
        None => None,
    }
}

/// The section that an older file keeps for a provider.
fn find_legacy_section<'a>(root: &'a Vec<(String, Json)>, provider: Provider) -> (r: Option<
    &'a Vec<(String, Json)>,
>)
    ensures
        match r {
            Some(section) => legacy_section(json::members_view(root@), provider) == Some(
                json::members_view(section@),
            ),
            None => legacy_section(json::members_view(root@), provider) is None,
        },
{
    match json::get_member(root, settings::provider_name_in_settings(provider)) {
        Some(Json::Object(section)) => Some(section),
        _ => None,
    }
}

/// Whether an older file has a section for a provider.
pub fn legacy_section_exists(root: &Vec<(String, Json)>, provider: Provider) -> (r: bool)
    ensures
        r == legacy_section(json::members_view(root@), provider) is Some,
{
    find_legacy_section(root, provider).is_some()
}

/// The configuration in the section of a provider, where it has a URL and a model.
pub fn build_llm_from_legacy(root: &Vec<(String, Json)>, provider: Provider) -> (r: Option<
    LLMConfig,
>)
    ensures
        match r {
            Some(config) => legacy_config(json::members_view(root@), provider) == Some(config@),
            None => legacy_config(json::members_view(root@), provider) is None,
        },
{
    let section: &Vec<(String, Json)> = match find_legacy_section(root, provider) {
        Some(section) => section,
        None => {
            return None;
        },
    };
    let url: Option<&Json> = match json::get_member(section, "base_url") {
        Some(value) => Some(value),
        None => json::get_member(section, "url"),
    };
    let base_url: String = match url {
        Some(Json::Text(url)) => text::trim(url.as_str()),
        _ => {
            return None;
        },
    };
    let model: String = match json::get_member(section, "model") {
        Some(Json::Text(model)) => text::trim(model.as_str()),
        _ => {
            return None;
        },
    };
    if base_url.as_str().is_empty() || model.as_str().is_empty() {
        return None;
    }
    let api_key: Option<String> = match provider {
        Provider::Ollama => None,
        Provider::LMStudio | Provider::OpenAI => match json::get_member(section, "api_key") {
            Some(Json::Text(key)) => settings::normalize_optional_string(Some(key.clone())),
            _ => None,
        },
    };
    Some(LLMConfig { provider, base_url, api_key, model })
}

/// A configuration as a settings file holds it.
pub fn config_to_json(config: LLMConfig) -> (r: Json)
    ensures
        r@ == config_json(config@),
{
    let key: Json = match config.api_key {
        Some(key) => Json::Text(key),
        None => Json::Null,
    };
    Json::object().with(
        "type",
        Json::text(settings::provider_name_in_settings(config.provider)),
    ).with("base_url", Json::Text(config.base_url)).with("api_key", key).with(
        "model",
        Json::Text(config.model),
    )
}

/// Takes out what older files kept beside `llm`. Says whether there was any of it.
fn drop_legacy(members: &mut Vec<(String, Json)>) -> (r: bool)
    ensures
        json::members_view(final(members)@) == without_legacy(json::members_view(old(members)@)),
        r == (json::members_view(final(members)@) != json::members_view(old(members)@)),
{
    let ghost before = json::members_view(members@);
    let named: bool = json::remove_member(members, "type");
    let ollama: bool = json::remove_member(members, "ollama");
    let lmstudio: bool = json::remove_member(members, "lmstudio");
    let openai: bool = json::remove_member(members, "openai");
    proof {
        let after = without_legacy(before);
        settings::lemma_names_differ();
        if before.contains_key("type"@) || before.contains_key("ollama"@) || before.contains_key(
            "lmstudio"@,
        ) || before.contains_key("openai"@) {
            assert(after != before) by {
                assert(!after.contains_key("type"@));
                assert(!after.contains_key("ollama"@));
                assert(!after.contains_key("lmstudio"@));
                assert(!after.contains_key("openai"@));
            }
        } else {
            assert(after =~= before);
        }
    }
    named || ollama || lmstudio || openai
}

/// Names the provider in `llm`. Says whether that changed it.
fn settle_llm(llm: &mut Vec<(String, Json)>, provider: Provider) -> (r: bool)
    ensures
        json::members_view(final(llm)@) == settled_llm(json::members_view(old(llm)@), provider),
        r == (json::members_view(final(llm)@) != json::members_view(old(llm)@)),
{
    let ghost before = json::members_view(llm@);
    let name: &'static str = settings::provider_name_in_settings(provider);
    let named: bool = match json::get_member(llm, "type") {
        Some(Json::Text(kind)) => text::same_text(kind.as_str(), name),
        _ => false,
    };
    let mut changed: bool = false;
    if !named {
        json::set_member(llm, "type", Json::text(name));
        changed = true;
    }
    let ghost typed = before.insert("type"@, JsonView::Text(name@));
    proof {
        settings::lemma_names_differ();
        assert(json::members_view(llm@) =~= typed);
        if !named {
            assert(before != typed) by {
                assert(typed["type"@] == JsonView::Text(name@));
            }
        }
    }
    match provider {
        Provider::Ollama => {
            if json::remove_member(llm, "api_key") {
                changed = true;
            }
            proof {
                let after = typed.remove("api_key"@);
                if before.contains_key("api_key"@) {
                    assert(!after.contains_key("api_key"@));
                } else {
                    assert(after =~= typed);
                }
                if !named {
                    assert(after.contains_key("type"@) && after["type"@] == JsonView::Text(name@));
                    assert(!(before.contains_key("type"@) && before["type"@] == JsonView::Text(
                        name@,
                    )));
                }
            }
        },
        _ => {},
    }
    changed
}

/// The provider of an older file.
fn find_legacy_provider(root: &Vec<(String, Json)>) -> (r: Option<Provider>)
    ensures
        r == legacy_provider(json::members_view(root@)),
{
    match read_provider(json::get_member(root, "type")) {
        Some(named) => {
            if legacy_section_exists(root, named) {
                return Some(named);
            }
        },
        None => {},
    }
    if legacy_section_exists(root, Provider::OpenAI) {
        Some(Provider::OpenAI)
    } else if legacy_section_exists(root, Provider::LMStudio) {
        Some(Provider::LMStudio)
    } else if legacy_section_exists(root, Provider::Ollama) {
        Some(Provider::Ollama)
    } else {
        None
    }
}

/// Migrates the members of a settings file. Says whether that changed them.
fn migrate_members(root: &mut Vec<(String, Json)>) -> (r: bool)
    ensures
        json::members_view(final(root)@) == migrated_members(json::members_view(old(root)@)),
        r == (json::members_view(final(root)@) != json::members_view(old(root)@)),
{
    let ghost before = json::members_view(root@);
    let llm: Option<Json> = match json::get_member(root, "llm") {
        Some(value) => Some(value.clone()),
        None => None,
    };
    match llm {
        Some(Json::Object(llm)) => {
            let mut llm: Vec<(String, Json)> = llm;
            let ghost own = json::members_view(llm@);
            let beside: Option<Provider> = read_provider(json::get_member(root, "type"));
            let provider: Provider = match read_provider(json::get_member(&llm, "type")) {
                Some(provider) => provider,
                None => match beside {
                    Some(provider) => provider,
                    None => match json::get_member(&llm, "base_url") {
                        Some(Json::Text(url)) => settings::infer_provider_from_base_url(
                            url.as_str(),
                        ),
                        _ => Provider::Ollama,
                    },
                },
            };
            let settled: bool = settle_llm(&mut llm, provider);
            let ghost after = json::members_view(llm@);
            json::set_member(root, "llm", Json::Object(llm));
            let ghost middle = json::members_view(root@);
            let dropped: bool = drop_legacy(root);
            proof {
                settings::lemma_names_differ();
                assert(middle["llm"@] == JsonView::Object(after));
                assert(json::members_view(root@)["llm"@] == JsonView::Object(after));
                if !settled {
                    assert(middle =~= before);
                }
            }
            settled || dropped
        },
        _ => {
            let provider: Provider = match find_legacy_provider(root) {
                Some(provider) => provider,
                None => {
                    return false;
                },
            };
            match build_llm_from_legacy(root, provider) {
                Some(config) => {
                    let ghost view = config@;
                    json::set_member(root, "llm", config_to_json(config));
                    let _ = drop_legacy(root);
                    proof {
                        settings::lemma_names_differ();
                        assert(json::members_view(root@)["llm"@] == config_json(view));
                    }
                    true
                },
                None => false,
            }
        },
    }
}

impl LLMClient {
    /// Migrates a settings file. Says whether that changed it.
    pub fn migrate_settings_value(root: &mut Json) -> (r: bool)
        ensures
            final(root)@ == migrated(old(root)@),
            r == (final(root)@ != old(root)@),
    {
        let mut document: Json = Json::Null;
        core::mem::swap(root, &mut document);
        match document {
            Json::Object(members) => {
                let mut members: Vec<(String, Json)> = members;
                let changed: bool = migrate_members(&mut members);
                *root = Json::Object(members);
                changed
            },
            other => {
                *root = other;
                false
            },
        }
    }
}

// ---------------------------------------------------------------------------
// Settings files as text
// ---------------------------------------------------------------------------

/// The text to write in place of a settings file: nothing where the file is no JSON
/// or is in today's form already.
pub fn migrate_settings_text(raw: &str) -> (r: Option<String>)
    ensures
        match json::parsed_json(raw@) {
            Some(root) => if migrated(root) != root {
                r is Some && r->0@ == json::pretty_json(migrated(root)) && (json::reads_back(
                    migrated(root),
                ) ==> json::parsed_json(r->0@) == Some(migrated(root)))
            } else {
                r is None
            },
            None => r is None,
        },
{
    match json::parse_json(raw) {
        Some(root) => {
            let mut root: Json = root;
            if LLMClient::migrate_settings_value(&mut root) {
                Some(json::json_string_pretty(&root))
            } else {
                None
            }
        },
        None => None,
    }
}

/// The document of a new settings file.
pub open spec fn default_settings() -> JsonView {
    json::with_member(
        json::empty_object(),
        "llm"@,
        json::with_member(
            json::with_member(
                json::with_member(json::empty_object(), "type"@, JsonView::Text("ollama"@)),
                "base_url"@,
                JsonView::Text(settings::DEFAULT_OLLAMA_URL@),
            ),
            "model"@,
            JsonView::Text(settings::DEFAULT_OLLAMA_MODEL@),
        ),
    )
}

impl LLMClient {
    /// The text of a new settings file.
    pub fn default_settings_json() -> (r: String)
        ensures
            r@ == json::pretty_json(default_settings()),
            json::parsed_json(r@) == Some(default_settings()),
    {
        let llm: Json = Json::object().with("type", Json::text("ollama")).with(
            "base_url",
            Json::text(settings::DEFAULT_OLLAMA_URL),
        ).with("model", Json::text(settings::DEFAULT_OLLAMA_MODEL));
        let root: Json = Json::object().with("llm", llm);
        proof {
            let inner = llm@;
            assert(json::nested_within(inner, 126)) by {
                let m = inner->Object_0;
                assert forall|k: Seq<char>| #[trigger] m.contains_key(k) implies json::nested_within(
                    m[k],
                    125,
                ) by {
                    assert(m[k] is Text);
                }
            }
            let outer = root@->Object_0;
            assert forall|k: Seq<char>| #[trigger] outer.contains_key(k) implies json::nested_within(
                outer[k],
                126,
            ) by {
                assert(outer[k] == inner);
            }
        }
        json::json_string_pretty(&root)
    }
}

// ---------------------------------------------------------------------------
// Laws
// ---------------------------------------------------------------------------

/// Whether migration takes the settings of a file from a section that an older file
/// keeps for Ollama.
pub open spec fn from_ollama_section(root: JsonView) -> bool {
    match root {
        JsonView::Object(m) => object_in(json::member(root, "llm"@)) is None && legacy_provider(m)
            == Some(Provider::Ollama) && legacy_config(m, Provider::Ollama) is Some,
        _ => false,
    }
}

/// Migration keeps every member that has nothing to do with the provider.
pub proof fn migration_keeps_other_members(root: JsonView, key: Seq<char>)
    requires
        key != "llm"@,
        key != "type"@,
        key != "ollama"@,
        key != "lmstudio"@,
        key != "openai"@,
    ensures
        json::member(migrated(root), key) == json::member(root, key),
{
}

/// What migration changes has an object `llm` that names its provider, and keeps
/// nothing of the older form beside it.
pub proof fn migration_reaches_the_form_of_today(root: JsonView)
    requires
        migrated(root) != root,
    ensures
        object_in(json::member(migrated(root), "llm"@)) is Some,
        provider_in(
            json::member(json::member(migrated(root), "llm"@)->0, "type"@),
        ) is Some,
        json::member(migrated(root), "type"@) is None,
        json::member(migrated(root), "ollama"@) is None,
        json::member(migrated(root), "lmstudio"@) is None,
        json::member(migrated(root), "openai"@) is None,
{
    settings::lemma_names_differ();
    if let JsonView::Object(m) = root {
        match object_in(json::member(root, "llm"@)) {
            Some(llm) => {
                settings::provider_name_reads_back(provider_of_llm(m, llm));
            },
            None => {
                if let Some(provider) = legacy_provider(m) {
                    settings::provider_name_reads_back(provider);
                }
            },
        }
    }
}

/// A file in which `llm` names its provider and nothing of the older form is left is
/// not changed, unless Ollama is given a key.
proof fn lemma_settled(m: Map<Seq<char>, JsonView>, llm: Map<Seq<char>, JsonView>, provider: Provider)
    requires
        m.contains_key("llm"@),
        m["llm"@] == JsonView::Object(llm),
        llm.contains_key("type"@),
        llm["type"@] == JsonView::Text(settings::provider_key(provider)),
        provider == Provider::Ollama ==> !llm.contains_key("api_key"@),
        !m.contains_key("type"@),
        !m.contains_key("ollama"@),
        !m.contains_key("lmstudio"@),
        !m.contains_key("openai"@),
    ensures
        migrated(JsonView::Object(m)) == JsonView::Object(m),
{
    settings::lemma_names_differ();
    settings::provider_name_reads_back(provider);
    assert(provider_of_llm(m, llm) == provider);
    assert(settled_llm(llm, provider) =~= llm);
    assert(migrated_members(m) =~= m);
}

/// Migrating a migrated file changes nothing, unless the settings came from a section
/// for Ollama: such a file has a key of `null` that the next migration takes out.
pub proof fn migration_is_done_once(root: JsonView)
    requires
        !from_ollama_section(root),
    ensures
        migrated(migrated(root)) == migrated(root),
{
    settings::lemma_names_differ();
    if migrated(root) != root {
        if let JsonView::Object(m) = root {
            let after = migrated_members(m);
            match object_in(json::member(root, "llm"@)) {
                Some(llm) => {
                    let provider = provider_of_llm(m, llm);
                    lemma_settled(after, settled_llm(llm, provider), provider);
                },
                None => {
                    let provider = legacy_provider(m)->0;
                    let config = legacy_config(m, provider)->0;
                    let llm = config_json(config)->Object_0;
                    lemma_settled(after, llm, provider);
                },
            }
        }
    }
}

/// From the second migration on, a file does not change any more.
pub proof fn migration_settles(root: JsonView)
    ensures
        migrated(migrated(migrated(root))) == migrated(migrated(root)),
{
    settings::lemma_names_differ();
    if from_ollama_section(root) {
        migration_reaches_the_form_of_today(root);
        migration_is_done_once(migrated(root));
    } else {
        migration_is_done_once(root);
    }
}

/// Of several sections, that of OpenAI is taken, unless the file names another provider
/// that has a section.
pub proof fn openai_is_preferred(root: JsonView)
    requires
        root is Object,
        object_in(json::member(root, "llm"@)) is None,
        legacy_config(root->Object_0, Provider::OpenAI) is Some,
        provider_in(json::member(root, "type"@)) matches Some(named) ==> named == Provider::OpenAI
            || legacy_section(root->Object_0, named) is None,
    ensures
        json::member(migrated(root), "llm"@) == Some(
            config_json(legacy_config(root->Object_0, Provider::OpenAI)->0),
        ),
{
    settings::lemma_names_differ();
}

/// A new settings file is in today's form.
pub proof fn default_settings_need_no_migration()
    ensures
        migrated(default_settings()) == default_settings(),
{
    settings::lemma_names_differ();
    let m = default_settings()->Object_0;
    let llm = m["llm"@]->Object_0;
    lemma_settled(m, llm, Provider::Ollama);
}

/// A value names a provider where it is a text that does, and has members where it is an
/// object.
pub proof fn values_are_read_as_they_are(s: Seq<char>, m: Map<Seq<char>, JsonView>, other: JsonView)
    ensures
        provider_in(Some(JsonView::Text(s))) == settings::named_provider(s),
        !(other is Text) ==> provider_in(Some(other)) is None,
        provider_in(None) is None,
        object_in(Some(JsonView::Object(m))) == Some(m),
        !(other is Object) ==> object_in(Some(other)) is None,
        object_in(None) is None,
        !(other is Object) ==> migrated(other) == other,
{
}

/// Where a file has `llm`, migration names the provider in it and takes the key of Ollama
/// out. All else in `llm` stays as it is.
pub proof fn migration_keeps_what_llm_says(root: JsonView, key: Seq<char>)
    requires
        object_in(json::member(root, "llm"@)) is Some,
    ensures
        ({
            let before = json::member(root, "llm"@)->0;
            let after = json::member(migrated(root), "llm"@)->0;
            let own = provider_in(json::member(before, "type"@));
            let beside = provider_in(json::member(root, "type"@));
            let url = json::text_member(before, "base_url"@);
            let provider = if own is Some {
                own->0
            } else if beside is Some {
                beside->0
            } else if url is Some {
                settings::inferred_provider(url->0)
            } else {
                Provider::Ollama
            };
            &&& json::member(migrated(root), "llm"@) is Some
            &&& after is Object
            &&& json::member(after, "type"@) == Some(
                JsonView::Text(settings::provider_key(provider)),
            )
            &&& key != "type"@ && key != "api_key"@ ==> json::member(after, key) == json::member(
                before,
                key,
            )
            &&& json::member(after, "api_key"@) == (if provider == Provider::Ollama {
                None
            } else {
                json::member(before, "api_key"@)
            })
            &&& json::member(migrated(root), "type"@) is None
            &&& json::member(migrated(root), "ollama"@) is None
            &&& json::member(migrated(root), "lmstudio"@) is None
            &&& json::member(migrated(root), "openai"@) is None
        }),
{
    settings::lemma_names_differ();
}

/// Where an older file has a section for its provider, with a URL and a model, migration
/// takes over what the section says, without the white space around it: the URL, the
/// model, and, unless the provider is Ollama, the key.
pub proof fn migration_takes_over_the_section(
    root: JsonView,
    provider: Provider,
    url: Seq<char>,
    other: Seq<char>,
)
    requires
        object_in(json::member(root, "llm"@)) is None,
        root is Object,
        legacy_provider(root->Object_0) == Some(provider),
        ({
            let section = json::member(root, settings::provider_key(provider))->0;
            &&& json::member(section, "base_url"@) matches Some(value) ==> value == JsonView::Text(url)
            &&& json::member(section, "base_url"@) is None ==> json::member(section, "url"@) == Some(
                JsonView::Text(url),
            )
        }),
    ensures
        ({
            let section = json::member(root, settings::provider_key(provider))->0;
            let model = json::text_member(section, "model"@);
            let key = json::text_member(section, "api_key"@);
            let usable = text::trimmed(url).len() > 0 && model is Some && text::trimmed(
                model->0,
            ).len() > 0;
            &&& !usable ==> migrated(root) == root
            &&& usable ==> {
                let llm = json::member(migrated(root), "llm"@)->0;
                &&& json::member(migrated(root), "llm"@) is Some
                &&& json::member(llm, "type"@) == Some(
                    JsonView::Text(settings::provider_key(provider)),
                )
                &&& json::member(llm, "base_url"@) == Some(JsonView::Text(text::trimmed(url)))
                &&& json::member(llm, "model"@) == Some(JsonView::Text(text::trimmed(model->0)))
                &&& json::member(llm, "api_key"@) == Some(
                    if provider != Provider::Ollama && key is Some && text::trimmed(key->0).len()
                        > 0 {
                        JsonView::Text(text::trimmed(key->0))
                    } else {
                        JsonView::Null
                    },
                )
                &&& other != "type"@ && other != "base_url"@ && other != "api_key"@ && other
                    != "model"@ ==> json::member(llm, other) is None
                &&& json::member(migrated(root), settings::provider_key(provider)) is None
            }
        }),
{
    settings::lemma_names_differ();
}

/// A section without a URL that is a text is not taken over.
pub proof fn sections_without_a_url_are_left(root: JsonView, provider: Provider)
    requires
        object_in(json::member(root, "llm"@)) is None,
        root is Object,
        legacy_provider(root->Object_0) == Some(provider),
        ({
            let section = json::member(root, settings::provider_key(provider))->0;
            &&& json::text_member(section, "base_url"@) is None
            &&& json::member(section, "base_url"@) is Some || json::text_member(
                section,
                "url"@,
            ) is None
        }),
    ensures
        migrated(root) == root,
{
}

/// An older file is of the provider that it names, where it has a section for it. Else it
/// is of OpenAI, LM Studio or Ollama, whichever has a section, in that order.
pub proof fn older_files_name_their_provider(root: JsonView)
    requires
        root is Object,
    ensures
        ({
            let ollama = json::member(root, "ollama"@) matches Some(JsonView::Object(_));
            let lmstudio = json::member(root, "lmstudio"@) matches Some(JsonView::Object(_));
            let openai = json::member(root, "openai"@) matches Some(JsonView::Object(_));
            let named = json::member(root, "type"@);
            legacy_provider(root->Object_0) == (if named == Some(JsonView::Text("ollama"@))
                && ollama {
                Some(Provider::Ollama)
            } else if named == Some(JsonView::Text("lmstudio"@)) && lmstudio {
                Some(Provider::LMStudio)
            } else if openai {
                Some(Provider::OpenAI)
            } else if lmstudio {
                Some(Provider::LMStudio)
            } else if ollama {
                Some(Provider::Ollama)
            } else {
                None
            })
        }),
        object_in(json::member(root, "llm"@)) is None && legacy_provider(root->Object_0) is None
            ==> migrated(root) == root,
{
    settings::lemma_names_differ();
}

/// A file holds a configuration member by member, as it is.
pub proof fn files_hold_the_configuration(config: ConfigView, key: Seq<char>)
    ensures
        ({
            let held = config_json(config);
            &&& json::member(held, "type"@) == Some(
                JsonView::Text(settings::provider_key(config.provider)),
            )
            &&& json::member(held, "base_url"@) == Some(JsonView::Text(config.base_url))
            &&& json::member(held, "model"@) == Some(JsonView::Text(config.model))
            &&& config.api_key matches Some(secret) ==> json::member(held, "api_key"@) == Some(
                JsonView::Text(secret),
            )
            &&& config.api_key is None ==> json::member(held, "api_key"@) == Some(JsonView::Null)
            &&& key != "type"@ && key != "base_url"@ && key != "api_key"@ && key != "model"@
                ==> json::member(held, key) is None
        }),
{
    settings::lemma_names_differ();
}

/// A new settings file asks the default model of an Ollama at the default URL.
pub proof fn new_files_ask_the_default_model(key: Seq<char>)
    ensures
        ({
            let llm = json::member(default_settings(), "llm"@)->0;
            &&& json::member(default_settings(), "llm"@) is Some
            &&& json::member(llm, "type"@) == Some(JsonView::Text("ollama"@))
            &&& json::member(llm, "base_url"@) == Some(JsonView::Text("http://localhost:11434"@))
            &&& json::member(llm, "model"@) == Some(JsonView::Text("qwen3.5:4b"@))
            &&& key != "type"@ && key != "base_url"@ && key != "model"@ ==> json::member(
                llm,
                key,
            ) is None
            &&& key != "llm"@ ==> json::member(default_settings(), key) is None
        }),
{
    settings::lemma_names_differ();
}

/// A section is read as it stands: its URL, its model and its key without the white space
/// around them, where there are a URL and a model. Ollama gets no key.
pub proof fn sections_are_read_as_they_are(
    root: Map<Seq<char>, JsonView>,
    provider: Provider,
    section: JsonView,
)
    requires
        json::member(JsonView::Object(root), settings::provider_key(provider)) == Some(section),
    ensures
        !(section is Object) ==> legacy_config(root, provider) is None,
        section is Object ==> ({
            let url = if json::member(section, "base_url"@) is Some {
                json::text_member(section, "base_url"@)
            } else {
                json::text_member(section, "url"@)
            };
            let model = json::text_member(section, "model"@);
            let key = json::text_member(section, "api_key"@);
            let usable = url is Some && model is Some && text::trimmed(url->0).len() > 0
                && text::trimmed(model->0).len() > 0;
            &&& legacy_config(root, provider) is Some <==> usable
            &&& legacy_config(root, provider) matches Some(config) ==> {
                &&& config.provider == provider
                &&& config.base_url == text::trimmed(url->0)
                &&& config.model == text::trimmed(model->0)
                &&& config.api_key == (if provider != Provider::Ollama && key is Some
                    && text::trimmed(key->0).len() > 0 {
                    Some(text::trimmed(key->0))
                } else {
                    None
                })
            }
        }),
{
}

}
