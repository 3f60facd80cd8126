//! The knobs of the memory layer.
use vstd::prelude::*;

use crate::json::{
    Json, JsonView, NumberView, empty_fields, entry, entry_push, no_fields, number, object, put,
};
use crate::memory::store::{DEFAULT_MEMORY_LIMIT, DEFAULT_USER_LIMIT};
use crate::text::same;

verus! {

/// Turns between background reviews, unless told otherwise.
pub const DEFAULT_NUDGE_INTERVAL: u32 = 10;

/// Configuration of the memory layer.
#[derive(Debug)]
pub struct MemoryConfig {
    /// Master switch for the whole layer.
    pub enabled: bool,
    /// Show the memory store and allow writes to it.
    pub memory_enabled: bool,
    /// Show the user store and allow writes to it.
    pub user_profile_enabled: bool,
    /// Cap of the memory store in characters.
    pub memory_char_limit: usize,
    /// Cap of the user store in characters.
    pub user_char_limit: usize,
    /// Reject entries that the threat scanner blocks.
    pub threat_scanning: bool,
    /// Review in the background every so many turns; 0 for never.
    pub nudge_interval: u32,
    /// A provider beside the built-in store.
    pub provider: ProviderConfig,
}

impl Default for MemoryConfig {
    fn default() -> (r: MemoryConfig)
        ensures
            r.enabled,
            r.memory_enabled,
            r.user_profile_enabled,
            r.memory_char_limit == DEFAULT_MEMORY_LIMIT,
            r.user_char_limit == DEFAULT_USER_LIMIT,
            r.threat_scanning,
            r.nudge_interval == DEFAULT_NUDGE_INTERVAL,
            r.provider is Builtin,
    {
        MemoryConfig {
            enabled: true,
            memory_enabled: true,
            user_profile_enabled: true,
            memory_char_limit: DEFAULT_MEMORY_LIMIT,
            user_char_limit: DEFAULT_USER_LIMIT,
            threat_scanning: true,
            nudge_interval: DEFAULT_NUDGE_INTERVAL,
            provider: ProviderConfig::Builtin,
        }
    }
}

impl MemoryConfig {
    /// Whether there are background reviews.
    pub fn nudge_enabled(&self) -> (r: bool)
        ensures
            r == (self.enabled && self.nudge_interval > 0),
    {
        self.enabled && self.nudge_interval > 0
    }
}

/// Which providers stand behind the layer.
#[derive(Debug)]
pub enum ProviderConfig {
    /// Only the built-in store.
    Builtin,
    /// The built-in store and an external service.
    External(ExternalProviderConfig),
}

impl Default for ProviderConfig {
    fn default() -> (r: ProviderConfig)
        ensures
            r is Builtin,
    {
        ProviderConfig::Builtin
    }
}

/// Configuration of an external memory provider.
#[derive(Debug)]
pub struct ExternalProviderConfig {
    /// Which implementation.
    pub name: String,
    /// Where the service is.
    pub base_url: Option<String>,
    /// The key for the service.
    pub api_key: Option<String>,
    /// Whatever else the provider takes.
    pub options: Vec<(String, Json)>,
}

impl Default for ExternalProviderConfig {
    fn default() -> (r: ExternalProviderConfig)
        ensures
            r.name@ == Seq::<char>::empty(),
            r.base_url is None,
            r.api_key is None,
            r.options@.len() == 0,
    {
        ExternalProviderConfig {
            name: String::new(),
            base_url: None,
            api_key: None,
            options: Vec::new(),
        }
    }
}

/// The model of the configuration of an external memory provider.
pub ghost struct ExternalView {
    pub name: Seq<char>,
    pub base_url: Option<Seq<char>>,
    pub api_key: Option<Seq<char>>,
    pub options: Seq<(Seq<char>, JsonView)>,
}

impl DeepView for ExternalProviderConfig {
    type V = ExternalView;

    open spec fn deep_view(&self) -> ExternalView {
        ExternalView {
            name: self.name@,
            base_url: self.base_url.deep_view(),
            api_key: self.api_key.deep_view(),
            options: self.options.deep_view(),
        }
    }
}

/// The model of which providers stand behind the layer.
pub ghost enum ProviderConfigView {
    Builtin,
    External(ExternalView),
}

impl DeepView for ProviderConfig {
    type V = ProviderConfigView;

    open spec fn deep_view(&self) -> ProviderConfigView {
        match *self {
            ProviderConfig::Builtin => ProviderConfigView::Builtin,
            ProviderConfig::External(config) => ProviderConfigView::External(config.deep_view()),
        }
    }
}

/// The options that an object may hold: none where it has no such entry.
pub open spec fn options_in(json: JsonView) -> Option<Seq<(Seq<char>, JsonView)>> {
    match json.get("options"@) {
        None => Some(no_fields()),
        Some(JsonView::Object(fields)) => Some(fields),
        Some(_) => None,
    }
}

/// The name that an object may hold: an empty one where it has no such entry.
pub open spec fn name_in(json: JsonView) -> Option<Seq<char>> {
    match json.get("name"@) {
        None => Some(Seq::empty()),
        Some(value) => value.text(),
    }
}

/// The configuration of an external provider that a value spells; what it leaves out is
/// empty.
pub open spec fn external_in(json: JsonView) -> Option<ExternalView> {
    match (
        json is Object,
        name_in(json),
        json.optional_text("base_url"@),
        json.optional_text("api_key"@),
        options_in(json),
    ) {
        (true, Some(name), Some(base_url), Some(api_key), Some(options)) => Some(
            ExternalView { name, base_url, api_key, options },
        ),
        _ => None,
    }
}

/// The providers that a value spells, told apart by their kind.
pub open spec fn provider_in(json: JsonView) -> Option<ProviderConfigView> {
    let kind = json.at("kind"@).text();
    if kind == Some("builtin"@) {
        Some(ProviderConfigView::Builtin)
    } else if kind == Some("external"@) {
        match external_in(json) {
            Some(config) => Some(ProviderConfigView::External(config)),
            None => None,
        }
    } else {
        None
    }
}

/// A text as JSON, null where there is none.
pub open spec fn text_or_null(text: Option<Seq<char>>) -> JsonView {
    match text {
        Some(text) => JsonView::Text(text),
        None => JsonView::Null,
    }
}

/// The fields of the configuration of an external provider, put behind others.
pub open spec fn external_fields(
    fields: Seq<(Seq<char>, JsonView)>,
    config: ExternalView,
) -> Seq<(Seq<char>, JsonView)> {
    fields.push(("name"@, JsonView::Text(config.name))).push(
        ("base_url"@, text_or_null(config.base_url)),
    ).push(("api_key"@, text_or_null(config.api_key))).push(
        ("options"@, JsonView::Object(config.options)),
    )
}

/// Which providers stand behind the layer, as JSON.
pub open spec fn provider_json(provider: ProviderConfigView) -> JsonView {
    match provider {
        ProviderConfigView::Builtin => JsonView::Object(
            no_fields().push(("kind"@, JsonView::Text("builtin"@))),
        ),
        ProviderConfigView::External(config) => JsonView::Object(
            external_fields(no_fields().push(("kind"@, JsonView::Text("external"@))), config),
        ),
    }
}

fn text_or_null_of(text: &Option<String>) -> (r: Json)
    ensures
        r.deep_view() == text_or_null(text.deep_view()),
{
    match text {
        Some(text) => Json::Text(text.clone()),
        None => Json::Null,
    }
}

fn copy_fields(fields: &Vec<(String, Json)>) -> (r: Vec<(String, Json)>)
    ensures
        r.deep_view() == fields.deep_view(),
{
    let mut out = empty_fields();
    let mut i: usize = 0;
    let ghost all = fields.deep_view();
    assert(out.deep_view() =~= all.take(0));
    while i < fields.len()
        invariant
            i <= fields@.len(),
            all == fields.deep_view(),
            out.deep_view() == all.take(i as int),
        decreases fields@.len() - i,
    {
        assert(all[i as int] == (fields@[i as int].0@, fields@[i as int].1.deep_view()));
        put(&mut out, fields[i].0.as_str(), fields[i].1.clone());
        assert(out.deep_view() =~= all.take(i + 1));
        i = i + 1;
    }
    assert(all.take(i as int) =~= all);
    out
}

impl ExternalProviderConfig {
    /// The configuration that a value spells.
    pub fn from_json(json: &Json) -> (r: Option<ExternalProviderConfig>)
        ensures
            r.deep_view() == external_in(json.deep_view()),
    {
        broadcast use crate::json::group_json_view;

        if !json.is_object() {
            return None;
        }
        let name = match json.get("name") {
            None => String::new(),
            Some(value) => match value.as_text() {
                Some(name) => name.clone(),
                None => {
                    return None;
                },
            },
        };
        let options = match json.get("options") {
            None => empty_fields(),
            Some(Json::Object(fields)) => copy_fields(fields),
            Some(_) => {
                return None;
            },
        };
        match (json.optional_text_at("base_url"), json.optional_text_at("api_key")) {
            (Some(base_url), Some(api_key)) => Some(
                ExternalProviderConfig { name, base_url, api_key, options },
            ),
            _ => None,
        }
    }

    fn put_fields(&self, fields: &mut Vec<(String, Json)>)
        ensures
            final(fields).deep_view() == external_fields(
                old(fields).deep_view(),
                self.deep_view(),
            ),
    {
        put(fields, "name", Json::Text(self.name.clone()));
        put(fields, "base_url", text_or_null_of(&self.base_url));
        put(fields, "api_key", text_or_null_of(&self.api_key));
        put(fields, "options", object(copy_fields(&self.options)));
    }

    /// The configuration as JSON.
    pub fn to_json(&self) -> (r: Json)
        ensures
            r.deep_view() == JsonView::Object(external_fields(no_fields(), self.deep_view())),
    {
        let mut fields = empty_fields();
        self.put_fields(&mut fields);
        object(fields)
    }
}

impl ProviderConfig {
    /// Which providers stand behind the layer, as JSON.
    pub fn to_json(&self) -> (r: Json)
        ensures
            r.deep_view() == provider_json(self.deep_view()),
    {
        let mut fields = empty_fields();
        match self {
            ProviderConfig::Builtin => {
                put(&mut fields, "kind", Json::Text("builtin".to_owned()));
            },
            ProviderConfig::External(config) => {
                put(&mut fields, "kind", Json::Text("external".to_owned()));
                config.put_fields(&mut fields);
            },
        }
        object(fields)
    }

    /// The providers that a value spells.
    pub fn from_json(json: &Json) -> (r: Option<ProviderConfig>)
        ensures
            r.deep_view() == provider_in(json.deep_view()),
    {
        broadcast use crate::json::group_json_view;

        let kind = match json.text_at("kind") {
            Some(kind) => kind,
            None => {
                return None;
            },
        };
        if same(kind.as_str(), "builtin") {
            return Some(ProviderConfig::Builtin);
        }
        if !same(kind.as_str(), "external") {
            return None;
        }
        match ExternalProviderConfig::from_json(json) {
            Some(config) => Some(ProviderConfig::External(config)),
            None => None,
        }
    }
}

/// The model of the configuration of the memory layer.
pub ghost struct MemoryConfigView {
    pub enabled: bool,
    pub memory_enabled: bool,
    pub user_profile_enabled: bool,
    pub memory_char_limit: usize,
    pub user_char_limit: usize,
    pub threat_scanning: bool,
    pub nudge_interval: u32,
    pub provider: ProviderConfigView,
}

impl DeepView for MemoryConfig {
    type V = MemoryConfigView;

    open spec fn deep_view(&self) -> MemoryConfigView {
        MemoryConfigView {
            enabled: self.enabled,
            memory_enabled: self.memory_enabled,
            user_profile_enabled: self.user_profile_enabled,
            memory_char_limit: self.memory_char_limit,
            user_char_limit: self.user_char_limit,
            threat_scanning: self.threat_scanning,
            nudge_interval: self.nudge_interval,
            provider: self.provider.deep_view(),
        }
    }
}

/// The switch that an object may hold under `key`: on where it has no such entry.
pub open spec fn switch_in(json: JsonView, key: Seq<char>) -> Option<bool> {
    match json.get(key) {
        None => Some(true),
        Some(value) => value.flag(),
    }
}

/// The number that an object may hold under `key`, up to `max`: a default where it has no
/// such entry.
pub open spec fn number_in(json: JsonView, key: Seq<char>, default: u64, max: u64) -> Option<u64> {
    match json.get(key) {
        None => Some(default),
        Some(value) => match value.unsigned() {
            Some(n) => if n <= max {
                Some(n)
            } else {
                None
            },
            None => None,
        },
    }
}

/// The configuration of the memory layer that a value spells; what it leaves out has its
/// default.
pub open spec fn memory_config_in(json: JsonView) -> Option<MemoryConfigView> {
    let provider = match json.get("provider"@) {
        None => Some(ProviderConfigView::Builtin),
        Some(value) => provider_in(value),
    };
    match (
        json is Object,
        switch_in(json, "enabled"@),
        switch_in(json, "memory_enabled"@),
        switch_in(json, "user_profile_enabled"@),
        number_in(
            json,
            "memory_char_limit"@,
            DEFAULT_MEMORY_LIMIT as u64,
            usize::MAX as u64,
        ),
        number_in(json, "user_char_limit"@, DEFAULT_USER_LIMIT as u64, usize::MAX as u64),
        switch_in(json, "threat_scanning"@),
        number_in(json, "nudge_interval"@, DEFAULT_NUDGE_INTERVAL as u64, u32::MAX as u64),
        provider,
    ) {
        (
            true,
            Some(enabled),
            Some(memory_enabled),
            Some(user_profile_enabled),
            Some(memory_limit),
            Some(user_limit),
            Some(threat_scanning),
            Some(interval),
            Some(provider),
        ) => Some(
            MemoryConfigView {
                enabled,
                memory_enabled,
                user_profile_enabled,
                memory_char_limit: memory_limit as usize,
                user_char_limit: user_limit as usize,
                threat_scanning,
                nudge_interval: interval as u32,
                provider,
            },
        ),
        _ => None,
    }
}

fn switch_of(json: &Json, key: &str) -> (r: Option<bool>)
    ensures
        r == switch_in(json.deep_view(), key@),
{
    match json.get(key) {
        None => Some(true),
        Some(value) => value.as_flag(),
    }
}

fn number_of(json: &Json, key: &str, default: u64, max: u64) -> (r: Option<u64>)
    requires
        default <= max,
    ensures
        r == number_in(json.deep_view(), key@, default, max),
        r matches Some(n) ==> n <= max,
{
    match json.get(key) {
        None => Some(default),
        Some(value) => match value.as_unsigned() {
            Some(n) => if n <= max {
                Some(n)
            } else {
                None
            },
            None => None,
        },
    }
}

impl MemoryConfig {
    /// The configuration that a value spells.
    pub fn from_json(json: &Json) -> (r: Option<MemoryConfig>)
        ensures
            r.deep_view() == memory_config_in(json.deep_view()),
    {
        if !json.is_object() {
            return None;
        }
        let provider = match json.get("provider") {
            None => ProviderConfig::Builtin,
            Some(value) => match ProviderConfig::from_json(value) {
                Some(provider) => provider,
                None => {
                    return None;
                },
            },
        };
        match (
            switch_of(json, "enabled"),
            switch_of(json, "memory_enabled"),
            switch_of(json, "user_profile_enabled"),
            number_of(
                json,
                "memory_char_limit",
                DEFAULT_MEMORY_LIMIT as u64,
                usize::MAX as u64,
            ),
            number_of(json, "user_char_limit", DEFAULT_USER_LIMIT as u64, usize::MAX as u64),
            switch_of(json, "threat_scanning"),
            number_of(json, "nudge_interval", DEFAULT_NUDGE_INTERVAL as u64, u32::MAX as u64),
        ) {
            (
                Some(enabled),
                Some(memory_enabled),
                Some(user_profile_enabled),
                Some(memory_limit),
                Some(user_limit),
                Some(threat_scanning),
                Some(interval),
            ) => Some(
                MemoryConfig {
                    enabled,
                    memory_enabled,
                    user_profile_enabled,
                    memory_char_limit: memory_limit as usize,
                    user_char_limit: user_limit as usize,
                    threat_scanning,
                    nudge_interval: interval as u32,
                    provider,
                },
            ),
            _ => None,
        }
    }
}

/// The configuration of the memory layer as JSON.
pub open spec fn memory_config_json(config: MemoryConfigView) -> JsonView {
    JsonView::Object(
        no_fields().push(("enabled"@, JsonView::Bool(config.enabled))).push(
            ("memory_enabled"@, JsonView::Bool(config.memory_enabled)),
        ).push(("user_profile_enabled"@, JsonView::Bool(config.user_profile_enabled))).push(
            (
                "memory_char_limit"@,
                JsonView::Number(NumberView::Unsigned(config.memory_char_limit as u64)),
            ),
        ).push(
            (
                "user_char_limit"@,
                JsonView::Number(NumberView::Unsigned(config.user_char_limit as u64)),
            ),
        ).push(("threat_scanning"@, JsonView::Bool(config.threat_scanning))).push(
            (
                "nudge_interval"@,
                JsonView::Number(NumberView::Unsigned(config.nudge_interval as u64)),
            ),
        ).push(("provider"@, provider_json(config.provider))),
    )
}

impl MemoryConfig {
    /// The configuration as JSON.
    pub fn to_json(&self) -> (r: Json)
        ensures
            r.deep_view() == memory_config_json(self.deep_view()),
    {
        let mut fields = empty_fields();
        put(&mut fields, "enabled", Json::Bool(self.enabled));
        put(&mut fields, "memory_enabled", Json::Bool(self.memory_enabled));
        put(&mut fields, "user_profile_enabled", Json::Bool(self.user_profile_enabled));
        put(&mut fields, "memory_char_limit", number(self.memory_char_limit as u64));
        put(&mut fields, "user_char_limit", number(self.user_char_limit as u64));
        put(&mut fields, "threat_scanning", Json::Bool(self.threat_scanning));
        put(&mut fields, "nudge_interval", number(self.nudge_interval as u64));
        put(&mut fields, "provider", self.provider.to_json());
        object(fields)
    }
}

/// The configuration of an external provider reads back from its JSON as it was.
pub proof fn external_configs_round_trip(config: ExternalView)
    ensures
        external_in(JsonView::Object(external_fields(no_fields(), config))) == Some(config),
{
    external_fields_are_found(no_fields(), config);
}

proof fn external_fields_are_found(fields: Seq<(Seq<char>, JsonView)>, config: ExternalView)
    requires
        entry(fields, "name"@) is None,
        entry(fields, "base_url"@) is None,
        entry(fields, "api_key"@) is None,
        entry(fields, "options"@) is None,
    ensures
        external_in(JsonView::Object(external_fields(fields, config))) == Some(config),
{
    broadcast use entry_push;

    reveal_strlit("name");
    reveal_strlit("base_url");
    reveal_strlit("api_key");
    reveal_strlit("options");
    assert("api_key"@[0] != "options"@[0]);
    assert("name"@.len() == 4 && "base_url"@.len() == 8 && "api_key"@.len() == 7);
}

/// Which providers stand behind the layer reads back from its JSON as it was.
pub proof fn provider_configs_round_trip(provider: ProviderConfigView)
    ensures
        provider_in(provider_json(provider)) == Some(provider),
{
    broadcast use entry_push;

    reveal_strlit("kind");
    reveal_strlit("name");
    reveal_strlit("base_url");
    reveal_strlit("api_key");
    reveal_strlit("options");
    reveal_strlit("builtin");
    reveal_strlit("external");
    assert("kind"@[0] != "name"@[0]);
    assert("kind"@.len() == 4 && "base_url"@.len() == 8 && "api_key"@.len() == 7);
    assert("builtin"@.len() == 7 && "external"@.len() == 8);
    assert(entry(no_fields(), "kind"@) is None);
    match provider {
        ProviderConfigView::Builtin => {},
        ProviderConfigView::External(config) => {
            let fields = no_fields().push(("kind"@, JsonView::Text("external"@)));
            external_fields_are_found(fields, config);
            assert(entry(fields, "kind"@) == Some(JsonView::Text("external"@)));
        },
    }
}

/// The configuration of the memory layer reads back from its JSON as it was.
pub proof fn memory_configs_round_trip(config: MemoryConfigView)
    ensures
        memory_config_in(memory_config_json(config)) == Some(config),
{
    broadcast use entry_push;

    reveal_strlit("enabled");
    reveal_strlit("memory_enabled");
    reveal_strlit("user_profile_enabled");
    reveal_strlit("memory_char_limit");
    reveal_strlit("user_char_limit");
    reveal_strlit("threat_scanning");
    reveal_strlit("nudge_interval");
    reveal_strlit("provider");
    assert("enabled"@.len() == 7 && "memory_enabled"@.len() == 14);
    assert("user_profile_enabled"@.len() == 20 && "memory_char_limit"@.len() == 17);
    assert("user_char_limit"@.len() == 15 && "threat_scanning"@.len() == 15);
    assert("nudge_interval"@.len() == 14 && "provider"@.len() == 8);
    assert("memory_enabled"@[0] != "nudge_interval"@[0]);
    assert("user_char_limit"@[0] != "threat_scanning"@[0]);
    provider_configs_round_trip(config.provider);
}

} // verus!
