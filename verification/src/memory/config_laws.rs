//! What a configuration of the memory layer says.
use vstd::prelude::*;

use crate::json::{JsonView, NumberView};
use crate::json_laws::text_or_nothing;
use crate::memory::config::{
    ExternalView, ProviderConfigView, external_in, memory_config_in, provider_in,
};

verus! {

/// Whether a switch stands in a right way under a key, or nothing does.
pub open spec fn is_switch(json: JsonView, key: Seq<char>) -> bool {
    json.get(key) is None || json.at(key) is Bool
}

/// Whether a count up to `max` stands under a key, or nothing does.
pub open spec fn is_count(json: JsonView, key: Seq<char>, max: nat) -> bool {
    json.get(key) is None || (json.at(key).unsigned() is Some && json.at(key).unsigned()->0 <= max)
}

/// Whether a switch is the one under a key: on where nothing stands there.
pub open spec fn switched(on: bool, json: JsonView, key: Seq<char>) -> bool {
    on <==> json.at(key) != JsonView::Bool(false)
}

/// Whether a count is the one under a key, or `default` where nothing stands there.
pub open spec fn counts(n: nat, json: JsonView, key: Seq<char>, default: nat) -> bool {
    match json.get(key) {
        None => n == default,
        Some(value) => value matches JsonView::Number(NumberView::Unsigned(m)) && n == m,
    }
}

/// Whether an external provider is the one that a value describes.
pub open spec fn describes_external(config: ExternalView, json: JsonView) -> bool {
    &&& match json.get("name"@) {
        None => config.name.len() == 0,
        Some(value) => value == JsonView::Text(config.name),
    }
    &&& match config.base_url {
        Some(url) => json.at("base_url"@) == JsonView::Text(url),
        None => json.at("base_url"@) is Null,
    }
    &&& match config.api_key {
        Some(key) => json.at("api_key"@) == JsonView::Text(key),
        None => json.at("api_key"@) is Null,
    }
    &&& match json.get("options"@) {
        None => config.options.len() == 0,
        Some(value) => value == JsonView::Object(config.options),
    }
}

/// Whether the providers are those that a value describes.
pub open spec fn describes_provider(provider: ProviderConfigView, json: JsonView) -> bool {
    match provider {
        ProviderConfigView::Builtin => json.at("kind"@) == JsonView::Text("builtin"@),
        ProviderConfigView::External(config) => json.at("kind"@) == JsonView::Text("external"@)
            && describes_external(config, json),
    }
}

/// Providers are read as they are described: by their kind, and an external one with its
/// name, its address, its key and its options. One is read where all of these are right.
pub proof fn providers_are_as_described(json: JsonView)
    ensures
        provider_in(json) matches Some(provider) ==> describes_provider(provider, json),
        provider_in(json) is Some <==> json.at("kind"@) == JsonView::Text("builtin"@) || (json.at(
            "kind"@,
        ) == JsonView::Text("external"@) && external_in(json) is Some),
        external_in(json) matches Some(config) ==> describes_external(config, json),
        external_in(json) is Some <==> json is Object && (json.get("name"@) is None || json.at(
            "name"@,
        ) is Text) && text_or_nothing(json, "base_url"@) && text_or_nothing(json, "api_key"@) && (
        json.get("options"@) is None || json.at("options"@) is Object),
{
    reveal_strlit("builtin");
    reveal_strlit("external");
    assert("builtin"@.len() == 7 && "external"@.len() == 8);
}

/// A configuration is read as it is written: each switch is on unless it is switched off,
/// each limit is the one given or its default, and the provider is the one described, or
/// the built-in one. It is read where all of these are right.
pub proof fn configurations_are_as_written(json: JsonView)
    ensures
        memory_config_in(json) matches Some(config) ==> {
            &&& switched(config.enabled, json, "enabled"@)
            &&& switched(config.memory_enabled, json, "memory_enabled"@)
            &&& switched(config.user_profile_enabled, json, "user_profile_enabled"@)
            &&& switched(config.threat_scanning, json, "threat_scanning"@)
            &&& counts(config.memory_char_limit as nat, json, "memory_char_limit"@, 2200)
            &&& counts(config.user_char_limit as nat, json, "user_char_limit"@, 1375)
            &&& counts(config.nudge_interval as nat, json, "nudge_interval"@, 10)
            &&& match json.get("provider"@) {
                None => config.provider is Builtin,
                Some(value) => describes_provider(config.provider, value),
            }
        },
        memory_config_in(json) is Some <==> {
            &&& json is Object
            &&& is_switch(json, "enabled"@)
            &&& is_switch(json, "memory_enabled"@)
            &&& is_switch(json, "user_profile_enabled"@)
            &&& is_switch(json, "threat_scanning"@)
            &&& is_count(json, "memory_char_limit"@, usize::MAX as nat)
            &&& is_count(json, "user_char_limit"@, usize::MAX as nat)
            &&& is_count(json, "nudge_interval"@, u32::MAX as nat)
            &&& json.get("provider"@) is None || provider_in(json.at("provider"@)) is Some
        },
{
    if let Some(value) = json.get("provider"@) {
        providers_are_as_described(value);
    }
}

} // verus!
