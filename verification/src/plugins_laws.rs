//! What plugins are called, and what they bring.
use vstd::prelude::*;

use crate::json::JsonView;
use crate::json_laws::text_or_nothing;
use crate::plugins::{
    ContributionView, ManifestView, PluginView, agents_of, all_agents, all_commands, brought,
    commands_of, in_key_order, joined_words_are_the_words, lacks, later_plugins_win, manifest_in,
    manifest_read, merged, namespace, plugin_in, plugin_named, skill_sources, words_are_words,
};
use crate::text::{contains, join, words};

verus! {

/// A text, or null where there is none.
pub open spec fn or_null(text: Option<Seq<char>>) -> JsonView {
    match text {
        Some(t) => JsonView::Text(t),
        None => JsonView::Null,
    }
}

/// A manifest is what its JSON says: its name, its version and its description, where they
/// are there, and that its plugin is switched on unless it says otherwise.
pub proof fn manifests_are_read(json: JsonView)
    ensures
        manifest_in(json) is Some <==> json is Object && text_or_nothing(json, "name"@)
            && text_or_nothing(json, "version"@) && text_or_nothing(json, "description"@) && (
        json.get("enabled"@) is None || json.at("enabled"@) is Bool),
        manifest_in(json) matches Some(manifest) ==> {
            &&& json.at("name"@) == or_null(manifest.name)
            &&& json.at("version"@) == or_null(manifest.version)
            &&& json.at("description"@) == or_null(manifest.description)
            &&& manifest.enabled <==> json.at("enabled"@) != JsonView::Bool(false)
        },
{
}

/// A manifest that is missing, or that cannot be read, leaves its plugin switched on and
/// says nothing else.
pub proof fn missing_manifests_do_no_harm(read: Option<Result<JsonView, Seq<char>>>)
    requires
        read is None || read->0 is Err || manifest_in(read->0->Ok_0) is None,
    ensures
        manifest_read(read).enabled,
        manifest_read(read).name is None,
        manifest_read(read).version is None,
        manifest_read(read).description is None,
{
}

/// A manifest that can be read is the one that counts.
pub proof fn manifests_count(json: JsonView)
    requires
        manifest_in(json) is Some,
    ensures
        Some(manifest_read(Some(Ok(json)))) == manifest_in(json),
{
}

/// A namespace has the words of the name it was made from, and single spaces between them.
/// There is one unless the name has no words, has a colon in it, or is longer than
/// sixty-four characters.
pub proof fn namespaces_keep_the_words(raw: Seq<char>)
    ensures
        namespace(raw) matches Some(name) ==> {
            &&& words(name) == words(raw)
            &&& name == join(words(raw), " "@)
            &&& 0 < name.len() <= 64
            &&& !contains(name, ":"@)
        },
        namespace(raw) is None <==> words(raw).len() == 0 || contains(join(words(raw), " "@), ":"@)
            || join(words(raw), " "@).len() > 64,
{
    let s = join(words(raw), " "@);
    words_are_words(raw);
    joined_words_are_the_words(words(raw));
    if words(raw).len() > 0 && s.len() == 0 {
        assert(s =~= Seq::empty());
        assert(crate::text::scan_words(s).done.len() == 0);
        assert(words(s).len() == 0);
    }
}

/// A plugin is called by the name in its manifest, or else by that of its folder, and is
/// there where that makes a namespace. It has what its folder holds, and is switched on
/// where its manifest says so.
pub proof fn plugins_are_loaded(
    folder: Seq<char>,
    manifest: ManifestView,
    skills: Option<usize>,
    agents: Seq<ContributionView>,
    commands: Seq<ContributionView>,
)
    ensures
        ({
            let loaded = plugin_in(folder, manifest, skills, agents, commands);
            &&& manifest.name matches Some(name) ==> (loaded is Some <==> namespace(name) is Some)
            &&& manifest.name is None ==> (loaded is Some <==> namespace(folder) is Some)
            &&& loaded matches Some(plugin) ==> {
                &&& manifest.name matches Some(name) ==> namespace(name) == Some(plugin.name)
                &&& manifest.name is None ==> namespace(folder) == Some(plugin.name)
                &&& plugin.version == manifest.version
                &&& plugin.description == manifest.description
                &&& plugin.enabled == manifest.enabled
                &&& plugin.skills == skills
                &&& plugin.agents == agents
                &&& plugin.commands == commands
            }
        }),
{
}

/// A plugin is found by its name, where there is one of that name: the first of them.
pub proof fn plugins_are_found(plugins: Seq<PluginView>, name: Seq<char>, i: int)
    ensures
        plugin_named(plugins, name) matches Some(plugin) ==> plugins.contains(plugin)
            && plugin.name == name,
        0 <= i < plugins.len() && plugins[i].name == name ==> plugin_named(plugins, name) is Some,
        0 <= i < plugins.len() && plugins[i].name == name && (forall|k: int|
            0 <= k < i ==> (#[trigger] plugins[k]).name != name) ==> plugin_named(plugins, name)
            == Some(plugins[i]),
    decreases plugins.len(),
{
    if plugins.len() > 0 {
        let front = plugins.drop_last();
        let n = plugins.len() - 1;
        plugins_are_found(front, name, i);
        assert(forall|k: int| 0 <= k < front.len() ==> (#[trigger] front[k]) == plugins[k]);
        if let Some(plugin) = plugin_named(front, name) {
            assert(front.contains(plugin));
            let k = choose|k: int| 0 <= k < front.len() && front[k] == plugin;
            assert(plugins[k] == plugin);
            if i == n && (forall|k: int| 0 <= k < i ==> (#[trigger] plugins[k]).name != name) {
                assert(plugins[k].name != name);
            }
        } else {
            assert(plugins[n] == plugins.last());
        }
    }
}

/// Where the skills of a plugin are is known under its name, where the plugin is switched
/// on and has some; of plugins of one name the last counts. Nothing else is known.
pub proof fn skills_are_found(plugins: Seq<PluginView>, name: Seq<char>, i: int)
    ensures
        skill_sources(plugins).contains_key(name) ==> exists|k: int| #[trigger]
            skilled_at(plugins, name, k) && plugins[k].skills == Some(skill_sources(plugins)[name]),
        skilled_at(plugins, name, i) ==> skill_sources(plugins).contains_key(name),
        skilled_at(plugins, name, i) && (forall|k: int|
            k > i ==> !#[trigger] skilled_at(plugins, name, k)) ==> plugins[i].skills == Some(
            skill_sources(plugins)[name],
        ),
    decreases plugins.len(),
{
    if plugins.len() > 0 {
        let front = plugins.drop_last();
        let n = plugins.len() - 1;
        skills_are_found(front, name, i);
        assert forall|k: int| k != n implies (#[trigger] skilled_at(plugins, name, k)
            <==> skilled_at(front, name, k)) by {}
        if skill_sources(plugins).contains_key(name) {
            if skilled_at(plugins, name, n) {
                assert(plugins[n].skills == Some(skill_sources(plugins)[name]));
            } else {
                let k = choose|k: int| #[trigger]
                    skilled_at(front, name, k) && front[k].skills == Some(
                        skill_sources(front)[name],
                    );
                assert(skilled_at(plugins, name, k));
            }
        }
        if skilled_at(plugins, name, i) && (forall|k: int|
            k > i ==> !#[trigger] skilled_at(plugins, name, k)) {
            if i < n {
                assert(!skilled_at(plugins, name, n));
                assert forall|k: int| k > i implies !#[trigger] skilled_at(front, name, k) by {
                    assert(!skilled_at(plugins, name, k));
                }
            }
        }
    }
}

/// Whether the plugin at place `i` is switched on, has a name and has skills.
pub open spec fn skilled_at(plugins: Seq<PluginView>, name: Seq<char>, i: int) -> bool {
    0 <= i < plugins.len() && plugins[i].enabled && plugins[i].name == name
        && plugins[i].skills is Some
}

/// Whatever plugins bring was brought by one of them that is switched on, under its own
/// name.
pub proof fn nothing_else_is_brought(
    plugins: Seq<PluginView>,
    kind: spec_fn(PluginView) -> Seq<ContributionView>,
    name: Seq<char>,
)
    requires
        brought(plugins, kind).contains_key(name),
    ensures
        brought(plugins, kind)[name].name == name,
        exists|k: int|
            0 <= k < plugins.len() && (#[trigger] plugins[k]).enabled && kind(plugins[k]).contains(
                brought(plugins, kind)[name],
            ),
    decreases plugins.len(),
{
    let front = plugins.drop_last();
    let n = plugins.len() - 1;
    let before = brought(front, kind);
    let item = brought(plugins, kind)[name];
    if plugins.last().enabled {
        merged_from_either(before, kind(plugins.last()), name);
        if kind(plugins.last()).contains(item) && item.name == name {
            assert(plugins[n].enabled && kind(plugins[n]).contains(item));
        } else {
            nothing_else_is_brought(front, kind, name);
            let k = choose|k: int|
                0 <= k < front.len() && (#[trigger] front[k]).enabled && kind(front[k]).contains(
                    item,
                );
            assert(plugins[k] == front[k]);
        }
    } else {
        nothing_else_is_brought(front, kind, name);
        let k = choose|k: int|
            0 <= k < front.len() && (#[trigger] front[k]).enabled && kind(front[k]).contains(item);
        assert(plugins[k] == front[k]);
    }
}

proof fn merged_from_either(
    before: Map<Seq<char>, ContributionView>,
    items: Seq<ContributionView>,
    name: Seq<char>,
)
    requires
        merged(before, items).contains_key(name),
    ensures
        (items.contains(merged(before, items)[name]) && merged(before, items)[name].name == name)
            || (before.contains_key(name) && merged(before, items)[name] == before[name]),
    decreases items.len(),
{
    if items.len() > 0 {
        if items.last().name == name {
            assert(items[items.len() - 1] == items.last());
        } else {
            let front = items.drop_last();
            merged_from_either(before, front, name);
            let item = merged(before, front)[name];
            if front.contains(item) {
                let k = choose|k: int| 0 <= k < front.len() && front[k] == item;
                assert(items[k] == item);
            }
        }
    }
}

/// What is brought comes out by its names, each in its place.
pub proof fn items_come_by_name(
    keys: Seq<Seq<char>>,
    table: Map<Seq<char>, ContributionView>,
    i: int,
)
    requires
        0 <= i < keys.len(),
    ensures
        in_key_order(keys, table).len() == keys.len(),
        in_key_order(keys, table)[i] == table[keys[i]],
{
}

/// The agents of the plugins that are switched on are there as agents, and their commands
/// as commands, each under its name; of one name the last counts.
pub proof fn agents_and_commands_are_there(plugins: Seq<PluginView>, k: int, i: int)
    requires
        0 <= k < plugins.len(),
        plugins[k].enabled,
    ensures
        0 <= i < plugins[k].agents.len() && lacks(
            plugins[k].agents.skip(i + 1),
            plugins[k].agents[i].name,
        ) && (forall|j: int|
            k < j < plugins.len() && (#[trigger] plugins[j]).enabled ==> lacks(
                plugins[j].agents,
                plugins[k].agents[i].name,
            )) ==> all_agents(plugins).contains_key(plugins[k].agents[i].name) && all_agents(
            plugins,
        )[plugins[k].agents[i].name] == plugins[k].agents[i],
        0 <= i < plugins[k].commands.len() && lacks(
            plugins[k].commands.skip(i + 1),
            plugins[k].commands[i].name,
        ) && (forall|j: int|
            k < j < plugins.len() && (#[trigger] plugins[j]).enabled ==> lacks(
                plugins[j].commands,
                plugins[k].commands[i].name,
            )) ==> all_commands(plugins).contains_key(plugins[k].commands[i].name)
            && all_commands(plugins)[plugins[k].commands[i].name] == plugins[k].commands[i],
{
    if 0 <= i < plugins[k].agents.len() && lacks(
        plugins[k].agents.skip(i + 1),
        plugins[k].agents[i].name,
    ) && (forall|j: int|
        k < j < plugins.len() && (#[trigger] plugins[j]).enabled ==> lacks(
            plugins[j].agents,
            plugins[k].agents[i].name,
        )) {
        later_plugins_win(plugins, agents_of(), k, i);
    }
    if 0 <= i < plugins[k].commands.len() && lacks(
        plugins[k].commands.skip(i + 1),
        plugins[k].commands[i].name,
    ) && (forall|j: int|
        k < j < plugins.len() && (#[trigger] plugins[j]).enabled ==> lacks(
            plugins[j].commands,
            plugins[k].commands[i].name,
        )) {
        later_plugins_win(plugins, commands_of(), k, i);
    }
}

} // verus!
