//! Plugins: folders that bring skills, agents and commands under a name of their own.
use vstd::prelude::*;

use crate::json::{Json, JsonView, json_read};
use crate::order::{
    as_ints, by_name, less, lists, lists_are_unique, names_are_ordered, ordered,
    ordered_is_sorted, rank_by_name,
};
use crate::table::{Table, empty_table, insert_into};
use crate::text::{
    WordScan, chars_of, contains, has, is_white, join, joined, push_to, same, scan_words, words,
    words_of,
};

verus! {

/// How long the name of a plugin may be.
pub const MAX_PLUGIN_NAME: usize = 64;

/// What a manifest says; what it leaves out has its default.
#[derive(Debug)]
pub struct Manifest {
    pub name: Option<String>,
    pub version: Option<String>,
    pub description: Option<String>,
    pub enabled: bool,
}

/// The model of a manifest.
pub ghost struct ManifestView {
    pub name: Option<Seq<char>>,
    pub version: Option<Seq<char>>,
    pub description: Option<Seq<char>>,
    pub enabled: bool,
}

impl DeepView for Manifest {
    type V = ManifestView;

    open spec fn deep_view(&self) -> ManifestView {
        ManifestView {
            name: self.name.deep_view(),
            version: self.version.deep_view(),
            description: self.description.deep_view(),
            enabled: self.enabled,
        }
    }
}

/// What holds without a manifest.
pub open spec fn no_manifest() -> ManifestView {
    ManifestView { name: None, version: None, description: None, enabled: true }
}

impl Default for Manifest {
    fn default() -> (r: Manifest)
        ensures
            r.deep_view() == no_manifest(),
    {
        Manifest { name: None, version: None, description: None, enabled: true }
    }
}

/// Whether an object switches its plugin on.
pub open spec fn enabled_in(json: JsonView) -> Option<bool> {
    match json.get("enabled"@) {
        None => Some(true),
        Some(value) => value.flag(),
    }
}

/// The manifest that a value spells.
pub open spec fn manifest_in(json: JsonView) -> Option<ManifestView> {
    match (
        json is Object,
        json.optional_text("name"@),
        json.optional_text("version"@),
        json.optional_text("description"@),
        enabled_in(json),
    ) {
        (true, Some(name), Some(version), Some(description), Some(enabled)) => Some(
            ManifestView { name, version, description, enabled },
        ),
        _ => None,
    }
}

/// The manifest in a file, as it was read. One that is missing or malformed counts as
/// none.
pub open spec fn manifest_read(read: Option<Result<JsonView, Seq<char>>>) -> ManifestView {
    match read {
        Some(Ok(json)) => match manifest_in(json) {
            Some(manifest) => manifest,
            None => no_manifest(),
        },
        _ => no_manifest(),
    }
}

impl Manifest {
    /// The manifest that a value spells.
    pub fn from_json(json: &Json) -> (r: Option<Manifest>)
        ensures
            r.deep_view() == manifest_in(json.deep_view()),
    {
        match json {
            Json::Object(_) => {},
            _ => {
                return None;
            },
        }
        let enabled = match json.get("enabled") {
            None => Some(true),
            Some(value) => value.as_flag(),
        };
        match (
            json.optional_text_at("name"),
            json.optional_text_at("version"),
            json.optional_text_at("description"),
            enabled,
        ) {
            (Some(name), Some(version), Some(description), Some(enabled)) => Some(
                Manifest { name, version, description, enabled },
            ),
            _ => None,
        }
    }
}

/// The manifest in a file; `None` stands for a file that could not be read.
pub fn read_manifest(text: Option<&str>) -> (r: Manifest)
    ensures
        r.deep_view() == manifest_read(
            match text {
                Some(text) => Some(json_read(text@)),
                None => None,
            },
        ),
{
    match text {
        Some(text) => match Json::parse(text) {
            Ok(json) => match Manifest::from_json(&json) {
                Some(manifest) => manifest,
                None => Manifest::default(),
            },
            Err(_) => Manifest::default(),
        },
        None => Manifest::default(),
    }
}

/// A name with each run of white space as one space, and none around it.
pub open spec fn collapsed(raw: Seq<char>) -> Seq<char> {
    join(words(raw), " "@)
}

/// The namespace that a name makes: one that is not empty, has no colon in it and is not
/// too long.
pub open spec fn namespace(raw: Seq<char>) -> Option<Seq<char>> {
    let s = collapsed(raw);
    if s.len() > 0 && !contains(s, ":"@) && s.len() <= MAX_PLUGIN_NAME {
        Some(s)
    } else {
        None
    }
}

/// The namespace that a name makes.
pub fn namespace_of(raw: &str) -> (r: Option<String>)
    ensures
        r.deep_view() == namespace(raw@),
{
    let s = joined(&words_of(raw), " ");
    let n: usize = chars_of(s.as_str()).len();
    let colon = has(s.as_str(), ":");
    if n > 0 && !colon && n <= MAX_PLUGIN_NAME {
        Some(s)
    } else {
        None
    }
}

/// Whether a word is one: not empty, and without white space.
pub open spec fn is_word(w: Seq<char>) -> bool {
    w.len() > 0 && forall|i: int| 0 <= i < w.len() ==> !is_white(#[trigger] w[i])
}

proof fn scans_find_words(s: Seq<char>)
    ensures
        forall|i: int|
            0 <= i < scan_words(s).done.len() ==> is_word(#[trigger] scan_words(s).done[i]),
        forall|i: int|
            0 <= i < scan_words(s).current.len() ==> !is_white(
                #[trigger] scan_words(s).current[i],
            ),
    decreases s.len(),
{
    if s.len() > 0 {
        let before = scan_words(s.drop_last());
        let now = scan_words(s);
        scans_find_words(s.drop_last());
        assert forall|i: int| 0 <= i < now.done.len() implies is_word(#[trigger] now.done[i]) by {
            if i < before.done.len() {
                assert(now.done[i] == before.done[i]);
                assert(is_word(before.done[i]));
            } else {
                assert(now.done[i] == before.current);
            }
        }
        assert forall|i: int| 0 <= i < now.current.len() implies !is_white(
            #[trigger] now.current[i],
        ) by {
            if i < before.current.len() {
                assert(now.current[i] == before.current[i]);
            }
        }
    }
}

/// The words of a text are words.
pub proof fn words_are_words(s: Seq<char>)
    ensures
        forall|i: int| 0 <= i < words(s).len() ==> is_word(#[trigger] words(s)[i]),
{
    scans_find_words(s);
}

proof fn scan_of_a_word_behind(s: Seq<char>, w: Seq<char>)
    requires
        forall|i: int| 0 <= i < w.len() ==> !is_white(#[trigger] w[i]),
    ensures
        scan_words(s + w) == (WordScan {
            done: scan_words(s).done,
            current: scan_words(s).current + w,
        }),
    decreases w.len(),
{
    if w.len() == 0 {
        assert(s + w =~= s);
        assert(scan_words(s).current + w =~= scan_words(s).current);
    } else {
        let shorter = w.drop_last();
        assert forall|i: int| 0 <= i < shorter.len() implies !is_white(#[trigger] shorter[i]) by {
            assert(shorter[i] == w[i]);
        }
        scan_of_a_word_behind(s, shorter);
        assert((s + w).drop_last() =~= s + shorter);
        assert((s + w).last() == w.last());
        assert(!is_white(w[w.len() - 1]));
        assert((scan_words(s).current + shorter).push(w.last()) =~= scan_words(s).current + w);
    }
}

proof fn scan_of_joined_words(parts: Seq<Seq<char>>)
    requires
        parts.len() > 0,
        forall|i: int| 0 <= i < parts.len() ==> is_word(#[trigger] parts[i]),
    ensures
        scan_words(join(parts, " "@)) == (WordScan {
            done: parts.drop_last(),
            current: parts.last(),
        }),
    decreases parts.len(),
{
    reveal_strlit(" ");
    assert(is_word(parts[parts.len() - 1]));
    if parts.len() == 1 {
        let nothing = Seq::<char>::empty();
        scan_of_a_word_behind(nothing, parts[0]);
        assert(nothing + parts[0] =~= parts[0]);
        assert(join(parts, " "@) =~= parts[0]);
        assert(parts.drop_last() =~= Seq::empty());
        assert(scan_words(nothing).current + parts[0] =~= parts[0]);
    } else {
        let before = parts.drop_last();
        assert forall|i: int| 0 <= i < before.len() implies is_word(#[trigger] before[i]) by {
            assert(before[i] == parts[i]);
        }
        scan_of_joined_words(before);
        let front = join(before, " "@);
        let spaced = front.push(' ');
        assert(is_word(before[before.len() - 1]));
        assert(spaced.drop_last() =~= front);
        assert(before.drop_last().push(before.last()) =~= before);
        assert(scan_words(spaced) == (WordScan { done: before, current: Seq::empty() }));
        scan_of_a_word_behind(spaced, parts.last());
        assert(join(parts, " "@) =~= spaced + parts.last());
        assert(Seq::<char>::empty() + parts.last() =~= parts.last());
    }
}

/// Words that were joined are found again.
pub proof fn joined_words_are_the_words(parts: Seq<Seq<char>>)
    requires
        forall|i: int| 0 <= i < parts.len() ==> is_word(#[trigger] parts[i]),
    ensures
        words(join(parts, " "@)) == parts,
{
    if parts.len() == 0 {
        assert(join(parts, " "@) =~= Seq::empty());
        assert(words(join(parts, " "@)) =~= parts);
    } else {
        scan_of_joined_words(parts);
        assert(is_word(parts[parts.len() - 1]));
        assert(parts.drop_last().push(parts.last()) =~= parts);
    }
}

/// A namespace is its own namespace.
pub proof fn namespaces_are_stable(raw: Seq<char>)
    requires
        namespace(raw) is Some,
    ensures
        namespace(namespace(raw)->0) == namespace(raw),
{
    words_are_words(raw);
    joined_words_are_the_words(words(raw));
}

/// Something that a plugin brings: an agent or a command, by its name.
#[derive(Debug, PartialEq)]
pub struct Contribution {
    pub name: String,
    pub body: String,
}

/// The model of something that a plugin brings.
pub ghost struct ContributionView {
    pub name: Seq<char>,
    pub body: Seq<char>,
}

impl DeepView for Contribution {
    type V = ContributionView;

    open spec fn deep_view(&self) -> ContributionView {
        ContributionView { name: self.name@, body: self.body@ }
    }
}

impl Clone for Contribution {
    fn clone(&self) -> (r: Contribution)
        ensures
            r.deep_view() == self.deep_view(),
    {
        Contribution { name: self.name.clone(), body: self.body.clone() }
    }
}

fn copies(items: &Vec<Contribution>) -> (r: Vec<Contribution>)
    ensures
        r.deep_view() == items.deep_view(),
{
    let mut out: Vec<Contribution> = Vec::new();
    let mut i: usize = 0;
    let ghost all = items.deep_view();
    assert(out.deep_view() =~= all.take(0));
    while i < items.len()
        invariant
            i <= items@.len(),
            all == items.deep_view(),
            out.deep_view() == all.take(i as int),
        decreases items@.len() - i,
    {
        push_to(&mut out, items[i].clone());
        assert(out.deep_view() =~= all.take(i + 1));
        i = i + 1;
    }
    assert(all.take(i as int) =~= all);
    out
}

/// A plugin. `skills` is the number under which the caller keeps the folder of its skills,
/// where it has one.
#[derive(Debug)]
pub struct Plugin {
    pub name: String,
    pub version: Option<String>,
    pub description: Option<String>,
    pub enabled: bool,
    pub skills: Option<usize>,
    pub agents: Vec<Contribution>,
    pub commands: Vec<Contribution>,
}

/// The model of a plugin.
pub ghost struct PluginView {
    pub name: Seq<char>,
    pub version: Option<Seq<char>>,
    pub description: Option<Seq<char>>,
    pub enabled: bool,
    pub skills: Option<usize>,
    pub agents: Seq<ContributionView>,
    pub commands: Seq<ContributionView>,
}

impl DeepView for Plugin {
    type V = PluginView;

    open spec fn deep_view(&self) -> PluginView {
        PluginView {
            name: self.name@,
            version: self.version.deep_view(),
            description: self.description.deep_view(),
            enabled: self.enabled,
            skills: self.skills,
            agents: self.agents.deep_view(),
            commands: self.commands.deep_view(),
        }
    }
}

impl Clone for Plugin {
    fn clone(&self) -> (r: Plugin)
        ensures
            r.deep_view() == self.deep_view(),
    {
        Plugin {
            name: self.name.clone(),
            version: self.version.clone(),
            description: self.description.clone(),
            enabled: self.enabled,
            skills: self.skills,
            agents: copies(&self.agents),
            commands: copies(&self.commands),
        }
    }
}

/// The plugin in a folder: under the name that its manifest gives, or that of the folder,
/// where that makes a namespace.
pub open spec fn plugin_in(
    folder: Seq<char>,
    manifest: ManifestView,
    skills: Option<usize>,
    agents: Seq<ContributionView>,
    commands: Seq<ContributionView>,
) -> Option<PluginView> {
    let raw = match manifest.name {
        Some(name) => name,
        None => folder,
    };
    match namespace(raw) {
        Some(name) => Some(
            PluginView {
                name,
                version: manifest.version,
                description: manifest.description,
                enabled: manifest.enabled,
                skills,
                agents,
                commands,
            },
        ),
        None => None,
    }
}

impl Plugin {
    /// The plugin in a folder, by what was read of it.
    pub fn load(
        folder: &str,
        manifest: Manifest,
        skills: Option<usize>,
        agents: Vec<Contribution>,
        commands: Vec<Contribution>,
    ) -> (r: Option<Plugin>)
        ensures
            r.deep_view() == plugin_in(
                folder@,
                manifest.deep_view(),
                skills,
                agents.deep_view(),
                commands.deep_view(),
            ),
    {
        let raw = match &manifest.name {
            Some(name) => name.as_str(),
            None => folder,
        };
        match namespace_of(raw) {
            Some(name) => Some(
                Plugin {
                    name,
                    version: manifest.version,
                    description: manifest.description,
                    enabled: manifest.enabled,
                    skills,
                    agents,
                    commands,
                },
            ),
            None => None,
        }
    }
}

/// All plugins, in the order of their names.
#[derive(Debug)]
pub struct PluginManager {
    pub plugins: Vec<Plugin>,
}

impl DeepView for PluginManager {
    type V = Seq<PluginView>;

    open spec fn deep_view(&self) -> Seq<PluginView> {
        self.plugins.deep_view()
    }
}

/// The names of plugins.
pub open spec fn plugin_names(plugins: Seq<PluginView>) -> Seq<Seq<char>> {
    plugins.map_values(|plugin: PluginView| plugin.name)
}

/// The plugins in the order of their names; those of one name stay as they came.
pub open spec fn sorted_plugins(plugins: Seq<PluginView>) -> Seq<PluginView> {
    ordered(plugins.len(), by_name(plugin_names(plugins))).map_values(|i: int| plugins[i])
}

/// The first plugin of the given name.
pub open spec fn plugin_named(plugins: Seq<PluginView>, name: Seq<char>) -> Option<PluginView>
    decreases plugins.len(),
{
    if plugins.len() == 0 {
        None
    } else {
        match plugin_named(plugins.drop_last(), name) {
            Some(plugin) => Some(plugin),
            None => if plugins.last().name == name {
                Some(plugins.last())
            } else {
                None
            },
        }
    }
}

proof fn first_stays_first(plugins: Seq<PluginView>, name: Seq<char>, k: int)
    requires
        0 <= k <= plugins.len(),
        plugin_named(plugins.take(k), name) is Some,
    ensures
        plugin_named(plugins, name) == plugin_named(plugins.take(k), name),
    decreases plugins.len() - k,
{
    if k < plugins.len() {
        assert(plugins.take(k + 1).drop_last() =~= plugins.take(k));
        first_stays_first(plugins, name, k + 1);
    } else {
        assert(plugins.take(k) =~= plugins);
    }
}

/// What a list brings, by name, on top of what is there. What comes later wins.
pub open spec fn merged(
    before: Map<Seq<char>, ContributionView>,
    items: Seq<ContributionView>,
) -> Map<Seq<char>, ContributionView>
    decreases items.len(),
{
    if items.len() == 0 {
        before
    } else {
        merged(before, items.drop_last()).insert(items.last().name, items.last())
    }
}

/// What the enabled plugins bring of one kind, by name.
pub open spec fn brought(
    plugins: Seq<PluginView>,
    kind: spec_fn(PluginView) -> Seq<ContributionView>,
) -> Map<Seq<char>, ContributionView>
    decreases plugins.len(),
{
    if plugins.len() == 0 {
        Map::empty()
    } else {
        let before = brought(plugins.drop_last(), kind);
        if plugins.last().enabled {
            merged(before, kind(plugins.last()))
        } else {
            before
        }
    }
}

/// The agents of a plugin.
pub open spec fn agents_of() -> spec_fn(PluginView) -> Seq<ContributionView> {
    |plugin: PluginView| plugin.agents
}

/// The commands of a plugin.
pub open spec fn commands_of() -> spec_fn(PluginView) -> Seq<ContributionView> {
    |plugin: PluginView| plugin.commands
}

/// The agents that the enabled plugins bring, by name.
pub open spec fn all_agents(plugins: Seq<PluginView>) -> Map<Seq<char>, ContributionView> {
    brought(plugins, agents_of())
}

/// The commands that the enabled plugins bring, by name.
pub open spec fn all_commands(plugins: Seq<PluginView>) -> Map<Seq<char>, ContributionView> {
    brought(plugins, commands_of())
}

/// Where the skills of the enabled plugins are, by namespace.
pub open spec fn skill_sources(plugins: Seq<PluginView>) -> Map<Seq<char>, usize>
    decreases plugins.len(),
{
    if plugins.len() == 0 {
        Map::empty()
    } else {
        let before = skill_sources(plugins.drop_last());
        match (plugins.last().enabled, plugins.last().skills) {
            (true, Some(place)) => before.insert(plugins.last().name, place),
            _ => before,
        }
    }
}

/// The values of a table by their keys in order.
pub open spec fn in_key_order(
    keys: Seq<Seq<char>>,
    table: Map<Seq<char>, ContributionView>,
) -> Seq<ContributionView> {
    keys.map_values(|key: Seq<char>| table[key])
}

fn merge(table: &mut Table<Contribution>, items: &Vec<Contribution>)
    ensures
        final(table).deep_view() == merged(old(table).deep_view(), items.deep_view()),
{
    let ghost before = table.deep_view();
    let ghost all = items.deep_view();
    let mut i: usize = 0;
    while i < items.len()
        invariant
            i <= items@.len(),
            all == items.deep_view(),
            table.deep_view() == merged(before, all.take(i as int)),
        decreases items@.len() - i,
    {
        assert(all.take(i + 1).drop_last() =~= all.take(i as int));
        insert_into(table, items[i].name.as_str(), items[i].clone());
        i = i + 1;
    }
    assert(all.take(i as int) =~= all);
}

fn values_in_order(table: &Table<Contribution>) -> (r: Vec<Contribution>)
    ensures
        forall|keys: Seq<Seq<char>>| #[trigger]
            lists(keys, table.deep_view().dom()) ==> r.deep_view() == in_key_order(
                keys,
                table.deep_view(),
            ),
{
    let names = table.sorted_keys();
    let ghost order = names.deep_view();
    let ghost values = table.deep_view();
    assert(values.dom() =~= table@.dom());
    let mut out: Vec<Contribution> = Vec::new();
    let mut i: usize = 0;
    assert(out.deep_view() =~= in_key_order(order.take(0), values));
    while i < names.len()
        invariant
            i <= names@.len(),
            order == names.deep_view(),
            values == table.deep_view(),
            lists(order, values.dom()),
            out.deep_view() == in_key_order(order.take(i as int), values),
        decreases names@.len() - i,
    {
        proof {
            assert(order[i as int] == names@[i as int]@);
            assert(order.contains(order[i as int]));
            assert(values.dom().contains(order[i as int]));
        }
        match table.get(names[i].as_str()) {
            Some(value) => {
                push_to(&mut out, value.clone());
            },
            None => {
                assert(false);
            },
        }
        assert(out.deep_view() =~= in_key_order(order.take(i + 1), values));
        i = i + 1;
    }
    proof {
        assert(order.take(i as int) =~= order);
        assert forall|keys: Seq<Seq<char>>| #[trigger] lists(keys, values.dom()) implies
            out.deep_view() == in_key_order(keys, values) by {
            lists_are_unique(keys, order, values.dom());
        }
    }
    out
}

impl Default for PluginManager {
    fn default() -> (r: PluginManager)
        ensures
            r.deep_view() == Seq::<PluginView>::empty(),
    {
        PluginManager::new()
    }
}

impl PluginManager {
    /// No plugins.
    pub fn new() -> (r: PluginManager)
        ensures
            r.deep_view() == Seq::<PluginView>::empty(),
    {
        let r = PluginManager { plugins: Vec::new() };
        assert(r.deep_view() =~= Seq::empty());
        r
    }

    /// The plugins that were found, in the order of their names.
    pub fn from_found(found: &Vec<Plugin>) -> (r: PluginManager)
        ensures
            r.deep_view() == sorted_plugins(found.deep_view()),
    {
        let ghost all = found.deep_view();
        let mut names: Vec<String> = Vec::new();
        let mut i: usize = 0;
        assert(names.deep_view() =~= plugin_names(all.take(0)));
        while i < found.len()
            invariant
                i <= found@.len(),
                all == found.deep_view(),
                names.deep_view() == plugin_names(all.take(i as int)),
            decreases found@.len() - i,
        {
            push_to(&mut names, found[i].name.clone());
            assert(names.deep_view() =~= plugin_names(all.take(i + 1)));
            i = i + 1;
        }
        assert(all.take(i as int) =~= all);
        assert(names@.len() == plugin_names(all).len());
        let order = rank_by_name(&names);
        let ghost sorted = sorted_plugins(all);
        let mut plugins: Vec<Plugin> = Vec::new();
        let mut k: usize = 0;
        assert(as_ints(order@).len() == order@.len());
        assert(plugins.deep_view() =~= sorted.take(0));
        while k < order.len()
            invariant
                k <= order@.len(),
                all == found.deep_view(),
                sorted == sorted_plugins(all),
                sorted.len() == order@.len(),
                as_ints(order@) == ordered(all.len(), by_name(plugin_names(all))),
                forall|j: int| 0 <= j < order@.len() ==> #[trigger] order@[j] < found@.len(),
                plugins.deep_view() == sorted.take(k as int),
            decreases order@.len() - k,
        {
            assert(sorted[k as int] == all[as_ints(order@)[k as int]]);
            push_to(&mut plugins, found[order[k]].clone());
            assert(plugins.deep_view() =~= sorted.take(k + 1));
            k = k + 1;
        }
        assert(sorted.take(k as int) =~= sorted);
        PluginManager { plugins }
    }

    /// Whether there are no plugins.
    pub fn is_empty(&self) -> (r: bool)
        ensures
            r == (self.deep_view().len() == 0),
    {
        self.plugins.len() == 0
    }

    /// How many plugins there are.
    pub fn len(&self) -> (r: usize)
        ensures
            r == self.deep_view().len(),
    {
        self.plugins.len()
    }

    /// The first plugin of the given name.
    pub fn get(&self, name: &str) -> (r: Option<&Plugin>)
        ensures
            r.deep_view() == plugin_named(self.deep_view(), name@),
    {
        let mut i: usize = 0;
        let ghost all = self.plugins.deep_view();
        while i < self.plugins.len()
            invariant
                i <= self.plugins@.len(),
                all == self.plugins.deep_view(),
                plugin_named(all.take(i as int), name@) is None,
            decreases self.plugins@.len() - i,
        {
            assert(all.take(i + 1).drop_last() =~= all.take(i as int));
            if same(self.plugins[i].name.as_str(), name) {
                proof {
                    first_stays_first(all, name@, i + 1);
                }
                return Some(&self.plugins[i]);
            }
            i = i + 1;
        }
        assert(all.take(i as int) =~= all);
        None
    }

    /// The names of the plugins.
    pub fn names(&self) -> (r: Vec<&str>)
        ensures
            r.deep_view() == plugin_names(self.deep_view()),
    {
        let mut names: Vec<&str> = Vec::new();
        let mut i: usize = 0;
        let ghost all = self.plugins.deep_view();
        assert(names.deep_view() =~= plugin_names(all.take(0)));
        while i < self.plugins.len()
            invariant
                i <= self.plugins@.len(),
                all == self.plugins.deep_view(),
                names.deep_view() == plugin_names(all.take(i as int)),
            decreases self.plugins@.len() - i,
        {
            push_to(&mut names, self.plugins[i].name.as_str());
            assert(names.deep_view() =~= plugin_names(all.take(i + 1)));
            i = i + 1;
        }
        assert(all.take(i as int) =~= all);
        names
    }

    /// Where the skills of the enabled plugins are, by namespace.
    pub fn skills(&self) -> (r: Table<usize>)
        ensures
            r@ == skill_sources(self.deep_view()),
    {
        let mut sources: Table<usize> = Table::new();
        let mut i: usize = 0;
        let ghost all = self.plugins.deep_view();
        while i < self.plugins.len()
            invariant
                i <= self.plugins@.len(),
                all == self.plugins.deep_view(),
                sources@ == skill_sources(all.take(i as int)),
            decreases self.plugins@.len() - i,
        {
            assert(all.take(i + 1).drop_last() =~= all.take(i as int));
            let plugin = &self.plugins[i];
            match (plugin.enabled, plugin.skills) {
                (true, Some(place)) => {
                    sources.insert(plugin.name.as_str(), place);
                },
                _ => {},
            }
            i = i + 1;
        }
        assert(all.take(i as int) =~= all);
        sources
    }

    /// The agents that the enabled plugins bring, in the order of their names. Where two
    /// have one name, the later plugin's counts.
    pub fn agents(&self) -> (r: Vec<Contribution>)
        ensures
            forall|keys: Seq<Seq<char>>| #[trigger]
                lists(keys, all_agents(self.deep_view()).dom()) ==> r.deep_view() == in_key_order(
                    keys,
                    all_agents(self.deep_view()),
                ),
    {
        let mut table: Table<Contribution> = empty_table();
        let mut i: usize = 0;
        let ghost all = self.plugins.deep_view();
        while i < self.plugins.len()
            invariant
                i <= self.plugins@.len(),
                all == self.plugins.deep_view(),
                table.deep_view() == brought(all.take(i as int), agents_of()),
            decreases self.plugins@.len() - i,
        {
            assert(all.take(i + 1).drop_last() =~= all.take(i as int));
            if self.plugins[i].enabled {
                merge(&mut table, &self.plugins[i].agents);
            }
            i = i + 1;
        }
        assert(all.take(i as int) =~= all);
        values_in_order(&table)
    }

    /// The commands that the enabled plugins bring, in the order of their names. Where two
    /// have one name, the later plugin's counts.
    pub fn commands(&self) -> (r: Vec<Contribution>)
        ensures
            forall|keys: Seq<Seq<char>>| #[trigger]
                lists(keys, all_commands(self.deep_view()).dom()) ==> r.deep_view()
                    == in_key_order(keys, all_commands(self.deep_view())),
    {
        let mut table: Table<Contribution> = empty_table();
        let mut i: usize = 0;
        let ghost all = self.plugins.deep_view();
        while i < self.plugins.len()
            invariant
                i <= self.plugins@.len(),
                all == self.plugins.deep_view(),
                table.deep_view() == brought(all.take(i as int), commands_of()),
            decreases self.plugins@.len() - i,
        {
            assert(all.take(i + 1).drop_last() =~= all.take(i as int));
            if self.plugins[i].enabled {
                merge(&mut table, &self.plugins[i].commands);
            }
            i = i + 1;
        }
        assert(all.take(i as int) =~= all);
        values_in_order(&table)
    }
}

/// Plugins stand in the order of their names, and none is lost.
pub proof fn plugins_are_sorted(plugins: Seq<PluginView>)
    ensures
        sorted_plugins(plugins).len() == plugins.len(),
        forall|i: int, j: int|
            0 <= i < j < plugins.len() ==> !less(
                (#[trigger] sorted_plugins(plugins)[j]).name,
                (#[trigger] sorted_plugins(plugins)[i]).name,
            ),
        forall|plugin: PluginView|
            plugins.contains(plugin) ==> #[trigger] sorted_plugins(plugins).contains(plugin),
{
    let names = plugin_names(plugins);
    let order = ordered(plugins.len(), by_name(names));
    names_are_ordered(names);
    ordered_is_sorted(plugins.len(), by_name(names));
    let sorted = sorted_plugins(plugins);
    assert forall|i: int, j: int| 0 <= i < j < plugins.len() implies !less(
        (#[trigger] sorted[j]).name,
        (#[trigger] sorted[i]).name,
    ) by {
        assert(order.contains(order[i]) && order.contains(order[j]));
        assert(!by_name(names)(order[j], order[i]));
        assert(names[order[i]] == sorted[i].name && names[order[j]] == sorted[j].name);
    }
    assert forall|plugin: PluginView| plugins.contains(plugin) implies #[trigger] sorted.contains(
        plugin,
    ) by {
        let i = choose|i: int| 0 <= i < plugins.len() && plugins[i] == plugin;
        assert(order.contains(i));
        let k = choose|k: int| 0 <= k < order.len() && order[k] == i;
        assert(sorted[k] == plugin);
    }
}

/// A plugin that is switched off brings nothing: without it everything is the same.
pub proof fn disabled_plugins_bring_nothing(
    before: Seq<PluginView>,
    off: PluginView,
    after: Seq<PluginView>,
    kind: spec_fn(PluginView) -> Seq<ContributionView>,
)
    requires
        !off.enabled,
    ensures
        brought(before.push(off) + after, kind) == brought(before + after, kind),
        skill_sources(before.push(off) + after) == skill_sources(before + after),
    decreases after.len(),
{
    let with = before.push(off) + after;
    let without = before + after;
    if after.len() == 0 {
        assert(with.drop_last() =~= without);
        assert(with.last() == off);
    } else {
        disabled_plugins_bring_nothing(before, off, after.drop_last(), kind);
        assert(with.drop_last() =~= before.push(off) + after.drop_last());
        assert(without.drop_last() =~= before + after.drop_last());
        assert(with.last() == after.last() && without.last() == after.last());
    }
}

/// Whether none of the items has the given name.
pub open spec fn lacks(items: Seq<ContributionView>, name: Seq<char>) -> bool {
    forall|i: int| 0 <= i < items.len() ==> (#[trigger] items[i]).name != name
}

proof fn merging_keeps_others(
    before: Map<Seq<char>, ContributionView>,
    items: Seq<ContributionView>,
    name: Seq<char>,
)
    requires
        lacks(items, name),
    ensures
        merged(before, items).contains_key(name) <==> before.contains_key(name),
        before.contains_key(name) ==> merged(before, items)[name] == before[name],
    decreases items.len(),
{
    if items.len() > 0 {
        let shorter = items.drop_last();
        assert forall|i: int| 0 <= i < shorter.len() implies (#[trigger] shorter[i]).name
            != name by {
            assert(shorter[i] == items[i]);
        }
        merging_keeps_others(before, shorter, name);
        assert(items[items.len() - 1].name != name);
    }
}

proof fn merging_takes_the_last(
    before: Map<Seq<char>, ContributionView>,
    items: Seq<ContributionView>,
    i: int,
)
    requires
        0 <= i < items.len(),
        lacks(items.skip(i + 1), items[i].name),
    ensures
        merged(before, items).contains_key(items[i].name),
        merged(before, items)[items[i].name] == items[i],
    decreases items.len(),
{
    if i < items.len() - 1 {
        let shorter = items.drop_last();
        let rest = shorter.skip(i + 1);
        assert forall|j: int| 0 <= j < rest.len() implies (#[trigger] rest[j]).name
            != items[i].name by {
            assert(rest[j] == items.skip(i + 1)[j]);
        }
        assert(shorter[i] == items[i]);
        merging_takes_the_last(before, shorter, i);
        assert(items.skip(i + 1)[items.len() - 2 - i] == items.last());
    }
}

/// Of all agents or commands of one name that enabled plugins bring, the last counts.
pub proof fn later_plugins_win(
    plugins: Seq<PluginView>,
    kind: spec_fn(PluginView) -> Seq<ContributionView>,
    k: int,
    i: int,
)
    requires
        0 <= k < plugins.len(),
        plugins[k].enabled,
        0 <= i < kind(plugins[k]).len(),
        lacks(kind(plugins[k]).skip(i + 1), kind(plugins[k])[i].name),
        forall|j: int|
            k < j < plugins.len() && (#[trigger] plugins[j]).enabled ==> lacks(
                kind(plugins[j]),
                kind(plugins[k])[i].name,
            ),
    ensures
        brought(plugins, kind).contains_key(kind(plugins[k])[i].name),
        brought(plugins, kind)[kind(plugins[k])[i].name] == kind(plugins[k])[i],
    decreases plugins.len(),
{
    let shorter = plugins.drop_last();
    let before = brought(shorter, kind);
    if k == plugins.len() - 1 {
        merging_takes_the_last(before, kind(plugins[k]), i);
    } else {
        assert(shorter[k] == plugins[k]);
        assert forall|j: int| k < j < shorter.len() && (#[trigger] shorter[j]).enabled implies lacks(
            kind(shorter[j]),
            kind(shorter[k])[i].name,
        ) by {
            assert(shorter[j] == plugins[j]);
        }
        later_plugins_win(shorter, kind, k, i);
        if plugins[plugins.len() - 1].enabled {
            merging_keeps_others(before, kind(plugins.last()), kind(plugins[k])[i].name);
        }
    }
}

} // verus!
