//! Configuration of servers, as an `mcp.json` file spells it.
use vstd::prelude::*;

use crate::json::{
    Json, JsonView, array, empty_fields, entry, entry_push, json_read, no_fields, object, put,
};
use crate::table::{Table, distinct_keys, empty_table, insert_into, table_of, table_of_push};
use crate::text::{labelled, push_to};

verus! {

/// A server that is started as a child process.
#[derive(Debug)]
pub struct StdioServerConfig {
    pub command: String,
    pub args: Vec<String>,
    pub env: Table<String>,
    pub shared: bool,
}

/// A server that is reached by HTTP.
#[derive(Debug)]
pub struct HttpServerConfig {
    pub url: String,
    pub headers: Table<String>,
    pub shared: bool,
}

/// How a server is reached.
#[derive(Debug)]
pub enum McpServerConfig {
    Stdio(StdioServerConfig),
    Http(HttpServerConfig),
}

/// The model of how a server is reached.
pub ghost enum ServerView {
    Stdio {
        command: Seq<char>,
        args: Seq<Seq<char>>,
        env: Map<Seq<char>, Seq<char>>,
        shared: bool,
    },
    Http { url: Seq<char>, headers: Map<Seq<char>, Seq<char>>, shared: bool },
}

impl DeepView for McpServerConfig {
    type V = ServerView;

    open spec fn deep_view(&self) -> ServerView {
        match *self {
            McpServerConfig::Stdio(config) => ServerView::Stdio {
                command: config.command@,
                args: config.args.deep_view(),
                env: config.env.deep_view(),
                shared: config.shared,
            },
            McpServerConfig::Http(config) => ServerView::Http {
                url: config.url@,
                headers: config.headers.deep_view(),
                shared: config.shared,
            },
        }
    }
}

/// Whether a server may be shared unless its configuration says otherwise.
pub const DEFAULT_SHARED: bool = true;

/// Whether a server may be shared unless its configuration says otherwise.
pub fn default_shared() -> (r: bool)
    ensures
        r == DEFAULT_SHARED,
{
    DEFAULT_SHARED
}

/// The texts that values spell, where each spells one.
pub open spec fn texts_in(items: Seq<JsonView>) -> Option<Seq<Seq<char>>>
    decreases items.len(),
{
    if items.len() == 0 {
        Some(Seq::empty())
    } else {
        match (texts_in(items.drop_last()), items.last().text()) {
            (Some(before), Some(text)) => Some(before.push(text)),
            _ => None,
        }
    }
}

proof fn other_items_spell_no_texts(items: Seq<JsonView>, k: int)
    requires
        0 <= k <= items.len(),
        texts_in(items.take(k)) is None,
    ensures
        texts_in(items) is None,
    decreases items.len() - k,
{
    if k < items.len() {
        assert(items.take(k + 1).drop_last() =~= items.take(k));
        other_items_spell_no_texts(items, k + 1);
    } else {
        assert(items.take(k) =~= items);
    }
}

fn texts_of(items: &Vec<Json>) -> (r: Option<Vec<String>>)
    ensures
        r.deep_view() == texts_in(items.deep_view()),
{
    let mut texts: Vec<String> = Vec::new();
    let mut i: usize = 0;
    let ghost all = items.deep_view();
    assert(texts.deep_view() =~= Seq::empty());
    while i < items.len()
        invariant
            i <= items@.len(),
            all == items.deep_view(),
            texts_in(all.take(i as int)) == Some(texts.deep_view()),
        decreases items@.len() - i,
    {
        proof {
            assert(all.take(i + 1).drop_last() =~= all.take(i as int));
        }
        match items[i].as_text() {
            Some(text) => {
                push_to(&mut texts, text.clone());
            },
            None => {
                proof {
                    other_items_spell_no_texts(all, i + 1);
                }
                return None;
            },
        }
        i = i + 1;
    }
    assert(all.take(i as int) =~= all);
    Some(texts)
}

/// The table of texts that entries spell, where each holds a text. Of a repeated key the
/// last counts.
pub open spec fn text_table_in(fields: Seq<(Seq<char>, JsonView)>) -> Option<
    Map<Seq<char>, Seq<char>>,
>
    decreases fields.len(),
{
    if fields.len() == 0 {
        Some(Map::empty())
    } else {
        match (text_table_in(fields.drop_last()), fields.last().1.text()) {
            (Some(before), Some(text)) => Some(before.insert(fields.last().0, text)),
            _ => None,
        }
    }
}

proof fn other_fields_spell_no_table(fields: Seq<(Seq<char>, JsonView)>, k: int)
    requires
        0 <= k <= fields.len(),
        text_table_in(fields.take(k)) is None,
    ensures
        text_table_in(fields) is None,
    decreases fields.len() - k,
{
    if k < fields.len() {
        assert(fields.take(k + 1).drop_last() =~= fields.take(k));
        other_fields_spell_no_table(fields, k + 1);
    } else {
        assert(fields.take(k) =~= fields);
    }
}

fn text_table_of(fields: &Vec<(String, Json)>) -> (r: Option<Table<String>>)
    ensures
        r.deep_view() == text_table_in(fields.deep_view()),
{
    let mut table: Table<String> = empty_table();
    let mut i: usize = 0;
    let ghost all = fields.deep_view();
    while i < fields.len()
        invariant
            i <= fields@.len(),
            all == fields.deep_view(),
            text_table_in(all.take(i as int)) == Some(table.deep_view()),
        decreases fields@.len() - i,
    {
        proof {
            assert(all.take(i + 1).drop_last() =~= all.take(i as int));
            assert(all.take(i + 1).last() == all[i as int]);
            assert(all[i as int] == (fields@[i as int].0@, fields@[i as int].1.deep_view()));
        }
        match fields[i].1.as_text() {
            Some(text) => {
                insert_into(&mut table, fields[i].0.as_str(), text.clone());
            },
            None => {
                proof {
                    other_fields_spell_no_table(all, i + 1);
                }
                return None;
            },
        }
        i = i + 1;
    }
    assert(all.take(i as int) =~= all);
    Some(table)
}

/// The texts that an object may hold under `key`: none where it has no such entry.
pub open spec fn args_in(json: JsonView, key: Seq<char>) -> Option<Seq<Seq<char>>> {
    match json.get(key) {
        None => Some(Seq::empty()),
        Some(JsonView::Array(items)) => texts_in(items),
        Some(_) => None,
    }
}

fn args_of(json: &Json, key: &str) -> (r: Option<Vec<String>>)
    ensures
        r.deep_view() == args_in(json.deep_view(), key@),
{
    broadcast use crate::json::group_json_view;

    match json.get(key) {
        None => {
            let none: Vec<String> = Vec::new();
            assert(none.deep_view() =~= Seq::empty());
            Some(none)
        },
        Some(Json::Array(items)) => texts_of(items),
        Some(_) => None,
    }
}

/// The table of texts that an object may hold under `key`: an empty one where it has no
/// such entry.
pub open spec fn env_in(json: JsonView, key: Seq<char>) -> Option<Map<Seq<char>, Seq<char>>> {
    match json.get(key) {
        None => Some(Map::empty()),
        Some(JsonView::Object(fields)) => text_table_in(fields),
        Some(_) => None,
    }
}

fn env_of(json: &Json, key: &str) -> (r: Option<Table<String>>)
    ensures
        r.deep_view() == env_in(json.deep_view(), key@),
{
    broadcast use crate::json::group_json_view;

    match json.get(key) {
        None => Some(empty_table()),
        Some(Json::Object(fields)) => text_table_of(fields),
        Some(_) => None,
    }
}

/// Whether the server that an object configures may be shared.
pub open spec fn shared_in(json: JsonView) -> Option<bool> {
    match json.get("shared"@) {
        None => Some(DEFAULT_SHARED),
        Some(value) => value.flag(),
    }
}

fn shared_of(json: &Json) -> (r: Option<bool>)
    ensures
        r == shared_in(json.deep_view()),
{
    match json.get("shared") {
        None => Some(default_shared()),
        Some(value) => value.as_flag(),
    }
}

/// The configuration that a value spells: of a child process where it can be read so, of
/// an HTTP server otherwise.
pub open spec fn server_in(json: JsonView) -> Option<ServerView> {
    match (
        json.at("command"@).text(),
        args_in(json, "args"@),
        env_in(json, "env"@),
        shared_in(json),
    ) {
        (Some(command), Some(args), Some(env), Some(shared)) => Some(
            ServerView::Stdio { command, args, env, shared },
        ),
        _ => match (json.at("url"@).text(), env_in(json, "headers"@), shared_in(json)) {
            (Some(url), Some(headers), Some(shared)) => Some(
                ServerView::Http { url, headers, shared },
            ),
            _ => None,
        },
    }
}

impl McpServerConfig {
    /// The configuration that a value spells.
    pub fn from_json(json: &Json) -> (r: Option<McpServerConfig>)
        ensures
            r.deep_view() == server_in(json.deep_view()),
    {
        let shared = shared_of(json);
        match (json.text_at("command"), args_of(json, "args"), env_of(json, "env"), shared) {
            (Some(command), Some(args), Some(env), Some(shared)) => {
                return Some(
                    McpServerConfig::Stdio(
                        StdioServerConfig { command: command.clone(), args, env, shared },
                    ),
                );
            },
            _ => {},
        }
        match (json.text_at("url"), env_of(json, "headers"), shared) {
            (Some(url), Some(headers), Some(shared)) => Some(
                McpServerConfig::Http(HttpServerConfig { url: url.clone(), headers, shared }),
            ),
            _ => None,
        }
    }

    /// Whether the server may be shared.
    pub fn shared(&self) -> (r: bool)
        ensures
            r == match self.deep_view() {
                ServerView::Stdio { shared, .. } => shared,
                ServerView::Http { shared, .. } => shared,
            },
    {
        match self {
            McpServerConfig::Stdio(config) => config.shared,
            McpServerConfig::Http(config) => config.shared,
        }
    }
}

/// Servers by name.
#[derive(Debug)]
pub struct McpConfig {
    pub mcp_servers: Table<McpServerConfig>,
}

impl Default for McpConfig {
    fn default() -> (r: McpConfig)
        ensures
            r.mcp_servers.deep_view() == Map::<Seq<char>, ServerView>::empty(),
            r.mcp_servers.listed().len() == 0,
    {
        McpConfig { mcp_servers: empty_table() }
    }
}

/// The servers that entries spell, where each spells one. Of a repeated name the last
/// counts.
pub open spec fn servers_in(fields: Seq<(Seq<char>, JsonView)>) -> Option<
    Map<Seq<char>, ServerView>,
>
    decreases fields.len(),
{
    if fields.len() == 0 {
        Some(Map::empty())
    } else {
        match (servers_in(fields.drop_last()), server_in(fields.last().1)) {
            (Some(before), Some(server)) => Some(before.insert(fields.last().0, server)),
            _ => None,
        }
    }
}

proof fn other_fields_spell_no_servers(fields: Seq<(Seq<char>, JsonView)>, k: int)
    requires
        0 <= k <= fields.len(),
        servers_in(fields.take(k)) is None,
    ensures
        servers_in(fields) is None,
    decreases fields.len() - k,
{
    if k < fields.len() {
        assert(fields.take(k + 1).drop_last() =~= fields.take(k));
        other_fields_spell_no_servers(fields, k + 1);
    } else {
        assert(fields.take(k) =~= fields);
    }
}

fn servers_of(fields: &Vec<(String, Json)>) -> (r: Option<Table<McpServerConfig>>)
    ensures
        r.deep_view() == servers_in(fields.deep_view()),
{
    let mut table: Table<McpServerConfig> = empty_table();
    let mut i: usize = 0;
    let ghost all = fields.deep_view();
    while i < fields.len()
        invariant
            i <= fields@.len(),
            all == fields.deep_view(),
            servers_in(all.take(i as int)) == Some(table.deep_view()),
        decreases fields@.len() - i,
    {
        proof {
            assert(all.take(i + 1).drop_last() =~= all.take(i as int));
            assert(all.take(i + 1).last() == all[i as int]);
            assert(all[i as int] == (fields@[i as int].0@, fields@[i as int].1.deep_view()));
        }
        match McpServerConfig::from_json(&fields[i].1) {
            Some(server) => {
                insert_into(&mut table, fields[i].0.as_str(), server);
            },
            None => {
                proof {
                    other_fields_spell_no_servers(all, i + 1);
                }
                return None;
            },
        }
        i = i + 1;
    }
    assert(all.take(i as int) =~= all);
    Some(table)
}

/// The servers that a value configures under `mcpServers`: none where it has no such
/// entry, and nothing where it is no object or an entry is none of a server.
pub open spec fn config_in(json: JsonView) -> Option<Map<Seq<char>, ServerView>> {
    if json is Object {
        match json.get("mcpServers"@) {
            None => Some(Map::empty()),
            Some(JsonView::Object(fields)) => servers_in(fields),
            Some(_) => None,
        }
    } else {
        None
    }
}

/// Entries of texts as JSON.
pub open spec fn text_fields(entries: Seq<(String, String)>) -> Seq<(Seq<char>, JsonView)>
    decreases entries.len(),
{
    if entries.len() == 0 {
        no_fields()
    } else {
        text_fields(entries.drop_last()).push(
            (entries.last().0@, JsonView::Text(entries.last().1@)),
        )
    }
}

fn text_fields_of(table: &Table<String>) -> (r: Json)
    ensures
        r.deep_view() == JsonView::Object(text_fields(table.listed())),
{
    let entries = table.entries();
    let mut fields = empty_fields();
    let mut i: usize = 0;
    while i < entries.len()
        invariant
            i <= entries@.len(),
            fields.deep_view() == text_fields(entries@.take(i as int)),
        decreases entries@.len() - i,
    {
        assert(entries@.take(i + 1).drop_last() =~= entries@.take(i as int));
        put(&mut fields, entries[i].0.as_str(), Json::Text(entries[i].1.clone()));
        i = i + 1;
    }
    assert(entries@.take(i as int) =~= entries@);
    object(fields)
}

/// Texts as JSON.
pub open spec fn text_items(texts: Seq<Seq<char>>) -> Seq<JsonView> {
    texts.map_values(|t: Seq<char>| JsonView::Text(t))
}

fn text_items_of(texts: &Vec<String>) -> (r: Json)
    ensures
        r.deep_view() == JsonView::Array(text_items(texts.deep_view())),
{
    let mut items: Vec<Json> = Vec::new();
    let mut i: usize = 0;
    let ghost all = texts.deep_view();
    assert(items.deep_view() =~= text_items(all.take(0)));
    while i < texts.len()
        invariant
            i <= texts@.len(),
            all == texts.deep_view(),
            items.deep_view() == text_items(all.take(i as int)),
        decreases texts@.len() - i,
    {
        push_to(&mut items, Json::Text(texts[i].clone()));
        assert(items.deep_view() =~= text_items(all.take(i + 1)));
        i = i + 1;
    }
    assert(all.take(i as int) =~= all);
    array(items)
}

/// A server's configuration as JSON.
pub open spec fn server_json(config: McpServerConfig) -> JsonView {
    match config {
        McpServerConfig::Stdio(config) => JsonView::Object(
            no_fields().push(("command"@, JsonView::Text(config.command@))).push(
                ("args"@, JsonView::Array(text_items(config.args.deep_view()))),
            ).push(("env"@, JsonView::Object(text_fields(config.env.listed())))).push(
                ("shared"@, JsonView::Bool(config.shared)),
            ),
        ),
        McpServerConfig::Http(config) => JsonView::Object(
            no_fields().push(("url"@, JsonView::Text(config.url@))).push(
                ("headers"@, JsonView::Object(text_fields(config.headers.listed()))),
            ).push(("shared"@, JsonView::Bool(config.shared))),
        ),
    }
}

/// Entries of servers as JSON.
pub open spec fn server_fields(entries: Seq<(String, McpServerConfig)>) -> Seq<
    (Seq<char>, JsonView),
>
    decreases entries.len(),
{
    if entries.len() == 0 {
        no_fields()
    } else {
        server_fields(entries.drop_last()).push((entries.last().0@, server_json(entries.last().1)))
    }
}

/// A configuration as JSON.
pub open spec fn config_json(servers: Seq<(String, McpServerConfig)>) -> JsonView {
    JsonView::Object(
        no_fields().push(("mcpServers"@, JsonView::Object(server_fields(servers)))),
    )
}

proof fn items_read_back(texts: Seq<Seq<char>>)
    ensures
        texts_in(text_items(texts)) == Some(texts),
    decreases texts.len(),
{
    if texts.len() > 0 {
        items_read_back(texts.drop_last());
        assert(text_items(texts).drop_last() =~= text_items(texts.drop_last()));
        assert(texts.drop_last().push(texts.last()) =~= texts);
    } else {
        assert(texts =~= Seq::empty());
    }
}

proof fn fields_read_back(entries: Seq<(String, String)>)
    requires
        distinct_keys(entries),
    ensures
        text_table_in(text_fields(entries)) == Some(
            table_of(entries).map_values(|value: String| value.deep_view()),
        ),
    decreases entries.len(),
{
    let texts = table_of(entries).map_values(|value: String| value.deep_view());
    if entries.len() > 0 {
        table_of_push(entries);
        fields_read_back(entries.drop_last());
        let before = text_fields(entries.drop_last());
        assert(text_fields(entries).drop_last() =~= before);
        assert(texts =~= table_of(entries.drop_last()).map_values(
            |value: String| value.deep_view(),
        ).insert(entries.last().0@, entries.last().1@));
    } else {
        assert(texts =~= Map::empty());
    }
}

/// A server's configuration reads back from its JSON as it was.
pub proof fn server_reads_back(config: McpServerConfig)
    requires
        match config {
            McpServerConfig::Stdio(stdio) => listed_faithfully(stdio.env),
            McpServerConfig::Http(http) => listed_faithfully(http.headers),
        },
    ensures
        server_in(server_json(config)) == Some(config.deep_view()),
{
    broadcast use entry_push;

    reveal_strlit("command");
    reveal_strlit("args");
    reveal_strlit("env");
    reveal_strlit("shared");
    reveal_strlit("url");
    reveal_strlit("headers");
    assert("command"@[0] != "headers"@[0] && "env"@[0] != "url"@[0]);
    assert("command"@.len() == 7 && "args"@.len() == 4 && "env"@.len() == 3);
    assert("shared"@.len() == 6 && "url"@.len() == 3 && "headers"@.len() == 7);
    assert forall|key: Seq<char>| #[trigger] entry(no_fields(), key) is None by {}
    match config {
        McpServerConfig::Stdio(stdio) => {
            items_read_back(stdio.args.deep_view());
            fields_read_back(stdio.env.listed());
        },
        McpServerConfig::Http(http) => {
            fields_read_back(http.headers.listed());
        },
    }
}

/// Whether a table is what its list of entries says, as every table is.
pub open spec fn listed_faithfully<V>(table: Table<V>) -> bool {
    distinct_keys(table.listed()) && table@ == table_of(table.listed())
}

/// Whether every table in a configuration is what its list of entries says.
pub open spec fn faithful(servers: Seq<(String, McpServerConfig)>) -> bool {
    forall|i: int| 0 <= i < servers.len() ==> match (#[trigger] servers[i]).1 {
        McpServerConfig::Stdio(stdio) => listed_faithfully(stdio.env),
        McpServerConfig::Http(http) => listed_faithfully(http.headers),
    }
}

proof fn servers_read_back(entries: Seq<(String, McpServerConfig)>)
    requires
        distinct_keys(entries),
        faithful(entries),
    ensures
        servers_in(server_fields(entries)) == Some(
            table_of(entries).map_values(|value: McpServerConfig| value.deep_view()),
        ),
    decreases entries.len(),
{
    let servers = table_of(entries).map_values(|value: McpServerConfig| value.deep_view());
    if entries.len() > 0 {
        table_of_push(entries);
        let before = entries.drop_last();
        assert forall|i: int| 0 <= i < before.len() implies match (#[trigger] before[i]).1 {
            McpServerConfig::Stdio(stdio) => listed_faithfully(stdio.env),
            McpServerConfig::Http(http) => listed_faithfully(http.headers),
        } by {
            assert(before[i] == entries[i]);
        }
        servers_read_back(before);
        server_reads_back(entries[entries.len() - 1].1);
        assert(server_fields(entries).drop_last() =~= server_fields(before));
        assert(servers =~= table_of(before).map_values(
            |value: McpServerConfig| value.deep_view(),
        ).insert(entries.last().0@, entries.last().1.deep_view()));
    } else {
        assert(servers =~= Map::empty());
    }
}

/// A configuration reads back from its JSON as it was.
pub proof fn configurations_round_trip(config: McpConfig)
    requires
        listed_faithfully(config.mcp_servers),
        faithful(config.mcp_servers.listed()),
    ensures
        config_in(config_json(config.mcp_servers.listed())) == Some(
            config.mcp_servers.deep_view(),
        ),
{
    broadcast use entry_push;

    assert(entry(no_fields(), "mcpServers"@) is None);
    servers_read_back(config.mcp_servers.listed());
}

impl McpServerConfig {
    /// The configuration as JSON.
    pub fn to_json(&self) -> (r: Json)
        ensures
            r.deep_view() == server_json(*self),
    {
        let mut fields = empty_fields();
        match self {
            McpServerConfig::Stdio(config) => {
                put(&mut fields, "command", Json::Text(config.command.clone()));
                put(&mut fields, "args", text_items_of(&config.args));
                put(&mut fields, "env", text_fields_of(&config.env));
                put(&mut fields, "shared", Json::Bool(config.shared));
            },
            McpServerConfig::Http(config) => {
                put(&mut fields, "url", Json::Text(config.url.clone()));
                put(&mut fields, "headers", text_fields_of(&config.headers));
                put(&mut fields, "shared", Json::Bool(config.shared));
            },
        }
        object(fields)
    }
}

/// What is said of JSON that configures no servers.
pub const SCHEMA_MISMATCH: &'static str = "data does not have the shape of a server configuration";

/// What can go wrong with a configuration file.
#[derive(Debug)]
pub enum ConfigError {
    Io { path: String, source: String },
    Parse { path: String, source: String },
}

/// The model of what can go wrong with a configuration file.
pub ghost enum ConfigErrorView {
    Io { path: Seq<char>, source: Seq<char> },
    Parse { path: Seq<char>, source: Seq<char> },
}

impl DeepView for ConfigError {
    type V = ConfigErrorView;

    open spec fn deep_view(&self) -> ConfigErrorView {
        match *self {
            ConfigError::Io { path, source } => ConfigErrorView::Io {
                path: path@,
                source: source@,
            },
            ConfigError::Parse { path, source } => ConfigErrorView::Parse {
                path: path@,
                source: source@,
            },
        }
    }
}

/// What an error says.
pub open spec fn config_error_text(error: ConfigErrorView) -> Seq<char> {
    match error {
        ConfigErrorView::Io { path, source } => "could not read config at "@ + path + ": "@
            + source,
        ConfigErrorView::Parse { path, source } => "could not parse config at "@ + path + ": "@
            + source,
    }
}

impl ConfigError {
    /// What the error says.
    pub fn message(&self) -> (r: String)
        ensures
            r@ == config_error_text(self.deep_view()),
    {
        let (label, path, source) = match self {
            ConfigError::Io { path, source } => ("could not read config at ", path, source),
            ConfigError::Parse { path, source } => ("could not parse config at ", path, source),
        };
        let mut out = labelled(label, path.as_str());
        out.append(": ");
        out.append(source.as_str());
        out
    }
}

/// What a file held, as far as it could be read.
#[derive(Debug)]
pub enum FileRead {
    Text(String),
    Missing(String),
    Failed(String),
}

/// The configuration in a text, as it was read.
pub open spec fn parsed_config(read: Result<JsonView, Seq<char>>, path: Seq<char>) -> Result<
    Map<Seq<char>, ServerView>,
    ConfigErrorView,
> {
    match read {
        Err(source) => Err(ConfigErrorView::Parse { path, source }),
        Ok(json) => match config_in(json) {
            Some(servers) => Ok(servers),
            None => Err(ConfigErrorView::Parse { path, source: SCHEMA_MISMATCH@ }),
        },
    }
}

impl McpConfig {
    /// The configuration that a value spells.
    pub fn from_json(json: &Json) -> (r: Option<McpConfig>)
        ensures
            match r {
                Some(config) => config_in(json.deep_view()) == Some(config.mcp_servers.deep_view()),
                None => config_in(json.deep_view()) is None,
            },
    {
        broadcast use crate::json::group_json_view;

        match json {
            Json::Object(_) => {},
            _ => {
                return None;
            },
        }
        match json.get("mcpServers") {
            None => Some(McpConfig::default()),
            Some(Json::Object(fields)) => match servers_of(fields) {
                Some(mcp_servers) => Some(McpConfig { mcp_servers }),
                None => None,
            },
            Some(_) => None,
        }
    }

    /// The configuration as JSON.
    pub fn to_json(&self) -> (r: Json)
        ensures
            r.deep_view() == config_json(self.mcp_servers.listed()),
    {
        let entries = self.mcp_servers.entries();
        let mut servers = empty_fields();
        let mut i: usize = 0;
        while i < entries.len()
            invariant
                i <= entries@.len(),
                servers.deep_view() == server_fields(entries@.take(i as int)),
            decreases entries@.len() - i,
        {
            assert(entries@.take(i + 1).drop_last() =~= entries@.take(i as int));
            put(&mut servers, entries[i].0.as_str(), entries[i].1.to_json());
            i = i + 1;
        }
        assert(entries@.take(i as int) =~= entries@);
        let mut fields = empty_fields();
        put(&mut fields, "mcpServers", object(servers));
        object(fields)
    }

    /// The configuration in a text that came from `path`.
    pub fn parse(raw: &str, path: &str) -> (r: Result<McpConfig, ConfigError>)
        ensures
            match r {
                Ok(config) => parsed_config(json_read(raw@), path@) == Ok::<
                    Map<Seq<char>, ServerView>,
                    ConfigErrorView,
                >(config.mcp_servers.deep_view()),
                Err(error) => parsed_config(json_read(raw@), path@) == Err::<
                    Map<Seq<char>, ServerView>,
                    ConfigErrorView,
                >(error.deep_view()),
            },
    {
        match Json::parse(raw) {
            Err(source) => Err(ConfigError::Parse { path: path.to_owned(), source }),
            Ok(json) => match McpConfig::from_json(&json) {
                Some(config) => Ok(config),
                None => Err(
                    ConfigError::Parse {
                        path: path.to_owned(),
                        source: SCHEMA_MISMATCH.to_owned(),
                    },
                ),
            },
        }
    }

    /// The configuration in a file that has to be there.
    pub fn load_from_path(read: FileRead, path: &str) -> (r: Result<McpConfig, ConfigError>)
        ensures
            match read {
                FileRead::Text(raw) => match r {
                    Ok(config) => parsed_config(json_read(raw@), path@) == Ok::<
                        Map<Seq<char>, ServerView>,
                        ConfigErrorView,
                    >(config.mcp_servers.deep_view()),
                    Err(error) => parsed_config(json_read(raw@), path@) == Err::<
                        Map<Seq<char>, ServerView>,
                        ConfigErrorView,
                    >(error.deep_view()),
                },
                FileRead::Missing(source) | FileRead::Failed(source) => match r {
                    Ok(_) => false,
                    Err(error) => error.deep_view() == (ConfigErrorView::Io {
                        path: path@,
                        source: source@,
                    }),
                },
            },
    {
        match read {
            FileRead::Text(raw) => McpConfig::parse(raw.as_str(), path),
            FileRead::Missing(source) => Err(ConfigError::Io { path: path.to_owned(), source }),
            FileRead::Failed(source) => Err(ConfigError::Io { path: path.to_owned(), source }),
        }
    }

    /// The configuration in a file that may be missing.
    pub fn try_load_from_path(read: FileRead, path: &str) -> (r: Result<
        Option<McpConfig>,
        ConfigError,
    >)
        ensures
            match read {
                FileRead::Text(raw) => match r {
                    Ok(Some(config)) => parsed_config(json_read(raw@), path@) == Ok::<
                        Map<Seq<char>, ServerView>,
                        ConfigErrorView,
                    >(config.mcp_servers.deep_view()),
                    Ok(None) => false,
                    Err(error) => parsed_config(json_read(raw@), path@) == Err::<
                        Map<Seq<char>, ServerView>,
                        ConfigErrorView,
                    >(error.deep_view()),
                },
                FileRead::Missing(_) => r matches Ok(None),
                FileRead::Failed(source) => match r {
                    Ok(_) => false,
                    Err(error) => error.deep_view() == (ConfigErrorView::Io {
                        path: path@,
                        source: source@,
                    }),
                },
            },
    {
        match read {
            FileRead::Text(raw) => match McpConfig::parse(raw.as_str(), path) {
                Ok(config) => Ok(Some(config)),
                Err(error) => Err(error),
            },
            FileRead::Missing(_) => Ok(None),
            FileRead::Failed(source) => Err(ConfigError::Io { path: path.to_owned(), source }),
        }
    }

    /// Whether there are no servers.
    pub fn is_empty(&self) -> (r: bool)
        ensures
            r == (self.mcp_servers.deep_view() == Map::<Seq<char>, ServerView>::empty()),
    {
        proof {
            let servers = self.mcp_servers.deep_view();
            assert(servers.dom() =~= self.mcp_servers@.dom());
            if self.mcp_servers@.dom().finite() && servers.dom().len() == 0 {
                assert(servers =~= Map::empty());
            }
        }
        self.mcp_servers.len() == 0
    }

    /// How many servers there are.
    pub fn len(&self) -> (r: usize)
        ensures
            r == self.mcp_servers.deep_view().dom().len(),
    {
        assert(self.mcp_servers.deep_view().dom() =~= self.mcp_servers@.dom());
        self.mcp_servers.len()
    }
}

} // verus!
