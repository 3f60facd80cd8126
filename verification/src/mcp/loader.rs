//! Servers from a configuration, with environment variables put in, and the tools that a
//! connection to them offers.
use vstd::prelude::*;

use crate::json::{Json, JsonView, json_read};
use crate::mcp::client::{ClientView, McpClient};
use crate::mcp::config::{
    FileRead, HttpServerConfig, McpConfig, McpServerConfig, SCHEMA_MISMATCH, ServerView,
    StdioServerConfig, config_in,
};
use crate::mcp::deferred::{
    DeferredMcpToolSet, deferred_tools_prompt_section, tool_names, tools_of_servers, tools_section,
};
use crate::mcp::error::{McpError, McpErrorView};
use crate::mcp::manager::add_tools;
use crate::mcp::tool::{McpTool, RemoteTool};
use crate::mcp::tool_search::ToolSearchTool;
use crate::table::{Table, empty_table, insert_into};
use crate::text::{chars_of, contains, find, labelled, position, push_to, text_between};
use crate::text_laws::find_is_least;

verus! {

/// The value of a variable; nothing where it is not set.
pub open spec fn variable(env: Map<Seq<char>, Seq<char>>, name: Seq<char>) -> Seq<char> {
    if env.contains_key(name) {
        env[name]
    } else {
        Seq::empty()
    }
}

/// A text with each `${NAME}` in the place of which stands the variable of that name. A
/// `${` that is not closed stays.
pub open spec fn expanded(s: Seq<char>, env: Map<Seq<char>, Seq<char>>) -> Seq<char>
    decreases s.len(),
{
    match find(s, "${"@) {
        Some(i) if 0 <= i && i + 2 <= s.len() => {
            let tail = s.skip(i + 2);
            match find(tail, "}"@) {
                Some(j) if 0 <= j && j + 1 <= tail.len() => s.take(i) + variable(env, tail.take(j))
                    + expanded(tail.skip(j + 1), env),
                _ => s.take(i) + "${"@ + expanded(tail, env),
            }
        },
        _ => s,
    }
}

/// A text with the variables it names put in.
pub fn expand_str(s: &str, env: &Table<String>) -> (r: String)
    ensures
        r@ == expanded(s@, env.deep_view()),
{
    let ghost vars = env.deep_view();
    proof {
        reveal_strlit("${");
        reveal_strlit("}");
    }
    let mut out = String::new();
    let mut rest = s.to_owned();
    assert(out@ + expanded(rest@, vars) =~= expanded(s@, vars));
    loop
        invariant_except_break
            expanded(s@, vars) == out@ + expanded(rest@, vars),
        invariant
            vars == env.deep_view(),
            "${"@.len() == 2,
            "}"@.len() == 1,
        ensures
            expanded(s@, vars) == out@ + rest@,
        decreases rest@.len(),
    {
        match position(rest.as_str(), "${") {
            Some(i) => {
                let chars = chars_of(rest.as_str());
                let n: usize = chars.len();
                let ghost start = out@;
                let ghost whole = rest@;
                out.append(text_between(&chars, 0, i).as_str());
                assert(whole.subrange(0, i as int) =~= whole.take(i as int));
                let tail = text_between(&chars, i + 2, n);
                assert(tail@ =~= whole.skip(i + 2));
                match position(tail.as_str(), "}") {
                    Some(j) => {
                        let chars = chars_of(tail.as_str());
                        let n: usize = chars.len();
                        let name = text_between(&chars, 0, j);
                        assert(name@ =~= tail@.take(j as int));
                        match env.get(name.as_str()) {
                            Some(value) => {
                                out.append(value.as_str());
                            },
                            None => {},
                        }
                        rest = text_between(&chars, j + 1, n);
                        assert(rest@ =~= tail@.skip(j + 1));
                        assert(out@ + expanded(rest@, vars) =~= start + (whole.take(i as int)
                            + variable(vars, name@) + expanded(rest@, vars)));
                    },
                    None => {
                        out.append("${");
                        assert(out@ + expanded(tail@, vars) =~= start + (whole.take(i as int)
                            + "${"@ + expanded(tail@, vars)));
                        rest = tail;
                    },
                }
            },
            None => {
                break;
            },
        }
    }
    out.append(rest.as_str());
    out
}

/// A text that names no variable stays as it is.
pub proof fn plain_text_stays(s: Seq<char>, env: Map<Seq<char>, Seq<char>>)
    requires
        !contains(s, "${"@),
    ensures
        expanded(s, env) == s,
{
}

/// A text that is one variable becomes its value, whatever that holds: a value is not
/// expanded again.
pub proof fn a_variable_is_put_in_once(
    name: Seq<char>,
    value: Seq<char>,
    env: Map<Seq<char>, Seq<char>>,
)
    requires
        !contains(name, "}"@),
        env.contains_key(name),
        env[name] == value,
    ensures
        expanded("${"@ + name + "}"@, env) == value,
{
    reveal_strlit("${");
    reveal_strlit("}");
    let s = "${"@ + name + "}"@;
    let tail = s.skip(2);
    assert(s.subrange(0, 2) =~= "${"@);
    assert(find(s, "${"@) == Some(0int));
    assert(tail =~= name + "}"@);
    let at = name.len() as int;
    assert(tail.subrange(at, at + 1) =~= "}"@);
    find_is_least(name, "}"@, 0);
    assert forall|i: int| 0 <= i < at implies !#[trigger] crate::text::occurs_at(tail, "}"@, i) by {
        assert(tail.subrange(i, i + 1) =~= name.subrange(i, i + 1));
        assert(!crate::text::occurs_at(name, "}"@, i));
    }
    crate::text_laws::find_least(tail, "}"@, 0, at);
    assert(tail.take(at) =~= name);
    let left = tail.skip(at + 1);
    assert(left =~= Seq::empty());
    assert(find(left, "${"@) is None);
    assert(expanded(left, env) == left);
    assert(s.take(0) + value + left =~= value);
    assert(variable(env, tail.take(at)) == value);
}

/// A value with the variables that its texts name put in. Keys stay as they are.
pub open spec fn expanded_tree(json: JsonView, env: Map<Seq<char>, Seq<char>>) -> JsonView
    decreases json,
{
    match json {
        JsonView::Text(t) => JsonView::Text(expanded(t, env)),
        JsonView::Array(items) => JsonView::Array(
            Seq::new(
                items.len(),
                |i: int|
                    if 0 <= i < items.len() {
                        expanded_tree(items[i], env)
                    } else {
                        JsonView::Null
                    },
            ),
        ),
        JsonView::Object(entries) => JsonView::Object(
            Seq::new(
                entries.len(),
                |i: int|
                    if 0 <= i < entries.len() {
                        (entries[i].0, expanded_tree(entries[i].1, env))
                    } else {
                        (Seq::empty(), JsonView::Null)
                    },
            ),
        ),
        other => other,
    }
}

/// A value with the variables that its texts name put in.
pub fn expand_env(json: &Json, env: &Table<String>) -> (r: Json)
    ensures
        r.deep_view() == expanded_tree(json.deep_view(), env.deep_view()),
    decreases json,
{
    broadcast use crate::json::group_json_view;

    let ghost vars = env.deep_view();
    match json {
        Json::Text(t) => Json::Text(expand_str(t.as_str(), env)),
        Json::Array(items) => {
            let mut out: Vec<Json> = Vec::new();
            let mut i: usize = 0;
            let ghost all = items.deep_view();
            while i < items.len()
                invariant
                    i <= items@.len(),
                    decreases_to!(json => items@),
                    vars == env.deep_view(),
                    all == items.deep_view(),
                    out@.len() == i,
                    forall|k: int|
                        0 <= k < i ==> (#[trigger] out@[k]).deep_view() == expanded_tree(
                            all[k],
                            vars,
                        ),
                decreases items@.len() - i,
            {
                let value = expand_env(&items[i], env);
                out.push(value);
                i = i + 1;
            }
            proof {
                assert(json.deep_view() == JsonView::Array(all));
                assert(JsonView::Array(out.deep_view()) == expanded_tree(json.deep_view(), vars))
                    by {
                    assert(out.deep_view() =~= expanded_tree(JsonView::Array(all), vars)->Array_0);
                }
            }
            Json::Array(out)
        },
        Json::Object(entries) => {
            let mut out: Vec<(String, Json)> = Vec::new();
            let mut i: usize = 0;
            let ghost all = entries.deep_view();
            while i < entries.len()
                invariant
                    i <= entries@.len(),
                    decreases_to!(json => entries@),
                    vars == env.deep_view(),
                    all == entries.deep_view(),
                    out@.len() == i,
                    forall|k: int|
                        0 <= k < i ==> (#[trigger] out@[k]).deep_view() == (
                            all[k].0,
                            expanded_tree(all[k].1, vars),
                        ),
                decreases entries@.len() - i,
            {
                let value = expand_env(&entries[i].1, env);
                out.push((entries[i].0.clone(), value));
                i = i + 1;
            }
            proof {
                assert(json.deep_view() == JsonView::Object(all));
                assert(out.deep_view() =~= expanded_tree(JsonView::Object(all), vars)->Object_0);
            }
            Json::Object(out)
        },
        other => other.clone(),
    }
}

/// Whether two values differ in nothing but their texts: the keys, the other values and the
/// way they are put together are the same.
pub open spec fn same_shape(a: JsonView, b: JsonView) -> bool
    decreases a,
{
    match (a, b) {
        (JsonView::Text(_), JsonView::Text(_)) => true,
        (JsonView::Array(xs), JsonView::Array(ys)) => xs.len() == ys.len() && forall|i: int|
            0 <= i < xs.len() ==> same_shape(#[trigger] xs[i], ys[i]),
        (JsonView::Object(xs), JsonView::Object(ys)) => xs.len() == ys.len() && forall|i: int|
            0 <= i < xs.len() ==> (#[trigger] xs[i]).0 == ys[i].0 && same_shape(xs[i].1, ys[i].1),
        _ => a == b,
    }
}

/// Whatever the variables hold, putting them in changes nothing but texts.
pub proof fn variables_change_only_texts(json: JsonView, env: Map<Seq<char>, Seq<char>>)
    ensures
        same_shape(json, expanded_tree(json, env)),
    decreases json,
{
    match json {
        JsonView::Array(items) => {
            let out = expanded_tree(json, env)->Array_0;
            assert forall|i: int| 0 <= i < items.len() implies same_shape(
                #[trigger] items[i],
                out[i],
            ) by {
                variables_change_only_texts(items[i], env);
            }
        },
        JsonView::Object(entries) => {
            let out = expanded_tree(json, env)->Object_0;
            assert forall|i: int| 0 <= i < entries.len() implies (#[trigger] entries[i]).0
                == out[i].0 && same_shape(entries[i].1, out[i].1) by {
                variables_change_only_texts(entries[i].1, env);
            }
        },
        _ => {},
    }
}

/// Servers to connect to, or why they could not be read.
#[derive(Debug)]
pub struct Mcp {
    pub config: McpConfig,
    pub config_error: Option<String>,
}

/// The model of servers to connect to.
pub ghost struct McpView {
    pub servers: Map<Seq<char>, ServerView>,
    pub config_error: Option<Seq<char>>,
}

impl DeepView for Mcp {
    type V = McpView;

    open spec fn deep_view(&self) -> McpView {
        McpView {
            servers: self.config.mcp_servers.deep_view(),
            config_error: self.config_error.deep_view(),
        }
    }
}

/// No servers, for a reason.
pub open spec fn broken(error: Seq<char>) -> McpView {
    McpView { servers: Map::empty(), config_error: Some(error) }
}

/// The servers that a value configures once the variables are put in.
pub open spec fn from_tree(json: JsonView, env: Map<Seq<char>, Seq<char>>) -> McpView {
    match config_in(expanded_tree(json, env)) {
        Some(servers) => McpView { servers, config_error: None },
        None => broken("mcp config does not match schema: "@ + SCHEMA_MISMATCH@),
    }
}

/// The servers that a text configures, as it was read.
pub open spec fn from_read(
    read: Result<JsonView, Seq<char>>,
    env: Map<Seq<char>, Seq<char>>,
) -> McpView {
    match read {
        Ok(json) => from_tree(json, env),
        Err(error) => broken("mcp config is not valid JSON: "@ + error),
    }
}

/// Servers from a configuration file.
pub fn mcp_file(read: FileRead, env: &Table<String>) -> (r: Mcp)
    ensures
        r.deep_view() == match read {
            FileRead::Text(raw) => from_read(json_read(raw@), env.deep_view()),
            FileRead::Missing(error) | FileRead::Failed(error) => broken(
                "cannot read mcp config file: "@ + error@,
            ),
        },
{
    match read {
        FileRead::Text(raw) => Mcp::from_raw(raw.as_str(), env),
        FileRead::Missing(error) => Mcp::broken(
            labelled("cannot read mcp config file: ", error.as_str()),
        ),
        FileRead::Failed(error) => Mcp::broken(
            labelled("cannot read mcp config file: ", error.as_str()),
        ),
    }
}

/// Servers from JSON.
pub fn mcp_json(value: &Json, env: &Table<String>) -> (r: Mcp)
    ensures
        r.deep_view() == from_tree(value.deep_view(), env.deep_view()),
{
    Mcp::from_value(value, env)
}

impl Mcp {
    /// One server that is reached by HTTP.
    pub fn http(name: &str, url: &str) -> (r: Mcp)
        ensures
            r.deep_view() == (McpView {
                servers: Map::empty().insert(
                    name@,
                    ServerView::Http { url: url@, headers: Map::empty(), shared: true },
                ),
                config_error: None,
            }),
    {
        Mcp::single(
            name,
            McpServerConfig::Http(
                HttpServerConfig { url: url.to_owned(), headers: empty_table(), shared: true },
            ),
        )
    }

    /// One server that is started as a child process.
    pub fn stdio(name: &str, command: &str, args: Vec<String>) -> (r: Mcp)
        ensures
            r.deep_view() == (McpView {
                servers: Map::empty().insert(
                    name@,
                    ServerView::Stdio {
                        command: command@,
                        args: args.deep_view(),
                        env: Map::empty(),
                        shared: true,
                    },
                ),
                config_error: None,
            }),
    {
        Mcp::single(
            name,
            McpServerConfig::Stdio(
                StdioServerConfig {
                    command: command.to_owned(),
                    args,
                    env: empty_table(),
                    shared: true,
                },
            ),
        )
    }

    /// One server.
    pub fn single(name: &str, server: McpServerConfig) -> (r: Mcp)
        ensures
            r.deep_view() == (McpView {
                servers: Map::empty().insert(name@, server.deep_view()),
                config_error: None,
            }),
    {
        let mut mcp_servers: Table<McpServerConfig> = empty_table();
        insert_into(&mut mcp_servers, name, server);
        Mcp { config: McpConfig { mcp_servers }, config_error: None }
    }

    /// No servers, for a reason.
    pub fn broken(error: String) -> (r: Mcp)
        ensures
            r.deep_view() == broken(error@),
    {
        Mcp { config: McpConfig::default(), config_error: Some(error) }
    }

    /// The servers that a text configures.
    pub fn from_raw(raw: &str, env: &Table<String>) -> (r: Mcp)
        ensures
            r.deep_view() == from_read(json_read(raw@), env.deep_view()),
    {
        match Json::parse(raw) {
            Ok(json) => Mcp::from_value(&json, env),
            Err(error) => Mcp::broken(labelled("mcp config is not valid JSON: ", error.as_str())),
        }
    }

    /// The servers that a value configures.
    pub fn from_value(value: &Json, env: &Table<String>) -> (r: Mcp)
        ensures
            r.deep_view() == from_tree(value.deep_view(), env.deep_view()),
    {
        match McpConfig::from_json(&expand_env(value, env)) {
            Some(config) => Mcp { config, config_error: None },
            None => Mcp::broken(labelled("mcp config does not match schema: ", SCHEMA_MISMATCH)),
        }
    }

    /// The servers.
    pub fn servers(&self) -> (r: &Table<McpServerConfig>)
        ensures
            r.deep_view() == self.deep_view().servers,
    {
        &self.config.mcp_servers
    }

    /// Whether the servers may be connected to: the reason why not where the configuration
    /// could not be read.
    pub fn ready(&self) -> (r: Result<(), McpError>)
        ensures
            match r {
                Ok(_) => self.deep_view().config_error is None,
                Err(error) => match self.deep_view().config_error {
                    Some(reason) => error.deep_view() == McpErrorView::Protocol(reason),
                    None => false,
                },
            },
    {
        match &self.config_error {
            Some(error) => Err(McpError::Protocol(error.clone())),
            None => Ok(()),
        }
    }
}

/// Why a connection to several servers failed: one of them did.
pub fn connect_failed(server: &str, source: McpError) -> (r: McpError)
    ensures
        r.deep_view() == (McpErrorView::ConnectFailed {
            server: server@,
            source: Box::new(source.deep_view()),
        }),
{
    McpError::ConnectFailed { server: server.to_owned(), source: Box::new(source) }
}

/// The servers that could be connected.
pub open spec fn connected(outcomes: Seq<Result<ClientView, McpErrorView>>) -> Seq<ClientView>
    decreases outcomes.len(),
{
    if outcomes.len() == 0 {
        Seq::empty()
    } else {
        match outcomes.last() {
            Ok(client) => connected(outcomes.drop_last()).push(client),
            Err(_) => connected(outcomes.drop_last()),
        }
    }
}

/// The model of what came of connecting to servers.
pub open spec fn outcome_views(outcomes: Seq<Result<McpClient, McpError>>) -> Seq<
    Result<ClientView, McpErrorView>,
> {
    outcomes.map_values(
        |outcome: Result<McpClient, McpError>|
            match outcome {
                Ok(client) => Ok(client.deep_view()),
                Err(error) => Err(error.deep_view()),
            },
    )
}

/// The servers that could be connected; the others are left out.
pub fn keep_connected(outcomes: Vec<Result<McpClient, McpError>>) -> (r: Vec<McpClient>)
    ensures
        r.deep_view() == connected(outcome_views(outcomes@)),
{
    let ghost all = outcome_views(outcomes@);
    let mut left = outcomes;
    let mut clients: Vec<McpClient> = Vec::new();
    assert(clients.deep_view() =~= Seq::empty());
    let ghost mut taken: int = 0;
    assert(outcome_views(left@) =~= all.skip(0));
    while left.len() > 0
        invariant
            0 <= taken <= all.len(),
            outcome_views(left@) == all.skip(taken),
            clients.deep_view() == connected(all.take(taken)),
        decreases left@.len(),
    {
        let ghost before = left@;
        let outcome = left.remove(0);
        proof {
            assert(outcome_views(before).len() == all.skip(taken).len());
            assert(all.skip(taken)[0] == all[taken]);
            assert(outcome_views(before)[0] == all[taken]);
            assert(all.take(taken + 1).drop_last() =~= all.take(taken));
            assert forall|i: int| 0 <= i < left@.len() implies #[trigger] outcome_views(left@)[i]
                == all.skip(taken + 1)[i] by {
                assert(left@[i] == before[i + 1]);
                assert(outcome_views(before)[i + 1] == all.skip(taken)[i + 1]);
            }
            assert(outcome_views(left@) =~= all.skip(taken + 1));
            taken = taken + 1;
        }
        match outcome {
            Ok(client) => {
                push_to(&mut clients, client);
            },
            Err(_) => {},
        }
    }
    assert(outcome_views(left@).len() == 0);
    assert(all.take(taken) =~= all);
    clients
}

/// A connection to servers, and what it offers to an agent.
#[derive(Debug)]
pub struct McpConnection {
    pub clients: Vec<McpClient>,
    pub deferred: DeferredMcpToolSet,
    pub section: Option<String>,
}

impl McpConnection {
    /// Whether the connection offers what its servers have.
    pub open spec fn wf(self) -> bool {
        let tools = tools_of_servers(self.clients.deep_view());
        &&& self.deferred.deep_view() == tools
        &&& self.section.deep_view() == if tools.len() == 0 {
            None
        } else {
            Some(tools_section(tool_names(tools)))
        }
    }

    /// A connection to the given servers.
    pub fn from_clients(clients: Vec<McpClient>) -> (r: McpConnection)
        ensures
            r.clients == clients,
            r.wf(),
    {
        let deferred = DeferredMcpToolSet::from_clients(&clients);
        let section = {
            let names = deferred.names();
            if names.len() == 0 {
                None
            } else {
                Some(deferred_tools_prompt_section(&names))
            }
        };
        McpConnection { clients, deferred, section }
    }

    /// The tools to find and activate.
    pub fn catalog(&self) -> (r: &DeferredMcpToolSet)
        ensures
            *r == self.deferred,
    {
        &self.deferred
    }

    /// The tool by which a model finds the others; none where there is nothing to find.
    pub fn tool_search(&self) -> (r: Option<ToolSearchTool>)
        ensures
            match r {
                Some(search) => self.deferred.deep_view().len() > 0
                    && search.deferred.deep_view() == self.deferred.deep_view()
                    && search.policy is None,
                None => self.deferred.deep_view().len() == 0,
            },
    {
        if self.deferred.is_empty() {
            None
        } else {
            Some(ToolSearchTool::new(self.deferred.clone()))
        }
    }

    /// The part of a system prompt that lists the tools.
    pub fn section(&self) -> (r: Option<&str>)
        ensures
            r.deep_view() == self.section.deep_view(),
    {
        match &self.section {
            Some(section) => Some(section.as_str()),
            None => None,
        }
    }

    /// All tools, ready to be used.
    pub fn direct_tools(&self) -> (r: Vec<McpTool>)
        ensures
            r.deep_view() == tools_of_servers(self.clients.deep_view()),
    {
        let mut tools: Vec<McpTool> = Vec::new();
        let mut i: usize = 0;
        let ghost all = self.clients.deep_view();
        assert(tools.deep_view() =~= Seq::<RemoteTool>::empty());
        while i < self.clients.len()
            invariant
                i <= self.clients@.len(),
                all == self.clients.deep_view(),
                tools.deep_view() == tools_of_servers(all.take(i as int)),
            decreases self.clients@.len() - i,
        {
            add_tools(&mut tools, &self.clients[i]);
            assert(all.take(i + 1).drop_last() =~= all.take(i as int));
            i = i + 1;
        }
        assert(all.take(i as int) =~= all);
        tools
    }
}

} // verus!
