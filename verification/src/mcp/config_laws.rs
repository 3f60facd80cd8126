//! What a configuration says of its servers, and which of them a session gets.
use vstd::prelude::*;

use crate::json::{JsonView, entry};
use crate::json_laws::{last_entry, list_under};
use crate::mcp::client::{ClientView, McpClient};
use crate::mcp::config::{
    ConfigErrorView, ServerView, args_in, config_error_text, config_in, env_in, parsed_config,
    server_in, servers_in, shared_in, text_table_in, texts_in,
};
use crate::mcp::error::{McpError, McpErrorView};
use crate::mcp::loader::{
    connected, expanded, expanded_tree, from_read, outcome_views, variable,
};
use crate::mcp::deferred::tool_names;
use crate::mcp::manager::{came_up, tool_total, tools_by_name};
use crate::mcp::tool::RemoteTool;
use crate::table::total_without;
use crate::text::{contains, find, occurs_at};
use crate::text_laws::{
    contains_somewhere, find_is_least, find_least, holds_still, holds_the_end,
};

verus! {

/// The entries of the object under a key, or none.
pub open spec fn fields_under(json: JsonView, key: Seq<char>) -> Seq<(Seq<char>, JsonView)> {
    match json.at(key) {
        JsonView::Object(fields) => fields,
        _ => Seq::empty(),
    }
}

/// Whether texts alone are listed under a key, or the key is missing.
pub open spec fn lists_texts(json: JsonView, key: Seq<char>) -> bool {
    json.get(key) is None || (json.at(key) is Array && forall|i: int|
        0 <= i < list_under(json, key).len() ==> #[trigger] list_under(json, key)[i] is Text)
}

/// Whether texts alone are entered under a key, or the key is missing.
pub open spec fn enters_texts(json: JsonView, key: Seq<char>) -> bool {
    json.get(key) is None || (json.at(key) is Object && forall|i: int|
        0 <= i < fields_under(json, key).len() ==> (#[trigger] fields_under(json, key)[i]).1
            is Text)
}

/// Whether a table holds, under each name, the text that was entered for it last, and
/// nothing else.
pub open spec fn entered(
    table: Map<Seq<char>, Seq<char>>,
    fields: Seq<(Seq<char>, JsonView)>,
) -> bool {
    forall|key: Seq<char>|
        match #[trigger] last_entry(fields, key) {
            Some(value) => table.contains_key(key) && value == JsonView::Text(table[key]),
            None => !table.contains_key(key),
        }
}

proof fn texts_in_place(items: Seq<JsonView>)
    ensures
        texts_in(items) is Some <==> forall|i: int|
            0 <= i < items.len() ==> #[trigger] items[i] is Text,
        texts_in(items) matches Some(texts) ==> texts.len() == items.len() && forall|i: int|
            0 <= i < items.len() ==> #[trigger] items[i] == JsonView::Text(texts[i]),
    decreases items.len(),
{
    if items.len() > 0 {
        let front = items.drop_last();
        texts_in_place(front);
        assert(forall|i: int| 0 <= i < front.len() ==> (#[trigger] front[i]) == items[i]);
        if texts_in(items) is Some {
            let texts = texts_in(items)->0;
            let before = texts_in(front)->0;
            assert forall|i: int| 0 <= i < items.len() implies #[trigger] items[i]
                == JsonView::Text(texts[i]) by {
                if i < front.len() {
                    assert(front[i] == JsonView::Text(before[i]));
                }
            }
        } else if forall|i: int| 0 <= i < items.len() ==> #[trigger] items[i] is Text {
            assert(items[items.len() - 1] is Text);
            assert forall|i: int| 0 <= i < front.len() implies #[trigger] front[i] is Text by {
                assert(items[i] is Text);
            }
        }
    }
}

proof fn table_is_entered(fields: Seq<(Seq<char>, JsonView)>)
    ensures
        text_table_in(fields) is Some <==> forall|i: int|
            0 <= i < fields.len() ==> (#[trigger] fields[i]).1 is Text,
        text_table_in(fields) matches Some(table) ==> entered(table, fields),
    decreases fields.len(),
{
    if fields.len() > 0 {
        let front = fields.drop_last();
        table_is_entered(front);
        assert(forall|i: int| 0 <= i < front.len() ==> (#[trigger] front[i]) == fields[i]);
        if text_table_in(fields) is Some {
            let table = text_table_in(fields)->0;
            let before = text_table_in(front)->0;
            assert forall|key: Seq<char>|
                match #[trigger] last_entry(fields, key) {
                    Some(value) => table.contains_key(key) && value == JsonView::Text(table[key]),
                    None => !table.contains_key(key),
                } by {
                let earlier = last_entry(front, key);
            }
            assert forall|i: int| 0 <= i < fields.len() implies (#[trigger] fields[i]).1
                is Text by {
                if i < front.len() {
                    assert(front[i].1 is Text);
                }
            }
        } else if forall|i: int| 0 <= i < fields.len() ==> (#[trigger] fields[i]).1 is Text {
            assert(fields[fields.len() - 1].1 is Text);
            assert forall|i: int| 0 <= i < front.len() implies (#[trigger] front[i]).1 is Text by {
                assert(fields[i].1 is Text);
            }
        }
    }
}

/// Whether a value says in a right way whether a server is shared, or does not say it.
pub open spec fn says_shared(json: JsonView) -> bool {
    json.get("shared"@) is None || json.at("shared"@) is Bool
}

/// Whether a value configures a server that is started by a command.
pub open spec fn configures_command(json: JsonView) -> bool {
    json.at("command"@) is Text && lists_texts(json, "args"@) && enters_texts(json, "env"@)
        && says_shared(json)
}

/// Whether a value configures a server that is reached by HTTP.
pub open spec fn configures_url(json: JsonView) -> bool {
    json.at("url"@) is Text && enters_texts(json, "headers"@) && says_shared(json)
}

/// A server is the one that its configuration describes: started by the command there, with
/// the arguments and the variables there, or else reached at the address there, with the
/// headers there. It is shared unless the configuration says otherwise.
pub proof fn servers_are_as_configured(json: JsonView)
    ensures
        server_in(json) is Some <==> configures_command(json) || configures_url(json),
        configures_command(json) ==> (server_in(json) matches Some(
            ServerView::Stdio { command, args, env, shared },
        ) && json.at("command"@) == JsonView::Text(command) && args.len() == list_under(
            json,
            "args"@,
        ).len() && (forall|i: int|
            0 <= i < args.len() ==> list_under(json, "args"@)[i] == JsonView::Text(
                #[trigger] args[i],
            )) && entered(env, fields_under(json, "env"@)) && (shared <==> json.at("shared"@)
            != JsonView::Bool(false))),
        !configures_command(json) && configures_url(json) ==> (server_in(json) matches Some(
            ServerView::Http { url, headers, shared },
        ) && json.at("url"@) == JsonView::Text(url) && entered(
            headers,
            fields_under(json, "headers"@),
        ) && (shared <==> json.at("shared"@) != JsonView::Bool(false))),
{
    texts_in_place(list_under(json, "args"@));
    table_is_entered(fields_under(json, "env"@));
    table_is_entered(fields_under(json, "headers"@));
    let none = Seq::<(Seq<char>, JsonView)>::empty();
    table_is_entered(none);
    assert(args_in(json, "args"@) is Some <==> lists_texts(json, "args"@));
    assert(env_in(json, "env"@) is Some <==> enters_texts(json, "env"@));
    assert(env_in(json, "headers"@) is Some <==> enters_texts(json, "headers"@));
    assert(shared_in(json) is Some <==> says_shared(json));
    assert(server_in(json) is Some ==> (configures_command(json) || configures_url(json)));
    if configures_command(json) {
        let args = args_in(json, "args"@)->0;
        assert forall|i: int| 0 <= i < args.len() implies list_under(json, "args"@)[i]
            == JsonView::Text(#[trigger] args[i]) by {
            assert(list_under(json, "args"@)[i] == JsonView::Text(args[i]));
        }
    }
}

proof fn servers_in_place(fields: Seq<(Seq<char>, JsonView)>, name: Seq<char>)
    ensures
        servers_in(fields) is Some <==> forall|i: int|
            0 <= i < fields.len() ==> server_in((#[trigger] fields[i]).1) is Some,
        servers_in(fields) matches Some(servers) ==> match last_entry(fields, name) {
            Some(value) => servers.contains_key(name) && server_in(value) == Some(servers[name]),
            None => !servers.contains_key(name),
        },
    decreases fields.len(),
{
    if fields.len() > 0 {
        let front = fields.drop_last();
        servers_in_place(front, name);
        assert(forall|i: int| 0 <= i < front.len() ==> (#[trigger] front[i]) == fields[i]);
        if servers_in(fields) is Some {
            assert forall|i: int| 0 <= i < fields.len() implies server_in(
                (#[trigger] fields[i]).1,
            ) is Some by {
                if i < front.len() {
                    assert(server_in(front[i].1) is Some);
                }
            }
        } else if forall|i: int|
            0 <= i < fields.len() ==> server_in((#[trigger] fields[i]).1) is Some {
            assert(server_in(fields[fields.len() - 1].1) is Some);
            assert forall|i: int| 0 <= i < front.len() implies server_in(
                (#[trigger] front[i]).1,
            ) is Some by {
                assert(server_in(fields[i].1) is Some);
            }
        }
    }
}

/// A configuration has a server under every name that it lists, the one that is described
/// there, and no other. It is taken where all of its servers are described in a right way.
pub proof fn configurations_hold_their_servers(json: JsonView, name: Seq<char>)
    requires
        json is Object,
    ensures
        config_in(json) is Some <==> (json.get("mcpServers"@) is None || json.at("mcpServers"@)
            is Object) && forall|i: int|
            0 <= i < fields_under(json, "mcpServers"@).len() ==> server_in(
                (#[trigger] fields_under(json, "mcpServers"@)[i]).1,
            ) is Some,
        config_in(json) matches Some(servers) ==> match last_entry(
            fields_under(json, "mcpServers"@),
            name,
        ) {
            Some(value) => servers.contains_key(name) && server_in(value) == Some(servers[name]),
            None => !servers.contains_key(name),
        },
{
    servers_in_place(fields_under(json, "mcpServers"@), name);
}

proof fn first_place(a: Seq<char>, mark: Seq<char>, b: Seq<char>)
    requires
        mark.len() > 0,
        find(a + mark, mark) == Some(a.len() as int),
    ensures
        find(a + mark + b, mark) == Some(a.len() as int),
{
    let s = a + mark + b;
    let n = a.len() as int;
    find_is_least(a + mark, mark, 0);
    assert(s.subrange(n, n + mark.len()) =~= mark);
    assert forall|i: int| 0 <= i < n implies !#[trigger] occurs_at(s, mark, i) by {
        if occurs_at(s, mark, i) {
            assert((a + mark).subrange(i, i + mark.len()) =~= s.subrange(i, i + mark.len()));
            assert(occurs_at(a + mark, mark, i));
        }
    }
    find_least(s, mark, 0, n);
}

/// A variable between `${` and the next `}` gives way to its value, or to nothing where it
/// has none. What stands before it stays, and what stands behind it is treated for itself:
/// a value is not looked at again.
pub proof fn variables_are_put_in(
    before: Seq<char>,
    name: Seq<char>,
    behind: Seq<char>,
    env: Map<Seq<char>, Seq<char>>,
)
    requires
        find(before + "${"@, "${"@) == Some(before.len() as int),
        !contains(name, "}"@),
    ensures
        expanded(before + "${"@ + name + "}"@ + behind, env) == before + (if env.contains_key(
            name,
        ) {
            env[name]
        } else {
            Seq::empty()
        }) + expanded(behind, env),
{
    reveal_strlit("${");
    reveal_strlit("}");
    let s = before + "${"@ + name + "}"@ + behind;
    let n = before.len() as int;
    let tail = s.skip(n + 2);
    assert(s =~= before + "${"@ + (name + "}"@ + behind));
    first_place(before, "${"@, name + "}"@ + behind);
    assert(tail =~= name + "}"@ + behind);
    let at = name.len() as int;
    contains_somewhere(name, "}"@);
    assert(tail.subrange(at, at + 1) =~= "}"@);
    assert forall|i: int| 0 <= i < at implies !#[trigger] occurs_at(tail, "}"@, i) by {
        if occurs_at(tail, "}"@, i) {
            assert(name.subrange(i, i + 1) =~= tail.subrange(i, i + 1));
            assert(occurs_at(name, "}"@, i));
        }
    }
    find_least(tail, "}"@, 0, at);
    assert(s.take(n) =~= before);
    assert(tail.take(at) =~= name);
    assert(tail.skip(at + 1) =~= behind);
    assert(variable(env, name) == if env.contains_key(name) {
        env[name]
    } else {
        Seq::empty()
    });
}

/// A `${` that nothing closes stays, whatever stands around it.
pub proof fn open_variables_stay(s: Seq<char>, env: Map<Seq<char>, Seq<char>>)
    requires
        !contains(s, "}"@),
    ensures
        expanded(s, env) == s,
    decreases s.len(),
{
    reveal_strlit("${");
    reveal_strlit("}");
    contains_somewhere(s, "}"@);
    find_is_least(s, "${"@, 0);
    match find(s, "${"@) {
        Some(i) => {
            let tail = s.skip(i + 2);
            find_is_least(tail, "}"@, 0);
            if let Some(j) = find(tail, "}"@) {
                assert(s.subrange(i + 2 + j, i + 3 + j) =~= tail.subrange(j, j + 1));
                assert(occurs_at(s, "}"@, i + 2 + j));
            }
            contains_somewhere(tail, "}"@);
            open_variables_stay(tail, env);
            assert(s.subrange(i, i + 2) == "${"@);
            assert(s.take(i) + "${"@ + tail =~= s);
        },
        None => {},
    }
}

proof fn entries_are_expanded(
    entries: Seq<(Seq<char>, JsonView)>,
    env: Map<Seq<char>, Seq<char>>,
    key: Seq<char>,
)
    ensures
        expanded_tree(JsonView::Object(entries), env).get(key) == match entry(entries, key) {
            Some(value) => Some(expanded_tree(value, env)),
            None => None,
        },
    decreases entries.len(),
{
    let out = expanded_tree(JsonView::Object(entries), env)->Object_0;
    if entries.len() > 0 {
        assert(out[0] == (entries[0].0, expanded_tree(entries[0].1, env)));
        let rest = expanded_tree(JsonView::Object(entries.skip(1)), env)->Object_0;
        assert(out.skip(1) =~= rest);
        entries_are_expanded(entries.skip(1), env, key);
    }
}

/// Variables are put in wherever a text stands: under each key, in each place of a list,
/// however deep, and nowhere else.
pub proof fn variables_reach_everywhere(
    json: JsonView,
    env: Map<Seq<char>, Seq<char>>,
    key: Seq<char>,
    i: int,
)
    ensures
        json matches JsonView::Text(t) ==> expanded_tree(json, env) == JsonView::Text(
            expanded(t, env),
        ),
        json.get(key) is Some ==> expanded_tree(json, env).get(key) == Some(
            expanded_tree(json.get(key)->0, env),
        ),
        json.get(key) is None ==> expanded_tree(json, env).get(key) is None,
        json matches JsonView::Array(items) ==> (expanded_tree(json, env) matches JsonView::Array(
            out,
        ) && out.len() == items.len() && (0 <= i < items.len() ==> out[i] == expanded_tree(
            items[i],
            env,
        ))),
        json is Null || json is Bool || json is Number ==> expanded_tree(json, env) == json,
{
    if let JsonView::Object(entries) = json {
        entries_are_expanded(entries, env, key);
    }
}

/// A text that is a configuration, once its variables are put in, gives its servers and no
/// complaint; any other gives a complaint and no servers.
pub proof fn bad_configurations_are_reported(
    read: Result<JsonView, Seq<char>>,
    env: Map<Seq<char>, Seq<char>>,
)
    ensures
        ({
            let given = from_read(read, env);
            let good = read is Ok && config_in(expanded_tree(read->Ok_0, env)) is Some;
            &&& good ==> given.config_error is None && config_in(
                expanded_tree(read->Ok_0, env),
            ) == Some(given.servers)
            &&& !good ==> given.config_error is Some && given.servers
                == Map::<Seq<char>, ServerView>::empty()
        }),
{
}

/// Of the servers that were tried, those that could be connected are kept, in their order,
/// and the others are left out.
pub proof fn connected_servers_are_kept(
    first: Seq<Result<ClientView, McpErrorView>>,
    one: Result<ClientView, McpErrorView>,
    last: Seq<Result<ClientView, McpErrorView>>,
)
    ensures
        connected(first.push(one) + last) == match one {
            Ok(client) => connected(first).push(client) + connected(last),
            Err(_) => connected(first) + connected(last),
        },
    decreases last.len(),
{
    let all = first.push(one) + last;
    if last.len() == 0 {
        assert(all =~= first.push(one));
        assert(all.drop_last() =~= first);
        assert(connected(all) + connected(last) =~= connected(all));
        assert(connected(first) + connected(last) =~= connected(first));
    } else {
        connected_servers_are_kept(first, one, last.drop_last());
        assert(all.drop_last() =~= first.push(one) + last.drop_last());
        let front = connected(last.drop_last());
        if let Ok(client) = last.last() {
            if let Ok(own) = one {
                assert((connected(first).push(own) + front).push(client) =~= connected(first).push(
                    own,
                ) + front.push(client));
            } else {
                assert((connected(first) + front).push(client) =~= connected(first) + front.push(
                    client,
                ));
            }
        }
    }
}

/// Whether the server that was tried at place `i` came up under a name.
pub open spec fn up_at(
    outcomes: Seq<(String, Result<McpClient, McpError>)>,
    name: Seq<char>,
    i: int,
) -> bool {
    0 <= i < outcomes.len() && outcomes[i].0@ == name && outcomes[i].1 is Ok
}

/// A session has the servers that came up, each under its name, and no other. Of those
/// that came up under one name it has the last.
pub proof fn sessions_have_what_came_up(
    outcomes: Seq<(String, Result<McpClient, McpError>)>,
    name: Seq<char>,
    i: int,
)
    ensures
        up_at(outcomes, name, i) ==> came_up(outcomes).contains_key(name),
        came_up(outcomes).contains_key(name) ==> exists|k: int| #[trigger]
            up_at(outcomes, name, k),
        up_at(outcomes, name, i) && (forall|k: int| k > i ==> !#[trigger] up_at(outcomes, name, k))
            ==> came_up(outcomes)[name] == outcomes[i].1->Ok_0.deep_view(),
    decreases outcomes.len(),
{
    if outcomes.len() > 0 {
        let front = outcomes.drop_last();
        let n = outcomes.len() - 1;
        sessions_have_what_came_up(front, name, i);
        assert forall|k: int| k != n implies (#[trigger] up_at(outcomes, name, k) <==> up_at(
            front,
            name,
            k,
        )) by {}
        if came_up(outcomes).contains_key(name) {
            if !up_at(outcomes, name, n) {
                assert(came_up(front).contains_key(name));
                let k = choose|k: int| #[trigger] up_at(front, name, k);
                assert(up_at(outcomes, name, k));
            }
        }
        if up_at(outcomes, name, i) && (forall|k: int|
            k > i ==> !#[trigger] up_at(outcomes, name, k)) {
            if i < n {
                assert(!up_at(outcomes, name, n));
                assert forall|k: int| k > i implies !#[trigger] up_at(front, name, k) by {
                    assert(!up_at(outcomes, name, k));
                }
            }
        }
    }
}

/// The tools of a session are those of its servers, one server behind the other: those of
/// each are there whole and in their order.
pub proof fn sessions_have_all_tools(
    first: Seq<Seq<char>>,
    name: Seq<char>,
    last: Seq<Seq<char>>,
    clients: Map<Seq<char>, ClientView>,
    j: int,
)
    requires
        0 <= j < clients[name].tools.len(),
    ensures
        ({
            let tools = tools_by_name(first.push(name) + last, clients);
            let at = tools_by_name(first, clients).len();
            &&& tools.len() == at + clients[name].tools.len() + tools_by_name(last, clients).len()
            &&& tools[at + j] == (RemoteTool {
                server: clients[name].server_name,
                reconnects: clients[name].reconnects,
                def: clients[name].tools[j],
            })
        }),
    decreases last.len(),
{
    let all = first.push(name) + last;
    if last.len() == 0 {
        assert(all =~= first.push(name));
        assert(all.drop_last() =~= first);
    } else {
        sessions_have_all_tools(first, name, last.drop_last(), clients, j);
        assert(all.drop_last() =~= first.push(name) + last.drop_last());
    }
}

/// A configuration file gives its servers, or an error that says which file it was and what
/// is wrong with it.
pub proof fn bad_files_are_named(read: Result<JsonView, Seq<char>>, path: Seq<char>)
    ensures
        ({
            let good = read is Ok && config_in(read->Ok_0) is Some;
            match parsed_config(read, path) {
                Ok(servers) => good && config_in(read->Ok_0) == Some(servers),
                Err(error) => {
                    &&& !good
                    &&& contains(config_error_text(error), path)
                    &&& read is Err ==> contains(config_error_text(error), read->Err_0)
                },
            }
        }),
{
    if let Err(error) = parsed_config(read, path) {
        errors_name_the_file(error);
    }
}

/// What is said of a configuration file names the file and says what is wrong with it.
pub proof fn errors_name_the_file(error: ConfigErrorView)
    ensures
        match error {
            ConfigErrorView::Io { path, source } => contains(config_error_text(error), path)
                && contains(config_error_text(error), source),
            ConfigErrorView::Parse { path, source } => contains(config_error_text(error), path)
                && contains(config_error_text(error), source),
        },
{
    let (label, path, source) = match error {
        ConfigErrorView::Io { path, source } => ("could not read config at "@, path, source),
        ConfigErrorView::Parse { path, source } => ("could not parse config at "@, path, source),
    };
    holds_the_end(label, path);
    holds_still(label + path, ": "@, path);
    holds_still(label + path + ": "@, source, path);
    holds_the_end(label + path + ": "@, source);
}

/// What came of trying servers is kept in its order, each with its server or its error.
pub proof fn outcomes_are_kept(outcomes: Seq<Result<McpClient, McpError>>, i: int)
    requires
        0 <= i < outcomes.len(),
    ensures
        outcome_views(outcomes).len() == outcomes.len(),
        match outcomes[i] {
            Ok(client) => outcome_views(outcomes)[i] == Ok::<ClientView, McpErrorView>(
                client.deep_view(),
            ),
            Err(error) => outcome_views(outcomes)[i] == Err::<ClientView, McpErrorView>(
                error.deep_view(),
            ),
        },
{
}

/// One more server adds its tools to the count, in the place of those that were counted
/// under its name; without servers there are no tools.
pub proof fn tools_are_counted(
    clients: Map<Seq<char>, ClientView>,
    name: Seq<char>,
    client: ClientView,
)
    requires
        clients.dom().finite(),
    ensures
        tool_total(Map::empty()) == 0,
        tool_total(clients.insert(name, client)) == tool_total(clients.remove(name))
            + client.tools.len(),
{
    let count = |client: ClientView| client.tools.len();
    let more = clients.insert(name, client).map_values(count);
    assert(more.dom() =~= clients.dom().insert(name));
    total_without(more, name);
    assert(more.remove(name) =~= clients.remove(name).map_values(count));
    let none = Map::<Seq<char>, ClientView>::empty().map_values(count);
    assert(none.dom() =~= Set::empty());
}

/// Every tool has its name in the list of names, in its place: that of its server and its
/// own.
pub proof fn tools_are_named(tools: Seq<RemoteTool>, i: int)
    requires
        0 <= i < tools.len(),
    ensures
        tool_names(tools).len() == tools.len(),
        tool_names(tools)[i] == "mcp__"@ + tools[i].server + "__"@ + tools[i].def.name,
{
}

} // verus!
