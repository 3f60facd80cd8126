use runic::duration::Duration;
use runic::json::Json;
use runic::mcp::client::{
    Exchange, ExchangeAction, ExchangeEvent, Generation, Handshake, HandshakeAction,
    HandshakeEvent, McpClient, McpHandle, call_of, call_params, tools_of,
};
use runic::mcp::config::{
    ConfigError, FileRead, McpConfig, McpServerConfig, StdioServerConfig,
};
use runic::mcp::error::McpError;
use runic::mcp::loader::{
    Mcp, McpConnection, connect_failed, expand_env, expand_str, keep_connected, mcp_file, mcp_json,
};
use runic::mcp::manager::McpManager;
use runic::mcp::pool::{Acquire, SharedMcpPool};
use runic::mcp::protocol::{ContentBlock, MCP_PROTOCOL_VERSION, McpToolDef};
use runic::table::Table;

fn json(text: &str) -> Json {
    Json::parse(text).unwrap()
}

fn env(entries: &[(&str, &str)]) -> Table<String> {
    let mut table = Table::new();
    for (key, value) in entries {
        table.insert(key, value.to_string());
    }
    table
}

/// Answers like a server, and writes down what it is asked.
struct FakeTransport {
    with_tools_capability: bool,
    fail_tools_list: bool,
    calls: Vec<String>,
}

impl FakeTransport {
    fn request(&mut self, method: &str, params: Option<Json>) -> Result<Json, McpError> {
        self.calls.push(method.to_string());
        match method {
            "initialize" => {
                let capabilities =
                    if self.with_tools_capability { r#"{ "tools": {} }"# } else { "{}" };
                Ok(json(&format!(
                    r#"{{"protocolVersion": "{MCP_PROTOCOL_VERSION}", "capabilities": {capabilities},
                        "serverInfo": {{ "name": "fake-server", "version": "1.2.3" }}}}"#
                )))
            },
            "tools/list" => {
                if self.fail_tools_list {
                    Err(McpError::protocol("tools/list exploded"))
                } else {
                    Ok(json(
                        r#"{"tools": [
                            { "name": "echo", "description": "echoes", "inputSchema": { "type": "object" } }
                        ]}"#,
                    ))
                }
            },
            "tools/call" => {
                let params = params.unwrap();
                let name = params.text_at("name").unwrap();
                Ok(json(&format!(
                    r#"{{"content": [{{ "type": "text", "text": "ran {name}" }}]}}"#
                )))
            },
            other => Err(McpError::protocol(&format!("unexpected request: {other}"))),
        }
    }

    fn handshake(&mut self) -> Result<McpClient, McpError> {
        let (mut state, mut action) = Handshake::begin();
        loop {
            let event = match action {
                HandshakeAction::Request { method, params } => {
                    HandshakeEvent::Answered(self.request(method, params))
                },
                HandshakeAction::Notify { method } => {
                    self.calls.push(format!("notify:{method}"));
                    HandshakeEvent::Notified(Ok(()))
                },
                HandshakeAction::Connected { init, tools } => {
                    return Ok(McpClient {
                        handle: McpHandle::from_transport("fake"),
                        server_info: init.server_info,
                        capabilities: init.capabilities,
                        tools,
                    });
                },
                HandshakeAction::Failed(error) => return Err(error),
                HandshakeAction::Ignore => panic!("nothing was out of place"),
            };
            (state, action) = state.step(event);
        }
    }
}

fn fake(with_tools_capability: bool, fail_tools_list: bool) -> FakeTransport {
    FakeTransport { with_tools_capability, fail_tools_list, calls: Vec::new() }
}

#[test]
fn handshake_initializes_then_notifies_then_lists_tools() {
    let mut transport = fake(true, false);
    let client = transport.handshake().unwrap();

    assert_eq!(
        transport.calls,
        vec!["initialize", "notify:notifications/initialized", "tools/list"],
        "handshake sequence must follow the MCP spec order"
    );
    assert_eq!(client.server_info().name, "fake-server");
    assert_eq!(client.tools().len(), 1);
    assert_eq!(client.tools()[0].name, "echo");
}

#[test]
fn handshake_skips_tools_list_when_capability_absent() {
    let mut transport = fake(false, false);
    let client = transport.handshake().unwrap();

    assert!(
        !transport.calls.iter().any(|c| c == "tools/list"),
        "must not call tools/list when the server doesn't advertise tools"
    );
    assert!(client.tools().is_empty());
}

#[test]
fn handshake_degrades_gracefully_when_tools_list_fails() {
    let mut transport = fake(true, true);
    let client = transport.handshake().unwrap();
    assert!(client.tools().is_empty());
}

#[test]
fn handshake_fails_on_a_bad_answer_or_a_lost_notification() {
    let (state, _) = Handshake::begin();
    let (_, action) = state.step(HandshakeEvent::Answered(Ok(json("{}"))));
    assert!(matches!(action, HandshakeAction::Failed(McpError::Json(_))));

    let (state, _) = Handshake::begin();
    let answer = fake(true, false).request("initialize", None);
    let (state, action) = state.step(HandshakeEvent::Answered(answer));
    assert!(matches!(action, HandshakeAction::Notify { .. }));
    let lost = Err(McpError::Disconnected("fake".into()));
    let (_, action) = state.step(HandshakeEvent::Notified(lost));
    assert!(matches!(action, HandshakeAction::Failed(McpError::Disconnected(_))));
}

#[test]
fn call_tool_wraps_params_and_parses_result() {
    let mut transport = fake(true, false);
    let _client = transport.handshake().unwrap();

    let params = call_params("echo", json(r#"{ "msg": "hi" }"#));
    let result = call_of(transport.request("tools/call", Some(params))).unwrap();
    match &result.content[0] {
        ContentBlock::Text { text } => assert_eq!(text, "ran echo"),
        other => panic!("expected Text content, got {other:?}"),
    }
    assert!(result.is_error.is_none());
}

#[test]
fn lists_and_calls_report_answers_of_another_shape() {
    assert!(matches!(tools_of(Ok(json("[]"))), Err(McpError::Json(_))));
    assert!(matches!(call_of(Ok(json("3"))), Err(McpError::Json(_))));
    assert!(matches!(tools_of(Err(McpError::protocol("x"))), Err(McpError::Protocol(_))));
}

fn gone() -> McpError {
    McpError::Disconnected("s".into())
}

#[test]
fn a_lost_connection_is_rebuilt_once_and_the_request_sent_again() {
    let mut run = Exchange::begin(&McpHandle::reconnectable("s".into()));
    match run.step(ExchangeEvent::Answered(Err(gone()))) {
        ExchangeAction::Rebuild { pause } => assert!(pause.is_none()),
        other => panic!("{other:?}"),
    }
    match run.step(ExchangeEvent::Rebuilt(Err(McpError::protocol("no")))) {
        ExchangeAction::Rebuild { pause } => {
            assert_eq!(pause.unwrap().as_nanos(), 500_000_000);
        },
        other => panic!("{other:?}"),
    }
    assert!(matches!(run.step(ExchangeEvent::Rebuilt(Ok(()))), ExchangeAction::Send));
    match run.step(ExchangeEvent::Answered(Err(gone()))) {
        ExchangeAction::Return(Err(McpError::Disconnected(name))) => assert_eq!(name, "s"),
        other => panic!("{other:?}"),
    }
    assert!(matches!(run.step(ExchangeEvent::Answered(Ok(Json::Null))), ExchangeAction::Ignore));
}

#[test]
fn rebuilding_gives_up_after_two_attempts_with_the_last_error() {
    let mut run = Exchange::begin(&McpHandle::reconnectable("s".into()));
    run.step(ExchangeEvent::Answered(Err(McpError::StaleSession("s".into()))));
    run.step(ExchangeEvent::Rebuilt(Err(McpError::protocol("first"))));
    match run.step(ExchangeEvent::Rebuilt(Err(McpError::protocol("second")))) {
        ExchangeAction::Return(Err(McpError::Protocol(message))) => assert_eq!(message, "second"),
        other => panic!("{other:?}"),
    }
}

#[test]
fn handles_without_a_recipe_and_hopeless_errors_are_not_retried() {
    let mut run = Exchange::begin(&McpHandle::from_transport("s"));
    assert!(matches!(
        run.step(ExchangeEvent::Answered(Err(gone()))),
        ExchangeAction::Return(Err(McpError::Disconnected(_)))
    ));
    let mut run = Exchange::begin(&McpHandle::reconnectable("s".into()));
    assert!(matches!(
        run.step(ExchangeEvent::Answered(Err(McpError::protocol("x")))),
        ExchangeAction::Return(Err(McpError::Protocol(_)))
    ));
}

#[test]
fn callers_who_fail_together_rebuild_once() {
    let mut generation = Generation::first();
    let seen = generation.count;
    assert!(generation.is_current(seen));
    generation.advance();
    assert!(!generation.is_current(seen));
    let mut run = Exchange::begin(&McpHandle::reconnectable("s".into()));
    run.step(ExchangeEvent::Answered(Err(gone())));
    assert!(matches!(run.step(ExchangeEvent::RebuiltElsewhere), ExchangeAction::Send));
}

#[test]
fn only_transport_death_is_recoverable() {
    assert!(McpError::Disconnected("s".into()).is_recoverable());
    assert!(McpError::StaleSession("s".into()).is_recoverable());
    assert!(!McpError::Timeout(Duration::from_secs(1)).is_recoverable());
    assert!(!McpError::Protocol("bad shape".into()).is_recoverable());
    assert!(
        !McpError::JsonRpc { code: -32000, message: "tool failed".into(), data: None }
            .is_recoverable()
    );
}

#[test]
fn errors_say_what_happened() {
    assert_eq!(McpError::Io("x".into()).message(), "transport I/O error: x");
    assert_eq!(McpError::Json("x".into()).message(), "json error: x");
    let rpc = McpError::JsonRpc { code: -32601, message: "nope".into(), data: None };
    assert_eq!(rpc.message(), "jsonrpc error -32601: nope");
    let late = McpError::Timeout(Duration::from_millis(30500));
    assert_eq!(late.message(), "request timed out after 30.5s");
    assert_eq!(gone().message(), "server 's' is disconnected");
    assert_eq!(McpError::StaleSession("s".into()).message(), "server 's' session expired");
    let spawn = McpError::Spawn { server: "s".into(), source: "gone".into() };
    assert_eq!(spawn.message(), "failed to spawn server 's': gone");
    assert_eq!(McpError::protocol("x").message(), "protocol error: x");
    let failed = connect_failed("a", McpError::protocol("x"));
    assert_eq!(failed.message(), "failed to connect server 'a': protocol error: x");
}

fn stdio(config: &McpServerConfig) -> &StdioServerConfig {
    match config {
        McpServerConfig::Stdio(config) => config,
        McpServerConfig::Http(_) => panic!("expected a child process"),
    }
}

#[test]
fn parses_claude_desktop_shape() {
    let raw = r#"{
        "mcpServers": {
            "github": {
                "command": "npx",
                "args": ["-y", "@modelcontextprotocol/server-github"],
                "env": { "GITHUB_TOKEN": "ghp_abc" }
            },
            "filesystem": {
                "command": "uvx",
                "args": ["mcp-server-filesystem", "/tmp"]
            }
        }
    }"#;
    let cfg = McpConfig::parse(raw, "test.json").unwrap();
    assert_eq!(cfg.len(), 2);

    let github = stdio(cfg.mcp_servers.get("github").unwrap());
    assert_eq!(github.command, "npx");
    assert_eq!(github.args, vec!["-y", "@modelcontextprotocol/server-github"]);
    assert_eq!(github.env.get("GITHUB_TOKEN").map(String::as_str), Some("ghp_abc"));
    assert!(github.shared, "shared defaults to true");

    let fs = stdio(cfg.mcp_servers.get("filesystem").unwrap());
    assert_eq!(fs.command, "uvx");
    assert_eq!(fs.env.len(), 0);
}

#[test]
fn empty_object_parses_as_empty_config() {
    let cfg = McpConfig::parse("{}", "t.json").unwrap();
    assert!(cfg.is_empty());
}

#[test]
fn empty_mcp_servers_object_is_fine() {
    let cfg = McpConfig::parse(r#"{"mcpServers":{}}"#, "t.json").unwrap();
    assert!(cfg.is_empty());
}

#[test]
fn shared_false_is_respected() {
    let raw = r#"{
        "mcpServers": {
            "browser": {
                "command": "node",
                "args": ["server.js"],
                "shared": false
            }
        }
    }"#;
    let cfg = McpConfig::parse(raw, "t.json").unwrap();
    assert!(!cfg.mcp_servers.get("browser").unwrap().shared());
}

#[test]
fn round_trips_through_serde() {
    let mut cfg = McpConfig::default();
    cfg.mcp_servers.insert(
        "x",
        McpServerConfig::Stdio(StdioServerConfig {
            command: "echo".into(),
            args: vec!["hi".into()],
            env: Table::new(),
            shared: true,
        }),
    );
    let text = cfg.to_json().print();
    let parsed = McpConfig::parse(&text, "x").unwrap();
    assert_eq!(parsed.len(), 1);
    assert_eq!(stdio(parsed.mcp_servers.get("x").unwrap()).command, "echo");
}

#[test]
fn servers_may_be_reached_by_http() {
    let raw = r#"{"mcpServers":{"crm":{"url":"https://x/mcp","headers":{"A":"b"}}}}"#;
    let cfg = McpConfig::parse(raw, "t.json").unwrap();
    match cfg.mcp_servers.get("crm").unwrap() {
        McpServerConfig::Http(http) => {
            assert_eq!(http.url, "https://x/mcp");
            assert_eq!(http.headers.get("A").unwrap(), "b");
            assert!(http.shared);
        },
        other => panic!("{other:?}"),
    }
    let again = McpConfig::parse(&cfg.to_json().print(), "t.json").unwrap();
    assert!(matches!(again.mcp_servers.get("crm"), Some(McpServerConfig::Http(_))));
}

#[test]
fn malformed_json_yields_parse_error() {
    let err = McpConfig::parse("{not json", "/oops").unwrap_err();
    match &err {
        ConfigError::Parse { path, .. } => {
            assert_eq!(path, "/oops");
        },
        other => panic!("expected Parse error, got {other:?}"),
    }
    assert!(err.message().starts_with("could not parse config at /oops: "));
}

#[test]
fn another_shape_yields_parse_error() {
    let shapes = [
        "[]",
        r#"{"mcpServers":null}"#,
        r#"{"mcpServers":{"a":{}}}"#,
        r#"{"mcpServers":{"a":{"command":"x","args":"y"}}}"#,
        r#"{"mcpServers":{"a":{"command":"x","env":{"k":1}}}}"#,
        r#"{"mcpServers":{"a":{"command":"x","shared":"no"}}}"#,
    ];
    for shape in shapes {
        assert!(matches!(McpConfig::parse(shape, "p"), Err(ConfigError::Parse { .. })), "{shape}");
    }
}

#[test]
fn load_from_path_reads_file() {
    let read = FileRead::Text(r#"{"mcpServers":{}}"#.to_string());
    let cfg = McpConfig::load_from_path(read, "mcp.json").unwrap();
    assert!(cfg.is_empty());
    let missing = McpConfig::load_from_path(FileRead::Missing("no such file".into()), "p");
    let error = missing.unwrap_err();
    assert_eq!(error.message(), "could not read config at p: no such file");
}

#[test]
fn try_load_returns_none_for_missing_file() {
    let read = FileRead::Missing("no such file".to_string());
    let cfg = McpConfig::try_load_from_path(read, "does-not-exist.json").unwrap();
    assert!(cfg.is_none());
}

#[test]
fn try_load_propagates_non_notfound_errors() {
    let read = FileRead::Failed("is a directory".to_string());
    let result = McpConfig::try_load_from_path(read, "dir");
    assert!(matches!(result, Err(ConfigError::Io { .. })));
}

#[test]
fn variables_are_put_in_where_they_are_named() {
    let vars = env(&[("TOKEN", "abc"), ("ODD", "${TOKEN}")]);
    assert_eq!(expand_str("plain", &vars), "plain");
    assert_eq!(expand_str("Bearer ${TOKEN}!", &vars), "Bearer abc!");
    assert_eq!(expand_str("${TOKEN}${TOKEN}", &vars), "abcabc");
    assert_eq!(expand_str("a${UNSET}b", &vars), "ab");
    assert_eq!(expand_str("tail ${TOKEN", &vars), "tail ${TOKEN");
    assert_eq!(expand_str("${ODD}", &vars), "${TOKEN}");
    assert_eq!(expand_str("é${TOKEN}é", &vars), "éabcé");
    let tree = json(r#"{"${TOKEN}":["${TOKEN}",1,{"k":"${TOKEN}"}]}"#);
    assert_eq!(expand_env(&tree, &vars), json(r#"{"${TOKEN}":["abc",1,{"k":"abc"}]}"#));
}

#[test]
fn configurations_come_from_files_json_and_code() {
    let vars = env(&[("URL", "https://x")]);
    let raw = r#"{"mcpServers":{"a":{"url":"${URL}/mcp"}}}"#;
    let mcp = mcp_file(FileRead::Text(raw.to_string()), &vars);
    match mcp.servers().get("a").unwrap() {
        McpServerConfig::Http(http) => assert_eq!(http.url, "https://x/mcp"),
        other => panic!("{other:?}"),
    }
    assert!(mcp.ready().is_ok());

    let broken = mcp_file(FileRead::Failed("denied".into()), &vars);
    assert_eq!(
        broken.ready().unwrap_err().message(),
        "protocol error: cannot read mcp config file: denied"
    );
    let garbled = mcp_file(FileRead::Text("{".into()), &vars);
    assert!(
        garbled.ready().unwrap_err().message().contains("mcp config is not valid JSON: ")
    );
    assert_eq!(garbled.servers().len(), 0);

    let http = Mcp::http("h", "https://y");
    assert!(matches!(http.servers().get("h"), Some(McpServerConfig::Http(_))));
}

#[test]
fn strict_connect_fails_on_a_dead_server_and_lenient_skips_it() {
    let mcp = Mcp::stdio("ghost", "/nonexistent/runic-test-binary", vec![]);
    assert!(mcp.ready().is_ok());
    assert_eq!(
        stdio(mcp.servers().get("ghost").unwrap()).command,
        "/nonexistent/runic-test-binary"
    );
    let dead = || McpError::Spawn { server: "ghost".into(), source: "missing".into() };

    let err = connect_failed("ghost", dead());
    assert!(matches!(err, McpError::ConnectFailed { ref server, .. } if server == "ghost"));

    let conn = McpConnection::from_clients(keep_connected(vec![Err(dead())]));
    assert!(conn.direct_tools().is_empty());
    assert!(conn.tool_search().is_none());
}

#[test]
fn strict_connect_fails_on_malformed_config() {
    let vars = env(&[]);
    let mcp = mcp_json(&json(r#"{ "mcpServers": { "bad": { "nope": true } } }"#), &vars);
    let Err(err) = mcp.ready() else {
        panic!("malformed config must not connect");
    };
    assert!(err.message().contains("schema"));
    assert_eq!(mcp.servers().len(), 0);
}

fn connected(server: &str, tools: &[&str]) -> McpClient {
    let mut client = fake(false, false).handshake().unwrap();
    client.handle = McpHandle::from_transport(server);
    for name in tools {
        client.tools.push(McpToolDef {
            name: name.to_string(),
            description: None,
            input_schema: json("{}"),
        });
    }
    client
}

#[test]
fn empty_manager_has_no_tools_or_servers() {
    let m = McpManager::new();
    assert!(m.is_empty());
    assert_eq!(m.len(), 0);
    assert_eq!(m.total_tool_count(), 0);
    assert!(m.all_tools().is_empty());
    assert!(m.server_names().is_empty());
}

#[test]
fn connect_all_with_empty_config_yields_empty_manager() {
    let cfg = McpConfig::default();
    assert_eq!(cfg.mcp_servers.entries().len(), 0);
    let m = McpManager::from_outcomes(vec![]);
    assert!(m.is_empty());
}

#[test]
fn connect_all_skips_servers_that_fail_to_spawn() {
    let missing = |server: &str| {
        let source = "No such file or directory".to_string();
        (server.to_string(), Err(McpError::Spawn { server: server.to_string(), source }))
    };
    let m = McpManager::from_outcomes(vec![missing("ghost"), missing("phantom")]);
    assert_eq!(m.len(), 0);
    assert!(m.all_tools().is_empty());
}

#[test]
fn managers_order_their_servers_by_name() {
    let outcomes = vec![
        ("zeta".to_string(), Ok(connected("zeta", &["z1"]))),
        ("dead".to_string(), Err(McpError::protocol("no"))),
        ("alpha".to_string(), Ok(connected("alpha", &["a1", "a2"]))),
    ];
    let m = McpManager::from_outcomes(outcomes);
    assert_eq!(m.server_names(), vec!["alpha", "zeta"]);
    assert_eq!(m.total_tool_count(), 3);
    let tools: Vec<String> = m.all_tools().iter().map(|t| t.name().to_string()).collect();
    assert_eq!(tools, vec!["mcp__alpha__a1", "mcp__alpha__a2", "mcp__zeta__z1"]);
    assert_eq!(m.client("zeta").unwrap().server_name(), "zeta");
    assert!(m.client("dead").is_none());
}

fn at(secs: u64) -> Duration {
    Duration::from_secs(secs)
}

#[test]
fn new_pool_is_empty() {
    let pool = SharedMcpPool::new();
    assert!(pool.is_empty());
    assert_eq!(pool.len(), 0);
    assert_eq!(pool.total_refs(), 0);
    assert!(pool.server_names().is_empty());
}

#[test]
fn acquire_missing_binary_returns_error_and_records_cooldown() {
    let mut pool = SharedMcpPool::new();
    assert!(matches!(pool.acquire("ghost", at(100)), Acquire::Connect));
    let missing = McpError::Spawn { server: "ghost".into(), source: "missing".into() };
    let first = pool.finish_connect("ghost", Err(missing), at(101));
    assert!(first.is_err());

    match pool.acquire("ghost", at(101)) {
        Acquire::Refused(McpError::Protocol(msg)) => {
            assert!(msg.contains("cooldown"), "got: {msg}");
            assert_eq!(msg, "server 'ghost' is in failed-connect cooldown (30s remaining)");
        },
        other => panic!("expected cooldown error, got {other:?}"),
    }
    assert!(matches!(pool.acquire("ghost", at(130)), Acquire::Refused(_)));
    assert!(matches!(pool.acquire("ghost", at(131)), Acquire::Connect));
}

#[test]
fn release_on_unknown_server_is_a_noop() {
    let mut pool = SharedMcpPool::new();
    pool.release("nobody");
    assert!(pool.is_empty());
}

#[test]
fn tools_for_unknown_server_returns_empty() {
    let pool = SharedMcpPool::new();
    assert!(pool.tools_for("nobody").is_empty());
}

#[test]
fn shutdown_unknown_server_is_a_noop() {
    let mut pool = SharedMcpPool::new();
    assert!(pool.shutdown("nobody").is_none());
    assert!(pool.is_empty());
}

#[test]
fn pools_share_connections_and_count_their_users() {
    let mut pool = SharedMcpPool::new();
    assert!(matches!(pool.acquire("a", at(1)), Acquire::Connect));
    assert!(matches!(pool.acquire("a", at(2)), Acquire::Wait));
    let handle = pool.finish_connect("a", Ok(connected("a", &["t"])), at(3)).unwrap();
    assert_eq!(handle.server_name(), "a");
    match pool.acquire("a", at(4)) {
        Acquire::Live(handle) => assert_eq!(handle.server_name(), "a"),
        other => panic!("{other:?}"),
    }
    assert_eq!(pool.total_refs(), 2);
    assert_eq!(pool.tools_for("a")[0].name(), "mcp__a__t");
    pool.release("a");
    pool.release("a");
    pool.release("a");
    assert_eq!(pool.total_refs(), 0);
    assert_eq!(pool.server_names(), vec!["a"]);
    assert!(pool.shutdown("a").is_some());
    assert!(pool.is_empty());
    pool.acquire("b", at(5));
    pool.finish_connect("b", Ok(connected("b", &[])), at(5)).unwrap();
    assert_eq!(pool.shutdown_all().len(), 1);
    assert!(pool.is_empty());
}
