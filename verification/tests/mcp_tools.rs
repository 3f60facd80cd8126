use runic::json::Json;
use runic::mcp::client::{McpClient, McpHandle, call_of};
use runic::mcp::deferred::{
    DeferredMcpToolSet, DeferredMcpToolStub, ToolAccessPolicy, deferred_tools_prompt_section,
};
use runic::mcp::error::McpError;
use runic::mcp::loader::McpConnection;
use runic::mcp::protocol::{
    ContentBlock, McpToolDef, ResourceContent, ServerCapabilities, ServerInfo,
    content_blocks_to_text,
};
use runic::mcp::tool::{McpTool, prefixed_name};
use runic::mcp::tool_search::{ToolSearchTool, activated_key};

fn json(text: &str) -> Json {
    Json::parse(text).unwrap()
}

fn make_def(name: &str) -> McpToolDef {
    McpToolDef {
        name: name.to_string(),
        description: Some(format!("does {name}")),
        input_schema: json(r#"{"type": "object"}"#),
    }
}

fn stub(handle: &McpHandle, name: &str, desc: &str) -> DeferredMcpToolStub {
    DeferredMcpToolStub::new(
        handle.clone(),
        McpToolDef {
            name: name.to_string(),
            description: Some(desc.to_string()),
            input_schema: json(r#"{ "type": "object" }"#),
        },
    )
}

fn deferred(stubs: Vec<(&str, &str)>) -> DeferredMcpToolSet {
    let h = McpHandle::from_transport("fs");
    DeferredMcpToolSet::new(stubs.into_iter().map(|(name, desc)| stub(&h, name, desc)).collect())
}

fn query(text: &str) -> Json {
    Json::Object(vec![("query".to_string(), Json::Text(text.to_string()))])
}

#[test]
fn prefixed_name_combines_server_and_tool() {
    assert_eq!(prefixed_name("github", "list_repos"), "mcp__github__list_repos");
}

#[test]
fn names_collide_only_where_one_server_runs_into_another() {
    assert_eq!(prefixed_name("a", "b__c"), prefixed_name("a__b", "c"));
    assert_ne!(prefixed_name("a", "x"), prefixed_name("b", "x"));
    assert_ne!(prefixed_name("a", "x"), prefixed_name("a", "y"));
}

#[test]
fn mcp_tool_exposes_prefixed_name_to_registry() {
    let handle = McpHandle::from_transport("github");
    let def = make_def("list_repos");
    let tool = McpTool::new(handle, def);
    assert_eq!(tool.name(), "mcp__github__list_repos");
    assert_eq!(tool.raw_name(), "list_repos");
    assert_eq!(tool.server_name(), "github");
}

#[test]
fn description_falls_back_to_empty_string() {
    let handle = McpHandle::from_transport("s");
    let def = McpToolDef { name: "t".into(), description: None, input_schema: json("{}") };
    let tool = McpTool::new(handle, def);
    assert_eq!(tool.description(), "");
}

#[test]
fn input_schema_passes_through() {
    let handle = McpHandle::from_transport("s");
    let mut def = make_def("t");
    def.input_schema = json(r#"{"type": "object", "x": 42}"#);
    let tool = McpTool::new(handle, def);
    assert_eq!(tool.parameters_schema(), json(r#"{"type": "object", "x": 42}"#));
}

#[test]
fn structured_content_lands_as_a_json_value_not_a_string() {
    let tool = McpTool::new(McpHandle::from_transport("fs"), make_def("query"));
    let answer = json(
        r#"{
            "content": [{ "type": "text", "text": "{\"rows\": 2}" }],
            "structuredContent": { "rows": 2, "items": ["a", "b"] }
        }"#,
    );
    let result = tool.outcome(call_of(Ok(answer)));
    assert_eq!(result.output(), Some(&json(r#"{ "rows": 2, "items": ["a", "b"] }"#)));
}

#[test]
fn text_only_results_stay_text_and_errors_stay_errors() {
    let tool = McpTool::new(McpHandle::from_transport("fs"), make_def("query"));
    let text_only = json(r#"{ "content": [{ "type": "text", "text": "plain answer" }] }"#);
    let result = tool.outcome(call_of(Ok(text_only)));
    assert_eq!(result.output(), Some(&json(r#""plain answer""#)));

    let errored = json(
        r#"{
            "content": [{ "type": "text", "text": "it broke" }],
            "structuredContent": { "ignored": true },
            "isError": true
        }"#,
    );
    let result = tool.outcome(call_of(Ok(errored)));
    assert!(result.is_error());
    assert_eq!(result.text(), "it broke");
    assert_eq!(result.output(), None);
}

#[test]
fn failed_calls_say_whose_tool_failed() {
    let tool = McpTool::new(McpHandle::from_transport("fs"), make_def("query"));
    let result = tool.outcome(Err(McpError::Disconnected("fs".into())));
    assert!(result.is_error());
    assert_eq!(
        result.text(),
        "mcp tool 'query' on server 'fs' failed: server 'fs' is disconnected"
    );
    let result = tool.outcome(call_of(Ok(json("{}"))));
    assert!(result.text().contains("json error"));
    assert_eq!(
        json(&tool.call_params(json(r#"{"q":1}"#)).print()),
        json(r#"{"name":"query","arguments":{"q":1}}"#)
    );
}

#[test]
fn content_blocks_to_text_helper_is_reexported_in_protocol() {
    let blocks = vec![
        ContentBlock::Text { text: "abc".into() },
        ContentBlock::Resource {
            resource: ResourceContent {
                uri: "file:///x".into(),
                mime_type: None,
                text: None,
                blob: None,
            },
        },
    ];
    let out = content_blocks_to_text(&blocks);
    assert!(out.contains("abc"));
    assert!(out.contains("file:///x"));
}

#[test]
fn stub_prefixes_and_specs() {
    let h = McpHandle::from_transport("fs");
    let s = stub(&h, "read_file", "Read a file from disk");
    assert_eq!(s.prefixed_name(), "mcp__fs__read_file");
    assert_eq!(s.spec().name, "mcp__fs__read_file");
    assert_eq!(s.spec().parameters.text_at("type").unwrap(), "object");
}

#[test]
fn search_ranks_by_term_hits() {
    let set = deferred(vec![
        ("read_file", "Read a file from disk"),
        ("write_file", "Write a file to disk"),
        ("query_db", "Query the database"),
    ]);
    let hits = set.search("read file", 5);
    assert_eq!(hits[0].prefixed_name(), "mcp__fs__read_file");
    assert_eq!(hits.len(), 2);
    assert!(set.search("database", 5)[0].prefixed_name().ends_with("query_db"));
    assert!(set.search("nonexistent", 5).is_empty());
    assert!(set.search("   ", 5).is_empty());
    assert_eq!(set.search("DATABASE", 5).len(), 1);
}

#[test]
fn search_respects_max() {
    let set =
        deferred(vec![("read_a", "read file"), ("read_b", "read file"), ("read_c", "read file")]);
    let hits = set.search("read file", 2);
    assert_eq!(hits.len(), 2);
    assert_eq!(hits[0].prefixed_name(), "mcp__fs__read_a");
    assert_eq!(hits[1].prefixed_name(), "mcp__fs__read_b");
    assert_eq!(set.search("read file", 0).len(), 0);
    assert_eq!(set.search("read file", usize::MAX).len(), 3);
}

#[test]
fn sets_find_and_activate_by_name() {
    let set = deferred(vec![("a", "first"), ("b", "second")]);
    assert_eq!(set.len(), 2);
    assert!(!set.is_empty());
    assert_eq!(set.names(), vec!["mcp__fs__a", "mcp__fs__b"]);
    assert_eq!(set.find("mcp__fs__b").unwrap().description(), "second");
    assert!(set.find("b").is_none());
    assert_eq!(set.activate("mcp__fs__a").unwrap().raw_name(), "a");
    assert!(set.spec("mcp__fs__c").is_none());
    assert!(DeferredMcpToolSet::default().is_empty());
}

#[test]
fn access_policy_allow_deny() {
    let p = ToolAccessPolicy {
        allowed: Some(vec!["a".into(), "b".into()]),
        denied: Some(vec!["b".into()]),
    };
    assert!(p.is_tool_allowed("a"));
    assert!(!p.is_tool_allowed("b"));
    assert!(!p.is_tool_allowed("c"));
    assert!(ToolAccessPolicy::default().is_tool_allowed("anything"));
}

#[test]
fn prompt_section_lists_names() {
    let section = deferred_tools_prompt_section(&vec!["mcp__fs__read", "mcp__fs__write"]);
    assert!(section.contains("tool_search"));
    assert!(section.contains("mcp__fs__read"));
    assert!(deferred_tools_prompt_section(&vec![]).is_empty());
    assert!(section.starts_with("<available-deferred-tools>\nThe following tools exist but"));
    assert!(section.ends_with("- mcp__fs__read\n- mcp__fs__write\n</available-deferred-tools>"));
}

#[test]
fn empty_query_errors() {
    let t = ToolSearchTool::new(deferred(vec![]));
    let r = t.execute(&query(""), &vec![]);
    assert!(r.result.is_error());
    assert_eq!(r.result.text(), "query parameter is required");
    assert!(t.execute(&json("{}"), &vec![]).result.is_error());
    assert!(t.execute(&query("  \n "), &vec![]).result.is_error());
}

#[test]
fn keyword_search_finds_and_activates() {
    let t = ToolSearchTool::new(deferred(vec![("read_file", "Read a file from disk")]));
    let r = t.execute(&query("read file"), &vec![]);
    assert!(!r.result.is_error());
    assert!(r.result.text().contains("<function>"));
    assert!(r.result.text().contains("mcp__fs__read_file"));
    assert_eq!(r.activated, ["mcp__fs__read_file"]);
    assert_eq!(
        r.result.text(),
        "<functions>\n<function>{\"name\": \"mcp__fs__read_file\", \"description\": \"Read a file from disk\", \"parameters\": {\"type\":\"object\"}}</function>\n</functions>\n"
    );
}

#[test]
fn select_activates_exact_and_reports_not_found() {
    let t = ToolSearchTool::new(deferred(vec![("tool_a", "A"), ("tool_b", "B")]));
    let r = t.execute(&query("select:mcp__fs__tool_a,mcp__fs__missing"), &vec![]);
    assert!(!r.result.is_error());
    assert!(r.result.text().contains("mcp__fs__tool_a"));
    assert!(r.result.text().contains("Not found"));
    assert_eq!(r.activated, ["mcp__fs__tool_a"]);
    assert!(r.result.text().ends_with("</functions>\n\nNot found: mcp__fs__missing"));
}

#[test]
fn already_active_names_are_not_re_emitted() {
    let t = ToolSearchTool::new(deferred(vec![("t", "a tool")]));
    let r = t.execute(&query("select:mcp__fs__t"), &vec!["mcp__fs__t".to_string()]);
    assert!(!r.result.is_error());
    assert!(r.result.text().contains("mcp__fs__t"), "schema is still returned");
    assert!(r.activated.is_empty());
}

#[test]
fn a_context_without_the_event_rail_still_returns_schemas() {
    let t = ToolSearchTool::new(deferred(vec![("t", "a tool")]));
    let r = t.execute(&query("select:mcp__fs__t"), &vec![]);
    assert!(!r.result.is_error());
    assert!(r.result.text().contains("mcp__fs__t"));
}

#[test]
fn policy_filters_denied_tools() {
    let t = ToolSearchTool::new(deferred(vec![("allowed", "a tool"), ("blocked", "a tool")]))
        .with_access_policy(ToolAccessPolicy {
            allowed: None,
            denied: Some(vec!["mcp__fs__blocked".into()]),
        });
    let r = t.execute(&query("tool"), &vec![]);
    assert!(r.result.text().contains("mcp__fs__allowed"));
    assert!(!r.result.text().contains("mcp__fs__blocked"));
    assert_eq!(r.activated, ["mcp__fs__allowed"]);
    let r = t.execute(&query("select:mcp__fs__blocked"), &vec![]);
    assert!(r.activated.is_empty());
    assert!(r.result.text().contains("Not found: mcp__fs__blocked"));
}

#[test]
fn denied_tools_take_no_places() {
    let tools = vec![("blocked", "a tool"), ("one", "a tool"), ("two", "a tool")];
    let t = ToolSearchTool::new(deferred(tools)).with_access_policy(ToolAccessPolicy {
        allowed: None,
        denied: Some(vec!["mcp__fs__blocked".into()]),
    });
    let r = t.execute(&json(r#"{"query":"tool","max_results":2}"#), &vec![]);
    assert_eq!(r.activated, ["mcp__fs__one", "mcp__fs__two"]);
}

#[test]
fn searches_give_five_by_default_and_say_when_there_are_none() {
    let names = ["a", "b", "c", "d", "e", "f"];
    let t = ToolSearchTool::new(deferred(names.iter().map(|n| (*n, "thing")).collect()));
    assert_eq!(t.execute(&query("thing"), &vec![]).activated.len(), 5);
    let r = t.execute(&query("nothing"), &vec![]);
    assert_eq!(r.result.text(), "No matching deferred tools found.");
    assert_eq!(t.name(), "tool_search");
    assert_eq!(activated_key("x"), "tool-search/activated/x");
    let schema = t.parameters_schema();
    assert_eq!(schema.get("properties").unwrap().get("query").unwrap().text_at("type").unwrap(), "string");
    assert_eq!(schema.items_at("required").unwrap().len(), 1);
}

#[test]
fn quotes_in_descriptions_are_escaped() {
    let t = ToolSearchTool::new(deferred(vec![("q", "says \"hi\"")]));
    let r = t.execute(&query("select: mcp__fs__q ,"), &vec![]);
    assert!(r.result.text().contains(r#""description": "says \"hi\"","#));
}

fn client(server: &str, tools: Vec<McpToolDef>) -> McpClient {
    McpClient {
        handle: McpHandle::from_transport(server),
        server_info: ServerInfo { name: server.into(), version: "1.0.0".into() },
        capabilities: ServerCapabilities {
            tools: None,
            resources: None,
            prompts: None,
            logging: None,
            experimental: None,
        },
        tools,
    }
}

#[test]
fn connection_offers_both_mounts() {
    let crm = client("crm", vec![make_def("search"), make_def("update")]);
    let conn = McpConnection::from_clients(vec![crm]);

    let direct: Vec<String> =
        conn.direct_tools().iter().map(|tool| tool.name().to_string()).collect();
    assert_eq!(direct, vec!["mcp__crm__search", "mcp__crm__update"]);

    assert!(conn.tool_search().is_some());
    assert!(conn.section().unwrap().contains("mcp__crm__search"));
    assert!(conn.catalog().activate("mcp__crm__search").is_some());
}

#[test]
fn empty_connection_has_no_mounts() {
    let conn = McpConnection::from_clients(vec![]);
    assert!(conn.direct_tools().is_empty());
    assert!(conn.tool_search().is_none());
    assert!(conn.section().is_none());
}
