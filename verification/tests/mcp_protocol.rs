use runic::json::Json;
use runic::mcp::protocol::{
    CallToolParams, CallToolResult, ClientCapabilities, ClientInfo, ContentBlock, InitializeParams,
    InitializeResult, JsonRpcNotification, JsonRpcRequest, JsonRpcResponse, ListToolsResult,
    ResourceContent, content_blocks_to_text,
};

fn json(text: &str) -> Json {
    Json::parse(text).unwrap()
}

#[test]
fn jsonrpc_request_roundtrips() {
    let req = JsonRpcRequest::new(1, "initialize", Some(json(r#"{"x": 1}"#)));
    let text = req.print();
    let parsed = JsonRpcRequest::from_json(&json(&text)).unwrap();
    assert_eq!(parsed.id, 1);
    assert_eq!(parsed.method, "initialize");
    assert_eq!(parsed.jsonrpc, "2.0");
    assert_eq!(parsed.params.unwrap(), json(r#"{"x": 1}"#));
}

#[test]
fn jsonrpc_request_without_params_omits_field() {
    let req = JsonRpcRequest::new(1, "ping", None);
    let text = req.to_json().print();
    assert!(!text.contains("params"));
}

#[test]
fn requests_and_notifications_are_lines() {
    let request = JsonRpcRequest::new(7, "tools/list", None);
    let value = json(&request.to_line());
    assert!(request.to_line().ends_with("}\n"));
    assert_eq!(value, json(r#"{"jsonrpc":"2.0","id":7,"method":"tools/list"}"#));
    let note = JsonRpcNotification::new("shutdown", Some(json("[1]")));
    assert_eq!(
        json(&note.to_line()),
        json(r#"{"jsonrpc":"2.0","method":"shutdown","params":[1]}"#)
    );
}

#[test]
fn jsonrpc_response_with_error_round_trips() {
    let body = r#"{"jsonrpc":"2.0","id":1,"error":{"code":-32601,"message":"method not found"}}"#;
    let parsed = JsonRpcResponse::parse(body).unwrap();
    assert_eq!(parsed.id, 1);
    assert!(parsed.result.is_none());
    let err = parsed.error.unwrap();
    assert_eq!(err.code, -32601);
    assert_eq!(err.message, "method not found");
    assert!(err.data.is_none());
}

#[test]
fn a_null_result_counts_as_none_and_bad_responses_are_refused() {
    let parsed = JsonRpcResponse::parse(r#"{"jsonrpc":"2.0","id":4,"result":null}"#).unwrap();
    assert!(parsed.result.is_none());
    assert!(parsed.error.is_none());
    assert!(JsonRpcResponse::parse(r#"{"jsonrpc":"2.0","method":"x"}"#).is_none());
    assert!(JsonRpcResponse::parse(r#"{"jsonrpc":"2.0","id":-1}"#).is_none());
    assert!(JsonRpcResponse::parse(r#"{"jsonrpc":"2.0","id":1,"error":{"code":1}}"#).is_none());
    assert!(JsonRpcResponse::parse("not json").is_none());
}

#[test]
fn initialize_params_use_camel_case() {
    let p = InitializeParams {
        protocol_version: "2024-11-05".into(),
        capabilities: ClientCapabilities::default(),
        client_info: ClientInfo::default(),
    };
    let text = p.to_json().print();
    assert!(text.contains("\"protocolVersion\""));
    assert!(text.contains("\"clientInfo\""));
    assert_eq!(
        json(&text),
        json(
            r#"{"protocolVersion":"2024-11-05","capabilities":{},
                "clientInfo":{"name":"runic","version":"0.1.0"}}"#
        )
    );
}

#[test]
fn initialize_result_parses_real_server_response() {
    let body = r#"{
        "protocolVersion": "2024-11-05",
        "capabilities": {
            "tools": { "listChanged": true },
            "resources": { "subscribe": true }
        },
        "serverInfo": { "name": "test", "version": "0.1.0" }
    }"#;
    let parsed = InitializeResult::from_json(&json(body)).unwrap();
    assert_eq!(parsed.protocol_version, "2024-11-05");
    assert_eq!(parsed.server_info.name, "test");
    let tools = parsed.capabilities.tools.unwrap();
    assert_eq!(tools.list_changed, Some(true));
    let resources = parsed.capabilities.resources.unwrap();
    assert_eq!(resources.subscribe, Some(true));
}

#[test]
fn initialize_result_needs_its_fields() {
    assert!(InitializeResult::from_json(&json(r#"{"protocolVersion":"1"}"#)).is_none());
    let odd = r#"{"protocolVersion":"1","capabilities":{"tools":3},
                  "serverInfo":{"name":"a","version":"b"}}"#;
    assert!(InitializeResult::from_json(&json(odd)).is_none());
}

#[test]
fn tools_list_result_parses() {
    let body = r#"{
        "tools": [
            {
                "name": "read_file",
                "description": "Read a file from disk",
                "inputSchema": { "type": "object", "properties": {"path": {"type": "string"}} }
            }
        ]
    }"#;
    let parsed = ListToolsResult::from_json(&json(body)).unwrap();
    assert_eq!(parsed.tools.len(), 1);
    assert_eq!(parsed.tools[0].name, "read_file");
    assert_eq!(parsed.tools[0].description.as_deref(), Some("Read a file from disk"));
}

#[test]
fn a_tool_without_a_schema_spoils_the_list() {
    assert!(ListToolsResult::from_json(&json(r#"{"tools":[{"name":"a"}]}"#)).is_none());
}

#[test]
fn call_tool_result_with_text_content() {
    let body = r#"{
        "content": [
            { "type": "text", "text": "hello world" }
        ]
    }"#;
    let parsed = CallToolResult::from_json(&json(body)).unwrap();
    assert_eq!(parsed.content.len(), 1);
    match &parsed.content[0] {
        ContentBlock::Text { text } => assert_eq!(text, "hello world"),
        _ => panic!("expected text block"),
    }
    assert!(parsed.is_error.is_none());
}

#[test]
fn call_tool_result_with_is_error_true() {
    let body = r#"{"content":[{"type":"text","text":"oh no"}],"isError":true}"#;
    let parsed = CallToolResult::from_json(&json(body)).unwrap();
    assert_eq!(parsed.is_error, Some(true));
}

#[test]
fn unknown_content_is_refused() {
    let body = r#"{"content":[{"type":"video","text":"x"}]}"#;
    assert!(CallToolResult::from_json(&json(body)).is_none());
}

#[test]
fn call_params_carry_the_arguments() {
    let params = CallToolParams { name: "echo".into(), arguments: Some(json(r#"{"a":1}"#)) };
    assert_eq!(json(&params.to_json().print()), json(r#"{"name":"echo","arguments":{"a":1}}"#));
    let bare = CallToolParams { name: "echo".into(), arguments: None };
    assert_eq!(bare.to_json(), json(r#"{"name":"echo"}"#));
}

#[test]
fn image_content_block_serializes_with_mime_type_field() {
    let block =
        ContentBlock::Image { data: "ZmFrZQ==".into(), mime_type: "image/png".into() };
    let text = block.to_json().print();
    assert!(text.contains("\"mimeType\":\"image/png\""));
    assert!(text.contains("\"type\":\"image\""));
}

#[test]
fn resource_content_block_with_text_round_trips() {
    let block = ContentBlock::Resource {
        resource: ResourceContent {
            uri: "file:///etc/hosts".into(),
            mime_type: Some("text/plain".into()),
            text: Some("127.0.0.1 localhost".into()),
            blob: None,
        },
    };
    let text = block.to_json().print();
    let parsed = ContentBlock::from_json(&json(&text)).unwrap();
    match parsed {
        ContentBlock::Resource { resource } => {
            assert_eq!(resource.uri, "file:///etc/hosts");
            assert_eq!(resource.text.as_deref(), Some("127.0.0.1 localhost"));
        },
        _ => panic!("expected resource block"),
    }
}

#[test]
fn content_blocks_to_text_handles_mixed_content() {
    let blocks = vec![
        ContentBlock::Text { text: "first".into() },
        ContentBlock::Image { data: "AAAA".into(), mime_type: "image/png".into() },
        ContentBlock::Text { text: "last".into() },
    ];
    let text = content_blocks_to_text(&blocks);
    assert!(text.starts_with("first"));
    assert!(text.contains("[image image/png"));
    assert!(text.ends_with("last"));
    assert_eq!(text, "first\n\n[image image/png, 4 bytes]\n\nlast");
}

#[test]
fn content_blocks_to_text_empty_yields_empty_string() {
    assert_eq!(content_blocks_to_text(&vec![]), "");
}

#[test]
fn resources_render_by_what_they_hold() {
    let resource = |text: Option<&str>, blob: Option<&str>| ContentBlock::Resource {
        resource: ResourceContent {
            uri: "u".into(),
            mime_type: Some("m".into()),
            text: text.map(String::from),
            blob: blob.map(String::from),
        },
    };
    assert_eq!(content_blocks_to_text(&vec![resource(Some("hi"), Some("zz"))]), "[resource u m]\nhi");
    assert_eq!(
        content_blocks_to_text(&vec![resource(None, Some("é"))]),
        "[resource u m, 2 bytes blob]"
    );
    assert_eq!(content_blocks_to_text(&vec![resource(None, None)]), "[resource u m]");
}
