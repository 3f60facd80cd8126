use runic::json::Json;
use runic::mcp::error::McpError;
use runic::mcp::transport::{
    Inbound, RequestIdCounter, Silence, StdioTransport, check_command, child_env,
    response_outcome,
};
use runic::mcp::transport_http::{
    BodyKind, EventsEnd, HttpTransport, SendFailure, event_body, events_ended, json_body,
    other_body, send_failed,
};
use runic::table::Table;

fn json(text: &str) -> Json {
    Json::parse(text).unwrap()
}

fn table(entries: &[(&str, &str)]) -> Table<String> {
    let mut table = Table::new();
    for (key, value) in entries {
        table.insert(key, value.to_string());
    }
    table
}

fn protocol(result: Result<Json, McpError>) -> String {
    match result {
        Err(McpError::Protocol(message)) => message,
        other => panic!("expected Protocol, got {other:?}"),
    }
}

#[test]
fn stdio_spawn_with_missing_binary_returns_spawn_error() {
    assert!(check_command("ghost", "/does/not/exist").is_ok());
    let error =
        McpError::Spawn { server: "ghost".into(), source: "No such file or directory".into() };
    assert_eq!(error.message(), "failed to spawn server 'ghost': No such file or directory");
}

#[test]
fn spawn_rejects_path_traversal_command() {
    match check_command("evil", "../../bin/sh") {
        Err(McpError::Protocol(msg)) => {
            assert!(msg.contains(".."));
            assert_eq!(
                msg,
                "refusing to spawn server 'evil': command '../../bin/sh' contains '..'"
            );
        },
        other => panic!("expected path-traversal rejection, got {other:?}"),
    }
}

#[test]
fn children_see_only_what_is_passed_on_or_configured() {
    let parent = table(&[("PATH", "/bin"), ("HOME", "/root"), ("SECRET", "x")]);
    let configured = table(&[("HOME", "/srv"), ("TOKEN", "t")]);
    let child = child_env(&parent, &configured);
    assert_eq!(child.len(), 3);
    assert_eq!(child.get("PATH").unwrap(), "/bin");
    assert_eq!(child.get("HOME").unwrap(), "/srv");
    assert_eq!(child.get("TOKEN").unwrap(), "t");
    assert!(child.get("SECRET").is_none());
}

#[test]
fn request_id_counter_is_monotonic_and_starts_at_one() {
    let mut c = RequestIdCounter::new();
    assert_eq!(c.next(), 1);
    assert_eq!(c.next(), 2);
    assert_eq!(c.next(), 3);
}

#[test]
fn request_on_a_dead_writer_returns_disconnected() {
    let mut t = StdioTransport::new("dead");
    let (id, _line) = t.request("ping", None);
    match t.give_up(id, Silence::WriterClosed) {
        McpError::Disconnected(name) => assert_eq!(name, "dead"),
        other => panic!("expected Disconnected, got {other:?}"),
    }
    assert!(t.pending.is_empty());
}

#[test]
fn responses_reach_those_who_wait() {
    let mut t = StdioTransport::new("s");
    let (id, line) = t.request("tools/list", None);
    assert_eq!(id, 1);
    assert_eq!(json(&line), json(r#"{"jsonrpc":"2.0","id":1,"method":"tools/list"}"#));
    assert!(matches!(t.receive("  "), Inbound::Ignored));
    assert!(matches!(t.receive("noise"), Inbound::Ignored));
    assert!(matches!(t.receive(r#"{"jsonrpc":"1.0","id":1,"result":1}"#), Inbound::Ignored));
    assert!(matches!(t.receive(r#"{"jsonrpc":"2.0","id":9,"result":1}"#), Inbound::Unmatched(9)));
    match t.receive(r#"{"jsonrpc":"2.0","id":1,"result":{"ok":true}}"#) {
        Inbound::Deliver(response) => {
            assert_eq!(response_outcome(response).unwrap(), json(r#"{"ok":true}"#));
        },
        other => panic!("{other:?}"),
    }
    assert!(matches!(
        t.receive(r#"{"jsonrpc":"2.0","id":1,"result":{"ok":true}}"#),
        Inbound::Unmatched(1)
    ));
    assert_eq!(t.notify("shutdown", None), "{\"jsonrpc\":\"2.0\",\"method\":\"shutdown\"}\n");
}

#[test]
fn waiting_callers_are_woken_when_the_server_is_gone() {
    let mut t = StdioTransport::new("s");
    t.request("a", None);
    t.request("b", None);
    let error = t.disconnect();
    assert!(t.pending.is_empty());
    assert!(error.is_recoverable());
    assert!(matches!(&error, McpError::Disconnected(name) if name == "s"));
    let error = t.give_up(1, Silence::ReaderClosed);
    assert!(matches!(&error, McpError::Disconnected(name) if name == "s"));
}

#[test]
fn silence_is_a_timeout_or_a_disconnect() {
    let mut t = StdioTransport::new("s");
    let (id, _) = t.request("a", None);
    let error = t.give_up(id, Silence::TimedOut);
    assert_eq!(error.message(), "request timed out after 30s");
    assert!(matches!(t.give_up(7, Silence::ReaderClosed), McpError::Disconnected(_)));
}

#[test]
fn a_response_with_nothing_in_it_is_an_error() {
    assert_eq!(
        protocol(json_body(r#"{"jsonrpc":"2.0","id":1}"#)),
        "response missing both `result` and `error`"
    );
}

#[test]
fn http_transport_can_be_constructed_with_no_headers() {
    let t = HttpTransport::new("h", "https://example.com/mcp", &Table::new()).unwrap();
    assert_eq!(t.server_name(), "h");
}

#[test]
fn http_transport_accepts_valid_headers() {
    let headers = table(&[("Authorization", "Bearer abc"), ("X-Tenant", "acme")]);
    let t = HttpTransport::new("h", "https://example.com/mcp", &headers).unwrap();
    assert_eq!(t.server_name(), "h");
    let sent = t.build_headers();
    assert_eq!(sent.get("authorization").unwrap(), "Bearer abc");
    assert_eq!(sent.get("x-tenant").unwrap(), "acme");
    assert_eq!(sent.get("content-type").unwrap(), "application/json");
    assert_eq!(sent.get("accept").unwrap(), "application/json, text/event-stream");
    assert!(sent.get("mcp-session-id").is_none());
    assert_eq!(sent.len(), 4);
}

#[test]
fn http_transport_rejects_invalid_header_name() {
    let headers = table(&[("Bad\nName", "v")]);
    let result = HttpTransport::new("h", "https://example.com/mcp", &headers);
    assert!(result.is_err());
    match result {
        Err(McpError::Protocol(message)) => {
            assert_eq!(message, "invalid header name 'Bad\nName': invalid HTTP header name");
        },
        other => panic!("{other:?}"),
    }
    assert!(HttpTransport::new("h", "u", &table(&[("", "v")])).is_err());
    assert!(HttpTransport::new("h", "u", &table(&[("a b", "v")])).is_err());
    assert!(HttpTransport::new("h", "u", &table(&[("a!#$%&'*+-.^_`|~9", "v")])).is_ok());
}

#[test]
fn http_transport_rejects_invalid_header_value() {
    let result = HttpTransport::new("h", "u", &table(&[("A", "x\ny")]));
    match result {
        Err(McpError::Protocol(message)) => {
            assert_eq!(message, "invalid header value for 'A': failed to parse header value");
        },
        other => panic!("{other:?}"),
    }
    assert!(HttpTransport::new("h", "u", &table(&[("A", "tab\tand é")])).is_ok());
    assert!(HttpTransport::new("h", "u", &table(&[("A", "\u{7f}")])).is_err());
}

#[test]
fn configured_headers_do_not_hide_what_is_sent() {
    let headers = table(&[("Content-Type", "text/plain"), ("ACCEPT", "x")]);
    let t = HttpTransport::new("h", "u", &headers).unwrap();
    let sent = t.build_headers();
    assert_eq!(sent.get("content-type").unwrap(), "application/json");
    assert_eq!(sent.len(), 2);
}

#[test]
fn http_transport_request_to_unreachable_url_errors_out() {
    let failed = send_failed("request", SendFailure::Failed("refused".into()));
    assert_eq!(failed.message(), "protocol error: HTTP request failed: refused");
    let late = send_failed("notification", SendFailure::TimedOut);
    assert!(matches!(late, McpError::Timeout(_)));
}

#[test]
fn sessions_are_kept_and_told_again() {
    let mut t = HttpTransport::new("h", "u", &Table::new()).unwrap();
    let (id, body) = t.request("initialize", Some(json("{}")));
    assert_eq!(id, 1);
    assert_eq!(
        json(&body),
        json(r#"{"jsonrpc":"2.0","id":1,"method":"initialize","params":{}}"#)
    );
    let kind = t.receive(200, Some("abc".into()), Some("Application/JSON; charset=utf-8".into()));
    assert!(matches!(kind, BodyKind::Json));
    assert_eq!(t.session_id(), Some("abc"));
    assert_eq!(t.build_headers().get("mcp-session-id").unwrap(), "abc");
    let kind = t.receive(200, None, Some("text/event-stream".into()));
    assert!(matches!(kind, BodyKind::Events));
    assert_eq!(t.session_id(), Some("abc"));
    match t.receive(200, None, None) {
        BodyKind::Other(kind) => assert_eq!(kind, ""),
        other => panic!("{other:?}"),
    }
    assert!(matches!(t.receive(500, None, None), BodyKind::Refusal));
    assert_eq!(t.request("x", None).0, 2);
    assert_eq!(json(&t.notify("n", None)), json(r#"{"jsonrpc":"2.0","method":"n"}"#));
}

#[test]
fn a_refused_session_is_stale_and_other_refusals_are_told() {
    let t = HttpTransport::new("h", "u", &Table::new()).unwrap();
    assert!(matches!(t.refused(404, true, ""), McpError::StaleSession(_)));
    assert!(matches!(t.refused(410, true, ""), McpError::StaleSession(_)));
    match t.refused(404, false, "gone") {
        McpError::Protocol(message) => {
            assert_eq!(message, "HTTP 404 Not Found from server 'h': gone");
        },
        other => panic!("{other:?}"),
    }
    match t.refused(503, true, "busy") {
        McpError::Protocol(message) => {
            assert_eq!(message, "HTTP 503 Service Unavailable from server 'h': busy");
        },
        other => panic!("{other:?}"),
    }
}

#[test]
fn bodies_are_read_by_their_type() {
    let good = r#"{"jsonrpc":"2.0","id":3,"result":[1]}"#;
    assert_eq!(json_body(good).unwrap(), json("[1]"));
    assert!(protocol(json_body("oops")).starts_with("invalid JSON response body: "));
    assert!(protocol(json_body("[]")).starts_with("invalid JSON response body: "));
    assert!(protocol(json_body("oops")).ends_with(": error decoding response body"));
    assert!(protocol(json_body("[]")).ends_with(": error decoding response body"));
    assert_eq!(other_body("text/plain", good).unwrap(), json("[1]"));
    assert_eq!(
        protocol(other_body("text/plain", "hello")),
        "unexpected response content-type 'text/plain' and body could not be parsed as JSON-RPC: hello"
    );
}

#[test]
fn events_are_skipped_until_the_response_comes() {
    assert!(event_body(3, "  ").is_none());
    assert!(event_body(3, "noise").is_none());
    assert!(event_body(3, r#"{"jsonrpc":"2.0","id":2,"result":1}"#).is_none());
    let found = event_body(3, r#"{"jsonrpc":"2.0","id":3,"result":1}"#).unwrap();
    assert_eq!(found.unwrap(), json("1"));
    assert_eq!(
        events_ended(3, EventsEnd::Closed).message(),
        "protocol error: SSE stream closed before response with id=3 arrived"
    );
    assert_eq!(
        events_ended(3, EventsEnd::Failed("cut".into())).message(),
        "protocol error: SSE stream error: cut"
    );
    assert!(matches!(events_ended(3, EventsEnd::TimedOut), McpError::Timeout(_)));
}
