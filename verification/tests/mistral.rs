use runic::json::{Json, JsonNumber};
use runic::provider::contract::{DriverConfig, events_of};
use runic::provider::mistral::driver::MistralDriver;
use runic::provider::mistral::request::{build_messages, build_request};
use runic::provider::mistral::response::{
    MistralResponse, map_stop_reason, parse_arguments, parse_response, read_reply,
};
use runic::provider::mistral::stream::{MistralStream, StreamAccumulator};
use runic::provider::mistral::wire::{
    MAX_DOCUMENT_BYTES, MAX_IMAGE_BYTES, http_error, retry_after_ms, validate_media, wire_call_id,
};
use runic::provider::think_filter::{StreamingThinkFilter, emitted_text};
use runic::provider::types::{
    CompletionRequest, CompletionResponse, ContentBlock, Message, ProvenanceSource, ProviderError,
    StopReason, StreamEvent, ThinkingConfig, TokenUsage, ToolDefinition, ToolResultPayload,
};

fn json(text: &str) -> Json {
    Json::parse(text).unwrap()
}

fn number(text: &str) -> JsonNumber {
    match json(text) {
        Json::Number(n) => n,
        other => panic!("{other:?}"),
    }
}

/// Follows a path of keys and indices, such as `content.0.text`.
fn at<'a>(value: &'a Json, path: &str) -> &'a Json {
    let mut value = value;
    for step in path.split('.') {
        value = match step.parse::<usize>() {
            Ok(i) => &value.as_items().unwrap()[i],
            Err(_) => value.get(step).unwrap(),
        };
    }
    value
}

fn said<'a>(value: &'a Json, path: &str) -> &'a str {
    at(value, path).as_text().unwrap()
}

fn request_with(messages: Vec<Message>) -> CompletionRequest {
    CompletionRequest {
        model: "mistral-large-latest".to_string(),
        messages,
        tools: vec![],
        max_tokens: 1024,
        temperature: number("0.7"),
        system: Some("be brief".to_string()),
        thinking: None,
    }
}

fn user_blocks(blocks: Vec<ContentBlock>) -> Message {
    Message::user_with_blocks(blocks)
}

fn text(text: &str) -> ContentBlock {
    ContentBlock::Text { text: text.into(), provider_metadata: None }
}

fn inline(value: Json) -> ToolResultPayload {
    ToolResultPayload::Inline(value)
}

fn words(text: &str) -> ToolResultPayload {
    inline(Json::Text(text.into()))
}

fn tool_result(id: &str, name: &str, content: ToolResultPayload, is_error: bool) -> ContentBlock {
    ContentBlock::ToolResult {
        tool_use_id: id.into(),
        tool_name: name.into(),
        content,
        is_error,
        provenance: Vec::new(),
    }
}

#[test]
fn completion_response_text_joins_text_blocks() {
    let response = CompletionResponse {
        content: vec![text("Hello "), text("world!")],
        stop_reason: StopReason::EndTurn,
        tool_calls: vec![],
        usage: TokenUsage::default(),
    };
    assert_eq!(response.text(), "Hello world!");
}

#[test]
fn has_any_content_detects_tool_use() {
    let response = CompletionResponse {
        content: vec![ContentBlock::ToolUse {
            id: "t1".into(),
            name: "search".into(),
            input: json("{}"),
            provider_metadata: None,
        }],
        stop_reason: StopReason::ToolUse,
        tool_calls: vec![],
        usage: TokenUsage::default(),
    };
    assert!(response.has_any_content());
    let events = events_of(&response);
    assert_eq!(events.len(), 1);
    assert!(matches!(&events[0], StreamEvent::ContentComplete { .. }));
}

#[test]
fn driver_config_redacts_api_key() {
    let cfg = DriverConfig {
        provider: "anthropic".into(),
        api_key: Some("sk-secret".into()),
        base_url: None,
    };
    let dbg = cfg.debug_text();
    assert!(dbg.contains("<redacted>"));
    assert!(!dbg.contains("sk-secret"));
    assert_eq!(
        dbg,
        "DriverConfig { provider: \"anthropic\", api_key: Some(\"<redacted>\"), base_url: None }"
    );
}

#[test]
fn a_pdf_file_becomes_a_document_url_data_uri() {
    let req = request_with(vec![user_blocks(vec![
        text("what is this"),
        ContentBlock::File { media_type: "application/pdf".into(), data: "JVBERi0x".into() },
    ])]);
    let messages = build_messages(&req);
    let v = &messages[1];
    assert_eq!(said(v, "content.0.type"), "text");
    assert_eq!(said(v, "content.1.type"), "document_url");
    assert_eq!(said(v, "content.1.document_url"), "data:application/pdf;base64,JVBERi0x");
    assert!(at(v, "content.1").get("file").is_none());
}

#[test]
fn an_image_becomes_an_image_url_data_uri() {
    let req = request_with(vec![user_blocks(vec![ContentBlock::Image {
        media_type: "image/png".into(),
        data: "aWc=".into(),
    }])]);
    let messages = build_messages(&req);
    let v = &messages[1];
    assert_eq!(said(v, "content.0.type"), "image_url");
    assert_eq!(said(v, "content.0.image_url"), "data:image/png;base64,aWc=");
}

#[test]
fn tool_results_become_tool_messages_with_wire_ids() {
    let req = request_with(vec![user_blocks(vec![tool_result(
        "abc123def",
        "search",
        words("found it"),
        false,
    )])]);
    let messages = build_messages(&req);
    let v = &messages[1];
    assert_eq!(said(v, "role"), "tool");
    assert_eq!(said(v, "tool_call_id"), "abc123def");
    assert_eq!(said(v, "name"), "search");
    assert_eq!(said(v, "content"), "found it");
}

#[test]
fn call_ids_are_sanitized_to_nine_alphanumerics_deterministically() {
    let a = wire_call_id("call-1");
    let b = wire_call_id("call-1");
    assert_eq!(a, b);
    assert_eq!(a.len(), 9);
    assert!(a.bytes().all(|c| c.is_ascii_alphanumeric()));
    assert_ne!(wire_call_id("call-2"), a);
    assert_eq!(wire_call_id("abc123XYZ"), "abc123XYZ");
}

#[test]
fn tool_use_and_tool_result_ids_stay_paired_after_sanitization() {
    let req = request_with(vec![
        Message::assistant_with_blocks(vec![ContentBlock::ToolUse {
            id: "call-1".into(),
            name: "search".into(),
            input: json(r#"{"q": "x"}"#),
            provider_metadata: None,
        }]),
        user_blocks(vec![tool_result("call-1", "search", words("ok"), false)]),
    ]);
    let messages = build_messages(&req);
    assert_eq!(said(&messages[1], "tool_calls.0.id"), said(&messages[2], "tool_call_id"));
}

#[test]
fn assistant_tool_calls_serialize_arguments_as_a_json_string() {
    let req = request_with(vec![Message::assistant_with_blocks(vec![ContentBlock::ToolUse {
        id: "abc123def".into(),
        name: "calc".into(),
        input: json(r#"{"expr": "1+1"}"#),
        provider_metadata: None,
    }])]);
    let messages = build_messages(&req);
    let v = &messages[1];
    assert_eq!(said(v, "tool_calls.0.type"), "function");
    assert_eq!(said(v, "tool_calls.0.function.name"), "calc");
    assert_eq!(said(v, "tool_calls.0.function.arguments"), r#"{"expr":"1+1"}"#);
    assert_eq!(said(v, "content"), "");
}

#[test]
fn assistant_thinking_replays_as_a_thinking_chunk() {
    let req = request_with(vec![Message::assistant_with_blocks(vec![
        ContentBlock::Thinking {
            thinking: "pondering".into(),
            signature: None,
            provider_metadata: Some(json(r#"{ "format": "mistral" }"#)),
        },
        text("answer"),
    ])]);
    let messages = build_messages(&req);
    let v = &messages[1];
    assert_eq!(said(v, "content.0.type"), "thinking");
    assert_eq!(said(v, "content.0.thinking.0.text"), "pondering");
    assert_eq!(said(v, "content.1.type"), "text");
    assert_eq!(said(v, "content.1.text"), "answer");
}

#[test]
fn tools_serialize_as_functions_with_auto_choice() {
    let mut req = request_with(vec![Message::user("hi")]);
    req.tools = vec![ToolDefinition {
        name: "search".into(),
        description: "find things".into(),
        input_schema: json(r#"{"type": "object", "properties": {}}"#),
    }];
    let v = build_request(&req, false, None);
    assert_eq!(said(&v, "tools.0.type"), "function");
    assert_eq!(said(&v, "tools.0.function.name"), "search");
    assert_eq!(said(&v, "tool_choice"), "auto");
    assert!(v.get("stream").is_none());
    assert_eq!(build_request(&req, true, None).get("stream"), Some(&Json::Bool(true)));
}

#[test]
fn response_arguments_accept_string_and_object() {
    let from_string = parse_arguments(&Json::Text("{\"a\":1}".into()));
    assert_eq!(from_string.unsigned_at("a"), Some(1));
    let from_object = parse_arguments(&json(r#"{"a": 2}"#));
    assert_eq!(from_object.unsigned_at("a"), Some(2));
    let from_garbage = parse_arguments(&Json::Text("not json".into()));
    assert_eq!(from_garbage, json("{}"));
}

fn response(text: &str) -> MistralResponse {
    MistralResponse::from_json(&json(text)).unwrap()
}

#[test]
fn response_with_thinking_chunks_parses_to_blocks() {
    let response = response(
        r#"{
            "choices": [{
                "message": {
                    "content": [
                        {"type": "thinking", "thinking": [{"type": "text", "text": "hmm"}]},
                        {"type": "text", "text": "the answer"}
                    ]
                },
                "finish_reason": "stop"
            }],
            "usage": {"prompt_tokens": 10, "completion_tokens": 5, "total_tokens": 15}
        }"#,
    );
    let parsed = parse_response(&response).unwrap();
    assert!(matches!(
        &parsed.content[0],
        ContentBlock::Thinking { thinking, .. } if thinking == "hmm"
    ));
    assert!(matches!(
        &parsed.content[1],
        ContentBlock::Text { text, .. } if text == "the answer"
    ));
    assert_eq!(parsed.stop_reason, StopReason::EndTurn);
    assert_eq!(parsed.usage.input_tokens, 10);
}

#[test]
fn response_with_tool_calls_parses_and_maps_stop_reason() {
    let response = response(
        r#"{
            "choices": [{
                "message": {
                    "content": "",
                    "tool_calls": [{
                        "id": "ab12cd34e",
                        "function": {"name": "search", "arguments": "{\"q\":\"rust\"}"}
                    }]
                },
                "finish_reason": "tool_calls"
            }],
            "usage": {"prompt_tokens": 1, "completion_tokens": 1, "total_tokens": 2}
        }"#,
    );
    let parsed = parse_response(&response).unwrap();
    assert_eq!(parsed.stop_reason, StopReason::ToolUse);
    assert_eq!(parsed.tool_calls.len(), 1);
    assert_eq!(parsed.tool_calls[0].id, "ab12cd34e");
    assert_eq!(said(&parsed.tool_calls[0].input, "q"), "rust");
}

#[test]
fn model_length_maps_to_max_tokens() {
    assert_eq!(map_stop_reason(Some("model_length"), false), StopReason::MaxTokens);
    assert_eq!(map_stop_reason(Some("length"), false), StopReason::MaxTokens);
    assert_eq!(map_stop_reason(None, true), StopReason::ToolUse);
}

#[test]
fn inline_think_tags_split_into_thinking_blocks() {
    let response = response(
        r#"{
            "choices": [{
                "message": {"content": "<think>step by step</think>final"},
                "finish_reason": "stop"
            }],
            "usage": null
        }"#,
    );
    let parsed = parse_response(&response).unwrap();
    assert!(matches!(
        &parsed.content[0],
        ContentBlock::Thinking { thinking, .. } if thinking == "step by step"
    ));
    assert!(matches!(&parsed.content[1], ContentBlock::Text { text, .. } if text == "final"));
}

#[test]
fn replies_without_choices_or_of_another_shape_are_errors() {
    assert!(matches!(
        read_reply(r#"{"choices":[]}"#),
        Err(ProviderError::Parse(m)) if m == "no choices in response"
    ));
    assert!(matches!(read_reply("oops"), Err(ProviderError::Parse(_))));
    assert!(matches!(read_reply(r#"{"choices":[{}]}"#), Err(ProviderError::Parse(_))));
    assert!(matches!(read_reply("{}"), Err(ProviderError::Parse(_))));
    let done = read_reply(r#"{"choices":[{"message":{"content":"hi"}}]}"#).unwrap();
    assert_eq!(done.text(), "hi");
    assert_eq!(done.usage.output_tokens, 1);
}

#[test]
fn system_prompt_leads_the_conversation() {
    let req = request_with(vec![Message::user("hi")]);
    let messages = build_messages(&req);
    assert_eq!(said(&messages[0], "role"), "system");
    assert_eq!(said(&messages[0], "content"), "be brief");
}

#[test]
fn empty_tool_result_content_is_padded() {
    let req = request_with(vec![user_blocks(vec![tool_result(
        "abc123def",
        "noop",
        words(""),
        false,
    )])]);
    let messages = build_messages(&req);
    assert_eq!(said(&messages[1], "content"), "(empty)");
}

fn tool_result_request(content: ToolResultPayload, is_error: bool) -> CompletionRequest {
    request_with(vec![user_blocks(vec![tool_result("abc123def", "probe", content, is_error)])])
}

#[test]
fn every_json_output_category_stringifies_into_the_tool_message() {
    let cases: Vec<(ToolResultPayload, &str)> = vec![
        (inline(json(r#"{"a": 1, "b": [2]}"#)), r#"{"a":1,"b":[2]}"#),
        (inline(json(r#"[1, "x", null]"#)), r#"[1,"x",null]"#),
        (words("plain text"), "plain text"),
        (inline(json("42")), "42"),
        (inline(json("true")), "true"),
        (inline(json("null")), "null"),
    ];
    for (payload, expected) in cases {
        let req = tool_result_request(payload, false);
        let messages = build_messages(&req);
        let v = &messages[1];
        assert_eq!(said(v, "role"), "tool");
        assert_eq!(said(v, "content"), expected);
    }
}

#[test]
fn error_and_artifact_results_stringify_too() {
    let req = tool_result_request(words("boom"), true);
    assert_eq!(said(&build_messages(&req)[1], "content"), "Error: boom");

    let req = tool_result_request(
        ToolResultPayload::Artifact {
            id: "art-1".into(),
            preview: "first bytes".into(),
            mime: "application/json".into(),
            size: 9000,
        },
        false,
    );
    let messages = build_messages(&req);
    let content = said(&messages[1], "content");
    assert!(content.starts_with("first bytes"));
    assert!(content.contains("art-1"));
    assert!(content.contains("9000 bytes"));
}

#[test]
fn provenance_never_reaches_the_request_body() {
    let req = request_with(vec![user_blocks(vec![ContentBlock::ToolResult {
        tool_use_id: "abc123def".into(),
        tool_name: "probe".into(),
        content: words("answer"),
        is_error: false,
        provenance: vec![
            ProvenanceSource::new("s1".into(), "https://example.com/doc".into())
                .with_snippet("SNIPPET_MARKER".into()),
        ],
    }])]);
    let body = Json::Array(build_messages(&req)).print();
    assert!(!body.contains("provenance"));
    assert!(!body.contains("SNIPPET_MARKER"));
    assert!(!body.contains("example.com"));
}

#[test]
fn thinking_config_maps_to_reasoning_prompt_mode() {
    let mut req = request_with(vec![Message::user("hi")]);
    let v = build_request(&req, false, None);
    assert!(v.get("prompt_mode").is_none());
    assert!(v.get("reasoning_effort").is_none());

    req.thinking = Some(ThinkingConfig { enabled: true, budget_tokens: None });
    let v = build_request(&req, false, None);
    assert_eq!(said(&v, "prompt_mode"), "reasoning");
}

#[test]
fn disabled_thinking_maps_to_reasoning_effort_none() {
    let mut req = request_with(vec![Message::user("hi")]);
    req.thinking = Some(ThinkingConfig { enabled: false, budget_tokens: None });
    let v = build_request(&req, false, Some("high"));
    assert_eq!(said(&v, "reasoning_effort"), "none");
    assert!(v.get("prompt_mode").is_none());
}

#[test]
fn driver_reasoning_effort_is_sent_unless_overridden() {
    let req = request_with(vec![Message::user("hi")]);
    let v = build_request(&req, false, Some("high"));
    assert_eq!(said(&v, "reasoning_effort"), "high");

    let driver = MistralDriver::new().with_reasoning_effort("low".into());
    assert_eq!(driver.reasoning_effort.as_deref(), Some("low"));
}

#[test]
fn default_base_url_builds_the_chat_endpoint() {
    let driver = MistralDriver::new();
    assert_eq!(driver.chat_url(), "https://api.mistral.ai/v1/chat/completions");
    let custom = MistralDriver::with_base_url("https://proxy/v1/".into());
    assert_eq!(custom.chat_url(), "https://proxy/v1/chat/completions");
}

#[test]
fn drivers_prepare_their_requests() {
    let driver = MistralDriver::new().with_reasoning_effort("low".into());
    let req = request_with(vec![Message::user("hi")]);
    let plain = driver.request("k", &req, false).unwrap();
    assert_eq!(
        plain.headers,
        vec![
            ("content-type".to_string(), "application/json".to_string()),
            ("authorization".to_string(), "Bearer k".to_string()),
        ]
    );
    assert_eq!(said(&plain.body, "reasoning_effort"), "low");
    assert_eq!(at(&plain.body, "temperature"), &json("0.7"));
    let streamed = driver.request("k", &req, true).unwrap();
    assert_eq!(streamed.headers.len(), 3);
    let bad = request_with(vec![user_blocks(
        (0..9)
            .map(|_| ContentBlock::Image { media_type: "image/png".into(), data: "AAAA".into() })
            .collect(),
    )]);
    assert!(matches!(driver.request("k", &bad, false), Err(ProviderError::Api { status: 413, .. })));
    assert_eq!(driver.name(), "mistral");
}

#[test]
fn magistral_models_never_receive_reasoning_effort() {
    let mut req = request_with(vec![Message::user("hi")]);
    req.model = "magistral-medium-latest".to_string();
    req.thinking = Some(ThinkingConfig { enabled: false, budget_tokens: None });
    let v = build_request(&req, false, Some("high"));
    assert!(v.get("reasoning_effort").is_none());

    req.thinking = None;
    let v = build_request(&req, false, Some("high"));
    assert!(v.get("reasoning_effort").is_none());
}

#[test]
fn http_errors_classify_by_status() {
    assert!(matches!(
        http_error(429, Some(12_000), "slow down".into()),
        ProviderError::RateLimited { retry_after_ms: 12_000 }
    ));
    assert!(matches!(
        http_error(429, None, String::new()),
        ProviderError::RateLimited { retry_after_ms: 5000 }
    ));
    assert!(matches!(http_error(503, None, String::new()), ProviderError::Overloaded { .. }));
    assert!(matches!(
        http_error(401, None, String::new()),
        ProviderError::AuthenticationFailed(_)
    ));
    assert!(matches!(
        http_error(422, None, String::new()),
        ProviderError::Api { status: 422, .. }
    ));
    assert_eq!(http_error(422, None, "no".into()).message(), "API error (422): no");
}

#[test]
fn retry_after_header_parses_seconds() {
    assert_eq!(retry_after_ms(Some("7")), Some(7000));
    assert_eq!(retry_after_ms(Some("soon")), None);
    assert_eq!(retry_after_ms(None), None);
}

#[test]
fn media_preflight_enforces_mistral_limits() {
    let image = |data: String| ContentBlock::Image { media_type: "image/png".into(), data };
    let big_image = "A".repeat((MAX_IMAGE_BYTES + 1024) * 4 / 3);
    let req = request_with(vec![user_blocks(vec![image(big_image)])]);
    assert!(matches!(validate_media(&req), Err(ProviderError::Api { status: 413, .. })));

    let big_doc = "A".repeat((MAX_DOCUMENT_BYTES + 1024) * 4 / 3);
    let req = request_with(vec![user_blocks(vec![ContentBlock::File {
        media_type: "application/pdf".into(),
        data: big_doc,
    }])]);
    assert!(matches!(validate_media(&req), Err(ProviderError::Api { status: 413, .. })));

    let nine_images: Vec<ContentBlock> = (0..9).map(|_| image("AAAA".into())).collect();
    let req = request_with(vec![user_blocks(nine_images)]);
    assert!(matches!(validate_media(&req), Err(ProviderError::Api { status: 413, .. })));

    let req = request_with(vec![user_blocks(vec![image("AAAA".into())])]);
    assert!(validate_media(&req).is_ok());
}

fn feed(accum: &mut StreamAccumulator, lines: &[&str]) -> bool {
    for line in lines {
        if accum.handle_line(line).unwrap() {
            return true;
        }
    }
    false
}

fn deltas(events: &[StreamEvent]) -> String {
    events
        .iter()
        .filter_map(|e| match e {
            StreamEvent::TextDelta { text } => Some(text.as_str()),
            _ => None,
        })
        .collect()
}

#[test]
fn stream_accumulates_text_deltas_and_finishes_on_done() {
    let mut accum = StreamAccumulator::new();
    let done = feed(
        &mut accum,
        &[
            r#"data: {"choices":[{"delta":{"content":"Hel"}}]}"#,
            r#"data: {"choices":[{"delta":{"content":"lo"}}]}"#,
            r#"data: {"choices":[{"delta":{},"finish_reason":"stop"}],"usage":{"prompt_tokens":10,"completion_tokens":2,"prompt_tokens_details":{"cached_tokens":4}}}"#,
            "data: [DONE]",
        ],
    );
    assert!(done);
    let (response, events) = accum.finish();
    assert_eq!(response.content.len(), 1);
    assert!(matches!(&response.content[0], ContentBlock::Text { text, .. } if text == "Hello"));
    assert_eq!(response.stop_reason, StopReason::EndTurn);
    assert_eq!(response.usage.input_tokens, 10);
    assert_eq!(response.usage.output_tokens, 2);
    assert_eq!(response.usage.cache_read_tokens, 4);
    assert_eq!(deltas(&events), "Hello");
    assert!(events.iter().any(|e| matches!(e, StreamEvent::ContentComplete { .. })));
}

#[test]
fn stream_accumulates_parallel_tool_calls_by_index() {
    let mut accum = StreamAccumulator::new();
    feed(
        &mut accum,
        &[
            r#"data: {"choices":[{"delta":{"tool_calls":[{"index":0,"id":"abc123def","function":{"name":"lookup","arguments":"{\"q\":"}}]}}]}"#,
            r#"data: {"choices":[{"delta":{"tool_calls":[{"index":1,"id":"xyz789ghi","function":{"name":"fetch","arguments":{"url":"https://x"}}}]}}]}"#,
            r#"data: {"choices":[{"delta":{"tool_calls":[{"index":0,"function":{"arguments":"\"rust\"}"}}]},"finish_reason":"tool_calls"}]}"#,
        ],
    );
    let (response, events) = accum.finish();
    assert_eq!(response.tool_calls.len(), 2);
    assert_eq!(response.tool_calls[0].name, "lookup");
    assert_eq!(response.tool_calls[0].input, json(r#"{"q":"rust"}"#));
    assert_eq!(response.tool_calls[1].name, "fetch");
    assert_eq!(response.tool_calls[1].input, json(r#"{"url":"https://x"}"#));
    assert_eq!(response.stop_reason, StopReason::ToolUse);
    assert_eq!(
        events.iter().filter(|e| matches!(e, StreamEvent::ToolUseStart { .. })).count(),
        2
    );
    assert_eq!(events.iter().filter(|e| matches!(e, StreamEvent::ToolUseEnd { .. })).count(), 2);
}

#[test]
fn stream_splits_think_tags_across_chunk_boundaries() {
    let mut accum = StreamAccumulator::new();
    feed(
        &mut accum,
        &[
            r#"data: {"choices":[{"delta":{"content":"<th"}}]}"#,
            r#"data: {"choices":[{"delta":{"content":"ink>secret</think>public"}}]}"#,
        ],
    );
    let (response, events) = accum.finish();
    let thinking: String = events
        .iter()
        .filter_map(|e| match e {
            StreamEvent::ThinkingDelta { text } => Some(text.as_str()),
            _ => None,
        })
        .collect();
    assert_eq!(thinking, "secret");
    assert_eq!(deltas(&events), "public");
    assert!(response.content.iter().any(
        |b| matches!(b, ContentBlock::Thinking { thinking, .. } if thinking == "secret")
    ));
    assert!(
        response
            .content
            .iter()
            .any(|b| matches!(b, ContentBlock::Text { text, .. } if text == "public"))
    );
}

#[test]
fn stream_surfaces_in_band_error_payloads() {
    let mut accum = StreamAccumulator::new();
    let err = accum
        .handle_line(r#"data: {"object":"error","message":"capacity exceeded","code":3505}"#)
        .unwrap_err();
    assert!(matches!(
        err,
        ProviderError::Api { status: 200, ref message } if message.contains("capacity exceeded")
    ));

    let mut accum = StreamAccumulator::new();
    assert!(accum.handle_line(r#"data: {"error":{"message":"boom"}}"#).is_err());
}

#[test]
fn stream_tolerates_garbage_and_skips_malformed_calls() {
    let mut accum = StreamAccumulator::new();
    feed(
        &mut accum,
        &[
            "data: not-json",
            ": keepalive comment",
            "",
            "event: something",
            r#"data: {"choices":[{"delta":{"tool_calls":[{"index":0,"function":{"name":"","arguments":"{}"}}]}}]}"#,
            r#"data: {"choices":[{"delta":{"content":"ok"}}]}"#,
        ],
    );
    let (response, _) = accum.finish();
    assert!(response.tool_calls.is_empty());
    assert!(matches!(&response.content[0], ContentBlock::Text { text, .. } if text == "ok"));
}

#[test]
fn bytes_are_read_line_by_line_wherever_they_are_cut() {
    let wire = "data: {\"choices\":[{\"delta\":{\"content\":\"h\u{e9}\"}}]}\n\ndata: [DONE]\nrest";
    let mut stream = MistralStream::new();
    assert!(!stream.push_text("data: {\"choices\":[{\"delta\"").unwrap());
    assert!(stream.drain_events().is_empty());
    assert!(stream.push_text(&wire["data: {\"choices\":[{\"delta\"".len()..]).unwrap());
    let (response, events) = stream.finish();
    assert_eq!(response.text(), "h\u{e9}");
    assert_eq!(deltas(&events), "h\u{e9}");

    let mut stream = MistralStream::new();
    assert!(!stream.push_bytes(b"data: {\"choices\":[{\"delta\":{\"content\":\"\xff\"}}]}\n").unwrap());
    assert_eq!(stream.finish().0.text(), "\u{fffd}");
}

#[test]
fn filters_split_thinking_however_text_is_cut() {
    let whole = "a<think>b</think>c";
    for cut in 0..=whole.len() {
        let mut filter = StreamingThinkFilter::new();
        let mut actions = filter.process(&whole[..cut]);
        actions.extend(filter.process(&whole[cut..]));
        actions.extend(filter.flush());
        assert_eq!(emitted_text(&actions, false), "ac");
        assert_eq!(emitted_text(&actions, true), "b");
    }
}

#[test]
fn streams_that_are_drained_complete_once_and_last() {
    let mut accum = StreamAccumulator::new();
    accum.handle_line(r#"data: {"choices":[{"delta":{"content":"a"}}]}"#).unwrap();
    let mut events = accum.drain_events();
    assert_eq!(deltas(&events), "a");
    assert!(accum.drain_events().is_empty());
    accum.handle_line(r#"data: {"choices":[{"delta":{"content":"b"}}]}"#).unwrap();
    events.extend(accum.drain_events());
    let (response, rest) = accum.finish();
    events.extend(rest);
    assert_eq!(response.text(), "ab");
    assert_eq!(deltas(&events), "ab");
    assert_eq!(
        events.iter().filter(|e| matches!(e, StreamEvent::ContentComplete { .. })).count(),
        1
    );
    assert!(matches!(events.last(), Some(StreamEvent::ContentComplete { .. })));
}
