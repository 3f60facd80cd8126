use runic::anthropic::{
    AnthropicConfig, AnthropicProvider, DEFAULT_MAX_TOKENS, SseState, message_to_anthropic,
};
use runic::duration::Duration;
use runic::gemini::{
    DEFAULT_MAX_OUTPUT_TOKENS, DEFAULT_MODEL, GeminiConfig, GeminiProvider, GeminiStreamChunk,
    StreamAccum, message_to_gemini,
};
use runic::json::Json;
use runic::message::{ContentBlock, Message, Role, StreamEvent, ToolDefinition};
use runic::openai::{
    ChatChunk, MISTRAL_BASE_URL, OpenAiConfig, OpenAiProvider, StreamState, messages_to_openai,
};
use runic::provider_core::{
    ProviderError, RUNIC_USER_AGENT, RetryPolicy, RetryStep, StreamInput, TextCollector,
    check_reply, chunk_decode_error, classify_response, is_retryable, next_delay, retry_step,
    simple_messages, sse_decode_error, truncate_for_log,
};

fn json(text: &str) -> Json {
    Json::parse(text).unwrap()
}

/// Follows a path of keys and indices, such as `content.0.text`.
fn at<'a>(value: &'a Json, path: &str) -> &'a Json {
    let mut value = value;
    for step in path.split('.') {
        value = match step.parse::<usize>() {
            Ok(i) => &value.as_items().unwrap()[i],
            Err(_) => value.get(step).unwrap(),
        };
    }
    value
}

fn said<'a>(value: &'a Json, path: &str) -> &'a str {
    at(value, path).as_text().unwrap()
}

fn event(event: &str, data: &str) -> StreamInput {
    StreamInput::Event { event: event.to_string(), data: data.to_string() }
}

#[test]
fn lib_config_defaults_are_sensible() {
    let cfg = AnthropicConfig::new("sk-test".into(), "some-model".into());
    assert_eq!(cfg.model, "some-model");
    assert_eq!(cfg.max_tokens, DEFAULT_MAX_TOKENS);
    assert_eq!(cfg.max_tokens, 8192);
    assert!(cfg.cache_system_prompt);
}

#[test]
fn user_message_serializes_to_anthropic_shape() {
    let msg = Message::user("hello");
    let value = message_to_anthropic(&msg).unwrap();
    assert_eq!(said(&value, "role"), "user");
    assert_eq!(said(&value, "content.0.type"), "text");
    assert_eq!(said(&value, "content.0.text"), "hello");
}

#[test]
fn tool_result_carries_is_error_when_true() {
    let msg = Message::tool_result("toolu_1", "boom", true);
    let value = message_to_anthropic(&msg).unwrap();
    assert_eq!(at(&value, "content.0.is_error"), &Json::Bool(true));
}

#[test]
fn sse_state_emits_text_delta() {
    let mut state = SseState::default();
    let out = state
        .handle(
            "content_block_delta",
            r#"{"index":0,"delta":{"type":"text_delta","text":"hi"}}"#,
        )
        .unwrap();
    assert!(matches!(&out[0], StreamEvent::TextDelta(t) if t == "hi"));
}

#[test]
fn sse_state_tracks_tool_use_lifecycle() {
    let mut state = SseState::default();
    let start = state
        .handle(
            "content_block_start",
            r#"{"index":1,"content_block":{"type":"tool_use","id":"toolu_x","name":"bash"}}"#,
        )
        .unwrap();
    assert!(
        matches!(&start[0], StreamEvent::ToolUseStart { id, name } if id == "toolu_x" && name == "bash")
    );

    let stop = state.handle("content_block_stop", r#"{"index":1}"#).unwrap();
    assert!(matches!(&stop[0], StreamEvent::ToolUseEnd));
    assert!(state.handle("content_block_stop", r#"{"index":1}"#).is_none());
}

#[test]
fn sse_state_emits_message_end_with_stop_reason() {
    let mut state = SseState::default();
    state.handle(
        "message_delta",
        r#"{"delta":{"stop_reason":"tool_use"},"usage":{"output_tokens":42}}"#,
    );
    let stop = state.handle("message_stop", r#"{}"#).unwrap();
    let stop_reason = stop.iter().find_map(|ev| match ev {
        StreamEvent::MessageEnd { stop_reason } => stop_reason.clone(),
        _ => None,
    });
    assert_eq!(stop_reason.as_deref(), Some("tool_use"));
    let again = state.handle("message_stop", "{}").unwrap();
    assert!(matches!(&again[0], StreamEvent::MessageEnd { stop_reason: None }));
}

#[test]
fn anthropic_requests_carry_their_headers_and_payload() {
    let cfg = AnthropicConfig::new("key".into(), "m".into()).with_thinking_budget(7);
    let mut provider = AnthropicProvider::new(cfg, vec!["m", "n"]);
    let tools = vec![ToolDefinition {
        name: "t".into(),
        description: "d".into(),
        input_schema: json("{}"),
    }];
    let request = provider.request(&vec![Message::user("hi")], &tools, "be brief");
    assert_eq!(request.url, "https://api.anthropic.com/v1/messages");
    assert!(request.headers.contains(&("x-api-key".to_string(), "key".to_string())));
    assert!(
        request.headers.contains(&("anthropic-version".to_string(), "2023-06-01".to_string()))
    );
    assert_eq!(said(&request.body, "model"), "m");
    assert_eq!(said(&request.body, "system.0.text"), "be brief");
    assert_eq!(at(&request.body, "thinking.budget_tokens"), &json("7"));
    assert_eq!(said(&request.body, "tools.0.name"), "t");
    assert_eq!(provider.available_models(), vec!["m", "n"]);
    let fork = provider.fork();
    provider.set_model("other").unwrap();
    assert_eq!(provider.model(), "other");
    assert_eq!(fork.model(), "m");
    assert_eq!(provider.name(), "anthropic");
}

#[test]
fn anthropic_streams_hand_on_events_until_they_end() {
    let mut state = SseState::default();
    let step = state.step(event(
        "content_block_delta",
        r#"{"index":0,"delta":{"type":"text_delta","text":"hi"}}"#,
    ));
    assert_eq!(step.events, vec![StreamEvent::TextDelta("hi".into())]);
    assert!(!step.over);
    let step = state.step(event("ping", "not json"));
    assert!(step.events.is_empty() && step.error.is_none() && !step.over);
    let step = state.step(StreamInput::Broken("cut".into()));
    assert_eq!(step.error, Some(ProviderError::Decode("SSE decode error: cut".into())));
    assert!(step.over);
    let step = state.step(StreamInput::Ended);
    assert!(step.over && step.events.is_empty() && step.error.is_none());
}

#[test]
fn canonical_user_agent_identifies_runic() {
    assert!(RUNIC_USER_AGENT.starts_with("runic/"));
}

fn http(status: u16) -> ProviderError {
    ProviderError::Http { status, body: "".into() }
}

#[test]
fn retryable_classification_covers_expected_5xx_and_429() {
    for s in [408, 429, 500, 502, 503, 504] {
        assert!(is_retryable(&http(s)), "{} should be retryable", s);
    }
    for s in [400, 401, 403, 404, 422] {
        assert!(!is_retryable(&http(s)), "{} should NOT be retryable", s);
    }
}

#[test]
fn auth_and_decode_errors_are_never_retryable() {
    assert!(!is_retryable(&ProviderError::Auth("bad key".into())));
    assert!(!is_retryable(&ProviderError::Decode("bad json".into())));
    assert!(!is_retryable(&ProviderError::UnsupportedModel("x".into())));
    assert!(!is_retryable(&ProviderError::ModelSwitchUnsupported));
    assert!(!is_retryable(&ProviderError::other("nope".into())));
}

#[test]
fn rate_limit_is_retryable() {
    assert!(is_retryable(&ProviderError::RateLimit {
        message: "slow down".into(),
        retry_after_secs: Some(3),
    }));
}

fn policy(max_attempts: u32, base_millis: u64, max_millis: u64) -> RetryPolicy {
    RetryPolicy {
        max_attempts,
        base_delay: Duration::from_millis(base_millis),
        max_delay: Duration::from_millis(max_millis),
    }
}

#[test]
fn next_delay_uses_exponential_backoff_when_no_retry_after() {
    let policy = policy(5, 100, 60_000);
    let err = http(503);
    assert_eq!(next_delay(&policy, &err, 1), Duration::from_millis(100));
    assert_eq!(next_delay(&policy, &err, 2), Duration::from_millis(200));
    assert_eq!(next_delay(&policy, &err, 3), Duration::from_millis(400));
    assert_eq!(next_delay(&policy, &err, 4), Duration::from_millis(800));
}

#[test]
fn next_delay_honors_retry_after_when_present() {
    let policy = RetryPolicy::default();
    let err = ProviderError::RateLimit { message: "".into(), retry_after_secs: Some(5) };
    assert_eq!(next_delay(&policy, &err, 1), Duration::from_secs(5));
}

#[test]
fn next_delay_caps_at_max_delay() {
    let policy = policy(30, 100, 1000);
    assert_eq!(next_delay(&policy, &http(503), 10), Duration::from_millis(1000));
}

#[test]
fn next_delay_doubles_until_it_is_capped() {
    let long = policy(100, 1, 100_000_000);
    assert_eq!(next_delay(&long, &http(503), 0), Duration::from_millis(1));
    assert_eq!(next_delay(&long, &http(503), 21), Duration::from_millis(1 << 20));
    assert_eq!(next_delay(&long, &http(503), 25), Duration::from_millis(1 << 24));
    assert_eq!(next_delay(&long, &http(503), 28), Duration::from_millis(100_000_000));
    assert_eq!(next_delay(&long, &http(503), u32::MAX), Duration::from_millis(100_000_000));
    let none = policy(100, 0, 1000);
    assert_eq!(next_delay(&none, &http(503), u32::MAX), Duration::from_millis(0));
    let err = ProviderError::RateLimit { message: "".into(), retry_after_secs: Some(61) };
    assert_eq!(next_delay(&RetryPolicy::default(), &err, 1), Duration::from_secs(60));
}

/// Makes attempts as a policy says; counts the retries.
fn with_retry<T>(
    policy: &RetryPolicy,
    mut op: impl FnMut() -> Result<T, ProviderError>,
) -> (Result<T, ProviderError>, u32) {
    let mut retries = 0;
    let mut attempt = 1;
    loop {
        match op() {
            Ok(value) => return (Ok(value), retries),
            Err(error) => match retry_step(policy, &error, attempt) {
                RetryStep::GiveUp => return (Err(error), retries),
                RetryStep::Retry { .. } => {
                    retries += 1;
                    attempt += 1;
                },
            },
        }
    }
}

#[test]
fn with_retry_returns_immediately_on_success() {
    let (result, retries) = with_retry(&RetryPolicy::default(), || Ok(42));
    assert_eq!(result.unwrap(), 42);
    assert_eq!(retries, 0);
}

#[test]
fn with_retry_does_not_retry_non_retryable() {
    let (result, retries) = with_retry(&RetryPolicy::default(), || {
        Err::<(), ProviderError>(ProviderError::Auth("nope".into()))
    });
    assert!(matches!(result, Err(ProviderError::Auth(_))));
    assert_eq!(retries, 0, "auth errors must not trigger retries");
}

#[test]
fn with_retry_retries_until_success() {
    let mut attempts = 0;
    let (result, retries) = with_retry(&policy(5, 1, 1), || {
        attempts += 1;
        if attempts <= 2 { Err(http(503)) } else { Ok(7) }
    });
    assert_eq!(result.unwrap(), 7);
    assert_eq!(retries, 2, "should retry twice before the 3rd attempt succeeds");
}

#[test]
fn with_retry_exhausts_and_returns_last_error() {
    let (result, retries) =
        with_retry(&policy(3, 1, 1), || Err::<u32, ProviderError>(http(503)));
    assert!(matches!(result, Err(ProviderError::Http { status: 503, .. })));
    assert_eq!(retries, 2);
}

#[test]
fn replies_are_classified_by_status() {
    assert!(check_reply(204, None, "".into()).is_none());
    assert_eq!(
        check_reply(429, Some("12"), "slow".into()),
        Some(ProviderError::RateLimit { message: "slow".into(), retry_after_secs: Some(12) })
    );
    assert_eq!(
        classify_response(429, Some("soon"), "".into()),
        ProviderError::RateLimit { message: "".into(), retry_after_secs: None }
    );
    assert_eq!(classify_response(403, None, "no".into()), ProviderError::Auth("no".into()));
    assert_eq!(classify_response(500, None, "x".into()).message(), "HTTP error (500): x");
}

#[test]
fn log_excerpts_are_cut_at_a_byte() {
    assert_eq!(truncate_for_log("short", 200), "short");
    assert_eq!(truncate_for_log(&"x".repeat(201), 200), format!("{}…", "x".repeat(200)));
    let error = chunk_decode_error("OpenAI", "bad", "data");
    assert_eq!(error.message(), "decode error: OpenAI chunk decode error: bad — data: data");
    assert_eq!(sse_decode_error("x"), ProviderError::Decode("SSE decode error: x".into()));
}

#[test]
fn text_is_collected_until_an_error() {
    let mut text = TextCollector::new();
    text.take(Ok(StreamEvent::TextDelta("a".into()))).unwrap();
    text.take(Ok(StreamEvent::ThinkingEnd)).unwrap();
    text.take(Ok(StreamEvent::TextDelta("b".into()))).unwrap();
    assert!(text.take(Err(ProviderError::ModelSwitchUnsupported)).is_err());
    assert_eq!(text.text(), "ab");
    assert_eq!(simple_messages("hi").len(), 1);
}

fn gemini_chunk(text: &str) -> GeminiStreamChunk {
    GeminiStreamChunk::from_json(&json(text)).unwrap()
}

#[test]
fn config_defaults_are_sensible() {
    let cfg = GeminiConfig::new("k".into());
    assert_eq!(cfg.model, DEFAULT_MODEL);
    assert_eq!(cfg.max_output_tokens, DEFAULT_MAX_OUTPUT_TOKENS);
}

#[test]
fn user_message_serializes_with_user_role() {
    let msg = Message::user("hello");
    let value = message_to_gemini(&msg).unwrap();
    assert_eq!(said(&value, "role"), "user");
    assert_eq!(said(&value, "parts.0.text"), "hello");
}

#[test]
fn assistant_message_serializes_with_model_role() {
    let msg = Message::assistant_text("hi");
    let value = message_to_gemini(&msg).unwrap();
    assert_eq!(said(&value, "role"), "model");
}

#[test]
fn tool_result_serializes_as_function_response_part() {
    let msg = Message::tool_result("call_42", "ok", false);
    let value = message_to_gemini(&msg).unwrap();
    assert_eq!(said(&value, "role"), "user");
    assert_eq!(said(&value, "parts.0.functionResponse.name"), "call_42");
    assert_eq!(said(&value, "parts.0.functionResponse.response.content"), "ok");
}

#[test]
fn stream_accum_emits_text_delta() {
    let mut s = StreamAccum::default();
    let chunk =
        gemini_chunk(r#"{"candidates":[{"content":{"role":"model","parts":[{"text":"hi"}]}}]}"#);
    let out = s.absorb(&chunk);
    assert!(matches!(&out[0], StreamEvent::TextDelta(t) if t == "hi"));
}

#[test]
fn stream_accum_synthesizes_tool_use_lifecycle() {
    let mut s = StreamAccum::default();
    let chunk = gemini_chunk(
        r#"{"candidates":[{"content":{"role":"model","parts":[{"functionCall":{"name":"echo","args":{"msg":"hi"}}}]}}]}"#,
    );
    let out = s.absorb(&chunk);
    assert!(matches!(&out[0], StreamEvent::ToolUseStart { name, .. } if name == "echo"));
    assert!(matches!(&out[1], StreamEvent::ToolInputDelta(_)));
    assert!(matches!(&out[2], StreamEvent::ToolUseEnd));
}

#[test]
fn stream_accum_emits_message_end_on_finish_reason() {
    let mut s = StreamAccum::default();
    let out = s.absorb(&gemini_chunk(r#"{"candidates":[{"finishReason":"STOP"}]}"#));
    let saw_end = out.iter().any(
        |e| matches!(e, StreamEvent::MessageEnd { stop_reason } if stop_reason.as_deref() == Some("STOP")),
    );
    assert!(saw_end);
}

#[test]
fn stream_accum_emits_token_usage() {
    let mut s = StreamAccum::default();
    let out = s.absorb(&gemini_chunk(
        r#"{"usageMetadata":{"promptTokenCount":10,"candidatesTokenCount":5,"totalTokenCount":15}}"#,
    ));
    let usage = out
        .iter()
        .find_map(|e| match e {
            StreamEvent::TokenUsage { input_tokens, output_tokens, .. } => {
                Some((*input_tokens, *output_tokens))
            },
            _ => None,
        })
        .unwrap();
    assert_eq!(usage, (Some(10), Some(5)));
}

#[test]
fn stream_accum_emits_session_id_only_once() {
    let mut s = StreamAccum::default();
    let chunk = || gemini_chunk(r#"{"responseId":"resp-1"}"#);
    let first = s.absorb(&chunk());
    assert!(matches!(&first[0], StreamEvent::SessionId(id) if id == "resp-1"));
    assert!(s.absorb(&chunk()).is_empty(), "session id must not repeat on later chunks");
}

#[test]
fn stream_accum_synthesizes_call_id_when_gemini_omits_it() {
    let mut s = StreamAccum::default();
    let out = s.absorb(&gemini_chunk(
        r#"{"candidates":[{"content":{"role":"model","parts":[{"functionCall":{"name":"echo","args":{}}}]}}]}"#,
    ));
    match &out[0] {
        StreamEvent::ToolUseStart { id, .. } => assert_eq!(id, "call_echo"),
        other => panic!("expected ToolUseStart, got {other:?}"),
    }
}

#[test]
fn stream_accum_flush_synthesizes_message_end_when_stream_just_stops() {
    let mut s = StreamAccum::default();
    let out = s.flush();
    assert!(matches!(&out[0], StreamEvent::MessageEnd { stop_reason: None }), "got {out:?}");
    assert!(s.flush().is_empty(), "flush must be idempotent");
}

#[test]
fn stream_accum_flush_is_noop_after_real_message_end() {
    let mut s = StreamAccum::default();
    s.absorb(&gemini_chunk(r#"{"candidates":[{"finishReason":"STOP"}]}"#));
    assert!(s.flush().is_empty(), "MessageEnd already emitted via finishReason");
}

#[test]
fn stream_accum_tolerates_empty_and_partial_chunks() {
    let mut s = StreamAccum::default();
    for raw in [
        r#"{}"#,
        r#"{"candidates":[]}"#,
        r#"{"candidates":[{}]}"#,
        r#"{"candidates":[{"content":{"role":"model","parts":[]}}]}"#,
        r#"{"candidates":[{"content":{"role":"model","parts":[{"text":""}]}}]}"#,
    ] {
        let chunk = gemini_chunk(raw);
        assert!(s.absorb(&chunk).is_empty(), "chunk {raw} should emit nothing");
    }
}

#[test]
fn reasoning_and_blob_blocks_are_dropped_from_gemini_payloads() {
    let msg = Message {
        role: Role::Assistant,
        content: vec![ContentBlock::Reasoning { text: "private".into() }],
    };
    assert!(message_to_gemini(&msg).is_none());
}

#[test]
fn gemini_requests_name_the_model_and_the_key_in_the_url() {
    let provider = GeminiProvider::new(GeminiConfig::new("k".into()).with_thinking_budget(9));
    let request = provider.request(&vec![Message::user("hi")], &vec![], "sys");
    assert_eq!(
        request.url,
        "https://generativelanguage.googleapis.com/v1beta/models/gemini-2.5-flash:streamGenerateContent?alt=sse&key=k"
    );
    assert_eq!(request.headers.len(), 2);
    assert_eq!(said(&request.body, "contents.0.parts.0.text"), "hi");
    assert_eq!(said(&request.body, "systemInstruction.parts.0.text"), "sys");
    assert_eq!(
        at(&request.body, "generationConfig.thinkingConfig.thinkingBudget"),
        &json("9")
    );
}

#[test]
fn gemini_streams_end_in_order_or_with_a_complaint() {
    let mut s = StreamAccum::default();
    let step = s.step(event("", "")).unwrap();
    assert!(step.events.is_empty() && !step.over);
    let step = s.step(event("", r#"{"responseId":"r"}"#)).unwrap();
    assert_eq!(step.events, vec![StreamEvent::SessionId("r".into())]);
    let step = s.step(event("", "oops")).unwrap();
    assert!(step.over);
    assert!(step.error.unwrap().message().starts_with("decode error: Gemini chunk decode error: "));
    let step = s.step(event("", r#"{"candidates":3}"#)).unwrap();
    assert!(step.error.unwrap().message().ends_with("— data: {\"candidates\":3}"));
    assert!(s.step(event("", &"é".repeat(150))).unwrap().over);
    assert!(s.step(event("", &format!("a{}", "é".repeat(150)))).is_none());
    let step = s.step(StreamInput::Ended).unwrap();
    assert_eq!(step.events, vec![StreamEvent::MessageEnd { stop_reason: None }]);
    assert!(step.over && step.error.is_none());
    assert!(GeminiStreamChunk::from_json(&json(r#"{"candidates":[{"content":{"parts":[]}}]}"#)).is_none());
}

#[test]
fn mistral_preset_targets_mistral_api() {
    let cfg = OpenAiConfig::mistral("k".into());
    assert_eq!(cfg.base_url, MISTRAL_BASE_URL);
    assert_eq!(cfg.model, "mistral-large-latest");
}

#[test]
fn system_prompt_becomes_leading_system_message() {
    let msgs = messages_to_openai(&vec![Message::user("hi")], "be terse");
    assert_eq!(said(&msgs[0], "role"), "system");
    assert_eq!(said(&msgs[0], "content"), "be terse");
    assert_eq!(said(&msgs[1], "role"), "user");
    assert_eq!(said(&msgs[1], "content"), "hi");
}

#[test]
fn tool_result_becomes_a_tool_role_message() {
    let msg = Message::tool_result("call_1", "42", false);
    let out = messages_to_openai(&vec![msg], "");
    assert_eq!(said(&out[0], "role"), "tool");
    assert_eq!(said(&out[0], "tool_call_id"), "call_1");
    assert_eq!(said(&out[0], "content"), "42");
}

#[test]
fn assistant_tool_use_becomes_tool_calls_array() {
    let msg = Message {
        role: Role::Assistant,
        content: vec![ContentBlock::ToolUse {
            id: "call_1".into(),
            name: "echo".into(),
            input: json(r#"{ "msg": "hi" }"#),
        }],
    };
    let out = messages_to_openai(&vec![msg], "");
    assert_eq!(said(&out[0], "role"), "assistant");
    assert_eq!(at(&out[0], "content"), &Json::Null);
    assert_eq!(said(&out[0], "tool_calls.0.id"), "call_1");
    assert_eq!(said(&out[0], "tool_calls.0.function.name"), "echo");
    let args = said(&out[0], "tool_calls.0.function.arguments");
    assert!(args.contains("\"msg\""));
}

fn chunk(text: &str) -> ChatChunk {
    ChatChunk::from_json(&json(text)).unwrap()
}

#[test]
fn streams_text_deltas() {
    let mut s = StreamState::default();
    let out = s.absorb(&chunk(r#"{"choices":[{"delta":{"content":"hi"}}]}"#));
    assert!(matches!(&out[0], StreamEvent::TextDelta(t) if t == "hi"));
}

#[test]
fn synthesizes_tool_call_lifecycle_across_deltas() {
    let mut s = StreamState::default();
    let a = s.absorb(&chunk(
        r#"{"choices":[{"delta":{"tool_calls":[{"index":0,"id":"call_x","function":{"name":"bash"}}]}}]}"#,
    ));
    assert!(
        matches!(&a[0], StreamEvent::ToolUseStart { id, name } if id == "call_x" && name == "bash")
    );
    let b = s.absorb(&chunk(
        r#"{"choices":[{"delta":{"tool_calls":[{"index":0,"function":{"arguments":"{\"cmd\":"}}]}}]}"#,
    ));
    assert!(matches!(&b[0], StreamEvent::ToolInputDelta(frag) if frag.contains("cmd")));
    let c = s.absorb(&chunk(r#"{"choices":[{"delta":{},"finish_reason":"tool_calls"}]}"#));
    assert!(matches!(&c[0], StreamEvent::ToolUseEnd));
    assert!(
        matches!(&c[1], StreamEvent::MessageEnd { stop_reason } if stop_reason.as_deref() == Some("tool_calls"))
    );
}

#[test]
fn emits_usage_then_message_end() {
    let mut s = StreamState::default();
    let out = s.absorb(&chunk(
        r#"{"choices":[{"delta":{},"finish_reason":"stop"}],"usage":{"prompt_tokens":10,"completion_tokens":5}}"#,
    ));
    let usage = out.iter().find_map(|e| match e {
        StreamEvent::TokenUsage { input_tokens, output_tokens, .. } => {
            Some((*input_tokens, *output_tokens))
        },
        _ => None,
    });
    assert_eq!(usage, Some((Some(10), Some(5))));
    assert!(out.iter().any(
        |e| matches!(e, StreamEvent::MessageEnd { stop_reason } if stop_reason.as_deref() == Some("stop"))
    ));
}

#[test]
fn flush_synthesizes_message_end_when_stream_cuts_off() {
    let mut s = StreamState::default();
    let out = s.flush();
    assert!(matches!(&out[0], StreamEvent::MessageEnd { stop_reason: None }));
    assert!(s.flush().is_empty());
}

#[test]
fn tolerates_empty_and_roleonly_chunks() {
    let mut s = StreamState::default();
    assert!(s.absorb(&chunk(r#"{"choices":[{"delta":{"role":"assistant"}}]}"#)).is_empty());
    assert!(s.absorb(&chunk(r#"{"choices":[]}"#)).is_empty());
}

#[test]
fn chunks_of_another_shape_are_refused() {
    for raw in [
        "[]",
        r#"{"choices":null}"#,
        r#"{"choices":[{"delta":null}]}"#,
        r#"{"choices":[{"delta":{"content":3}}]}"#,
        r#"{"choices":[{"delta":{"tool_calls":[{"index":-1}]}}]}"#,
        r#"{"usage":{"prompt_tokens":"many"}}"#,
    ] {
        assert!(ChatChunk::from_json(&json(raw)).is_none(), "{raw}");
    }
}

#[test]
fn openai_requests_carry_the_key_and_the_payload() {
    let cfg = OpenAiConfig::new("k".into()).with_base_url("https://proxy/v1//".into());
    let provider = OpenAiProvider::new(cfg);
    let request = provider.request(&vec![Message::user("hi")], &vec![], "");
    assert_eq!(request.url, "https://proxy/v1/chat/completions");
    assert_eq!(
        request.headers,
        vec![
            ("content-type".to_string(), "application/json".to_string()),
            ("accept".to_string(), "text/event-stream".to_string()),
            ("authorization".to_string(), "Bearer k".to_string()),
        ]
    );
    assert_eq!(at(&request.body, "stream"), &Json::Bool(true));
    assert_eq!(said(&request.body, "messages.0.content"), "hi");
    assert_eq!(provider.name(), "openai");
    assert_eq!(OpenAiProvider::mistral(OpenAiConfig::mistral("k".into())).name(), "mistral");
}

#[test]
fn openai_streams_end_in_order_or_with_a_complaint() {
    let mut s = StreamState::default();
    assert!(s.step(event("", "   ")).unwrap().events.is_empty());
    let step = s.step(event("", r#" {"choices":[{"delta":{"content":"hi"}}]} "#)).unwrap();
    assert_eq!(step.events, vec![StreamEvent::TextDelta("hi".into())]);
    let step = s.step(event("", "{oops")).unwrap();
    assert!(step.over);
    assert!(step.error.unwrap().message().ends_with(" — data: {oops"));
    let step = s.step(event("", " [DONE] ")).unwrap();
    assert_eq!(step.events, vec![StreamEvent::MessageEnd { stop_reason: None }]);
    assert!(step.over);
    assert!(s.step(StreamInput::Ended).unwrap().events.is_empty());
    let long = format!(r#"{{"choices":[{{"delta":{{"content":"a{}"}}}}]}}"#, "é".repeat(300));
    assert!(s.step(event("", &long)).unwrap().error.is_none());
    assert!(s.step(event("", &format!("a{}", "é".repeat(300)))).is_none());
    assert!(s.step(StreamInput::Broken("x".into())).unwrap().over);
}

#[test]
fn gemini_parts_keep_all_their_fields() {
    let chunk = gemini_chunk(
        r#"{"candidates":[{"content":{"role":"model","parts":[{"inlineData":{"mimeType":"image/png","data":"AAAA"}},{"functionResponse":{"name":"f","response":{"ok":true},"id":"7"}},{"text":"t","functionCall":{"name":"g"}}]}}]}"#,
    );
    let candidates = chunk.candidates.unwrap();
    let content = candidates[0].content.as_ref().unwrap();
    assert_eq!(content.role, "model");
    let data = content.parts[0].inline_data.as_ref().unwrap();
    assert_eq!(data.mime_type, "image/png");
    assert_eq!(data.data, "AAAA");
    let result = content.parts[1].function_response.as_ref().unwrap();
    assert_eq!(result.name, "f");
    assert_eq!(result.response, json(r#"{"ok":true}"#));
    assert_eq!(result.id.as_deref(), Some("7"));
    assert_eq!(content.parts[2].text.as_deref(), Some("t"));
    let call = content.parts[2].function_call.as_ref().unwrap();
    assert_eq!(call.name, "g");
    assert_eq!(call.args, json("null"));
    assert!(call.id.is_none());
}
