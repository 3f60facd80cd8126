//! The Anthropic Messages API: request payloads and the state of its event stream.
use std::collections::HashMap;

use vstd::prelude::*;

use crate::json::{
    Json, JsonView, NumberView, array, empty_fields, json_read, no_fields, number, object, put,
    text,
};
use crate::message::{
    CacheControl, ContentBlock, EventView, Message, Role, StreamEvent, ToolDefinition,
};
use crate::provider_core::{
    HttpRequest, HttpRequestView, InputView, ProviderError, StepView, StreamInput, StreamStep,
    add_header, close, closing, fail, failing, go_on, going_on, make_stream_headers, pass,
    sse_decode_error, stream_error, stream_headers,
};
use crate::text::{push_to, same, trim, trim_end_char, trimmed, trimmed_end_char};

verus! {

pub const DEFAULT_BASE_URL: &'static str = "https://api.anthropic.com";

pub const DEFAULT_API_VERSION: &'static str = "2023-06-01";

pub const DEFAULT_MAX_TOKENS: u32 = 8192;

/// Configuration for the Anthropic provider.
#[derive(Debug)]
pub struct AnthropicConfig {
    pub api_key: String,
    pub model: String,
    pub base_url: String,
    pub api_version: String,
    pub max_tokens: u32,
    /// When set, the payload asks for thinking with this budget.
    pub thinking_budget_tokens: Option<u32>,
    /// Marks the system block for the cache, so that stable prefixes stay warm.
    pub cache_system_prompt: bool,
}

impl Clone for AnthropicConfig {
    fn clone(&self) -> (r: AnthropicConfig)
        ensures
            r == *self,
    {
        AnthropicConfig {
            api_key: self.api_key.clone(),
            model: self.model.clone(),
            base_url: self.base_url.clone(),
            api_version: self.api_version.clone(),
            max_tokens: self.max_tokens,
            thinking_budget_tokens: self.thinking_budget_tokens,
            cache_system_prompt: self.cache_system_prompt,
        }
    }
}

impl AnthropicConfig {
    /// The defaults with the given key and model. No model is built in: which one to use is
    /// for the caller to say.
    pub fn new(api_key: String, model: String) -> (r: AnthropicConfig)
        ensures
            r.api_key@ == api_key@,
            r.model@ == model@,
            r.base_url@ == DEFAULT_BASE_URL@,
            r.api_version@ == DEFAULT_API_VERSION@,
            r.max_tokens == DEFAULT_MAX_TOKENS,
            r.thinking_budget_tokens is None,
            r.cache_system_prompt,
    {
        AnthropicConfig {
            api_key,
            model,
            base_url: DEFAULT_BASE_URL.to_owned(),
            api_version: DEFAULT_API_VERSION.to_owned(),
            max_tokens: DEFAULT_MAX_TOKENS,
            thinking_budget_tokens: None,
            cache_system_prompt: true,
        }
    }

    /// The configuration with another model.
    pub fn with_model(self, model: String) -> (r: AnthropicConfig)
        ensures
            r == (AnthropicConfig { model, ..self }),
    {
        AnthropicConfig { model, ..self }
    }

    /// The configuration with another limit on tokens.
    pub fn with_max_tokens(self, max_tokens: u32) -> (r: AnthropicConfig)
        ensures
            r == (AnthropicConfig { max_tokens, ..self }),
    {
        AnthropicConfig { max_tokens, ..self }
    }

    /// The configuration with a budget for thinking.
    pub fn with_thinking_budget(self, budget_tokens: u32) -> (r: AnthropicConfig)
        ensures
            r == (AnthropicConfig { thinking_budget_tokens: Some(budget_tokens), ..self }),
    {
        AnthropicConfig { thinking_budget_tokens: Some(budget_tokens), ..self }
    }
}

/// An object of a type and one more entry.
pub open spec fn typed(kind: Seq<char>) -> Seq<(Seq<char>, JsonView)> {
    no_fields().push(("type"@, JsonView::Text(kind)))
}

/// A cache mark as the payload holds it.
pub open spec fn cache_mark(mark: CacheControl) -> JsonView {
    let fields = typed(mark.kind@);
    JsonView::Object(
        match mark.ttl {
            Some(ttl) => fields.push(("ttl"@, JsonView::Text(ttl@))),
            None => fields,
        },
    )
}

/// A block as the payload holds it. Reasoning cannot be replayed, and a reference has to
/// be put in place before: neither is sent.
pub open spec fn block_payload(block: ContentBlock) -> Option<JsonView> {
    match block {
        ContentBlock::Text { text, cache_control } => {
            let fields = typed("text"@).push(("text"@, JsonView::Text(text@)));
            Some(
                JsonView::Object(
                    match cache_control {
                        Some(mark) => fields.push(("cache_control"@, cache_mark(mark))),
                        None => fields,
                    },
                ),
            )
        },
        ContentBlock::ToolUse { id, name, input } => Some(
            JsonView::Object(
                typed("tool_use"@).push(("id"@, JsonView::Text(id@))).push(
                    ("name"@, JsonView::Text(name@)),
                ).push(("input"@, input.deep_view())),
            ),
        ),
        ContentBlock::ToolResult { tool_use_id, content, is_error } => {
            let fields = typed("tool_result"@).push(
                ("tool_use_id"@, JsonView::Text(tool_use_id@)),
            ).push(("content"@, JsonView::Text(content@)));
            Some(
                JsonView::Object(
                    match is_error {
                        Some(failed) => fields.push(("is_error"@, JsonView::Bool(failed))),
                        None => fields,
                    },
                ),
            )
        },
        ContentBlock::Image { media_type, data } => Some(
            JsonView::Object(
                typed("image"@).push(
                    (
                        "source"@,
                        JsonView::Object(
                            typed("base64"@).push(
                                ("media_type"@, JsonView::Text(media_type@)),
                            ).push(("data"@, JsonView::Text(data@))),
                        ),
                    ),
                ),
            ),
        ),
        ContentBlock::Reasoning { .. } => None,
        ContentBlock::Blob(_) => None,
    }
}

fn typed_fields(kind: &str) -> (r: Vec<(String, Json)>)
    ensures
        r.deep_view() == typed(kind@),
{
    let mut fields = empty_fields();
    put(&mut fields, "type", text(kind));
    fields
}

/// A block as the payload holds it.
pub fn content_block_to_anthropic(block: &ContentBlock) -> (r: Option<Json>)
    ensures
        r.deep_view() == block_payload(*block),
{
    match block {
        ContentBlock::Text { text: said, cache_control } => {
            let mut fields = typed_fields("text");
            put(&mut fields, "text", Json::Text(said.clone()));
            match cache_control {
                Some(mark) => {
                    let mut inner = typed_fields(mark.kind.as_str());
                    match &mark.ttl {
                        Some(ttl) => {
                            put(&mut inner, "ttl", Json::Text(ttl.clone()));
                        },
                        None => {},
                    }
                    put(&mut fields, "cache_control", object(inner));
                },
                None => {},
            }
            Some(object(fields))
        },
        ContentBlock::ToolUse { id, name, input } => {
            let mut fields = typed_fields("tool_use");
            put(&mut fields, "id", Json::Text(id.clone()));
            put(&mut fields, "name", Json::Text(name.clone()));
            put(&mut fields, "input", input.clone());
            Some(object(fields))
        },
        ContentBlock::ToolResult { tool_use_id, content, is_error } => {
            let mut fields = typed_fields("tool_result");
            put(&mut fields, "tool_use_id", Json::Text(tool_use_id.clone()));
            put(&mut fields, "content", Json::Text(content.clone()));
            match is_error {
                Some(failed) => {
                    put(&mut fields, "is_error", Json::Bool(*failed));
                },
                None => {},
            }
            Some(object(fields))
        },
        ContentBlock::Image { media_type, data } => {
            let mut source = typed_fields("base64");
            put(&mut source, "media_type", Json::Text(media_type.clone()));
            put(&mut source, "data", Json::Text(data.clone()));
            let mut fields = typed_fields("image");
            put(&mut fields, "source", object(source));
            Some(object(fields))
        },
        ContentBlock::Reasoning { .. } => None,
        ContentBlock::Blob(_) => None,
    }
}

/// The blocks of a message that are sent.
pub open spec fn sent_blocks(blocks: Seq<ContentBlock>) -> Seq<JsonView>
    decreases blocks.len(),
{
    if blocks.len() == 0 {
        Seq::empty()
    } else {
        match block_payload(blocks.last()) {
            Some(payload) => sent_blocks(blocks.drop_last()).push(payload),
            None => sent_blocks(blocks.drop_last()),
        }
    }
}

/// The name of a role.
pub open spec fn role_name(role: Role) -> Seq<char> {
    match role {
        Role::User => "user"@,
        Role::Assistant => "assistant"@,
    }
}

/// A message as the payload holds it; one of which no block is sent is left out.
pub open spec fn message_payload(message: Message) -> Option<JsonView> {
    let content = sent_blocks(message.content@);
    if content.len() == 0 {
        None
    } else {
        Some(
            JsonView::Object(
                no_fields().push(("role"@, JsonView::Text(role_name(message.role)))).push(
                    ("content"@, JsonView::Array(content)),
                ),
            ),
        )
    }
}

/// A message as the payload holds it.
pub fn message_to_anthropic(msg: &Message) -> (r: Option<Json>)
    ensures
        r.deep_view() == message_payload(*msg),
{
    let mut content: Vec<Json> = Vec::new();
    let mut i: usize = 0;
    assert(content.deep_view() =~= Seq::empty());
    while i < msg.content.len()
        invariant
            i <= msg.content@.len(),
            content.deep_view() == sent_blocks(msg.content@.take(i as int)),
        decreases msg.content@.len() - i,
    {
        assert(msg.content@.take(i + 1).drop_last() =~= msg.content@.take(i as int));
        match content_block_to_anthropic(&msg.content[i]) {
            Some(payload) => {
                push_to(&mut content, payload);
            },
            None => {},
        }
        i = i + 1;
    }
    assert(msg.content@.take(i as int) =~= msg.content@);
    if content.len() == 0 {
        return None;
    }
    let role = match msg.role {
        Role::User => "user",
        Role::Assistant => "assistant",
    };
    let mut fields = empty_fields();
    put(&mut fields, "role", text(role));
    put(&mut fields, "content", array(content));
    Some(object(fields))
}

/// The messages of a conversation that are sent.
pub open spec fn sent_messages(messages: Seq<Message>) -> Seq<JsonView>
    decreases messages.len(),
{
    if messages.len() == 0 {
        Seq::empty()
    } else {
        match message_payload(messages.last()) {
            Some(payload) => sent_messages(messages.drop_last()).push(payload),
            None => sent_messages(messages.drop_last()),
        }
    }
}

/// The messages of a conversation as the payload holds them.
pub fn messages_to_anthropic(messages: &Vec<Message>) -> (r: Vec<Json>)
    ensures
        r.deep_view() == sent_messages(messages@),
{
    let mut out: Vec<Json> = Vec::new();
    let mut i: usize = 0;
    assert(out.deep_view() =~= Seq::empty());
    while i < messages.len()
        invariant
            i <= messages@.len(),
            out.deep_view() == sent_messages(messages@.take(i as int)),
        decreases messages@.len() - i,
    {
        assert(messages@.take(i + 1).drop_last() =~= messages@.take(i as int));
        match message_to_anthropic(&messages[i]) {
            Some(payload) => {
                push_to(&mut out, payload);
            },
            None => {},
        }
        i = i + 1;
    }
    assert(messages@.take(i as int) =~= messages@);
    out
}

/// A tool as the payload describes it.
pub open spec fn tool_payload(tool: ToolDefinition) -> JsonView {
    JsonView::Object(
        no_fields().push(("name"@, JsonView::Text(tool.name@))).push(
            ("description"@, JsonView::Text(tool.description@)),
        ).push(("input_schema"@, tool.input_schema.deep_view())),
    )
}

/// The tools as the payload describes them.
pub open spec fn tool_payloads(tools: Seq<ToolDefinition>) -> Seq<JsonView> {
    tools.map_values(|tool: ToolDefinition| tool_payload(tool))
}

fn make_tools(tools: &Vec<ToolDefinition>) -> (r: Vec<Json>)
    ensures
        r.deep_view() == tool_payloads(tools@),
{
    let mut out: Vec<Json> = Vec::new();
    let mut i: usize = 0;
    while i < tools.len()
        invariant
            i <= tools@.len(),
            out.deep_view() =~= tool_payloads(tools@).take(i as int),
        decreases tools@.len() - i,
    {
        let tool = &tools[i];
        let mut fields = empty_fields();
        put(&mut fields, "name", Json::Text(tool.name.clone()));
        put(&mut fields, "description", Json::Text(tool.description.clone()));
        put(&mut fields, "input_schema", tool.input_schema.clone());
        push_to(&mut out, object(fields));
        i = i + 1;
    }
    assert(tool_payloads(tools@).take(i as int) =~= tool_payloads(tools@));
    out
}

/// The system prompt as the payload holds it: one cached block, or plain text.
pub open spec fn system_payload(system: Seq<char>, cached: bool) -> JsonView {
    if cached {
        JsonView::Array(
            Seq::empty().push(
                JsonView::Object(
                    typed("text"@).push(("text"@, JsonView::Text(system))).push(
                        ("cache_control"@, JsonView::Object(typed("ephemeral"@))),
                    ),
                ),
            ),
        )
    } else {
        JsonView::Text(system)
    }
}

/// The payload of a request.
pub open spec fn request_payload(
    cfg: AnthropicConfig,
    messages: Seq<Message>,
    tools: Seq<ToolDefinition>,
    system: Seq<char>,
) -> JsonView {
    let fields = no_fields().push(("model"@, JsonView::Text(cfg.model@))).push(
        ("max_tokens"@, JsonView::Number(NumberView::Unsigned(cfg.max_tokens as u64))),
    ).push(("messages"@, JsonView::Array(sent_messages(messages)))).push(
        ("stream"@, JsonView::Bool(true)),
    );
    let fields = if trim(system).len() == 0 {
        fields
    } else {
        fields.push(("system"@, system_payload(system, cfg.cache_system_prompt)))
    };
    let fields = if tools.len() == 0 {
        fields
    } else {
        fields.push(("tools"@, JsonView::Array(tool_payloads(tools))))
    };
    let fields = match cfg.thinking_budget_tokens {
        Some(budget) => fields.push(
            (
                "thinking"@,
                JsonView::Object(
                    typed("enabled"@).push(
                        (
                            "budget_tokens"@,
                            JsonView::Number(NumberView::Unsigned(budget as u64)),
                        ),
                    ),
                ),
            ),
        ),
        None => fields,
    };
    JsonView::Object(fields)
}

/// Anthropic Messages API provider.
#[derive(Debug)]
pub struct AnthropicProvider {
    config: AnthropicConfig,
    models: Vec<&'static str>,
}

impl View for AnthropicProvider {
    type V = AnthropicConfig;

    closed spec fn view(&self) -> AnthropicConfig {
        self.config
    }
}

impl AnthropicProvider {
    /// The models known to the provider.
    pub closed spec fn known_models(&self) -> Seq<Seq<char>> {
        self.models.deep_view()
    }

    /// A provider with the given configuration, which knows the given models. None is built
    /// in.
    pub fn new(config: AnthropicConfig, models: Vec<&'static str>) -> (r: AnthropicProvider)
        ensures
            r@ == config,
            r.known_models() == models.deep_view(),
    {
        AnthropicProvider { config, models }
    }

    /// A copy of the present configuration.
    pub fn snapshot_config(&self) -> (r: AnthropicConfig)
        ensures
            r == self@,
    {
        self.config.clone()
    }

    /// The payload of a request.
    pub fn build_payload(
        &self,
        cfg: &AnthropicConfig,
        messages: &Vec<Message>,
        tools: &Vec<ToolDefinition>,
        system: &str,
    ) -> (r: Json)
        ensures
            r.deep_view() == request_payload(*cfg, messages@, tools@, system@),
    {
        let mut fields = empty_fields();
        put(&mut fields, "model", Json::Text(cfg.model.clone()));
        put(&mut fields, "max_tokens", number(cfg.max_tokens as u64));
        put(&mut fields, "messages", array(messages_to_anthropic(messages)));
        put(&mut fields, "stream", Json::Bool(true));
        if !trimmed(system).as_str().is_empty() {
            if cfg.cache_system_prompt {
                let mut block = typed_fields("text");
                put(&mut block, "text", text(system));
                put(&mut block, "cache_control", object(typed_fields("ephemeral")));
                let mut blocks: Vec<Json> = Vec::new();
                assert(blocks.deep_view() =~= Seq::empty());
                push_to(&mut blocks, object(block));
                put(&mut fields, "system", array(blocks));
            } else {
                put(&mut fields, "system", text(system));
            }
        }
        if tools.len() > 0 {
            put(&mut fields, "tools", array(make_tools(tools)));
        }
        match cfg.thinking_budget_tokens {
            Some(budget) => {
                let mut thinking = typed_fields("enabled");
                put(&mut thinking, "budget_tokens", number(budget as u64));
                put(&mut fields, "thinking", object(thinking));
            },
            None => {},
        }
        object(fields)
    }

    /// The request for a completion.
    pub fn request(
        &self,
        messages: &Vec<Message>,
        tools: &Vec<ToolDefinition>,
        system: &str,
    ) -> (r: HttpRequest)
        ensures
            r.deep_view() == (HttpRequestView {
                url: messages_endpoint(self@.base_url@),
                headers: stream_headers().push(("x-api-key"@, self@.api_key@)).push(
                    ("anthropic-version"@, self@.api_version@),
                ),
                body: request_payload(self@, messages@, tools@, system@),
            }),
    {
        let cfg = self.snapshot_config();
        let body = self.build_payload(&cfg, messages, tools, system);
        let mut headers = make_stream_headers();
        add_header(&mut headers, "x-api-key", cfg.api_key.as_str());
        add_header(&mut headers, "anthropic-version", cfg.api_version.as_str());
        HttpRequest { url: messages_url(&cfg), headers, body }
    }

    /// The name of the provider.
    pub fn name(&self) -> (r: &'static str)
        ensures
            r@ == "anthropic"@,
    {
        "anthropic"
    }

    /// The present model.
    pub fn model(&self) -> (r: String)
        ensures
            r@ == self@.model@,
    {
        self.config.model.clone()
    }

    /// Whether the provider takes images.
    pub fn supports_image_input(&self) -> (r: bool)
        ensures
            r,
    {
        true
    }

    /// The models known to the provider.
    pub fn available_models(&self) -> (r: Vec<&'static str>)
        ensures
            r.deep_view() == self.known_models(),
    {
        let mut models: Vec<&'static str> = Vec::new();
        let mut i: usize = 0;
        let ghost all = self.models.deep_view();
        assert(models.deep_view() =~= all.take(0));
        while i < self.models.len()
            invariant
                i <= self.models@.len(),
                all == self.models.deep_view(),
                models.deep_view() == all.take(i as int),
            decreases self.models@.len() - i,
        {
            push_to(&mut models, self.models[i]);
            assert(models.deep_view() =~= all.take(i + 1));
            i = i + 1;
        }
        assert(all.take(i as int) =~= all);
        models
    }

    /// Switches to another model.
    pub fn set_model(&mut self, model: &str) -> (r: Result<(), ProviderError>)
        ensures
            r is Ok,
            final(self).known_models() == old(self).known_models(),
            final(self)@.model@ == model@,
            final(self)@ == (AnthropicConfig { model: final(self)@.model, ..old(self)@ }),
    {
        self.config.model = model.to_owned();
        Ok(())
    }

    /// A provider of its own with the same configuration and models.
    pub fn fork(&self) -> (r: AnthropicProvider)
        ensures
            r@ == self@,
            r.known_models() == self.known_models(),
    {
        AnthropicProvider { config: self.config.clone(), models: self.available_models() }
    }
}

/// The URL of the messages endpoint.
pub open spec fn messages_endpoint(base_url: Seq<char>) -> Seq<char> {
    trim_end_char(base_url, '/') + "/v1/messages"@
}

/// The URL of the messages endpoint.
pub fn messages_url(cfg: &AnthropicConfig) -> (r: String)
    ensures
        r@ == messages_endpoint(cfg.base_url@),
{
    let mut out = trimmed_end_char(cfg.base_url.as_str(), '/');
    out.append("/v1/messages");
    out
}

/// What an open block is.
#[derive(Debug, Clone, Copy, PartialEq, Eq, Structural)]
pub enum BlockKind {
    Text,
    ToolUse,
    Thinking,
}

/// The model of the stream's state: the kind of each open block by its index, and the
/// stop reason not yet reported.
pub ghost struct SseView {
    pub open_blocks: Map<u64, BlockKind>,
    pub last_stop_reason: Option<Seq<char>>,
}

/// What comes of an event: the state after it and what it puts out.
pub ghost struct SseOutcome {
    pub after: SseView,
    pub events: Seq<EventView>,
}

/// The usage that an event reports.
pub open spec fn usage_view(usage: JsonView) -> EventView {
    EventView::TokenUsage {
        input_tokens: usage.at("input_tokens"@).unsigned(),
        output_tokens: usage.at("output_tokens"@).unsigned(),
        cache_read_input_tokens: usage.at("cache_read_input_tokens"@).unsigned(),
        cache_creation_input_tokens: usage.at("cache_creation_input_tokens"@).unsigned(),
    }
}

/// The usage that an event reports.
pub fn usage_event(usage: &Json) -> (r: StreamEvent)
    ensures
        r.deep_view() == usage_view(usage.deep_view()),
{
    StreamEvent::TokenUsage {
        input_tokens: usage.unsigned_at("input_tokens"),
        output_tokens: usage.unsigned_at("output_tokens"),
        cache_read_input_tokens: usage.unsigned_at("cache_read_input_tokens"),
        cache_creation_input_tokens: usage.unsigned_at("cache_creation_input_tokens"),
    }
}

/// A text, or nothing said.
pub open spec fn or_empty(t: Option<Seq<char>>) -> Seq<char> {
    match t {
        Some(t) => t,
        None => Seq::empty(),
    }
}

/// The index that an event is about.
pub open spec fn block_index(data: JsonView) -> u64 {
    match data.at("index"@).unsigned() {
        Some(n) => n,
        None => 0,
    }
}

/// What the start of a message puts out: its id as the session, and its usage.
pub open spec fn message_start(data: JsonView) -> Seq<EventView> {
    match data.get("message"@) {
        Some(message) => {
            let events = match message.at("id"@).text() {
                Some(id) => Seq::empty().push(EventView::SessionId(id)),
                None => Seq::empty(),
            };
            match message.get("usage"@) {
                Some(usage) => events.push(usage_view(usage)),
                None => events,
            }
        },
        None => Seq::empty(),
    }
}

/// What comes of the start of a block.
pub open spec fn block_start(state: SseView, data: JsonView) -> SseOutcome {
    let index = block_index(data);
    let silent = SseOutcome { after: state, events: Seq::empty() };
    match data.get("content_block"@) {
        Some(block) => {
            let kind = block.at("type"@).text();
            if kind == Some("text"@) {
                SseOutcome {
                    after: SseView {
                        open_blocks: state.open_blocks.insert(index, BlockKind::Text),
                        ..state
                    },
                    events: Seq::empty(),
                }
            } else if kind == Some("tool_use"@) {
                SseOutcome {
                    after: SseView {
                        open_blocks: state.open_blocks.insert(index, BlockKind::ToolUse),
                        ..state
                    },
                    events: Seq::empty().push(
                        EventView::ToolUseStart {
                            id: or_empty(block.at("id"@).text()),
                            name: or_empty(block.at("name"@).text()),
                        },
                    ),
                }
            } else if kind == Some("thinking"@) {
                SseOutcome {
                    after: SseView {
                        open_blocks: state.open_blocks.insert(index, BlockKind::Thinking),
                        ..state
                    },
                    events: Seq::empty().push(EventView::ThinkingStart),
                }
            } else {
                silent
            }
        },
        None => silent,
    }
}

/// What a delta of a block puts out.
pub open spec fn block_delta(data: JsonView) -> Seq<EventView> {
    match data.get("delta"@) {
        Some(delta) => {
            let kind = delta.at("type"@).text();
            if kind == Some("text_delta"@) {
                match delta.at("text"@).text() {
                    Some(t) => Seq::empty().push(EventView::TextDelta(t)),
                    None => Seq::empty(),
                }
            } else if kind == Some("input_json_delta"@) {
                match delta.at("partial_json"@).text() {
                    Some(t) => Seq::empty().push(EventView::ToolInputDelta(t)),
                    None => Seq::empty(),
                }
            } else if kind == Some("thinking_delta"@) {
                match delta.at("thinking"@).text() {
                    Some(t) => Seq::empty().push(EventView::ThinkingDelta(t)),
                    None => Seq::empty(),
                }
            } else {
                Seq::empty()
            }
        },
        None => Seq::empty(),
    }
}

/// What comes of the end of a block: the end that fits the kind it was opened as.
pub open spec fn block_stop(state: SseView, data: JsonView) -> SseOutcome {
    let index = block_index(data);
    SseOutcome {
        after: SseView { open_blocks: state.open_blocks.remove(index), ..state },
        events: if state.open_blocks.dom().contains(index) {
            match state.open_blocks[index] {
                BlockKind::ToolUse => Seq::empty().push(EventView::ToolUseEnd),
                BlockKind::Thinking => Seq::empty().push(EventView::ThinkingEnd),
                BlockKind::Text => Seq::empty(),
            }
        } else {
            Seq::empty()
        },
    }
}

/// What comes of a delta of the message.
pub open spec fn message_delta(state: SseView, data: JsonView) -> SseOutcome {
    SseOutcome {
        after: match data.at("delta"@).at("stop_reason"@).text() {
            Some(reason) => SseView { last_stop_reason: Some(reason), ..state },
            None => state,
        },
        events: match data.get("usage"@) {
            Some(usage) => Seq::empty().push(usage_view(usage)),
            None => Seq::empty(),
        },
    }
}

/// What an error event says.
pub open spec fn error_text(data: JsonView) -> Seq<char> {
    match data.at("error"@).at("message"@).text() {
        Some(message) => message,
        None => "unknown anthropic error"@,
    }
}

/// What comes of an event whose data was read.
pub open spec fn event_outcome(state: SseView, event: Seq<char>, data: JsonView) -> SseOutcome {
    if event == "message_start"@ {
        SseOutcome { after: state, events: message_start(data) }
    } else if event == "content_block_start"@ {
        block_start(state, data)
    } else if event == "content_block_delta"@ {
        SseOutcome { after: state, events: block_delta(data) }
    } else if event == "content_block_stop"@ {
        block_stop(state, data)
    } else if event == "message_delta"@ {
        message_delta(state, data)
    } else if event == "message_stop"@ {
        SseOutcome {
            after: SseView { last_stop_reason: None, ..state },
            events: Seq::empty().push(
                EventView::MessageEnd { stop_reason: state.last_stop_reason },
            ),
        }
    } else if event == "error"@ {
        SseOutcome {
            after: state,
            events: Seq::empty().push(
                EventView::Error { message: error_text(data), retry_after_secs: None },
            ),
        }
    } else {
        SseOutcome { after: state, events: Seq::empty() }
    }
}

/// What comes of an event, its data read as `read` says: nothing where it cannot be read.
pub open spec fn sse_outcome(
    state: SseView,
    event: Seq<char>,
    read: Result<JsonView, Seq<char>>,
) -> SseOutcome {
    match read {
        Ok(data) => event_outcome(state, event, data),
        Err(_) => SseOutcome { after: state, events: Seq::empty() },
    }
}

/// What follows when something comes on the stream, with the data as it was read: an event
/// is handled, the end ends the completion, and so does a stream that is broken.
pub open spec fn stream_step(
    state: SseView,
    input: InputView,
    read: Result<JsonView, Seq<char>>,
) -> (SseView, StepView) {
    match input {
        InputView::Broken(error) => (state, failing(stream_error(error))),
        InputView::Ended => (state, closing(Seq::empty())),
        InputView::Event { event, data } => {
            let outcome = sse_outcome(state, event, read);
            (outcome.after, going_on(outcome.events))
        },
    }
}

/// The JSON that the data of an event spells, as it is read.
pub open spec fn data_read(input: InputView) -> Result<JsonView, Seq<char>> {
    match input {
        InputView::Event { event, data } => json_read(data),
        _ => Err(Seq::empty()),
    }
}

/// The state of an event stream.
#[derive(Debug)]
pub struct SseState {
    open_blocks: HashMap<u64, BlockKind>,
    last_stop_reason: Option<String>,
}

impl View for SseState {
    type V = SseView;

    closed spec fn view(&self) -> SseView {
        SseView {
            open_blocks: self.open_blocks@,
            last_stop_reason: self.last_stop_reason.deep_view(),
        }
    }
}

impl Default for SseState {
    fn default() -> (r: SseState)
        ensures
            r@ == (SseView { open_blocks: Map::empty(), last_stop_reason: None }),
    {
        SseState { open_blocks: HashMap::new(), last_stop_reason: None }
    }
}

impl SseState {
    fn start_block(&mut self, parsed: &Json, out: &mut Vec<StreamEvent>)
        requires
            old(out).deep_view() == Seq::<EventView>::empty(),
        ensures
            (SseOutcome { after: final(self)@, events: final(out).deep_view() }) == block_start(
                old(self)@,
                parsed.deep_view(),
            ),
    {
        let index: u64 = match parsed.unsigned_at("index") {
            Some(n) => n,
            None => 0,
        };
        match parsed.get("content_block") {
            Some(block) => match block.text_at("type") {
                Some(kind) => {
                    if same(kind.as_str(), "text") {
                        self.open_blocks.insert(index, BlockKind::Text);
                    } else if same(kind.as_str(), "tool_use") {
                        self.open_blocks.insert(index, BlockKind::ToolUse);
                        let id = match block.text_at("id") {
                            Some(id) => id.clone(),
                            None => String::new(),
                        };
                        let name = match block.text_at("name") {
                            Some(name) => name.clone(),
                            None => String::new(),
                        };
                        push_to(out, StreamEvent::ToolUseStart { id, name });
                    } else if same(kind.as_str(), "thinking") {
                        self.open_blocks.insert(index, BlockKind::Thinking);
                        push_to(out, StreamEvent::ThinkingStart);
                    }
                },
                None => {},
            },
            None => {},
        }
    }

    fn delta(&self, parsed: &Json, out: &mut Vec<StreamEvent>)
        requires
            old(out).deep_view() == Seq::<EventView>::empty(),
        ensures
            final(out).deep_view() == block_delta(parsed.deep_view()),
    {
        match parsed.get("delta") {
            Some(delta) => match delta.text_at("type") {
                Some(kind) => {
                    if same(kind.as_str(), "text_delta") {
                        match delta.text_at("text") {
                            Some(t) => {
                                push_to(out, StreamEvent::TextDelta(t.clone()));
                            },
                            None => {},
                        }
                    } else if same(kind.as_str(), "input_json_delta") {
                        match delta.text_at("partial_json") {
                            Some(t) => {
                                push_to(out, StreamEvent::ToolInputDelta(t.clone()));
                            },
                            None => {},
                        }
                    } else if same(kind.as_str(), "thinking_delta") {
                        match delta.text_at("thinking") {
                            Some(t) => {
                                push_to(out, StreamEvent::ThinkingDelta(t.clone()));
                            },
                            None => {},
                        }
                    }
                },
                None => {},
            },
            None => {},
        }
    }

    fn stop_block(&mut self, parsed: &Json, out: &mut Vec<StreamEvent>)
        requires
            old(out).deep_view() == Seq::<EventView>::empty(),
        ensures
            (SseOutcome { after: final(self)@, events: final(out).deep_view() }) == block_stop(
                old(self)@,
                parsed.deep_view(),
            ),
    {
        let index: u64 = match parsed.unsigned_at("index") {
            Some(n) => n,
            None => 0,
        };
        match self.open_blocks.remove(&index) {
            Some(BlockKind::ToolUse) => {
                push_to(out, StreamEvent::ToolUseEnd);
            },
            Some(BlockKind::Thinking) => {
                push_to(out, StreamEvent::ThinkingEnd);
            },
            Some(BlockKind::Text) => {},
            None => {},
        }
    }

    /// Takes an event whose data was read, and hands out what it comes to: nothing, or at
    /// least one event.
    pub fn handle_parsed(&mut self, event: &str, parsed: &Json) -> (r: Option<Vec<StreamEvent>>)
        ensures
            final(self)@ == event_outcome(old(self)@, event@, parsed.deep_view()).after,
            ({
                let events = event_outcome(old(self)@, event@, parsed.deep_view()).events;
                r.deep_view() == if events.len() == 0 {
                    None
                } else {
                    Some(events)
                }
            }),
    {
        let mut out: Vec<StreamEvent> = Vec::new();
        assert(out.deep_view() =~= Seq::empty());
        if same(event, "message_start") {
            match parsed.get("message") {
                Some(message) => {
                    match message.text_at("id") {
                        Some(id) => {
                            push_to(&mut out, StreamEvent::SessionId(id.clone()));
                        },
                        None => {},
                    }
                    match message.get("usage") {
                        Some(usage) => {
                            push_to(&mut out, usage_event(usage));
                        },
                        None => {},
                    }
                },
                None => {},
            }
        } else if same(event, "content_block_start") {
            self.start_block(parsed, &mut out);
        } else if same(event, "content_block_delta") {
            self.delta(parsed, &mut out);
        } else if same(event, "content_block_stop") {
            self.stop_block(parsed, &mut out);
        } else if same(event, "message_delta") {
            match parsed.get("delta") {
                Some(delta) => match delta.text_at("stop_reason") {
                    Some(reason) => {
                        self.last_stop_reason = Some(reason.clone());
                    },
                    None => {},
                },
                None => {},
            }
            match parsed.get("usage") {
                Some(usage) => {
                    push_to(&mut out, usage_event(usage));
                },
                None => {},
            }
        } else if same(event, "message_stop") {
            let stop_reason = self.last_stop_reason.take();
            push_to(&mut out, StreamEvent::MessageEnd { stop_reason });
        } else if same(event, "error") {
            let message = match parsed.get("error") {
                Some(error) => match error.text_at("message") {
                    Some(message) => message.clone(),
                    None => "unknown anthropic error".to_owned(),
                },
                None => "unknown anthropic error".to_owned(),
            };
            push_to(&mut out, StreamEvent::Error { message, retry_after_secs: None });
        }
        if out.len() == 0 {
            None
        } else {
            Some(out)
        }
    }

    /// Takes an event of the stream, and hands out what it comes to.
    pub fn handle(&mut self, event: &str, data: &str) -> (r: Option<Vec<StreamEvent>>)
        ensures
            final(self)@ == sse_outcome(old(self)@, event@, json_read(data@)).after,
            ({
                let events = sse_outcome(old(self)@, event@, json_read(data@)).events;
                r.deep_view() == if events.len() == 0 {
                    None
                } else {
                    Some(events)
                }
            }),
    {
        match Json::parse(data) {
            Ok(parsed) => self.handle_parsed(event, &parsed),
            Err(_) => None,
        }
    }

    /// Takes what comes next on the stream, and says what to hand on.
    pub fn step(&mut self, input: StreamInput) -> (r: StreamStep)
        ensures
            (final(self)@, r.deep_view()) == stream_step(
                old(self)@,
                input.deep_view(),
                data_read(input.deep_view()),
            ),
    {
        match input {
            StreamInput::Broken(error) => fail(sse_decode_error(error.as_str())),
            StreamInput::Ended => {
                let none: Vec<StreamEvent> = Vec::new();
                assert(none.deep_view() =~= Seq::empty());
                close(none)
            },
            StreamInput::Event { event, data } => match self.handle(
                event.as_str(),
                data.as_str(),
            ) {
                Some(events) => go_on(events),
                None => {
                    proof {
                        let outcome = sse_outcome(old(self)@, event@, json_read(data@));
                        assert(outcome.events =~= Seq::empty());
                    }
                    pass()
                },
            },
        }
    }
}

/// Public payload struct for callers that want to introspect requests.
#[derive(Debug)]
pub struct AnthropicMessage {
    pub role: String,
    pub content: Json,
}

/// A tool use or a stretch of thinking that was started is ended by the stop of its
/// index with the end that fits it, and ended once: a second stop says nothing.
pub proof fn started_blocks_are_ended(state: SseView, start: JsonView, stop: JsonView)
    requires
        start.get("content_block"@) is Some,
        block_index(start) == block_index(stop),
    ensures
        ({
            let kind = start.at("content_block"@).at("type"@).text();
            let opened = block_start(state, start).after;
            let closed = block_stop(opened, stop);
            &&& kind == Some("tool_use"@) ==> closed.events == Seq::empty().push(
                EventView::ToolUseEnd,
            )
            &&& kind == Some("thinking"@) ==> closed.events == Seq::empty().push(
                EventView::ThinkingEnd,
            )
            &&& kind == Some("text"@) ==> closed.events == Seq::<EventView>::empty()
            &&& block_stop(closed.after, stop).events == Seq::<EventView>::empty()
        }),
{
    reveal_strlit("text");
    reveal_strlit("tool_use");
    reveal_strlit("thinking");
    assert("text"@.len() != "tool_use"@.len());
    assert("text"@.len() != "thinking"@.len());
    assert("tool_use"@[1] != "thinking"@[1]);
}

/// A stop reason is reported by the next end of a message, and by no later one.
pub proof fn stop_reasons_are_reported_once(state: SseView, delta: JsonView, stop: JsonView)
    ensures
        ({
            let told = event_outcome(state, "message_delta"@, delta).after;
            let first = event_outcome(told, "message_stop"@, stop);
            let second = event_outcome(first.after, "message_stop"@, stop);
            &&& delta.at("delta"@).at("stop_reason"@).text() matches Some(reason)
                ==> first.events == Seq::empty().push(
                EventView::MessageEnd { stop_reason: Some(reason) },
            )
            &&& second.events == Seq::empty().push(EventView::MessageEnd { stop_reason: None })
        }),
{
    reveal_strlit("message_start");
    reveal_strlit("content_block_start");
    reveal_strlit("content_block_delta");
    reveal_strlit("content_block_stop");
    reveal_strlit("message_delta");
    reveal_strlit("message_stop");
    assert("message_stop"@.len() != "message_start"@.len());
    assert("message_stop"@.len() != "message_delta"@.len());
    assert("message_delta"@[8] != "message_start"@[8]);
}

} // verus!
