//! The Gemini API: request payloads and the state of its stream.
//!
//! Roles are `user` and `model`, tool calls and their results are parts of a message's
//! content, and the system prompt stands beside the messages.
use vstd::prelude::*;

use crate::json::{
    Json, JsonView, NumberView, array, empty_fields, json_read, no_fields, number, object, printed,
    put, text,
};
use crate::message::{ContentBlock, EventView, Message, Role, StreamEvent, ToolDefinition};
use crate::provider_core::{
    CHUNK_MISMATCH, HttpRequest, HttpRequestView, InputView, ProviderError, StepView, StreamInput,
    StreamStep, close, closing, complain, complaint, fail, failing, go_on, going_on,
    make_stream_headers, pass, sse_decode_error, stream_error, stream_headers,
};
use crate::text::{labelled, push_to, same, trim, trim_end_char, trimmed, trimmed_end_char};

verus! {

pub const DEFAULT_BASE_URL: &'static str = "https://generativelanguage.googleapis.com";

pub const DEFAULT_API_VERSION: &'static str = "v1beta";

pub const DEFAULT_MODEL: &'static str = "gemini-2.5-flash";

pub const DEFAULT_MAX_OUTPUT_TOKENS: u32 = 8192;

/// A message's content on the wire.
#[derive(Debug)]
pub struct GeminiContent {
    pub role: String,
    pub parts: Vec<GeminiPart>,
}

/// A part of a message's content.
#[derive(Debug)]
pub struct GeminiPart {
    pub text: Option<String>,
    pub inline_data: Option<InlineData>,
    pub function_call: Option<GeminiFunctionCall>,
    pub function_response: Option<GeminiFunctionResponse>,
}

/// Data that stands in a part.
#[derive(Debug)]
pub struct InlineData {
    pub mime_type: String,
    pub data: String,
}

/// A tool call.
#[derive(Debug)]
pub struct GeminiFunctionCall {
    pub name: String,
    pub args: Json,
    pub id: Option<String>,
}

/// The result of a tool call.
#[derive(Debug)]
pub struct GeminiFunctionResponse {
    pub name: String,
    pub response: Json,
    pub id: Option<String>,
}

/// The tools that a model may call.
#[derive(Debug)]
pub struct GeminiTool {
    pub function_declarations: Vec<GeminiFunctionDeclaration>,
}

/// A tool that a model may call.
#[derive(Debug)]
pub struct GeminiFunctionDeclaration {
    pub name: String,
    pub description: String,
    pub parameters: Json,
}

/// Token counts.
#[derive(Debug)]
pub struct GeminiUsageMetadata {
    pub prompt_token_count: Option<u64>,
    pub candidates_token_count: Option<u64>,
    pub cached_content_token_count: Option<u64>,
    pub total_token_count: Option<u64>,
}

/// One of the answers in a chunk.
#[derive(Debug)]
pub struct GeminiCandidate {
    pub content: Option<GeminiContent>,
    pub finish_reason: Option<String>,
}

/// A chunk of the stream.
#[derive(Debug)]
pub struct GeminiStreamChunk {
    pub candidates: Option<Vec<GeminiCandidate>>,
    pub usage_metadata: Option<GeminiUsageMetadata>,
    pub response_id: Option<String>,
}

/// Configuration for the Gemini provider.
#[derive(Debug)]
pub struct GeminiConfig {
    pub api_key: String,
    pub model: String,
    pub base_url: String,
    pub api_version: String,
    pub max_output_tokens: u32,
    /// When set, the payload gives a budget for thinking.
    pub thinking_budget_tokens: Option<u32>,
}

impl Clone for GeminiConfig {
    fn clone(&self) -> (r: GeminiConfig)
        ensures
            r == *self,
    {
        GeminiConfig {
            api_key: self.api_key.clone(),
            model: self.model.clone(),
            base_url: self.base_url.clone(),
            api_version: self.api_version.clone(),
            max_output_tokens: self.max_output_tokens,
            thinking_budget_tokens: self.thinking_budget_tokens,
        }
    }
}

impl GeminiConfig {
    /// The defaults with the given key.
    pub fn new(api_key: String) -> (r: GeminiConfig)
        ensures
            r.api_key@ == api_key@,
            r.model@ == DEFAULT_MODEL@,
            r.base_url@ == DEFAULT_BASE_URL@,
            r.api_version@ == DEFAULT_API_VERSION@,
            r.max_output_tokens == DEFAULT_MAX_OUTPUT_TOKENS,
            r.thinking_budget_tokens is None,
    {
        GeminiConfig {
            api_key,
            model: DEFAULT_MODEL.to_owned(),
            base_url: DEFAULT_BASE_URL.to_owned(),
            api_version: DEFAULT_API_VERSION.to_owned(),
            max_output_tokens: DEFAULT_MAX_OUTPUT_TOKENS,
            thinking_budget_tokens: None,
        }
    }

    /// The configuration with another model.
    pub fn with_model(self, model: String) -> (r: GeminiConfig)
        ensures
            r == (GeminiConfig { model, ..self }),
    {
        GeminiConfig { model, ..self }
    }

    /// The configuration with another limit on tokens.
    pub fn with_max_output_tokens(self, tokens: u32) -> (r: GeminiConfig)
        ensures
            r == (GeminiConfig { max_output_tokens: tokens, ..self }),
    {
        GeminiConfig { max_output_tokens: tokens, ..self }
    }

    /// The configuration with a budget for thinking.
    pub fn with_thinking_budget(self, tokens: u32) -> (r: GeminiConfig)
        ensures
            r == (GeminiConfig { thinking_budget_tokens: Some(tokens), ..self }),
    {
        GeminiConfig { thinking_budget_tokens: Some(tokens), ..self }
    }
}

/// An object of one entry.
pub open spec fn single(key: Seq<char>, value: JsonView) -> JsonView {
    JsonView::Object(no_fields().push((key, value)))
}

fn make_single(key: &str, value: Json) -> (r: Json)
    ensures
        r.deep_view() == single(key@, value.deep_view()),
{
    let mut fields = empty_fields();
    put(&mut fields, key, value);
    object(fields)
}

/// A block as a part of the payload. Reasoning is not replayed, and a reference has to be
/// put in place before: neither is sent.
pub open spec fn block_part(block: ContentBlock) -> Option<JsonView> {
    match block {
        ContentBlock::Text { text, .. } => Some(single("text"@, JsonView::Text(text@))),
        ContentBlock::ToolUse { id, name, input } => Some(
            single(
                "functionCall"@,
                JsonView::Object(
                    no_fields().push(("name"@, JsonView::Text(name@))).push(
                        ("args"@, input.deep_view()),
                    ).push(("id"@, JsonView::Text(id@))),
                ),
            ),
        ),
        ContentBlock::ToolResult { tool_use_id, content, is_error } => {
            let said = no_fields().push(("content"@, JsonView::Text(content@)));
            let response = if is_error == Some(true) {
                said.push(("error"@, JsonView::Bool(true)))
            } else {
                said
            };
            Some(
                single(
                    "functionResponse"@,
                    JsonView::Object(
                        no_fields().push(("name"@, JsonView::Text(tool_use_id@))).push(
                            ("response"@, JsonView::Object(response)),
                        ).push(("id"@, JsonView::Text(tool_use_id@))),
                    ),
                ),
            )
        },
        ContentBlock::Image { media_type, data } => Some(
            single(
                "inlineData"@,
                JsonView::Object(
                    no_fields().push(("mimeType"@, JsonView::Text(media_type@))).push(
                        ("data"@, JsonView::Text(data@)),
                    ),
                ),
            ),
        ),
        ContentBlock::Reasoning { .. } => None,
        ContentBlock::Blob(_) => None,
    }
}

/// A block as a part of the payload.
pub fn content_block_to_part(block: &ContentBlock) -> (r: Option<Json>)
    ensures
        r.deep_view() == block_part(*block),
{
    match block {
        ContentBlock::Text { text: said, .. } => Some(make_single("text", Json::Text(said.clone()))),
        ContentBlock::ToolUse { id, name, input } => {
            let mut call = empty_fields();
            put(&mut call, "name", Json::Text(name.clone()));
            put(&mut call, "args", input.clone());
            put(&mut call, "id", Json::Text(id.clone()));
            Some(make_single("functionCall", object(call)))
        },
        ContentBlock::ToolResult { tool_use_id, content, is_error } => {
            let mut response = empty_fields();
            put(&mut response, "content", Json::Text(content.clone()));
            match is_error {
                Some(true) => {
                    put(&mut response, "error", Json::Bool(true));
                },
                _ => {},
            }
            let mut fields = empty_fields();
            put(&mut fields, "name", Json::Text(tool_use_id.clone()));
            put(&mut fields, "response", object(response));
            put(&mut fields, "id", Json::Text(tool_use_id.clone()));
            Some(make_single("functionResponse", object(fields)))
        },
        ContentBlock::Image { media_type, data } => {
            let mut inline = empty_fields();
            put(&mut inline, "mimeType", Json::Text(media_type.clone()));
            put(&mut inline, "data", Json::Text(data.clone()));
            Some(make_single("inlineData", object(inline)))
        },
        ContentBlock::Reasoning { .. } => None,
        ContentBlock::Blob(_) => None,
    }
}

/// The parts of a message that are sent.
pub open spec fn sent_parts(blocks: Seq<ContentBlock>) -> Seq<JsonView>
    decreases blocks.len(),
{
    if blocks.len() == 0 {
        Seq::empty()
    } else {
        match block_part(blocks.last()) {
            Some(part) => sent_parts(blocks.drop_last()).push(part),
            None => sent_parts(blocks.drop_last()),
        }
    }
}

/// A message as the payload holds it; one of which no part is sent is left out.
pub open spec fn message_payload(message: Message) -> Option<JsonView> {
    let parts = sent_parts(message.content@);
    if parts.len() == 0 {
        None
    } else {
        Some(
            JsonView::Object(
                no_fields().push(
                    (
                        "role"@,
                        JsonView::Text(
                            match message.role {
                                Role::User => "user"@,
                                Role::Assistant => "model"@,
                            },
                        ),
                    ),
                ).push(("parts"@, JsonView::Array(parts))),
            ),
        )
    }
}

/// A message as the payload holds it.
pub fn message_to_gemini(msg: &Message) -> (r: Option<Json>)
    ensures
        r.deep_view() == message_payload(*msg),
{
    let mut parts: Vec<Json> = Vec::new();
    let mut i: usize = 0;
    assert(parts.deep_view() =~= Seq::empty());
    while i < msg.content.len()
        invariant
            i <= msg.content@.len(),
            parts.deep_view() == sent_parts(msg.content@.take(i as int)),
        decreases msg.content@.len() - i,
    {
        assert(msg.content@.take(i + 1).drop_last() =~= msg.content@.take(i as int));
        match content_block_to_part(&msg.content[i]) {
            Some(part) => {
                push_to(&mut parts, part);
            },
            None => {},
        }
        i = i + 1;
    }
    assert(msg.content@.take(i as int) =~= msg.content@);
    if parts.len() == 0 {
        return None;
    }
    let role = match msg.role {
        Role::User => "user",
        Role::Assistant => "model",
    };
    let mut fields = empty_fields();
    put(&mut fields, "role", text(role));
    put(&mut fields, "parts", array(parts));
    Some(object(fields))
}

/// The messages of a conversation that are sent.
pub open spec fn sent_messages(messages: Seq<Message>) -> Seq<JsonView>
    decreases messages.len(),
{
    if messages.len() == 0 {
        Seq::empty()
    } else {
        match message_payload(messages.last()) {
            Some(payload) => sent_messages(messages.drop_last()).push(payload),
            None => sent_messages(messages.drop_last()),
        }
    }
}

/// The messages of a conversation as the payload holds them.
pub fn messages_to_gemini(messages: &Vec<Message>) -> (r: Vec<Json>)
    ensures
        r.deep_view() == sent_messages(messages@),
{
    let mut out: Vec<Json> = Vec::new();
    let mut i: usize = 0;
    assert(out.deep_view() =~= Seq::empty());
    while i < messages.len()
        invariant
            i <= messages@.len(),
            out.deep_view() == sent_messages(messages@.take(i as int)),
        decreases messages@.len() - i,
    {
        assert(messages@.take(i + 1).drop_last() =~= messages@.take(i as int));
        match message_to_gemini(&messages[i]) {
            Some(payload) => {
                push_to(&mut out, payload);
            },
            None => {},
        }
        i = i + 1;
    }
    assert(messages@.take(i as int) =~= messages@);
    out
}

/// A tool as the payload describes it.
pub open spec fn tool_payload(tool: ToolDefinition) -> JsonView {
    JsonView::Object(
        no_fields().push(("name"@, JsonView::Text(tool.name@))).push(
            ("description"@, JsonView::Text(tool.description@)),
        ).push(("parameters"@, tool.input_schema.deep_view())),
    )
}

/// The tools as the payload describes them.
pub open spec fn tool_payloads(tools: Seq<ToolDefinition>) -> Seq<JsonView> {
    tools.map_values(|tool: ToolDefinition| tool_payload(tool))
}

/// The limits of a generation.
pub open spec fn generation_config(cfg: GeminiConfig) -> JsonView {
    let fields = no_fields().push(
        (
            "maxOutputTokens"@,
            JsonView::Number(NumberView::Unsigned(cfg.max_output_tokens as u64)),
        ),
    );
    JsonView::Object(
        match cfg.thinking_budget_tokens {
            Some(budget) => fields.push(
                (
                    "thinkingConfig"@,
                    single(
                        "thinkingBudget"@,
                        JsonView::Number(NumberView::Unsigned(budget as u64)),
                    ),
                ),
            ),
            None => fields,
        },
    )
}

/// The payload of a request.
pub open spec fn request_payload(
    cfg: GeminiConfig,
    messages: Seq<Message>,
    tools: Seq<ToolDefinition>,
    system: Seq<char>,
) -> JsonView {
    let fields = no_fields().push(("contents"@, JsonView::Array(sent_messages(messages)))).push(
        ("generationConfig"@, generation_config(cfg)),
    );
    let fields = if trim(system).len() == 0 {
        fields
    } else {
        fields.push(
            (
                "systemInstruction"@,
                JsonView::Object(
                    no_fields().push(("role"@, JsonView::Text("system"@))).push(
                        (
                            "parts"@,
                            JsonView::Array(
                                Seq::empty().push(single("text"@, JsonView::Text(system))),
                            ),
                        ),
                    ),
                ),
            ),
        )
    };
    JsonView::Object(
        if tools.len() == 0 {
            fields
        } else {
            fields.push(
                (
                    "tools"@,
                    JsonView::Array(
                        Seq::empty().push(
                            single(
                                "functionDeclarations"@,
                                JsonView::Array(tool_payloads(tools)),
                            ),
                        ),
                    ),
                ),
            )
        },
    )
}

fn one_item(item: Json) -> (r: Json)
    ensures
        r.deep_view() == JsonView::Array(Seq::empty().push(item.deep_view())),
{
    let mut items: Vec<Json> = Vec::new();
    assert(items.deep_view() =~= Seq::empty());
    push_to(&mut items, item);
    array(items)
}

/// Gemini provider.
#[derive(Debug)]
pub struct GeminiProvider {
    config: GeminiConfig,
}

impl View for GeminiProvider {
    type V = GeminiConfig;

    closed spec fn view(&self) -> GeminiConfig {
        self.config
    }
}

impl GeminiProvider {
    /// A provider with the given configuration.
    pub fn new(config: GeminiConfig) -> (r: GeminiProvider)
        ensures
            r@ == config,
    {
        GeminiProvider { config }
    }

    /// A copy of the present configuration.
    pub fn snapshot_config(&self) -> (r: GeminiConfig)
        ensures
            r == self@,
    {
        self.config.clone()
    }

    /// The payload of a request.
    pub fn build_payload(
        &self,
        cfg: &GeminiConfig,
        messages: &Vec<Message>,
        tools: &Vec<ToolDefinition>,
        system: &str,
    ) -> (r: Json)
        ensures
            r.deep_view() == request_payload(*cfg, messages@, tools@, system@),
    {
        let mut limits = empty_fields();
        put(&mut limits, "maxOutputTokens", number(cfg.max_output_tokens as u64));
        match cfg.thinking_budget_tokens {
            Some(budget) => {
                put(
                    &mut limits,
                    "thinkingConfig",
                    make_single("thinkingBudget", number(budget as u64)),
                );
            },
            None => {},
        }
        let mut fields = empty_fields();
        put(&mut fields, "contents", array(messages_to_gemini(messages)));
        put(&mut fields, "generationConfig", object(limits));
        if !trimmed(system).as_str().is_empty() {
            let mut instruction = empty_fields();
            put(&mut instruction, "role", text("system"));
            put(&mut instruction, "parts", one_item(make_single("text", text(system))));
            put(&mut fields, "systemInstruction", object(instruction));
        }
        if tools.len() > 0 {
            let mut declarations: Vec<Json> = Vec::new();
            let mut i: usize = 0;
            while i < tools.len()
                invariant
                    i <= tools@.len(),
                    declarations.deep_view() =~= tool_payloads(tools@).take(i as int),
                decreases tools@.len() - i,
            {
                let tool = &tools[i];
                let mut declaration = empty_fields();
                put(&mut declaration, "name", Json::Text(tool.name.clone()));
                put(&mut declaration, "description", Json::Text(tool.description.clone()));
                put(&mut declaration, "parameters", tool.input_schema.clone());
                push_to(&mut declarations, object(declaration));
                i = i + 1;
            }
            assert(tool_payloads(tools@).take(i as int) =~= tool_payloads(tools@));
            put(
                &mut fields,
                "tools",
                one_item(make_single("functionDeclarations", array(declarations))),
            );
        }
        object(fields)
    }

    /// The request for a completion.
    pub fn request(
        &self,
        messages: &Vec<Message>,
        tools: &Vec<ToolDefinition>,
        system: &str,
    ) -> (r: HttpRequest)
        ensures
            r.deep_view() == (HttpRequestView {
                url: stream_endpoint(self@),
                headers: stream_headers(),
                body: request_payload(self@, messages@, tools@, system@),
            }),
    {
        let cfg = self.snapshot_config();
        let body = self.build_payload(&cfg, messages, tools, system);
        HttpRequest { url: stream_url(&cfg), headers: make_stream_headers(), body }
    }

    /// The name of the provider.
    pub fn name(&self) -> (r: &'static str)
        ensures
            r@ == "gemini"@,
    {
        "gemini"
    }

    /// The present model.
    pub fn model(&self) -> (r: String)
        ensures
            r@ == self@.model@,
    {
        self.config.model.clone()
    }

    /// Whether the provider takes images.
    pub fn supports_image_input(&self) -> (r: bool)
        ensures
            r,
    {
        true
    }

    /// The models known to the provider.
    pub fn available_models(&self) -> (r: Vec<&'static str>)
        ensures
            r.deep_view() == seq![
                "gemini-2.5-pro"@,
                "gemini-2.5-flash"@,
                "gemini-2.0-flash"@,
                "gemini-1.5-pro"@,
                "gemini-1.5-flash"@,
            ],
    {
        let models = vec![
            "gemini-2.5-pro",
            "gemini-2.5-flash",
            "gemini-2.0-flash",
            "gemini-1.5-pro",
            "gemini-1.5-flash",
        ];
        assert(models.deep_view() =~= seq![
            "gemini-2.5-pro"@,
            "gemini-2.5-flash"@,
            "gemini-2.0-flash"@,
            "gemini-1.5-pro"@,
            "gemini-1.5-flash"@,
        ]);
        models
    }

    /// Switches to another model.
    pub fn set_model(&mut self, model: &str) -> (r: Result<(), ProviderError>)
        ensures
            r is Ok,
            final(self)@.model@ == model@,
            final(self)@ == (GeminiConfig { model: final(self)@.model, ..old(self)@ }),
    {
        self.config.model = model.to_owned();
        Ok(())
    }

    /// A provider of its own with the same configuration.
    pub fn fork(&self) -> (r: GeminiProvider)
        ensures
            r@ == self@,
    {
        GeminiProvider { config: self.config.clone() }
    }
}

/// The URL of the streaming endpoint, the key in its query.
pub open spec fn stream_endpoint(cfg: GeminiConfig) -> Seq<char> {
    trim_end_char(cfg.base_url@, '/') + "/"@ + cfg.api_version@ + "/models/"@ + cfg.model@
        + ":streamGenerateContent?alt=sse&key="@ + cfg.api_key@
}

/// The URL of the streaming endpoint, the key in its query.
pub fn stream_url(cfg: &GeminiConfig) -> (r: String)
    ensures
        r@ == stream_endpoint(*cfg),
{
    let mut out = trimmed_end_char(cfg.base_url.as_str(), '/');
    out.append("/");
    out.append(cfg.api_version.as_str());
    out.append("/models/");
    out.append(cfg.model.as_str());
    out.append(":streamGenerateContent?alt=sse&key=");
    out.append(cfg.api_key.as_str());
    out
}

/// The model of a tool call.
pub ghost struct CallView {
    pub name: Seq<char>,
    pub args: JsonView,
    pub id: Option<Seq<char>>,
}

/// The model of data that stands in a part.
pub ghost struct InlineView {
    pub mime_type: Seq<char>,
    pub data: Seq<char>,
}

/// The model of the result of a tool call.
pub ghost struct ResultView {
    pub name: Seq<char>,
    pub response: JsonView,
    pub id: Option<Seq<char>>,
}

/// The model of a part.
pub ghost struct PartView {
    pub text: Option<Seq<char>>,
    pub inline: Option<InlineView>,
    pub call: Option<CallView>,
    pub result: Option<ResultView>,
}

/// The model of a message's content.
pub ghost struct ContentView {
    pub role: Seq<char>,
    pub parts: Seq<PartView>,
}

/// The model of one of the answers in a chunk.
pub ghost struct CandidateView {
    pub content: Option<ContentView>,
    pub finish_reason: Option<Seq<char>>,
}

/// The model of a chunk.
pub ghost struct ChunkView {
    pub candidates: Option<Seq<CandidateView>>,
    pub usage: Option<GeminiUsageMetadata>,
    pub response_id: Option<Seq<char>>,
}

impl DeepView for GeminiFunctionCall {
    type V = CallView;

    open spec fn deep_view(&self) -> CallView {
        CallView { name: self.name@, args: self.args.deep_view(), id: self.id.deep_view() }
    }
}

impl DeepView for InlineData {
    type V = InlineView;

    open spec fn deep_view(&self) -> InlineView {
        InlineView { mime_type: self.mime_type@, data: self.data@ }
    }
}

impl DeepView for GeminiFunctionResponse {
    type V = ResultView;

    open spec fn deep_view(&self) -> ResultView {
        ResultView {
            name: self.name@,
            response: self.response.deep_view(),
            id: self.id.deep_view(),
        }
    }
}

impl DeepView for GeminiPart {
    type V = PartView;

    open spec fn deep_view(&self) -> PartView {
        PartView {
            text: self.text.deep_view(),
            inline: self.inline_data.deep_view(),
            call: self.function_call.deep_view(),
            result: self.function_response.deep_view(),
        }
    }
}

impl DeepView for GeminiContent {
    type V = ContentView;

    open spec fn deep_view(&self) -> ContentView {
        ContentView { role: self.role@, parts: self.parts.deep_view() }
    }
}

impl DeepView for GeminiCandidate {
    type V = CandidateView;

    open spec fn deep_view(&self) -> CandidateView {
        CandidateView {
            content: self.content.deep_view(),
            finish_reason: self.finish_reason.deep_view(),
        }
    }
}

impl DeepView for GeminiStreamChunk {
    type V = ChunkView;

    open spec fn deep_view(&self) -> ChunkView {
        ChunkView {
            candidates: self.candidates.deep_view(),
            usage: self.usage_metadata,
            response_id: self.response_id.deep_view(),
        }
    }
}

/// The data in a part; the outer `None` where it is malformed.
pub open spec fn inline_in(value: Option<JsonView>) -> Option<Option<InlineView>> {
    match value {
        None => Some(None),
        Some(json) => match (json.at("mimeType"@).text(), json.at("data"@).text()) {
            (Some(mime_type), Some(data)) => Some(Some(InlineView { mime_type, data })),
            _ => None,
        },
    }
}

/// The result of a call in a part; the outer `None` where it is malformed.
pub open spec fn result_in(value: Option<JsonView>) -> Option<Option<ResultView>> {
    match value {
        None => Some(None),
        Some(json) => match (
            json.at("name"@).text(),
            json.get("response"@),
            json.optional_text("id"@),
        ) {
            (Some(name), Some(response), Some(id)) => Some(
                Some(ResultView { name, response, id }),
            ),
            _ => None,
        },
    }
}

/// The call in a part; the outer `None` where it is malformed.
pub open spec fn call_in(value: Option<JsonView>) -> Option<Option<CallView>> {
    match value {
        None => Some(None),
        Some(json) => match (json.at("name"@).text(), json.optional_text("id"@)) {
            (Some(name), Some(id)) => Some(Some(CallView { name, args: json.at("args"@), id })),
            _ => None,
        },
    }
}

/// The part that a value spells.
pub open spec fn part_in(json: JsonView) -> Option<PartView> {
    match (
        json is Object,
        json.optional_text("text"@),
        inline_in(json.filled("inlineData"@)),
        call_in(json.filled("functionCall"@)),
        result_in(json.filled("functionResponse"@)),
    ) {
        (true, Some(text), Some(inline), Some(call), Some(result)) => Some(
            PartView { text, inline, call, result },
        ),
        _ => None,
    }
}

/// The parts that values spell, where each spells one.
pub open spec fn parts_in(items: Seq<JsonView>) -> Option<Seq<PartView>>
    decreases items.len(),
{
    if items.len() == 0 {
        Some(Seq::empty())
    } else {
        match (parts_in(items.drop_last()), part_in(items.last())) {
            (Some(before), Some(part)) => Some(before.push(part)),
            _ => None,
        }
    }
}

/// The content of an answer; the outer `None` where it is malformed.
pub open spec fn content_in(value: Option<JsonView>) -> Option<Option<ContentView>> {
    match value {
        None => Some(None),
        Some(json) => match (json.at("role"@).text(), json.at("parts"@).items()) {
            (Some(role), Some(items)) => match parts_in(items) {
                Some(parts) => Some(Some(ContentView { role, parts })),
                None => None,
            },
            _ => None,
        },
    }
}

/// The answer that a value spells.
pub open spec fn candidate_in(json: JsonView) -> Option<CandidateView> {
    match (
        json is Object,
        content_in(json.filled("content"@)),
        json.optional_text("finishReason"@),
    ) {
        (true, Some(content), Some(finish_reason)) => Some(
            CandidateView { content, finish_reason },
        ),
        _ => None,
    }
}

/// The answers that values spell, where each spells one.
pub open spec fn candidates_in(items: Seq<JsonView>) -> Option<Seq<CandidateView>>
    decreases items.len(),
{
    if items.len() == 0 {
        Some(Seq::empty())
    } else {
        match (candidates_in(items.drop_last()), candidate_in(items.last())) {
            (Some(before), Some(candidate)) => Some(before.push(candidate)),
            _ => None,
        }
    }
}

/// The token counts in a chunk; the outer `None` where they are malformed.
pub open spec fn usage_in(value: Option<JsonView>) -> Option<Option<GeminiUsageMetadata>> {
    match value {
        None => Some(None),
        Some(json) => match (
            json is Object,
            json.optional_unsigned("promptTokenCount"@),
            json.optional_unsigned("candidatesTokenCount"@),
            json.optional_unsigned("cachedContentTokenCount"@),
            json.optional_unsigned("totalTokenCount"@),
        ) {
            (true, Some(prompt), Some(candidates), Some(cached), Some(all)) => Some(
                Some(
                    GeminiUsageMetadata {
                        prompt_token_count: prompt,
                        candidates_token_count: candidates,
                        cached_content_token_count: cached,
                        total_token_count: all,
                    },
                ),
            ),
            _ => None,
        },
    }
}

/// The answers in a chunk; the outer `None` where they are malformed.
pub open spec fn answers_in(value: Option<JsonView>) -> Option<Option<Seq<CandidateView>>> {
    match value {
        None => Some(None),
        Some(json) => match json.items() {
            Some(items) => match candidates_in(items) {
                Some(candidates) => Some(Some(candidates)),
                None => None,
            },
            None => None,
        },
    }
}

/// The chunk that a value spells.
pub open spec fn chunk_in(json: JsonView) -> Option<ChunkView> {
    match (
        json is Object,
        answers_in(json.filled("candidates"@)),
        usage_in(json.filled("usageMetadata"@)),
        json.optional_text("responseId"@),
    ) {
        (true, Some(candidates), Some(usage), Some(response_id)) => Some(
            ChunkView { candidates, usage, response_id },
        ),
        _ => None,
    }
}

proof fn bad_parts_spoil_all(items: Seq<JsonView>, k: int)
    requires
        0 <= k <= items.len(),
        parts_in(items.take(k)) is None,
    ensures
        parts_in(items) is None,
    decreases items.len() - k,
{
    if k < items.len() {
        assert(items.take(k + 1).drop_last() =~= items.take(k));
        bad_parts_spoil_all(items, k + 1);
    } else {
        assert(items.take(k) =~= items);
    }
}

proof fn bad_candidates_spoil_all(items: Seq<JsonView>, k: int)
    requires
        0 <= k <= items.len(),
        candidates_in(items.take(k)) is None,
    ensures
        candidates_in(items) is None,
    decreases items.len() - k,
{
    if k < items.len() {
        assert(items.take(k + 1).drop_last() =~= items.take(k));
        bad_candidates_spoil_all(items, k + 1);
    } else {
        assert(items.take(k) =~= items);
    }
}

impl InlineData {
    /// The data that a value spells.
    pub fn from_json(json: &Json) -> (r: Option<InlineData>)
        ensures
            match r {
                Some(data) => inline_in(Some(json.deep_view())) == Some(Some(data.deep_view())),
                None => inline_in(Some(json.deep_view())) is None,
            },
    {
        match (json.text_at("mimeType"), json.text_at("data")) {
            (Some(mime_type), Some(data)) => Some(
                InlineData { mime_type: mime_type.clone(), data: data.clone() },
            ),
            _ => None,
        }
    }
}

impl GeminiFunctionResponse {
    /// The result of a call that a value spells.
    pub fn from_json(json: &Json) -> (r: Option<GeminiFunctionResponse>)
        ensures
            match r {
                Some(result) => result_in(Some(json.deep_view())) == Some(
                    Some(result.deep_view()),
                ),
                None => result_in(Some(json.deep_view())) is None,
            },
    {
        match (json.text_at("name"), json.get("response"), json.optional_text_at("id")) {
            (Some(name), Some(response), Some(id)) => Some(
                GeminiFunctionResponse { name: name.clone(), response: response.clone(), id },
            ),
            _ => None,
        }
    }
}

impl GeminiFunctionCall {
    /// The call that a value spells.
    pub fn from_json(json: &Json) -> (r: Option<GeminiFunctionCall>)
        ensures
            match r {
                Some(call) => call_in(Some(json.deep_view())) == Some(Some(call.deep_view())),
                None => call_in(Some(json.deep_view())) is None,
            },
    {
        let args = match json.get("args") {
            Some(args) => args.clone(),
            None => Json::Null,
        };
        match (json.text_at("name"), json.optional_text_at("id")) {
            (Some(name), Some(id)) => Some(GeminiFunctionCall { name: name.clone(), args, id }),
            _ => None,
        }
    }
}

impl GeminiPart {
    /// The part that a value spells.
    pub fn from_json(json: &Json) -> (r: Option<GeminiPart>)
        ensures
            r.deep_view() == part_in(json.deep_view()),
    {
        if !json.is_object() {
            return None;
        }
        let inline_data = match json.filled_at("inlineData") {
            None => None,
            Some(value) => match InlineData::from_json(value) {
                Some(data) => Some(data),
                None => {
                    return None;
                },
            },
        };
        let function_response = match json.filled_at("functionResponse") {
            None => None,
            Some(value) => match GeminiFunctionResponse::from_json(value) {
                Some(result) => Some(result),
                None => {
                    return None;
                },
            },
        };
        let function_call = match json.filled_at("functionCall") {
            None => None,
            Some(value) => match GeminiFunctionCall::from_json(value) {
                Some(call) => Some(call),
                None => {
                    return None;
                },
            },
        };
        match json.optional_text_at("text") {
            Some(text) => Some(GeminiPart { text, inline_data, function_call, function_response }),
            None => None,
        }
    }
}

impl GeminiContent {
    /// The content that a value spells.
    pub fn from_json(json: &Json) -> (r: Option<GeminiContent>)
        ensures
            match r {
                Some(content) => content_in(Some(json.deep_view())) == Some(
                    Some(content.deep_view()),
                ),
                None => content_in(Some(json.deep_view())) is None,
            },
    {
        let (role, items) = match (json.text_at("role"), json.items_at("parts")) {
            (Some(role), Some(items)) => (role.clone(), items),
            _ => {
                return None;
            },
        };
        let mut parts: Vec<GeminiPart> = Vec::new();
        let ghost all = items.deep_view();
        let mut i: usize = 0;
        assert(parts.deep_view() =~= Seq::empty());
        while i < items.len()
            invariant
                i <= items@.len(),
                all == items.deep_view(),
                json.deep_view().at("role"@).text() == Some(role@),
                json.deep_view().at("parts"@).items() == Some(all),
                parts_in(all.take(i as int)) == Some(parts.deep_view()),
            decreases items@.len() - i,
        {
            proof {
                assert(all.take(i + 1).drop_last() =~= all.take(i as int));
            }
            match GeminiPart::from_json(&items[i]) {
                Some(part) => {
                    push_to(&mut parts, part);
                },
                None => {
                    proof {
                        bad_parts_spoil_all(all, i + 1);
                    }
                    return None;
                },
            }
            i = i + 1;
        }
        assert(all.take(i as int) =~= all);
        Some(GeminiContent { role, parts })
    }
}

impl GeminiCandidate {
    /// The answer that a value spells.
    pub fn from_json(json: &Json) -> (r: Option<GeminiCandidate>)
        ensures
            r.deep_view() == candidate_in(json.deep_view()),
    {
        if !json.is_object() {
            return None;
        }
        let content = match json.filled_at("content") {
            None => None,
            Some(value) => match GeminiContent::from_json(value) {
                Some(content) => Some(content),
                None => {
                    return None;
                },
            },
        };
        match json.optional_text_at("finishReason") {
            Some(finish_reason) => Some(GeminiCandidate { content, finish_reason }),
            None => None,
        }
    }
}

impl GeminiStreamChunk {
    /// The chunk that a value spells.
    pub fn from_json(json: &Json) -> (r: Option<GeminiStreamChunk>)
        ensures
            r.deep_view() == chunk_in(json.deep_view()),
    {
        if !json.is_object() {
            return None;
        }
        let response_id = match json.optional_text_at("responseId") {
            Some(id) => id,
            None => {
                return None;
            },
        };
        let usage_metadata = match json.filled_at("usageMetadata") {
            None => None,
            Some(value) => match (
                value.is_object(),
                value.optional_unsigned_at("promptTokenCount"),
                value.optional_unsigned_at("candidatesTokenCount"),
                value.optional_unsigned_at("cachedContentTokenCount"),
                value.optional_unsigned_at("totalTokenCount"),
            ) {
                (true, Some(prompt), Some(candidates), Some(cached), Some(all)) => Some(
                    GeminiUsageMetadata {
                        prompt_token_count: prompt,
                        candidates_token_count: candidates,
                        cached_content_token_count: cached,
                        total_token_count: all,
                    },
                ),
                _ => {
                    return None;
                },
            },
        };
        let items = match json.filled_at("candidates") {
            None => {
                return Some(GeminiStreamChunk { candidates: None, usage_metadata, response_id });
            },
            Some(value) => match value.as_items() {
                Some(items) => items,
                None => {
                    return None;
                },
            },
        };
        let mut candidates: Vec<GeminiCandidate> = Vec::new();
        let ghost all = items.deep_view();
        let mut i: usize = 0;
        assert(candidates.deep_view() =~= Seq::empty());
        while i < items.len()
            invariant
                i <= items@.len(),
                all == items.deep_view(),
                json.deep_view().filled("candidates"@) matches Some(value) && value.items() == Some(
                    all,
                ),
                candidates_in(all.take(i as int)) == Some(candidates.deep_view()),
            decreases items@.len() - i,
        {
            proof {
                assert(all.take(i + 1).drop_last() =~= all.take(i as int));
            }
            match GeminiCandidate::from_json(&items[i]) {
                Some(candidate) => {
                    push_to(&mut candidates, candidate);
                },
                None => {
                    proof {
                        bad_candidates_spoil_all(all, i + 1);
                    }
                    return None;
                },
            }
            i = i + 1;
        }
        assert(all.take(i as int) =~= all);
        Some(GeminiStreamChunk { candidates: Some(candidates), usage_metadata, response_id })
    }
}

/// The model of the stream's state.
pub ghost struct AccumView {
    pub emitted_session_id: bool,
    pub finish_reason: Option<Seq<char>>,
    pub saw_message_end: bool,
}

/// A stream in the middle of a chunk: its state, and what the chunk has put out.
pub ghost struct Progress {
    pub state: AccumView,
    pub events: Seq<EventView>,
}

/// The id of a call: its own, or one made of its name.
pub open spec fn call_id(call: CallView) -> Seq<char> {
    match call.id {
        Some(id) => id,
        None => "call_"@ + call.name,
    }
}

/// What a whole call puts out: its start, its arguments unless they are null, its end.
pub open spec fn call_events(call: CallView) -> Seq<EventView> {
    let start = Seq::empty().push(
        EventView::ToolUseStart { id: call_id(call), name: call.name },
    );
    let args = printed(call.args);
    let told = if args.len() == 0 || args == "null"@ {
        start
    } else {
        start.push(EventView::ToolInputDelta(args))
    };
    told.push(EventView::ToolUseEnd)
}

/// What a part puts out.
pub open spec fn part_events(part: PartView) -> Seq<EventView> {
    let said = match part.text {
        Some(t) => if t.len() == 0 {
            Seq::empty()
        } else {
            Seq::empty().push(EventView::TextDelta(t))
        },
        None => Seq::empty(),
    };
    match part.call {
        Some(call) => said + call_events(call),
        None => said,
    }
}

/// What the first `n` parts put out.
pub open spec fn parts_events(parts: Seq<PartView>, n: nat) -> Seq<EventView>
    decreases n,
{
    if n == 0 {
        Seq::empty()
    } else {
        parts_events(parts, (n - 1) as nat) + part_events(parts[n - 1])
    }
}

/// The progress after one answer.
pub open spec fn with_candidate(p: Progress, candidate: CandidateView) -> Progress {
    let said = match candidate.content {
        Some(content) => Progress {
            events: p.events + parts_events(content.parts, content.parts.len()),
            ..p
        },
        None => p,
    };
    match candidate.finish_reason {
        Some(reason) => Progress {
            state: AccumView { finish_reason: Some(reason), ..said.state },
            ..said
        },
        None => said,
    }
}

/// The progress after the first `n` answers.
pub open spec fn with_candidates(
    p: Progress,
    candidates: Seq<CandidateView>,
    n: nat,
) -> Progress
    decreases n,
{
    if n == 0 {
        p
    } else {
        with_candidate(with_candidates(p, candidates, (n - 1) as nat), candidates[n - 1])
    }
}

/// The progress after the session id of a chunk, which is told once in a stream.
pub open spec fn with_session(state: AccumView, response_id: Option<Seq<char>>) -> Progress {
    match response_id {
        Some(id) if !state.emitted_session_id => Progress {
            state: AccumView { emitted_session_id: true, ..state },
            events: Seq::empty().push(EventView::SessionId(id)),
        },
        _ => Progress { state, events: Seq::empty() },
    }
}

/// The progress with the message ended.
pub open spec fn with_end(p: Progress) -> Progress {
    Progress {
        state: AccumView { saw_message_end: true, ..p.state },
        events: p.events.push(EventView::MessageEnd { stop_reason: p.state.finish_reason }),
    }
}

/// The usage that a chunk reports.
pub open spec fn usage_view(usage: GeminiUsageMetadata) -> EventView {
    EventView::TokenUsage {
        input_tokens: usage.prompt_token_count,
        output_tokens: usage.candidates_token_count,
        cache_read_input_tokens: usage.cached_content_token_count,
        cache_creation_input_tokens: None,
    }
}

/// The progress after a chunk.
pub open spec fn with_chunk(state: AccumView, chunk: ChunkView) -> Progress {
    let told = with_session(state, chunk.response_id);
    let said = match chunk.candidates {
        Some(candidates) => with_candidates(told, candidates, candidates.len()),
        None => told,
    };
    let counted = match chunk.usage {
        Some(usage) => Progress { events: said.events.push(usage_view(usage)), ..said },
        None => said,
    };
    if counted.state.finish_reason is Some && !counted.state.saw_message_end {
        with_end(counted)
    } else {
        counted
    }
}

/// The progress when the stream is over: the message is ended where it was not.
pub open spec fn with_flush(state: AccumView) -> Progress {
    let start = Progress { state, events: Seq::empty() };
    if state.saw_message_end {
        start
    } else {
        with_end(start)
    }
}

/// What follows when something comes on the stream, with the data as it was read: empty
/// data passes, the end flushes, a chunk is absorbed, and what cannot be decoded ends the
/// completion, without a word where it cannot be quoted.
pub open spec fn stream_step(
    state: AccumView,
    input: InputView,
    read: Result<JsonView, Seq<char>>,
) -> (AccumView, Option<StepView>) {
    let flushed = with_flush(state);
    match input {
        InputView::Broken(error) => (state, Some(failing(stream_error(error)))),
        InputView::Ended => (flushed.state, Some(closing(flushed.events))),
        InputView::Event { event, data } => if data.len() == 0 {
            (state, Some(going_on(Seq::empty())))
        } else {
            match read {
                Err(error) => (state, complaint("Gemini"@, error, data)),
                Ok(json) => match chunk_in(json) {
                    None => (state, complaint("Gemini"@, CHUNK_MISMATCH@, data)),
                    Some(chunk) => {
                        let p = with_chunk(state, chunk);
                        (p.state, Some(going_on(p.events)))
                    },
                },
            }
        },
    }
}

/// The JSON that the data of an event spells, as it is read.
pub open spec fn data_read(input: InputView) -> Result<JsonView, Seq<char>> {
    match input {
        InputView::Event { event, data } => json_read(data),
        _ => Err(Seq::empty()),
    }
}

/// The state of a stream.
#[derive(Debug)]
pub struct StreamAccum {
    emitted_session_id: bool,
    finish_reason: Option<String>,
    saw_message_end: bool,
}

impl View for StreamAccum {
    type V = AccumView;

    closed spec fn view(&self) -> AccumView {
        AccumView {
            emitted_session_id: self.emitted_session_id,
            finish_reason: self.finish_reason.deep_view(),
            saw_message_end: self.saw_message_end,
        }
    }
}

impl Default for StreamAccum {
    fn default() -> (r: StreamAccum)
        ensures
            r@ == (AccumView {
                emitted_session_id: false,
                finish_reason: None,
                saw_message_end: false,
            }),
    {
        StreamAccum { emitted_session_id: false, finish_reason: None, saw_message_end: false }
    }
}

fn emit_call(call: &GeminiFunctionCall, out: &mut Vec<StreamEvent>)
    ensures
        final(out).deep_view() == old(out).deep_view() + call_events(call.deep_view()),
{
    let ghost before = out.deep_view();
    let id = match &call.id {
        Some(id) => id.clone(),
        None => labelled("call_", call.name.as_str()),
    };
    let args = call.args.print();
    push_to(out, StreamEvent::ToolUseStart { id, name: call.name.clone() });
    if !args.as_str().is_empty() && !same(args.as_str(), "null") {
        push_to(out, StreamEvent::ToolInputDelta(args));
    }
    push_to(out, StreamEvent::ToolUseEnd);
    assert(out.deep_view() =~= before + call_events(call.deep_view()));
}

fn emit_part(part: &GeminiPart, out: &mut Vec<StreamEvent>)
    ensures
        final(out).deep_view() == old(out).deep_view() + part_events(part.deep_view()),
{
    let ghost before = out.deep_view();
    match &part.text {
        Some(t) => {
            if !t.as_str().is_empty() {
                push_to(out, StreamEvent::TextDelta(t.clone()));
            }
        },
        None => {},
    }
    match &part.function_call {
        Some(call) => {
            emit_call(call, out);
        },
        None => {},
    }
    assert(out.deep_view() =~= before + part_events(part.deep_view()));
}

impl StreamAccum {
    fn take_candidate(&mut self, candidate: &GeminiCandidate, out: &mut Vec<StreamEvent>)
        ensures
            (Progress { state: final(self)@, events: final(out).deep_view() }) == with_candidate(
                Progress { state: old(self)@, events: old(out).deep_view() },
                candidate.deep_view(),
            ),
    {
        let ghost before = out.deep_view();
        match &candidate.content {
            Some(content) => {
                let mut i: usize = 0;
                let ghost parts = content.parts.deep_view();
                assert(before + parts_events(parts, 0) =~= before);
                while i < content.parts.len()
                    invariant
                        i <= content.parts@.len(),
                        parts == content.parts.deep_view(),
                        out.deep_view() == before + parts_events(parts, i as nat),
                    decreases content.parts@.len() - i,
                {
                    emit_part(&content.parts[i], out);
                    assert(out.deep_view() =~= before + parts_events(parts, (i + 1) as nat));
                    i = i + 1;
                }
            },
            None => {},
        }
        match &candidate.finish_reason {
            Some(reason) => {
                self.finish_reason = Some(reason.clone());
            },
            None => {},
        }
    }

    /// Takes a chunk of the stream, and hands out what it comes to.
    pub fn absorb(&mut self, chunk: &GeminiStreamChunk) -> (r: Vec<StreamEvent>)
        ensures
            (Progress { state: final(self)@, events: r.deep_view() }) == with_chunk(
                old(self)@,
                chunk.deep_view(),
            ),
    {
        let mut out: Vec<StreamEvent> = Vec::new();
        assert(out.deep_view() =~= Seq::empty());
        if !self.emitted_session_id {
            match &chunk.response_id {
                Some(id) => {
                    push_to(&mut out, StreamEvent::SessionId(id.clone()));
                    self.emitted_session_id = true;
                },
                None => {},
            }
        }
        let ghost told = Progress { state: self@, events: out.deep_view() };
        match &chunk.candidates {
            Some(candidates) => {
                let mut i: usize = 0;
                while i < candidates.len()
                    invariant
                        i <= candidates@.len(),
                        (Progress { state: self@, events: out.deep_view() }) == with_candidates(
                            told,
                            candidates.deep_view(),
                            i as nat,
                        ),
                    decreases candidates@.len() - i,
                {
                    self.take_candidate(&candidates[i], &mut out);
                    i = i + 1;
                }
            },
            None => {},
        }
        match &chunk.usage_metadata {
            Some(usage) => {
                push_to(
                    &mut out,
                    StreamEvent::TokenUsage {
                        input_tokens: usage.prompt_token_count,
                        output_tokens: usage.candidates_token_count,
                        cache_read_input_tokens: usage.cached_content_token_count,
                        cache_creation_input_tokens: None,
                    },
                );
            },
            None => {},
        }
        if self.finish_reason.is_some() && !self.saw_message_end {
            push_to(
                &mut out,
                StreamEvent::MessageEnd { stop_reason: self.finish_reason.clone() },
            );
            self.saw_message_end = true;
        }
        out
    }

    /// Takes what comes next on the stream, and says what to hand on: nothing at all where
    /// the data can neither be decoded nor quoted.
    pub fn step(&mut self, input: StreamInput) -> (r: Option<StreamStep>)
        ensures
            (final(self)@, r.deep_view()) == stream_step(
                old(self)@,
                input.deep_view(),
                data_read(input.deep_view()),
            ),
    {
        match input {
            StreamInput::Broken(error) => Some(fail(sse_decode_error(error.as_str()))),
            StreamInput::Ended => Some(close(self.flush())),
            StreamInput::Event { event: _, data } => if data.as_str().is_empty() {
                Some(pass())
            } else {
                match Json::parse(data.as_str()) {
                    Err(error) => complain("Gemini", error.as_str(), data.as_str()),
                    Ok(json) => match GeminiStreamChunk::from_json(&json) {
                        None => complain("Gemini", CHUNK_MISMATCH, data.as_str()),
                        Some(chunk) => Some(go_on(self.absorb(&chunk))),
                    },
                }
            },
        }
    }

    /// Ends the message where the stream stopped without saying so.
    pub fn flush(&mut self) -> (r: Vec<StreamEvent>)
        ensures
            (Progress { state: final(self)@, events: r.deep_view() }) == with_flush(old(self)@),
    {
        let mut out: Vec<StreamEvent> = Vec::new();
        assert(out.deep_view() =~= Seq::empty());
        if !self.saw_message_end {
            self.saw_message_end = true;
            push_to(
                &mut out,
                StreamEvent::MessageEnd { stop_reason: self.finish_reason.clone() },
            );
        }
        out
    }
}

/// Whether no event tells the session or ends the message.
pub open spec fn plain(events: Seq<EventView>) -> bool {
    forall|i: int|
        0 <= i < events.len() ==> !(#[trigger] events[i] is SessionId) && !(events[i] is MessageEnd)
}

proof fn parts_are_plain(parts: Seq<PartView>, n: nat)
    ensures
        plain(parts_events(parts, n)),
    decreases n,
{
    if n > 0 {
        parts_are_plain(parts, (n - 1) as nat);
        assert(plain(part_events(parts[n - 1])));
    }
}

proof fn candidates_are_plain(p: Progress, candidates: Seq<CandidateView>, n: nat)
    ensures
        with_candidates(p, candidates, n).events.len() >= p.events.len(),
        with_candidates(p, candidates, n).events.take(p.events.len() as int) == p.events,
        plain(with_candidates(p, candidates, n).events.skip(p.events.len() as int)),
        with_candidates(p, candidates, n).state.emitted_session_id == p.state.emitted_session_id,
        with_candidates(p, candidates, n).state.saw_message_end == p.state.saw_message_end,
    decreases n,
{
    let after = with_candidates(p, candidates, n);
    let k = p.events.len() as int;
    if n == 0 {
        assert(after.events.take(k) =~= p.events);
    } else {
        let before = with_candidates(p, candidates, (n - 1) as nat);
        candidates_are_plain(p, candidates, (n - 1) as nat);
        match candidates[n - 1].content {
            Some(content) => {
                let more = parts_events(content.parts, content.parts.len());
                parts_are_plain(content.parts, content.parts.len());
                assert(after.events == before.events + more);
                assert(after.events.take(k) =~= before.events.take(k));
                assert(after.events.skip(k) =~= before.events.skip(k) + more);
            },
            None => {},
        }
    }
}

/// What a chunk puts out: the session first, where it is told at all, the end of the
/// message last, where it ends, and neither in between. The session is told once in a
/// stream, and the message ends once.
pub proof fn sessions_and_ends_come_once(state: AccumView, chunk: ChunkView)
    ensures
        ({
            let p = with_chunk(state, chunk);
            let told = p.state.emitted_session_id && !state.emitted_session_id;
            let ended = p.state.saw_message_end && !state.saw_message_end;
            let from = if told {
                1int
            } else {
                0
            };
            let to = if ended {
                p.events.len() - 1
            } else {
                p.events.len() as int
            };
            &&& state.emitted_session_id ==> p.state.emitted_session_id
            &&& state.saw_message_end ==> p.state.saw_message_end
            &&& told ==> p.events.len() > 0 && p.events[0] is SessionId
            &&& ended ==> p.events.len() > 0 && p.events.last() is MessageEnd
            &&& from <= to
            &&& plain(p.events.subrange(from, to))
        }),
{
    let told = with_session(state, chunk.response_id);
    let k = told.events.len() as int;
    let said = match chunk.candidates {
        Some(candidates) => with_candidates(told, candidates, candidates.len()),
        None => told,
    };
    match chunk.candidates {
        Some(candidates) => {
            candidates_are_plain(told, candidates, candidates.len());
        },
        None => {
            assert(said.events.take(k) =~= told.events);
        },
    }
    let counted = match chunk.usage {
        Some(usage) => Progress { events: said.events.push(usage_view(usage)), ..said },
        None => said,
    };
    let p = with_chunk(state, chunk);
    let n = counted.events.len() as int;
    assert(plain(said.events.skip(k)));
    assert(said.events.take(k) == told.events);
    if k > 0 {
        assert(told.events[0] == said.events.take(k)[0]);
        assert(said.events[0] is SessionId);
    }
    assert forall|i: int| k <= i < n implies !(#[trigger] counted.events[i] is SessionId) && !(
    counted.events[i] is MessageEnd) by {
        if i < said.events.len() {
            assert(said.events.skip(k)[i - k] == said.events[i]);
        }
    }
    assert forall|i: int| 0 <= i < n - k implies !(#[trigger] p.events.subrange(
        k,
        n,
    )[i] is SessionId) && !(p.events.subrange(k, n)[i] is MessageEnd) by {
        assert(p.events.subrange(k, n)[i] == counted.events[i + k]);
    }
}

/// A stream that just stops is ended once: a second flush says nothing, nor does a flush
/// behind a chunk that ended the message.
pub proof fn flush_ends_the_message_once(state: AccumView)
    ensures
        with_flush(state).state.saw_message_end,
        !state.saw_message_end ==> with_flush(state).events == Seq::empty().push(
            EventView::MessageEnd { stop_reason: state.finish_reason },
        ),
        state.saw_message_end ==> with_flush(state).events == Seq::<EventView>::empty(),
        with_flush(with_flush(state).state).events == Seq::<EventView>::empty(),
{
}

/// How often the events end the message.
pub open spec fn message_ends(events: Seq<EventView>) -> int
    decreases events.len(),
{
    if events.len() == 0 {
        0
    } else {
        message_ends(events.drop_last()) + if events.last() is MessageEnd {
            1int
        } else {
            0
        }
    }
}

/// How often the events tell the session.
pub open spec fn sessions(events: Seq<EventView>) -> int
    decreases events.len(),
{
    if events.len() == 0 {
        0
    } else {
        sessions(events.drop_last()) + if events.last() is SessionId {
            1int
        } else {
            0
        }
    }
}

/// The state of a stream after several inputs, each with its data as it was read, and all
/// events that were handed on.
pub open spec fn stream_run(inputs: Seq<(InputView, Result<JsonView, Seq<char>>)>) -> Progress
    decreases inputs.len(),
{
    if inputs.len() == 0 {
        Progress {
            state: AccumView {
                emitted_session_id: false,
                finish_reason: None,
                saw_message_end: false,
            },
            events: Seq::empty(),
        }
    } else {
        let before = stream_run(inputs.drop_last());
        let (state, step) = stream_step(before.state, inputs.last().0, inputs.last().1);
        Progress {
            state,
            events: match step {
                Some(step) => before.events + step.events,
                None => before.events,
            },
        }
    }
}

proof fn counts_add(a: Seq<EventView>, b: Seq<EventView>)
    ensures
        message_ends(a + b) == message_ends(a) + message_ends(b),
        sessions(a + b) == sessions(a) + sessions(b),
    decreases b.len(),
{
    if b.len() == 0 {
        assert(a + b =~= a);
    } else {
        counts_add(a, b.drop_last());
        assert((a + b).drop_last() =~= a + b.drop_last());
        assert((a + b).last() == b.last());
    }
}

proof fn plain_events_count_for_nothing(events: Seq<EventView>)
    requires
        plain(events),
    ensures
        message_ends(events) == 0,
        sessions(events) == 0,
    decreases events.len(),
{
    if events.len() > 0 {
        let shorter = events.drop_last();
        assert forall|i: int| 0 <= i < shorter.len() implies !(#[trigger] shorter[i] is SessionId)
            && !(shorter[i] is MessageEnd) by {
            assert(shorter[i] == events[i]);
        }
        plain_events_count_for_nothing(shorter);
        assert(!(events[events.len() - 1] is SessionId));
    }
}

proof fn chunk_counts(state: AccumView, chunk: ChunkView)
    ensures
        ({
            let p = with_chunk(state, chunk);
            &&& state.emitted_session_id ==> p.state.emitted_session_id
            &&& state.saw_message_end ==> p.state.saw_message_end
            &&& sessions(p.events) == if p.state.emitted_session_id && !state.emitted_session_id {
                1int
            } else {
                0
            }
            &&& message_ends(p.events) == if p.state.saw_message_end && !state.saw_message_end {
                1int
            } else {
                0
            }
        }),
{
    sessions_and_ends_come_once(state, chunk);
    let p = with_chunk(state, chunk);
    let told = p.state.emitted_session_id && !state.emitted_session_id;
    let ended = p.state.saw_message_end && !state.saw_message_end;
    let from = if told {
        1int
    } else {
        0
    };
    let to = if ended {
        p.events.len() - 1
    } else {
        p.events.len() as int
    };
    let head = p.events.take(from);
    let middle = p.events.subrange(from, to);
    let tail = p.events.skip(to);
    plain_events_count_for_nothing(middle);
    counts_add(head, middle);
    counts_add(head + middle, tail);
    assert(head + middle + tail =~= p.events);
    reveal_with_fuel(message_ends, 2);
    reveal_with_fuel(sessions, 2);
    if told {
        assert(head.len() == 1 && head.drop_last() =~= Seq::empty() && head.last() == p.events[0]);
    }
    if ended {
        assert(tail.len() == 1 && tail.drop_last() =~= Seq::empty() && tail.last()
            == p.events.last());
    }
}

/// Whatever comes on a stream, the session is told at most once, the message is ended at
/// most once, and when the stream ends in good order the message has been ended.
pub proof fn streams_are_well_formed(inputs: Seq<(InputView, Result<JsonView, Seq<char>>)>)
    ensures
        ({
            let p = stream_run(inputs);
            &&& message_ends(p.events) == if p.state.saw_message_end {
                1int
            } else {
                0
            }
            &&& sessions(p.events) == if p.state.emitted_session_id {
                1int
            } else {
                0
            }
            &&& inputs.len() > 0 && inputs.last().0 is Ended ==> p.state.saw_message_end
        }),
    decreases inputs.len(),
{
    if inputs.len() > 0 {
        streams_are_well_formed(inputs.drop_last());
        let before = stream_run(inputs.drop_last());
        let (state, step) = stream_step(before.state, inputs.last().0, inputs.last().1);
        flush_ends_the_message_once(before.state);
        reveal_with_fuel(message_ends, 2);
        reveal_with_fuel(sessions, 2);
        let end = EventView::MessageEnd { stop_reason: before.state.finish_reason };
        assert(Seq::empty().push(end).drop_last() =~= Seq::<EventView>::empty());
        match inputs.last().1 {
            Ok(json) => match chunk_in(json) {
                Some(chunk) => {
                    chunk_counts(before.state, chunk);
                },
                None => {},
            },
            Err(_) => {},
        }
        match step {
            Some(step) => {
                counts_add(before.events, step.events);
            },
            None => {},
        }
    }
}

} // verus!
