//! The OpenAI-compatible chat-completions protocol: request payloads and the state of
//! its stream.
//!
//! The system prompt is a leading message, tool results are messages of their own, and
//! tool calls are an array on an assistant message. A tool call streams as a first delta
//! with its id and name, then deltas of argument fragments, told apart by an index.
use vstd::prelude::*;

use crate::json::{
    Json, JsonView, NumberView, array, empty_fields, json_read, no_fields, number, object, printed,
    put, text,
};
use crate::message::{ContentBlock, EventView, Message, Role, StreamEvent, ToolDefinition};
use crate::provider::mistral::request::{data_uri, make_data_uri};
use crate::provider_core::{
    CHUNK_MISMATCH, HttpRequest, HttpRequestView, InputView, ProviderError, StepView, StreamInput,
    StreamStep, add_header, close, closing, complain, complaint, fail, failing, go_on, going_on,
    make_stream_headers, pass, sse_decode_error, stream_error, stream_headers,
};
use crate::text::{
    decimal, decimal_of, labelled, push_to, same, trim, trim_end_char, trimmed, trimmed_end_char,
};

verus! {

pub const MISTRAL_BASE_URL: &'static str = "https://api.mistral.ai/v1";

pub const OPENAI_BASE_URL: &'static str = "https://api.openai.com/v1";

pub const DEFAULT_MAX_TOKENS: u32 = 4096;

/// Configuration for an OpenAI-compatible provider.
#[derive(Debug)]
pub struct OpenAiConfig {
    pub api_key: String,
    pub model: String,
    /// Base URL with the version segment; `/chat/completions` is appended.
    pub base_url: String,
    pub max_tokens: u32,
}

impl Clone for OpenAiConfig {
    fn clone(&self) -> (r: OpenAiConfig)
        ensures
            r == *self,
    {
        OpenAiConfig {
            api_key: self.api_key.clone(),
            model: self.model.clone(),
            base_url: self.base_url.clone(),
            max_tokens: self.max_tokens,
        }
    }
}

impl OpenAiConfig {
    /// Generic OpenAI-compatible config pointed at OpenAI itself.
    pub fn new(api_key: String) -> (r: OpenAiConfig)
        ensures
            r.api_key@ == api_key@,
            r.model@ == "gpt-4o"@,
            r.base_url@ == OPENAI_BASE_URL@,
            r.max_tokens == DEFAULT_MAX_TOKENS,
    {
        OpenAiConfig {
            api_key,
            model: "gpt-4o".to_owned(),
            base_url: OPENAI_BASE_URL.to_owned(),
            max_tokens: DEFAULT_MAX_TOKENS,
        }
    }

    /// Preset for Mistral's hosted API.
    pub fn mistral(api_key: String) -> (r: OpenAiConfig)
        ensures
            r.api_key@ == api_key@,
            r.model@ == "mistral-large-latest"@,
            r.base_url@ == MISTRAL_BASE_URL@,
            r.max_tokens == DEFAULT_MAX_TOKENS,
    {
        OpenAiConfig {
            api_key,
            model: "mistral-large-latest".to_owned(),
            base_url: MISTRAL_BASE_URL.to_owned(),
            max_tokens: DEFAULT_MAX_TOKENS,
        }
    }

    /// The configuration with another model.
    pub fn with_model(self, model: String) -> (r: OpenAiConfig)
        ensures
            r == (OpenAiConfig { model, ..self }),
    {
        OpenAiConfig { model, ..self }
    }

    /// The configuration with another endpoint.
    pub fn with_base_url(self, base_url: String) -> (r: OpenAiConfig)
        ensures
            r == (OpenAiConfig { base_url, ..self }),
    {
        OpenAiConfig { base_url, ..self }
    }

    /// The configuration with another limit on tokens.
    pub fn with_max_tokens(self, tokens: u32) -> (r: OpenAiConfig)
        ensures
            r == (OpenAiConfig { max_tokens: tokens, ..self }),
    {
        OpenAiConfig { max_tokens: tokens, ..self }
    }
}

/// A message of a role and its content.
pub open spec fn said_by(role: Seq<char>, content: JsonView) -> JsonView {
    JsonView::Object(
        no_fields().push(("role"@, JsonView::Text(role))).push(("content"@, content)),
    )
}

fn say(role: &str, content: Json) -> (r: Json)
    ensures
        r.deep_view() == said_by(role@, content.deep_view()),
{
    let mut fields = empty_fields();
    put(&mut fields, "role", text(role));
    put(&mut fields, "content", content);
    object(fields)
}

/// The text blocks of a message, each on a line of its own. A line break goes before a
/// block where something was said before it.
pub open spec fn lines_of_text(blocks: Seq<ContentBlock>) -> Seq<char>
    decreases blocks.len(),
{
    if blocks.len() == 0 {
        Seq::empty()
    } else {
        let before = lines_of_text(blocks.drop_last());
        match blocks.last() {
            ContentBlock::Text { text, .. } => if before.len() == 0 {
                before + text@
            } else {
                before + "\n"@ + text@
            },
            _ => before,
        }
    }
}

/// The texts and images of a user's message.
pub open spec fn user_parts(blocks: Seq<ContentBlock>) -> Seq<JsonView>
    decreases blocks.len(),
{
    if blocks.len() == 0 {
        Seq::empty()
    } else {
        let before = user_parts(blocks.drop_last());
        match blocks.last() {
            ContentBlock::Text { text, .. } => before.push(
                JsonView::Object(
                    no_fields().push(("type"@, JsonView::Text("text"@))).push(
                        ("text"@, JsonView::Text(text@)),
                    ),
                ),
            ),
            ContentBlock::Image { media_type, data } => before.push(
                JsonView::Object(
                    no_fields().push(("type"@, JsonView::Text("image_url"@))).push(
                        (
                            "image_url"@,
                            JsonView::Object(
                                no_fields().push(
                                    ("url"@, JsonView::Text(data_uri(media_type@, data@))),
                                ),
                            ),
                        ),
                    ),
                ),
            ),
            _ => before,
        }
    }
}

/// Whether a message holds an image.
pub open spec fn has_image(blocks: Seq<ContentBlock>) -> bool {
    exists|i: int| 0 <= i < blocks.len() && #[trigger] blocks[i] is Image
}

/// The tool messages of a user's message.
pub open spec fn tool_messages(blocks: Seq<ContentBlock>) -> Seq<JsonView>
    decreases blocks.len(),
{
    if blocks.len() == 0 {
        Seq::empty()
    } else {
        let before = tool_messages(blocks.drop_last());
        match blocks.last() {
            ContentBlock::ToolResult { tool_use_id, content, .. } => before.push(
                JsonView::Object(
                    no_fields().push(("role"@, JsonView::Text("tool"@))).push(
                        ("tool_call_id"@, JsonView::Text(tool_use_id@)),
                    ).push(("content"@, JsonView::Text(content@))),
                ),
            ),
            _ => before,
        }
    }
}

/// The messages that a user's message becomes: what the user said, as parts where there
/// is an image and as plain text otherwise, then the tool results.
pub open spec fn user_messages(blocks: Seq<ContentBlock>) -> Seq<JsonView> {
    let said = if has_image(blocks) {
        Seq::empty().push(said_by("user"@, JsonView::Array(user_parts(blocks))))
    } else if lines_of_text(blocks).len() > 0 {
        Seq::empty().push(said_by("user"@, JsonView::Text(lines_of_text(blocks))))
    } else {
        Seq::empty()
    };
    said + tool_messages(blocks)
}

/// A tool call, its arguments as JSON text.
pub open spec fn call_payload(id: Seq<char>, name: Seq<char>, input: JsonView) -> JsonView {
    JsonView::Object(
        no_fields().push(("id"@, JsonView::Text(id))).push(
            ("type"@, JsonView::Text("function"@)),
        ).push(
            (
                "function"@,
                JsonView::Object(
                    no_fields().push(("name"@, JsonView::Text(name))).push(
                        ("arguments"@, JsonView::Text(printed(input))),
                    ),
                ),
            ),
        ),
    )
}

/// The tool calls of an assistant's message.
pub open spec fn tool_calls(blocks: Seq<ContentBlock>) -> Seq<JsonView>
    decreases blocks.len(),
{
    if blocks.len() == 0 {
        Seq::empty()
    } else {
        let before = tool_calls(blocks.drop_last());
        match blocks.last() {
            ContentBlock::ToolUse { id, name, input } => before.push(
                call_payload(id@, name@, input.deep_view()),
            ),
            _ => before,
        }
    }
}

/// The message that an assistant's message becomes. Its content is always there, null
/// where nothing was said.
pub open spec fn assistant_message(blocks: Seq<ContentBlock>) -> JsonView {
    let text = lines_of_text(blocks);
    let fields = no_fields().push(("role"@, JsonView::Text("assistant"@))).push(
        (
            "content"@,
            if text.len() == 0 {
                JsonView::Null
            } else {
                JsonView::Text(text)
            },
        ),
    );
    let calls = tool_calls(blocks);
    JsonView::Object(
        if calls.len() == 0 {
            fields
        } else {
            fields.push(("tool_calls"@, JsonView::Array(calls)))
        },
    )
}

/// The messages that one message becomes.
pub open spec fn messages_for(message: Message) -> Seq<JsonView> {
    match message.role {
        Role::User => user_messages(message.content@),
        Role::Assistant => Seq::empty().push(assistant_message(message.content@)),
    }
}

/// The messages of a conversation under a system prompt.
pub open spec fn conversation(messages: Seq<Message>, system: Seq<char>) -> Seq<JsonView>
    decreases messages.len(),
{
    if messages.len() == 0 {
        if trim(system).len() == 0 {
            Seq::empty()
        } else {
            Seq::empty().push(said_by("system"@, JsonView::Text(system)))
        }
    } else {
        conversation(messages.drop_last(), system) + messages_for(messages.last())
    }
}

fn user_message(blocks: &Vec<ContentBlock>, out: &mut Vec<Json>)
    ensures
        final(out).deep_view() == old(out).deep_view() + user_messages(blocks@),
{
    let mut tool_msgs: Vec<Json> = Vec::new();
    let mut parts: Vec<Json> = Vec::new();
    let mut plain = String::new();
    let mut image = false;
    let mut i: usize = 0;
    let ghost start = out.deep_view();
    assert(tool_msgs.deep_view() =~= Seq::empty());
    assert(parts.deep_view() =~= Seq::empty());
    while i < blocks.len()
        invariant
            i <= blocks@.len(),
            tool_msgs.deep_view() == tool_messages(blocks@.take(i as int)),
            parts.deep_view() == user_parts(blocks@.take(i as int)),
            plain@ == lines_of_text(blocks@.take(i as int)),
            image == exists|k: int| 0 <= k < i && #[trigger] blocks@[k] is Image,
        decreases blocks@.len() - i,
    {
        assert(blocks@.take(i + 1).drop_last() =~= blocks@.take(i as int));
        match &blocks[i] {
            ContentBlock::ToolResult { tool_use_id, content, .. } => {
                let mut fields = empty_fields();
                put(&mut fields, "role", text("tool"));
                put(&mut fields, "tool_call_id", Json::Text(tool_use_id.clone()));
                put(&mut fields, "content", Json::Text(content.clone()));
                push_to(&mut tool_msgs, object(fields));
            },
            ContentBlock::Text { text: said, .. } => {
                if !plain.as_str().is_empty() {
                    plain.append("\n");
                }
                plain.append(said.as_str());
                let mut fields = empty_fields();
                put(&mut fields, "type", text("text"));
                put(&mut fields, "text", Json::Text(said.clone()));
                push_to(&mut parts, object(fields));
            },
            ContentBlock::Image { media_type, data } => {
                let mut url = empty_fields();
                put(
                    &mut url,
                    "url",
                    Json::Text(make_data_uri(media_type.as_str(), data.as_str())),
                );
                let mut fields = empty_fields();
                put(&mut fields, "type", text("image_url"));
                put(&mut fields, "image_url", object(url));
                push_to(&mut parts, object(fields));
                image = true;
                assert(blocks@[i as int] is Image);
            },
            _ => {},
        }
        i = i + 1;
    }
    assert(blocks@.take(i as int) =~= blocks@);
    if image {
        push_to(out, say("user", array(parts)));
    } else if !plain.as_str().is_empty() {
        push_to(out, say("user", Json::Text(plain)));
    }
    let ghost said = out.deep_view();
    let ghost results = tool_msgs.deep_view();
    out.append(&mut tool_msgs);
    proof {
        assert(out.deep_view() =~= said + results);
        assert(out.deep_view() =~= start + user_messages(blocks@));
    }
}

fn make_assistant(blocks: &Vec<ContentBlock>) -> (r: Json)
    ensures
        r.deep_view() == assistant_message(blocks@),
{
    let mut said = String::new();
    let mut calls: Vec<Json> = Vec::new();
    let mut i: usize = 0;
    assert(calls.deep_view() =~= Seq::empty());
    while i < blocks.len()
        invariant
            i <= blocks@.len(),
            said@ == lines_of_text(blocks@.take(i as int)),
            calls.deep_view() == tool_calls(blocks@.take(i as int)),
        decreases blocks@.len() - i,
    {
        assert(blocks@.take(i + 1).drop_last() =~= blocks@.take(i as int));
        match &blocks[i] {
            ContentBlock::Text { text: t, .. } => {
                if !said.as_str().is_empty() {
                    said.append("\n");
                }
                said.append(t.as_str());
            },
            ContentBlock::ToolUse { id, name, input } => {
                let mut function = empty_fields();
                put(&mut function, "name", Json::Text(name.clone()));
                put(&mut function, "arguments", Json::Text(input.print()));
                let mut call = empty_fields();
                put(&mut call, "id", Json::Text(id.clone()));
                put(&mut call, "type", text("function"));
                put(&mut call, "function", object(function));
                push_to(&mut calls, object(call));
            },
            _ => {},
        }
        i = i + 1;
    }
    assert(blocks@.take(i as int) =~= blocks@);
    let mut fields = empty_fields();
    put(&mut fields, "role", text("assistant"));
    let content = if said.as_str().is_empty() {
        Json::Null
    } else {
        Json::Text(said)
    };
    put(&mut fields, "content", content);
    if calls.len() > 0 {
        put(&mut fields, "tool_calls", array(calls));
    }
    object(fields)
}

/// The messages of a conversation under a system prompt.
pub fn messages_to_openai(messages: &Vec<Message>, system: &str) -> (r: Vec<Json>)
    ensures
        r.deep_view() == conversation(messages@, system@),
{
    let mut out: Vec<Json> = Vec::new();
    let mut i: usize = 0;
    assert(out.deep_view() =~= Seq::empty());
    if !trimmed(system).as_str().is_empty() {
        push_to(&mut out, say("system", text(system)));
    }
    while i < messages.len()
        invariant
            i <= messages@.len(),
            out.deep_view() == conversation(messages@.take(i as int), system@),
        decreases messages@.len() - i,
    {
        let ghost before = out.deep_view();
        assert(messages@.take(i + 1).drop_last() =~= messages@.take(i as int));
        match messages[i].role {
            Role::User => {
                user_message(&messages[i].content, &mut out);
            },
            Role::Assistant => {
                push_to(&mut out, make_assistant(&messages[i].content));
                assert(out.deep_view() =~= before + messages_for(messages@[i as int]));
            },
        }
        i = i + 1;
    }
    assert(messages@.take(i as int) =~= messages@);
    out
}

/// A tool as the payload describes it.
pub open spec fn tool_payload(tool: ToolDefinition) -> JsonView {
    JsonView::Object(
        no_fields().push(("type"@, JsonView::Text("function"@))).push(
            (
                "function"@,
                JsonView::Object(
                    no_fields().push(("name"@, JsonView::Text(tool.name@))).push(
                        ("description"@, JsonView::Text(tool.description@)),
                    ).push(("parameters"@, tool.input_schema.deep_view())),
                ),
            ),
        ),
    )
}

/// The tools as the payload describes them.
pub open spec fn tool_payloads(tools: Seq<ToolDefinition>) -> Seq<JsonView> {
    tools.map_values(|tool: ToolDefinition| tool_payload(tool))
}

/// The payload of a request.
pub open spec fn request_payload(
    cfg: OpenAiConfig,
    messages: Seq<Message>,
    tools: Seq<ToolDefinition>,
    system: Seq<char>,
) -> JsonView {
    let fields = no_fields().push(("model"@, JsonView::Text(cfg.model@))).push(
        ("messages"@, JsonView::Array(conversation(messages, system))),
    ).push(
        ("max_tokens"@, JsonView::Number(NumberView::Unsigned(cfg.max_tokens as u64))),
    ).push(("stream"@, JsonView::Bool(true))).push(
        (
            "stream_options"@,
            JsonView::Object(no_fields().push(("include_usage"@, JsonView::Bool(true)))),
        ),
    );
    JsonView::Object(
        if tools.len() == 0 {
            fields
        } else {
            fields.push(("tools"@, JsonView::Array(tool_payloads(tools))))
        },
    )
}

/// OpenAI-compatible provider.
#[derive(Debug)]
pub struct OpenAiProvider {
    name: &'static str,
    config: OpenAiConfig,
}

impl OpenAiProvider {
    /// The present configuration.
    pub closed spec fn configuration(&self) -> OpenAiConfig {
        self.config
    }

    /// The name that the provider shows in logs.
    pub closed spec fn label(&self) -> Seq<char> {
        self.name@
    }

    /// A provider that shows as `openai`.
    pub fn new(config: OpenAiConfig) -> (r: OpenAiProvider)
        ensures
            r.configuration() == config,
            r.label() == "openai"@,
    {
        OpenAiProvider::named("openai", config)
    }

    /// A provider that shows as `mistral`.
    pub fn mistral(config: OpenAiConfig) -> (r: OpenAiProvider)
        ensures
            r.configuration() == config,
            r.label() == "mistral"@,
    {
        OpenAiProvider::named("mistral", config)
    }

    /// A provider that shows under the given name.
    pub fn named(name: &'static str, config: OpenAiConfig) -> (r: OpenAiProvider)
        ensures
            r.configuration() == config,
            r.label() == name@,
    {
        OpenAiProvider { name, config }
    }

    /// A copy of the present configuration.
    pub fn snapshot_config(&self) -> (r: OpenAiConfig)
        ensures
            r == self.configuration(),
    {
        self.config.clone()
    }

    /// The payload of a request.
    pub fn build_payload(
        &self,
        cfg: &OpenAiConfig,
        messages: &Vec<Message>,
        tools: &Vec<ToolDefinition>,
        system: &str,
    ) -> (r: Json)
        ensures
            r.deep_view() == request_payload(*cfg, messages@, tools@, system@),
    {
        let mut fields = empty_fields();
        put(&mut fields, "model", Json::Text(cfg.model.clone()));
        put(&mut fields, "messages", array(messages_to_openai(messages, system)));
        put(&mut fields, "max_tokens", number(cfg.max_tokens as u64));
        put(&mut fields, "stream", Json::Bool(true));
        let mut options = empty_fields();
        put(&mut options, "include_usage", Json::Bool(true));
        put(&mut fields, "stream_options", object(options));
        if tools.len() > 0 {
            let mut defs: Vec<Json> = Vec::new();
            let mut i: usize = 0;
            while i < tools.len()
                invariant
                    i <= tools@.len(),
                    defs.deep_view() =~= tool_payloads(tools@).take(i as int),
                decreases tools@.len() - i,
            {
                let tool = &tools[i];
                let mut function = empty_fields();
                put(&mut function, "name", Json::Text(tool.name.clone()));
                put(&mut function, "description", Json::Text(tool.description.clone()));
                put(&mut function, "parameters", tool.input_schema.clone());
                let mut def = empty_fields();
                put(&mut def, "type", text("function"));
                put(&mut def, "function", object(function));
                push_to(&mut defs, object(def));
                i = i + 1;
            }
            assert(tool_payloads(tools@).take(i as int) =~= tool_payloads(tools@));
            put(&mut fields, "tools", array(defs));
        }
        object(fields)
    }

    /// The request for a completion.
    pub fn request(
        &self,
        messages: &Vec<Message>,
        tools: &Vec<ToolDefinition>,
        system: &str,
    ) -> (r: HttpRequest)
        ensures
            r.deep_view() == (HttpRequestView {
                url: chat_endpoint(self.configuration().base_url@),
                headers: stream_headers().push(
                    ("authorization"@, "Bearer "@ + self.configuration().api_key@),
                ),
                body: request_payload(self.configuration(), messages@, tools@, system@),
            }),
    {
        let cfg = self.snapshot_config();
        let body = self.build_payload(&cfg, messages, tools, system);
        let mut headers = make_stream_headers();
        add_header(
            &mut headers,
            "authorization",
            labelled("Bearer ", cfg.api_key.as_str()).as_str(),
        );
        HttpRequest { url: chat_url(&cfg), headers, body }
    }

    /// The name that the provider shows in logs.
    pub fn name(&self) -> (r: &'static str)
        ensures
            r@ == self.label(),
    {
        self.name
    }

    /// The present model.
    pub fn model(&self) -> (r: String)
        ensures
            r@ == self.configuration().model@,
    {
        self.config.model.clone()
    }

    /// Whether the provider takes images.
    pub fn supports_image_input(&self) -> (r: bool)
        ensures
            r,
    {
        true
    }

    /// Switches to another model.
    pub fn set_model(&mut self, model: &str) -> (r: Result<(), ProviderError>)
        ensures
            r is Ok,
            final(self).label() == old(self).label(),
            final(self).configuration().model@ == model@,
            final(self).configuration() == (OpenAiConfig {
                model: final(self).configuration().model,
                ..old(self).configuration()
            }),
    {
        self.config.model = model.to_owned();
        Ok(())
    }

    /// A provider of its own with the same name and configuration.
    pub fn fork(&self) -> (r: OpenAiProvider)
        ensures
            r.configuration() == self.configuration(),
            r.label() == self.label(),
    {
        OpenAiProvider { name: self.name, config: self.config.clone() }
    }
}

/// The URL of the chat endpoint.
pub open spec fn chat_endpoint(base_url: Seq<char>) -> Seq<char> {
    trim_end_char(base_url, '/') + "/chat/completions"@
}

/// The URL of the chat endpoint.
pub fn chat_url(cfg: &OpenAiConfig) -> (r: String)
    ensures
        r@ == chat_endpoint(cfg.base_url@),
{
    let mut out = trimmed_end_char(cfg.base_url.as_str(), '/');
    out.append("/chat/completions");
    out
}

/// What the data of an event is.
#[derive(Debug, PartialEq)]
pub enum ChatData {
    /// Nothing to read.
    Blank,
    /// The end of the stream.
    Done,
    /// A chunk to be decoded.
    Chunk(String),
}

/// Tells what the data of an event is.
pub fn chat_data(data: &str) -> (r: ChatData)
    ensures
        match r {
            ChatData::Blank => trim(data@).len() == 0,
            ChatData::Done => trim(data@).len() > 0 && trim(data@) == "[DONE]"@,
            ChatData::Chunk(chunk) => trim(data@).len() > 0 && trim(data@) != "[DONE]"@ && chunk@
                == trim(data@),
        },
{
    let data = trimmed(data);
    if data.as_str().is_empty() {
        ChatData::Blank
    } else if same(data.as_str(), "[DONE]") {
        ChatData::Done
    } else {
        ChatData::Chunk(data)
    }
}

/// A chunk of the stream.
#[derive(Debug)]
pub struct ChatChunk {
    pub choices: Vec<ChatChoice>,
    pub usage: Option<Usage>,
}

/// One of the answers in a chunk.
#[derive(Debug)]
pub struct ChatChoice {
    pub delta: Delta,
    pub finish_reason: Option<String>,
}

/// What a chunk adds to an answer.
#[derive(Debug)]
pub struct Delta {
    pub content: Option<String>,
    pub tool_calls: Vec<ToolCallDelta>,
}

/// What a chunk adds to a tool call.
#[derive(Debug)]
pub struct ToolCallDelta {
    pub index: u64,
    pub id: Option<String>,
    pub function: Option<FunctionDelta>,
}

/// What a chunk adds to the function of a tool call.
#[derive(Debug)]
pub struct FunctionDelta {
    pub name: Option<String>,
    pub arguments: Option<String>,
}

/// Token counts.
#[derive(Debug)]
pub struct Usage {
    pub prompt_tokens: Option<u64>,
    pub completion_tokens: Option<u64>,
}

/// The model of a chunk.
pub ghost struct ChunkView {
    pub choices: Seq<ChoiceView>,
    pub usage: Option<Usage>,
}

/// The model of one of the answers in a chunk.
pub ghost struct ChoiceView {
    pub content: Option<Seq<char>>,
    pub calls: Seq<CallView>,
    pub finish_reason: Option<Seq<char>>,
}

/// The model of what a chunk adds to a tool call.
pub ghost struct CallView {
    pub index: u64,
    pub id: Option<Seq<char>>,
    pub name: Option<Seq<char>>,
    pub arguments: Option<Seq<char>>,
}

impl DeepView for ToolCallDelta {
    type V = CallView;

    open spec fn deep_view(&self) -> CallView {
        CallView {
            index: self.index,
            id: self.id.deep_view(),
            name: match self.function {
                Some(function) => function.name.deep_view(),
                None => None,
            },
            arguments: match self.function {
                Some(function) => function.arguments.deep_view(),
                None => None,
            },
        }
    }
}

impl DeepView for ChatChoice {
    type V = ChoiceView;

    open spec fn deep_view(&self) -> ChoiceView {
        ChoiceView {
            content: self.delta.content.deep_view(),
            calls: self.delta.tool_calls.deep_view(),
            finish_reason: self.finish_reason.deep_view(),
        }
    }
}

impl DeepView for ChatChunk {
    type V = ChunkView;

    open spec fn deep_view(&self) -> ChunkView {
        ChunkView { choices: self.choices.deep_view(), usage: self.usage }
    }
}

/// What a tool call in a chunk adds.
pub open spec fn call_in(json: JsonView) -> Option<CallView> {
    let function = json.filled("function"@);
    let parts = match function {
        None => Some((None, None)),
        Some(function) => match (
            function is Object,
            function.optional_text("name"@),
            function.optional_text("arguments"@),
        ) {
            (true, Some(name), Some(arguments)) => Some((name, arguments)),
            _ => None,
        },
    };
    let index = match json.get("index"@) {
        None => Some(0u64),
        Some(value) => value.unsigned(),
    };
    match (json is Object, index, json.optional_text("id"@), parts) {
        (true, Some(index), Some(id), Some((name, arguments))) => Some(
            CallView { index, id, name, arguments },
        ),
        _ => None,
    }
}

/// What the tool calls in a chunk add, where each is one.
pub open spec fn calls_in(items: Seq<JsonView>) -> Option<Seq<CallView>>
    decreases items.len(),
{
    if items.len() == 0 {
        Some(Seq::empty())
    } else {
        match (calls_in(items.drop_last()), call_in(items.last())) {
            (Some(before), Some(call)) => Some(before.push(call)),
            _ => None,
        }
    }
}

/// What an answer in a chunk adds.
pub open spec fn choice_in(json: JsonView) -> Option<ChoiceView> {
    let delta = match json.get("delta"@) {
        None => JsonView::Object(no_fields()),
        Some(delta) => delta,
    };
    match (
        json is Object && delta is Object,
        delta.optional_text("content"@),
        delta.items_or_none("tool_calls"@),
        json.optional_text("finish_reason"@),
    ) {
        (true, Some(content), Some(items), Some(finish_reason)) => match calls_in(items) {
            Some(calls) => Some(ChoiceView { content, calls, finish_reason }),
            None => None,
        },
        _ => None,
    }
}

/// What the answers in a chunk add, where each is one.
pub open spec fn choices_in(items: Seq<JsonView>) -> Option<Seq<ChoiceView>>
    decreases items.len(),
{
    if items.len() == 0 {
        Some(Seq::empty())
    } else {
        match (choices_in(items.drop_last()), choice_in(items.last())) {
            (Some(before), Some(choice)) => Some(before.push(choice)),
            _ => None,
        }
    }
}

/// The token counts in a chunk; the outer `None` where they are malformed.
pub open spec fn usage_in(value: Option<JsonView>) -> Option<Option<Usage>> {
    match value {
        None => Some(None),
        Some(json) => match (
            json is Object,
            json.optional_unsigned("prompt_tokens"@),
            json.optional_unsigned("completion_tokens"@),
        ) {
            (true, Some(prompt_tokens), Some(completion_tokens)) => Some(
                Some(Usage { prompt_tokens, completion_tokens }),
            ),
            _ => None,
        },
    }
}

/// The chunk that a value spells.
pub open spec fn chunk_in(json: JsonView) -> Option<ChunkView> {
    match (json is Object, json.items_or_none("choices"@), usage_in(json.filled("usage"@))) {
        (true, Some(items), Some(usage)) => match choices_in(items) {
            Some(choices) => Some(ChunkView { choices, usage }),
            None => None,
        },
        _ => None,
    }
}

proof fn bad_calls_spoil_all(items: Seq<JsonView>, k: int)
    requires
        0 <= k <= items.len(),
        calls_in(items.take(k)) is None,
    ensures
        calls_in(items) is None,
    decreases items.len() - k,
{
    if k < items.len() {
        assert(items.take(k + 1).drop_last() =~= items.take(k));
        bad_calls_spoil_all(items, k + 1);
    } else {
        assert(items.take(k) =~= items);
    }
}

proof fn bad_choices_spoil_all(items: Seq<JsonView>, k: int)
    requires
        0 <= k <= items.len(),
        choices_in(items.take(k)) is None,
    ensures
        choices_in(items) is None,
    decreases items.len() - k,
{
    if k < items.len() {
        assert(items.take(k + 1).drop_last() =~= items.take(k));
        bad_choices_spoil_all(items, k + 1);
    } else {
        assert(items.take(k) =~= items);
    }
}

impl ToolCallDelta {
    /// What a tool call in a chunk adds.
    pub fn from_json(json: &Json) -> (r: Option<ToolCallDelta>)
        ensures
            r.deep_view() == call_in(json.deep_view()),
    {
        let function = match json.filled_at("function") {
            None => None,
            Some(function) => match (
                function.is_object(),
                function.optional_text_at("name"),
                function.optional_text_at("arguments"),
            ) {
                (true, Some(name), Some(arguments)) => Some(FunctionDelta { name, arguments }),
                _ => {
                    return None;
                },
            },
        };
        let index = match json.get("index") {
            None => Some(0),
            Some(value) => value.as_unsigned(),
        };
        match (json.is_object(), index, json.optional_text_at("id")) {
            (true, Some(index), Some(id)) => Some(ToolCallDelta { index, id, function }),
            _ => None,
        }
    }
}

impl ChatChoice {
    /// What an answer in a chunk adds.
    pub fn from_json(json: &Json) -> (r: Option<ChatChoice>)
        ensures
            r.deep_view() == choice_in(json.deep_view()),
    {
        if !json.is_object() {
            return None;
        }
        let finish_reason = match json.optional_text_at("finish_reason") {
            Some(reason) => reason,
            None => {
                return None;
            },
        };
        let mut tool_calls: Vec<ToolCallDelta> = Vec::new();
        assert(tool_calls.deep_view() =~= Seq::empty());
        let delta = match json.get("delta") {
            None => {
                assert(JsonView::Object(no_fields()).get("content"@) is None);
                assert(JsonView::Object(no_fields()).get("tool_calls"@) is None);
                let delta = Delta { content: None, tool_calls };
                return Some(ChatChoice { delta, finish_reason });
            },
            Some(delta) => delta,
        };
        if !delta.is_object() {
            return None;
        }
        let content = match delta.optional_text_at("content") {
            Some(content) => content,
            None => {
                return None;
            },
        };
        match delta.get("tool_calls") {
            None => {},
            Some(value) => match value.as_items() {
                None => {
                    return None;
                },
                Some(items) => {
                    let ghost all = items.deep_view();
                    let mut i: usize = 0;
                    while i < items.len()
                        invariant
                            i <= items@.len(),
                            all == items.deep_view(),
                            delta.deep_view().items_or_none("tool_calls"@) == Some(all),
                            json.deep_view().get("delta"@) == Some(delta.deep_view()),
                            calls_in(all.take(i as int)) == Some(tool_calls.deep_view()),
                        decreases items@.len() - i,
                    {
                        proof {
                            assert(all.take(i + 1).drop_last() =~= all.take(i as int));
                        }
                        match ToolCallDelta::from_json(&items[i]) {
                            Some(call) => {
                                push_to(&mut tool_calls, call);
                            },
                            None => {
                                proof {
                                    bad_calls_spoil_all(all, i + 1);
                                }
                                return None;
                            },
                        }
                        i = i + 1;
                    }
                    assert(all.take(i as int) =~= all);
                },
            },
        }
        Some(ChatChoice { delta: Delta { content, tool_calls }, finish_reason })
    }
}

impl ChatChunk {
    /// The chunk that a value spells.
    pub fn from_json(json: &Json) -> (r: Option<ChatChunk>)
        ensures
            r.deep_view() == chunk_in(json.deep_view()),
    {
        if !json.is_object() {
            return None;
        }
        let usage = match json.filled_at("usage") {
            None => None,
            Some(value) => match (
                value.is_object(),
                value.optional_unsigned_at("prompt_tokens"),
                value.optional_unsigned_at("completion_tokens"),
            ) {
                (true, Some(prompt_tokens), Some(completion_tokens)) => Some(
                    Usage { prompt_tokens, completion_tokens },
                ),
                _ => {
                    return None;
                },
            },
        };
        let mut choices: Vec<ChatChoice> = Vec::new();
        assert(choices.deep_view() =~= Seq::empty());
        match json.get("choices") {
            None => {},
            Some(value) => match value.as_items() {
                None => {
                    return None;
                },
                Some(items) => {
                    let ghost all = items.deep_view();
                    let mut i: usize = 0;
                    while i < items.len()
                        invariant
                            i <= items@.len(),
                            all == items.deep_view(),
                            json.deep_view().items_or_none("choices"@) == Some(all),
                            choices_in(all.take(i as int)) == Some(choices.deep_view()),
                        decreases items@.len() - i,
                    {
                        proof {
                            assert(all.take(i + 1).drop_last() =~= all.take(i as int));
                        }
                        match ChatChoice::from_json(&items[i]) {
                            Some(choice) => {
                                push_to(&mut choices, choice);
                            },
                            None => {
                                proof {
                                    bad_choices_spoil_all(all, i + 1);
                                }
                                return None;
                            },
                        }
                        i = i + 1;
                    }
                    assert(all.take(i as int) =~= all);
                },
            },
        }
        Some(ChatChunk { choices, usage })
    }
}

/// The model of the stream's state.
pub ghost struct StateView {
    pub open_tool: Option<u64>,
    pub finish_reason: Option<Seq<char>>,
    pub saw_message_end: bool,
}

/// A stream in the middle of a chunk: its state, and what the chunk has put out.
pub ghost struct Progress {
    pub state: StateView,
    pub events: Seq<EventView>,
}

/// The id of a call that is opened.
pub open spec fn call_id(call: CallView) -> Seq<char> {
    match call.id {
        Some(id) => id,
        None => "call_"@ + decimal(call.index as nat),
    }
}

/// The name of a call that is opened.
pub open spec fn call_name(call: CallView) -> Seq<char> {
    match call.name {
        Some(name) => name,
        None => Seq::empty(),
    }
}

/// The events with the end of the open call behind them, where one is open.
pub open spec fn call_closed(p: Progress) -> Seq<EventView> {
    if p.state.open_tool is Some {
        p.events.push(EventView::ToolUseEnd)
    } else {
        p.events
    }
}

/// The progress after a tool call's delta: a new index closes the open call and opens
/// its own, then the argument fragment follows.
pub open spec fn with_call(p: Progress, call: CallView) -> Progress {
    let opened = if p.state.open_tool == Some(call.index) {
        p
    } else {
        Progress {
            state: StateView { open_tool: Some(call.index), ..p.state },
            events: call_closed(p).push(
                EventView::ToolUseStart { id: call_id(call), name: call_name(call) },
            ),
        }
    };
    match call.arguments {
        Some(args) => if args.len() == 0 {
            opened
        } else {
            Progress { events: opened.events.push(EventView::ToolInputDelta(args)), ..opened }
        },
        None => opened,
    }
}

/// The progress after the first `n` tool call deltas.
pub open spec fn with_calls(p: Progress, calls: Seq<CallView>, n: nat) -> Progress
    decreases n,
{
    if n == 0 {
        p
    } else {
        with_call(with_calls(p, calls, (n - 1) as nat), calls[n - 1])
    }
}

/// The progress after an answer's delta.
pub open spec fn with_choice(p: Progress, choice: ChoiceView) -> Progress {
    let said = match choice.content {
        Some(t) => if t.len() == 0 {
            p
        } else {
            Progress { events: p.events.push(EventView::TextDelta(t)), ..p }
        },
        None => p,
    };
    let called = with_calls(said, choice.calls, choice.calls.len());
    match choice.finish_reason {
        Some(reason) => Progress {
            state: StateView { finish_reason: Some(reason), ..called.state },
            ..called
        },
        None => called,
    }
}

/// The progress after the first `n` answers.
pub open spec fn with_choices(p: Progress, choices: Seq<ChoiceView>, n: nat) -> Progress
    decreases n,
{
    if n == 0 {
        p
    } else {
        with_choice(with_choices(p, choices, (n - 1) as nat), choices[n - 1])
    }
}

/// The progress with the message ended: the open call first, then the message.
pub open spec fn with_end(p: Progress) -> Progress {
    Progress {
        state: StateView { open_tool: None, saw_message_end: true, ..p.state },
        events: call_closed(p).push(EventView::MessageEnd { stop_reason: p.state.finish_reason }),
    }
}

/// The progress after a chunk.
pub open spec fn with_chunk(state: StateView, chunk: ChunkView) -> Progress {
    let start = Progress { state, events: Seq::empty() };
    let said = with_choices(start, chunk.choices, chunk.choices.len());
    let counted = match chunk.usage {
        Some(usage) => Progress {
            events: said.events.push(
                EventView::TokenUsage {
                    input_tokens: usage.prompt_tokens,
                    output_tokens: usage.completion_tokens,
                    cache_read_input_tokens: None,
                    cache_creation_input_tokens: None,
                },
            ),
            ..said
        },
        None => said,
    };
    if counted.state.finish_reason is Some && !counted.state.saw_message_end {
        with_end(counted)
    } else {
        counted
    }
}

/// The progress when the stream is over: the message is ended where it was not.
pub open spec fn with_flush(state: StateView) -> Progress {
    let start = Progress { state, events: Seq::empty() };
    if state.saw_message_end {
        start
    } else {
        with_end(start)
    }
}

/// What follows when something comes on the stream, with the data as it was read: blank
/// data passes, the mark of the end and the end itself flush, a chunk is absorbed, and
/// what cannot be decoded ends the completion, without a word where it cannot be quoted.
pub open spec fn stream_step(
    state: StateView,
    input: InputView,
    read: Result<JsonView, Seq<char>>,
) -> (StateView, Option<StepView>) {
    let flushed = with_flush(state);
    match input {
        InputView::Broken(error) => (state, Some(failing(stream_error(error)))),
        InputView::Ended => (flushed.state, Some(closing(flushed.events))),
        InputView::Event { event, data } => {
            let data = trim(data);
            if data.len() == 0 {
                (state, Some(going_on(Seq::empty())))
            } else if data == "[DONE]"@ {
                (flushed.state, Some(closing(flushed.events)))
            } else {
                match read {
                    Err(error) => (state, complaint("OpenAI"@, error, data)),
                    Ok(json) => match chunk_in(json) {
                        None => (state, complaint("OpenAI"@, CHUNK_MISMATCH@, data)),
                        Some(chunk) => {
                            let p = with_chunk(state, chunk);
                            (p.state, Some(going_on(p.events)))
                        },
                    },
                }
            }
        },
    }
}

/// The JSON that the data of an event spells, as it is read.
pub open spec fn data_read(input: InputView) -> Result<JsonView, Seq<char>> {
    match input {
        InputView::Event { event, data } => json_read(trim(data)),
        _ => Err(Seq::empty()),
    }
}

/// The state of a stream.
#[derive(Debug)]
pub struct StreamState {
    open_tool: Option<u64>,
    finish_reason: Option<String>,
    saw_message_end: bool,
}

impl View for StreamState {
    type V = StateView;

    closed spec fn view(&self) -> StateView {
        StateView {
            open_tool: self.open_tool,
            finish_reason: self.finish_reason.deep_view(),
            saw_message_end: self.saw_message_end,
        }
    }
}

impl Default for StreamState {
    fn default() -> (r: StreamState)
        ensures
            r@ == (StateView { open_tool: None, finish_reason: None, saw_message_end: false }),
    {
        StreamState { open_tool: None, finish_reason: None, saw_message_end: false }
    }
}

impl StreamState {
    fn take_call(&mut self, call: &ToolCallDelta, out: &mut Vec<StreamEvent>)
        ensures
            (Progress { state: final(self)@, events: final(out).deep_view() }) == with_call(
                Progress { state: old(self)@, events: old(out).deep_view() },
                call.deep_view(),
            ),
    {
        let is_open = match self.open_tool {
            Some(open) => open == call.index,
            None => false,
        };
        if !is_open {
            if self.open_tool.is_some() {
                push_to(out, StreamEvent::ToolUseEnd);
            }
            let id = match &call.id {
                Some(id) => id.clone(),
                None => labelled("call_", decimal_of(call.index as u128).as_str()),
            };
            let name = match &call.function {
                Some(function) => match &function.name {
                    Some(name) => name.clone(),
                    None => String::new(),
                },
                None => String::new(),
            };
            push_to(out, StreamEvent::ToolUseStart { id, name });
            self.open_tool = Some(call.index);
        }
        match &call.function {
            Some(function) => match &function.arguments {
                Some(args) => {
                    if !args.as_str().is_empty() {
                        push_to(out, StreamEvent::ToolInputDelta(args.clone()));
                    }
                },
                None => {},
            },
            None => {},
        }
    }

    fn take_choice(&mut self, choice: &ChatChoice, out: &mut Vec<StreamEvent>)
        ensures
            (Progress { state: final(self)@, events: final(out).deep_view() }) == with_choice(
                Progress { state: old(self)@, events: old(out).deep_view() },
                choice.deep_view(),
            ),
    {
        match &choice.delta.content {
            Some(t) => {
                if !t.as_str().is_empty() {
                    push_to(out, StreamEvent::TextDelta(t.clone()));
                }
            },
            None => {},
        }
        let calls = &choice.delta.tool_calls;
        let ghost said = Progress { state: self@, events: out.deep_view() };
        let mut i: usize = 0;
        while i < calls.len()
            invariant
                i <= calls@.len(),
                (Progress { state: self@, events: out.deep_view() }) == with_calls(
                    said,
                    calls.deep_view(),
                    i as nat,
                ),
            decreases calls@.len() - i,
        {
            self.take_call(&calls[i], out);
            i = i + 1;
        }
        match &choice.finish_reason {
            Some(reason) => {
                self.finish_reason = Some(reason.clone());
            },
            None => {},
        }
    }

    fn end(&mut self, out: &mut Vec<StreamEvent>)
        ensures
            (Progress { state: final(self)@, events: final(out).deep_view() }) == with_end(
                Progress { state: old(self)@, events: old(out).deep_view() },
            ),
    {
        if self.open_tool.is_some() {
            push_to(out, StreamEvent::ToolUseEnd);
        }
        self.open_tool = None;
        push_to(out, StreamEvent::MessageEnd { stop_reason: self.finish_reason.clone() });
        self.saw_message_end = true;
    }

    /// Takes a chunk of the stream, and hands out what it comes to.
    pub fn absorb(&mut self, chunk: &ChatChunk) -> (r: Vec<StreamEvent>)
        ensures
            (Progress { state: final(self)@, events: r.deep_view() }) == with_chunk(
                old(self)@,
                chunk.deep_view(),
            ),
    {
        let mut out: Vec<StreamEvent> = Vec::new();
        assert(out.deep_view() =~= Seq::empty());
        let ghost start = Progress { state: self@, events: Seq::empty() };
        let mut i: usize = 0;
        while i < chunk.choices.len()
            invariant
                i <= chunk.choices@.len(),
                (Progress { state: self@, events: out.deep_view() }) == with_choices(
                    start,
                    chunk.choices.deep_view(),
                    i as nat,
                ),
            decreases chunk.choices@.len() - i,
        {
            self.take_choice(&chunk.choices[i], &mut out);
            i = i + 1;
        }
        match &chunk.usage {
            Some(usage) => {
                push_to(
                    &mut out,
                    StreamEvent::TokenUsage {
                        input_tokens: usage.prompt_tokens,
                        output_tokens: usage.completion_tokens,
                        cache_read_input_tokens: None,
                        cache_creation_input_tokens: None,
                    },
                );
            },
            None => {},
        }
        if self.finish_reason.is_some() && !self.saw_message_end {
            self.end(&mut out);
        }
        out
    }

    /// Takes what comes next on the stream, and says what to hand on: nothing at all where
    /// the data can neither be decoded nor quoted.
    pub fn step(&mut self, input: StreamInput) -> (r: Option<StreamStep>)
        ensures
            (final(self)@, r.deep_view()) == stream_step(
                old(self)@,
                input.deep_view(),
                data_read(input.deep_view()),
            ),
    {
        match input {
            StreamInput::Broken(error) => Some(fail(sse_decode_error(error.as_str()))),
            StreamInput::Ended => Some(close(self.flush())),
            StreamInput::Event { event: _, data } => match chat_data(data.as_str()) {
                ChatData::Blank => Some(pass()),
                ChatData::Done => Some(close(self.flush())),
                ChatData::Chunk(data) => match Json::parse(data.as_str()) {
                    Err(error) => complain("OpenAI", error.as_str(), data.as_str()),
                    Ok(json) => match ChatChunk::from_json(&json) {
                        None => complain("OpenAI", CHUNK_MISMATCH, data.as_str()),
                        Some(chunk) => Some(go_on(self.absorb(&chunk))),
                    },
                },
            },
        }
    }

    /// Ends the message where the stream stopped without saying so.
    pub fn flush(&mut self) -> (r: Vec<StreamEvent>)
        ensures
            (Progress { state: final(self)@, events: r.deep_view() }) == with_flush(old(self)@),
    {
        let mut out: Vec<StreamEvent> = Vec::new();
        assert(out.deep_view() =~= Seq::empty());
        if !self.saw_message_end {
            self.end(&mut out);
        }
        out
    }
}

/// How many tool calls the events start.
pub open spec fn starts(events: Seq<EventView>) -> int
    decreases events.len(),
{
    if events.len() == 0 {
        0
    } else {
        starts(events.drop_last()) + if events.last() is ToolUseStart {
            1int
        } else {
            0
        }
    }
}

/// How many tool calls the events end.
pub open spec fn ends(events: Seq<EventView>) -> int
    decreases events.len(),
{
    if events.len() == 0 {
        0
    } else {
        ends(events.drop_last()) + if events.last() is ToolUseEnd {
            1int
        } else {
            0
        }
    }
}

/// How often the events end the message.
pub open spec fn message_ends(events: Seq<EventView>) -> int
    decreases events.len(),
{
    if events.len() == 0 {
        0
    } else {
        message_ends(events.drop_last()) + if events.last() is MessageEnd {
            1int
        } else {
            0
        }
    }
}

/// One where a tool call is open, else none.
pub open spec fn open_calls(state: StateView) -> int {
    if state.open_tool is Some {
        1
    } else {
        0
    }
}

/// Whether the calls that were open before and those started since are those ended
/// since and those open now, and the message was not ended.
spec fn balanced(before: StateView, p: Progress) -> bool {
    &&& open_calls(before) + starts(p.events) == ends(p.events) + open_calls(p.state)
    &&& message_ends(p.events) == 0
    &&& p.state.saw_message_end == before.saw_message_end
}

proof fn push_counts(events: Seq<EventView>, event: EventView)
    ensures
        starts(events.push(event)) == starts(events) + (if event is ToolUseStart {
            1int
        } else {
            0
        }),
        ends(events.push(event)) == ends(events) + (if event is ToolUseEnd {
            1int
        } else {
            0
        }),
        message_ends(events.push(event)) == message_ends(events) + (if event is MessageEnd {
            1int
        } else {
            0
        }),
{
    assert(events.push(event).drop_last() =~= events);
}

proof fn call_balanced(before: StateView, p: Progress, call: CallView)
    requires
        balanced(before, p),
    ensures
        balanced(before, with_call(p, call)),
{
    let start = EventView::ToolUseStart { id: call_id(call), name: call_name(call) };
    push_counts(p.events, EventView::ToolUseEnd);
    push_counts(call_closed(p), start);
    match call.arguments {
        Some(args) => {
            push_counts(p.events, EventView::ToolInputDelta(args));
            push_counts(call_closed(p).push(start), EventView::ToolInputDelta(args));
        },
        None => {},
    }
}

proof fn calls_balanced(before: StateView, p: Progress, calls: Seq<CallView>, n: nat)
    requires
        balanced(before, p),
    ensures
        balanced(before, with_calls(p, calls, n)),
    decreases n,
{
    if n > 0 {
        calls_balanced(before, p, calls, (n - 1) as nat);
        call_balanced(before, with_calls(p, calls, (n - 1) as nat), calls[n - 1]);
    }
}

proof fn choices_balanced(before: StateView, p: Progress, choices: Seq<ChoiceView>, n: nat)
    requires
        balanced(before, p),
    ensures
        balanced(before, with_choices(p, choices, n)),
    decreases n,
{
    if n > 0 {
        choices_balanced(before, p, choices, (n - 1) as nat);
        let q = with_choices(p, choices, (n - 1) as nat);
        let choice = choices[n - 1];
        match choice.content {
            Some(t) => {
                push_counts(q.events, EventView::TextDelta(t));
            },
            None => {},
        }
        let said = match choice.content {
            Some(t) => if t.len() == 0 {
                q
            } else {
                Progress { events: q.events.push(EventView::TextDelta(t)), ..q }
            },
            None => q,
        };
        calls_balanced(before, said, choice.calls, choice.calls.len());
    }
}

/// Every tool call that is started is ended, once: over any chunk, the calls open before
/// it and those it starts are those it ends and those open after it. A message is ended
/// once, with no call left open.
pub proof fn chunks_keep_calls_balanced(state: StateView, chunk: ChunkView)
    ensures
        ({
            let p = with_chunk(state, chunk);
            &&& open_calls(state) + starts(p.events) == ends(p.events) + open_calls(p.state)
            &&& message_ends(p.events) == if p.state.saw_message_end && !state.saw_message_end {
                1int
            } else {
                0
            }
            &&& p.state.saw_message_end && !state.saw_message_end ==> p.state.open_tool is None
        }),
{
    let start = Progress { state, events: Seq::empty() };
    choices_balanced(state, start, chunk.choices, chunk.choices.len());
    let said = with_choices(start, chunk.choices, chunk.choices.len());
    match chunk.usage {
        Some(usage) => {
            push_counts(
                said.events,
                EventView::TokenUsage {
                    input_tokens: usage.prompt_tokens,
                    output_tokens: usage.completion_tokens,
                    cache_read_input_tokens: None,
                    cache_creation_input_tokens: None,
                },
            );
        },
        None => {},
    }
    let counted = match chunk.usage {
        Some(usage) => Progress {
            events: said.events.push(
                EventView::TokenUsage {
                    input_tokens: usage.prompt_tokens,
                    output_tokens: usage.completion_tokens,
                    cache_read_input_tokens: None,
                    cache_creation_input_tokens: None,
                },
            ),
            ..said
        },
        None => said,
    };
    assert(balanced(state, counted));
    push_counts(counted.events, EventView::ToolUseEnd);
    push_counts(
        call_closed(counted),
        EventView::MessageEnd { stop_reason: counted.state.finish_reason },
    );
}

/// The end of a stream ends the message where no chunk did, closes an open call first,
/// and does so once: a second flush says nothing.
pub proof fn flush_ends_the_message_once(state: StateView)
    ensures
        ({
            let p = with_flush(state);
            &&& p.state.saw_message_end
            &&& message_ends(p.events) == if state.saw_message_end {
                0int
            } else {
                1
            }
            &&& !state.saw_message_end ==> p.state.open_tool is None && ends(p.events)
                == open_calls(state)
            &&& with_flush(p.state).events == Seq::<EventView>::empty()
        }),
{
    let start = Progress { state, events: Seq::empty() };
    push_counts(start.events, EventView::ToolUseEnd);
    push_counts(
        call_closed(start),
        EventView::MessageEnd { stop_reason: state.finish_reason },
    );
}

/// The state of a stream after several inputs, each with its data as it was read, and all
/// events that were handed on.
pub open spec fn stream_run(inputs: Seq<(InputView, Result<JsonView, Seq<char>>)>) -> Progress
    decreases inputs.len(),
{
    if inputs.len() == 0 {
        Progress {
            state: StateView { open_tool: None, finish_reason: None, saw_message_end: false },
            events: Seq::empty(),
        }
    } else {
        let before = stream_run(inputs.drop_last());
        let (state, step) = stream_step(before.state, inputs.last().0, inputs.last().1);
        Progress {
            state,
            events: match step {
                Some(step) => before.events + step.events,
                None => before.events,
            },
        }
    }
}

proof fn counts_add(a: Seq<EventView>, b: Seq<EventView>)
    ensures
        starts(a + b) == starts(a) + starts(b),
        ends(a + b) == ends(a) + ends(b),
        message_ends(a + b) == message_ends(a) + message_ends(b),
    decreases b.len(),
{
    if b.len() == 0 {
        assert(a + b =~= a);
    } else {
        counts_add(a, b.drop_last());
        assert((a + b).drop_last() =~= a + b.drop_last());
        assert((a + b).last() == b.last());
    }
}

/// Whatever comes on a stream, the message is ended at most once, every tool call that was
/// started is ended but the one that is open, and when the stream ends in good order the
/// message has been ended.
pub proof fn streams_are_well_formed(inputs: Seq<(InputView, Result<JsonView, Seq<char>>)>)
    ensures
        ({
            let p = stream_run(inputs);
            &&& message_ends(p.events) == if p.state.saw_message_end {
                1int
            } else {
                0
            }
            &&& starts(p.events) == ends(p.events) + open_calls(p.state)
            &&& inputs.len() > 0 && inputs.last().0 is Ended ==> p.state.saw_message_end
        }),
    decreases inputs.len(),
{
    if inputs.len() > 0 {
        streams_are_well_formed(inputs.drop_last());
        let before = stream_run(inputs.drop_last());
        let (state, step) = stream_step(before.state, inputs.last().0, inputs.last().1);
        flush_ends_the_message_once(before.state);
        flushes_start_nothing(before.state);
        match inputs.last().1 {
            Ok(json) => match chunk_in(json) {
                Some(chunk) => {
                    chunks_keep_calls_balanced(before.state, chunk);
                    ends_stay_ends(before.state, chunk);
                },
                None => {},
            },
            Err(_) => {},
        }
        match step {
            Some(step) => {
                counts_add(before.events, step.events);
            },
            None => {},
        }
    }
}

proof fn ends_stay_ends(state: StateView, chunk: ChunkView)
    ensures
        state.saw_message_end ==> with_chunk(state, chunk).state.saw_message_end,
{
    let start = Progress { state, events: Seq::empty() };
    choices_balanced(state, start, chunk.choices, chunk.choices.len());
}

proof fn flushes_start_nothing(state: StateView)
    ensures
        starts(with_flush(state).events) == 0,
        open_calls(state) == ends(with_flush(state).events) + open_calls(with_flush(state).state),
{
    let start = Progress { state, events: Seq::empty() };
    push_counts(start.events, EventView::ToolUseEnd);
    push_counts(
        call_closed(start),
        EventView::MessageEnd { stop_reason: state.finish_reason },
    );
}

} // verus!
