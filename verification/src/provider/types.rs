//! Messages, content blocks and the request, response and event types that drivers
//! exchange with their callers.
use vstd::prelude::*;

use crate::json::{Json, JsonNumber, JsonView, printed};
use crate::text::{decimal, decimal_of, labelled};

verus! {

/// Who speaks.
#[derive(Debug, Clone, Copy, PartialEq, Eq, Structural)]
pub enum Role {
    System,
    User,
    Assistant,
}

/// Why a model stopped.
#[derive(Debug, Clone, Copy, PartialEq, Eq, Structural)]
pub enum StopReason {
    EndTurn,
    ToolUse,
    MaxTokens,
}

/// Token counts of one completion.
#[derive(Debug, Clone, Copy, PartialEq, Eq, Structural)]
pub struct TokenUsage {
    pub input_tokens: u64,
    pub output_tokens: u64,
    pub cache_read_tokens: u64,
    pub cache_write_tokens: u64,
}

impl Default for TokenUsage {
    fn default() -> (r: TokenUsage)
        ensures
            r == no_usage(),
    {
        TokenUsage {
            input_tokens: 0,
            output_tokens: 0,
            cache_read_tokens: 0,
            cache_write_tokens: 0,
        }
    }
}

/// No tokens at all.
pub open spec fn no_usage() -> TokenUsage {
    TokenUsage { input_tokens: 0, output_tokens: 0, cache_read_tokens: 0, cache_write_tokens: 0 }
}

/// Where a tool's answer came from.
#[derive(Debug)]
pub struct ProvenanceSource {
    pub id: String,
    pub uri: String,
    pub snippet: Option<String>,
}

impl ProvenanceSource {
    /// A source without a snippet.
    pub fn new(id: String, uri: String) -> (r: ProvenanceSource)
        ensures
            r.id@ == id@,
            r.uri@ == uri@,
            r.snippet is None,
    {
        ProvenanceSource { id, uri, snippet: None }
    }

    /// The source with a snippet of what it says.
    pub fn with_snippet(self, snippet: String) -> (r: ProvenanceSource)
        ensures
            r.id@ == self.id@,
            r.uri@ == self.uri@,
            r.snippet.deep_view() == Some(snippet@),
    {
        ProvenanceSource { id: self.id, uri: self.uri, snippet: Some(snippet) }
    }
}

/// What a tool gave back: a value, or a stored artifact with a preview.
#[derive(Debug)]
pub enum ToolResultPayload {
    Inline(Json),
    Artifact { id: String, preview: String, mime: String, size: u64 },
}

/// A payload as the text that a model reads: a text value as it is, any other value
/// as compact JSON, an artifact as its preview and a line that names it.
pub open spec fn payload_text(payload: ToolResultPayload) -> Seq<char> {
    match payload {
        ToolResultPayload::Inline(value) => match value.deep_view() {
            JsonView::Text(t) => t,
            other => printed(other),
        },
        ToolResultPayload::Artifact { id, preview, mime, size } => preview@ + "\n[artifact "@ + id@
            + ", "@ + mime@ + ", "@ + decimal(size as nat) + " bytes]"@,
    }
}

impl ToolResultPayload {
    /// The payload as the text that a model reads.
    pub fn text(&self) -> (r: String)
        ensures
            r@ == payload_text(*self),
    {
        match self {
            ToolResultPayload::Inline(value) => match value {
                Json::Text(t) => t.clone(),
                other => other.print(),
            },
            ToolResultPayload::Artifact { id, preview, mime, size } => {
                let mut out = preview.clone();
                out.append("\n[artifact ");
                out.append(id.as_str());
                out.append(", ");
                out.append(mime.as_str());
                out.append(", ");
                out.append(decimal_of(*size as u128).as_str());
                out.append(" bytes]");
                out
            },
        }
    }
}

/// A block of a message.
#[derive(Debug)]
pub enum ContentBlock {
    Text { text: String, provider_metadata: Option<Json> },
    Thinking { thinking: String, signature: Option<String>, provider_metadata: Option<Json> },
    RedactedThinking { data: String },
    ToolUse { id: String, name: String, input: Json, provider_metadata: Option<Json> },
    ToolResult {
        tool_use_id: String,
        tool_name: String,
        content: ToolResultPayload,
        is_error: bool,
        provenance: Vec<ProvenanceSource>,
    },
    Image { media_type: String, data: String },
    File { media_type: String, data: String },
    ArtifactRef { id: String, media_type: String },
}

/// The model of the blocks that a driver makes. Blocks that only callers make have
/// no part in it.
pub ghost enum BlockView {
    Text { text: Seq<char>, provider_metadata: Option<JsonView> },
    Thinking {
        thinking: Seq<char>,
        signature: Option<Seq<char>>,
        provider_metadata: Option<JsonView>,
    },
    ToolUse {
        id: Seq<char>,
        name: Seq<char>,
        input: JsonView,
        provider_metadata: Option<JsonView>,
    },
    Given(ContentBlock),
}

impl DeepView for ContentBlock {
    type V = BlockView;

    open spec fn deep_view(&self) -> BlockView {
        match *self {
            ContentBlock::Text { text, provider_metadata } => BlockView::Text {
                text: text@,
                provider_metadata: provider_metadata.deep_view(),
            },
            ContentBlock::Thinking { thinking, signature, provider_metadata } => BlockView::Thinking {
                thinking: thinking@,
                signature: signature.deep_view(),
                provider_metadata: provider_metadata.deep_view(),
            },
            ContentBlock::ToolUse { id, name, input, provider_metadata } => BlockView::ToolUse {
                id: id@,
                name: name@,
                input: input.deep_view(),
                provider_metadata: provider_metadata.deep_view(),
            },
            other => BlockView::Given(other),
        }
    }
}

/// What a message says: plain text, or blocks.
#[derive(Debug)]
pub enum MessageContent {
    Text(String),
    Blocks(Vec<ContentBlock>),
}

/// One message of a conversation.
#[derive(Debug)]
pub struct Message {
    pub role: Role,
    pub content: MessageContent,
}

impl Message {
    /// A user's message of plain text.
    pub fn user(text: &str) -> (r: Message)
        ensures
            r.role == Role::User,
            r.content matches MessageContent::Text(t) && t@ == text@,
    {
        Message { role: Role::User, content: MessageContent::Text(text.to_owned()) }
    }

    /// A user's message of blocks.
    pub fn user_with_blocks(blocks: Vec<ContentBlock>) -> (r: Message)
        ensures
            r == (Message { role: Role::User, content: MessageContent::Blocks(blocks) }),
    {
        Message { role: Role::User, content: MessageContent::Blocks(blocks) }
    }

    /// An assistant's message of blocks.
    pub fn assistant_with_blocks(blocks: Vec<ContentBlock>) -> (r: Message)
        ensures
            r == (Message { role: Role::Assistant, content: MessageContent::Blocks(blocks) }),
    {
        Message { role: Role::Assistant, content: MessageContent::Blocks(blocks) }
    }
}

/// A tool that a model may call. The schema is in the dialect of the provider that
/// the request goes to.
#[derive(Debug)]
pub struct ToolDefinition {
    pub name: String,
    pub description: String,
    pub input_schema: Json,
}

/// A tool call that a model asked for.
#[derive(Debug)]
pub struct ToolCall {
    pub id: String,
    pub name: String,
    pub input: Json,
}

/// The model of a tool call.
pub ghost struct CallView {
    pub id: Seq<char>,
    pub name: Seq<char>,
    pub input: JsonView,
}

impl DeepView for ToolCall {
    type V = CallView;

    open spec fn deep_view(&self) -> CallView {
        CallView { id: self.id@, name: self.name@, input: self.input.deep_view() }
    }
}

/// Error type for provider operations.
#[derive(Debug, PartialEq)]
pub enum ProviderError {
    /// HTTP request failed.
    Http(String),
    /// API returned an error.
    Api { status: u16, message: String },
    /// Rate limited; should retry after the delay.
    RateLimited { retry_after_ms: u64 },
    /// Response parsing failed.
    Parse(String),
    /// No API key configured.
    MissingApiKey(String),
    /// Model overloaded.
    Overloaded { retry_after_ms: u64 },
    /// Authentication failed.
    AuthenticationFailed(String),
    /// Model not found.
    ModelNotFound(String),
}

/// The model of a provider error.
pub ghost enum ProviderErrorView {
    Http(Seq<char>),
    Api { status: u16, message: Seq<char> },
    RateLimited { retry_after_ms: u64 },
    Parse(Seq<char>),
    MissingApiKey(Seq<char>),
    Overloaded { retry_after_ms: u64 },
    AuthenticationFailed(Seq<char>),
    ModelNotFound(Seq<char>),
}

impl DeepView for ProviderError {
    type V = ProviderErrorView;

    open spec fn deep_view(&self) -> ProviderErrorView {
        match *self {
            ProviderError::Http(m) => ProviderErrorView::Http(m@),
            ProviderError::Api { status, message } => ProviderErrorView::Api {
                status,
                message: message@,
            },
            ProviderError::RateLimited { retry_after_ms } => ProviderErrorView::RateLimited {
                retry_after_ms,
            },
            ProviderError::Parse(m) => ProviderErrorView::Parse(m@),
            ProviderError::MissingApiKey(m) => ProviderErrorView::MissingApiKey(m@),
            ProviderError::Overloaded { retry_after_ms } => ProviderErrorView::Overloaded {
                retry_after_ms,
            },
            ProviderError::AuthenticationFailed(m) => ProviderErrorView::AuthenticationFailed(m@),
            ProviderError::ModelNotFound(m) => ProviderErrorView::ModelNotFound(m@),
        }
    }
}

/// The message of a provider error.
pub open spec fn error_message(error: ProviderErrorView) -> Seq<char> {
    match error {
        ProviderErrorView::Http(m) => "HTTP error: "@ + m,
        ProviderErrorView::Api { status, message } => "API error ("@ + decimal(status as nat)
            + "): "@ + message,
        ProviderErrorView::RateLimited { retry_after_ms } => "Rate limited, retry after "@
            + decimal(retry_after_ms as nat) + "ms"@,
        ProviderErrorView::Parse(m) => "Parse error: "@ + m,
        ProviderErrorView::MissingApiKey(m) => "Missing API key: "@ + m,
        ProviderErrorView::Overloaded { retry_after_ms } => "Model overloaded, retry after "@
            + decimal(retry_after_ms as nat) + "ms"@,
        ProviderErrorView::AuthenticationFailed(m) => "Authentication failed: "@ + m,
        ProviderErrorView::ModelNotFound(m) => "Model not found: "@ + m,
    }
}

impl ProviderError {
    /// The error as a sentence for people.
    pub fn message(&self) -> (r: String)
        ensures
            r@ == error_message(self.deep_view()),
    {
        match self {
            ProviderError::Http(m) => labelled("HTTP error: ", m.as_str()),
            ProviderError::Api { status, message } => {
                let mut out = labelled("API error (", decimal_of(*status as u128).as_str());
                out.append("): ");
                out.append(message.as_str());
                out
            },
            ProviderError::RateLimited { retry_after_ms } => {
                let mut out = labelled(
                    "Rate limited, retry after ",
                    decimal_of(*retry_after_ms as u128).as_str(),
                );
                out.append("ms");
                out
            },
            ProviderError::Parse(m) => labelled("Parse error: ", m.as_str()),
            ProviderError::MissingApiKey(m) => labelled("Missing API key: ", m.as_str()),
            ProviderError::Overloaded { retry_after_ms } => {
                let mut out = labelled(
                    "Model overloaded, retry after ",
                    decimal_of(*retry_after_ms as u128).as_str(),
                );
                out.append("ms");
                out
            },
            ProviderError::AuthenticationFailed(m) => labelled(
                "Authentication failed: ",
                m.as_str(),
            ),
            ProviderError::ModelNotFound(m) => labelled("Model not found: ", m.as_str()),
        }
    }
}

/// Extended-thinking configuration.
#[derive(Debug, Clone, Copy, PartialEq, Eq, Structural)]
pub struct ThinkingConfig {
    /// Turn extended thinking on.
    pub enabled: bool,
    /// Optional token budget for the thinking phase.
    pub budget_tokens: Option<u32>,
}

/// A request to a provider for completion.
#[derive(Debug)]
pub struct CompletionRequest {
    /// Model identifier.
    pub model: String,
    /// Conversation messages.
    pub messages: Vec<Message>,
    /// Available tools the model can use.
    pub tools: Vec<ToolDefinition>,
    /// Maximum tokens to generate.
    pub max_tokens: u32,
    /// Sampling temperature.
    pub temperature: JsonNumber,
    /// System prompt.
    pub system: Option<String>,
    /// Extended thinking configuration.
    pub thinking: Option<ThinkingConfig>,
}

/// Events emitted during streaming completion.
#[derive(Debug)]
pub enum StreamEvent {
    /// Incremental text content.
    TextDelta { text: String },
    /// A tool use block has started.
    ToolUseStart { id: String, name: String },
    /// Incremental JSON input for an in-progress tool use.
    ToolInputDelta { text: String },
    /// A tool use block is complete with parsed input.
    ToolUseEnd { id: String, name: String, input: Json },
    /// Incremental thinking text.
    ThinkingDelta { text: String },
    /// The entire response is complete.
    ContentComplete { stop_reason: StopReason, usage: TokenUsage },
}

/// The model of a stream event.
pub ghost enum EventView {
    TextDelta { text: Seq<char> },
    ToolUseStart { id: Seq<char>, name: Seq<char> },
    ToolInputDelta { text: Seq<char> },
    ToolUseEnd { id: Seq<char>, name: Seq<char>, input: JsonView },
    ThinkingDelta { text: Seq<char> },
    ContentComplete { stop_reason: StopReason, usage: TokenUsage },
}

impl DeepView for StreamEvent {
    type V = EventView;

    open spec fn deep_view(&self) -> EventView {
        match *self {
            StreamEvent::TextDelta { text } => EventView::TextDelta { text: text@ },
            StreamEvent::ToolUseStart { id, name } => EventView::ToolUseStart {
                id: id@,
                name: name@,
            },
            StreamEvent::ToolInputDelta { text } => EventView::ToolInputDelta { text: text@ },
            StreamEvent::ToolUseEnd { id, name, input } => EventView::ToolUseEnd {
                id: id@,
                name: name@,
                input: input.deep_view(),
            },
            StreamEvent::ThinkingDelta { text } => EventView::ThinkingDelta { text: text@ },
            StreamEvent::ContentComplete { stop_reason, usage } => EventView::ContentComplete {
                stop_reason,
                usage,
            },
        }
    }
}

/// A response from a provider completion.
#[derive(Debug)]
pub struct CompletionResponse {
    /// The content blocks in the response.
    pub content: Vec<ContentBlock>,
    /// Why the model stopped generating.
    pub stop_reason: StopReason,
    /// Tool calls extracted from the response.
    pub tool_calls: Vec<ToolCall>,
    /// Token usage statistics.
    pub usage: TokenUsage,
}

/// The model of a response.
pub ghost struct ResponseView {
    pub content: Seq<BlockView>,
    pub stop_reason: StopReason,
    pub tool_calls: Seq<CallView>,
    pub usage: TokenUsage,
}

impl DeepView for CompletionResponse {
    type V = ResponseView;

    open spec fn deep_view(&self) -> ResponseView {
        ResponseView {
            content: self.content.deep_view(),
            stop_reason: self.stop_reason,
            tool_calls: self.tool_calls.deep_view(),
            usage: self.usage,
        }
    }
}

/// The text of the text blocks, in order.
pub open spec fn text_of_blocks(blocks: Seq<ContentBlock>) -> Seq<char>
    decreases blocks.len(),
{
    if blocks.len() == 0 {
        Seq::empty()
    } else {
        text_of_blocks(blocks.drop_last()) + match blocks.last() {
            ContentBlock::Text { text, .. } => text@,
            _ => Seq::empty(),
        }
    }
}

/// Whether a block says anything.
pub open spec fn says_something(block: ContentBlock) -> bool {
    match block {
        ContentBlock::Text { text, .. } => text@.len() > 0,
        ContentBlock::Thinking { thinking, .. } => thinking@.len() > 0,
        ContentBlock::RedactedThinking { data } => data@.len() > 0,
        ContentBlock::ToolUse { .. } => true,
        ContentBlock::Image { .. } => true,
        _ => false,
    }
}

impl CompletionResponse {
    /// Extract text content from the response.
    pub fn text(&self) -> (r: String)
        ensures
            r@ == text_of_blocks(self.content@),
    {
        let mut out = String::new();
        let mut i: usize = 0;
        while i < self.content.len()
            invariant
                i <= self.content@.len(),
                out@ == text_of_blocks(self.content@.take(i as int)),
            decreases self.content@.len() - i,
        {
            assert(self.content@.take(i + 1).drop_last() =~= self.content@.take(i as int));
            match &self.content[i] {
                ContentBlock::Text { text, .. } => {
                    out.append(text.as_str());
                },
                _ => {
                    assert(out@ + Seq::<char>::empty() =~= out@);
                },
            }
            i = i + 1;
        }
        assert(self.content@.take(i as int) =~= self.content@);
        out
    }

    /// Whether the response has any meaningful content, thinking included.
    pub fn has_any_content(&self) -> (r: bool)
        ensures
            r == exists|i: int|
                0 <= i < self.content@.len() && says_something(#[trigger] self.content@[i]),
    {
        let mut i: usize = 0;
        while i < self.content.len()
            invariant
                i <= self.content@.len(),
                forall|k: int| 0 <= k < i ==> !says_something(#[trigger] self.content@[k]),
            decreases self.content@.len() - i,
        {
            let found = match &self.content[i] {
                ContentBlock::Text { text, .. } => !text.as_str().is_empty(),
                ContentBlock::Thinking { thinking, .. } => !thinking.as_str().is_empty(),
                ContentBlock::RedactedThinking { data } => !data.as_str().is_empty(),
                ContentBlock::ToolUse { .. } | ContentBlock::Image { .. } => true,
                _ => false,
            };
            if found {
                assert(says_something(self.content@[i as int]));
                return true;
            }
            i = i + 1;
        }
        false
    }
}

} // verus!
