//! Messages, content blocks and stream events of the streaming providers.
use vstd::prelude::*;

use crate::json::Json;

verus! {

/// Who speaks.
#[derive(Debug, Clone, Copy, PartialEq, Eq, Structural)]
pub enum Role {
    User,
    Assistant,
}

/// How long a provider should keep a block in its cache.
#[derive(Debug)]
pub struct CacheControl {
    pub kind: String,
    pub ttl: Option<String>,
}

impl CacheControl {
    /// The mark for a short-lived cache entry.
    pub fn ephemeral() -> (r: CacheControl)
        ensures
            r.kind@ == "ephemeral"@,
            r.ttl is None,
    {
        CacheControl { kind: "ephemeral".to_owned(), ttl: None }
    }
}

/// A reference to stored data that is put in place before a message is sent.
#[derive(Debug)]
pub struct BlobRef {
    pub id: String,
    pub media_type: String,
}

/// A block of a message.
#[derive(Debug)]
pub enum ContentBlock {
    Text { text: String, cache_control: Option<CacheControl> },
    Reasoning { text: String },
    ToolUse { id: String, name: String, input: Json },
    ToolResult { tool_use_id: String, content: String, is_error: Option<bool> },
    Image { media_type: String, data: String },
    Blob(BlobRef),
}

/// One message of a conversation.
#[derive(Debug)]
pub struct Message {
    pub role: Role,
    pub content: Vec<ContentBlock>,
}

impl Message {
    /// A user's message of plain text.
    pub fn user(text: &str) -> (r: Message)
        ensures
            r.role == Role::User,
            r.content@.len() == 1,
            r.content@[0] matches ContentBlock::Text { text: t, cache_control: None } && t@
                == text@,
    {
        let mut content: Vec<ContentBlock> = Vec::new();
        content.push(ContentBlock::Text { text: text.to_owned(), cache_control: None });
        Message { role: Role::User, content }
    }

    /// A model's message of plain text.
    pub fn assistant_text(text: &str) -> (r: Message)
        ensures
            r.role == Role::Assistant,
            r.content@.len() == 1,
            r.content@[0] matches ContentBlock::Text { text: t, cache_control: None } && t@
                == text@,
    {
        let mut content: Vec<ContentBlock> = Vec::new();
        content.push(ContentBlock::Text { text: text.to_owned(), cache_control: None });
        Message { role: Role::Assistant, content }
    }

    /// A user's message with the result of a tool call, marked where the tool failed.
    pub fn tool_result(tool_use_id: &str, content: &str, is_error: bool) -> (r: Message)
        ensures
            r.role == Role::User,
            r.content@.len() == 1,
            r.content@[0] matches ContentBlock::ToolResult {
                tool_use_id: id,
                content: said,
                is_error: mark,
            } && id@ == tool_use_id@ && said@ == content@ && mark == if is_error {
                Some(true)
            } else {
                None
            },
    {
        let mut blocks: Vec<ContentBlock> = Vec::new();
        blocks.push(
            ContentBlock::ToolResult {
                tool_use_id: tool_use_id.to_owned(),
                content: content.to_owned(),
                is_error: if is_error {
                    Some(true)
                } else {
                    None
                },
            },
        );
        Message { role: Role::User, content: blocks }
    }
}

/// A tool that a model may call.
#[derive(Debug)]
pub struct ToolDefinition {
    pub name: String,
    pub description: String,
    pub input_schema: Json,
}

/// Where a connection stands.
#[derive(Debug, Clone, Copy, PartialEq, Eq, Structural)]
pub enum ConnectionPhase {
    Retrying { attempt: u32, max: u32 },
}

/// Events of a streamed completion.
#[derive(Debug, PartialEq)]
pub enum StreamEvent {
    TextDelta(String),
    ToolUseStart { id: String, name: String },
    ToolInputDelta(String),
    ToolUseEnd,
    ThinkingStart,
    ThinkingDelta(String),
    ThinkingEnd,
    MessageEnd { stop_reason: Option<String> },
    TokenUsage {
        input_tokens: Option<u64>,
        output_tokens: Option<u64>,
        cache_read_input_tokens: Option<u64>,
        cache_creation_input_tokens: Option<u64>,
    },
    ConnectionPhase { phase: ConnectionPhase },
    SessionId(String),
    Error { message: String, retry_after_secs: Option<u64> },
}

/// The model of a stream event.
pub ghost enum EventView {
    TextDelta(Seq<char>),
    ToolUseStart { id: Seq<char>, name: Seq<char> },
    ToolInputDelta(Seq<char>),
    ToolUseEnd,
    ThinkingStart,
    ThinkingDelta(Seq<char>),
    ThinkingEnd,
    MessageEnd { stop_reason: Option<Seq<char>> },
    TokenUsage {
        input_tokens: Option<u64>,
        output_tokens: Option<u64>,
        cache_read_input_tokens: Option<u64>,
        cache_creation_input_tokens: Option<u64>,
    },
    ConnectionPhase { phase: ConnectionPhase },
    SessionId(Seq<char>),
    Error { message: Seq<char>, retry_after_secs: Option<u64> },
}

impl DeepView for StreamEvent {
    type V = EventView;

    open spec fn deep_view(&self) -> EventView {
        match *self {
            StreamEvent::TextDelta(t) => EventView::TextDelta(t@),
            StreamEvent::ToolUseStart { id, name } => EventView::ToolUseStart {
                id: id@,
                name: name@,
            },
            StreamEvent::ToolInputDelta(t) => EventView::ToolInputDelta(t@),
            StreamEvent::ToolUseEnd => EventView::ToolUseEnd,
            StreamEvent::ThinkingStart => EventView::ThinkingStart,
            StreamEvent::ThinkingDelta(t) => EventView::ThinkingDelta(t@),
            StreamEvent::ThinkingEnd => EventView::ThinkingEnd,
            StreamEvent::MessageEnd { stop_reason } => EventView::MessageEnd {
                stop_reason: stop_reason.deep_view(),
            },
            StreamEvent::TokenUsage {
                input_tokens,
                output_tokens,
                cache_read_input_tokens,
                cache_creation_input_tokens,
            } => EventView::TokenUsage {
                input_tokens,
                output_tokens,
                cache_read_input_tokens,
                cache_creation_input_tokens,
            },
            StreamEvent::ConnectionPhase { phase } => EventView::ConnectionPhase { phase },
            StreamEvent::SessionId(t) => EventView::SessionId(t@),
            StreamEvent::Error { message, retry_after_secs } => EventView::Error {
                message: message@,
                retry_after_secs,
            },
        }
    }
}

} // verus!
