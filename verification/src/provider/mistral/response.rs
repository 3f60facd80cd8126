//! Responses of the Mistral chat endpoint.
use vstd::prelude::*;

use crate::json::{Json, JsonView, empty_fields, json_read, no_fields, object, put, text};
use crate::provider::think_filter::{StreamingThinkFilter, emitted_text, split_stream};
use crate::provider::types::{
    BlockView, CallView, CompletionResponse, ContentBlock, ProviderError, ProviderErrorView,
    ResponseView, StopReason, TokenUsage, ToolCall, no_usage,
};
use crate::text::{push_to, same, trim, trimmed};

verus! {

/// What a tool call's arguments stand for: text is read as JSON, an object is taken
/// as it is, and what cannot be read is the empty object.
pub open spec fn arguments_value(arguments: JsonView) -> JsonView {
    match arguments {
        JsonView::Text(t) => arguments_read(json_read(t)),
        JsonView::Object(_) => arguments,
        _ => JsonView::Object(no_fields()),
    }
}

/// What arguments stand for that were read from text.
pub open spec fn arguments_read(read: Result<JsonView, Seq<char>>) -> JsonView {
    match read {
        Ok(value) => value,
        Err(_) => JsonView::Object(no_fields()),
    }
}

/// The value that was read, or the empty object.
pub fn read_or_empty(read: Result<Json, String>) -> (r: Json)
    ensures
        r.deep_view() == match read {
            Ok(value) => value.deep_view(),
            Err(_) => JsonView::Object(no_fields()),
        },
{
    match read {
        Ok(value) => value,
        Err(_) => object(empty_fields()),
    }
}

/// What a tool call's arguments stand for.
pub fn parse_arguments(arguments: &Json) -> (r: Json)
    ensures
        r.deep_view() == arguments_value(arguments.deep_view()),
{
    match arguments {
        Json::Text(t) => read_or_empty(Json::parse(t.as_str())),
        Json::Object(_) => arguments.clone(),
        _ => object(empty_fields()),
    }
}

/// The visible part of a text, trimmed.
pub open spec fn visible_part(s: Seq<char>) -> Seq<char> {
    trim(split_stream(s, false))
}

/// The thinking in a text, trimmed; nothing where that is empty.
pub open spec fn thinking_part(s: Seq<char>) -> Option<Seq<char>> {
    let thinking = trim(split_stream(s, true));
    if thinking.len() == 0 {
        None
    } else {
        Some(thinking)
    }
}

/// Parts a text into what is visible and what stands between think tags.
pub fn split_think(text: &str) -> (r: (String, Option<String>))
    ensures
        r.0@ == visible_part(text@),
        r.1.deep_view() == thinking_part(text@),
{
    let mut filter = StreamingThinkFilter::new();
    let body = filter.process(text);
    let rest = filter.flush();
    let mut visible = emitted_text(&body, false);
    visible.append(emitted_text(&rest, false).as_str());
    let mut thinking = emitted_text(&body, true);
    thinking.append(emitted_text(&rest, true).as_str());
    let visible = trimmed(visible.as_str());
    let thinking = trimmed(thinking.as_str());
    if thinking.as_str().is_empty() {
        (visible, None)
    } else {
        (visible, Some(thinking))
    }
}

/// The mark on blocks of thinking.
pub open spec fn mistral_mark() -> JsonView {
    JsonView::Object(no_fields().push(("format"@, JsonView::Text("mistral"@))))
}

/// A block of thinking.
pub open spec fn thinking_block(thinking: Seq<char>) -> BlockView {
    BlockView::Thinking { thinking, signature: None, provider_metadata: Some(mistral_mark()) }
}

/// A block of text.
pub open spec fn text_block(text: Seq<char>) -> BlockView {
    BlockView::Text { text, provider_metadata: None }
}

/// A block of thinking.
pub fn make_thinking_block(thinking: String) -> (r: ContentBlock)
    ensures
        r.deep_view() == thinking_block(thinking@),
{
    let mut fields = empty_fields();
    put(&mut fields, "format", text("mistral"));
    let mark = Some(object(fields));
    assert(mark.deep_view() == Some(mistral_mark()));
    ContentBlock::Thinking { thinking, signature: None, provider_metadata: mark }
}

/// Blocks together with the text they show.
pub ghost struct Blocks {
    pub blocks: Seq<BlockView>,
    pub shown: Seq<char>,
}

/// The blocks with a raw text added: its thinking first, then what is visible of it.
pub open spec fn with_text(so_far: Blocks, raw: Seq<char>) -> Blocks {
    if raw.len() == 0 {
        so_far
    } else {
        let visible = visible_part(raw);
        let blocks = match thinking_part(raw) {
            Some(thinking) => so_far.blocks.push(thinking_block(thinking)),
            None => so_far.blocks,
        };
        if visible.len() == 0 {
            Blocks { blocks, shown: so_far.shown }
        } else {
            Blocks { blocks: blocks.push(text_block(visible)), shown: so_far.shown + visible }
        }
    }
}

fn add_text(blocks: &mut Vec<ContentBlock>, shown: &mut String, raw: &str)
    ensures
        (Blocks { blocks: final(blocks).deep_view(), shown: final(shown)@ }) == with_text(
            Blocks { blocks: old(blocks).deep_view(), shown: old(shown)@ },
            raw@,
        ),
{
    if raw.is_empty() {
        return;
    }
    let (visible, thinking) = split_think(raw);
    match thinking {
        Some(t) => {
            push_to(blocks, make_thinking_block(t));
        },
        None => {},
    }
    if !visible.as_str().is_empty() {
        shown.append(visible.as_str());
        push_to(blocks, ContentBlock::Text { text: visible, provider_metadata: None });
    }
}

/// The texts under `text` in the given parts, one behind another.
pub open spec fn part_texts(parts: Seq<JsonView>) -> Seq<char>
    decreases parts.len(),
{
    if parts.len() == 0 {
        Seq::empty()
    } else {
        match parts.last().at("text"@).text() {
            Some(t) => part_texts(parts.drop_last()) + t,
            None => part_texts(parts.drop_last()),
        }
    }
}

/// The thinking that a chunk of type `thinking` holds.
pub open spec fn chunk_thinking(chunk: JsonView) -> Seq<char> {
    match chunk.at("thinking"@).items() {
        Some(parts) => part_texts(parts),
        None => Seq::empty(),
    }
}

/// The thinking that a chunk of type `thinking` holds.
pub fn join_thinking(chunk: &Json) -> (r: String)
    ensures
        r@ == chunk_thinking(chunk.deep_view()),
{
    let mut out = String::new();
    match chunk.items_at("thinking") {
        Some(parts) => {
            let mut i: usize = 0;
            while i < parts.len()
                invariant
                    i <= parts@.len(),
                    out@ == part_texts(parts.deep_view().take(i as int)),
                decreases parts@.len() - i,
            {
                let ghost all = parts.deep_view();
                assert(all.take(i + 1).drop_last() =~= all.take(i as int));
                match parts[i].text_at("text") {
                    Some(t) => {
                        out.append(t.as_str());
                    },
                    None => {},
                }
                i = i + 1;
            }
            assert(parts.deep_view().take(i as int) =~= parts.deep_view());
        },
        None => {},
    }
    out
}

/// The blocks with one chunk of an array added.
pub open spec fn with_chunk(so_far: Blocks, chunk: JsonView) -> Blocks {
    let kind = chunk.at("type"@).text();
    if kind == Some("text"@) {
        match chunk.at("text"@).text() {
            Some(t) => with_text(so_far, t),
            None => so_far,
        }
    } else if kind == Some("thinking"@) && chunk_thinking(chunk).len() > 0 {
        Blocks { blocks: so_far.blocks.push(thinking_block(chunk_thinking(chunk))), ..so_far }
    } else {
        so_far
    }
}

/// The blocks of an array of chunks.
pub open spec fn chunk_blocks(chunks: Seq<JsonView>) -> Blocks
    decreases chunks.len(),
{
    if chunks.len() == 0 {
        Blocks { blocks: Seq::empty(), shown: Seq::empty() }
    } else {
        with_chunk(chunk_blocks(chunks.drop_last()), chunks.last())
    }
}

/// The blocks of a response's content: a text, or an array of chunks.
pub open spec fn content_blocks(value: JsonView) -> Blocks {
    let nothing = Blocks { blocks: Seq::empty(), shown: Seq::empty() };
    match value {
        JsonView::Text(t) => with_text(nothing, t),
        JsonView::Array(chunks) => chunk_blocks(chunks),
        _ => nothing,
    }
}

/// The blocks of a response's content, and the text they show.
pub fn content_blocks_from_value(value: &Json) -> (r: (Vec<ContentBlock>, String))
    ensures
        r.0.deep_view() == content_blocks(value.deep_view()).blocks,
        r.1@ == content_blocks(value.deep_view()).shown,
{
    broadcast use crate::json::group_json_view;

    let mut blocks: Vec<ContentBlock> = Vec::new();
    let mut shown = String::new();
    assert(blocks.deep_view() =~= Seq::empty());
    match value {
        Json::Text(t) => {
            add_text(&mut blocks, &mut shown, t.as_str());
        },
        Json::Array(chunks) => {
            let mut i: usize = 0;
            while i < chunks.len()
                invariant
                    i <= chunks@.len(),
                    (Blocks { blocks: blocks.deep_view(), shown: shown@ }) == chunk_blocks(
                        chunks.deep_view().take(i as int),
                    ),
                decreases chunks@.len() - i,
            {
                let ghost all = chunks.deep_view();
                assert(all.take(i + 1).drop_last() =~= all.take(i as int));
                let chunk = &chunks[i];
                match chunk.text_at("type") {
                    Some(kind) => {
                        if same(kind.as_str(), "text") {
                            match chunk.text_at("text") {
                                Some(t) => {
                                    add_text(&mut blocks, &mut shown, t.as_str());
                                },
                                None => {},
                            }
                        } else if same(kind.as_str(), "thinking") {
                            let joined = join_thinking(chunk);
                            if !joined.as_str().is_empty() {
                                push_to(&mut blocks, make_thinking_block(joined));
                            }
                        }
                    },
                    None => {},
                }
                i = i + 1;
            }
            assert(chunks.deep_view().take(i as int) =~= chunks.deep_view());
        },
        _ => {},
    }
    (blocks, shown)
}

/// Why the model stopped, by what it says and whether it calls tools.
pub open spec fn stop_reason(finish_reason: Option<Seq<char>>, has_tool_calls: bool) -> StopReason {
    if finish_reason == Some("stop"@) {
        StopReason::EndTurn
    } else if finish_reason == Some("tool_calls"@) {
        StopReason::ToolUse
    } else if finish_reason == Some("length"@) || finish_reason == Some("model_length"@) {
        StopReason::MaxTokens
    } else if has_tool_calls {
        StopReason::ToolUse
    } else {
        StopReason::EndTurn
    }
}

/// Why the model stopped.
pub fn map_stop_reason(finish_reason: Option<&str>, has_tool_calls: bool) -> (r: StopReason)
    ensures
        r == stop_reason(finish_reason.deep_view(), has_tool_calls),
{
    match finish_reason {
        Some(reason) => {
            if same(reason, "stop") {
                return StopReason::EndTurn;
            }
            if same(reason, "tool_calls") {
                return StopReason::ToolUse;
            }
            if same(reason, "length") || same(reason, "model_length") {
                return StopReason::MaxTokens;
            }
        },
        None => {},
    }
    if has_tool_calls {
        StopReason::ToolUse
    } else {
        StopReason::EndTurn
    }
}

/// A response of the chat endpoint.
#[derive(Debug)]
pub struct MistralResponse {
    pub choices: Vec<MistralChoice>,
    pub usage: Option<MistralUsage>,
}

/// One of the answers in a response.
#[derive(Debug)]
pub struct MistralChoice {
    pub message: MistralResponseMessage,
    pub finish_reason: Option<String>,
}

/// The message of an answer.
#[derive(Debug)]
pub struct MistralResponseMessage {
    pub content: Option<Json>,
    pub tool_calls: Option<Vec<MistralInToolCall>>,
}

/// A tool call of an answer.
#[derive(Debug)]
pub struct MistralInToolCall {
    pub id: String,
    pub function: MistralInFunction,
}

/// The function that a tool call names.
#[derive(Debug)]
pub struct MistralInFunction {
    pub name: String,
    pub arguments: Json,
}

/// The token counts of a response.
#[derive(Debug)]
pub struct MistralUsage {
    pub prompt_tokens: u64,
    pub completion_tokens: u64,
    pub prompt_tokens_details: Option<MistralPromptTokensDetails>,
}

/// The details of the prompt's token count.
#[derive(Debug)]
pub struct MistralPromptTokensDetails {
    pub cached_tokens: u64,
}

/// The model of a tool call of an answer.
pub ghost struct WireCall {
    pub id: Seq<char>,
    pub name: Seq<char>,
    pub arguments: JsonView,
}

/// The model of one of the answers in a response.
pub ghost struct WireChoice {
    pub content: Option<JsonView>,
    pub calls: Option<Seq<WireCall>>,
    pub finish_reason: Option<Seq<char>>,
}

/// The model of a response of the chat endpoint.
pub ghost struct WireResponse {
    pub choices: Seq<WireChoice>,
    pub usage: Option<MistralUsage>,
}

impl DeepView for MistralInToolCall {
    type V = WireCall;

    open spec fn deep_view(&self) -> WireCall {
        WireCall {
            id: self.id@,
            name: self.function.name@,
            arguments: self.function.arguments.deep_view(),
        }
    }
}

impl DeepView for MistralChoice {
    type V = WireChoice;

    open spec fn deep_view(&self) -> WireChoice {
        WireChoice {
            content: self.message.content.deep_view(),
            calls: self.message.tool_calls.deep_view(),
            finish_reason: self.finish_reason.deep_view(),
        }
    }
}

impl DeepView for MistralResponse {
    type V = WireResponse;

    open spec fn deep_view(&self) -> WireResponse {
        WireResponse { choices: self.choices.deep_view(), usage: self.usage }
    }
}

/// The tool call that a value spells.
pub open spec fn call_in(json: JsonView) -> Option<WireCall> {
    match (
        json.at("id"@).text(),
        json.at("function"@).at("name"@).text(),
        json.at("function"@).get("arguments"@),
    ) {
        (Some(id), Some(name), Some(arguments)) => Some(WireCall { id, name, arguments }),
        _ => None,
    }
}

/// The tool calls that values spell, where each spells one.
pub open spec fn calls_in(items: Seq<JsonView>) -> Option<Seq<WireCall>>
    decreases items.len(),
{
    if items.len() == 0 {
        Some(Seq::empty())
    } else {
        match (calls_in(items.drop_last()), call_in(items.last())) {
            (Some(before), Some(call)) => Some(before.push(call)),
            _ => None,
        }
    }
}

/// The tool calls of a message; the outer `None` where they are malformed.
pub open spec fn message_calls_in(value: Option<JsonView>) -> Option<Option<Seq<WireCall>>> {
    match value {
        None => Some(None),
        Some(json) => match json.items() {
            Some(items) => match calls_in(items) {
                Some(calls) => Some(Some(calls)),
                None => None,
            },
            None => None,
        },
    }
}

/// The answer that a value spells.
pub open spec fn choice_in(json: JsonView) -> Option<WireChoice> {
    let message = json.at("message"@);
    match (
        message is Object,
        message_calls_in(message.filled("tool_calls"@)),
        json.optional_text("finish_reason"@),
    ) {
        (true, Some(calls), Some(finish_reason)) => Some(
            WireChoice { content: message.filled("content"@), calls, finish_reason },
        ),
        _ => None,
    }
}

/// The answers that values spell, where each spells one.
pub open spec fn choices_in(items: Seq<JsonView>) -> Option<Seq<WireChoice>>
    decreases items.len(),
{
    if items.len() == 0 {
        Some(Seq::empty())
    } else {
        match (choices_in(items.drop_last()), choice_in(items.last())) {
            (Some(before), Some(choice)) => Some(before.push(choice)),
            _ => None,
        }
    }
}

/// The details of the prompt's token count; the outer `None` where they are malformed.
pub open spec fn details_in(value: Option<JsonView>) -> Option<Option<MistralPromptTokensDetails>> {
    match value {
        None => Some(None),
        Some(json) => {
            let cached = match json.get("cached_tokens"@) {
                None => Some(0u64),
                Some(value) => value.unsigned(),
            };
            match (json is Object, cached) {
                (true, Some(cached_tokens)) => Some(
                    Some(MistralPromptTokensDetails { cached_tokens }),
                ),
                _ => None,
            }
        },
    }
}

/// The token counts of a response; the outer `None` where they are malformed.
pub open spec fn usage_in(value: Option<JsonView>) -> Option<Option<MistralUsage>> {
    match value {
        None => Some(None),
        Some(json) => match (
            json.at("prompt_tokens"@).unsigned(),
            json.at("completion_tokens"@).unsigned(),
            details_in(json.filled("prompt_tokens_details"@)),
        ) {
            (Some(prompt_tokens), Some(completion_tokens), Some(prompt_tokens_details)) => Some(
                Some(MistralUsage { prompt_tokens, completion_tokens, prompt_tokens_details }),
            ),
            _ => None,
        },
    }
}

/// The response that a value spells.
pub open spec fn response_in(json: JsonView) -> Option<WireResponse> {
    match (json.at("choices"@).items(), usage_in(json.filled("usage"@))) {
        (Some(items), Some(usage)) => match choices_in(items) {
            Some(choices) => Some(WireResponse { choices, usage }),
            None => None,
        },
        _ => None,
    }
}

proof fn bad_calls_spoil_all(items: Seq<JsonView>, k: int)
    requires
        0 <= k <= items.len(),
        calls_in(items.take(k)) is None,
    ensures
        calls_in(items) is None,
    decreases items.len() - k,
{
    if k < items.len() {
        assert(items.take(k + 1).drop_last() =~= items.take(k));
        bad_calls_spoil_all(items, k + 1);
    } else {
        assert(items.take(k) =~= items);
    }
}

proof fn bad_choices_spoil_all(items: Seq<JsonView>, k: int)
    requires
        0 <= k <= items.len(),
        choices_in(items.take(k)) is None,
    ensures
        choices_in(items) is None,
    decreases items.len() - k,
{
    if k < items.len() {
        assert(items.take(k + 1).drop_last() =~= items.take(k));
        bad_choices_spoil_all(items, k + 1);
    } else {
        assert(items.take(k) =~= items);
    }
}

impl MistralInToolCall {
    /// The tool call that a value spells.
    pub fn from_json(json: &Json) -> (r: Option<MistralInToolCall>)
        ensures
            r.deep_view() == call_in(json.deep_view()),
    {
        let (name, arguments) = match json.get("function") {
            Some(function) => (function.text_at("name"), function.get("arguments")),
            None => (None, None),
        };
        match (json.text_at("id"), name, arguments) {
            (Some(id), Some(name), Some(arguments)) => Some(
                MistralInToolCall {
                    id: id.clone(),
                    function: MistralInFunction {
                        name: name.clone(),
                        arguments: arguments.clone(),
                    },
                },
            ),
            _ => None,
        }
    }
}

fn calls_of(items: &Vec<Json>) -> (r: Option<Vec<MistralInToolCall>>)
    ensures
        r.deep_view() == calls_in(items.deep_view()),
{
    let mut calls: Vec<MistralInToolCall> = Vec::new();
    let mut i: usize = 0;
    let ghost all = items.deep_view();
    assert(calls.deep_view() =~= Seq::empty());
    while i < items.len()
        invariant
            i <= items@.len(),
            all == items.deep_view(),
            calls_in(all.take(i as int)) == Some(calls.deep_view()),
        decreases items@.len() - i,
    {
        proof {
            assert(all.take(i + 1).drop_last() =~= all.take(i as int));
        }
        match MistralInToolCall::from_json(&items[i]) {
            Some(call) => {
                push_to(&mut calls, call);
            },
            None => {
                proof {
                    bad_calls_spoil_all(all, i + 1);
                }
                return None;
            },
        }
        i = i + 1;
    }
    assert(all.take(i as int) =~= all);
    Some(calls)
}

impl MistralChoice {
    /// The answer that a value spells.
    pub fn from_json(json: &Json) -> (r: Option<MistralChoice>)
        ensures
            r.deep_view() == choice_in(json.deep_view()),
    {
        let message = match json.get("message") {
            Some(message) => message,
            None => {
                return None;
            },
        };
        if !message.is_object() {
            return None;
        }
        let tool_calls = match message.filled_at("tool_calls") {
            None => None,
            Some(value) => match value.as_items() {
                Some(items) => match calls_of(items) {
                    Some(calls) => Some(calls),
                    None => {
                        return None;
                    },
                },
                None => {
                    return None;
                },
            },
        };
        let content = match message.filled_at("content") {
            Some(content) => Some(content.clone()),
            None => None,
        };
        match json.optional_text_at("finish_reason") {
            Some(finish_reason) => Some(
                MistralChoice {
                    message: MistralResponseMessage { content, tool_calls },
                    finish_reason,
                },
            ),
            None => None,
        }
    }
}

impl MistralUsage {
    /// The token counts that a value spells.
    pub fn from_json(json: &Json) -> (r: Option<MistralUsage>)
        ensures
            match r {
                Some(usage) => usage_in(Some(json.deep_view())) == Some(Some(usage)),
                None => usage_in(Some(json.deep_view())) is None,
            },
    {
        let prompt_tokens_details = match json.filled_at("prompt_tokens_details") {
            None => None,
            Some(details) => {
                let cached = match details.get("cached_tokens") {
                    None => Some(0),
                    Some(value) => value.as_unsigned(),
                };
                match (details.is_object(), cached) {
                    (true, Some(cached_tokens)) => Some(
                        MistralPromptTokensDetails { cached_tokens },
                    ),
                    _ => {
                        return None;
                    },
                }
            },
        };
        match (json.unsigned_at("prompt_tokens"), json.unsigned_at("completion_tokens")) {
            (Some(prompt_tokens), Some(completion_tokens)) => Some(
                MistralUsage { prompt_tokens, completion_tokens, prompt_tokens_details },
            ),
            _ => None,
        }
    }
}

impl MistralResponse {
    /// The response that a value spells.
    pub fn from_json(json: &Json) -> (r: Option<MistralResponse>)
        ensures
            r.deep_view() == response_in(json.deep_view()),
    {
        let usage = match json.filled_at("usage") {
            None => None,
            Some(value) => match MistralUsage::from_json(value) {
                Some(usage) => Some(usage),
                None => {
                    return None;
                },
            },
        };
        let items = match json.items_at("choices") {
            Some(items) => items,
            None => {
                return None;
            },
        };
        let mut choices: Vec<MistralChoice> = Vec::new();
        let mut i: usize = 0;
        let ghost all = items.deep_view();
        assert(choices.deep_view() =~= Seq::empty());
        while i < items.len()
            invariant
                i <= items@.len(),
                all == items.deep_view(),
                json.deep_view().at("choices"@).items() == Some(all),
                choices_in(all.take(i as int)) == Some(choices.deep_view()),
            decreases items@.len() - i,
        {
            proof {
                assert(all.take(i + 1).drop_last() =~= all.take(i as int));
            }
            match MistralChoice::from_json(&items[i]) {
                Some(choice) => {
                    push_to(&mut choices, choice);
                },
                None => {
                    proof {
                        bad_choices_spoil_all(all, i + 1);
                    }
                    return None;
                },
            }
            i = i + 1;
        }
        assert(all.take(i as int) =~= all);
        Some(MistralResponse { choices, usage })
    }
}

/// The usage with a count of one where there is content and no count was given.
pub open spec fn counted(usage: TokenUsage, has_content: bool) -> TokenUsage {
    if has_content && usage.input_tokens == 0 && usage.output_tokens == 0 {
        TokenUsage { output_tokens: 1, ..usage }
    } else {
        usage
    }
}

/// The usage with a count of one where there is content and no count was given.
pub fn count_content(usage: TokenUsage, has_content: bool) -> (r: TokenUsage)
    ensures
        r == counted(usage, has_content),
{
    if has_content && usage.input_tokens == 0 && usage.output_tokens == 0 {
        TokenUsage {
            input_tokens: usage.input_tokens,
            output_tokens: 1,
            cache_read_tokens: usage.cache_read_tokens,
            cache_write_tokens: usage.cache_write_tokens,
        }
    } else {
        usage
    }
}

/// The usage that a response reports.
pub open spec fn reported_usage(usage: Option<MistralUsage>) -> TokenUsage {
    match usage {
        Some(u) => TokenUsage {
            input_tokens: u.prompt_tokens,
            output_tokens: u.completion_tokens,
            cache_read_tokens: match u.prompt_tokens_details {
                Some(d) => d.cached_tokens,
                None => 0,
            },
            cache_write_tokens: 0,
        },
        None => no_usage(),
    }
}

/// The tool calls of an answer.
pub open spec fn call_views(calls: Seq<WireCall>) -> Seq<CallView> {
    calls.map_values(
        |call: WireCall|
            CallView { id: call.id, name: call.name, input: arguments_value(call.arguments) },
    )
}

/// A tool call as a block.
pub open spec fn call_block(call: CallView) -> BlockView {
    BlockView::ToolUse { id: call.id, name: call.name, input: call.input, provider_metadata: None }
}

/// Tool calls as blocks.
pub open spec fn call_blocks(calls: Seq<CallView>) -> Seq<BlockView> {
    calls.map_values(|call: CallView| call_block(call))
}

/// What a response comes to.
pub open spec fn response_outcome(response: WireResponse) -> Result<
    ResponseView,
    ProviderErrorView,
> {
    if response.choices.len() == 0 {
        Err(ProviderErrorView::Parse("no choices in response"@))
    } else {
        let choice = response.choices[0];
        let blocks = match choice.content {
            Some(value) => content_blocks(value).blocks,
            None => Seq::empty(),
        };
        let calls = match choice.calls {
            Some(calls) => call_views(calls),
            None => Seq::empty(),
        };
        let content = blocks + call_blocks(calls);
        Ok(
            ResponseView {
                content,
                stop_reason: stop_reason(choice.finish_reason, calls.len() > 0),
                tool_calls: calls,
                usage: counted(reported_usage(response.usage), content.len() > 0),
            },
        )
    }
}

/// A tool call as a block.
pub fn make_call_block(id: &str, name: &str, input: &Json) -> (r: ContentBlock)
    ensures
        r.deep_view() == call_block(CallView { id: id@, name: name@, input: input.deep_view() }),
{
    ContentBlock::ToolUse {
        id: id.to_owned(),
        name: name.to_owned(),
        input: input.clone(),
        provider_metadata: None,
    }
}

/// Reads a response: its first answer's content and tool calls, why it stopped, and
/// what it cost.
pub fn parse_response(response: &MistralResponse) -> (r: Result<CompletionResponse, ProviderError>)
    ensures
        match r {
            Ok(done) => response_outcome(response.deep_view()) == Ok::<ResponseView, ProviderErrorView>(
                done.deep_view(),
            ),
            Err(error) => response_outcome(response.deep_view()) == Err::<ResponseView, ProviderErrorView>(
                error.deep_view(),
            ),
        },
{
    if response.choices.len() == 0 {
        return Err(ProviderError::Parse("no choices in response".to_owned()));
    }
    let choice = &response.choices[0];
    let mut content: Vec<ContentBlock> = match &choice.message.content {
        Some(value) => content_blocks_from_value(value).0,
        None => Vec::new(),
    };
    let mut tool_calls: Vec<ToolCall> = Vec::new();
    let ghost blocks = content.deep_view();
    proof {
        assert(tool_calls.deep_view() =~= Seq::empty());
        match choice.message.content {
            Some(_) => {},
            None => {
                assert(content.deep_view() =~= Seq::empty());
            },
        }
        assert(blocks + call_blocks(Seq::empty()) =~= blocks);
    }
    match &choice.message.tool_calls {
        Some(calls) => {
            let mut i: usize = 0;
            assert(call_views(calls.deep_view()).take(0) =~= Seq::empty());
            while i < calls.len()
                invariant
                    i <= calls@.len(),
                    tool_calls.deep_view() == call_views(calls.deep_view()).take(i as int),
                    content.deep_view() == blocks + call_blocks(tool_calls.deep_view()),
                decreases calls@.len() - i,
            {
                let call = &calls[i];
                let input = parse_arguments(&call.function.arguments);
                let ghost before = tool_calls.deep_view();
                push_to(
                    &mut content,
                    make_call_block(call.id.as_str(), call.function.name.as_str(), &input),
                );
                push_to(
                    &mut tool_calls,
                    ToolCall { id: call.id.clone(), name: call.function.name.clone(), input },
                );
                proof {
                    assert(tool_calls.deep_view() =~= call_views(calls.deep_view()).take(i + 1));
                    assert(content.deep_view() =~= blocks + call_blocks(tool_calls.deep_view()));
                }
                i = i + 1;
            }
            assert(call_views(calls.deep_view()).take(i as int) =~= call_views(calls.deep_view()));
        },
        None => {},
    }
    let reason = match &choice.finish_reason {
        Some(reason) => Some(reason.as_str()),
        None => None,
    };
    let stop = map_stop_reason(reason, tool_calls.len() > 0);
    let usage = match &response.usage {
        Some(u) => TokenUsage {
            input_tokens: u.prompt_tokens,
            output_tokens: u.completion_tokens,
            cache_read_tokens: match &u.prompt_tokens_details {
                Some(d) => d.cached_tokens,
                None => 0,
            },
            cache_write_tokens: 0,
        },
        None => TokenUsage::default(),
    };
    let usage = count_content(usage, content.len() > 0);
    Ok(CompletionResponse { content, stop_reason: stop, tool_calls, usage })
}

/// What is said of JSON that is no response.
pub const RESPONSE_MISMATCH: &'static str = "data does not have the shape of a response";

/// What a reply comes to, as it was read.
pub open spec fn reply_outcome(read: Result<JsonView, Seq<char>>) -> Result<
    ResponseView,
    ProviderErrorView,
> {
    match read {
        Err(error) => Err(ProviderErrorView::Parse(error)),
        Ok(json) => match response_in(json) {
            Some(response) => response_outcome(response),
            None => Err(ProviderErrorView::Parse(RESPONSE_MISMATCH@)),
        },
    }
}

/// Reads a reply.
pub fn read_reply(text: &str) -> (r: Result<CompletionResponse, ProviderError>)
    ensures
        match r {
            Ok(done) => reply_outcome(json_read(text@)) == Ok::<ResponseView, ProviderErrorView>(
                done.deep_view(),
            ),
            Err(error) => reply_outcome(json_read(text@)) == Err::<
                ResponseView,
                ProviderErrorView,
            >(error.deep_view()),
        },
{
    match Json::parse(text) {
        Err(error) => Err(ProviderError::Parse(error)),
        Ok(json) => match MistralResponse::from_json(&json) {
            Some(response) => parse_response(&response),
            None => Err(ProviderError::Parse(RESPONSE_MISMATCH.to_owned())),
        },
    }
}

} // verus!
