//! Request bodies for the Mistral chat endpoint.
use vstd::prelude::*;

use crate::json::{
    Json, JsonView, NumberView, array, empty_fields, entry, entry_push, no_fields, number, object,
    printed, put, text,
};
use crate::provider::mistral::wire::{wire_call_id, wire_id};
use crate::provider::types::{
    CompletionRequest, ContentBlock, Message, MessageContent, Role, ThinkingConfig, ToolDefinition,
    ToolResultPayload, payload_text,
};
use crate::text::{begins, labelled, push_to, starts_with};

verus! {

/// What a tool message says: never nothing, and marked where the tool failed.
pub open spec fn tool_text(content: ToolResultPayload, is_error: bool) -> Seq<char> {
    let said = if payload_text(content).len() == 0 {
        "(empty)"@
    } else {
        payload_text(content)
    };
    if is_error {
        "Error: "@ + said
    } else {
        said
    }
}

/// What a tool message says.
pub fn tool_result_text(content: &ToolResultPayload, is_error: bool) -> (r: String)
    ensures
        r@ == tool_text(*content, is_error),
{
    let said = content.text();
    let said = if said.as_str().is_empty() {
        "(empty)".to_owned()
    } else {
        said
    };
    if is_error {
        labelled("Error: ", said.as_str())
    } else {
        said
    }
}

/// A piece of content that is told apart by its type and holds one text.
pub open spec fn typed_chunk(kind: Seq<char>, key: Seq<char>, value: JsonView) -> JsonView {
    JsonView::Object(no_fields().push(("type"@, JsonView::Text(kind))).push((key, value)))
}

fn chunk(kind: &str, key: &str, value: Json) -> (r: Json)
    ensures
        r.deep_view() == typed_chunk(kind@, key@, value.deep_view()),
{
    let mut fields = empty_fields();
    put(&mut fields, "type", text(kind));
    put(&mut fields, key, value);
    object(fields)
}

/// Base64 data as a data URI.
pub open spec fn data_uri(media_type: Seq<char>, data: Seq<char>) -> Seq<char> {
    "data:"@ + media_type + ";base64,"@ + data
}

/// Base64 data as a data URI.
pub fn make_data_uri(media_type: &str, data: &str) -> (r: String)
    ensures
        r@ == data_uri(media_type@, data@),
{
    let mut out = labelled("data:", media_type);
    out.append(";base64,");
    out.append(data);
    out
}

/// A message as it goes over the wire; what is absent has no field.
pub open spec fn wire_message(
    role: Seq<char>,
    content: JsonView,
    tool_calls: Option<Seq<JsonView>>,
    tool_call_id: Option<Seq<char>>,
    name: Option<Seq<char>>,
) -> JsonView {
    let fields = no_fields().push(("role"@, JsonView::Text(role))).push(("content"@, content));
    let fields = match tool_calls {
        Some(calls) => fields.push(("tool_calls"@, JsonView::Array(calls))),
        None => fields,
    };
    let fields = match tool_call_id {
        Some(id) => fields.push(("tool_call_id"@, JsonView::Text(id))),
        None => fields,
    };
    let fields = match name {
        Some(name) => fields.push(("name"@, JsonView::Text(name))),
        None => fields,
    };
    JsonView::Object(fields)
}

/// A message that holds nothing but a role and its content.
pub open spec fn plain_message(role: Seq<char>, content: JsonView) -> JsonView {
    wire_message(role, content, None, None, None)
}

fn make_message(
    role: &str,
    content: Json,
    tool_calls: Option<Vec<Json>>,
    tool_call_id: Option<String>,
    name: Option<String>,
) -> (r: Json)
    ensures
        r.deep_view() == wire_message(
            role@,
            content.deep_view(),
            tool_calls.deep_view(),
            tool_call_id.deep_view(),
            name.deep_view(),
        ),
{
    let mut fields = empty_fields();
    put(&mut fields, "role", text(role));
    put(&mut fields, "content", content);
    match tool_calls {
        Some(calls) => {
            put(&mut fields, "tool_calls", array(calls));
        },
        None => {},
    }
    match tool_call_id {
        Some(id) => {
            put(&mut fields, "tool_call_id", Json::Text(id));
        },
        None => {},
    }
    match name {
        Some(name) => {
            put(&mut fields, "name", Json::Text(name));
        },
        None => {},
    }
    object(fields)
}

/// The text of an assistant's text blocks.
pub open spec fn assistant_text(blocks: Seq<ContentBlock>) -> Seq<char>
    decreases blocks.len(),
{
    if blocks.len() == 0 {
        Seq::empty()
    } else {
        match blocks.last() {
            ContentBlock::Text { text, .. } => assistant_text(blocks.drop_last()) + text@,
            _ => assistant_text(blocks.drop_last()),
        }
    }
}

/// The text of an assistant's thinking blocks.
pub open spec fn assistant_thinking(blocks: Seq<ContentBlock>) -> Seq<char>
    decreases blocks.len(),
{
    if blocks.len() == 0 {
        Seq::empty()
    } else {
        match blocks.last() {
            ContentBlock::Thinking { thinking, .. } => assistant_thinking(blocks.drop_last())
                + thinking@,
            _ => assistant_thinking(blocks.drop_last()),
        }
    }
}

/// A tool call as it goes over the wire, its arguments as JSON text.
pub open spec fn wire_call(id: Seq<char>, name: Seq<char>, input: JsonView) -> JsonView {
    JsonView::Object(
        no_fields().push(("id"@, JsonView::Text(wire_id(id)))).push(("type"@, JsonView::Text("function"@))).push((
                "function"@,
                JsonView::Object(
                    no_fields().push(("name"@, JsonView::Text(name))).push(("arguments"@, JsonView::Text(printed(input)))),
                ),
            )),
    )
}

/// The tool calls of an assistant's blocks.
pub open spec fn assistant_calls(blocks: Seq<ContentBlock>) -> Seq<JsonView>
    decreases blocks.len(),
{
    if blocks.len() == 0 {
        Seq::empty()
    } else {
        match blocks.last() {
            ContentBlock::ToolUse { id, name, input, .. } => assistant_calls(
                blocks.drop_last(),
            ).push(wire_call(id@, name@, input.deep_view())),
            _ => assistant_calls(blocks.drop_last()),
        }
    }
}

/// The content of an assistant's message: text alone where there is no thinking, else
/// chunks with the thinking first.
pub open spec fn assistant_content(text: Seq<char>, thinking: Seq<char>) -> JsonView {
    if thinking.len() == 0 {
        JsonView::Text(text)
    } else {
        let part = typed_chunk("text"@, "text"@, JsonView::Text(thinking));
        let chunks = seq![typed_chunk("thinking"@, "thinking"@, JsonView::Array(seq![part]))];
        JsonView::Array(
            if text.len() == 0 {
                chunks
            } else {
                chunks.push(typed_chunk("text"@, "text"@, JsonView::Text(text)))
            },
        )
    }
}

/// An assistant's blocks as one message.
pub open spec fn assistant_message(blocks: Seq<ContentBlock>) -> JsonView {
    let calls = assistant_calls(blocks);
    wire_message(
        "assistant"@,
        assistant_content(assistant_text(blocks), assistant_thinking(blocks)),
        if calls.len() == 0 {
            None
        } else {
            Some(calls)
        },
        None,
        None,
    )
}

fn make_call(id: &str, name: &str, input: &Json) -> (r: Json)
    ensures
        r.deep_view() == wire_call(id@, name@, input.deep_view()),
{
    let mut function = empty_fields();
    put(&mut function, "name", text(name));
    put(&mut function, "arguments", Json::Text(input.print()));
    let mut call = empty_fields();
    put(&mut call, "id", Json::Text(wire_call_id(id)));
    put(&mut call, "type", text("function"));
    put(&mut call, "function", object(function));
    object(call)
}

/// Puts an assistant's blocks together into one message.
pub fn assemble_assistant(blocks: &Vec<ContentBlock>) -> (r: Json)
    ensures
        r.deep_view() == assistant_message(blocks@),
{
    let mut said = String::new();
    let mut thinking = String::new();
    let mut calls: Vec<Json> = Vec::new();
    let mut i: usize = 0;
    assert(calls.deep_view() =~= Seq::empty());
    while i < blocks.len()
        invariant
            i <= blocks@.len(),
            said@ == assistant_text(blocks@.take(i as int)),
            thinking@ == assistant_thinking(blocks@.take(i as int)),
            calls.deep_view() == assistant_calls(blocks@.take(i as int)),
        decreases blocks@.len() - i,
    {
        assert(blocks@.take(i + 1).drop_last() =~= blocks@.take(i as int));
        match &blocks[i] {
            ContentBlock::Text { text, .. } => {
                said.append(text.as_str());
            },
            ContentBlock::Thinking { thinking: thought, .. } => {
                thinking.append(thought.as_str());
            },
            ContentBlock::ToolUse { id, name, input, .. } => {
                push_to(&mut calls, make_call(id.as_str(), name.as_str(), input));
            },
            _ => {},
        }
        i = i + 1;
    }
    assert(blocks@.take(i as int) =~= blocks@);
    let content = if thinking.as_str().is_empty() {
        Json::Text(said)
    } else {
        let mut parts: Vec<Json> = Vec::new();
        assert(parts.deep_view() =~= Seq::empty());
        push_to(&mut parts, chunk("text", "text", Json::Text(thinking)));
        let mut chunks: Vec<Json> = Vec::new();
        assert(chunks.deep_view() =~= Seq::empty());
        push_to(&mut chunks, chunk("thinking", "thinking", array(parts)));
        if !said.as_str().is_empty() {
            push_to(&mut chunks, chunk("text", "text", Json::Text(said)));
        }
        array(chunks)
    };
    let tool_calls = if calls.len() == 0 {
        None
    } else {
        Some(calls)
    };
    make_message("assistant", content, tool_calls, None, None)
}

/// The message that carries one tool result.
pub open spec fn tool_message(
    tool_use_id: Seq<char>,
    tool_name: Seq<char>,
    content: ToolResultPayload,
    is_error: bool,
) -> JsonView {
    wire_message(
        "tool"@,
        JsonView::Text(tool_text(content, is_error)),
        None,
        Some(wire_id(tool_use_id)),
        if tool_name.len() == 0 {
            None
        } else {
            Some(tool_name)
        },
    )
}

/// The tool messages of a user's blocks.
pub open spec fn tool_messages(blocks: Seq<ContentBlock>) -> Seq<JsonView>
    decreases blocks.len(),
{
    if blocks.len() == 0 {
        Seq::empty()
    } else {
        match blocks.last() {
            ContentBlock::ToolResult { tool_use_id, tool_name, content, is_error, .. } =>
                tool_messages(blocks.drop_last()).push(
                tool_message(tool_use_id@, tool_name@, content, is_error),
            ),
            _ => tool_messages(blocks.drop_last()),
        }
    }
}

/// The content chunks of a user's blocks.
pub open spec fn user_parts(blocks: Seq<ContentBlock>) -> Seq<JsonView>
    decreases blocks.len(),
{
    if blocks.len() == 0 {
        Seq::empty()
    } else {
        let before = user_parts(blocks.drop_last());
        match blocks.last() {
            ContentBlock::Text { text, .. } => before.push(
                typed_chunk("text"@, "text"@, JsonView::Text(text@)),
            ),
            ContentBlock::Image { media_type, data } => before.push(
                typed_chunk(
                    "image_url"@,
                    "image_url"@,
                    JsonView::Text(data_uri(media_type@, data@)),
                ),
            ),
            ContentBlock::File { media_type, data } => before.push(
                typed_chunk(
                    "document_url"@,
                    "document_url"@,
                    JsonView::Text(data_uri(media_type@, data@)),
                ),
            ),
            _ => before,
        }
    }
}

/// The messages that a user's blocks become: one for each tool result, then one for
/// the rest where there is any.
pub open spec fn user_messages(blocks: Seq<ContentBlock>) -> Seq<JsonView> {
    let parts = user_parts(blocks);
    if parts.len() == 0 {
        tool_messages(blocks)
    } else {
        tool_messages(blocks).push(plain_message("user"@, JsonView::Array(parts)))
    }
}

/// The messages that one message of the conversation becomes.
pub open spec fn messages_for(message: Message, has_system: bool) -> Seq<JsonView> {
    match (message.role, message.content) {
        (Role::System, MessageContent::Text(text)) => if has_system {
            Seq::empty()
        } else {
            seq![plain_message("system"@, JsonView::Text(text@))]
        },
        (Role::User, MessageContent::Text(text)) => seq![
            plain_message("user"@, JsonView::Text(text@)),
        ],
        (Role::Assistant, MessageContent::Text(text)) => seq![
            plain_message("assistant"@, JsonView::Text(text@)),
        ],
        (Role::User, MessageContent::Blocks(blocks)) => user_messages(blocks@),
        (Role::Assistant, MessageContent::Blocks(blocks)) => seq![assistant_message(blocks@)],
        (Role::System, MessageContent::Blocks(_)) => Seq::empty(),
    }
}

/// The messages of a conversation that has a system prompt of its own or not.
pub open spec fn conversation(messages: Seq<Message>, system: Option<Seq<char>>) -> Seq<JsonView>
    decreases messages.len(),
{
    if messages.len() == 0 {
        match system {
            Some(prompt) => seq![plain_message("system"@, JsonView::Text(prompt))],
            None => Seq::empty(),
        }
    } else {
        conversation(messages.drop_last(), system) + messages_for(
            messages.last(),
            system is Some,
        )
    }
}

fn user_block_messages(blocks: &Vec<ContentBlock>, messages: &mut Vec<Json>)
    ensures
        final(messages).deep_view() == old(messages).deep_view() + user_messages(blocks@),
{
    let mut parts: Vec<Json> = Vec::new();
    let mut i: usize = 0;
    let ghost before = messages.deep_view();
    assert(parts.deep_view() =~= Seq::empty());
    assert(messages.deep_view() =~= before + tool_messages(blocks@.take(0)));
    while i < blocks.len()
        invariant
            i <= blocks@.len(),
            parts.deep_view() == user_parts(blocks@.take(i as int)),
            messages.deep_view() == before + tool_messages(blocks@.take(i as int)),
        decreases blocks@.len() - i,
    {
        assert(blocks@.take(i + 1).drop_last() =~= blocks@.take(i as int));
        match &blocks[i] {
            ContentBlock::ToolResult { tool_use_id, tool_name, content, is_error, .. } => {
                let name = if tool_name.as_str().is_empty() {
                    None
                } else {
                    Some(tool_name.clone())
                };
                let message = make_message(
                    "tool",
                    Json::Text(tool_result_text(content, *is_error)),
                    None,
                    Some(wire_call_id(tool_use_id.as_str())),
                    name,
                );
                push_to(messages, message);
                assert(messages.deep_view() =~= before + tool_messages(blocks@.take(i + 1)));
            },
            ContentBlock::Text { text, .. } => {
                push_to(&mut parts, chunk("text", "text", Json::Text(text.clone())));
            },
            ContentBlock::Image { media_type, data } => {
                let uri = make_data_uri(media_type.as_str(), data.as_str());
                push_to(&mut parts, chunk("image_url", "image_url", Json::Text(uri)));
            },
            ContentBlock::File { media_type, data } => {
                let uri = make_data_uri(media_type.as_str(), data.as_str());
                push_to(&mut parts, chunk("document_url", "document_url", Json::Text(uri)));
            },
            _ => {},
        }
        i = i + 1;
    }
    assert(blocks@.take(i as int) =~= blocks@);
    if parts.len() > 0 {
        push_to(messages, make_message("user", array(parts), None, None, None));
        assert(messages.deep_view() =~= before + user_messages(blocks@));
    }
}

/// The messages of a request.
pub fn build_messages(request: &CompletionRequest) -> (r: Vec<Json>)
    ensures
        r.deep_view() == conversation(request.messages@, request.system.deep_view()),
{
    let mut messages: Vec<Json> = Vec::new();
    assert(messages.deep_view() =~= Seq::empty());
    match &request.system {
        Some(system) => {
            push_to(
                &mut messages,
                make_message("system", Json::Text(system.clone()), None, None, None),
            );
        },
        None => {},
    }
    let has_system = request.system.is_some();
    let mut i: usize = 0;
    while i < request.messages.len()
        invariant
            i <= request.messages@.len(),
            has_system == (request.system is Some),
            messages.deep_view() == conversation(
                request.messages@.take(i as int),
                request.system.deep_view(),
            ),
        decreases request.messages@.len() - i,
    {
        let message = &request.messages[i];
        let ghost before = messages.deep_view();
        assert(request.messages@.take(i + 1).drop_last() =~= request.messages@.take(i as int));
        match &message.content {
            MessageContent::Text(said) => {
                let role = match message.role {
                    Role::System => "system",
                    Role::User => "user",
                    Role::Assistant => "assistant",
                };
                if message.role == Role::System && has_system {
                    assert(before + Seq::<JsonView>::empty() =~= before);
                } else {
                    push_to(
                        &mut messages,
                        make_message(role, Json::Text(said.clone()), None, None, None),
                    );
                    assert(messages.deep_view() =~= before + messages_for(*message, has_system));
                }
            },
            MessageContent::Blocks(blocks) => match message.role {
                Role::User => {
                    user_block_messages(blocks, &mut messages);
                },
                Role::Assistant => {
                    push_to(&mut messages, assemble_assistant(blocks));
                    assert(messages.deep_view() =~= before + messages_for(*message, has_system));
                },
                Role::System => {
                    assert(before + Seq::<JsonView>::empty() =~= before);
                },
            },
        }
        i = i + 1;
    }
    assert(request.messages@.take(i as int) =~= request.messages@);
    messages
}

/// A tool as the request body describes it.
pub open spec fn wire_tool(tool: ToolDefinition) -> JsonView {
    JsonView::Object(
        no_fields().push(("type"@, JsonView::Text("function"@))).push((
                "function"@,
                JsonView::Object(
                    no_fields().push(("name"@, JsonView::Text(tool.name@))).push(("description"@, JsonView::Text(tool.description@))).push(("parameters"@, tool.input_schema.deep_view())),
                ),
            )),
    )
}

/// The tools as the request body describes them.
pub open spec fn wire_tools(tools: Seq<ToolDefinition>) -> Seq<JsonView> {
    tools.map_values(|tool: ToolDefinition| wire_tool(tool))
}

fn make_tool(tool: &ToolDefinition) -> (r: Json)
    ensures
        r.deep_view() == wire_tool(*tool),
{
    let mut function = empty_fields();
    put(&mut function, "name", Json::Text(tool.name.clone()));
    put(&mut function, "description", Json::Text(tool.description.clone()));
    put(&mut function, "parameters", tool.input_schema.clone());
    let mut fields = empty_fields();
    put(&mut fields, "type", text("function"));
    put(&mut fields, "function", object(function));
    object(fields)
}

/// The effort that a request asks for: none for a Magistral model, `none` where
/// thinking is switched off, else the driver's.
pub open spec fn effort(
    model: Seq<char>,
    thinking: Option<ThinkingConfig>,
    driver_effort: Option<Seq<char>>,
) -> Option<Seq<char>> {
    if starts_with(model, "magistral"@) {
        None
    } else {
        match thinking {
            Some(t) => if !t.enabled {
                Some("none"@)
            } else {
                driver_effort
            },
            None => driver_effort,
        }
    }
}

/// The body of a request.
pub open spec fn request_body(
    request: CompletionRequest,
    stream: bool,
    driver_effort: Option<Seq<char>>,
) -> JsonView {
    let fields = no_fields().push(("model"@, JsonView::Text(request.model@))).push((
            "messages"@,
            JsonView::Array(conversation(request.messages@, request.system.deep_view())),
        )).push(("max_tokens"@, JsonView::Number(NumberView::Unsigned(request.max_tokens as u64)))).push(("temperature"@, JsonView::Number(request.temperature.deep_view())));
    let fields = if request.tools@.len() == 0 {
        fields
    } else {
        fields.push(("tools"@, JsonView::Array(wire_tools(request.tools@)))).push(
            ("tool_choice"@, JsonView::Text("auto"@)),
        )
    };
    let fields = match request.thinking {
        Some(t) => if t.enabled {
            fields.push(("prompt_mode"@, JsonView::Text("reasoning"@)))
        } else {
            fields
        },
        None => fields,
    };
    let fields = match effort(request.model@, request.thinking, driver_effort) {
        Some(level) => fields.push(("reasoning_effort"@, JsonView::Text(level))),
        None => fields,
    };
    let fields = if stream {
        fields.push(("stream"@, JsonView::Bool(true)))
    } else {
        fields
    };
    JsonView::Object(fields)
}

/// The body of a request.
pub fn build_request(
    request: &CompletionRequest,
    stream: bool,
    driver_effort: Option<&str>,
) -> (r: Json)
    ensures
        r.deep_view() == request_body(*request, stream, driver_effort.deep_view()),
{
    let mut fields = empty_fields();
    put(&mut fields, "model", Json::Text(request.model.clone()));
    put(&mut fields, "messages", array(build_messages(request)));
    put(&mut fields, "max_tokens", number(request.max_tokens as u64));
    put(&mut fields, "temperature", Json::Number(request.temperature.clone()));
    if request.tools.len() > 0 {
        let mut tools: Vec<Json> = Vec::new();
        let mut i: usize = 0;
        while i < request.tools.len()
            invariant
                i <= request.tools@.len(),
                tools.deep_view() =~= wire_tools(request.tools@).take(i as int),
            decreases request.tools@.len() - i,
        {
            push_to(&mut tools, make_tool(&request.tools[i]));
            i = i + 1;
        }
        assert(wire_tools(request.tools@).take(i as int) =~= wire_tools(request.tools@));
        put(&mut fields, "tools", array(tools));
        put(&mut fields, "tool_choice", text("auto"));
    }
    match request.thinking {
        Some(t) => {
            if t.enabled {
                put(&mut fields, "prompt_mode", text("reasoning"));
            }
        },
        None => {},
    }
    if !begins(request.model.as_str(), "magistral") {
        let level = match request.thinking {
            Some(t) => if !t.enabled {
                Some("none")
            } else {
                driver_effort
            },
            None => driver_effort,
        };
        match level {
            Some(level) => {
                put(&mut fields, "reasoning_effort", text(level));
            },
            None => {},
        }
    }
    if stream {
        put(&mut fields, "stream", Json::Bool(true));
    }
    object(fields)
}

/// A tool call and the result of that call go over the wire under one id.
pub proof fn calls_and_results_are_paired(
    id: Seq<char>,
    name: Seq<char>,
    input: JsonView,
    tool_name: Seq<char>,
    content: ToolResultPayload,
    is_error: bool,
)
    ensures
        wire_call(id, name, input).get("id"@) == Some(JsonView::Text(wire_id(id))),
        tool_message(id, tool_name, content, is_error).get("tool_call_id"@) == Some(
            JsonView::Text(wire_id(id)),
        ),
{
    reveal_strlit("id");
    reveal_strlit("type");
    reveal_strlit("function");
    reveal_strlit("role");
    reveal_strlit("content");
    reveal_strlit("tool_call_id");
    let wire = JsonView::Text(wire_id(id));
    let call = no_fields().push(("id"@, wire));
    entry_push(no_fields(), "id"@, wire, "id"@);
    entry_push(call, "type"@, JsonView::Text("function"@), "id"@);
    entry_push(
        call.push(("type"@, JsonView::Text("function"@))),
        "function"@,
        wire_call(id, name, input)->Object_0[2].1,
        "id"@,
    );
    let said = JsonView::Text(tool_text(content, is_error));
    let role = no_fields().push(("role"@, JsonView::Text("tool"@)));
    let both = role.push(("content"@, said));
    let three = both.push(("tool_call_id"@, wire));
    entry_push(no_fields(), "role"@, JsonView::Text("tool"@), "tool_call_id"@);
    entry_push(role, "content"@, said, "tool_call_id"@);
    entry_push(both, "tool_call_id"@, wire, "tool_call_id"@);
    entry_push(three, "name"@, JsonView::Text(tool_name), "tool_call_id"@);
    assert("role"@.len() != "tool_call_id"@.len());
    assert("content"@.len() != "tool_call_id"@.len());
}

/// Whether two blocks are the same but for where a tool's answer came from.
pub open spec fn same_but_provenance(a: ContentBlock, b: ContentBlock) -> bool {
    match (a, b) {
        (
            ContentBlock::ToolResult { tool_use_id, tool_name, content, is_error, provenance: _ },
            ContentBlock::ToolResult {
                tool_use_id: id_b,
                tool_name: name_b,
                content: content_b,
                is_error: error_b,
                provenance: _,
            },
        ) => tool_use_id == id_b && tool_name == name_b && content == content_b && is_error
            == error_b,
        _ => a == b,
    }
}

/// Where a tool's answer came from never reaches a request.
pub proof fn provenance_is_not_sent(a: Seq<ContentBlock>, b: Seq<ContentBlock>)
    requires
        a.len() == b.len(),
        forall|i: int| 0 <= i < a.len() ==> same_but_provenance(#[trigger] a[i], b[i]),
    ensures
        user_messages(a) == user_messages(b),
        assistant_message(a) == assistant_message(b),
{
    provenance_parts(a, b);
}

proof fn provenance_parts(a: Seq<ContentBlock>, b: Seq<ContentBlock>)
    requires
        a.len() == b.len(),
        forall|i: int| 0 <= i < a.len() ==> same_but_provenance(#[trigger] a[i], b[i]),
    ensures
        tool_messages(a) == tool_messages(b),
        user_parts(a) == user_parts(b),
        assistant_text(a) == assistant_text(b),
        assistant_thinking(a) == assistant_thinking(b),
        assistant_calls(a) == assistant_calls(b),
    decreases a.len(),
{
    if a.len() > 0 {
        let x = a.drop_last();
        let y = b.drop_last();
        assert forall|i: int| 0 <= i < x.len() implies same_but_provenance(#[trigger] x[i], y[i]) by {
            assert(x[i] == a[i]);
        }
        provenance_parts(x, y);
        assert(same_but_provenance(a[a.len() - 1], b[a.len() - 1]));
    } else {
        assert(a =~= b);
    }
}

/// A Magistral model is never sent a reasoning effort.
pub proof fn magistral_has_no_effort(
    request: CompletionRequest,
    stream: bool,
    driver_effort: Option<Seq<char>>,
)
    requires
        starts_with(request.model@, "magistral"@),
    ensures
        request_body(request, stream, driver_effort).get("reasoning_effort"@) is None,
{
    reveal_strlit("model");
    reveal_strlit("messages");
    reveal_strlit("max_tokens");
    reveal_strlit("temperature");
    reveal_strlit("tools");
    reveal_strlit("tool_choice");
    reveal_strlit("prompt_mode");
    reveal_strlit("reasoning_effort");
    reveal_strlit("stream");
    let wanted = "reasoning_effort"@;
    let body = request_body(request, stream, driver_effort)->Object_0;
    assert forall|i: int| 0 <= i < body.len() implies (#[trigger] body[i]).0.len() < wanted.len() by {
    }
    absent(body, wanted);
}

proof fn absent(fields: Seq<(Seq<char>, JsonView)>, key: Seq<char>)
    requires
        forall|i: int| 0 <= i < fields.len() ==> (#[trigger] fields[i]).0 != key,
    ensures
        entry(fields, key) is None,
    decreases fields.len(),
{
    if fields.len() > 0 {
        assert forall|i: int| 0 <= i < fields.skip(1).len() implies (#[trigger] fields.skip(
            1,
        )[i]).0 != key by {
            assert(fields.skip(1)[i] == fields[i + 1]);
        }
        absent(fields.skip(1), key);
    }
}

} // verus!
