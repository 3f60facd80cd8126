//! What a request body says of what it was given.
use vstd::prelude::*;

use crate::json::{JsonView, entry_push, printed};
use crate::json_laws::{list_under, text_under};
use crate::provider::mistral::request::{
    assistant_calls, assistant_message, assistant_text, assistant_thinking, conversation,
    request_body, tool_messages, tool_text, user_messages, user_parts, wire_call,
    wire_tool,
};
use crate::provider::mistral::stream_laws::{chunk_texts, chunk_thoughts, item_texts};
use crate::provider::mistral::wire::wire_id;
use crate::provider::types::{
    CompletionRequest, ContentBlock, Message, MessageContent, Role,
    ToolResultPayload, payload_text,
};
use crate::text::{decimal, starts_with};

verus! {

proof fn keys_differ()
    ensures
        "role"@ != "content"@,
        "role"@ != "tool_calls"@,
        "role"@ != "tool_call_id"@,
        "role"@ != "name"@,
        "content"@ != "tool_calls"@,
        "content"@ != "tool_call_id"@,
        "content"@ != "name"@,
        "tool_calls"@ != "tool_call_id"@,
        "tool_calls"@ != "name"@,
        "tool_call_id"@ != "name"@,
        "type"@ != "text"@,
        "type"@ != "thinking"@,
        "type"@ != "image_url"@,
        "type"@ != "document_url"@,
        "text"@ != "thinking"@,
        "image_url"@ != "document_url"@,
        "type"@ != "id"@,
        "type"@ != "function"@,
        "id"@ != "function"@,
        "name"@ != "arguments"@,
        "name"@ != "description"@,
        "name"@ != "parameters"@,
        "description"@ != "parameters"@,
        "user"@ != "tool"@,
{
    reveal_strlit("role");
    reveal_strlit("content");
    reveal_strlit("tool_calls");
    reveal_strlit("tool_call_id");
    reveal_strlit("name");
    reveal_strlit("type");
    reveal_strlit("text");
    reveal_strlit("thinking");
    reveal_strlit("image_url");
    reveal_strlit("document_url");
    reveal_strlit("id");
    reveal_strlit("function");
    reveal_strlit("arguments");
    reveal_strlit("description");
    reveal_strlit("parameters");
    reveal_strlit("user");
    reveal_strlit("tool");
    assert("role"@.len() == 4 && "name"@.len() == 4 && "role"@[0] == 'r' && "name"@[0] == 'n');
    assert("content"@.len() == 7 && "tool_calls"@.len() == 10 && "tool_call_id"@.len() == 12);
    assert("type"@.len() == 4 && "text"@.len() == 4 && "type"@[1] == 'y' && "text"@[1] == 'e');
    assert("thinking"@.len() == 8 && "image_url"@.len() == 9 && "document_url"@.len() == 12);
    assert("id"@.len() == 2 && "function"@.len() == 8 && "arguments"@.len() == 9);
    assert("description"@.len() == 11 && "parameters"@.len() == 10);
    assert("user"@[0] == 'u' && "tool"@[0] == 't');
}

/// The text that a content holds.
pub open spec fn content_text(content: JsonView) -> Seq<char> {
    match content {
        JsonView::Text(t) => t,
        JsonView::Array(chunks) => chunk_texts(chunks),
        _ => Seq::empty(),
    }
}

/// The thinking that a content holds.
pub open spec fn content_thinking(content: JsonView) -> Seq<char> {
    match content {
        JsonView::Array(chunks) => chunk_thoughts(chunks),
        _ => Seq::empty(),
    }
}

/// What a block says to the user.
pub open spec fn said(block: ContentBlock) -> Seq<char> {
    match block {
        ContentBlock::Text { text, .. } => text@,
        _ => Seq::empty(),
    }
}

/// What a block thinks.
pub open spec fn thought(block: ContentBlock) -> Seq<char> {
    match block {
        ContentBlock::Thinking { thinking, .. } => thinking@,
        _ => Seq::empty(),
    }
}

/// What blocks say to the user, one behind another.
pub open spec fn all_said(blocks: Seq<ContentBlock>) -> Seq<char>
    decreases blocks.len(),
{
    if blocks.len() == 0 {
        Seq::empty()
    } else {
        all_said(blocks.drop_last()) + said(blocks.last())
    }
}

/// What blocks think, one behind another.
pub open spec fn all_thought(blocks: Seq<ContentBlock>) -> Seq<char>
    decreases blocks.len(),
{
    if blocks.len() == 0 {
        Seq::empty()
    } else {
        all_thought(blocks.drop_last()) + thought(blocks.last())
    }
}

/// The tool calls among blocks, each with its id on the wire, its name and its input as text.
pub open spec fn asked(blocks: Seq<ContentBlock>) -> Seq<(Seq<char>, Seq<char>, Seq<char>)>
    decreases blocks.len(),
{
    if blocks.len() == 0 {
        Seq::empty()
    } else {
        match blocks.last() {
            ContentBlock::ToolUse { id, name, input, .. } => asked(blocks.drop_last()).push(
                (wire_id(id@), name@, printed(input.deep_view())),
            ),
            _ => asked(blocks.drop_last()),
        }
    }
}

/// The tool calls of a message on the wire.
pub open spec fn asked_read(items: Seq<JsonView>) -> Seq<(Seq<char>, Seq<char>, Seq<char>)>
    decreases items.len(),
{
    if items.len() == 0 {
        Seq::empty()
    } else {
        let call = items.last();
        asked_read(items.drop_last()).push(
            (
                text_under(call, "id"@),
                text_under(call.at("function"@), "name"@),
                text_under(call.at("function"@), "arguments"@),
            ),
        )
    }
}

proof fn blocks_are_joined(blocks: Seq<ContentBlock>)
    ensures
        assistant_text(blocks) == all_said(blocks),
        assistant_thinking(blocks) == all_thought(blocks),
        asked_read(assistant_calls(blocks)) == asked(blocks),
        assistant_calls(blocks).len() == asked(blocks).len(),
        forall|i: int|
            0 <= i < assistant_calls(blocks).len() ==> (#[trigger] assistant_calls(blocks)[i]).at(
                "type"@,
            ) == JsonView::Text("function"@),
    decreases blocks.len(),
{
    broadcast use entry_push;

    keys_differ();
    if blocks.len() > 0 {
        let init = blocks.drop_last();
        blocks_are_joined(init);
        assert(all_said(init) + Seq::<char>::empty() =~= all_said(init));
        assert(all_thought(init) + Seq::<char>::empty() =~= all_thought(init));
        match blocks.last() {
            ContentBlock::ToolUse { id, name, input, .. } => {
                let calls = assistant_calls(init);
                let call = wire_call(id@, name@, input.deep_view());
                assert(calls.push(call).drop_last() =~= calls);
            },
            _ => {},
        }
    }
}

/// What an assistant said and thought is sent again, all of it, and so are its tool calls in
/// their order, each with its id on the wire, its name and its arguments.
pub proof fn assistants_are_put_faithfully(blocks: Seq<ContentBlock>)
    ensures
        ({
            let sent = assistant_message(blocks);
            let calls = list_under(sent, "tool_calls"@);
            &&& text_under(sent, "role"@) == "assistant"@
            &&& content_text(sent.at("content"@)) == all_said(blocks)
            &&& content_thinking(sent.at("content"@)) == all_thought(blocks)
            &&& asked_read(calls) == asked(blocks)
            &&& asked(blocks).len() == 0 ==> sent.get("tool_calls"@) is None
            &&& sent.get("tool_call_id"@) is None
            &&& forall|i: int|
                0 <= i < calls.len() ==> (#[trigger] calls[i]).at("type"@) == JsonView::Text(
                    "function"@,
                )
        }),
{
    broadcast use entry_push;

    keys_differ();
    blocks_are_joined(blocks);
    let (spoken, thinking) = (all_said(blocks), all_thought(blocks));
    let content = assistant_message(blocks).at("content"@);
    let none = Seq::<char>::empty();
    if thinking.len() == 0 {
        assert(thinking =~= none);
    } else {
        let chunks = content->Array_0;
        let first = chunks[0];
        let parts = list_under(first, "thinking"@);
        assert(parts.drop_last() =~= Seq::empty());
        assert(item_texts(parts.drop_last()) =~= none);
        assert(none + thinking =~= thinking);
        assert(item_texts(parts) == thinking);
        let one = seq![first];
        assert(one.drop_last() =~= Seq::empty());
        assert(chunk_texts(one.drop_last()) =~= none);
        assert(chunk_thoughts(one.drop_last()) =~= none);
        assert(chunk_texts(one) =~= none);
        assert(chunk_thoughts(one) =~= thinking);
        if spoken.len() == 0 {
            assert(spoken =~= none);
            assert(chunks =~= one);
        } else {
            assert(chunks.drop_last() =~= one);
            assert(none + spoken =~= spoken);
            assert(thinking + none =~= thinking);
        }
    }
}

/// The text of a tool's answer is never empty: it is what the tool gave where it gave
/// anything, and where the tool failed the same behind a mark that says so.
pub proof fn answers_always_say_something(content: ToolResultPayload)
    ensures
        tool_text(content, false).len() > 0,
        payload_text(content).len() > 0 ==> tool_text(content, false) == payload_text(content),
        tool_text(content, true) == "Error: "@ + tool_text(content, false),
{
    reveal_strlit("(empty)");
    assert("(empty)"@.len() == 7);
}

/// What a tool gave: a text as it is, any other value as it is printed, and of a stored
/// artifact its preview first, and behind it its id, its type and its size.
pub proof fn payloads_are_told(payload: ToolResultPayload)
    ensures
        match payload {
            ToolResultPayload::Inline(value) => match value.deep_view() {
                JsonView::Text(t) => payload_text(payload) == t,
                other => payload_text(payload) == printed(other),
            },
            ToolResultPayload::Artifact { id, preview, mime, size } => {
                let told = payload_text(payload);
                &&& starts_with(told, preview@)
                &&& told.skip(preview@.len() as int) == "\n[artifact "@ + id@ + ", "@ + mime@
                    + ", "@ + decimal(size as nat) + " bytes]"@
            },
        },
{
    match payload {
        ToolResultPayload::Artifact { id, preview, mime, size } => {
            let told = payload_text(payload);
            let rest = "\n[artifact "@ + id@ + ", "@ + mime@ + ", "@ + decimal(size as nat)
                + " bytes]"@;
            assert(told =~= preview@ + rest);
            assert(told.take(preview@.len() as int) =~= preview@);
            assert(told.skip(preview@.len() as int) =~= rest);
        },
        _ => {},
    }
}

/// The answers of tools among blocks: the id on the wire, the name and the text of each.
pub open spec fn answers(blocks: Seq<ContentBlock>) -> Seq<(Seq<char>, Seq<char>, Seq<char>)>
    decreases blocks.len(),
{
    if blocks.len() == 0 {
        Seq::empty()
    } else {
        match blocks.last() {
            ContentBlock::ToolResult { tool_use_id, tool_name, content, is_error, .. } => answers(
                blocks.drop_last(),
            ).push((wire_id(tool_use_id@), tool_name@, tool_text(content, is_error))),
            _ => answers(blocks.drop_last()),
        }
    }
}

/// The answers of tools in messages on the wire.
pub open spec fn answers_read(items: Seq<JsonView>) -> Seq<(Seq<char>, Seq<char>, Seq<char>)>
    decreases items.len(),
{
    if items.len() == 0 {
        Seq::empty()
    } else if items.last().at("role"@) == JsonView::Text("tool"@) {
        answers_read(items.drop_last()).push(
            (
                text_under(items.last(), "tool_call_id"@),
                text_under(items.last(), "name"@),
                text_under(items.last(), "content"@),
            ),
        )
    } else {
        answers_read(items.drop_last())
    }
}

/// The blocks that are shown to a model: texts, images and files, in their order.
pub open spec fn shown(blocks: Seq<ContentBlock>) -> Seq<ContentBlock>
    decreases blocks.len(),
{
    if blocks.len() == 0 {
        Seq::empty()
    } else if blocks.last() is Text || blocks.last() is Image || blocks.last() is File {
        shown(blocks.drop_last()).push(blocks.last())
    } else {
        shown(blocks.drop_last())
    }
}

/// Whether a part of a message on the wire shows a block.
pub open spec fn part_shows(json: JsonView, block: ContentBlock) -> bool {
    match block {
        ContentBlock::Text { text, .. } => json.at("type"@) == JsonView::Text("text"@) && json.at(
            "text"@,
        ) == JsonView::Text(text@),
        ContentBlock::Image { media_type, data } => json.at("type"@) == JsonView::Text(
            "image_url"@,
        ) && json.at("image_url"@) == JsonView::Text(
            "data:"@ + media_type@ + ";base64,"@ + data@,
        ),
        ContentBlock::File { media_type, data } => json.at("type"@) == JsonView::Text(
            "document_url"@,
        ) && json.at("document_url"@) == JsonView::Text(
            "data:"@ + media_type@ + ";base64,"@ + data@,
        ),
        _ => false,
    }
}

proof fn users_block_by_block(blocks: Seq<ContentBlock>)
    ensures
        answers_read(tool_messages(blocks)) == answers(blocks),
        tool_messages(blocks).len() == answers(blocks).len(),
        user_parts(blocks).len() == shown(blocks).len(),
        forall|i: int|
            0 <= i < user_parts(blocks).len() ==> part_shows(
                #[trigger] user_parts(blocks)[i],
                shown(blocks)[i],
            ),
    decreases blocks.len(),
{
    broadcast use entry_push;

    keys_differ();
    if blocks.len() > 0 {
        let init = blocks.drop_last();
        users_block_by_block(init);
        let messages = tool_messages(init);
        match blocks.last() {
            ContentBlock::ToolResult { tool_use_id, tool_name, content, is_error, .. } => {
                assert(tool_messages(blocks).drop_last() =~= messages);
                if tool_name@.len() == 0 {
                    assert(tool_name@ =~= Seq::empty());
                }
            },
            _ => {},
        }
        let (parts, more) = (user_parts(init), user_parts(blocks));
        assert forall|i: int| 0 <= i < more.len() implies part_shows(
            #[trigger] more[i],
            shown(blocks)[i],
        ) by {
            if i < parts.len() {
                assert(more[i] == parts[i]);
            }
        }
    }
}

/// What a user sends goes over the wire: the answers of tools in their order, each in a
/// message of its own, and behind them one message with all texts, images and files in their
/// order, where there are any.
pub proof fn users_are_put_faithfully(blocks: Seq<ContentBlock>)
    ensures
        ({
            let sent = user_messages(blocks);
            let n = answers(blocks).len() as int;
            &&& answers_read(sent.take(n)) == answers(blocks)
            &&& sent.len() == n + (if shown(blocks).len() > 0 {
                1int
            } else {
                0
            })
            &&& shown(blocks).len() > 0 ==> {
                let parts = list_under(sent[n], "content"@);
                &&& text_under(sent[n], "role"@) == "user"@
                &&& parts.len() == shown(blocks).len()
                &&& forall|i: int|
                    0 <= i < parts.len() ==> part_shows(#[trigger] parts[i], shown(blocks)[i])
            }
        }),
{
    broadcast use entry_push;

    keys_differ();
    users_block_by_block(blocks);
    let n = answers(blocks).len() as int;
    assert(user_messages(blocks).take(n) =~= tool_messages(blocks));
}

/// A conversation is sent message by message, in its order, behind the system prompt of the
/// request where it has one, which stands in for the system messages among them.
pub proof fn conversations_are_put_in_order(
    messages: Seq<Message>,
    system: Option<Seq<char>>,
    i: int,
)
    requires
        0 <= i < messages.len(),
    ensures
        ({
            let before = conversation(messages.take(i), system);
            let after = conversation(messages.take(i + 1), system);
            let sent = after.skip(before.len() as int);
            let first = conversation(messages, system)[0];
            &&& after.take(before.len() as int) == before
            &&& system matches Some(prompt) ==> text_under(first, "role"@) == "system"@ && first.at(
                "content"@,
            ) == JsonView::Text(prompt)
            &&& conversation(messages.take(0), system).len() == if system is Some {
                1nat
            } else {
                0
            }
            &&& match (messages[i].role, messages[i].content) {
                (Role::System, MessageContent::Text(t)) => if system is Some {
                    sent.len() == 0
                } else {
                    sent.len() == 1 && text_under(sent[0], "role"@) == "system"@ && sent[0].at(
                        "content"@,
                    ) == JsonView::Text(t@)
                },
                (Role::System, MessageContent::Blocks(_)) => sent.len() == 0,
                (Role::User, MessageContent::Text(t)) => sent.len() == 1 && text_under(
                    sent[0],
                    "role"@,
                ) == "user"@ && sent[0].at("content"@) == JsonView::Text(t@),
                (Role::Assistant, MessageContent::Text(t)) => sent.len() == 1 && text_under(
                    sent[0],
                    "role"@,
                ) == "assistant"@ && sent[0].at("content"@) == JsonView::Text(t@),
                (Role::User, MessageContent::Blocks(blocks)) => sent == user_messages(blocks@),
                (Role::Assistant, MessageContent::Blocks(blocks)) => sent == seq![
                    assistant_message(blocks@),
                ],
            }
        }),
{
    broadcast use entry_push;

    keys_differ();
    let before = conversation(messages.take(i), system);
    let more = messages.take(i + 1);
    assert(more.drop_last() =~= messages.take(i));
    let after = conversation(more, system);
    let sent = after.skip(before.len() as int);
    assert(after.take(before.len() as int) =~= before);
    assert(messages.take(0) =~= Seq::empty());
    assert(sent =~= crate::provider::mistral::request::messages_for(
        messages[i],
        system is Some,
    ));
    if system is Some {
        prompts_stay_first(messages, system);
    }
}

proof fn prompts_stay_first(messages: Seq<Message>, system: Option<Seq<char>>)
    requires
        system is Some,
    ensures
        conversation(messages, system).len() > 0,
        conversation(messages, system)[0] == conversation(Seq::empty(), system)[0],
    decreases messages.len(),
{
    if messages.len() > 0 {
        prompts_stay_first(messages.drop_last(), system);
    } else {
        assert(messages =~= Seq::empty());
    }
}

/// A request asks for what it is given: the model, the conversation, the limit, the
/// temperature, each tool with its name, its description and its schema, and a stream where
/// one is wanted. Thinking that is on is asked for; the effort is the driver's, or none where
/// thinking is off, and a Magistral model is told of none.
pub proof fn requests_ask_for_what_is_given(
    request: CompletionRequest,
    stream: bool,
    effort: Option<Seq<char>>,
)
    ensures
        ({
            let p = request_body(request, stream, effort);
            let sent = list_under(p, "tools"@);
            let tools = request.tools@;
            let off = request.thinking matches Some(t) && !t.enabled;
            let on = request.thinking matches Some(t) && t.enabled;
            let magistral = starts_with(request.model@, "magistral"@);
            &&& p.at("model"@) == JsonView::Text(request.model@)
            &&& p.at("messages"@) == JsonView::Array(
                conversation(request.messages@, request.system.deep_view()),
            )
            &&& p.at("max_tokens"@).unsigned() == Some(request.max_tokens as u64)
            &&& p.at("temperature"@) == JsonView::Number(request.temperature.deep_view())
            &&& stream ==> p.at("stream"@) == JsonView::Bool(true)
            &&& !stream ==> p.get("stream"@) is None
            &&& on ==> p.at("prompt_mode"@) == JsonView::Text("reasoning"@)
            &&& !on ==> p.get("prompt_mode"@) is None
            &&& magistral ==> p.get("reasoning_effort"@) is None
            &&& !magistral && off ==> p.at("reasoning_effort"@) == JsonView::Text("none"@)
            &&& !magistral && !off ==> match effort {
                Some(level) => p.at("reasoning_effort"@) == JsonView::Text(level),
                None => p.get("reasoning_effort"@) is None,
            }
            &&& tools.len() == 0 ==> p.get("tools"@) is None && p.get("tool_choice"@) is None
            &&& tools.len() > 0 ==> p.at("tool_choice"@) == JsonView::Text("auto"@)
            &&& sent.len() == tools.len()
            &&& forall|i: int|
                0 <= i < tools.len() ==> {
                    let function = (#[trigger] sent[i]).at("function"@);
                    &&& sent[i].at("type"@) == JsonView::Text("function"@)
                    &&& text_under(function, "name"@) == tools[i].name@
                    &&& text_under(function, "description"@) == tools[i].description@
                    &&& function.at("parameters"@) == tools[i].input_schema.deep_view()
                }
        }),
{
    broadcast use entry_push;

    keys_differ();
    reveal_strlit("model");
    reveal_strlit("messages");
    reveal_strlit("max_tokens");
    reveal_strlit("temperature");
    reveal_strlit("tools");
    reveal_strlit("tool_choice");
    reveal_strlit("prompt_mode");
    reveal_strlit("reasoning_effort");
    reveal_strlit("stream");
    assert("model"@.len() == 5 && "tools"@.len() == 5 && "model"@[0] == 'm' && "tools"@[0] == 't');
    assert("messages"@.len() == 8 && "max_tokens"@.len() == 10 && "stream"@.len() == 6);
    assert("temperature"@.len() == 11 && "tool_choice"@.len() == 11 && "prompt_mode"@.len() == 11);
    assert("temperature"@[1] == 'e' && "tool_choice"@[1] == 'o' && "prompt_mode"@[1] == 'r');
    assert("reasoning_effort"@.len() == 16);
    let p = request_body(request, stream, effort);
    let sent = list_under(p, "tools"@);
    let tools = request.tools@;
    assert forall|i: int| 0 <= i < tools.len() implies {
        let function = (#[trigger] sent[i]).at("function"@);
        &&& sent[i].at("type"@) == JsonView::Text("function"@)
        &&& text_under(function, "name"@) == tools[i].name@
        &&& text_under(function, "description"@) == tools[i].description@
        &&& function.at("parameters"@) == tools[i].input_schema.deep_view()
    } by {
        assert(sent[i] == wire_tool(tools[i]));
    }
}

} // verus!
