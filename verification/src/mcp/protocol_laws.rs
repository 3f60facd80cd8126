//! What the messages of the protocol say, seen from the JSON that goes over the wire.
use vstd::prelude::*;

use crate::json::{JsonView, NumberView, entry_push};
use crate::json_laws::{list_under, text_or_nothing};
use crate::mcp::error::{McpErrorView, error_text, recoverable};
use crate::mcp::protocol::{
    CallResultView, ContentView, InitializeParams, JSONRPC_VERSION, MCP_PROTOCOL_VERSION,
    ToolDefView, block_text, blocks_text, call_json, call_result_in, content_in, contents_in,
    initialize_in, initialize_json, introduction, list_tools_in, notification_json, request_json,
    response_in, tool_in, tools_listed,
};
use crate::mcp::tool::{RemoteTool, call_outcome};
use crate::mcp::transport::outcome_of;
use crate::text::{contains, decimal, signed_decimal};
use crate::text_laws::{contains_itself, holds_still, holds_the_end};

verus! {

proof fn keys_differ()
    ensures
        "jsonrpc"@ != "id"@,
        "jsonrpc"@ != "method"@,
        "jsonrpc"@ != "params"@,
        "id"@ != "method"@,
        "id"@ != "params"@,
        "method"@ != "params"@,
        "name"@ != "arguments"@,
        "name"@ != "version"@,
        "protocolVersion"@ != "capabilities"@,
        "protocolVersion"@ != "clientInfo"@,
        "capabilities"@ != "clientInfo"@,
{
    reveal_strlit("jsonrpc");
    reveal_strlit("id");
    reveal_strlit("method");
    reveal_strlit("params");
    reveal_strlit("name");
    reveal_strlit("arguments");
    reveal_strlit("version");
    reveal_strlit("protocolVersion");
    reveal_strlit("capabilities");
    reveal_strlit("clientInfo");
    assert("jsonrpc"@.len() == 7 && "id"@.len() == 2 && "method"@.len() == 6);
    assert("params"@.len() == 6 && "method"@[0] != "params"@[0]);
    assert("name"@.len() == 4 && "arguments"@.len() == 9 && "version"@.len() == 7);
    assert("protocolVersion"@.len() == 15 && "capabilities"@.len() == 12);
    assert("clientInfo"@.len() == 10);
}

/// A request says which it is, what is asked for and with what; a notification says the
/// same and has no number.
pub proof fn messages_say_what_they_ask(
    version: Seq<char>,
    id: u64,
    method: Seq<char>,
    params: Option<JsonView>,
)
    ensures
        ({
            let asked = request_json(version, id, method, params);
            let told = notification_json(version, method, params);
            &&& asked.at("jsonrpc"@) == JsonView::Text(version)
            &&& asked.at("id"@) == JsonView::Number(NumberView::Unsigned(id))
            &&& asked.at("method"@) == JsonView::Text(method)
            &&& asked.get("params"@) == params
            &&& told.at("jsonrpc"@) == JsonView::Text(version)
            &&& told.get("id"@) is None
            &&& told.at("method"@) == JsonView::Text(method)
            &&& told.get("params"@) == params
        }),
{
    broadcast use entry_push;

    keys_differ();
}

/// A call names its tool and hands its arguments on.
pub proof fn calls_say_what_they_call(name: Seq<char>, arguments: Option<JsonView>)
    ensures
        call_json(name, arguments).at("name"@) == JsonView::Text(name),
        call_json(name, arguments).get("arguments"@) == arguments,
{
    broadcast use entry_push;

    keys_differ();
}

/// An introduction says which protocol is spoken, and names the client.
pub proof fn introductions_say_who_speaks()
    ensures
        introduction().at("protocolVersion"@) == JsonView::Text("2024-11-05"@),
        introduction().at("clientInfo"@).at("name"@) is Text,
        introduction().at("clientInfo"@).at("version"@) is Text,
        introduction().at("capabilities"@) is Object,
        JSONRPC_VERSION@ == "2.0"@,
        MCP_PROTOCOL_VERSION@ == "2024-11-05"@,
{
    broadcast use entry_push;

    keys_differ();
}

/// A response is one with a version, a number and, where it has an error, one with a code
/// and a message.
pub open spec fn is_response(json: JsonView) -> bool {
    &&& json.at("jsonrpc"@) is Text
    &&& json.at("id"@).unsigned() is Some
    &&& json.at("error"@) is Null || (json.at("error"@).at("code"@).signed() is Some && json.at(
        "error"@,
    ).at("message"@) is Text)
}

/// A response comes to what stands under `result`, where something stands there, and else
/// to the code, the message and the data under `error`. With neither it is an error too,
/// and none that another connection may mend.
pub proof fn responses_come_to_what_they_say(json: JsonView)
    ensures
        response_in(json) is Some <==> is_response(json),
        is_response(json) ==> {
            let response = response_in(json)->0;
            &&& json.at("jsonrpc"@) == JsonView::Text(response.jsonrpc)
            &&& json.at("id"@) == JsonView::Number(NumberView::Unsigned(response.id))
            &&& !(json.at("result"@) is Null) ==> outcome_of(response) == Ok::<
                JsonView,
                McpErrorView,
            >(json.at("result"@))
            &&& json.at("result"@) is Null ==> outcome_of(response) is Err && !recoverable(
                outcome_of(response)->Err_0,
            )
            &&& json.at("result"@) is Null && !(json.at("error"@) is Null) ==> (outcome_of(
                response,
            ) matches Err(McpErrorView::JsonRpc { code, message, data }) && json.at("error"@).at(
                "code"@,
            ).signed() == Some(code) && json.at("error"@).at("message"@) == JsonView::Text(message)
                && json.at("error"@).at("data"@) == match data {
                Some(value) => value,
                None => JsonView::Null,
            })
        },
{
}

/// Whether a value describes a tool: it has a name, a schema, and a description or none.
pub open spec fn is_tool(json: JsonView) -> bool {
    json.at("name"@) is Text && text_or_nothing(json, "description"@) && json.get(
        "inputSchema"@,
    ) is Some
}

/// Whether a tool is the one that a value describes.
pub open spec fn described_by(tool: ToolDefView, json: JsonView) -> bool {
    &&& json.at("name"@) == JsonView::Text(tool.name)
    &&& json.get("inputSchema"@) == Some(tool.input_schema)
    &&& match tool.description {
        Some(text) => json.at("description"@) == JsonView::Text(text),
        None => json.at("description"@) is Null,
    }
}

proof fn tools_in_place(items: Seq<JsonView>)
    ensures
        tools_listed(items) is Some <==> forall|i: int|
            0 <= i < items.len() ==> is_tool(#[trigger] items[i]),
        tools_listed(items) matches Some(tools) ==> tools.len() == items.len() && forall|i: int|
            0 <= i < items.len() ==> described_by(#[trigger] tools[i], items[i]),
    decreases items.len(),
{
    if items.len() > 0 {
        let front = items.drop_last();
        tools_in_place(front);
        assert(tool_in(items.last()) is Some <==> is_tool(items.last()));
        if tools_listed(items) is Some {
            let tools = tools_listed(items)->0;
            assert forall|i: int| 0 <= i < items.len() implies is_tool(#[trigger] items[i]) by {
                if i < front.len() {
                    assert(is_tool(front[i]));
                }
            }
            assert forall|i: int| 0 <= i < items.len() implies described_by(
                #[trigger] tools[i],
                items[i],
            ) by {
                if i < front.len() {
                    assert(tools[i] == tools_listed(front)->0[i]);
                    assert(front[i] == items[i]);
                }
            }
        } else if forall|i: int| 0 <= i < items.len() ==> is_tool(#[trigger] items[i]) {
            assert forall|i: int| 0 <= i < front.len() implies is_tool(#[trigger] front[i]) by {
                assert(front[i] == items[i]);
            }
            assert(is_tool(items[items.len() - 1]));
        }
    }
}

/// The tools of a server are those that it lists, each with the name, the description and
/// the schema that it gives there, in its order. A list is taken where every tool in it
/// has a name and a schema.
pub proof fn tools_are_those_listed(json: JsonView, i: int)
    ensures
        list_tools_in(json) is Some <==> json.at("tools"@) is Array && text_or_nothing(
            json,
            "next_cursor"@,
        ) && forall|k: int|
            0 <= k < list_under(json, "tools"@).len() ==> is_tool(
                #[trigger] list_under(json, "tools"@)[k],
            ),
        list_tools_in(json) matches Some(list) ==> {
            &&& list.tools.len() == list_under(json, "tools"@).len()
            &&& 0 <= i < list.tools.len() ==> described_by(
                list.tools[i],
                list_under(json, "tools"@)[i],
            )
        },
{
    tools_in_place(list_under(json, "tools"@));
}

/// What a server that introduces itself is taken for is what it says of itself; its tools
/// are asked for where it says that it has some.
pub proof fn servers_are_what_they_say(json: JsonView)
    ensures
        initialize_in(json) matches Some(init) ==> {
            &&& json.at("protocolVersion"@) == JsonView::Text(init.protocol_version)
            &&& json.at("serverInfo"@).at("name"@) == JsonView::Text(init.server_name)
            &&& json.at("serverInfo"@).at("version"@) == JsonView::Text(init.server_version)
            &&& (init.capabilities.tools is Some <==> !(json.at("capabilities"@).at(
                "tools"@,
            ) is Null))
            &&& (init.capabilities.resources is Some <==> !(json.at("capabilities"@).at(
                "resources"@,
            ) is Null))
            &&& (init.capabilities.prompts is Some <==> !(json.at("capabilities"@).at(
                "prompts"@,
            ) is Null))
            &&& json.at("instructions"@) == match init.instructions {
                Some(text) => JsonView::Text(text),
                None => JsonView::Null,
            }
        },
{
}

/// A server that says who it is and has an object of capabilities, whatever is missing in
/// it, is understood.
pub proof fn bare_introductions_are_understood(json: JsonView)
    requires
        json.at("protocolVersion"@) is Text,
        json.at("serverInfo"@).at("name"@) is Text,
        json.at("serverInfo"@).at("version"@) is Text,
        text_or_nothing(json, "instructions"@),
        json.at("capabilities"@) is Object,
        json.at("capabilities"@).at("resources"@) is Null,
        json.at("capabilities"@).at("prompts"@) is Null,
        json.at("capabilities"@).at("tools"@) is Null || (json.at("capabilities"@).at(
            "tools"@,
        ) is Object && json.at("capabilities"@).at("tools"@).at("listChanged"@) is Null),
    ensures
        initialize_in(json) is Some,
{
}

/// Whether a block is the one that a value spells.
pub open spec fn spelled_by(block: ContentView, json: JsonView) -> bool {
    match block {
        ContentView::Text { text } => json.at("type"@) == JsonView::Text("text"@) && json.at(
            "text"@,
        ) == JsonView::Text(text),
        ContentView::Image { data, mime_type } => json.at("type"@) == JsonView::Text("image"@)
            && json.at("data"@) == JsonView::Text(data) && json.at("mimeType"@) == JsonView::Text(
            mime_type,
        ),
        ContentView::Resource { uri, mime_type, text, blob } => {
            let resource = json.at("resource"@);
            &&& json.at("type"@) == JsonView::Text("resource"@)
            &&& resource.at("uri"@) == JsonView::Text(uri)
            &&& or_null(mime_type) == resource.at("mimeType"@)
            &&& or_null(text) == resource.at("text"@)
            &&& or_null(blob) == resource.at("blob"@)
        },
    }
}

/// A text, or null where there is none.
pub open spec fn or_null(text: Option<Seq<char>>) -> JsonView {
    match text {
        Some(t) => JsonView::Text(t),
        None => JsonView::Null,
    }
}

/// Whether a value spells a block.
pub open spec fn is_block(json: JsonView) -> bool {
    let resource = json.at("resource"@);
    ||| json.at("type"@) == JsonView::Text("text"@) && json.at("text"@) is Text
    ||| json.at("type"@) == JsonView::Text("image"@) && json.at("data"@) is Text && json.at(
        "mimeType"@,
    ) is Text
    ||| json.at("type"@) == JsonView::Text("resource"@) && resource.at("uri"@) is Text
        && text_or_nothing(resource, "mimeType"@) && text_or_nothing(resource, "text"@)
        && text_or_nothing(resource, "blob"@)
}

proof fn kinds_differ()
    ensures
        "text"@ != "image"@,
        "text"@ != "resource"@,
        "image"@ != "resource"@,
{
    reveal_strlit("text");
    reveal_strlit("image");
    reveal_strlit("resource");
    assert("text"@.len() == 4 && "image"@.len() == 5 && "resource"@.len() == 8);
}

proof fn block_is_spelled(json: JsonView)
    ensures
        content_in(json) is Some <==> is_block(json),
        content_in(json) matches Some(block) ==> spelled_by(block, json),
{
    kinds_differ();
}

proof fn blocks_in_place(items: Seq<JsonView>)
    ensures
        contents_in(items) is Some <==> forall|i: int|
            0 <= i < items.len() ==> is_block(#[trigger] items[i]),
        contents_in(items) matches Some(blocks) ==> blocks.len() == items.len() && forall|i: int|
            0 <= i < items.len() ==> spelled_by(#[trigger] blocks[i], items[i]),
    decreases items.len(),
{
    if items.len() > 0 {
        let front = items.drop_last();
        blocks_in_place(front);
        block_is_spelled(items.last());
        if contents_in(items) is Some {
            let blocks = contents_in(items)->0;
            assert forall|i: int| 0 <= i < items.len() implies is_block(#[trigger] items[i]) by {
                if i < front.len() {
                    assert(is_block(front[i]));
                }
            }
            assert forall|i: int| 0 <= i < items.len() implies spelled_by(
                #[trigger] blocks[i],
                items[i],
            ) by {
                if i < front.len() {
                    assert(blocks[i] == contents_in(front)->0[i]);
                    assert(front[i] == items[i]);
                }
            }
        } else if forall|i: int| 0 <= i < items.len() ==> is_block(#[trigger] items[i]) {
            assert forall|i: int| 0 <= i < front.len() implies is_block(#[trigger] front[i]) by {
                assert(front[i] == items[i]);
            }
            assert(is_block(items[items.len() - 1]));
        }
    }
}

/// The result of a call holds the blocks that the server sent, each as it was sent and in
/// their order, its structured content, and whether it is an error. It is taken where
/// every block is one.
pub proof fn results_are_those_sent(json: JsonView, i: int)
    ensures
        call_result_in(json) is Some <==> json.at("content"@) is Array && (json.at(
            "isError"@,
        ) is Null || json.at("isError"@) is Bool) && forall|k: int|
            0 <= k < list_under(json, "content"@).len() ==> is_block(
                #[trigger] list_under(json, "content"@)[k],
            ),
        call_result_in(json) matches Some(result) ==> {
            &&& result.content.len() == list_under(json, "content"@).len()
            &&& 0 <= i < result.content.len() ==> spelled_by(
                result.content[i],
                list_under(json, "content"@)[i],
            )
            &&& json.at("structuredContent"@) == match result.structured_content {
                Some(value) => value,
                None => JsonView::Null,
            }
            &&& json.at("isError"@) == match result.is_error {
                Some(flag) => JsonView::Bool(flag),
                None => JsonView::Null,
            }
        },
{
    blocks_in_place(list_under(json, "content"@));
}

/// A block says its text whole; an image says its type and its size; a resource says where
/// it is, of which type it is, and its text or else the size of what it holds.
pub proof fn blocks_say_what_they_hold(block: ContentView)
    ensures
        match block {
            ContentView::Text { text } => block_text(block) == text,
            ContentView::Image { data, mime_type } => contains(block_text(block), mime_type)
                && contains(block_text(block), decimal(vstd::utf8::encode_utf8(data).len())),
            ContentView::Resource { uri, mime_type, text, blob } => {
                &&& contains(block_text(block), uri)
                &&& mime_type matches Some(mime) ==> contains(block_text(block), mime)
                &&& text matches Some(t) ==> contains(block_text(block), t)
                &&& text is None ==> (blob matches Some(b) ==> contains(
                    block_text(block),
                    decimal(vstd::utf8::encode_utf8(b).len()),
                ))
            },
        },
{
    match block {
        ContentView::Text { text } => {},
        ContentView::Image { data, mime_type } => {
            let size = decimal(vstd::utf8::encode_utf8(data).len());
            holds_the_end("[image "@, mime_type);
            holds_still("[image "@ + mime_type, ", "@, mime_type);
            holds_still("[image "@ + mime_type + ", "@, size, mime_type);
            holds_still("[image "@ + mime_type + ", "@ + size, " bytes]"@, mime_type);
            holds_the_end("[image "@ + mime_type + ", "@, size);
            holds_still("[image "@ + mime_type + ", "@ + size, " bytes]"@, size);
        },
        ContentView::Resource { uri, mime_type, text, blob } => {
            let mime = match mime_type {
                Some(mime) => mime,
                None => Seq::empty(),
            };
            let head = "[resource "@ + uri + " "@ + mime;
            holds_the_end("[resource "@, uri);
            holds_still("[resource "@ + uri, " "@, uri);
            holds_still("[resource "@ + uri + " "@, mime, uri);
            holds_the_end("[resource "@ + uri + " "@, mime);
            match (text, blob) {
                (Some(t), _) => {
                    holds_still(head, "]\n"@, uri);
                    holds_still(head, "]\n"@, mime);
                    holds_still(head + "]\n"@, t, uri);
                    holds_still(head + "]\n"@, t, mime);
                    holds_the_end(head + "]\n"@, t);
                },
                (None, Some(b)) => {
                    let size = decimal(vstd::utf8::encode_utf8(b).len());
                    holds_still(head, ", "@, uri);
                    holds_still(head, ", "@, mime);
                    holds_still(head + ", "@, size, uri);
                    holds_still(head + ", "@, size, mime);
                    holds_the_end(head + ", "@, size);
                    holds_still(head + ", "@ + size, " bytes blob]"@, uri);
                    holds_still(head + ", "@ + size, " bytes blob]"@, mime);
                    holds_still(head + ", "@ + size, " bytes blob]"@, size);
                },
                (None, None) => {
                    holds_still(head, "]"@, uri);
                    holds_still(head, "]"@, mime);
                },
            }
        },
    }
}

/// What blocks say holds what each of them says, and one block alone says nothing else.
pub proof fn every_block_is_said(blocks: Seq<ContentView>, i: int)
    requires
        0 <= i < blocks.len(),
    ensures
        contains(blocks_text(blocks), block_text(blocks[i])),
        blocks.len() == 1 ==> blocks_text(blocks) == block_text(blocks[0]),
    decreases blocks.len(),
{
    let before = blocks_text(blocks.drop_last());
    let last = block_text(blocks.last());
    if blocks.len() == 1 {
        assert(blocks_text(blocks.drop_last()) == Seq::<char>::empty());
        assert(before + last =~= last);
        contains_itself(last);
    } else {
        if i < blocks.len() - 1 {
            every_block_is_said(blocks.drop_last(), i);
            let said = block_text(blocks[i]);
            assert(blocks.drop_last()[i] == blocks[i]);
            if before.len() == 0 {
                holds_still(before, last, said);
            } else {
                holds_still(before, "\n\n"@, said);
                holds_still(before + "\n\n"@, last, said);
            }
        } else {
            if before.len() == 0 {
                holds_the_end(before, last);
            } else {
                holds_the_end(before + "\n\n"@, last);
            }
        }
    }
}

proof fn said_from_the_first(blocks: Seq<ContentView>)
    requires
        blocks.len() > 0,
        block_text(blocks[0]).len() > 0,
    ensures
        blocks_text(blocks).len() > 0,
    decreases blocks.len(),
{
    if blocks.len() == 1 {
        every_block_is_said(blocks, 0);
    } else {
        assert(blocks.drop_last()[0] == blocks[0]);
        said_from_the_first(blocks.drop_last());
    }
}

/// What two runs of blocks say stands one behind the other, with an empty line between
/// them, where both begin by saying something.
pub proof fn blocks_are_said_in_order(first: Seq<ContentView>, second: Seq<ContentView>)
    requires
        first.len() > 0,
        block_text(first[0]).len() > 0,
        second.len() > 0,
        block_text(second[0]).len() > 0,
    ensures
        blocks_text(first + second) == blocks_text(first) + "\n\n"@ + blocks_text(second),
    decreases second.len(),
{
    let all = first + second;
    said_from_the_first(first);
    assert(all.drop_last() =~= first + second.drop_last());
    assert(all.last() == second.last());
    if second.len() == 1 {
        assert(first + second.drop_last() =~= first);
        every_block_is_said(second, 0);
    } else {
        assert(second.drop_last()[0] == second[0]);
        blocks_are_said_in_order(first, second.drop_last());
        said_from_the_first(second.drop_last());
        assert(blocks_text(all) =~= blocks_text(first) + "\n\n"@ + blocks_text(second));
    }
}

/// A call succeeds where the server answered and did not call its answer an error. Then it
/// comes to the structured content, where there is some, and else to what the blocks say.
/// An answer that is an error comes to what the blocks say, and a call without an answer
/// to a text that names the tool and the server and ends in what went wrong.
pub proof fn calls_come_to_what_was_answered(
    tool: RemoteTool,
    answer: Result<CallResultView, McpErrorView>,
)
    ensures
        ({
            let (success, output) = call_outcome(tool, answer);
            match answer {
                Ok(result) => {
                    &&& success <==> result.is_error != Some(true)
                    &&& success && result.structured_content is Some ==> output
                        == result.structured_content->0
                    &&& !success || result.structured_content is None ==> output
                        == JsonView::Text(blocks_text(result.content))
                },
                Err(error) => {
                    &&& !success
                    &&& output matches JsonView::Text(said) && contains(said, tool.def.name)
                        && contains(said, tool.server) && contains(said, error_text(error))
                },
            }
        }),
{
    if answer is Err {
        let what = error_text(answer->Err_0);
        let a = "mcp tool '"@;
        let b = a + tool.def.name;
        let c = b + "' on server '"@;
        let d = c + tool.server;
        let e = d + "' failed: "@;
        holds_the_end(a, tool.def.name);
        holds_still(b, "' on server '"@, tool.def.name);
        holds_still(c, tool.server, tool.def.name);
        holds_still(d, "' failed: "@, tool.def.name);
        holds_still(e, what, tool.def.name);
        holds_the_end(c, tool.server);
        holds_still(d, "' failed: "@, tool.server);
        holds_still(e, what, tool.server);
        holds_the_end(e, what);
    }
}

/// What an error says names the server that it is about, and holds what was told of it.
pub proof fn errors_say_what_happened(error: McpErrorView)
    ensures
        match error {
            McpErrorView::Io(m) => contains(error_text(error), m),
            McpErrorView::Json(m) => contains(error_text(error), m),
            McpErrorView::JsonRpc { code, message, data } => contains(error_text(error), message),
            McpErrorView::Timeout(span) => true,
            McpErrorView::Disconnected(server) => contains(error_text(error), server),
            McpErrorView::StaleSession(server) => contains(error_text(error), server),
            McpErrorView::Spawn { server, source } => contains(error_text(error), server)
                && contains(error_text(error), source),
            McpErrorView::Protocol(m) => contains(error_text(error), m),
            McpErrorView::ConnectFailed { server, source } => contains(error_text(error), server)
                && contains(error_text(error), error_text(*source)),
        },
{
    match error {
        McpErrorView::Io(m) => holds_the_end("transport I/O error: "@, m),
        McpErrorView::Json(m) => holds_the_end("json error: "@, m),
        McpErrorView::JsonRpc { code, message, data } => {
            holds_the_end("jsonrpc error "@ + signed_decimal(code as int) + ": "@, message);
        },
        McpErrorView::Timeout(span) => {},
        McpErrorView::Disconnected(server) => {
            holds_the_end("server '"@, server);
            holds_still("server '"@ + server, "' is disconnected"@, server);
        },
        McpErrorView::StaleSession(server) => {
            holds_the_end("server '"@, server);
            holds_still("server '"@ + server, "' session expired"@, server);
        },
        McpErrorView::Spawn { server, source } => {
            let front = "failed to spawn server '"@ + server;
            holds_the_end("failed to spawn server '"@, server);
            holds_still(front, "': "@, server);
            holds_still(front + "': "@, source, server);
            holds_the_end(front + "': "@, source);
        },
        McpErrorView::Protocol(m) => holds_the_end("protocol error: "@, m),
        McpErrorView::ConnectFailed { server, source } => {
            let front = "failed to connect server '"@ + server;
            holds_the_end("failed to connect server '"@, server);
            holds_still(front, "': "@, server);
            holds_still(front + "': "@, error_text(*source), server);
            holds_the_end(front + "': "@, error_text(*source));
        },
    }
}

/// The parameters of an introduction say what they were given.
pub proof fn introductions_say_what_they_are_given(params: InitializeParams)
    ensures
        ({
            let json = initialize_json(params);
            &&& json.at("protocolVersion"@) == JsonView::Text(params.protocol_version@)
            &&& json.at("clientInfo"@).at("name"@) == JsonView::Text(params.client_info.name@)
            &&& json.at("clientInfo"@).at("version"@) == JsonView::Text(
                params.client_info.version@,
            )
            &&& json.at("capabilities"@).get("experimental"@)
                == params.capabilities.experimental.deep_view()
            &&& json.at("capabilities"@).get("sampling"@)
                == params.capabilities.sampling.deep_view()
            &&& json.at("capabilities"@).get("roots"@) == params.capabilities.roots.deep_view()
        }),
{
    broadcast use entry_push;

    keys_differ();
    reveal_strlit("experimental");
    reveal_strlit("sampling");
    reveal_strlit("roots");
    assert("experimental"@.len() == 12 && "sampling"@.len() == 8 && "roots"@.len() == 5);
}

} // verus!
