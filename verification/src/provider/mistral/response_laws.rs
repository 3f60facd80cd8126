//! What a response comes to, by what its JSON says.
use vstd::prelude::*;

use crate::json::{JsonView, json_read, no_fields};
use crate::json_laws::{list_under, text_or_nothing, text_under};
use crate::provider::mistral::response::{
    Blocks, WireChoice, call_block, call_blocks, call_in, call_views, calls_in, choice_in,
    choices_in, chunk_blocks, content_blocks, counted, part_texts, reply_outcome, response_in,
    stop_reason, with_chunk, with_text,
};
use crate::provider::think_filter::split_stream;
use crate::provider::types::{BlockView, CallView, ProviderErrorView, StopReason};
use crate::text::trim;

verus! {

/// The text that blocks show, one behind the other.
pub open spec fn shown_by(blocks: Seq<BlockView>) -> Seq<char>
    decreases blocks.len(),
{
    if blocks.len() == 0 {
        Seq::empty()
    } else {
        shown_by(blocks.drop_last()) + match blocks.last() {
            BlockView::Text { text, .. } => text,
            _ => Seq::empty(),
        }
    }
}

/// The thinking that blocks hold, one behind the other.
pub open spec fn thought_by(blocks: Seq<BlockView>) -> Seq<char>
    decreases blocks.len(),
{
    if blocks.len() == 0 {
        Seq::empty()
    } else {
        thought_by(blocks.drop_last()) + match blocks.last() {
            BlockView::Thinking { thinking, .. } => thinking,
            _ => Seq::empty(),
        }
    }
}

/// The calls that blocks make.
pub open spec fn called_by(blocks: Seq<BlockView>) -> Seq<CallView>
    decreases blocks.len(),
{
    if blocks.len() == 0 {
        Seq::empty()
    } else {
        match blocks.last() {
            BlockView::ToolUse { id, name, input, .. } => called_by(blocks.drop_last()).push(
                CallView { id, name, input },
            ),
            _ => called_by(blocks.drop_last()),
        }
    }
}

proof fn one_block_more(blocks: Seq<BlockView>, block: BlockView)
    ensures
        shown_by(blocks.push(block)) == shown_by(blocks) + match block {
            BlockView::Text { text, .. } => text,
            _ => Seq::empty(),
        },
        thought_by(blocks.push(block)) == thought_by(blocks) + match block {
            BlockView::Thinking { thinking, .. } => thinking,
            _ => Seq::empty(),
        },
        called_by(blocks.push(block)) == match block {
            BlockView::ToolUse { id, name, input, .. } => called_by(blocks).push(
                CallView { id, name, input },
            ),
            _ => called_by(blocks),
        },
{
    assert(blocks.push(block).drop_last() =~= blocks);
}

/// The text that a part of an answer's content shows.
pub open spec fn text_in_chunk(chunk: JsonView) -> Seq<char> {
    if chunk.at("type"@) == JsonView::Text("text"@) {
        trim(split_stream(text_under(chunk, "text"@), false))
    } else {
        Seq::empty()
    }
}

/// The thinking in a part of an answer's content.
pub open spec fn thinking_in_chunk(chunk: JsonView) -> Seq<char> {
    if chunk.at("type"@) == JsonView::Text("text"@) {
        trim(split_stream(text_under(chunk, "text"@), true))
    } else if chunk.at("type"@) == JsonView::Text("thinking"@) {
        texts_in(list_under(chunk, "thinking"@))
    } else {
        Seq::empty()
    }
}

/// The texts in parts, one behind the other.
pub open spec fn texts_in(parts: Seq<JsonView>) -> Seq<char>
    decreases parts.len(),
{
    if parts.len() == 0 {
        Seq::empty()
    } else {
        texts_in(parts.drop_last()) + text_under(parts.last(), "text"@)
    }
}

/// The texts that the parts of an answer's content show, one behind the other.
pub open spec fn text_in_chunks(chunks: Seq<JsonView>) -> Seq<char>
    decreases chunks.len(),
{
    if chunks.len() == 0 {
        Seq::empty()
    } else {
        text_in_chunks(chunks.drop_last()) + text_in_chunk(chunks.last())
    }
}

/// The thinking in the parts of an answer's content, one behind the other.
pub open spec fn thinking_in_chunks(chunks: Seq<JsonView>) -> Seq<char>
    decreases chunks.len(),
{
    if chunks.len() == 0 {
        Seq::empty()
    } else {
        thinking_in_chunks(chunks.drop_last()) + thinking_in_chunk(chunks.last())
    }
}

proof fn nothing_in_nothing()
    ensures
        split_stream(Seq::empty(), false) == Seq::<char>::empty(),
        split_stream(Seq::empty(), true) == Seq::<char>::empty(),
        trim(Seq::empty()) == Seq::<char>::empty(),
{
    crate::provider::think_filter::plain_text_passes(Seq::empty());
}

proof fn text_is_taken(so_far: Blocks, raw: Seq<char>)
    ensures
        ({
            let after = with_text(so_far, raw);
            &&& shown_by(after.blocks) == shown_by(so_far.blocks) + trim(split_stream(raw, false))
            &&& thought_by(after.blocks) == thought_by(so_far.blocks) + trim(
                split_stream(raw, true),
            )
            &&& called_by(after.blocks) == called_by(so_far.blocks)
            &&& after.shown == so_far.shown + trim(split_stream(raw, false))
        }),
{
    let visible = trim(split_stream(raw, false));
    let hidden = trim(split_stream(raw, true));
    let after = with_text(so_far, raw);
    nothing_in_nothing();
    if raw.len() == 0 {
        assert(raw =~= Seq::empty());
    } else {
        let thinking = crate::provider::mistral::response::thinking_block(hidden);
        let text = crate::provider::mistral::response::text_block(visible);
        one_block_more(so_far.blocks, thinking);
        one_block_more(so_far.blocks, text);
        one_block_more(so_far.blocks.push(thinking), text);
    }
    assert(shown_by(after.blocks) =~= shown_by(so_far.blocks) + visible);
    assert(thought_by(after.blocks) =~= thought_by(so_far.blocks) + hidden);
    assert(after.shown =~= so_far.shown + visible);
}

proof fn parts_are_texts(parts: Seq<JsonView>)
    ensures
        part_texts(parts) == texts_in(parts),
    decreases parts.len(),
{
    if parts.len() > 0 {
        parts_are_texts(parts.drop_last());
        assert(texts_in(parts.drop_last()) + Seq::<char>::empty() =~= texts_in(parts.drop_last()));
    }
}

proof fn chunk_is_taken(so_far: Blocks, chunk: JsonView)
    ensures
        ({
            let after = with_chunk(so_far, chunk);
            &&& shown_by(after.blocks) == shown_by(so_far.blocks) + text_in_chunk(chunk)
            &&& thought_by(after.blocks) == thought_by(so_far.blocks) + thinking_in_chunk(chunk)
            &&& called_by(after.blocks) == called_by(so_far.blocks)
            &&& after.shown == so_far.shown + text_in_chunk(chunk)
        }),
{
    reveal_strlit("text");
    reveal_strlit("thinking");
    assert("text"@.len() == 4 && "thinking"@.len() == 8);
    nothing_in_nothing();
    let after = with_chunk(so_far, chunk);
    let kind = chunk.at("type"@).text();
    if kind == Some("text"@) {
        text_is_taken(so_far, text_under(chunk, "text"@));
        if chunk.at("text"@).text() is None {
            assert(with_text(so_far, text_under(chunk, "text"@)) == so_far);
        }
    } else if kind == Some("thinking"@) {
        parts_are_texts(list_under(chunk, "thinking"@));
        let said = crate::provider::mistral::response::chunk_thinking(chunk);
        assert(said == texts_in(list_under(chunk, "thinking"@)));
        one_block_more(
            so_far.blocks,
            crate::provider::mistral::response::thinking_block(said),
        );
        assert(thought_by(after.blocks) =~= thought_by(so_far.blocks) + thinking_in_chunk(chunk));
        assert(shown_by(after.blocks) =~= shown_by(so_far.blocks));
    } else {
        assert(chunk.at("type"@) != JsonView::Text("text"@));
        assert(chunk.at("type"@) != JsonView::Text("thinking"@));
    }
    assert(shown_by(after.blocks) =~= shown_by(so_far.blocks) + text_in_chunk(chunk));
    assert(thought_by(after.blocks) =~= thought_by(so_far.blocks) + thinking_in_chunk(chunk));
    assert(after.shown =~= so_far.shown + text_in_chunk(chunk));
}

proof fn chunks_are_taken(chunks: Seq<JsonView>)
    ensures
        shown_by(chunk_blocks(chunks).blocks) == text_in_chunks(chunks),
        thought_by(chunk_blocks(chunks).blocks) == thinking_in_chunks(chunks),
        called_by(chunk_blocks(chunks).blocks) == Seq::<CallView>::empty(),
        chunk_blocks(chunks).shown == text_in_chunks(chunks),
    decreases chunks.len(),
{
    if chunks.len() > 0 {
        chunks_are_taken(chunks.drop_last());
        chunk_is_taken(chunk_blocks(chunks.drop_last()), chunks.last());
    }
}

/// The text that an answer's content shows.
pub open spec fn text_in_content(content: JsonView) -> Seq<char> {
    match content {
        JsonView::Text(t) => trim(split_stream(t, false)),
        JsonView::Array(chunks) => text_in_chunks(chunks),
        _ => Seq::empty(),
    }
}

/// The thinking in an answer's content.
pub open spec fn thinking_in_content(content: JsonView) -> Seq<char> {
    match content {
        JsonView::Text(t) => trim(split_stream(t, true)),
        JsonView::Array(chunks) => thinking_in_chunks(chunks),
        _ => Seq::empty(),
    }
}

/// The blocks of an answer's content show its text, in the order in which it came, and
/// hold its thinking, be it marked by tags or in parts of its own; they call nothing.
pub proof fn contents_are_shown(content: JsonView)
    ensures
        shown_by(content_blocks(content).blocks) == text_in_content(content),
        thought_by(content_blocks(content).blocks) == thinking_in_content(content),
        called_by(content_blocks(content).blocks) == Seq::<CallView>::empty(),
        content_blocks(content).shown == text_in_content(content),
{
    match content {
        JsonView::Text(t) => {
            let nothing = Blocks { blocks: Seq::empty(), shown: Seq::empty() };
            text_is_taken(nothing, t);
            assert(Seq::<char>::empty() + text_in_content(content) =~= text_in_content(content));
            assert(Seq::<char>::empty() + thinking_in_content(content) =~= thinking_in_content(
                content,
            ));
        },
        JsonView::Array(chunks) => chunks_are_taken(chunks),
        _ => {},
    }
}

proof fn calls_are_blocks(blocks: Seq<BlockView>, calls: Seq<CallView>)
    ensures
        shown_by(blocks + call_blocks(calls)) == shown_by(blocks),
        thought_by(blocks + call_blocks(calls)) == thought_by(blocks),
        called_by(blocks + call_blocks(calls)) == called_by(blocks) + calls,
    decreases calls.len(),
{
    if calls.len() == 0 {
        assert(blocks + call_blocks(calls) =~= blocks);
        assert(called_by(blocks) + calls =~= called_by(blocks));
    } else {
        let front = calls.drop_last();
        calls_are_blocks(blocks, front);
        let all = blocks + call_blocks(calls);
        assert(all =~= (blocks + call_blocks(front)).push(call_block(calls.last())));
        one_block_more(blocks + call_blocks(front), call_block(calls.last()));
        assert((called_by(blocks) + front).push(calls.last()) =~= called_by(blocks) + calls);
        assert(shown_by(all) =~= shown_by(blocks));
        assert(thought_by(all) =~= thought_by(blocks));
    }
}

/// Whether a value spells a tool call.
pub open spec fn is_call(json: JsonView) -> bool {
    json.at("id"@) is Text && json.at("function"@).at("name"@) is Text && json.at("function"@).get(
        "arguments"@,
    ) is Some
}

/// Whether a call is the one that a value spells: its input is what stands there, or what
/// the text there reads as, or an empty object where it is neither an object nor readable.
pub open spec fn calls_as(call: CallView, json: JsonView) -> bool {
    let arguments = json.at("function"@).at("arguments"@);
    &&& json.at("id"@) == JsonView::Text(call.id)
    &&& json.at("function"@).at("name"@) == JsonView::Text(call.name)
    &&& arguments is Object ==> call.input == arguments
    &&& arguments matches JsonView::Text(t) ==> (match json_read(t) {
        Ok(value) => call.input == value,
        Err(_) => call.input == JsonView::Object(no_fields()),
    })
    &&& !(arguments is Object) && !(arguments is Text) ==> call.input == JsonView::Object(
        no_fields(),
    )
}

proof fn calls_in_place(items: Seq<JsonView>)
    ensures
        calls_in(items) is Some <==> forall|i: int|
            0 <= i < items.len() ==> is_call(#[trigger] items[i]),
        calls_in(items) matches Some(calls) ==> calls.len() == items.len() && forall|i: int|
            0 <= i < items.len() ==> calls_as(#[trigger] call_views(calls)[i], items[i]),
    decreases items.len(),
{
    if items.len() > 0 {
        let front = items.drop_last();
        calls_in_place(front);
        assert(call_in(items.last()) is Some <==> is_call(items.last()));
        if calls_in(items) is Some {
            let calls = calls_in(items)->0;
            let before = calls_in(front)->0;
            assert forall|i: int| 0 <= i < items.len() implies is_call(#[trigger] items[i]) by {
                if i < front.len() {
                    assert(is_call(front[i]));
                }
            }
            assert forall|i: int| 0 <= i < items.len() implies calls_as(
                #[trigger] call_views(calls)[i],
                items[i],
            ) by {
                if i < front.len() {
                    assert(calls_as(call_views(before)[i], front[i]));
                    assert(calls[i] == before[i]);
                }
            }
        } else if forall|i: int| 0 <= i < items.len() ==> is_call(#[trigger] items[i]) {
            assert forall|i: int| 0 <= i < front.len() implies is_call(#[trigger] front[i]) by {
                assert(front[i] == items[i]);
            }
            assert(is_call(items[items.len() - 1]));
        }
    }
}

/// Whether a value spells an answer.
pub open spec fn is_choice(json: JsonView) -> bool {
    let message = json.at("message"@);
    &&& message is Object
    &&& message.at("tool_calls"@) is Null || message.at("tool_calls"@) is Array
    &&& forall|i: int|
        0 <= i < list_under(message, "tool_calls"@).len() ==> is_call(
            #[trigger] list_under(message, "tool_calls"@)[i],
        )
    &&& text_or_nothing(json, "finish_reason"@)
}

/// Whether a choice is the one that a value spells.
spec fn chosen_as(choice: WireChoice, json: JsonView) -> bool {
    choice_in(json) == Some(choice)
}

proof fn choice_is_read(json: JsonView)
    ensures
        choice_in(json) is Some <==> is_choice(json),
{
    calls_in_place(list_under(json.at("message"@), "tool_calls"@));
}

proof fn choices_in_place(items: Seq<JsonView>)
    ensures
        choices_in(items) is Some <==> forall|i: int|
            0 <= i < items.len() ==> is_choice(#[trigger] items[i]),
        choices_in(items) matches Some(choices) ==> choices.len() == items.len() && forall|i: int|
            0 <= i < items.len() ==> chosen_as(#[trigger] choices[i], items[i]),
    decreases items.len(),
{
    if items.len() > 0 {
        let front = items.drop_last();
        choices_in_place(front);
        choice_is_read(items.last());
        if choices_in(items) is Some {
            let choices = choices_in(items)->0;
            let before = choices_in(front)->0;
            assert forall|i: int| 0 <= i < items.len() implies is_choice(#[trigger] items[i]) by {
                if i < front.len() {
                    assert(is_choice(front[i]));
                }
            }
            assert forall|i: int| 0 <= i < items.len() implies chosen_as(
                #[trigger] choices[i],
                items[i],
            ) by {
                if i < front.len() {
                    assert(chosen_as(before[i], front[i]));
                    assert(choices[i] == before[i]);
                }
            }
        } else if forall|i: int| 0 <= i < items.len() ==> is_choice(#[trigger] items[i]) {
            assert forall|i: int| 0 <= i < front.len() implies is_choice(#[trigger] front[i]) by {
                assert(front[i] == items[i]);
            }
            assert(is_choice(items[items.len() - 1]));
        }
    }
}

/// Whether a value spells token counts.
pub open spec fn is_usage(json: JsonView) -> bool {
    let details = json.at("prompt_tokens_details"@);
    &&& json.at("prompt_tokens"@).unsigned() is Some
    &&& json.at("completion_tokens"@).unsigned() is Some
    &&& details is Null || (details is Object && (details.get("cached_tokens"@) is None
        || details.at("cached_tokens"@).unsigned() is Some))
}

/// The count under a key, or zero.
pub open spec fn count_under(json: JsonView, key: Seq<char>) -> u64 {
    match json.at(key).unsigned() {
        Some(n) => n,
        None => 0,
    }
}

/// A reply is understood where it has an answer, every answer in it is one, and its token
/// counts, where it has any, are counts.
pub proof fn replies_are_understood(json: JsonView)
    ensures
        reply_outcome(Ok(json)) is Ok <==> {
            &&& json.at("choices"@) is Array
            &&& list_under(json, "choices"@).len() > 0
            &&& forall|i: int|
                0 <= i < list_under(json, "choices"@).len() ==> is_choice(
                    #[trigger] list_under(json, "choices"@)[i],
                )
            &&& json.at("usage"@) is Null || is_usage(json.at("usage"@))
        },
        reply_outcome(Ok(json)) is Err ==> reply_outcome(Ok(json))->Err_0 is Parse,
{
    choices_in_place(list_under(json, "choices"@));
}

/// What is not JSON is no reply, and the error is the reader's.
pub proof fn unreadable_replies_say_why(error: Seq<char>)
    ensures
        reply_outcome(Err(error)) is Err,
        reply_outcome(Err(error))->Err_0 == ProviderErrorView::Parse(error),
{
}

/// A reply comes to what its first answer says: it shows that answer's text, holds its
/// thinking, makes its calls with their inputs, in blocks and as calls alike, stops for
/// the reason that is given, and costs what is reported. Only where nothing was counted
/// and something was said does it cost one token.
pub proof fn replies_come_to_what_they_say(json: JsonView, i: int)
    requires
        reply_outcome(Ok(json)) is Ok,
    ensures
        ({
            let done = reply_outcome(Ok(json))->Ok_0;
            let choice = list_under(json, "choices"@)[0];
            let message = choice.at("message"@);
            let usage = json.at("usage"@);
            let prompt = count_under(usage, "prompt_tokens"@);
            let completion = count_under(usage, "completion_tokens"@);
            let cached = count_under(usage.at("prompt_tokens_details"@), "cached_tokens"@);
            &&& shown_by(done.content) == text_in_content(message.at("content"@))
            &&& thought_by(done.content) == thinking_in_content(message.at("content"@))
            &&& called_by(done.content) == done.tool_calls
            &&& done.tool_calls.len() == list_under(message, "tool_calls"@).len()
            &&& 0 <= i < done.tool_calls.len() ==> calls_as(
                done.tool_calls[i],
                list_under(message, "tool_calls"@)[i],
            )
            &&& done.usage.input_tokens == prompt
            &&& done.usage.cache_read_tokens == cached
            &&& done.usage.cache_write_tokens == 0
            &&& prompt > 0 || completion > 0 || done.content.len() == 0
                ==> done.usage.output_tokens == completion
            &&& prompt == 0 && completion == 0 && done.content.len() > 0
                ==> done.usage.output_tokens == 1
            &&& choice.at("finish_reason"@) == JsonView::Text("stop"@) ==> done.stop_reason
                == StopReason::EndTurn
            &&& choice.at("finish_reason"@) == JsonView::Text("tool_calls"@) ==> done.stop_reason
                == StopReason::ToolUse
            &&& choice.at("finish_reason"@) == JsonView::Text("length"@) || choice.at(
                "finish_reason"@,
            ) == JsonView::Text("model_length"@) ==> done.stop_reason == StopReason::MaxTokens
            &&& choice.at("finish_reason"@) is Null ==> (done.stop_reason == StopReason::ToolUse
                <==> list_under(message, "tool_calls"@).len() > 0)
        }),
{
    reveal_strlit("stop");
    reveal_strlit("tool_calls");
    reveal_strlit("length");
    reveal_strlit("model_length");
    assert("stop"@.len() == 4 && "tool_calls"@.len() == 10 && "length"@.len() == 6);
    assert("model_length"@.len() == 12);
    let items = list_under(json, "choices"@);
    choices_in_place(items);
    let response = response_in(json)->0;
    let choice = response.choices[0];
    assert(chosen_as(choice, items[0]));
    let message = items[0].at("message"@);
    contents_are_shown(message.at("content"@));
    calls_in_place(list_under(message, "tool_calls"@));
    let blocks = match choice.content {
        Some(value) => content_blocks(value).blocks,
        None => Seq::empty(),
    };
    let calls = match choice.calls {
        Some(calls) => call_views(calls),
        None => Seq::empty(),
    };
    assert(choice.content is None ==> message.at("content"@) is Null);
    assert(choice.calls is None ==> message.at("tool_calls"@) is Null);
    calls_are_blocks(blocks, calls);
    assert(Seq::<CallView>::empty() + calls =~= calls);
}

} // verus!
