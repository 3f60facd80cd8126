//! What a streamed completion comes to, by what its lines say.
use vstd::prelude::*;

use crate::json::{JsonView, json_read, no_fields, printed};
use crate::json_laws::{list_under, text_under};
use crate::provider::mistral::response::{
    call_blocks, chunk_thinking, part_texts, text_block, thinking_block, visible_part,
};
use crate::provider::mistral::stream::{
    AccumView, CallDraft, FeedView, InUse, LineOutcome, LineView, Use, action_events, call_index,
    data_outcome, end_events, fed, filled, finished_calls, finished_events, finished_response, flushed,
    is_error_chunk, line_outcome, line_view, spoken_blocks, streamed_thinking,
    streams_in_use_are_coherent, used, with_arguments, with_call, with_calls, with_choices,
    with_content, with_part, with_parts, with_stream_chunk, with_usage,
};
use crate::provider::think_filter::{
    ActionView, FilterView, Scan, chunking_is_immaterial, emitted, held_back, initial_filter,
    plain_run, plain_text_passes, run, split_stream,
};
use crate::provider::types::{BlockView, CallView, EventView, ProviderErrorView, StopReason};
use crate::text::{find, is_white, occurs_at, starts_with, trim, trim_end, trim_start};
use crate::text_laws::{find_is_least, find_least, trim_end_of_two, trim_shape};

verus! {

/// The text that events have streamed.
pub open spec fn streamed_text(events: Seq<EventView>) -> Seq<char>
    decreases events.len(),
{
    if events.len() == 0 {
        Seq::empty()
    } else {
        streamed_text(events.drop_last()) + match events.last() {
            EventView::TextDelta { text } => text,
            _ => Seq::empty(),
        }
    }
}

/// The input of tools that events have streamed.
pub open spec fn streamed_input(events: Seq<EventView>) -> Seq<char>
    decreases events.len(),
{
    if events.len() == 0 {
        Seq::empty()
    } else {
        streamed_input(events.drop_last()) + match events.last() {
            EventView::ToolInputDelta { text } => text,
            _ => Seq::empty(),
        }
    }
}

/// The names of the tool calls that events have started.
pub open spec fn started(events: Seq<EventView>) -> Seq<Seq<char>>
    decreases events.len(),
{
    if events.len() == 0 {
        Seq::empty()
    } else {
        match events.last() {
            EventView::ToolUseStart { name, .. } => started(events.drop_last()).push(name),
            _ => started(events.drop_last()),
        }
    }
}

/// The calls that events say are complete.
pub open spec fn completed(events: Seq<EventView>) -> Seq<CallView>
    decreases events.len(),
{
    if events.len() == 0 {
        Seq::empty()
    } else {
        match events.last() {
            EventView::ToolUseEnd { id, name, input } => completed(events.drop_last()).push(
                CallView { id, name, input },
            ),
            _ => completed(events.drop_last()),
        }
    }
}

proof fn streamed_push(events: Seq<EventView>, event: EventView)
    ensures
        streamed_text(events.push(event)) == streamed_text(events) + match event {
            EventView::TextDelta { text } => text,
            _ => Seq::empty(),
        },
        streamed_thinking(events.push(event)) == streamed_thinking(events) + match event {
            EventView::ThinkingDelta { text } => text,
            _ => Seq::empty(),
        },
        streamed_input(events.push(event)) == streamed_input(events) + match event {
            EventView::ToolInputDelta { text } => text,
            _ => Seq::empty(),
        },
        started(events.push(event)) == match event {
            EventView::ToolUseStart { name, .. } => started(events).push(name),
            _ => started(events),
        },
        completed(events.push(event)) == match event {
            EventView::ToolUseEnd { id, name, input } => completed(events).push(
                CallView { id, name, input },
            ),
            _ => completed(events),
        },
{
    assert(events.push(event).drop_last() =~= events);
}

proof fn streamed_two(a: Seq<EventView>, b: Seq<EventView>)
    ensures
        streamed_text(a + b) == streamed_text(a) + streamed_text(b),
        streamed_thinking(a + b) == streamed_thinking(a) + streamed_thinking(b),
        streamed_input(a + b) == streamed_input(a) + streamed_input(b),
        started(a + b) == started(a) + started(b),
        completed(a + b) == completed(a) + completed(b),
    decreases b.len(),
{
    if b.len() == 0 {
        assert(a + b =~= a);
        assert(streamed_text(a) + streamed_text(b) =~= streamed_text(a));
        assert(streamed_thinking(a) + streamed_thinking(b) =~= streamed_thinking(a));
        assert(streamed_input(a) + streamed_input(b) =~= streamed_input(a));
        assert(started(a) + started(b) =~= started(a));
        assert(completed(a) + completed(b) =~= completed(a));
    } else {
        streamed_two(a, b.drop_last());
        assert((a + b).drop_last() =~= a + b.drop_last());
        assert(streamed_text(a + b) =~= streamed_text(a) + streamed_text(b));
        assert(streamed_thinking(a + b) =~= streamed_thinking(a) + streamed_thinking(b));
        assert(streamed_input(a + b) =~= streamed_input(a) + streamed_input(b));
        assert(started(a + b) =~= started(a) + started(b));
        assert(completed(a + b) =~= completed(a) + completed(b));
    }
}

proof fn actions_stream(actions: Seq<ActionView>)
    ensures
        streamed_text(action_events(actions)) == emitted(actions, false),
        streamed_thinking(action_events(actions)) == emitted(actions, true),
        streamed_input(action_events(actions)) == Seq::<char>::empty(),
        started(action_events(actions)) == Seq::<Seq<char>>::empty(),
        completed(action_events(actions)) == Seq::<CallView>::empty(),
    decreases actions.len(),
{
    let events = action_events(actions);
    if actions.len() > 0 {
        actions_stream(actions.drop_last());
        assert(events.drop_last() =~= action_events(actions.drop_last()));
        assert(streamed_input(events) =~= Seq::empty());
    }
}

/// The text that the chunks of type `text` hold, one behind another.
pub open spec fn chunk_texts(chunks: Seq<JsonView>) -> Seq<char>
    decreases chunks.len(),
{
    if chunks.len() == 0 {
        Seq::empty()
    } else {
        let before = chunk_texts(chunks.drop_last());
        if chunks.last().at("type"@) == JsonView::Text("text"@) {
            before + text_under(chunks.last(), "text"@)
        } else {
            before
        }
    }
}

/// The texts of the items, one behind another.
pub open spec fn item_texts(items: Seq<JsonView>) -> Seq<char>
    decreases items.len(),
{
    if items.len() == 0 {
        Seq::empty()
    } else {
        item_texts(items.drop_last()) + text_under(items.last(), "text"@)
    }
}

/// The thinking that the chunks of type `thinking` hold, one behind another.
pub open spec fn chunk_thoughts(chunks: Seq<JsonView>) -> Seq<char>
    decreases chunks.len(),
{
    if chunks.len() == 0 {
        Seq::empty()
    } else {
        let before = chunk_thoughts(chunks.drop_last());
        if chunks.last().at("type"@) == JsonView::Text("thinking"@) {
            before + item_texts(list_under(chunks.last(), "thinking"@))
        } else {
            before
        }
    }
}

/// What contents have said so far, and where they leave the filter.
pub ghost struct Said {
    /// The text as it was given.
    pub text: Seq<char>,
    /// What of it is visible.
    pub visible: Seq<char>,
    /// What was thought.
    pub thinking: Seq<char>,
    pub filter: FilterView,
}

/// What was said with a content behind it. Plain text is parted by the filter, and chunks
/// say what they are.
pub open spec fn saying(said: Said, content: JsonView) -> Said {
    match content {
        JsonView::Text(t) => {
            let scan = run(Scan { filter: said.filter, actions: Seq::empty() }, t);
            Said {
                text: said.text + t,
                visible: said.visible + emitted(scan.actions, false),
                thinking: said.thinking + emitted(scan.actions, true),
                filter: scan.filter,
            }
        },
        JsonView::Array(chunks) => Said {
            text: said.text + chunk_texts(chunks),
            visible: said.visible + chunk_texts(chunks),
            thinking: said.thinking + chunk_thoughts(chunks),
            filter: said.filter,
        },
        _ => said,
    }
}

/// What was said with contents behind it.
pub open spec fn said_with(said: Said, contents: Seq<JsonView>) -> Said
    decreases contents.len(),
{
    if contents.len() == 0 {
        said
    } else {
        saying(said_with(said, contents.drop_last()), contents.last())
    }
}

/// What an accumulator has been told, as its events have it.
pub open spec fn said_in(a: AccumView) -> Said {
    Said {
        text: a.text,
        visible: streamed_text(a.events),
        thinking: streamed_thinking(a.events),
        filter: a.filter,
    }
}

/// The contents of the deltas of choices.
pub open spec fn contents(choices: Seq<JsonView>) -> Seq<JsonView> {
    choices.map_values(|choice: JsonView| choice.at("delta"@).at("content"@))
}

proof fn thinking_is_joined(chunk: JsonView)
    ensures
        chunk_thinking(chunk) == item_texts(list_under(chunk, "thinking"@)),
{
    items_are_joined(list_under(chunk, "thinking"@));
}

proof fn items_are_joined(items: Seq<JsonView>)
    ensures
        part_texts(items) == item_texts(items),
    decreases items.len(),
{
    if items.len() > 0 {
        items_are_joined(items.drop_last());
        let before = item_texts(items.drop_last());
        assert(before + Seq::<char>::empty() =~= before);
    }
}

proof fn part_says(a: AccumView, part: JsonView)
    ensures
        ({
            let after = with_part(a, part);
            let one = seq![part];
            &&& after.text == a.text + chunk_texts(one)
            &&& streamed_text(after.events) == streamed_text(a.events) + chunk_texts(one)
            &&& streamed_thinking(after.events) == streamed_thinking(a.events) + chunk_thoughts(one)
            &&& after.thinking == a.thinking + chunk_thoughts(one)
            &&& streamed_input(after.events) == streamed_input(a.events)
            &&& started(after.events) == started(a.events)
            &&& after.filter == a.filter && after.drafts == a.drafts && after.usage == a.usage
            &&& after.finish_reason == a.finish_reason
        }),
{
    reveal_strlit("text");
    reveal_strlit("thinking");
    assert("text"@.len() != "thinking"@.len());
    let one = seq![part];
    let none = Seq::<char>::empty();
    assert(one.drop_last() =~= Seq::empty());
    assert(chunk_texts(one.drop_last()) =~= none);
    assert(chunk_thoughts(one.drop_last()) =~= none);
    thinking_is_joined(part);
    let t = text_under(part, "text"@);
    let thought = chunk_thinking(part);
    assert(none + t =~= t);
    assert(none + thought =~= thought);
    assert(a.text + none =~= a.text);
    assert(a.thinking + none =~= a.thinking);
    assert(streamed_text(a.events) + none =~= streamed_text(a.events));
    assert(streamed_thinking(a.events) + none =~= streamed_thinking(a.events));
    assert(streamed_input(a.events) + none =~= streamed_input(a.events));
    streamed_push(a.events, EventView::TextDelta { text: t });
    streamed_push(a.events, EventView::ThinkingDelta { text: thought });
    if t.len() == 0 {
        assert(t =~= none);
    }
    if thought.len() == 0 {
        assert(thought =~= none);
    }
}

proof fn chunks_in_two(a: Seq<JsonView>, b: JsonView)
    ensures
        chunk_texts(a.push(b)) == chunk_texts(a) + chunk_texts(seq![b]),
        chunk_thoughts(a.push(b)) == chunk_thoughts(a) + chunk_thoughts(seq![b]),
{
    let none = Seq::<char>::empty();
    assert(a.push(b).drop_last() =~= a);
    assert(seq![b].drop_last() =~= Seq::empty());
    assert(chunk_texts(seq![b].drop_last()) =~= none);
    assert(chunk_thoughts(seq![b].drop_last()) =~= none);
    assert(none + text_under(b, "text"@) =~= text_under(b, "text"@));
    let thought = item_texts(list_under(b, "thinking"@));
    assert(none + thought =~= thought);
    assert(chunk_texts(a) + none =~= chunk_texts(a));
    assert(chunk_thoughts(a) + none =~= chunk_thoughts(a));
}

proof fn parts_say(a: AccumView, parts: Seq<JsonView>, n: nat)
    requires
        n <= parts.len(),
    ensures
        ({
            let after = with_parts(a, parts, n);
            let first = parts.take(n as int);
            &&& after.text == a.text + chunk_texts(first)
            &&& streamed_text(after.events) == streamed_text(a.events) + chunk_texts(first)
            &&& streamed_thinking(after.events) == streamed_thinking(a.events) + chunk_thoughts(
                first,
            )
            &&& after.thinking == a.thinking + chunk_thoughts(first)
            &&& streamed_input(after.events) == streamed_input(a.events)
            &&& started(after.events) == started(a.events)
            &&& after.filter == a.filter && after.drafts == a.drafts && after.usage == a.usage
            &&& after.finish_reason == a.finish_reason
        }),
    decreases n,
{
    let none = Seq::<char>::empty();
    if n == 0 {
        assert(parts.take(0) =~= Seq::empty());
        assert(a.text + none =~= a.text);
        assert(a.thinking + none =~= a.thinking);
        assert(streamed_text(a.events) + none =~= streamed_text(a.events));
        assert(streamed_thinking(a.events) + none =~= streamed_thinking(a.events));
    } else {
        let m = (n - 1) as nat;
        let before = with_parts(a, parts, m);
        let first = parts.take(m as int);
        let last = parts[m as int];
        parts_say(a, parts, m);
        part_says(before, last);
        chunks_in_two(first, last);
        assert(parts.take(n as int) =~= first.push(last));
        let more = chunk_texts(seq![last]);
        let thought = chunk_thoughts(seq![last]);
        assert(a.text + chunk_texts(first) + more =~= a.text + (chunk_texts(first) + more));
        assert(a.thinking + chunk_thoughts(first) + thought =~= a.thinking + (chunk_thoughts(first)
            + thought));
        assert(streamed_text(a.events) + chunk_texts(first) + more =~= streamed_text(a.events) + (
        chunk_texts(first) + more));
        assert(streamed_thinking(a.events) + chunk_thoughts(first) + thought
            =~= streamed_thinking(a.events) + (chunk_thoughts(first) + thought));
    }
}

proof fn content_says(a: AccumView, content: JsonView)
    ensures
        ({
            let after = with_content(a, content);
            &&& said_in(after) == saying(said_in(a), content)
            &&& streamed_input(after.events) == streamed_input(a.events)
            &&& started(after.events) == started(a.events)
            &&& after.drafts == a.drafts && after.usage == a.usage
            &&& after.finish_reason == a.finish_reason
        }),
{
    let none = Seq::<char>::empty();
    match content {
        JsonView::Text(t) => {
            let scan = run(Scan { filter: a.filter, actions: Seq::empty() }, t);
            actions_stream(scan.actions);
            streamed_two(a.events, action_events(scan.actions));
            assert(streamed_input(a.events) + none =~= streamed_input(a.events));
            assert(started(a.events) + Seq::<Seq<char>>::empty() =~= started(a.events));
            if t.len() == 0 {
                assert(t =~= none);
                assert(a.text + none =~= a.text);
                assert(scan == (Scan { filter: a.filter, actions: Seq::empty() }));
                assert(emitted(scan.actions, true) =~= none);
                assert(emitted(scan.actions, false) =~= none);
                assert(streamed_text(a.events) + none =~= streamed_text(a.events));
                assert(streamed_thinking(a.events) + none =~= streamed_thinking(a.events));
            }
        },
        JsonView::Array(parts) => {
            parts_say(a, parts, parts.len());
            assert(parts.take(parts.len() as int) =~= parts);
        },
        _ => {},
    }
}

/// The place of the call that a tool call delta is for.
pub open spec fn place(delta: JsonView) -> nat {
    match delta.at("index"@).unsigned() {
        Some(n) => (n as usize) as nat,
        None => 0,
    }
}

/// The id of the call at a place behind tool call deltas: the last that one of its own gave.
pub open spec fn id_behind(before: Seq<char>, deltas: Seq<JsonView>, at: nat) -> Seq<char>
    decreases deltas.len(),
{
    if deltas.len() == 0 {
        before
    } else {
        let given = text_under(deltas.last(), "id"@);
        if place(deltas.last()) == at && given.len() > 0 {
            given
        } else {
            id_behind(before, deltas.drop_last(), at)
        }
    }
}

/// The name of the call at a place behind tool call deltas: the last that one of its own
/// gave.
pub open spec fn name_behind(before: Seq<char>, deltas: Seq<JsonView>, at: nat) -> Seq<char>
    decreases deltas.len(),
{
    if deltas.len() == 0 {
        before
    } else {
        match deltas.last().at("function"@).at("name"@) {
            JsonView::Text(name) if place(deltas.last()) == at => name,
            _ => name_behind(before, deltas.drop_last(), at),
        }
    }
}

/// The arguments of the call at a place behind tool call deltas: text of its own is put
/// behind what was there, and an object comes in its place.
pub open spec fn arguments_behind(before: Seq<char>, deltas: Seq<JsonView>, at: nat) -> Seq<char>
    decreases deltas.len(),
{
    if deltas.len() == 0 {
        before
    } else {
        let so_far = arguments_behind(before, deltas.drop_last(), at);
        if place(deltas.last()) == at {
            match deltas.last().at("function"@).at("arguments"@) {
                JsonView::Text(t) => so_far + t,
                JsonView::Object(fields) => printed(JsonView::Object(fields)),
                _ => so_far,
            }
        } else {
            so_far
        }
    }
}

/// How many places there are behind tool call deltas.
pub open spec fn places_behind(before: nat, deltas: Seq<JsonView>) -> nat
    decreases deltas.len(),
{
    if deltas.len() == 0 {
        before
    } else {
        let so_far = places_behind(before, deltas.drop_last());
        if place(deltas.last()) < so_far {
            so_far
        } else {
            place(deltas.last()) + 1
        }
    }
}

/// The draft at a place, blank where there is none.
pub open spec fn draft_at(drafts: Seq<CallDraft>, at: nat) -> CallDraft {
    if at < drafts.len() {
        drafts[at as int]
    } else {
        CallDraft { id: Seq::empty(), name: Seq::empty(), arguments: Seq::empty() }
    }
}

/// Whether drafts are those that tool call deltas make of others.
pub open spec fn drafted(
    before: Seq<CallDraft>,
    deltas: Seq<JsonView>,
    after: Seq<CallDraft>,
) -> bool {
    &&& after.len() == places_behind(before.len(), deltas)
    &&& forall|at: nat|
        at < after.len() ==> #[trigger] draft_at(after, at) == (CallDraft {
            id: id_behind(draft_at(before, at).id, deltas, at),
            name: name_behind(draft_at(before, at).name, deltas, at),
            arguments: arguments_behind(draft_at(before, at).arguments, deltas, at),
        })
}

/// What tool call deltas stream as input.
pub open spec fn input_given(deltas: Seq<JsonView>) -> Seq<char>
    decreases deltas.len(),
{
    if deltas.len() == 0 {
        Seq::empty()
    } else {
        input_given(deltas.drop_last()) + match deltas.last().at("function"@).at("arguments"@) {
            JsonView::Text(t) => t,
            JsonView::Object(fields) => printed(JsonView::Object(fields)),
            _ => Seq::empty(),
        }
    }
}

/// The names that tool call deltas give.
pub open spec fn names_given(deltas: Seq<JsonView>) -> Seq<Seq<char>>
    decreases deltas.len(),
{
    if deltas.len() == 0 {
        Seq::empty()
    } else {
        match deltas.last().at("function"@).at("name"@) {
            JsonView::Text(name) => names_given(deltas.drop_last()).push(name),
            _ => names_given(deltas.drop_last()),
        }
    }
}

proof fn call_drafts(a: AccumView, call: JsonView)
    ensures
        ({
            let after = with_call(a, call);
            let one = seq![call];
            &&& drafted(a.drafts, one, after.drafts)
            &&& streamed_input(after.events) == streamed_input(a.events) + input_given(one)
            &&& started(after.events) == started(a.events) + names_given(one)
            &&& streamed_text(after.events) == streamed_text(a.events)
            &&& streamed_thinking(after.events) == streamed_thinking(a.events)
            &&& after.text == a.text && after.filter == a.filter && after.usage == a.usage
            &&& after.finish_reason == a.finish_reason && after.thinking == a.thinking
        }),
{
    let none = Seq::<char>::empty();
    let one = seq![call];
    let after = with_call(a, call);
    let i = call_index(call);
    assert(one.drop_last() =~= Seq::empty());
    assert(one.last() == call);
    assert(places_behind(a.drafts.len(), one.drop_last()) == a.drafts.len());
    let grown = AccumView { drafts: filled(a.drafts, i + 1), ..a };
    let id = text_under(call, "id"@);
    let with_id = if id.len() == 0 {
        grown
    } else {
        AccumView {
            drafts: grown.drafts.update(i as int, CallDraft { id, ..grown.drafts[i as int] }),
            ..grown
        }
    };
    let function = call.at("function"@);
    let named = match function.at("name"@).text() {
        Some(name) => AccumView {
            drafts: with_id.drafts.update(
                i as int,
                CallDraft { name, ..with_id.drafts[i as int] },
            ),
            events: with_id.events.push(
                EventView::ToolUseStart { id: with_id.drafts[i as int].id, name },
            ),
            ..with_id
        },
        None => with_id,
    };
    assert(streamed_text(a.events) + none =~= streamed_text(a.events));
    assert(streamed_thinking(a.events) + none =~= streamed_thinking(a.events));
    assert(streamed_input(a.events) + none =~= streamed_input(a.events));
    match function.at("name"@).text() {
        Some(name) => {
            streamed_push(
                a.events,
                EventView::ToolUseStart { id: with_id.drafts[i as int].id, name },
            );
            assert(started(a.events).push(name) =~= started(a.events) + names_given(one)) by {
                assert(names_given(one.drop_last()) =~= Seq::empty());
                assert(names_given(one) =~= seq![name]);
            }
        },
        None => {
            assert(names_given(one.drop_last()) =~= Seq::empty());
            assert(started(a.events) + names_given(one) =~= started(a.events));
        },
    }
    assert(input_given(one.drop_last()) =~= none);
    match function.at("arguments"@) {
        JsonView::Text(t) => {
            streamed_push(named.events, EventView::ToolInputDelta { text: t });
            if t.len() == 0 {
                assert(t =~= none);
            }
            assert(none + t =~= t);
        },
        JsonView::Object(fields) => {
            let t = printed(JsonView::Object(fields));
            streamed_push(named.events, EventView::ToolInputDelta { text: t });
            assert(none + t =~= t);
        },
        _ => {
            assert(none + none =~= none);
        },
    }
    assert(streamed_text(named.events) + none =~= streamed_text(named.events));
    assert(streamed_thinking(named.events) + none =~= streamed_thinking(named.events));
    assert(after == match call.get("function"@) {
        Some(_) => with_arguments(named, i as int, function.at("arguments"@)),
        None => with_id,
    });
    assert forall|at: nat| at < after.drafts.len() implies #[trigger] draft_at(after.drafts, at)
        == (CallDraft {
        id: id_behind(draft_at(a.drafts, at).id, one, at),
        name: name_behind(draft_at(a.drafts, at).name, one, at),
        arguments: arguments_behind(draft_at(a.drafts, at).arguments, one, at),
    }) by {
        let old = draft_at(a.drafts, at);
        assert(id_behind(old.id, one.drop_last(), at) == old.id);
        assert(name_behind(old.name, one.drop_last(), at) == old.name);
        assert(arguments_behind(old.arguments, one.drop_last(), at) == old.arguments);
        assert(draft_at(grown.drafts, at) == old);
    }
}

proof fn untouched_places(before: Seq<CallDraft>, deltas: Seq<JsonView>, at: nat)
    requires
        at >= places_behind(before.len(), deltas),
    ensures
        at >= before.len(),
        id_behind(Seq::empty(), deltas, at) == Seq::<char>::empty(),
        name_behind(Seq::empty(), deltas, at) == Seq::<char>::empty(),
        arguments_behind(Seq::empty(), deltas, at) == Seq::<char>::empty(),
    decreases deltas.len(),
{
    if deltas.len() > 0 {
        untouched_places(before, deltas.drop_last(), at);
    }
}

proof fn calls_draft(a: AccumView, calls: Seq<JsonView>, n: nat)
    requires
        n <= calls.len(),
    ensures
        ({
            let after = with_calls(a, calls, n);
            let first = calls.take(n as int);
            &&& drafted(a.drafts, first, after.drafts)
            &&& streamed_input(after.events) == streamed_input(a.events) + input_given(first)
            &&& started(after.events) == started(a.events) + names_given(first)
            &&& streamed_text(after.events) == streamed_text(a.events)
            &&& streamed_thinking(after.events) == streamed_thinking(a.events)
            &&& after.text == a.text && after.filter == a.filter && after.usage == a.usage
            &&& after.finish_reason == a.finish_reason && after.thinking == a.thinking
        }),
    decreases n,
{
    if n == 0 {
        assert(calls.take(0) =~= Seq::empty());
        assert(streamed_input(a.events) + Seq::<char>::empty() =~= streamed_input(a.events));
        assert(started(a.events) + Seq::<Seq<char>>::empty() =~= started(a.events));
    } else {
        let m = (n - 1) as nat;
        let first = calls.take(m as int);
        let last = calls[m as int];
        let before = with_calls(a, calls, m);
        calls_draft(a, calls, m);
        call_drafts(before, last);
        drafts_joined(a.drafts, first, before.drafts, seq![last], with_call(before, last).drafts);
        assert(calls.take(n as int) =~= first.push(last));
        assert(first.push(last) =~= first + seq![last]);
        given_in_two(first, last);
        assert(streamed_input(a.events) + input_given(first) + input_given(seq![last])
            =~= streamed_input(a.events) + (input_given(first) + input_given(seq![last])));
        assert(started(a.events) + names_given(first) + names_given(seq![last]) =~= started(
            a.events,
        ) + (names_given(first) + names_given(seq![last])));
    }
}

proof fn given_in_two(first: Seq<JsonView>, last: JsonView)
    ensures
        input_given(first.push(last)) == input_given(first) + input_given(seq![last]),
        names_given(first.push(last)) == names_given(first) + names_given(seq![last]),
{
    assert(first.push(last).drop_last() =~= first);
    let one = seq![last];
    assert(one.drop_last() =~= Seq::empty());
    assert(input_given(one.drop_last()) =~= Seq::empty());
    assert(names_given(one.drop_last()) =~= Seq::empty());
    assert(input_given(first.push(last)) =~= input_given(first) + input_given(one));
    assert(names_given(first.push(last)) =~= names_given(first) + names_given(one));
}

/// The tool call deltas of choices, one choice behind the other.
pub open spec fn call_deltas(choices: Seq<JsonView>) -> Seq<JsonView>
    decreases choices.len(),
{
    if choices.len() == 0 {
        Seq::empty()
    } else {
        call_deltas(choices.drop_last()) + list_under(choices.last().at("delta"@), "tool_calls"@)
    }
}

/// The last stop reason that choices give, or else the one before.
pub open spec fn last_reason(before: Option<Seq<char>>, choices: Seq<JsonView>) -> Option<Seq<char>>
    decreases choices.len(),
{
    if choices.len() == 0 {
        before
    } else {
        match choices.last().at("finish_reason"@) {
            JsonView::Text(reason) => Some(reason),
            _ => last_reason(before, choices.drop_last()),
        }
    }
}

/// Whether an accumulator is what choices make of another.
pub open spec fn takes_in(a: AccumView, choices: Seq<JsonView>, after: AccumView) -> bool {
    let deltas = call_deltas(choices);
    &&& said_in(after) == said_with(said_in(a), contents(choices))
    &&& drafted(a.drafts, deltas, after.drafts)
    &&& streamed_input(after.events) == streamed_input(a.events) + input_given(deltas)
    &&& started(after.events) == started(a.events) + names_given(deltas)
    &&& after.finish_reason == last_reason(a.finish_reason, choices)
    &&& after.usage == a.usage
}

proof fn drafts_joined(
    before: Seq<CallDraft>,
    a: Seq<JsonView>,
    middle: Seq<CallDraft>,
    b: Seq<JsonView>,
    after: Seq<CallDraft>,
)
    requires
        drafted(before, a, middle),
        drafted(middle, b, after),
    ensures
        drafted(before, a + b, after),
{
    places_in_two(before.len(), a, b);
    assert forall|at: nat| at < after.len() implies #[trigger] draft_at(after, at) == (CallDraft {
        id: id_behind(draft_at(before, at).id, a + b, at),
        name: name_behind(draft_at(before, at).name, a + b, at),
        arguments: arguments_behind(draft_at(before, at).arguments, a + b, at),
    }) by {
        let old = draft_at(before, at);
        behind_in_two(old, a, b, at);
        if at >= middle.len() {
            untouched_places(before, a, at);
        } else {
            assert(draft_at(middle, at) == (CallDraft {
                id: id_behind(old.id, a, at),
                name: name_behind(old.name, a, at),
                arguments: arguments_behind(old.arguments, a, at),
            }));
        }
    }
}

proof fn places_in_two(before: nat, a: Seq<JsonView>, b: Seq<JsonView>)
    ensures
        places_behind(before, a + b) == places_behind(places_behind(before, a), b),
    decreases b.len(),
{
    if b.len() == 0 {
        assert(a + b =~= a);
    } else {
        places_in_two(before, a, b.drop_last());
        assert((a + b).drop_last() =~= a + b.drop_last());
    }
}

proof fn behind_in_two(old: CallDraft, a: Seq<JsonView>, b: Seq<JsonView>, at: nat)
    ensures
        id_behind(old.id, a + b, at) == id_behind(id_behind(old.id, a, at), b, at),
        name_behind(old.name, a + b, at) == name_behind(name_behind(old.name, a, at), b, at),
        arguments_behind(old.arguments, a + b, at) == arguments_behind(
            arguments_behind(old.arguments, a, at),
            b,
            at,
        ),
    decreases b.len(),
{
    if b.len() == 0 {
        assert(a + b =~= a);
    } else {
        behind_in_two(old, a, b.drop_last(), at);
        assert((a + b).drop_last() =~= a + b.drop_last());
        assert((a + b).last() == b.last());
    }
}

proof fn all_given_in_two(a: Seq<JsonView>, b: Seq<JsonView>)
    ensures
        input_given(a + b) == input_given(a) + input_given(b),
        names_given(a + b) == names_given(a) + names_given(b),
    decreases b.len(),
{
    if b.len() == 0 {
        assert(a + b =~= a);
        assert(input_given(a) + input_given(b) =~= input_given(a));
        assert(names_given(a) + names_given(b) =~= names_given(a));
    } else {
        all_given_in_two(a, b.drop_last());
        assert((a + b).drop_last() =~= a + b.drop_last());
        assert(input_given(a + b) =~= input_given(a) + input_given(b));
        assert(names_given(a + b) =~= names_given(a) + names_given(b));
    }
}

proof fn choices_take_in(a: AccumView, choices: Seq<JsonView>, n: nat)
    requires
        n <= choices.len(),
    ensures
        takes_in(a, choices.take(n as int), with_choices(a, choices, n)),
    decreases n,
{
    let first = choices.take(n as int);
    if n == 0 {
        assert(first =~= Seq::empty());
        assert(contents(first) =~= Seq::empty());
        assert(streamed_input(a.events) + Seq::<char>::empty() =~= streamed_input(a.events));
        assert(started(a.events) + Seq::<Seq<char>>::empty() =~= started(a.events));
    } else {
        let m = (n - 1) as nat;
        let before = with_choices(a, choices, m);
        let choice = choices[m as int];
        let init = choices.take(m as int);
        choices_take_in(a, choices, m);
        assert(first.drop_last() =~= init);
        assert(first.last() == choice);
        assert(contents(first).drop_last() =~= contents(init));
        assert(contents(first).last() == choice.at("delta"@).at("content"@));
        let delta = choice.at("delta"@);
        content_says(before, delta.at("content"@));
        let said = with_content(before, delta.at("content"@));
        let more = list_under(delta, "tool_calls"@);
        calls_draft(said, more, more.len());
        assert(more.take(more.len() as int) =~= more);
        let called = with_calls(said, more, more.len());
        assert(match delta.at("tool_calls"@).items() {
            Some(calls) => with_calls(said, calls, calls.len()),
            None => said,
        } == called);
        drafts_joined(a.drafts, call_deltas(init), before.drafts, more, called.drafts);
        all_given_in_two(call_deltas(init), more);
        assert(streamed_input(a.events) + input_given(call_deltas(init)) + input_given(more)
            =~= streamed_input(a.events) + (input_given(call_deltas(init)) + input_given(more)));
        assert(started(a.events) + names_given(call_deltas(init)) + names_given(more) =~= started(
            a.events,
        ) + (names_given(call_deltas(init)) + names_given(more)));
    }
}

/// A count that a report gives under a key, or else the one before.
pub open spec fn count_behind(before: u64, report: JsonView, key: Seq<char>) -> u64 {
    match report.at(key).unsigned() {
        Some(n) => n,
        None => before,
    }
}

/// A chunk is taken in whole: the text grows by what its contents say, what is visible of it
/// and what is thought is streamed, each tool call gets its id, its name and its arguments at
/// its own place, and the stop reason and the counts are the last that were given.
pub proof fn chunks_are_taken_in(a: AccumView, chunk: JsonView)
    ensures
        ({
            let after = with_stream_chunk(a, chunk);
            let report = chunk.at("usage"@);
            let usage = after.usage;
            &&& takes_in(
                AccumView { usage, ..a },
                list_under(chunk, "choices"@),
                after,
            )
            &&& usage.input_tokens == count_behind(
                a.usage.input_tokens,
                report,
                "prompt_tokens"@,
            )
            &&& usage.output_tokens == count_behind(
                a.usage.output_tokens,
                report,
                "completion_tokens"@,
            )
            &&& usage.cache_read_tokens == count_behind(
                a.usage.cache_read_tokens,
                report.at("prompt_tokens_details"@),
                "cached_tokens"@,
            )
            &&& usage.cache_write_tokens == a.usage.cache_write_tokens
        }),
{
    let choices = list_under(chunk, "choices"@);
    let counted = match chunk.get("usage"@) {
        Some(report) => AccumView { usage: with_usage(a.usage, report), ..a },
        None => a,
    };
    choices_take_in(counted, choices, choices.len());
    assert(choices.take(choices.len() as int) =~= choices);
}

/// The text of an accumulator only grows, and by what the contents of a chunk say.
pub proof fn texts_grow_by_what_is_said(a: AccumView, chunk: JsonView)
    ensures
        with_stream_chunk(a, chunk).text == a.text + texts_of(
            contents(list_under(chunk, "choices"@)),
        ),
{
    chunks_are_taken_in(a, chunk);
    text_of_said(said_in(a), contents(list_under(chunk, "choices"@)));
}

/// The text that contents say: plain text as it is, and the text of chunks.
pub open spec fn texts_of(contents: Seq<JsonView>) -> Seq<char>
    decreases contents.len(),
{
    if contents.len() == 0 {
        Seq::empty()
    } else {
        texts_of(contents.drop_last()) + match contents.last() {
            JsonView::Text(t) => t,
            JsonView::Array(chunks) => chunk_texts(chunks),
            _ => Seq::empty(),
        }
    }
}

proof fn text_of_said(said: Said, contents: Seq<JsonView>)
    ensures
        said_with(said, contents).text == said.text + texts_of(contents),
    decreases contents.len(),
{
    let none = Seq::<char>::empty();
    if contents.len() == 0 {
        assert(said.text + none =~= said.text);
    } else {
        let init = contents.drop_last();
        text_of_said(said, init);
        let so_far = said.text + texts_of(init);
        assert(so_far + none =~= so_far);
        let more = match contents.last() {
            JsonView::Text(t) => t,
            JsonView::Array(chunks) => chunk_texts(chunks),
            _ => none,
        };
        assert(so_far + more =~= said.text + (texts_of(init) + more));
    }
}

/// Whether a draft is one of a call: it has an id and a name.
pub open spec fn complete(draft: CallDraft) -> bool {
    draft.id.len() > 0 && draft.name.len() > 0
}

/// How many drafts are complete.
pub open spec fn completes(drafts: Seq<CallDraft>) -> nat
    decreases drafts.len(),
{
    if drafts.len() == 0 {
        0
    } else {
        completes(drafts.drop_last()) + if complete(drafts.last()) {
            1nat
        } else {
            0
        }
    }
}

/// Each complete draft comes to one call, in its place among them: with its id, its name
/// and the input that its arguments spell, an empty object where they spell nothing.
pub proof fn complete_drafts_come_to_calls(drafts: Seq<CallDraft>)
    ensures
        ({
            let calls = finished_calls(drafts);
            &&& calls.len() == completes(drafts)
            &&& forall|i: int|
                0 <= i < drafts.len() && complete(#[trigger] drafts[i]) ==> {
                    let k = completes(drafts.take(i)) as int;
                    &&& k < calls.len()
                    &&& calls[k].id == drafts[i].id
                    &&& calls[k].name == drafts[i].name
                    &&& match json_read(drafts[i].arguments) {
                        Ok(value) => calls[k].input == value,
                        Err(_) => calls[k].input == JsonView::Object(no_fields()),
                    }
                }
        }),
    decreases drafts.len(),
{
    if drafts.len() > 0 {
        let init = drafts.drop_last();
        complete_drafts_come_to_calls(init);
        let calls = finished_calls(drafts);
        assert forall|i: int| 0 <= i < drafts.len() && complete(#[trigger] drafts[i]) implies {
            let k = completes(drafts.take(i)) as int;
            &&& k < calls.len()
            &&& calls[k].id == drafts[i].id
            &&& calls[k].name == drafts[i].name
            &&& match json_read(drafts[i].arguments) {
                Ok(value) => calls[k].input == value,
                Err(_) => calls[k].input == JsonView::Object(no_fields()),
            }
        } by {
            if i < init.len() {
                assert(drafts.take(i) =~= init.take(i));
                assert(complete(init[i]));
            } else {
                assert(drafts.take(i) =~= init);
            }
        }
    }
}

/// The text that blocks show.
pub open spec fn text_shown(blocks: Seq<BlockView>) -> Seq<char>
    decreases blocks.len(),
{
    if blocks.len() == 0 {
        Seq::empty()
    } else {
        text_shown(blocks.drop_last()) + match blocks.last() {
            BlockView::Text { text, .. } => text,
            _ => Seq::empty(),
        }
    }
}

/// The thinking that blocks hold.
pub open spec fn thinking_shown(blocks: Seq<BlockView>) -> Seq<char>
    decreases blocks.len(),
{
    if blocks.len() == 0 {
        Seq::empty()
    } else {
        thinking_shown(blocks.drop_last()) + match blocks.last() {
            BlockView::Thinking { thinking, .. } => thinking,
            _ => Seq::empty(),
        }
    }
}

/// The calls that blocks hold.
pub open spec fn calls_shown(blocks: Seq<BlockView>) -> Seq<CallView>
    decreases blocks.len(),
{
    if blocks.len() == 0 {
        Seq::empty()
    } else {
        match blocks.last() {
            BlockView::ToolUse { id, name, input, .. } => calls_shown(blocks.drop_last()).push(
                CallView { id, name, input },
            ),
            _ => calls_shown(blocks.drop_last()),
        }
    }
}

/// What one more block shows.
pub proof fn shown_push(blocks: Seq<BlockView>, block: BlockView)
    ensures
        text_shown(blocks.push(block)) == text_shown(blocks) + match block {
            BlockView::Text { text, .. } => text,
            _ => Seq::empty(),
        },
        thinking_shown(blocks.push(block)) == thinking_shown(blocks) + match block {
            BlockView::Thinking { thinking, .. } => thinking,
            _ => Seq::empty(),
        },
        calls_shown(blocks.push(block)) == match block {
            BlockView::ToolUse { id, name, input, .. } => calls_shown(blocks).push(
                CallView { id, name, input },
            ),
            _ => calls_shown(blocks),
        },
{
    assert(blocks.push(block).drop_last() =~= blocks);
}

/// Blocks of calls behind others show those calls, and nothing else.
pub proof fn call_blocks_show_calls(blocks: Seq<BlockView>, calls: Seq<CallView>)
    ensures
        text_shown(blocks + call_blocks(calls)) == text_shown(blocks),
        thinking_shown(blocks + call_blocks(calls)) == thinking_shown(blocks),
        calls_shown(blocks + call_blocks(calls)) == calls_shown(blocks) + calls,
    decreases calls.len(),
{
    if calls.len() == 0 {
        assert(blocks + call_blocks(calls) =~= blocks);
        assert(calls_shown(blocks) + calls =~= calls_shown(blocks));
    } else {
        let init = calls.drop_last();
        call_blocks_show_calls(blocks, init);
        let before = blocks + call_blocks(init);
        let block = call_blocks(calls).last();
        assert(blocks + call_blocks(calls) =~= before.push(block));
        shown_push(before, block);
        assert(text_shown(before) + Seq::<char>::empty() =~= text_shown(before));
        assert(thinking_shown(before) + Seq::<char>::empty() =~= thinking_shown(before));
        assert((calls_shown(blocks) + init).push(calls.last()) =~= calls_shown(blocks) + calls);
    }
}

proof fn completion_events(calls: Seq<CallView>)
    ensures
        completed(end_events(calls)) == calls,
        streamed_text(end_events(calls)) == Seq::<char>::empty(),
        streamed_thinking(end_events(calls)) == Seq::<char>::empty(),
        streamed_input(end_events(calls)) == Seq::<char>::empty(),
    decreases calls.len(),
{
    let events = end_events(calls);
    if calls.len() == 0 {
        assert(completed(events) =~= calls);
    } else {
        completion_events(calls.drop_last());
        assert(events.drop_last() =~= end_events(calls.drop_last()));
        assert(calls.drop_last().push(calls.last()) =~= calls);
        assert(streamed_text(events) =~= Seq::empty());
        assert(streamed_thinking(events) =~= Seq::empty());
        assert(streamed_input(events) =~= Seq::empty());
    }
}

/// What a finished stream comes to: its blocks show the visible text, all of the thinking
/// and the calls that the drafts come to; the events that are left complete each call, put
/// out what the filter held back, and say last why it stopped and what it cost, as the
/// response does.
pub proof fn finished_streams_show_everything(a: AccumView)
    ensures
        ({
            let r = finished_response(a);
            let events = finished_events(a);
            let rest = held_back(a.filter);
            &&& r.tool_calls == finished_calls(a.drafts)
            &&& text_shown(r.content) == trim(split_stream(a.text, false))
            &&& thinking_shown(r.content) == a.thinking + emitted(rest, true)
            &&& calls_shown(r.content) == r.tool_calls
            &&& completed(events) == completed(a.events) + r.tool_calls
            &&& streamed_text(events) == streamed_text(a.events) + emitted(rest, false)
            &&& streamed_thinking(events) == streamed_thinking(a.events) + emitted(rest, true)
            &&& streamed_input(events) == streamed_input(a.events)
            &&& events.last() == (EventView::ContentComplete {
                stop_reason: r.stop_reason,
                usage: r.usage,
            })
        }),
{
    let r = finished_response(a);
    let rest = held_back(a.filter);
    let none = Seq::<char>::empty();
    let done = flushed(a);
    actions_stream(rest);
    streamed_two(a.events, action_events(rest));
    let calls = finished_calls(a.drafts);
    completion_events(calls);
    streamed_two(done.events, end_events(calls));
    let told = done.events + end_events(calls);
    streamed_push(told, finished_events(a).last());
    assert(streamed_text(done.events) + none =~= streamed_text(done.events));
    assert(streamed_thinking(done.events) + none =~= streamed_thinking(done.events));
    assert(streamed_input(a.events) + none =~= streamed_input(a.events));
    assert(streamed_text(told) + none =~= streamed_text(told));
    assert(streamed_thinking(told) + none =~= streamed_thinking(told));
    assert(streamed_input(told) + none =~= streamed_input(told));
    assert(completed(a.events) + Seq::<CallView>::empty() =~= completed(a.events));
    let empty = Seq::<BlockView>::empty();
    let thinking = done.thinking;
    let spoken = spoken_blocks(thinking, a.text);
    shown_push(empty, thinking_block(thinking));
    let first = if thinking.len() == 0 {
        empty
    } else {
        empty.push(thinking_block(thinking))
    };
    let visible = visible_part(a.text);
    shown_push(first, text_block(visible));
    assert(none + none =~= none);
    assert(none + thinking =~= thinking);
    assert(thinking + none =~= thinking);
    assert(none + visible =~= visible);
    if a.text.len() == 0 {
        nothing_splits(a.text);
        assert(visible =~= none);
    }
    if visible.len() == 0 {
        assert(visible =~= none);
    }
    if thinking.len() == 0 {
        assert(thinking =~= none);
    }
    call_blocks_show_calls(spoken, calls);
    assert(Seq::<CallView>::empty() + calls =~= calls);
}

proof fn nothing_splits(text: Seq<char>)
    requires
        text.len() == 0,
    ensures
        trim(split_stream(text, false)).len() == 0,
{
    plain_text_passes(text);
    assert(text =~= Seq::empty());
    trim_shape(text);
}

/// Why a stream stopped: it was cut off where it says so, it wants tools where it says so or
/// calls some and says nothing that is known, and else its turn is over.
pub proof fn stop_reasons_say_why(a: AccumView)
    ensures
        ({
            let r = finished_response(a);
            let given = a.finish_reason;
            let cut = given == Some("length"@) || given == Some("model_length"@);
            let known = cut || given == Some("stop"@) || given == Some("tool_calls"@);
            let wants_tools = given == Some("tool_calls"@) || !known && r.tool_calls.len() > 0;
            &&& r.stop_reason == StopReason::MaxTokens <==> cut
            &&& r.stop_reason == StopReason::ToolUse <==> wants_tools
            &&& r.stop_reason == StopReason::EndTurn <==> !cut && !wants_tools
        }),
{
    reveal_strlit("length");
    reveal_strlit("model_length");
    reveal_strlit("stop");
    reveal_strlit("tool_calls");
    assert("length"@.len() == 6 && "model_length"@.len() == 12);
    assert("stop"@.len() == 4 && "tool_calls"@.len() == 10);
}

/// What a stream cost is what was reported, but for one token where there is content and
/// nothing was counted.
pub proof fn costs_are_as_reported(a: AccumView)
    ensures
        ({
            let r = finished_response(a);
            let uncounted = r.content.len() > 0 && a.usage.input_tokens == 0
                && a.usage.output_tokens == 0;
            &&& r.usage.input_tokens == a.usage.input_tokens
            &&& r.usage.cache_read_tokens == a.usage.cache_read_tokens
            &&& r.usage.cache_write_tokens == a.usage.cache_write_tokens
            &&& r.usage.output_tokens == if uncounted {
                1
            } else {
                a.usage.output_tokens
            }
        }),
{
}

/// How the contents of a stream come: text in no chunks, or no text with a `<` in it.
pub ghost enum Manner {
    Unchunked,
    Untagged,
}

/// Whether no `<` stands in a text.
pub open spec fn untagged(text: Seq<char>) -> bool {
    forall|i: int| 0 <= i < text.len() ==> text[i] != '<'
}

/// Whether a content comes in the given manner.
pub open spec fn comes(content: JsonView, manner: Manner) -> bool {
    match (content, manner) {
        (JsonView::Array(chunks), Manner::Unchunked) => chunk_texts(chunks).len() == 0,
        (JsonView::Array(chunks), Manner::Untagged) => untagged(chunk_texts(chunks)),
        (JsonView::Text(t), Manner::Untagged) => untagged(t),
        _ => true,
    }
}

/// The chunk that a line brings, where it brings one.
pub open spec fn chunk_brought(line: Seq<char>) -> Option<JsonView> {
    match line_view(line) {
        LineView::Data(data) => match json_read(data) {
            Ok(chunk) => if is_error_chunk(chunk) {
                None
            } else {
                Some(chunk)
            },
            Err(_) => None,
        },
        _ => None,
    }
}

/// Whether all contents that lines bring come in the given manner.
pub open spec fn all_come(uses: Seq<Use>, manner: Manner) -> bool {
    forall|i: int|
        0 <= i < uses.len() ==> match #[trigger] uses[i] {
            Use::Line(line) => match chunk_brought(line) {
                Some(chunk) => forall|k: int|
                    0 <= k < list_under(chunk, "choices"@).len() ==> comes(
                        #[trigger] contents(list_under(chunk, "choices"@))[k],
                        manner,
                    ),
                None => true,
            },
            Use::Drain => true,
        }
}

/// Whether what was streamed as text is what is visible of the whole text so far.
spec fn in_step(said: Said, manner: Manner) -> bool {
    let scan = run(Scan { filter: initial_filter(), actions: Seq::empty() }, said.text);
    &&& scan.filter == said.filter
    &&& emitted(scan.actions, false) == said.visible
    &&& manner is Untagged ==> said.filter == initial_filter()
}

proof fn saying_keeps_step(said: Said, content: JsonView, manner: Manner)
    requires
        in_step(said, manner),
        comes(content, manner),
    ensures
        in_step(saying(said, content), manner),
{
    let none = Seq::<char>::empty();
    match content {
        JsonView::Text(t) => {
            chunking_is_immaterial(initial_filter(), said.text, t, false);
            if manner is Untagged {
                plain_run(t);
            }
        },
        JsonView::Array(chunks) => {
            let t = chunk_texts(chunks);
            if manner is Unchunked {
                assert(t =~= none);
                assert(said.text + t =~= said.text);
                assert(said.visible + t =~= said.visible);
            } else {
                chunking_is_immaterial(initial_filter(), said.text, t, false);
                plain_run(t);
            }
        },
        _ => {},
    }
}

proof fn contents_keep_step(said: Said, contents: Seq<JsonView>, manner: Manner)
    requires
        in_step(said, manner),
        forall|k: int| 0 <= k < contents.len() ==> comes(#[trigger] contents[k], manner),
    ensures
        in_step(said_with(said, contents), manner),
    decreases contents.len(),
{
    if contents.len() > 0 {
        let init = contents.drop_last();
        assert forall|k: int| 0 <= k < init.len() implies comes(#[trigger] init[k], manner) by {
            assert(init[k] == contents[k]);
        }
        contents_keep_step(said, init, manner);
        assert(comes(contents[contents.len() - 1], manner));
        saying_keeps_step(said_with(said, init), contents.last(), manner);
    }
}

proof fn said_behind(before: Seq<char>, said: Said, contents: Seq<JsonView>)
    ensures
        said_with(Said { visible: before + said.visible, ..said }, contents) == (Said {
            visible: before + said_with(said, contents).visible,
            ..said_with(said, contents)
        }),
    decreases contents.len(),
{
    if contents.len() > 0 {
        let init = contents.drop_last();
        said_behind(before, said, init);
        let so_far = said_with(said, init);
        match contents.last() {
            JsonView::Text(t) => {
                let scan = run(Scan { filter: so_far.filter, actions: Seq::empty() }, t);
                let more = emitted(scan.actions, false);
                assert(before + so_far.visible + more =~= before + (so_far.visible + more));
            },
            JsonView::Array(chunks) => {
                let more = chunk_texts(chunks);
                assert(before + so_far.visible + more =~= before + (so_far.visible + more));
            },
            _ => {},
        }
    }
}

/// What a stream in use has been told, by all of its events.
spec fn said_in_all(u: InUse) -> Said {
    Said { visible: streamed_text(u.handed + u.accum.events), ..said_in(u.accum) }
}

proof fn uses_keep_step(uses: Seq<Use>, manner: Manner)
    requires
        all_come(uses, manner),
    ensures
        in_step(said_in_all(used(uses)), manner),
    decreases uses.len(),
{
    let now = used(uses);
    if uses.len() == 0 {
        let none = Seq::<EventView>::empty();
        assert(none + none =~= none);
        assert(emitted(Seq::<ActionView>::empty(), false) =~= Seq::empty());
    } else {
        let init = uses.drop_last();
        let before = used(init);
        assert forall|i: int| 0 <= i < init.len() implies match #[trigger] init[i] {
            Use::Line(line) => match chunk_brought(line) {
                Some(chunk) => forall|k: int|
                    0 <= k < list_under(chunk, "choices"@).len() ==> comes(
                        #[trigger] contents(list_under(chunk, "choices"@))[k],
                        manner,
                    ),
                None => true,
            },
            Use::Drain => true,
        } by {
            assert(init[i] == uses[i]);
        }
        uses_keep_step(init, manner);
        assert(uses.last() == uses[uses.len() - 1]);
        match uses.last() {
            Use::Line(line) => match chunk_brought(line) {
                Some(chunk) => {
                    let choices = list_under(chunk, "choices"@);
                    let after = with_stream_chunk(before.accum, chunk);
                    chunks_are_taken_in(before.accum, chunk);
                    assert(now.accum == after);
                    streamed_two(before.handed, before.accum.events);
                    streamed_two(before.handed, after.events);
                    said_behind(
                        streamed_text(before.handed),
                        said_in(before.accum),
                        contents(choices),
                    );
                    contents_keep_step(said_in_all(before), contents(choices), manner);
                    let same = said_with(said_in_all(before), contents(choices));
                    assert(same.text == said_in_all(now).text);
                    assert(same.visible == said_in_all(now).visible);
                    assert(same.filter == said_in_all(now).filter);
                },
                None => {},
            },
            Use::Drain => {
                let all = before.handed + before.accum.events;
                assert(all + Seq::<EventView>::empty() =~= all);
            },
        }
    }
}

/// The text of the finished response is the text that was streamed, trimmed: whatever lines
/// arrived and whenever events were drained, the text deltas that were handed out, with those
/// that are left, join to what the response shows. This is so for text that comes in no
/// chunks, with or without thinking in it, and for any text without tags.
pub proof fn the_text_is_what_was_streamed(uses: Seq<Use>, manner: Manner)
    requires
        all_come(uses, manner),
    ensures
        ({
            let u = used(uses);
            let r = finished_response(u.accum);
            text_shown(r.content) == trim(streamed_text(u.handed + finished_events(u.accum)))
        }),
{
    let u = used(uses);
    uses_keep_step(uses, manner);
    finished_streams_show_everything(u.accum);
    streamed_two(u.handed, u.accum.events);
    streamed_two(u.handed, finished_events(u.accum));
    let rest = emitted(held_back(u.accum.filter), false);
    assert(streamed_text(u.handed) + streamed_text(u.accum.events) + rest =~= streamed_text(
        u.handed,
    ) + (streamed_text(u.accum.events) + rest));
}

/// The thinking of the finished response is the thinking that was streamed.
pub proof fn the_thinking_is_what_was_streamed(uses: Seq<Use>)
    ensures
        ({
            let u = used(uses);
            let r = finished_response(u.accum);
            thinking_shown(r.content) == streamed_thinking(u.handed + finished_events(u.accum))
        }),
{
    let u = used(uses);
    streams_in_use_are_coherent(uses);
    finished_streams_show_everything(u.accum);
    streamed_two(u.handed, u.accum.events);
    streamed_two(u.handed, finished_events(u.accum));
    let rest = emitted(held_back(u.accum.filter), true);
    assert(streamed_thinking(u.handed) + streamed_thinking(u.accum.events) + rest
        =~= streamed_thinking(u.handed) + (streamed_thinking(u.accum.events) + rest));
}

/// What a line is: one that begins with `data:` brings what follows it, with or without a
/// space between; the mark of the end ends the stream; and any other line is passed over.
pub proof fn lines_bring_their_data(a: AccumView, data: Seq<char>, line: Seq<char>)
    requires
        trim(data) == data,
        data.len() > 0,
        line == "data:"@ + data || line == "data: "@ + data,
    ensures
        data == "[DONE]"@ ==> line_outcome(a, line) == (LineOutcome { result: Ok(true), after: a }),
        data != "[DONE]"@ ==> match json_read(data) {
            Ok(chunk) => if chunk.at("object"@) == JsonView::Text("error"@) || chunk.get(
                "error"@,
            ) is Some {
                line_outcome(a, line).after == a && line_outcome(a, line).result is Err
            } else {
                line_outcome(a, line) == (LineOutcome {
                    result: Ok(false),
                    after: with_stream_chunk(a, chunk),
                })
            },
            Err(_) => line_outcome(a, line) == (LineOutcome { result: Ok(false), after: a }),
        },
{
    reveal_strlit("data:");
    reveal_strlit("data: ");
    reveal_strlit(":");
    trim_shape(data);
    let head = if line == "data:"@ + data {
        "data:"@
    } else {
        "data: "@
    };
    assert(line == head + data);
    assert(trim_end(data) == data) by {
        assert(!is_white(data.last()));
    }
    trim_end_of_two(head, data);
    assert(line.take(5) =~= "data:"@);
    assert(line[0] == 'd');
    if starts_with(line, ":"@) {
        assert(line.take(1)[0] == line[0]);
    }
    let rest = line.skip(5);
    if head == "data:"@ {
        assert(rest =~= data);
    } else {
        assert(rest =~= seq![' '] + data);
        assert(is_white(' '));
        assert(rest.skip(1) =~= data);
    }
    assert(!is_white(data[0]));
    assert(trim_start(data) == data);
    assert(trim_start(rest) == data);
}

/// A line that is no data line changes nothing and ends nothing.
pub proof fn other_lines_are_passed_over(a: AccumView, line: Seq<char>)
    requires
        !starts_with(trim_end(line), "data:"@),
    ensures
        line_outcome(a, line) == (LineOutcome { result: Ok(false), after: a }),
{
}

/// A line that is ended is taken, and the rest goes on behind it; what is not yet ended is
/// kept back and changes nothing.
pub proof fn lines_are_taken_as_they_end(a: AccumView, line: Seq<char>, rest: Seq<char>)
    requires
        forall|i: int| 0 <= i < line.len() ==> line[i] != '\n',
    ensures
        fed(a, line) == (Ok::<bool, ProviderErrorView>(false), FeedView { accum: a, buffer: line }),
        line_outcome(a, line).result == Ok::<bool, ProviderErrorView>(false) ==> fed(
            a,
            line + seq!['\n'] + rest,
        ) == fed(line_outcome(a, line).after, rest),
        line_outcome(a, line).result != Ok::<bool, ProviderErrorView>(false) ==> fed(
            a,
            line + seq!['\n'] + rest,
        ) == (
            line_outcome(a, line).result,
            FeedView { accum: line_outcome(a, line).after, buffer: rest },
        ),
{
    reveal_strlit("\n");
    let whole = line + seq!['\n'] + rest;
    let n = line.len() as int;
    find_is_least(line, "\n"@, 0);
    if let Some(i) = find(line, "\n"@) {
        assert(line.subrange(i, i + 1)[0] == line[i]);
    }
    assert(whole.subrange(n, n + 1) =~= "\n"@);
    assert(occurs_at(whole, "\n"@, n));
    assert forall|i: int| 0 <= i < n implies !#[trigger] occurs_at(whole, "\n"@, i) by {
        if occurs_at(whole, "\n"@, i) {
            assert(whole.subrange(i, i + 1)[0] == whole[i]);
            assert(whole[i] == line[i]);
        }
    }
    find_least(whole, "\n"@, 0, n);
    assert(whole.take(n) =~= line);
    assert(whole.skip(n + 1) =~= rest);
}

/// Where a body is cut makes no difference: two texts one after the other come to what both
/// of them together come to, as long as the first does not end the stream.
pub proof fn cuts_make_no_difference(a: AccumView, first: Seq<char>, second: Seq<char>)
    requires
        fed(a, first).0 == Ok::<bool, ProviderErrorView>(false),
    ensures
        fed(a, first + second) == fed(fed(a, first).1.accum, fed(a, first).1.buffer + second),
    decreases first.len(),
{
    reveal_strlit("\n");
    find_is_least(first, "\n"@, 0);
    let whole = first + second;
    match find(first, "\n"@) {
        Some(i) => {
            assert(first.subrange(i, i + 1) =~= whole.subrange(i, i + 1));
            assert(occurs_at(whole, "\n"@, i));
            assert forall|k: int| 0 <= k < i implies !#[trigger] occurs_at(whole, "\n"@, k) by {
                assert(whole.subrange(k, k + 1) =~= first.subrange(k, k + 1));
                assert(!occurs_at(first, "\n"@, k));
            }
            find_least(whole, "\n"@, 0, i);
            assert(whole.take(i) =~= first.take(i));
            assert(whole.skip(i + 1) =~= first.skip(i + 1) + second);
            let outcome = line_outcome(a, first.take(i));
            cuts_make_no_difference(outcome.after, first.skip(i + 1), second);
        },
        None => {},
    }
}

/// An error in a stream ends it with what the line said, and leaves what was taken in
/// before as it was. What cannot be read is passed over.
pub proof fn errors_in_streams_are_reported(
    a: AccumView,
    data: Seq<char>,
    read: Result<JsonView, Seq<char>>,
)
    ensures
        ({
            let outcome = data_outcome(a, data, read);
            let failed = read is Ok && (read->Ok_0.at("object"@) == JsonView::Text("error"@)
                || read->Ok_0.get("error"@) is Some);
            &&& failed ==> outcome.result == Err::<bool, ProviderErrorView>(
                ProviderErrorView::Api { status: 200, message: data },
            )
            &&& failed || read is Err ==> outcome.after == a
            &&& !failed ==> outcome.result == Ok::<bool, ProviderErrorView>(false)
        }),
{
}

} // verus!
