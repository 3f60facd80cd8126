//! What a listener makes of an event stream, and what the payload says.
use vstd::prelude::*;

use crate::anthropic::{
    AnthropicConfig, SseView, block_payload, data_read, event_outcome, message_payload,
    messages_endpoint, request_payload, sent_blocks, sent_messages, stream_step, tool_payload,
};
use crate::json::{JsonView, entry_push, json_read};
use crate::json_laws::{list_under, text_under};
use crate::message::{ContentBlock, EventView, Message, ToolDefinition};
use crate::provider_core::InputView;
use crate::readings::{Reading, Turn, meaning, meanings, turns};
use crate::text::trim;
use crate::told::{
    Channel, HeardCall, both_heard, both_told, errors_told, fed, hear, heard, nothing_told, one_more,
    one_more_heard, piece, sessions_told, stops, told, usages,
};

verus! {

/// The type of the deltas of a channel, and where they hold what they say.
pub open spec fn delta_type(channel: Channel) -> (Seq<char>, Seq<char>) {
    match channel {
        Channel::Text => ("text_delta"@, "text"@),
        Channel::Thinking => ("thinking_delta"@, "thinking"@),
        Channel::Input => ("input_json_delta"@, "partial_json"@),
    }
}

/// What an event says on a channel: what stands in a delta of the channel's type.
pub open spec fn given(event: Seq<char>, data: JsonView, channel: Channel) -> Seq<char> {
    let (kind, field) = delta_type(channel);
    let delta = data.at("delta"@);
    if event == "content_block_delta"@ && delta.at("type"@) == JsonView::Text(kind) {
        match delta.at(field) {
            JsonView::Text(t) => t,
            _ => Seq::empty(),
        }
    } else {
        Seq::empty()
    }
}

/// What came on a stream, with the data as it was read.
pub type Arrival = (InputView, Result<JsonView, Seq<char>>);

/// A stream with what it has handed on.
pub ghost struct Listened {
    pub state: SseView,
    pub events: Seq<EventView>,
}

/// A stream after several arrivals.
pub open spec fn listened(state: SseView, arrivals: Seq<Arrival>) -> Listened
    decreases arrivals.len(),
{
    if arrivals.len() == 0 {
        Listened { state, events: Seq::empty() }
    } else {
        let before = listened(state, arrivals.drop_last());
        let (after, step) = stream_step(before.state, arrivals.last().0, arrivals.last().1);
        Listened { state: after, events: before.events + step.events }
    }
}

/// What arrivals say on a channel, put together.
pub open spec fn all_given(arrivals: Seq<Arrival>, channel: Channel) -> Seq<char>
    decreases arrivals.len(),
{
    if arrivals.len() == 0 {
        Seq::empty()
    } else {
        all_given(arrivals.drop_last(), channel) + match arrivals.last() {
            (InputView::Event { event, .. }, Ok(data)) => given(event, data, channel),
            _ => Seq::empty(),
        }
    }
}

proof fn names_differ()
    ensures
        "message_start"@ != "content_block_delta"@,
        "content_block_start"@ != "content_block_delta"@,
        "content_block_stop"@ != "content_block_delta"@,
        "content_block_stop"@ != "content_block_start"@,
        "message_delta"@ != "content_block_delta"@,
        "message_stop"@ != "content_block_delta"@,
        "message_start"@ != "content_block_start"@,
        "message_start"@ != "content_block_stop"@,
        "message_delta"@ != "message_start"@,
        "message_delta"@ != "content_block_start"@,
        "message_delta"@ != "content_block_stop"@,
        "message_stop"@ != "message_start"@,
        "message_stop"@ != "message_delta"@,
        "message_stop"@ != "content_block_start"@,
        "message_stop"@ != "content_block_stop"@,
        "error"@ != "message_start"@,
        "error"@ != "content_block_start"@,
        "error"@ != "content_block_delta"@,
        "error"@ != "content_block_stop"@,
        "error"@ != "message_delta"@,
        "error"@ != "message_stop"@,
        "text_delta"@ != "thinking_delta"@,
        "text_delta"@ != "input_json_delta"@,
        "thinking_delta"@ != "input_json_delta"@,
{
    reveal_strlit("message_start");
    reveal_strlit("content_block_start");
    reveal_strlit("content_block_delta");
    reveal_strlit("content_block_stop");
    reveal_strlit("message_delta");
    reveal_strlit("message_stop");
    reveal_strlit("error");
    reveal_strlit("text_delta");
    reveal_strlit("thinking_delta");
    reveal_strlit("input_json_delta");
    assert("message_start"@.len() == 13 && "content_block_start"@.len() == 19);
    assert("content_block_delta"@.len() == 19 && "content_block_stop"@.len() == 18);
    assert("message_delta"@.len() == 13 && "message_stop"@.len() == 12 && "error"@.len() == 5);
    assert("message_start"@[8] == 's' && "message_delta"@[8] == 'd');
    assert("content_block_start"@[14] == 's' && "content_block_delta"@[14] == 'd');
    assert("text_delta"@.len() == 10 && "thinking_delta"@.len() == 14);
    assert("input_json_delta"@.len() == 16);
}

/// An event says on each channel what its delta of the channel's type holds, and nothing
/// else is said there: text is told as text, thinking as thinking, and the input of a tool
/// as the input of a tool.
pub proof fn events_tell_what_they_are_given(
    state: SseView,
    event: Seq<char>,
    data: JsonView,
    channel: Channel,
)
    ensures
        told(event_outcome(state, event, data).events, channel) == given(event, data, channel),
{
    names_differ();
    nothing_told(channel);
    let none = Seq::<EventView>::empty();
    let events = event_outcome(state, event, data).events;
    if events.len() == 1 {
        one_more(none, events[0], channel);
        assert(events =~= none.push(events[0]));
        assert(Seq::<char>::empty() + piece(events[0], channel) =~= piece(events[0], channel));
    } else if events.len() == 2 {
        one_more(none, events[0], channel);
        one_more(none.push(events[0]), events[1], channel);
        assert(events =~= none.push(events[0]).push(events[1]));
        assert(told(events, channel) =~= Seq::empty());
    } else {
        assert(events =~= none);
    }
}

/// Whatever arrives on a stream, what is told on each channel is what was given there, piece
/// by piece.
pub proof fn streams_tell_what_they_are_given(
    state: SseView,
    arrivals: Seq<Arrival>,
    channel: Channel,
)
    ensures
        told(listened(state, arrivals).events, channel) == all_given(arrivals, channel),
    decreases arrivals.len(),
{
    nothing_told(channel);
    if arrivals.len() > 0 {
        let before = listened(state, arrivals.drop_last());
        let (after, step) = stream_step(before.state, arrivals.last().0, arrivals.last().1);
        streams_tell_what_they_are_given(state, arrivals.drop_last(), channel);
        both_told(before.events, step.events, channel);
        match arrivals.last() {
            (InputView::Event { event, .. }, Ok(data)) => {
                events_tell_what_they_are_given(before.state, event, data, channel);
            },
            _ => {},
        }
    }
}

/// The token counts that a report holds.
pub open spec fn counts(report: JsonView) -> EventView {
    EventView::TokenUsage {
        input_tokens: report.at("input_tokens"@).unsigned(),
        output_tokens: report.at("output_tokens"@).unsigned(),
        cache_read_input_tokens: report.at("cache_read_input_tokens"@).unsigned(),
        cache_creation_input_tokens: report.at("cache_creation_input_tokens"@).unsigned(),
    }
}

/// What an event tells besides: the session and the counts that stand in the start of a
/// message, the counts in a delta of it, the stop reason that was kept at its end, and what
/// an error says. Of each it tells no more than that.
pub proof fn events_tell_nothing_else(state: SseView, event: Seq<char>, data: JsonView)
    ensures
        ({
            let events = event_outcome(state, event, data).events;
            let message = data.at("message"@);
            &&& sessions_told(events) == match message.at("id"@) {
                JsonView::Text(id) if event == "message_start"@ => seq![id],
                _ => Seq::<Seq<char>>::empty(),
            }
            &&& usages(events) == if event == "message_start"@ && message.get("usage"@) is Some {
                seq![counts(message.at("usage"@))]
            } else if event == "message_delta"@ && data.get("usage"@) is Some {
                seq![counts(data.at("usage"@))]
            } else {
                Seq::<EventView>::empty()
            }
            &&& stops(events) == if event == "message_stop"@ {
                seq![state.last_stop_reason]
            } else {
                Seq::<Option<Seq<char>>>::empty()
            }
            &&& event != "error"@ ==> errors_told(events) == Seq::<Seq<char>>::empty()
            &&& event == "error"@ ==> errors_told(events).len() == 1
            &&& event == "error"@ ==> match data.at("error"@).at("message"@) {
                JsonView::Text(said) => errors_told(events)[0] == said,
                _ => errors_told(events)[0].len() > 0,
            }
        }),
{
    names_differ();
    reveal_strlit("unknown anthropic error");
    nothing_told(Channel::Text);
    let none = Seq::<EventView>::empty();
    let events = event_outcome(state, event, data).events;
    if events.len() == 1 {
        one_more(none, events[0], Channel::Text);
        assert(events =~= none.push(events[0]));
    } else if events.len() == 2 {
        one_more(none, events[0], Channel::Text);
        one_more(none.push(events[0]), events[1], Channel::Text);
        assert(events =~= none.push(events[0]).push(events[1]));
    } else {
        assert(events =~= none);
    }
    assert(sessions_told(events) =~= match data.at("message"@).at("id"@) {
        JsonView::Text(id) if event == "message_start"@ => seq![id],
        _ => Seq::<Seq<char>>::empty(),
    });
    assert(usages(events) =~= if event == "message_start"@ && data.at("message"@).get(
        "usage"@,
    ) is Some {
        seq![counts(data.at("message"@).at("usage"@))]
    } else if event == "message_delta"@ && data.get("usage"@) is Some {
        seq![counts(data.at("usage"@))]
    } else {
        Seq::<EventView>::empty()
    });
    assert(stops(events) =~= if event == "message_stop"@ {
        seq![state.last_stop_reason]
    } else {
        Seq::<Option<Seq<char>>>::empty()
    });
}

/// The stop reason that is kept: the last one that a delta of the message held since the
/// last end of one.
pub proof fn stop_reasons_are_kept(state: SseView, event: Seq<char>, data: JsonView)
    ensures
        event_outcome(state, event, data).after.last_stop_reason == if event == "message_stop"@ {
            None
        } else {
            match data.at("delta"@).at("stop_reason"@) {
                JsonView::Text(reason) if event == "message_delta"@ => Some(reason),
                _ => state.last_stop_reason,
            }
        },
{
    names_differ();
}

/// Whether an event starts or stops a block.
pub open spec fn bounds_a_block(event: Seq<char>) -> bool {
    event == "content_block_start"@ || event == "content_block_stop"@
}

proof fn other_events_only_feed(
    state: SseView,
    event: Seq<char>,
    data: JsonView,
    calls: Seq<HeardCall>,
)
    requires
        calls.len() > 0,
        !bounds_a_block(event),
    ensures
        heard(calls, event_outcome(state, event, data).events) == fed(
            calls,
            given(event, data, Channel::Input),
        ),
        event_outcome(state, event, data).after.open_blocks == state.open_blocks,
{
    names_differ();
    let none = Seq::<EventView>::empty();
    let events = event_outcome(state, event, data).events;
    assert(calls.last().input + Seq::<char>::empty() =~= calls.last().input);
    assert(fed(calls, Seq::empty()) =~= calls);
    if events.len() == 1 {
        one_more_heard(calls, none, events[0]);
        assert(events =~= none.push(events[0]));
    } else if events.len() == 2 {
        one_more_heard(calls, none, events[0]);
        one_more_heard(calls, none.push(events[0]), events[1]);
        assert(events =~= none.push(events[0]).push(events[1]));
    } else {
        assert(events =~= none);
    }
}

/// Whether none of the arrivals starts or stops a block.
pub open spec fn within_a_block(arrivals: Seq<Arrival>) -> bool {
    forall|i: int|
        0 <= i < arrivals.len() ==> match (#[trigger] arrivals[i]).0 {
            InputView::Event { event, .. } => !bounds_a_block(event),
            _ => true,
        }
}

proof fn blocks_are_fed(state: SseView, arrivals: Seq<Arrival>, calls: Seq<HeardCall>)
    requires
        calls.len() > 0,
        within_a_block(arrivals),
    ensures
        heard(calls, listened(state, arrivals).events) == fed(
            calls,
            all_given(arrivals, Channel::Input),
        ),
        listened(state, arrivals).state.open_blocks == state.open_blocks,
    decreases arrivals.len(),
{
    if arrivals.len() == 0 {
        assert(calls.last().input + Seq::<char>::empty() =~= calls.last().input);
        assert(fed(calls, Seq::empty()) =~= calls);
    } else {
        let init = arrivals.drop_last();
        assert forall|i: int| 0 <= i < init.len() implies match (#[trigger] init[i]).0 {
            InputView::Event { event, .. } => !bounds_a_block(event),
            _ => true,
        } by {
            assert(init[i] == arrivals[i]);
        }
        let before = listened(state, init);
        let (after, step) = stream_step(before.state, arrivals.last().0, arrivals.last().1);
        blocks_are_fed(state, init, calls);
        both_heard(calls, before.events, step.events);
        let so_far = fed(calls, all_given(init, Channel::Input));
        assert(arrivals.last() == arrivals[arrivals.len() - 1]);
        match arrivals.last() {
            (InputView::Event { event, .. }, Ok(data)) => {
                other_events_only_feed(before.state, event, data, so_far);
                let more = given(event, data, Channel::Input);
                assert(fed(so_far, more) =~= fed(calls, all_given(init, Channel::Input) + more)) by {
                    assert(calls.last().input + all_given(init, Channel::Input) + more
                        =~= calls.last().input + (all_given(init, Channel::Input) + more));
                }
            },
            _ => {
                assert(all_given(arrivals, Channel::Input) =~= all_given(init, Channel::Input));
            },
        }
    }
}

/// A tool call is heard whole: between the start of its block and the stop, whatever else
/// arrives but the bounds of other blocks, a listener has one call more, with the id and the
/// name that the start gave, with all the input that was given in between, and ended.
pub proof fn tool_calls_are_heard_whole(
    state: SseView,
    calls: Seq<HeardCall>,
    start: JsonView,
    between: Seq<Arrival>,
    stop: JsonView,
)
    requires
        start.at("content_block"@).at("type"@) == JsonView::Text("tool_use"@),
        within_a_block(between),
        start.at("index"@) == stop.at("index"@),
    ensures
        ({
            let block = start.at("content_block"@);
            let opened = event_outcome(state, "content_block_start"@, start);
            let filled = listened(opened.after, between);
            let closed = event_outcome(filled.state, "content_block_stop"@, stop);
            heard(calls, opened.events + filled.events + closed.events) == calls.push(
                HeardCall {
                    id: text_under(block, "id"@),
                    name: text_under(block, "name"@),
                    input: all_given(between, Channel::Input),
                    ended: true,
                },
            )
        }),
{
    names_differ();
    reveal_strlit("text");
    reveal_strlit("tool_use");
    assert("text"@.len() != "tool_use"@.len());
    let none = Seq::<EventView>::empty();
    let block = start.at("content_block"@);
    let opened = event_outcome(state, "content_block_start"@, start);
    let filled = listened(opened.after, between);
    let closed = event_outcome(filled.state, "content_block_stop"@, stop);
    let begun = HeardCall {
        id: text_under(block, "id"@),
        name: text_under(block, "name"@),
        input: Seq::empty(),
        ended: false,
    };
    one_more_heard(calls, none, opened.events[0]);
    assert(opened.events =~= none.push(opened.events[0]));
    assert(heard(calls, opened.events) == calls.push(begun));
    blocks_are_fed(opened.after, between, calls.push(begun));
    both_heard(calls, opened.events, filled.events);
    both_heard(calls, opened.events + filled.events, closed.events);
    let so_far = fed(calls.push(begun), all_given(between, Channel::Input));
    one_more_heard(so_far, none, EventView::ToolUseEnd);
    assert(closed.events =~= none.push(EventView::ToolUseEnd));
    assert(heard(so_far, none) == so_far);
    assert(Seq::<char>::empty() + all_given(between, Channel::Input) =~= all_given(
        between,
        Channel::Input,
    ));
    assert(hear(so_far, EventView::ToolUseEnd) =~= calls.push(
        HeardCall { input: all_given(between, Channel::Input), ended: true, ..begun },
    ));
}

/// The start and the stop of a block of thinking are told as such, and a block of text has
/// neither.
pub proof fn thinking_is_bounded(state: SseView, start: JsonView, stop: JsonView)
    requires
        start.at("index"@) == stop.at("index"@),
    ensures
        ({
            let kind = start.at("content_block"@).at("type"@);
            let opened = event_outcome(state, "content_block_start"@, start);
            let closed = event_outcome(opened.after, "content_block_stop"@, stop);
            &&& kind == JsonView::Text("thinking"@) ==> opened.events == seq![
                EventView::ThinkingStart,
            ] && closed.events == seq![EventView::ThinkingEnd]
            &&& kind == JsonView::Text("text"@) ==> opened.events.len() == 0
                && closed.events.len() == 0
        }),
{
    names_differ();
    reveal_strlit("text");
    reveal_strlit("tool_use");
    reveal_strlit("thinking");
    assert("text"@.len() == 4 && "tool_use"@.len() == 8 && "thinking"@.len() == 8);
    assert("tool_use"@[1] != "thinking"@[1]);
    let opened = event_outcome(state, "content_block_start"@, start);
    let closed = event_outcome(opened.after, "content_block_stop"@, stop);
    if start.at("content_block"@).at("type"@) == JsonView::Text("thinking"@) {
        assert(opened.events =~= seq![EventView::ThinkingStart]);
        assert(closed.events =~= seq![EventView::ThinkingEnd]);
    }
}

/// The bounds of one block leave the others as they were.
pub proof fn blocks_do_not_meddle(state: SseView, event: Seq<char>, data: JsonView, other: u64)
    requires
        data.at("index"@).unsigned() != Some(other),
        other != 0 || data.at("index"@).unsigned() is Some,
    ensures
        ({
            let after = event_outcome(state, event, data).after.open_blocks;
            &&& after.contains_key(other) == state.open_blocks.contains_key(other)
            &&& state.open_blocks.contains_key(other) ==> after[other] == state.open_blocks[other]
        }),
{
}

/// A block ends once: its end is told where it was open, and a second end tells nothing. A
/// block of text ends without a word.
pub proof fn blocks_end_once(state: SseView, data: JsonView)
    ensures
        ({
            let stop = "content_block_stop"@;
            let index = match data.at("index"@).unsigned() {
                Some(n) => n,
                None => 0,
            };
            let first = event_outcome(state, stop, data);
            let second = event_outcome(first.after, stop, data);
            &&& !first.after.open_blocks.contains_key(index)
            &&& second.events.len() == 0
            &&& second.after == first.after
            &&& !state.open_blocks.contains_key(index) ==> first.events.len() == 0
            &&& first.events.len() <= 1
        }),
{
    reveal_strlit("message_start");
    reveal_strlit("content_block_start");
    reveal_strlit("content_block_delta");
    reveal_strlit("content_block_stop");
    let stop = "content_block_stop"@;
    assert(stop.len() == 18 && "message_start"@.len() == 13);
    assert("content_block_start"@.len() == 19 && "content_block_delta"@.len() == 19);
    let first = event_outcome(state, stop, data);
    let second = event_outcome(first.after, stop, data);
    assert(second.after.open_blocks =~= first.after.open_blocks);
}

/// What came on a stream is handed on and the completion goes on; only the end and a broken
/// stream end it, and only the latter with an error.
pub proof fn steps_hand_on(state: SseView, arrival: Arrival)
    ensures
        ({
            let (after, step) = stream_step(state, arrival.0, arrival.1);
            &&& step.over <==> !(arrival.0 is Event)
            &&& step.error is Some <==> arrival.0 is Broken
            &&& match arrival {
                (InputView::Event { event, .. }, Ok(data)) => {
                    let outcome = event_outcome(state, event, data);
                    after == outcome.after && step.events == outcome.events
                },
                _ => after == state && step.events.len() == 0,
            }
        }),
{
}

proof fn keys_differ()
    ensures
        "type"@ != "text"@,
        "type"@ != "id"@,
        "type"@ != "name"@,
        "type"@ != "input"@,
        "type"@ != "content"@,
        "type"@ != "source"@,
        "type"@ != "data"@,
        "type"@ != "ttl"@,
        "text"@ != "tool_use"@,
        "text"@ != "tool_result"@,
        "text"@ != "image"@,
        "text"@ != "cache_control"@,
        "id"@ != "name"@,
        "id"@ != "input"@,
        "name"@ != "input"@,
        "tool_use"@ != "tool_result"@,
        "tool_use"@ != "image"@,
        "tool_result"@ != "image"@,
        "type"@ != "tool_use_id"@,
        "type"@ != "is_error"@,
        "type"@ != "cache_control"@,
        "type"@ != "media_type"@,
        "type"@ != "budget_tokens"@,
        "tool_use_id"@ != "content"@,
        "tool_use_id"@ != "is_error"@,
        "content"@ != "is_error"@,
        "media_type"@ != "data"@,
        "role"@ != "content"@,
        "name"@ != "description"@,
        "name"@ != "input_schema"@,
        "description"@ != "input_schema"@,
{
    reveal_strlit("type");
    reveal_strlit("text");
    reveal_strlit("id");
    reveal_strlit("name");
    reveal_strlit("input");
    reveal_strlit("content");
    reveal_strlit("source");
    reveal_strlit("data");
    reveal_strlit("ttl");
    reveal_strlit("tool_use");
    reveal_strlit("tool_result");
    reveal_strlit("image");
    reveal_strlit("cache_control");
    reveal_strlit("tool_use_id");
    reveal_strlit("is_error");
    reveal_strlit("media_type");
    reveal_strlit("budget_tokens");
    reveal_strlit("role");
    reveal_strlit("description");
    reveal_strlit("input_schema");
    assert("type"@.len() == 4 && "text"@.len() == 4 && "name"@.len() == 4 && "data"@.len() == 4);
    assert("type"@[1] == 'y' && "text"@[1] == 'e' && "name"@[1] == 'a' && "data"@[1] == 'a');
    assert("id"@.len() == 2 && "input"@.len() == 5 && "image"@.len() == 5 && "ttl"@.len() == 3);
    assert("content"@.len() == 7 && "source"@.len() == 6 && "tool_use"@.len() == 8);
    assert("is_error"@.len() == 8 && "tool_result"@.len() == 11 && "tool_use_id"@.len() == 11);
    assert("description"@.len() == 11 && "input_schema"@.len() == 12);
    assert("cache_control"@.len() == 13 && "budget_tokens"@.len() == 13);
    assert("media_type"@.len() == 10 && "role"@.len() == 4);
}

/// What a block of a payload says, by its type.
pub open spec fn block_read(json: JsonView) -> Option<Reading> {
    match json.at("type"@) {
        JsonView::Text(kind) => if kind == "text"@ {
            Some(Reading::Text(text_under(json, "text"@)))
        } else if kind == "tool_use"@ {
            Some(
                Reading::Call {
                    id: text_under(json, "id"@),
                    name: text_under(json, "name"@),
                    input: json.at("input"@),
                },
            )
        } else if kind == "tool_result"@ {
            Some(
                Reading::Answer {
                    id: text_under(json, "tool_use_id"@),
                    content: text_under(json, "content"@),
                    failed: json.at("is_error"@) == JsonView::Bool(true),
                },
            )
        } else if kind == "image"@ && json.at("source"@).at("type"@) == JsonView::Text("base64"@) {
            Some(
                Reading::Image {
                    media_type: text_under(json.at("source"@), "media_type"@),
                    data: text_under(json.at("source"@), "data"@),
                },
            )
        } else {
            None
        },
        _ => None,
    }
}

/// What blocks of a payload say, in their order.
pub open spec fn blocks_read(items: Seq<JsonView>) -> Seq<Reading>
    decreases items.len(),
{
    if items.len() == 0 {
        Seq::empty()
    } else {
        match block_read(items.last()) {
            Some(reading) => blocks_read(items.drop_last()).push(reading),
            None => blocks_read(items.drop_last()),
        }
    }
}

/// The turns of a payload's messages.
pub open spec fn turns_read(items: Seq<JsonView>) -> Seq<Turn>
    decreases items.len(),
{
    if items.len() == 0 {
        Seq::empty()
    } else {
        turns_read(items.drop_last()).push(
            Turn {
                speaker: text_under(items.last(), "role"@),
                said: blocks_read(list_under(items.last(), "content"@)),
            },
        )
    }
}

/// A block's payload says what the block says, and there is none where it says nothing. A
/// mark for the cache goes with it.
pub proof fn blocks_are_put_faithfully(block: ContentBlock)
    ensures
        match block_payload(block) {
            Some(json) => block_read(json) == meaning(block) && meaning(block) is Some,
            None => meaning(block) is None,
        },
        block matches ContentBlock::Text { cache_control: Some(mark), .. } ==> {
            let sent = block_payload(block)->Some_0.at("cache_control"@);
            &&& text_under(sent, "type"@) == mark.kind@
            &&& match mark.ttl {
                Some(ttl) => sent.at("ttl"@) == JsonView::Text(ttl@),
                None => sent.get("ttl"@) is None,
            }
        },
        block matches ContentBlock::Text { cache_control: None, .. } ==> block_payload(
            block,
        )->Some_0.get("cache_control"@) is None,
        block matches ContentBlock::ToolResult { is_error, .. } ==> block_payload(
            block,
        )->Some_0.at("is_error"@).flag() == is_error,
{
    broadcast use entry_push;

    keys_differ();
}

proof fn contents_are_put_faithfully(blocks: Seq<ContentBlock>)
    ensures
        blocks_read(sent_blocks(blocks)) == meanings(blocks),
        sent_blocks(blocks).len() == meanings(blocks).len(),
    decreases blocks.len(),
{
    if blocks.len() > 0 {
        contents_are_put_faithfully(blocks.drop_last());
        blocks_are_put_faithfully(blocks.last());
        match block_payload(blocks.last()) {
            Some(json) => {
                let before = sent_blocks(blocks.drop_last());
                assert(before.push(json).drop_last() =~= before);
            },
            None => {},
        }
    }
}

/// A conversation is sent faithfully: the messages of the payload are the turns in which
/// anything is said, in their order, each by its speaker and with all that is said.
pub proof fn conversations_are_put_faithfully(messages: Seq<Message>)
    ensures
        turns_read(sent_messages(messages)) == turns(messages, "assistant"@),
    decreases messages.len(),
{
    broadcast use entry_push;

    keys_differ();
    if messages.len() > 0 {
        let init = messages.drop_last();
        conversations_are_put_faithfully(init);
        contents_are_put_faithfully(messages.last().content@);
        match message_payload(messages.last()) {
            Some(json) => {
                let before = sent_messages(init);
                assert(before.push(json).drop_last() =~= before);
            },
            None => {},
        }
    }
}

/// What a system prompt in a payload says.
pub open spec fn system_read(json: JsonView) -> Seq<char> {
    match json {
        JsonView::Text(t) => t,
        JsonView::Array(blocks) => if blocks.len() == 1 {
            text_under(blocks[0], "text"@)
        } else {
            Seq::empty()
        },
        _ => Seq::empty(),
    }
}

/// A request asks for what it is given: the model, the limit, the conversation, the system
/// prompt where there is one, each tool with its name, its description and its schema, and
/// the budget for thinking where there is one. It asks for a stream.
pub proof fn requests_ask_for_what_is_given(
    cfg: AnthropicConfig,
    messages: Seq<Message>,
    tools: Seq<ToolDefinition>,
    system: Seq<char>,
)
    ensures
        ({
            let p = request_payload(cfg, messages, tools, system);
            let sent = list_under(p, "tools"@);
            let thinking = p.at("thinking"@);
            &&& p.at("model"@) == JsonView::Text(cfg.model@)
            &&& p.at("max_tokens"@).unsigned() == Some(cfg.max_tokens as u64)
            &&& p.at("stream"@) == JsonView::Bool(true)
            &&& p.at("messages"@) is Array
            &&& turns_read(list_under(p, "messages"@)) == turns(messages, "assistant"@)
            &&& trim(system).len() == 0 ==> p.get("system"@) is None
            &&& trim(system).len() > 0 ==> system_read(p.at("system"@)) == system
            &&& trim(system).len() > 0 && cfg.cache_system_prompt ==> {
                let block = list_under(p, "system"@)[0];
                &&& block.at("type"@) == JsonView::Text("text"@)
                &&& text_under(block.at("cache_control"@), "type"@) == "ephemeral"@
            }
            &&& trim(system).len() > 0 && !cfg.cache_system_prompt ==> p.at("system"@) is Text
            &&& tools.len() == 0 ==> p.get("tools"@) is None
            &&& sent.len() == tools.len()
            &&& forall|i: int|
                0 <= i < tools.len() ==> text_under(#[trigger] sent[i], "name"@) == tools[i].name@
                    && text_under(sent[i], "description"@) == tools[i].description@ && sent[i].at(
                    "input_schema"@,
                ) == tools[i].input_schema.deep_view()
            &&& match cfg.thinking_budget_tokens {
                Some(budget) => text_under(thinking, "type"@) == "enabled"@ && thinking.at(
                    "budget_tokens"@,
                ).unsigned() == Some(budget as u64),
                None => p.get("thinking"@) is None,
            }
        }),
{
    broadcast use entry_push;

    keys_differ();
    reveal_strlit("model");
    reveal_strlit("max_tokens");
    reveal_strlit("messages");
    reveal_strlit("stream");
    reveal_strlit("system");
    reveal_strlit("tools");
    reveal_strlit("thinking");
    assert("model"@.len() == 5 && "max_tokens"@.len() == 10 && "messages"@.len() == 8);
    assert("stream"@.len() == 6 && "system"@.len() == 6 && "tools"@.len() == 5);
    assert("thinking"@.len() == 8 && "thinking"@[0] == 't' && "messages"@[0] == 'm');
    assert("model"@[0] == 'm' && "tools"@[0] == 't');
    assert("stream"@[1] == 't' && "system"@[1] == 'y');
    conversations_are_put_faithfully(messages);
    let p = request_payload(cfg, messages, tools, system);
    let sent = list_under(p, "tools"@);
    assert forall|i: int| 0 <= i < tools.len() implies text_under(#[trigger] sent[i], "name"@)
        == tools[i].name@ && text_under(sent[i], "description"@) == tools[i].description@
        && sent[i].at("input_schema"@) == tools[i].input_schema.deep_view() by {
        assert(sent[i] == tool_payload(tools[i]));
    }
}

/// A slash more or less at the end of the base address makes no difference, and the path of
/// the endpoint goes behind it.
pub proof fn endpoints_stand_behind_the_base(base: Seq<char>)
    ensures
        messages_endpoint(base.push('/')) == messages_endpoint(base),
        base.len() > 0 && base.last() != '/' ==> messages_endpoint(base) == base + "/v1/messages"@,
{
    assert(base.push('/').drop_last() =~= base);
}

/// What an event brings is what its data reads as.
pub proof fn events_bring_their_data(event: Seq<char>, data: Seq<char>)
    ensures
        data_read(InputView::Event { event, data }) == json_read(data),
{
}

} // verus!
