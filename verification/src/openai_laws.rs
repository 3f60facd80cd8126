//! What a listener makes of a stream of chunks, and what the payload says.
use vstd::prelude::*;

use crate::json::{JsonView, entry_push, json_read, printed};
use crate::json_laws::{count_or_nothing, list_under, text_or_nothing, text_under};
use crate::message::{ContentBlock, EventView, Message, Role, ToolDefinition};
use crate::openai::{
    CallView, ChoiceView, ChunkView, OpenAiConfig, Progress, StateView, assistant_message,
    call_closed, call_id, call_in, call_name, call_payload, calls_in, chat_endpoint, choice_in,
    choices_in, chunk_in, conversation, data_read, has_image, lines_of_text, request_payload,
    stream_run, stream_step, tool_calls, tool_messages, tool_payload, user_messages, user_parts,
    with_call, with_calls, with_choice, with_choices, with_chunk, with_flush,
};
use crate::provider_core::InputView;
use crate::readings::{Reading, meaning, meanings};
use crate::text::{decimal, join, trim};
use crate::told::{
    Channel, HeardCall, both_told, ended, fed, heard, nothing_told, one_more, one_more_heard,
    stops, told, usages,
};

verus! {

/// What the fragments of arguments in tool call deltas come to.
pub open spec fn fragments(deltas: Seq<JsonView>) -> Seq<char>
    decreases deltas.len(),
{
    if deltas.len() == 0 {
        Seq::empty()
    } else {
        fragments(deltas.drop_last()) + text_under(deltas.last().at("function"@), "arguments"@)
    }
}

/// What an answer says on a channel: its content as text, and the arguments of its tool
/// calls as input.
pub open spec fn answer_given(answer: JsonView, channel: Channel) -> Seq<char> {
    let delta = answer.at("delta"@);
    match channel {
        Channel::Text => text_under(delta, "content"@),
        Channel::Input => fragments(list_under(delta, "tool_calls"@)),
        Channel::Thinking => Seq::empty(),
    }
}

/// What answers say on a channel, put together.
pub open spec fn answers_given(answers: Seq<JsonView>, channel: Channel) -> Seq<char>
    decreases answers.len(),
{
    if answers.len() == 0 {
        Seq::empty()
    } else {
        answers_given(answers.drop_last(), channel) + answer_given(answers.last(), channel)
    }
}

/// Whether a tool call delta has the shape of one.
pub open spec fn call_shaped(json: JsonView) -> bool {
    let function = json.at("function"@);
    &&& json is Object
    &&& json.get("index"@) is None || json.at("index"@).unsigned() is Some
    &&& text_or_nothing(json, "id"@)
    &&& function is Null || function is Object && text_or_nothing(function, "name"@)
        && text_or_nothing(function, "arguments"@)
}

/// Whether an answer has the shape of one.
pub open spec fn answer_shaped(json: JsonView) -> bool {
    let delta = json.at("delta"@);
    &&& json is Object
    &&& json.get("delta"@) is None || delta is Object
    &&& text_or_nothing(delta, "content"@)
    &&& delta.get("tool_calls"@) is None || delta.at("tool_calls"@) is Array
    &&& forall|i: int|
        0 <= i < list_under(delta, "tool_calls"@).len() ==> call_shaped(
            #[trigger] list_under(delta, "tool_calls"@)[i],
        )
    &&& text_or_nothing(json, "finish_reason"@)
}

/// Whether a value has the shape of a chunk.
pub open spec fn chunk_shaped(json: JsonView) -> bool {
    let usage = json.at("usage"@);
    &&& json is Object
    &&& json.get("choices"@) is None || json.at("choices"@) is Array
    &&& forall|i: int|
        0 <= i < list_under(json, "choices"@).len() ==> answer_shaped(
            #[trigger] list_under(json, "choices"@)[i],
        )
    &&& usage is Null || usage is Object && count_or_nothing(usage, "prompt_tokens"@)
        && count_or_nothing(usage, "completion_tokens"@)
}

proof fn calls_one_by_one(items: Seq<JsonView>)
    ensures
        match calls_in(items) {
            Some(calls) => calls.len() == items.len() && forall|i: int|
                0 <= i < items.len() ==> call_in(#[trigger] items[i]) == Some(calls[i]),
            None => exists|i: int| 0 <= i < items.len() && call_in(#[trigger] items[i]) is None,
        },
    decreases items.len(),
{
    if items.len() > 0 {
        let init = items.drop_last();
        calls_one_by_one(init);
        match calls_in(items) {
            Some(calls) => {
                assert forall|i: int| 0 <= i < items.len() implies call_in(#[trigger] items[i])
                    == Some(calls[i]) by {
                    if i < init.len() {
                        assert(items[i] == init[i]);
                    }
                }
            },
            None => {
                if calls_in(init) is None {
                    let i = choose|i: int| 0 <= i < init.len() && call_in(#[trigger] init[i]) is None;
                    assert(items[i] == init[i]);
                } else {
                    assert(call_in(items[items.len() - 1]) is None);
                }
            },
        }
    }
}

proof fn choices_one_by_one(items: Seq<JsonView>)
    ensures
        match choices_in(items) {
            Some(choices) => choices.len() == items.len() && forall|i: int|
                0 <= i < items.len() ==> choice_in(#[trigger] items[i]) == Some(choices[i]),
            None => exists|i: int| 0 <= i < items.len() && choice_in(#[trigger] items[i]) is None,
        },
    decreases items.len(),
{
    if items.len() > 0 {
        let init = items.drop_last();
        choices_one_by_one(init);
        match choices_in(items) {
            Some(choices) => {
                assert forall|i: int| 0 <= i < items.len() implies choice_in(#[trigger] items[i])
                    == Some(choices[i]) by {
                    if i < init.len() {
                        assert(items[i] == init[i]);
                    }
                }
            },
            None => {
                if choices_in(init) is None {
                    let i = choose|i: int|
                        0 <= i < init.len() && choice_in(#[trigger] init[i]) is None;
                    assert(items[i] == init[i]);
                } else {
                    assert(choice_in(items[items.len() - 1]) is None);
                }
            },
        }
    }
}

proof fn answers_are_decoded(json: JsonView)
    ensures
        choice_in(json) is Some <==> answer_shaped(json),
        choice_in(json) matches Some(choice) ==> calls_in(
            list_under(json.at("delta"@), "tool_calls"@),
        ) == Some(choice.calls) && (match choice.content {
            Some(t) => json.at("delta"@).at("content"@) == JsonView::Text(t),
            None => text_under(json.at("delta"@), "content"@).len() == 0,
        }) && (match choice.finish_reason {
            Some(reason) => json.at("finish_reason"@) == JsonView::Text(reason),
            None => json.at("finish_reason"@) is Null,
        }),
{
    let items = list_under(json.at("delta"@), "tool_calls"@);
    calls_one_by_one(items);
    if json.get("delta"@) is None {
        assert(calls_in(Seq::<JsonView>::empty()) is Some);
        assert(crate::json::entry(crate::json::no_fields(), "content"@) is None);
        assert(crate::json::entry(crate::json::no_fields(), "tool_calls"@) is None);
        assert(items =~= Seq::empty());
    }
    match calls_in(items) {
        Some(calls) => {
            assert forall|i: int| 0 <= i < items.len() implies call_shaped(#[trigger] items[i]) by {
                assert(call_in(items[i]) == Some(calls[i]));
            }
        },
        None => {
            let i = choose|i: int| 0 <= i < items.len() && call_in(#[trigger] items[i]) is None;
            assert(!call_shaped(items[i]));
        },
    }
}

/// A value is taken as a chunk exactly where it has the shape of one.
pub proof fn chunks_are_taken_by_their_shape(json: JsonView)
    ensures
        chunk_in(json) is Some <==> chunk_shaped(json),
{
    let items = list_under(json, "choices"@);
    choices_one_by_one(items);
    match choices_in(items) {
        Some(choices) => {
            assert forall|i: int| 0 <= i < items.len() implies answer_shaped(#[trigger] items[i]) by {
                assert(choice_in(items[i]) == Some(choices[i]));
                answers_are_decoded(items[i]);
            }
        },
        None => {
            let i = choose|i: int| 0 <= i < items.len() && choice_in(#[trigger] items[i]) is None;
            answers_are_decoded(items[i]);
        },
    }
}

proof fn call_tells(p: Progress, json: JsonView, call: CallView, channel: Channel)
    requires
        call_in(json) == Some(call),
    ensures
        told(with_call(p, call).events, channel) == told(p.events, channel) + (if channel is Input {
            text_under(json.at("function"@), "arguments"@)
        } else {
            Seq::empty()
        }),
        usages(with_call(p, call).events) == usages(p.events),
        stops(with_call(p, call).events) == stops(p.events),
{
    let start = EventView::ToolUseStart { id: call_id(call), name: call_name(call) };
    one_more(p.events, EventView::ToolUseEnd, channel);
    one_more(call_closed(p), start, channel);
    let none = Seq::<char>::empty();
    let before = told(p.events, channel);
    assert(before + none =~= before);
    match call.arguments {
        Some(args) => {
            one_more(p.events, EventView::ToolInputDelta(args), channel);
            one_more(call_closed(p).push(start), EventView::ToolInputDelta(args), channel);
            if args.len() == 0 {
                assert(args =~= none);
            }
        },
        None => {},
    }
}

proof fn calls_tell(p: Progress, items: Seq<JsonView>, calls: Seq<CallView>, channel: Channel)
    requires
        calls_in(items) == Some(calls),
    ensures
        told(with_calls(p, calls, calls.len()).events, channel) == told(p.events, channel) + (
        if channel is Input {
            fragments(items)
        } else {
            Seq::empty()
        }),
        usages(with_calls(p, calls, calls.len()).events) == usages(p.events),
        stops(with_calls(p, calls, calls.len()).events) == stops(p.events),
    decreases items.len(),
{
    let before = told(p.events, channel);
    if items.len() == 0 {
        assert(before + Seq::<char>::empty() =~= before);
    } else {
        let init = items.drop_last();
        let fewer = calls_in(init)->Some_0;
        calls_tell(p, init, fewer, channel);
        let n = fewer.len();
        assert(calls =~= fewer.push(calls[n as int]));
        first_calls(p, calls, fewer, n);
        call_tells(with_calls(p, fewer, n), items.last(), calls.last(), channel);
        if channel is Input {
            let more = text_under(items.last().at("function"@), "arguments"@);
            assert(before + fragments(init) + more =~= before + (fragments(init) + more));
        } else {
            assert(before + Seq::<char>::empty() =~= before);
        }
    }
}

proof fn first_calls(p: Progress, calls: Seq<CallView>, fewer: Seq<CallView>, n: nat)
    requires
        n <= fewer.len() <= calls.len(),
        forall|i: int| 0 <= i < n ==> calls[i] == #[trigger] fewer[i],
    ensures
        with_calls(p, calls, n) == with_calls(p, fewer, n),
    decreases n,
{
    if n > 0 {
        first_calls(p, calls, fewer, (n - 1) as nat);
        assert(calls[n - 1] == fewer[n - 1]);
    }
}

proof fn first_choices(p: Progress, choices: Seq<ChoiceView>, fewer: Seq<ChoiceView>, n: nat)
    requires
        n <= fewer.len() <= choices.len(),
        forall|i: int| 0 <= i < n ==> choices[i] == #[trigger] fewer[i],
    ensures
        with_choices(p, choices, n) == with_choices(p, fewer, n),
    decreases n,
{
    if n > 0 {
        first_choices(p, choices, fewer, (n - 1) as nat);
        assert(choices[n - 1] == fewer[n - 1]);
    }
}

/// What of an answer is said.
spec fn spoken(p: Progress, choice: ChoiceView) -> Progress {
    match choice.content {
        Some(t) => if t.len() == 0 {
            p
        } else {
            Progress { events: p.events.push(EventView::TextDelta(t)), ..p }
        },
        None => p,
    }
}

proof fn choice_tells(p: Progress, json: JsonView, choice: ChoiceView, channel: Channel)
    requires
        choice_in(json) == Some(choice),
    ensures
        told(with_choice(p, choice).events, channel) == told(p.events, channel) + answer_given(
            json,
            channel,
        ),
        usages(with_choice(p, choice).events) == usages(p.events),
        stops(with_choice(p, choice).events) == stops(p.events),
        with_choice(p, choice).state.finish_reason == match json.at("finish_reason"@) {
            JsonView::Text(reason) => Some(reason),
            _ => p.state.finish_reason,
        },
        with_choice(p, choice).state.saw_message_end == p.state.saw_message_end,
{
    answers_are_decoded(json);
    let items = list_under(json.at("delta"@), "tool_calls"@);
    let said = spoken(p, choice);
    let before = told(p.events, channel);
    assert(before + Seq::<char>::empty() =~= before);
    match choice.content {
        Some(t) => {
            one_more(p.events, EventView::TextDelta(t), channel);
            if t.len() == 0 {
                assert(t =~= Seq::empty());
            }
        },
        None => {
            assert(text_under(json.at("delta"@), "content"@) =~= Seq::empty());
        },
    }
    calls_tell(said, items, choice.calls, channel);
    calls_keep_the_rest(said, choice.calls, choice.calls.len());
    assert(told(said.events, channel) + Seq::<char>::empty() =~= told(said.events, channel));
}

proof fn calls_keep_the_rest(p: Progress, calls: Seq<CallView>, n: nat)
    ensures
        with_calls(p, calls, n).state.finish_reason == p.state.finish_reason,
        with_calls(p, calls, n).state.saw_message_end == p.state.saw_message_end,
    decreases n,
{
    if n > 0 {
        calls_keep_the_rest(p, calls, (n - 1) as nat);
    }
}

/// The last stop reason that answers give, or else the one before.
pub open spec fn last_reason(before: Option<Seq<char>>, answers: Seq<JsonView>) -> Option<Seq<char>>
    decreases answers.len(),
{
    if answers.len() == 0 {
        before
    } else {
        match answers.last().at("finish_reason"@) {
            JsonView::Text(reason) => Some(reason),
            _ => last_reason(before, answers.drop_last()),
        }
    }
}

proof fn choices_tell(
    p: Progress,
    items: Seq<JsonView>,
    choices: Seq<ChoiceView>,
    channel: Channel,
)
    requires
        choices_in(items) == Some(choices),
    ensures
        ({
            let after = with_choices(p, choices, choices.len());
            &&& told(after.events, channel) == told(p.events, channel) + answers_given(
                items,
                channel,
            )
            &&& usages(after.events) == usages(p.events)
            &&& stops(after.events) == stops(p.events)
            &&& after.state.finish_reason == last_reason(p.state.finish_reason, items)
            &&& after.state.saw_message_end == p.state.saw_message_end
        }),
    decreases items.len(),
{
    let before = told(p.events, channel);
    if items.len() == 0 {
        assert(before + Seq::<char>::empty() =~= before);
    } else {
        let init = items.drop_last();
        let fewer = choices_in(init)->Some_0;
        choices_tell(p, init, fewer, channel);
        let n = fewer.len();
        assert(choices =~= fewer.push(choices[n as int]));
        first_choices(p, choices, fewer, n);
        choice_tells(with_choices(p, fewer, n), items.last(), choices.last(), channel);
        let more = answer_given(items.last(), channel);
        assert(before + answers_given(init, channel) + more =~= before + (answers_given(
            init,
            channel,
        ) + more));
    }
}

/// A chunk tells what its answers say: their contents as text and the arguments of their
/// tool calls as input, piece by piece. It reports the counts that it holds, once, and the
/// message ends with the last stop reason that was given.
pub proof fn chunks_tell_what_they_are_given(
    state: StateView,
    json: JsonView,
    chunk: ChunkView,
    channel: Channel,
)
    requires
        chunk_in(json) == Some(chunk),
    ensures
        ({
            let p = with_chunk(state, chunk);
            let answers = list_under(json, "choices"@);
            let usage = json.at("usage"@);
            let ends = p.state.saw_message_end && !state.saw_message_end;
            &&& told(p.events, channel) == answers_given(answers, channel)
            &&& usages(p.events) == if usage is Null {
                Seq::<EventView>::empty()
            } else {
                seq![
                    EventView::TokenUsage {
                        input_tokens: usage.at("prompt_tokens"@).unsigned(),
                        output_tokens: usage.at("completion_tokens"@).unsigned(),
                        cache_read_input_tokens: None,
                        cache_creation_input_tokens: None,
                    },
                ]
            }
            &&& p.state.finish_reason == last_reason(state.finish_reason, answers)
            &&& ends <==> !state.saw_message_end && p.state.finish_reason is Some
            &&& stops(p.events) == if ends {
                seq![p.state.finish_reason]
            } else {
                Seq::<Option<Seq<char>>>::empty()
            }
        }),
{
    let start = Progress { state, events: Seq::empty() };
    let items = list_under(json, "choices"@);
    nothing_told(channel);
    choices_tell(start, items, chunk.choices, channel);
    let said = with_choices(start, chunk.choices, chunk.choices.len());
    assert(Seq::<char>::empty() + answers_given(items, channel) =~= answers_given(items, channel));
    let none = Seq::<char>::empty();
    assert(told(said.events, channel) + none =~= told(said.events, channel));
    let counted = match chunk.usage {
        Some(usage) => {
            let event = EventView::TokenUsage {
                input_tokens: usage.prompt_tokens,
                output_tokens: usage.completion_tokens,
                cache_read_input_tokens: None,
                cache_creation_input_tokens: None,
            };
            one_more(said.events, event, channel);
            assert(Seq::<EventView>::empty().push(event) =~= seq![event]);
            Progress { events: said.events.push(event), ..said }
        },
        None => said,
    };
    one_more(counted.events, EventView::ToolUseEnd, channel);
    let end = EventView::MessageEnd { stop_reason: counted.state.finish_reason };
    one_more(call_closed(counted), end, channel);
    assert(Seq::<Option<Seq<char>>>::empty().push(counted.state.finish_reason) =~= seq![
        counted.state.finish_reason,
    ]);
}

/// What came on a stream, with the data as it was read.
pub type Arrival = (InputView, Result<JsonView, Seq<char>>);

/// The chunk that an arrival brings.
pub open spec fn chunk_brought(arrival: Arrival) -> Option<JsonView> {
    match arrival {
        (InputView::Event { data, .. }, Ok(json)) => if trim(data).len() > 0 && trim(data)
            != "[DONE]"@ && chunk_shaped(json) {
            Some(json)
        } else {
            None
        },
        _ => None,
    }
}

/// What arrivals say on a channel, put together.
pub open spec fn all_given(arrivals: Seq<Arrival>, channel: Channel) -> Seq<char>
    decreases arrivals.len(),
{
    if arrivals.len() == 0 {
        Seq::empty()
    } else {
        all_given(arrivals.drop_last(), channel) + match chunk_brought(arrivals.last()) {
            Some(json) => answers_given(list_under(json, "choices"@), channel),
            None => Seq::empty(),
        }
    }
}

proof fn flushes_tell_nothing(state: StateView, channel: Channel)
    ensures
        told(with_flush(state).events, channel) == Seq::<char>::empty(),
        usages(with_flush(state).events) == Seq::<EventView>::empty(),
        stops(with_flush(state).events) == if state.saw_message_end {
            Seq::<Option<Seq<char>>>::empty()
        } else {
            seq![state.finish_reason]
        },
{
    nothing_told(channel);
    let start = Progress { state, events: Seq::empty() };
    one_more(start.events, EventView::ToolUseEnd, channel);
    one_more(call_closed(start), EventView::MessageEnd { stop_reason: state.finish_reason }, channel);
    assert(told(with_flush(state).events, channel) =~= Seq::empty());
    assert(Seq::<Option<Seq<char>>>::empty().push(state.finish_reason) =~= seq![
        state.finish_reason,
    ]);
}

/// What comes of an arrival: a chunk is absorbed, the end and the mark of it flush, blank
/// data passes, and anything else ends the completion without an event.
pub proof fn arrivals_are_told_apart(state: StateView, arrival: Arrival)
    ensures
        ({
            let (after, step) = stream_step(state, arrival.0, arrival.1);
            let flushed = with_flush(state);
            let marks_the_end = match arrival.0 {
                InputView::Event { data, .. } => trim(data).len() > 0 && trim(data) == "[DONE]"@,
                InputView::Broken(_) => false,
                InputView::Ended => true,
            };
            let blank = match arrival.0 {
                InputView::Event { data, .. } => trim(data).len() == 0,
                _ => false,
            };
            match chunk_brought(arrival) {
                Some(json) => step matches Some(step) && !step.over && step.error is None && match
                chunk_in(json) {
                    Some(chunk) => step.events == with_chunk(state, chunk).events && after
                        == with_chunk(state, chunk).state,
                    None => false,
                },
                None => if marks_the_end {
                    step matches Some(step) && step.over && step.error is None && step.events
                        == flushed.events && after == flushed.state
                } else if blank {
                    step matches Some(step) && !step.over && step.error is None
                        && step.events.len() == 0 && after == state
                } else {
                    after == state && (step matches Some(step) ==> step.over && step.error is Some
                        && step.events.len() == 0)
                },
            }
        }),
{
    match arrival.1 {
        Ok(json) => {
            chunks_are_taken_by_their_shape(json);
        },
        Err(_) => {},
    }
}

/// Whatever arrives on a stream, what is told on each channel is what was given there, piece
/// by piece.
pub proof fn streams_tell_what_they_are_given(arrivals: Seq<Arrival>, channel: Channel)
    ensures
        told(stream_run(arrivals).events, channel) == all_given(arrivals, channel),
    decreases arrivals.len(),
{
    nothing_told(channel);
    if arrivals.len() > 0 {
        let before = stream_run(arrivals.drop_last());
        let (after, step) = stream_step(before.state, arrivals.last().0, arrivals.last().1);
        streams_tell_what_they_are_given(arrivals.drop_last(), channel);
        arrivals_are_told_apart(before.state, arrivals.last());
        flushes_tell_nothing(before.state, channel);
        let so_far = all_given(arrivals.drop_last(), channel);
        assert(so_far + Seq::<char>::empty() =~= so_far);
        match step {
            Some(step) => {
                both_told(before.events, step.events, channel);
                if step.events.len() == 0 {
                    assert(step.events =~= Seq::empty());
                }
            },
            None => {},
        }
        match chunk_brought(arrivals.last()) {
            Some(json) => {
                chunks_tell_what_they_are_given(
                    before.state,
                    json,
                    chunk_in(json)->Some_0,
                    channel,
                );
            },
            None => {},
        }
    }
}

/// The index of a tool call delta.
pub open spec fn delta_index(delta: JsonView) -> u64 {
    match delta.at("index"@).unsigned() {
        Some(n) => n,
        None => 0,
    }
}

/// The index of the call that is open behind the deltas, where `open` was open before them.
pub open spec fn open_behind(open: Option<u64>, deltas: Seq<JsonView>) -> Option<u64> {
    if deltas.len() == 0 {
        open
    } else {
        Some(delta_index(deltas.last()))
    }
}

/// The calls that tool call deltas come to, where `open` is the index of the one that was
/// open before them: a delta of the same index as the one before it adds its arguments to
/// the call, and any other ends that call and begins one of its own.
pub open spec fn assembled(
    open: Option<u64>,
    calls: Seq<HeardCall>,
    deltas: Seq<JsonView>,
) -> Seq<HeardCall>
    decreases deltas.len(),
{
    if deltas.len() == 0 {
        calls
    } else {
        let before = assembled(open, calls, deltas.drop_last());
        let previous = open_behind(open, deltas.drop_last());
        let delta = deltas.last();
        let index = delta_index(delta);
        let arguments = text_under(delta.at("function"@), "arguments"@);
        if previous == Some(index) {
            fed(before, arguments)
        } else {
            let so_far = if previous is Some {
                ended(before)
            } else {
                before
            };
            so_far.push(
                HeardCall {
                    id: match delta.at("id"@) {
                        JsonView::Text(id) => id,
                        _ => "call_"@ + decimal(index as nat),
                    },
                    name: text_under(delta.at("function"@), "name"@),
                    input: arguments,
                    ended: false,
                },
            )
        }
    }
}

proof fn assembled_in_two(
    open: Option<u64>,
    calls: Seq<HeardCall>,
    a: Seq<JsonView>,
    b: Seq<JsonView>,
)
    ensures
        assembled(open, calls, a + b) == assembled(
            open_behind(open, a),
            assembled(open, calls, a),
            b,
        ),
        open_behind(open, a + b) == open_behind(open_behind(open, a), b),
    decreases b.len(),
{
    if b.len() == 0 {
        assert(a + b =~= a);
    } else {
        assembled_in_two(open, calls, a, b.drop_last());
        assert((a + b).drop_last() =~= a + b.drop_last());
        assert((a + b).last() == b.last());
    }
}

proof fn feeding_nothing(calls: Seq<HeardCall>)
    ensures
        fed(calls, Seq::empty()) == calls,
{
    if calls.len() > 0 {
        assert(calls.last().input + Seq::<char>::empty() =~= calls.last().input);
        assert(fed(calls, Seq::empty()) =~= calls);
    }
}

proof fn call_is_heard(p: Progress, json: JsonView, call: CallView, calls: Seq<HeardCall>)
    requires
        call_in(json) == Some(call),
    ensures
        heard(calls, with_call(p, call).events) == assembled(
            p.state.open_tool,
            heard(calls, p.events),
            seq![json],
        ),
        with_call(p, call).state.open_tool == Some(delta_index(json)),
{
    let one = seq![json];
    let before = heard(calls, p.events);
    assert(one.drop_last() =~= Seq::empty());
    assert(assembled(p.state.open_tool, before, one.drop_last()) == before);
    let start = EventView::ToolUseStart { id: call_id(call), name: call_name(call) };
    one_more_heard(calls, p.events, EventView::ToolUseEnd);
    one_more_heard(calls, call_closed(p), start);
    feeding_nothing(before);
    let begun = heard(calls, call_closed(p).push(start));
    feeding_nothing(begun);
    match call.arguments {
        Some(args) => {
            one_more_heard(calls, p.events, EventView::ToolInputDelta(args));
            one_more_heard(calls, call_closed(p).push(start), EventView::ToolInputDelta(args));
            if args.len() == 0 {
                assert(args =~= Seq::empty());
            }
            assert(Seq::<char>::empty() + args =~= args);
        },
        None => {
            assert(text_under(json.at("function"@), "arguments"@) =~= Seq::empty());
        },
    }
    assert(heard(calls, with_call(p, call).events) =~= assembled(
        p.state.open_tool,
        before,
        one,
    ));
}

proof fn calls_are_heard(
    p: Progress,
    items: Seq<JsonView>,
    views: Seq<CallView>,
    calls: Seq<HeardCall>,
)
    requires
        calls_in(items) == Some(views),
    ensures
        heard(calls, with_calls(p, views, views.len()).events) == assembled(
            p.state.open_tool,
            heard(calls, p.events),
            items,
        ),
        with_calls(p, views, views.len()).state.open_tool == open_behind(p.state.open_tool, items),
    decreases items.len(),
{
    if items.len() > 0 {
        let init = items.drop_last();
        let fewer = calls_in(init)->Some_0;
        calls_are_heard(p, init, fewer, calls);
        let n = fewer.len();
        assert(views =~= fewer.push(views[n as int]));
        first_calls(p, views, fewer, n);
        call_is_heard(with_calls(p, fewer, n), items.last(), views.last(), calls);
        assembled_in_two(p.state.open_tool, heard(calls, p.events), init, seq![items.last()]);
        assert(init + seq![items.last()] =~= items);
    }
}

/// The tool call deltas of answers, one answer behind the other.
pub open spec fn call_deltas(answers: Seq<JsonView>) -> Seq<JsonView>
    decreases answers.len(),
{
    if answers.len() == 0 {
        Seq::empty()
    } else {
        call_deltas(answers.drop_last()) + list_under(answers.last().at("delta"@), "tool_calls"@)
    }
}

proof fn choices_are_heard(
    p: Progress,
    items: Seq<JsonView>,
    choices: Seq<ChoiceView>,
    calls: Seq<HeardCall>,
)
    requires
        choices_in(items) == Some(choices),
    ensures
        heard(calls, with_choices(p, choices, choices.len()).events) == assembled(
            p.state.open_tool,
            heard(calls, p.events),
            call_deltas(items),
        ),
        with_choices(p, choices, choices.len()).state.open_tool == open_behind(
            p.state.open_tool,
            call_deltas(items),
        ),
    decreases items.len(),
{
    if items.len() > 0 {
        let init = items.drop_last();
        let fewer = choices_in(init)->Some_0;
        choices_are_heard(p, init, fewer, calls);
        let n = fewer.len();
        assert(choices =~= fewer.push(choices[n as int]));
        first_choices(p, choices, fewer, n);
        let q = with_choices(p, fewer, n);
        let choice = choices.last();
        answers_are_decoded(items.last());
        let said = spoken(q, choice);
        match choice.content {
            Some(t) => {
                one_more_heard(calls, q.events, EventView::TextDelta(t));
            },
            None => {},
        }
        let deltas = list_under(items.last().at("delta"@), "tool_calls"@);
        calls_are_heard(said, deltas, choice.calls, calls);
        assembled_in_two(
            p.state.open_tool,
            heard(calls, p.events),
            call_deltas(init),
            deltas,
        );
    }
}

/// Tool calls are heard as they were given: whatever was heard before a chunk, behind it a
/// listener has the calls that its tool call deltas come to, each with its id, its name and
/// all its arguments, and the open one is ended where the message ends.
pub proof fn tool_calls_are_heard_whole(
    state: StateView,
    json: JsonView,
    chunk: ChunkView,
    calls: Seq<HeardCall>,
)
    requires
        chunk_in(json) == Some(chunk),
    ensures
        ({
            let p = with_chunk(state, chunk);
            let deltas = call_deltas(list_under(json, "choices"@));
            let open = open_behind(state.open_tool, deltas);
            let all = assembled(state.open_tool, calls, deltas);
            if p.state.saw_message_end && !state.saw_message_end {
                p.state.open_tool is None && heard(calls, p.events) == if open is Some {
                    ended(all)
                } else {
                    all
                }
            } else {
                p.state.open_tool == open && heard(calls, p.events) == all
            }
        }),
{
    let start = Progress { state, events: Seq::empty() };
    let items = list_under(json, "choices"@);
    choices_are_heard(start, items, chunk.choices, calls);
    choices_tell(start, items, chunk.choices, Channel::Text);
    let said = with_choices(start, chunk.choices, chunk.choices.len());
    let counted = match chunk.usage {
        Some(usage) => {
            let event = EventView::TokenUsage {
                input_tokens: usage.prompt_tokens,
                output_tokens: usage.completion_tokens,
                cache_read_input_tokens: None,
                cache_creation_input_tokens: None,
            };
            one_more_heard(calls, said.events, event);
            Progress { events: said.events.push(event), ..said }
        },
        None => said,
    };
    one_more_heard(calls, counted.events, EventView::ToolUseEnd);
    let end = EventView::MessageEnd { stop_reason: counted.state.finish_reason };
    one_more_heard(calls, call_closed(counted), end);
}

/// The end of a stream ends the open call and the message, with the reason that was kept.
pub proof fn flushes_end_what_is_open(state: StateView, calls: Seq<HeardCall>)
    ensures
        stops(with_flush(state).events) == if state.saw_message_end {
            Seq::<Option<Seq<char>>>::empty()
        } else {
            seq![state.finish_reason]
        },
        heard(calls, with_flush(state).events) == if state.saw_message_end || state.open_tool is None {
            calls
        } else {
            ended(calls)
        },
{
    flushes_tell_nothing(state, Channel::Text);
    let start = Progress { state, events: Seq::empty() };
    one_more_heard(calls, start.events, EventView::ToolUseEnd);
    one_more_heard(
        calls,
        call_closed(start),
        EventView::MessageEnd { stop_reason: state.finish_reason },
    );
}

proof fn keys_differ()
    ensures
        "role"@ != "content"@,
        "role"@ != "tool_calls"@,
        "content"@ != "tool_calls"@,
        "role"@ != "tool_call_id"@,
        "content"@ != "tool_call_id"@,
        "type"@ != "text"@,
        "type"@ != "image_url"@,
        "text"@ != "image_url"@,
        "type"@ != "id"@,
        "type"@ != "function"@,
        "id"@ != "function"@,
        "name"@ != "arguments"@,
        "name"@ != "description"@,
        "name"@ != "parameters"@,
        "description"@ != "parameters"@,
        "model"@ != "messages"@,
        "model"@ != "max_tokens"@,
        "model"@ != "stream"@,
        "model"@ != "stream_options"@,
        "model"@ != "tools"@,
        "messages"@ != "max_tokens"@,
        "messages"@ != "stream"@,
        "messages"@ != "stream_options"@,
        "messages"@ != "tools"@,
        "max_tokens"@ != "stream"@,
        "max_tokens"@ != "stream_options"@,
        "max_tokens"@ != "tools"@,
        "stream"@ != "stream_options"@,
        "stream"@ != "tools"@,
        "stream_options"@ != "tools"@,
{
    reveal_strlit("role");
    reveal_strlit("content");
    reveal_strlit("tool_calls");
    reveal_strlit("tool_call_id");
    reveal_strlit("type");
    reveal_strlit("text");
    reveal_strlit("image_url");
    reveal_strlit("id");
    reveal_strlit("function");
    reveal_strlit("name");
    reveal_strlit("arguments");
    reveal_strlit("description");
    reveal_strlit("parameters");
    reveal_strlit("model");
    reveal_strlit("messages");
    reveal_strlit("max_tokens");
    reveal_strlit("stream");
    reveal_strlit("stream_options");
    reveal_strlit("tools");
    assert("role"@.len() == 4 && "content"@.len() == 7 && "tool_calls"@.len() == 10);
    assert("tool_call_id"@.len() == 12 && "type"@.len() == 4 && "text"@.len() == 4);
    assert("type"@[1] == 'y' && "text"@[1] == 'e' && "image_url"@.len() == 9);
    assert("id"@.len() == 2 && "function"@.len() == 8 && "name"@.len() == 4);
    assert("arguments"@.len() == 9 && "description"@.len() == 11 && "parameters"@.len() == 10);
    assert("model"@.len() == 5 && "tools"@.len() == 5 && "model"@[0] == 'm' && "tools"@[0] == 't');
    assert("messages"@.len() == 8 && "max_tokens"@.len() == 10 && "stream"@.len() == 6);
    assert("stream_options"@.len() == 14);
}

/// The texts among what is said, in their order.
pub open spec fn texts(said: Seq<Reading>) -> Seq<Seq<char>>
    decreases said.len(),
{
    if said.len() == 0 {
        Seq::empty()
    } else {
        match said.last() {
            Reading::Text(t) => texts(said.drop_last()).push(t),
            _ => texts(said.drop_last()),
        }
    }
}

/// The texts and images among what is said, in their order.
pub open spec fn shown(said: Seq<Reading>) -> Seq<Reading>
    decreases said.len(),
{
    if said.len() == 0 {
        Seq::empty()
    } else if said.last() is Text || said.last() is Image {
        shown(said.drop_last()).push(said.last())
    } else {
        shown(said.drop_last())
    }
}

/// The answers of tools among what is said, in their order, whether they failed or not.
pub open spec fn answers(said: Seq<Reading>) -> Seq<(Seq<char>, Seq<char>)>
    decreases said.len(),
{
    if said.len() == 0 {
        Seq::empty()
    } else {
        match said.last() {
            Reading::Answer { id, content, .. } => answers(said.drop_last()).push((id, content)),
            _ => answers(said.drop_last()),
        }
    }
}

/// The tool calls among what is said, in their order, each with its id, its name and its
/// input as text.
pub open spec fn asked(said: Seq<Reading>) -> Seq<(Seq<char>, Seq<char>, Seq<char>)>
    decreases said.len(),
{
    if said.len() == 0 {
        Seq::empty()
    } else {
        match said.last() {
            Reading::Call { id, name, input } => asked(said.drop_last()).push(
                (id, name, printed(input)),
            ),
            _ => asked(said.drop_last()),
        }
    }
}

/// The texts from the first that says anything on.
pub open spec fn from_the_first(texts: Seq<Seq<char>>) -> Seq<Seq<char>>
    decreases texts.len(),
{
    if texts.len() > 0 && texts[0].len() == 0 {
        from_the_first(texts.skip(1))
    } else {
        texts
    }
}

proof fn one_more_text(texts: Seq<Seq<char>>, t: Seq<char>)
    ensures
        from_the_first(texts.push(t)) == if from_the_first(texts).len() == 0 && t.len() == 0 {
            Seq::<Seq<char>>::empty()
        } else {
            from_the_first(texts).push(t)
        },
        from_the_first(texts).len() > 0 ==> from_the_first(texts)[0].len() > 0,
    decreases texts.len(),
{
    let more = texts.push(t);
    if texts.len() == 0 {
        assert(more.skip(1) =~= Seq::empty());
        assert(from_the_first(more.skip(1)) =~= Seq::empty());
        assert(from_the_first(texts).push(t) =~= more);
    } else {
        assert(more[0] == texts[0]);
        if texts[0].len() == 0 {
            assert(more.skip(1) =~= texts.skip(1).push(t));
            one_more_text(texts.skip(1), t);
        }
    }
}

proof fn joined_push(parts: Seq<Seq<char>>, t: Seq<char>)
    ensures
        join(parts.push(t), "\n"@) == if parts.len() == 0 {
            t
        } else {
            join(parts, "\n"@) + "\n"@ + t
        },
        parts.len() > 0 && parts[0].len() > 0 ==> join(parts, "\n"@).len() > 0,
    decreases parts.len(),
{
    assert(parts.push(t).drop_last() =~= parts);
    if parts.len() > 1 {
        joined_push(parts.drop_last(), parts.last());
        assert(parts.drop_last().push(parts.last()) =~= parts);
        assert(parts.drop_last()[0] == parts[0]);
    }
}

proof fn lines_are_joined(blocks: Seq<ContentBlock>)
    ensures
        lines_of_text(blocks) == join(from_the_first(texts(meanings(blocks))), "\n"@),
        lines_of_text(blocks).len() == 0 <==> from_the_first(texts(meanings(blocks))).len() == 0,
    decreases blocks.len(),
{
    let said = texts(meanings(blocks));
    if blocks.len() == 0 {
        assert(said =~= Seq::empty());
    } else {
        let init = blocks.drop_last();
        let before = meanings(init);
        lines_are_joined(init);
        one_more_text(texts(before), Seq::empty());
        match meaning(blocks.last()) {
            Some(reading) => {
                assert(before.push(reading).drop_last() =~= before);
                match reading {
                    Reading::Text(t) => {
                        let parts = from_the_first(texts(before));
                        one_more_text(texts(before), t);
                        joined_push(parts, t);
                        if parts.len() == 0 {
                            assert(lines_of_text(init) =~= Seq::empty());
                            assert(lines_of_text(init) + t =~= t);
                            if t.len() == 0 {
                                assert(join(Seq::<Seq<char>>::empty(), "\n"@) =~= t);
                            }
                        }
                    },
                    _ => {},
                }
            },
            None => {},
        }
    }
}

/// Whether any text says anything.
pub open spec fn says_anything(texts: Seq<Seq<char>>) -> bool {
    exists|i: int| 0 <= i < texts.len() && (#[trigger] texts[i]).len() > 0
}

proof fn first_that_says(texts: Seq<Seq<char>>)
    ensures
        from_the_first(texts).len() > 0 <==> says_anything(texts),
    decreases texts.len(),
{
    if texts.len() > 0 && texts[0].len() == 0 {
        let rest = texts.skip(1);
        first_that_says(rest);
        if says_anything(texts) {
            let i = choose|i: int| 0 <= i < texts.len() && (#[trigger] texts[i]).len() > 0;
            assert(rest[i - 1].len() > 0);
        }
        if says_anything(rest) {
            let i = choose|i: int| 0 <= i < rest.len() && (#[trigger] rest[i]).len() > 0;
            assert(texts[i + 1].len() > 0);
        }
    } else if texts.len() > 0 {
        assert(texts[0].len() > 0);
    }
}

/// The tool calls of a payload's message, each with its id, its name and its arguments.
pub open spec fn asked_read(items: Seq<JsonView>) -> Seq<(Seq<char>, Seq<char>, Seq<char>)>
    decreases items.len(),
{
    if items.len() == 0 {
        Seq::empty()
    } else {
        let call = items.last();
        asked_read(items.drop_last()).push(
            (
                text_under(call, "id"@),
                text_under(call.at("function"@), "name"@),
                text_under(call.at("function"@), "arguments"@),
            ),
        )
    }
}

proof fn calls_are_put_faithfully(blocks: Seq<ContentBlock>)
    ensures
        asked_read(tool_calls(blocks)) == asked(meanings(blocks)),
        tool_calls(blocks).len() == asked(meanings(blocks)).len(),
        forall|i: int|
            0 <= i < tool_calls(blocks).len() ==> (#[trigger] tool_calls(blocks)[i]).at("type"@)
                == JsonView::Text("function"@),
    decreases blocks.len(),
{
    broadcast use entry_push;

    keys_differ();
    if blocks.len() > 0 {
        let init = blocks.drop_last();
        let before = meanings(init);
        calls_are_put_faithfully(init);
        match meaning(blocks.last()) {
            Some(reading) => {
                assert(before.push(reading).drop_last() =~= before);
            },
            None => {},
        }
        match blocks.last() {
            ContentBlock::ToolUse { id, name, input } => {
                let calls = tool_calls(init);
                let call = call_payload(id@, name@, input.deep_view());
                assert(calls.push(call).drop_last() =~= calls);
            },
            _ => {},
        }
    }
}

/// What an assistant said is sent again: its texts, one to a line, from the first that says
/// anything, and null only where none does; and its tool calls in their order, each with its
/// id, its name and its arguments.
pub proof fn assistants_are_put_faithfully(blocks: Seq<ContentBlock>)
    ensures
        ({
            let sent = assistant_message(blocks);
            let said = meanings(blocks);
            let calls = list_under(sent, "tool_calls"@);
            &&& text_under(sent, "role"@) == "assistant"@
            &&& sent.at("content"@) == if says_anything(texts(said)) {
                JsonView::Text(join(from_the_first(texts(said)), "\n"@))
            } else {
                JsonView::Null
            }
            &&& sent.get("content"@) is Some
            &&& asked_read(calls) == asked(said)
            &&& asked(said).len() == 0 ==> sent.get("tool_calls"@) is None
            &&& forall|i: int|
                0 <= i < calls.len() ==> (#[trigger] calls[i]).at("type"@) == JsonView::Text(
                    "function"@,
                )
        }),
{
    broadcast use entry_push;

    keys_differ();
    lines_are_joined(blocks);
    first_that_says(texts(meanings(blocks)));
    calls_are_put_faithfully(blocks);
}

/// Whether a part of a payload's message says what is to be said.
pub open spec fn part_says(json: JsonView, said: Reading) -> bool {
    match said {
        Reading::Text(t) => json.at("type"@) == JsonView::Text("text"@) && json.at("text"@)
            == JsonView::Text(t),
        Reading::Image { media_type, data } => json.at("type"@) == JsonView::Text("image_url"@)
            && json.at("image_url"@).at("url"@) == JsonView::Text(
            "data:"@ + media_type + ";base64,"@ + data,
        ),
        _ => false,
    }
}

proof fn parts_are_put_faithfully(blocks: Seq<ContentBlock>)
    ensures
        user_parts(blocks).len() == shown(meanings(blocks)).len(),
        forall|i: int|
            0 <= i < user_parts(blocks).len() ==> part_says(
                #[trigger] user_parts(blocks)[i],
                shown(meanings(blocks))[i],
            ),
        has_image(blocks) <==> exists|i: int|
            0 <= i < meanings(blocks).len() && #[trigger] meanings(blocks)[i] is Image,
    decreases blocks.len(),
{
    broadcast use entry_push;

    keys_differ();
    if blocks.len() > 0 {
        let init = blocks.drop_last();
        let before = meanings(init);
        let all = meanings(blocks);
        parts_are_put_faithfully(init);
        match meaning(blocks.last()) {
            Some(reading) => {
                assert(before.push(reading).drop_last() =~= before);
            },
            None => {},
        }
        let (parts, more) = (user_parts(init), user_parts(blocks));
        assert forall|i: int| 0 <= i < more.len() implies part_says(
            #[trigger] more[i],
            shown(all)[i],
        ) by {
            if i < parts.len() {
                assert(more[i] == parts[i]);
            }
        }
        if has_image(blocks) {
            let i = choose|i: int| 0 <= i < blocks.len() && #[trigger] blocks[i] is Image;
            if i < init.len() {
                assert(init[i] is Image);
                let k = choose|k: int| 0 <= k < before.len() && #[trigger] before[k] is Image;
                assert(all[k] is Image);
            } else {
                assert(all[all.len() - 1] is Image);
            }
        }
        if exists|i: int| 0 <= i < all.len() && #[trigger] all[i] is Image {
            let i = choose|i: int| 0 <= i < all.len() && #[trigger] all[i] is Image;
            if i < before.len() {
                assert(before[i] is Image);
                let k = choose|k: int| 0 <= k < init.len() && #[trigger] init[k] is Image;
                assert(blocks[k] is Image);
            } else {
                assert(blocks[blocks.len() - 1] is Image);
            }
        }
    }
}

/// The answers of tools in a payload's messages.
pub open spec fn answers_read(items: Seq<JsonView>) -> Seq<(Seq<char>, Seq<char>)>
    decreases items.len(),
{
    if items.len() == 0 {
        Seq::empty()
    } else if items.last().at("role"@) == JsonView::Text("tool"@) {
        answers_read(items.drop_last()).push(
            (text_under(items.last(), "tool_call_id"@), text_under(items.last(), "content"@)),
        )
    } else {
        answers_read(items.drop_last())
    }
}

proof fn answers_are_put_faithfully(blocks: Seq<ContentBlock>)
    ensures
        answers_read(tool_messages(blocks)) == answers(meanings(blocks)),
        tool_messages(blocks).len() == answers(meanings(blocks)).len(),
    decreases blocks.len(),
{
    broadcast use entry_push;

    keys_differ();
    if blocks.len() > 0 {
        let init = blocks.drop_last();
        let before = meanings(init);
        answers_are_put_faithfully(init);
        match meaning(blocks.last()) {
            Some(reading) => {
                assert(before.push(reading).drop_last() =~= before);
            },
            None => {},
        }
        let messages = tool_messages(init);
        match blocks.last() {
            ContentBlock::ToolResult { .. } => {
                assert(tool_messages(blocks).drop_last() =~= messages);
            },
            _ => {},
        }
    }
}

/// What a user said is sent: the texts and images as parts where there is an image, else the
/// texts, one to a line, from the first that says anything, and nothing where none does; and
/// behind it the answers of tools in their order, each in a message of its own.
pub proof fn users_are_put_faithfully(blocks: Seq<ContentBlock>)
    ensures
        ({
            let sent = user_messages(blocks);
            let said = meanings(blocks);
            let pictured = exists|i: int| 0 <= i < said.len() && #[trigger] said[i] is Image;
            let n = if pictured || says_anything(texts(said)) {
                1int
            } else {
                0
            };
            &&& sent.len() == n + answers(said).len()
            &&& answers_read(sent.skip(n)) == answers(said)
            &&& n == 1 ==> text_under(sent[0], "role"@) == "user"@
            &&& pictured ==> {
                let parts = list_under(sent[0], "content"@);
                &&& parts.len() == shown(said).len()
                &&& forall|i: int|
                    0 <= i < parts.len() ==> part_says(#[trigger] parts[i], shown(said)[i])
            }
            &&& !pictured && n == 1 ==> sent[0].at("content"@) == JsonView::Text(
                join(from_the_first(texts(said)), "\n"@),
            )
        }),
{
    broadcast use entry_push;

    keys_differ();
    lines_are_joined(blocks);
    first_that_says(texts(meanings(blocks)));
    parts_are_put_faithfully(blocks);
    answers_are_put_faithfully(blocks);
    let sent = user_messages(blocks);
    let said = meanings(blocks);
    let pictured = exists|i: int| 0 <= i < said.len() && #[trigger] said[i] is Image;
    let n = if pictured || says_anything(texts(said)) {
        1int
    } else {
        0
    };
    assert(sent.skip(n) =~= tool_messages(blocks));
}

/// A conversation is sent message by message, in its order, behind the system prompt where
/// that says anything.
pub proof fn conversations_are_put_in_order(messages: Seq<Message>, system: Seq<char>, i: int)
    requires
        0 <= i < messages.len(),
    ensures
        conversation(Seq::empty(), system).len() == if trim(system).len() == 0 {
            0nat
        } else {
            1
        },
        trim(system).len() > 0 ==> {
            let first = conversation(messages, system)[0];
            text_under(first, "role"@) == "system"@ && first.at("content"@) == JsonView::Text(
                system,
            )
        },
        conversation(messages.take(i + 1), system) == conversation(messages.take(i), system)
            + match messages[i].role {
            Role::User => user_messages(messages[i].content@),
            Role::Assistant => seq![assistant_message(messages[i].content@)],
        },
    decreases messages.len(),
{
    broadcast use entry_push;

    keys_differ();
    let more = messages.take(i + 1);
    assert(more.drop_last() =~= messages.take(i));
    assert(Seq::<JsonView>::empty().push(assistant_message(messages[i].content@)) =~= seq![
        assistant_message(messages[i].content@),
    ]);
    if trim(system).len() > 0 {
        prompts_stay_first(messages, system);
    }
}

proof fn prompts_stay_first(messages: Seq<Message>, system: Seq<char>)
    requires
        trim(system).len() > 0,
    ensures
        conversation(messages, system).len() > 0,
        conversation(messages, system)[0] == conversation(Seq::empty(), system)[0],
    decreases messages.len(),
{
    if messages.len() > 0 {
        prompts_stay_first(messages.drop_last(), system);
    } else {
        assert(messages =~= Seq::empty());
    }
}

/// A request asks for what it is given: the model, the conversation, the limit, and each tool
/// with its name, its description and its schema. It asks for a stream with its usage.
pub proof fn requests_ask_for_what_is_given(
    cfg: OpenAiConfig,
    messages: Seq<Message>,
    tools: Seq<ToolDefinition>,
    system: Seq<char>,
)
    ensures
        ({
            let p = request_payload(cfg, messages, tools, system);
            let sent = list_under(p, "tools"@);
            &&& p.at("model"@) == JsonView::Text(cfg.model@)
            &&& p.at("messages"@) == JsonView::Array(conversation(messages, system))
            &&& p.at("max_tokens"@).unsigned() == Some(cfg.max_tokens as u64)
            &&& p.at("stream"@) == JsonView::Bool(true)
            &&& p.at("stream_options"@).at("include_usage"@) == JsonView::Bool(true)
            &&& tools.len() == 0 ==> p.get("tools"@) is None
            &&& sent.len() == tools.len()
            &&& forall|i: int|
                0 <= i < tools.len() ==> {
                    let function = (#[trigger] sent[i]).at("function"@);
                    &&& sent[i].at("type"@) == JsonView::Text("function"@)
                    &&& text_under(function, "name"@) == tools[i].name@
                    &&& text_under(function, "description"@) == tools[i].description@
                    &&& function.at("parameters"@) == tools[i].input_schema.deep_view()
                }
        }),
{
    broadcast use entry_push;

    keys_differ();
    let p = request_payload(cfg, messages, tools, system);
    let sent = list_under(p, "tools"@);
    assert forall|i: int| 0 <= i < tools.len() implies {
        let function = (#[trigger] sent[i]).at("function"@);
        &&& sent[i].at("type"@) == JsonView::Text("function"@)
        &&& text_under(function, "name"@) == tools[i].name@
        &&& text_under(function, "description"@) == tools[i].description@
        &&& function.at("parameters"@) == tools[i].input_schema.deep_view()
    } by {
        assert(sent[i] == tool_payload(tools[i]));
    }
}

/// A slash more or less at the end of the base address makes no difference, and the path of
/// the endpoint goes behind it.
pub proof fn endpoints_stand_behind_the_base(base: Seq<char>)
    ensures
        chat_endpoint(base.push('/')) == chat_endpoint(base),
        base.len() > 0 && base.last() != '/' ==> chat_endpoint(base) == base
            + "/chat/completions"@,
{
    assert(base.push('/').drop_last() =~= base);
}

/// What an event brings is what its data reads as, without the white space around it.
pub proof fn events_bring_their_data(event: Seq<char>, data: Seq<char>)
    ensures
        data_read(InputView::Event { event, data }) == json_read(trim(data)),
{
}

} // verus!
