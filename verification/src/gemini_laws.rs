//! What a listener makes of a stream of chunks, and what the payload says.
use vstd::prelude::*;

use crate::gemini::{
    AccumView, CallView, CandidateView, ChunkView, GeminiConfig, PartView, Progress, block_part,
    call_events, call_in, candidate_in, candidates_in, chunk_in, data_read, message_payload,
    part_events, part_in, parts_events, parts_in, request_payload, sent_messages, sent_parts,
    stream_endpoint, stream_run, stream_step, tool_payload, usage_view, with_candidates, with_chunk,
    with_flush, with_session,
};
use crate::json::{JsonView, entry_push, json_read, printed};
use crate::json_laws::{count_or_nothing, list_under, text_or_nothing, text_under};
use crate::message::{ContentBlock, EventView, Message, ToolDefinition};
use crate::provider_core::InputView;
use crate::readings::{Reading, Turn, meaning, meanings, turns};
use crate::text::trim;
use crate::told::{
    Channel, HeardCall, both_heard, both_told, heard, nothing_told, one_more, one_more_heard,
    sessions_told, stops, told, usages,
};

verus! {

/// The arguments of a call as they are told: nothing where they are null.
pub open spec fn arguments_given(call: JsonView) -> Seq<char> {
    let args = printed(call.at("args"@));
    if args == "null"@ {
        Seq::empty()
    } else {
        args
    }
}

/// The call that a part holds.
pub open spec fn call_given(part: JsonView) -> Seq<HeardCall> {
    let call = part.at("functionCall"@);
    if call is Null {
        Seq::empty()
    } else {
        let name = text_under(call, "name"@);
        seq![
            HeardCall {
                id: match call.at("id"@) {
                    JsonView::Text(id) => id,
                    _ => "call_"@ + name,
                },
                name,
                input: arguments_given(call),
                ended: true,
            },
        ]
    }
}

/// What a part says on a channel.
pub open spec fn part_given(part: JsonView, channel: Channel) -> Seq<char> {
    match channel {
        Channel::Text => text_under(part, "text"@),
        Channel::Input => if part.at("functionCall"@) is Null {
            Seq::empty()
        } else {
            arguments_given(part.at("functionCall"@))
        },
        Channel::Thinking => Seq::empty(),
    }
}

/// What parts say on a channel, put together.
pub open spec fn parts_given(parts: Seq<JsonView>, channel: Channel) -> Seq<char>
    decreases parts.len(),
{
    if parts.len() == 0 {
        Seq::empty()
    } else {
        parts_given(parts.drop_last(), channel) + part_given(parts.last(), channel)
    }
}

/// The calls that parts hold.
pub open spec fn calls_given(parts: Seq<JsonView>) -> Seq<HeardCall>
    decreases parts.len(),
{
    if parts.len() == 0 {
        Seq::empty()
    } else {
        calls_given(parts.drop_last()) + call_given(parts.last())
    }
}

/// The parts of answers, one answer behind the other.
pub open spec fn answer_parts(answers: Seq<JsonView>) -> Seq<JsonView>
    decreases answers.len(),
{
    if answers.len() == 0 {
        Seq::empty()
    } else {
        answer_parts(answers.drop_last()) + list_under(answers.last().at("content"@), "parts"@)
    }
}

/// Whether a part has the shape of one.
pub open spec fn part_shaped(json: JsonView) -> bool {
    let inline = json.at("inlineData"@);
    let call = json.at("functionCall"@);
    let result = json.at("functionResponse"@);
    &&& json is Object
    &&& text_or_nothing(json, "text"@)
    &&& inline is Null || inline.at("mimeType"@) is Text && inline.at("data"@) is Text
    &&& call is Null || call.at("name"@) is Text && text_or_nothing(call, "id"@)
    &&& result is Null || result.at("name"@) is Text && result.get("response"@) is Some
        && text_or_nothing(result, "id"@)
}

/// Whether an answer has the shape of one.
pub open spec fn answer_shaped(json: JsonView) -> bool {
    let content = json.at("content"@);
    &&& json is Object
    &&& content is Null || content.at("role"@) is Text && content.at("parts"@) is Array
    &&& forall|i: int|
        0 <= i < list_under(content, "parts"@).len() ==> part_shaped(
            #[trigger] list_under(content, "parts"@)[i],
        )
    &&& text_or_nothing(json, "finishReason"@)
}

/// Whether a value has the shape of a chunk.
pub open spec fn chunk_shaped(json: JsonView) -> bool {
    let usage = json.at("usageMetadata"@);
    &&& json is Object
    &&& json.at("candidates"@) is Null || json.at("candidates"@) is Array
    &&& forall|i: int|
        0 <= i < list_under(json, "candidates"@).len() ==> answer_shaped(
            #[trigger] list_under(json, "candidates"@)[i],
        )
    &&& usage is Null || usage is Object && count_or_nothing(usage, "promptTokenCount"@)
        && count_or_nothing(usage, "candidatesTokenCount"@) && count_or_nothing(
        usage,
        "cachedContentTokenCount"@,
    ) && count_or_nothing(usage, "totalTokenCount"@)
    &&& text_or_nothing(json, "responseId"@)
}

proof fn parts_one_by_one(items: Seq<JsonView>)
    ensures
        match parts_in(items) {
            Some(parts) => parts.len() == items.len() && forall|i: int|
                0 <= i < items.len() ==> part_in(#[trigger] items[i]) == Some(parts[i]),
            None => exists|i: int| 0 <= i < items.len() && part_in(#[trigger] items[i]) is None,
        },
    decreases items.len(),
{
    if items.len() > 0 {
        let init = items.drop_last();
        parts_one_by_one(init);
        match parts_in(items) {
            Some(parts) => {
                assert forall|i: int| 0 <= i < items.len() implies part_in(#[trigger] items[i])
                    == Some(parts[i]) by {
                    if i < init.len() {
                        assert(items[i] == init[i]);
                    }
                }
            },
            None => {
                if parts_in(init) is None {
                    let i = choose|i: int| 0 <= i < init.len() && part_in(#[trigger] init[i]) is None;
                    assert(items[i] == init[i]);
                } else {
                    assert(part_in(items[items.len() - 1]) is None);
                }
            },
        }
    }
}

proof fn candidates_one_by_one(items: Seq<JsonView>)
    ensures
        match candidates_in(items) {
            Some(answers) => answers.len() == items.len() && forall|i: int|
                0 <= i < items.len() ==> candidate_in(#[trigger] items[i]) == Some(answers[i]),
            None => exists|i: int|
                0 <= i < items.len() && candidate_in(#[trigger] items[i]) is None,
        },
    decreases items.len(),
{
    if items.len() > 0 {
        let init = items.drop_last();
        candidates_one_by_one(init);
        match candidates_in(items) {
            Some(answers) => {
                assert forall|i: int| 0 <= i < items.len() implies candidate_in(#[trigger] items[i])
                    == Some(answers[i]) by {
                    if i < init.len() {
                        assert(items[i] == init[i]);
                    }
                }
            },
            None => {
                if candidates_in(init) is None {
                    let i = choose|i: int|
                        0 <= i < init.len() && candidate_in(#[trigger] init[i]) is None;
                    assert(items[i] == init[i]);
                } else {
                    assert(candidate_in(items[items.len() - 1]) is None);
                }
            },
        }
    }
}

proof fn answers_are_decoded(json: JsonView)
    ensures
        candidate_in(json) is Some <==> answer_shaped(json),
        candidate_in(json) matches Some(answer) ==> (match answer.content {
            Some(content) => parts_in(list_under(json.at("content"@), "parts"@)) == Some(
                content.parts,
            ),
            None => list_under(json.at("content"@), "parts"@).len() == 0,
        }) && (match answer.finish_reason {
            Some(reason) => json.at("finishReason"@) == JsonView::Text(reason),
            None => json.at("finishReason"@) is Null,
        }),
{
    let items = list_under(json.at("content"@), "parts"@);
    parts_one_by_one(items);
    match parts_in(items) {
        Some(parts) => {
            assert forall|i: int| 0 <= i < items.len() implies part_shaped(#[trigger] items[i]) by {
                assert(part_in(items[i]) == Some(parts[i]));
            }
        },
        None => {
            let i = choose|i: int| 0 <= i < items.len() && part_in(#[trigger] items[i]) is None;
            assert(!part_shaped(items[i]));
        },
    }
}

/// A value is taken as a chunk exactly where it has the shape of one.
pub proof fn chunks_are_taken_by_their_shape(json: JsonView)
    ensures
        chunk_in(json) is Some <==> chunk_shaped(json),
{
    let items = list_under(json, "candidates"@);
    candidates_one_by_one(items);
    match candidates_in(items) {
        Some(answers) => {
            assert forall|i: int| 0 <= i < items.len() implies answer_shaped(#[trigger] items[i]) by {
                assert(candidate_in(items[i]) == Some(answers[i]));
                answers_are_decoded(items[i]);
            }
        },
        None => {
            let i = choose|i: int| 0 <= i < items.len() && candidate_in(#[trigger] items[i]) is None;
            answers_are_decoded(items[i]);
        },
    }
}

proof fn part_is_told(json: JsonView, part: PartView, channel: Channel, calls: Seq<HeardCall>)
    requires
        part_in(json) == Some(part),
    ensures
        told(part_events(part), channel) == part_given(json, channel),
        heard(calls, part_events(part)) == calls + call_given(json),
        usages(part_events(part)) == Seq::<EventView>::empty(),
        stops(part_events(part)) == Seq::<Option<Seq<char>>>::empty(),
        sessions_told(part_events(part)) == Seq::<Seq<char>>::empty(),
{
    let none = Seq::<EventView>::empty();
    nothing_told(channel);
    let said = match part.text {
        Some(t) => if t.len() == 0 {
            none
        } else {
            none.push(EventView::TextDelta(t))
        },
        None => none,
    };
    match part.text {
        Some(t) => {
            one_more(none, EventView::TextDelta(t), channel);
            one_more_heard(calls, none, EventView::TextDelta(t));
            if t.len() == 0 {
                assert(t =~= Seq::empty());
            }
            assert(Seq::<char>::empty() + t =~= t);
        },
        None => {
            assert(text_under(json, "text"@) =~= Seq::empty());
        },
    }
    assert(Seq::<char>::empty() + Seq::<char>::empty() =~= Seq::<char>::empty());
    assert(heard(calls, said) == calls);
    match part.call {
        Some(call) => {
            call_is_told(json, call, channel, calls);
            both_told(said, call_events(call), channel);
            both_heard(calls, said, call_events(call));
            assert(told(said, channel) + told(call_events(call), channel) =~= part_given(
                json,
                channel,
            ));
        },
        None => {
            assert(calls + call_given(json) =~= calls);
        },
    }
}

proof fn call_is_told(json: JsonView, call: CallView, channel: Channel, calls: Seq<HeardCall>)
    requires
        call_in(json.filled("functionCall"@)) == Some(Some(call)),
    ensures
        told(call_events(call), channel) == if channel is Input {
            arguments_given(json.at("functionCall"@))
        } else {
            Seq::empty()
        },
        heard(calls, call_events(call)) == calls + call_given(json),
        usages(call_events(call)) == Seq::<EventView>::empty(),
        stops(call_events(call)) == Seq::<Option<Seq<char>>>::empty(),
        sessions_told(call_events(call)) == Seq::<Seq<char>>::empty(),
{
    nothing_told(channel);
    let none = Seq::<EventView>::empty();
    let begun = call_events(call)[0];
    let args = printed(call.args);
    one_more(none, begun, channel);
    one_more_heard(calls, none, begun);
    let started = none.push(begun);
    assert(Seq::<char>::empty() + Seq::<char>::empty() =~= Seq::<char>::empty());
    let filled = if args.len() == 0 || args == "null"@ {
        started
    } else {
        one_more(started, EventView::ToolInputDelta(args), channel);
        one_more_heard(calls, started, EventView::ToolInputDelta(args));
        started.push(EventView::ToolInputDelta(args))
    };
    if args.len() == 0 {
        assert(args =~= Seq::empty());
    }
    one_more(filled, EventView::ToolUseEnd, channel);
    one_more_heard(calls, filled, EventView::ToolUseEnd);
    assert(call_events(call) =~= filled.push(EventView::ToolUseEnd));
    assert(Seq::<char>::empty() + args =~= args);
    assert(args + Seq::<char>::empty() =~= args);
    assert(heard(calls, call_events(call)) =~= calls + call_given(json));
}

proof fn parts_are_told(
    items: Seq<JsonView>,
    parts: Seq<PartView>,
    channel: Channel,
    calls: Seq<HeardCall>,
)
    requires
        parts_in(items) == Some(parts),
    ensures
        ({
            let events = parts_events(parts, parts.len());
            &&& told(events, channel) == parts_given(items, channel)
            &&& heard(calls, events) == calls + calls_given(items)
            &&& usages(events) == Seq::<EventView>::empty()
            &&& stops(events) == Seq::<Option<Seq<char>>>::empty()
            &&& sessions_told(events) == Seq::<Seq<char>>::empty()
        }),
    decreases items.len(),
{
    nothing_told(channel);
    if items.len() == 0 {
        assert(calls + calls_given(items) =~= calls);
    } else {
        let init = items.drop_last();
        let fewer = parts_in(init)->Some_0;
        let n = fewer.len();
        parts_are_told(init, fewer, channel, calls);
        assert(parts =~= fewer.push(parts[n as int]));
        first_parts(parts, fewer, n);
        let before = parts_events(fewer, n);
        let more = part_events(parts.last());
        part_is_told(items.last(), parts.last(), channel, calls + calls_given(init));
        both_told(before, more, channel);
        both_heard(calls, before, more);
        assert(calls + calls_given(init) + call_given(items.last()) =~= calls + calls_given(items));
        assert(usages(before + more) =~= Seq::empty());
        assert(stops(before + more) =~= Seq::empty());
        assert(sessions_told(before + more) =~= Seq::empty());
    }
}

proof fn first_parts(parts: Seq<PartView>, fewer: Seq<PartView>, n: nat)
    requires
        n <= fewer.len() <= parts.len(),
        forall|i: int| 0 <= i < n ==> parts[i] == #[trigger] fewer[i],
    ensures
        parts_events(parts, n) == parts_events(fewer, n),
    decreases n,
{
    if n > 0 {
        first_parts(parts, fewer, (n - 1) as nat);
        assert(parts[n - 1] == fewer[n - 1]);
    }
}

proof fn first_candidates(
    p: Progress,
    answers: Seq<CandidateView>,
    fewer: Seq<CandidateView>,
    n: nat,
)
    requires
        n <= fewer.len() <= answers.len(),
        forall|i: int| 0 <= i < n ==> answers[i] == #[trigger] fewer[i],
    ensures
        with_candidates(p, answers, n) == with_candidates(p, fewer, n),
    decreases n,
{
    if n > 0 {
        first_candidates(p, answers, fewer, (n - 1) as nat);
        assert(answers[n - 1] == fewer[n - 1]);
    }
}

proof fn given_in_two(a: Seq<JsonView>, b: Seq<JsonView>, channel: Channel)
    ensures
        parts_given(a + b, channel) == parts_given(a, channel) + parts_given(b, channel),
        calls_given(a + b) == calls_given(a) + calls_given(b),
    decreases b.len(),
{
    if b.len() == 0 {
        assert(a + b =~= a);
        assert(parts_given(a, channel) + parts_given(b, channel) =~= parts_given(a, channel));
        assert(calls_given(a) + calls_given(b) =~= calls_given(a));
    } else {
        given_in_two(a, b.drop_last(), channel);
        assert((a + b).drop_last() =~= a + b.drop_last());
        assert(parts_given(a + b, channel) =~= parts_given(a, channel) + parts_given(b, channel));
        assert(calls_given(a + b) =~= calls_given(a) + calls_given(b));
    }
}

/// The last stop reason that answers give, or else the one before.
pub open spec fn last_reason(before: Option<Seq<char>>, answers: Seq<JsonView>) -> Option<Seq<char>>
    decreases answers.len(),
{
    if answers.len() == 0 {
        before
    } else {
        match answers.last().at("finishReason"@) {
            JsonView::Text(reason) => Some(reason),
            _ => last_reason(before, answers.drop_last()),
        }
    }
}

proof fn candidates_are_told(
    p: Progress,
    items: Seq<JsonView>,
    answers: Seq<CandidateView>,
    channel: Channel,
    calls: Seq<HeardCall>,
)
    requires
        candidates_in(items) == Some(answers),
    ensures
        ({
            let after = with_candidates(p, answers, answers.len());
            let parts = answer_parts(items);
            &&& told(after.events, channel) == told(p.events, channel) + parts_given(parts, channel)
            &&& heard(calls, after.events) == heard(calls, p.events) + calls_given(parts)
            &&& usages(after.events) == usages(p.events)
            &&& stops(after.events) == stops(p.events)
            &&& sessions_told(after.events) == sessions_told(p.events)
            &&& after.state == (AccumView {
                finish_reason: last_reason(p.state.finish_reason, items),
                ..p.state
            })
        }),
    decreases items.len(),
{
    let before = told(p.events, channel);
    if items.len() == 0 {
        assert(before + Seq::<char>::empty() =~= before);
        assert(heard(calls, p.events) + Seq::<HeardCall>::empty() =~= heard(calls, p.events));
    } else {
        let init = items.drop_last();
        let fewer = candidates_in(init)->Some_0;
        let n = fewer.len();
        candidates_are_told(p, init, fewer, channel, calls);
        assert(answers =~= fewer.push(answers[n as int]));
        first_candidates(p, answers, fewer, n);
        let q = with_candidates(p, fewer, n);
        answers_are_decoded(items.last());
        let more = list_under(items.last().at("content"@), "parts"@);
        given_in_two(answer_parts(init), more, channel);
        match answers.last().content {
            Some(content) => {
                let events = parts_events(content.parts, content.parts.len());
                parts_are_told(more, content.parts, channel, heard(calls, q.events));
                both_told(q.events, events, channel);
                both_heard(calls, q.events, events);
                assert(usages(q.events) + Seq::<EventView>::empty() =~= usages(q.events));
                assert(stops(q.events) + Seq::<Option<Seq<char>>>::empty() =~= stops(q.events));
                assert(sessions_told(q.events) + Seq::<Seq<char>>::empty() =~= sessions_told(
                    q.events,
                ));
            },
            None => {
                assert(more =~= Seq::empty());
                assert(answer_parts(init) + more =~= answer_parts(init));
            },
        }
        assert(told(with_candidates(p, answers, answers.len()).events, channel) =~= before
            + parts_given(answer_parts(items), channel));
        assert(heard(calls, with_candidates(p, answers, answers.len()).events) =~= heard(
            calls,
            p.events,
        ) + calls_given(answer_parts(items)));
    }
}

/// A chunk tells what its answers say: their texts as text, and each call whole, with its
/// id, its name and its arguments. It tells its session where none was told before, it
/// reports the counts that it holds, once, and the message ends with the last stop reason
/// that was given.
pub proof fn chunks_tell_what_they_are_given(
    state: AccumView,
    json: JsonView,
    chunk: ChunkView,
    channel: Channel,
    calls: Seq<HeardCall>,
)
    requires
        chunk_in(json) == Some(chunk),
    ensures
        ({
            let p = with_chunk(state, chunk);
            let answers = list_under(json, "candidates"@);
            let parts = answer_parts(answers);
            let usage = json.at("usageMetadata"@);
            let ends = p.state.saw_message_end && !state.saw_message_end;
            &&& told(p.events, channel) == parts_given(parts, channel)
            &&& heard(calls, p.events) == calls + calls_given(parts)
            &&& sessions_told(p.events) == match json.at("responseId"@) {
                JsonView::Text(id) if !state.emitted_session_id => seq![id],
                _ => Seq::<Seq<char>>::empty(),
            }
            &&& usages(p.events) == if usage is Null {
                Seq::<EventView>::empty()
            } else {
                seq![
                    EventView::TokenUsage {
                        input_tokens: usage.at("promptTokenCount"@).unsigned(),
                        output_tokens: usage.at("candidatesTokenCount"@).unsigned(),
                        cache_read_input_tokens: usage.at("cachedContentTokenCount"@).unsigned(),
                        cache_creation_input_tokens: None,
                    },
                ]
            }
            &&& p.state.finish_reason == last_reason(state.finish_reason, answers)
            &&& ends <==> !state.saw_message_end && p.state.finish_reason is Some
            &&& stops(p.events) == if ends {
                seq![p.state.finish_reason]
            } else {
                Seq::<Option<Seq<char>>>::empty()
            }
        }),
{
    nothing_told(channel);
    let none = Seq::<EventView>::empty();
    let items = list_under(json, "candidates"@);
    let parts = answer_parts(items);
    let begun = with_session(state, chunk.response_id);
    match chunk.response_id {
        Some(id) => {
            one_more(none, EventView::SessionId(id), channel);
            one_more_heard(calls, none, EventView::SessionId(id));
            assert(Seq::<Seq<char>>::empty().push(id) =~= seq![id]);
        },
        None => {},
    }
    assert(Seq::<char>::empty() + Seq::<char>::empty() =~= Seq::<char>::empty());
    assert(told(begun.events, channel) =~= Seq::empty());
    let said = match chunk.candidates {
        Some(answers) => {
            candidates_are_told(begun, items, answers, channel, calls);
            with_candidates(begun, answers, answers.len())
        },
        None => {
            assert(items =~= Seq::empty());
            assert(parts =~= Seq::empty());
            assert(calls + calls_given(parts) =~= calls);
            begun
        },
    };
    assert(told(said.events, channel) =~= parts_given(parts, channel));
    assert(told(said.events, channel) + Seq::<char>::empty() =~= told(said.events, channel));
    let counted = match chunk.usage {
        Some(usage) => {
            let event = usage_view(usage);
            one_more(said.events, event, channel);
            one_more_heard(calls, said.events, event);
            assert(Seq::<EventView>::empty().push(event) =~= seq![event]);
            Progress { events: said.events.push(event), ..said }
        },
        None => said,
    };
    let end = EventView::MessageEnd { stop_reason: counted.state.finish_reason };
    one_more(counted.events, end, channel);
    one_more_heard(calls, counted.events, end);
    assert(Seq::<Option<Seq<char>>>::empty().push(counted.state.finish_reason) =~= seq![
        counted.state.finish_reason,
    ]);
}

/// What came on a stream, with the data as it was read.
pub type Arrival = (InputView, Result<JsonView, Seq<char>>);

/// The chunk that an arrival brings.
pub open spec fn chunk_brought(arrival: Arrival) -> Option<JsonView> {
    match arrival {
        (InputView::Event { data, .. }, Ok(json)) => if data.len() > 0 && chunk_shaped(json) {
            Some(json)
        } else {
            None
        },
        _ => None,
    }
}

/// The parts that arrivals bring, one behind the other.
pub open spec fn parts_brought(arrivals: Seq<Arrival>) -> Seq<JsonView>
    decreases arrivals.len(),
{
    if arrivals.len() == 0 {
        Seq::empty()
    } else {
        parts_brought(arrivals.drop_last()) + match chunk_brought(arrivals.last()) {
            Some(json) => answer_parts(list_under(json, "candidates"@)),
            None => Seq::empty(),
        }
    }
}

/// What comes of an arrival: a chunk is absorbed, the end flushes, empty data passes, and
/// anything else ends the completion without an event.
pub proof fn arrivals_are_told_apart(state: AccumView, arrival: Arrival)
    ensures
        ({
            let (after, step) = stream_step(state, arrival.0, arrival.1);
            let flushed = with_flush(state);
            let empty = match arrival.0 {
                InputView::Event { data, .. } => data.len() == 0,
                _ => false,
            };
            match chunk_brought(arrival) {
                Some(json) => step matches Some(step) && !step.over && step.error is None && match
                chunk_in(json) {
                    Some(chunk) => step.events == with_chunk(state, chunk).events && after
                        == with_chunk(state, chunk).state,
                    None => false,
                },
                None => if arrival.0 is Ended {
                    step matches Some(step) && step.over && step.error is None && step.events
                        == flushed.events && after == flushed.state
                } else if empty {
                    step matches Some(step) && !step.over && step.error is None
                        && step.events.len() == 0 && after == state
                } else {
                    after == state && (step matches Some(step) ==> step.over && step.error is Some
                        && step.events.len() == 0)
                },
            }
        }),
{
    match arrival.1 {
        Ok(json) => {
            chunks_are_taken_by_their_shape(json);
        },
        Err(_) => {},
    }
}

/// Whatever arrives on a stream, what is told on each channel is what its parts say, piece
/// by piece, and the calls that are heard are those that its parts hold, each of them whole.
pub proof fn streams_tell_what_they_are_given(arrivals: Seq<Arrival>, channel: Channel)
    ensures
        told(stream_run(arrivals).events, channel) == parts_given(
            parts_brought(arrivals),
            channel,
        ),
        heard(Seq::empty(), stream_run(arrivals).events) == calls_given(parts_brought(arrivals)),
    decreases arrivals.len(),
{
    nothing_told(channel);
    if arrivals.len() > 0 {
        let init = arrivals.drop_last();
        let before = stream_run(init);
        let (after, step) = stream_step(before.state, arrivals.last().0, arrivals.last().1);
        let so_far = parts_brought(init);
        let none = Seq::<EventView>::empty();
        streams_tell_what_they_are_given(init, channel);
        arrivals_are_told_apart(before.state, arrivals.last());
        let end = EventView::MessageEnd { stop_reason: before.state.finish_reason };
        one_more(none, end, channel);
        one_more_heard(calls_given(so_far), none, end);
        assert(Seq::<char>::empty() + Seq::<char>::empty() =~= Seq::<char>::empty());
        assert(so_far + Seq::<JsonView>::empty() =~= so_far);
        assert(told(before.events, channel) + Seq::<char>::empty() =~= told(before.events, channel));
        match step {
            Some(step) => {
                both_told(before.events, step.events, channel);
                both_heard(Seq::empty(), before.events, step.events);
                if step.events.len() == 0 {
                    assert(step.events =~= none);
                }
            },
            None => {},
        }
        match chunk_brought(arrivals.last()) {
            Some(json) => {
                let more = answer_parts(list_under(json, "candidates"@));
                chunks_tell_what_they_are_given(
                    before.state,
                    json,
                    chunk_in(json)->Some_0,
                    channel,
                    calls_given(so_far),
                );
                given_in_two(so_far, more, channel);
            },
            None => {},
        }
    }
}

proof fn keys_differ()
    ensures
        "text"@ != "functionCall"@,
        "text"@ != "functionResponse"@,
        "text"@ != "inlineData"@,
        "functionCall"@ != "functionResponse"@,
        "functionCall"@ != "inlineData"@,
        "functionResponse"@ != "inlineData"@,
        "name"@ != "args"@,
        "name"@ != "id"@,
        "args"@ != "id"@,
        "name"@ != "response"@,
        "response"@ != "id"@,
        "content"@ != "error"@,
        "mimeType"@ != "data"@,
        "role"@ != "parts"@,
        "name"@ != "description"@,
        "name"@ != "parameters"@,
        "description"@ != "parameters"@,
        "contents"@ != "generationConfig"@,
        "contents"@ != "systemInstruction"@,
        "contents"@ != "tools"@,
        "generationConfig"@ != "systemInstruction"@,
        "generationConfig"@ != "tools"@,
        "systemInstruction"@ != "tools"@,
        "maxOutputTokens"@ != "thinkingConfig"@,
{
    reveal_strlit("text");
    reveal_strlit("functionCall");
    reveal_strlit("functionResponse");
    reveal_strlit("inlineData");
    reveal_strlit("name");
    reveal_strlit("args");
    reveal_strlit("id");
    reveal_strlit("response");
    reveal_strlit("content");
    reveal_strlit("error");
    reveal_strlit("mimeType");
    reveal_strlit("data");
    reveal_strlit("role");
    reveal_strlit("parts");
    reveal_strlit("description");
    reveal_strlit("parameters");
    reveal_strlit("contents");
    reveal_strlit("generationConfig");
    reveal_strlit("systemInstruction");
    reveal_strlit("tools");
    reveal_strlit("maxOutputTokens");
    reveal_strlit("thinkingConfig");
    assert("text"@.len() == 4 && "functionCall"@.len() == 12 && "functionResponse"@.len() == 16);
    assert("inlineData"@.len() == 10 && "name"@.len() == 4 && "args"@.len() == 4);
    assert("name"@[0] == 'n' && "args"@[0] == 'a' && "id"@.len() == 2 && "response"@.len() == 8);
    assert("content"@.len() == 7 && "error"@.len() == 5 && "mimeType"@.len() == 8);
    assert("data"@.len() == 4 && "role"@.len() == 4 && "parts"@.len() == 5);
    assert("description"@.len() == 11 && "parameters"@.len() == 10 && "contents"@.len() == 8);
    assert("generationConfig"@.len() == 16 && "systemInstruction"@.len() == 17);
    assert("tools"@.len() == 5 && "maxOutputTokens"@.len() == 15 && "thinkingConfig"@.len() == 14);
}

/// What a part of a payload says, by the one entry it has.
pub open spec fn part_read(json: JsonView) -> Option<Reading> {
    let call = json.at("functionCall"@);
    let answer = json.at("functionResponse"@);
    let image = json.at("inlineData"@);
    if json.at("text"@) is Text {
        Some(Reading::Text(text_under(json, "text"@)))
    } else if call is Object {
        Some(
            Reading::Call {
                id: text_under(call, "id"@),
                name: text_under(call, "name"@),
                input: call.at("args"@),
            },
        )
    } else if answer is Object && answer.at("name"@) == answer.at("id"@) {
        Some(
            Reading::Answer {
                id: text_under(answer, "id"@),
                content: text_under(answer.at("response"@), "content"@),
                failed: answer.at("response"@).at("error"@) == JsonView::Bool(true),
            },
        )
    } else if image is Object {
        Some(
            Reading::Image {
                media_type: text_under(image, "mimeType"@),
                data: text_under(image, "data"@),
            },
        )
    } else {
        None
    }
}

/// What parts of a payload say, in their order.
pub open spec fn parts_read(items: Seq<JsonView>) -> Seq<Reading>
    decreases items.len(),
{
    if items.len() == 0 {
        Seq::empty()
    } else {
        match part_read(items.last()) {
            Some(reading) => parts_read(items.drop_last()).push(reading),
            None => parts_read(items.drop_last()),
        }
    }
}

/// The turns of a payload's messages.
pub open spec fn turns_read(items: Seq<JsonView>) -> Seq<Turn>
    decreases items.len(),
{
    if items.len() == 0 {
        Seq::empty()
    } else {
        turns_read(items.drop_last()).push(
            Turn {
                speaker: text_under(items.last(), "role"@),
                said: parts_read(list_under(items.last(), "parts"@)),
            },
        )
    }
}

/// A part says what its block says, and there is none where that says nothing.
pub proof fn blocks_are_put_faithfully(block: ContentBlock)
    ensures
        match block_part(block) {
            Some(json) => part_read(json) == meaning(block) && meaning(block) is Some,
            None => meaning(block) is None,
        },
{
    broadcast use entry_push;

    keys_differ();
}

proof fn contents_are_put_faithfully(blocks: Seq<ContentBlock>)
    ensures
        parts_read(sent_parts(blocks)) == meanings(blocks),
        sent_parts(blocks).len() == meanings(blocks).len(),
    decreases blocks.len(),
{
    if blocks.len() > 0 {
        contents_are_put_faithfully(blocks.drop_last());
        blocks_are_put_faithfully(blocks.last());
        match block_part(blocks.last()) {
            Some(json) => {
                let before = sent_parts(blocks.drop_last());
                assert(before.push(json).drop_last() =~= before);
            },
            None => {},
        }
    }
}

/// A conversation is sent faithfully: the messages of the payload are the turns in which
/// anything is said, in their order, each by its speaker and with all that is said.
pub proof fn conversations_are_put_faithfully(messages: Seq<Message>)
    ensures
        turns_read(sent_messages(messages)) == turns(messages, "model"@),
    decreases messages.len(),
{
    broadcast use entry_push;

    keys_differ();
    if messages.len() > 0 {
        let init = messages.drop_last();
        conversations_are_put_faithfully(init);
        contents_are_put_faithfully(messages.last().content@);
        match message_payload(messages.last()) {
            Some(json) => {
                let before = sent_messages(init);
                assert(before.push(json).drop_last() =~= before);
            },
            None => {},
        }
    }
}

/// A request asks for what it is given: the conversation, the limit, the system prompt where
/// there is one, each tool with its name, its description and its schema, and the budget for
/// thinking where there is one.
pub proof fn requests_ask_for_what_is_given(
    cfg: GeminiConfig,
    messages: Seq<Message>,
    tools: Seq<ToolDefinition>,
    system: Seq<char>,
)
    ensures
        ({
            let p = request_payload(cfg, messages, tools, system);
            let limits = p.at("generationConfig"@);
            let sets = list_under(p, "tools"@);
            let prompt = p.at("systemInstruction"@);
            &&& p.at("contents"@) is Array
            &&& turns_read(list_under(p, "contents"@)) == turns(messages, "model"@)
            &&& limits.at("maxOutputTokens"@).unsigned() == Some(cfg.max_output_tokens as u64)
            &&& match cfg.thinking_budget_tokens {
                Some(budget) => limits.at("thinkingConfig"@).at("thinkingBudget"@).unsigned()
                    == Some(budget as u64),
                None => limits.get("thinkingConfig"@) is None,
            }
            &&& trim(system).len() == 0 ==> p.get("systemInstruction"@) is None
            &&& trim(system).len() > 0 ==> parts_read(list_under(prompt, "parts"@)) == seq![
                Reading::Text(system),
            ]
            &&& tools.len() == 0 ==> p.get("tools"@) is None
            &&& tools.len() > 0 ==> sets.len() == 1 && {
                let sent = list_under(sets[0], "functionDeclarations"@);
                &&& sent.len() == tools.len()
                &&& forall|i: int|
                    0 <= i < tools.len() ==> text_under(#[trigger] sent[i], "name"@)
                        == tools[i].name@ && text_under(sent[i], "description"@)
                        == tools[i].description@ && sent[i].at("parameters"@)
                        == tools[i].input_schema.deep_view()
            }
        }),
{
    broadcast use entry_push;

    keys_differ();
    conversations_are_put_faithfully(messages);
    let p = request_payload(cfg, messages, tools, system);
    if trim(system).len() > 0 {
        let parts = list_under(p.at("systemInstruction"@), "parts"@);
        assert(parts.drop_last() =~= Seq::empty());
        assert(parts_read(parts.drop_last()) =~= Seq::empty());
        assert(parts_read(parts) =~= seq![Reading::Text(system)]);
    }
    if tools.len() > 0 {
        let sent = list_under(list_under(p, "tools"@)[0], "functionDeclarations"@);
        assert forall|i: int| 0 <= i < tools.len() implies text_under(#[trigger] sent[i], "name"@)
            == tools[i].name@ && text_under(sent[i], "description"@) == tools[i].description@
            && sent[i].at("parameters"@) == tools[i].input_schema.deep_view() by {
            assert(sent[i] == tool_payload(tools[i]));
        }
    }
}

/// A slash more or less at the end of the base address makes no difference, and the version,
/// the model and the key stand behind it.
pub proof fn endpoints_stand_behind_the_base(cfg: GeminiConfig, other: GeminiConfig)
    requires
        other.base_url@ == cfg.base_url@.push('/'),
        other.api_version@ == cfg.api_version@,
        other.model@ == cfg.model@,
        other.api_key@ == cfg.api_key@,
    ensures
        stream_endpoint(other) == stream_endpoint(cfg),
        cfg.base_url@.len() > 0 && cfg.base_url@.last() != '/' ==> stream_endpoint(cfg)
            == cfg.base_url@ + "/"@ + cfg.api_version@ + "/models/"@ + cfg.model@
            + ":streamGenerateContent?alt=sse&key="@ + cfg.api_key@,
{
    assert(other.base_url@.drop_last() =~= cfg.base_url@);
}

/// What an event brings is what its data reads as.
pub proof fn events_bring_their_data(event: Seq<char>, data: Seq<char>)
    ensures
        data_read(InputView::Event { event, data }) == json_read(data),
{
}

} // verus!
