//! What a listener makes of the events of a streamed completion.
use vstd::prelude::*;

use crate::message::EventView;

verus! {

/// What a piece of a stream is said as.
pub ghost enum Channel {
    Text,
    Thinking,
    Input,
}

/// What an event says on a channel.
pub open spec fn piece(event: EventView, channel: Channel) -> Seq<char> {
    match (event, channel) {
        (EventView::TextDelta(t), Channel::Text) => t,
        (EventView::ThinkingDelta(t), Channel::Thinking) => t,
        (EventView::ToolInputDelta(t), Channel::Input) => t,
        _ => Seq::empty(),
    }
}

/// What events say on a channel, put together.
pub open spec fn told(events: Seq<EventView>, channel: Channel) -> Seq<char>
    decreases events.len(),
{
    if events.len() == 0 {
        Seq::empty()
    } else {
        told(events.drop_last(), channel) + piece(events.last(), channel)
    }
}

/// A tool call as a listener has it.
pub ghost struct HeardCall {
    pub id: Seq<char>,
    pub name: Seq<char>,
    pub input: Seq<char>,
    pub ended: bool,
}

/// The calls with an event taken in: a start begins a call, input is for the last one that
/// was begun, and so is an end.
pub open spec fn hear(calls: Seq<HeardCall>, event: EventView) -> Seq<HeardCall> {
    match event {
        EventView::ToolUseStart { id, name } => calls.push(
            HeardCall { id, name, input: Seq::empty(), ended: false },
        ),
        EventView::ToolInputDelta(t) => fed(calls, t),
        EventView::ToolUseEnd => ended(calls),
        _ => calls,
    }
}

/// The calls with events taken in.
pub open spec fn heard(calls: Seq<HeardCall>, events: Seq<EventView>) -> Seq<HeardCall>
    decreases events.len(),
{
    if events.len() == 0 {
        calls
    } else {
        hear(heard(calls, events.drop_last()), events.last())
    }
}

/// The calls with more input for the last of them.
pub open spec fn fed(calls: Seq<HeardCall>, input: Seq<char>) -> Seq<HeardCall> {
    if calls.len() == 0 {
        calls
    } else {
        calls.drop_last().push(HeardCall { input: calls.last().input + input, ..calls.last() })
    }
}

/// The calls with the last of them ended.
pub open spec fn ended(calls: Seq<HeardCall>) -> Seq<HeardCall> {
    if calls.len() == 0 {
        calls
    } else {
        calls.drop_last().push(HeardCall { ended: true, ..calls.last() })
    }
}

/// The reports of token counts among events.
pub open spec fn usages(events: Seq<EventView>) -> Seq<EventView>
    decreases events.len(),
{
    if events.len() == 0 {
        Seq::empty()
    } else if events.last() is TokenUsage {
        usages(events.drop_last()).push(events.last())
    } else {
        usages(events.drop_last())
    }
}

/// The stop reasons with which events end a message.
pub open spec fn stops(events: Seq<EventView>) -> Seq<Option<Seq<char>>>
    decreases events.len(),
{
    if events.len() == 0 {
        Seq::empty()
    } else {
        match events.last() {
            EventView::MessageEnd { stop_reason } => stops(events.drop_last()).push(stop_reason),
            _ => stops(events.drop_last()),
        }
    }
}

/// The sessions that events tell.
pub open spec fn sessions_told(events: Seq<EventView>) -> Seq<Seq<char>>
    decreases events.len(),
{
    if events.len() == 0 {
        Seq::empty()
    } else {
        match events.last() {
            EventView::SessionId(id) => sessions_told(events.drop_last()).push(id),
            _ => sessions_told(events.drop_last()),
        }
    }
}

/// The errors that events tell.
pub open spec fn errors_told(events: Seq<EventView>) -> Seq<Seq<char>>
    decreases events.len(),
{
    if events.len() == 0 {
        Seq::empty()
    } else {
        match events.last() {
            EventView::Error { message, .. } => errors_told(events.drop_last()).push(message),
            _ => errors_told(events.drop_last()),
        }
    }
}

/// What is made of an event behind others.
pub proof fn one_more(events: Seq<EventView>, event: EventView, channel: Channel)
    ensures
        told(events.push(event), channel) == told(events, channel) + piece(event, channel),
        usages(events.push(event)) == if event is TokenUsage {
            usages(events).push(event)
        } else {
            usages(events)
        },
        stops(events.push(event)) == match event {
            EventView::MessageEnd { stop_reason } => stops(events).push(stop_reason),
            _ => stops(events),
        },
        sessions_told(events.push(event)) == match event {
            EventView::SessionId(id) => sessions_told(events).push(id),
            _ => sessions_told(events),
        },
        errors_told(events.push(event)) == match event {
            EventView::Error { message, .. } => errors_told(events).push(message),
            _ => errors_told(events),
        },
{
    assert(events.push(event).drop_last() =~= events);
}

/// What is made of a call's event behind others.
pub proof fn one_more_heard(calls: Seq<HeardCall>, events: Seq<EventView>, event: EventView)
    ensures
        heard(calls, events.push(event)) == hear(heard(calls, events), event),
{
    assert(events.push(event).drop_last() =~= events);
}

/// What is made of no events.
pub proof fn nothing_told(channel: Channel)
    ensures
        told(Seq::empty(), channel) == Seq::<char>::empty(),
        usages(Seq::empty()) == Seq::<EventView>::empty(),
        stops(Seq::empty()) == Seq::<Option<Seq<char>>>::empty(),
        sessions_told(Seq::empty()) == Seq::<Seq<char>>::empty(),
        errors_told(Seq::empty()) == Seq::<Seq<char>>::empty(),
{
}

/// What is made of events and of more of them.
pub proof fn both_told(a: Seq<EventView>, b: Seq<EventView>, channel: Channel)
    ensures
        told(a + b, channel) == told(a, channel) + told(b, channel),
        usages(a + b) == usages(a) + usages(b),
        stops(a + b) == stops(a) + stops(b),
        sessions_told(a + b) == sessions_told(a) + sessions_told(b),
        errors_told(a + b) == errors_told(a) + errors_told(b),
    decreases b.len(),
{
    if b.len() == 0 {
        assert(a + b =~= a);
        assert(told(a, channel) + told(b, channel) =~= told(a, channel));
        assert(usages(a) + usages(b) =~= usages(a));
        assert(stops(a) + stops(b) =~= stops(a));
        assert(sessions_told(a) + sessions_told(b) =~= sessions_told(a));
        assert(errors_told(a) + errors_told(b) =~= errors_told(a));
    } else {
        let init = b.drop_last();
        both_told(a, init, channel);
        assert((a + b).drop_last() =~= a + init);
        assert(told(a + b, channel) =~= told(a, channel) + told(b, channel));
        assert(usages(a + b) =~= usages(a) + usages(b));
        assert(stops(a + b) =~= stops(a) + stops(b));
        assert(sessions_told(a + b) =~= sessions_told(a) + sessions_told(b));
        assert(errors_told(a + b) =~= errors_told(a) + errors_told(b));
    }
}

/// The calls that are made of events and of more of them.
pub proof fn both_heard(calls: Seq<HeardCall>, a: Seq<EventView>, b: Seq<EventView>)
    ensures
        heard(calls, a + b) == heard(heard(calls, a), b),
    decreases b.len(),
{
    if b.len() == 0 {
        assert(a + b =~= a);
    } else {
        both_heard(calls, a, b.drop_last());
        assert((a + b).drop_last() =~= a + b.drop_last());
    }
}

} // verus!
