//! Accumulates a streamed Mistral completion line by line.
use vstd::prelude::*;

use crate::json::{Json, JsonView, json_read, printed};
use crate::provider::mistral::response::{
    arguments_read, call_blocks, count_content, counted, join_thinking, make_call_block,
    make_thinking_block, map_stop_reason, read_or_empty, split_think, stop_reason, text_block,
    thinking_block, chunk_thinking, visible_part,
};
use crate::provider::think_filter::{
    ActionView, FilterAction, FilterView, Scan, StreamingThinkFilter, emitted, held_back,
    initial_filter, run,
};
use crate::provider::types::{
    BlockView, CallView, CompletionResponse, ContentBlock, EventView, ProviderError,
    ProviderErrorView, ResponseView, StreamEvent, TokenUsage, ToolCall, no_usage,
};
use crate::text::{
    begins, find, lossy_text, lossy_utf8, position, push_to, same, starts_with, strip_prefix,
    trim_end, trim_start, trimmed_end, trimmed_start,
};

verus! {

/// A tool call under construction: its id, its name and its arguments so far.
pub ghost struct CallDraft {
    pub id: Seq<char>,
    pub name: Seq<char>,
    pub arguments: Seq<char>,
}

/// The model of an accumulator.
pub ghost struct AccumView {
    pub text: Seq<char>,
    pub thinking: Seq<char>,
    pub filter: FilterView,
    pub drafts: Seq<CallDraft>,
    pub finish_reason: Option<Seq<char>>,
    pub usage: TokenUsage,
    pub events: Seq<EventView>,
}

/// An accumulator that has seen nothing.
pub open spec fn fresh() -> AccumView {
    AccumView {
        text: Seq::empty(),
        thinking: Seq::empty(),
        filter: initial_filter(),
        drafts: Seq::empty(),
        finish_reason: None,
        usage: no_usage(),
        events: Seq::empty(),
    }
}

/// The events that the filter's actions become.
pub open spec fn action_events(actions: Seq<ActionView>) -> Seq<EventView> {
    actions.map_values(
        |action: ActionView|
            match action {
                ActionView::Text(t) => EventView::TextDelta { text: t },
                ActionView::Thinking(t) => EventView::ThinkingDelta { text: t },
            },
    )
}

/// The accumulator with the filter's actions carried out.
pub open spec fn with_actions(a: AccumView, actions: Seq<ActionView>) -> AccumView {
    AccumView {
        thinking: a.thinking + emitted(actions, true),
        events: a.events + action_events(actions),
        ..a
    }
}

/// The accumulator after a delta of plain text, which goes through the filter.
pub open spec fn with_plain_text(a: AccumView, text: Seq<char>) -> AccumView {
    let scan = run(Scan { filter: a.filter, actions: Seq::empty() }, text);
    with_actions(AccumView { text: a.text + text, filter: scan.filter, ..a }, scan.actions)
}

/// The accumulator after one chunk of a delta that comes as an array.
pub open spec fn with_part(a: AccumView, part: JsonView) -> AccumView {
    let kind = part.at("type"@).text();
    if kind == Some("text"@) {
        match part.at("text"@).text() {
            Some(t) => if t.len() == 0 {
                a
            } else {
                AccumView {
                    text: a.text + t,
                    events: a.events.push(EventView::TextDelta { text: t }),
                    ..a
                }
            },
            None => a,
        }
    } else if kind == Some("thinking"@) && chunk_thinking(part).len() > 0 {
        AccumView {
            thinking: a.thinking + chunk_thinking(part),
            events: a.events.push(EventView::ThinkingDelta { text: chunk_thinking(part) }),
            ..a
        }
    } else {
        a
    }
}

/// The accumulator after the first `n` chunks.
pub open spec fn with_parts(a: AccumView, parts: Seq<JsonView>, n: nat) -> AccumView
    decreases n,
{
    if n == 0 {
        a
    } else {
        with_part(with_parts(a, parts, (n - 1) as nat), parts[n - 1])
    }
}

/// The accumulator after a delta's content.
pub open spec fn with_content(a: AccumView, content: JsonView) -> AccumView {
    match content {
        JsonView::Text(t) => if t.len() == 0 {
            a
        } else {
            with_plain_text(a, t)
        },
        JsonView::Array(parts) => with_parts(a, parts, parts.len()),
        _ => a,
    }
}

/// A draft of which nothing is known.
pub open spec fn blank() -> CallDraft {
    CallDraft { id: Seq::empty(), name: Seq::empty(), arguments: Seq::empty() }
}

/// The drafts, filled up with blank ones to at least `n`.
pub open spec fn filled(drafts: Seq<CallDraft>, n: nat) -> Seq<CallDraft> {
    if drafts.len() >= n {
        drafts
    } else {
        drafts + Seq::new((n - drafts.len()) as nat, |i: int| blank())
    }
}

/// The index that a tool call delta is for.
pub open spec fn call_index(call: JsonView) -> nat {
    match call.at("index"@).unsigned() {
        Some(n) => (n as usize) as nat,
        None => 0,
    }
}

/// The accumulator with the arguments of a call's delta added: text is appended, an
/// object replaces what was there.
pub open spec fn with_arguments(a: AccumView, index: int, arguments: JsonView) -> AccumView {
    let draft = a.drafts[index];
    match arguments {
        JsonView::Text(t) => AccumView {
            drafts: a.drafts.update(
                index,
                CallDraft { arguments: draft.arguments + t, ..draft },
            ),
            events: if t.len() == 0 {
                a.events
            } else {
                a.events.push(EventView::ToolInputDelta { text: t })
            },
            ..a
        },
        JsonView::Object(_) => AccumView {
            drafts: a.drafts.update(index, CallDraft { arguments: printed(arguments), ..draft }),
            events: a.events.push(EventView::ToolInputDelta { text: printed(arguments) }),
            ..a
        },
        _ => a,
    }
}

/// The accumulator with the function of a call's delta taken in.
pub open spec fn with_function(a: AccumView, index: int, function: JsonView) -> AccumView {
    let named = match function.at("name"@).text() {
        Some(name) => AccumView {
            drafts: a.drafts.update(index, CallDraft { name, ..a.drafts[index] }),
            events: a.events.push(EventView::ToolUseStart { id: a.drafts[index].id, name }),
            ..a
        },
        None => a,
    };
    with_arguments(named, index, function.at("arguments"@))
}

/// The accumulator after one tool call's delta.
pub open spec fn with_call(a: AccumView, call: JsonView) -> AccumView {
    let index = call_index(call) as int;
    let grown = AccumView { drafts: filled(a.drafts, (index + 1) as nat), ..a };
    let with_id = match call.at("id"@).text() {
        Some(id) => if id.len() == 0 {
            grown
        } else {
            AccumView {
                drafts: grown.drafts.update(index, CallDraft { id, ..grown.drafts[index] }),
                ..grown
            }
        },
        None => grown,
    };
    match call.get("function"@) {
        Some(function) => with_function(with_id, index, function),
        None => with_id,
    }
}

/// The accumulator after the first `n` tool call deltas.
pub open spec fn with_calls(a: AccumView, calls: Seq<JsonView>, n: nat) -> AccumView
    decreases n,
{
    if n == 0 {
        a
    } else {
        with_call(with_calls(a, calls, (n - 1) as nat), calls[n - 1])
    }
}

/// The accumulator after one choice of a chunk.
pub open spec fn with_choice(a: AccumView, choice: JsonView) -> AccumView {
    let delta = choice.at("delta"@);
    let said = with_content(a, delta.at("content"@));
    let called = match delta.at("tool_calls"@).items() {
        Some(calls) => with_calls(said, calls, calls.len()),
        None => said,
    };
    match choice.at("finish_reason"@).text() {
        Some(reason) => AccumView { finish_reason: Some(reason), ..called },
        None => called,
    }
}

/// The accumulator after the first `n` choices.
pub open spec fn with_choices(a: AccumView, choices: Seq<JsonView>, n: nat) -> AccumView
    decreases n,
{
    if n == 0 {
        a
    } else {
        with_choice(with_choices(a, choices, (n - 1) as nat), choices[n - 1])
    }
}

/// The usage with the counts that a chunk reports.
pub open spec fn with_usage(usage: TokenUsage, report: JsonView) -> TokenUsage {
    TokenUsage {
        input_tokens: match report.at("prompt_tokens"@).unsigned() {
            Some(n) => n,
            None => usage.input_tokens,
        },
        output_tokens: match report.at("completion_tokens"@).unsigned() {
            Some(n) => n,
            None => usage.output_tokens,
        },
        cache_read_tokens: match report.at("prompt_tokens_details"@).at(
            "cached_tokens"@,
        ).unsigned() {
            Some(n) => n,
            None => usage.cache_read_tokens,
        },
        cache_write_tokens: usage.cache_write_tokens,
    }
}

/// Whether a chunk reports an error in place of content.
pub open spec fn is_error_chunk(chunk: JsonView) -> bool {
    chunk.at("object"@).text() == Some("error"@) || chunk.get("error"@) is Some
}

/// The accumulator after a chunk that reports no error.
pub open spec fn with_stream_chunk(a: AccumView, chunk: JsonView) -> AccumView {
    let counted = match chunk.get("usage"@) {
        Some(report) => AccumView { usage: with_usage(a.usage, report), ..a },
        None => a,
    };
    match chunk.at("choices"@).items() {
        Some(choices) => with_choices(counted, choices, choices.len()),
        None => counted,
    }
}

/// What a line is about.
pub ghost enum LineView {
    /// A blank line, a comment, or a field other than `data`.
    Skipped,
    /// The end of the stream.
    Done,
    /// Data to be read as JSON.
    Data(Seq<char>),
}

/// What a line is about.
pub open spec fn line_view(line: Seq<char>) -> LineView {
    let line = trim_end(line);
    if line.len() == 0 || starts_with(line, ":"@) || !starts_with(line, "data:"@) {
        LineView::Skipped
    } else {
        let data = trim_start(line.skip("data:"@.len() as int));
        if data == "[DONE]"@ {
            LineView::Done
        } else {
            LineView::Data(data)
        }
    }
}

/// What came of a line: whether the stream is over, or the error it reports, and the
/// accumulator after it.
pub ghost struct LineOutcome {
    pub result: Result<bool, ProviderErrorView>,
    pub after: AccumView,
}

/// What comes of data that was read as JSON.
pub open spec fn data_outcome(
    a: AccumView,
    data: Seq<char>,
    read: Result<JsonView, Seq<char>>,
) -> LineOutcome {
    match read {
        Ok(chunk) => if is_error_chunk(chunk) {
            LineOutcome {
                result: Err(ProviderErrorView::Api { status: 200, message: data }),
                after: a,
            }
        } else {
            LineOutcome { result: Ok(false), after: with_stream_chunk(a, chunk) }
        },
        Err(_) => LineOutcome { result: Ok(false), after: a },
    }
}

/// What comes of a line.
pub open spec fn line_outcome(a: AccumView, line: Seq<char>) -> LineOutcome {
    match line_view(line) {
        LineView::Skipped => LineOutcome { result: Ok(false), after: a },
        LineView::Done => LineOutcome { result: Ok(true), after: a },
        LineView::Data(data) => data_outcome(a, data, json_read(data)),
    }
}

/// A tool call under construction.
#[derive(Debug)]
pub struct ToolDraft {
    id: String,
    name: String,
    arguments: String,
}

impl DeepView for ToolDraft {
    type V = CallDraft;

    closed spec fn deep_view(&self) -> CallDraft {
        CallDraft { id: self.id@, name: self.name@, arguments: self.arguments@ }
    }
}

/// Puts a streamed completion together.
#[derive(Debug)]
pub struct StreamAccumulator {
    text_content: String,
    thinking_content: String,
    think_filter: StreamingThinkFilter,
    tool_accum: Vec<ToolDraft>,
    finish_reason: Option<String>,
    usage: TokenUsage,
    events: Vec<StreamEvent>,
}

impl View for StreamAccumulator {
    type V = AccumView;

    closed spec fn view(&self) -> AccumView {
        AccumView {
            text: self.text_content@,
            thinking: self.thinking_content@,
            filter: self.think_filter@,
            drafts: self.tool_accum.deep_view(),
            finish_reason: self.finish_reason.deep_view(),
            usage: self.usage,
            events: self.events.deep_view(),
        }
    }
}

impl StreamAccumulator {
    /// Whether the filter inside is in a state of its own.
    pub closed spec fn well_formed(&self) -> bool {
        self.think_filter.well_formed()
    }

    /// An accumulator that has seen nothing.
    pub fn new() -> (r: StreamAccumulator)
        ensures
            r@ == fresh(),
            r.well_formed(),
    {
        let r = StreamAccumulator {
            text_content: String::new(),
            thinking_content: String::new(),
            think_filter: StreamingThinkFilter::new(),
            tool_accum: Vec::new(),
            finish_reason: None,
            usage: TokenUsage::default(),
            events: Vec::new(),
        };
        assert(r@.drafts =~= Seq::empty());
        assert(r@.events =~= Seq::empty());
        r
    }

    /// Hands out the events so far and forgets them.
    pub fn drain_events(&mut self) -> (r: Vec<StreamEvent>)
        requires
            old(self).well_formed(),
        ensures
            final(self).well_formed(),
            r.deep_view() == old(self)@.events,
            final(self)@ == (AccumView { events: Seq::empty(), ..old(self)@ }),
    {
        let mut events: Vec<StreamEvent> = Vec::new();
        std::mem::swap(&mut events, &mut self.events);
        assert(self@.events =~= Seq::empty());
        events
    }

    fn carry_out(&mut self, actions: Vec<FilterAction>)
        requires
            old(self).well_formed(),
        ensures
            final(self).well_formed(),
            final(self)@ == with_actions(old(self)@, actions.deep_view()),
    {
        let ghost start = self@;
        let mut i: usize = 0;
        proof {
            assert(start.thinking + emitted(actions.deep_view().take(0), true) =~= start.thinking);
            assert(start.events + action_events(actions.deep_view().take(0)) =~= start.events);
        }
        while i < actions.len()
            invariant
                i <= actions@.len(),
                self.well_formed(),
                self@ == with_actions(start, actions.deep_view().take(i as int)),
            decreases actions@.len() - i,
        {
            let ghost all = actions.deep_view();
            let ghost before = self@;
            proof {
                assert(all.take(i + 1).drop_last() =~= all.take(i as int));
                assert(all.take(i + 1).last() == all[i as int]);
            }
            match &actions[i] {
                FilterAction::EmitText(t) => {
                    push_to(&mut self.events, StreamEvent::TextDelta { text: t.clone() });
                    assert(emitted(all.take(i + 1), true) =~= emitted(all.take(i as int), true));
                },
                FilterAction::EmitThinking(t) => {
                    self.thinking_content.append(t.as_str());
                    push_to(&mut self.events, StreamEvent::ThinkingDelta { text: t.clone() });
                    assert(start.thinking + (emitted(all.take(i as int), true) + t@)
                        =~= start.thinking + emitted(all.take(i as int), true) + t@);
                },
            }
            assert(self@.events =~= start.events + action_events(all.take(i + 1)));
            i = i + 1;
        }
        assert(actions.deep_view().take(i as int) =~= actions.deep_view());
    }

    fn take_part(&mut self, part: &Json)
        requires
            old(self).well_formed(),
        ensures
            final(self).well_formed(),
            final(self)@ == with_part(old(self)@, part.deep_view()),
    {
        match part.text_at("type") {
            Some(kind) => {
                if same(kind.as_str(), "text") {
                    match part.text_at("text") {
                        Some(t) => {
                            if !t.as_str().is_empty() {
                                self.text_content.append(t.as_str());
                                push_to(
                                    &mut self.events,
                                    StreamEvent::TextDelta { text: t.clone() },
                                );
                            }
                        },
                        None => {},
                    }
                } else if same(kind.as_str(), "thinking") {
                    let joined = join_thinking(part);
                    if !joined.as_str().is_empty() {
                        self.thinking_content.append(joined.as_str());
                        push_to(&mut self.events, StreamEvent::ThinkingDelta { text: joined });
                    }
                }
            },
            None => {},
        }
    }

    fn take_content(&mut self, content: &Json)
        requires
            old(self).well_formed(),
        ensures
            final(self).well_formed(),
            final(self)@ == with_content(old(self)@, content.deep_view()),
    {
        broadcast use crate::json::group_json_view;

        match content {
            Json::Text(t) => {
                if !t.as_str().is_empty() {
                    self.text_content.append(t.as_str());
                    let actions = self.think_filter.process(t.as_str());
                    self.carry_out(actions);
                }
            },
            Json::Array(parts) => {
                let ghost start = self@;
                let mut i: usize = 0;
                while i < parts.len()
                    invariant
                        i <= parts@.len(),
                        self.well_formed(),
                        self@ == with_parts(start, parts.deep_view(), i as nat),
                    decreases parts@.len() - i,
                {
                    self.take_part(&parts[i]);
                    i = i + 1;
                }
            },
            _ => {},
        }
    }

    fn take_arguments(&mut self, index: usize, arguments: &Json)
        requires
            old(self).well_formed(),
            index < old(self)@.drafts.len(),
        ensures
            final(self).well_formed(),
            final(self)@ == with_arguments(old(self)@, index as int, arguments.deep_view()),
    {
        let ghost start = self@;
        match arguments {
            Json::Text(t) => {
                self.tool_accum[index].arguments.append(t.as_str());
                if !t.as_str().is_empty() {
                    push_to(&mut self.events, StreamEvent::ToolInputDelta { text: t.clone() });
                }
                assert(self@.drafts =~= with_arguments(
                    start,
                    index as int,
                    arguments.deep_view(),
                ).drafts);
            },
            Json::Object(_) => {
                let args = arguments.print();
                self.tool_accum[index].arguments = args.clone();
                push_to(&mut self.events, StreamEvent::ToolInputDelta { text: args });
                assert(self@.drafts =~= with_arguments(
                    start,
                    index as int,
                    arguments.deep_view(),
                ).drafts);
            },
            _ => {},
        }
    }

    fn take_function(&mut self, index: usize, function: &Json)
        requires
            old(self).well_formed(),
            index < old(self)@.drafts.len(),
        ensures
            final(self).well_formed(),
            final(self)@ == with_function(old(self)@, index as int, function.deep_view()),
    {
        let ghost start = self@;
        match function.text_at("name") {
            Some(name) => {
                self.tool_accum[index].name = name.clone();
                let id = self.tool_accum[index].id.clone();
                push_to(
                    &mut self.events,
                    StreamEvent::ToolUseStart { id, name: name.clone() },
                );
                assert(self@.drafts =~= start.drafts.update(
                    index as int,
                    CallDraft { name: name@, ..start.drafts[index as int] },
                ));
            },
            None => {},
        }
        match function.get("arguments") {
            Some(arguments) => {
                self.take_arguments(index, arguments);
            },
            None => {},
        }
    }

    fn take_call(&mut self, call: &Json)
        requires
            old(self).well_formed(),
        ensures
            final(self).well_formed(),
            final(self)@ == with_call(old(self)@, call.deep_view()),
    {
        let ghost start = self@;
        let index: usize = match call.unsigned_at("index") {
            Some(n) => n as usize,
            None => 0,
        };
        while self.tool_accum.len() <= index
            invariant
                self.well_formed(),
                start.drafts.len() <= self@.drafts.len(),
                self@ == (AccumView { drafts: filled(start.drafts, self@.drafts.len()), ..start }),
                self@.drafts.len() <= index + 1 || self@.drafts == start.drafts,
            decreases index + 1 - self@.drafts.len(),
        {
            let draft = ToolDraft {
                id: String::new(),
                name: String::new(),
                arguments: String::new(),
            };
            push_to(&mut self.tool_accum, draft);
            assert(self@.drafts =~= filled(start.drafts, self@.drafts.len()));
        }
        assert(self@.drafts =~= filled(start.drafts, (index + 1) as nat));
        match call.text_at("id") {
            Some(id) => {
                if !id.as_str().is_empty() {
                    let ghost grown = self@;
                    self.tool_accum[index].id = id.clone();
                    assert(self@.drafts =~= grown.drafts.update(
                        index as int,
                        CallDraft { id: id@, ..grown.drafts[index as int] },
                    ));
                }
            },
            None => {},
        }
        match call.get("function") {
            Some(function) => {
                self.take_function(index, function);
            },
            None => {},
        }
    }

    fn take_choice(&mut self, choice: &Json)
        requires
            old(self).well_formed(),
        ensures
            final(self).well_formed(),
            final(self)@ == with_choice(old(self)@, choice.deep_view()),
    {
        match choice.get("delta") {
            Some(delta) => {
                match delta.get("content") {
                    Some(content) => {
                        self.take_content(content);
                    },
                    None => {},
                }
                match delta.items_at("tool_calls") {
                    Some(calls) => {
                        let ghost said = self@;
                        let mut i: usize = 0;
                        while i < calls.len()
                            invariant
                                i <= calls@.len(),
                                self.well_formed(),
                                self@ == with_calls(said, calls.deep_view(), i as nat),
                            decreases calls@.len() - i,
                        {
                            self.take_call(&calls[i]);
                            i = i + 1;
                        }
                    },
                    None => {},
                }
            },
            None => {},
        }
        match choice.text_at("finish_reason") {
            Some(reason) => {
                self.finish_reason = Some(reason.clone());
            },
            None => {},
        }
    }

    /// Takes one chunk of the stream that was read as JSON out of `data`; a chunk that
    /// reports an error is returned as one.
    pub fn handle_chunk(&mut self, data: &str, chunk: &Json) -> (r: Result<bool, ProviderError>)
        requires
            old(self).well_formed(),
        ensures
            final(self).well_formed(),
            ({
                let outcome = data_outcome(old(self)@, data@, Ok(chunk.deep_view()));
                &&& final(self)@ == outcome.after
                &&& match r {
                    Ok(done) => outcome.result == Ok::<bool, ProviderErrorView>(done),
                    Err(error) => outcome.result == Err::<bool, ProviderErrorView>(
                        error.deep_view(),
                    ),
                }
            }),
    {
        let named_error = match chunk.text_at("object") {
            Some(kind) => same(kind.as_str(), "error"),
            None => false,
        };
        if named_error || chunk.get("error").is_some() {
            return Err(ProviderError::Api { status: 200, message: data.to_owned() });
        }
        match chunk.get("usage") {
            Some(report) => {
                match report.unsigned_at("prompt_tokens") {
                    Some(n) => {
                        self.usage.input_tokens = n;
                    },
                    None => {},
                }
                match report.unsigned_at("completion_tokens") {
                    Some(n) => {
                        self.usage.output_tokens = n;
                    },
                    None => {},
                }
                match report.get("prompt_tokens_details") {
                    Some(details) => match details.unsigned_at("cached_tokens") {
                        Some(n) => {
                            self.usage.cache_read_tokens = n;
                        },
                        None => {},
                    },
                    None => {},
                }
            },
            None => {},
        }
        match chunk.items_at("choices") {
            Some(choices) => {
                let ghost counted = self@;
                let mut i: usize = 0;
                while i < choices.len()
                    invariant
                        i <= choices@.len(),
                        self.well_formed(),
                        self@ == with_choices(counted, choices.deep_view(), i as nat),
                    decreases choices@.len() - i,
                {
                    self.take_choice(&choices[i]);
                    i = i + 1;
                }
            },
            None => {},
        }
        Ok(false)
    }

    /// Takes one line of the stream. Says whether the stream is over.
    pub fn handle_line(&mut self, line: &str) -> (r: Result<bool, ProviderError>)
        requires
            old(self).well_formed(),
        ensures
            final(self).well_formed(),
            final(self)@ == line_outcome(old(self)@, line@).after,
            match r {
                Ok(done) => line_outcome(old(self)@, line@).result == Ok::<bool, ProviderErrorView>(
                    done,
                ),
                Err(error) => line_outcome(old(self)@, line@).result == Err::<
                    bool,
                    ProviderErrorView,
                >(error.deep_view()),
            },
    {
        let line = trimmed_end(line);
        if line.as_str().is_empty() || begins(line.as_str(), ":") {
            return Ok(false);
        }
        let data = match strip_prefix(line.as_str(), "data:") {
            Some(rest) => trimmed_start(rest.as_str()),
            None => {
                return Ok(false);
            },
        };
        if same(data.as_str(), "[DONE]") {
            return Ok(true);
        }
        match Json::parse(data.as_str()) {
            Ok(chunk) => self.handle_chunk(data.as_str(), &chunk),
            Err(_) => Ok(false),
        }
    }
}

/// The tool calls that the drafts come to: those with an id and a name, their arguments as
/// `json_read` has them read.
pub open spec fn finished_calls(drafts: Seq<CallDraft>) -> Seq<CallView>
    decreases drafts.len(),
{
    if drafts.len() == 0 {
        Seq::empty()
    } else {
        let draft = drafts.last();
        let before = finished_calls(drafts.drop_last());
        if draft.id.len() == 0 || draft.name.len() == 0 {
            before
        } else {
            before.push(
                CallView {
                    id: draft.id,
                    name: draft.name,
                    input: arguments_read(json_read(draft.arguments)),
                },
            )
        }
    }
}

/// The events that say the tool calls are complete.
pub open spec fn end_events(calls: Seq<CallView>) -> Seq<EventView> {
    calls.map_values(
        |call: CallView|
            EventView::ToolUseEnd { id: call.id, name: call.name, input: call.input },
    )
}

/// The blocks that the thinking and the text come to.
pub open spec fn spoken_blocks(thinking: Seq<char>, text: Seq<char>) -> Seq<BlockView> {
    let blocks = if thinking.len() == 0 {
        Seq::empty()
    } else {
        Seq::empty().push(thinking_block(thinking))
    };
    if text.len() == 0 || visible_part(text).len() == 0 {
        blocks
    } else {
        blocks.push(text_block(visible_part(text)))
    }
}

/// The accumulator with what the filter held back put out.
pub open spec fn flushed(a: AccumView) -> AccumView {
    with_actions(
        AccumView { filter: FilterView { matched: 0, ..a.filter }, ..a },
        held_back(a.filter),
    )
}

/// The response that the accumulated stream comes to.
pub open spec fn finished_response(a: AccumView) -> ResponseView {
    let calls = finished_calls(a.drafts);
    let content = spoken_blocks(flushed(a).thinking, a.text) + call_blocks(calls);
    ResponseView {
        content,
        stop_reason: stop_reason(a.finish_reason, calls.len() > 0),
        tool_calls: calls,
        usage: counted(a.usage, content.len() > 0),
    }
}

/// The events that are left when the stream is over: those not yet handed out, those of
/// what was held back, an end for each tool call, and the completion.
pub open spec fn finished_events(a: AccumView) -> Seq<EventView> {
    let response = finished_response(a);
    (flushed(a).events + end_events(response.tool_calls)).push(
        EventView::ContentComplete { stop_reason: response.stop_reason, usage: response.usage },
    )
}

impl StreamAccumulator {
    /// Ends the stream: the whole response, and the events not yet handed out.
    pub fn finish(self) -> (r: (CompletionResponse, Vec<StreamEvent>))
        requires
            self.well_formed(),
        ensures
            r.0.deep_view() == finished_response(self@),
            r.1.deep_view() == finished_events(self@),
    {
        let mut accum = self;
        let actions = accum.think_filter.flush();
        accum.carry_out(actions);
        let ghost done = accum@;
        assert(done == flushed(self@));
        let mut content: Vec<ContentBlock> = Vec::new();
        assert(content.deep_view() =~= Seq::empty());
        if !accum.thinking_content.as_str().is_empty() {
            push_to(&mut content, make_thinking_block(accum.thinking_content.clone()));
        }
        if !accum.text_content.as_str().is_empty() {
            let (visible, _) = split_think(accum.text_content.as_str());
            if !visible.as_str().is_empty() {
                push_to(
                    &mut content,
                    ContentBlock::Text { text: visible, provider_metadata: None },
                );
            }
        }
        let ghost spoken = spoken_blocks(done.thinking, done.text);
        assert(content.deep_view() == spoken);
        let mut tool_calls: Vec<ToolCall> = Vec::new();
        let mut events = accum.events;
        let drafts = accum.tool_accum;
        let ghost all = drafts.deep_view();
        let mut i: usize = 0;
        proof {
            assert(tool_calls.deep_view() =~= finished_calls(all.take(0)));
            assert(content.deep_view() =~= spoken + call_blocks(tool_calls.deep_view()));
            assert(events.deep_view() =~= done.events + end_events(tool_calls.deep_view()));
        }
        while i < drafts.len()
            invariant
                i <= drafts@.len(),
                all == drafts.deep_view(),
                tool_calls.deep_view() == finished_calls(all.take(i as int)),
                content.deep_view() == spoken + call_blocks(tool_calls.deep_view()),
                events.deep_view() == done.events + end_events(tool_calls.deep_view()),
            decreases drafts@.len() - i,
        {
            assert(all.take(i + 1).drop_last() =~= all.take(i as int));
            let draft = &drafts[i];
            if !draft.id.as_str().is_empty() && !draft.name.as_str().is_empty() {
                let input = read_or_empty(Json::parse(draft.arguments.as_str()));
                push_to(
                    &mut content,
                    make_call_block(draft.id.as_str(), draft.name.as_str(), &input),
                );
                push_to(
                    &mut events,
                    StreamEvent::ToolUseEnd {
                        id: draft.id.clone(),
                        name: draft.name.clone(),
                        input: input.clone(),
                    },
                );
                push_to(
                    &mut tool_calls,
                    ToolCall { id: draft.id.clone(), name: draft.name.clone(), input },
                );
                proof {
                    assert(content.deep_view() =~= spoken + call_blocks(tool_calls.deep_view()));
                    assert(events.deep_view() =~= done.events + end_events(
                        tool_calls.deep_view(),
                    ));
                }
            }
            i = i + 1;
        }
        assert(all.take(i as int) =~= all);
        let reason = match &accum.finish_reason {
            Some(reason) => Some(reason.as_str()),
            None => None,
        };
        let stop = map_stop_reason(reason, tool_calls.len() > 0);
        let usage = count_content(accum.usage, content.len() > 0);
        push_to(&mut events, StreamEvent::ContentComplete { stop_reason: stop, usage });
        (CompletionResponse { content, stop_reason: stop, tool_calls, usage }, events)
    }
}

/// A stream in the middle of its bytes: the accumulator and the line not yet ended.
pub ghost struct FeedView {
    pub accum: AccumView,
    pub buffer: Seq<char>,
}

/// What comes of text behind the buffer: every line that is ended is taken, up to the
/// one that ends the stream or reports an error.
pub open spec fn fed(accum: AccumView, text: Seq<char>) -> (
    Result<bool, ProviderErrorView>,
    FeedView,
)
    decreases text.len(),
{
    match find(text, "\n"@) {
        Some(i) if 0 <= i < text.len() => {
            let outcome = line_outcome(accum, text.take(i));
            if outcome.result == Ok::<bool, ProviderErrorView>(false) {
                fed(outcome.after, text.skip(i + 1))
            } else {
                (
                    outcome.result,
                    FeedView { accum: outcome.after, buffer: text.skip(i + 1) },
                )
            }
        },
        _ => (Ok(false), FeedView { accum, buffer: text }),
    }
}

/// Cuts the bytes of a response body into lines for an accumulator.
#[derive(Debug)]
pub struct MistralStream {
    accum: StreamAccumulator,
    buffer: String,
}

impl View for MistralStream {
    type V = FeedView;

    closed spec fn view(&self) -> FeedView {
        FeedView { accum: self.accum@, buffer: self.buffer@ }
    }
}

impl MistralStream {
    /// Whether the accumulator inside is well formed.
    pub closed spec fn well_formed(&self) -> bool {
        self.accum.well_formed()
    }

    /// A stream of which nothing has arrived.
    pub fn new() -> (r: MistralStream)
        ensures
            r.well_formed(),
            r@ == (FeedView { accum: fresh(), buffer: Seq::empty() }),
    {
        MistralStream { accum: StreamAccumulator::new(), buffer: String::new() }
    }

    /// Takes the next text of the body. Says whether the stream is over.
    pub fn push_text(&mut self, text: &str) -> (r: Result<bool, ProviderError>)
        requires
            old(self).well_formed(),
        ensures
            final(self).well_formed(),
            final(self)@ == fed(old(self)@.accum, old(self)@.buffer + text@).1,
            match r {
                Ok(done) => fed(old(self)@.accum, old(self)@.buffer + text@).0 == Ok::<
                    bool,
                    ProviderErrorView,
                >(done),
                Err(error) => fed(old(self)@.accum, old(self)@.buffer + text@).0 == Err::<
                    bool,
                    ProviderErrorView,
                >(error.deep_view()),
            },
    {
        let ghost whole = fed(self@.accum, self@.buffer + text@);
        self.buffer.append(text);
        loop
            invariant
                self.well_formed(),
                whole == fed(old(self)@.accum, old(self)@.buffer + text@),
                fed(self@.accum, self@.buffer) == whole,
            decreases self@.buffer.len(),
        {
            proof {
                reveal_strlit("\n");
            }
            match position(self.buffer.as_str(), "\n") {
                Some(i) => {
                    let all: usize = self.buffer.as_str().unicode_len();
                    let line = self.buffer.as_str().substring_char(0, i).to_owned();
                    let rest = self.buffer.as_str().substring_char(i + 1, all).to_owned();
                    proof {
                        assert(line@ =~= self.buffer@.take(i as int));
                        assert(rest@ =~= self.buffer@.skip(i + 1));
                    }
                    self.buffer = rest;
                    match self.accum.handle_line(line.as_str()) {
                        Ok(false) => {},
                        Ok(true) => {
                            return Ok(true);
                        },
                        Err(error) => {
                            return Err(error);
                        },
                    }
                },
                None => {
                    return Ok(false);
                },
            }
        }
    }

    /// Takes the next bytes of the body, read as UTF-8 with replacement characters.
    pub fn push_bytes(&mut self, chunk: &[u8]) -> (r: Result<bool, ProviderError>)
        requires
            old(self).well_formed(),
        ensures
            final(self).well_formed(),
            final(self)@ == fed(old(self)@.accum, old(self)@.buffer + lossy_utf8(chunk@)).1,
            match r {
                Ok(done) => fed(old(self)@.accum, old(self)@.buffer + lossy_utf8(chunk@)).0 == Ok::<
                    bool,
                    ProviderErrorView,
                >(done),
                Err(error) => fed(old(self)@.accum, old(self)@.buffer + lossy_utf8(chunk@)).0
                    == Err::<bool, ProviderErrorView>(error.deep_view()),
            },
    {
        let text = lossy_text(chunk);
        self.push_text(text.as_str())
    }

    /// Hands out the events so far and forgets them.
    pub fn drain_events(&mut self) -> (r: Vec<StreamEvent>)
        requires
            old(self).well_formed(),
        ensures
            final(self).well_formed(),
            r.deep_view() == old(self)@.accum.events,
            final(self)@ == (FeedView {
                accum: AccumView { events: Seq::empty(), ..old(self)@.accum },
                ..old(self)@
            }),
    {
        self.accum.drain_events()
    }

    /// Ends the stream; a line that was not ended is dropped.
    pub fn finish(self) -> (r: (CompletionResponse, Vec<StreamEvent>))
        requires
            self.well_formed(),
        ensures
            r.0.deep_view() == finished_response(self@.accum),
            r.1.deep_view() == finished_events(self@.accum),
    {
        self.accum.finish()
    }
}

/// The thinking that the events have streamed.
pub open spec fn streamed_thinking(events: Seq<EventView>) -> Seq<char>
    decreases events.len(),
{
    if events.len() == 0 {
        Seq::empty()
    } else {
        streamed_thinking(events.drop_last()) + match events.last() {
            EventView::ThinkingDelta { text } => text,
            _ => Seq::empty(),
        }
    }
}

/// Whether no event says that the response is complete.
pub open spec fn still_open(events: Seq<EventView>) -> bool {
    forall|i: int| 0 <= i < events.len() ==> !(#[trigger] events[i] is ContentComplete)
}

/// Whether an accumulator's thinking is what was streamed by the events that were handed
/// out and by those that were not yet, and none of them has closed the stream.
pub open spec fn coherent(handed: Seq<EventView>, a: AccumView) -> bool {
    a.thinking == streamed_thinking(handed + a.events) && still_open(handed + a.events)
}

proof fn push_coherent(
    handed: Seq<EventView>,
    a: AccumView,
    b: AccumView,
    event: EventView,
)
    requires
        coherent(handed, a),
        b.events == a.events.push(event),
        !(event is ContentComplete),
        b.thinking == match event {
            EventView::ThinkingDelta { text } => a.thinking + text,
            _ => a.thinking,
        },
    ensures
        coherent(handed, b),
{
    let before = handed + a.events;
    let after = handed + b.events;
    assert(after =~= before.push(event));
    assert(after.drop_last() =~= before);
    assert(a.thinking + Seq::<char>::empty() =~= a.thinking);
}

proof fn actions_coherent(handed: Seq<EventView>, a: AccumView, actions: Seq<ActionView>)
    requires
        coherent(handed, a),
    ensures
        coherent(handed, with_actions(a, actions)),
    decreases actions.len(),
{
    let after = with_actions(a, actions);
    if actions.len() == 0 {
        assert(after.events =~= a.events);
        assert(after.thinking =~= a.thinking);
    } else {
        let before = with_actions(a, actions.drop_last());
        actions_coherent(handed, a, actions.drop_last());
        let event = match actions.last() {
            ActionView::Text(t) => EventView::TextDelta { text: t },
            ActionView::Thinking(t) => EventView::ThinkingDelta { text: t },
        };
        assert(after.events =~= before.events.push(event));
        assert(after.thinking =~= match event {
            EventView::ThinkingDelta { text } => before.thinking + text,
            _ => before.thinking,
        });
        push_coherent(handed, before, after, event);
    }
}

proof fn parts_coherent(handed: Seq<EventView>, a: AccumView, parts: Seq<JsonView>, n: nat)
    requires
        coherent(handed, a),
    ensures
        coherent(handed, with_parts(a, parts, n)),
    decreases n,
{
    if n > 0 {
        let before = with_parts(a, parts, (n - 1) as nat);
        parts_coherent(handed, a, parts, (n - 1) as nat);
        let after = with_part(before, parts[n - 1]);
        if after != before {
            push_coherent(handed, before, after, after.events.last());
        }
    }
}

proof fn call_coherent(handed: Seq<EventView>, a: AccumView, call: JsonView)
    requires
        coherent(handed, a),
    ensures
        coherent(handed, with_call(a, call)),
{
    let index = call_index(call) as int;
    let grown = AccumView { drafts: filled(a.drafts, (index + 1) as nat), ..a };
    let with_id = match call.at("id"@).text() {
        Some(id) => if id.len() == 0 {
            grown
        } else {
            AccumView {
                drafts: grown.drafts.update(index, CallDraft { id, ..grown.drafts[index] }),
                ..grown
            }
        },
        None => grown,
    };
    match call.get("function"@) {
        Some(function) => {
            let named = match function.at("name"@).text() {
                Some(name) => AccumView {
                    drafts: with_id.drafts.update(
                        index,
                        CallDraft { name, ..with_id.drafts[index] },
                    ),
                    events: with_id.events.push(
                        EventView::ToolUseStart { id: with_id.drafts[index].id, name },
                    ),
                    ..with_id
                },
                None => with_id,
            };
            if function.at("name"@).text() is Some {
                push_coherent(handed, with_id, named, named.events.last());
            }
            let done = with_arguments(named, index, function.at("arguments"@));
            if done.events != named.events {
                push_coherent(handed, named, done, done.events.last());
            }
        },
        None => {},
    }
}

proof fn calls_coherent(handed: Seq<EventView>, a: AccumView, calls: Seq<JsonView>, n: nat)
    requires
        coherent(handed, a),
    ensures
        coherent(handed, with_calls(a, calls, n)),
    decreases n,
{
    if n > 0 {
        calls_coherent(handed, a, calls, (n - 1) as nat);
        call_coherent(handed, with_calls(a, calls, (n - 1) as nat), calls[n - 1]);
    }
}

proof fn choices_coherent(handed: Seq<EventView>, a: AccumView, choices: Seq<JsonView>, n: nat)
    requires
        coherent(handed, a),
    ensures
        coherent(handed, with_choices(a, choices, n)),
    decreases n,
{
    if n > 0 {
        let before = with_choices(a, choices, (n - 1) as nat);
        choices_coherent(handed, a, choices, (n - 1) as nat);
        let delta = choices[n - 1].at("delta"@);
        match delta.at("content"@) {
            JsonView::Text(t) => {
                let scan = run(Scan { filter: before.filter, actions: Seq::empty() }, t);
                actions_coherent(
                    handed, AccumView { text: before.text + t, filter: scan.filter, ..before },
                    scan.actions,
                );
            },
            JsonView::Array(parts) => {
                parts_coherent(handed, before, parts, parts.len());
            },
            _ => {},
        }
        let said = with_content(before, delta.at("content"@));
        match delta.at("tool_calls"@).items() {
            Some(calls) => {
                calls_coherent(handed, said, calls, calls.len());
            },
            None => {},
        }
    }
}

/// Whatever line arrives, the accumulated thinking is the thinking that was streamed, and
/// no line closes the response.
pub proof fn lines_keep_the_stream_coherent(
    handed: Seq<EventView>,
    a: AccumView,
    line: Seq<char>,
)
    requires
        coherent(handed, a),
    ensures
        coherent(handed, line_outcome(a, line).after),
{
    match line_view(line) {
        LineView::Data(data) => match json_read(data) {
            Ok(chunk) => {
                let counted = match chunk.get("usage"@) {
                    Some(report) => AccumView { usage: with_usage(a.usage, report), ..a },
                    None => a,
                };
                match chunk.at("choices"@).items() {
                    Some(choices) => {
                        choices_coherent(handed, counted, choices, choices.len());
                    },
                    None => {},
                }
            },
            Err(_) => {},
        },
        _ => {},
    }
}

/// What is done with an accumulator: it is given a line, or its events are drained.
pub ghost enum Use {
    Line(Seq<char>),
    Drain,
}

/// A stream in use: its accumulator, and the events that were handed out.
pub ghost struct InUse {
    pub accum: AccumView,
    pub handed: Seq<EventView>,
}

/// A new accumulator after several uses.
pub open spec fn used(uses: Seq<Use>) -> InUse
    decreases uses.len(),
{
    if uses.len() == 0 {
        InUse { accum: fresh(), handed: Seq::empty() }
    } else {
        let before = used(uses.drop_last());
        match uses.last() {
            Use::Line(line) => InUse { accum: line_outcome(before.accum, line).after, ..before },
            Use::Drain => InUse {
                accum: AccumView { events: Seq::empty(), ..before.accum },
                handed: before.handed + before.accum.events,
            },
        }
    }
}

/// Whatever lines arrive and whenever events are drained, the accumulated thinking is the
/// thinking that was streamed, and nothing has closed the response.
pub proof fn streams_in_use_are_coherent(uses: Seq<Use>)
    ensures
        coherent(used(uses).handed, used(uses).accum),
    decreases uses.len(),
{
    if uses.len() == 0 {
        let none = Seq::<EventView>::empty();
        assert(none + none =~= none);
    } else {
        let before = used(uses.drop_last());
        streams_in_use_are_coherent(uses.drop_last());
        match uses.last() {
            Use::Line(line) => {
                lines_keep_the_stream_coherent(before.handed, before.accum, line);
            },
            Use::Drain => {
                let all = before.handed + before.accum.events;
                assert(all + Seq::<EventView>::empty() =~= all);
            },
        }
    }
}

/// The end of a stream is said once, and last: whatever lines arrived and whenever events
/// were drained, every other event leaves the stream open. The thinking of the response is
/// the thinking that was streamed.
pub proof fn completion_comes_once_and_last(uses: Seq<Use>)
    ensures
        ({
            let a = used(uses).accum;
            let handed = used(uses).handed;
            let events = handed + finished_events(a);
            &&& events.last() is ContentComplete
            &&& still_open(events.drop_last())
            &&& finished_response(a).content.len() > 0 && flushed(a).thinking.len() > 0
                ==> finished_response(a).content[0] == thinking_block(
                streamed_thinking(handed + flushed(a).events),
            )
        }),
{
    let a = used(uses).accum;
    let handed = used(uses).handed;
    streams_in_use_are_coherent(uses);
    actions_coherent(
        handed,
        AccumView { filter: FilterView { matched: 0, ..a.filter }, ..a },
        held_back(a.filter),
    );
    let events = handed + finished_events(a);
    let calls = finished_response(a).tool_calls;
    let told = handed + flushed(a).events;
    let front = told + end_events(calls);
    assert(events.drop_last() =~= front);
    assert forall|i: int| 0 <= i < front.len() implies !(#[trigger] front[i] is ContentComplete) by {
        if i < told.len() {
            assert(front[i] == told[i]);
        } else {
            assert(front[i] == end_events(calls)[i - told.len()]);
        }
    }
}

/// A line that cannot be read, or that reports an error, changes nothing.
pub proof fn bad_lines_change_nothing(a: AccumView, line: Seq<char>, data: Seq<char>)
    requires
        line_view(line) == LineView::Data(data),
        json_read(data) is Err || is_error_chunk(json_read(data)->Ok_0),
    ensures
        line_outcome(a, line).after == a,
        line_outcome(a, line).result is Err <==> json_read(data) is Ok,
{
}

} // verus!
