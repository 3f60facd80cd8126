//! What every provider shares: the events of a completion that was not streamed, and
//! the configuration that a provider is made from.
use vstd::prelude::*;

use crate::provider::types::{CompletionResponse, EventView, StreamEvent, text_of_blocks};
use crate::text::{labelled, push_to, quote, quoted_text};

verus! {

/// The events that stand for a completion that arrived in one piece: its text where it
/// has any, then the end.
pub open spec fn whole_events(response: CompletionResponse) -> Seq<EventView> {
    let text = text_of_blocks(response.content@);
    let end = EventView::ContentComplete {
        stop_reason: response.stop_reason,
        usage: response.usage,
    };
    if text.len() == 0 {
        Seq::empty().push(end)
    } else {
        Seq::empty().push(EventView::TextDelta { text }).push(end)
    }
}

/// The events that stand for a completion that arrived in one piece.
pub fn events_of(response: &CompletionResponse) -> (r: Vec<StreamEvent>)
    ensures
        r.deep_view() == whole_events(*response),
{
    let mut events: Vec<StreamEvent> = Vec::new();
    assert(events.deep_view() =~= Seq::empty());
    let text = response.text();
    if !text.as_str().is_empty() {
        push_to(&mut events, StreamEvent::TextDelta { text });
    }
    push_to(
        &mut events,
        StreamEvent::ContentComplete { stop_reason: response.stop_reason, usage: response.usage },
    );
    events
}

/// The name of a provider that does not give one.
pub const UNKNOWN_PROVIDER: &'static str = "unknown";

/// Config for constructing a provider. It has no `Debug` of its own, so that the key
/// cannot slip into a log: see `debug_text`.
pub struct DriverConfig {
    /// Provider name.
    pub provider: String,
    /// API key.
    pub api_key: Option<String>,
    /// Base URL override.
    pub base_url: Option<String>,
}

/// An optional text as Rust's `{:?}` prints it.
pub open spec fn quoted_option(s: Option<Seq<char>>) -> Seq<char> {
    match s {
        Some(text) => "Some("@ + quoted_text(text) + ")"@,
        None => "None"@,
    }
}

fn quote_option(s: Option<&str>) -> (r: String)
    ensures
        r@ == quoted_option(s.deep_view()),
{
    match s {
        Some(text) => {
            let mut out = labelled("Some(", quote(text).as_str());
            out.append(")");
            out
        },
        None => "None".to_owned(),
    }
}

/// What a log may show of a configuration: of the key only whether there is one.
pub open spec fn redacted(
    provider: Seq<char>,
    has_key: bool,
    base_url: Option<Seq<char>>,
) -> Seq<char> {
    "DriverConfig { provider: "@ + quoted_text(provider) + ", api_key: "@ + quoted_option(
        if has_key {
            Some("<redacted>"@)
        } else {
            None
        },
    ) + ", base_url: "@ + quoted_option(base_url) + " }"@
}

impl DriverConfig {
    /// The configuration for a log, without the key.
    pub fn debug_text(&self) -> (r: String)
        ensures
            r@ == redacted(self.provider@, self.api_key is Some, self.base_url.deep_view()),
    {
        let mut out = labelled("DriverConfig { provider: ", quote(self.provider.as_str()).as_str());
        out.append(", api_key: ");
        let key = match &self.api_key {
            Some(_) => Some("<redacted>"),
            None => None,
        };
        out.append(quote_option(key).as_str());
        out.append(", base_url: ");
        let base = match &self.base_url {
            Some(url) => Some(url.as_str()),
            None => None,
        };
        out.append(quote_option(base).as_str());
        out.append(" }");
        out
    }
}

} // verus!
