//! What is refused before it is sent, and what a refusal is taken for.
use vstd::prelude::*;

use crate::provider::contract::{quoted_option, redacted, whole_events};
use crate::provider::mistral::driver::driver_headers;
use crate::provider::mistral::response_laws::shown_by;
use crate::provider::mistral::stream_laws::streamed_text;
use crate::provider::mistral::wire::{
    decoded_len, media_verdict, retry_delay, scan_blocks, scan_messages, status_error,
};
use crate::provider::types::{
    CompletionResponse, ContentBlock, EventView, Message, MessageContent, ProviderErrorView,
    error_message, says_something, text_of_blocks,
};
use crate::spelling_laws::{decimals_spell_their_number, numbers_read_back};
use crate::text::{contains, decimal, is_digit, is_white, quoted_text, trim};
use crate::text_laws::{holds_still, holds_the_end, trim_is_idempotent};

verus! {

/// The blocks of all messages, one behind the other.
pub open spec fn all_blocks(messages: Seq<Message>) -> Seq<ContentBlock>
    decreases messages.len(),
{
    if messages.len() == 0 {
        Seq::empty()
    } else {
        (match messages[0].content {
            MessageContent::Blocks(blocks) => blocks@,
            MessageContent::Text(_) => Seq::empty(),
        }) + all_blocks(messages.skip(1))
    }
}

/// How many of the blocks are images.
pub open spec fn images_among(blocks: Seq<ContentBlock>) -> nat
    decreases blocks.len(),
{
    if blocks.len() == 0 {
        0
    } else {
        images_among(blocks.drop_last()) + if blocks.last() is Image {
            1nat
        } else {
            0nat
        }
    }
}

/// Whether a block is an image of more than ten mebibytes, or a document of more than
/// fifty.
pub open spec fn too_large(block: ContentBlock) -> bool {
    match block {
        ContentBlock::Image { data, .. } => decoded_len(data@) > 10 * 1024 * 1024,
        ContentBlock::File { data, .. } => decoded_len(data@) > 50 * 1024 * 1024,
        _ => false,
    }
}

proof fn images_of_two(a: Seq<ContentBlock>, b: Seq<ContentBlock>)
    ensures
        images_among(a + b) == images_among(a) + images_among(b),
    decreases b.len(),
{
    if b.len() == 0 {
        assert(a + b =~= a);
    } else {
        images_of_two(a, b.drop_last());
        assert((a + b).drop_last() =~= a + b.drop_last());
    }
}

proof fn images_from_the_first(blocks: Seq<ContentBlock>)
    requires
        blocks.len() > 0,
    ensures
        images_among(blocks) == images_among(blocks.skip(1)) + if blocks[0] is Image {
            1nat
        } else {
            0nat
        },
{
    let one = seq![blocks[0]];
    assert(one + blocks.skip(1) =~= blocks);
    images_of_two(one, blocks.skip(1));
    assert(one.drop_last() =~= Seq::empty());
    assert(images_among(one.drop_last()) == 0);
    assert(images_among(one) == if blocks[0] is Image {
        1nat
    } else {
        0nat
    });
}

proof fn blocks_are_scanned(blocks: Seq<ContentBlock>, images: nat)
    ensures
        scan_blocks(blocks, images) is Err <==> exists|i: int|
            0 <= i < blocks.len() && too_large(#[trigger] blocks[i]),
        scan_blocks(blocks, images) matches Ok(count) ==> count == images + images_among(blocks),
        scan_blocks(blocks, images) matches Err(error) ==> (error matches ProviderErrorView::Api {
            status,
            ..
        } && status == 413),
    decreases blocks.len(),
{
    if blocks.len() > 0 {
        let rest = blocks.skip(1);
        images_from_the_first(blocks);
        blocks_are_scanned(rest, images);
        blocks_are_scanned(rest, images + 1);
        if too_large(blocks[0]) {
        } else {
            if exists|i: int| 0 <= i < blocks.len() && too_large(#[trigger] blocks[i]) {
                let i = choose|i: int| 0 <= i < blocks.len() && too_large(#[trigger] blocks[i]);
                assert(rest[i - 1] == blocks[i]);
            }
            if exists|i: int| 0 <= i < rest.len() && too_large(#[trigger] rest[i]) {
                let i = choose|i: int| 0 <= i < rest.len() && too_large(#[trigger] rest[i]);
                assert(rest[i] == blocks[i + 1]);
            }
        }
    }
}

proof fn messages_are_scanned(messages: Seq<Message>, images: nat)
    ensures
        scan_messages(messages, images) is Err <==> exists|i: int|
            0 <= i < all_blocks(messages).len() && too_large(#[trigger] all_blocks(messages)[i]),
        scan_messages(messages, images) matches Ok(count) ==> count == images + images_among(
            all_blocks(messages),
        ),
        scan_messages(messages, images) matches Err(error) ==> (
        error matches ProviderErrorView::Api { status, .. } && status == 413),
    decreases messages.len(),
{
    let all = all_blocks(messages);
    if messages.len() > 0 {
        let first = match messages[0].content {
            MessageContent::Blocks(blocks) => blocks@,
            MessageContent::Text(_) => Seq::empty(),
        };
        let rest = all_blocks(messages.skip(1));
        assert(all == first + rest);
        blocks_are_scanned(first, images);
        images_of_two(first, rest);
        assert(scan_blocks(Seq::empty(), images) == Ok::<nat, ProviderErrorView>(images));
        if exists|i: int| 0 <= i < first.len() && too_large(#[trigger] first[i]) {
            let i = choose|i: int| 0 <= i < first.len() && too_large(#[trigger] first[i]);
            assert(all[i] == first[i]);
        } else {
            let count = scan_blocks(first, images)->Ok_0;
            messages_are_scanned(messages.skip(1), count);
            if exists|i: int| 0 <= i < all.len() && too_large(#[trigger] all[i]) {
                let i = choose|i: int| 0 <= i < all.len() && too_large(#[trigger] all[i]);
                if i < first.len() {
                    assert(first[i] == all[i]);
                } else {
                    assert(rest[i - first.len()] == all[i]);
                }
            }
            if exists|i: int| 0 <= i < rest.len() && too_large(#[trigger] rest[i]) {
                let i = choose|i: int| 0 <= i < rest.len() && too_large(#[trigger] rest[i]);
                assert(all[first.len() + i] == rest[i]);
            }
        }
    }
}

/// A conversation is sent where no image and no document in it is too large and it holds
/// eight images at the most, in all messages together. Else it is refused as too large,
/// and where only the images are too many, it is said how many there are.
pub proof fn media_are_limited(messages: Seq<Message>)
    ensures
        ({
            let blocks = all_blocks(messages);
            let oversized = exists|i: int|
                0 <= i < blocks.len() && too_large(#[trigger] blocks[i]);
            &&& media_verdict(messages) is Ok <==> !oversized && images_among(blocks) <= 8
            &&& media_verdict(messages) matches Err(error) ==> (
            error matches ProviderErrorView::Api { status, message } && status == 413 && (
            !oversized ==> contains(message, decimal(images_among(blocks)))))
        }),
{
    let blocks = all_blocks(messages);
    messages_are_scanned(messages, 0);
    let count = decimal(images_among(blocks));
    holds_the_end("request has "@, count);
    holds_still("request has "@ + count, " images; Mistral allows 8"@, count);
}

/// A failed response is taken for what its status says: one of too many requests, or of a
/// server that is overloaded, says when to ask again, as the server told or else after
/// five or two seconds; a refused key says why; and any other keeps its status and its
/// message.
pub proof fn failures_are_told_apart(status: u16, retry: Option<u64>, message: Seq<char>)
    ensures
        status == 429 ==> (status_error(status, retry, message)
            matches ProviderErrorView::RateLimited { retry_after_ms } && (retry is None
            ==> retry_after_ms == 5000) && (retry is Some ==> retry == Some(retry_after_ms))),
        status == 401 || status == 403 ==> status_error(status, retry, message)
            == ProviderErrorView::AuthenticationFailed(message),
        status >= 500 ==> (status_error(status, retry, message)
            matches ProviderErrorView::Overloaded { retry_after_ms } && (retry is None
            ==> retry_after_ms == 2000) && (retry is Some ==> retry == Some(retry_after_ms))),
        status < 500 && status != 429 && status != 401 && status != 403 ==> status_error(
            status,
            retry,
            message,
        ) == (ProviderErrorView::Api { status, message }),
{
}

/// A wait that the server asks for in whole seconds is kept to the millisecond, as far as
/// it can be counted.
pub proof fn waits_are_kept(secs: u64, header: Option<Seq<char>>)
    ensures
        secs <= u64::MAX / 1000 ==> retry_delay(Some(decimal(secs as nat))) == Some(
            (secs * 1000) as u64,
        ),
        secs > u64::MAX / 1000 ==> retry_delay(Some(decimal(secs as nat))) == Some(u64::MAX),
        retry_delay(None) is None,
        header matches Some(text) ==> retry_delay(header) == retry_delay(Some(trim(text))),
{
    let s = decimal(secs as nat);
    numbers_read_back(secs);
    decimals_spell_their_number(secs as nat);
    assert(is_digit(s[0]) && is_digit(s[s.len() - 1]));
    assert(trim(s) == s) by {
        assert(!is_white(s[0]) && !is_white(s.last()));
        assert(crate::text::trim_start(s) == s);
        assert(crate::text::trim_end(s) == s);
    }
    if let Some(text) = header {
        trim_is_idempotent(text);
    }
}

/// A completion that came in one piece is told as the text that its blocks show, whole and
/// in their order, and then as its end, with its reason and its cost.
pub proof fn whole_completions_are_told(response: CompletionResponse)
    ensures
        ({
            let events = whole_events(response);
            &&& streamed_text(events) == shown_by(response.content.deep_view())
            &&& events.len() > 0
            &&& events.last() == (EventView::ContentComplete {
                stop_reason: response.stop_reason,
                usage: response.usage,
            })
            &&& forall|i: int|
                0 <= i < events.len() - 1 ==> (#[trigger] events[i] matches EventView::TextDelta {
                    text,
                } && text.len() > 0)
        }),
{
    let events = whole_events(response);
    texts_are_shown(response.content@, response.content.deep_view());
    reveal_with_fuel(streamed_text, 3);
    let text = text_of_blocks(response.content@);
    if text.len() == 0 {
        assert(events.drop_last() =~= Seq::empty());
        assert(streamed_text(events) =~= text);
    } else {
        let first = Seq::empty().push(EventView::TextDelta { text });
        assert(events.drop_last() =~= first);
        assert(first.drop_last() =~= Seq::empty());
        assert(streamed_text(events) =~= text);
    }
}

proof fn texts_are_shown(
    blocks: Seq<ContentBlock>,
    views: Seq<crate::provider::types::BlockView>,
)
    requires
        views.len() == blocks.len(),
        forall|i: int| 0 <= i < blocks.len() ==> views[i] == (#[trigger] blocks[i]).deep_view(),
    ensures
        text_of_blocks(blocks) == shown_by(views),
    decreases blocks.len(),
{
    if blocks.len() > 0 {
        let front = blocks.drop_last();
        assert forall|i: int| 0 <= i < front.len() implies views.drop_last()[i] == (
        #[trigger] front[i]).deep_view() by {
            assert(front[i] == blocks[i]);
        }
        texts_are_shown(front, views.drop_last());
        assert(views.last() == blocks[blocks.len() - 1].deep_view());
    }
}

/// A block says nothing only where it is one of text or of thinking without any, a
/// document, or the answer of a tool.
pub proof fn what_says_something(block: ContentBlock)
    ensures
        block is ToolUse || block is Image ==> says_something(block),
        block matches ContentBlock::Text { text, .. } ==> (says_something(block)
            <==> text@.len() > 0),
        block matches ContentBlock::Thinking { thinking, .. } ==> (says_something(block)
            <==> thinking@.len() > 0),
        block matches ContentBlock::RedactedThinking { data } ==> (says_something(block)
            <==> data@.len() > 0),
        block is File || block is ToolResult ==> !says_something(block),
{
}

/// A request says that it holds JSON, shows the key, and says that it takes events where it
/// asks for a stream, and only there.
pub proof fn requests_show_the_key(api_key: Seq<char>, stream: bool)
    ensures
        ({
            let headers = driver_headers(api_key, stream);
            &&& headers.contains(("content-type"@, "application/json"@))
            &&& headers.contains(("authorization"@, "Bearer "@ + api_key))
            &&& headers.contains(("accept"@, "text/event-stream"@)) <==> stream
        }),
{
    let headers = driver_headers(api_key, stream);
    assert(headers[0] == ("content-type"@, "application/json"@));
    assert(headers.last() == ("authorization"@, "Bearer "@ + api_key));
    assert(headers[headers.len() - 1] == headers.last());
    if stream {
        assert(headers[1] == ("accept"@, "text/event-stream"@));
    } else {
        reveal_strlit("content-type");
        reveal_strlit("authorization");
        reveal_strlit("accept");
        assert("content-type"@.len() == 12 && "authorization"@.len() == 13 && "accept"@.len() == 6);
    }
}

/// What a log shows of a configuration is its provider and its address; of its key it shows
/// only whether there is one.
pub proof fn logs_show_no_key(provider: Seq<char>, has_key: bool, base_url: Option<Seq<char>>)
    ensures
        ({
            let shown = redacted(provider, has_key, base_url);
            &&& contains(shown, quoted_text(provider))
            &&& base_url matches Some(url) ==> contains(shown, quoted_text(url))
            &&& has_key ==> contains(shown, "api_key: "@ + "Some("@ + quoted_text("<redacted>"@))
            &&& !has_key ==> contains(shown, "api_key: None"@)
        }),
{
    let key = quoted_option(
        if has_key {
            Some("<redacted>"@)
        } else {
            None
        },
    );
    let url = quoted_option(base_url);
    let a = "DriverConfig { provider: "@ + quoted_text(provider);
    let b = a + ", api_key: "@;
    let c = b + key;
    let d = c + ", base_url: "@;
    let e = d + url;
    holds_the_end("DriverConfig { provider: "@, quoted_text(provider));
    holds_still(a, ", api_key: "@, quoted_text(provider));
    holds_still(b, key, quoted_text(provider));
    holds_still(c, ", base_url: "@, quoted_text(provider));
    holds_still(d, url, quoted_text(provider));
    holds_still(e, " }"@, quoted_text(provider));
    if let Some(address) = base_url {
        holds_the_end(d + "Some("@, quoted_text(address));
        holds_still(d + "Some("@ + quoted_text(address), ")"@ + " }"@, quoted_text(address));
        assert(d + "Some("@ + quoted_text(address) + (")"@ + " }"@) =~= e + " }"@);
    }
    reveal_strlit(", api_key: ");
    reveal_strlit("api_key: ");
    reveal_strlit(", ");
    assert(", api_key: "@ =~= ", "@ + "api_key: "@);
    if has_key {
        let shown = "api_key: "@ + "Some("@ + quoted_text("<redacted>"@);
        let front = a + ", "@;
        let rest = ")"@ + ", base_url: "@ + url + " }"@;
        holds_the_end(front, shown);
        holds_still(front + shown, rest, shown);
        assert(front + shown + rest =~= e + " }"@);
    } else {
        reveal_strlit("None");
        reveal_strlit("api_key: None");
        let shown = "api_key: None"@;
        assert(shown =~= "api_key: "@ + "None"@);
        let front = a + ", "@;
        let rest = ", base_url: "@ + url + " }"@;
        holds_the_end(front, shown);
        holds_still(front + shown, rest, shown);
        assert(front + shown + rest =~= e + " }"@);
    }
}

/// What an error says holds what was told of it: the status, the message, or how long to
/// wait.
pub proof fn errors_say_what_happened(error: ProviderErrorView)
    ensures
        match error {
            ProviderErrorView::Http(m) => contains(error_message(error), m),
            ProviderErrorView::Api { status, message } => contains(
                error_message(error),
                decimal(status as nat),
            ) && contains(error_message(error), message),
            ProviderErrorView::RateLimited { retry_after_ms } => contains(
                error_message(error),
                decimal(retry_after_ms as nat),
            ),
            ProviderErrorView::Parse(m) => contains(error_message(error), m),
            ProviderErrorView::MissingApiKey(m) => contains(error_message(error), m),
            ProviderErrorView::Overloaded { retry_after_ms } => contains(
                error_message(error),
                decimal(retry_after_ms as nat),
            ),
            ProviderErrorView::AuthenticationFailed(m) => contains(error_message(error), m),
            ProviderErrorView::ModelNotFound(m) => contains(error_message(error), m),
        },
{
    match error {
        ProviderErrorView::Http(m) => holds_the_end("HTTP error: "@, m),
        ProviderErrorView::Api { status, message } => {
            let number = decimal(status as nat);
            let front = "API error ("@ + number;
            holds_the_end("API error ("@, number);
            holds_still(front, "): "@, number);
            holds_still(front + "): "@, message, number);
            holds_the_end(front + "): "@, message);
        },
        ProviderErrorView::RateLimited { retry_after_ms } => {
            let number = decimal(retry_after_ms as nat);
            holds_the_end("Rate limited, retry after "@, number);
            holds_still("Rate limited, retry after "@ + number, "ms"@, number);
        },
        ProviderErrorView::Parse(m) => holds_the_end("Parse error: "@, m),
        ProviderErrorView::MissingApiKey(m) => holds_the_end("Missing API key: "@, m),
        ProviderErrorView::Overloaded { retry_after_ms } => {
            let number = decimal(retry_after_ms as nat);
            holds_the_end("Model overloaded, retry after "@, number);
            holds_still("Model overloaded, retry after "@ + number, "ms"@, number);
        },
        ProviderErrorView::AuthenticationFailed(m) => holds_the_end("Authentication failed: "@, m),
        ProviderErrorView::ModelNotFound(m) => holds_the_end("Model not found: "@, m),
    }
}

} // verus!
