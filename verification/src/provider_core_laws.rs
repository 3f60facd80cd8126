//! What a failure is taken for, how long is waited and what is quoted.
use vstd::arithmetic::power2::{lemma2_to64, lemma_pow2_unfold, pow2};
use vstd::prelude::*;
use vstd::utf8::{
    decode_utf8, decode_utf8_encode_utf8, decode_utf8_split, encode_utf8, encode_utf8_decode_utf8,
    encode_utf8_valid_utf8, is_char_boundary, valid_utf8_split,
};

use crate::provider_core::{
    ErrorView, RetryPolicy, attempts_allowed, complaint, delay_after, error_message, gives_up,
    last_attempt, log_excerpt, quotable, reply_error, response_error, retryable, stream_error,
    stream_headers,
};
use crate::spelling_laws::numbers_read_back;
use crate::text::{contains, decimal, starts_with};
use crate::text_laws::{holds_still, holds_the_end};

verus! {

/// A reply is a failure unless its status is one of success. A refused key is told apart,
/// and so are too many requests, with the seconds that the server asks to wait; any other
/// failure keeps its status. Each holds what the server said.
pub proof fn failures_are_told_apart(status: u16, retry_after: Option<Seq<char>>, body: Seq<char>)
    ensures
        reply_error(status, retry_after, body) is None <==> 200 <= status <= 299,
        status == 401 || status == 403 ==> reply_error(status, retry_after, body) == Some(
            ErrorView::Auth(body),
        ),
        status == 429 ==> (reply_error(status, retry_after, body) matches Some(
            ErrorView::RateLimit { message, .. },
        ) && message == body),
        !(200 <= status <= 299) && status != 401 && status != 403 && status != 429 ==> reply_error(
            status,
            retry_after,
            body,
        ) == Some(ErrorView::Http { status, body }),
{
}

/// The seconds that a server asks to wait are those that it spells, and none where it
/// spells none.
pub proof fn waits_are_read(secs: u64, body: Seq<char>)
    ensures
        response_error(429, Some(decimal(secs as nat)), body) == (ErrorView::RateLimit {
            message: body,
            retry_after_secs: Some(secs),
        }),
        response_error(429, None, body) == (ErrorView::RateLimit {
            message: body,
            retry_after_secs: None,
        }),
{
    numbers_read_back(secs);
}

/// A failed reply is worth another attempt where it is one of too many requests, of a wait
/// that ran out, or of a server that failed for now; and so is a connection that broke.
/// Nothing else is.
pub proof fn passing_failures_are_retried(
    status: u16,
    retry_after: Option<Seq<char>>,
    body: Seq<char>,
    error: ErrorView,
)
    ensures
        retryable(response_error(status, retry_after, body)) <==> seq![
            408u16,
            429u16,
            500u16,
            502u16,
            503u16,
            504u16,
        ].contains(status),
        error is Transport || error is RateLimit ==> retryable(error),
        !(error is Transport || error is RateLimit || error is Http) ==> !retryable(error),
{
    let passing = seq![408u16, 429u16, 500u16, 502u16, 503u16, 504u16];
    assert(passing[0] == 408 && passing[1] == 429 && passing[2] == 500 && passing[3] == 502);
    assert(passing[4] == 503 && passing[5] == 504 && passing.len() == 6);
}

/// Where the server asks to wait, that is how long the wait is, unless it is longer than
/// the longest.
pub proof fn servers_set_the_wait(policy: RetryPolicy, message: Seq<char>, secs: u64, attempt: u32)
    ensures
        ({
            let asked = secs * 1_000_000_000;
            let wait = delay_after(
                policy,
                ErrorView::RateLimit { message, retry_after_secs: Some(secs) },
                attempt,
            );
            &&& asked <= policy.max_delay@ ==> wait == asked
            &&& asked > policy.max_delay@ ==> wait == policy.max_delay@
        }),
{
}

/// Else the first wait is the base delay, and each further one is twice as long as the one
/// before, until the longest is reached.
pub proof fn waits_double(policy: RetryPolicy, error: ErrorView, attempt: u32)
    requires
        !(error matches ErrorView::RateLimit { retry_after_secs: Some(_), .. }),
        1 <= attempt < u32::MAX,
    ensures
        ({
            let longest = policy.max_delay@;
            let first = delay_after(policy, error, 1);
            let wait = delay_after(policy, error, attempt);
            let next = delay_after(policy, error, (attempt + 1) as u32);
            &&& policy.base_delay@ <= longest ==> first == policy.base_delay@
            &&& policy.base_delay@ > longest ==> first == longest
            &&& 2 * wait <= longest ==> next == 2 * wait
            &&& 2 * wait > longest ==> next == longest
        }),
{
    lemma2_to64();
    lemma_pow2_unfold(attempt as nat);
    let base = policy.base_delay@;
    let times = pow2((attempt - 1) as nat);
    assert(base * (2 * times) == 2 * (base * times)) by (nonlinear_arith);
    assert(base * 1 == base);
}

/// The outcome that is reported is a success, an error that is not worth another attempt,
/// or that of the last attempt that is allowed.
pub proof fn attempts_are_not_cut_short(
    policy: RetryPolicy,
    outcomes: spec_fn(u32) -> Option<ErrorView>,
    attempt: u32,
)
    requires
        1 <= attempt <= attempts_allowed(policy),
    ensures
        ({
            let last = last_attempt(policy, outcomes, attempt);
            ||| outcomes(last) is None
            ||| !retryable(outcomes(last)->0)
            ||| last == policy.max_attempts
            ||| policy.max_attempts == 0 && last == 1
        }),
    decreases u32::MAX - attempt,
{
    match outcomes(attempt) {
        Some(error) if attempt < u32::MAX && !gives_up(policy, error, attempt) => {
            attempts_are_not_cut_short(policy, outcomes, (attempt + 1) as u32);
        },
        _ => {},
    }
}

/// What is quoted of a text is all of it, where it is short enough; else it is the text's
/// beginning, of exactly as many bytes as are allowed, and an ellipsis behind it.
pub proof fn excerpts_begin_the_text(s: Seq<char>, max: nat)
    requires
        encode_utf8(s).len() <= max || is_char_boundary(encode_utf8(s), max as int),
    ensures
        encode_utf8(s).len() <= max ==> log_excerpt(s, max) == s,
        encode_utf8(s).len() > max ==> {
            let head = log_excerpt(s, max).drop_last();
            &&& log_excerpt(s, max).len() > 0
            &&& log_excerpt(s, max).last() == '…'
            &&& starts_with(s, head)
            &&& encode_utf8(head) == encode_utf8(s).take(max as int)
        },
{
    let bytes = encode_utf8(s);
    if bytes.len() > max {
        reveal_strlit("…");
        let front = bytes.subrange(0, max as int);
        let back = bytes.subrange(max as int, bytes.len() as int);
        encode_utf8_valid_utf8(s);
        encode_utf8_decode_utf8(s);
        valid_utf8_split(bytes, max as int);
        decode_utf8_split(bytes, max as int);
        decode_utf8_encode_utf8(front);
        assert(bytes.take(max as int) =~= front);
        let head = log_excerpt(s, max).drop_last();
        assert(head =~= decode_utf8(front));
        assert(s == head + decode_utf8(back));
        assert(s.take(head.len() as int) =~= head);
    }
}

/// A complaint about data names the vendor, says what is wrong and quotes the data; it ends
/// the completion, and nothing is told beside it.
pub proof fn complaints_say_what_is_wrong(vendor: Seq<char>, error: Seq<char>, data: Seq<char>)
    ensures
        complaint(vendor, error, data) is Some <==> quotable(data),
        quotable(data) ==> {
            let step = complaint(vendor, error, data)->0;
            &&& step.over && step.events.len() == 0
            &&& step.error matches Some(ErrorView::Decode(said)) && starts_with(said, vendor)
                && contains(said, error) && contains(said, log_excerpt(data, 200))
        },
        stream_error(error) matches ErrorView::Decode(said) && contains(said, error),
{
    let a = vendor + " chunk decode error: "@;
    let b = a + error;
    let c = b + " — data: "@;
    let quote = log_excerpt(data, 200);
    holds_the_end(a, error);
    holds_still(b, " — data: "@, error);
    holds_still(c, quote, error);
    holds_the_end(c, quote);
    assert((c + quote).take(vendor.len() as int) =~= vendor);
    holds_the_end("SSE decode error: "@, error);
}

/// What an error says holds what was told of it.
pub proof fn errors_say_what_happened(error: ErrorView)
    ensures
        match error {
            ErrorView::Auth(m) => contains(error_message(error), m),
            ErrorView::Http { status, body } => contains(error_message(error), body) && contains(
                error_message(error),
                decimal(status as nat),
            ),
            ErrorView::RateLimit { message, retry_after_secs } => contains(
                error_message(error),
                message,
            ),
            ErrorView::Transport(m) => contains(error_message(error), m),
            ErrorView::Decode(m) => contains(error_message(error), m),
            ErrorView::UnsupportedModel(m) => contains(error_message(error), m),
            ErrorView::ModelSwitchUnsupported => true,
            ErrorView::Other(m) => error_message(error) == m,
        },
{
    match error {
        ErrorView::Auth(m) => holds_the_end("authentication failed: "@, m),
        ErrorView::Http { status, body } => {
            let number = decimal(status as nat);
            holds_the_end("HTTP error ("@, number);
            holds_still("HTTP error ("@ + number, "): "@, number);
            holds_still("HTTP error ("@ + number + "): "@, body, number);
            holds_the_end("HTTP error ("@ + number + "): "@, body);
        },
        ErrorView::RateLimit { message, retry_after_secs } => holds_the_end(
            "rate limited (retry after "@ + crate::provider_core::optional_count(retry_after_secs)
                + "s): "@,
            message,
        ),
        ErrorView::Transport(m) => holds_the_end("transport error: "@, m),
        ErrorView::Decode(m) => holds_the_end("decode error: "@, m),
        ErrorView::UnsupportedModel(m) => holds_the_end("model not supported: "@, m),
        _ => {},
    }
}

/// Every request for a stream says that it holds JSON and that it takes events.
pub proof fn streams_are_asked_for()
    ensures
        stream_headers().contains(("content-type"@, "application/json"@)),
        stream_headers().contains(("accept"@, "text/event-stream"@)),
{
    assert(stream_headers()[0] == ("content-type"@, "application/json"@));
    assert(stream_headers()[1] == ("accept"@, "text/event-stream"@));
}

} // verus!
