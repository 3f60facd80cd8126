//! What the streaming providers share: errors, retries and plain-text completion.
use vstd::arithmetic::power2::pow2;
use vstd::prelude::*;
use vstd::string::StringSliceAdditionalSpecFns;
use vstd::utf8::{decode_utf8, encode_utf8, encode_utf8_decode_utf8, is_char_boundary};

use crate::duration::{Duration, MAX_NANOS, shorter};
use crate::json::{Json, JsonView};
use crate::message::{ContentBlock, EventView, Message, Role, StreamEvent};
use crate::text::{decimal, decimal_of, labelled, parse_unsigned, unsigned_of};

verus! {

/// Canonical User-Agent for outbound HTTP.
pub const RUNIC_USER_AGENT: &'static str = "runic/0.1.0";

/// The context window that a provider has unless it says otherwise.
pub const DEFAULT_CONTEXT_WINDOW: usize = 200000;

/// Errors a provider can raise.
#[derive(Debug, PartialEq)]
pub enum ProviderError {
    Auth(String),
    Http { status: u16, body: String },
    RateLimit { message: String, retry_after_secs: Option<u64> },
    Transport(String),
    Decode(String),
    UnsupportedModel(String),
    ModelSwitchUnsupported,
    Other(String),
}

/// The model of a provider error.
pub ghost enum ErrorView {
    Auth(Seq<char>),
    Http { status: u16, body: Seq<char> },
    RateLimit { message: Seq<char>, retry_after_secs: Option<u64> },
    Transport(Seq<char>),
    Decode(Seq<char>),
    UnsupportedModel(Seq<char>),
    ModelSwitchUnsupported,
    Other(Seq<char>),
}

impl DeepView for ProviderError {
    type V = ErrorView;

    open spec fn deep_view(&self) -> ErrorView {
        match *self {
            ProviderError::Auth(m) => ErrorView::Auth(m@),
            ProviderError::Http { status, body } => ErrorView::Http { status, body: body@ },
            ProviderError::RateLimit { message, retry_after_secs } => ErrorView::RateLimit {
                message: message@,
                retry_after_secs,
            },
            ProviderError::Transport(m) => ErrorView::Transport(m@),
            ProviderError::Decode(m) => ErrorView::Decode(m@),
            ProviderError::UnsupportedModel(m) => ErrorView::UnsupportedModel(m@),
            ProviderError::ModelSwitchUnsupported => ErrorView::ModelSwitchUnsupported,
            ProviderError::Other(m) => ErrorView::Other(m@),
        }
    }
}

/// An optional count as Rust's `{:?}` prints it.
pub open spec fn optional_count(n: Option<u64>) -> Seq<char> {
    match n {
        Some(n) => "Some("@ + decimal(n as nat) + ")"@,
        None => "None"@,
    }
}

/// The message of an error.
pub open spec fn error_message(error: ErrorView) -> Seq<char> {
    match error {
        ErrorView::Auth(m) => "authentication failed: "@ + m,
        ErrorView::Http { status, body } => "HTTP error ("@ + decimal(status as nat) + "): "@
            + body,
        ErrorView::RateLimit { message, retry_after_secs } => "rate limited (retry after "@
            + optional_count(retry_after_secs) + "s): "@ + message,
        ErrorView::Transport(m) => "transport error: "@ + m,
        ErrorView::Decode(m) => "decode error: "@ + m,
        ErrorView::UnsupportedModel(m) => "model not supported: "@ + m,
        ErrorView::ModelSwitchUnsupported => "model switching not supported by this provider"@,
        ErrorView::Other(m) => m,
    }
}

impl ProviderError {
    /// An error of no particular sort.
    pub fn other(msg: String) -> (r: ProviderError)
        ensures
            r.deep_view() == ErrorView::Other(msg@),
    {
        ProviderError::Other(msg)
    }

    /// An error of decoding.
    pub fn decode(msg: String) -> (r: ProviderError)
        ensures
            r.deep_view() == ErrorView::Decode(msg@),
    {
        ProviderError::Decode(msg)
    }

    /// The error as a sentence for people.
    pub fn message(&self) -> (r: String)
        ensures
            r@ == error_message(self.deep_view()),
    {
        match self {
            ProviderError::Auth(m) => labelled("authentication failed: ", m.as_str()),
            ProviderError::Http { status, body } => {
                let mut out = labelled("HTTP error (", decimal_of(*status as u128).as_str());
                out.append("): ");
                out.append(body.as_str());
                out
            },
            ProviderError::RateLimit { message, retry_after_secs } => {
                let secs = match retry_after_secs {
                    Some(n) => {
                        let mut some = labelled("Some(", decimal_of(*n as u128).as_str());
                        some.append(")");
                        some
                    },
                    None => "None".to_owned(),
                };
                let mut out = labelled("rate limited (retry after ", secs.as_str());
                out.append("s): ");
                out.append(message.as_str());
                out
            },
            ProviderError::Transport(m) => labelled("transport error: ", m.as_str()),
            ProviderError::Decode(m) => labelled("decode error: ", m.as_str()),
            ProviderError::UnsupportedModel(m) => labelled("model not supported: ", m.as_str()),
            ProviderError::ModelSwitchUnsupported =>
                "model switching not supported by this provider".to_owned(),
            ProviderError::Other(m) => m.clone(),
        }
    }
}

/// Per-request retry policy around the sending of a request.
#[derive(Debug, Clone, Copy, PartialEq)]
pub struct RetryPolicy {
    /// Total attempts, the first one too. 1 means no retries.
    pub max_attempts: u32,
    pub base_delay: Duration,
    pub max_delay: Duration,
}

impl Default for RetryPolicy {
    fn default() -> (r: RetryPolicy)
        ensures
            r.max_attempts == 5,
            r.base_delay@ == 1_000_000_000,
            r.max_delay@ == 60_000_000_000,
    {
        RetryPolicy {
            max_attempts: 5,
            base_delay: Duration::from_secs(1),
            max_delay: Duration::from_secs(60),
        }
    }
}

/// Whether a status is that of a failure which may pass.
pub open spec fn transient_status(status: u16) -> bool {
    status == 408 || status == 429 || status == 500 || status == 502 || status == 503 || status
        == 504
}

/// Whether an error is worth another attempt.
pub open spec fn retryable(error: ErrorView) -> bool {
    match error {
        ErrorView::Transport(_) => true,
        ErrorView::RateLimit { .. } => true,
        ErrorView::Http { status, .. } => transient_status(status),
        _ => false,
    }
}

/// Classify whether an error is worth retrying.
pub fn is_retryable(err: &ProviderError) -> (r: bool)
    ensures
        r == retryable(err.deep_view()),
{
    match err {
        ProviderError::Transport(_) => true,
        ProviderError::RateLimit { .. } => true,
        ProviderError::Http { status, .. } => *status == 408 || *status == 429 || *status == 500
            || *status == 502 || *status == 503 || *status == 504,
        _ => false,
    }
}

/// How often the base delay doubles before the given attempt is repeated.
pub open spec fn doublings(attempt: u32) -> nat {
    if attempt == 0 {
        0
    } else {
        (attempt - 1) as nat
    }
}

/// The nanoseconds to wait after a failed attempt: what the server asks for, else the
/// base delay doubled with each attempt, and never longer than the longest delay.
pub open spec fn delay_after(policy: RetryPolicy, error: ErrorView, attempt: u32) -> nat {
    match error {
        ErrorView::RateLimit { retry_after_secs: Some(secs), .. } => shorter(
            (secs * 1_000_000_000) as nat,
            policy.max_delay@,
        ),
        _ => shorter(policy.base_delay@ * pow2(doublings(attempt)), policy.max_delay@),
    }
}

proof fn doubling_never_shrinks(base: nat, n: nat, m: nat)
    requires
        n <= m,
    ensures
        base * pow2(n) <= base * pow2(m),
{
    if n < m {
        vstd::arithmetic::power2::lemma_pow2_strictly_increases(n, m);
    }
    assert(base * pow2(n) <= base * pow2(m)) by (nonlinear_arith)
        requires
            pow2(n) <= pow2(m),
    ;
}

/// Compute the delay before the next attempt.
pub fn next_delay(policy: &RetryPolicy, err: &ProviderError, attempt: u32) -> (r: Duration)
    ensures
        r@ == delay_after(*policy, err.deep_view(), attempt),
{
    if let ProviderError::RateLimit { retry_after_secs: Some(secs), .. } = err {
        return Duration::from_secs(*secs).min(policy.max_delay);
    }
    let ghost base = policy.base_delay@;
    let longest: u128 = policy.max_delay.as_nanos();
    let mut delay = policy.base_delay.min(policy.max_delay);
    let mut doubled: u32 = 0;
    proof {
        vstd::arithmetic::power2::lemma2_to64();
    }
    if delay.as_nanos() == 0 {
        proof {
            let times = pow2(doublings(attempt));
            assert(base == 0 ==> base * times == 0) by (nonlinear_arith);
        }
        return delay;
    }
    while doubled + 1 < attempt && delay.as_nanos() < longest
        invariant
            base == policy.base_delay@,
            longest == policy.max_delay@,
            longest <= MAX_NANOS,
            doubled == 0 || doubled + 1 <= attempt,
            delay@ == shorter(base * pow2(doubled as nat), policy.max_delay@),
        decreases attempt - doubled,
    {
        proof {
            vstd::arithmetic::power2::lemma_pow2_unfold((doubled + 1) as nat);
            assert(base * (2 * pow2(doubled as nat)) == 2 * (base * pow2(doubled as nat)))
                by (nonlinear_arith);
        }
        delay = delay.saturating_mul(2).min(policy.max_delay);
        doubled = doubled + 1;
    }
    proof {
        if doubled + 1 < attempt {
            doubling_never_shrinks(base, doubled as nat, doublings(attempt));
        }
    }
    delay
}

/// However often a request failed, and whatever the server asks for, no wait is longer
/// than the policy's longest delay.
pub proof fn waits_are_capped(policy: RetryPolicy, error: ErrorView, attempt: u32)
    ensures
        delay_after(policy, error, attempt) <= policy.max_delay@,
{
}

/// The same failure again is never followed by a shorter wait.
pub proof fn waits_never_shrink(policy: RetryPolicy, error: ErrorView, attempt: u32, later: u32)
    requires
        attempt <= later,
    ensures
        delay_after(policy, error, attempt) <= delay_after(policy, error, later),
{
    doubling_never_shrinks(policy.base_delay@, doublings(attempt), doublings(later));
}

/// What to do after a failed attempt.
#[derive(Debug)]
pub enum RetryStep {
    /// Report the error.
    GiveUp,
    /// Wait, then make another attempt.
    Retry { attempt: u32, max: u32, delay: Duration },
}

/// How many attempts a policy allows: one at the least.
pub open spec fn attempts_allowed(policy: RetryPolicy) -> u32 {
    if policy.max_attempts == 0 {
        1
    } else {
        policy.max_attempts
    }
}

/// Whether the error of the given attempt is reported, not retried.
pub open spec fn gives_up(policy: RetryPolicy, error: ErrorView, attempt: u32) -> bool {
    !retryable(error) || attempt >= attempts_allowed(policy)
}

/// Decides what to do after the attempt of the given number, the first being 1, failed.
pub fn retry_step(policy: &RetryPolicy, err: &ProviderError, attempt: u32) -> (r: RetryStep)
    ensures
        match r {
            RetryStep::GiveUp => gives_up(*policy, err.deep_view(), attempt),
            RetryStep::Retry { attempt: n, max, delay } => !gives_up(
                *policy,
                err.deep_view(),
                attempt,
            ) && n == attempt && max == attempts_allowed(*policy) && delay@ == delay_after(
                *policy,
                err.deep_view(),
                attempt,
            ) && attempt < u32::MAX,
        },
{
    let max: u32 = if policy.max_attempts == 0 {
        1
    } else {
        policy.max_attempts
    };
    if !is_retryable(err) || attempt >= max {
        RetryStep::GiveUp
    } else {
        RetryStep::Retry { attempt, max, delay: next_delay(policy, err, attempt) }
    }
}

/// The number of the attempt whose outcome is reported, where the attempts come out as
/// `outcomes` says: `None` for success. The first attempt stands at `attempt`.
pub open spec fn last_attempt(
    policy: RetryPolicy,
    outcomes: spec_fn(u32) -> Option<ErrorView>,
    attempt: u32,
) -> u32
    decreases u32::MAX - attempt,
{
    match outcomes(attempt) {
        Some(error) if attempt < u32::MAX && !gives_up(policy, error, attempt) => last_attempt(
            policy,
            outcomes,
            (attempt + 1) as u32,
        ),
        _ => attempt,
    }
}

/// Whatever the outcomes, a request is attempted no more often than the policy allows,
/// and every attempt before the last failed with an error worth retrying.
pub proof fn attempts_are_bounded(
    policy: RetryPolicy,
    outcomes: spec_fn(u32) -> Option<ErrorView>,
    attempt: u32,
)
    requires
        1 <= attempt <= attempts_allowed(policy),
    ensures
        attempt <= last_attempt(policy, outcomes, attempt) <= attempts_allowed(policy),
        forall|k: u32|
            attempt <= k < last_attempt(policy, outcomes, attempt) ==> (#[trigger] outcomes(
                k,
            ) is Some && retryable(outcomes(k)->0)),
    decreases u32::MAX - attempt,
{
    match outcomes(attempt) {
        Some(error) if attempt < u32::MAX && !gives_up(policy, error, attempt) => {
            attempts_are_bounded(policy, outcomes, (attempt + 1) as u32);
        },
        _ => {},
    }
}

/// A refused key, an answer that cannot be decoded and an unsupported model are
/// reported at the first attempt.
pub proof fn hopeless_errors_are_not_retried(
    policy: RetryPolicy,
    outcomes: spec_fn(u32) -> Option<ErrorView>,
)
    requires
        outcomes(1) matches Some(error) && (error is Auth || error is Decode
            || error is UnsupportedModel || error is ModelSwitchUnsupported || error is Other),
    ensures
        last_attempt(policy, outcomes, 1) == 1,
{
}

/// The error that a failed response is reported as.
pub open spec fn response_error(
    status: u16,
    retry_after: Option<Seq<char>>,
    body: Seq<char>,
) -> ErrorView {
    if status == 401 || status == 403 {
        ErrorView::Auth(body)
    } else if status == 429 {
        ErrorView::RateLimit {
            message: body,
            retry_after_secs: match retry_after {
                Some(text) => parse_unsigned(text),
                None => None,
            },
        }
    } else {
        ErrorView::Http { status, body }
    }
}

/// Classifies a failed response by its status; a `retry-after` header counts where it
/// gives whole seconds.
pub fn classify_response(status: u16, retry_after: Option<&str>, body: String) -> (r: ProviderError)
    ensures
        r.deep_view() == response_error(status, retry_after.deep_view(), body@),
{
    if status == 401 || status == 403 {
        ProviderError::Auth(body)
    } else if status == 429 {
        let retry_after_secs = match retry_after {
            Some(text) => unsigned_of(text),
            None => None,
        };
        ProviderError::RateLimit { message: body, retry_after_secs }
    } else {
        ProviderError::Http { status, body }
    }
}

/// The messages of a plain prompt.
pub fn simple_messages(prompt: &str) -> (r: Vec<Message>)
    ensures
        r@.len() == 1,
        r@[0].role == Role::User,
        r@[0].content@.len() == 1,
        r@[0].content@[0] matches ContentBlock::Text {
            text: t,
            cache_control: None,
        } && t@ == prompt@,
{
    let mut messages: Vec<Message> = Vec::new();
    messages.push(Message::user(prompt));
    messages
}

/// Puts the text of a streamed completion together; the first error ends it.
#[derive(Debug)]
pub struct TextCollector {
    text: String,
}

impl View for TextCollector {
    type V = Seq<char>;

    closed spec fn view(&self) -> Seq<char> {
        self.text@
    }
}

impl TextCollector {
    /// A collector of nothing yet.
    pub fn new() -> (r: TextCollector)
        ensures
            r@ == Seq::<char>::empty(),
    {
        TextCollector { text: String::new() }
    }

    /// Takes the next event of the stream: text is appended, an error is handed back, and
    /// anything else passes by.
    pub fn take(&mut self, event: Result<StreamEvent, ProviderError>) -> (r: Result<
        (),
        ProviderError,
    >)
        ensures
            match event {
                Ok(StreamEvent::TextDelta(t)) => r is Ok && final(self)@ == old(self)@ + t@,
                Ok(_) => r is Ok && final(self)@ == old(self)@,
                Err(error) => r == Err::<(), ProviderError>(error) && final(self)@ == old(self)@,
            },
    {
        match event {
            Ok(StreamEvent::TextDelta(t)) => {
                self.text.append(t.as_str());
                Ok(())
            },
            Ok(_) => Ok(()),
            Err(error) => Err(error),
        }
    }

    /// The text so far.
    pub fn text(self) -> (r: String)
        ensures
            r@ == self@,
    {
        self.text
    }
}

/// The beginning of a text for a log: all of it where it has at most `max` bytes, else
/// its first `max` bytes and an ellipsis.
pub open spec fn log_excerpt(s: Seq<char>, max: nat) -> Seq<char> {
    if encode_utf8(s).len() <= max {
        s
    } else {
        decode_utf8(encode_utf8(s).take(max as int)) + "…"@
    }
}

/// The beginning of a text for a log. The cut may not fall inside a character.
pub fn truncate_for_log(s: &str, max: usize) -> (r: String)
    requires
        encode_utf8(s@).len() <= max || is_char_boundary(encode_utf8(s@), max as int),
    ensures
        r@ == log_excerpt(s@, max as nat),
{
    if s.as_bytes().len() <= max {
        s.to_owned()
    } else {
        let (head, _) = s.split_at(max);
        proof {
            assert(head.spec_bytes() =~= encode_utf8(s@).take(max as int));
            encode_utf8_decode_utf8(head@);
        }
        labelled(head, "…")
    }
}

/// The complaint about data that cannot be decoded.
pub fn chunk_decode_error(vendor: &str, error: &str, data: &str) -> (r: ProviderError)
    requires
        quotable(data@),
    ensures
        r.deep_view() == chunk_error(vendor@, error@, data@),
{
    let mut out = labelled(vendor, " chunk decode error: ");
    out.append(error);
    out.append(" — data: ");
    out.append(truncate_for_log(data, 200).as_str());
    ProviderError::Decode(out)
}

/// The complaint about an event stream that cannot be decoded.
pub fn sse_decode_error(error: &str) -> (r: ProviderError)
    ensures
        r.deep_view() == stream_error(error@),
{
    ProviderError::Decode(labelled("SSE decode error: ", error))
}

/// What comes next on an event stream.
#[derive(Debug)]
pub enum StreamInput {
    /// An event, with its kind and its data.
    Event { event: String, data: String },
    /// The stream cannot be decoded.
    Broken(String),
    /// The stream is over.
    Ended,
}

/// The model of what comes next on an event stream.
pub ghost enum InputView {
    Event { event: Seq<char>, data: Seq<char> },
    Broken(Seq<char>),
    Ended,
}

impl DeepView for StreamInput {
    type V = InputView;

    open spec fn deep_view(&self) -> InputView {
        match *self {
            StreamInput::Event { event, data } => InputView::Event { event: event@, data: data@ },
            StreamInput::Broken(error) => InputView::Broken(error@),
            StreamInput::Ended => InputView::Ended,
        }
    }
}

/// What a completion hands on: events, then perhaps an error, and whether that was all.
#[derive(Debug)]
pub struct StreamStep {
    pub events: Vec<StreamEvent>,
    pub error: Option<ProviderError>,
    pub over: bool,
}

/// The model of what a completion hands on.
pub ghost struct StepView {
    pub events: Seq<EventView>,
    pub error: Option<ErrorView>,
    pub over: bool,
}

impl DeepView for StreamStep {
    type V = StepView;

    open spec fn deep_view(&self) -> StepView {
        StepView {
            events: self.events.deep_view(),
            error: self.error.deep_view(),
            over: self.over,
        }
    }
}

/// Events, with more to come.
pub open spec fn going_on(events: Seq<EventView>) -> StepView {
    StepView { events, error: None, over: false }
}

/// The last events.
pub open spec fn closing(events: Seq<EventView>) -> StepView {
    StepView { events, error: None, over: true }
}

/// An error, and nothing behind it.
pub open spec fn failing(error: ErrorView) -> StepView {
    StepView { events: Seq::empty(), error: Some(error), over: true }
}

/// Events, with more to come.
pub fn go_on(events: Vec<StreamEvent>) -> (r: StreamStep)
    ensures
        r.deep_view() == going_on(events.deep_view()),
{
    StreamStep { events, error: None, over: false }
}

/// The last events.
pub fn close(events: Vec<StreamEvent>) -> (r: StreamStep)
    ensures
        r.deep_view() == closing(events.deep_view()),
{
    StreamStep { events, error: None, over: true }
}

/// Nothing, with more to come.
pub fn pass() -> (r: StreamStep)
    ensures
        r.deep_view() == going_on(Seq::empty()),
{
    let events: Vec<StreamEvent> = Vec::new();
    assert(events.deep_view() =~= Seq::empty());
    go_on(events)
}

/// An error, and nothing behind it.
pub fn fail(error: ProviderError) -> (r: StreamStep)
    ensures
        r.deep_view() == failing(error.deep_view()),
{
    let events: Vec<StreamEvent> = Vec::new();
    assert(events.deep_view() =~= Seq::empty());
    StreamStep { events, error: Some(error), over: true }
}

/// What is said of JSON that is no chunk.
pub const CHUNK_MISMATCH: &'static str = "data does not have the shape of a chunk";

/// The complaint about data that cannot be decoded.
pub open spec fn chunk_error(vendor: Seq<char>, error: Seq<char>, data: Seq<char>) -> ErrorView {
    ErrorView::Decode(
        vendor + " chunk decode error: "@ + error + " — data: "@ + log_excerpt(data, 200),
    )
}

/// The complaint about an event stream that cannot be decoded.
pub open spec fn stream_error(error: Seq<char>) -> ErrorView {
    ErrorView::Decode("SSE decode error: "@ + error)
}

/// Whether data can be quoted in a complaint: the cut does not fall inside a character.
pub open spec fn quotable(data: Seq<char>) -> bool {
    encode_utf8(data).len() <= 200 || is_char_boundary(encode_utf8(data), 200)
}

/// The complaint about data that cannot be decoded; nothing where the data cannot be
/// quoted.
pub open spec fn complaint(
    vendor: Seq<char>,
    error: Seq<char>,
    data: Seq<char>,
) -> Option<StepView> {
    if quotable(data) {
        Some(failing(chunk_error(vendor, error, data)))
    } else {
        None
    }
}

/// The complaint about data that cannot be decoded; nothing where the data cannot be
/// quoted.
pub fn complain(vendor: &str, error: &str, data: &str) -> (r: Option<StreamStep>)
    ensures
        r.deep_view() == complaint(vendor@, error@, data@),
{
    if data.as_bytes().len() <= 200 || data.is_char_boundary(200) {
        Some(fail(chunk_decode_error(vendor, error, data)))
    } else {
        None
    }
}

/// A request to send: where to, with which headers and what.
#[derive(Debug)]
pub struct HttpRequest {
    pub url: String,
    pub headers: Vec<(String, String)>,
    pub body: Json,
}

/// The model of a request to send.
pub ghost struct HttpRequestView {
    pub url: Seq<char>,
    pub headers: Seq<(Seq<char>, Seq<char>)>,
    pub body: JsonView,
}

impl DeepView for HttpRequest {
    type V = HttpRequestView;

    open spec fn deep_view(&self) -> HttpRequestView {
        HttpRequestView {
            url: self.url@,
            headers: self.headers.deep_view(),
            body: self.body.deep_view(),
        }
    }
}

/// The headers of every request for a stream.
pub open spec fn stream_headers() -> Seq<(Seq<char>, Seq<char>)> {
    Seq::empty().push(("content-type"@, "application/json"@)).push(
        ("accept"@, "text/event-stream"@),
    )
}

/// Puts a header behind others.
pub fn add_header(headers: &mut Vec<(String, String)>, name: &str, value: &str)
    ensures
        final(headers).deep_view() == old(headers).deep_view().push((name@, value@)),
{
    let ghost before = headers.deep_view();
    headers.push((name.to_owned(), value.to_owned()));
    assert(headers.deep_view() =~= before.push((name@, value@)));
}

/// The headers of every request for a stream.
pub fn make_stream_headers() -> (r: Vec<(String, String)>)
    ensures
        r.deep_view() == stream_headers(),
{
    let mut headers: Vec<(String, String)> = Vec::new();
    assert(headers.deep_view() =~= Seq::empty());
    add_header(&mut headers, "content-type", "application/json");
    add_header(&mut headers, "accept", "text/event-stream");
    headers
}

/// Why a request failed, by its reply; `None` where it succeeded.
pub open spec fn reply_error(
    status: u16,
    retry_after: Option<Seq<char>>,
    body: Seq<char>,
) -> Option<ErrorView> {
    if 200 <= status < 300 {
        None
    } else {
        Some(response_error(status, retry_after, body))
    }
}

/// Why a request failed, by its reply; `None` where it succeeded.
pub fn check_reply(status: u16, retry_after: Option<&str>, body: String) -> (r: Option<
    ProviderError,
>)
    ensures
        r.deep_view() == reply_error(status, retry_after.deep_view(), body@),
{
    if status >= 200 && status < 300 {
        None
    } else {
        Some(classify_response(status, retry_after, body))
    }
}

} // verus!
