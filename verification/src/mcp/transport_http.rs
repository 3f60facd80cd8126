//! What a connection to an HTTP server says, and what it makes of what comes back.
use reqwest::header::{HeaderMap, HeaderName, HeaderValue};
use vstd::prelude::*;

use crate::json::{Json, JsonView, json_read, printed};
use crate::mcp::client::answer_view;
use crate::mcp::error::{McpError, McpErrorView};
use crate::mcp::protocol::{
    JSONRPC_VERSION, JsonRpcNotification, JsonRpcRequest, JsonRpcResponse, notification_json,
    request_json, response_read,
};
use crate::mcp::transport::{
    REQUEST_TIMEOUT_SECS, RequestIdCounter, next_id, nth_id, outcome_of, request_timeout,
    response_outcome,
};
use crate::table::Table;
use crate::text::{
    begins, decimal, decimal_of, labelled, lower, lowercase, starts_with, trim, trimmed,
};

verus! {

/// The header in which a server tells the session, and gets it told.
pub const SESSION_ID_HEADER: &'static str = "mcp-session-id";

/// The User-Agent of the transport.
pub const USER_AGENT: &'static str = "runic-mcp/0.1.0";

/// How many headers of its own a connection may have.
pub const MAX_EXTRA_HEADERS: usize = 6550;

/// The headers of a request.
#[verifier::external_type_specification]
#[verifier::external_body]
#[verifier::reject_recursive_types(T)]
pub struct ExHeaderMap<T>(HeaderMap<T>);

/// The value of a header.
#[verifier::external_type_specification]
#[verifier::external_body]
pub struct ExHeaderValue(HeaderValue);

/// What a map of headers holds: the values by name, in lower case.
pub uninterp spec fn header_entries(headers: HeaderMap<HeaderValue>) -> Map<Seq<char>, Seq<char>>;

/// No headers.
pub open spec fn no_entries() -> Map<Seq<char>, Seq<char>> {
    Map::empty()
}

/// Whether a character may stand in the name of a header.
pub open spec fn is_token(c: char) -> bool {
    ('a' <= c && c <= 'z') || ('A' <= c && c <= 'Z') || ('0' <= c && c <= '9') || c == '!' || c
        == '#' || c == '$' || c == '%' || c == '&' || c == '\'' || c == '*' || c == '+' || c == '-'
        || c == '.' || c == '^' || c == '_' || c == '`' || c == '|' || c == '~'
}

/// Whether a text can be the name of a header.
pub open spec fn valid_name(name: Seq<char>) -> bool {
    0 < name.len() <= 65535 && forall|i: int| 0 <= i < name.len() ==> is_token(#[trigger] name[i])
}

/// Whether a text can be the value of a header.
pub open spec fn valid_value(value: Seq<char>) -> bool {
    forall|i: int|
        0 <= i < value.len() ==> (#[trigger] value[i]) == '\t' || (value[i] >= ' ' && value[i]
            != '\u{7f}')
}

/// A letter of the Latin alphabet in lower case; other characters stay.
pub open spec fn small(c: char) -> char {
    if 'A' <= c && c <= 'Z' {
        (c as u32 + 32) as char
    } else {
        c
    }
}

/// The name of a header in lower case.
pub open spec fn small_name(name: Seq<char>) -> Seq<char> {
    name.map_values(|c: char| small(c))
}

/// Calls `HeaderName::from_bytes`. The contract says which names it takes, and what the
/// error that it gives otherwise prints.
#[verifier::external_body]
fn check_name(name: &str) -> (r: Result<(), String>)
    ensures
        match r {
            Ok(_) => valid_name(name@),
            Err(error) => !valid_name(name@) && error@ == "invalid HTTP header name"@,
        },
{
    match HeaderName::from_bytes(name.as_bytes()) {
        Ok(_) => Ok(()),
        Err(error) => Err(error.to_string()),
    }
}

/// Calls `HeaderValue::from_str`. The contract says which values it takes, and what the
/// error that it gives otherwise prints.
#[verifier::external_body]
fn check_value(value: &str) -> (r: Result<(), String>)
    ensures
        match r {
            Ok(_) => valid_value(value@),
            Err(error) => !valid_value(value@) && error@ == "failed to parse header value"@,
        },
{
    match HeaderValue::from_str(value) {
        Ok(_) => Ok(()),
        Err(error) => Err(error.to_string()),
    }
}

/// Calls `HeaderMap::new`. The contract claims that the map holds nothing.
#[verifier::external_body]
fn no_headers() -> (r: HeaderMap<HeaderValue>)
    ensures
        header_entries(r) == no_entries(),
{
    HeaderMap::new()
}

/// Calls `HeaderMap::clone`. The contract claims that the copy holds the same.
#[verifier::external_body]
fn same_headers(headers: &HeaderMap<HeaderValue>) -> (r: HeaderMap<HeaderValue>)
    ensures
        header_entries(r) == header_entries(*headers),
{
    headers.clone()
}

/// Calls `HeaderMap::insert` with a name and a value that are valid. The contract claims
/// that the value stands under the name in lower case afterwards, in the place of what
/// stood there. The method panics where the map would grow beyond its largest size, which
/// takes at least 6554 names.
#[verifier::external_body]
fn insert_header(headers: &mut HeaderMap<HeaderValue>, name: &str, value: &str)
    requires
        valid_name(name@),
        valid_value(value@),
        header_entries(*old(headers)).dom().finite(),
        header_entries(*old(headers)).dom().len() < 6554,
    ensures
        header_entries(*final(headers)) == header_entries(*old(headers)).insert(
            small_name(name@),
            value@,
        ),
{
    match (HeaderName::from_bytes(name.as_bytes()), HeaderValue::from_str(value)) {
        (Ok(name), Ok(value)) => {
            headers.insert(name, value);
        },
        _ => {},
    }
}

/// A status of HTTP as text: its number and its reason.
pub uninterp spec fn status_text(status: u16) -> Seq<char>;

/// Calls the `Display` of `StatusCode`. The contract names what it prints.
#[verifier::external_body]
fn print_status(status: u16) -> (r: String)
    requires
        100 <= status <= 999,
    ensures
        r@ == status_text(status),
{
    match reqwest::StatusCode::from_u16(status) {
        Ok(code) => code.to_string(),
        Err(error) => error.to_string(),
    }
}

/// The headers that texts spell, or the first of them that is none. Of a repeated name
/// the last counts.
pub open spec fn headers_in(entries: Seq<(String, String)>) -> Result<
    Map<Seq<char>, Seq<char>>,
    McpErrorView,
>
    decreases entries.len(),
{
    if entries.len() == 0 {
        Ok(Map::empty())
    } else {
        match headers_in(entries.drop_last()) {
            Err(error) => Err(error),
            Ok(before) => {
                let name = entries.last().0@;
                let value = entries.last().1@;
                if !valid_name(name) {
                    Err(
                        McpErrorView::Protocol(
                            "invalid header name '"@ + name + "': "@ + "invalid HTTP header name"@,
                        ),
                    )
                } else if !valid_value(value) {
                    Err(
                        McpErrorView::Protocol(
                            "invalid header value for '"@ + name + "': "@
                                + "failed to parse header value"@,
                        ),
                    )
                } else {
                    Ok(before.insert(small_name(name), value))
                }
            },
        }
    }
}

proof fn a_bad_header_spoils_all(entries: Seq<(String, String)>, k: int)
    requires
        0 <= k <= entries.len(),
        headers_in(entries.take(k)) is Err,
    ensures
        headers_in(entries) == headers_in(entries.take(k)),
    decreases entries.len() - k,
{
    if k < entries.len() {
        assert(entries.take(k + 1).drop_last() =~= entries.take(k));
        a_bad_header_spoils_all(entries, k + 1);
    } else {
        assert(entries.take(k) =~= entries);
    }
}

/// A connection to an HTTP server.
#[derive(Debug)]
pub struct HttpTransport {
    server_name: String,
    url: String,
    request_id: RequestIdCounter,
    session_id: Option<String>,
    extra_headers: HeaderMap<HeaderValue>,
}

/// The model of a connection to an HTTP server.
pub ghost struct HttpView {
    pub server_name: Seq<char>,
    pub url: Seq<char>,
    pub upcoming: u64,
    pub session_id: Option<Seq<char>>,
    pub extra_headers: Map<Seq<char>, Seq<char>>,
}

impl DeepView for HttpTransport {
    type V = HttpView;

    closed spec fn deep_view(&self) -> HttpView {
        HttpView {
            server_name: self.server_name@,
            url: self.url@,
            upcoming: self.request_id@,
            session_id: self.session_id.deep_view(),
            extra_headers: header_entries(self.extra_headers),
        }
    }
}

pub const JSON_TYPE: &'static str = "application/json";

pub const EVENT_STREAM_TYPE: &'static str = "text/event-stream";

pub const ACCEPTED_TYPES: &'static str = "application/json, text/event-stream";

/// The headers of a request in a session: the connection's own, what is sent, what is
/// understood, and the session where it can be told.
pub open spec fn request_headers(
    extra: Map<Seq<char>, Seq<char>>,
    session: Option<Seq<char>>,
) -> Map<Seq<char>, Seq<char>> {
    let base = extra.insert("content-type"@, JSON_TYPE@).insert("accept"@, ACCEPTED_TYPES@);
    match session {
        Some(id) if valid_value(id) => base.insert(SESSION_ID_HEADER@, id),
        _ => base,
    }
}

/// How the body of an answer is read.
#[derive(Debug)]
pub enum BodyKind {
    /// The server refused.
    Refusal,
    /// One response.
    Json,
    /// Events, one of which is the response.
    Events,
    /// Something else, of the given type, that may be a response after all.
    Other(String),
}

/// The model of how the body of an answer is read.
pub ghost enum BodyKindView {
    Refusal,
    Json,
    Events,
    Other(Seq<char>),
}

impl DeepView for BodyKind {
    type V = BodyKindView;

    open spec fn deep_view(&self) -> BodyKindView {
        match *self {
            BodyKind::Refusal => BodyKindView::Refusal,
            BodyKind::Json => BodyKindView::Json,
            BodyKind::Events => BodyKindView::Events,
            BodyKind::Other(kind) => BodyKindView::Other(kind@),
        }
    }
}

/// Whether a status is one of success.
pub open spec fn is_success(status: u16) -> bool {
    200 <= status < 300
}

/// How the body of an answer is read, by its status and its type.
pub open spec fn body_kind(status: u16, content_type: Option<Seq<char>>) -> BodyKindView {
    let kind = match content_type {
        Some(kind) => lowercase(kind),
        None => lowercase(Seq::empty()),
    };
    if !is_success(status) {
        BodyKindView::Refusal
    } else if starts_with(kind, JSON_TYPE@) {
        BodyKindView::Json
    } else if starts_with(kind, EVENT_STREAM_TYPE@) {
        BodyKindView::Events
    } else {
        BodyKindView::Other(kind)
    }
}

/// Why the server refused: the session is gone where one was told, else what it says.
pub open spec fn refusal(
    server: Seq<char>,
    status: u16,
    told_session: bool,
    body: Seq<char>,
) -> McpErrorView {
    if told_session && (status == 404 || status == 410) {
        McpErrorView::StaleSession(server)
    } else {
        McpErrorView::Protocol(
            "HTTP "@ + status_text(status) + " from server '"@ + server + "': "@ + body,
        )
    }
}

/// What is said of a body that has to be a response and is none.
pub const UNDECODED_BODY: &'static str =
    "invalid JSON response body: error decoding response body";

/// The outcome in a body that has to be a response, as it was read.
pub open spec fn json_outcome(read: Result<JsonView, Seq<char>>) -> Result<
    JsonView,
    McpErrorView,
> {
    match response_read(read) {
        Some(response) => outcome_of(response),
        None => Err(McpErrorView::Protocol(UNDECODED_BODY@)),
    }
}

/// The outcome in a body that may be a response, as it was read.
pub open spec fn other_outcome(
    kind: Seq<char>,
    body: Seq<char>,
    read: Result<JsonView, Seq<char>>,
) -> Result<JsonView, McpErrorView> {
    match response_read(read) {
        Some(response) => outcome_of(response),
        None => Err(
            McpErrorView::Protocol(
                "unexpected response content-type '"@ + kind
                    + "' and body could not be parsed as JSON-RPC: "@ + body,
            ),
        ),
    }
}

/// The outcome in an event, where it is the response that is waited for.
pub open spec fn event_outcome(
    id: u64,
    data: Seq<char>,
    read: Result<JsonView, Seq<char>>,
) -> Option<Result<JsonView, McpErrorView>> {
    if trim(data).len() == 0 {
        None
    } else {
        match response_read(read) {
            Some(response) if response.id == id => Some(outcome_of(response)),
            _ => None,
        }
    }
}

/// The outcome in a body that has to be a response.
pub fn json_body(body: &str) -> (r: Result<Json, McpError>)
    ensures
        answer_view(r) == json_outcome(json_read(body@)),
{
    match JsonRpcResponse::parse(body) {
        Some(response) => response_outcome(response),
        None => Err(McpError::protocol(UNDECODED_BODY)),
    }
}

/// The outcome in a body of another type.
pub fn other_body(kind: &str, body: &str) -> (r: Result<Json, McpError>)
    ensures
        answer_view(r) == other_outcome(kind@, body@, json_read(body@)),
{
    match JsonRpcResponse::parse(body) {
        Some(response) => response_outcome(response),
        None => {
            let mut message = labelled("unexpected response content-type '", kind);
            message.append("' and body could not be parsed as JSON-RPC: ");
            message.append(body);
            Err(McpError::Protocol(message))
        },
    }
}

/// The outcome in an event, where it is the response that is waited for.
pub fn event_body(id: u64, data: &str) -> (r: Option<Result<Json, McpError>>)
    ensures
        match r {
            Some(outcome) => event_outcome(id, data@, json_read(data@)) == Some(
                answer_view(outcome),
            ),
            None => event_outcome(id, data@, json_read(data@)) is None,
        },
{
    if trimmed(data).as_str().is_empty() {
        return None;
    }
    match JsonRpcResponse::parse(data) {
        Some(response) => if response.id == id {
            Some(response_outcome(response))
        } else {
            None
        },
        None => None,
    }
}

/// Why events ended before the response came.
#[derive(Debug)]
pub enum EventsEnd {
    Failed(String),
    Closed,
    TimedOut,
}

/// The error that a caller gets when events end before the response came.
pub open spec fn events_error(id: u64, end: EventsEnd) -> McpErrorView {
    match end {
        EventsEnd::Failed(error) => McpErrorView::Protocol("SSE stream error: "@ + error@),
        EventsEnd::Closed => McpErrorView::Protocol(
            "SSE stream closed before response with id="@ + decimal(id as nat) + " arrived"@,
        ),
        EventsEnd::TimedOut => McpErrorView::Timeout(
            (REQUEST_TIMEOUT_SECS * 1_000_000_000) as nat,
        ),
    }
}

/// The error that a caller gets when events end before the response came.
pub fn events_ended(id: u64, end: EventsEnd) -> (r: McpError)
    ensures
        r.deep_view() == events_error(id, end),
{
    match end {
        EventsEnd::Failed(error) => McpError::Protocol(
            labelled("SSE stream error: ", error.as_str()),
        ),
        EventsEnd::Closed => {
            let mut message = labelled(
                "SSE stream closed before response with id=",
                decimal_of(id as u128).as_str(),
            );
            message.append(" arrived");
            McpError::Protocol(message)
        },
        EventsEnd::TimedOut => McpError::Timeout(request_timeout()),
    }
}

/// Why a message could not be sent.
#[derive(Debug)]
pub enum SendFailure {
    Failed(String),
    TimedOut,
}

/// The error that a caller gets when its message could not be sent; `what` says which
/// message it was.
pub open spec fn send_error(what: Seq<char>, failure: SendFailure) -> McpErrorView {
    match failure {
        SendFailure::Failed(error) => McpErrorView::Protocol(
            "HTTP "@ + what + " failed: "@ + error@,
        ),
        SendFailure::TimedOut => McpErrorView::Timeout(
            (REQUEST_TIMEOUT_SECS * 1_000_000_000) as nat,
        ),
    }
}

/// The error that a caller gets when its message could not be sent.
pub fn send_failed(what: &str, failure: SendFailure) -> (r: McpError)
    ensures
        r.deep_view() == send_error(what@, failure),
{
    match failure {
        SendFailure::Failed(error) => {
            let mut message = labelled("HTTP ", what);
            message.append(" failed: ");
            message.append(error.as_str());
            McpError::Protocol(message)
        },
        SendFailure::TimedOut => McpError::Timeout(request_timeout()),
    }
}

impl HttpTransport {
    #[verifier::type_invariant]
    spec fn few_headers(self) -> bool {
        header_entries(self.extra_headers).dom().finite() && header_entries(
            self.extra_headers,
        ).dom().len() <= MAX_EXTRA_HEADERS
    }

    /// A connection with headers of its own, where each of them is one.
    pub fn new(server_name: &str, url: &str, headers: &Table<String>) -> (r: Result<
        HttpTransport,
        McpError,
    >)
        requires
            headers.listed().len() <= MAX_EXTRA_HEADERS,
        ensures
            match r {
                Ok(transport) => {
                    &&& headers_in(headers.listed()) == Ok::<
                        Map<Seq<char>, Seq<char>>,
                        McpErrorView,
                    >(transport.deep_view().extra_headers)
                    &&& transport.deep_view().server_name == server_name@
                    &&& transport.deep_view().url == url@
                    &&& transport.deep_view().upcoming == nth_id(0)
                    &&& transport.deep_view().session_id is None
                },
                Err(error) => headers_in(headers.listed()) == Err::<
                    Map<Seq<char>, Seq<char>>,
                    McpErrorView,
                >(error.deep_view()),
            },
    {
        let entries = headers.entries();
        let mut extra_headers = no_headers();
        let mut i: usize = 0;
        while i < entries.len()
            invariant
                i <= entries@.len(),
                entries@ == headers.listed(),
                entries@.len() <= MAX_EXTRA_HEADERS,
                header_entries(extra_headers).dom().finite(),
                header_entries(extra_headers).dom().len() <= i,
                headers_in(entries@.take(i as int)) == Ok::<
                    Map<Seq<char>, Seq<char>>,
                    McpErrorView,
                >(header_entries(extra_headers)),
            decreases entries@.len() - i,
        {
            let name = entries[i].0.as_str();
            let value = entries[i].1.as_str();
            proof {
                assert(entries@.take(i + 1).drop_last() =~= entries@.take(i as int));
                assert(entries@.take(i + 1).last() == entries@[i as int]);
            }
            match check_name(name) {
                Ok(_) => {},
                Err(error) => {
                    proof {
                        a_bad_header_spoils_all(entries@, i + 1);
                    }
                    let mut message = labelled("invalid header name '", name);
                    message.append("': ");
                    message.append(error.as_str());
                    return Err(McpError::Protocol(message));
                },
            }
            match check_value(value) {
                Ok(_) => {},
                Err(error) => {
                    proof {
                        a_bad_header_spoils_all(entries@, i + 1);
                    }
                    let mut message = labelled("invalid header value for '", name);
                    message.append("': ");
                    message.append(error.as_str());
                    return Err(McpError::Protocol(message));
                },
            }
            insert_header(&mut extra_headers, name, value);
            i = i + 1;
        }
        assert(entries@.take(i as int) =~= entries@);
        Ok(
            HttpTransport {
                server_name: server_name.to_owned(),
                url: url.to_owned(),
                request_id: RequestIdCounter::new(),
                session_id: None,
                extra_headers,
            },
        )
    }

    /// The name of the server.
    pub fn server_name(&self) -> (r: &str)
        ensures
            r@ == self.deep_view().server_name,
    {
        self.server_name.as_str()
    }

    /// Where the server is.
    pub fn url(&self) -> (r: &str)
        ensures
            r@ == self.deep_view().url,
    {
        self.url.as_str()
    }

    /// The session, as far as the server has told one.
    pub fn session_id(&self) -> (r: Option<&str>)
        ensures
            r.deep_view() == self.deep_view().session_id,
    {
        match &self.session_id {
            Some(id) => Some(id.as_str()),
            None => None,
        }
    }

    /// The headers of a request.
    pub fn build_headers(&self) -> (r: HeaderMap<HeaderValue>)
        ensures
            header_entries(r) == request_headers(
                self.deep_view().extra_headers,
                self.deep_view().session_id,
            ),
    {
        proof {
            use_type_invariant(self);
            reveal_strlit("content-type");
            reveal_strlit("application/json");
            reveal_strlit("accept");
            reveal_strlit("application/json, text/event-stream");
            reveal_strlit("mcp-session-id");
            assert(small_name("content-type"@) =~= "content-type"@);
            assert(small_name("accept"@) =~= "accept"@);
            assert(small_name("mcp-session-id"@) =~= "mcp-session-id"@);
        }
        let mut headers = same_headers(&self.extra_headers);
        insert_header(&mut headers, "content-type", JSON_TYPE);
        insert_header(&mut headers, "accept", ACCEPTED_TYPES);
        match &self.session_id {
            Some(id) => match check_value(id.as_str()) {
                Ok(_) => {
                    insert_header(&mut headers, SESSION_ID_HEADER, id.as_str());
                },
                Err(_) => {},
            },
            None => {},
        }
        headers
    }

    /// Begins a request: its number, and the body to send.
    pub fn request(&mut self, method: &str, params: Option<Json>) -> (r: (u64, String))
        ensures
            final(self).deep_view() == (HttpView {
                upcoming: next_id(old(self).deep_view().upcoming),
                ..old(self).deep_view()
            }),
            r.0 == old(self).deep_view().upcoming,
            r.1@ == printed(request_json(JSONRPC_VERSION@, r.0, method@, params.deep_view())),
    {
        proof {
            use_type_invariant(&*self);
        }
        let mut request_id = RequestIdCounter::new();
        std::mem::swap(&mut request_id, &mut self.request_id);
        let id = request_id.next();
        self.request_id = request_id;
        (id, JsonRpcRequest::new(id, method, params).print())
    }

    /// The body to send for a notification.
    pub fn notify(&self, method: &str, params: Option<Json>) -> (r: String)
        ensures
            r@ == printed(notification_json(JSONRPC_VERSION@, method@, params.deep_view())),
    {
        JsonRpcNotification::new(method, params).to_json().print()
    }

    /// Takes the head of an answer in: the session that it tells is kept, and its body is
    /// to be read as this says.
    pub fn receive(
        &mut self,
        status: u16,
        session: Option<String>,
        content_type: Option<String>,
    ) -> (r: BodyKind)
        ensures
            final(self).deep_view() == (HttpView {
                session_id: match session.deep_view() {
                    Some(id) => Some(id),
                    None => old(self).deep_view().session_id,
                },
                ..old(self).deep_view()
            }),
            r.deep_view() == body_kind(status, content_type.deep_view()),
    {
        proof {
            use_type_invariant(&*self);
        }
        match session {
            Some(id) => {
                self.session_id = Some(id);
            },
            None => {},
        }
        if status < 200 || status >= 300 {
            return BodyKind::Refusal;
        }
        let kind = match content_type {
            Some(kind) => lower(kind.as_str()),
            None => {
                proof {
                    reveal_strlit("");
                    assert(""@ =~= Seq::empty());
                }
                lower("")
            },
        };
        if begins(kind.as_str(), JSON_TYPE) {
            BodyKind::Json
        } else if begins(kind.as_str(), EVENT_STREAM_TYPE) {
            BodyKind::Events
        } else {
            BodyKind::Other(kind)
        }
    }

    /// Why the server refused a request; `told_session` says whether the request told a
    /// session.
    pub fn refused(&self, status: u16, told_session: bool, body: &str) -> (r: McpError)
        requires
            100 <= status <= 999,
        ensures
            r.deep_view() == refusal(self.deep_view().server_name, status, told_session, body@),
    {
        if told_session && (status == 404 || status == 410) {
            McpError::StaleSession(self.server_name.clone())
        } else {
            let mut message = labelled("HTTP ", print_status(status).as_str());
            message.append(" from server '");
            message.append(self.server_name.as_str());
            message.append("': ");
            message.append(body);
            McpError::Protocol(message)
        }
    }
}

/// The session that an answer tells is told by every later request, until another is
/// told.
pub proof fn sessions_are_echoed(extra: Map<Seq<char>, Seq<char>>, id: Seq<char>)
    requires
        valid_value(id),
    ensures
        request_headers(extra, Some(id)).contains_key(SESSION_ID_HEADER@),
        request_headers(extra, Some(id))[SESSION_ID_HEADER@] == id,
{
}

/// Every request says that it holds JSON and which answers are understood, whatever
/// headers the connection has of its own.
pub proof fn requests_say_what_they_take(
    extra: Map<Seq<char>, Seq<char>>,
    session: Option<Seq<char>>,
)
    ensures
        request_headers(extra, session)["content-type"@] == JSON_TYPE@,
        request_headers(extra, session)["accept"@] == ACCEPTED_TYPES@,
{
    reveal_strlit("content-type");
    reveal_strlit("accept");
    reveal_strlit("mcp-session-id");
    assert("content-type"@.len() == 12 && "accept"@.len() == 6 && "mcp-session-id"@.len() == 14);
}

/// A lost session is an error that another connection may mend; other refusals are not.
pub proof fn lost_sessions_are_recoverable(
    server: Seq<char>,
    status: u16,
    told_session: bool,
    body: Seq<char>,
)
    ensures
        crate::mcp::error::recoverable(refusal(server, status, told_session, body)) <==> (
        told_session && (status == 404 || status == 410)),
{
}

} // verus!
