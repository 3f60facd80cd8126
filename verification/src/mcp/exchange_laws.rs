//! What callers, servers and sessions can count on, over whole exchanges.
use vstd::prelude::*;

use crate::duration::spelled;
use crate::json::{JsonView, NumberView};
use crate::json_laws::list_under;
use crate::mcp::client::{
    ClientView, Exchange, ExchangeActionView, ExchangeEventView, HandshakeActionView,
    HandshakeEventView, HandshakeView, called, exchange_run, exchange_step, handshake_step,
    listed_tools,
};
use crate::mcp::error::{McpErrorView, recoverable};
use crate::mcp::pool::{
    AcquireView, PoolView, acquire_step, connect_step, cooldown, release_step,
};
use crate::mcp::protocol::{call_result_in, initialize_in, list_tools_in, response_in};
use crate::mcp::protocol_laws::{
    described_by, is_response, responses_come_to_what_they_say, servers_are_what_they_say,
    tools_are_those_listed,
};
use crate::mcp::transport::{
    InboundView, Silence, child_variables, line_step, outcome_of, passed_on, silence_error,
    traversal_text,
};
use crate::mcp::transport_http::{
    BodyKindView, EventsEnd, SendFailure, body_kind, event_outcome, events_error, headers_in,
    json_outcome, other_outcome, refusal, request_headers, send_error, small_name, valid_name,
    valid_value,
};
use crate::text::{contains, decimal, lowercase, starts_with, trim};
use crate::text_laws::{holds_still, holds_the_end};

verus! {

/// The answer to a request is the caller's, as it came, unless it is an error that another
/// connection may mend and the connection can be made anew.
pub proof fn answers_are_handed_on(reconnects: bool, answer: Result<JsonView, McpErrorView>)
    ensures
        ({
            let (state, action) = exchange_step(
                Exchange::Asking { reconnects },
                ExchangeEventView::Answered(answer),
            );
            let lost = answer is Err && (answer->Err_0 is Disconnected || answer->Err_0
                is StaleSession);
            &&& !lost || !reconnects ==> action == ExchangeActionView::Return(answer)
            &&& lost && reconnects ==> action == (ExchangeActionView::Rebuild { pause: None })
        }),
{
}

/// The events of a request whose connection is lost and made anew, by the caller itself or
/// by another, before its second answer comes.
pub open spec fn mended(
    error: McpErrorView,
    elsewhere: bool,
    second: Result<JsonView, McpErrorView>,
) -> Seq<ExchangeEventView> {
    seq![
        ExchangeEventView::Answered(Err(error)),
        if elsewhere {
            ExchangeEventView::RebuiltElsewhere
        } else {
            ExchangeEventView::Rebuilt(Ok(()))
        },
        ExchangeEventView::Answered(second),
    ]
}

proof fn run_of_three(
    state: Exchange,
    a: ExchangeEventView,
    b: ExchangeEventView,
    c: ExchangeEventView,
)
    ensures
        ({
            let one = exchange_step(state, a);
            let two = exchange_step(one.0, b);
            let three = exchange_step(two.0, c);
            exchange_run(state, seq![a, b, c]) == (three.0, seq![one.1, two.1, three.1])
        }),
{
    let one = exchange_step(state, a);
    let two = exchange_step(one.0, b);
    let three = exchange_step(two.0, c);
    let empty = Seq::<ExchangeEventView>::empty();
    assert(exchange_run(state, empty) == (state, Seq::<ExchangeActionView>::empty()));
    assert(seq![a].drop_last() =~= empty);
    assert(exchange_run(state, seq![a]) == (one.0, Seq::<ExchangeActionView>::empty().push(one.1)));
    assert(seq![a, b].drop_last() =~= seq![a]);
    assert(exchange_run(state, seq![a, b]).1 =~= seq![one.1, two.1]);
    assert(seq![a, b, c].drop_last() =~= seq![a, b]);
    assert(exchange_run(state, seq![a, b, c]).1 =~= seq![one.1, two.1, three.1]);
}

/// A request whose connection is lost is sent once more over a new one, and what comes
/// back then is the caller's, whatever it is.
pub proof fn lost_requests_are_sent_again(
    error: McpErrorView,
    elsewhere: bool,
    second: Result<JsonView, McpErrorView>,
)
    requires
        error is Disconnected || error is StaleSession,
    ensures
        exchange_run(Exchange::Asking { reconnects: true }, mended(error, elsewhere, second)) == (
            Exchange::Done,
            seq![
                ExchangeActionView::Rebuild { pause: None },
                ExchangeActionView::Send,
                ExchangeActionView::Return(second),
            ],
        ),
{
    let events = mended(error, elsewhere, second);
    run_of_three(Exchange::Asking { reconnects: true }, events[0], events[1], events[2]);
}

/// A connection that could not be made anew is tried once more, half a second later. Where
/// that fails too, the caller gets the error of the second attempt.
pub proof fn rebuilds_are_tried_twice(
    error: McpErrorView,
    first: McpErrorView,
    second: McpErrorView,
)
    requires
        error is Disconnected || error is StaleSession,
    ensures
        exchange_run(
            Exchange::Asking { reconnects: true },
            seq![
                ExchangeEventView::Answered(Err(error)),
                ExchangeEventView::Rebuilt(Err(first)),
                ExchangeEventView::Rebuilt(Err(second)),
            ],
        ) == (
            Exchange::Done,
            seq![
                ExchangeActionView::Rebuild { pause: None },
                ExchangeActionView::Rebuild { pause: Some(500_000_000nat) },
                ExchangeActionView::Return(Err(second)),
            ],
        ),
{
    run_of_three(
        Exchange::Asking { reconnects: true },
        ExchangeEventView::Answered(Err(error)),
        ExchangeEventView::Rebuilt(Err(first)),
        ExchangeEventView::Rebuilt(Err(second)),
    );
}

/// A server is connected as the one that it says it is. Where it says that it has tools,
/// they are asked for, and it is connected with those that it lists; where their list does
/// not come, or it has none, it is connected without tools.
pub proof fn servers_come_with_their_tools(
    introduced: JsonView,
    listed: Result<JsonView, McpErrorView>,
    i: int,
)
    requires
        initialize_in(introduced) is Some,
    ensures
        ({
            let first = handshake_step(
                HandshakeView::Introducing,
                HandshakeEventView::Answered(Ok(introduced)),
            );
            let second = handshake_step(first.0, HandshakeEventView::Notified(Ok(())));
            let third = handshake_step(second.0, HandshakeEventView::Answered(listed));
            let has_tools = !(introduced.at("capabilities"@).at("tools"@) is Null);
            let last = if has_tools {
                third.1
            } else {
                second.1
            };
            &&& first.1 == (HandshakeActionView::Notify { method: "notifications/initialized"@ })
            &&& has_tools ==> second.1 == (HandshakeActionView::Request {
                method: "tools/list"@,
                params: None,
            })
            &&& last matches HandshakeActionView::Connected { init, tools } && {
                &&& introduced.at("serverInfo"@).at("name"@) == JsonView::Text(init.server_name)
                &&& introduced.at("serverInfo"@).at("version"@) == JsonView::Text(
                    init.server_version,
                )
                &&& !has_tools || listed is Err ==> tools.len() == 0
                &&& has_tools && listed is Ok && list_tools_in(listed->Ok_0) is Some ==> {
                    &&& tools.len() == list_under(listed->Ok_0, "tools"@).len()
                    &&& 0 <= i < tools.len() ==> described_by(
                        tools[i],
                        list_under(listed->Ok_0, "tools"@)[i],
                    )
                }
            }
        }),
{
    servers_are_what_they_say(introduced);
    if listed is Ok {
        tools_are_those_listed(listed->Ok_0, i);
    }
}

/// A server that answers its introduction with an error, or cannot be told that it was
/// understood, is not connected, and the error is the one that came.
pub proof fn failed_introductions_say_why(introduced: JsonView, error: McpErrorView)
    ensures
        handshake_step(
            HandshakeView::Introducing,
            HandshakeEventView::Answered(Err(error)),
        ).1 == HandshakeActionView::Failed(error),
        initialize_in(introduced) is Some ==> handshake_step(
            handshake_step(
                HandshakeView::Introducing,
                HandshakeEventView::Answered(Ok(introduced)),
            ).0,
            HandshakeEventView::Notified(Err(error)),
        ).1 == HandshakeActionView::Failed(error),
        initialize_in(introduced) is None ==> handshake_step(
            HandshakeView::Introducing,
            HandshakeEventView::Answered(Ok(introduced)),
        ).1 is Failed,
{
}

/// An answer to a call or to a list that is an error stays that error, and one that is
/// understood is never turned into an error.
pub proof fn answers_are_read(answer: Result<JsonView, McpErrorView>)
    ensures
        answer is Err ==> called(answer) is Err && called(answer)->Err_0 == answer->Err_0,
        answer is Err ==> listed_tools(answer) is Err && listed_tools(answer)->Err_0
            == answer->Err_0,
        answer is Ok ==> (called(answer) is Ok <==> call_result_in(answer->Ok_0) is Some),
        answer is Ok ==> (listed_tools(answer) is Ok <==> list_tools_in(answer->Ok_0) is Some),
        answer is Ok && called(answer) is Err ==> !recoverable(called(answer)->Err_0),
{
}

/// A server that was connected is there for the next session at once, under its own
/// handle, used by the session that connected it and by the next; and the attempt to
/// connect it is over, so that it is connected anew as soon as it has been taken out.
pub proof fn connected_servers_are_there(
    pool: PoolView,
    server: Seq<char>,
    client: ClientView,
    then: nat,
    now: nat,
)
    ensures
        ({
            let after = connect_step(pool, server, Ok(client), then);
            let (used, told) = acquire_step(after, server, now);
            &&& after.entries.contains_key(server)
            &&& after.entries[server].client == client
            &&& after.entries[server].ref_count == 1
            &&& !after.attempts.contains_key(server)
            &&& told == (AcquireView::Live {
                server_name: client.server_name,
                reconnects: client.reconnects,
            })
            &&& used.entries[server].client == client
            &&& used.entries[server].ref_count == 2
            &&& release_step(used, server).entries[server].ref_count == 1
        }),
{
}

/// A server that nobody has tried is to be connected by the first session that wants it. A
/// server that is there is never connected again, whatever came of earlier attempts.
pub proof fn servers_are_connected_once(pool: PoolView, server: Seq<char>, now: nat)
    ensures
        !pool.entries.contains_key(server) && !pool.attempts.contains_key(server)
            ==> acquire_step(pool, server, now).1 is Connect,
        pool.entries.contains_key(server) <==> acquire_step(pool, server, now).1 is Live,
        acquire_step(pool, server, now).0.entries.contains_key(server)
            <==> pool.entries.contains_key(server),
        release_step(pool, server).entries.contains_key(server) <==> pool.entries.contains_key(
            server,
        ),
        cooldown() == 30_000_000_000,
{
}

/// A line that is a response of this version to a request that waits is handed to that
/// request, which waits no longer. All others wait on.
pub proof fn responses_reach_their_requests(
    pending: Set<u64>,
    line: Seq<char>,
    json: JsonView,
    other: u64,
)
    requires
        trim(line).len() > 0,
    ensures
        ({
            let (waiting, inbound) = line_step(pending, line, Ok(json));
            let ours = is_response(json) && json.at("jsonrpc"@) == JsonView::Text("2.0"@);
            let id = json.at("id"@).unsigned()->0;
            &&& inbound is Ignored <==> !ours
            &&& !ours ==> waiting == pending
            &&& ours && pending.contains(id) ==> inbound is Deliver && inbound->Deliver_0.id == id
                && response_in(json) == Some(inbound->Deliver_0) && !waiting.contains(id)
            &&& ours && !pending.contains(id) ==> inbound == InboundView::Unmatched(id)
            &&& ours && other != id ==> (waiting.contains(other) <==> pending.contains(other))
        }),
{
    responses_come_to_what_they_say(json);
}

/// A line that is blank, or is no JSON, changes nothing.
pub proof fn noise_is_ignored(
    pending: Set<u64>,
    line: Seq<char>,
    read: Result<JsonView, Seq<char>>,
)
    requires
        trim(line).len() == 0 || read is Err,
    ensures
        line_step(pending, line, read) == (pending, InboundView::Ignored),
{
}

/// A child has every variable that is configured for it, with the value configured there.
/// Of the others it has those of its parent that tell where things are and who asks, and
/// no more.
pub proof fn children_know_what_they_need(
    parent: Map<Seq<char>, Seq<char>>,
    configured: Map<Seq<char>, Seq<char>>,
    key: Seq<char>,
)
    ensures
        ({
            let env = child_variables(parent, configured);
            let shared = seq![
                "PATH"@,
                "HOME"@,
                "TMPDIR"@,
                "TMP"@,
                "TEMP"@,
                "USER"@,
                "LOGNAME"@,
                "LANG"@,
                "LC_ALL"@,
                "SHELL"@,
            ];
            &&& configured.contains_key(key) ==> env.contains_key(key) && env[key]
                == configured[key]
            &&& !configured.contains_key(key) && shared.contains(key) && parent.contains_key(key)
                ==> env.contains_key(key) && env[key] == parent[key]
            &&& !configured.contains_key(key) && !(shared.contains(key) && parent.contains_key(
                key,
            )) ==> !env.contains_key(key)
        }),
{
    let shared = seq![
        "PATH"@,
        "HOME"@,
        "TMPDIR"@,
        "TMP"@,
        "TEMP"@,
        "USER"@,
        "LOGNAME"@,
        "LANG"@,
        "LC_ALL"@,
        "SHELL"@,
    ];
    assert(shared[0] == "PATH"@ && shared[1] == "HOME"@ && shared[2] == "TMPDIR"@);
    assert(shared[3] == "TMP"@ && shared[4] == "TEMP"@ && shared[5] == "USER"@);
    assert(shared[6] == "LOGNAME"@ && shared[7] == "LANG"@ && shared[8] == "LC_ALL"@);
    assert(shared[9] == "SHELL"@);
    assert(shared.len() == 10);
    assert(shared.contains(key) <==> passed_on(key));
}

/// A caller waits half a minute at most.
pub proof fn callers_do_not_wait_for_ever(server: Seq<char>)
    ensures
        silence_error(server, Silence::TimedOut) == McpErrorView::Timeout(30_000_000_000nat),
{
}

proof fn headers_in_place(entries: Seq<(String, String)>)
    ensures
        headers_in(entries) is Ok <==> forall|i: int|
            0 <= i < entries.len() ==> valid_name((#[trigger] entries[i]).0@) && valid_value(
                entries[i].1@,
            ),
        headers_in(entries) matches Ok(map) ==> forall|i: int|
            0 <= i < entries.len() ==> map.contains_key(small_name((#[trigger] entries[i]).0@)),
        headers_in(entries) matches Ok(map) ==> forall|i: int|
            0 <= i < entries.len() && (forall|k: int|
                i < k < entries.len() ==> small_name((#[trigger] entries[k]).0@) != small_name(
                    entries[i].0@,
                )) ==> map[small_name((#[trigger] entries[i]).0@)] == entries[i].1@,
        headers_in(entries) matches Ok(map) ==> forall|name: Seq<char>| #[trigger]
            map.contains_key(name) ==> exists|i: int|
                0 <= i < entries.len() && small_name((#[trigger] entries[i]).0@) == name,
    decreases entries.len(),
{
    if entries.len() > 0 {
        let front = entries.drop_last();
        let n = entries.len() - 1;
        headers_in_place(front);
        assert(forall|i: int| 0 <= i < front.len() ==> (#[trigger] front[i]) == entries[i]);
        if headers_in(entries) is Ok {
            let before = headers_in(front)->Ok_0;
            let map = headers_in(entries)->Ok_0;
            assert forall|i: int| 0 <= i < entries.len() implies valid_name(
                (#[trigger] entries[i]).0@,
            ) && valid_value(entries[i].1@) by {
                if i < n {
                    assert(front[i] == entries[i]);
                }
            }
            assert forall|i: int| 0 <= i < entries.len() implies map.contains_key(
                small_name((#[trigger] entries[i]).0@),
            ) by {
                if i < n {
                    assert(front[i] == entries[i]);
                }
            }
            assert forall|i: int|
                0 <= i < entries.len() && (forall|k: int|
                    i < k < entries.len() ==> small_name((#[trigger] entries[k]).0@) != small_name(
                        entries[i].0@,
                    )) implies map[small_name((#[trigger] entries[i]).0@)] == entries[i].1@ by {
                if i < n {
                    assert(front[i] == entries[i]);
                    assert(small_name(entries[n].0@) != small_name(entries[i].0@));
                    assert forall|k: int| i < k < front.len() implies small_name(
                        (#[trigger] front[k]).0@,
                    ) != small_name(front[i].0@) by {
                        assert(front[k] == entries[k]);
                    }
                    assert(before[small_name(front[i].0@)] == front[i].1@);
                }
            }
            assert forall|name: Seq<char>| #[trigger] map.contains_key(name) implies exists|i: int|
                0 <= i < entries.len() && small_name((#[trigger] entries[i]).0@) == name by {
                if name == small_name(entries[n].0@) {
                } else {
                    assert(before.contains_key(name));
                    let i = choose|i: int|
                        0 <= i < front.len() && small_name((#[trigger] front[i]).0@) == name;
                    assert(small_name(entries[i].0@) == name);
                }
            }
        } else if forall|i: int|
            0 <= i < entries.len() ==> valid_name((#[trigger] entries[i]).0@) && valid_value(
                entries[i].1@,
            ) {
            assert forall|i: int| 0 <= i < front.len() implies valid_name(
                (#[trigger] front[i]).0@,
            ) && valid_value(front[i].1@) by {
                assert(front[i] == entries[i]);
            }
            assert(valid_name(entries[n].0@));
        }
    }
}

/// A connection's own headers are taken where each of them can be one. Then every name is
/// there in lower case, with the value that was given for it last, and no other name is.
pub proof fn own_headers_are_kept(entries: Seq<(String, String)>, i: int)
    requires
        0 <= i < entries.len(),
    ensures
        headers_in(entries) is Ok <==> forall|k: int|
            0 <= k < entries.len() ==> valid_name((#[trigger] entries[k]).0@) && valid_value(
                entries[k].1@,
            ),
        headers_in(entries) matches Ok(map) ==> {
            &&& map.contains_key(small_name(entries[i].0@))
            &&& (forall|k: int|
                i < k < entries.len() ==> small_name((#[trigger] entries[k]).0@) != small_name(
                    entries[i].0@,
                )) ==> map[small_name(entries[i].0@)] == entries[i].1@
            &&& forall|name: Seq<char>| #[trigger]
                map.contains_key(name) ==> exists|k: int|
                    0 <= k < entries.len() && small_name((#[trigger] entries[k]).0@) == name
        },
{
    headers_in_place(entries);
}

/// A request has the headers of its connection, and of its own only what it says of its
/// body, of the answers it takes, and of its session.
pub proof fn requests_carry_own_headers(
    extra: Map<Seq<char>, Seq<char>>,
    session: Option<Seq<char>>,
    name: Seq<char>,
)
    requires
        name != "content-type"@,
        name != "accept"@,
        name != "mcp-session-id"@,
    ensures
        request_headers(extra, session).contains_key(name) <==> extra.contains_key(name),
        extra.contains_key(name) ==> request_headers(extra, session)[name] == extra[name],
{
}

/// What a request says of its body and of the answers it takes.
pub proof fn requests_speak_json(extra: Map<Seq<char>, Seq<char>>, session: Option<Seq<char>>)
    ensures
        ({
            let headers = request_headers(extra, session);
            &&& headers.contains_key("content-type"@)
            &&& headers["content-type"@] == "application/json"@
            &&& headers.contains_key("accept"@)
            &&& headers["accept"@] == "application/json, text/event-stream"@
            &&& session is None && !extra.contains_key("mcp-session-id"@)
                ==> !headers.contains_key("mcp-session-id"@)
            &&& session matches Some(id) ==> (valid_value(id) ==> headers.contains_key(
                "mcp-session-id"@,
            ) && headers["mcp-session-id"@] == id)
        }),
{
    reveal_strlit("content-type");
    reveal_strlit("accept");
    reveal_strlit("mcp-session-id");
    assert("content-type"@.len() == 12 && "accept"@.len() == 6 && "mcp-session-id"@.len() == 14);
}

/// An answer is a refusal unless its status is one of success. Else its type says how it is
/// read, whatever the case of its letters and whatever follows the type.
pub proof fn bodies_are_read_by_their_type(status: u16, kind: Option<Seq<char>>)
    ensures
        body_kind(status, kind) is Refusal <==> !(200 <= status <= 299),
        200 <= status <= 299 ==> (kind matches Some(t) ==> {
            &&& body_kind(status, kind) is Json <==> starts_with(
                lowercase(t),
                "application/json"@,
            )
            &&& body_kind(status, kind) is Events <==> starts_with(
                lowercase(t),
                "text/event-stream"@,
            )
            &&& body_kind(status, kind) matches BodyKindView::Other(said) ==> said == lowercase(t)
        }),
{
    reveal_strlit("application/json");
    reveal_strlit("text/event-stream");
    if let Some(t) = kind {
        let low = lowercase(t);
        if starts_with(low, "application/json"@) && starts_with(low, "text/event-stream"@) {
            assert(low.take("application/json"@.len() as int)[0] == low[0]);
            assert(low.take("text/event-stream"@.len() as int)[0] == low[0]);
        }
    }
}

/// A body comes to what its response says, by whatever way it came. An event counts only
/// where it is the response that is waited for.
pub proof fn bodies_come_to_their_response(
    id: u64,
    kind: Seq<char>,
    body: Seq<char>,
    json: JsonView,
)
    ensures
        is_response(json) ==> {
            let outcome = outcome_of(response_in(json)->0);
            &&& json_outcome(Ok(json)) == outcome
            &&& other_outcome(kind, body, Ok(json)) == outcome
            &&& trim(body).len() > 0 && json.at("id"@) == JsonView::Number(
                NumberView::Unsigned(id),
            ) ==> event_outcome(id, body, Ok(json)) == Some(outcome)
        },
        !is_response(json) ==> {
            &&& json_outcome(Ok(json)) is Err
            &&& other_outcome(kind, body, Ok(json)) is Err
            &&& event_outcome(id, body, Ok(json)) is None
        },
        json.at("id"@) != JsonView::Number(NumberView::Unsigned(id)) ==> event_outcome(
            id,
            body,
            Ok(json),
        ) is None,
{
    responses_come_to_what_they_say(json);
}

/// A refusal is a lost session only where the request told one and the server does not
/// know it; the error then names the server.
pub proof fn unknown_sessions_are_stale(server: Seq<char>, status: u16, body: Seq<char>)
    ensures
        status == 404 || status == 410 ==> refusal(server, status, true, body)
            == McpErrorView::StaleSession(server),
        refusal(server, status, false, body) is Protocol,
        status != 404 && status != 410 ==> refusal(server, status, true, body) == refusal(
            server,
            status,
            false,
            body,
        ),
{
}

/// What is said of events that end too early, or of a message that could not be sent, holds
/// what went wrong, and which response or which message it was; and a wait that ran out
/// says how long it was.
pub proof fn failures_say_what_failed(id: u64, end: EventsEnd, what: Seq<char>, failure: SendFailure)
    ensures
        match end {
            EventsEnd::Failed(error) => (events_error(id, end) matches McpErrorView::Protocol(said)
                && contains(said, error@)),
            EventsEnd::Closed => (events_error(id, end) matches McpErrorView::Protocol(said)
                && contains(said, decimal(id as nat))),
            EventsEnd::TimedOut => events_error(id, end) == McpErrorView::Timeout(
                30_000_000_000nat,
            ),
        },
        match failure {
            SendFailure::Failed(error) => (send_error(what, failure)
                matches McpErrorView::Protocol(said) && contains(said, what) && contains(
                said,
                error@,
            )),
            SendFailure::TimedOut => send_error(what, failure) == McpErrorView::Timeout(
                30_000_000_000nat,
            ),
        },
{
    match end {
        EventsEnd::Failed(error) => holds_the_end("SSE stream error: "@, error@),
        EventsEnd::Closed => {
            let front = "SSE stream closed before response with id="@;
            let number = decimal(id as nat);
            holds_the_end(front, number);
            holds_still(front + number, " arrived"@, number);
        },
        EventsEnd::TimedOut => {},
    }
    match failure {
        SendFailure::Failed(error) => {
            let a = "HTTP "@ + what;
            holds_the_end("HTTP "@, what);
            holds_still(a, " failed: "@, what);
            holds_still(a + " failed: "@, error@, what);
            holds_the_end(a + " failed: "@, error@);
        },
        SendFailure::TimedOut => {},
    }
}

/// What is said of a command that must not be started names the server and the command.
pub proof fn refused_commands_are_named(server: Seq<char>, command: Seq<char>)
    ensures
        contains(traversal_text(server, command), server),
        contains(traversal_text(server, command), command),
{
    let a = "refusing to spawn server '"@ + server;
    let b = a + "': command '"@;
    let c = b + command;
    holds_the_end("refusing to spawn server '"@, server);
    holds_still(a, "': command '"@, server);
    holds_still(b, command, server);
    holds_still(c, "' contains '..'"@, server);
    holds_the_end(b, command);
    holds_still(c, "' contains '..'"@, command);
}

/// What is said of a server that failed a moment ago names it.
pub proof fn refused_servers_are_named(
    pool: PoolView,
    server: Seq<char>,
    error: McpErrorView,
    failed: nat,
    now: nat,
)
    requires
        !pool.entries.contains_key(server),
        failed <= now < failed + 30_000_000_000,
    ensures
        acquire_step(connect_step(pool, server, Err(error), failed), server, now).1
            matches AcquireView::Refused(McpErrorView::Protocol(said)) && contains(said, server)
            && contains(said, spelled((30_000_000_000 - (now - failed)) as nat)),
{
    let left = spelled((30_000_000_000 - (now - failed)) as nat);
    let a = "server '"@ + server;
    let b = a + "' is in failed-connect cooldown ("@;
    let c = b + left;
    holds_the_end("server '"@, server);
    holds_still(a, "' is in failed-connect cooldown ("@, server);
    holds_still(b, left, server);
    holds_still(c, " remaining)"@, server);
    holds_the_end(b, left);
    holds_still(c, " remaining)"@, left);
}

} // verus!
