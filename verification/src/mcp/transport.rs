//! What a connection to a child process says, and what it makes of what comes back.
use std::collections::HashSet;

use vstd::prelude::*;

use crate::duration::Duration;
use crate::json::{Json, JsonView, json_read, printed};
use crate::mcp::client::answer_view;
use crate::mcp::error::{McpError, McpErrorView, recoverable};
use crate::mcp::protocol::{
    JSONRPC_VERSION, JsonRpcNotification, JsonRpcRequest, JsonRpcResponse, ResponseView,
    notification_json, request_json, response_read,
};
use crate::table::{Table, empty_table, insert_into};
use crate::text::{has, contains, labelled, same, trim, trimmed};

verus! {

/// How long an answer may take, in seconds.
pub const REQUEST_TIMEOUT_SECS: u64 = 30;

/// How long an answer may take.
pub fn request_timeout() -> (r: Duration)
    ensures
        r@ == REQUEST_TIMEOUT_SECS * 1_000_000_000,
{
    Duration::from_secs(REQUEST_TIMEOUT_SECS)
}

/// Numbers for requests, counted up from one.
#[derive(Debug)]
pub struct RequestIdCounter {
    upcoming: u64,
}

impl View for RequestIdCounter {
    type V = u64;

    closed spec fn view(&self) -> u64 {
        self.upcoming
    }
}

/// The number that follows another. Behind the last one it starts over.
pub open spec fn next_id(id: u64) -> u64 {
    if id == u64::MAX {
        0
    } else {
        (id + 1) as u64
    }
}

/// The number of the request that comes behind `n` others.
pub open spec fn nth_id(n: nat) -> u64
    decreases n,
{
    if n == 0 {
        1
    } else {
        next_id(nth_id((n - 1) as nat))
    }
}

/// Requests are numbered one, two, three and so on: no two of them have one number, and
/// a later one has a higher number, as long as there are numbers left.
pub proof fn ids_count_up(n: nat)
    requires
        n < u64::MAX,
    ensures
        nth_id(n) == n + 1,
    decreases n,
{
    if n > 0 {
        ids_count_up((n - 1) as nat);
    }
}

impl Default for RequestIdCounter {
    fn default() -> (r: RequestIdCounter)
        ensures
            r@ == 0,
    {
        RequestIdCounter { upcoming: 0 }
    }
}

impl RequestIdCounter {
    /// A counter that has given no number out.
    pub fn new() -> (r: RequestIdCounter)
        ensures
            r@ == nth_id(0),
    {
        RequestIdCounter { upcoming: 1 }
    }

    /// The next number.
    pub fn next(&mut self) -> (r: u64)
        ensures
            r == old(self)@,
            final(self)@ == next_id(old(self)@),
    {
        let id = self.upcoming;
        self.upcoming = id.wrapping_add(1);
        id
    }
}

/// What a server that must not be started is refused with.
pub open spec fn traversal_text(server: Seq<char>, command: Seq<char>) -> Seq<char> {
    "refusing to spawn server '"@ + server + "': command '"@ + command + "' contains '..'"@
}

/// Lets a command through unless it climbs out of a directory.
pub fn check_command(server_name: &str, command: &str) -> (r: Result<(), McpError>)
    ensures
        match r {
            Ok(_) => !contains(command@, ".."@),
            Err(error) => contains(command@, ".."@) && error.deep_view() == McpErrorView::Protocol(
                traversal_text(server_name@, command@),
            ),
        },
{
    if has(command, "..") {
        let mut message = labelled("refusing to spawn server '", server_name);
        message.append("': command '");
        message.append(command);
        message.append("' contains '..'");
        Err(McpError::Protocol(message))
    } else {
        Ok(())
    }
}

/// Whether a variable of the parent reaches a child without being configured.
pub open spec fn passed_on(key: Seq<char>) -> bool {
    key == "PATH"@ || key == "HOME"@ || key == "TMPDIR"@ || key == "TMP"@ || key == "TEMP"@ || key
        == "USER"@ || key == "LOGNAME"@ || key == "LANG"@ || key == "LC_ALL"@ || key == "SHELL"@
}

/// The variables of a child: those that are configured, and of the parent's only the few
/// that are passed on. A configured one hides the parent's.
pub open spec fn child_variables(
    parent: Map<Seq<char>, Seq<char>>,
    configured: Map<Seq<char>, Seq<char>>,
) -> Map<Seq<char>, Seq<char>> {
    Map::new(
        |key: Seq<char>|
            configured.contains_key(key) || (passed_on(key) && parent.contains_key(key)),
        |key: Seq<char>|
            if configured.contains_key(key) {
                configured[key]
            } else {
                parent[key]
            },
    )
}

/// A variable of the parent that is neither passed on nor configured does not reach a
/// child.
pub proof fn other_variables_stay_behind(
    parent: Map<Seq<char>, Seq<char>>,
    configured: Map<Seq<char>, Seq<char>>,
    key: Seq<char>,
)
    requires
        !passed_on(key),
        !configured.contains_key(key),
    ensures
        !child_variables(parent, configured).contains_key(key),
{
}

/// A child's variables with one of the parent's put in, where the parent has it.
pub open spec fn with_variable(
    env: Map<Seq<char>, Seq<char>>,
    parent: Map<Seq<char>, Seq<char>>,
    key: Seq<char>,
) -> Map<Seq<char>, Seq<char>> {
    if parent.contains_key(key) {
        env.insert(key, parent[key])
    } else {
        env
    }
}

fn pass_on(env: &mut Table<String>, parent: &Table<String>, key: &str)
    ensures
        final(env).deep_view() == with_variable(
            old(env).deep_view(),
            parent.deep_view(),
            key@,
        ),
{
    match parent.get(key) {
        Some(value) => {
            insert_into(env, key, value.clone());
        },
        None => {},
    }
}

/// The variables of a child.
pub fn child_env(parent: &Table<String>, configured: &Table<String>) -> (r: Table<String>)
    ensures
        r.deep_view() == child_variables(parent.deep_view(), configured.deep_view()),
{
    let mut env: Table<String> = empty_table();
    pass_on(&mut env, parent, "PATH");
    pass_on(&mut env, parent, "HOME");
    pass_on(&mut env, parent, "TMPDIR");
    pass_on(&mut env, parent, "TMP");
    pass_on(&mut env, parent, "TEMP");
    pass_on(&mut env, parent, "USER");
    pass_on(&mut env, parent, "LOGNAME");
    pass_on(&mut env, parent, "LANG");
    pass_on(&mut env, parent, "LC_ALL");
    pass_on(&mut env, parent, "SHELL");
    let ghost base = env.deep_view();
    let ghost given = parent.deep_view();
    proof {
        assert forall|key: Seq<char>| #[trigger] base.contains_key(key) <==> passed_on(key)
            && given.contains_key(key) by {}
        assert forall|key: Seq<char>| #[trigger] base.contains_key(key) implies base[key]
            == given[key] by {}
    }
    let entries = configured.entries();
    let mut i: usize = 0;
    while i < entries.len()
        invariant
            i <= entries@.len(),
            crate::table::distinct_keys(entries@),
            configured@ == crate::table::table_of(entries@),
            forall|key: Seq<char>| #[trigger]
                env.deep_view().contains_key(key) <==> base.contains_key(key)
                    || crate::table::has_key(entries@.take(i as int), key),
            forall|k: int|
                0 <= k < i ==> env.deep_view().contains_key((#[trigger] entries@[k]).0@)
                    && env.deep_view()[entries@[k].0@] == entries@[k].1@,
            forall|key: Seq<char>|
                base.contains_key(key) && !crate::table::has_key(entries@.take(i as int), key)
                    ==> #[trigger] env.deep_view()[key] == base[key],
        decreases entries@.len() - i,
    {
        let ghost before = env.deep_view();
        insert_into(&mut env, entries[i].0.as_str(), entries[i].1.clone());
        proof {
            let key = entries@[i as int].0@;
            let now = entries@.take(i + 1);
            assert(now[i as int].0@ == key);
            assert forall|other: Seq<char>| #[trigger] crate::table::has_key(now, other) <==> other
                == key || crate::table::has_key(entries@.take(i as int), other) by {
                if crate::table::has_key(now, other) {
                    let k = choose|k: int| 0 <= k < now.len() && (#[trigger] now[k]).0@ == other;
                    if k < i {
                        assert(entries@.take(i as int)[k].0@ == other);
                    }
                }
                if crate::table::has_key(entries@.take(i as int), other) {
                    let k = choose|k: int|
                        0 <= k < i && (#[trigger] entries@.take(i as int)[k]).0@ == other;
                    assert(now[k].0@ == other);
                }
            }
            assert forall|k: int| 0 <= k < i + 1 implies env.deep_view().contains_key(
                (#[trigger] entries@[k]).0@,
            ) && env.deep_view()[entries@[k].0@] == entries@[k].1@ by {
                if k < i {
                    assert(entries@[k].0@ != entries@[i as int].0@);
                }
            }
        }
        i = i + 1;
    }
    proof {
        assert(entries@.take(i as int) =~= entries@);
        let wanted = configured.deep_view();
        assert forall|key: Seq<char>| #[trigger] wanted.contains_key(key) implies
            env.deep_view()[key] == wanted[key] by {
            let k = choose|k: int| 0 <= k < entries@.len() && (#[trigger] entries@[k]).0@ == key;
            assert(env.deep_view()[entries@[k].0@] == entries@[k].1@);
            assert(configured@[key] == entries@[k].1) by {
                let j = choose|j: int|
                    0 <= j < entries@.len() && (#[trigger] entries@[j]).0@ == key;
                assert(j == k);
            }
        }
        assert(env.deep_view() =~= child_variables(given, wanted));
    }
    env
}

/// What a response says: its result, or else its error.
pub open spec fn outcome_of(response: ResponseView) -> Result<JsonView, McpErrorView> {
    match (response.result, response.error) {
        (Some(result), _) => Ok(result),
        (None, Some(error)) => Err(
            McpErrorView::JsonRpc { code: error.code, message: error.message, data: error.data },
        ),
        (None, None) => Err(McpErrorView::Protocol(NEITHER@)),
    }
}

/// What is said of a response with neither a result nor an error.
pub const NEITHER: &'static str = "response missing both `result` and `error`";

/// What a response says.
pub fn response_outcome(response: JsonRpcResponse) -> (r: Result<Json, McpError>)
    ensures
        answer_view(r) == outcome_of(response.deep_view()),
{
    match (response.result, response.error) {
        (Some(result), _) => Ok(result),
        (None, Some(error)) => Err(
            McpError::JsonRpc { code: error.code, message: error.message, data: error.data },
        ),
        (None, None) => Err(McpError::protocol(NEITHER)),
    }
}

/// Why no response came.
#[derive(Debug, Clone, Copy, PartialEq, Eq, Structural)]
pub enum Silence {
    /// The request could not be written.
    WriterClosed,
    /// The reader is gone.
    ReaderClosed,
    /// The time is up.
    TimedOut,
}

/// The error that a caller gets when no response came.
pub open spec fn silence_error(server: Seq<char>, why: Silence) -> McpErrorView {
    match why {
        Silence::WriterClosed => McpErrorView::Disconnected(server),
        Silence::ReaderClosed => McpErrorView::Disconnected(server),
        Silence::TimedOut => McpErrorView::Timeout(
            (REQUEST_TIMEOUT_SECS * 1_000_000_000) as nat,
        ),
    }
}

/// What a line from the server is.
#[derive(Debug)]
pub enum Inbound {
    /// Nothing, or nothing that is understood.
    Ignored,
    /// The response to a request that waits for it.
    Deliver(JsonRpcResponse),
    /// A response to a request that does not wait.
    Unmatched(u64),
}

/// The model of what a line from the server is.
pub ghost enum InboundView {
    Ignored,
    Deliver(ResponseView),
    Unmatched(u64),
}

impl DeepView for Inbound {
    type V = InboundView;

    open spec fn deep_view(&self) -> InboundView {
        match *self {
            Inbound::Ignored => InboundView::Ignored,
            Inbound::Deliver(response) => InboundView::Deliver(response.deep_view()),
            Inbound::Unmatched(id) => InboundView::Unmatched(id),
        }
    }
}

/// What a line is to a connection on which the given requests wait. Blank lines and what
/// is no response of this version are ignored.
pub open spec fn line_step(
    pending: Set<u64>,
    line: Seq<char>,
    read: Result<JsonView, Seq<char>>,
) -> (Set<u64>, InboundView) {
    if trim(line).len() == 0 {
        (pending, InboundView::Ignored)
    } else {
        match response_read(read) {
            Some(response) if response.jsonrpc == JSONRPC_VERSION@ => (
                pending.remove(response.id),
                if pending.contains(response.id) {
                    InboundView::Deliver(response)
                } else {
                    InboundView::Unmatched(response.id)
                },
            ),
            _ => (pending, InboundView::Ignored),
        }
    }
}

/// A connection to a child process: its requests, and which of them wait.
#[derive(Debug)]
pub struct StdioTransport {
    pub server_name: String,
    pub request_id: RequestIdCounter,
    pub pending: HashSet<u64>,
}

impl StdioTransport {
    /// A connection on which nothing was said.
    pub fn new(server_name: &str) -> (r: StdioTransport)
        ensures
            r.server_name@ == server_name@,
            r.request_id@ == nth_id(0),
            r.pending@ == Set::<u64>::empty(),
    {
        broadcast use vstd::std_specs::hash::group_hash_axioms;

        StdioTransport {
            server_name: server_name.to_owned(),
            request_id: RequestIdCounter::new(),
            pending: HashSet::new(),
        }
    }

    /// The name of the server.
    pub fn server_name(&self) -> (r: &str)
        ensures
            r@ == self.server_name@,
    {
        self.server_name.as_str()
    }

    /// Begins a request, which then waits: its number, and the line to send.
    pub fn request(&mut self, method: &str, params: Option<Json>) -> (r: (u64, String))
        ensures
            final(self).server_name == old(self).server_name,
            final(self).request_id@ == next_id(old(self).request_id@),
            final(self).pending@ == old(self).pending@.insert(r.0),
            r.0 == old(self).request_id@,
            r.1@ == printed(
                request_json(JSONRPC_VERSION@, r.0, method@, params.deep_view()),
            ) + "\n"@,
    {
        broadcast use vstd::std_specs::hash::group_hash_axioms;

        let id = self.request_id.next();
        let request = JsonRpcRequest::new(id, method, params);
        self.pending.insert(id);
        (id, request.to_line())
    }

    /// The line to send for a notification.
    pub fn notify(&self, method: &str, params: Option<Json>) -> (r: String)
        ensures
            r@ == printed(
                notification_json(JSONRPC_VERSION@, method@, params.deep_view()),
            ) + "\n"@,
    {
        JsonRpcNotification::new(method, params).to_line()
    }

    /// Ends the wait of a request to which no response came.
    pub fn give_up(&mut self, id: u64, why: Silence) -> (r: McpError)
        ensures
            final(self).server_name == old(self).server_name,
            final(self).request_id == old(self).request_id,
            final(self).pending@ == old(self).pending@.remove(id),
            r.deep_view() == silence_error(old(self).server_name@, why),
    {
        broadcast use vstd::std_specs::hash::group_hash_axioms;

        self.pending.remove(&id);
        match why {
            Silence::WriterClosed => McpError::Disconnected(self.server_name.clone()),
            Silence::ReaderClosed => McpError::Disconnected(self.server_name.clone()),
            Silence::TimedOut => McpError::Timeout(request_timeout()),
        }
    }

    /// Takes a line from the server in.
    pub fn receive(&mut self, line: &str) -> (r: Inbound)
        ensures
            final(self).server_name == old(self).server_name,
            final(self).request_id == old(self).request_id,
            (final(self).pending@, r.deep_view()) == line_step(
                old(self).pending@,
                line@,
                json_read(line@),
            ),
    {
        broadcast use vstd::std_specs::hash::group_hash_axioms;

        if trimmed(line).as_str().is_empty() {
            return Inbound::Ignored;
        }
        match JsonRpcResponse::parse(line) {
            Some(response) => {
                if !same(response.jsonrpc.as_str(), JSONRPC_VERSION) {
                    return Inbound::Ignored;
                }
                let id = response.id;
                if self.pending.contains(&id) {
                    self.pending.remove(&id);
                    Inbound::Deliver(response)
                } else {
                    proof {
                        assert(self.pending@.remove(id) =~= self.pending@);
                    }
                    Inbound::Unmatched(id)
                }
            },
            None => Inbound::Ignored,
        }
    }

    /// Ends the wait of all requests, because the server is gone: the error that each of
    /// them gets.
    pub fn disconnect(&mut self) -> (r: McpError)
        ensures
            final(self).server_name == old(self).server_name,
            final(self).request_id == old(self).request_id,
            final(self).pending@ == Set::<u64>::empty(),
            r.deep_view() == silence_error(old(self).server_name@, Silence::ReaderClosed),
    {
        broadcast use vstd::std_specs::hash::group_hash_axioms;

        self.pending.clear();
        McpError::Disconnected(self.server_name.clone())
    }
}

/// A response is delivered only to a request that waits, and to each at most once: the
/// same line again finds nobody waiting.
pub proof fn responses_are_delivered_once(
    pending: Set<u64>,
    line: Seq<char>,
    read: Result<JsonView, Seq<char>>,
)
    requires
        line_step(pending, line, read).1 is Deliver,
    ensures
        pending.contains(line_step(pending, line, read).1->Deliver_0.id),
        line_step(line_step(pending, line, read).0, line, read).1 is Unmatched,
{
}

/// A caller whose server is gone, whether it was waiting or about to ask, gets an error
/// that names the server and lets it connect anew. One whose time is up does not.
pub proof fn callers_of_a_lost_server_may_reconnect(server: Seq<char>, why: Silence)
    ensures
        recoverable(silence_error(server, why)) <==> why != Silence::TimedOut,
        why != Silence::TimedOut ==> silence_error(server, why) == McpErrorView::Disconnected(
            server,
        ),
{
}

} // verus!
