//! Servers that sessions share: one connection for all, counted by its users.
use vstd::prelude::*;

use crate::duration::{Duration, spelled};
use crate::mcp::client::{ClientView, McpClient, McpHandle};
use crate::mcp::deferred::tools_of_server;
use crate::mcp::error::{McpError, McpErrorView};
use crate::mcp::manager::tools_of_client;
use crate::mcp::tool::{McpTool, RemoteTool};
use crate::order::lists;
use crate::table::{
    Table, distinct_keys, empty_table, insert_into, table_of, total, total_of_nothing,
    total_of_push, total_without,
};
use crate::text::labelled;

verus! {

/// How long a server that could not be connected is left alone, in seconds.
pub const FAILED_CONNECT_RETRY_COOLDOWN_SECS: u64 = 30;

/// A connected server and how many sessions use it.
#[derive(Debug)]
pub struct PoolEntry {
    pub client: McpClient,
    pub ref_count: usize,
}

/// The model of a connected server and its use.
pub ghost struct EntryView {
    pub client: ClientView,
    pub ref_count: nat,
}

impl DeepView for PoolEntry {
    type V = EntryView;

    open spec fn deep_view(&self) -> EntryView {
        EntryView { client: self.client.deep_view(), ref_count: self.ref_count as nat }
    }
}

/// An attempt to connect to a server.
#[derive(Debug)]
pub enum ConnectAttempt {
    /// Someone is connecting.
    InFlight,
    /// The attempt failed at this time.
    FailedAt(Duration),
}

/// The model of an attempt to connect to a server.
pub ghost enum AttemptView {
    InFlight,
    FailedAt(nat),
}

impl DeepView for ConnectAttempt {
    type V = AttemptView;

    open spec fn deep_view(&self) -> AttemptView {
        match *self {
            ConnectAttempt::InFlight => AttemptView::InFlight,
            ConnectAttempt::FailedAt(when) => AttemptView::FailedAt(when@),
        }
    }
}

/// The servers that sessions share, and the attempts to connect to more. Times count from
/// a moment that stays the same.
#[derive(Debug)]
pub struct SharedMcpPool {
    entries: Table<PoolEntry>,
    attempts: Table<ConnectAttempt>,
}

/// The model of the servers that sessions share.
#[verifier::ext_equal]
pub ghost struct PoolView {
    pub entries: Map<Seq<char>, EntryView>,
    pub attempts: Map<Seq<char>, AttemptView>,
}

impl DeepView for SharedMcpPool {
    type V = PoolView;

    closed spec fn deep_view(&self) -> PoolView {
        PoolView { entries: self.entries.deep_view(), attempts: self.attempts.deep_view() }
    }
}

impl Default for SharedMcpPool {
    fn default() -> (r: SharedMcpPool)
        ensures
            r.deep_view() == empty_pool(),
    {
        SharedMcpPool::new()
    }
}

/// A pool without servers.
pub open spec fn empty_pool() -> PoolView {
    PoolView { entries: Map::empty(), attempts: Map::empty() }
}

/// What a session that wants a server is told.
#[derive(Debug)]
pub enum Acquire {
    /// The server is there.
    Live(McpHandle),
    /// Another session is connecting: wait for it, and ask again.
    Wait,
    /// Connect, and report the outcome.
    Connect,
    /// The server failed a moment ago.
    Refused(McpError),
}

/// The model of what a session that wants a server is told.
pub ghost enum AcquireView {
    Live { server_name: Seq<char>, reconnects: bool },
    Wait,
    Connect,
    Refused(McpErrorView),
}

impl DeepView for Acquire {
    type V = AcquireView;

    open spec fn deep_view(&self) -> AcquireView {
        match *self {
            Acquire::Live(handle) => AcquireView::Live {
                server_name: handle.server_name@,
                reconnects: handle.reconnects,
            },
            Acquire::Wait => AcquireView::Wait,
            Acquire::Connect => AcquireView::Connect,
            Acquire::Refused(error) => AcquireView::Refused(error.deep_view()),
        }
    }
}

/// How long a server that could not be connected is left alone, in nanoseconds.
pub open spec fn cooldown() -> nat {
    (FAILED_CONNECT_RETRY_COOLDOWN_SECS * 1_000_000_000) as nat
}

/// How long ago something was.
pub open spec fn elapsed(since: nat, now: nat) -> nat {
    if since < now {
        (now - since) as nat
    } else {
        0
    }
}

/// What is said of a server that failed a moment ago.
pub open spec fn cooldown_text(server: Seq<char>, remaining: nat) -> Seq<char> {
    "server '"@ + server + "' is in failed-connect cooldown ("@ + spelled(remaining)
        + " remaining)"@
}

/// An entry that one more session uses.
pub open spec fn used_once_more(entry: EntryView) -> EntryView {
    EntryView { client: entry.client, ref_count: entry.ref_count + 1 }
}

/// What a session that wants a server is told, and what becomes of the pool: a connected
/// server has one more user, a new attempt is recorded.
pub open spec fn acquire_step(pool: PoolView, server: Seq<char>, now: nat) -> (
    PoolView,
    AcquireView,
) {
    let connecting = PoolView {
        entries: pool.entries,
        attempts: pool.attempts.insert(server, AttemptView::InFlight),
    };
    if pool.entries.contains_key(server) {
        let entry = pool.entries[server];
        (
            PoolView {
                entries: pool.entries.insert(server, used_once_more(entry)),
                attempts: pool.attempts,
            },
            AcquireView::Live {
                server_name: entry.client.server_name,
                reconnects: entry.client.reconnects,
            },
        )
    } else if !pool.attempts.contains_key(server) {
        (connecting, AcquireView::Connect)
    } else {
        match pool.attempts[server] {
            AttemptView::InFlight => (pool, AcquireView::Wait),
            AttemptView::FailedAt(when) => if elapsed(when, now) < cooldown() {
                (
                    pool,
                    AcquireView::Refused(
                        McpErrorView::Protocol(
                            cooldown_text(server, (cooldown() - elapsed(when, now)) as nat),
                        ),
                    ),
                )
            } else {
                (connecting, AcquireView::Connect)
            },
        }
    }
}

/// What becomes of the pool when an attempt ends: the server is there with one user, or
/// the failure is recorded.
pub open spec fn connect_step(
    pool: PoolView,
    server: Seq<char>,
    outcome: Result<ClientView, McpErrorView>,
    now: nat,
) -> PoolView {
    match outcome {
        Ok(client) => PoolView {
            entries: pool.entries.insert(server, EntryView { client, ref_count: 1 }),
            attempts: pool.attempts.remove(server),
        },
        Err(_) => PoolView {
            entries: pool.entries,
            attempts: pool.attempts.insert(server, AttemptView::FailedAt(now)),
        },
    }
}

/// What becomes of the pool when a session lets a server go: it has one user less, and
/// stays.
pub open spec fn release_step(pool: PoolView, server: Seq<char>) -> PoolView {
    if pool.entries.contains_key(server) {
        let entry = pool.entries[server];
        PoolView {
            entries: pool.entries.insert(
                server,
                EntryView {
                    client: entry.client,
                    ref_count: if entry.ref_count > 0 {
                        (entry.ref_count - 1) as nat
                    } else {
                        0
                    },
                },
            ),
            attempts: pool.attempts,
        }
    } else {
        pool
    }
}

/// How many sessions use a server.
pub open spec fn users() -> spec_fn(PoolEntry) -> nat {
    |entry: PoolEntry| entry.ref_count as nat
}

/// How many uses of servers there are.
pub open spec fn refs(pool: PoolView) -> nat {
    total(pool.entries.map_values(|entry: EntryView| entry.ref_count))
}

impl SharedMcpPool {
    /// A pool without servers.
    pub fn new() -> (r: SharedMcpPool)
        ensures
            r.deep_view() == empty_pool(),
    {
        SharedMcpPool { entries: empty_table(), attempts: empty_table() }
    }

    /// Asks for a server.
    pub fn acquire(&mut self, server_name: &str, now: Duration) -> (r: Acquire)
        requires
            old(self).deep_view().entries.contains_key(server_name@) ==> old(
                self,
            ).deep_view().entries[server_name@].ref_count < usize::MAX,
        ensures
            (final(self).deep_view(), r.deep_view()) == acquire_step(
                old(self).deep_view(),
                server_name@,
                now@,
            ),
    {
        let ghost start = self.deep_view();
        match self.entries.remove(server_name) {
            Some(entry) => {
                let ghost without = self.entries.deep_view();
                assert(start.entries[server_name@] == entry.deep_view());
                let handle = entry.client.handle.clone();
                let PoolEntry { client, ref_count } = entry;
                insert_into(
                    &mut self.entries,
                    server_name,
                    PoolEntry { client, ref_count: ref_count + 1 },
                );
                assert(self.entries.deep_view() =~= start.entries.insert(
                    server_name@,
                    used_once_more(start.entries[server_name@]),
                ));
                return Acquire::Live(handle);
            },
            None => {
                assert(self.entries.deep_view() =~= start.entries);
            },
        }
        match self.attempts.get(server_name) {
            None => {},
            Some(ConnectAttempt::InFlight) => {
                return Acquire::Wait;
            },
            Some(ConnectAttempt::FailedAt(when)) => {
                let passed = now.saturating_sub(*when);
                let whole = Duration::from_secs(FAILED_CONNECT_RETRY_COOLDOWN_SECS);
                if passed.as_nanos() < whole.as_nanos() {
                    let mut message = labelled("server '", server_name);
                    message.append("' is in failed-connect cooldown (");
                    message.append(whole.saturating_sub(passed).debug_text().as_str());
                    message.append(" remaining)");
                    return Acquire::Refused(McpError::Protocol(message));
                }
            },
        }
        insert_into(&mut self.attempts, server_name, ConnectAttempt::InFlight);
        Acquire::Connect
    }

    /// Takes in how an attempt to connect ended.
    pub fn finish_connect(
        &mut self,
        server_name: &str,
        outcome: Result<McpClient, McpError>,
        now: Duration,
    ) -> (r: Result<McpHandle, McpError>)
        ensures
            final(self).deep_view() == connect_step(
                old(self).deep_view(),
                server_name@,
                match outcome {
                    Ok(client) => Ok(client.deep_view()),
                    Err(error) => Err(error.deep_view()),
                },
                now@,
            ),
            match (outcome, r) {
                (Ok(client), Ok(handle)) => handle.server_name@ == client.handle.server_name@
                    && handle.reconnects == client.handle.reconnects,
                (Err(error), Err(given)) => given == error,
                _ => false,
            },
    {
        let ghost start = self.deep_view();
        match outcome {
            Ok(client) => {
                let handle = client.handle.clone();
                insert_into(&mut self.entries, server_name, PoolEntry { client, ref_count: 1 });
                let _ = self.attempts.remove(server_name);
                assert(self.attempts.deep_view() =~= start.attempts.remove(server_name@));
                Ok(handle)
            },
            Err(error) => {
                insert_into(&mut self.attempts, server_name, ConnectAttempt::FailedAt(now));
                Err(error)
            },
        }
    }

    /// Lets a server go.
    pub fn release(&mut self, server_name: &str)
        ensures
            final(self).deep_view() == release_step(old(self).deep_view(), server_name@),
    {
        let ghost start = self.deep_view();
        match self.entries.remove(server_name) {
            Some(entry) => {
                assert(start.entries[server_name@] == entry.deep_view());
                let PoolEntry { client, ref_count } = entry;
                let ref_count = if ref_count > 0 {
                    ref_count - 1
                } else {
                    0
                };
                insert_into(&mut self.entries, server_name, PoolEntry { client, ref_count });
                assert(self.deep_view() =~= release_step(start, server_name@));
            },
            None => {
                assert(self.entries.deep_view() =~= start.entries);
            },
        }
    }

    /// The tools of a server; none where it is not in the pool.
    pub fn tools_for(&self, server_name: &str) -> (r: Vec<McpTool>)
        ensures
            r.deep_view() == if self.deep_view().entries.contains_key(server_name@) {
                let client = self.deep_view().entries[server_name@].client;
                tools_of_server(client.server_name, client.reconnects, client.tools)
            } else {
                Seq::empty()
            },
    {
        match self.entries.get(server_name) {
            Some(entry) => tools_of_client(&entry.client),
            None => {
                let none: Vec<McpTool> = Vec::new();
                assert(none.deep_view() =~= Seq::<RemoteTool>::empty());
                none
            },
        }
    }

    /// The names of the servers, in order.
    pub fn server_names(&self) -> (r: Vec<String>)
        ensures
            lists(r.deep_view(), self.deep_view().entries.dom()),
    {
        assert(self.deep_view().entries.dom() =~= self.entries@.dom());
        self.entries.sorted_keys()
    }

    /// How many servers there are.
    pub fn len(&self) -> (r: usize)
        ensures
            r == self.deep_view().entries.dom().len(),
    {
        assert(self.deep_view().entries.dom() =~= self.entries@.dom());
        self.entries.len()
    }

    /// Whether there are no servers.
    pub fn is_empty(&self) -> (r: bool)
        ensures
            r == (self.deep_view().entries.dom().len() == 0),
    {
        self.len() == 0
    }

    /// How many sessions use a server; none where it is not in the pool.
    pub fn ref_count(&self, server_name: &str) -> (r: usize)
        ensures
            r == if self.deep_view().entries.contains_key(server_name@) {
                self.deep_view().entries[server_name@].ref_count
            } else {
                0
            },
    {
        match self.entries.get(server_name) {
            Some(entry) => entry.ref_count,
            None => 0,
        }
    }

    /// How many uses of servers there are.
    pub fn total_refs(&self) -> (r: usize)
        requires
            refs(self.deep_view()) <= usize::MAX,
        ensures
            r == refs(self.deep_view()),
    {
        let entries = self.entries.entries();
        let mut sum: u128 = 0;
        let mut i: usize = 0;
        let ghost all = entries@;
        proof {
            total_of_nothing(all.take(0), users());
        }
        while i < entries.len()
            invariant
                i <= entries@.len(),
                all == entries@,
                distinct_keys(all),
                sum <= i * 0xffff_ffff_ffff_ffff,
                sum == total(table_of(all.take(i as int)).map_values(users())),
            decreases entries@.len() - i,
        {
            proof {
                assert forall|a: int, b: int| 0 <= a < b < all.take(i + 1).len() implies (
                #[trigger] all.take(i + 1)[a]).0@ != (#[trigger] all.take(i + 1)[b]).0@ by {
                    assert(all[a].0@ != all[b].0@);
                }
                assert(all.take(i + 1).drop_last() =~= all.take(i as int));
                total_of_push(all.take(i + 1), users());
            }
            let n: usize = entries[i].1.ref_count;
            sum = sum + n as u128;
            i = i + 1;
        }
        proof {
            assert(all.take(i as int) =~= all);
            assert(self.entries@.map_values(users()) =~= self.deep_view().entries.map_values(
                |entry: EntryView| entry.ref_count,
            ));
        }
        sum as usize
    }

    /// Takes a server out of the pool, so that it can be shut down.
    pub fn shutdown(&mut self, server_name: &str) -> (r: Option<McpClient>)
        ensures
            final(self).deep_view() == (PoolView {
                entries: old(self).deep_view().entries.remove(server_name@),
                attempts: old(self).deep_view().attempts,
            }),
            r.deep_view() == if old(self).deep_view().entries.contains_key(server_name@) {
                Some(old(self).deep_view().entries[server_name@].client)
            } else {
                None
            },
    {
        let ghost start = self.deep_view();
        let removed = self.entries.remove(server_name);
        assert(self.entries.deep_view() =~= start.entries.remove(server_name@));
        match removed {
            Some(entry) => {
                assert(start.entries[server_name@] == entry.deep_view());
                Some(entry.client)
            },
            None => None,
        }
    }

    /// Takes all servers out of the pool, so that they can be shut down.
    pub fn shutdown_all(&mut self) -> (r: Table<PoolEntry>)
        ensures
            final(self).deep_view() == (PoolView {
                entries: Map::empty(),
                attempts: old(self).deep_view().attempts,
            }),
            r.deep_view() == old(self).deep_view().entries,
    {
        let mut entries: Table<PoolEntry> = empty_table();
        std::mem::swap(&mut entries, &mut self.entries);
        entries
    }
}

/// A session that gets a server and lets it go leaves the pool as it was.
pub proof fn releasing_undoes_acquiring(pool: PoolView, server: Seq<char>, now: nat)
    requires
        pool.entries.contains_key(server),
    ensures
        release_step(acquire_step(pool, server, now).0, server) == pool,
{
    assert(release_step(acquire_step(pool, server, now).0, server) =~= pool);
}

/// While a session is connecting to a server, no other is told to connect to it.
pub proof fn one_session_connects(pool: PoolView, server: Seq<char>, now: nat, later: nat)
    requires
        acquire_step(pool, server, now).1 is Connect,
    ensures
        acquire_step(acquire_step(pool, server, now).0, server, later).1 is Wait,
        acquire_step(acquire_step(pool, server, now).0, server, later).0 == acquire_step(
            pool,
            server,
            now,
        ).0,
{
}

/// A server that could not be connected is left alone for the whole cooldown, and tried
/// again behind it.
pub proof fn failed_servers_are_left_alone(
    pool: PoolView,
    server: Seq<char>,
    error: McpErrorView,
    failed: nat,
    now: nat,
)
    requires
        !pool.entries.contains_key(server),
        failed <= now,
    ensures
        ({
            let after = connect_step(pool, server, Err(error), failed);
            &&& now - failed < cooldown() ==> acquire_step(after, server, now).1 is Refused
                && acquire_step(after, server, now).0 == after
            &&& now - failed >= cooldown() ==> acquire_step(after, server, now).1 is Connect
        }),
{
}

/// A session that gets a server adds one use, and one that lets it go takes one away,
/// where there is one.
pub proof fn uses_are_counted(pool: PoolView, server: Seq<char>, now: nat)
    requires
        pool.entries.dom().finite(),
        pool.entries.contains_key(server),
    ensures
        refs(acquire_step(pool, server, now).0) == refs(pool) + 1,
        refs(release_step(pool, server)) == if pool.entries[server].ref_count > 0 {
            refs(pool) - 1
        } else {
            refs(pool) as int
        },
{
    let count = |entry: EntryView| entry.ref_count;
    let now_used = pool.entries.map_values(count);
    let more = acquire_step(pool, server, now).0.entries.map_values(count);
    let less = release_step(pool, server).entries.map_values(count);
    assert(now_used.dom() =~= pool.entries.dom());
    assert(more.dom() =~= pool.entries.dom());
    assert(less.dom() =~= pool.entries.dom());
    total_without(now_used, server);
    total_without(more, server);
    total_without(less, server);
    assert(more.remove(server) =~= now_used.remove(server));
    assert(less.remove(server) =~= now_used.remove(server));
}

/// What happens to one server touches no other.
pub proof fn servers_do_not_interfere(
    pool: PoolView,
    server: Seq<char>,
    other: Seq<char>,
    outcome: Result<ClientView, McpErrorView>,
    now: nat,
)
    requires
        server != other,
    ensures
        forall|after: PoolView|
            after == acquire_step(pool, server, now).0 || after == connect_step(
                pool,
                server,
                outcome,
                now,
            ) || after == release_step(pool, server) ==> {
                &&& (#[trigger] after.entries.contains_key(other) <==> pool.entries.contains_key(
                    other,
                ))
                &&& pool.entries.contains_key(other) ==> after.entries[other]
                    == pool.entries[other]
                &&& (after.attempts.contains_key(other) <==> pool.attempts.contains_key(other))
                &&& pool.attempts.contains_key(other) ==> after.attempts[other]
                    == pool.attempts[other]
            },
{
}

} // verus!
