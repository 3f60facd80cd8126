//! The servers of one session.
use vstd::prelude::*;

use crate::mcp::client::{ClientView, McpClient};
use crate::mcp::deferred::tools_of_server;
use crate::mcp::error::McpError;
use crate::mcp::tool::{McpTool, RemoteTool};
use crate::order::{lists, lists_are_unique};
use crate::table::{
    Table, distinct_keys, empty_table, insert_into, table_of, total, total_of_nothing,
    total_of_push,
};
use crate::text::push_to;

verus! {

/// The connected servers of a session, by name.
#[derive(Debug)]
pub struct McpManager {
    pub clients: Table<McpClient>,
}

impl DeepView for McpManager {
    type V = Map<Seq<char>, ClientView>;

    open spec fn deep_view(&self) -> Map<Seq<char>, ClientView> {
        self.clients.deep_view()
    }
}

impl Default for McpManager {
    fn default() -> (r: McpManager)
        ensures
            r.deep_view() == Map::<Seq<char>, ClientView>::empty(),
    {
        McpManager::new()
    }
}

/// The servers that could be connected, by name. Of a repeated name the last counts.
pub open spec fn came_up(outcomes: Seq<(String, Result<McpClient, McpError>)>) -> Map<
    Seq<char>,
    ClientView,
>
    decreases outcomes.len(),
{
    if outcomes.len() == 0 {
        Map::empty()
    } else {
        let before = came_up(outcomes.drop_last());
        match outcomes.last().1 {
            Ok(client) => before.insert(outcomes.last().0@, client.deep_view()),
            Err(_) => before,
        }
    }
}

/// The tools of the servers of the given names, one server behind the other.
pub open spec fn tools_by_name(names: Seq<Seq<char>>, clients: Map<Seq<char>, ClientView>) -> Seq<
    RemoteTool,
>
    decreases names.len(),
{
    if names.len() == 0 {
        Seq::empty()
    } else {
        let client = clients[names.last()];
        tools_by_name(names.drop_last(), clients) + tools_of_server(
            client.server_name,
            client.reconnects,
            client.tools,
        )
    }
}

/// How many tools a server has.
pub open spec fn tool_count() -> spec_fn(McpClient) -> nat {
    |client: McpClient| client.tools@.len()
}

/// How many tools all servers have.
pub open spec fn tool_total(clients: Map<Seq<char>, ClientView>) -> nat {
    total(clients.map_values(|client: ClientView| client.tools.len()))
}

/// Builds the tools of one server behind those in `tools`.
pub(crate) fn add_tools(tools: &mut Vec<McpTool>, client: &McpClient)
    ensures
        final(tools).deep_view() == old(tools).deep_view() + tools_of_server(
            client.deep_view().server_name,
            client.deep_view().reconnects,
            client.deep_view().tools,
        ),
{
    let ghost before = tools.deep_view();
    let ghost defs = client.tools.deep_view();
    let mut k: usize = 0;
    assert(before =~= before + tools_of_server(
        client.handle.server_name@,
        client.handle.reconnects,
        defs.take(0),
    ));
    while k < client.tools.len()
        invariant
            k <= client.tools@.len(),
            defs == client.tools.deep_view(),
            tools.deep_view() == before + tools_of_server(
                client.handle.server_name@,
                client.handle.reconnects,
                defs.take(k as int),
            ),
        decreases client.tools@.len() - k,
    {
        push_to(tools, McpTool::new(client.handle.clone(), client.tools[k].clone()));
        assert(tools.deep_view() =~= before + tools_of_server(
            client.handle.server_name@,
            client.handle.reconnects,
            defs.take(k + 1),
        ));
        k = k + 1;
    }
    assert(defs.take(k as int) =~= defs);
}

/// The tools of one server.
pub fn tools_of_client(client: &McpClient) -> (r: Vec<McpTool>)
    ensures
        r.deep_view() == tools_of_server(
            client.deep_view().server_name,
            client.deep_view().reconnects,
            client.deep_view().tools,
        ),
{
    let mut tools: Vec<McpTool> = Vec::new();
    add_tools(&mut tools, client);
    assert(tools.deep_view() =~= tools_of_server(
        client.deep_view().server_name,
        client.deep_view().reconnects,
        client.deep_view().tools,
    ));
    tools
}

impl McpManager {
    /// A session without servers.
    pub fn new() -> (r: McpManager)
        ensures
            r.deep_view() == Map::<Seq<char>, ClientView>::empty(),
    {
        McpManager { clients: empty_table() }
    }

    /// The servers that could be connected. The others are left out.
    pub fn from_outcomes(outcomes: Vec<(String, Result<McpClient, McpError>)>) -> (r: McpManager)
        ensures
            r.deep_view() == came_up(outcomes@),
    {
        let ghost all = outcomes@;
        let mut left = outcomes;
        let mut clients: Table<McpClient> = empty_table();
        let ghost mut taken: int = 0;
        while left.len() > 0
            invariant
                0 <= taken <= all.len(),
                left@ == all.skip(taken),
                clients.deep_view() == came_up(all.take(taken)),
            decreases left@.len(),
        {
            let (name, outcome) = left.remove(0);
            proof {
                assert(all.take(taken + 1).drop_last() =~= all.take(taken));
                assert(all.take(taken + 1).last() == (name, outcome));
                assert(left@ =~= all.skip(taken + 1));
                taken = taken + 1;
            }
            match outcome {
                Ok(client) => {
                    insert_into(&mut clients, name.as_str(), client);
                },
                Err(_) => {},
            }
        }
        assert(all.take(taken) =~= all);
        McpManager { clients }
    }

    /// The names of the servers, in order.
    pub fn server_names(&self) -> (r: Vec<String>)
        ensures
            lists(r.deep_view(), self.deep_view().dom()),
    {
        assert(self.deep_view().dom() =~= self.clients@.dom());
        self.clients.sorted_keys()
    }

    /// How many servers there are.
    pub fn len(&self) -> (r: usize)
        ensures
            r == self.deep_view().dom().len(),
    {
        assert(self.deep_view().dom() =~= self.clients@.dom());
        self.clients.len()
    }

    /// Whether there are no servers.
    pub fn is_empty(&self) -> (r: bool)
        ensures
            r == (self.deep_view().dom().len() == 0),
    {
        self.len() == 0
    }

    /// The tools of all servers, in the order of the servers' names.
    pub fn all_tools(&self) -> (r: Vec<McpTool>)
        ensures
            forall|names: Seq<Seq<char>>| #[trigger]
                lists(names, self.deep_view().dom()) ==> r.deep_view() == tools_by_name(
                    names,
                    self.deep_view(),
                ),
    {
        let names = self.server_names();
        let ghost order = names.deep_view();
        let ghost clients = self.deep_view();
        let mut tools: Vec<McpTool> = Vec::new();
        let mut i: usize = 0;
        assert(tools.deep_view() =~= Seq::empty());
        while i < names.len()
            invariant
                i <= names@.len(),
                order == names.deep_view(),
                clients == self.deep_view(),
                lists(order, clients.dom()),
                tools.deep_view() == tools_by_name(order.take(i as int), clients),
            decreases names@.len() - i,
        {
            proof {
                assert(order.take(i + 1).drop_last() =~= order.take(i as int));
                assert(order[i as int] == names@[i as int]@);
                assert(order.contains(order[i as int]));
                assert(clients.dom().contains(order[i as int]));
            }
            match self.clients.get(names[i].as_str()) {
                Some(client) => {
                    add_tools(&mut tools, client);
                },
                None => {
                    assert(false);
                },
            }
            i = i + 1;
        }
        proof {
            assert(order.take(i as int) =~= order);
            assert forall|others: Seq<Seq<char>>| #[trigger]
                lists(others, clients.dom()) implies tools.deep_view() == tools_by_name(
                others,
                clients,
            ) by {
                lists_are_unique(others, order, clients.dom());
            }
        }
        tools
    }

    /// How many tools all servers have.
    pub fn total_tool_count(&self) -> (r: usize)
        requires
            tool_total(self.deep_view()) <= usize::MAX,
        ensures
            r == tool_total(self.deep_view()),
    {
        let entries = self.clients.entries();
        let mut sum: u128 = 0;
        let mut i: usize = 0;
        let ghost all = entries@;
        proof {
            total_of_nothing(all.take(0), tool_count());
        }
        while i < entries.len()
            invariant
                i <= entries@.len(),
                all == entries@,
                distinct_keys(all),
                sum <= i * 0xffff_ffff_ffff_ffff,
                sum == total(table_of(all.take(i as int)).map_values(tool_count())),
            decreases entries@.len() - i,
        {
            proof {
                assert forall|a: int, b: int| 0 <= a < b < all.take(i + 1).len() implies (
                #[trigger] all.take(i + 1)[a]).0@ != (#[trigger] all.take(i + 1)[b]).0@ by {
                    assert(all[a].0@ != all[b].0@);
                }
                assert(all.take(i + 1).drop_last() =~= all.take(i as int));
                total_of_push(all.take(i + 1), tool_count());
            }
            let n: usize = entries[i].1.tools.len();
            sum = sum + n as u128;
            i = i + 1;
        }
        proof {
            assert(all.take(i as int) =~= all);
            assert(self.clients@.map_values(tool_count()) =~= self.deep_view().map_values(
                |client: ClientView| client.tools.len(),
            ));
        }
        sum as usize
    }

    /// The server of the given name.
    pub fn client(&self, server_name: &str) -> (r: Option<&McpClient>)
        ensures
            r.deep_view() == if self.deep_view().contains_key(server_name@) {
                Some(self.deep_view()[server_name@])
            } else {
                None
            },
    {
        self.clients.get(server_name)
    }
}

} // verus!
